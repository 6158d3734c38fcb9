//! What holds of the dialect of a file and of what is counted of it as a whole.

use vstd::prelude::*;

use crate::dialect::{
    directive_of, inferred, resolves, set_by_line, DialectResolution, DirectiveStatus,
};
use crate::facts::{
    describes_blocks, describes_file, describes_health, lines_touched, recovery_of, rules_of,
    select_items, spills, SqlFileFacts,
};
use crate::grammar::{kind_named, DialectKind};
use crate::kind::{Kind, KindSet};
use crate::output_laws::{lemma_scope, own_scope, query_block, scope_probe};
use crate::span::Lines;
use crate::subqueries::select_depth;
use crate::text::{is_space, occurs_at, starts_with, trim, trim_end, trim_start};
use crate::text_laws::first_places_are_found;
use crate::tree::{all_in, reports, well_formed, Node};
use crate::tree_laws::{
    highest_in, lemma_crawled_all, lemma_highest, lemma_listed, lemma_nesting_of_kind,
    lemma_totalled, level, nodes_in, total_in,
};

verus! {

// ── dialects ───────────────────────────────────────────────────────────

/// A dialect is found by the name that it is published under, and only by it.
pub proof fn dialects_are_found_by_their_name(name: Seq<char>, kind: DialectKind)
    ensures
        kind_named(name) == Some(kind) ==> kind.spelled() == name,
        kind.spelled() == name ==> kind_named(name) is Some,
{
}

/// The dialects that this build can read.
pub proof fn grammars_of_this_build(kind: DialectKind)
    ensures
        !kind.is_compiled() <==> kind is Databricks || kind is Duckdb || kind is Exasol
            || kind is Greenplum || kind is Materialize || kind is Starrocks || kind is Teradata
            || kind is Trino,
{
}

/// The dialects whose procedural code is told apart in ways of their own.
pub proof fn dialects_have_their_rules(kind: DialectKind)
    ensures
        rules_of(kind).batches <==> kind is Tsql,
        rules_of(kind).brackets <==> kind is Bigquery,
        recovery_of(kind) is Batches <==> kind is Tsql,
        recovery_of(kind) is Delimited <==> kind is Mysql,
        recovery_of(kind) is Packages <==> kind is Oracle,
        recovery_of(kind) is Nothing <==> !(kind is Tsql) && !(kind is Mysql) && !(kind is Oracle),
        spills(kind) <==> kind is Tsql || kind is Mysql,
{
}

/// A file is read in the dialect that it names itself, or else in the one that is
/// asked for, or else in the one that its words speak for; a dialect without a
/// grammar is passed over.
pub proof fn files_name_their_dialect(
    text: Seq<char>,
    requested: Option<DialectKind>,
    r: DialectResolution,
)
    requires
        resolves(text, requested, r),
    ensures
        ({
            let named = directive_of(text) matches Some(name) && kind_named(name) is Some
                && kind_named(name)->0.is_compiled();
            let asked = requested is Some && requested->0.is_compiled();
            &&& named ==> r.effective == kind_named(directive_of(text)->0)->0 && r.confidence == 100
            &&& !named && asked ==> r.effective == requested->0 && r.confidence == 100
            &&& !named && !asked ==> r.effective == inferred(text).kind && r.confidence
                == inferred(text).confidence
        }),
        r.requested == requested,
        r.inferred == inferred(text).kind,
        r.conflict_count == inferred(text).conflict_count,
{
    crate::dialect::guesses_are_cautious(text);
}

/// What becomes of the name in a directive.
pub proof fn directives_are_judged(
    text: Seq<char>,
    requested: Option<DialectKind>,
    r: DialectResolution,
)
    requires
        resolves(text, requested, r),
    ensures
        r.directive is Some <==> directive_of(text) is Some,
        r.directive matches Some(d) ==> {
            let kind = kind_named(d.name@);
            &&& directive_of(text) == Some(d.name@)
            &&& d.status is Unknown <==> kind is None
            &&& d.status is Unsupported <==> kind is Some && !kind->0.is_compiled()
            &&& kind is Some && kind->0.is_compiled() ==> d.status
                == DirectiveStatus::Active(kind->0)
        },
{
}

/// A line that sets the dialect sets it to what stands after the last colon.
pub proof fn settings_are_read(name: Seq<char>)
    requires
        name.len() > 0,
        !is_space(name[0]),
        !is_space(name.last()),
        !name.contains(':'),
    ensures
        set_by_line("-- sqlfluff:dialect:"@ + name) == Some(name),
{
    reveal_strlit("-- sqlfluff:dialect:");
    reveal_strlit("-- sqlfluff");
    reveal_strlit("--sqlfluff");
    reveal_strlit("sqlfluff:");
    reveal_strlit("dialect");
    let line = "-- sqlfluff:dialect:"@ + name;
    assert(line.subrange(0, 0int + "-- sqlfluff"@.len()) =~= "-- sqlfluff"@);
    let tail = line.skip(2);
    let bare = tail.drop_first();
    assert(tail[0] == ' ');
    assert(bare[0] == 's');
    assert(trim_start(bare) == bare);
    assert(trim_start(tail) == bare);
    assert(bare.last() == name.last());
    assert(trim_end(bare) == bare);
    let inner = trim(tail);
    assert(inner == bare);
    assert(inner.subrange(0, 0int + "sqlfluff:"@.len()) =~= "sqlfluff:"@);
    let rest = inner.skip(9);
    assert(rest[0] == 'd');
    assert(rest.last() == name.last());
    assert(trim_start(rest) == rest);
    assert(trim(rest) == rest);
    let colon = seq![':'];
    assert(rest.subrange(7, 8) =~= colon);
    assert forall|j: int| 0 <= j < 7 implies !#[trigger] occurs_at(rest, colon, j) by {
        if occurs_at(rest, colon, j) {
            assert(rest.subrange(j, j + 1)[0] == ':');
            assert(rest[j] == ':');
        }
    }
    first_places_are_found(rest, colon, 0, 7);
    let value = rest.skip(8);
    assert(value =~= name);
    assert(trim_start(name) == name);
    assert(trim(value) == name);
    let key = rest.take(7);
    assert(key =~= "dialect"@);
    assert(trim_start(key) == key);
    assert(trim_end(key) == key);
}

/// A line sets a dialect only where it starts as a setting does, and then to a
/// name that is not empty and has no colon in it.
pub proof fn only_settings_set(line: Seq<char>)
    ensures
        set_by_line(line) matches Some(name) ==> (starts_with(line, "-- sqlfluff"@) || starts_with(
            line,
            "--sqlfluff"@,
        )) && name.len() > 0 && !name.contains(':'),
{
}

// ── counts of a file ───────────────────────────────────────────────────

/// The query blocks of a file, how deep they lie in each other, and the items
/// that each selects in its own scope.
pub proof fn query_blocks_are_counted(n: Seq<Node>, root: int, f: SqlFileFacts)
    requires
        well_formed(n),
        0 <= root < n.len(),
        describes_blocks(n, root, f),
    ensures
        f.query_block_count == nodes_in(n, root, |j: int| n[j].kind is SelectStatement),
        f.query_block_max_depth == highest_in(
            n,
            root,
            |j: int|
                if n[j].kind is SelectStatement {
                    level(n, root, query_block(n), j)
                } else {
                    0
                },
        ),
        f.select_item_total == total_in(
            n,
            root,
            |j: int|
                if n[j].kind is SelectStatement {
                    selected_in(n, j)
                } else {
                    0
                },
        ),
        f.select_item_max == highest_in(
            n,
            root,
            |j: int|
                if n[j].kind is SelectStatement {
                    selected_in(n, j)
                } else {
                    0
                },
        ),
{
    let set = KindSet::Only(Kind::SelectStatement);
    let end = n[root].end as int;
    lemma_listed(n, root, set, |j: int| n[j].kind is SelectStatement);
    lemma_nesting_of_kind(n, root, Kind::SelectStatement, query_block(n));
    let d = |j: int|
        if n[j].kind is SelectStatement {
            level(n, root, query_block(n), j)
        } else {
            0
        };
    assert forall|j: int| root <= j < end implies #[trigger] d(j) == if set.holds(n[j].kind) {
        select_depth(n, root)(j as usize)
    } else {
        0
    } by {
        assert(select_depth(n, root)(j as usize) == level(n, root, query_block(n), j));
    }
    lemma_highest(n, root, set, select_depth(n, root), d);
    let s = |j: int|
        if n[j].kind is SelectStatement {
            selected_in(n, j)
        } else {
            0
        };
    assert forall|j: int| root <= j < end implies #[trigger] s(j) == if set.holds(n[j].kind) {
        select_items(n)(j as usize)
    } else {
        0
    } by {
        lemma_selected(n, j);
    }
    lemma_totalled(n, root, set, select_items(n), s);
    lemma_highest(n, root, set, select_items(n), s);
}

/// How many items a query selects in its own scope.
pub open spec fn selected_in(n: Seq<Node>, j: int) -> int {
    nodes_in(n, j, |c: int| n[c].kind is SelectClauseElement && own_scope(n, j, c))
}

proof fn lemma_selected(n: Seq<Node>, j: int)
    requires
        well_formed(n),
        0 <= j < n.len(),
    ensures
        select_items(n)(j as usize) == selected_in(n, j),
{
    let set = KindSet::Only(Kind::SelectClauseElement);
    let q = |c: int| n[c].kind is SelectClauseElement && own_scope(n, j, c);
    assert forall|c: int| j <= c < n[j].end implies #[trigger] q(c) == reports(
        n,
        j,
        scope_probe(set),
        c,
    ) by {
        lemma_scope(n, j, set, c);
    }
    lemma_crawled_all(n, j, scope_probe(set), q);
}

/// What could not be parsed, in segments and in the lines that they touch.
pub proof fn unparsed_lines_are_counted(n: Seq<Node>, lines: Lines, root: int, f: SqlFileFacts)
    requires
        well_formed(n),
        0 <= root < n.len(),
        describes_health(n, lines, root, f),
    ensures
        f.unparsable_segments == nodes_in(n, root, |j: int| n[j].kind is Unparsable),
        f.unparsable_lines == total_in(
            n,
            root,
            |j: int|
                if n[j].kind is Unparsable && n[j].span is Some {
                    let range = n[j].span->0;
                    if lines.line(range.0) <= lines.last_line(range.1) {
                        lines.last_line(range.1) - lines.line(range.0) + 1
                    } else {
                        1
                    }
                } else {
                    0
                },
        ),
{
    let set = KindSet::Only(Kind::Unparsable);
    lemma_listed(n, root, set, |j: int| n[j].kind is Unparsable);
    let g = |j: int|
        if n[j].kind is Unparsable && n[j].span is Some {
            let range = n[j].span->0;
            if lines.line(range.0) <= lines.last_line(range.1) {
                lines.last_line(range.1) - lines.line(range.0) + 1
            } else {
                1
            }
        } else {
            0
        };
    lemma_totalled(n, root, set, lines_touched(n, lines), g);
}

proof fn lemma_references(n: Seq<Node>, root: int)
    requires
        well_formed(n),
        0 <= root < n.len(),
    ensures
        all_in(n, root, KindSet::TableReferences).len() == nodes_in(
            n,
            root,
            |j: int| n[j].kind is TableReference || n[j].kind is OracleTableReference,
        ),
{
    lemma_listed(
        n,
        root,
        KindSet::TableReferences,
        |j: int| n[j].kind is TableReference || n[j].kind is OracleTableReference,
    );
}

#[verifier::opaque]
spec fn refers(n: Seq<Node>, root: int, f: SqlFileFacts) -> bool {
    f.relation_ref_count == all_in(n, root, KindSet::TableReferences).len()
        + f.subqueries.derived_table_count
}

#[verifier::spinoff_prover]
#[verifier::rlimit(50)]
proof fn lemma_refers(
    n: Seq<Node>,
    lines: Lines,
    root: int,
    kind: DialectKind,
    emit: bool,
    f: SqlFileFacts,
)
    requires
        describes_file(n, lines, root, kind, emit, f),
    ensures
        refers(n, root, f),
{
    reveal(refers);
}

/// The relations of a file are its table references and its derived tables.
#[verifier::spinoff_prover]
#[verifier::rlimit(50)]
pub proof fn relations_are_counted(
    n: Seq<Node>,
    lines: Lines,
    root: int,
    kind: DialectKind,
    emit: bool,
    f: SqlFileFacts,
)
    requires
        well_formed(n),
        0 <= root < n.len(),
        describes_file(n, lines, root, kind, emit, f),
    ensures
        f.relation_ref_count == nodes_in(
            n,
            root,
            |j: int| n[j].kind is TableReference || n[j].kind is OracleTableReference,
        ) + f.subqueries.derived_table_count,
{
    lemma_refers(n, lines, root, kind, emit, f);
    lemma_relations(n, root, f);
}

proof fn lemma_relations(n: Seq<Node>, root: int, f: SqlFileFacts)
    requires
        well_formed(n),
        0 <= root < n.len(),
        refers(n, root, f),
    ensures
        f.relation_ref_count == nodes_in(
            n,
            root,
            |j: int| n[j].kind is TableReference || n[j].kind is OracleTableReference,
        ) + f.subqueries.derived_table_count,
{
    reveal(refers);
    lemma_references(n, root);
}

} // verus!
