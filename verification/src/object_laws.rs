//! What a file does to database objects, counted statement by statement.

use vstd::prelude::*;

use crate::kind::{Kind, KindSet};
use crate::names::own_level;
use crate::objects::{
    block_events, block_events_by, block_search, blocks_events, code_leaves, controls_transaction,
    describes_objects, dml_in, events, events_at, in_block, keyword_spelled, keywords_in,
    kind_change, lacks_where, object_events, object_log, placed_span, replace_events, returning_events,
    returning_in, risks, span_or, statement_events, tally, touched, unfiltered, unfiltered_events,
    Change, ChangeRiskEvidence, ChangeRiskFactor, ObjectEvent, ObjectFacts,
};
use crate::output_laws::own_scope;
use crate::span::{empty_span, Lines, SourceSpan};
use crate::statements::{node_bracket, StatementFacts, StatementKind};
use crate::tree::{
    closes, crawl, kept, number, open_to, raw_word, reports, trimmed_word, well_formed, Node, Probe,
};
use crate::tree_laws::{lemma_crawled, lemma_crawled_all, nodes_in, total};
use crate::word::Word;

verus! {

// ── events ─────────────────────────────────────────────────────────────

proof fn lemma_tally_concat(a: Seq<ObjectEvent>, b: Seq<ObjectEvent>, change: Change)
    ensures
        tally(a + b, change) == tally(a, change) + tally(b, change),
    decreases b.len(),
{
    if b.len() == 0 {
        assert(a + b =~= a);
    } else {
        lemma_tally_concat(a, b.drop_last(), change);
        assert((a + b).drop_last() =~= a + b.drop_last());
    }
}

proof fn lemma_tally_push(a: Seq<ObjectEvent>, e: ObjectEvent, change: Change)
    ensures
        tally(a.push(e), change) == tally(a, change) + if e.change == change {
            1int
        } else {
            0
        },
{
    assert(a.push(e).drop_last() =~= a);
}

proof fn lemma_tally_events(
    n: Seq<Node>,
    lines: Lines,
    fallback: SourceSpan,
    change: Change,
    s: Seq<usize>,
    k: int,
    other: Change,
)
    requires
        0 <= k,
    ensures
        tally(events_at(n, lines, fallback, change, s, k), other) == if change == other {
            k
        } else {
            0
        },
    decreases k,
{
    if k > 0 {
        lemma_tally_events(n, lines, fallback, change, s, k - 1, other);
        lemma_tally_push(
            events_at(n, lines, fallback, change, s, k - 1),
            ObjectEvent {
                change,
                span: span_or(placed_span(n, lines, s[k - 1] as int), fallback),
            },
            other,
        );
    }
}

proof fn lemma_tally_objects(
    change: Change,
    o: crate::objects::Objects,
    fallback: SourceSpan,
    k: int,
    other: Change,
)
    requires
        0 <= k,
    ensures
        tally(object_events(change, o, fallback, k), other) == if change == other {
            k
        } else {
            0
        },
    decreases k,
{
    if k > 0 {
        lemma_tally_objects(change, o, fallback, k - 1, other);
        lemma_tally_push(
            object_events(change, o, fallback, k - 1),
            ObjectEvent { change, span: span_or(o.spans[k - 1], fallback) },
            other,
        );
    }
}

// ── statements and blocks ──────────────────────────────────────────────

/// Whether a statement of a kind makes a change: it is called so, and creating is
/// one change whatever is created, and granting and revoking are one.
pub open spec fn makes(kind: StatementKind, change: Change) -> bool {
    match change {
        Change::Insert => kind is Insert,
        Change::Update => kind is Update,
        Change::Delete => kind is Delete,
        Change::Merge => kind is Merge,
        Change::Create => kind is CreateTable || kind is CreateTableAsSelect || kind is CreateView
            || kind is CreateOther,
        Change::Alter => kind is AlterTable,
        Change::Drop => kind is Drop,
        Change::Truncate => kind is Truncate,
        Change::GrantRevoke => kind is Grant || kind is Revoke,
        Change::TransactionControl => kind is TransactionControl,
        _ => false,
    }
}

/// Whether the node at `j` lies below a block in no definition and in no other
/// node of the set.
pub open spec fn outermost_in(n: Seq<Node>, block: int, set: KindSet, j: int) -> bool {
    &&& block < j < n[block].end
    &&& set.holds(n[j].kind)
    &&& !KindSet::Definitions.holds(n[j].kind)
    &&& forall|a: int|
        block < a < j && j < (#[trigger] n[a]).end ==> !set.holds(n[a].kind)
            && !KindSet::Definitions.holds(n[a].kind)
}

/// How many nodes of a set a block has in it, outside definitions and each other.
pub open spec fn found_in_block(n: Seq<Node>, block: int, set: KindSet) -> int {
    nodes_in(n, block, |j: int| outermost_in(n, block, set, j))
}

/// How often a block makes a change.
pub open spec fn changes_in_block(n: Seq<Node>, block: int, change: Change) -> int {
    match change {
        Change::Insert => found_in_block(n, block, KindSet::Inserts),
        Change::Update => found_in_block(n, block, KindSet::Updates),
        Change::Delete => found_in_block(n, block, KindSet::Deletes),
        Change::Merge => found_in_block(n, block, KindSet::Only(Kind::MergeStatement)),
        Change::Create => found_in_block(n, block, KindSet::CreateTables) + found_in_block(
            n,
            block,
            KindSet::CreateViews,
        ) + found_in_block(n, block, KindSet::CreateOthers),
        Change::Alter => found_in_block(n, block, KindSet::AlterTables),
        Change::Drop => found_in_block(n, block, KindSet::Drops),
        Change::Truncate => found_in_block(n, block, KindSet::Only(Kind::TruncateStatement)),
        Change::GrantRevoke => found_in_block(n, block, KindSet::Only(Kind::AccessStatement)),
        Change::TransactionControl => nodes_in(
            n,
            block,
            |j: int|
                outermost_in(n, block, KindSet::Transactions, j) && node_bracket(n, j) is None,
        ),
        _ => 0,
    }
}

spec fn block_probe(set: KindSet) -> Probe {
    Probe { set, deep: false, stop: KindSet::Definitions, own: false }
}

proof fn lemma_outermost_in(n: Seq<Node>, block: int, set: KindSet, j: int)
    requires
        well_formed(n),
        0 <= block < n.len(),
        block <= j < n[block].end,
        !set.holds(Kind::ObjectReference),
    ensures
        reports(n, block, block_probe(set), j) <==> outermost_in(n, block, set, j),
{
    let p = block_probe(set);
    if reports(n, block, p, j) {
        assert forall|a: int| block < a < j && j < (#[trigger] n[a]).end implies !set.holds(
            n[a].kind,
        ) && !KindSet::Definitions.holds(n[a].kind) by {
            assert(!closes(n, block, p, a));
        }
    }
    if outermost_in(n, block, set, j) {
        assert(open_to(n, block, p, j));
    }
}

proof fn lemma_in_block(n: Seq<Node>, block: int, set: KindSet)
    requires
        well_formed(n),
        0 <= block < n.len(),
        !set.holds(Kind::ObjectReference),
    ensures
        in_block(n, block, set).len() == found_in_block(n, block, set),
{
    let q = |j: int| outermost_in(n, block, set, j);
    assert forall|j: int| block <= j < n[block].end implies #[trigger] q(j) == reports(
        n,
        block,
        block_probe(set),
        j,
    ) by {
        lemma_outermost_in(n, block, set, j);
    }
    lemma_crawled_all(n, block, block_probe(set), q);
}

proof fn lemma_kept_len(s: Seq<usize>, f: spec_fn(usize) -> bool)
    ensures
        kept(s, f).len() == crate::tree::count(s, f),
    decreases s.len(),
{
    if s.len() > 0 {
        lemma_kept_len(s.drop_last(), f);
    }
}

proof fn lemma_block_step(n: Seq<Node>, lines: Lines, block: int, step: int, change: Change)
    requires
        well_formed(n),
        0 <= block < n.len(),
        0 <= step < 11,
    ensures
        ({
            let (set, made) = block_search(step);
            tally(block_events_by(n, lines, block, step + 1), change) == tally(
                block_events_by(n, lines, block, step),
                change,
            ) + if made == change {
                found_in_block(n, block, set)
            } else {
                0
            }
        }),
{
    let (set, made) = block_search(step);
    lemma_in_block(n, block, set);
    let s = in_block(n, block, set);
    lemma_tally_events(n, lines, empty_span(), made, s, s.len() as int, change);
    lemma_tally_concat(
        block_events_by(n, lines, block, step),
        events(n, lines, empty_span(), made, s),
        change,
    );
}

proof fn lemma_block(n: Seq<Node>, lines: Lines, block: int, change: Change)
    requires
        well_formed(n),
        0 <= block < n.len(),
    ensures
        tally(block_events(n, lines, block), change) == changes_in_block(n, block, change),
{
    lemma_block_step(n, lines, block, 0, change);
    lemma_block_step(n, lines, block, 1, change);
    lemma_block_step(n, lines, block, 2, change);
    lemma_block_step(n, lines, block, 3, change);
    lemma_block_step(n, lines, block, 4, change);
    lemma_block_step(n, lines, block, 5, change);
    lemma_block_step(n, lines, block, 6, change);
    lemma_block_step(n, lines, block, 7, change);
    lemma_block_step(n, lines, block, 8, change);
    lemma_block_step(n, lines, block, 9, change);
    lemma_block_step(n, lines, block, 10, change);
    let set = KindSet::Transactions;
    let f = controls_transaction(n);
    let s = kept(in_block(n, block, set), f);
    let q = |j: int|
        outermost_in(n, block, KindSet::Transactions, j) && node_bracket(n, j) is None;
    assert forall|j: int| block <= j < n[block].end implies #[trigger] q(j) == (reports(
        n,
        block,
        block_probe(set),
        j,
    ) && f(j as usize)) by {
        lemma_outermost_in(n, block, set, j);
    }
    lemma_crawled(n, block, block_probe(set), f, q);
    lemma_kept_len(in_block(n, block, set), f);
    lemma_tally_events(
        n,
        lines,
        empty_span(),
        Change::TransactionControl,
        s,
        s.len() as int,
        change,
    );
    lemma_tally_concat(
        block_events_by(n, lines, block, 11),
        events(n, lines, empty_span(), Change::TransactionControl, s),
        change,
    );
}

proof fn lemma_blocks(
    n: Seq<Node>,
    lines: Lines,
    s: Seq<usize>,
    facts: Seq<StatementFacts>,
    k: int,
    change: Change,
    f: spec_fn(int) -> int,
)
    requires
        well_formed(n),
        0 <= k <= facts.len(),
        facts.len() <= s.len(),
        forall|i: int| 0 <= i < s.len() ==> (#[trigger] s[i]) < n.len(),
        forall|i: int| #[trigger]
            f(i) == if facts[i].kind is AnonymousBlock {
                changes_in_block(n, s[i] as int, change)
            } else {
                0
            },
    ensures
        tally(blocks_events(n, lines, s, facts, k), change) == total(0, k, f),
    decreases k,
{
    if k > 0 {
        lemma_blocks(n, lines, s, facts, k - 1, change, f);
        assert(f(k - 1) == if facts[k - 1].kind is AnonymousBlock {
            changes_in_block(n, s[k - 1] as int, change)
        } else {
            0
        });
        assert(s[k - 1] < n.len());
        if facts[k - 1].kind == StatementKind::AnonymousBlock {
            lemma_block(n, lines, s[k - 1] as int, change);
            lemma_tally_concat(
                blocks_events(n, lines, s, facts, k - 1),
                block_events(n, lines, s[k - 1] as int),
                change,
            );
        }
    }
}

proof fn lemma_statements(facts: Seq<StatementFacts>, k: int, change: Change, p: spec_fn(int) -> bool)
    requires
        0 <= k <= facts.len(),
        forall|i: int| #[trigger] p(i) == makes(facts[i].kind, change),
    ensures
        tally(statement_events(facts, k), change) == number(0, k, p),
    decreases k,
{
    if k > 0 {
        lemma_statements(facts, k - 1, change, p);
        assert(p(k - 1) == makes(facts[k - 1].kind, change));
        if kind_change(facts[k - 1].kind) is Some {
            lemma_tally_push(
                statement_events(facts, k - 1),
                ObjectEvent {
                    change: kind_change(facts[k - 1].kind)->0,
                    span: crate::statements::span_of_statement(facts[k - 1]),
                },
                change,
            );
        }
    }
}

// ── missing WHERE, RETURNING and CREATE OR REPLACE ─────────────────────

/// Whether a node lies in no definition below a statement.
pub open spec fn runs_with(n: Seq<Node>, stmt: int, j: int) -> bool {
    &&& stmt <= j < n[stmt].end
    &&& forall|a: int|
        stmt < a <= j && j < (#[trigger] n[a]).end ==> !KindSet::Definitions.holds(n[a].kind)
}

/// Whether a statement has a `WHERE` in its own scope.
pub open spec fn has_own_where(n: Seq<Node>, j: int) -> bool {
    exists|c: int| n[c].kind is WhereClause && #[trigger] own_scope(n, j, c)
}

/// How many statements of a set in a statement have no `WHERE`.
pub open spec fn unrestricted(n: Seq<Node>, stmt: int, set: KindSet) -> int {
    nodes_in(
        n,
        stmt,
        |j: int| set.holds(n[j].kind) && runs_with(n, stmt, j) && !has_own_where(n, j),
    )
}

spec fn run_probe(set: KindSet) -> Probe {
    Probe { set, deep: true, stop: KindSet::Definitions, own: true }
}

proof fn lemma_runs(n: Seq<Node>, stmt: int, set: KindSet, j: int)
    requires
        well_formed(n),
        0 <= stmt < n.len(),
        stmt <= j < n[stmt].end,
        !set.holds(Kind::ObjectReference),
    ensures
        reports(n, stmt, run_probe(set), j) <==> set.holds(n[j].kind) && runs_with(n, stmt, j),
{
    let p = run_probe(set);
    if reports(n, stmt, p, j) {
        assert forall|a: int| stmt < a <= j && j < (#[trigger] n[a]).end implies !(
        KindSet::Definitions.holds(n[a].kind)) by {
            if a < j {
                assert(!closes(n, stmt, p, a));
            }
        }
    }
    if runs_with(n, stmt, j) {
        assert(n[j].end > j);
        assert(open_to(n, stmt, p, j));
    }
}

proof fn lemma_where(n: Seq<Node>, j: int)
    requires
        well_formed(n),
        0 <= j < n.len(),
    ensures
        lacks_where(n)(j as usize) <==> !has_own_where(n, j),
{
    let set = KindSet::Only(Kind::WhereClause);
    let s = own_level(n, j, set);
    let p = Probe { set, deep: true, stop: KindSet::Only(Kind::SelectStatement), own: true };
    let hi = n[j].end as int;
    crate::tree::lemma_reported(n, j, p, hi);
    if s.len() > 0 {
        let c = s[0] as int;
        assert(reports(n, j, p, c));
        crate::output_laws::lemma_scope(n, j, set, c);
        assert(own_scope(n, j, c));
    }
    if has_own_where(n, j) {
        let c = choose|c: int| n[c].kind is WhereClause && #[trigger] own_scope(n, j, c);
        crate::output_laws::lemma_scope(n, j, set, c);
        let k = crate::output_laws::lemma_is_crawled(n, j, p, hi, c);
    }
}

proof fn lemma_unrestricted(n: Seq<Node>, stmt: int, set: KindSet)
    requires
        well_formed(n),
        0 <= stmt < n.len(),
        !set.holds(Kind::ObjectReference),
    ensures
        unfiltered(n, stmt, set).len() == unrestricted(n, stmt, set),
{
    let f = lacks_where(n);
    let p = run_probe(set);
    let q = |j: int| set.holds(n[j].kind) && runs_with(n, stmt, j) && !has_own_where(n, j);
    assert forall|j: int| stmt <= j < n[stmt].end implies #[trigger] q(j) == (reports(
        n,
        stmt,
        p,
        j,
    ) && f(j as usize)) by {
        lemma_runs(n, stmt, set, j);
        lemma_where(n, j);
    }
    lemma_crawled(n, stmt, p, f, q);
    lemma_kept_len(crawl(n, stmt, p), f);
}

proof fn lemma_unfiltered(
    n: Seq<Node>,
    lines: Lines,
    fallback: SourceSpan,
    s: Seq<usize>,
    facts: Seq<StatementFacts>,
    k: int,
    change: Change,
    f: spec_fn(int) -> int,
)
    requires
        well_formed(n),
        0 <= k <= facts.len(),
        facts.len() <= s.len(),
        forall|i: int| 0 <= i < s.len() ==> (#[trigger] s[i]) < n.len(),
        forall|i: int| #[trigger]
            f(i) == if facts[i].kind is Procedural {
                0
            } else if change is UpdateWithoutWhere {
                unrestricted(n, s[i] as int, KindSet::Updates)
            } else if change is DeleteWithoutWhere {
                unrestricted(n, s[i] as int, KindSet::Deletes)
            } else {
                0
            },
    ensures
        tally(unfiltered_events(n, lines, fallback, s, facts, k), change) == total(0, k, f),
    decreases k,
{
    if k > 0 {
        lemma_unfiltered(n, lines, fallback, s, facts, k - 1, change, f);
        let stmt = s[k - 1] as int;
        assert(f(k - 1) == if facts[k - 1].kind is Procedural {
            0
        } else if change is UpdateWithoutWhere {
            unrestricted(n, s[k - 1] as int, KindSet::Updates)
        } else if change is DeleteWithoutWhere {
            unrestricted(n, s[k - 1] as int, KindSet::Deletes)
        } else {
            0
        });
        assert(s[k - 1] < n.len());
        if facts[k - 1].kind != StatementKind::Procedural {
            let before = unfiltered_events(n, lines, fallback, s, facts, k - 1);
            let u = unfiltered(n, stmt, KindSet::Updates);
            let d = unfiltered(n, stmt, KindSet::Deletes);
            lemma_unrestricted(n, stmt, KindSet::Updates);
            lemma_unrestricted(n, stmt, KindSet::Deletes);
            let a = events(n, lines, fallback, Change::UpdateWithoutWhere, u);
            let b = events(n, lines, fallback, Change::DeleteWithoutWhere, d);
            lemma_tally_events(
                n,
                lines,
                fallback,
                Change::UpdateWithoutWhere,
                u,
                u.len() as int,
                change,
            );
            lemma_tally_events(
                n,
                lines,
                fallback,
                Change::DeleteWithoutWhere,
                d,
                d.len() as int,
                change,
            );
            lemma_tally_concat(before, a, change);
            lemma_tally_concat(before + a, b, change);
        }
    }
}

/// How many keywords of a subtree are `RETURNING` or `OUTPUT`.
pub open spec fn result_words(n: Seq<Node>, d: int) -> int {
    nodes_in(n, d, |j: int| n[j].kind is Keyword && raw_word(n, j) is Returning) + nodes_in(
        n,
        d,
        |j: int| n[j].kind is Keyword && raw_word(n, j) is Output,
    )
}

/// How many result clauses the data statements of a statement have.
pub open spec fn results_in(n: Seq<Node>, stmt: int) -> int {
    crate::tree_laws::total_in(
        n,
        stmt,
        |d: int|
            if KindSet::Dml.holds(n[d].kind) && runs_with(n, stmt, d) {
                result_words(n, d)
            } else {
                0
            },
    )
}

proof fn lemma_result_words(n: Seq<Node>, d: int)
    requires
        well_formed(n),
        0 <= d < n.len(),
    ensures
        keywords_in(n, d, Word::Returning).len() + keywords_in(n, d, Word::Output).len()
            == result_words(n, d),
{
    let set = KindSet::Only(Kind::Keyword);
    let s = crate::tree::all_in(n, d, set);
    let a = |j: int| n[j].kind is Keyword && raw_word(n, j) is Returning;
    crate::tree_laws::lemma_counted(n, d, set, keyword_spelled(n, Word::Returning), a);
    lemma_kept_len(s, keyword_spelled(n, Word::Returning));
    let b = |j: int| n[j].kind is Keyword && raw_word(n, j) is Output;
    crate::tree_laws::lemma_counted(n, d, set, keyword_spelled(n, Word::Output), b);
    lemma_kept_len(s, keyword_spelled(n, Word::Output));
}

proof fn lemma_returning_in(
    n: Seq<Node>,
    lines: Lines,
    fallback: SourceSpan,
    dml: Seq<usize>,
    k: int,
    change: Change,
    f: spec_fn(usize) -> int,
)
    requires
        well_formed(n),
        0 <= k <= dml.len(),
        forall|i: int| 0 <= i < dml.len() ==> (#[trigger] dml[i]) < n.len(),
        forall|d: usize| #[trigger] f(d) == result_words(n, d as int),
    ensures
        tally(returning_in(n, lines, fallback, dml, k), change) == if change is Returning {
            crate::tree::sum(dml.take(k), f)
        } else {
            0
        },
    decreases k,
{
    if k > 0 {
        lemma_returning_in(n, lines, fallback, dml, k - 1, change, f);
        let d = dml[k - 1] as int;
        lemma_result_words(n, d);
        let r = keywords_in(n, d, Word::Returning);
        let o = keywords_in(n, d, Word::Output);
        let before = returning_in(n, lines, fallback, dml, k - 1);
        let a = events(n, lines, fallback, Change::Returning, r);
        let b = events(n, lines, fallback, Change::Returning, o);
        lemma_tally_events(n, lines, fallback, Change::Returning, r, r.len() as int, change);
        lemma_tally_events(n, lines, fallback, Change::Returning, o, o.len() as int, change);
        lemma_tally_concat(before, a, change);
        lemma_tally_concat(before + a, b, change);
        assert(dml.take(k).drop_last() =~= dml.take(k - 1));
        assert(f(dml[k - 1]) == result_words(n, d));
    } else {
        assert(dml.take(k) =~= Seq::empty());
    }
}

proof fn lemma_sum_run(
    n: Seq<Node>,
    stmt: int,
    hi: int,
    f: spec_fn(usize) -> int,
    g: spec_fn(int) -> int,
)
    requires
        well_formed(n),
        0 <= stmt < n.len(),
        hi <= n[stmt].end,
        forall|d: int|
            stmt <= d < n[stmt].end ==> #[trigger] g(d) == if KindSet::Dml.holds(n[d].kind)
                && runs_with(n, stmt, d) {
                f(d as usize)
            } else {
                0
            },
    ensures
        crate::tree::sum(crate::tree::reported(n, stmt, run_probe(KindSet::Dml), hi), f) == total(
            stmt,
            hi,
            g,
        ),
    decreases hi - stmt,
{
    if hi > stmt {
        let p = run_probe(KindSet::Dml);
        lemma_sum_run(n, stmt, hi - 1, f, g);
        lemma_runs(n, stmt, KindSet::Dml, hi - 1);
        assert(g(hi - 1) == if KindSet::Dml.holds(n[hi - 1].kind) && runs_with(n, stmt, hi - 1) {
            f((hi - 1) as usize)
        } else {
            0
        });
        if reports(n, stmt, p, hi - 1) {
            let s = crate::tree::reported(n, stmt, p, hi);
            assert(s.drop_last() =~= crate::tree::reported(n, stmt, p, hi - 1));
        }
    }
}

proof fn lemma_returning(
    n: Seq<Node>,
    lines: Lines,
    fallback: SourceSpan,
    s: Seq<usize>,
    facts: Seq<StatementFacts>,
    k: int,
    change: Change,
    f: spec_fn(int) -> int,
)
    requires
        well_formed(n),
        0 <= k <= facts.len(),
        facts.len() <= s.len(),
        forall|i: int| 0 <= i < s.len() ==> (#[trigger] s[i]) < n.len(),
        forall|i: int| #[trigger]
            f(i) == if facts[i].kind is Procedural || !(change is Returning) {
                0
            } else {
                results_in(n, s[i] as int)
            },
    ensures
        tally(returning_events(n, lines, fallback, s, facts, k), change) == total(0, k, f),
    decreases k,
{
    if k > 0 {
        lemma_returning(n, lines, fallback, s, facts, k - 1, change, f);
        let stmt = s[k - 1] as int;
        assert(s[k - 1] < n.len());
        assert(f(k - 1) == if facts[k - 1].kind is Procedural || !(change is Returning) {
            0
        } else {
            results_in(n, s[k - 1] as int)
        });
        if facts[k - 1].kind != StatementKind::Procedural {
            let dml = dml_in(n, stmt);
            let w = |d: usize| result_words(n, d as int);
            let p = run_probe(KindSet::Dml);
            crate::tree::lemma_reported(n, stmt, p, n[stmt].end as int);
            lemma_returning_in(n, lines, fallback, dml, dml.len() as int, change, w);
            assert(dml.take(dml.len() as int) =~= dml);
            let g = |d: int|
                if KindSet::Dml.holds(n[d].kind) && runs_with(n, stmt, d) {
                    result_words(n, d)
                } else {
                    0
                };
            lemma_sum_run(n, stmt, n[stmt].end as int, w, g);
            lemma_tally_concat(
                returning_events(n, lines, fallback, s, facts, k - 1),
                returning_in(n, lines, fallback, dml, dml.len() as int),
                change,
            );
        }
    }
}

/// Whether three leaves in a row are `CREATE OR REPLACE`.
pub open spec fn replaces_at(n: Seq<Node>, leaf: Seq<usize>, k: int) -> bool {
    &&& 0 <= k
    &&& k + 2 < leaf.len()
    &&& trimmed_word(n, leaf[k] as int) is Create
    &&& trimmed_word(n, leaf[k + 1] as int) is Or
    &&& trimmed_word(n, leaf[k + 2] as int) is Replace
}

proof fn lemma_replaces(
    n: Seq<Node>,
    lines: Lines,
    fallback: SourceSpan,
    leaf: Seq<usize>,
    k: int,
    change: Change,
    p: spec_fn(int) -> bool,
)
    requires
        0 <= k <= leaf.len(),
        forall|i: int| #[trigger] p(i) == (change is CreateOrReplace && replaces_at(n, leaf, i)),
    ensures
        tally(replace_events(n, lines, fallback, leaf, k), change) == number(0, k, p),
    decreases k,
{
    if k > 0 {
        lemma_replaces(n, lines, fallback, leaf, k - 1, change, p);
        assert(p(k - 1) == (change is CreateOrReplace && replaces_at(n, leaf, k - 1)));
        if k + 1 < leaf.len() && crate::objects::replaces(n, leaf, k - 1) {
            lemma_tally_push(
                replace_events(n, lines, fallback, leaf, k - 1),
                ObjectEvent {
                    change: Change::CreateOrReplace,
                    span: crate::objects::joined_span(
                        n,
                        lines,
                        fallback,
                        leaf[k - 1] as int,
                        leaf[k + 1] as int,
                    ),
                },
                change,
            );
        }
    }
}

// ── the counts ─────────────────────────────────────────────────────────

proof fn lemma_log(
    n: Seq<Node>,
    lines: Lines,
    root: int,
    s: Seq<usize>,
    facts: Seq<StatementFacts>,
    change: Change,
)
    requires
        well_formed(n),
        0 <= root < n.len(),
        facts.len() <= s.len(),
        forall|i: int| 0 <= i < s.len() ==> (#[trigger] s[i]) < n.len(),
    ensures
        ({
            let k = facts.len() as int;
            let leaf = code_leaves(n, root, n[root].end as int);
            let t = touched(n, lines, s, facts, k);
            tally(object_log(n, lines, root, s, facts), change) == number(
                0,
                k,
                |i: int| makes(facts[i].kind, change),
            ) + total(
                0,
                k,
                |i: int|
                    if facts[i].kind is AnonymousBlock {
                        changes_in_block(n, s[i] as int, change)
                    } else {
                        0
                    },
            ) + total(
                0,
                k,
                |i: int|
                    if facts[i].kind is Procedural {
                        0
                    } else if change is UpdateWithoutWhere {
                        unrestricted(n, s[i] as int, KindSet::Updates)
                    } else if change is DeleteWithoutWhere {
                        unrestricted(n, s[i] as int, KindSet::Deletes)
                    } else {
                        0
                    },
            ) + number(
                0,
                leaf.len() as int,
                |i: int| change is CreateOrReplace && replaces_at(n, leaf, i),
            ) + total(
                0,
                k,
                |i: int|
                    if facts[i].kind is Procedural || !(change is Returning) {
                        0
                    } else {
                        results_in(n, s[i] as int)
                    },
            ) + (if change is WriteObject {
                t.write.names.len() as int
            } else if change is ReadObject {
                t.read.names.len() as int
            } else {
                0
            })
        }),
{
    let k = facts.len() as int;
    let fallback = span_or(placed_span(n, lines, root), empty_span());
    let t = touched(n, lines, s, facts, k);
    let leaf = code_leaves(n, root, n[root].end as int);
    let a = statement_events(facts, k);
    let b = blocks_events(n, lines, s, facts, k);
    let c = object_events(Change::WriteObject, t.write, fallback, t.write.names.len() as int);
    let d = object_events(Change::ReadObject, t.read, fallback, t.read.names.len() as int);
    let e = unfiltered_events(n, lines, fallback, s, facts, k);
    let f = replace_events(n, lines, fallback, leaf, leaf.len() as int);
    let g = returning_events(n, lines, fallback, s, facts, k);
    lemma_tally_concat(a, b, change);
    lemma_tally_concat(a + b, c, change);
    lemma_tally_concat(a + b + c, d, change);
    lemma_tally_concat(a + b + c + d, e, change);
    lemma_tally_concat(a + b + c + d + e, f, change);
    lemma_tally_concat(a + b + c + d + e + f, g, change);
    lemma_statements(facts, k, change, |i: int| makes(facts[i].kind, change));
    lemma_blocks(
        n,
        lines,
        s,
        facts,
        k,
        change,
        |i: int|
            if facts[i].kind is AnonymousBlock {
                changes_in_block(n, s[i] as int, change)
            } else {
                0
            },
    );
    lemma_tally_objects(
        Change::WriteObject,
        t.write,
        fallback,
        t.write.names.len() as int,
        change,
    );
    lemma_tally_objects(Change::ReadObject, t.read, fallback, t.read.names.len() as int, change);
    lemma_unfiltered(
        n,
        lines,
        fallback,
        s,
        facts,
        k,
        change,
        |i: int|
            if facts[i].kind is Procedural {
                0
            } else if change is UpdateWithoutWhere {
                unrestricted(n, s[i] as int, KindSet::Updates)
            } else if change is DeleteWithoutWhere {
                unrestricted(n, s[i] as int, KindSet::Deletes)
            } else {
                0
            },
    );
    lemma_replaces(
        n,
        lines,
        fallback,
        leaf,
        leaf.len() as int,
        change,
        |i: int| change is CreateOrReplace && replaces_at(n, leaf, i),
    );
    lemma_returning(
        n,
        lines,
        fallback,
        s,
        facts,
        k,
        change,
        |i: int|
            if facts[i].kind is Procedural || !(change is Returning) {
                0
            } else {
                results_in(n, s[i] as int)
            },
    );
}

proof fn lemma_zero_total(k: int, f: spec_fn(int) -> int)
    requires
        forall|i: int| 0 <= i < k ==> #[trigger] f(i) == 0,
    ensures
        total(0, k, f) == 0,
    decreases k,
{
    if k > 0 {
        lemma_zero_total(k - 1, f);
        assert(f(k - 1) == 0);
    }
}

/// How often statements make a change: once for each that is called so, and as
/// often as it is made in a block.
pub open spec fn times_made(
    n: Seq<Node>,
    s: Seq<usize>,
    facts: Seq<StatementFacts>,
    change: Change,
) -> int {
    number(0, facts.len() as int, |i: int| makes(facts[i].kind, change)) + total(
        0,
        facts.len() as int,
        |i: int|
            if facts[i].kind is AnonymousBlock {
                changes_in_block(n, s[i] as int, change)
            } else {
                0
            },
    )
}

proof fn lemma_times_made(
    n: Seq<Node>,
    lines: Lines,
    root: int,
    s: Seq<usize>,
    facts: Seq<StatementFacts>,
    change: Change,
)
    requires
        well_formed(n),
        0 <= root < n.len(),
        facts.len() <= s.len(),
        forall|i: int| 0 <= i < s.len() ==> (#[trigger] s[i]) < n.len(),
        !(change is UpdateWithoutWhere) && !(change is DeleteWithoutWhere)
            && !(change is CreateOrReplace) && !(change is Returning) && !(change is WriteObject)
            && !(change is ReadObject),
    ensures
        tally(object_log(n, lines, root, s, facts), change) == times_made(n, s, facts, change),
{
    let k = facts.len() as int;
    let leaf = code_leaves(n, root, n[root].end as int);
    lemma_log(n, lines, root, s, facts, change);
    lemma_zero_total(
        k,
        |i: int|
            if facts[i].kind is Procedural {
                0
            } else if change is UpdateWithoutWhere {
                unrestricted(n, s[i] as int, KindSet::Updates)
            } else if change is DeleteWithoutWhere {
                unrestricted(n, s[i] as int, KindSet::Deletes)
            } else {
                0
            },
    );
    lemma_zero_total(
        k,
        |i: int|
            if facts[i].kind is Procedural || !(change is Returning) {
                0
            } else {
                results_in(n, s[i] as int)
            },
    );
    crate::tree_laws::lemma_number_none(
        0,
        leaf.len() as int,
        |i: int| change is CreateOrReplace && replaces_at(n, leaf, i),
    );
    crate::tree::lemma_same_number(
        0,
        k,
        |i: int| makes(facts[i].kind, change),
        |i: int| makes(facts[i].kind, change),
    );
}

/// Every change is counted once for each statement that is called so, and as
/// often as the blocks make it, wherever in them.
pub proof fn changes_are_counted(
    n: Seq<Node>,
    lines: Lines,
    root: int,
    s: Seq<usize>,
    facts: Seq<StatementFacts>,
    r: ObjectFacts,
)
    requires
        well_formed(n),
        0 <= root < n.len(),
        facts.len() <= s.len(),
        forall|i: int| 0 <= i < s.len() ==> (#[trigger] s[i]) < n.len(),
        describes_objects(n, lines, root, s, facts, r),
    ensures
        r.insert_count == times_made(n, s, facts, Change::Insert),
        r.update_count == times_made(n, s, facts, Change::Update),
        r.delete_count == times_made(n, s, facts, Change::Delete),
        r.merge_count == times_made(n, s, facts, Change::Merge),
        r.create_count == times_made(n, s, facts, Change::Create),
        r.alter_count == times_made(n, s, facts, Change::Alter),
        r.drop_count == times_made(n, s, facts, Change::Drop),
        r.truncate_count == times_made(n, s, facts, Change::Truncate),
        r.grant_revoke_count == times_made(n, s, facts, Change::GrantRevoke),
        r.transaction_control_count == times_made(n, s, facts, Change::TransactionControl),
{
    lemma_times_made(n, lines, root, s, facts, Change::Insert);
    lemma_times_made(n, lines, root, s, facts, Change::Update);
    lemma_times_made(n, lines, root, s, facts, Change::Delete);
    lemma_times_made(n, lines, root, s, facts, Change::Merge);
    lemma_times_made(n, lines, root, s, facts, Change::Create);
    lemma_times_made(n, lines, root, s, facts, Change::Alter);
    lemma_times_made(n, lines, root, s, facts, Change::Drop);
    lemma_times_made(n, lines, root, s, facts, Change::Truncate);
    lemma_times_made(n, lines, root, s, facts, Change::GrantRevoke);
    lemma_times_made(n, lines, root, s, facts, Change::TransactionControl);
}

/// An update or a delete lacks a `WHERE` wherever it stands outside definitions;
/// so does a result clause count; and a replacement counts wherever three words
/// in a row make one.
pub proof fn missing_clauses_are_counted(
    n: Seq<Node>,
    lines: Lines,
    root: int,
    s: Seq<usize>,
    facts: Seq<StatementFacts>,
    r: ObjectFacts,
)
    requires
        well_formed(n),
        0 <= root < n.len(),
        facts.len() <= s.len(),
        forall|i: int| 0 <= i < s.len() ==> (#[trigger] s[i]) < n.len(),
        describes_objects(n, lines, root, s, facts, r),
    ensures
        r.update_without_where_count == total(
            0,
            facts.len() as int,
            |i: int|
                if facts[i].kind is Procedural {
                    0
                } else {
                    unrestricted(n, s[i] as int, KindSet::Updates)
                },
        ),
        r.delete_without_where_count == total(
            0,
            facts.len() as int,
            |i: int|
                if facts[i].kind is Procedural {
                    0
                } else {
                    unrestricted(n, s[i] as int, KindSet::Deletes)
                },
        ),
        r.returning_count == total(
            0,
            facts.len() as int,
            |i: int|
                if facts[i].kind is Procedural {
                    0
                } else {
                    results_in(n, s[i] as int)
                },
        ),
        ({
            let leaf = code_leaves(n, root, n[root].end as int);
            r.create_or_replace_count == number(
                0,
                leaf.len() as int,
                |i: int| replaces_at(n, leaf, i),
            )
        }),
{
    lemma_only_there(
        n,
        lines,
        root,
        s,
        facts,
        Change::UpdateWithoutWhere,
        |i: int|
            if facts[i].kind is Procedural {
                0
            } else {
                unrestricted(n, s[i] as int, KindSet::Updates)
            },
    );
    lemma_only_there(
        n,
        lines,
        root,
        s,
        facts,
        Change::DeleteWithoutWhere,
        |i: int|
            if facts[i].kind is Procedural {
                0
            } else {
                unrestricted(n, s[i] as int, KindSet::Deletes)
            },
    );
    lemma_only_there(
        n,
        lines,
        root,
        s,
        facts,
        Change::Returning,
        |i: int|
            if facts[i].kind is Procedural {
                0
            } else {
                results_in(n, s[i] as int)
            },
    );
    lemma_only_there(
        n,
        lines,
        root,
        s,
        facts,
        Change::CreateOrReplace,
        |i: int|
            if facts[i].kind is Procedural {
                0
            } else {
                results_in(n, s[i] as int)
            },
    );
}

proof fn lemma_only_there(
    n: Seq<Node>,
    lines: Lines,
    root: int,
    s: Seq<usize>,
    facts: Seq<StatementFacts>,
    change: Change,
    f: spec_fn(int) -> int,
)
    requires
        well_formed(n),
        0 <= root < n.len(),
        facts.len() <= s.len(),
        forall|i: int| 0 <= i < s.len() ==> (#[trigger] s[i]) < n.len(),
        change is UpdateWithoutWhere || change is DeleteWithoutWhere || change is CreateOrReplace
            || change is Returning,
        forall|i: int| #[trigger]
            f(i) == if facts[i].kind is Procedural {
                0
            } else if change is UpdateWithoutWhere {
                unrestricted(n, s[i] as int, KindSet::Updates)
            } else if change is DeleteWithoutWhere {
                unrestricted(n, s[i] as int, KindSet::Deletes)
            } else {
                results_in(n, s[i] as int)
            },
    ensures
        ({
            let k = facts.len() as int;
            let leaf = code_leaves(n, root, n[root].end as int);
            tally(object_log(n, lines, root, s, facts), change) == if change is CreateOrReplace {
                number(0, leaf.len() as int, |i: int| replaces_at(n, leaf, i))
            } else {
                total(0, k, f)
            }
        }),
{
    let k = facts.len() as int;
    let leaf = code_leaves(n, root, n[root].end as int);
    lemma_log(n, lines, root, s, facts, change);
    crate::tree_laws::lemma_number_none(0, k, |i: int| makes(facts[i].kind, change));
    lemma_zero_total(
        k,
        |i: int|
            if facts[i].kind is AnonymousBlock {
                changes_in_block(n, s[i] as int, change)
            } else {
                0
            },
    );
    let w = |i: int|
        if facts[i].kind is Procedural {
            0
        } else if change is UpdateWithoutWhere {
            unrestricted(n, s[i] as int, KindSet::Updates)
        } else if change is DeleteWithoutWhere {
            unrestricted(n, s[i] as int, KindSet::Deletes)
        } else {
            0
        };
    let r = |i: int|
        if facts[i].kind is Procedural || !(change is Returning) {
            0
        } else {
            results_in(n, s[i] as int)
        };
    let c = |i: int| change is CreateOrReplace && replaces_at(n, leaf, i);
    if change is CreateOrReplace {
        lemma_zero_total(k, w);
        lemma_zero_total(k, r);
        crate::tree::lemma_same_number(
            0,
            leaf.len() as int,
            c,
            |i: int| replaces_at(n, leaf, i),
        );
    } else {
        crate::tree_laws::lemma_number_none(0, leaf.len() as int, c);
        if change is Returning {
            lemma_zero_total(k, w);
            crate::tree_laws::lemma_same_total(0, k, r, f);
        } else {
            lemma_zero_total(k, r);
            crate::tree_laws::lemma_same_total(0, k, w, f);
        }
    }
}

// ── risks ──────────────────────────────────────────────────────────────

/// How many terms of the risk score are of a factor.
pub open spec fn terms_of(e: Seq<ChangeRiskEvidence>, factor: ChangeRiskFactor) -> int {
    number(0, e.len() as int, |i: int| e[i].factor == factor)
}

/// Every risky change is one term of the score, and no other change is: to
/// insert, to update, to delete and to create is none on its own.
pub proof fn risky_changes_are_the_terms(log: Seq<ObjectEvent>)
    ensures
        terms_of(risks(log), ChangeRiskFactor::Drop) == tally(log, Change::Drop),
        terms_of(risks(log), ChangeRiskFactor::Truncate) == tally(log, Change::Truncate),
        terms_of(risks(log), ChangeRiskFactor::Alter) == tally(log, Change::Alter),
        terms_of(risks(log), ChangeRiskFactor::Merge) == tally(log, Change::Merge),
        terms_of(risks(log), ChangeRiskFactor::GrantRevoke) == tally(log, Change::GrantRevoke),
        terms_of(risks(log), ChangeRiskFactor::TransactionControl) == tally(
            log,
            Change::TransactionControl,
        ),
        terms_of(risks(log), ChangeRiskFactor::DeleteWithoutWhere) == tally(
            log,
            Change::DeleteWithoutWhere,
        ),
        terms_of(risks(log), ChangeRiskFactor::UpdateWithoutWhere) == tally(
            log,
            Change::UpdateWithoutWhere,
        ),
        terms_of(risks(log), ChangeRiskFactor::CreateOrReplace) == tally(
            log,
            Change::CreateOrReplace,
        ),
        terms_of(risks(log), ChangeRiskFactor::WriteObject) == tally(log, Change::WriteObject),
        terms_of(risks(log), ChangeRiskFactor::ReadObject) == tally(log, Change::ReadObject),
        terms_of(risks(log), ChangeRiskFactor::DynamicSql) == 0,
    decreases log.len(),
{
    if log.len() > 0 {
        let rest = risks(log.drop_last());
        risky_changes_are_the_terms(log.drop_last());
        if log.last().change.risk() is Some {
            let term = ChangeRiskEvidence {
                span: log.last().span,
                factor: log.last().change.risk()->0,
            };
            assert forall|factor: ChangeRiskFactor| #[trigger]
                terms_of(risks(log), factor) == terms_of(rest, factor) + if term.factor == factor {
                    1int
                } else {
                    0
                } by {
                let e = risks(log);
                crate::tree::lemma_same_number(
                    0,
                    rest.len() as int,
                    |i: int| e[i].factor == factor,
                    |i: int| rest[i].factor == factor,
                );
                assert(e[rest.len() as int] == term);
            }
        }
    }
}

/// The terms of the risk score have these codes.
pub proof fn risks_have_their_codes()
    ensures
        ChangeRiskFactor::Drop.spelled() == "sql.change_risk.drop"@,
        ChangeRiskFactor::Truncate.spelled() == "sql.change_risk.truncate"@,
        ChangeRiskFactor::Alter.spelled() == "sql.change_risk.alter"@,
        ChangeRiskFactor::DeleteWithoutWhere.spelled() == "sql.change_risk.delete_without_where"@,
        ChangeRiskFactor::UpdateWithoutWhere.spelled() == "sql.change_risk.update_without_where"@,
        ChangeRiskFactor::GrantRevoke.spelled() == "sql.change_risk.grant_revoke"@,
        ChangeRiskFactor::DynamicSql.spelled() == "sql.change_risk.dynamic_sql"@,
        ChangeRiskFactor::Merge.spelled() == "sql.change_risk.merge"@,
        ChangeRiskFactor::CreateOrReplace.spelled() == "sql.change_risk.create_or_replace"@,
        ChangeRiskFactor::TransactionControl.spelled() == "sql.change_risk.transaction_control"@,
        ChangeRiskFactor::WriteObject.spelled() == "sql.change_risk.write_object"@,
        ChangeRiskFactor::ReadObject.spelled() == "sql.change_risk.read_object"@,
{
}

} // verus!
