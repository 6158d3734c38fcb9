//! What a statement is called by what is in it and by what stands around it.

use vstd::prelude::*;

use crate::kind::{Kind, KindSet};
use crate::measure::of_kind;
use crate::output_laws::lemma_is_crawled;
use crate::query_laws::{text_stands, word_stands};
use crate::span::Lines;
use crate::statements::{
    block_shape, classified, classify_next, counts_as_statement, has_any, keyword_led, owned, owns,
    plain_kind, query_bodies, query_kind, range_of, statement_bracket, statement_facts,
    statement_kind, statements_of, AnonymousBlockShape, ScriptingBracket, StatementKind,
    StatementRules,
};
use crate::text::{starts_with, trim_start, upper};
use crate::tree::{
    all_in, children, closes, code_children, crawl, every, kept, lemma_crawl, lemma_reported,
    open_to, raw_word, reports, well_formed, Node, Probe,
};
use crate::tree_laws::lemma_is_reported;
use crate::word::Word;

verus! {

/// The public labels of the kinds.
pub proof fn kinds_have_their_labels()
    ensures
        StatementKind::Select.spelled() == "select"@,
        StatementKind::WithSelect.spelled() == "with_select"@,
        StatementKind::SetOperation.spelled() == "set_operation"@,
        StatementKind::Insert.spelled() == "insert"@,
        StatementKind::Update.spelled() == "update"@,
        StatementKind::Delete.spelled() == "delete"@,
        StatementKind::Merge.spelled() == "merge"@,
        StatementKind::CreateView.spelled() == "create_view"@,
        StatementKind::CreateTable.spelled() == "create_table"@,
        StatementKind::CreateTableAsSelect.spelled() == "create_table_as"@,
        StatementKind::CreateOther.spelled() == "create_other"@,
        StatementKind::AlterTable.spelled() == "alter_table"@,
        StatementKind::Drop.spelled() == "drop"@,
        StatementKind::Truncate.spelled() == "truncate"@,
        StatementKind::Grant.spelled() == "grant"@,
        StatementKind::Revoke.spelled() == "revoke"@,
        StatementKind::TransactionControl.spelled() == "transaction_control"@,
        StatementKind::Explain.spelled() == "explain"@,
        StatementKind::Procedural.spelled() == "procedural"@,
        StatementKind::AnonymousBlock.spelled() == "anonymous_block"@,
        StatementKind::Unknown.spelled() == "unknown"@,
{
}

// ── what a statement holds ─────────────────────────────────────────────

/// Whether a statement has a node of a set in it.
pub open spec fn has_in(n: Seq<Node>, stmt: int, set: KindSet) -> bool {
    exists|j: int| stmt <= j < n[stmt].end && set.holds((#[trigger] n[j]).kind)
}

/// Whether a statement has a node of a set in it outside every node of another
/// set.
pub open spec fn has_outside(n: Seq<Node>, stmt: int, set: KindSet, stop: KindSet) -> bool {
    exists|j: int| found_outside(n, stmt, set, stop, j)
}

/// Whether a node of a set lies in a statement, outside every node of another
/// set.
pub open spec fn found_outside(
    n: Seq<Node>,
    stmt: int,
    set: KindSet,
    stop: KindSet,
    j: int,
) -> bool {
    &&& stmt < j < n[stmt].end
    &&& set.holds(n[j].kind)
    &&& forall|a: int| stmt < a <= j && j < (#[trigger] n[a]).end ==> !stop.holds(n[a].kind)
}

proof fn lemma_has_in(n: Seq<Node>, stmt: int, set: KindSet)
    requires
        well_formed(n),
        0 <= stmt < n.len(),
        !set.holds(Kind::ObjectReference),
    ensures
        has_any(n, stmt, set) <==> has_in(n, stmt, set),
{
    let s = all_in(n, stmt, set);
    lemma_crawl(n, stmt, every(set));
    if s.len() > 0 {
        assert(set.holds(n[s[0] as int].kind));
    }
    if has_in(n, stmt, set) {
        let j = choose|j: int| stmt <= j < n[stmt].end && set.holds((#[trigger] n[j]).kind);
        let k = lemma_is_reported(n, stmt, set, n[stmt].end as int, j);
    }
}

proof fn lemma_has_outside(n: Seq<Node>, stmt: int, set: KindSet, stop: KindSet)
    requires
        well_formed(n),
        0 <= stmt < n.len(),
        !set.holds(Kind::ObjectReference),
    ensures
        ({
            let s = crawl(n, stmt, Probe { set, deep: true, stop, own: false });
            &&& s.len() > 0 <==> has_outside(n, stmt, set, stop)
            &&& s.len() > 0 ==> found_outside(n, stmt, set, stop, s[0] as int)
            &&& forall|j: int| #[trigger]
                found_outside(n, stmt, set, stop, j) ==> s.len() > 0 && s[0] <= j
        }),
{
    let p = Probe { set, deep: true, stop, own: false };
    let s = crawl(n, stmt, p);
    let hi = n[stmt].end as int;
    lemma_reported(n, stmt, p, hi);
    if s.len() > 0 {
        let j = s[0] as int;
        assert(reports(n, stmt, p, j));
        assert forall|a: int| stmt < a <= j && j < (#[trigger] n[a]).end implies !stop.holds(
            n[a].kind,
        ) by {
            if a < j {
                assert(!closes(n, stmt, p, a));
            }
        }
        assert(found_outside(n, stmt, set, stop, j));
    }
    assert forall|j: int| #[trigger] found_outside(n, stmt, set, stop, j) implies s.len() > 0
        && s[0] <= j by {
        assert(n[j].end > j);
        assert(open_to(n, stmt, p, j));
        let k = lemma_is_crawled(n, stmt, p, hi, j);
        if k > 0 {
            assert(s[0] < s[k]);
        }
    }
}

/// Whether a statement starts with a control word: `IF`, `WHILE`, or a `BEGIN`
/// that begins no transaction.
pub open spec fn starts_control(n: Seq<Node>, stmt: int) -> bool {
    let code = code_children(n, stmt);
    ||| word_stands(n, code, 0, Word::If)
    ||| word_stands(n, code, 0, Word::While)
    ||| word_stands(n, code, 0, Word::Begin) && !text_stands(n, code, 1, Word::Transaction)
        && !text_stands(n, code, 1, Word::Tran) && !text_stands(n, code, 1, Word::Work)
        && !text_stands(n, code, 1, Word::Distributed) && !text_stands(n, code, 1, Word::Dialog)
}

/// Whether a statement is a bracket of scripting: a transaction statement whose
/// only keyword is this one.
pub open spec fn is_bracket(n: Seq<Node>, stmt: int, w: Word) -> bool {
    let code = code_children(n, stmt);
    code.len() > 0 && KindSet::Transactions.holds(n[code[0] as int].kind) && only_keyword(
        n,
        code[0] as int,
        w,
    )
}

/// Whether a keyword is the only one among the children of a node.
pub open spec fn only_keyword(n: Seq<Node>, i: int, w: Word) -> bool {
    let kids = children(n, i);
    exists|k: int|
        word_stands(n, kids, k, w) && forall|l: int|
            0 <= l < kids.len() && l != k ==> !(n[#[trigger] kids[l] as int].kind is Keyword)
}

/// Whether a statement is a block: it has a block or a control statement outside
/// brackets and definitions, starts with a control word, or, where scripting is
/// bracketed, opens a bracket.
pub open spec fn is_block(n: Seq<Node>, stmt: int, bigquery: bool) -> bool {
    ||| has_outside(n, stmt, KindSet::TypedBlocks, KindSet::BlockBoundaries)
    ||| has_outside(n, stmt, KindSet::TypedControls, KindSet::BlockBoundaries)
    ||| starts_control(n, stmt)
    ||| bigquery && is_bracket(n, stmt, Word::Begin)
}

proof fn lemma_bracket(n: Seq<Node>, stmt: int)
    requires
        well_formed(n),
        0 <= stmt < n.len(),
    ensures
        statement_bracket(n, stmt) == Some(ScriptingBracket::Begin) <==> is_bracket(
            n,
            stmt,
            Word::Begin,
        ),
        statement_bracket(n, stmt) == Some(ScriptingBracket::End) <==> is_bracket(
            n,
            stmt,
            Word::End,
        ),
{
    let code = code_children(n, stmt);
    if code.len() > 0 {
        let i = code[0] as int;
        let kids = children(n, i);
        lemma_only(n, kids, Word::Begin);
        lemma_only(n, kids, Word::End);
    }
}

/// A list has one keyword where one stands in it and no other does.
pub proof fn lemma_only(n: Seq<Node>, kids: Seq<usize>, w: Word)
    ensures
        ({
            let words = kept(kids, of_kind(n, Kind::Keyword));
            words.len() == 1 && raw_word(n, words[0] as int) == w <==> exists|k: int|
                word_stands(n, kids, k, w) && forall|l: int|
                    0 <= l < kids.len() && l != k ==> !(
                    n[#[trigger] kids[l] as int].kind is Keyword)
        }),
        kept(kids, of_kind(n, Kind::Keyword)).len() == 0 <==> forall|l: int|
            0 <= l < kids.len() ==> !(n[#[trigger] kids[l] as int].kind is Keyword),
    decreases kids.len(),
{
    let p = of_kind(n, Kind::Keyword);
    let words = kept(kids, p);
    if kids.len() > 0 {
        let t = kids.drop_last();
        let last = kids.len() - 1;
        lemma_only(n, t, w);
        let rest = kept(t, p);
        assert forall|l: int| 0 <= l < t.len() implies kids[l] == #[trigger] t[l] by {}
        if p(kids.last()) {
            assert(words == rest.push(kids.last()));
            if words.len() == 1 && raw_word(n, words[0] as int) == w {
                assert forall|l: int| 0 <= l < kids.len() && l != last implies !(
                n[#[trigger] kids[l] as int].kind is Keyword) by {
                    assert(kids[l] == t[l]);
                }
                assert(word_stands(n, kids, last, w));
            }
            if exists|k: int|
                word_stands(n, kids, k, w) && forall|l: int|
                    0 <= l < kids.len() && l != k ==> !(
                    n[#[trigger] kids[l] as int].kind is Keyword) {
                let k = choose|k: int|
                    word_stands(n, kids, k, w) && forall|l: int|
                        0 <= l < kids.len() && l != k ==> !(
                        n[#[trigger] kids[l] as int].kind is Keyword);
                assert(k == last) by {
                    if k != last {
                        assert(n[kids[last] as int].kind is Keyword);
                    }
                }
                assert forall|l: int| 0 <= l < t.len() implies !(
                n[#[trigger] t[l] as int].kind is Keyword) by {
                    assert(kids[l] == t[l]);
                }
            }
            assert(n[kids[last] as int].kind is Keyword);
        } else {
            assert(words == rest);
            if exists|k: int|
                word_stands(n, t, k, w) && forall|l: int|
                    0 <= l < t.len() && l != k ==> !(n[#[trigger] t[l] as int].kind is Keyword) {
                let k = choose|k: int|
                    word_stands(n, t, k, w) && forall|l: int|
                        0 <= l < t.len() && l != k ==> !(
                        n[#[trigger] t[l] as int].kind is Keyword);
                assert forall|l: int| 0 <= l < kids.len() && l != k implies !(
                n[#[trigger] kids[l] as int].kind is Keyword) by {
                    if l < t.len() {
                        assert(kids[l] == t[l]);
                    }
                }
                assert(word_stands(n, kids, k, w));
            }
            if exists|k: int|
                word_stands(n, kids, k, w) && forall|l: int|
                    0 <= l < kids.len() && l != k ==> !(
                    n[#[trigger] kids[l] as int].kind is Keyword) {
                let k = choose|k: int|
                    word_stands(n, kids, k, w) && forall|l: int|
                        0 <= l < kids.len() && l != k ==> !(
                        n[#[trigger] kids[l] as int].kind is Keyword);
                assert(k < t.len());
                assert forall|l: int| 0 <= l < t.len() && l != k implies !(
                n[#[trigger] t[l] as int].kind is Keyword) by {
                    assert(kids[l] == t[l]);
                }
                assert(word_stands(n, t, k, w));
            }
            if forall|l: int|
                0 <= l < t.len() ==> !(n[#[trigger] t[l] as int].kind is Keyword) {
                assert forall|l: int| 0 <= l < kids.len() implies !(
                n[#[trigger] kids[l] as int].kind is Keyword) by {
                    if l < t.len() {
                        assert(kids[l] == t[l]);
                    }
                }
            }
            if forall|l: int|
                0 <= l < kids.len() ==> !(n[#[trigger] kids[l] as int].kind is Keyword) {
                assert forall|l: int| 0 <= l < t.len() implies !(
                n[#[trigger] t[l] as int].kind is Keyword) by {
                    assert(kids[l] == t[l]);
                }
            }
        }
    }
}

/// A statement that is a block is called one; one that is none and has a
/// definition in it is procedural.
pub proof fn blocks_and_definitions_come_first(n: Seq<Node>, stmt: int, bigquery: bool)
    requires
        well_formed(n),
        0 <= stmt < n.len(),
    ensures
        is_block(n, stmt, bigquery) <==> statement_kind(n, stmt, bigquery) is AnonymousBlock,
        !is_block(n, stmt, bigquery) && has_in(n, stmt, KindSet::Definitions) <==> statement_kind(
            n,
            stmt,
            bigquery,
        ) is Procedural,
{
    lemma_has_outside(n, stmt, KindSet::TypedBlocks, KindSet::BlockBoundaries);
    lemma_has_outside(n, stmt, KindSet::TypedControls, KindSet::BlockBoundaries);
    lemma_has_in(n, stmt, KindSet::Definitions);
    lemma_bracket(n, stmt);
    assert(keyword_led(n, stmt) <==> starts_control(n, stmt));
}

/// Whether none of the statements that change data are in a statement.
pub open spec fn changes_no_data(n: Seq<Node>, stmt: int) -> bool {
    !has_in(n, stmt, KindSet::Only(Kind::MergeStatement)) && !has_in(n, stmt, KindSet::Inserts)
        && !has_in(n, stmt, KindSet::Updates) && !has_in(n, stmt, KindSet::Deletes)
}

/// Whether a statement neither changes data nor empties, alters or creates a
/// table or a view.
pub open spec fn defines_nothing(n: Seq<Node>, stmt: int) -> bool {
    &&& changes_no_data(n, stmt)
    &&& !has_in(n, stmt, KindSet::Only(Kind::TruncateStatement))
    &&& !has_in(n, stmt, KindSet::AlterTables)
    &&& !has_in(n, stmt, KindSet::CreateTables)
    &&& !has_in(n, stmt, KindSet::CreateViews)
}

/// Whether a statement starts with `CREATE`.
pub open spec fn starts_with_create(n: Seq<Node>, stmt: int) -> bool {
    starts_with(upper(trim_start(n[stmt].raw)), "CREATE"@)
}

/// A statement that is neither a block nor a definition is called by the first of
/// these that it has in it: a merge, an insert, an update, a delete, an emptied
/// table, an altered table, a created table, a created view.
pub proof fn statements_go_by_what_they_change(n: Seq<Node>, stmt: int, bigquery: bool)
    requires
        well_formed(n),
        0 <= stmt < n.len(),
        !is_block(n, stmt, bigquery),
        !has_in(n, stmt, KindSet::Definitions),
    ensures
        ({
            let kind = statement_kind(n, stmt, bigquery);
            let merges = has_in(n, stmt, KindSet::Only(Kind::MergeStatement));
            let inserts = has_in(n, stmt, KindSet::Inserts);
            let updates = has_in(n, stmt, KindSet::Updates);
            let empties = has_in(n, stmt, KindSet::Only(Kind::TruncateStatement));
            let alters = has_in(n, stmt, KindSet::AlterTables);
            let tables = has_in(n, stmt, KindSet::CreateTables);
            let queries = has_in(n, stmt, KindSet::Only(Kind::SelectStatement)) || has_in(
                n,
                stmt,
                KindSet::Only(Kind::WithCompoundStatement),
            );
            let calm = changes_no_data(n, stmt);
            &&& kind is Merge <==> merges
            &&& kind is Insert <==> inserts && !merges
            &&& kind is Update <==> updates && !merges && !inserts
            &&& kind is Delete <==> has_in(n, stmt, KindSet::Deletes) && !merges && !inserts
                && !updates
            &&& kind is Truncate <==> calm && empties
            &&& kind is AlterTable <==> calm && !empties && alters
            &&& kind is CreateTableAsSelect <==> calm && !empties && !alters && tables && queries
            &&& kind is CreateTable <==> calm && !empties && !alters && tables && !queries
            &&& kind is CreateView <==> calm && !empties && !alters && !tables && has_in(
                n,
                stmt,
                KindSet::CreateViews,
            )
        }),
{
    lemma_kinds_in(n, stmt, bigquery);
}

proof fn lemma_kinds_in(n: Seq<Node>, stmt: int, bigquery: bool)
    requires
        well_formed(n),
        0 <= stmt < n.len(),
        !is_block(n, stmt, bigquery),
        !has_in(n, stmt, KindSet::Definitions),
    ensures
        statement_kind(n, stmt, bigquery) == plain_kind(n, stmt, bigquery),
        forall|set: KindSet|
            !set.holds(Kind::ObjectReference) ==> #[trigger] has_any(n, stmt, set) == has_in(
                n,
                stmt,
                set,
            ),
{
    blocks_and_definitions_come_first(n, stmt, bigquery);
    assert forall|set: KindSet| !set.holds(Kind::ObjectReference) implies #[trigger] has_any(
        n,
        stmt,
        set,
    ) == has_in(n, stmt, set) by {
        lemma_has_in(n, stmt, set);
    }
}

/// A statement that changes nothing of these is called by how it starts or by the
/// next of these that it has in it: a created object, a drop, a right that is
/// given or taken, control of a transaction, an explanation.
pub proof fn other_statements_go_by_their_start(n: Seq<Node>, stmt: int, bigquery: bool)
    requires
        well_formed(n),
        0 <= stmt < n.len(),
        !is_block(n, stmt, bigquery),
        !has_in(n, stmt, KindSet::Definitions),
        defines_nothing(n, stmt),
    ensures
        ({
            let kind = statement_kind(n, stmt, bigquery);
            let creates = starts_with_create(n, stmt);
            let drops = has_in(n, stmt, KindSet::Drops);
            let rights = has_in(n, stmt, KindSet::Only(Kind::AccessStatement));
            let revokes = starts_with(trim_start(upper(n[stmt].raw)), "REVOKE"@);
            let controls = has_in(n, stmt, KindSet::Transactions) && !(bigquery && (is_bracket(
                n,
                stmt,
                Word::Begin,
            ) || is_bracket(n, stmt, Word::End)));
            let explains = has_in(n, stmt, KindSet::Only(Kind::ExplainStatement));
            &&& kind is CreateOther <==> creates
            &&& kind is Drop <==> !creates && drops
            &&& kind is Revoke <==> !creates && !drops && rights && revokes
            &&& kind is Grant <==> !creates && !drops && rights && !revokes
            &&& kind is TransactionControl <==> !creates && !drops && !rights && controls
            &&& kind is Explain <==> !creates && !drops && !rights && !controls && explains
        }),
{
    lemma_kinds_in(n, stmt, bigquery);
    lemma_bracket(n, stmt);
    assert(plain_kind(n, stmt, bigquery) is CreateOther <==> starts_with_create(n, stmt));
}

/// Whether the first query of a statement outside brackets is of a kind.
pub open spec fn leads_with_query(n: Seq<Node>, stmt: int, k: Kind) -> bool {
    exists|j: int|
        n[j].kind == k && #[trigger] found_outside(
            n,
            stmt,
            KindSet::QueryBodies,
            KindSet::Only(Kind::Bracketed),
            j,
        ) && forall|i: int| #[trigger]
            found_outside(n, stmt, KindSet::QueryBodies, KindSet::Only(Kind::Bracketed), i) ==> j
                <= i
}

/// A statement that is none of these is called by its first query outside
/// brackets, and is not understood where there is none.
pub proof fn queries_go_by_their_first_node(n: Seq<Node>, stmt: int)
    requires
        well_formed(n),
        0 <= stmt < n.len(),
    ensures
        query_kind(n, stmt) is WithSelect <==> leads_with_query(
            n,
            stmt,
            Kind::WithCompoundStatement,
        ),
        query_kind(n, stmt) is SetOperation <==> leads_with_query(n, stmt, Kind::SetExpression),
        query_kind(n, stmt) is Select <==> leads_with_query(n, stmt, Kind::SelectStatement),
        query_kind(n, stmt) is Unknown <==> !has_outside(
            n,
            stmt,
            KindSet::QueryBodies,
            KindSet::Only(Kind::Bracketed),
        ),
{
    let set = KindSet::QueryBodies;
    let stop = KindSet::Only(Kind::Bracketed);
    lemma_has_outside(n, stmt, set, stop);
    let s = query_bodies(n, stmt);
    if s.len() > 0 {
        let j = s[0] as int;
        assert(found_outside(n, stmt, set, stop, j));
        assert(leads_with_query(n, stmt, n[j].kind));
        assert forall|k: Kind| #[trigger] leads_with_query(n, stmt, k) implies k == n[j].kind by {
            let i = choose|i: int|
                n[i].kind == k && #[trigger] found_outside(n, stmt, set, stop, i) && forall|l: int|
                    #[trigger]
                    found_outside(n, stmt, set, stop, l) ==> i <= l;
            assert(found_outside(n, stmt, set, stop, j));
        }
    }
}

// ── what stands around a statement ─────────────────────────────────────

/// Whether a byte range lies in a routine without being all of it.
pub open spec fn inside_routine(units: Seq<(u32, u32)>, range: (u32, u32)) -> bool {
    exists|k: int|
        0 <= k < units.len() && (#[trigger] units[k]).0 <= range.0 && range.1 <= units[k].1
            && units[k] != range
}

/// A statement has its own kind and its own place, unless it belongs to a
/// routine: one that lies in a routine is procedural; one that follows a routine
/// can be; and no other is, but one that defines a routine.
pub proof fn statements_keep_their_kind(
    n: Seq<Node>,
    lines: Lines,
    rules: StatementRules,
    units: Seq<(u32, u32)>,
    root: int,
    k: int,
)
    requires
        0 <= k < statement_facts(n, lines, rules, units, root).len(),
    ensures
        ({
            let s = statements_of(n, root, rules.brackets);
            let facts = statement_facts(n, lines, rules, units, root);
            let alone = statement_kind(n, s[k] as int, rules.brackets);
            let range = range_of(n, s[k] as int);
            &&& facts.len() == s.len()
            &&& facts[k].kind == alone || facts[k].kind is Procedural
            &&& inside_routine(units, range) ==> facts[k].kind is Procedural
            &&& !inside_routine(units, range) && facts[k].kind != alone ==> k > 0 && (
            facts[k - 1].kind is Procedural || facts[k - 1].kind is Unknown) && (rules.batches
                || alone is AnonymousBlock)
            &&& facts[k].start_byte == range.0
            &&& facts[k].end_byte == range.1
            &&& facts[k].start_line == lines.line(range.0)
            &&& facts[k].end_line == lines.last_line(range.1)
        }),
{
    let s = statements_of(n, root, rules.brackets);
    lemma_classified_len(n, lines, rules, units, s, s.len() as int);
    lemma_classified(n, lines, rules, units, s, s.len() as int, k);
    let range = range_of(n, s[k] as int);
    if owned(units, range) {
        let i = choose|i: int| 0 <= i < units.len() && owns(#[trigger] units[i], range);
        assert(units[i].0 <= range.0);
    }
    if inside_routine(units, range) {
        let i = choose|i: int|
            0 <= i < units.len() && (#[trigger] units[i]).0 <= range.0 && range.1 <= units[i].1
                && units[i] != range;
        assert(owns(units[i], range));
    }
}

proof fn lemma_classified(
    n: Seq<Node>,
    lines: Lines,
    rules: StatementRules,
    units: Seq<(u32, u32)>,
    s: Seq<usize>,
    hi: int,
    k: int,
)
    requires
        0 <= k < hi,
    ensures
        classified(n, lines, rules, units, s, hi).0.len() == hi,
        classified(n, lines, rules, units, s, hi).0[k] == classify_next(
            n,
            lines,
            rules,
            units,
            s[k] as int,
            classified(n, lines, rules, units, s, k).1,
        ).0,
        k > 0 && classified(n, lines, rules, units, s, k).1 ==> {
            let before = classified(n, lines, rules, units, s, hi).0[k - 1].kind;
            before is Procedural || before is Unknown
        },
        k == 0 ==> !classified(n, lines, rules, units, s, k).1,
    decreases hi,
{
    if hi - 1 > k {
        lemma_classified(n, lines, rules, units, s, hi - 1, k);
    } else if k > 0 {
        lemma_classified(n, lines, rules, units, s, hi - 1, k - 1);
    }
    lemma_classified_len(n, lines, rules, units, s, hi - 1);
}

proof fn lemma_classified_len(
    n: Seq<Node>,
    lines: Lines,
    rules: StatementRules,
    units: Seq<(u32, u32)>,
    s: Seq<usize>,
    hi: int,
)
    requires
        hi >= 0,
    ensures
        classified(n, lines, rules, units, s, hi).0.len() == hi,
    decreases hi,
{
    if hi > 0 {
        lemma_classified_len(n, lines, rules, units, s, hi - 1);
    }
}

/// After a routine every statement of a batch belongs to it until a `GO`, which
/// is none of it.
pub proof fn batches_end_at_go(
    n: Seq<Node>,
    lines: Lines,
    rules: StatementRules,
    units: Seq<(u32, u32)>,
    stmt: int,
    after_routine: bool,
)
    requires
        rules.batches,
        !inside_routine(units, range_of(n, stmt)),
    ensures
        ({
            let (facts, after) = classify_next(n, lines, rules, units, stmt, after_routine);
            let alone = statement_kind(n, stmt, rules.brackets);
            let code = code_children(n, stmt);
            let go = alone is Unknown && code.len() == 1 && word_stands(n, code, 0, Word::Go);
            &&& go ==> facts.kind is Unknown && !after
            &&& !go && after_routine ==> facts.kind is Procedural && after
            &&& !after_routine ==> facts.kind == alone && after == (alone is Procedural)
        }),
{
    let range = range_of(n, stmt);
    if owned(units, range) {
        let i = choose|i: int| 0 <= i < units.len() && owns(#[trigger] units[i], range);
        assert(units[i].0 <= range.0);
    }
}

/// Where a routine's body ends with the routine, only the blocks that it is
/// written as go on with it.
pub proof fn bodies_end_with_the_routine(
    n: Seq<Node>,
    lines: Lines,
    rules: StatementRules,
    units: Seq<(u32, u32)>,
    stmt: int,
    after_routine: bool,
)
    requires
        !rules.batches,
        !inside_routine(units, range_of(n, stmt)),
    ensures
        ({
            let (facts, after) = classify_next(n, lines, rules, units, stmt, after_routine);
            let alone = statement_kind(n, stmt, rules.brackets);
            &&& facts.kind == alone || alone is AnonymousBlock && after_routine
            &&& alone is AnonymousBlock && after_routine && block_shape(n, stmt)
                == Some(AnonymousBlockShape::KeywordLed) ==> facts.kind is Procedural
            &&& alone is AnonymousBlock && block_shape(n, stmt)
                == Some(AnonymousBlockShape::TypedBlock) ==> facts.kind is AnonymousBlock
            &&& alone is AnonymousBlock && after_routine && block_shape(n, stmt)
                == Some(AnonymousBlockShape::TypedControl) ==> facts.kind is Procedural
            &&& facts.kind is Procedural ==> after
        }),
{
    let range = range_of(n, stmt);
    if owned(units, range) {
        let i = choose|i: int| 0 <= i < units.len() && owns(#[trigger] units[i], range);
        assert(units[i].0 <= range.0);
    }
}

/// The statements of a file are its outermost ones, in order, without the
/// closing brackets of scripting.
pub proof fn statements_are_outermost(n: Seq<Node>, root: int, bigquery: bool, j: int)
    requires
        well_formed(n),
        0 <= root < n.len(),
        root <= j < n[root].end,
    ensures
        statements_of(n, root, bigquery).contains(j as usize) <==> n[j].kind is Statement && (
        forall|a: int|
            root <= a < j && j < (#[trigger] n[a]).end ==> !(n[a].kind is Statement)) && !(bigquery
            && is_bracket(n, j, Word::End)),
{
    let p = Probe {
        set: KindSet::Only(Kind::Statement),
        deep: false,
        stop: KindSet::Empty,
        own: true,
    };
    let s = crawl(n, root, p);
    let f = counts_as_statement(n, bigquery);
    let hi = n[root].end as int;
    lemma_reported(n, root, p, hi);
    lemma_kept_contains(s, f, j as usize);
    lemma_bracket(n, j);
    let outermost = forall|a: int|
        root <= a < j && j < (#[trigger] n[a]).end ==> !(n[a].kind is Statement);
    if n[j].kind is Statement && outermost {
        assert(open_to(n, root, p, j));
        let k = lemma_is_crawled(n, root, p, hi, j);
        assert(s[k] == j as usize);
    }
    if s.contains(j as usize) {
        let k = choose|k: int| 0 <= k < s.len() && s[k] == j as usize;
        assert(reports(n, root, p, s[k] as int));
        assert forall|a: int| root <= a < j && j < (#[trigger] n[a]).end implies !(
        n[a].kind is Statement) by {
            assert(!closes(n, root, p, a));
        }
    }
}

/// What is kept of a list is what is in it and satisfies `f`.
pub proof fn lemma_kept_contains(s: Seq<usize>, f: spec_fn(usize) -> bool, x: usize)
    ensures
        kept(s, f).contains(x) <==> s.contains(x) && f(x),
    decreases s.len(),
{
    if s.len() > 0 {
        let t = s.drop_last();
        lemma_kept_contains(t, f, x);
        assert(s =~= t.push(s.last()));
        assert(s.contains(x) <==> t.contains(x) || s.last() == x) by {
            if t.contains(x) {
                let k = choose|k: int| 0 <= k < t.len() && t[k] == x;
                assert(s[k] == x);
            }
            if s.last() == x {
                assert(s[s.len() - 1] == x);
            }
        }
        let u = kept(t, f);
        if f(s.last()) {
            let v = kept(s, f);
            assert(v == u.push(s.last()));
            if u.contains(x) {
                let k = choose|k: int| 0 <= k < u.len() && u[k] == x;
                assert(v[k] == x);
            }
            if s.last() == x {
                assert(v[u.len() as int] == x);
            }
        }
    }
}

} // verus!
