//! What is counted of predicates, subqueries, expressions and outputs, node by
//! node.

use vstd::prelude::*;

use crate::clause_laws::lemma_some;
use crate::clauses::{case_depth, describes_cases, CaseFacts};
use crate::kind::{Kind, KindSet};
use crate::joins::lemma_some_in;
use crate::measure::deepest;
use crate::predicates::{
    bare_operators, boolean_depth, boolean_groups, boolean_operator, boolean_operators,
    describes_predicates, holds_boolean, keyword_tests_at, keyword_tests_in, negates, nots_at,
    nots_in, null_risks_at, null_risks_in, risks_null, tests_at, PredicateFacts,
};
use crate::subqueries::tests_query;
use crate::text::trim;
use crate::tree::{
    code_children, closes, count, lemma_siblings, number, raw_word, reports, well_formed, Node,
    Probe,
};
use crate::tree_laws::{
    code_children_carry_code, highest_in, lemma_counted, lemma_crawled, lemma_highest, lemma_listed,
    lemma_nesting, lemma_nesting_of_kind, lemma_same_total, nesting, nodes_in, total, total_in,
};
use crate::word::Word;

verus! {

// ── case expressions ───────────────────────────────────────────────────

/// How deep case expressions lie in each other.
pub proof fn cases_nest(n: Seq<Node>, root: int, r: CaseFacts)
    requires
        well_formed(n),
        0 <= root < n.len(),
        describes_cases(n, root, r),
    ensures
        r.max_depth == highest_in(
            n,
            root,
            |j: int|
                if n[j].kind is CaseExpression {
                    nesting(n, j, |a: int| n[a].kind is CaseExpression)
                } else {
                    0
                },
        ),
{
    let set = KindSet::Only(Kind::CaseExpression);
    let q = |a: int| n[a].kind is CaseExpression;
    let g = |j: int|
        if n[j].kind is CaseExpression {
            nesting(n, j, q)
        } else {
            0
        };
    assert forall|j: int| root <= j < n[root].end implies #[trigger] g(j) == if set.holds(
        n[j].kind,
    ) {
        case_depth(n)(j as usize)
    } else {
        0
    } by {
        lemma_nesting_of_kind(n, j, Kind::CaseExpression, q);
    }
    lemma_highest(n, root, set, case_depth(n), g);
}

// ── boolean operators ──────────────────────────────────────────────────

/// Whether a node is an `AND` or an `OR`.
pub open spec fn joins_conditions(n: Seq<Node>, j: int) -> bool {
    n[j].kind is BinaryOperator && (raw_word(n, j) is And || raw_word(n, j) is Or)
}

/// Whether a node brackets conditions that are joined.
pub open spec fn groups_conditions(n: Seq<Node>, b: int) -> bool {
    n[b].kind is Bracketed && exists|j: int|
        b <= j < n[b].end && #[trigger] joins_conditions(n, j)
}

/// The brackets around conditions that are joined.
pub open spec fn condition_groups(n: Seq<Node>) -> spec_fn(int) -> bool {
    |b: int| groups_conditions(n, b)
}

/// Whether a clause joins conditions outside every bracket.
pub open spec fn joins_openly(n: Seq<Node>, i: int) -> bool {
    exists|j: int|
        i <= j < n[i].end && #[trigger] joins_conditions(n, j) && forall|a: int|
            i < a < j && j < (#[trigger] n[a]).end ==> !(n[a].kind is Bracketed)
}

/// How deep the conditions of a clause nest: not at all where none are joined;
/// otherwise one level, and one more for each group in another, where a group
/// around all of them is no level of its own.
pub open spec fn condition_nesting(n: Seq<Node>, i: int) -> int {
    if exists|j: int| i <= j < n[i].end && #[trigger] joins_conditions(n, j) {
        nesting(n, i, condition_groups(n)) + if joins_openly(n, i) {
            1int
        } else {
            0
        }
    } else {
        0
    }
}

proof fn lemma_operators(n: Seq<Node>, i: int)
    requires
        well_formed(n),
        0 <= i < n.len(),
    ensures
        boolean_operators(n, i) == nodes_in(n, i, |j: int| joins_conditions(n, j)),
        boolean_operators(n, i) >= 0,
        boolean_operators(n, i) > 0 <==> exists|j: int|
            i <= j < n[i].end && #[trigger] joins_conditions(n, j),
{
    let q = |j: int| joins_conditions(n, j);
    lemma_counted(n, i, KindSet::Only(Kind::BinaryOperator), boolean_operator(n), q);
    lemma_some(i, n[i].end as int, q);
    if boolean_operators(n, i) > 0 {
        let j = choose|j: int| i <= j < n[i].end && #[trigger] q(j);
        assert(joins_conditions(n, j));
    }
    if exists|j: int| i <= j < n[i].end && #[trigger] joins_conditions(n, j) {
        let j = choose|j: int| i <= j < n[i].end && #[trigger] joins_conditions(n, j);
        assert(q(j));
    }
}

proof fn lemma_condition_nesting(n: Seq<Node>, i: int)
    requires
        well_formed(n),
        0 <= i < n.len(),
        !(n[i].kind is BinaryOperator),
    ensures
        boolean_depth(n)(i as usize) == condition_nesting(n, i),
{
    lemma_operators(n, i);
    let g = condition_groups(n);
    assert forall|b: int| i <= b < n[i].end implies #[trigger] g(b) == (KindSet::Only(
        Kind::Bracketed,
    ).holds(n[b].kind) && holds_boolean(n)(b as usize)) by {
        lemma_operators(n, b);
    }
    lemma_nesting(n, i, KindSet::Only(Kind::Bracketed), holds_boolean(n), g);
    let p = Probe {
        set: KindSet::Only(Kind::BinaryOperator),
        deep: true,
        stop: KindSet::Only(Kind::Bracketed),
        own: false,
    };
    let q = |j: int| reports(n, i, p, j) && boolean_operator(n)(j as usize);
    lemma_crawled(n, i, p, boolean_operator(n), q);
    lemma_some(i, n[i].end as int, q);
    if joins_openly(n, i) {
        let j = choose|j: int|
            i <= j < n[i].end && #[trigger] joins_conditions(n, j) && forall|a: int|
                i < a < j && j < (#[trigger] n[a]).end ==> !(n[a].kind is Bracketed);
        assert(reports(n, i, p, j));
        assert(q(j));
    }
    if exists|j: int| i <= j < n[i].end && #[trigger] q(j) {
        let j = choose|j: int| i <= j < n[i].end && #[trigger] q(j);
        assert(joins_conditions(n, j));
        assert forall|a: int| i < a < j && j < (#[trigger] n[a]).end implies !(
        n[a].kind is Bracketed) by {
            assert(!closes(n, i, p, a));
        }
        assert(joins_openly(n, i));
    }
    assert(count(bare_operators(n, i), boolean_operator(n)) > 0 <==> joins_openly(n, i));
    assert(deepest(n, boolean_groups(n, i)) == nesting(n, i, condition_groups(n)));
}

/// The operators that join conditions are counted wherever they stand, and how
/// deep the conditions nest is taken over the clauses that state them.
pub proof fn conditions_are_joined(n: Seq<Node>, root: int, r: PredicateFacts)
    requires
        well_formed(n),
        0 <= root < n.len(),
        describes_predicates(n, root, r),
    ensures
        r.boolean_operator_count == nodes_in(n, root, |j: int| joins_conditions(n, j)),
        r.max_boolean_depth == highest_in(
            n,
            root,
            |i: int|
                if n[i].kind is WhereClause || n[i].kind is HavingClause
                    || n[i].kind is JoinOnCondition {
                    condition_nesting(n, i)
                } else {
                    0
                },
        ),
{
    lemma_operators(n, root);
    let g = |i: int|
        if n[i].kind is WhereClause || n[i].kind is HavingClause || n[i].kind is JoinOnCondition {
            condition_nesting(n, i)
        } else {
            0
        };
    assert forall|i: int| root <= i < n[root].end implies #[trigger] g(i) == if (
    KindSet::Conditions).holds(n[i].kind) {
        boolean_depth(n)(i as usize)
    } else {
        0
    } by {
        if KindSet::Conditions.holds(n[i].kind) {
            lemma_condition_nesting(n, i);
        }
    }
    lemma_highest(n, root, KindSet::Conditions, boolean_depth(n), g);
}

// ── what stands next to what ───────────────────────────────────────────

/// How many places among the children of a node that carry code satisfy `p`.
pub open spec fn places_at(
    n: Seq<Node>,
    i: int,
    p: spec_fn(Seq<usize>, int) -> bool,
) -> int {
    number(0, code_children(n, i).len() as int, |k: int| p(code_children(n, i), k))
}

/// Whether the child at a place is a keyword.
pub open spec fn word_stands(n: Seq<Node>, code: Seq<usize>, k: int, w: Word) -> bool {
    &&& 0 <= k < code.len()
    &&& n[code[k] as int].kind is Keyword
    &&& raw_word(n, code[k] as int) == w
}

/// Whether the child at a place has a text of the vocabulary.
pub open spec fn text_stands(n: Seq<Node>, code: Seq<usize>, k: int, w: Word) -> bool {
    0 <= k < code.len() && raw_word(n, code[k] as int) == w
}

/// Whether the child at a place is the `NULL` literal.
pub open spec fn null_stands(n: Seq<Node>, code: Seq<usize>, k: int) -> bool {
    0 <= k < code.len() && n[code[k] as int].kind is NullLiteral
}

/// Whether the child at a place compares for equality or inequality.
pub open spec fn equates(n: Seq<Node>, code: Seq<usize>, k: int) -> bool {
    let raw = trim(n[code[k] as int].raw);
    n[code[k] as int].kind is ComparisonOperator && (raw == "="@ || raw == "<>"@ || raw == "!="@)
}

/// Whether the child at a place is a bracket with a query in it.
pub open spec fn query_stands(n: Seq<Node>, code: Seq<usize>, k: int) -> bool {
    &&& 0 <= k < code.len()
    &&& n[code[k] as int].kind is Bracketed
    &&& exists|j: int|
        code[k] <= j < n[code[k] as int].end && (#[trigger] n[j]).kind is SelectStatement
}

/// Whether a node lies in a node of a set below `root`.
pub open spec fn lies_in(n: Seq<Node>, root: int, p: int, set: KindSet) -> bool {
    exists|a: int| root < a <= p && p < (#[trigger] n[a]).end && set.holds(n[a].kind)
}

/// What comparing with `NULL` risks: an equality or inequality next to a `NULL`
/// literal, and `NOT` before `IN`.
pub proof fn null_risks_are_counted(n: Seq<Node>, root: int, r: PredicateFacts)
    requires
        well_formed(n),
        0 <= root < n.len(),
        describes_predicates(n, root, r),
    ensures
        r.null_semantics_risk_count == total_in(
            n,
            root,
            |i: int|
                places_at(
                    n,
                    i,
                    |code: Seq<usize>, k: int|
                        (equates(n, code, k) && (null_stands(n, code, k - 1) || null_stands(
                            n,
                            code,
                            k + 1,
                        ))) || (word_stands(n, code, k, Word::Not) && word_stands(
                            n,
                            code,
                            k + 1,
                            Word::In,
                        )),
                ),
        ),
{
    let p = |code: Seq<usize>, k: int|
        (equates(n, code, k) && (null_stands(n, code, k - 1) || null_stands(n, code, k + 1))) || (
        word_stands(n, code, k, Word::Not) && word_stands(n, code, k + 1, Word::In));
    let g = |i: int| places_at(n, i, p);
    lemma_null_risks_in(n, root, n[root].end as int, p, g);
}

proof fn lemma_null_risks_in(
    n: Seq<Node>,
    root: int,
    hi: int,
    p: spec_fn(Seq<usize>, int) -> bool,
    g: spec_fn(int) -> int,
)
    requires
        forall|code: Seq<usize>, k: int|
            0 <= k < code.len() ==> #[trigger] p(code, k) == risks_null(n, code, k),
        forall|i: int| #[trigger] g(i) == places_at(n, i, p),
    ensures
        null_risks_in(n, root, hi) == total(root, hi, g),
    decreases hi - root,
{
    if hi > root {
        lemma_null_risks_in(n, root, hi - 1, p, g);
        let code = code_children(n, hi - 1);
        lemma_null_risks_at(n, code, code.len() as int, p, |k: int| p(code, k));
        assert(g(hi - 1) == places_at(n, hi - 1, p));
    }
}

proof fn lemma_null_risks_at(
    n: Seq<Node>,
    code: Seq<usize>,
    k: int,
    p: spec_fn(Seq<usize>, int) -> bool,
    q: spec_fn(int) -> bool,
)
    requires
        k <= code.len(),
        forall|c: Seq<usize>, k: int|
            0 <= k < c.len() ==> #[trigger] p(c, k) == risks_null(n, c, k),
        forall|k: int| #[trigger] q(k) == p(code, k),
    ensures
        null_risks_at(n, code, k) == number(0, k, q),
    decreases k,
{
    if k > 0 {
        lemma_null_risks_at(n, code, k - 1, p, q);
        assert(q(k - 1) == p(code, k - 1));
    }
}

/// The comparisons are the operators and, in expressions, the words `IN`, `LIKE`
/// and `BETWEEN`, but not an `IN` before a query.
pub proof fn comparisons_are_counted(n: Seq<Node>, root: int, r: PredicateFacts)
    requires
        well_formed(n),
        0 <= root < n.len(),
        describes_predicates(n, root, r),
    ensures
        r.comparison_count == nodes_in(n, root, |j: int| n[j].kind is ComparisonOperator)
            + total_in(
            n,
            root,
            |i: int|
                if n[i].kind is Expression {
                    places_at(
                        n,
                        i,
                        |code: Seq<usize>, k: int|
                            word_stands(n, code, k, Word::Like) || word_stands(
                                n,
                                code,
                                k,
                                Word::Between,
                            ) || (word_stands(n, code, k, Word::In) && !query_stands(
                                n,
                                code,
                                k + 1,
                            )),
                    )
                } else {
                    0
                },
        ),
{
    lemma_listed(
        n,
        root,
        KindSet::Only(Kind::ComparisonOperator),
        |j: int| n[j].kind is ComparisonOperator,
    );
    let p = |code: Seq<usize>, k: int|
        word_stands(n, code, k, Word::Like) || word_stands(n, code, k, Word::Between) || (
        word_stands(n, code, k, Word::In) && !query_stands(n, code, k + 1));
    let g = |i: int|
        if n[i].kind is Expression {
            places_at(n, i, p)
        } else {
            0
        };
    assert forall|i: int, k: int|
        0 <= i < n.len() && 0 <= k < code_children(n, i).len() implies #[trigger] p(
        code_children(n, i),
        k,
    ) == tests_at(n, code_children(n, i), k) by {
        lemma_tests_query(n, i, k, Word::In);
    }
    lemma_tests_in(n, root, n[root].end as int, p, g);
}

/// A keyword before a bracketed query.
pub proof fn lemma_tests_query(n: Seq<Node>, i: int, k: int, w: Word)
    requires
        well_formed(n),
        0 <= i < n.len(),
        0 <= k < code_children(n, i).len(),
    ensures
        tests_query(n, code_children(n, i), k, w) <==> word_stands(n, code_children(n, i), k, w)
            && query_stands(n, code_children(n, i), k + 1),
{
    let code = code_children(n, i);
    if k + 1 < code.len() {
        code_children_carry_code(n, i);
        lemma_code_child(n, i, k + 1);
        lemma_some_in(n, code[k + 1] as int, Kind::SelectStatement);
    }
}

proof fn lemma_code_child(n: Seq<Node>, i: int, k: int)
    requires
        well_formed(n),
        0 <= i < n.len(),
        0 <= k < code_children(n, i).len(),
    ensures
        code_children(n, i)[k] < n.len(),
{
    lemma_siblings(n, i + 1, n[i].end as int);
}

proof fn lemma_tests_in(
    n: Seq<Node>,
    root: int,
    hi: int,
    p: spec_fn(Seq<usize>, int) -> bool,
    g: spec_fn(int) -> int,
)
    requires
        0 <= root,
        hi <= n.len(),
        forall|i: int, k: int|
            0 <= i < n.len() && 0 <= k < code_children(n, i).len() ==> #[trigger] p(
                code_children(n, i),
                k,
            ) == tests_at(n, code_children(n, i), k),
        forall|i: int| #[trigger] g(i) == if n[i].kind is Expression {
            places_at(n, i, p)
        } else {
            0
        },
    ensures
        keyword_tests_in(n, root, hi) == total(root, hi, g),
    decreases hi - root,
{
    if hi > root {
        lemma_tests_in(n, root, hi - 1, p, g);
        let code = code_children(n, hi - 1);
        lemma_tests_at(n, hi - 1, code.len() as int, p, |k: int| p(code, k));
        assert(g(hi - 1) == if n[hi - 1].kind is Expression {
            places_at(n, hi - 1, p)
        } else {
            0
        });
    }
}

proof fn lemma_tests_at(
    n: Seq<Node>,
    i: int,
    k: int,
    p: spec_fn(Seq<usize>, int) -> bool,
    q: spec_fn(int) -> bool,
)
    requires
        0 <= i < n.len(),
        k <= code_children(n, i).len(),
        forall|k: int|
            0 <= k < code_children(n, i).len() ==> #[trigger] p(code_children(n, i), k) == tests_at(
                n,
                code_children(n, i),
                k,
            ),
        forall|k: int| #[trigger] q(k) == p(code_children(n, i), k),
    ensures
        keyword_tests_at(n, code_children(n, i), k) == number(0, k, q),
    decreases k,
{
    if k > 0 {
        lemma_tests_at(n, i, k - 1, p, q);
        assert(q(k - 1) == p(code_children(n, i), k - 1));
    }
}

/// A `NOT` negates a condition, but not where it makes a column `NOT NULL` and
/// not where it guards a definition by `IF NOT EXISTS`.
pub proof fn negations_are_counted(n: Seq<Node>, root: int, r: PredicateFacts)
    requires
        well_formed(n),
        0 <= root < n.len(),
        describes_predicates(n, root, r),
    ensures
        r.not_count == r.not_spans@.len(),
        r.not_count == total_in(
            n,
            root,
            |i: int|
                places_at(
                    n,
                    i,
                    |code: Seq<usize>, k: int|
                        word_stands(n, code, k, Word::Not) && n[code[k] as int].span is Some && !(
                        text_stands(n, code, k + 1, Word::Null) && !text_stands(
                            n,
                            code,
                            k - 1,
                            Word::Is,
                        ) && lies_in(n, root, i, KindSet::Constraints)) && !(text_stands(
                            n,
                            code,
                            k + 1,
                            Word::Exists,
                        ) && text_stands(n, code, k - 1, Word::If) && lies_in(
                            n,
                            root,
                            i,
                            KindSet::GuardedDdl,
                        )),
                ),
        ),
{
    let p = |i: int|
        |code: Seq<usize>, k: int|
            word_stands(n, code, k, Word::Not) && n[code[k] as int].span is Some && !(text_stands(
                n,
                code,
                k + 1,
                Word::Null,
            ) && !text_stands(n, code, k - 1, Word::Is) && lies_in(n, root, i, KindSet::Constraints))
                && !(text_stands(n, code, k + 1, Word::Exists) && text_stands(
                n,
                code,
                k - 1,
                Word::If,
            ) && lies_in(n, root, i, KindSet::GuardedDdl));
    let g = |i: int| places_at(n, i, p(i));
    lemma_nots_in(n, root, n[root].end as int, p, g);
    let h = |i: int|
        places_at(
            n,
            i,
            |code: Seq<usize>, k: int|
                word_stands(n, code, k, Word::Not) && n[code[k] as int].span is Some && !(
                text_stands(n, code, k + 1, Word::Null) && !text_stands(n, code, k - 1, Word::Is)
                    && lies_in(n, root, i, KindSet::Constraints)) && !(text_stands(
                    n,
                    code,
                    k + 1,
                    Word::Exists,
                ) && text_stands(n, code, k - 1, Word::If) && lies_in(
                    n,
                    root,
                    i,
                    KindSet::GuardedDdl,
                )),
        );
    lemma_same_total(root, n[root].end as int, g, h);
}

proof fn lemma_nots_in(
    n: Seq<Node>,
    root: int,
    hi: int,
    p: spec_fn(int) -> spec_fn(Seq<usize>, int) -> bool,
    g: spec_fn(int) -> int,
)
    requires
        forall|i: int, k: int|
            0 <= k < code_children(n, i).len() ==> #[trigger] p(i)(code_children(n, i), k)
                == negates(n, root, i, k),
        forall|i: int| #[trigger] g(i) == places_at(n, i, p(i)),
    ensures
        nots_in(n, root, hi).len() == total(root, hi, g),
    decreases hi - root,
{
    if hi > root {
        lemma_nots_in(n, root, hi - 1, p, g);
        let code = code_children(n, hi - 1);
        lemma_nots_at(n, root, hi - 1, code.len() as int, p, |k: int| p(hi - 1)(code, k));
        assert(g(hi - 1) == places_at(n, hi - 1, p(hi - 1)));
    }
}

proof fn lemma_nots_at(
    n: Seq<Node>,
    root: int,
    i: int,
    k: int,
    p: spec_fn(int) -> spec_fn(Seq<usize>, int) -> bool,
    q: spec_fn(int) -> bool,
)
    requires
        k <= code_children(n, i).len(),
        forall|k: int|
            0 <= k < code_children(n, i).len() ==> #[trigger] p(i)(code_children(n, i), k)
                == negates(n, root, i, k),
        forall|k: int| #[trigger] q(k) == p(i)(code_children(n, i), k),
    ensures
        nots_at(n, root, i, k).len() == number(0, k, q),
    decreases k,
{
    if k > 0 {
        lemma_nots_at(n, root, i, k - 1, p, q);
        assert(q(k - 1) == p(i)(code_children(n, i), k - 1));
    }
}

} // verus!
