//! What is counted of set operators, case expressions, windows and aggregates,
//! node by node.

use vstd::prelude::*;

use crate::clauses::{
    aggregate_call, arms_of, cube_call, describes_aggregates, describes_cases, describes_set_ops,
    describes_windows, distinct_call, function_names, keys_below, keys_of, lacks_else, of_set_op,
    rollup_call, surplus_of, AggregateFacts, CaseFacts, SetOp, SetOpFacts, WindowFacts,
};
use crate::kind::{Kind, KindSet};
use crate::measure::{direct, spelled};
use crate::text::{contains, upper};
use crate::tree::{all_in, every, lemma_crawl, lemma_reported, raw_word, well_formed, Node};
use crate::tree_laws::{
    child_of, lemma_counted, lemma_direct, lemma_is_reported, lemma_listed, lemma_peaked,
    lemma_totalled, most_in, nodes_in, total_in,
};
use crate::word::Word;

verus! {

// ── set operators ──────────────────────────────────────────────────────

/// Whether the text of a node has a word in it, whatever the case.
pub open spec fn says(n: Seq<Node>, j: int, word: Seq<char>) -> bool {
    contains(upper(n[j].raw), word)
}

/// A set operator counts as a union with or without duplicates, as an
/// intersection or as a difference, by the first of these words that it says.
pub proof fn set_operators_go_by_their_words(n: Seq<Node>, root: int, r: SetOpFacts)
    requires
        well_formed(n),
        0 <= root < n.len(),
        describes_set_ops(n, root, r),
    ensures
        r.count == nodes_in(n, root, |j: int| n[j].kind is SetOperator),
        r.union_all_count == nodes_in(
            n,
            root,
            |j: int| n[j].kind is SetOperator && says(n, j, "UNION"@) && says(n, j, "ALL"@),
        ),
        r.union_count == nodes_in(
            n,
            root,
            |j: int| n[j].kind is SetOperator && says(n, j, "UNION"@) && !says(n, j, "ALL"@),
        ),
        r.intersect_count == nodes_in(
            n,
            root,
            |j: int|
                n[j].kind is SetOperator && says(n, j, "INTERSECT"@) && !says(n, j, "UNION"@),
        ),
        r.except_count == nodes_in(
            n,
            root,
            |j: int|
                n[j].kind is SetOperator && (says(n, j, "EXCEPT"@) || says(n, j, "MINUS"@))
                    && !says(n, j, "UNION"@) && !says(n, j, "INTERSECT"@),
        ),
{
    let set = KindSet::Only(Kind::SetOperator);
    lemma_listed(n, root, set, |j: int| n[j].kind is SetOperator);
    lemma_counted(
        n,
        root,
        set,
        of_set_op(n, SetOp::UnionAll),
        |j: int| n[j].kind is SetOperator && says(n, j, "UNION"@) && says(n, j, "ALL"@),
    );
    lemma_counted(
        n,
        root,
        set,
        of_set_op(n, SetOp::Union),
        |j: int| n[j].kind is SetOperator && says(n, j, "UNION"@) && !says(n, j, "ALL"@),
    );
    lemma_counted(
        n,
        root,
        set,
        of_set_op(n, SetOp::Intersect),
        |j: int| n[j].kind is SetOperator && says(n, j, "INTERSECT"@) && !says(n, j, "UNION"@),
    );
    lemma_counted(
        n,
        root,
        set,
        of_set_op(n, SetOp::Except),
        |j: int|
            n[j].kind is SetOperator && (says(n, j, "EXCEPT"@) || says(n, j, "MINUS"@)) && !says(
                n,
                j,
                "UNION"@,
            ) && !says(n, j, "INTERSECT"@),
    );
}

// ── case expressions ───────────────────────────────────────────────────

/// How many children of a kind a node has.
pub open spec fn children_of(n: Seq<Node>, i: int, k: Kind) -> int {
    nodes_in(n, i, |c: int| child_of(n, i, c) && n[c].kind == k)
}

/// The arms of a case expression are the `WHEN` clauses right below it; those
/// beyond the second are surplus; and it lacks an `ELSE` where no `ELSE` clause
/// is right below it.
pub proof fn cases_count_their_arms(n: Seq<Node>, root: int, r: CaseFacts)
    requires
        well_formed(n),
        0 <= root < n.len(),
        describes_cases(n, root, r),
    ensures
        r.count == nodes_in(n, root, |j: int| n[j].kind is CaseExpression),
        r.when_count == total_in(
            n,
            root,
            |j: int|
                if n[j].kind is CaseExpression {
                    children_of(n, j, Kind::WhenClause)
                } else {
                    0
                },
        ),
        most_in(
            n,
            root,
            |j: int| n[j].kind is CaseExpression,
            |j: int| children_of(n, j, Kind::WhenClause),
            r.max_when_count as int,
        ),
        r.surplus_when_arms == total_in(
            n,
            root,
            |j: int|
                if n[j].kind is CaseExpression && children_of(n, j, Kind::WhenClause) >= 3 {
                    children_of(n, j, Kind::WhenClause) - 2
                } else {
                    0
                },
        ),
        r.missing_else_count == nodes_in(
            n,
            root,
            |j: int| n[j].kind is CaseExpression && children_of(n, j, Kind::ElseClause) == 0,
        ),
{
    let set = KindSet::Only(Kind::CaseExpression);
    let is_case = |j: int| n[j].kind is CaseExpression;
    let arms = |j: int| children_of(n, j, Kind::WhenClause);
    let end = n[root].end as int;
    assert forall|j: int| root <= j < end implies #[trigger] direct(n, j, Kind::WhenClause) == arms(
        j,
    ) && direct(n, j, Kind::ElseClause) == children_of(n, j, Kind::ElseClause) by {
        lemma_direct(n, j, Kind::WhenClause);
        lemma_direct(n, j, Kind::ElseClause);
    }
    lemma_listed(n, root, set, is_case);
    let each = |j: int|
        if n[j].kind is CaseExpression {
            children_of(n, j, Kind::WhenClause)
        } else {
            0
        };
    assert forall|j: int| root <= j < end implies #[trigger] each(j) == if set.holds(n[j].kind) {
        arms_of(n)(j as usize)
    } else {
        0
    } by {
        assert(direct(n, j, Kind::WhenClause) == arms(j));
    }
    lemma_totalled(n, root, set, arms_of(n), each);
    assert forall|j: int| root <= j < end && #[trigger] is_case(j) implies arms(j) == arms_of(n)(
        j as usize,
    ) by {
        assert(direct(n, j, Kind::WhenClause) == arms(j));
    }
    lemma_peaked(n, root, set, arms_of(n), is_case, arms);
    let surplus = |j: int|
        if n[j].kind is CaseExpression && children_of(n, j, Kind::WhenClause) >= 3 {
            children_of(n, j, Kind::WhenClause) - 2
        } else {
            0
        };
    assert forall|j: int| root <= j < end implies #[trigger] surplus(j) == if set.holds(n[j].kind) {
        surplus_of(n)(j as usize)
    } else {
        0
    } by {
        assert(direct(n, j, Kind::WhenClause) == arms(j));
    }
    lemma_totalled(n, root, set, surplus_of(n), surplus);
    let open = |j: int|
        n[j].kind is CaseExpression && children_of(n, j, Kind::ElseClause) == 0;
    assert forall|j: int| root <= j < end implies #[trigger] open(j) == (set.holds(n[j].kind)
        && lacks_else(n)(j as usize)) by {
        assert(direct(n, j, Kind::WhenClause) == arms(j));
    }
    lemma_counted(n, root, set, lacks_else(n), open);
}

// ── windows ────────────────────────────────────────────────────────────

/// The columns and expressions right below a clause.
pub open spec fn clause_keys(n: Seq<Node>, c: int) -> int {
    children_of(n, c, Kind::ColumnReference) + children_of(n, c, Kind::Expression)
}

/// The keys of the clauses of a kind in a subtree.
pub open spec fn keys_in(n: Seq<Node>, i: int, clause: Kind) -> int {
    total_in(
        n,
        i,
        |c: int|
            if n[c].kind == clause {
                clause_keys(n, c)
            } else {
                0
            },
    )
}

proof fn lemma_keys(n: Seq<Node>, i: int, clause: Kind)
    requires
        well_formed(n),
        0 <= i < n.len(),
        clause != Kind::ObjectReference,
    ensures
        keys_below(n, clause)(i as usize) == keys_in(n, i, clause),
{
    let g = |c: int|
        if n[c].kind == clause {
            clause_keys(n, c)
        } else {
            0
        };
    assert forall|c: int| i <= c < n[i].end implies #[trigger] g(c) == if KindSet::Only(
        clause,
    ).holds(n[c].kind) {
        keys_of(n)(c as usize)
    } else {
        0
    } by {
        lemma_direct(n, c, Kind::ColumnReference);
        lemma_direct(n, c, Kind::Expression);
    }
    lemma_totalled(n, i, KindSet::Only(clause), keys_of(n), g);
}

/// Every window is an `OVER` clause, and its keys are the columns and
/// expressions by which it partitions and orders.
pub proof fn windows_count_their_keys(n: Seq<Node>, root: int, r: WindowFacts)
    requires
        well_formed(n),
        0 <= root < n.len(),
        describes_windows(n, root, r),
    ensures
        r.function_count == nodes_in(n, root, |j: int| n[j].kind is OverClause),
        r.frame_count == nodes_in(n, root, |j: int| n[j].kind is FrameClause),
        r.partition_expression_count == total_in(
            n,
            root,
            |j: int|
                if n[j].kind is OverClause {
                    keys_in(n, j, Kind::PartitionbyClause)
                } else {
                    0
                },
        ),
        r.order_expression_count == total_in(
            n,
            root,
            |j: int|
                if n[j].kind is OverClause {
                    keys_in(n, j, Kind::OrderbyClause)
                } else {
                    0
                },
        ),
{
    let over = KindSet::Only(Kind::OverClause);
    lemma_listed(n, root, over, |j: int| n[j].kind is OverClause);
    lemma_listed(
        n,
        root,
        KindSet::Only(Kind::FrameClause),
        |j: int| n[j].kind is FrameClause,
    );
    let parts = |j: int|
        if n[j].kind is OverClause {
            keys_in(n, j, Kind::PartitionbyClause)
        } else {
            0
        };
    assert forall|j: int| root <= j < n[root].end implies #[trigger] parts(j) == if over.holds(
        n[j].kind,
    ) {
        keys_below(n, Kind::PartitionbyClause)(j as usize)
    } else {
        0
    } by {
        lemma_keys(n, j, Kind::PartitionbyClause);
    }
    lemma_totalled(n, root, over, keys_below(n, Kind::PartitionbyClause), parts);
    let orders = |j: int|
        if n[j].kind is OverClause {
            keys_in(n, j, Kind::OrderbyClause)
        } else {
            0
        };
    assert forall|j: int| root <= j < n[root].end implies #[trigger] orders(j) == if over.holds(
        n[j].kind,
    ) {
        keys_below(n, Kind::OrderbyClause)(j as usize)
    } else {
        0
    } by {
        lemma_keys(n, j, Kind::OrderbyClause);
    }
    lemma_totalled(n, root, over, keys_below(n, Kind::OrderbyClause), orders);
}

// ── aggregates ─────────────────────────────────────────────────────────

/// Whether the node at `j` is the first of its kind in the subtree of `i`.
pub open spec fn first_of(n: Seq<Node>, i: int, k: Kind, j: int) -> bool {
    &&& i <= j < n[i].end
    &&& n[j].kind == k
    &&& forall|a: int| i <= a < j ==> (#[trigger] n[a]).kind != k
}

/// Whether the first name of a function in a subtree is `name`, whatever the
/// case.
pub open spec fn calls(n: Seq<Node>, i: int, name: Seq<char>) -> bool {
    exists|j: int|
        #[trigger] first_of(n, i, Kind::FunctionNameIdentifier, j) && upper(n[j].raw) == name
}

/// Whether a function is called that makes one value of many rows.
pub open spec fn calls_aggregate(n: Seq<Node>, i: int) -> bool {
    ||| calls(n, i, "COUNT"@)
    ||| calls(n, i, "COUNT_BIG"@)
    ||| calls(n, i, "SUM"@)
    ||| calls(n, i, "AVG"@)
    ||| calls(n, i, "MIN"@)
    ||| calls(n, i, "MAX"@)
    ||| calls(n, i, "MEDIAN"@)
    ||| calls(n, i, "STDDEV"@)
    ||| calls(n, i, "STDDEV_POP"@)
    ||| calls(n, i, "STDDEV_SAMP"@)
    ||| calls(n, i, "VARIANCE"@)
    ||| calls(n, i, "VAR_POP"@)
    ||| calls(n, i, "VAR_SAMP"@)
    ||| calls(n, i, "PERCENTILE_CONT"@)
    ||| calls(n, i, "PERCENTILE_DISC"@)
    ||| calls(n, i, "ARRAY_AGG"@)
    ||| calls(n, i, "STRING_AGG"@)
    ||| calls(n, i, "GROUP_CONCAT"@)
    ||| calls(n, i, "BOOL_AND"@)
    ||| calls(n, i, "BOOL_OR"@)
    ||| calls(n, i, "BIT_AND"@)
    ||| calls(n, i, "BIT_OR"@)
}

/// The first node of a kind is the first that is listed.
pub proof fn lemma_first(n: Seq<Node>, i: int, k: Kind)
    requires
        well_formed(n),
        0 <= i < n.len(),
        k != Kind::ObjectReference,
    ensures
        ({
            let s = all_in(n, i, KindSet::Only(k));
            &&& s.len() > 0 ==> first_of(n, i, k, s[0] as int)
            &&& forall|j: int| #[trigger]
                first_of(n, i, k, j) ==> s.len() > 0 && s[0] == j
        }),
{
    let set = KindSet::Only(k);
    let s = all_in(n, i, set);
    lemma_crawl(n, i, every(set));
    lemma_reported(n, i, every(set), n[i].end as int);
    if s.len() > 0 {
        assert forall|a: int| i <= a < s[0] implies (#[trigger] n[a]).kind != k by {
            if n[a].kind == k {
                let x = lemma_is_reported(n, i, set, n[i].end as int, a);
                if x > 0 {
                    assert(s[0] < s[x]);
                }
            }
        }
    }
    assert forall|j: int| #[trigger] first_of(n, i, k, j) implies s.len() > 0 && s[0] == j by {
        let x = lemma_is_reported(n, i, set, n[i].end as int, j);
        if x > 0 {
            assert(s[0] < s[x]);
            assert(n[s[0] as int].kind == k);
        }
    }
}

/// Whether a subtree has a keyword.
pub open spec fn has_word(n: Seq<Node>, i: int, w: Word) -> bool {
    exists|j: int|
        i <= j < n[i].end && (#[trigger] n[j]).kind is Keyword && raw_word(n, j) == w
}

proof fn lemma_has_word(n: Seq<Node>, i: int, w: Word)
    requires
        well_formed(n),
        0 <= i < n.len(),
    ensures
        crate::measure::keyword_count(n, i, w) > 0 <==> has_word(n, i, w),
{
    let q = |j: int| n[j].kind is Keyword && raw_word(n, j) == w;
    lemma_counted(n, i, KindSet::Only(Kind::Keyword), spelled(n, w), q);
    lemma_some(i, n[i].end as int, q);
    if has_word(n, i, w) {
        let j = choose|j: int|
            i <= j < n[i].end && (#[trigger] n[j]).kind is Keyword && raw_word(n, j) == w;
        assert(q(j));
    }
    if crate::measure::keyword_count(n, i, w) > 0 {
        let j = choose|j: int| i <= j < n[i].end && #[trigger] q(j);
        assert(n[j].kind is Keyword);
    }
}

/// A number of positions is positive exactly where there is one.
pub proof fn lemma_some(lo: int, hi: int, p: spec_fn(int) -> bool)
    ensures
        crate::tree::number(lo, hi, p) >= 0,
        crate::tree::number(lo, hi, p) > 0 <==> exists|j: int| lo <= j < hi && #[trigger] p(j),
    decreases hi - lo,
{
    if lo < hi {
        lemma_some(lo, hi - 1, p);
        if p(hi - 1) {
            assert(exists|j: int| lo <= j < hi && #[trigger] p(j));
        }
    }
}

/// A call is an aggregate by the first name in it; it is a distinct one where
/// the keyword stands in it. Groupings are counted by their clauses, and cubes
/// and rollups by what their clause calls.
pub proof fn aggregates_go_by_their_names(n: Seq<Node>, root: int, r: AggregateFacts)
    requires
        well_formed(n),
        0 <= root < n.len(),
        describes_aggregates(n, root, r),
    ensures
        r.function_count == nodes_in(
            n,
            root,
            |j: int| n[j].kind is Function && calls_aggregate(n, j),
        ),
        r.distinct_count == nodes_in(
            n,
            root,
            |j: int|
                n[j].kind is Function && calls_aggregate(n, j) && has_word(n, j, Word::Distinct),
        ),
        r.group_by_count == nodes_in(n, root, |j: int| n[j].kind is GroupbyClause),
        r.having_count == nodes_in(n, root, |j: int| n[j].kind is HavingClause),
        r.grouping_sets_count == nodes_in(n, root, |j: int| n[j].kind is GroupingSetsClause),
        r.cube_count == nodes_in(
            n,
            root,
            |j: int| n[j].kind is CubeRollupClause && calls(n, j, "CUBE"@),
        ),
        r.rollup_count == nodes_in(
            n,
            root,
            |j: int| n[j].kind is CubeRollupClause && calls(n, j, "ROLLUP"@),
        ),
{
    let end = n[root].end as int;
    let call = KindSet::Only(Kind::Function);
    let cube = KindSet::Only(Kind::CubeRollupClause);
    let q = |j: int| n[j].kind is Function && calls_aggregate(n, j);
    assert forall|j: int| root <= j < end implies #[trigger] q(j) == (call.holds(n[j].kind)
        && aggregate_call(n)(j as usize)) by {
        lemma_named(n, j);
    }
    lemma_counted(n, root, call, aggregate_call(n), q);
    let d = |j: int|
        n[j].kind is Function && calls_aggregate(n, j) && has_word(n, j, Word::Distinct);
    assert forall|j: int| root <= j < end implies #[trigger] d(j) == (call.holds(n[j].kind)
        && distinct_call(n)(j as usize)) by {
        lemma_named(n, j);
        lemma_has_word(n, j, Word::Distinct);
    }
    lemma_counted(n, root, call, distinct_call(n), d);
    lemma_listed(
        n,
        root,
        KindSet::Only(Kind::GroupbyClause),
        |j: int| n[j].kind is GroupbyClause,
    );
    lemma_listed(
        n,
        root,
        KindSet::Only(Kind::HavingClause),
        |j: int| n[j].kind is HavingClause,
    );
    lemma_listed(
        n,
        root,
        KindSet::Only(Kind::GroupingSetsClause),
        |j: int| n[j].kind is GroupingSetsClause,
    );
    let c = |j: int| n[j].kind is CubeRollupClause && calls(n, j, "CUBE"@);
    assert forall|j: int| root <= j < end implies #[trigger] c(j) == (cube.holds(n[j].kind)
        && cube_call(n)(j as usize)) by {
        lemma_called(n, j, "CUBE"@);
    }
    lemma_counted(n, root, cube, cube_call(n), c);
    let u = |j: int| n[j].kind is CubeRollupClause && calls(n, j, "ROLLUP"@);
    assert forall|j: int| root <= j < end implies #[trigger] u(j) == (cube.holds(n[j].kind)
        && rollup_call(n)(j as usize)) by {
        lemma_called(n, j, "ROLLUP"@);
    }
    lemma_counted(n, root, cube, rollup_call(n), u);
}

/// The function that a node calls is the first that is named in it.
pub proof fn lemma_called(n: Seq<Node>, i: int, name: Seq<char>)
    requires
        well_formed(n),
        0 <= i < n.len(),
    ensures
        calls(n, i, name) <==> function_names(n, i).len() > 0 && upper(
            n[function_names(n, i)[0] as int].raw,
        ) == name,
{
    lemma_first(n, i, Kind::FunctionNameIdentifier);
}

/// A call of an aggregate is one by its name.
pub proof fn lemma_named(n: Seq<Node>, i: int)
    requires
        well_formed(n),
        0 <= i < n.len(),
    ensures
        calls_aggregate(n, i) <==> aggregate_call(n)(i as usize),
{
    assert forall|name: Seq<char>| #[trigger] calls(n, i, name) <==> function_names(n, i).len() > 0
        && upper(n[function_names(n, i)[0] as int].raw) == name by {
        lemma_called(n, i, name);
    }
}

} // verus!
