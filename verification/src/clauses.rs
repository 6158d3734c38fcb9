//! Set operations, `CASE` expressions, window functions and aggregates.

use vstd::prelude::*;

use crate::kind::{Kind, KindSet};
use crate::measure::{
    count_anywhere, count_direct, count_keyword, deepest, deepest_nest, direct, keyword_count,
};
use crate::text::{contains, has_text, is_text, to_upper, upper};
use crate::tree::{
    all_in, count, every, lemma_count_step, lemma_crawl, lemma_peak_step, lemma_sum_step,
    lemma_take_all, peak, sum, Node, Tree, MAX_NODES,
};
use crate::word::Word;

verus! {

// ── set operations ─────────────────────────────────────────────────────

/// Set operators by kind.
#[derive(Clone, Copy, Debug, PartialEq, Eq, Structural)]
pub struct SetOpFacts {
    pub count: u64,
    pub union_count: u64,
    pub union_all_count: u64,
    pub intersect_count: u64,
    pub except_count: u64,
}

/// The kind of a set operator.
#[derive(Clone, Copy, Debug, PartialEq, Eq, Structural)]
pub enum SetOp {
    Union,
    UnionAll,
    Intersect,
    Except,
    Unnamed,
}

/// The kind of a set operator by its upper-cased text.
pub open spec fn set_op_of(up: Seq<char>) -> SetOp {
    if contains(up, "UNION"@) {
        if contains(up, "ALL"@) {
            SetOp::UnionAll
        } else {
            SetOp::Union
        }
    } else if contains(up, "INTERSECT"@) {
        SetOp::Intersect
    } else if contains(up, "EXCEPT"@) || contains(up, "MINUS"@) {
        SetOp::Except
    } else {
        SetOp::Unnamed
    }
}

pub open spec fn set_op_at(n: Seq<Node>, i: int) -> SetOp {
    set_op_of(upper(n[i].raw))
}

pub open spec fn of_set_op(n: Seq<Node>, op: SetOp) -> spec_fn(usize) -> bool {
    |i: usize| set_op_at(n, i as int) == op
}

pub open spec fn counts_set_ops(n: Seq<Node>, s: Seq<usize>, r: SetOpFacts) -> bool {
    &&& r.union_count == count(s, of_set_op(n, SetOp::Union))
    &&& r.union_all_count == count(s, of_set_op(n, SetOp::UnionAll))
    &&& r.intersect_count == count(s, of_set_op(n, SetOp::Intersect))
    &&& r.except_count == count(s, of_set_op(n, SetOp::Except))
}

/// Whether set-operator counts are those of a subtree.
pub open spec fn describes_set_ops(n: Seq<Node>, root: int, r: SetOpFacts) -> bool {
    let ops = all_in(n, root, KindSet::Only(Kind::SetOperator));
    counts_set_ops(n, ops, r) && r.count == ops.len()
}

/// The kind of a set operator.
fn set_op(tree: &Tree, i: usize) -> (r: SetOp)
    requires
        tree.holds(i),
    ensures
        r == set_op_at(tree@, i as int),
{
    let up = to_upper(tree.raw_at(i));
    if has_text(&up, "UNION") {
        if has_text(&up, "ALL") {
            SetOp::UnionAll
        } else {
            SetOp::Union
        }
    } else if has_text(&up, "INTERSECT") {
        SetOp::Intersect
    } else if has_text(&up, "EXCEPT") || has_text(&up, "MINUS") {
        SetOp::Except
    } else {
        SetOp::Unnamed
    }
}

/// The set-operator counts of a subtree.
pub fn extract_set_ops(tree: &Tree, root: usize) -> (r: SetOpFacts)
    requires
        tree.wf(),
        tree.holds(root),
    ensures
        describes_set_ops(tree@, root as int, r),
        r.count <= MAX_NODES,
{
    let ghost n = tree@;
    let ops = tree.all_in(root, KindSet::Only(Kind::SetOperator));
    proof {
        lemma_crawl(n, root as int, every(KindSet::Only(Kind::SetOperator)));
        lemma_take_all(ops@);
    }
    let mut r = SetOpFacts {
        count: ops.len() as u64,
        union_count: 0,
        union_all_count: 0,
        intersect_count: 0,
        except_count: 0,
    };
    let mut k: usize = 0;
    while k < ops.len()
        invariant
            tree.wf(),
            n == tree@,
            k <= ops@.len() <= MAX_NODES,
            forall|j: int| 0 <= j < ops@.len() ==> (#[trigger] ops@[j]) < n.len(),
            counts_set_ops(n, ops@.take(k as int), r),
            r.count == ops@.len(),
        decreases ops@.len() - k,
    {
        proof {
            lemma_count_step(ops@, k as int, of_set_op(n, SetOp::Union));
            lemma_count_step(ops@, k as int, of_set_op(n, SetOp::UnionAll));
            lemma_count_step(ops@, k as int, of_set_op(n, SetOp::Intersect));
            lemma_count_step(ops@, k as int, of_set_op(n, SetOp::Except));
        }
        match set_op(tree, ops[k]) {
            SetOp::Union => {
                r.union_count = r.union_count + 1;
            },
            SetOp::UnionAll => {
                r.union_all_count = r.union_all_count + 1;
            },
            SetOp::Intersect => {
                r.intersect_count = r.intersect_count + 1;
            },
            SetOp::Except => {
                r.except_count = r.except_count + 1;
            },
            SetOp::Unnamed => {},
        }
        k = k + 1;
    }
    r
}

/// The kinds of set operators are disjoint.
pub proof fn set_operators_are_disjoint(n: Seq<Node>, root: int, r: SetOpFacts)
    requires
        describes_set_ops(n, root, r),
    ensures
        r.union_count + r.union_all_count + r.intersect_count + r.except_count <= r.count,
{
    lemma_set_ops_disjoint(n, all_in(n, root, KindSet::Only(Kind::SetOperator)));
}

proof fn lemma_set_ops_disjoint(n: Seq<Node>, s: Seq<usize>)
    ensures
        count(s, of_set_op(n, SetOp::Union)) + count(s, of_set_op(n, SetOp::UnionAll)) + count(
            s,
            of_set_op(n, SetOp::Intersect),
        ) + count(s, of_set_op(n, SetOp::Except)) <= s.len(),
    decreases s.len(),
{
    if s.len() > 0 {
        lemma_set_ops_disjoint(n, s.drop_last());
    }
}

// ── CASE ───────────────────────────────────────────────────────────────

/// `CASE` expressions.
#[derive(Clone, Copy, Debug, PartialEq, Eq, Structural)]
pub struct CaseFacts {
    pub count: u64,
    pub max_depth: u64,
    pub when_count: u64,
    pub max_when_count: u64,
    pub missing_else_count: u64,
    /// The arms beyond the second, added up over the expressions one by one.
    pub surplus_when_arms: u64,
}

/// The case expressions of a subtree.
pub open spec fn cases_in(n: Seq<Node>, root: int) -> Seq<usize> {
    all_in(n, root, KindSet::Only(Kind::CaseExpression))
}

/// How deep case expressions nest below and including one.
pub open spec fn case_depth(n: Seq<Node>) -> spec_fn(usize) -> int {
    |i: usize| deepest(n, cases_in(n, i as int))
}

/// The arms of a case expression.
pub open spec fn arms_of(n: Seq<Node>) -> spec_fn(usize) -> int {
    |i: usize| direct(n, i as int, Kind::WhenClause)
}

/// The arms of a case expression beyond the second.
pub open spec fn surplus_of(n: Seq<Node>) -> spec_fn(usize) -> int {
    |i: usize|
        if direct(n, i as int, Kind::WhenClause) > 2 {
            direct(n, i as int, Kind::WhenClause) - 2
        } else {
            0
        }
}

/// Whether a case expression has no `ELSE`.
pub open spec fn lacks_else(n: Seq<Node>) -> spec_fn(usize) -> bool {
    |i: usize| direct(n, i as int, Kind::ElseClause) == 0
}

pub open spec fn measures_cases(n: Seq<Node>, s: Seq<usize>, r: CaseFacts) -> bool {
    &&& r.max_depth == peak(s, case_depth(n))
    &&& r.when_count == sum(s, arms_of(n))
    &&& r.max_when_count == peak(s, arms_of(n))
    &&& r.surplus_when_arms == sum(s, surplus_of(n))
    &&& r.missing_else_count == count(s, lacks_else(n))
}

/// Whether case facts are those of a subtree.
pub open spec fn describes_cases(n: Seq<Node>, root: int, r: CaseFacts) -> bool {
    measures_cases(n, cases_in(n, root), r) && r.count == cases_in(n, root).len()
}

/// The case facts of a subtree.
pub fn extract_cases(tree: &Tree, root: usize) -> (r: CaseFacts)
    requires
        tree.wf(),
        tree.holds(root),
    ensures
        describes_cases(tree@, root as int, r),
        r.count <= MAX_NODES,
        r.max_depth <= MAX_NODES,
        r.when_count <= 0xffff_ffff_0000_0000,
        r.surplus_when_arms <= 0xffff_ffff_0000_0000,
{
    let ghost n = tree@;
    let all = tree.all_in(root, KindSet::Only(Kind::CaseExpression));
    proof {
        lemma_crawl(n, root as int, every(KindSet::Only(Kind::CaseExpression)));
        lemma_take_all(all@);
    }
    let mut r = CaseFacts {
        count: all.len() as u64,
        max_depth: 0,
        when_count: 0,
        max_when_count: 0,
        missing_else_count: 0,
        surplus_when_arms: 0,
    };
    let mut k: usize = 0;
    while k < all.len()
        invariant
            tree.wf(),
            n == tree@,
            k <= all@.len() <= MAX_NODES,
            forall|j: int| 0 <= j < all@.len() ==> (#[trigger] all@[j]) < n.len(),
            measures_cases(n, all@.take(k as int), r),
            r.when_count <= k * MAX_NODES,
            r.surplus_when_arms <= k * MAX_NODES,
            r.max_depth <= MAX_NODES,
            r.count == all@.len(),
        decreases all@.len() - k,
    {
        let i: usize = all[k];
        proof {
            lemma_peak_step(all@, k as int, case_depth(n));
            lemma_sum_step(all@, k as int, arms_of(n));
            lemma_peak_step(all@, k as int, arms_of(n));
            lemma_sum_step(all@, k as int, surplus_of(n));
            lemma_count_step(all@, k as int, lacks_else(n));
            lemma_crawl(n, i as int, every(KindSet::Only(Kind::CaseExpression)));
        }
        let nested = tree.all_in(i, KindSet::Only(Kind::CaseExpression));
        let depth: u64 = deepest_nest(tree, &nested);
        if depth > r.max_depth {
            r.max_depth = depth;
        }
        let whens: u64 = count_direct(tree, i, Kind::WhenClause);
        r.when_count = r.when_count + whens;
        if whens > r.max_when_count {
            r.max_when_count = whens;
        }
        if whens > 2 {
            r.surplus_when_arms = r.surplus_when_arms + (whens - 2);
        }
        if count_direct(tree, i, Kind::ElseClause) == 0 {
            r.missing_else_count = r.missing_else_count + 1;
        }
        k = k + 1;
    }
    r
}

// ── window functions ───────────────────────────────────────────────────

/// Window functions.
#[derive(Clone, Copy, Debug, PartialEq, Eq, Structural)]
pub struct WindowFacts {
    pub function_count: u64,
    pub frame_count: u64,
    pub partition_expression_count: u128,
    pub order_expression_count: u128,
}

/// The columns and expressions directly below a clause.
pub open spec fn keys_of(n: Seq<Node>) -> spec_fn(usize) -> int {
    |i: usize| direct(n, i as int, Kind::ColumnReference) + direct(n, i as int, Kind::Expression)
}

/// The keys of every clause of a kind in a subtree.
pub open spec fn keys_below(n: Seq<Node>, clause: Kind) -> spec_fn(usize) -> int {
    |i: usize| sum(all_in(n, i as int, KindSet::Only(clause)), keys_of(n))
}

/// Whether window facts are those of a subtree.
pub open spec fn describes_windows(n: Seq<Node>, root: int, r: WindowFacts) -> bool {
    let overs = all_in(n, root, KindSet::Only(Kind::OverClause));
    &&& r.function_count == overs.len()
    &&& r.frame_count == all_in(n, root, KindSet::Only(Kind::FrameClause)).len()
    &&& r.partition_expression_count == sum(overs, keys_below(n, Kind::PartitionbyClause))
    &&& r.order_expression_count == sum(overs, keys_below(n, Kind::OrderbyClause))
}

/// The keys of every clause of a kind in a subtree.
fn count_keys(tree: &Tree, i: usize, clause: Kind) -> (r: u128)
    requires
        tree.wf(),
        tree.holds(i),
    ensures
        r == keys_below(tree@, clause)(i),
        r <= 0x2_0000_0000_0000_0000,
{
    let ghost n = tree@;
    let ghost f = keys_of(n);
    let all = tree.all_in(i, KindSet::Only(clause));
    proof {
        lemma_crawl(n, i as int, every(KindSet::Only(clause)));
        lemma_take_all(all@);
    }
    let mut total: u128 = 0;
    let mut k: usize = 0;
    while k < all.len()
        invariant
            tree.wf(),
            n == tree@,
            f == keys_of(n),
            k <= all@.len() <= MAX_NODES,
            forall|j: int| 0 <= j < all@.len() ==> (#[trigger] all@[j]) < n.len(),
            total == sum(all@.take(k as int), f),
            total <= k * 0x2_0000_0000,
        decreases all@.len() - k,
    {
        proof {
            lemma_sum_step(all@, k as int, f);
        }
        let columns: u64 = count_direct(tree, all[k], Kind::ColumnReference);
        let expressions: u64 = count_direct(tree, all[k], Kind::Expression);
        total = total + columns as u128 + expressions as u128;
        k = k + 1;
    }
    total
}

/// The window facts of a subtree.
pub fn extract_windows(tree: &Tree, root: usize) -> (r: WindowFacts)
    requires
        tree.wf(),
        tree.holds(root),
    ensures
        describes_windows(tree@, root as int, r),
        r.function_count <= MAX_NODES,
{
    let ghost n = tree@;
    let ghost f = keys_below(n, Kind::PartitionbyClause);
    let ghost g = keys_below(n, Kind::OrderbyClause);
    let overs = tree.all_in(root, KindSet::Only(Kind::OverClause));
    proof {
        lemma_crawl(n, root as int, every(KindSet::Only(Kind::OverClause)));
        lemma_take_all(overs@);
    }
    let mut partitions: u128 = 0;
    let mut orders: u128 = 0;
    let mut k: usize = 0;
    while k < overs.len()
        invariant
            tree.wf(),
            n == tree@,
            f == keys_below(n, Kind::PartitionbyClause),
            g == keys_below(n, Kind::OrderbyClause),
            k <= overs@.len() <= MAX_NODES,
            forall|j: int| 0 <= j < overs@.len() ==> (#[trigger] overs@[j]) < n.len(),
            partitions == sum(overs@.take(k as int), f),
            orders == sum(overs@.take(k as int), g),
            partitions <= k * 0x2_0000_0000_0000_0000,
            orders <= k * 0x2_0000_0000_0000_0000,
        decreases overs@.len() - k,
    {
        proof {
            lemma_sum_step(overs@, k as int, f);
            lemma_sum_step(overs@, k as int, g);
        }
        let p: u128 = count_keys(tree, overs[k], Kind::PartitionbyClause);
        let o: u128 = count_keys(tree, overs[k], Kind::OrderbyClause);
        partitions = partitions + p;
        orders = orders + o;
        k = k + 1;
    }
    WindowFacts {
        function_count: overs.len() as u64,
        frame_count: count_anywhere(tree, root, Kind::FrameClause),
        partition_expression_count: partitions,
        order_expression_count: orders,
    }
}

// ── aggregates ─────────────────────────────────────────────────────────

/// Aggregation and grouping.
#[derive(Clone, Copy, Debug, PartialEq, Eq, Structural)]
pub struct AggregateFacts {
    pub function_count: u64,
    pub distinct_count: u64,
    pub group_by_count: u64,
    pub rollup_count: u64,
    pub cube_count: u64,
    pub grouping_sets_count: u64,
    pub having_count: u64,
}

/// The names of the aggregate functions.
pub open spec fn is_aggregate_name(up: Seq<char>) -> bool {
    ||| up == "COUNT"@
    ||| up == "SUM"@
    ||| up == "AVG"@
    ||| up == "MIN"@
    ||| up == "MAX"@
    ||| up == "ARRAY_AGG"@
    ||| up == "STRING_AGG"@
    ||| up == "GROUP_CONCAT"@
    ||| up == "STDDEV"@
    ||| up == "VARIANCE"@
    ||| up == "VAR_POP"@
    ||| up == "VAR_SAMP"@
    ||| up == "STDDEV_POP"@
    ||| up == "STDDEV_SAMP"@
    ||| up == "MEDIAN"@
    ||| up == "PERCENTILE_CONT"@
    ||| up == "PERCENTILE_DISC"@
    ||| up == "BOOL_AND"@
    ||| up == "BOOL_OR"@
    ||| up == "BIT_AND"@
    ||| up == "BIT_OR"@
    ||| up == "COUNT_BIG"@
}

/// The names of called functions below a node.
pub open spec fn function_names(n: Seq<Node>, i: int) -> Seq<usize> {
    all_in(n, i, KindSet::Only(Kind::FunctionNameIdentifier))
}

/// The name of the function that a node calls, as it is written.
pub open spec fn function_name(n: Seq<Node>, i: int) -> Option<Seq<char>> {
    if function_names(n, i).len() > 0 {
        Some(n[function_names(n, i)[0] as int].raw)
    } else {
        None
    }
}

/// Whether a node calls a function whose upper-cased name is `name`.
pub open spec fn calls_named(n: Seq<Node>, i: int, name: Seq<char>) -> bool {
    function_name(n, i) matches Some(f) && upper(f) == name
}

pub open spec fn aggregate_call(n: Seq<Node>) -> spec_fn(usize) -> bool {
    |i: usize| function_name(n, i as int) matches Some(f) && is_aggregate_name(upper(f))
}

pub open spec fn distinct_call(n: Seq<Node>) -> spec_fn(usize) -> bool {
    |i: usize|
        (function_name(n, i as int) matches Some(f) && is_aggregate_name(upper(f)))
            && keyword_count(n, i as int, Word::Distinct) > 0
}

pub open spec fn cube_call(n: Seq<Node>) -> spec_fn(usize) -> bool {
    |i: usize| calls_named(n, i as int, "CUBE"@)
}

pub open spec fn rollup_call(n: Seq<Node>) -> spec_fn(usize) -> bool {
    |i: usize| calls_named(n, i as int, "ROLLUP"@)
}

/// Whether aggregate facts are those of a subtree.
pub open spec fn describes_aggregates(n: Seq<Node>, root: int, r: AggregateFacts) -> bool {
    let calls = all_in(n, root, KindSet::Only(Kind::Function));
    let cubes = all_in(n, root, KindSet::Only(Kind::CubeRollupClause));
    &&& r.function_count == count(calls, aggregate_call(n))
    &&& r.distinct_count == count(calls, distinct_call(n))
    &&& r.group_by_count == all_in(n, root, KindSet::Only(Kind::GroupbyClause)).len()
    &&& r.having_count == all_in(n, root, KindSet::Only(Kind::HavingClause)).len()
    &&& r.grouping_sets_count == all_in(n, root, KindSet::Only(Kind::GroupingSetsClause)).len()
    &&& r.cube_count == count(cubes, cube_call(n))
    &&& r.rollup_count == count(cubes, rollup_call(n))
}

/// Whether a name is that of an aggregate function.
fn aggregate_name(up: &Vec<char>) -> (r: bool)
    ensures
        r == is_aggregate_name(up@),
{
    is_text(up, "COUNT") || is_text(up, "SUM") || is_text(up, "AVG") || is_text(up, "MIN")
        || is_text(up, "MAX") || is_text(up, "ARRAY_AGG") || is_text(up, "STRING_AGG") || is_text(
        up,
        "GROUP_CONCAT",
    ) || is_text(up, "STDDEV") || is_text(up, "VARIANCE") || is_text(up, "VAR_POP") || is_text(
        up,
        "VAR_SAMP",
    ) || is_text(up, "STDDEV_POP") || is_text(up, "STDDEV_SAMP") || is_text(up, "MEDIAN")
        || is_text(up, "PERCENTILE_CONT") || is_text(up, "PERCENTILE_DISC") || is_text(
        up,
        "BOOL_AND",
    ) || is_text(up, "BOOL_OR") || is_text(up, "BIT_AND") || is_text(up, "BIT_OR") || is_text(
        up,
        "COUNT_BIG",
    )
}

/// The upper-cased name of the function that a node calls.
pub fn called_name(tree: &Tree, i: usize) -> (r: Option<Vec<char>>)
    requires
        tree.wf(),
        tree.holds(i),
    ensures
        match r {
            Some(up) => function_name(tree@, i as int) matches Some(f) && up@ == upper(f),
            None => function_name(tree@, i as int) is None,
        },
{
    let ids = tree.all_in(i, KindSet::Only(Kind::FunctionNameIdentifier));
    if ids.len() > 0 {
        proof {
            lemma_crawl(
                tree@,
                i as int,
                every(KindSet::Only(Kind::FunctionNameIdentifier)),
            );
        }
        Some(to_upper(tree.raw_at(ids[0])))
    } else {
        None
    }
}

/// The aggregate facts of a subtree.
pub fn extract_aggregates(tree: &Tree, root: usize) -> (r: AggregateFacts)
    requires
        tree.wf(),
        tree.holds(root),
    ensures
        describes_aggregates(tree@, root as int, r),
        r.function_count <= MAX_NODES,
{
    let ghost n = tree@;
    let calls = tree.all_in(root, KindSet::Only(Kind::Function));
    let cubes = tree.all_in(root, KindSet::Only(Kind::CubeRollupClause));
    proof {
        lemma_crawl(n, root as int, every(KindSet::Only(Kind::Function)));
        lemma_crawl(n, root as int, every(KindSet::Only(Kind::CubeRollupClause)));
        lemma_take_all(calls@);
        lemma_take_all(cubes@);
    }
    let mut functions: u64 = 0;
    let mut distincts: u64 = 0;
    let mut k: usize = 0;
    while k < calls.len()
        invariant
            tree.wf(),
            n == tree@,
            k <= calls@.len() <= MAX_NODES,
            forall|j: int| 0 <= j < calls@.len() ==> (#[trigger] calls@[j]) < n.len(),
            functions == count(calls@.take(k as int), aggregate_call(n)),
            distincts == count(calls@.take(k as int), distinct_call(n)),
            functions <= k,
            distincts <= k,
        decreases calls@.len() - k,
    {
        proof {
            lemma_count_step(calls@, k as int, aggregate_call(n));
            lemma_count_step(calls@, k as int, distinct_call(n));
        }
        match called_name(tree, calls[k]) {
            Some(up) => {
                if aggregate_name(&up) {
                    functions = functions + 1;
                    if count_keyword(tree, calls[k], Word::Distinct) > 0 {
                        distincts = distincts + 1;
                    }
                }
            },
            None => {},
        }
        k = k + 1;
    }
    let mut cube: u64 = 0;
    let mut rollup: u64 = 0;
    let mut l: usize = 0;
    while l < cubes.len()
        invariant
            tree.wf(),
            n == tree@,
            l <= cubes@.len() <= MAX_NODES,
            forall|j: int| 0 <= j < cubes@.len() ==> (#[trigger] cubes@[j]) < n.len(),
            cube == count(cubes@.take(l as int), cube_call(n)),
            rollup == count(cubes@.take(l as int), rollup_call(n)),
            cube <= l,
            rollup <= l,
        decreases cubes@.len() - l,
    {
        proof {
            lemma_count_step(cubes@, l as int, cube_call(n));
            lemma_count_step(cubes@, l as int, rollup_call(n));
        }
        match called_name(tree, cubes[l]) {
            Some(up) => {
                if is_text(&up, "CUBE") {
                    cube = cube + 1;
                }
                if is_text(&up, "ROLLUP") {
                    rollup = rollup + 1;
                }
            },
            None => {},
        }
        l = l + 1;
    }
    AggregateFacts {
        function_count: functions,
        distinct_count: distincts,
        group_by_count: count_anywhere(tree, root, Kind::GroupbyClause),
        rollup_count: rollup,
        cube_count: cube,
        grouping_sets_count: count_anywhere(tree, root, Kind::GroupingSetsClause),
        having_count: count_anywhere(tree, root, Kind::HavingClause),
    }
}

} // verus!
