//! The shape of embedded queries: what of a query feeds its structural score.

use vstd::prelude::*;

use crate::clauses::{
    aggregate_call, case_depth, cases_in, extract_aggregates, extract_cases, extract_set_ops,
    extract_windows,
};
use crate::ctes::{block_count, block_depth, extract_cte_graph, withs_in};
use crate::joins::{extract_joins, join_clauses, of_join, JoinWord};
use crate::kind::{Kind, KindSet};
use crate::measure::count_any;
use crate::predicates::{boolean_depth, boolean_operators, extract_predicates};
use crate::subqueries::{
    correlated_subquery, derived_table, expression_depth, extract_expressions, extract_subqueries,
    nested_select, selects_in, subquery_depth,
};
use crate::tree::{all_in, count, crawl, lemma_crawl, peak, sum, Node, Probe, Tree, MAX_NODES};

verus! {

/// What of some queries feeds their structural score. Counts add up when
/// shapes are merged, depths do not.
pub struct QueryShape {
    pub query_blocks: nat,
    pub ctes: nat,
    pub cte_depth: nat,
    pub joins: nat,
    pub outer_joins: nat,
    pub cross_joins: nat,
    pub subqueries: nat,
    pub subquery_depth: nat,
    pub correlated: nat,
    pub derived_tables: nat,
    pub boolean_operators: nat,
    pub boolean_depth: nat,
    pub cases: nat,
    pub case_depth: nat,
    pub windows: nat,
    pub aggregates: nat,
    pub set_ops: nat,
    pub expression_depth: nat,
}

/// The shape of no query.
pub open spec fn no_query() -> QueryShape {
    QueryShape {
        query_blocks: 0,
        ctes: 0,
        cte_depth: 0,
        joins: 0,
        outer_joins: 0,
        cross_joins: 0,
        subqueries: 0,
        subquery_depth: 0,
        correlated: 0,
        derived_tables: 0,
        boolean_operators: 0,
        boolean_depth: 0,
        cases: 0,
        case_depth: 0,
        windows: 0,
        aggregates: 0,
        set_ops: 0,
        expression_depth: 0,
    }
}

pub open spec fn larger(a: nat, b: nat) -> nat {
    if a > b {
        a
    } else {
        b
    }
}

/// The shape of two sets of queries together.
#[verifier::opaque]
pub open spec fn merged(a: QueryShape, b: QueryShape) -> QueryShape {
    QueryShape {
        query_blocks: a.query_blocks + b.query_blocks,
        ctes: a.ctes + b.ctes,
        cte_depth: larger(a.cte_depth, b.cte_depth),
        joins: a.joins + b.joins,
        outer_joins: a.outer_joins + b.outer_joins,
        cross_joins: a.cross_joins + b.cross_joins,
        subqueries: a.subqueries + b.subqueries,
        subquery_depth: larger(a.subquery_depth, b.subquery_depth),
        correlated: a.correlated + b.correlated,
        derived_tables: a.derived_tables + b.derived_tables,
        boolean_operators: a.boolean_operators + b.boolean_operators,
        boolean_depth: larger(a.boolean_depth, b.boolean_depth),
        cases: a.cases + b.cases,
        case_depth: larger(a.case_depth, b.case_depth),
        windows: a.windows + b.windows,
        aggregates: a.aggregates + b.aggregates,
        set_ops: a.set_ops + b.set_ops,
        expression_depth: larger(a.expression_depth, b.expression_depth),
    }
}

/// The structural score of a shape, in hundredths.
pub open spec fn structural(q: QueryShape) -> nat {
    100 * q.query_blocks + 80 * q.ctes + 120 * q.cte_depth + 100 * q.joins + 80 * q.outer_joins
        + 200 * q.cross_joins + 150 * q.subqueries + 125 * q.subquery_depth + 200 * q.correlated
        + 35 * q.boolean_operators + 100 * q.boolean_depth + 80 * q.cases + 80 * q.case_depth + 60
        * q.windows + 35 * q.aggregates + 100 * q.set_ops + 50 * q.expression_depth + 50
        * q.derived_tables
}

/// The shape of the query at `q`.
#[verifier::opaque]
pub open spec fn query_shape(n: Seq<Node>, q: int) -> QueryShape {
    let selects = selects_in(n, q);
    let joins = join_clauses(n, q);
    QueryShape {
        query_blocks: selects.len(),
        ctes: sum(withs_in(n, q), block_count(n)) as nat,
        cte_depth: peak(withs_in(n, q), block_depth(n)) as nat,
        joins: joins.len(),
        outer_joins: (count(joins, of_join(n, JoinWord::Left)) + count(
            joins,
            of_join(n, JoinWord::Right),
        ) + count(joins, of_join(n, JoinWord::Full))) as nat,
        cross_joins: count(joins, of_join(n, JoinWord::Cross)) as nat,
        subqueries: count(selects, nested_select(n, q)) as nat,
        subquery_depth: peak(selects, subquery_depth(n, q)) as nat,
        correlated: count(selects, correlated_subquery(n, q)) as nat,
        derived_tables: count(
            all_in(n, q, KindSet::Only(Kind::FromExpressionElement)),
            derived_table(n),
        ) as nat,
        boolean_operators: boolean_operators(n, q) as nat,
        boolean_depth: peak(all_in(n, q, KindSet::Conditions), boolean_depth(n)) as nat,
        cases: cases_in(n, q).len(),
        case_depth: peak(cases_in(n, q), case_depth(n)) as nat,
        windows: all_in(n, q, KindSet::Only(Kind::OverClause)).len(),
        aggregates: count(all_in(n, q, KindSet::Only(Kind::Function)), aggregate_call(n)) as nat,
        set_ops: all_in(n, q, KindSet::Only(Kind::SetOperator)).len(),
        expression_depth: peak(
            all_in(n, q, KindSet::Only(Kind::Expression)),
            expression_depth(n),
        ) as nat,
    }
}

/// The shape of the first `k` listed queries.
pub open spec fn shape_of_list(n: Seq<Node>, s: Seq<usize>, k: int) -> QueryShape
    decreases k,
{
    if k <= 0 {
        no_query()
    } else {
        merged(shape_of_list(n, s, k - 1), query_shape(n, s[k - 1] as int))
    }
}

/// The outermost queries of a subtree.
pub open spec fn query_roots(n: Seq<Node>, i: int) -> Seq<usize> {
    crawl(n, i, Probe { set: KindSet::QueryRoots, deep: false, stop: KindSet::Empty, own: true })
}

/// Whether a routine is defined below a node.
pub open spec fn defines_routine(n: Seq<Node>, i: int) -> bool {
    crawl(
        n,
        i,
        Probe { set: KindSet::Units, deep: true, stop: KindSet::Empty, own: false },
    ).len() > 0
}

/// The shape of the queries in the siblings from `c` up to `hi` that belong
/// to no routine defined there.
pub open spec fn shape_below(n: Seq<Node>, c: int, hi: int) -> QueryShape
    decreases hi - c,
{
    if 0 <= c < hi && c < n[c].end <= hi {
        let here = if KindSet::Units.holds(n[c].kind) {
            no_query()
        } else if defines_routine(n, c) {
            shape_below(n, c + 1, n[c].end as int)
        } else {
            shape_of_list(n, query_roots(n, c), query_roots(n, c).len() as int)
        };
        merged(here, shape_below(n, n[c].end as int, hi))
    } else {
        no_query()
    }
}

/// The shape of the queries of a region, those of routines defined in it left
/// out.
pub open spec fn region_shape(n: Seq<Node>, i: int) -> QueryShape {
    shape_below(n, i + 1, n[i].end as int)
}

// ── execution ──────────────────────────────────────────────────────────

/// What of some queries feeds their structural score.
#[derive(Clone, Copy)]
pub struct QueryFacts {
    pub query_blocks: u128,
    pub ctes: u128,
    pub cte_depth: u128,
    pub joins: u128,
    pub outer_joins: u128,
    pub cross_joins: u128,
    pub subqueries: u128,
    pub subquery_depth: u128,
    pub correlated: u128,
    pub derived_tables: u128,
    pub boolean_operators: u128,
    pub boolean_depth: u128,
    pub cases: u128,
    pub case_depth: u128,
    pub windows: u128,
    pub aggregates: u128,
    pub set_ops: u128,
    pub expression_depth: u128,
}

impl View for QueryFacts {
    type V = QueryShape;

    open spec fn view(&self) -> QueryShape {
        QueryShape {
            query_blocks: self.query_blocks as nat,
            ctes: self.ctes as nat,
            cte_depth: self.cte_depth as nat,
            joins: self.joins as nat,
            outer_joins: self.outer_joins as nat,
            cross_joins: self.cross_joins as nat,
            subqueries: self.subqueries as nat,
            subquery_depth: self.subquery_depth as nat,
            correlated: self.correlated as nat,
            derived_tables: self.derived_tables as nat,
            boolean_operators: self.boolean_operators as nat,
            boolean_depth: self.boolean_depth as nat,
            cases: self.cases as nat,
            case_depth: self.case_depth as nat,
            windows: self.windows as nat,
            aggregates: self.aggregates as nat,
            set_ops: self.set_ops as nat,
            expression_depth: self.expression_depth as nat,
        }
    }
}

/// Whether no part of a shape is larger than `bound`.
#[verifier::opaque]
pub open spec fn bounded(q: QueryShape, bound: int) -> bool {
    &&& q.query_blocks <= bound
    &&& q.ctes <= bound
    &&& q.cte_depth <= bound
    &&& q.joins <= bound
    &&& q.outer_joins <= bound
    &&& q.cross_joins <= bound
    &&& q.subqueries <= bound
    &&& q.subquery_depth <= bound
    &&& q.correlated <= bound
    &&& q.derived_tables <= bound
    &&& q.boolean_operators <= bound
    &&& q.boolean_depth <= bound
    &&& q.cases <= bound
    &&& q.case_depth <= bound
    &&& q.windows <= bound
    &&& q.aggregates <= bound
    &&& q.set_ops <= bound
    &&& q.expression_depth <= bound
}

/// The bound on every part of one query's shape.
pub const QUERY_BOUND: u64 = 0x1_0000_0000;

/// The bound on every part of a region's shape.
pub const REGION_BOUND: u128 = 0x1_0000_0000_0000_0000;

/// The bound on every part of a shape that can be scored.
pub const SCORE_BOUND: u128 = 0x0010_0000_0000_0000_0000_0000_0000_0000;

/// The bound on every part of a shape that can be merged.
pub const MERGE_BOUND: u128 = 0x2000_0000_0000_0000_0000_0000_0000_0000;

impl QueryFacts {
    /// The shape of no query.
    pub fn none() -> (r: QueryFacts)
        ensures
            r@ == no_query(),
            bounded(r@, 0),
    {
        reveal(bounded);
        QueryFacts {
            query_blocks: 0,
            ctes: 0,
            cte_depth: 0,
            joins: 0,
            outer_joins: 0,
            cross_joins: 0,
            subqueries: 0,
            subquery_depth: 0,
            correlated: 0,
            derived_tables: 0,
            boolean_operators: 0,
            boolean_depth: 0,
            cases: 0,
            case_depth: 0,
            windows: 0,
            aggregates: 0,
            set_ops: 0,
            expression_depth: 0,
        }
    }

    /// The shape of two sets of queries together.
    pub fn merge(&self, other: &QueryFacts) -> (r: QueryFacts)
        requires
            bounded(self@, MERGE_BOUND as int),
            bounded(other@, MERGE_BOUND as int),
        ensures
            r@ == merged(self@, other@),
    {
        reveal(bounded);
        reveal(merged);
        QueryFacts {
            query_blocks: self.query_blocks + other.query_blocks,
            ctes: self.ctes + other.ctes,
            cte_depth: max_of(self.cte_depth, other.cte_depth),
            joins: self.joins + other.joins,
            outer_joins: self.outer_joins + other.outer_joins,
            cross_joins: self.cross_joins + other.cross_joins,
            subqueries: self.subqueries + other.subqueries,
            subquery_depth: max_of(self.subquery_depth, other.subquery_depth),
            correlated: self.correlated + other.correlated,
            derived_tables: self.derived_tables + other.derived_tables,
            boolean_operators: self.boolean_operators + other.boolean_operators,
            boolean_depth: max_of(self.boolean_depth, other.boolean_depth),
            cases: self.cases + other.cases,
            case_depth: max_of(self.case_depth, other.case_depth),
            windows: self.windows + other.windows,
            aggregates: self.aggregates + other.aggregates,
            set_ops: self.set_ops + other.set_ops,
            expression_depth: max_of(self.expression_depth, other.expression_depth),
        }
    }

    /// The structural score, in hundredths.
    pub fn structural(&self) -> (r: u128)
        requires
            bounded(self@, SCORE_BOUND as int),
        ensures
            r == structural(self@),
    {
        reveal(bounded);
        100 * self.query_blocks + 80 * self.ctes + 120 * self.cte_depth + 100 * self.joins + 80
            * self.outer_joins + 200 * self.cross_joins + 150 * self.subqueries + 125
            * self.subquery_depth + 200 * self.correlated + 35 * self.boolean_operators + 100
            * self.boolean_depth + 80 * self.cases + 80 * self.case_depth + 60 * self.windows + 35
            * self.aggregates + 100 * self.set_ops + 50 * self.expression_depth + 50
            * self.derived_tables
    }
}

fn max_of(a: u128, b: u128) -> (r: u128)
    ensures
        r == larger(a as nat, b as nat),
{
    if a > b {
        a
    } else {
        b
    }
}

pub proof fn lemma_merged_bound(a: QueryShape, b: QueryShape, x: int, y: int)
    requires
        bounded(a, x),
        bounded(b, y),
    ensures
        bounded(merged(a, b), x + y),
{
    reveal(bounded);
    reveal(merged);
}

/// A larger bound holds too.
pub proof fn lemma_bound_grows(a: QueryShape, x: int, y: int)
    requires
        bounded(a, x),
        x <= y,
    ensures
        bounded(a, y),
{
    reveal(bounded);
}

/// How shapes are grouped when they are merged makes no difference, and the
/// shape of no query adds nothing.
pub proof fn merging_is_associative(a: QueryShape, b: QueryShape, c: QueryShape)
    ensures
        merged(merged(a, b), c) == merged(a, merged(b, c)),
        merged(a, no_query()) == a,
        merged(no_query(), a) == a,
{
    reveal(merged);
}

/// The shape of one query.
pub fn subtree_query_facts(tree: &Tree, q: usize) -> (r: QueryFacts)
    requires
        tree.wf(),
        tree.holds(q),
    ensures
        r@ == query_shape(tree@, q as int),
        bounded(r@, QUERY_BOUND as int),
{
    let joins = extract_joins(tree, q);
    let set_ops = extract_set_ops(tree, q);
    let cases = extract_cases(tree, q);
    let windows = extract_windows(tree, q);
    let aggregates = extract_aggregates(tree, q);
    let predicates = extract_predicates(tree, q);
    let subqueries = extract_subqueries(tree, q);
    let expressions = extract_expressions(tree, q);
    let ctes = extract_cte_graph(tree, q);
    proof {
        crate::joins::join_kinds_partition(tree@, q as int, joins);
    }
    reveal(bounded);
    reveal(query_shape);
    QueryFacts {
        query_blocks: count_any(tree, q, KindSet::Only(Kind::SelectStatement)) as u128,
        ctes: ctes.count as u128,
        cte_depth: ctes.max_dependency_depth as u128,
        joins: joins.total as u128,
        outer_joins: (joins.left + joins.right + joins.full) as u128,
        cross_joins: joins.cross as u128,
        subqueries: subqueries.count as u128,
        subquery_depth: subqueries.max_depth as u128,
        correlated: subqueries.correlated_count as u128,
        derived_tables: subqueries.derived_table_count as u128,
        boolean_operators: predicates.boolean_operator_count as u128,
        boolean_depth: predicates.max_boolean_depth as u128,
        cases: cases.count as u128,
        case_depth: cases.max_depth as u128,
        windows: windows.function_count as u128,
        aggregates: aggregates.function_count as u128,
        set_ops: set_ops.count as u128,
        expression_depth: expressions.max_depth as u128,
    }
}

/// The shape of the outermost queries of a subtree.
fn roots_facts(tree: &Tree, i: usize) -> (r: QueryFacts)
    requires
        tree.wf(),
        tree.holds(i),
    ensures
        r@ == shape_of_list(
            tree@,
            query_roots(tree@, i as int),
            query_roots(tree@, i as int).len() as int,
        ),
        bounded(r@, (tree@[i as int].end - i) * QUERY_BOUND),
{
    let ghost n = tree@;
    let p = Probe {
        set: KindSet::QueryRoots,
        deep: false,
        stop: KindSet::Empty,
        own: true,
    };
    let roots = tree.crawl(i, p);
    proof {
        lemma_crawl(n, i as int, p);
        crate::tree::lemma_reported(n, i as int, p, n[i as int].end as int);
    }
    let mut acc = QueryFacts::none();
    let mut k: usize = 0;
    while k < roots.len()
        invariant
            tree.wf(),
            n == tree@,
            k <= roots@.len() <= MAX_NODES,
            roots@ == query_roots(n, i as int),
            forall|l: int| 0 <= l < roots@.len() ==> (#[trigger] roots@[l]) < n.len(),
            acc@ == shape_of_list(n, roots@, k as int),
            bounded(acc@, k * QUERY_BOUND),
        decreases roots@.len() - k,
    {
        let one = subtree_query_facts(tree, roots[k]);
        proof {
            lemma_merged_bound(acc@, one@, k * QUERY_BOUND, QUERY_BOUND as int);
            lemma_bound_grows(acc@, k * QUERY_BOUND, MERGE_BOUND as int);
            lemma_bound_grows(one@, QUERY_BOUND as int, MERGE_BOUND as int);
        }
        acc = acc.merge(&one);
        k = k + 1;
    }
    proof {
        lemma_bound_grows(acc@, k * QUERY_BOUND, (n[i as int].end - i) * QUERY_BOUND);
    }
    acc
}

/// The shape of the queries in the siblings from `first` up to `hi`.
fn facts_below(tree: &Tree, first: usize, hi: usize) -> (r: QueryFacts)
    requires
        tree.wf(),
        first <= hi <= tree@.len(),
        forall|j: int| first <= j < hi ==> (#[trigger] tree@[j]).end <= hi,
    ensures
        r@ == shape_below(tree@, first as int, hi as int),
        bounded(r@, (hi - first) * QUERY_BOUND),
    decreases hi - first,
{
    let ghost n = tree@;
    let mut acc = QueryFacts::none();
    let mut c: usize = first;
    proof {
        merging_is_associative(shape_below(n, c as int, hi as int), acc@, acc@);
    }
    while c < hi
        invariant
            tree.wf(),
            n == tree@,
            first <= c <= hi <= n.len() <= MAX_NODES,
            forall|j: int| first <= j < hi ==> (#[trigger] n[j]).end <= hi,
            shape_below(n, first as int, hi as int) == merged(
                acc@,
                shape_below(n, c as int, hi as int),
            ),
            bounded(acc@, (c - first) * QUERY_BOUND),
        decreases hi - c,
    {
        let e: usize = tree.end_at(c);
        let here = if KindSet::Units.has(tree.kind_at(c)) {
            QueryFacts::none()
        } else {
            let nested = tree.crawl(
                c,
                Probe {
                    set: KindSet::Units,
                    deep: true,
                    stop: KindSet::Empty,
                    own: false,
                },
            );
            if nested.len() > 0 {
                proof {
                    assert forall|j: int| c + 1 <= j < e implies (#[trigger] n[j]).end <= e by {
                        assert(n[j].end <= n[c as int].end);
                    }
                }
                facts_below(tree, c + 1, e)
            } else {
                roots_facts(tree, c)
            }
        };
        proof {
            assert(bounded(here@, (e - c) * QUERY_BOUND)) by {
                if bounded(here@, 0) {
                    lemma_bound_grows(here@, 0, (e - c) * QUERY_BOUND);
                } else if bounded(here@, (e - (c + 1)) * QUERY_BOUND) {
                    lemma_bound_grows(here@, (e - (c + 1)) * QUERY_BOUND, (e - c) * QUERY_BOUND);
                }
            }
            lemma_merged_bound(acc@, here@, (c - first) * QUERY_BOUND, (e - c) * QUERY_BOUND);
            assert((c - first) * QUERY_BOUND + (e - c) * QUERY_BOUND == (e - first) * QUERY_BOUND);
            merging_is_associative(acc@, here@, shape_below(n, e as int, hi as int));
            lemma_bound_grows(acc@, (c - first) * QUERY_BOUND, MERGE_BOUND as int);
            lemma_bound_grows(here@, (e - c) * QUERY_BOUND, MERGE_BOUND as int);
        }
        acc = acc.merge(&here);
        c = e;
    }
    proof {
        merging_is_associative(acc@, acc@, acc@);
    }
    acc
}

/// The shape of the queries of a region, those of routines defined in it left
/// out.
pub fn query_facts_of(tree: &Tree, i: usize) -> (r: QueryFacts)
    requires
        tree.wf(),
        tree.holds(i),
    ensures
        r@ == region_shape(tree@, i as int),
        bounded(r@, REGION_BOUND as int),
{
    let hi: usize = tree.end_at(i);
    proof {
        let n = tree@;
        assert forall|j: int| i + 1 <= j < hi implies (#[trigger] n[j]).end <= hi by {
            assert(n[j].end <= n[i as int].end);
        }
    }
    let r = facts_below(tree, i + 1, hi);
    proof {
        lemma_bound_grows(r@, (hi - (i + 1)) * QUERY_BOUND, REGION_BOUND as int);
        merging_is_associative(region_shape(tree@, i as int), r@, r@);
    }
    r
}

} // verus!
