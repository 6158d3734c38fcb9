//! Query blocks, subqueries, derived tables and expressions.

use vstd::prelude::*;

use crate::clauses::{called_name, calls_named, function_name};
use crate::kind::{Kind, KindSet};
use crate::measure::{count_anywhere, deepest, deepest_nest, level_in, nest_level};
use crate::names::{
    add_distinct, collect_own_level, column_qualifier, in_scope, lemma_distinct, names_in_scope,
    own_level, qualifier_of, texts,
};
use crate::text::{is_text, to_upper, upper};
use crate::tree::{
    all_in, code_children, count, crawl, every, is_keyword, lemma_count_step, lemma_crawl,
    lemma_peak_step, lemma_siblings, lemma_sum_step, lemma_take_all, peak, sum, well_formed, Node,
    Probe, Tree, MAX_NODES,
};
use crate::word::Word;

verus! {

/// Subqueries and derived tables.
#[derive(Clone, Copy, Debug, PartialEq, Eq, Structural)]
pub struct SubqueryFacts {
    pub count: u64,
    pub max_depth: u64,
    pub correlated_count: u64,
    pub scalar_count: u64,
    pub exists_count: u64,
    pub in_count: u64,
    pub derived_table_count: u64,
}

/// The query blocks of a subtree.
pub open spec fn selects_in(n: Seq<Node>, root: int) -> Seq<usize> {
    all_in(n, root, KindSet::Only(Kind::SelectStatement))
}

/// How many query blocks below `root` a node lies in, itself included.
pub open spec fn select_depth(n: Seq<Node>, root: int) -> spec_fn(usize) -> int {
    nest_level(n, selects_in(n, root))
}

pub open spec fn nested_select(n: Seq<Node>, root: int) -> spec_fn(usize) -> bool {
    |i: usize| select_depth(n, root)(i) > 1
}

/// How deep a query block is nested in others.
pub open spec fn subquery_depth(n: Seq<Node>, root: int) -> spec_fn(usize) -> int {
    |i: usize| select_depth(n, root)(i) - 1
}

/// Whether a query refers to a relation outside its own scope.
pub open spec fn is_correlated(n: Seq<Node>, query: int) -> bool {
    exists|k: int|
        0 <= k < own_level(n, query, KindSet::Only(Kind::ColumnReference)).len() && refers_out(
            n,
            query,
            #[trigger] own_level(n, query, KindSet::Only(Kind::ColumnReference))[k] as int,
        )
}

/// Whether a column is qualified by a relation outside a query's scope.
pub open spec fn refers_out(n: Seq<Node>, query: int, col: int) -> bool {
    column_qualifier(n, col) matches Some(q) && !in_scope(n, query, upper(q))
}

pub open spec fn correlated_subquery(n: Seq<Node>, root: int) -> spec_fn(usize) -> bool {
    |i: usize| select_depth(n, root)(i) > 1 && is_correlated(n, i as int)
}

/// The queries below a `FROM` element, outermost first.
pub open spec fn queries_below(n: Seq<Node>, i: int, set: KindSet) -> Seq<usize> {
    crawl(n, i, Probe { set, deep: false, stop: KindSet::Empty, own: false })
}

pub open spec fn derived_table(n: Seq<Node>) -> spec_fn(usize) -> bool {
    |i: usize| queries_below(n, i as int, KindSet::Selectables).len() > 0
}

/// The scalar subqueries of a select element.
pub open spec fn scalar_queries(n: Seq<Node>) -> spec_fn(usize) -> int {
    |i: usize| queries_below(n, i as int, KindSet::Only(Kind::SelectStatement)).len() as int
}

/// Whether the child at place `k` is the keyword `w` before a bracketed query.
pub open spec fn tests_query(n: Seq<Node>, code: Seq<usize>, k: int, w: Word) -> bool {
    &&& is_keyword(n, code[k] as int, w)
    &&& k + 1 < code.len()
    &&& n[code[k + 1] as int].kind == Kind::Bracketed
    &&& selects_in(n, code[k + 1] as int).len() > 0
}

/// The query predicates among the first `k` children.
pub open spec fn query_tests_at(n: Seq<Node>, code: Seq<usize>, k: int, w: Word) -> int
    decreases k,
{
    if k <= 0 {
        0
    } else {
        query_tests_at(n, code, k - 1, w) + if tests_query(n, code, k - 1, w) {
            1int
        } else {
            0int
        }
    }
}

/// The query predicates below the nodes `root..hi`.
pub open spec fn query_tests_in(n: Seq<Node>, root: int, hi: int, w: Word) -> int
    decreases hi - root,
{
    if hi <= root {
        0
    } else {
        query_tests_in(n, root, hi - 1, w) + query_tests_at(
            n,
            code_children(n, hi - 1),
            code_children(n, hi - 1).len() as int,
            w,
        )
    }
}

/// Whether subquery facts are those of a subtree.
pub open spec fn describes_subqueries(n: Seq<Node>, root: int, r: SubqueryFacts) -> bool {
    let selects = selects_in(n, root);
    let hi = n[root].end as int;
    &&& r.count == count(selects, nested_select(n, root))
    &&& r.max_depth == peak(selects, subquery_depth(n, root))
    &&& r.correlated_count == count(selects, correlated_subquery(n, root))
    &&& r.derived_table_count == count(
        all_in(n, root, KindSet::Only(Kind::FromExpressionElement)),
        derived_table(n),
    )
    &&& r.exists_count == query_tests_in(n, root, hi, Word::Exists)
    &&& r.in_count == query_tests_in(n, root, hi, Word::In)
    &&& r.scalar_count == sum(
        all_in(n, root, KindSet::Only(Kind::SelectClauseElement)),
        scalar_queries(n),
    )
}

// ── execution ──────────────────────────────────────────────────────────

/// Whether a query refers to a relation outside its own scope.
pub fn correlated(tree: &Tree, query: usize) -> (r: bool)
    requires
        tree.wf(),
        tree.holds(query),
    ensures
        r == is_correlated(tree@, query as int),
{
    let ghost n = tree@;
    let cols = collect_own_level(tree, query, KindSet::Only(Kind::ColumnReference));
    let mut k: usize = 0;
    while k < cols.len()
        invariant
            tree.wf(),
            n == tree@,
            query < n.len(),
            k <= cols@.len(),
            cols@ == own_level(n, query as int, KindSet::Only(Kind::ColumnReference)),
            forall|l: int| 0 <= l < cols@.len() ==> (#[trigger] cols@[l]) < n.len(),
            forall|l: int| 0 <= l < k ==> !refers_out(n, query as int, #[trigger] cols@[l] as int),
        decreases cols@.len() - k,
    {
        match qualifier_of(tree, cols[k]) {
            Some(q) => {
                let up = to_upper(&q);
                if !names_in_scope(tree, query, &up) {
                    assert(refers_out(
                        n,
                        query as int,
                        own_level(n, query as int, KindSet::Only(Kind::ColumnReference))[k as int]
                            as int,
                    ));
                    return true;
                }
            },
            None => {},
        }
        k = k + 1;
    }
    false
}

/// The number of `FROM` elements that hold a derived table.
fn count_derived_tables(tree: &Tree, root: usize) -> (r: u64)
    requires
        tree.wf(),
        tree.holds(root),
    ensures
        r == count(
            all_in(tree@, root as int, KindSet::Only(Kind::FromExpressionElement)),
            derived_table(tree@),
        ),
        r <= MAX_NODES,
{
    let ghost n = tree@;
    let elems = tree.all_in(root, KindSet::Only(Kind::FromExpressionElement));
    proof {
        lemma_crawl(n, root as int, every(KindSet::Only(Kind::FromExpressionElement)));
        lemma_take_all(elems@);
    }
    let mut found: u64 = 0;
    let mut k: usize = 0;
    while k < elems.len()
        invariant
            tree.wf(),
            n == tree@,
            k <= elems@.len() <= MAX_NODES,
            forall|l: int| 0 <= l < elems@.len() ==> (#[trigger] elems@[l]) < n.len(),
            found == count(elems@.take(k as int), derived_table(n)),
            found <= k,
        decreases elems@.len() - k,
    {
        proof {
            lemma_count_step(elems@, k as int, derived_table(n));
        }
        let nested = tree.crawl(
            elems[k],
            Probe {
                set: KindSet::Selectables,
                deep: false,
                stop: KindSet::Empty,
                own: false,
            },
        );
        if nested.len() > 0 {
            found = found + 1;
        }
        k = k + 1;
    }
    found
}

/// The number of queries inside select elements.
fn count_scalar_subqueries(tree: &Tree, root: usize) -> (r: u64)
    requires
        tree.wf(),
        tree.holds(root),
    ensures
        r == sum(
            all_in(tree@, root as int, KindSet::Only(Kind::SelectClauseElement)),
            scalar_queries(tree@),
        ),
{
    let ghost n = tree@;
    let elems = tree.all_in(root, KindSet::Only(Kind::SelectClauseElement));
    let p = Probe {
        set: KindSet::Only(Kind::SelectStatement),
        deep: false,
        stop: KindSet::Empty,
        own: false,
    };
    proof {
        lemma_crawl(n, root as int, every(KindSet::Only(Kind::SelectClauseElement)));
        lemma_take_all(elems@);
    }
    let mut total: u64 = 0;
    let mut k: usize = 0;
    while k < elems.len()
        invariant
            tree.wf(),
            n == tree@,
            p == (Probe {
                set: KindSet::Only(Kind::SelectStatement),
                deep: false,
                stop: KindSet::Empty,
                own: false,
            }),
            k <= elems@.len() <= MAX_NODES,
            forall|l: int| 0 <= l < elems@.len() ==> (#[trigger] elems@[l]) < n.len(),
            total == sum(elems@.take(k as int), scalar_queries(n)),
            total <= k * MAX_NODES,
        decreases elems@.len() - k,
    {
        proof {
            lemma_sum_step(elems@, k as int, scalar_queries(n));
            lemma_crawl(n, elems@[k as int] as int, p);
        }
        let nested = tree.crawl(elems[k], p);
        total = total + nested.len() as u64;
        k = k + 1;
    }
    total
}

/// Whether the child at place `k` is the keyword `w` before a bracketed query.
pub fn is_query_test(tree: &Tree, code: &Vec<usize>, k: usize, w: Word) -> (r: bool)
    requires
        tree.wf(),
        k < code@.len() <= MAX_NODES,
        forall|l: int| 0 <= l < code@.len() ==> (#[trigger] code@[l]) < tree@.len(),
    ensures
        r == tests_query(tree@, code@, k as int, w),
{
    if !tree.keyword(code[k], w) || k + 1 >= code.len() {
        return false;
    }
    let next: usize = code[k + 1];
    if tree.kind_at(next) != Kind::Bracketed {
        return false;
    }
    let selects = tree.all_in(next, KindSet::Only(Kind::SelectStatement));
    selects.len() > 0
}

/// The number of `EXISTS (SELECT …)` and of `IN (SELECT …)` predicates.
pub fn count_keyword_subqueries(tree: &Tree, root: usize) -> (r: (u64, u64))
    requires
        tree.wf(),
        tree.holds(root),
    ensures
        r.0 == query_tests_in(
            tree@,
            root as int,
            tree@[root as int].end as int,
            Word::Exists,
        ),
        r.1 == query_tests_in(
            tree@,
            root as int,
            tree@[root as int].end as int,
            Word::In,
        ),
{
    let ghost n = tree@;
    let hi: usize = tree.end_at(root);
    let mut exists: u64 = 0;
    let mut ins: u64 = 0;
    let mut p: usize = root;
    while p < hi
        invariant
            tree.wf(),
            n == tree@,
            root <= p <= hi <= n.len() <= MAX_NODES,
            exists == query_tests_in(n, root as int, p as int, Word::Exists),
            ins == query_tests_in(n, root as int, p as int, Word::In),
            exists <= (p - root) * MAX_NODES,
            ins <= (p - root) * MAX_NODES,
        decreases hi - p,
    {
        let code = tree.code_children(p);
        proof {
            lemma_siblings(n, p + 1, n[p as int].end as int);
        }
        let ghost e0 = exists;
        let ghost i0 = ins;
        let mut k: usize = 0;
        while k < code.len()
            invariant
                tree.wf(),
                n == tree@,
                k <= code@.len() <= MAX_NODES,
                forall|l: int| 0 <= l < code@.len() ==> (#[trigger] code@[l]) < n.len(),
                e0 <= 0xffff_ffff_0000_0000,
                i0 <= 0xffff_ffff_0000_0000,
                exists == e0 + query_tests_at(n, code@, k as int, Word::Exists),
                ins == i0 + query_tests_at(n, code@, k as int, Word::In),
                exists <= e0 + k,
                ins <= i0 + k,
            decreases code@.len() - k,
        {
            if is_query_test(tree, &code, k, Word::Exists) {
                exists = exists + 1;
            }
            if is_query_test(tree, &code, k, Word::In) {
                ins = ins + 1;
            }
            k = k + 1;
        }
        p = p + 1;
    }
    (exists, ins)
}

/// The subquery facts of a subtree.
pub fn extract_subqueries(tree: &Tree, root: usize) -> (r: SubqueryFacts)
    requires
        tree.wf(),
        tree.holds(root),
    ensures
        describes_subqueries(tree@, root as int, r),
        r.count <= MAX_NODES,
        r.max_depth <= MAX_NODES,
        r.correlated_count <= MAX_NODES,
        r.derived_table_count <= MAX_NODES,
{
    let ghost n = tree@;
    let selects = tree.all_in(root, KindSet::Only(Kind::SelectStatement));
    proof {
        lemma_crawl(n, root as int, every(KindSet::Only(Kind::SelectStatement)));
        lemma_take_all(selects@);
    }
    let mut found: u64 = 0;
    let mut deep: u64 = 0;
    let mut outward: u64 = 0;
    let mut k: usize = 0;
    while k < selects.len()
        invariant
            tree.wf(),
            n == tree@,
            k <= selects@.len() <= MAX_NODES,
            selects@ == selects_in(n, root as int),
            forall|l: int| 0 <= l < selects@.len() ==> (#[trigger] selects@[l]) < n.len(),
            found == count(selects@.take(k as int), nested_select(n, root as int)),
            deep == peak(selects@.take(k as int), subquery_depth(n, root as int)),
            outward == count(selects@.take(k as int), correlated_subquery(n, root as int)),
            found <= k,
            deep <= MAX_NODES,
            outward <= k,
        decreases selects@.len() - k,
    {
        proof {
            lemma_count_step(selects@, k as int, nested_select(n, root as int));
            lemma_peak_step(selects@, k as int, subquery_depth(n, root as int));
            lemma_count_step(selects@, k as int, correlated_subquery(n, root as int));
        }
        let depth: u64 = level_in(tree, &selects, selects[k]);
        if depth > 1 {
            found = found + 1;
            if depth - 1 > deep {
                deep = depth - 1;
            }
            if correlated(tree, selects[k]) {
                outward = outward + 1;
            }
        }
        k = k + 1;
    }
    let (exists, ins) = count_keyword_subqueries(tree, root);
    SubqueryFacts {
        count: found,
        max_depth: deep,
        correlated_count: outward,
        scalar_count: count_scalar_subqueries(tree, root),
        exists_count: exists,
        in_count: ins,
        derived_table_count: count_derived_tables(tree, root),
    }
}

// ── expressions ────────────────────────────────────────────────────────

/// Expressions and function calls.
#[derive(Clone, Copy, Debug, PartialEq, Eq, Structural)]
pub struct ExpressionFacts {
    pub max_depth: u64,
    pub function_call_count: u64,
    pub distinct_function_count: u64,
    pub max_function_nesting: u64,
    pub cast_count: u64,
}

/// The depth of the siblings from `c` up to `hi`: an expression is one level,
/// and so are a call, a case and a bracket directly below a level.
pub open spec fn depth_below(n: Seq<Node>, c: int, hi: int, direct: bool) -> int
    decreases hi - c,
{
    if 0 <= c < hi && c < n[c].end <= hi {
        let here = if n[c].kind == Kind::Expression || (direct && KindSet::DepthSteps.holds(
            n[c].kind,
        )) {
            1 + depth_below(n, c + 1, n[c].end as int, true)
        } else {
            depth_below(n, c + 1, n[c].end as int, false)
        };
        let rest = depth_below(n, n[c].end as int, hi, direct);
        if here > rest {
            here
        } else {
            rest
        }
    } else {
        0
    }
}

/// The depth of an expression.
pub open spec fn expression_depth(n: Seq<Node>) -> spec_fn(usize) -> int {
    |i: usize| 1 + depth_below(n, i + 1, n[i as int].end as int, true)
}

/// How deep calls nest below and including one.
pub open spec fn call_depth(n: Seq<Node>) -> spec_fn(usize) -> int {
    |i: usize| deepest(n, all_in(n, i as int, KindSet::Only(Kind::Function)))
}

pub open spec fn cast_call(n: Seq<Node>) -> spec_fn(usize) -> bool {
    |i: usize| calls_named(n, i as int, "CAST"@)
}

/// The upper-cased names of the called functions.
pub open spec fn called_names(n: Seq<Node>, s: Seq<usize>) -> Set<Seq<char>>
    decreases s.len(),
{
    if s.len() == 0 {
        Set::empty()
    } else {
        match function_name(n, s.last() as int) {
            Some(f) => called_names(n, s.drop_last()).insert(upper(f)),
            None => called_names(n, s.drop_last()),
        }
    }
}

/// Whether expression facts are those of a subtree.
pub open spec fn describes_expressions(n: Seq<Node>, root: int, r: ExpressionFacts) -> bool {
    let calls = all_in(n, root, KindSet::Only(Kind::Function));
    &&& r.max_depth == peak(all_in(n, root, KindSet::Only(Kind::Expression)), expression_depth(n))
    &&& r.function_call_count == calls.len()
    &&& r.distinct_function_count == called_names(n, calls).len()
    &&& r.max_function_nesting == peak(calls, call_depth(n))
    &&& r.cast_count == all_in(n, root, KindSet::Only(Kind::CastExpression)).len() + count(
        calls,
        cast_call(n),
    )
}

proof fn lemma_depth_bound(n: Seq<Node>, c: int, hi: int, direct: bool)
    requires
        well_formed(n),
        hi <= n.len(),
    ensures
        0 <= depth_below(n, c, hi, direct) <= if c < hi {
            hi - c
        } else {
            0
        },
    decreases hi - c,
{
    if 0 <= c < hi && c < n[c].end <= hi {
        lemma_depth_bound(n, c + 1, n[c].end as int, true);
        lemma_depth_bound(n, c + 1, n[c].end as int, false);
        lemma_depth_bound(n, n[c].end as int, hi, direct);
    }
}

/// The depth of the siblings from `first` up to `hi`.
fn sibling_depth(tree: &Tree, first: usize, hi: usize, direct: bool) -> (r: u64)
    requires
        tree.wf(),
        first <= hi <= tree@.len(),
        forall|j: int|
            first <= j < hi ==> (#[trigger] tree@[j]).end <= hi,
    ensures
        r == depth_below(tree@, first as int, hi as int, direct),
        r <= hi - first,
    decreases hi - first,
{
    let ghost n = tree@;
    proof {
        lemma_depth_bound(n, first as int, hi as int, direct);
    }
    let mut best: u64 = 0;
    let mut c: usize = first;
    while c < hi
        invariant
            tree.wf(),
            n == tree@,
            first <= c <= hi <= n.len(),
            forall|j: int| first <= j < hi ==> (#[trigger] n[j]).end <= hi,
            depth_below(n, first as int, hi as int, direct) == (if best > depth_below(
                n,
                c as int,
                hi as int,
                direct,
            ) {
                best as int
            } else {
                depth_below(n, c as int, hi as int, direct)
            }),
        decreases hi - c,
    {
        let k: Kind = tree.kind_at(c);
        let e: usize = tree.end_at(c);
        let level = k == Kind::Expression || (direct && KindSet::DepthSteps.has(k));
        proof {
            assert forall|j: int| c + 1 <= j < e implies (#[trigger] n[j]).end <= e by {
                assert(n[j].end <= n[c as int].end);
            }
            lemma_depth_bound(n, e as int, hi as int, direct);
        }
        let below: u64 = sibling_depth(tree, c + 1, e, level);
        let here: u64 = if level {
            1 + below
        } else {
            below
        };
        if here > best {
            best = here;
        }
        c = e;
    }
    best
}

/// The expression facts of a subtree.
pub fn extract_expressions(tree: &Tree, root: usize) -> (r: ExpressionFacts)
    requires
        tree.wf(),
        tree.holds(root),
    ensures
        describes_expressions(tree@, root as int, r),
        r.max_depth <= MAX_NODES,
{
    let ghost n = tree@;
    let exprs = tree.all_in(root, KindSet::Only(Kind::Expression));
    proof {
        lemma_crawl(n, root as int, every(KindSet::Only(Kind::Expression)));
        lemma_take_all(exprs@);
    }
    let mut depth: u64 = 0;
    let mut k: usize = 0;
    while k < exprs.len()
        invariant
            tree.wf(),
            n == tree@,
            k <= exprs@.len() <= MAX_NODES,
            forall|l: int| 0 <= l < exprs@.len() ==> (#[trigger] exprs@[l]) < n.len(),
            depth == peak(exprs@.take(k as int), expression_depth(n)),
            depth <= MAX_NODES,
        decreases exprs@.len() - k,
    {
        proof {
            lemma_peak_step(exprs@, k as int, expression_depth(n));
        }
        let e: usize = exprs[k];
        let hi: usize = tree.end_at(e);
        proof {
            assert forall|j: int| e + 1 <= j < hi implies (#[trigger] n[j]).end <= hi by {
                assert(n[j].end <= n[e as int].end);
            }
        }
        let here: u64 = 1 + sibling_depth(tree, e + 1, hi, true);
        if here > depth {
            depth = here;
        }
        k = k + 1;
    }
    let calls = tree.all_in(root, KindSet::Only(Kind::Function));
    proof {
        lemma_crawl(n, root as int, every(KindSet::Only(Kind::Function)));
        lemma_take_all(calls@);
    }
    let mut names: Vec<Vec<char>> = Vec::new();
    let mut nesting: u64 = 0;
    let mut casts: u64 = 0;
    let mut f: usize = 0;
    assert(texts(names@).to_set() =~= called_names(n, calls@.take(0)));
    while f < calls.len()
        invariant
            tree.wf(),
            n == tree@,
            f <= calls@.len() <= MAX_NODES,
            forall|l: int| 0 <= l < calls@.len() ==> (#[trigger] calls@[l]) < n.len(),
            nesting == peak(calls@.take(f as int), call_depth(n)),
            casts == count(calls@.take(f as int), cast_call(n)),
            casts <= f,
            names@.len() <= f,
            texts(names@).no_duplicates(),
            texts(names@).to_set() == called_names(n, calls@.take(f as int)),
        decreases calls@.len() - f,
    {
        let i: usize = calls[f];
        proof {
            lemma_peak_step(calls@, f as int, call_depth(n));
            lemma_count_step(calls@, f as int, cast_call(n));
            assert(calls@.take(f + 1).drop_last() =~= calls@.take(f as int));
            lemma_crawl(n, i as int, every(KindSet::Only(Kind::Function)));
        }
        match called_name(tree, i) {
            Some(up) => {
                if is_text(&up, "CAST") {
                    casts = casts + 1;
                }
                add_distinct(&mut names, up);
            },
            None => {},
        }
        let nested = tree.all_in(i, KindSet::Only(Kind::Function));
        let here: u64 = deepest_nest(tree, &nested);
        if here > nesting {
            nesting = here;
        }
        f = f + 1;
    }
    proof {
        lemma_distinct(names@);
    }
    ExpressionFacts {
        max_depth: depth,
        function_call_count: calls.len() as u64,
        distinct_function_count: names.len() as u64,
        max_function_nesting: nesting,
        cast_count: count_anywhere(tree, root, Kind::CastExpression) + casts,
    }
}

} // verus!
