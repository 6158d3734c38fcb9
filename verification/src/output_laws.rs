//! What is counted of subqueries, expressions and outputs, node by node.

use vstd::prelude::*;

use crate::clause_laws::{calls, lemma_called};
use crate::joins::lemma_some_in;
use crate::kind::{Kind, KindSet};
use crate::names::{
    aliased_as, column_qualifier, identifiers, in_scope, last_identifier, names_relation,
    normalized, own_level, refers_to,
};
use crate::output::{
    columns_of, derived, derived_aliased, derived_unaliased, describes_output, has_alias,
    is_derived, joins_relations, multi_columns_of, multi_unqualified_of, outer_star, own_columns,
    table_aliases, unqualified, unqualified_of, OutputFacts,
};
use crate::query_laws::{lemma_tests_query, places_at, query_stands, word_stands};
use crate::subqueries::{
    call_depth, called_names, cast_call, correlated_subquery, derived_table, describes_expressions,
    describes_subqueries, is_correlated, nested_select, queries_below, query_tests_at,
    query_tests_in, refers_out, scalar_queries, select_depth, subquery_depth, tests_query,
    ExpressionFacts, SubqueryFacts,
};
use crate::text::upper;
use crate::tree::{
    closes, code_children, crawl, lemma_reported, lemma_same_number, number, open_to, reported, reports, well_formed,
    Node, Probe, MAX_NODES,
};
use crate::tree_laws::{
    child_of, highest_in, lemma_counted, lemma_crawled, lemma_crawled_all, lemma_direct,
    lemma_highest, lemma_listed, lemma_nesting_of_kind, lemma_totalled, level, nesting, nodes_in,
    total, total_in,
};
use crate::word::Word;

verus! {

// ── scopes ─────────────────────────────────────────────────────────────

/// Whether a node is a query block.
pub open spec fn query_block(n: Seq<Node>) -> spec_fn(int) -> bool {
    |j: int| n[j].kind is SelectStatement
}

/// Whether a node of a subtree lies in no query block of it, other than the one
/// that the subtree is.
pub open spec fn own_scope(n: Seq<Node>, i: int, j: int) -> bool {
    &&& i <= j < n[i].end
    &&& forall|a: int|
        i < a <= j && j < (#[trigger] n[a]).end ==> !(n[a].kind is SelectStatement)
}

/// A search that enters no other query.
pub open spec fn scope_probe(set: KindSet) -> Probe {
    Probe { set, deep: true, stop: KindSet::Only(Kind::SelectStatement), own: true }
}

/// What a query itself holds is what lies in no other query of it.
pub proof fn lemma_scope(n: Seq<Node>, i: int, set: KindSet, j: int)
    requires
        well_formed(n),
        0 <= i < n.len(),
        i <= j < n[i].end,
        !set.holds(Kind::ObjectReference),
    ensures
        reports(n, i, scope_probe(set), j) <==> set.holds(n[j].kind) && own_scope(n, i, j),
{
    let p = scope_probe(set);
    if reports(n, i, p, j) {
        assert forall|a: int| i < a <= j && j < (#[trigger] n[a]).end implies !(
        n[a].kind is SelectStatement) by {
            if a < j {
                assert(!closes(n, i, p, a));
            }
        }
    }
    if own_scope(n, i, j) {
        assert(n[j].end > j);
        assert(open_to(n, i, p, j));
    }
}

/// A node that a crawl reports is among what it reports.
pub proof fn lemma_is_crawled(n: Seq<Node>, root: int, p: Probe, hi: int, j: int) -> (k: int)
    requires
        0 <= root <= j < hi <= n.len() <= MAX_NODES,
        reports(n, root, p, j),
    ensures
        0 <= k < reported(n, root, p, hi).len(),
        reported(n, root, p, hi)[k] == j,
    decreases hi - j,
{
    if hi - 1 > j {
        lemma_is_crawled(n, root, p, hi - 1, j)
    } else {
        reported(n, root, p, hi).len() - 1
    }
}

// ── relations in scope ─────────────────────────────────────────────────

/// Whether the node at `j` is the first identifier in a subtree.
pub open spec fn first_identifier_in(n: Seq<Node>, i: int, j: int) -> bool {
    &&& i <= j < n[i].end
    &&& KindSet::Identifiers.holds(n[j].kind)
    &&& forall|a: int| i <= a < j ==> !KindSet::Identifiers.holds((#[trigger] n[a]).kind)
}

/// Whether a relation is in the scope of a query under a name: a relation of its
/// `FROM` that is called so, or one with that alias.
pub open spec fn known_in(n: Seq<Node>, query: int, up: Seq<char>) -> bool {
    exists|e: int|
        n[e].kind is FromExpressionElement && #[trigger] own_scope(n, query, e) && (known_by_name(
            n,
            e,
            up,
        ) || known_by_alias(n, e, up))
}

/// Whether a relation of a `FROM` element is called so.
pub open spec fn known_by_name(n: Seq<Node>, e: int, up: Seq<char>) -> bool {
    exists|t: int|
        KindSet::TableReferences.holds(n[t].kind) && #[trigger] own_scope(n, e, t) && upper(
            last_identifier(n, t),
        ) == up
}

/// Whether a `FROM` element has the alias.
pub open spec fn known_by_alias(n: Seq<Node>, e: int, up: Seq<char>) -> bool {
    exists|t: int, j: int|
        n[t].kind is AliasExpression && #[trigger] own_scope(n, e, t) && #[trigger]
        first_identifier_in(n, t, j) && upper(normalized(n[j].raw)) == up
}

proof fn lemma_known(n: Seq<Node>, query: int, up: Seq<char>)
    requires
        well_formed(n),
        0 <= query < n.len(),
    ensures
        in_scope(n, query, up) <==> known_in(n, query, up),
{
    let set = KindSet::Only(Kind::FromExpressionElement);
    let p = scope_probe(set);
    let s = own_level(n, query, set);
    let hi = n[query].end as int;
    lemma_reported(n, query, p, hi);
    if in_scope(n, query, up) {
        let k = choose|k: int| 0 <= k < s.len() && names_relation(n, #[trigger] s[k] as int, up);
        let e = s[k] as int;
        lemma_scope(n, query, set, e);
        lemma_known_at(n, e, up);
        assert(own_scope(n, query, e));
    }
    if known_in(n, query, up) {
        let e = choose|e: int|
            n[e].kind is FromExpressionElement && #[trigger] own_scope(n, query, e) && (
            known_by_name(n, e, up) || known_by_alias(n, e, up));
        lemma_scope(n, query, set, e);
        lemma_known_at(n, e, up);
        let k = lemma_is_crawled(n, query, p, hi, e);
        assert(names_relation(n, s[k] as int, up));
    }
}

proof fn lemma_known_at(n: Seq<Node>, e: int, up: Seq<char>)
    requires
        well_formed(n),
        0 <= e < n.len(),
    ensures
        refers_to(n, e, up) <==> known_by_name(n, e, up),
        aliased_as(n, e, up) <==> known_by_alias(n, e, up),
{
    let hi = n[e].end as int;
    let tables = own_level(n, e, KindSet::TableReferences);
    let p = scope_probe(KindSet::TableReferences);
    lemma_reported(n, e, p, hi);
    if refers_to(n, e, up) {
        let k = choose|k: int|
            0 <= k < tables.len() && upper(last_identifier(n, #[trigger] tables[k] as int)) == up;
        let t = tables[k] as int;
        lemma_scope(n, e, KindSet::TableReferences, t);
        assert(own_scope(n, e, t));
    }
    if known_by_name(n, e, up) {
        let t = choose|t: int|
            KindSet::TableReferences.holds(n[t].kind) && #[trigger] own_scope(n, e, t) && upper(
                last_identifier(n, t),
            ) == up;
        lemma_scope(n, e, KindSet::TableReferences, t);
        let k = lemma_is_crawled(n, e, p, hi, t);
        assert(upper(last_identifier(n, tables[k] as int)) == up);
    }
    let set = KindSet::Only(Kind::AliasExpression);
    let aliases = own_level(n, e, set);
    let q = scope_probe(set);
    lemma_reported(n, e, q, hi);
    if aliased_as(n, e, up) {
        let k = choose|k: int|
            0 <= k < aliases.len() && crate::names::first_named(
                n,
                #[trigger] aliases[k] as int,
                up,
            );
        let t = aliases[k] as int;
        lemma_scope(n, e, set, t);
        lemma_first_identifier(n, t);
        assert(own_scope(n, e, t) && first_identifier_in(n, t, identifiers(n, t)[0] as int));
    }
    if known_by_alias(n, e, up) {
        let (t, j) = choose|t: int, j: int|
            n[t].kind is AliasExpression && #[trigger] own_scope(n, e, t) && #[trigger]
            first_identifier_in(n, t, j) && upper(normalized(n[j].raw)) == up;
        lemma_scope(n, e, set, t);
        lemma_first_identifier(n, t);
        assert(first_identifier_in(n, t, j));
        let k = lemma_is_crawled(n, e, q, hi, t);
        assert(crate::names::first_named(n, aliases[k] as int, up));
    }
}

proof fn lemma_first_identifier(n: Seq<Node>, i: int)
    requires
        well_formed(n),
        0 <= i < n.len(),
    ensures
        identifiers(n, i).len() > 0 ==> first_identifier_in(n, i, identifiers(n, i)[0] as int),
        forall|j: int| #[trigger]
            first_identifier_in(n, i, j) ==> identifiers(n, i).len() > 0 && identifiers(n, i)[0]
                == j,
{
    let p = crate::tree::every(KindSet::Identifiers);
    let s = identifiers(n, i);
    let hi = n[i].end as int;
    lemma_reported(n, i, p, hi);
    if s.len() > 0 {
        assert forall|a: int| i <= a < s[0] implies !KindSet::Identifiers.holds(
            (#[trigger] n[a]).kind,
        ) by {
            if KindSet::Identifiers.holds(n[a].kind) {
                let k = crate::tree_laws::lemma_is_reported(n, i, KindSet::Identifiers, hi, a);
                if k > 0 {
                    assert(s[0] < s[k]);
                }
            }
        }
    }
    assert forall|j: int| #[trigger] first_identifier_in(n, i, j) implies s.len() > 0 && s[0]
        == j by {
        let k = crate::tree_laws::lemma_is_reported(n, i, KindSet::Identifiers, hi, j);
        if k > 0 {
            assert(s[0] < s[k]);
            assert(KindSet::Identifiers.holds(n[s[0] as int].kind));
        }
    }
}

/// Whether a query refers, in its own scope, to a relation that is not in its
/// scope.
pub open spec fn reaches_out(n: Seq<Node>, query: int) -> bool {
    exists|c: int|
        n[c].kind is ColumnReference && #[trigger] own_scope(n, query, c) && (column_qualifier(n, c)
            matches Some(q) && !known_in(n, query, upper(q)))
}

proof fn lemma_reaches_out(n: Seq<Node>, query: int)
    requires
        well_formed(n),
        0 <= query < n.len(),
    ensures
        is_correlated(n, query) <==> reaches_out(n, query),
{
    let set = KindSet::Only(Kind::ColumnReference);
    let p = scope_probe(set);
    let s = own_level(n, query, set);
    let hi = n[query].end as int;
    lemma_reported(n, query, p, hi);
    if is_correlated(n, query) {
        let k = choose|k: int| 0 <= k < s.len() && refers_out(n, query, #[trigger] s[k] as int);
        let c = s[k] as int;
        lemma_scope(n, query, set, c);
        lemma_known(n, query, upper(column_qualifier(n, c)->0));
        assert(own_scope(n, query, c));
    }
    if reaches_out(n, query) {
        let c = choose|c: int|
            n[c].kind is ColumnReference && #[trigger] own_scope(n, query, c) && (column_qualifier(
                n,
                c,
            ) matches Some(q) && !known_in(n, query, upper(q)));
        lemma_scope(n, query, set, c);
        lemma_known(n, query, upper(column_qualifier(n, c)->0));
        let k = lemma_is_crawled(n, query, p, hi, c);
        assert(refers_out(n, query, s[k] as int));
    }
}

// ── subqueries ─────────────────────────────────────────────────────────

/// A subquery is a query block in another one; its depth is how many others it
/// lies in; and it is correlated where it reaches out of its scope.
pub proof fn subqueries_lie_in_queries(n: Seq<Node>, root: int, r: SubqueryFacts)
    requires
        well_formed(n),
        0 <= root < n.len(),
        describes_subqueries(n, root, r),
    ensures
        r.count == nodes_in(
            n,
            root,
            |j: int| n[j].kind is SelectStatement && level(n, root, query_block(n), j) >= 2,
        ),
        r.max_depth == highest_in(
            n,
            root,
            |j: int|
                if n[j].kind is SelectStatement {
                    level(n, root, query_block(n), j) - 1
                } else {
                    0
                },
        ),
        r.correlated_count == nodes_in(
            n,
            root,
            |j: int|
                n[j].kind is SelectStatement && level(n, root, query_block(n), j) >= 2
                    && reaches_out(n, j),
        ),
{
    let set = KindSet::Only(Kind::SelectStatement);
    let end = n[root].end as int;
    lemma_nesting_of_kind(n, root, Kind::SelectStatement, query_block(n));
    let c = |j: int| n[j].kind is SelectStatement && level(n, root, query_block(n), j) >= 2;
    assert forall|j: int| root <= j < end implies #[trigger] c(j) == (set.holds(n[j].kind)
        && nested_select(n, root)(j as usize)) by {
        assert(select_depth(n, root)(j as usize) == level(n, root, query_block(n), j));
    }
    lemma_counted(n, root, set, nested_select(n, root), c);
    let d = |j: int|
        if n[j].kind is SelectStatement {
            level(n, root, query_block(n), j) - 1
        } else {
            0
        };
    assert forall|j: int| root <= j < end implies #[trigger] d(j) == if set.holds(n[j].kind) {
        subquery_depth(n, root)(j as usize)
    } else {
        0
    } by {
        assert(select_depth(n, root)(j as usize) == level(n, root, query_block(n), j));
    }
    lemma_highest(n, root, set, subquery_depth(n, root), d);
    let o = |j: int|
        n[j].kind is SelectStatement && level(n, root, query_block(n), j) >= 2 && reaches_out(n, j);
    assert forall|j: int| root <= j < end implies #[trigger] o(j) == (set.holds(n[j].kind)
        && correlated_subquery(n, root)(j as usize)) by {
        assert(select_depth(n, root)(j as usize) == level(n, root, query_block(n), j));
        lemma_reaches_out(n, j);
    }
    lemma_counted(n, root, set, correlated_subquery(n, root), o);
}

/// The outermost query blocks below a node.
pub open spec fn outermost_queries(n: Seq<Node>, i: int) -> int {
    nodes_in(
        n,
        i,
        |q: int|
            n[q].kind is SelectStatement && i < q && forall|a: int|
                i < a < q && q < (#[trigger] n[a]).end ==> !(n[a].kind is SelectStatement),
    )
}

/// A subquery is in an `EXISTS` or an `IN` by the keyword before its bracket, a
/// derived table where it is below an element of `FROM`, and a value where it is
/// the outermost query of a selected element.
pub proof fn subqueries_go_by_their_place(n: Seq<Node>, root: int, r: SubqueryFacts)
    requires
        well_formed(n),
        0 <= root < n.len(),
        describes_subqueries(n, root, r),
    ensures
        r.exists_count == total_in(
            n,
            root,
            |i: int|
                places_at(
                    n,
                    i,
                    |code: Seq<usize>, k: int|
                        word_stands(n, code, k, Word::Exists) && query_stands(n, code, k + 1),
                ),
        ),
        r.in_count == total_in(
            n,
            root,
            |i: int|
                places_at(
                    n,
                    i,
                    |code: Seq<usize>, k: int|
                        word_stands(n, code, k, Word::In) && query_stands(n, code, k + 1),
                ),
        ),
        r.derived_table_count == nodes_in(
            n,
            root,
            |j: int|
                n[j].kind is FromExpressionElement && exists|q: int|
                    j < q < n[j].end && ((#[trigger] n[q]).kind is SelectStatement
                        || n[q].kind is SetExpression),
        ),
        r.scalar_count == total_in(
            n,
            root,
            |j: int|
                if n[j].kind is SelectClauseElement {
                    outermost_queries(n, j)
                } else {
                    0
                },
        ),
{
    let end = n[root].end as int;
    lemma_keyword_queries(n, root, Word::Exists);
    lemma_keyword_queries(n, root, Word::In);
    let from = KindSet::Only(Kind::FromExpressionElement);
    let t = |j: int|
        n[j].kind is FromExpressionElement && exists|q: int|
            j < q < n[j].end && ((#[trigger] n[q]).kind is SelectStatement
                || n[q].kind is SetExpression);
    assert forall|j: int| root <= j < end implies #[trigger] t(j) == (from.holds(n[j].kind)
        && derived_table(n)(j as usize)) by {
        lemma_below(n, j, KindSet::Selectables);
    }
    lemma_counted(n, root, from, derived_table(n), t);
    let elem = KindSet::Only(Kind::SelectClauseElement);
    let v = |j: int|
        if n[j].kind is SelectClauseElement {
            outermost_queries(n, j)
        } else {
            0
        };
    assert forall|j: int| root <= j < end implies #[trigger] v(j) == if elem.holds(n[j].kind) {
        scalar_queries(n)(j as usize)
    } else {
        0
    } by {
        lemma_outermost(n, j);
    }
    lemma_totalled(n, root, elem, scalar_queries(n), v);
}

spec fn shallow(set: KindSet) -> Probe {
    Probe { set, deep: false, stop: KindSet::Empty, own: false }
}

proof fn lemma_outermost(n: Seq<Node>, i: int)
    requires
        well_formed(n),
        0 <= i < n.len(),
    ensures
        queries_below(n, i, KindSet::Only(Kind::SelectStatement)).len() == outermost_queries(n, i),
{
    let p = shallow(KindSet::Only(Kind::SelectStatement));
    let q = |q: int|
        n[q].kind is SelectStatement && i < q && forall|a: int|
            i < a < q && q < (#[trigger] n[a]).end ==> !(n[a].kind is SelectStatement);
    assert forall|j: int| i <= j < n[i].end implies #[trigger] q(j) == reports(n, i, p, j) by {
        if reports(n, i, p, j) {
            assert forall|a: int| i < a < j && j < (#[trigger] n[a]).end implies !(
            n[a].kind is SelectStatement) by {
                assert(!closes(n, i, p, a));
            }
        }
        if q(j) {
            assert(open_to(n, i, p, j));
        }
    }
    lemma_crawled_all(n, i, p, q);
}

/// A shallow crawl finds something exactly where there is a node of the set
/// below.
proof fn lemma_below(n: Seq<Node>, i: int, set: KindSet)
    requires
        well_formed(n),
        0 <= i < n.len(),
        !set.holds(Kind::ObjectReference),
    ensures
        crawl(n, i, shallow(set)).len() > 0 <==> exists|q: int|
            i < q < n[i].end && set.holds((#[trigger] n[q]).kind),
{
    let p = shallow(set);
    let hi = n[i].end as int;
    lemma_reported(n, i, p, hi);
    let s = crawl(n, i, p);
    if s.len() > 0 {
        assert(reports(n, i, p, s[0] as int));
        assert(set.holds(n[s[0] as int].kind));
    }
    if exists|q: int| i < q < hi && set.holds((#[trigger] n[q]).kind) {
        let q = choose|q: int| i < q < hi && set.holds((#[trigger] n[q]).kind);
        let f = lemma_least(n, i, set, q);
        assert(open_to(n, i, p, f));
        let k = lemma_is_crawled(n, i, p, hi, f);
    }
}

proof fn lemma_least(n: Seq<Node>, i: int, set: KindSet, q: int) -> (f: int)
    requires
        i < q,
        set.holds(n[q].kind),
    ensures
        i < f <= q,
        set.holds(n[f].kind),
        forall|a: int| i < a < f ==> !set.holds((#[trigger] n[a]).kind),
    decreases q - i,
{
    if exists|a: int| i < a < q && set.holds((#[trigger] n[a]).kind) {
        let a = choose|a: int| i < a < q && set.holds((#[trigger] n[a]).kind);
        lemma_least(n, i, set, a)
    } else {
        q
    }
}

proof fn lemma_keyword_queries(n: Seq<Node>, root: int, w: Word)
    requires
        well_formed(n),
        0 <= root < n.len(),
    ensures
        query_tests_in(n, root, n[root].end as int, w) == total_in(
            n,
            root,
            |i: int|
                places_at(
                    n,
                    i,
                    |code: Seq<usize>, k: int|
                        word_stands(n, code, k, w) && query_stands(n, code, k + 1),
                ),
        ),
{
    let p = |code: Seq<usize>, k: int|
        word_stands(n, code, k, w) && query_stands(n, code, k + 1);
    let g = |i: int| places_at(n, i, p);
    assert forall|i: int, k: int|
        0 <= i < n.len() && 0 <= k < code_children(n, i).len() implies #[trigger] p(
        code_children(n, i),
        k,
    ) == tests_query(n, code_children(n, i), k, w) by {
        lemma_tests_query(n, i, k, w);
    }
    lemma_queries_in(n, root, n[root].end as int, w, p, g);
}

proof fn lemma_queries_in(
    n: Seq<Node>,
    root: int,
    hi: int,
    w: Word,
    p: spec_fn(Seq<usize>, int) -> bool,
    g: spec_fn(int) -> int,
)
    requires
        0 <= root,
        hi <= n.len(),
        forall|i: int, k: int|
            0 <= i < n.len() && 0 <= k < code_children(n, i).len() ==> #[trigger] p(
                code_children(n, i),
                k,
            ) == tests_query(n, code_children(n, i), k, w),
        forall|i: int| #[trigger] g(i) == places_at(n, i, p),
    ensures
        query_tests_in(n, root, hi, w) == total(root, hi, g),
    decreases hi - root,
{
    if hi > root {
        lemma_queries_in(n, root, hi - 1, w, p, g);
        let code = code_children(n, hi - 1);
        lemma_queries_at(n, hi - 1, code.len() as int, w, p, |k: int| p(code, k));
        assert(g(hi - 1) == places_at(n, hi - 1, p));
    }
}

proof fn lemma_queries_at(
    n: Seq<Node>,
    i: int,
    k: int,
    w: Word,
    p: spec_fn(Seq<usize>, int) -> bool,
    q: spec_fn(int) -> bool,
)
    requires
        0 <= i < n.len(),
        k <= code_children(n, i).len(),
        forall|k: int|
            0 <= k < code_children(n, i).len() ==> #[trigger] p(code_children(n, i), k)
                == tests_query(n, code_children(n, i), k, w),
        forall|k: int| #[trigger] q(k) == p(code_children(n, i), k),
    ensures
        query_tests_at(n, code_children(n, i), k, w) == number(0, k, q),
    decreases k,
{
    if k > 0 {
        lemma_queries_at(n, i, k - 1, w, p, q);
        assert(q(k - 1) == p(code_children(n, i), k - 1));
    }
}

// ── calls ──────────────────────────────────────────────────────────────

/// Whether a subtree calls a function of a name.
pub open spec fn called_in(n: Seq<Node>, root: int, name: Seq<char>) -> bool {
    exists|j: int| root <= j < n[root].end && n[j].kind is Function && #[trigger] calls(n, j, name)
}

/// Whether a set holds the names of the called functions.
pub open spec fn names_called(n: Seq<Node>, root: int, names: Set<Seq<char>>) -> bool {
    names.finite() && forall|name: Seq<char>| #[trigger]
        names.contains(name) <==> called_in(n, root, name)
}

/// Calls are counted one by one and by name; a cast is a cast expression or a
/// call of `CAST`; and how deep calls lie in each other is taken over the calls.
pub proof fn calls_are_counted(n: Seq<Node>, root: int, r: ExpressionFacts)
    requires
        well_formed(n),
        0 <= root < n.len(),
        describes_expressions(n, root, r),
    ensures
        r.function_call_count == nodes_in(n, root, |j: int| n[j].kind is Function),
        r.cast_count == nodes_in(n, root, |j: int| n[j].kind is CastExpression) + nodes_in(
            n,
            root,
            |j: int| n[j].kind is Function && calls(n, j, "CAST"@),
        ),
        r.max_function_nesting == highest_in(
            n,
            root,
            |j: int|
                if n[j].kind is Function {
                    nesting(n, j, |a: int| n[a].kind is Function)
                } else {
                    0
                },
        ),
        exists|names: Set<Seq<char>>| #[trigger]
            names_called(n, root, names) && names.len() == r.distinct_function_count,
{
    let end = n[root].end as int;
    let set = KindSet::Only(Kind::Function);
    lemma_listed(n, root, set, |j: int| n[j].kind is Function);
    lemma_listed(
        n,
        root,
        KindSet::Only(Kind::CastExpression),
        |j: int| n[j].kind is CastExpression,
    );
    let c = |j: int| n[j].kind is Function && calls(n, j, "CAST"@);
    assert forall|j: int| root <= j < end implies #[trigger] c(j) == (set.holds(n[j].kind)
        && cast_call(n)(j as usize)) by {
        lemma_called(n, j, "CAST"@);
    }
    lemma_counted(n, root, set, cast_call(n), c);
    let q = |a: int| n[a].kind is Function;
    let g = |j: int|
        if n[j].kind is Function {
            nesting(n, j, q)
        } else {
            0
        };
    assert forall|j: int| root <= j < end implies #[trigger] g(j) == if set.holds(n[j].kind) {
        call_depth(n)(j as usize)
    } else {
        0
    } by {
        lemma_nesting_of_kind(n, j, Kind::Function, q);
    }
    lemma_highest(n, root, set, call_depth(n), g);
    let s = crate::tree::all_in(n, root, set);
    lemma_reported(n, root, crate::tree::every(set), end);
    lemma_called_names(n, s);
    let names = called_names(n, s);
    assert forall|name: Seq<char>| #[trigger] names.contains(name) <==> called_in(
        n,
        root,
        name,
    ) by {
        if names.contains(name) {
            let k = choose|k: int| 0 <= k < s.len() && calls(n, #[trigger] s[k] as int, name);
            assert(n[s[k] as int].kind is Function);
            assert(calls(n, s[k] as int, name));
        }
        if called_in(n, root, name) {
            let j = choose|j: int|
                root <= j < end && n[j].kind is Function && #[trigger] calls(n, j, name);
            let k = crate::tree_laws::lemma_is_reported(n, root, set, end, j);
            assert(calls(n, s[k] as int, name));
        }
    }
    assert(names_called(n, root, names));
}

proof fn lemma_called_names(n: Seq<Node>, s: Seq<usize>)
    requires
        well_formed(n),
        forall|k: int| 0 <= k < s.len() ==> (#[trigger] s[k]) < n.len(),
    ensures
        called_names(n, s).finite(),
        forall|name: Seq<char>| #[trigger]
            called_names(n, s).contains(name) <==> exists|k: int|
                0 <= k < s.len() && calls(n, #[trigger] s[k] as int, name),
    decreases s.len(),
{
    if s.len() > 0 {
        let t = s.drop_last();
        assert forall|k: int| 0 <= k < t.len() implies (#[trigger] t[k]) < n.len() by {
            assert(t[k] == s[k]);
        }
        lemma_called_names(n, t);
        assert forall|name: Seq<char>| #[trigger]
            called_names(n, s).contains(name) <==> exists|k: int|
                0 <= k < s.len() && calls(n, #[trigger] s[k] as int, name) by {
            let last = s[s.len() - 1] as int;
            lemma_called(n, last, name);
            if called_names(n, s).contains(name) {
                if calls(n, last, name) {
                    assert(calls(n, s[s.len() - 1] as int, name));
                } else {
                    assert(called_names(n, t).contains(name));
                    let k = choose|k: int|
                        0 <= k < t.len() && calls(n, #[trigger] t[k] as int, name);
                    assert(calls(n, s[k] as int, name));
                }
            }
            if exists|k: int| 0 <= k < s.len() && calls(n, #[trigger] s[k] as int, name) {
                let k = choose|k: int| 0 <= k < s.len() && calls(n, #[trigger] s[k] as int, name);
                if k < t.len() {
                    assert(t[k] == s[k]);
                    assert(called_names(n, t).contains(name));
                }
            }
        }
    }
}

// ── outputs ────────────────────────────────────────────────────────────

/// Whether a selected element computes something.
pub open spec fn computes(n: Seq<Node>, j: int) -> bool {
    exists|q: int|
        j < q < n[j].end && ((#[trigger] n[q]).kind is Expression || n[q].kind is Function
            || n[q].kind is CaseExpression || n[q].kind is CastExpression)
}

/// Whether an alias stands in a selected element.
pub open spec fn is_named(n: Seq<Node>, j: int) -> bool {
    exists|q: int| j <= q < n[j].end && (#[trigger] n[q]).kind is AliasExpression
}

/// Wildcards are counted, and those in no subquery; the selected elements that
/// compute something are counted, with and without a name; and so are quoted
/// identifiers and the names given to relations.
pub proof fn outputs_are_counted(n: Seq<Node>, root: int, r: OutputFacts)
    requires
        well_formed(n),
        0 <= root < n.len(),
        describes_output(n, root, r),
    ensures
        r.star_count == nodes_in(n, root, |j: int| n[j].kind is WildcardExpression),
        r.outer_star_count == nodes_in(
            n,
            root,
            |j: int| n[j].kind is WildcardExpression && level(n, root, query_block(n), j) < 2,
        ),
        r.derived_expression_count == nodes_in(
            n,
            root,
            |j: int| n[j].kind is SelectClauseElement && computes(n, j),
        ),
        r.aliased_derived_expression_count == nodes_in(
            n,
            root,
            |j: int| n[j].kind is SelectClauseElement && computes(n, j) && is_named(n, j),
        ),
        r.expression_without_alias_count == nodes_in(
            n,
            root,
            |j: int| n[j].kind is SelectClauseElement && computes(n, j) && !is_named(n, j),
        ),
        r.quoted_identifier_count == nodes_in(n, root, |j: int| n[j].kind is QuotedIdentifier),
        r.table_alias_count == total_in(
            n,
            root,
            |j: int|
                if n[j].kind is FromExpressionElement {
                    nodes_in(n, j, |c: int| child_of(n, j, c) && n[c].kind is AliasExpression)
                } else {
                    0
                },
        ),
{
    let end = n[root].end as int;
    let star = KindSet::Only(Kind::WildcardExpression);
    let elem = KindSet::Only(Kind::SelectClauseElement);
    lemma_listed(n, root, star, |j: int| n[j].kind is WildcardExpression);
    lemma_listed(
        n,
        root,
        KindSet::Only(Kind::QuotedIdentifier),
        |j: int| n[j].kind is QuotedIdentifier,
    );
    lemma_nesting_of_kind(n, root, Kind::SelectStatement, query_block(n));
    let o = |j: int| n[j].kind is WildcardExpression && level(n, root, query_block(n), j) < 2;
    assert forall|j: int| root <= j < end implies #[trigger] o(j) == (star.holds(n[j].kind)
        && outer_star(n, root)(j as usize)) by {
        assert(select_depth(n, root)(j as usize) == level(n, root, query_block(n), j));
    }
    lemma_counted(n, root, star, outer_star(n, root), o);
    let d = |j: int| n[j].kind is SelectClauseElement && computes(n, j);
    let a = |j: int| n[j].kind is SelectClauseElement && computes(n, j) && is_named(n, j);
    let u = |j: int| n[j].kind is SelectClauseElement && computes(n, j) && !is_named(n, j);
    assert forall|j: int| root <= j < end implies #[trigger] d(j) == (elem.holds(n[j].kind)
        && derived(n)(j as usize)) by {
        lemma_output(n, j);
    }
    lemma_counted(n, root, elem, derived(n), d);
    assert forall|j: int| root <= j < end implies #[trigger] a(j) == (elem.holds(n[j].kind)
        && derived_aliased(n)(j as usize)) by {
        lemma_output(n, j);
    }
    lemma_counted(n, root, elem, derived_aliased(n), a);
    assert forall|j: int| root <= j < end implies #[trigger] u(j) == (elem.holds(n[j].kind)
        && derived_unaliased(n)(j as usize)) by {
        lemma_output(n, j);
    }
    lemma_counted(n, root, elem, derived_unaliased(n), u);
    let from = KindSet::Only(Kind::FromExpressionElement);
    let t = |j: int|
        if n[j].kind is FromExpressionElement {
            nodes_in(n, j, |c: int| child_of(n, j, c) && n[c].kind is AliasExpression)
        } else {
            0
        };
    assert forall|j: int| root <= j < end implies #[trigger] t(j) == if from.holds(n[j].kind) {
        table_aliases(n)(j as usize)
    } else {
        0
    } by {
        lemma_direct(n, j, Kind::AliasExpression);
        lemma_same_number(
            j,
            n[j].end as int,
            |c: int| child_of(n, j, c) && n[c].kind == Kind::AliasExpression,
            |c: int| child_of(n, j, c) && n[c].kind is AliasExpression,
        );
    }
    lemma_totalled(n, root, from, table_aliases(n), t);
}

proof fn lemma_output(n: Seq<Node>, j: int)
    requires
        well_formed(n),
        0 <= j < n.len(),
    ensures
        is_derived(n, j) <==> computes(n, j),
        has_alias(n, j) <==> is_named(n, j),
{
    lemma_below(n, j, KindSet::Computed);
    lemma_some_in(n, j, Kind::AliasExpression);
    if computes(n, j) {
        let q = choose|q: int|
            j < q < n[j].end && ((#[trigger] n[q]).kind is Expression || n[q].kind is Function
                || n[q].kind is CaseExpression || n[q].kind is CastExpression);
        assert(KindSet::Computed.holds(n[q].kind));
    }
}

/// How many columns a query refers to in its own scope.
pub open spec fn columns_in_scope(n: Seq<Node>, s: int) -> int {
    nodes_in(n, s, |c: int| n[c].kind is ColumnReference && own_scope(n, s, c))
}

/// How many columns without a relation a query refers to in its own scope.
pub open spec fn bare_columns_in_scope(n: Seq<Node>, s: int) -> int {
    nodes_in(
        n,
        s,
        |c: int|
            n[c].kind is ColumnReference && own_scope(n, s, c) && column_qualifier(n, c) is None,
    )
}

/// How many relations a query reads in its own scope.
pub open spec fn relations_in_scope(n: Seq<Node>, s: int) -> int {
    nodes_in(n, s, |e: int| n[e].kind is FromExpressionElement && own_scope(n, s, e))
}

proof fn lemma_columns(n: Seq<Node>, s: int)
    requires
        well_formed(n),
        0 <= s < n.len(),
    ensures
        own_columns(n, s).len() == columns_in_scope(n, s),
        crate::tree::count(own_columns(n, s), unqualified(n)) == bare_columns_in_scope(n, s),
        joins_relations(n, s) <==> relations_in_scope(n, s) >= 2,
{
    let cols = KindSet::Only(Kind::ColumnReference);
    let from = KindSet::Only(Kind::FromExpressionElement);
    let c = |c: int| n[c].kind is ColumnReference && own_scope(n, s, c);
    assert forall|j: int| s <= j < n[s].end implies #[trigger] c(j) == reports(
        n,
        s,
        scope_probe(cols),
        j,
    ) by {
        lemma_scope(n, s, cols, j);
    }
    lemma_crawled_all(n, s, scope_probe(cols), c);
    let b = |c: int|
        n[c].kind is ColumnReference && own_scope(n, s, c) && column_qualifier(n, c) is None;
    assert forall|j: int| s <= j < n[s].end implies #[trigger] b(j) == (reports(
        n,
        s,
        scope_probe(cols),
        j,
    ) && unqualified(n)(j as usize)) by {
        lemma_scope(n, s, cols, j);
    }
    lemma_crawled(n, s, scope_probe(cols), unqualified(n), b);
    let e = |e: int| n[e].kind is FromExpressionElement && own_scope(n, s, e);
    assert forall|j: int| s <= j < n[s].end implies #[trigger] e(j) == reports(
        n,
        s,
        scope_probe(from),
        j,
    ) by {
        lemma_scope(n, s, from, j);
    }
    lemma_crawled_all(n, s, scope_probe(from), e);
}

/// The columns of every query are counted in its own scope, with and without a
/// relation before them; and once more of those queries alone that read more
/// than one relation.
pub proof fn columns_are_counted(n: Seq<Node>, root: int, r: OutputFacts)
    requires
        well_formed(n),
        0 <= root < n.len(),
        describes_output(n, root, r),
    ensures
        r.total_column_refs == total_in(
            n,
            root,
            |s: int|
                if n[s].kind is SelectStatement {
                    columns_in_scope(n, s)
                } else {
                    0
                },
        ),
        r.unqualified_column_refs == total_in(
            n,
            root,
            |s: int|
                if n[s].kind is SelectStatement {
                    bare_columns_in_scope(n, s)
                } else {
                    0
                },
        ),
        r.multi_relation_column_refs == total_in(
            n,
            root,
            |s: int|
                if n[s].kind is SelectStatement && relations_in_scope(n, s) >= 2 {
                    columns_in_scope(n, s)
                } else {
                    0
                },
        ),
        r.multi_relation_unqualified_refs == total_in(
            n,
            root,
            |s: int|
                if n[s].kind is SelectStatement && relations_in_scope(n, s) >= 2 {
                    bare_columns_in_scope(n, s)
                } else {
                    0
                },
        ),
{
    let set = KindSet::Only(Kind::SelectStatement);
    let end = n[root].end as int;
    let c = |s: int|
        if n[s].kind is SelectStatement {
            columns_in_scope(n, s)
        } else {
            0
        };
    assert forall|s: int| root <= s < end implies #[trigger] c(s) == if set.holds(n[s].kind) {
        columns_of(n)(s as usize)
    } else {
        0
    } by {
        lemma_columns(n, s);
    }
    lemma_totalled(n, root, set, columns_of(n), c);
    let b = |s: int|
        if n[s].kind is SelectStatement {
            bare_columns_in_scope(n, s)
        } else {
            0
        };
    assert forall|s: int| root <= s < end implies #[trigger] b(s) == if set.holds(n[s].kind) {
        unqualified_of(n)(s as usize)
    } else {
        0
    } by {
        lemma_columns(n, s);
    }
    lemma_totalled(n, root, set, unqualified_of(n), b);
    let m = |s: int|
        if n[s].kind is SelectStatement && relations_in_scope(n, s) >= 2 {
            columns_in_scope(n, s)
        } else {
            0
        };
    assert forall|s: int| root <= s < end implies #[trigger] m(s) == if set.holds(n[s].kind) {
        multi_columns_of(n)(s as usize)
    } else {
        0
    } by {
        lemma_columns(n, s);
    }
    lemma_totalled(n, root, set, multi_columns_of(n), m);
    let u = |s: int|
        if n[s].kind is SelectStatement && relations_in_scope(n, s) >= 2 {
            bare_columns_in_scope(n, s)
        } else {
            0
        };
    assert forall|s: int| root <= s < end implies #[trigger] u(s) == if set.holds(n[s].kind) {
        multi_unqualified_of(n)(s as usize)
    } else {
        0
    } by {
        lemma_columns(n, s);
    }
    lemma_totalled(n, root, set, multi_unqualified_of(n), u);
}

// ── names ──────────────────────────────────────────────────────────────

/// Whether the node at `j` is an identifier of a subtree with so many others
/// after it.
pub open spec fn identifier_before(n: Seq<Node>, i: int, j: int, others: int) -> bool {
    &&& i <= j < n[i].end
    &&& KindSet::Identifiers.holds(n[j].kind)
    &&& number(j + 1, n[i].end as int, |a: int| KindSet::Identifiers.holds(n[a].kind)) == others
}

/// A column is qualified by the identifier before its own where a dot is in it;
/// and a reference is called by its last identifier, or by all of its text where
/// it has none. Quotes do not count.
pub proof fn names_come_from_identifiers(n: Seq<Node>, i: int, j: int)
    requires
        well_formed(n),
        0 <= i < n.len(),
    ensures
        identifier_before(n, i, j, 1) && n[i].raw.contains('.') ==> column_qualifier(n, i) == Some(
            normalized(n[j].raw),
        ),
        column_qualifier(n, i) is Some ==> n[i].raw.contains('.') && exists|j: int|
            identifier_before(n, i, j, 1),
        identifier_before(n, i, j, 0) ==> last_identifier(n, i) == normalized(n[j].raw),
        (forall|j: int| !identifier_before(n, i, j, 0)) ==> last_identifier(n, i) == normalized(
            n[i].raw,
        ),
{
    let set = KindSet::Identifiers;
    let p = crate::tree::every(set);
    let q = |a: int| KindSet::Identifiers.holds(n[a].kind);
    let hi = n[i].end as int;
    let s = identifiers(n, i);
    lemma_listed(n, i, set, q);
    lemma_reported(n, i, p, hi);
    if s.len() >= 1 {
        lemma_after(n, i, hi, s.len() - 1, q);
        assert(identifier_before(n, i, s[s.len() - 1] as int, 0));
    }
    if s.len() >= 2 {
        lemma_after(n, i, hi, s.len() - 2, q);
        assert(identifier_before(n, i, s[s.len() - 2] as int, 1));
    }
    if identifier_before(n, i, j, 0) || identifier_before(n, i, j, 1) {
        let k = crate::tree_laws::lemma_is_reported(n, i, set, hi, j);
        lemma_after(n, i, hi, k, q);
    }
}

proof fn lemma_after(n: Seq<Node>, i: int, hi: int, k: int, q: spec_fn(int) -> bool)
    requires
        well_formed(n),
        0 <= i < hi <= n.len(),
        forall|a: int| #[trigger] q(a) == KindSet::Identifiers.holds(n[a].kind),
        0 <= k < reported(n, i, crate::tree::every(KindSet::Identifiers), hi).len(),
    ensures
        ({
            let s = reported(n, i, crate::tree::every(KindSet::Identifiers), hi);
            number(s[k] + 1, hi, q) == s.len() - 1 - k
        }),
    decreases hi - i,
{
    let p = crate::tree::every(KindSet::Identifiers);
    let s = reported(n, i, p, hi);
    let t = reported(n, i, p, hi - 1);
    lemma_reported(n, i, p, hi - 1);
    assert(reports(n, i, p, hi - 1) == KindSet::Identifiers.holds(n[hi - 1].kind));
    assert(q(hi - 1) == KindSet::Identifiers.holds(n[hi - 1].kind));
    if k < t.len() {
        assert(s[k] == t[k]);
        lemma_after(n, i, hi - 1, k, q);
    } else {
        assert(s[k] == hi - 1);
    }
}

/// The quotes around a name are no part of it, whichever they are.
pub proof fn quotes_do_not_name(name: Seq<char>)
    ensures
        normalized(seq!['"'] + name + seq!['"']) == name,
        normalized(seq!['`'] + name + seq!['`']) == name,
        normalized(seq!['['] + name + seq![']']) == name,
{
    lemma_unquoted('"', name, '"');
    lemma_unquoted('`', name, '`');
    lemma_unquoted('[', name, ']');
}

proof fn lemma_unquoted(a: char, name: Seq<char>, b: char)
    requires
        a == '"' && b == '"' || a == '`' && b == '`' || a == '[' && b == ']',
    ensures
        normalized(seq![a] + name + seq![b]) == name,
{
    let t = seq![a] + name + seq![b];
    assert(t[0] == a && t.last() == b);
    assert(crate::text::trim_start(t) == t);
    assert(crate::text::trim_end(t) == t);
    assert(t.subrange(1, t.len() - 1) =~= name);
}

} // verus!
