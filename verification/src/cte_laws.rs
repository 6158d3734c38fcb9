//! What is counted of common table expressions, node by node.

use vstd::prelude::*;

use crate::clause_laws::calls_aggregate;
use crate::clauses::aggregate_call;
use crate::ctes::{
    block_count, block_depth, block_edges, block_fan_out, block_names, block_probe, block_recursive,
    block_trivial, block_unused, cte_dependencies, cte_name, ctes_of, defines, depends_on, deps_by,
    describes_ctes, edges_from, fan_out, first_identifier, is_dependency, name_used, named_and_used,
    redefined, ref_name, refers_to_itself, refs_in, shadowed, shadows, trivial, unused, used_at,
    uses, withs_below, withs_in, CteFacts,
};
use crate::kind::{Kind, KindSet};
use crate::order::{ascending, lemma_with_text};
use crate::output_laws::lemma_is_crawled;
use crate::text::upper;
use crate::tree::{
    children, closes, every, lemma_crawl, lemma_reported, open_to, reports, siblings, well_formed,
    Node, Probe,
};
use crate::tree_laws::{
    highest_in, lemma_counted, lemma_crawled, lemma_crawl_measured, lemma_crawled_all, lemma_highest, lemma_is_reported,
    lemma_listed, lemma_totalled, nodes_in, total_in,
};

verus! {

// ── the expressions of a block ─────────────────────────────────────────

/// Whether a node is an expression of a `WITH` block, and of none inside of it.
pub open spec fn own_expression(n: Seq<Node>, w: int, c: int) -> bool {
    &&& w < c < n[w].end
    &&& n[c].kind is CommonTableExpression
    &&& forall|a: int|
        w < a < c && c < (#[trigger] n[a]).end ==> !(n[a].kind is WithCompoundStatement)
}

proof fn lemma_own(n: Seq<Node>, w: int, c: int)
    requires
        well_formed(n),
        0 <= w < n.len(),
        w <= c < n[w].end,
    ensures
        reports(n, w, block_probe(KindSet::Only(Kind::CommonTableExpression)), c)
            <==> own_expression(n, w, c),
{
    let p = block_probe(KindSet::Only(Kind::CommonTableExpression));
    if reports(n, w, p, c) {
        assert forall|a: int| w < a < c && c < (#[trigger] n[a]).end implies !(
        n[a].kind is WithCompoundStatement) by {
            assert(!closes(n, w, p, a));
        }
    }
    if own_expression(n, w, c) {
        assert(open_to(n, w, p, c));
    }
}

proof fn lemma_own_listed(n: Seq<Node>, w: int)
    requires
        well_formed(n),
        0 <= w < n.len(),
    ensures
        forall|k: int|
            0 <= k < ctes_of(n, w).len() ==> own_expression(n, w, #[trigger] ctes_of(n, w)[k] as int),
        forall|c: int| #[trigger]
            own_expression(n, w, c) ==> exists|k: int|
                0 <= k < ctes_of(n, w).len() && #[trigger] ctes_of(n, w)[k] == c,
{
    let p = block_probe(KindSet::Only(Kind::CommonTableExpression));
    let hi = n[w].end as int;
    let s = ctes_of(n, w);
    lemma_reported(n, w, p, hi);
    assert forall|k: int| 0 <= k < s.len() implies own_expression(n, w, #[trigger] s[k] as int) by {
        assert(reports(n, w, p, s[k] as int));
        lemma_own(n, w, s[k] as int);
    }
    assert forall|c: int| #[trigger] own_expression(n, w, c) implies exists|k: int|
        0 <= k < s.len() && #[trigger] s[k] == c by {
        lemma_own(n, w, c);
        let k = lemma_is_crawled(n, w, p, hi, c);
        assert(s[k] == c);
    }
}

/// How many expressions of a block satisfy `p`.
pub open spec fn expressions_with(n: Seq<Node>, w: int, p: spec_fn(int) -> bool) -> int {
    nodes_in(n, w, |c: int| own_expression(n, w, c) && p(c))
}

proof fn lemma_expressions_with(
    n: Seq<Node>,
    w: int,
    f: spec_fn(usize) -> bool,
    p: spec_fn(int) -> bool,
)
    requires
        well_formed(n),
        0 <= w < n.len(),
        forall|c: int| own_expression(n, w, c) ==> #[trigger] p(c) == f(c as usize),
    ensures
        crate::tree::count(ctes_of(n, w), f) == expressions_with(n, w, p),
{
    let probe = block_probe(KindSet::Only(Kind::CommonTableExpression));
    let q = |c: int| own_expression(n, w, c) && p(c);
    assert forall|c: int| w <= c < n[w].end implies #[trigger] q(c) == (reports(n, w, probe, c)
        && f(c as usize)) by {
        lemma_own(n, w, c);
    }
    lemma_crawled(n, w, probe, f, q);
}

// ── names ──────────────────────────────────────────────────────────────

/// Whether the child at `k` is the first identifier among the children of a node.
pub open spec fn first_named_child(n: Seq<Node>, c: int, k: int) -> bool {
    let kids = children(n, c);
    &&& 0 <= k < kids.len()
    &&& KindSet::Identifiers.holds(n[kids[k] as int].kind)
    &&& forall|j: int|
        0 <= j < k ==> !KindSet::Identifiers.holds(n[#[trigger] kids[j] as int].kind)
}

/// An expression is called by the first identifier among its children, whatever
/// the case.
pub proof fn expressions_are_named(n: Seq<Node>, c: int, k: int)
    requires
        well_formed(n),
        0 <= c < n.len(),
        first_named_child(n, c, k),
    ensures
        cte_name(n, c) == upper(n[children(n, c)[k] as int].raw),
{
    lemma_first_named(n, c + 1, n[c].end as int, k);
}

proof fn lemma_first_named(n: Seq<Node>, c: int, hi: int, k: int)
    requires
        well_formed(n),
        0 <= c,
        hi <= n.len(),
        0 <= k < siblings(n, c, hi).len(),
        KindSet::Identifiers.holds(n[siblings(n, c, hi)[k] as int].kind),
        forall|j: int|
            0 <= j < k ==> !KindSet::Identifiers.holds(
                n[#[trigger] siblings(n, c, hi)[j] as int].kind,
            ),
    ensures
        first_identifier(n, c, hi) == n[siblings(n, c, hi)[k] as int].raw,
    decreases hi - c,
{
    let s = siblings(n, c, hi);
    if k > 0 {
        let d = n[c].end as int;
        let t = siblings(n, d, hi);
        assert(s[0] == c);
        assert forall|j: int| 0 <= j < t.len() implies t[j] == #[trigger] s[j + 1] by {}
        assert(t[k - 1] == s[k]);
        assert forall|j: int| 0 <= j < k - 1 implies !KindSet::Identifiers.holds(
            n[#[trigger] t[j] as int].kind,
        ) by {
            assert(t[j] == s[j + 1]);
        }
        lemma_first_named(n, d, hi, k - 1);
    }
}

/// Whether a `WITH` block that holds a reference defines its name itself, between
/// an outer node and the reference.
pub open spec fn hidden_from(n: Seq<Node>, outer: int, r: int) -> bool {
    exists|v: int|
        outer <= v <= r && r < (#[trigger] n[v]).end && n[v].kind is WithCompoundStatement && defines(
            n,
            v,
            upper(n[r].raw),
        )
}

/// A name is hidden where a block around the reference defines it.
pub proof fn lemma_hidden(n: Seq<Node>, cte: int, r: int)
    requires
        well_formed(n),
        0 <= cte < n.len(),
        cte <= r < n[cte].end,
    ensures
        shadowed(n, cte, r) <==> hidden_from(n, cte, r),
{
    let set = KindSet::Only(Kind::WithCompoundStatement);
    let s = withs_in(n, cte);
    let hi = n[cte].end as int;
    lemma_crawl(n, cte, every(set));
    if shadowed(n, cte, r) {
        let k = choose|k: int| 0 <= k < s.len() && shadows(n, #[trigger] s[k] as int, r);
        assert(n[s[k] as int].kind is WithCompoundStatement);
    }
    if hidden_from(n, cte, r) {
        let v = choose|v: int|
            cte <= v <= r && r < (#[trigger] n[v]).end && n[v].kind is WithCompoundStatement
                && defines(n, v, upper(n[r].raw));
        let k = lemma_is_reported(n, cte, set, hi, v);
        assert(shadows(n, s[k] as int, r));
    }
}

/// Whether an expression depends on a name: one that its block defines and that
/// a reference in it has, unless a block inside of it hides the name.
pub open spec fn depends(n: Seq<Node>, w: int, cte: int, name: Seq<char>) -> bool {
    &&& exists|c: int| #[trigger] own_expression(n, w, c) && cte_name(n, c) == name
    &&& exists|r: int|
        cte <= r < n[cte].end && KindSet::TableReferences.holds((#[trigger] n[r]).kind) && upper(
            n[r].raw,
        ) == name && !hidden_from(n, cte, r)
}

proof fn lemma_block_names(n: Seq<Node>, w: int, name: Seq<char>)
    requires
        well_formed(n),
        0 <= w < n.len(),
    ensures
        block_names(n, w).contains(name) <==> exists|c: int| #[trigger]
            own_expression(n, w, c) && cte_name(n, c) == name,
{
    lemma_own_listed(n, w);
    let s = ctes_of(n, w);
    let names = block_names(n, w);
    if names.contains(name) {
        let k = choose|k: int| 0 <= k < names.len() && names[k] == name;
        assert(own_expression(n, w, s[k] as int));
    }
    if exists|c: int| #[trigger] own_expression(n, w, c) && cte_name(n, c) == name {
        let c = choose|c: int| #[trigger] own_expression(n, w, c) && cte_name(n, c) == name;
        let k = choose|k: int| 0 <= k < s.len() && #[trigger] s[k] == c;
        assert(names[k] == name);
    }
}

proof fn lemma_deps(n: Seq<Node>, w: int, cte: int, k: int, name: Seq<char>)
    requires
        0 <= k <= refs_in(n, cte).len(),
    ensures
        ascending(deps_by(n, w, cte, k)),
        deps_by(n, w, cte, k).contains(name) <==> exists|j: int|
            0 <= j < k && is_dependency(n, w, cte, refs_in(n, cte)[j] as int) && ref_name(
                n,
                #[trigger] refs_in(n, cte)[j] as int,
            ) == name,
    decreases k,
{
    if k > 0 {
        lemma_deps(n, w, cte, k - 1, name);
        let before = deps_by(n, w, cte, k - 1);
        let x = ref_name(n, refs_in(n, cte)[k - 1] as int);
        lemma_with_text(before, x);
        assert(before.to_set().contains(name) == before.contains(name));
        let t = crate::order::with_text(before, x);
        assert(t.to_set().contains(name) == t.contains(name));
    }
}

/// An expression depends on the names that it reads and its block defines.
pub proof fn expressions_depend_on_what_they_read(n: Seq<Node>, w: int, cte: int, name: Seq<char>)
    requires
        well_formed(n),
        0 <= w < n.len(),
        0 <= cte < n.len(),
    ensures
        cte_dependencies(n, w, cte).contains(name) <==> depends(n, w, cte, name),
{
    let s = refs_in(n, cte);
    let set = KindSet::TableReferences;
    let hi = n[cte].end as int;
    lemma_deps(n, w, cte, s.len() as int, name);
    lemma_crawl(n, cte, every(set));
    lemma_block_names(n, w, name);
    if cte_dependencies(n, w, cte).contains(name) {
        let j = choose|j: int|
            0 <= j < s.len() && is_dependency(n, w, cte, s[j] as int) && ref_name(
                n,
                #[trigger] s[j] as int,
            ) == name;
        let r = s[j] as int;
        lemma_hidden(n, cte, r);
        assert(set.holds(n[r].kind));
    }
    if depends(n, w, cte, name) {
        let r = choose|r: int|
            cte <= r < n[cte].end && KindSet::TableReferences.holds((#[trigger] n[r]).kind)
                && upper(n[r].raw) == name && !hidden_from(n, cte, r);
        lemma_hidden(n, cte, r);
        let k = lemma_is_reported(n, cte, set, hi, r);
        assert(ref_name(n, s[k] as int) == name);
        assert(is_dependency(n, w, cte, s[k] as int));
    }
}

// ── uses ───────────────────────────────────────────────────────────────

/// Whether a block reads an expression from outside of it.
pub open spec fn read_in_block(n: Seq<Node>, w: int, cte: int) -> bool {
    exists|r: int|
        w <= r < n[w].end && KindSet::TableReferences.holds((#[trigger] n[r]).kind) && upper(
            n[r].raw,
        ) == cte_name(n, cte) && !(cte <= r < n[cte].end) && !hidden_from(n, w + 1, r)
}

proof fn lemma_redefined(n: Seq<Node>, w: int, r: int)
    requires
        well_formed(n),
        0 <= w < n.len(),
        w <= r < n[w].end,
    ensures
        redefined(n, w, r) <==> hidden_from(n, w + 1, r),
{
    let p = Probe {
        set: KindSet::Only(Kind::WithCompoundStatement),
        deep: true,
        stop: KindSet::Empty,
        own: false,
    };
    let s = withs_below(n, w);
    let hi = n[w].end as int;
    lemma_reported(n, w, p, hi);
    if redefined(n, w, r) {
        let k = choose|k: int| 0 <= k < s.len() && shadows(n, #[trigger] s[k] as int, r);
        assert(reports(n, w, p, s[k] as int));
        assert(n[s[k] as int].kind is WithCompoundStatement);
    }
    if hidden_from(n, w + 1, r) {
        let v = choose|v: int|
            w + 1 <= v <= r && r < (#[trigger] n[v]).end && n[v].kind is WithCompoundStatement
                && defines(n, v, upper(n[r].raw));
        assert(open_to(n, w, p, v));
        let k = lemma_is_crawled(n, w, p, hi, v);
        assert(shadows(n, s[k] as int, r));
    }
}

proof fn lemma_used(n: Seq<Node>, w: int, cte: int)
    requires
        well_formed(n),
        0 <= w < n.len(),
    ensures
        used_at(n, w, cte) <==> read_in_block(n, w, cte),
{
    let set = KindSet::TableReferences;
    let s = refs_in(n, w);
    let hi = n[w].end as int;
    lemma_crawl(n, w, every(set));
    if used_at(n, w, cte) {
        let k = choose|k: int| 0 <= k < s.len() && uses(n, w, cte, #[trigger] s[k] as int);
        lemma_redefined(n, w, s[k] as int);
        assert(set.holds(n[s[k] as int].kind));
    }
    if read_in_block(n, w, cte) {
        let r = choose|r: int|
            w <= r < n[w].end && KindSet::TableReferences.holds((#[trigger] n[r]).kind) && upper(
                n[r].raw,
            ) == cte_name(n, cte) && !(cte <= r < n[cte].end) && !hidden_from(n, w + 1, r);
        lemma_redefined(n, w, r);
        let k = lemma_is_reported(n, w, set, hi, r);
        assert(uses(n, w, cte, s[k] as int));
    }
}

/// Whether an expression of a block, or another of the same name, is read in it.
pub open spec fn is_read(n: Seq<Node>, w: int, cte: int) -> bool {
    exists|c: int| #[trigger]
        own_expression(n, w, c) && cte_name(n, c) == cte_name(n, cte) && read_in_block(n, w, c)
}

proof fn lemma_read(n: Seq<Node>, w: int, cte: int)
    requires
        well_formed(n),
        0 <= w < n.len(),
    ensures
        name_used(n, w, cte_name(n, cte)) <==> is_read(n, w, cte),
{
    let s = ctes_of(n, w);
    let name = cte_name(n, cte);
    lemma_own_listed(n, w);
    if name_used(n, w, name) {
        let k = choose|k: int|
            0 <= k < s.len() && named_and_used(n, w, #[trigger] s[k] as int, name);
        lemma_used(n, w, s[k] as int);
        assert(own_expression(n, w, s[k] as int));
    }
    if is_read(n, w, cte) {
        let c = choose|c: int| #[trigger]
            own_expression(n, w, c) && cte_name(n, c) == name && read_in_block(n, w, c);
        let k = choose|k: int| 0 <= k < s.len() && #[trigger] s[k] == c;
        lemma_used(n, w, c);
        assert(named_and_used(n, w, s[k] as int, name));
    }
}

/// Whether an expression only renames one relation: it reads one, once, and
/// neither filters, joins, groups, combines, decides, windows nor aggregates.
pub open spec fn only_renames(n: Seq<Node>, c: int) -> bool {
    &&& nodes_in(n, c, |r: int| KindSet::TableReferences.holds(n[r].kind)) == 1
    &&& forall|j: int|
        c <= j < n[c].end ==> !KindSet::Structure.holds((#[trigger] n[j]).kind)
    &&& forall|j: int|
        c <= j < n[c].end && (#[trigger] n[j]).kind is Function ==> !calls_aggregate(n, j)
}

proof fn lemma_renames(n: Seq<Node>, c: int)
    requires
        well_formed(n),
        0 <= c < n.len(),
    ensures
        trivial(n)(c as usize) <==> only_renames(n, c),
{
    let hi = n[c].end as int;
    lemma_listed(
        n,
        c,
        KindSet::TableReferences,
        |r: int| KindSet::TableReferences.holds(n[r].kind),
    );
    let st = |j: int| KindSet::Structure.holds(n[j].kind);
    lemma_listed(n, c, KindSet::Structure, st);
    crate::clause_laws::lemma_some(c, hi, st);
    let call = KindSet::Only(Kind::Function);
    let ag = |j: int| n[j].kind is Function && calls_aggregate(n, j);
    assert forall|j: int| c <= j < hi implies #[trigger] ag(j) == (call.holds(n[j].kind)
        && aggregate_call(n)(j as usize)) by {
        crate::clause_laws::lemma_named(n, j);
    }
    lemma_counted(n, c, call, aggregate_call(n), ag);
    crate::clause_laws::lemma_some(c, hi, ag);
    if trivial(n)(c as usize) {
        assert forall|j: int| c <= j < hi implies !KindSet::Structure.holds(
            (#[trigger] n[j]).kind,
        ) by {
            assert(!st(j));
        }
        assert forall|j: int|
            c <= j < hi && (#[trigger] n[j]).kind is Function implies !calls_aggregate(n, j) by {
            assert(!ag(j));
        }
    }
    if only_renames(n, c) {
        assert forall|j: int| c <= j < hi implies !#[trigger] st(j) by {
            assert(!KindSet::Structure.holds(n[j].kind));
        }
        assert forall|j: int| c <= j < hi implies !#[trigger] ag(j) by {
            if n[j].kind is Function {
                assert(!calls_aggregate(n, j));
            }
        }
    }
}

// ── the counts ─────────────────────────────────────────────────────────

/// The expressions of every `WITH` block are counted, and among them those that
/// only rename a relation, those that read themselves, and those that nothing in
/// the block reads.
pub proof fn expressions_are_counted(n: Seq<Node>, root: int, r: CteFacts)
    requires
        well_formed(n),
        0 <= root < n.len(),
        describes_ctes(n, root, r),
    ensures
        r.count == total_in(
            n,
            root,
            |w: int|
                if n[w].kind is WithCompoundStatement {
                    nodes_in(n, w, |c: int| own_expression(n, w, c))
                } else {
                    0
                },
        ),
        r.trivial_count == total_in(
            n,
            root,
            |w: int|
                if n[w].kind is WithCompoundStatement {
                    expressions_with(n, w, |c: int| only_renames(n, c))
                } else {
                    0
                },
        ),
        r.recursive_count == total_in(
            n,
            root,
            |w: int|
                if n[w].kind is WithCompoundStatement {
                    expressions_with(n, w, |c: int| depends(n, w, c, cte_name(n, c)))
                } else {
                    0
                },
        ),
        r.unused_count == total_in(
            n,
            root,
            |w: int|
                if n[w].kind is WithCompoundStatement {
                    expressions_with(n, w, |c: int| !is_read(n, w, c))
                } else {
                    0
                },
        ),
{
    let set = KindSet::Only(Kind::WithCompoundStatement);
    let end = n[root].end as int;
    let a = |w: int|
        if n[w].kind is WithCompoundStatement {
            nodes_in(n, w, |c: int| own_expression(n, w, c))
        } else {
            0
        };
    assert forall|w: int| root <= w < end implies #[trigger] a(w) == if set.holds(n[w].kind) {
        block_count(n)(w as usize)
    } else {
        0
    } by {
        let q = |c: int| own_expression(n, w, c);
        let p = block_probe(KindSet::Only(Kind::CommonTableExpression));
        assert forall|c: int| w <= c < n[w].end implies #[trigger] q(c) == reports(n, w, p, c) by {
            lemma_own(n, w, c);
        }
        lemma_crawled_all(n, w, p, q);
    }
    lemma_totalled(n, root, set, block_count(n), a);
    let b = |w: int|
        if n[w].kind is WithCompoundStatement {
            expressions_with(n, w, |c: int| only_renames(n, c))
        } else {
            0
        };
    assert forall|w: int| root <= w < end implies #[trigger] b(w) == if set.holds(n[w].kind) {
        block_trivial(n)(w as usize)
    } else {
        0
    } by {
        let p = |c: int| only_renames(n, c);
        assert forall|c: int| own_expression(n, w, c) implies #[trigger] p(c) == trivial(n)(
            c as usize,
        ) by {
            lemma_renames(n, c);
        }
        lemma_expressions_with(n, w, trivial(n), p);
    }
    lemma_totalled(n, root, set, block_trivial(n), b);
    let d = |w: int|
        if n[w].kind is WithCompoundStatement {
            expressions_with(n, w, |c: int| depends(n, w, c, cte_name(n, c)))
        } else {
            0
        };
    assert forall|w: int| root <= w < end implies #[trigger] d(w) == if set.holds(n[w].kind) {
        block_recursive(n)(w as usize)
    } else {
        0
    } by {
        let p = |c: int| depends(n, w, c, cte_name(n, c));
        assert forall|c: int| own_expression(n, w, c) implies #[trigger] p(c) == refers_to_itself(
            n,
            w,
        )(c as usize) by {
            expressions_depend_on_what_they_read(n, w, c, cte_name(n, c));
        }
        lemma_expressions_with(n, w, refers_to_itself(n, w), p);
    }
    lemma_totalled(n, root, set, block_recursive(n), d);
    let u = |w: int|
        if n[w].kind is WithCompoundStatement {
            expressions_with(n, w, |c: int| !is_read(n, w, c))
        } else {
            0
        };
    assert forall|w: int| root <= w < end implies #[trigger] u(w) == if set.holds(n[w].kind) {
        block_unused(n)(w as usize)
    } else {
        0
    } by {
        let p = |c: int| !is_read(n, w, c);
        assert forall|c: int| own_expression(n, w, c) implies #[trigger] p(c) == unused(n, w)(
            c as usize,
        ) by {
            lemma_read(n, w, c);
        }
        lemma_expressions_with(n, w, unused(n, w), p);
    }
    lemma_totalled(n, root, set, block_unused(n), u);
}

/// The fan-out of an expression is how many others of its block depend on it.
pub proof fn fan_out_counts_dependents(n: Seq<Node>, w: int, c: int)
    requires
        well_formed(n),
        0 <= w < n.len(),
        0 <= c < n.len(),
    ensures
        fan_out(n, w)(c as usize) == expressions_with(
            n,
            w,
            |d: int| cte_name(n, d) != cte_name(n, c) && depends(n, w, d, cte_name(n, c)),
        ),
{
    let name = cte_name(n, c);
    let p = |d: int| cte_name(n, d) != cte_name(n, c) && depends(n, w, d, cte_name(n, c));
    assert forall|d: int| own_expression(n, w, d) implies #[trigger] p(d) == depends_on(
        n,
        w,
        name,
    )(d as usize) by {
        expressions_depend_on_what_they_read(n, w, d, name);
    }
    lemma_expressions_with(n, w, depends_on(n, w, name), p);
}

/// The edges of an expression are the other names that it depends on, each once.
pub proof fn edges_are_distinct_names(n: Seq<Node>, w: int, c: int)
    requires
        well_formed(n),
        0 <= w < n.len(),
        0 <= c < n.len(),
    ensures
        exists|names: Set<Seq<char>>| #[trigger]
            other_names(n, w, c, names) && names.len() == edges_from(n, w)(c as usize),
{
    let s = cte_dependencies(n, w, c);
    let own = cte_name(n, c);
    lemma_deps(n, w, c, refs_in(n, c).len() as int, own);
    assert(s.no_duplicates()) by {
        assert forall|i: int, j: int| 0 <= i < s.len() && 0 <= j < s.len() && i != j implies s[i]
            != s[j] by {
            crate::order::lemma_less_irreflexive(s[i]);
            if i < j {
                assert(crate::order::text_less(s[i], s[j]));
            } else {
                assert(crate::order::text_less(s[j], s[i]));
            }
        }
    }
    s.unique_seq_to_set();
    let all = s.to_set();
    let names = all.remove(own);
    assert forall|x: Seq<char>| #[trigger] names.contains(x) <==> x != own && depends(
        n,
        w,
        c,
        x,
    ) by {
        expressions_depend_on_what_they_read(n, w, c, x);
        assert(all.contains(x) == s.contains(x));
    }
    assert(all.contains(own) == s.contains(own));
    assert(other_names(n, w, c, names));
}

/// The edges of all expressions are added up, and the most dependents of one are
/// kept; so is the longest chain of a block.
pub proof fn dependencies_are_measured(n: Seq<Node>, root: int, r: CteFacts)
    requires
        well_formed(n),
        0 <= root < n.len(),
        describes_ctes(n, root, r),
    ensures
        r.dependency_edges == total_in(
            n,
            root,
            |w: int|
                if n[w].kind is WithCompoundStatement {
                    total_in(
                        n,
                        w,
                        |c: int|
                            if own_expression(n, w, c) {
                                edges_from(n, w)(c as usize)
                            } else {
                                0
                            },
                    )
                } else {
                    0
                },
        ),
        r.max_fan_out == highest_in(
            n,
            root,
            |w: int|
                if n[w].kind is WithCompoundStatement {
                    highest_in(
                        n,
                        w,
                        |c: int|
                            if own_expression(n, w, c) {
                                fan_out(n, w)(c as usize)
                            } else {
                                0
                            },
                    )
                } else {
                    0
                },
        ),
        r.max_dependency_depth == highest_in(
            n,
            root,
            |w: int|
                if n[w].kind is WithCompoundStatement {
                    block_depth(n)(w as usize)
                } else {
                    0
                },
        ),
{
    let set = KindSet::Only(Kind::WithCompoundStatement);
    let end = n[root].end as int;
    let p = block_probe(KindSet::Only(Kind::CommonTableExpression));
    let e = |w: int|
        if n[w].kind is WithCompoundStatement {
            total_in(
                n,
                w,
                |c: int|
                    if own_expression(n, w, c) {
                        edges_from(n, w)(c as usize)
                    } else {
                        0
                    },
            )
        } else {
            0
        };
    assert forall|w: int| root <= w < end implies #[trigger] e(w) == if set.holds(n[w].kind) {
        block_edges(n)(w as usize)
    } else {
        0
    } by {
        let g = |c: int|
            if own_expression(n, w, c) {
                edges_from(n, w)(c as usize)
            } else {
                0
            };
        assert forall|c: int| w <= c < n[w].end implies #[trigger] g(c) == if reports(n, w, p, c) {
            edges_from(n, w)(c as usize)
        } else {
            0
        } by {
            lemma_own(n, w, c);
        }
        lemma_crawl_measured(n, w, p, n[w].end as int, edges_from(n, w), g);
    }
    lemma_totalled(n, root, set, block_edges(n), e);
    let o = |w: int|
        if n[w].kind is WithCompoundStatement {
            highest_in(
                n,
                w,
                |c: int|
                    if own_expression(n, w, c) {
                        fan_out(n, w)(c as usize)
                    } else {
                        0
                    },
            )
        } else {
            0
        };
    assert forall|w: int| root <= w < end implies #[trigger] o(w) == if set.holds(n[w].kind) {
        block_fan_out(n)(w as usize)
    } else {
        0
    } by {
        let g = |c: int|
            if own_expression(n, w, c) {
                fan_out(n, w)(c as usize)
            } else {
                0
            };
        assert forall|c: int| w <= c < n[w].end implies #[trigger] g(c) == if reports(n, w, p, c) {
            fan_out(n, w)(c as usize)
        } else {
            0
        } by {
            lemma_own(n, w, c);
        }
        lemma_crawl_measured(n, w, p, n[w].end as int, fan_out(n, w), g);
    }
    lemma_highest(n, root, set, block_fan_out(n), o);
    lemma_highest(
        n,
        root,
        set,
        block_depth(n),
        |w: int|
            if n[w].kind is WithCompoundStatement {
                block_depth(n)(w as usize)
            } else {
                0
            },
    );
}

/// Whether a set holds the names other than its own that an expression depends
/// on.
pub open spec fn other_names(n: Seq<Node>, w: int, c: int, names: Set<Seq<char>>) -> bool {
    names.finite() && forall|x: Seq<char>| #[trigger]
        names.contains(x) <==> x != cte_name(n, c) && depends(n, w, c, x)
}

} // verus!
