//! Common table expressions: the dependency graph of each `WITH` block.

use vstd::prelude::*;

use crate::chain::{closed_graph, graph_of, ints, longest, longest_chain};
use crate::clauses::{aggregate_call, extract_aggregates};
use crate::kind::{Kind, KindSet};
use crate::names::{holds_text, texts};
use crate::order::{add_ordered, ascending, lemma_with_text, with_text};
use crate::text::{same, to_upper, upper};
use crate::tree::{
    all_in, children, closes, count, crawl, every, lemma_count_step, lemma_crawl, lemma_peak_step,
    lemma_reported, lemma_siblings, lemma_sum_step, lemma_take_all, matched, open_to, peak,
    reported, reports, sum, well_formed, within, Node, Probe, Tree, MAX_NODES,
};

verus! {

/// Common table expressions.
#[derive(Clone, Copy, Debug, PartialEq, Eq, Structural)]
pub struct CteFacts {
    pub count: u64,
    /// Expressions that refer to themselves.
    pub recursive_count: u64,
    pub dependency_edges: u128,
    pub max_dependency_depth: u64,
    pub max_fan_out: u64,
    pub unused_count: u64,
    /// Expressions that only rename one relation.
    pub trivial_count: u64,
}

// ── names ──────────────────────────────────────────────────────────────

/// The text of the first identifier among the siblings from `c` on.
pub open spec fn first_identifier(n: Seq<Node>, c: int, hi: int) -> Seq<char>
    decreases hi - c,
{
    if 0 <= c < hi && c < n[c].end <= hi {
        if KindSet::Identifiers.holds(n[c].kind) {
            n[c].raw
        } else {
            first_identifier(n, n[c].end as int, hi)
        }
    } else {
        Seq::empty()
    }
}

/// The upper-cased name that a common table expression defines.
pub open spec fn cte_name(n: Seq<Node>, c: int) -> Seq<char> {
    upper(first_identifier(n, c + 1, n[c].end as int))
}

/// Whether a `WITH` block itself defines a name.
pub open spec fn defines(n: Seq<Node>, w: int, name: Seq<char>) -> bool {
    exists|k: int|
        0 <= k < children(n, w).len() && defines_at(n, #[trigger] children(n, w)[k] as int, name)
}

/// Whether a node is a common table expression with the given name.
pub open spec fn defines_at(n: Seq<Node>, c: int, name: Seq<char>) -> bool {
    n[c].kind == Kind::CommonTableExpression && cte_name(n, c) == name
}

/// The common table expressions of a `WITH` block, those of nested blocks
/// left out.
pub open spec fn ctes_of(n: Seq<Node>, w: int) -> Seq<usize> {
    crawl(n, w, block_probe(KindSet::Only(Kind::CommonTableExpression)))
}

/// A crawl of a `WITH` block that enters no nested block.
pub open spec fn block_probe(set: KindSet) -> Probe {
    Probe { set, deep: true, stop: KindSet::Only(Kind::WithCompoundStatement), own: false }
}

/// The upper-cased text of a reference.
pub open spec fn ref_name(n: Seq<Node>, r: int) -> Seq<char> {
    upper(n[r].raw)
}

/// The names that a `WITH` block defines, one for each of its expressions.
pub open spec fn block_names(n: Seq<Node>, w: int) -> Seq<Seq<char>> {
    Seq::new(ctes_of(n, w).len(), |k: int| cte_name(n, ctes_of(n, w)[k] as int))
}

// ── dependencies ───────────────────────────────────────────────────────

/// The `WITH` blocks of a subtree.
pub open spec fn withs_in(n: Seq<Node>, i: int) -> Seq<usize> {
    all_in(n, i, KindSet::Only(Kind::WithCompoundStatement))
}

/// The table references of a subtree.
pub open spec fn refs_in(n: Seq<Node>, i: int) -> Seq<usize> {
    all_in(n, i, KindSet::TableReferences)
}

/// Whether a `WITH` block inside an expression redefines the name of a
/// reference in it.
pub open spec fn shadowed(n: Seq<Node>, cte: int, r: int) -> bool {
    exists|k: int|
        0 <= k < withs_in(n, cte).len() && shadows(n, #[trigger] withs_in(n, cte)[k] as int, r)
}

/// Whether a `WITH` block holds a reference and defines its name.
pub open spec fn shadows(n: Seq<Node>, w: int, r: int) -> bool {
    within(n, w, r) && defines(n, w, ref_name(n, r))
}

/// Whether a reference in an expression is to an expression of the same block.
pub open spec fn is_dependency(n: Seq<Node>, w: int, cte: int, r: int) -> bool {
    block_names(n, w).contains(ref_name(n, r)) && !shadowed(n, cte, r)
}

/// The names that an expression depends on by its first `k` references, in
/// ascending order.
pub open spec fn deps_by(n: Seq<Node>, w: int, cte: int, k: int) -> Seq<Seq<char>>
    decreases k,
{
    if k <= 0 {
        Seq::empty()
    } else if is_dependency(n, w, cte, refs_in(n, cte)[k - 1] as int) {
        with_text(deps_by(n, w, cte, k - 1), ref_name(n, refs_in(n, cte)[k - 1] as int))
    } else {
        deps_by(n, w, cte, k - 1)
    }
}

/// The names that an expression depends on, in ascending order.
pub open spec fn cte_dependencies(n: Seq<Node>, w: int, cte: int) -> Seq<Seq<char>> {
    deps_by(n, w, cte, refs_in(n, cte).len() as int)
}

/// Whether an expression refers to itself.
pub open spec fn refers_to_itself(n: Seq<Node>, w: int) -> spec_fn(usize) -> bool {
    |c: usize| cte_dependencies(n, w, c as int).contains(cte_name(n, c as int))
}

/// The edges from an expression to others.
pub open spec fn edges_from(n: Seq<Node>, w: int) -> spec_fn(usize) -> int {
    |c: usize|
        cte_dependencies(n, w, c as int).len() - if cte_dependencies(n, w, c as int).contains(
            cte_name(n, c as int),
        ) {
            1int
        } else {
            0int
        }
}

/// The expressions that depend on a name other than their own.
pub open spec fn depends_on(n: Seq<Node>, w: int, name: Seq<char>) -> spec_fn(usize) -> bool {
    |c: usize| cte_name(n, c as int) != name && cte_dependencies(n, w, c as int).contains(name)
}

/// How many expressions depend on an expression.
pub open spec fn fan_out(n: Seq<Node>, w: int) -> spec_fn(usize) -> int {
    |c: usize| count(ctes_of(n, w), depends_on(n, w, cte_name(n, c as int)))
}

/// The `WITH` blocks inside a block.
pub open spec fn withs_below(n: Seq<Node>, w: int) -> Seq<usize> {
    crawl(
        n,
        w,
        Probe {
            set: KindSet::Only(Kind::WithCompoundStatement),
            deep: true,
            stop: KindSet::Empty,
            own: false,
        },
    )
}

/// Whether a `WITH` block inside a block redefines the name of a reference in
/// it.
pub open spec fn redefined(n: Seq<Node>, w: int, r: int) -> bool {
    exists|k: int|
        0 <= k < withs_below(n, w).len() && shadows(n, #[trigger] withs_below(n, w)[k] as int, r)
}

/// Whether the block refers to an expression from outside of it: in its main
/// query, in another expression, or in a block inside of these.
pub open spec fn used_at(n: Seq<Node>, w: int, cte: int) -> bool {
    exists|k: int|
        0 <= k < refs_in(n, w).len() && uses(n, w, cte, #[trigger] refs_in(n, w)[k] as int)
}

/// Whether a reference is to an expression and not inside of it.
pub open spec fn uses(n: Seq<Node>, w: int, cte: int, r: int) -> bool {
    ref_name(n, r) == cte_name(n, cte) && !within(n, cte, r) && !redefined(n, w, r)
}

/// Whether the block refers to a name.
pub open spec fn name_used(n: Seq<Node>, w: int, name: Seq<char>) -> bool {
    exists|k: int|
        0 <= k < ctes_of(n, w).len() && named_and_used(
            n,
            w,
            #[trigger] ctes_of(n, w)[k] as int,
            name,
        )
}

pub open spec fn named_and_used(n: Seq<Node>, w: int, cte: int, name: Seq<char>) -> bool {
    cte_name(n, cte) == name && used_at(n, w, cte)
}

pub open spec fn unused(n: Seq<Node>, w: int) -> spec_fn(usize) -> bool {
    |c: usize| !name_used(n, w, cte_name(n, c as int))
}

/// Whether an expression only renames one relation: no filter, no join, no
/// grouping and no aggregation.
pub open spec fn trivial(n: Seq<Node>) -> spec_fn(usize) -> bool {
    |c: usize|
        refs_in(n, c as int).len() == 1 && all_in(n, c as int, KindSet::Structure).len() == 0
            && count(all_in(n, c as int, KindSet::Only(Kind::Function)), aggregate_call(n)) == 0
}

// ── the graph ──────────────────────────────────────────────────────────

/// The first place of a name in a list.
pub open spec fn first_place(names: Seq<Seq<char>>, x: Seq<char>) -> int
    decreases names.len(),
{
    if names.len() == 0 || names[0] == x {
        0
    } else {
        1 + first_place(names.drop_first(), x)
    }
}

/// The places of the first `k` dependencies, the name itself left out.
pub open spec fn dep_places(
    names: Seq<Seq<char>>,
    own: Seq<char>,
    deps: Seq<Seq<char>>,
    k: int,
) -> Seq<int>
    decreases k,
{
    if k <= 0 {
        Seq::empty()
    } else if deps[k - 1] == own {
        dep_places(names, own, deps, k - 1)
    } else {
        dep_places(names, own, deps, k - 1).push(first_place(names, deps[k - 1]))
    }
}

/// The edges of a name over the first `k` expressions.
pub open spec fn name_edges(n: Seq<Node>, w: int, own: Seq<char>, k: int) -> Seq<int>
    decreases k,
{
    let names = block_names(n, w);
    if k <= 0 {
        Seq::empty()
    } else if names[k - 1] == own {
        let deps = cte_dependencies(n, w, ctes_of(n, w)[k - 1] as int);
        name_edges(n, w, own, k - 1) + dep_places(names, own, deps, deps.len() as int)
    } else {
        name_edges(n, w, own, k - 1)
    }
}

/// The dependency graph of a block.
pub open spec fn block_graph(n: Seq<Node>, w: int) -> Seq<Seq<int>> {
    let names = block_names(n, w);
    Seq::new(names.len(), |i: int| name_edges(n, w, names[i], names.len() as int))
}

/// Where each expression's name first occurs.
pub open spec fn block_roots(n: Seq<Node>, w: int) -> Seq<int> {
    let names = block_names(n, w);
    Seq::new(names.len(), |i: int| first_place(names, names[i]))
}

/// The longest dependency chain of a block.
pub open spec fn block_depth(n: Seq<Node>) -> spec_fn(usize) -> int {
    |w: usize|
        longest(
            block_graph(n, w as int),
            block_roots(n, w as int),
            block_names(n, w as int).len() as int,
        ).0
}

// ── per block ──────────────────────────────────────────────────────────

pub open spec fn block_count(n: Seq<Node>) -> spec_fn(usize) -> int {
    |w: usize| ctes_of(n, w as int).len() as int
}

pub open spec fn block_trivial(n: Seq<Node>) -> spec_fn(usize) -> int {
    |w: usize| count(ctes_of(n, w as int), trivial(n))
}

pub open spec fn block_recursive(n: Seq<Node>) -> spec_fn(usize) -> int {
    |w: usize| count(ctes_of(n, w as int), refers_to_itself(n, w as int))
}

pub open spec fn block_edges(n: Seq<Node>) -> spec_fn(usize) -> int {
    |w: usize| sum(ctes_of(n, w as int), edges_from(n, w as int))
}

pub open spec fn block_fan_out(n: Seq<Node>) -> spec_fn(usize) -> int {
    |w: usize| peak(ctes_of(n, w as int), fan_out(n, w as int))
}

pub open spec fn block_unused(n: Seq<Node>) -> spec_fn(usize) -> int {
    |w: usize| count(ctes_of(n, w as int), unused(n, w as int))
}

pub open spec fn measures_ctes(n: Seq<Node>, s: Seq<usize>, r: CteFacts) -> bool {
    &&& r.count == sum(s, block_count(n))
    &&& r.trivial_count == sum(s, block_trivial(n))
    &&& r.recursive_count == sum(s, block_recursive(n))
    &&& r.dependency_edges == sum(s, block_edges(n))
    &&& r.max_fan_out == peak(s, block_fan_out(n))
    &&& r.max_dependency_depth == peak(s, block_depth(n))
    &&& r.unused_count == sum(s, block_unused(n))
}

/// Whether common-table-expression facts are those of a subtree.
pub open spec fn describes_ctes(n: Seq<Node>, root: int, r: CteFacts) -> bool {
    measures_ctes(n, withs_in(n, root), r)
}

// ── execution ──────────────────────────────────────────────────────────

/// The upper-cased name that a common table expression defines.
pub fn defined_name(tree: &Tree, cte: usize) -> (r: Vec<char>)
    requires
        tree.wf(),
        tree.holds(cte),
    ensures
        r@ == cte_name(tree@, cte as int),
{
    let ghost n = tree@;
    let hi: usize = tree.end_at(cte);
    let mut c: usize = cte + 1;
    while c < hi
        invariant
            tree.wf(),
            n == tree@,
            cte < c <= hi,
            cte < n.len(),
            hi == n[cte as int].end,
            first_identifier(n, cte + 1, hi as int) == first_identifier(n, c as int, hi as int),
        decreases hi - c,
    {
        assert(n[c as int].end <= hi);
        if KindSet::Identifiers.has(tree.kind_at(c)) {
            return to_upper(tree.raw_at(c));
        }
        c = tree.end_at(c);
    }
    let none: Vec<char> = Vec::new();
    to_upper(&none)
}

/// Whether a `WITH` block itself defines a name.
pub fn defines_name(tree: &Tree, w: usize, name: &Vec<char>) -> (r: bool)
    requires
        tree.wf(),
        tree.holds(w),
    ensures
        r == defines(tree@, w as int, name@),
{
    let ghost n = tree@;
    let kids = tree.children(w);
    proof {
        lemma_siblings(n, w + 1, n[w as int].end as int);
    }
    let mut k: usize = 0;
    while k < kids.len()
        invariant
            tree.wf(),
            n == tree@,
            k <= kids@.len(),
            kids@ == children(n, w as int),
            forall|l: int| 0 <= l < kids@.len() ==> (#[trigger] kids@[l]) < n.len(),
            forall|l: int| 0 <= l < k ==> !defines_at(n, #[trigger] kids@[l] as int, name@),
        decreases kids@.len() - k,
    {
        let c: usize = kids[k];
        if tree.kind_at(c) == Kind::CommonTableExpression {
            let own = defined_name(tree, c);
            if same(&own, name) {
                assert(defines_at(n, children(n, w as int)[k as int] as int, name@));
                return true;
            }
        }
        k = k + 1;
    }
    false
}

/// Whether one of the listed `WITH` blocks holds a reference and defines its
/// name.
fn is_shadowed(tree: &Tree, withs: &Vec<usize>, r: usize, name: &Vec<char>) -> (b: bool)
    requires
        tree.wf(),
        tree.holds(r),
        name@ == ref_name(tree@, r as int),
        forall|l: int| 0 <= l < withs@.len() ==> (#[trigger] withs@[l]) < tree@.len(),
    ensures
        b == exists|k: int|
            0 <= k < withs@.len() && shadows(tree@, #[trigger] withs@[k] as int, r as int),
{
    let ghost n = tree@;
    let mut k: usize = 0;
    while k < withs.len()
        invariant
            tree.wf(),
            n == tree@,
            k <= withs@.len(),
            name@ == ref_name(n, r as int),
            forall|l: int| 0 <= l < withs@.len() ==> (#[trigger] withs@[l]) < n.len(),
            forall|l: int| 0 <= l < k ==> !shadows(n, #[trigger] withs@[l] as int, r as int),
        decreases withs@.len() - k,
    {
        let w: usize = withs[k];
        if w <= r && r < tree.end_at(w) && defines_name(tree, w, name) {
            assert(shadows(n, withs@[k as int] as int, r as int));
            return true;
        }
        k = k + 1;
    }
    false
}

/// The names that an expression depends on, in ascending order.
pub fn cte_body_dependencies(tree: &Tree, w: usize, cte: usize, names: &Vec<Vec<char>>) -> (r: Vec<
    Vec<char>,
>)
    requires
        tree.wf(),
        tree.holds(w),
        tree.holds(cte),
        texts(names@) == block_names(tree@, w as int),
    ensures
        texts(r@) == cte_dependencies(tree@, w as int, cte as int),
        ascending(texts(r@)),
        r@.len() <= MAX_NODES,
        forall|k: int| 0 <= k < r@.len() ==> texts(names@).contains(#[trigger] r@[k]@),
{
    let ghost n = tree@;
    let refs = tree.all_in(cte, KindSet::TableReferences);
    let withs = tree.all_in(cte, KindSet::Only(Kind::WithCompoundStatement));
    proof {
        lemma_crawl(n, cte as int, every(KindSet::TableReferences));
        lemma_crawl(n, cte as int, every(KindSet::Only(Kind::WithCompoundStatement)));
    }
    let mut out: Vec<Vec<char>> = Vec::new();
    let mut k: usize = 0;
    assert(texts(out@) =~= Seq::<Seq<char>>::empty());
    while k < refs.len()
        invariant
            tree.wf(),
            tree.holds(cte),
            n == tree@,
            k <= refs@.len() <= MAX_NODES,
            refs@ == refs_in(n, cte as int),
            withs@ == withs_in(n, cte as int),
            texts(names@) == block_names(n, w as int),
            forall|l: int| 0 <= l < refs@.len() ==> (#[trigger] refs@[l]) < n.len(),
            forall|l: int| 0 <= l < withs@.len() ==> (#[trigger] withs@[l]) < n.len(),
            texts(out@) == deps_by(n, w as int, cte as int, k as int),
            ascending(texts(out@)),
            out@.len() <= k,
            forall|l: int| 0 <= l < out@.len() ==> texts(names@).contains(#[trigger] out@[l]@),
        decreases refs@.len() - k,
    {
        let r: usize = refs[k];
        let name = to_upper(tree.raw_at(r));
        if holds_text(names, &name) && !is_shadowed(tree, &withs, r, &name) {
            let ghost before = out@;
            let ghost text = name@;
            add_ordered(&mut out, name);
            proof {
                lemma_with_text(texts(before), text);
                assert forall|l: int| 0 <= l < out@.len() implies texts(names@).contains(
                    #[trigger] out@[l]@,
                ) by {
                    assert(texts(out@)[l] == out@[l]@);
                    assert(texts(out@).to_set().contains(out@[l]@));
                    if out@[l]@ != text {
                        assert(texts(before).to_set().contains(out@[l]@));
                        let j = choose|j: int|
                            0 <= j < texts(before).len() && texts(before)[j] == out@[l]@;
                        assert(before[j]@ == out@[l]@);
                    }
                }
            }
        }
        k = k + 1;
    }
    out
}

/// Whether an expression only renames one relation.
pub fn is_trivial_cte(tree: &Tree, cte: usize) -> (r: bool)
    requires
        tree.wf(),
        tree.holds(cte),
    ensures
        r == trivial(tree@)(cte),
{
    let refs = tree.all_in(cte, KindSet::TableReferences);
    if refs.len() != 1 {
        return false;
    }
    let structure = tree.all_in(cte, KindSet::Structure);
    if structure.len() != 0 {
        return false;
    }
    let aggregates = extract_aggregates(tree, cte);
    aggregates.function_count == 0
}

/// Whether the block refers to an expression from outside of it.
fn cte_used(
    tree: &Tree,
    w: usize,
    refs: &Vec<usize>,
    inner: &Vec<usize>,
    cte: usize,
    name: &Vec<char>,
) -> (r: bool)
    requires
        tree.wf(),
        tree.holds(cte),
        refs@ == refs_in(tree@, w as int),
        inner@ == withs_below(tree@, w as int),
        name@ == cte_name(tree@, cte as int),
        forall|l: int| 0 <= l < refs@.len() ==> (#[trigger] refs@[l]) < tree@.len(),
        forall|l: int| 0 <= l < inner@.len() ==> (#[trigger] inner@[l]) < tree@.len(),
    ensures
        r == used_at(tree@, w as int, cte as int),
{
    let ghost n = tree@;
    let mut k: usize = 0;
    while k < refs.len()
        invariant
            tree.wf(),
            n == tree@,
            cte < n.len(),
            k <= refs@.len(),
            refs@ == refs_in(n, w as int),
            inner@ == withs_below(n, w as int),
            name@ == cte_name(n, cte as int),
            forall|l: int| 0 <= l < refs@.len() ==> (#[trigger] refs@[l]) < n.len(),
            forall|l: int| 0 <= l < inner@.len() ==> (#[trigger] inner@[l]) < n.len(),
            forall|l: int|
                0 <= l < k ==> !uses(n, w as int, cte as int, #[trigger] refs@[l] as int),
        decreases refs@.len() - k,
    {
        let r: usize = refs[k];
        let text = to_upper(tree.raw_at(r));
        if same(&text, name) && !(cte <= r && r < tree.end_at(cte)) && !is_shadowed(
            tree,
            inner,
            r,
            &text,
        ) {
            assert(uses(n, w as int, cte as int, refs_in(n, w as int)[k as int] as int));
            return true;
        }
        k = k + 1;
    }
    false
}

proof fn lemma_first_place(names: Seq<Seq<char>>, x: Seq<char>)
    requires
        names.contains(x),
    ensures
        0 <= first_place(names, x) < names.len(),
    decreases names.len(),
{
    if names.len() > 0 && names[0] != x {
        let d = names.drop_first();
        let k = choose|k: int| 0 <= k < names.len() && names[k] == x;
        assert(d[k - 1] == x);
        lemma_first_place(d, x);
    }
}

/// The first place of a name in a list.
fn place_of(names: &Vec<Vec<char>>, x: &Vec<char>) -> (r: usize)
    requires
        texts(names@).contains(x@),
    ensures
        r == first_place(texts(names@), x@),
        r < names@.len(),
{
    let ghost s = texts(names@);
    proof {
        lemma_first_place(s, x@);
    }
    let mut i: usize = 0;
    assert(s.skip(0) =~= s);
    while i < names.len()
        invariant
            s == texts(names@),
            i <= names@.len(),
            first_place(s, x@) == i + first_place(s.skip(i as int), x@),
            first_place(s, x@) < s.len(),
        decreases names@.len() - i,
    {
        assert(s.skip(i as int)[0] == s[i as int]);
        if same(&names[i], x) {
            return i;
        }
        assert(s.skip(i as int).drop_first() =~= s.skip(i + 1));
        i = i + 1;
    }
    i
}

pub open spec fn all_texts(v: Seq<Vec<Vec<char>>>) -> Seq<Seq<Seq<char>>> {
    Seq::new(v.len(), |i: int| texts(v[i]@))
}

/// The dependencies of every expression of a block.
pub open spec fn block_deps(n: Seq<Node>, w: int) -> Seq<Seq<Seq<char>>> {
    Seq::new(ctes_of(n, w).len(), |k: int| cte_dependencies(n, w, ctes_of(n, w)[k] as int))
}

/// The edges of a name.
fn edges_of(tree: &Tree, w: usize, names: &Vec<Vec<char>>, deps: &Vec<Vec<Vec<char>>>, own: &Vec<char>) -> (r:
    Vec<usize>)
    requires
        texts(names@) == block_names(tree@, w as int),
        all_texts(deps@) == block_deps(tree@, w as int),
        deps@.len() == names@.len(),
        forall|i: int, k: int|
            0 <= i < deps@.len() && 0 <= k < deps@[i]@.len() ==> texts(names@).contains(
                #[trigger] deps@[i]@[k]@,
            ),
    ensures
        ints(r@) == name_edges(tree@, w as int, own@, names@.len() as int),
        forall|k: int| 0 <= k < r@.len() ==> (#[trigger] r@[k]) < names@.len(),
{
    let ghost n = tree@;
    let mut out: Vec<usize> = Vec::new();
    let mut i: usize = 0;
    assert(ints(out@) =~= Seq::<int>::empty());
    while i < names.len()
        invariant
            n == tree@,
            i <= names@.len(),
            texts(names@) == block_names(n, w as int),
            all_texts(deps@) == block_deps(n, w as int),
            deps@.len() == names@.len(),
            forall|j: int, k: int|
                0 <= j < deps@.len() && 0 <= k < deps@[j]@.len() ==> texts(names@).contains(
                    #[trigger] deps@[j]@[k]@,
                ),
            ints(out@) == name_edges(n, w as int, own@, i as int),
            forall|k: int| 0 <= k < out@.len() ==> (#[trigger] out@[k]) < names@.len(),
        decreases names@.len() - i,
    {
        assert(texts(names@)[i as int] == names@[i as int]@);
        assert(all_texts(deps@)[i as int] == texts(deps@[i as int]@));
        let ghost list = texts(deps@[i as int]@);
        if same(&names[i], own) {
            let ghost before = ints(out@);
            let mut k: usize = 0;
            assert(ints(out@) =~= before + dep_places(texts(names@), own@, list, 0));
            while k < deps[i].len()
                invariant
                    i < names@.len(),
                    deps@.len() == names@.len(),
                    k <= deps@[i as int]@.len(),
                    list == texts(deps@[i as int]@),
                    forall|j: int, k: int|
                        0 <= j < deps@.len() && 0 <= k < deps@[j]@.len() ==> texts(names@).contains(
                            #[trigger] deps@[j]@[k]@,
                        ),
                    ints(out@) == before + dep_places(texts(names@), own@, list, k as int),
                    forall|k: int| 0 <= k < out@.len() ==> (#[trigger] out@[k]) < names@.len(),
                decreases deps@[i as int]@.len() - k,
            {
                assert(list[k as int] == deps@[i as int]@[k as int]@);
                let ghost was = ints(out@);
                if !same(&deps[i][k], own) {
                    let at: usize = place_of(names, &deps[i][k]);
                    out.push(at);
                    assert(ints(out@) =~= was.push(at as int));
                }
                k = k + 1;
                assert(ints(out@) =~= before + dep_places(texts(names@), own@, list, k as int));
            }
        }
        i = i + 1;
        assert(ints(out@) =~= name_edges(n, w as int, own@, i as int));
    }
    out
}

/// The longest dependency chain of a block.
fn chain_of_block(tree: &Tree, w: usize, names: &Vec<Vec<char>>, deps: &Vec<Vec<Vec<char>>>) -> (r: u64)
    requires
        names@.len() <= MAX_NODES,
        texts(names@) == block_names(tree@, w as int),
        all_texts(deps@) == block_deps(tree@, w as int),
        deps@.len() == names@.len(),
        forall|i: int, k: int|
            0 <= i < deps@.len() && 0 <= k < deps@[i]@.len() ==> texts(names@).contains(
                #[trigger] deps@[i]@[k]@,
            ),
    ensures
        r == block_depth(tree@)(w),
        r <= MAX_NODES + 1,
{
    let ghost n = tree@;
    let mut adj: Vec<Vec<usize>> = Vec::new();
    let mut roots: Vec<usize> = Vec::new();
    let mut i: usize = 0;
    while i < names.len()
        invariant
            n == tree@,
            i <= names@.len(),
            texts(names@) == block_names(n, w as int),
            all_texts(deps@) == block_deps(n, w as int),
            deps@.len() == names@.len(),
            forall|j: int, k: int|
                0 <= j < deps@.len() && 0 <= k < deps@[j]@.len() ==> texts(names@).contains(
                    #[trigger] deps@[j]@[k]@,
                ),
            adj@.len() == i,
            roots@.len() == i,
            forall|j: int|
                0 <= j < i ==> ints((#[trigger] adj@[j])@) == block_graph(n, w as int)[j],
            forall|j: int, k: int|
                0 <= j < i && 0 <= k < adj@[j]@.len() ==> (#[trigger] adj@[j]@[k]) < names@.len(),
            forall|j: int|
                0 <= j < i ==> (#[trigger] roots@[j]) == block_roots(n, w as int)[j],
            forall|j: int| 0 <= j < i ==> (#[trigger] roots@[j]) < names@.len(),
        decreases names@.len() - i,
    {
        assert(texts(names@)[i as int] == names@[i as int]@);
        let edges = edges_of(tree, w, names, deps, &names[i]);
        let root: usize = place_of(names, &names[i]);
        adj.push(edges);
        roots.push(root);
        i = i + 1;
    }
    proof {
        let g = graph_of(adj@);
        assert forall|j: int| 0 <= j < g.len() implies (#[trigger] g[j]) =~= block_graph(
            n,
            w as int,
        )[j] by {
            assert(ints(adj@[j]@) == block_graph(n, w as int)[j]);
            assert(g[j] =~= ints(adj@[j]@));
        }
        assert(g =~= block_graph(n, w as int));
        assert(closed_graph(g)) by {
            assert forall|j: int, k: int|
                #![trigger g[j][k]]
                0 <= j < g.len() && 0 <= k < g[j].len() implies 0 <= g[j][k] < g.len() by {
                assert(adj@[j]@[k] < names@.len());
            }
        }
        assert(ints(roots@) =~= block_roots(n, w as int));
    }
    longest_chain(&adj, &roots)
}

/// One block's counts.
struct BlockCounts {
    count: u64,
    trivial: u64,
    recursive: u64,
    edges: u64,
    fan_out: u64,
    depth: u64,
    unused: u64,
}

/// The names and the dependencies of a block's expressions.
fn block_tables(tree: &Tree, w: usize, ctes: &Vec<usize>) -> (r: (Vec<Vec<char>>, Vec<Vec<Vec<char>>>))
    requires
        tree.wf(),
        tree.holds(w),
        ctes@ == ctes_of(tree@, w as int),
        ctes@.len() <= MAX_NODES,
        forall|k: int| 0 <= k < ctes@.len() ==> (#[trigger] ctes@[k]) < tree@.len(),
    ensures
        texts(r.0@) == block_names(tree@, w as int),
        r.0@.len() == ctes@.len(),
        all_texts(r.1@) == block_deps(tree@, w as int),
        r.1@.len() == ctes@.len(),
        forall|i: int|
            0 <= i < r.1@.len() ==> (#[trigger] r.1@[i])@.len() <= MAX_NODES && ascending(
                texts(r.1@[i]@),
            ),
        forall|i: int, k: int|
            0 <= i < r.1@.len() && 0 <= k < r.1@[i]@.len() ==> texts(r.0@).contains(
                #[trigger] r.1@[i]@[k]@,
            ),
{
    let ghost n = tree@;
    let mut names: Vec<Vec<char>> = Vec::new();
    let mut k: usize = 0;
    while k < ctes.len()
        invariant
            tree.wf(),
            n == tree@,
            k <= ctes@.len(),
            ctes@ == ctes_of(n, w as int),
            forall|l: int| 0 <= l < ctes@.len() ==> (#[trigger] ctes@[l]) < n.len(),
            names@.len() == k,
            forall|l: int|
                0 <= l < k ==> (#[trigger] names@[l])@ == cte_name(n, ctes@[l] as int),
        decreases ctes@.len() - k,
    {
        let name = defined_name(tree, ctes[k]);
        names.push(name);
        k = k + 1;
    }
    assert(texts(names@) =~= block_names(n, w as int));
    let mut deps: Vec<Vec<Vec<char>>> = Vec::new();
    let mut i: usize = 0;
    while i < ctes.len()
        invariant
            tree.wf(),
            tree.holds(w),
            n == tree@,
            i <= ctes@.len(),
            ctes@ == ctes_of(n, w as int),
            texts(names@) == block_names(n, w as int),
            forall|l: int| 0 <= l < ctes@.len() ==> (#[trigger] ctes@[l]) < n.len(),
            deps@.len() == i,
            forall|l: int|
                0 <= l < i ==> texts((#[trigger] deps@[l])@) == cte_dependencies(
                    n,
                    w as int,
                    ctes@[l] as int,
                ) && ascending(texts(deps@[l]@)) && deps@[l]@.len() <= MAX_NODES,
            forall|l: int, k: int|
                0 <= l < i && 0 <= k < deps@[l]@.len() ==> texts(names@).contains(
                    #[trigger] deps@[l]@[k]@,
                ),
        decreases ctes@.len() - i,
    {
        let list = cte_body_dependencies(tree, w, ctes[i], &names);
        deps.push(list);
        i = i + 1;
    }
    assert(all_texts(deps@) =~= block_deps(n, w as int));
    (names, deps)
}

/// How many expressions depend on a name other than their own.
fn dependents(tree: &Tree, w: usize, ctes: &Vec<usize>, names: &Vec<Vec<char>>, deps: &Vec<Vec<Vec<char>>>, name: &Vec<char>) -> (r:
    u64)
    requires
        ctes@ == ctes_of(tree@, w as int),
        ctes@.len() <= MAX_NODES,
        texts(names@) == block_names(tree@, w as int),
        all_texts(deps@) == block_deps(tree@, w as int),
        names@.len() == ctes@.len(),
        deps@.len() == ctes@.len(),
    ensures
        r == count(ctes@, depends_on(tree@, w as int, name@)),
        r <= MAX_NODES,
{
    let ghost n = tree@;
    let ghost p = depends_on(n, w as int, name@);
    proof {
        lemma_take_all(ctes@);
    }
    let mut found: u64 = 0;
    let mut k: usize = 0;
    while k < ctes.len()
        invariant
            n == tree@,
            p == depends_on(n, w as int, name@),
            k <= ctes@.len() <= MAX_NODES,
            ctes@ == ctes_of(n, w as int),
            texts(names@) == block_names(n, w as int),
            all_texts(deps@) == block_deps(n, w as int),
            names@.len() == ctes@.len(),
            deps@.len() == ctes@.len(),
            found == count(ctes@.take(k as int), p),
            found <= k,
        decreases ctes@.len() - k,
    {
        proof {
            lemma_count_step(ctes@, k as int, p);
            assert(texts(names@)[k as int] == names@[k as int]@);
            assert(all_texts(deps@)[k as int] == texts(deps@[k as int]@));
        }
        if !same(&names[k], name) && holds_text(&deps[k], name) {
            found = found + 1;
        }
        k = k + 1;
    }
    found
}

/// Whether the block refers to a name.
fn is_name_used(
    tree: &Tree,
    w: usize,
    ctes: &Vec<usize>,
    names: &Vec<Vec<char>>,
    refs: &Vec<usize>,
    inner: &Vec<usize>,
    name: &Vec<char>,
) -> (r: bool)
    requires
        tree.wf(),
        ctes@ == ctes_of(tree@, w as int),
        texts(names@) == block_names(tree@, w as int),
        names@.len() == ctes@.len(),
        refs@ == refs_in(tree@, w as int),
        inner@ == withs_below(tree@, w as int),
        forall|k: int| 0 <= k < ctes@.len() ==> (#[trigger] ctes@[k]) < tree@.len(),
        forall|k: int| 0 <= k < refs@.len() ==> (#[trigger] refs@[k]) < tree@.len(),
        forall|k: int| 0 <= k < inner@.len() ==> (#[trigger] inner@[k]) < tree@.len(),
    ensures
        r == name_used(tree@, w as int, name@),
{
    let ghost n = tree@;
    let mut k: usize = 0;
    while k < ctes.len()
        invariant
            tree.wf(),
            n == tree@,
            k <= ctes@.len(),
            ctes@ == ctes_of(n, w as int),
            texts(names@) == block_names(n, w as int),
            names@.len() == ctes@.len(),
            refs@ == refs_in(n, w as int),
            inner@ == withs_below(n, w as int),
            forall|l: int| 0 <= l < ctes@.len() ==> (#[trigger] ctes@[l]) < n.len(),
            forall|l: int| 0 <= l < refs@.len() ==> (#[trigger] refs@[l]) < n.len(),
            forall|l: int| 0 <= l < inner@.len() ==> (#[trigger] inner@[l]) < n.len(),
            forall|l: int|
                0 <= l < k ==> !named_and_used(n, w as int, #[trigger] ctes@[l] as int, name@),
        decreases ctes@.len() - k,
    {
        assert(texts(names@)[k as int] == names@[k as int]@);
        if same(&names[k], name) && cte_used(tree, w, refs, inner, ctes[k], &names[k]) {
            assert(named_and_used(n, w as int, ctes_of(n, w as int)[k as int] as int, name@));
            return true;
        }
        k = k + 1;
    }
    false
}

/// One block's counts.
fn measure_block(tree: &Tree, w: usize) -> (r: BlockCounts)
    requires
        tree.wf(),
        tree.holds(w),
    ensures
        r.count == block_count(tree@)(w),
        r.trivial == block_trivial(tree@)(w),
        r.recursive == block_recursive(tree@)(w),
        r.edges == block_edges(tree@)(w),
        r.fan_out == block_fan_out(tree@)(w),
        r.depth == block_depth(tree@)(w),
        r.unused == block_unused(tree@)(w),
        r.count <= MAX_NODES,
        r.trivial <= MAX_NODES,
        r.recursive <= MAX_NODES,
        r.edges <= 0xffff_ffff_0000_0000,
        r.fan_out <= MAX_NODES,
        r.depth <= MAX_NODES + 1,
        r.unused <= MAX_NODES,
{
    let ghost n = tree@;
    let probe = Probe {
        set: KindSet::Only(Kind::CommonTableExpression),
        deep: true,
        stop: KindSet::Only(Kind::WithCompoundStatement),
        own: false,
    };
    let inner_probe = Probe {
        set: KindSet::Only(Kind::WithCompoundStatement),
        deep: true,
        stop: KindSet::Empty,
        own: false,
    };
    let ctes = tree.crawl(w, probe);
    let refs = tree.all_in(w, KindSet::TableReferences);
    let inner = tree.crawl(w, inner_probe);
    proof {
        lemma_crawl(n, w as int, probe);
        lemma_crawl(n, w as int, every(KindSet::TableReferences));
        lemma_crawl(n, w as int, inner_probe);
        lemma_take_all(ctes@);
    }
    let (names, deps) = block_tables(tree, w, &ctes);
    let mut trivials: u64 = 0;
    let mut recursive: u64 = 0;
    let mut edges: u64 = 0;
    let mut widest: u64 = 0;
    let mut idle: u64 = 0;
    let mut k: usize = 0;
    while k < ctes.len()
        invariant
            tree.wf(),
            tree.holds(w),
            n == tree@,
            k <= ctes@.len() <= MAX_NODES,
            ctes@ == ctes_of(n, w as int),
            refs@ == refs_in(n, w as int),
            inner@ == withs_below(n, w as int),
            texts(names@) == block_names(n, w as int),
            all_texts(deps@) == block_deps(n, w as int),
            names@.len() == ctes@.len(),
            deps@.len() == ctes@.len(),
            forall|l: int| 0 <= l < ctes@.len() ==> (#[trigger] ctes@[l]) < n.len(),
            forall|l: int| 0 <= l < refs@.len() ==> (#[trigger] refs@[l]) < n.len(),
            forall|l: int| 0 <= l < inner@.len() ==> (#[trigger] inner@[l]) < n.len(),
            forall|l: int| 0 <= l < deps@.len() ==> (#[trigger] deps@[l])@.len() <= MAX_NODES,
            trivials == count(ctes@.take(k as int), trivial(n)),
            recursive == count(ctes@.take(k as int), refers_to_itself(n, w as int)),
            edges == sum(ctes@.take(k as int), edges_from(n, w as int)),
            widest == peak(ctes@.take(k as int), fan_out(n, w as int)),
            idle == count(ctes@.take(k as int), unused(n, w as int)),
            trivials <= k,
            recursive <= k,
            edges <= k * MAX_NODES,
            widest <= MAX_NODES,
            idle <= k,
        decreases ctes@.len() - k,
    {
        proof {
            lemma_count_step(ctes@, k as int, trivial(n));
            lemma_count_step(ctes@, k as int, refers_to_itself(n, w as int));
            lemma_sum_step(ctes@, k as int, edges_from(n, w as int));
            lemma_peak_step(ctes@, k as int, fan_out(n, w as int));
            lemma_count_step(ctes@, k as int, unused(n, w as int));
            assert(texts(names@)[k as int] == names@[k as int]@);
            assert(all_texts(deps@)[k as int] == texts(deps@[k as int]@));
        }
        if is_trivial_cte(tree, ctes[k]) {
            trivials = trivials + 1;
        }
        let own = holds_text(&deps[k], &names[k]);
        let listed: u64 = deps[k].len() as u64;
        if own {
            recursive = recursive + 1;
            proof {
                let j = choose|j: int|
                    0 <= j < texts(deps@[k as int]@).len() && texts(deps@[k as int]@)[j]
                        == names@[k as int]@;
            }
            edges = edges + (listed - 1);
        } else {
            edges = edges + listed;
        }
        let fan: u64 = dependents(tree, w, &ctes, &names, &deps, &names[k]);
        if fan > widest {
            widest = fan;
        }
        if !is_name_used(tree, w, &ctes, &names, &refs, &inner, &names[k]) {
            idle = idle + 1;
        }
        k = k + 1;
    }
    BlockCounts {
        count: ctes.len() as u64,
        trivial: trivials,
        recursive,
        edges,
        fan_out: widest,
        depth: chain_of_block(tree, w, &names, &deps),
        unused: idle,
    }
}

// ── laws ───────────────────────────────────────────────────────────────

/// An expression of a block stands in no block inside of it.
proof fn lemma_own_cte(n: Seq<Node>, w: int, k: int, v: int)
    requires
        well_formed(n),
        0 <= w < n.len(),
        0 <= k < ctes_of(n, w).len(),
        w < v,
        within(n, v, ctes_of(n, w)[k] as int),
    ensures
        n[v].kind != Kind::WithCompoundStatement,
{
    let p = block_probe(KindSet::Only(Kind::CommonTableExpression));
    lemma_reported(n, w, p, n[w].end as int);
    let c = ctes_of(n, w)[k] as int;
    assert(reports(n, w, p, c));
    if n[v].kind == Kind::WithCompoundStatement {
        assert(closes(n, w, p, v));
        assert(n[v].end > c);
    }
}

/// A crawl without limits reports every node of its set.
proof fn lemma_finds(n: Seq<Node>, root: int, p: Probe, hi: int, j: int)
    requires
        p.deep,
        p.stop == KindSet::Empty,
        root <= j < hi <= n.len() <= MAX_NODES,
        0 <= root,
        matched(n, root, p, j),
    ensures
        exists|k: int|
            0 <= k < reported(n, root, p, hi).len() && #[trigger] reported(n, root, p, hi)[k] == j,
    decreases hi,
{
    assert(open_to(n, root, p, j));
    let all = reported(n, root, p, hi);
    if hi - 1 == j {
        assert(all[all.len() - 1] == j);
    } else {
        lemma_finds(n, root, p, hi - 1, j);
        let before = reported(n, root, p, hi - 1);
        let k = choose|k: int| 0 <= k < before.len() && #[trigger] before[k] == j;
        assert(all[k] == j);
    }
}

proof fn lemma_deps_ascend(n: Seq<Node>, w: int, b: int, k: int)
    ensures
        ascending(deps_by(n, w, b, k)),
    decreases k,
{
    if k > 0 {
        lemma_deps_ascend(n, w, b, k - 1);
        lemma_with_text(deps_by(n, w, b, k - 1), ref_name(n, refs_in(n, b)[k - 1] as int));
    }
}

proof fn lemma_dependency(n: Seq<Node>, w: int, b: int, k: int, name: Seq<char>) -> (r: int)
    requires
        deps_by(n, w, b, k).contains(name),
        k <= refs_in(n, b).len(),
    ensures
        0 <= r < k,
        is_dependency(n, w, b, refs_in(n, b)[r] as int),
        ref_name(n, refs_in(n, b)[r] as int) == name,
    decreases k,
{
    if is_dependency(n, w, b, refs_in(n, b)[k - 1] as int) && ref_name(
        n,
        refs_in(n, b)[k - 1] as int,
    ) == name {
        k - 1
    } else {
        let before = deps_by(n, w, b, k - 1);
        assert(before.contains(name)) by {
            if is_dependency(n, w, b, refs_in(n, b)[k - 1] as int) {
                lemma_deps_ascend(n, w, b, k - 1);
                lemma_with_text(before, ref_name(n, refs_in(n, b)[k - 1] as int));
                assert(deps_by(n, w, b, k).to_set().contains(name));
                assert(before.to_set().contains(name));
            }
        }
        lemma_dependency(n, w, b, k - 1, name)
    }
}

/// What another expression of the block depends on is not unused, wherever in
/// its body the reference stands.
pub proof fn dependencies_are_used(n: Seq<Node>, w: int, i: int, j: int)
    requires
        well_formed(n),
        0 <= w < n.len(),
        0 <= i < ctes_of(n, w).len(),
        0 <= j < ctes_of(n, w).len(),
        !within(n, ctes_of(n, w)[i] as int, ctes_of(n, w)[j] as int),
        !within(n, ctes_of(n, w)[j] as int, ctes_of(n, w)[i] as int),
        cte_dependencies(n, w, ctes_of(n, w)[j] as int).contains(
            cte_name(n, ctes_of(n, w)[i] as int),
        ),
    ensures
        !unused(n, w)(ctes_of(n, w)[i]),
{
    let a = ctes_of(n, w)[i] as int;
    let b = ctes_of(n, w)[j] as int;
    let name = cte_name(n, a);
    lemma_crawl(n, w, block_probe(KindSet::Only(Kind::CommonTableExpression)));
    assert(w <= a < n[w].end && w <= b < n[w].end);
    let at = lemma_dependency(n, w, b, refs_in(n, b).len() as int, name);
    lemma_crawl(n, b, every(KindSet::TableReferences));
    let r = refs_in(n, b)[at] as int;
    assert(n[b].end <= n[w].end || b == w);
    lemma_finds(n, w, every(KindSet::TableReferences), n[w].end as int, r);
    let k = choose|k: int| 0 <= k < refs_in(n, w).len() && #[trigger] refs_in(n, w)[k] == r;
    assert(!within(n, a, r)) by {
        if within(n, a, r) {
            assert(a < b ==> b < n[a].end);
            assert(b < a ==> a < n[b].end);
        }
    }
    assert(!redefined(n, w, r)) by {
        if redefined(n, w, r) {
            let inner = withs_below(n, w);
            let l = choose|l: int|
                0 <= l < inner.len() && shadows(n, #[trigger] inner[l] as int, r);
            let v = inner[l] as int;
            let p = Probe {
                set: KindSet::Only(Kind::WithCompoundStatement),
                deep: true,
                stop: KindSet::Empty,
                own: false,
            };
            lemma_crawl(n, w, p);
            assert(matched(n, w, p, v));
            if v <= b {
                assert(within(n, v, b));
                lemma_own_cte(n, w, j, v);
            } else {
                assert(v < n[b].end);
                lemma_finds(
                    n,
                    b,
                    every(KindSet::Only(Kind::WithCompoundStatement)),
                    n[b].end as int,
                    v,
                );
                let m = choose|m: int|
                    0 <= m < withs_in(n, b).len() && #[trigger] withs_in(n, b)[m] == v;
                assert(shadows(n, withs_in(n, b)[m] as int, r));
            }
        }
    }
    assert(uses(n, w, a, refs_in(n, w)[k] as int));
    assert(used_at(n, w, a));
    assert(named_and_used(n, w, ctes_of(n, w)[i] as int, name));
}

/// The expressions of the first `k` listed blocks.
spec fn expressions(n: Seq<Node>, s: Seq<usize>, k: int) -> Set<int>
    decreases k,
{
    if k <= 0 {
        Set::empty()
    } else {
        expressions(n, s, k - 1) + ints(ctes_of(n, s[k - 1] as int)).to_set()
    }
}

/// No expression belongs to two blocks.
proof fn lemma_expressions(n: Seq<Node>, root: int, k: int)
    requires
        well_formed(n),
        0 <= root < n.len(),
        0 <= k <= withs_in(n, root).len(),
    ensures
        expressions(n, withs_in(n, root), k).finite(),
        expressions(n, withs_in(n, root), k).len() == sum(
            withs_in(n, root).take(k),
            block_count(n),
        ),
        forall|x: int| #[trigger] expressions(n, withs_in(n, root), k).contains(x) ==> 0 <= x
            < n.len() && exists|l: int, m: int|
            0 <= l < k && 0 <= m < ctes_of(n, withs_in(n, root)[l] as int).len() && x
                == #[trigger] ctes_of(n, withs_in(n, root)[l] as int)[m],
    decreases k,
{
    let s = withs_in(n, root);
    lemma_reported(n, root, every(KindSet::Only(Kind::WithCompoundStatement)), n[root].end as int);
    if k > 0 {
        lemma_expressions(n, root, k - 1);
        lemma_sum_step(s, k - 1, block_count(n));
        let w = s[k - 1] as int;
        let own = ctes_of(n, w);
        let p = block_probe(KindSet::Only(Kind::CommonTableExpression));
        lemma_reported(n, w, p, n[w].end as int);
        let before = expressions(n, s, k - 1);
        let more = ints(own).to_set();
        assert(ints(own).no_duplicates());
        ints(own).unique_seq_to_set();
        assert forall|x: int| more.contains(x) implies !before.contains(x) && 0 <= x < n.len()
            && exists|l: int, m: int|
            0 <= l < k && 0 <= m < ctes_of(n, s[l] as int).len() && x == #[trigger] ctes_of(
                n,
                s[l] as int,
            )[m] by {
            let m = choose|m: int| 0 <= m < ints(own).len() && ints(own)[m] == x;
            assert(x == ctes_of(n, s[k - 1] as int)[m]);
            if before.contains(x) {
                let (l, o) = choose|l: int, o: int|
                    0 <= l < k - 1 && 0 <= o < ctes_of(n, s[l] as int).len() && x
                        == #[trigger] ctes_of(n, s[l] as int)[o];
                lemma_own_cte(n, s[l] as int, o, w);
                assert(reports(
                    n,
                    root,
                    every(KindSet::Only(Kind::WithCompoundStatement)),
                    s[k - 1] as int,
                ));
            }
        }
        assert(before.disjoint(more));
        vstd::set_lib::lemma_set_disjoint_lens(before, more);
    } else {
        lemma_take_all(s);
    }
}

/// There are no more expressions than nodes.
proof fn lemma_expression_count(n: Seq<Node>, root: int)
    requires
        well_formed(n),
        0 <= root < n.len(),
    ensures
        sum(withs_in(n, root), block_count(n)) <= n.len(),
{
    let k = withs_in(n, root).len() as int;
    lemma_expressions(n, root, k);
    lemma_take_all(withs_in(n, root));
    let all = expressions(n, withs_in(n, root), k);
    vstd::set_lib::lemma_int_range(0, n.len() as int);
    assert(all.subset_of(vstd::set_lib::set_int_range(0, n.len() as int)));
    vstd::set_lib::lemma_len_subset(all, vstd::set_lib::set_int_range(0, n.len() as int));
}

// ── the file ───────────────────────────────────────────────────────────

/// The common-table-expression facts of a subtree.
pub fn extract_cte_graph(tree: &Tree, root: usize) -> (r: CteFacts)
    requires
        tree.wf(),
        tree.holds(root),
    ensures
        describes_ctes(tree@, root as int, r),
        r.count <= MAX_NODES,
        r.dependency_edges <= 0x1_0000_0000_0000_0000_0000_0000,
        r.max_dependency_depth <= MAX_NODES + 1,
{
    let ghost n = tree@;
    let withs = tree.all_in(root, KindSet::Only(Kind::WithCompoundStatement));
    proof {
        lemma_crawl(n, root as int, every(KindSet::Only(Kind::WithCompoundStatement)));
        lemma_take_all(withs@);
    }
    let mut r = CteFacts {
        count: 0,
        recursive_count: 0,
        dependency_edges: 0,
        max_dependency_depth: 0,
        max_fan_out: 0,
        unused_count: 0,
        trivial_count: 0,
    };
    let mut k: usize = 0;
    while k < withs.len()
        invariant
            tree.wf(),
            n == tree@,
            k <= withs@.len() <= MAX_NODES,
            forall|l: int| 0 <= l < withs@.len() ==> (#[trigger] withs@[l]) < n.len(),
            measures_ctes(n, withs@.take(k as int), r),
            r.count <= k * MAX_NODES,
            r.trivial_count <= k * MAX_NODES,
            r.recursive_count <= k * MAX_NODES,
            r.unused_count <= k * MAX_NODES,
            r.dependency_edges <= k * 0xffff_ffff_0000_0000,
            r.max_dependency_depth <= MAX_NODES + 1,
        decreases withs@.len() - k,
    {
        proof {
            lemma_sum_step(withs@, k as int, block_count(n));
            lemma_sum_step(withs@, k as int, block_trivial(n));
            lemma_sum_step(withs@, k as int, block_recursive(n));
            lemma_sum_step(withs@, k as int, block_edges(n));
            lemma_peak_step(withs@, k as int, block_fan_out(n));
            lemma_peak_step(withs@, k as int, block_depth(n));
            lemma_sum_step(withs@, k as int, block_unused(n));
        }
        let b = measure_block(tree, withs[k]);
        r.count = r.count + b.count;
        r.trivial_count = r.trivial_count + b.trivial;
        r.recursive_count = r.recursive_count + b.recursive;
        r.dependency_edges = r.dependency_edges + b.edges as u128;
        if b.fan_out > r.max_fan_out {
            r.max_fan_out = b.fan_out;
        }
        if b.depth > r.max_dependency_depth {
            r.max_dependency_depth = b.depth;
        }
        r.unused_count = r.unused_count + b.unused;
        k = k + 1;
    }
    proof {
        lemma_expression_count(n, root as int);
    }
    r
}

} // verus!
