//! The longest dependency chain of a graph that may have cycles.

use vstd::prelude::*;

verus! {

/// The depth of `v` and the depths known after finding it. A known depth is
/// taken as it is, and a node that is being visited counts as one level, which
/// cuts cycles.
pub open spec fn chain(
    g: Seq<Seq<int>>,
    v: int,
    known: Map<int, int>,
    visiting: Seq<int>,
) -> (int, Map<int, int>)
    decreases g.len() - visiting.len(), 0int,
{
    if known.contains_key(v) {
        (known[v], known)
    } else if visiting.contains(v) || visiting.len() >= g.len() {
        (1, known)
    } else {
        let (best, after) = chain_over(g, v, 0, 1, known, visiting.push(v));
        (best, after.insert(v, best))
    }
}

/// The depth of `v` over its edges from `k` on, starting from `best`.
pub open spec fn chain_over(
    g: Seq<Seq<int>>,
    v: int,
    k: int,
    best: int,
    known: Map<int, int>,
    visiting: Seq<int>,
) -> (int, Map<int, int>)
    decreases g.len() - visiting.len(), 1 + g[v].len() - k,
{
    if k < 0 || k >= g[v].len() || visiting.len() > g.len() {
        (best, known)
    } else {
        let (depth, after) = chain(g, g[v][k], known, visiting);
        chain_over(
            g,
            v,
            k + 1,
            if 1 + depth > best {
                1 + depth
            } else {
                best
            },
            after,
            visiting,
        )
    }
}

/// The longest chain from the first `k` roots, and the depths known after it.
pub open spec fn longest(g: Seq<Seq<int>>, roots: Seq<int>, k: int) -> (int, Map<int, int>)
    decreases k,
{
    if k <= 0 {
        (0, Map::empty())
    } else {
        let (best, known) = longest(g, roots, k - 1);
        let (depth, after) = chain(g, roots[k - 1], known, Seq::empty());
        (
            if depth > best {
                depth
            } else {
                best
            },
            after,
        )
    }
}

/// Whether every edge leads to a node.
pub open spec fn closed_graph(g: Seq<Seq<int>>) -> bool {
    forall|i: int, k: int|
        #![trigger g[i][k]]
        0 <= i < g.len() && 0 <= k < g[i].len() ==> 0 <= g[i][k] < g.len()
}

/// The graph of an adjacency list.
pub open spec fn graph_of(adj: Seq<Vec<usize>>) -> Seq<Seq<int>> {
    Seq::new(adj.len(), |i: int| Seq::new(adj[i]@.len(), |k: int| adj[i]@[k] as int))
}

pub open spec fn ints(s: Seq<usize>) -> Seq<int> {
    Seq::new(s.len(), |i: int| s[i] as int)
}

/// Whether known depths concern nodes only and are small: each is at most one
/// more than their number.
pub open spec fn modest(size: int, known: Map<int, int>) -> bool {
    &&& known.dom().finite()
    &&& forall|v: int| #[trigger] known.contains_key(v) ==> 0 <= v < size
    &&& forall|v: int| #[trigger] known.contains_key(v) ==> 1 <= known[v] <= known.dom().len() + 1
}

/// Whether a table holds the known depths, 0 standing for an unknown one.
pub open spec fn records(table: Seq<u64>, known: Map<int, int>) -> bool {
    &&& forall|v: int| 0 <= v < table.len() ==> ((#[trigger] table[v]) > 0 <==> known.contains_key(v))
    &&& forall|v: int| 0 <= v < table.len() && (#[trigger] table[v]) > 0 ==> table[v] == known[v]
}

proof fn lemma_modest_size(size: int, known: Map<int, int>)
    requires
        0 <= size,
        modest(size, known),
    ensures
        known.dom().len() <= size,
{
    vstd::set_lib::lemma_int_range(0, size);
    vstd::set_lib::lemma_len_subset(known.dom(), vstd::set_lib::set_int_range(0, size));
}

/// Visiting keeps depths modest and never unlearns one.
proof fn lemma_chain(g: Seq<Seq<int>>, v: int, known: Map<int, int>, visiting: Seq<int>)
    requires
        closed_graph(g),
        0 <= v < g.len(),
        modest(g.len() as int, known),
        forall|u: int| visiting.contains(u) ==> !known.contains_key(u),
    ensures
        ({
            let (depth, after) = chain(g, v, known, visiting);
            &&& modest(g.len() as int, after)
            &&& 1 <= depth <= after.dom().len() + 1
            &&& known.dom().subset_of(after.dom())
            &&& forall|u: int| visiting.contains(u) ==> !after.contains_key(u)
        }),
    decreases g.len() - visiting.len(), 0int,
{
    if known.contains_key(v) {
    } else if visiting.contains(v) || visiting.len() >= g.len() {
    } else {
        let deeper = visiting.push(v);
        assert forall|u: int| deeper.contains(u) implies !known.contains_key(u) by {
            let i = choose|i: int| 0 <= i < deeper.len() && deeper[i] == u;
            if i < visiting.len() {
                assert(visiting[i] == u);
                assert(visiting.contains(u));
            }
        }
        lemma_chain_over(g, v, 0, 1, known, deeper);
        let (best, after) = chain_over(g, v, 0, 1, known, deeper);
        assert(deeper[visiting.len() as int] == v);
        assert(deeper.contains(v));
        let done = after.insert(v, best);
        assert(done.dom() =~= after.dom().insert(v));
        assert forall|u: int| visiting.contains(u) implies !done.contains_key(u) by {
            let i = choose|i: int| 0 <= i < visiting.len() && visiting[i] == u;
            assert(deeper[i] == u);
            assert(deeper.contains(u));
        }
    }
}

proof fn lemma_chain_over(
    g: Seq<Seq<int>>,
    v: int,
    k: int,
    best: int,
    known: Map<int, int>,
    visiting: Seq<int>,
)
    requires
        closed_graph(g),
        0 <= v < g.len(),
        0 <= k,
        1 <= best <= known.dom().len() + 2,
        modest(g.len() as int, known),
        forall|u: int| visiting.contains(u) ==> !known.contains_key(u),
    ensures
        ({
            let (depth, after) = chain_over(g, v, k, best, known, visiting);
            &&& modest(g.len() as int, after)
            &&& 1 <= depth <= after.dom().len() + 2
            &&& known.dom().subset_of(after.dom())
            &&& forall|u: int| visiting.contains(u) ==> !after.contains_key(u)
        }),
    decreases g.len() - visiting.len(), 1 + g[v].len() - k,
{
    if k >= g[v].len() || visiting.len() > g.len() {
    } else {
        assert(0 <= g[v][k] < g.len());
        lemma_chain(g, g[v][k], known, visiting);
        let (depth, after) = chain(g, g[v][k], known, visiting);
        vstd::set_lib::lemma_len_subset(known.dom(), after.dom());
        let next = if 1 + depth > best {
            1 + depth
        } else {
            best
        };
        lemma_chain_over(g, v, k + 1, next, after, visiting);
    }
}

/// The depth of one node, with the table of known depths brought up to date.
fn depth_of(
    adj: &Vec<Vec<usize>>,
    v: usize,
    table: &mut Vec<u64>,
    visiting: &mut Vec<usize>,
    known: Ghost<Map<int, int>>,
) -> (r: (u64, Ghost<Map<int, int>>))
    requires
        closed_graph(graph_of(adj@)),
        v < adj@.len() < 0x1000_0000_0000,
        old(table)@.len() == adj@.len(),
        modest(adj@.len() as int, known@),
        records(old(table)@, known@),
        forall|u: int| ints(old(visiting)@).contains(u) ==> !known@.contains_key(u),
        old(visiting)@.len() <= adj@.len(),
    ensures
        (r.0 as int, r.1@) == chain(graph_of(adj@), v as int, known@, ints(old(visiting)@)),
        final(table)@.len() == adj@.len(),
        records(final(table)@, r.1@),
        final(visiting)@ == old(visiting)@,
    decreases adj@.len() - old(visiting)@.len(),
{
    let ghost g = graph_of(adj@);
    let ghost path = ints(visiting@);
    proof {
        lemma_chain(g, v as int, known@, path);
    }
    if table[v] > 0 {
        return (table[v], known);
    }
    let mut i: usize = 0;
    while i < visiting.len()
        invariant
            i <= visiting@.len(),
            path == ints(visiting@),
            visiting@ == old(visiting)@,
            forall|j: int| 0 <= j < i ==> path[j] != v,
            table@ == old(table)@,
            !known@.contains_key(v as int),
            table@.len() == adj@.len(),
            records(table@, known@),
            g == graph_of(adj@),
        decreases visiting@.len() - i,
    {
        if visiting[i] == v {
            assert(path[i as int] == v);
            return (1, known);
        }
        i = i + 1;
    }
    if visiting.len() >= adj.len() {
        return (1, known);
    }
    visiting.push(v);
    let ghost deeper = path.push(v as int);
    assert(ints(visiting@) =~= deeper);
    proof {
        assert forall|u: int| deeper.contains(u) implies !known@.contains_key(u) by {
            let j = choose|j: int| 0 <= j < deeper.len() && deeper[j] == u;
            if j < path.len() {
                assert(path[j] == u);
                assert(path.contains(u));
            }
        }
    }
    let mut best: u64 = 1;
    let mut so_far: Ghost<Map<int, int>> = known;
    let mut k: usize = 0;
    while k < adj[v].len()
        invariant
            g == graph_of(adj@),
            closed_graph(g),
            v < adj@.len() < 0x1000_0000_0000,
            k <= adj@[v as int]@.len(),
            old(visiting)@.len() < adj@.len(),
            visiting@ == old(visiting)@.push(v),
            deeper == ints(visiting@),
            table@.len() == adj@.len(),
            records(table@, so_far@),
            modest(g.len() as int, so_far@),
            forall|u: int| deeper.contains(u) ==> !so_far@.contains_key(u),
            1 <= best <= so_far@.dom().len() + 2,
            chain_over(g, v as int, 0, 1, known@, deeper) == chain_over(
                g,
                v as int,
                k as int,
                best as int,
                so_far@,
                deeper,
            ),
        decreases adj@[v as int]@.len() - k,
    {
        let next: usize = adj[v][k];
        proof {
            assert(g[v as int][k as int] == next);
            lemma_chain(g, next as int, so_far@, deeper);
        }
        let (depth, after) = depth_of(adj, next, table, visiting, so_far);
        proof {
            vstd::set_lib::lemma_len_subset(so_far@.dom(), after@.dom());
            lemma_modest_size(g.len() as int, after@);
        }
        if 1 + depth > best {
            best = 1 + depth;
        }
        so_far = after;
        k = k + 1;
    }
    visiting.pop();
    assert(visiting@ =~= old(visiting)@);
    proof {
        assert(deeper[path.len() as int] == v);
        assert(deeper.contains(v as int));
    }
    let ghost prev = table@;
    table.set(v, best);
    let done: Ghost<Map<int, int>> = Ghost(so_far@.insert(v as int, best as int));
    proof {
        assert(!path.contains(v as int)) by {
            if path.contains(v as int) {
                let j = choose|j: int| 0 <= j < path.len() && path[j] == v;
            }
        }
        assert forall|u: int| 0 <= u < table@.len() implies ((#[trigger] table@[u]) > 0
            <==> done@.contains_key(u)) by {
            if u != v {
                assert(table@[u] == prev[u]);
            }
        }
        assert forall|u: int| 0 <= u < table@.len() && (#[trigger] table@[u]) > 0 implies table@[u]
            == done@[u] by {
            if u != v {
                assert(table@[u] == prev[u]);
            }
        }
    }
    (best, done)
}

/// The longest dependency chain from any of the roots, in levels.
pub fn longest_chain(adj: &Vec<Vec<usize>>, roots: &Vec<usize>) -> (r: u64)
    requires
        closed_graph(graph_of(adj@)),
        adj@.len() < 0x1000_0000_0000,
        forall|k: int| 0 <= k < roots@.len() ==> (#[trigger] roots@[k]) < adj@.len(),
    ensures
        r == longest(graph_of(adj@), ints(roots@), roots@.len() as int).0,
        r <= adj@.len() + 1,
{
    let ghost g = graph_of(adj@);
    let mut table: Vec<u64> = Vec::new();
    let mut i: usize = 0;
    while i < adj.len()
        invariant
            i <= adj@.len(),
            table@.len() == i,
            forall|v: int| 0 <= v < i ==> (#[trigger] table@[v]) == 0,
        decreases adj@.len() - i,
    {
        table.push(0);
        i = i + 1;
    }
    let mut visiting: Vec<usize> = Vec::new();
    let mut known: Ghost<Map<int, int>> = Ghost(Map::empty());
    let mut best: u64 = 0;
    let mut k: usize = 0;
    assert(ints(visiting@) =~= Seq::<int>::empty());
    while k < roots.len()
        invariant
            g == graph_of(adj@),
            closed_graph(g),
            adj@.len() < 0x1000_0000_0000,
            k <= roots@.len(),
            forall|l: int| 0 <= l < roots@.len() ==> (#[trigger] roots@[l]) < adj@.len(),
            visiting@.len() == 0,
            table@.len() == adj@.len(),
            records(table@, known@),
            modest(g.len() as int, known@),
            (best as int, known@) == longest(g, ints(roots@), k as int),
            best <= adj@.len() + 1,
        decreases roots@.len() - k,
    {
        proof {
            assert(ints(visiting@) =~= Seq::<int>::empty());
            lemma_chain(g, roots@[k as int] as int, known@, Seq::empty());
        }
        let (depth, after) = depth_of(adj, roots[k], &mut table, &mut visiting, known);
        proof {
            lemma_modest_size(g.len() as int, after@);
        }
        if depth > best {
            best = depth;
        }
        known = after;
        k = k + 1;
    }
    best
}

// ── graphs without cycles ──────────────────────────────────────────────

/// Whether every edge leads to a node of a lower height, so that the graph has
/// no cycle.
pub open spec fn descends(g: Seq<Seq<int>>, height: spec_fn(int) -> int) -> bool {
    forall|i: int, k: int|
        #![trigger g[i][k]]
        0 <= i < g.len() && 0 <= k < g[i].len() ==> 0 <= height(g[i][k]) < height(i)
}

/// Whether a graph holds a path: each node has an edge to the next.
pub open spec fn is_path(g: Seq<Seq<int>>, p: Seq<int>) -> bool {
    &&& p.len() > 0
    &&& forall|i: int| 0 <= i < p.len() ==> 0 <= #[trigger] p[i] < g.len()
    &&& forall|i: int|
        #![trigger p[i]]
        0 <= i < p.len() - 1 ==> g[p[i]].contains(p[i + 1])
}

/// The number of nodes on the longest path from `v`.
pub open spec fn levels(g: Seq<Seq<int>>, height: spec_fn(int) -> int, v: int) -> int
    decreases height(v), g[v].len() + 1,
{
    levels_over(g, height, v, g[v].len() as int)
}

/// The number of nodes on the longest path from `v` over its first `k` edges.
pub open spec fn levels_over(g: Seq<Seq<int>>, height: spec_fn(int) -> int, v: int, k: int) -> int
    decreases height(v), k,
{
    if k <= 0 {
        1
    } else {
        let before = levels_over(g, height, v, k - 1);
        let w = g[v][k - 1];
        if k <= g[v].len() && 0 <= height(w) < height(v) && 1 + levels(g, height, w) > before {
            1 + levels(g, height, w)
        } else {
            before
        }
    }
}

proof fn lemma_levels_grow(g: Seq<Seq<int>>, height: spec_fn(int) -> int, v: int, k: int, hi: int)
    requires
        0 <= k <= hi,
    ensures
        1 <= levels_over(g, height, v, k) <= levels_over(g, height, v, hi),
    decreases hi,
{
    if hi > 0 {
        if k < hi {
            lemma_levels_grow(g, height, v, k, hi - 1);
        } else {
            lemma_levels_grow(g, height, v, k - 1, k - 1);
        }
    }
}

/// Whether the nodes on the way are distinct nodes above `v`.
pub open spec fn stands_above(
    g: Seq<Seq<int>>,
    height: spec_fn(int) -> int,
    visiting: Seq<int>,
    v: int,
) -> bool {
    &&& visiting.no_duplicates()
    &&& forall|i: int|
        0 <= i < visiting.len() ==> 0 <= #[trigger] visiting[i] < g.len() && height(visiting[i])
            > height(v)
}

/// Whether every known depth is right.
pub open spec fn knows(g: Seq<Seq<int>>, height: spec_fn(int) -> int, known: Map<int, int>) -> bool {
    forall|u: int| #[trigger] known.contains_key(u) ==> known[u] == levels(g, height, u)
}

proof fn lemma_room(g: Seq<Seq<int>>, height: spec_fn(int) -> int, visiting: Seq<int>, v: int)
    requires
        0 <= v < g.len(),
        stands_above(g, height, visiting, v),
    ensures
        visiting.len() < g.len(),
        !visiting.contains(v),
{
    let all = visiting.push(v);
    assert(!visiting.contains(v));
    assert(all.no_duplicates());
    all.unique_seq_to_set();
    vstd::set_lib::lemma_int_range(0, g.len() as int);
    assert(all.to_set().subset_of(vstd::set_lib::set_int_range(0, g.len() as int))) by {
        assert forall|x: int| all.to_set().contains(x) implies vstd::set_lib::set_int_range(
            0,
            g.len() as int,
        ).contains(x) by {
            let i = choose|i: int| 0 <= i < all.len() && all[i] == x;
        }
    }
    vstd::set_lib::lemma_len_subset(all.to_set(), vstd::set_lib::set_int_range(0, g.len() as int));
}

proof fn lemma_chain_exact(
    g: Seq<Seq<int>>,
    height: spec_fn(int) -> int,
    v: int,
    known: Map<int, int>,
    visiting: Seq<int>,
)
    requires
        closed_graph(g),
        descends(g, height),
        0 <= v < g.len(),
        height(v) >= 0,
        stands_above(g, height, visiting, v),
        knows(g, height, known),
    ensures
        chain(g, v, known, visiting).0 == levels(g, height, v),
        knows(g, height, chain(g, v, known, visiting).1),
    decreases height(v), g[v].len() + 1,
{
    lemma_room(g, height, visiting, v);
    if !known.contains_key(v) {
        let deeper = visiting.push(v);
        assert(!visiting.contains(v));
        lemma_chain_over_exact(g, height, v, 0, known, deeper);
    }
}

proof fn lemma_chain_over_exact(
    g: Seq<Seq<int>>,
    height: spec_fn(int) -> int,
    v: int,
    k: int,
    known: Map<int, int>,
    visiting: Seq<int>,
)
    requires
        closed_graph(g),
        descends(g, height),
        0 <= v < g.len(),
        height(v) >= 0,
        0 <= k <= g[v].len(),
        visiting.len() > 0,
        visiting.last() == v,
        stands_above(g, height, visiting.drop_last(), v),
        knows(g, height, known),
    ensures
        chain_over(g, v, k, levels_over(g, height, v, k), known, visiting).0 == levels(
            g,
            height,
            v,
        ),
        knows(
            g,
            height,
            chain_over(g, v, k, levels_over(g, height, v, k), known, visiting).1,
        ),
    decreases height(v), g[v].len() - k,
{
    lemma_room(g, height, visiting.drop_last(), v);
    if k < g[v].len() {
        let w = g[v][k];
        assert(0 <= height(w) < height(v));
        assert(stands_above(g, height, visiting, w)) by {
            let above = visiting.drop_last();
            assert forall|i: int| 0 <= i < visiting.len() implies 0 <= #[trigger] visiting[i]
                < g.len() && height(visiting[i]) > height(w) by {
                if i < above.len() {
                    assert(above[i] == visiting[i]);
                }
            }
            assert(visiting =~= above.push(v));
            assert(!above.contains(v));
            assert forall|i: int, j: int|
                0 <= i < visiting.len() && 0 <= j < visiting.len() && i != j implies visiting[i]
                != visiting[j] by {
                if i < above.len() && j < above.len() {
                    assert(above[i] != above[j]);
                } else if i < above.len() {
                    assert(above.contains(above[i]));
                } else {
                    assert(above.contains(above[j]));
                }
            }
        }
        lemma_chain_exact(g, height, w, known, visiting);
        let (depth, after) = chain(g, w, known, visiting);
        lemma_chain_over_exact(g, height, v, k + 1, after, visiting);
    }
}

proof fn lemma_path_bound(g: Seq<Seq<int>>, height: spec_fn(int) -> int, p: Seq<int>)
    requires
        descends(g, height),
        is_path(g, p),
    ensures
        p.len() <= levels(g, height, p[0]),
    decreases p.len(),
{
    let v = p[0];
    lemma_levels_grow(g, height, v, 0, g[v].len() as int);
    if p.len() > 1 {
        let rest = p.drop_first();
        assert(is_path(g, rest)) by {
            assert forall|i: int| 0 <= i < rest.len() implies 0 <= #[trigger] rest[i] < g.len() by {
                assert(rest[i] == p[i + 1]);
            }
            assert forall|i: int|
                #![trigger rest[i]]
                0 <= i < rest.len() - 1 implies g[rest[i]].contains(rest[i + 1]) by {
                assert(rest[i] == p[i + 1]);
                assert(rest[i + 1] == p[i + 1 + 1]);
            }
        }
        lemma_path_bound(g, height, rest);
        assert(g[p[0]].contains(p[0int + 1]));
        let k = choose|k: int| 0 <= k < g[v].len() && g[v][k] == p[1];
        assert(0 <= height(g[v][k]) < height(v));
        lemma_levels_grow(g, height, v, k + 1, g[v].len() as int);
        assert(rest[0] == p[1]);
    }
}

proof fn lemma_path_exists(g: Seq<Seq<int>>, height: spec_fn(int) -> int, v: int) -> (p: Seq<int>)
    requires
        closed_graph(g),
        descends(g, height),
        0 <= v < g.len(),
        height(v) >= 0,
    ensures
        is_path(g, p),
        p[0] == v,
        p.len() == levels(g, height, v),
    decreases height(v), g[v].len() + 1,
{
    lemma_path_over(g, height, v, g[v].len() as int)
}

proof fn lemma_path_over(g: Seq<Seq<int>>, height: spec_fn(int) -> int, v: int, k: int) -> (p: Seq<
    int,
>)
    requires
        closed_graph(g),
        descends(g, height),
        0 <= v < g.len(),
        height(v) >= 0,
        0 <= k <= g[v].len(),
    ensures
        is_path(g, p),
        p[0] == v,
        p.len() == levels_over(g, height, v, k),
    decreases height(v), k,
{
    if k == 0 {
        seq![v]
    } else {
        let before = lemma_path_over(g, height, v, k - 1);
        let w = g[v][k - 1];
        assert(0 <= height(w) < height(v));
        if 1 + levels(g, height, w) > levels_over(g, height, v, k - 1) {
            let rest = lemma_path_exists(g, height, w);
            let p = seq![v] + rest;
            assert forall|i: int| 0 <= i < p.len() implies 0 <= #[trigger] p[i] < g.len() by {
                if i > 0 {
                    assert(p[i] == rest[i - 1]);
                }
            }
            assert forall|i: int|
                #![trigger p[i]]
                0 <= i < p.len() - 1 implies g[p[i]].contains(p[i + 1]) by {
                assert(p[i + 1] == rest[i]);
                if i > 0 {
                    assert(p[i] == rest[i - 1]);
                    assert(g[rest[i - 1]].contains(rest[i - 1 + 1]));
                } else {
                    assert(g[v][k - 1] == rest[0]);
                }
            }
            p
        } else {
            before
        }
    }
}

proof fn lemma_longest_exact(
    g: Seq<Seq<int>>,
    height: spec_fn(int) -> int,
    roots: Seq<int>,
    k: int,
)
    requires
        closed_graph(g),
        descends(g, height),
        0 <= k <= roots.len(),
        forall|i: int| 0 <= i < roots.len() ==> 0 <= #[trigger] roots[i] < g.len() && height(roots[i])
            >= 0,
    ensures
        knows(g, height, longest(g, roots, k).1),
        forall|i: int|
            0 <= i < k ==> levels(g, height, #[trigger] roots[i]) <= longest(g, roots, k).0,
        k > 0 ==> exists|i: int|
            0 <= i < k && longest(g, roots, k).0 == levels(g, height, #[trigger] roots[i]),
        k == 0 ==> longest(g, roots, k).0 == 0,
    decreases k,
{
    if k > 0 {
        lemma_longest_exact(g, height, roots, k - 1);
        let (best, known) = longest(g, roots, k - 1);
        let v = roots[k - 1];
        lemma_chain_exact(g, height, v, known, Seq::empty());
        lemma_levels_grow(g, height, v, 0, g[v].len() as int);
        if longest(g, roots, k).0 == levels(g, height, v) {
            assert(longest(g, roots, k).0 == levels(g, height, roots[k - 1]));
        } else {
            let i = choose|i: int|
                0 <= i < k - 1 && best == levels(g, height, #[trigger] roots[i]);
            assert(longest(g, roots, k).0 == levels(g, height, roots[i]));
        }
    }
}

/// In a graph without cycles the longest chain is the longest path from a root.
pub proof fn longest_chain_is_the_longest_path(
    g: Seq<Seq<int>>,
    height: spec_fn(int) -> int,
    roots: Seq<int>,
)
    requires
        closed_graph(g),
        descends(g, height),
        forall|i: int| 0 <= i < roots.len() ==> 0 <= #[trigger] roots[i] < g.len() && height(roots[i])
            >= 0,
    ensures
        forall|p: Seq<int>| #[trigger]
            is_path(g, p) && roots.contains(p[0]) ==> p.len() <= longest(
                g,
                roots,
                roots.len() as int,
            ).0,
        roots.len() > 0 ==> exists|p: Seq<int>| #[trigger]
            is_path(g, p) && roots.contains(p[0]) && p.len() == longest(
                g,
                roots,
                roots.len() as int,
            ).0,
{
    let k = roots.len() as int;
    lemma_longest_exact(g, height, roots, k);
    assert forall|p: Seq<int>| #[trigger] is_path(g, p) && roots.contains(p[0]) implies p.len()
        <= longest(g, roots, k).0 by {
        lemma_path_bound(g, height, p);
        let i = choose|i: int| 0 <= i < roots.len() && roots[i] == p[0];
        assert(levels(g, height, roots[i]) <= longest(g, roots, k).0);
    }
    if roots.len() > 0 {
        let i = choose|i: int|
            0 <= i < k && longest(g, roots, k).0 == levels(g, height, #[trigger] roots[i]);
        let p = lemma_path_exists(g, height, roots[i]);
        assert(is_path(g, p) && roots.contains(p[0]) && p.len() == longest(g, roots, k).0);
    }
}

} // verus!
