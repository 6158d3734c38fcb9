//! Measures over lists of nodes: how deep they nest, and how many children of
//! a kind they have.

use vstd::prelude::*;

use crate::kind::{Kind, KindSet};
use crate::tree::{
    all_in, children, count, lemma_count_step, lemma_peak_step, lemma_siblings, lemma_take_all,
    peak, raw_word, within, Node, Tree, MAX_NODES,
};
use crate::word::Word;

verus! {

/// The nodes that are `j` or above it.
pub open spec fn enclosing(n: Seq<Node>, j: usize) -> spec_fn(usize) -> bool {
    |a: usize| within(n, a as int, j as int)
}

/// How many nodes of a list are a node or above it.
pub open spec fn nest_level(n: Seq<Node>, s: Seq<usize>) -> spec_fn(usize) -> int {
    |j: usize| count(s, enclosing(n, j))
}

/// How deep the nodes of a list nest in each other.
pub open spec fn deepest(n: Seq<Node>, s: Seq<usize>) -> int {
    peak(s, nest_level(n, s))
}

/// The children of the given kind.
pub open spec fn of_kind(n: Seq<Node>, k: Kind) -> spec_fn(usize) -> bool {
    |c: usize| n[c as int].kind == k
}

/// The number of children of a node that are of a kind.
pub open spec fn direct(n: Seq<Node>, i: int, k: Kind) -> int {
    count(children(n, i), of_kind(n, k))
}

/// The keywords with the given text.
pub open spec fn spelled(n: Seq<Node>, w: Word) -> spec_fn(usize) -> bool {
    |i: usize| raw_word(n, i as int) == w
}

/// The number of keywords with the given text in the subtree of a node.
pub open spec fn keyword_count(n: Seq<Node>, i: int, w: Word) -> int {
    count(all_in(n, i, KindSet::Only(Kind::Keyword)), spelled(n, w))
}

/// How many nodes of a list are a node or above it.
pub fn level_in(tree: &Tree, s: &Vec<usize>, j: usize) -> (r: u64)
    requires
        tree.wf(),
        s@.len() <= MAX_NODES,
        forall|k: int| 0 <= k < s@.len() ==> (#[trigger] s@[k]) < tree@.len(),
    ensures
        r == count(s@, enclosing(tree@, j)),
        r <= s@.len(),
{
    let ghost n = tree@;
    let ghost p = enclosing(n, j);
    proof {
        lemma_take_all(s@);
    }
    let mut found: u64 = 0;
    let mut k: usize = 0;
    while k < s.len()
        invariant
            n == tree@,
            p == enclosing(n, j),
            k <= s@.len() <= MAX_NODES,
            forall|l: int| 0 <= l < s@.len() ==> (#[trigger] s@[l]) < n.len(),
            found == count(s@.take(k as int), p),
            found <= k,
        decreases s@.len() - k,
    {
        proof {
            lemma_count_step(s@, k as int, p);
        }
        let a: usize = s[k];
        if a <= j && j < tree.end_at(a) {
            found = found + 1;
        }
        k = k + 1;
    }
    found
}

/// How deep the nodes of a list nest in each other.
pub fn deepest_nest(tree: &Tree, s: &Vec<usize>) -> (r: u64)
    requires
        tree.wf(),
        s@.len() <= MAX_NODES,
        forall|k: int| 0 <= k < s@.len() ==> (#[trigger] s@[k]) < tree@.len(),
    ensures
        r == deepest(tree@, s@),
        r <= s@.len(),
{
    let ghost n = tree@;
    let ghost f = nest_level(n, s@);
    proof {
        lemma_take_all(s@);
    }
    let mut best: u64 = 0;
    let mut k: usize = 0;
    while k < s.len()
        invariant
            tree.wf(),
            n == tree@,
            f == nest_level(n, s@),
            k <= s@.len() <= MAX_NODES,
            forall|l: int| 0 <= l < s@.len() ==> (#[trigger] s@[l]) < n.len(),
            best == peak(s@.take(k as int), f),
            best <= s@.len(),
        decreases s@.len() - k,
    {
        proof {
            lemma_peak_step(s@, k as int, f);
        }
        let here: u64 = level_in(tree, s, s[k]);
        if here > best {
            best = here;
        }
        k = k + 1;
    }
    best
}

/// The number of children of a node that are of a kind.
pub fn count_direct(tree: &Tree, i: usize, kind: Kind) -> (r: u64)
    requires
        tree.wf(),
        tree.holds(i),
    ensures
        r == direct(tree@, i as int, kind),
        r <= MAX_NODES,
{
    let ghost n = tree@;
    let ghost p = of_kind(n, kind);
    let kids = tree.children(i);
    proof {
        lemma_siblings(n, i + 1, n[i as int].end as int);
        lemma_take_all(kids@);
    }
    let mut found: u64 = 0;
    let mut k: usize = 0;
    while k < kids.len()
        invariant
            n == tree@,
            p == of_kind(n, kind),
            k <= kids@.len() <= MAX_NODES,
            forall|l: int| 0 <= l < kids@.len() ==> (#[trigger] kids@[l]) < n.len(),
            found == count(kids@.take(k as int), p),
            found <= k,
        decreases kids@.len() - k,
    {
        proof {
            lemma_count_step(kids@, k as int, p);
        }
        if tree.kind_at(kids[k]) == kind {
            found = found + 1;
        }
        k = k + 1;
    }
    found
}

/// The number of nodes of a set in a subtree.
pub fn count_any(tree: &Tree, i: usize, set: KindSet) -> (r: u64)
    requires
        tree.wf(),
        tree.holds(i),
    ensures
        r == all_in(tree@, i as int, set).len(),
        r <= MAX_NODES,
{
    let v = tree.all_in(i, set);
    proof {
        crate::tree::lemma_crawl(tree@, i as int, crate::tree::every(set));
    }
    v.len() as u64
}

/// The number of nodes of a kind in a subtree.
pub fn count_anywhere(tree: &Tree, i: usize, kind: Kind) -> (r: u64)
    requires
        tree.wf(),
        tree.holds(i),
    ensures
        r == all_in(tree@, i as int, KindSet::Only(kind)).len(),
        r <= MAX_NODES,
{
    count_any(tree, i, KindSet::Only(kind))
}

/// The number of keywords with the given text in a subtree.
pub fn count_keyword(tree: &Tree, i: usize, w: Word) -> (r: u64)
    requires
        tree.wf(),
        tree.holds(i),
    ensures
        r == keyword_count(tree@, i as int, w),
{
    let ghost n = tree@;
    let ghost p = spelled(n, w);
    let v = tree.all_in(i, KindSet::Only(Kind::Keyword));
    proof {
        crate::tree::lemma_crawl(n, i as int, crate::tree::every(KindSet::Only(Kind::Keyword)));
        lemma_take_all(v@);
    }
    let mut found: u64 = 0;
    let mut k: usize = 0;
    while k < v.len()
        invariant
            n == tree@,
            p == spelled(n, w),
            k <= v@.len() <= MAX_NODES,
            forall|l: int| 0 <= l < v@.len() ==> (#[trigger] v@[l]) < n.len(),
            found == count(v@.take(k as int), p),
            found <= k,
        decreases v@.len() - k,
    {
        proof {
            lemma_count_step(v@, k as int, p);
        }
        if tree.word(v[k]) == w {
            found = found + 1;
        }
        k = k + 1;
    }
    found
}

} // verus!
