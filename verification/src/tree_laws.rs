//! Counting in a tree by looking at its nodes one by one.

use vstd::prelude::*;

use crate::kind::{Kind, KindSet};
use crate::measure::{deepest, direct, enclosing, nest_level, of_kind};
use crate::tree::{
    all_in, code_children, code_siblings, count, crawl, every, is_trivia, kept, lemma_crawl,
    lemma_same_number, number, peak, reported, reports, siblings, sum, well_formed, Node, Probe,
    MAX_NODES,
};

verus! {

// ── numbers and totals ─────────────────────────────────────────────────

/// What the positions `lo..hi` come to, added up.
pub open spec fn total(lo: int, hi: int, f: spec_fn(int) -> int) -> int
    decreases hi - lo,
{
    if hi <= lo {
        0
    } else {
        total(lo, hi - 1, f) + f(hi - 1)
    }
}

/// How many nodes of a subtree satisfy `p`.
pub open spec fn nodes_in(n: Seq<Node>, root: int, p: spec_fn(int) -> bool) -> int {
    number(root, n[root].end as int, p)
}

/// What the nodes of a subtree come to, added up.
pub open spec fn total_in(n: Seq<Node>, root: int, f: spec_fn(int) -> int) -> int {
    total(root, n[root].end as int, f)
}

/// Whether `m` is the most that a node of a subtree that satisfies `p` comes to,
/// nothing where there is none.
pub open spec fn most_in(
    n: Seq<Node>,
    root: int,
    p: spec_fn(int) -> bool,
    f: spec_fn(int) -> int,
    m: int,
) -> bool {
    &&& m >= 0
    &&& forall|j: int| root <= j < n[root].end && #[trigger] p(j) ==> f(j) <= m
    &&& m > 0 ==> exists|j: int| root <= j < n[root].end && #[trigger] p(j) && f(j) == m
}

/// The positions up to and from a middle are all of them.
pub proof fn lemma_number_split(lo: int, mid: int, hi: int, p: spec_fn(int) -> bool)
    requires
        lo <= mid <= hi,
    ensures
        number(lo, hi, p) == number(lo, mid, p) + number(mid, hi, p),
    decreases hi - mid,
{
    if mid < hi {
        lemma_number_split(lo, mid, hi - 1, p);
    }
}

/// No position satisfies what none satisfies.
pub proof fn lemma_number_none(lo: int, hi: int, p: spec_fn(int) -> bool)
    requires
        forall|i: int| lo <= i < hi ==> !#[trigger] p(i),
    ensures
        number(lo, hi, p) == 0,
    decreases hi - lo,
{
    if lo < hi {
        lemma_number_none(lo, hi - 1, p);
        assert(!p(hi - 1));
    }
}

/// Sums of what agrees on every position agree.
pub proof fn lemma_same_total(lo: int, hi: int, f: spec_fn(int) -> int, g: spec_fn(int) -> int)
    requires
        forall|i: int| lo <= i < hi ==> #[trigger] f(i) == g(i),
    ensures
        total(lo, hi, f) == total(lo, hi, g),
    decreases hi - lo,
{
    if lo < hi {
        lemma_same_total(lo, hi - 1, f, g);
        assert(f(hi - 1) == g(hi - 1));
    }
}

// ── nodes of a set ─────────────────────────────────────────────────────

proof fn lemma_listed_to(n: Seq<Node>, root: int, set: KindSet, hi: int, q: spec_fn(int) -> bool)
    requires
        well_formed(n),
        0 <= root,
        hi <= n.len(),
        !set.holds(Kind::ObjectReference),
        forall|j: int| root <= j < hi ==> #[trigger] q(j) == set.holds(n[j].kind),
    ensures
        reported(n, root, every(set), hi).len() == number(root, hi, q),
    decreases hi - root,
{
    if hi > root {
        lemma_listed_to(n, root, set, hi - 1, q);
        assert(q(hi - 1) == reports(n, root, every(set), hi - 1));
    }
}

/// The nodes of a set in a subtree are as many as are of a kind of the set.
pub proof fn lemma_listed(n: Seq<Node>, root: int, set: KindSet, q: spec_fn(int) -> bool)
    requires
        well_formed(n),
        0 <= root < n.len(),
        !set.holds(Kind::ObjectReference),
        forall|j: int| root <= j < n[root].end ==> #[trigger] q(j) == set.holds(n[j].kind),
    ensures
        all_in(n, root, set).len() == nodes_in(n, root, q),
{
    lemma_listed_to(n, root, set, n[root].end as int, q);
}

proof fn lemma_counted_to(
    n: Seq<Node>,
    root: int,
    set: KindSet,
    hi: int,
    p: spec_fn(usize) -> bool,
    q: spec_fn(int) -> bool,
)
    requires
        well_formed(n),
        0 <= root,
        hi <= n.len(),
        !set.holds(Kind::ObjectReference),
        forall|j: int|
            root <= j < hi ==> #[trigger] q(j) == (set.holds(n[j].kind) && p(j as usize)),
    ensures
        count(reported(n, root, every(set), hi), p) == number(root, hi, q),
    decreases hi - root,
{
    if hi > root {
        lemma_counted_to(n, root, set, hi - 1, p, q);
        let s = reported(n, root, every(set), hi);
        let t = reported(n, root, every(set), hi - 1);
        assert(reports(n, root, every(set), hi - 1) == set.holds(n[hi - 1].kind));
        assert(q(hi - 1) == (set.holds(n[hi - 1].kind) && p((hi - 1) as usize)));
        if reports(n, root, every(set), hi - 1) {
            assert(s.drop_last() =~= t);
        }
    }
}

/// Those nodes of a set that satisfy `p` are as many as are of a kind of the set
/// and satisfy `p`.
pub proof fn lemma_counted(
    n: Seq<Node>,
    root: int,
    set: KindSet,
    p: spec_fn(usize) -> bool,
    q: spec_fn(int) -> bool,
)
    requires
        well_formed(n),
        0 <= root < n.len(),
        !set.holds(Kind::ObjectReference),
        forall|j: int|
            root <= j < n[root].end ==> #[trigger] q(j) == (set.holds(n[j].kind) && p(
                j as usize,
            )),
    ensures
        count(all_in(n, root, set), p) == nodes_in(n, root, q),
{
    lemma_counted_to(n, root, set, n[root].end as int, p, q);
}

proof fn lemma_totalled_to(
    n: Seq<Node>,
    root: int,
    set: KindSet,
    hi: int,
    f: spec_fn(usize) -> int,
    g: spec_fn(int) -> int,
)
    requires
        well_formed(n),
        0 <= root,
        hi <= n.len(),
        !set.holds(Kind::ObjectReference),
        forall|j: int|
            root <= j < hi ==> #[trigger] g(j) == if set.holds(n[j].kind) {
                f(j as usize)
            } else {
                0
            },
    ensures
        sum(reported(n, root, every(set), hi), f) == total(root, hi, g),
    decreases hi - root,
{
    if hi > root {
        lemma_totalled_to(n, root, set, hi - 1, f, g);
        let s = reported(n, root, every(set), hi);
        let t = reported(n, root, every(set), hi - 1);
        assert(reports(n, root, every(set), hi - 1) == set.holds(n[hi - 1].kind));
        assert(g(hi - 1) == if set.holds(n[hi - 1].kind) {
            f((hi - 1) as usize)
        } else {
            0
        });
        if reports(n, root, every(set), hi - 1) {
            assert(s.drop_last() =~= t);
        }
    }
}

/// What the nodes of a set come to, added up node by node.
pub proof fn lemma_totalled(
    n: Seq<Node>,
    root: int,
    set: KindSet,
    f: spec_fn(usize) -> int,
    g: spec_fn(int) -> int,
)
    requires
        well_formed(n),
        0 <= root < n.len(),
        !set.holds(Kind::ObjectReference),
        forall|j: int|
            root <= j < n[root].end ==> #[trigger] g(j) == if set.holds(n[j].kind) {
                f(j as usize)
            } else {
                0
            },
    ensures
        sum(all_in(n, root, set), f) == total_in(n, root, g),
{
    lemma_totalled_to(n, root, set, n[root].end as int, f, g);
}

proof fn lemma_peak(s: Seq<usize>, f: spec_fn(usize) -> int)
    ensures
        peak(s, f) >= 0,
        forall|k: int| 0 <= k < s.len() ==> f(#[trigger] s[k]) <= peak(s, f),
        peak(s, f) > 0 ==> exists|k: int| 0 <= k < s.len() && f(#[trigger] s[k]) == peak(s, f),
    decreases s.len(),
{
    if s.len() > 0 {
        let t = s.drop_last();
        lemma_peak(t, f);
        assert forall|k: int| 0 <= k < s.len() implies f(#[trigger] s[k]) <= peak(s, f) by {
            if k < t.len() {
                assert(t[k] == s[k]);
            }
        }
        if peak(s, f) > 0 {
            if f(s.last()) == peak(s, f) {
                assert(s[s.len() - 1] == s.last());
            } else {
                let k = choose|k: int| 0 <= k < t.len() && f(#[trigger] t[k]) == peak(t, f);
                assert(s[k] == t[k]);
            }
        }
    }
}

/// A node of a set is listed.
pub proof fn lemma_is_reported(n: Seq<Node>, root: int, set: KindSet, hi: int, j: int) -> (k: int)
    requires
        0 <= root <= j < hi <= n.len() <= MAX_NODES,
        set.holds(n[j].kind),
    ensures
        0 <= k < reported(n, root, every(set), hi).len(),
        reported(n, root, every(set), hi)[k] == j,
    decreases hi - j,
{
    assert(reports(n, root, every(set), j));
    if hi - 1 > j {
        lemma_is_reported(n, root, set, hi - 1, j)
    } else {
        reported(n, root, every(set), hi).len() - 1
    }
}

/// The most that a node of a set comes to.
pub proof fn lemma_peaked(
    n: Seq<Node>,
    root: int,
    set: KindSet,
    f: spec_fn(usize) -> int,
    p: spec_fn(int) -> bool,
    g: spec_fn(int) -> int,
)
    requires
        well_formed(n),
        0 <= root < n.len(),
        !set.holds(Kind::ObjectReference),
        forall|j: int| root <= j < n[root].end ==> #[trigger] p(j) == set.holds(n[j].kind),
        forall|j: int| root <= j < n[root].end && #[trigger] p(j) ==> g(j) == f(j as usize),
    ensures
        most_in(n, root, p, g, peak(all_in(n, root, set), f)),
{
    let s = all_in(n, root, set);
    let m = peak(s, f);
    lemma_peak(s, f);
    lemma_crawl(n, root, every(set));
    assert forall|j: int| root <= j < n[root].end && #[trigger] p(j) implies g(j) <= m by {
        let k = lemma_is_reported(n, root, set, n[root].end as int, j);
        assert(f(s[k]) <= m);
    }
    if m > 0 {
        let k = choose|k: int| 0 <= k < s.len() && f(#[trigger] s[k]) == m;
        let j = s[k] as int;
        assert(p(j));
        assert(g(j) == m);
    }
}

// ── children ───────────────────────────────────────────────────────────

/// Whether the node at `c` is a child of the node at `i`: one of its
/// descendants that no other of its descendants holds.
pub open spec fn child_of(n: Seq<Node>, i: int, c: int) -> bool {
    &&& i < c < n[i].end
    &&& forall|a: int| i < a < c ==> #[trigger] n[a].end <= c
}

spec fn on_top(n: Seq<Node>, lo: int, c: int) -> bool {
    forall|a: int| lo <= a < c ==> #[trigger] n[a].end <= c
}

proof fn lemma_count_cons(c: usize, s: Seq<usize>, p: spec_fn(usize) -> bool)
    ensures
        count(seq![c] + s, p) == count(s, p) + if p(c) {
            1int
        } else {
            0
        },
    decreases s.len(),
{
    let t = seq![c] + s;
    if s.len() == 0 {
        assert(t.drop_last() =~= Seq::<usize>::empty());
        assert(count(t.drop_last(), p) == 0);
    } else {
        lemma_count_cons(c, s.drop_last(), p);
        assert(t.drop_last() =~= seq![c] + s.drop_last());
    }
}

proof fn lemma_sibling_count(
    n: Seq<Node>,
    c: int,
    hi: int,
    p: spec_fn(usize) -> bool,
    q: spec_fn(int) -> bool,
)
    requires
        well_formed(n),
        0 <= c <= hi <= n.len(),
        forall|a: int| c <= a < hi ==> (#[trigger] n[a]).end <= hi,
        forall|x: int| c <= x < hi ==> #[trigger] q(x) == (on_top(n, c, x) && p(x as usize)),
    ensures
        count(siblings(n, c, hi), p) == number(c, hi, q),
    decreases hi - c,
{
    if c < hi {
        let d = n[c].end as int;
        let r = |x: int| on_top(n, d, x) && p(x as usize);
        lemma_sibling_count(n, d, hi, p, r);
        lemma_count_cons(c as usize, siblings(n, d, hi), p);
        lemma_number_split(c, d, hi, q);
        lemma_number_split(c, c + 1, d, q);
        assert forall|x: int| c + 1 <= x < d implies !#[trigger] q(x) by {
            assert(n[c].end > x);
        }
        lemma_number_none(c + 1, d, q);
        assert(on_top(n, c, c));
        assert(number(c, c + 1, q) == if p(c as usize) {
            1int
        } else {
            0
        }) by {
            assert(q(c) == p(c as usize));
            assert(number(c, c, q) == 0);
        }
        assert forall|x: int| d <= x < hi implies #[trigger] q(x) == r(x) by {
            if on_top(n, d, x) {
                assert forall|a: int| c <= a < x implies #[trigger] n[a].end <= x by {
                    if a < d && a > c {
                        assert(n[a].end <= n[c].end);
                    }
                }
            }
        }
        lemma_same_number(d, hi, q, r);
        assert(siblings(n, c, hi) == seq![c as usize] + siblings(n, d, hi));
    }
}

/// The children of a node that are of a kind are counted one by one.
pub proof fn lemma_direct(n: Seq<Node>, i: int, k: Kind)
    requires
        well_formed(n),
        0 <= i < n.len(),
    ensures
        direct(n, i, k) == nodes_in(n, i, |c: int| child_of(n, i, c) && n[c].kind == k),
{
    let q = |c: int| child_of(n, i, c) && n[c].kind == k;
    let hi = n[i].end as int;
    lemma_sibling_count(n, i + 1, hi, of_kind(n, k), q);
    lemma_number_split(i, i + 1, hi, q);
    assert(number(i, i + 1, q) == 0) by {
        assert(!q(i));
        assert(number(i, i, q) == 0);
    }
}

// ── crawls ─────────────────────────────────────────────────────────────

proof fn lemma_crawled_to(
    n: Seq<Node>,
    root: int,
    p: Probe,
    hi: int,
    f: spec_fn(usize) -> bool,
    q: spec_fn(int) -> bool,
)
    requires
        0 <= root,
        hi <= n.len() <= MAX_NODES,
        forall|j: int|
            root <= j < hi ==> #[trigger] q(j) == (reports(n, root, p, j) && f(j as usize)),
    ensures
        count(reported(n, root, p, hi), f) == number(root, hi, q),
    decreases hi - root,
{
    if hi > root {
        lemma_crawled_to(n, root, p, hi - 1, f, q);
        let s = reported(n, root, p, hi);
        let t = reported(n, root, p, hi - 1);
        assert(q(hi - 1) == (reports(n, root, p, hi - 1) && f((hi - 1) as usize)));
        if reports(n, root, p, hi - 1) {
            assert(s.drop_last() =~= t);
        }
    }
}

/// What a crawl reports and satisfies `f` is counted node by node.
pub proof fn lemma_crawled(
    n: Seq<Node>,
    root: int,
    p: Probe,
    f: spec_fn(usize) -> bool,
    q: spec_fn(int) -> bool,
)
    requires
        well_formed(n),
        0 <= root < n.len(),
        forall|j: int|
            root <= j < n[root].end ==> #[trigger] q(j) == (reports(n, root, p, j) && f(
                j as usize,
            )),
    ensures
        count(crawl(n, root, p), f) == nodes_in(n, root, q),
{
    lemma_crawled_to(n, root, p, n[root].end as int, f, q);
}

/// What a crawl reports is counted node by node.
pub proof fn lemma_crawled_all(n: Seq<Node>, root: int, p: Probe, q: spec_fn(int) -> bool)
    requires
        well_formed(n),
        0 <= root < n.len(),
        forall|j: int| root <= j < n[root].end ==> #[trigger] q(j) == reports(n, root, p, j),
    ensures
        crawl(n, root, p).len() == nodes_in(n, root, q),
{
    let f = |j: usize| true;
    lemma_crawled(n, root, p, f, q);
    lemma_count_all(crawl(n, root, p), f);
}

proof fn lemma_count_all(s: Seq<usize>, f: spec_fn(usize) -> bool)
    requires
        forall|j: usize| #[trigger] f(j),
    ensures
        count(s, f) == s.len(),
    decreases s.len(),
{
    if s.len() > 0 {
        lemma_count_all(s.drop_last(), f);
        assert(f(s.last()));
    }
}

// ── the highest, and nesting ───────────────────────────────────────────

/// The most that one of the positions `lo..hi` comes to, and at least nothing.
pub open spec fn highest(lo: int, hi: int, f: spec_fn(int) -> int) -> int
    decreases hi - lo,
{
    if hi <= lo {
        0
    } else if f(hi - 1) > highest(lo, hi - 1, f) {
        f(hi - 1)
    } else {
        highest(lo, hi - 1, f)
    }
}

/// The most that a node of a subtree comes to, and at least nothing.
pub open spec fn highest_in(n: Seq<Node>, root: int, f: spec_fn(int) -> int) -> int {
    highest(root, n[root].end as int, f)
}

/// How many nodes of a subtree that satisfy `p` a node lies in, itself included.
pub open spec fn level(n: Seq<Node>, root: int, p: spec_fn(int) -> bool, j: int) -> int {
    nodes_in(n, root, |a: int| p(a) && a <= j < n[a].end)
}

/// How deep the nodes of a subtree that satisfy `p` lie in each other.
pub open spec fn nesting(n: Seq<Node>, root: int, p: spec_fn(int) -> bool) -> int {
    highest_in(
        n,
        root,
        |j: int|
            if p(j) {
                level(n, root, p, j)
            } else {
                0
            },
    )
}

/// The highest of what agrees on every position agrees.
pub proof fn lemma_same_highest(lo: int, hi: int, f: spec_fn(int) -> int, g: spec_fn(int) -> int)
    requires
        forall|i: int| lo <= i < hi ==> #[trigger] f(i) == g(i),
    ensures
        highest(lo, hi, f) == highest(lo, hi, g),
    decreases hi - lo,
{
    if lo < hi {
        lemma_same_highest(lo, hi - 1, f, g);
        assert(f(hi - 1) == g(hi - 1));
    }
}

proof fn lemma_kept_counts(s: Seq<usize>, p: spec_fn(usize) -> bool, q: spec_fn(usize) -> bool)
    ensures
        count(kept(s, p), q) == count(s, |j: usize| p(j) && q(j)),
    decreases s.len(),
{
    if s.len() > 0 {
        lemma_kept_counts(s.drop_last(), p, q);
        if p(s.last()) {
            assert(kept(s, p).drop_last() =~= kept(s.drop_last(), p));
        }
    }
}

proof fn lemma_kept_peak(
    n: Seq<Node>,
    root: int,
    set: KindSet,
    hi: int,
    p: spec_fn(usize) -> bool,
    f: spec_fn(usize) -> int,
    g: spec_fn(int) -> int,
)
    requires
        well_formed(n),
        0 <= root,
        hi <= n.len(),
        !set.holds(Kind::ObjectReference),
        forall|j: int|
            root <= j < hi ==> #[trigger] g(j) == if set.holds(n[j].kind) && p(j as usize) {
                f(j as usize)
            } else {
                0
            },
    ensures
        peak(kept(reported(n, root, every(set), hi), p), f) == highest(root, hi, g),
    decreases hi - root,
{
    if hi > root {
        lemma_kept_peak(n, root, set, hi - 1, p, f, g);
        let s = reported(n, root, every(set), hi);
        let t = reported(n, root, every(set), hi - 1);
        assert(reports(n, root, every(set), hi - 1) == set.holds(n[hi - 1].kind));
        assert(g(hi - 1) == if set.holds(n[hi - 1].kind) && p((hi - 1) as usize) {
            f((hi - 1) as usize)
        } else {
            0
        });
        if reports(n, root, every(set), hi - 1) {
            assert(s.drop_last() =~= t);
            if p(s.last()) {
                assert(kept(s, p).drop_last() =~= kept(t, p));
            }
        }
        lemma_highest_is_no_less(root, hi - 1, g);
    }
}

proof fn lemma_highest_is_no_less(lo: int, hi: int, f: spec_fn(int) -> int)
    ensures
        highest(lo, hi, f) >= 0,
    decreases hi - lo,
{
    if lo < hi {
        lemma_highest_is_no_less(lo, hi - 1, f);
    }
}

proof fn lemma_kept_all(s: Seq<usize>, p: spec_fn(usize) -> bool)
    requires
        forall|j: usize| #[trigger] p(j),
    ensures
        kept(s, p) == s,
    decreases s.len(),
{
    if s.len() > 0 {
        lemma_kept_all(s.drop_last(), p);
        assert(p(s.last()));
        assert(s.drop_last().push(s.last()) =~= s);
    } else {
        assert(s =~= Seq::empty());
    }
}

/// The most that a node of a set comes to, node by node.
pub proof fn lemma_highest(
    n: Seq<Node>,
    root: int,
    set: KindSet,
    f: spec_fn(usize) -> int,
    g: spec_fn(int) -> int,
)
    requires
        well_formed(n),
        0 <= root < n.len(),
        !set.holds(Kind::ObjectReference),
        forall|j: int|
            root <= j < n[root].end ==> #[trigger] g(j) == if set.holds(n[j].kind) {
                f(j as usize)
            } else {
                0
            },
    ensures
        peak(all_in(n, root, set), f) == highest_in(n, root, g),
{
    let p = |j: usize| true;
    lemma_kept_all(all_in(n, root, set), p);
    lemma_kept_peak(n, root, set, n[root].end as int, p, f, g);
}

/// How many nodes of a set a node lies in, itself included.
pub proof fn lemma_level(
    n: Seq<Node>,
    root: int,
    set: KindSet,
    p: spec_fn(usize) -> bool,
    q: spec_fn(int) -> bool,
    j: int,
)
    requires
        well_formed(n),
        0 <= root < n.len(),
        0 <= j < n.len(),
        !set.holds(Kind::ObjectReference),
        forall|a: int|
            root <= a < n[root].end ==> #[trigger] q(a) == (set.holds(n[a].kind) && p(
                a as usize,
            )),
    ensures
        nest_level(n, kept(all_in(n, root, set), p))(j as usize) == level(n, root, q, j),
{
    let around = enclosing(n, j as usize);
    let s = all_in(n, root, set);
    lemma_kept_counts(s, p, around);
    let both = |a: usize| p(a) && around(a);
    let here = |a: int| q(a) && a <= j < n[a].end;
    assert forall|a: int| root <= a < n[root].end implies #[trigger] here(a) == (set.holds(
        n[a].kind,
    ) && both(a as usize)) by {
        assert(q(a) == (set.holds(n[a].kind) && p(a as usize)));
    }
    lemma_counted(n, root, set, both, here);
}

/// How deep those nodes of a set that satisfy `p` lie in each other.
pub proof fn lemma_nesting(
    n: Seq<Node>,
    root: int,
    set: KindSet,
    p: spec_fn(usize) -> bool,
    q: spec_fn(int) -> bool,
)
    requires
        well_formed(n),
        0 <= root < n.len(),
        !set.holds(Kind::ObjectReference),
        forall|a: int|
            root <= a < n[root].end ==> #[trigger] q(a) == (set.holds(n[a].kind) && p(
                a as usize,
            )),
    ensures
        deepest(n, kept(all_in(n, root, set), p)) == nesting(n, root, q),
{
    let s = kept(all_in(n, root, set), p);
    let f = nest_level(n, s);
    let g = |j: int|
        if q(j) {
            level(n, root, q, j)
        } else {
            0
        };
    assert forall|j: int| root <= j < n[root].end implies #[trigger] g(j) == if set.holds(n[j].kind)
        && p(j as usize) {
        f(j as usize)
    } else {
        0
    } by {
        assert(q(j) == (set.holds(n[j].kind) && p(j as usize)));
        lemma_level(n, root, set, p, q, j);
    }
    lemma_kept_peak(n, root, set, n[root].end as int, p, f, g);
}

/// How deep the nodes of a kind lie in each other.
pub proof fn lemma_nesting_of_kind(n: Seq<Node>, root: int, k: Kind, q: spec_fn(int) -> bool)
    requires
        well_formed(n),
        0 <= root < n.len(),
        k != Kind::ObjectReference,
        forall|a: int| root <= a < n[root].end ==> #[trigger] q(a) == (n[a].kind == k),
    ensures
        deepest(n, all_in(n, root, KindSet::Only(k))) == nesting(n, root, q),
        forall|j: int|
            0 <= j < n.len() ==> #[trigger] nest_level(n, all_in(n, root, KindSet::Only(k)))(
                j as usize,
            ) == level(n, root, q, j),
{
    let set = KindSet::Only(k);
    let p = |j: usize| true;
    let s = all_in(n, root, set);
    lemma_kept_all(s, p);
    lemma_nesting(n, root, set, p, q);
    assert forall|j: int| 0 <= j < n.len() implies #[trigger] nest_level(n, s)(j as usize) == level(
        n,
        root,
        q,
        j,
    ) by {
        lemma_level(n, root, set, p, q, j);
    }
}

/// What a crawl reports is added up, and its most found, node by node.
pub proof fn lemma_crawl_measured(
    n: Seq<Node>,
    root: int,
    p: Probe,
    hi: int,
    f: spec_fn(usize) -> int,
    g: spec_fn(int) -> int,
)
    requires
        0 <= root,
        hi <= n.len() <= MAX_NODES,
        forall|j: int|
            root <= j < hi ==> #[trigger] g(j) == if reports(n, root, p, j) {
                f(j as usize)
            } else {
                0
            },
    ensures
        sum(reported(n, root, p, hi), f) == total(root, hi, g),
        peak(reported(n, root, p, hi), f) == highest(root, hi, g),
    decreases hi - root,
{
    if hi > root {
        lemma_crawl_measured(n, root, p, hi - 1, f, g);
        lemma_highest_is_no_less(root, hi - 1, g);
        let s = reported(n, root, p, hi);
        let t = reported(n, root, p, hi - 1);
        assert(g(hi - 1) == if reports(n, root, p, hi - 1) {
            f((hi - 1) as usize)
        } else {
            0
        });
        if reports(n, root, p, hi - 1) {
            assert(s.drop_last() =~= t);
        }
    }
}

// ── children that carry code ───────────────────────────────────────────

/// The children of a node that carry code are those that are no comment, no
/// white space and not without source text, in order.
pub proof fn code_children_carry_code(n: Seq<Node>, i: int)
    requires
        well_formed(n),
        0 <= i < n.len(),
    ensures
        forall|c: int|
            0 <= c < n.len() ==> (#[trigger] code_children(n, i).contains(c as usize) <==> child_of(
                n,
                i,
                c,
            ) && !KindSet::Comments.holds(n[c].kind) && !KindSet::Spaces.holds(n[c].kind)
                && !KindSet::Metas.holds(n[c].kind)),
        forall|k: int, l: int|
            0 <= k < l < code_children(n, i).len() ==> (#[trigger] code_children(n, i)[k]) < (
            #[trigger] code_children(n, i)[l]),
{
    lemma_code_siblings(n, i + 1, n[i].end as int);
    assert forall|c: int| 0 <= c < n.len() implies (#[trigger] code_children(n, i).contains(
        c as usize,
    ) <==> child_of(n, i, c) && !KindSet::Comments.holds(n[c].kind) && !KindSet::Spaces.holds(
        n[c].kind,
    ) && !KindSet::Metas.holds(n[c].kind)) by {
        assert(child_of(n, i, c) == (i + 1 <= c < n[i].end && on_top(n, i + 1, c)));
    }
}

proof fn lemma_code_siblings(n: Seq<Node>, c: int, hi: int)
    requires
        well_formed(n),
        0 <= c <= hi <= n.len(),
        forall|a: int| c <= a < hi ==> (#[trigger] n[a]).end <= hi,
    ensures
        forall|x: int|
            0 <= x < n.len() ==> (#[trigger] code_siblings(n, c, hi).contains(x as usize) <==> c
                <= x < hi && on_top(n, c, x) && !is_trivia(n[x].kind)),
        forall|k: int|
            0 <= k < code_siblings(n, c, hi).len() ==> c <= (#[trigger] code_siblings(n, c, hi)[k])
                < hi,
        forall|k: int, l: int|
            0 <= k < l < code_siblings(n, c, hi).len() ==> (#[trigger] code_siblings(n, c, hi)[k])
                < (#[trigger] code_siblings(n, c, hi)[l]),
    decreases hi - c,
{
    let s = code_siblings(n, c, hi);
    if c < hi {
        let d = n[c].end as int;
        let t = code_siblings(n, d, hi);
        lemma_code_siblings(n, d, hi);
        assert(s == if is_trivia(n[c].kind) {
            t
        } else {
            seq![c as usize] + t
        });
        assert forall|x: int| 0 <= x < n.len() implies (#[trigger] s.contains(x as usize) <==> c
            <= x < hi && on_top(n, c, x) && !is_trivia(n[x].kind)) by {
            if d <= x < hi {
                if on_top(n, d, x) {
                    assert forall|a: int| c <= a < x implies #[trigger] n[a].end <= x by {
                        if c < a < d {
                            assert(n[a].end <= n[c].end);
                        }
                    }
                }
                assert(on_top(n, c, x) == on_top(n, d, x));
            }
            if c < x < d {
                assert(n[c].end > x);
            }
            if x == c {
                assert(on_top(n, c, c));
            }
            if !is_trivia(n[c].kind) {
                assert(s[0] == c);
                if t.contains(x as usize) {
                    let k = choose|k: int| 0 <= k < t.len() && t[k] == x as usize;
                    assert(s[k + 1] == t[k]);
                }
                if s.contains(x as usize) && x != c {
                    let k = choose|k: int| 0 <= k < s.len() && s[k] == x as usize;
                    assert(t[k - 1] == s[k]);
                }
            }
            assert(t.contains(x as usize) <==> d <= x < hi && on_top(n, d, x) && !is_trivia(
                n[x].kind,
            ));
        }
    }
}

} // verus!
