//! The syntax tree as an arena in pre-order.
//!
//! A node's subtree is the range of positions from the node up to its `end`,
//! so that descent, ancestry and identity are statements about positions.

use vstd::prelude::*;

use crate::kind::{Kind, KindSet};
use crate::text::{to_upper, trim, trimmed, upper};
use crate::word::{classify_word, word_of, Word};

verus! {

/// The most nodes that a tree can have: so many that 32 bits can number them
/// and the position after the last one.
pub const MAX_NODES: usize = 0xffff_fffe;

/// One node: its kind, its source text, the byte range it was read from, and
/// the position after its last descendant.
pub ghost struct Node {
    pub kind: Kind,
    pub raw: Seq<char>,
    pub span: Option<(u32, u32)>,
    pub end: usize,
}

/// One node in memory.
pub struct Segment {
    pub kind: Kind,
    pub raw: Vec<char>,
    pub span: Option<(u32, u32)>,
    pub end: usize,
}

impl View for Segment {
    type V = Node;

    open spec fn view(&self) -> Node {
        Node { kind: self.kind, raw: self.raw@, span: self.span, end: self.end }
    }
}

/// The nodes that segments stand for.
pub open spec fn nodes_of(s: Seq<Segment>) -> Seq<Node> {
    Seq::new(s.len(), |i: int| s[i]@)
}

/// A syntax tree. Position 0 is the root.
pub struct Tree {
    segments: Vec<Segment>,
}

impl View for Tree {
    type V = Seq<Node>;

    closed spec fn view(&self) -> Seq<Node> {
        nodes_of(self.segments@)
    }
}

// ── shape ──────────────────────────────────────────────────────────────

/// Subtrees are nested ranges, and the root's holds every node.
pub open spec fn well_formed(n: Seq<Node>) -> bool {
    &&& 0 < n.len() <= MAX_NODES
    &&& n[0].end == n.len()
    &&& forall|i: int| 0 <= i < n.len() ==> i < (#[trigger] n[i]).end <= n.len()
    &&& forall|i: int, j: int|
        #![trigger n[i], n[j]]
        0 <= i < n.len() && i < j < n[i].end ==> n[j].end <= n[i].end
}

/// Whether the node at `j` is the node at `a` or one of its descendants.
pub open spec fn within(n: Seq<Node>, a: int, j: int) -> bool {
    a <= j < n[a].end
}

impl Tree {
    pub open spec fn wf(self) -> bool {
        well_formed(self@)
    }

    /// Whether a position names a node.
    pub open spec fn holds(self, i: usize) -> bool {
        i < self@.len()
    }
}

// ── leaf texts ─────────────────────────────────────────────────────────

/// The vocabulary entry of a node's text.
pub open spec fn raw_word(n: Seq<Node>, i: int) -> Word {
    word_of(upper(n[i].raw))
}

/// The vocabulary entry of a node's text without the space around it.
pub open spec fn trimmed_word(n: Seq<Node>, i: int) -> Word {
    word_of(upper(trim(n[i].raw)))
}

/// Whether a node is a comment, white space, or without source text.
pub open spec fn is_trivia(k: Kind) -> bool {
    KindSet::Comments.holds(k) || KindSet::Spaces.holds(k) || KindSet::Metas.holds(k)
}

/// Whether a node has no children.
pub open spec fn is_leaf(n: Seq<Node>, i: int) -> bool {
    n[i].end == i + 1
}

/// Whether a node is a leaf that carries code.
pub open spec fn is_code_leaf(n: Seq<Node>, i: int) -> bool {
    is_leaf(n, i) && !is_trivia(n[i].kind) && trim(n[i].raw).len() > 0
}

/// Whether a node is a keyword with the given text.
pub open spec fn is_keyword(n: Seq<Node>, i: int, w: Word) -> bool {
    n[i].kind == Kind::Keyword && raw_word(n, i) == w
}

// ── crawling ───────────────────────────────────────────────────────────

/// What a crawl looks for: nodes in `set`; `deep` when matches are searched
/// for further matches; never entering a child in `stop`; `own` when the
/// starting node itself can match.
#[derive(Clone, Copy)]
pub struct Probe {
    pub set: KindSet,
    pub deep: bool,
    pub stop: KindSet,
    pub own: bool,
}

/// A crawl for every node of a set, the starting node included.
pub open spec fn every(set: KindSet) -> Probe {
    Probe { set, deep: true, stop: KindSet::Empty, own: true }
}

/// Whether a kind belongs to a set, references counting as object references.
pub open spec fn belongs(set: KindSet, k: Kind) -> bool {
    ||| set.holds(k)
    ||| set.holds(Kind::ObjectReference) && (k == Kind::ColumnReference || k
        == Kind::WildcardIdentifier || k == Kind::TableReference)
}

/// Whether the node at `a` matches in a crawl from `root`.
pub open spec fn matched(n: Seq<Node>, root: int, p: Probe, a: int) -> bool {
    belongs(p.set, n[a].kind) && (a == root ==> p.own)
}

/// Whether a crawl from `root` goes no further down than the node at `a`.
pub open spec fn closes(n: Seq<Node>, root: int, p: Probe, a: int) -> bool {
    ||| a > root && p.stop.holds(n[a].kind)
    ||| !p.deep && matched(n, root, p, a)
}

/// Whether a crawl from `root` comes to the node at `j`: no node on the way
/// closes it off.
pub open spec fn open_to(n: Seq<Node>, root: int, p: Probe, j: int) -> bool {
    forall|a: int| root <= a < j && j < (#[trigger] n[a]).end ==> !closes(n, root, p, a)
}

/// Whether a crawl from `root` reports the node at `j`.
pub open spec fn reports(n: Seq<Node>, root: int, p: Probe, j: int) -> bool {
    &&& matched(n, root, p, j)
    &&& open_to(n, root, p, j)
    &&& (j > root ==> !p.stop.holds(n[j].kind))
}

/// What a crawl from `root` reports before position `hi`, in order.
pub open spec fn reported(n: Seq<Node>, root: int, p: Probe, hi: int) -> Seq<usize>
    decreases hi - root,
{
    if hi <= root {
        Seq::empty()
    } else if reports(n, root, p, hi - 1) {
        reported(n, root, p, hi - 1).push((hi - 1) as usize)
    } else {
        reported(n, root, p, hi - 1)
    }
}

/// What a crawl from `root` reports, in order.
pub open spec fn crawl(n: Seq<Node>, root: int, p: Probe) -> Seq<usize> {
    reported(n, root, p, n[root].end as int)
}

/// Every node of a set in the subtree of `root`, in order.
pub open spec fn all_in(n: Seq<Node>, root: int, set: KindSet) -> Seq<usize> {
    crawl(n, root, every(set))
}

proof fn lemma_skip(n: Seq<Node>, root: int, p: Probe, a: int, hi: int)
    requires
        well_formed(n),
        0 <= root <= a < n.len(),
        closes(n, root, p, a),
        a < hi <= n[a].end,
    ensures
        reported(n, root, p, hi) == reported(n, root, p, a + 1),
    decreases hi,
{
    if hi > a + 1 {
        lemma_skip(n, root, p, a, hi - 1);
        assert(!open_to(n, root, p, hi - 1)) by {
            assert(hi - 1 < n[a].end);
        }
    }
}

/// Every reported position is a node of the crawled subtree, and positions
/// ascend.
pub proof fn lemma_reported(n: Seq<Node>, root: int, p: Probe, hi: int)
    requires
        0 <= root,
        hi <= n.len() <= MAX_NODES,
    ensures
        forall|k: int|
            0 <= k < reported(n, root, p, hi).len() ==> root <= (#[trigger] reported(n, root, p, hi)[k])
                < hi && reports(n, root, p, reported(n, root, p, hi)[k] as int),
        forall|k: int, l: int|
            0 <= k < l < reported(n, root, p, hi).len() ==> (#[trigger] reported(n, root, p, hi)[k])
                < #[trigger] reported(n, root, p, hi)[l],
        reported(n, root, p, hi).len() <= if hi <= root {
            0
        } else {
            hi - root
        },
    decreases hi,
{
    if hi > root {
        lemma_reported(n, root, p, hi - 1);
    }
}

/// Whether positions ascend and name subtrees that lie apart.
#[verifier::opaque]
pub open spec fn apart(n: Seq<Node>, s: Seq<usize>) -> bool {
    forall|i: int, j: int|
        0 <= i < j < s.len() ==> n[(#[trigger] s[i]) as int].end <= (#[trigger] s[j])
}

/// A crawl that does not search its matches reports subtrees that lie apart.
pub proof fn lemma_outermost_apart(n: Seq<Node>, root: int, p: Probe)
    requires
        well_formed(n),
        0 <= root < n.len(),
        !p.deep,
    ensures
        apart(n, crawl(n, root, p)),
{
    reveal(apart);
    let s = crawl(n, root, p);
    lemma_reported(n, root, p, n[root].end as int);
    assert forall|i: int, j: int| 0 <= i < j < s.len() implies n[(#[trigger] s[i]) as int].end <= (
    #[trigger] s[j]) by {
        let a = s[i] as int;
        assert(reports(n, root, p, a));
        assert(reports(n, root, p, s[j] as int));
        assert(closes(n, root, p, a));
    }
}

/// What is kept of subtrees that lie apart lies apart.
pub proof fn lemma_kept_apart(n: Seq<Node>, s: Seq<usize>, p: spec_fn(usize) -> bool)
    requires
        apart(n, s),
    ensures
        apart(n, kept(s, p)),
    decreases s.len(),
{
    reveal(apart);
    if s.len() > 0 {
        let d = s.drop_last();
        assert(apart(n, d));
        lemma_kept_apart(n, d, p);
        lemma_kept(d, p);
        let k = kept(s, p);
        let before = kept(d, p);
        assert forall|i: int, j: int| 0 <= i < j < k.len() implies n[(
        #[trigger] k[i]) as int].end <= (#[trigger] k[j]) by {
            assert(k[i] == before[i]);
            if j < before.len() {
                assert(k[j] == before[j]);
            } else {
                assert(d.contains(before[i]));
                let at = choose|l: int| 0 <= l < d.len() && d[l] == before[i];
                assert(s[at] == k[i]);
                assert(s[s.len() - 1] == k[j]);
            }
        }
    }
}

/// The positions that a crawl reports are nodes of the subtree.
pub proof fn lemma_crawl(n: Seq<Node>, root: int, p: Probe)
    requires
        well_formed(n),
        0 <= root < n.len(),
    ensures
        forall|k: int|
            0 <= k < crawl(n, root, p).len() ==> root <= (#[trigger] crawl(n, root, p)[k])
                < n[root].end && matched(n, root, p, crawl(n, root, p)[k] as int),
        crawl(n, root, p).len() <= n.len(),
{
    lemma_reported(n, root, p, n[root].end as int);
}

// ── children ───────────────────────────────────────────────────────────

/// The positions of consecutive siblings from `c` up to `hi`.
pub open spec fn siblings(n: Seq<Node>, c: int, hi: int) -> Seq<usize>
    decreases hi - c,
{
    if 0 <= c < hi && c < n[c].end <= hi {
        seq![c as usize] + siblings(n, n[c].end as int, hi)
    } else {
        Seq::empty()
    }
}

/// The children of the node at `i`, in order.
pub open spec fn children(n: Seq<Node>, i: int) -> Seq<usize> {
    siblings(n, i + 1, n[i].end as int)
}

/// The siblings from `c` up to `hi` that carry code.
pub open spec fn code_siblings(n: Seq<Node>, c: int, hi: int) -> Seq<usize>
    decreases hi - c,
{
    if 0 <= c < hi && c < n[c].end <= hi {
        if is_trivia(n[c].kind) {
            code_siblings(n, n[c].end as int, hi)
        } else {
            seq![c as usize] + code_siblings(n, n[c].end as int, hi)
        }
    } else {
        Seq::empty()
    }
}

/// The children of the node at `i` that carry code, in order.
pub open spec fn code_children(n: Seq<Node>, i: int) -> Seq<usize> {
    code_siblings(n, i + 1, n[i].end as int)
}

/// Siblings are distinct descendants in order.
pub proof fn lemma_siblings(n: Seq<Node>, c: int, hi: int)
    requires
        well_formed(n),
        0 <= c,
        hi <= n.len(),
    ensures
        forall|k: int|
            0 <= k < siblings(n, c, hi).len() ==> c <= (#[trigger] siblings(n, c, hi)[k]) < hi,
        forall|k: int|
            0 <= k < code_siblings(n, c, hi).len() ==> c <= (#[trigger] code_siblings(n, c, hi)[k])
                < hi,
        siblings(n, c, hi).len() <= if c < hi {
            hi - c
        } else {
            0
        },
        code_siblings(n, c, hi).len() <= if c < hi {
            hi - c
        } else {
            0
        },
    decreases hi - c,
{
    if c < hi && n[c].end <= hi {
        lemma_siblings(n, n[c].end as int, hi);
    }
}

// ── counting ───────────────────────────────────────────────────────────

/// How many of the positions satisfy `p`.
pub open spec fn count(s: Seq<usize>, p: spec_fn(usize) -> bool) -> int
    decreases s.len(),
{
    if s.len() == 0 {
        0
    } else {
        count(s.drop_last(), p) + if p(s.last()) {
            1int
        } else {
            0int
        }
    }
}

/// The positions that satisfy `p`, in order.
pub open spec fn kept(s: Seq<usize>, p: spec_fn(usize) -> bool) -> Seq<usize>
    decreases s.len(),
{
    if s.len() == 0 {
        Seq::empty()
    } else if p(s.last()) {
        kept(s.drop_last(), p).push(s.last())
    } else {
        kept(s.drop_last(), p)
    }
}

/// The sum of `f` over the positions.
pub open spec fn sum(s: Seq<usize>, f: spec_fn(usize) -> int) -> int
    decreases s.len(),
{
    if s.len() == 0 {
        0
    } else {
        sum(s.drop_last(), f) + f(s.last())
    }
}

/// The largest value of `f` over the positions, and at least 0.
pub open spec fn peak(s: Seq<usize>, f: spec_fn(usize) -> int) -> int
    decreases s.len(),
{
    if s.len() == 0 {
        0
    } else {
        let rest = peak(s.drop_last(), f);
        if f(s.last()) > rest {
            f(s.last())
        } else {
            rest
        }
    }
}

/// A count never exceeds the number of positions.
pub proof fn lemma_count_bound(s: Seq<usize>, p: spec_fn(usize) -> bool)
    ensures
        0 <= count(s, p) <= s.len(),
    decreases s.len(),
{
    if s.len() > 0 {
        lemma_count_bound(s.drop_last(), p);
    }
}

/// Tests that agree on every position count the same.
pub proof fn lemma_same_count(s: Seq<usize>, p: spec_fn(usize) -> bool, q: spec_fn(usize) -> bool)
    requires
        forall|i: int| 0 <= i < s.len() ==> p(#[trigger] s[i]) == q(s[i]),
    ensures
        count(s, p) == count(s, q),
    decreases s.len(),
{
    if s.len() > 0 {
        let d = s.drop_last();
        assert forall|i: int| 0 <= i < d.len() implies p(#[trigger] d[i]) == q(d[i]) by {
            assert(d[i] == s[i]);
        }
        lemma_same_count(d, p, q);
        assert(p(s[s.len() - 1]) == q(s[s.len() - 1]));
    }
}

/// How many of the positions `lo..hi` satisfy `p`.
pub open spec fn number(lo: int, hi: int, p: spec_fn(int) -> bool) -> int
    decreases hi - lo,
{
    if hi <= lo {
        0
    } else {
        number(lo, hi - 1, p) + if p(hi - 1) {
            1int
        } else {
            0int
        }
    }
}

/// Predicates that agree on the positions `lo..hi` satisfy as many of them.
pub proof fn lemma_same_number(lo: int, hi: int, p: spec_fn(int) -> bool, q: spec_fn(int) -> bool)
    requires
        forall|i: int| lo <= i < hi ==> #[trigger] p(i) == q(i),
    ensures
        number(lo, hi, p) == number(lo, hi, q),
    decreases hi - lo,
{
    if hi > lo {
        lemma_same_number(lo, hi - 1, p, q);
        assert(p(hi - 1) == q(hi - 1));
    }
}

/// A count over a longer prefix.
pub proof fn lemma_count_step(s: Seq<usize>, k: int, p: spec_fn(usize) -> bool)
    requires
        0 <= k < s.len(),
    ensures
        count(s.take(k + 1), p) == count(s.take(k), p) + if p(s[k]) {
            1int
        } else {
            0int
        },
        0 <= count(s.take(k), p) <= k,
{
    assert(s.take(k + 1).drop_last() =~= s.take(k));
    lemma_count_bound(s.take(k), p);
}

/// What is kept of a longer prefix.
pub proof fn lemma_kept_step(s: Seq<usize>, k: int, p: spec_fn(usize) -> bool)
    requires
        0 <= k < s.len(),
    ensures
        kept(s.take(k + 1), p) == (if p(s[k]) {
            kept(s.take(k), p).push(s[k])
        } else {
            kept(s.take(k), p)
        }),
{
    assert(s.take(k + 1).drop_last() =~= s.take(k));
}

/// What is kept was there.
pub proof fn lemma_kept(s: Seq<usize>, p: spec_fn(usize) -> bool)
    ensures
        kept(s, p).len() == count(s, p),
        kept(s, p).len() <= s.len(),
        forall|k: int|
            0 <= k < kept(s, p).len() ==> p(#[trigger] kept(s, p)[k]) && s.contains(kept(s, p)[k]),
    decreases s.len(),
{
    if s.len() > 0 {
        let d = s.drop_last();
        lemma_kept(d, p);
        assert forall|k: int| 0 <= k < kept(s, p).len() implies p(#[trigger] kept(s, p)[k])
            && s.contains(kept(s, p)[k]) by {
            if k < kept(d, p).len() {
                let j = choose|j: int| 0 <= j < d.len() && d[j] == kept(d, p)[k];
                assert(d.contains(kept(d, p)[k]));
                assert(s[j] == kept(s, p)[k]);
            } else {
                assert(s[s.len() - 1] == kept(s, p)[k]);
            }
        }
    }
}

/// A sum over a longer prefix.
pub proof fn lemma_sum_step(s: Seq<usize>, k: int, f: spec_fn(usize) -> int)
    requires
        0 <= k < s.len(),
    ensures
        sum(s.take(k + 1), f) == sum(s.take(k), f) + f(s[k]),
{
    assert(s.take(k + 1).drop_last() =~= s.take(k));
}

/// A peak over a longer prefix.
pub proof fn lemma_peak_step(s: Seq<usize>, k: int, f: spec_fn(usize) -> int)
    requires
        0 <= k < s.len(),
    ensures
        peak(s.take(k + 1), f) == (if f(s[k]) > peak(s.take(k), f) {
            f(s[k])
        } else {
            peak(s.take(k), f)
        }),
{
    assert(s.take(k + 1).drop_last() =~= s.take(k));
}

/// The whole is its longest prefix.
pub proof fn lemma_take_all(s: Seq<usize>)
    ensures
        s.take(s.len() as int) == s,
        s.take(0) == Seq::<usize>::empty(),
{
    assert(s.take(s.len() as int) =~= s);
    assert(s.take(0) =~= Seq::<usize>::empty());
}

// ── executable access ──────────────────────────────────────────────────

impl Tree {
    /// The tree of some segments.
    pub fn of(segments: Vec<Segment>) -> (r: Tree)
        ensures
            r@ == nodes_of(segments@),
    {
        Tree { segments }
    }

    /// The kind of a node.
    pub fn kind_at(&self, i: usize) -> (r: Kind)
        requires
            self.holds(i),
        ensures
            r == self@[i as int].kind,
    {
        self.segments[i].kind
    }

    /// The text of a node.
    pub fn raw_at(&self, i: usize) -> (r: &Vec<char>)
        requires
            self.holds(i),
        ensures
            r@ == self@[i as int].raw,
    {
        &self.segments[i].raw
    }

    /// The byte range of a node.
    pub fn span_at(&self, i: usize) -> (r: Option<(u32, u32)>)
        requires
            self.holds(i),
        ensures
            r == self@[i as int].span,
    {
        self.segments[i].span
    }

    /// The position after a node's last descendant.
    pub fn end_at(&self, i: usize) -> (r: usize)
        requires
            self.holds(i),
        ensures
            r == self@[i as int].end,
    {
        self.segments[i].end
    }

    /// The vocabulary entry of a node's text.
    pub fn word(&self, i: usize) -> (r: Word)
        requires
            self.holds(i),
        ensures
            r == raw_word(self@, i as int),
    {
        let up = to_upper(self.raw_at(i));
        classify_word(&up)
    }

    /// The vocabulary entry of a node's text without the space around it.
    pub fn trimmed_word(&self, i: usize) -> (r: Word)
        requires
            self.holds(i),
        ensures
            r == trimmed_word(self@, i as int),
    {
        let t = trimmed(self.raw_at(i));
        let up = to_upper(&t);
        classify_word(&up)
    }

    /// Whether a node is a keyword with the given text.
    pub fn keyword(&self, i: usize, w: Word) -> (r: bool)
        requires
            self.holds(i),
        ensures
            r == is_keyword(self@, i as int, w),
    {
        self.kind_at(i) == Kind::Keyword && self.word(i) == w
    }

    /// Whether a node is a leaf that carries code.
    pub fn code_leaf(&self, i: usize) -> (r: bool)
        requires
            self.wf(),
            self.holds(i),
        ensures
            r == is_code_leaf(self@, i as int),
    {
        if self.end_at(i) != i + 1 || trivia(self.kind_at(i)) {
            return false;
        }
        let t = trimmed(self.raw_at(i));
        t.len() > 0
    }

    /// What a crawl from `root` reports, in order.
    pub fn crawl(&self, root: usize, p: Probe) -> (r: Vec<usize>)
        requires
            self.wf(),
            self.holds(root),
        ensures
            r@ == crawl(self@, root as int, p),
    {
        let mut out: Vec<usize> = Vec::new();
        let ghost n = self@;
        let hi: usize = self.end_at(root);
        let mut i: usize = root;
        while i < hi
            invariant
                well_formed(n),
                n == self@,
                root <= i <= hi,
                root < n.len(),
                hi == n[root as int].end,
                out@ == reported(n, root as int, p, i as int),
                i < hi ==> open_to(n, root as int, p, i as int),
            decreases hi - i,
        {
            let kind: Kind = self.kind_at(i);
            let stopped = i > root && p.stop.has(kind);
            let hit = belongs_to(p.set, kind) && (i != root || p.own);
            if hit && !stopped {
                out.push(i);
            }
            assert(reported(n, root as int, p, i + 1) == out@);
            let shut = stopped || (!p.deep && hit);
            assert(shut == closes(n, root as int, p, i as int));
            if shut {
                let e: usize = self.end_at(i);
                proof {
                    lemma_skip(n, root as int, p, i as int, e as int);
                    assert forall|a: int| root <= a < e && e < (#[trigger] n[a]).end && e < hi implies !closes(
                        n,
                        root as int,
                        p,
                        a,
                    ) by {
                        if a >= i {
                            assert(n[a].end <= n[i as int].end || a == i);
                        }
                    }
                }
                i = e;
            } else {
                proof {
                    assert forall|a: int|
                        root <= a < i + 1 && i + 1 < (#[trigger] n[a]).end implies !closes(
                        n,
                        root as int,
                        p,
                        a,
                    ) by {}
                }
                i = i + 1;
            }
        }
        out
    }

    /// Every node of a set in the subtree of `root`, in order.
    pub fn all_in(&self, root: usize, set: KindSet) -> (r: Vec<usize>)
        requires
            self.wf(),
            self.holds(root),
        ensures
            r@ == all_in(self@, root as int, set),
    {
        self.crawl(root, Probe { set, deep: true, stop: KindSet::Empty, own: true })
    }

    /// The children of a node, in order.
    pub fn children(&self, i: usize) -> (r: Vec<usize>)
        requires
            self.wf(),
            self.holds(i),
        ensures
            r@ == children(self@, i as int),
    {
        let mut out: Vec<usize> = Vec::new();
        let ghost n = self@;
        let hi: usize = self.end_at(i);
        let mut c: usize = i + 1;
        while c < hi
            invariant
                well_formed(n),
                n == self@,
                i < c <= hi,
                i < n.len(),
                hi == n[i as int].end,
                children(n, i as int) == out@ + siblings(n, c as int, hi as int),
            decreases hi - c,
        {
            out.push(c);
            assert(n[c as int].end <= hi);
            assert(children(n, i as int) =~= out@ + siblings(n, n[c as int].end as int, hi as int));
            c = self.end_at(c);
        }
        assert(out@ =~= children(n, i as int));
        out
    }

    /// The children of a node that carry code, in order.
    pub fn code_children(&self, i: usize) -> (r: Vec<usize>)
        requires
            self.wf(),
            self.holds(i),
        ensures
            r@ == code_children(self@, i as int),
    {
        let mut out: Vec<usize> = Vec::new();
        let ghost n = self@;
        let hi: usize = self.end_at(i);
        let mut c: usize = i + 1;
        while c < hi
            invariant
                well_formed(n),
                n == self@,
                i < c <= hi,
                i < n.len(),
                hi == n[i as int].end,
                code_children(n, i as int) == out@ + code_siblings(n, c as int, hi as int),
            decreases hi - c,
        {
            assert(n[c as int].end <= hi);
            if !trivia(self.kind_at(c)) {
                out.push(c);
            }
            assert(code_children(n, i as int) =~= out@ + code_siblings(
                n,
                n[c as int].end as int,
                hi as int,
            ));
            c = self.end_at(c);
        }
        assert(out@ =~= code_children(n, i as int));
        out
    }
}

/// Whether a kind is a comment, white space, or without source text.
pub fn trivia(k: Kind) -> (r: bool)
    ensures
        r == is_trivia(k),
{
    KindSet::Comments.has(k) || KindSet::Spaces.has(k) || KindSet::Metas.has(k)
}

/// Whether a kind belongs to a set, references counting as object references.
pub fn belongs_to(set: KindSet, k: Kind) -> (r: bool)
    ensures
        r == belongs(set, k),
{
    set.has(k) || (set.has(Kind::ObjectReference) && (k == Kind::ColumnReference || k
        == Kind::WildcardIdentifier || k == Kind::TableReference))
}

} // verus!
