//! Growing a syntax tree from the rows of a parser: the nodes in pre-order,
//! each with its number of children.

use core::ops::Range;

use vstd::prelude::*;

use crate::kind::{classify_kind, kind_of};
use crate::text::chars_of;
use crate::tree::{children, nodes_of, siblings, well_formed, Node, Segment, Tree, MAX_NODES};

verus! {

/// One node as a parser reports it: the name of its kind, its source text, the
/// byte range it was read from, and its number of children.
pub struct Row {
    pub kind: &'static str,
    pub raw: String,
    pub span: Option<Range<usize>>,
    pub children: usize,
}

/// What a row says.
pub ghost struct RowView {
    pub kind: Seq<char>,
    pub raw: Seq<char>,
    pub span: Option<(usize, usize)>,
    pub children: usize,
}

impl Row {
    pub open spec fn seen(self) -> RowView {
        RowView {
            kind: self.kind@,
            raw: self.raw@,
            span: match self.span {
                Some(range) => Some((range.start, range.end)),
                None => None,
            },
            children: self.children,
        }
    }
}

/// What a list of rows says.
pub open spec fn seen_rows(rows: Seq<Row>) -> Seq<RowView> {
    Seq::new(rows.len(), |i: int| rows[i].seen())
}

/// The position after `k` consecutive subtrees that start at `i`, or a position
/// past the end when the rows run out.
pub open spec fn after(rows: Seq<RowView>, i: int, k: int) -> int
    decreases rows.len() - i,
{
    if k <= 0 {
        i
    } else if 0 <= i < rows.len() {
        after(rows, i + 1, k - 1 + rows[i].children)
    } else {
        rows.len() as int + 1
    }
}

/// Whether the rows are the pre-order of one tree.
pub open spec fn is_one_tree(rows: Seq<RowView>) -> bool {
    after(rows, 0, 1) == rows.len()
}

/// Whether the byte ranges of rows lie in a text of `len` bytes, nested as the
/// nodes are and in order: a row's range holds those of the rows below it and
/// ends no later than those after it start.
pub open spec fn lie_in(rows: Seq<RowView>, len: int) -> bool {
    &&& forall|i: int|
        0 <= i < rows.len() ==> ((#[trigger] rows[i]).span matches Some(range) && range.0 <= range.1
            <= len)
    &&& forall|i: int, j: int|
        #![trigger rows[i], rows[j]]
        0 <= i < j < rows.len() ==> if j < after(rows, i, 1) {
            (rows[i].span->0).0 <= (rows[j].span->0).0 && (rows[j].span->0).1 <= (rows[i].span->0).1
        } else {
            (rows[i].span->0).1 <= (rows[j].span->0).0
        }
}

/// A byte offset in 32 bits, the greatest one when it does not fit.
pub open spec fn clamped(at: usize) -> u32 {
    if at <= u32::MAX {
        at as u32
    } else {
        u32::MAX
    }
}

/// A byte range in 32 bits.
pub open spec fn clamped_span(span: Option<(usize, usize)>) -> Option<(u32, u32)> {
    match span {
        Some(s) => Some((clamped(s.0), clamped(s.1))),
        None => None,
    }
}

/// The node that row `i` stands for.
pub open spec fn node_of(rows: Seq<RowView>, i: int) -> Node {
    Node {
        kind: kind_of(rows[i].kind),
        raw: rows[i].raw,
        span: clamped_span(rows[i].span),
        end: after(rows, i, 1) as usize,
    }
}

/// The tree of the rows.
pub open spec fn grown(rows: Seq<RowView>) -> Seq<Node> {
    Seq::new(rows.len(), |i: int| node_of(rows, i))
}

proof fn lemma_after_grows(rows: Seq<RowView>, i: int, k: int)
    requires
        0 <= i <= rows.len() + 1,
        0 <= k,
    ensures
        i <= after(rows, i, k) <= rows.len() + 1,
        k > 0 ==> i < after(rows, i, k) || i > rows.len(),
    decreases rows.len() - i,
{
    if k > 0 && i < rows.len() {
        lemma_after_grows(rows, i + 1, k - 1 + rows[i].children);
    }
}

proof fn lemma_after_splits(rows: Seq<RowView>, i: int, j: int, k: int)
    requires
        0 <= i <= rows.len() + 1,
        0 <= j,
        0 <= k,
    ensures
        after(rows, i, j + k) == after(rows, after(rows, i, j), k),
    decreases rows.len() - i,
{
    if j > 0 {
        if i < rows.len() {
            lemma_after_splits(rows, i + 1, j - 1 + rows[i].children, k);
        } else {
            assert(after(rows, i, j) == rows.len() + 1);
        }
    }
}

/// A node that lies before the end of some subtrees ends no later than they do.
proof fn lemma_after_nests(rows: Seq<RowView>, i: int, k: int, j: int)
    requires
        0 <= i <= j,
        j < after(rows, i, k) <= rows.len(),
        0 <= k,
    ensures
        after(rows, j, 1) <= after(rows, i, k),
    decreases rows.len() - i,
{
    if i == j {
        lemma_after_splits(rows, i, 1, k - 1);
        lemma_after_grows(rows, i, 1);
        lemma_after_grows(rows, after(rows, i, 1), k - 1);
    } else {
        lemma_after_nests(rows, i + 1, k - 1 + rows[i].children, j);
    }
}

/// Every subtree ends within the rows.
pub proof fn lemma_after_fits(rows: Seq<RowView>, i: int)
    requires
        is_one_tree(rows),
        0 <= i < rows.len(),
    ensures
        i < after(rows, i, 1) <= rows.len(),
{
    lemma_after_grows(rows, i, 1);
    lemma_after_nests(rows, 0, 1, i);
}

/// The tree of rows that are one tree is well formed.
pub proof fn lemma_well_formed(rows: Seq<RowView>)
    requires
        is_one_tree(rows),
        rows.len() <= MAX_NODES,
    ensures
        well_formed(grown(rows)),
{
    let n = grown(rows);
    assert forall|i: int| 0 <= i < n.len() implies i < (#[trigger] n[i]).end <= n.len() by {
        lemma_after_grows(rows, i, 1);
        lemma_after_nests(rows, 0, 1, i);
    }
    assert forall|i: int, j: int|
        #![trigger n[i], n[j]]
        0 <= i < n.len() && i < j < n[i].end implies n[j].end <= n[i].end by {
        lemma_after_nests(rows, 0, 1, i);
        lemma_after_grows(rows, i, 1);
        lemma_after_nests(rows, i, 1, j);
        lemma_after_grows(rows, j, 1);
    }
}

fn clamp(at: usize) -> (r: u32)
    ensures
        r == clamped(at),
{
    if at as u64 <= 0xffff_ffff {
        at as u32
    } else {
        u32::MAX
    }
}

/// The position after `k` consecutive subtrees that start at `from`, given where
/// each subtree from there on ends.
fn skip_children(ends: &Vec<usize>, from: usize, k: usize, rows: Ghost<Seq<RowView>>) -> (r: usize)
    requires
        from <= ends.len() == rows@.len() <= MAX_NODES,
        forall|j: int| from <= j < ends.len() ==> ends@[j] == after(rows@, j, 1),
    ensures
        r == after(rows@, from as int, k as int),
{
    let mut at: usize = from;
    let mut left: usize = k;
    while left > 0 && at < ends.len()
        invariant
            from <= at <= ends.len() + 1,
            ends.len() == rows@.len() <= MAX_NODES,
            left <= k,
            forall|j: int| from <= j < ends.len() ==> ends@[j] == after(rows@, j, 1),
            after(rows@, from as int, k as int) == after(rows@, at as int, left as int),
        decreases left,
    {
        proof {
            lemma_after_splits(rows@, at as int, 1, left - 1);
            lemma_after_grows(rows@, at as int, 1);
        }
        at = ends[at];
        left = left - 1;
    }
    if left == 0 {
        at
    } else {
        ends.len() + 1
    }
}

/// Where the subtree of each row ends.
fn ends_of(rows: &Vec<Row>) -> (r: Vec<usize>)
    requires
        rows.len() <= MAX_NODES,
    ensures
        r.len() == rows.len(),
        forall|i: int| 0 <= i < r.len() ==> r@[i] == after(seen_rows(rows@), i, 1),
{
    let ghost seen = seen_rows(rows@);
    let mut ends: Vec<usize> = Vec::new();
    let mut i: usize = 0;
    while i < rows.len()
        invariant
            i == ends.len() <= rows.len(),
        decreases rows.len() - i,
    {
        ends.push(0);
        i = i + 1;
    }
    while i > 0
        invariant
            i <= ends.len() == rows.len() <= MAX_NODES,
            seen == seen_rows(rows@),
            forall|j: int| i <= j < ends.len() ==> ends@[j] == after(seen, j, 1),
        decreases i,
    {
        let end: usize = skip_children(&ends, i, rows[i - 1].children, Ghost(seen));
        assert(after(seen, i - 1, 1) == end);
        ends.set(i - 1, end);
        i = i - 1;
    }
    ends
}

/// The tree of the rows; `None` unless they are the pre-order of one tree that
/// is not too large.
pub fn tree_of(rows: &Vec<Row>) -> (r: Option<Tree>)
    ensures
        r is Some <==> is_one_tree(seen_rows(rows@)) && rows.len() <= MAX_NODES,
        r matches Some(t) ==> t.wf() && t@ == grown(seen_rows(rows@)),
{
    let ghost seen = seen_rows(rows@);
    if rows.len() == 0 || rows.len() > MAX_NODES {
        return None;
    }
    let ends = ends_of(rows);
    if ends[0] != rows.len() {
        return None;
    }
    let mut nodes: Vec<Segment> = Vec::new();
    let mut i: usize = 0;
    while i < rows.len()
        invariant
            i == nodes.len() <= rows.len() == ends.len(),
            seen == seen_rows(rows@),
            forall|j: int| 0 <= j < ends.len() ==> ends@[j] == after(seen, j, 1),
            forall|j: int| 0 <= j < nodes.len() ==> (#[trigger] nodes@[j])@ == node_of(seen, j),
        decreases rows.len() - i,
    {
        let name = chars_of(rows[i].kind);
        let span: Option<(u32, u32)> = match &rows[i].span {
            Some(range) => Some((clamp(range.start), clamp(range.end))),
            None => None,
        };
        nodes.push(
            Segment {
                kind: classify_kind(&name),
                raw: chars_of(rows[i].raw.as_str()),
                span,
                end: ends[i],
            },
        );
        assert(seen[i as int] == rows@[i as int].seen());
        i = i + 1;
    }
    assert(nodes_of(nodes@) =~= grown(seen));
    proof {
        lemma_well_formed(seen);
    }
    Some(Tree::of(nodes))
}

proof fn lemma_siblings_counted(rows: Seq<RowView>, c: int, k: int)
    requires
        well_formed(grown(rows)),
        0 <= c,
        0 <= k,
        after(rows, c, k) <= rows.len(),
    ensures
        siblings(grown(rows), c, after(rows, c, k)).len() == k,
    decreases k,
{
    if k > 0 {
        lemma_after_grows(rows, c, k);
        lemma_after_splits(rows, c, 1, k - 1);
        lemma_after_grows(rows, c, 1);
        lemma_after_grows(rows, after(rows, c, 1), k - 1);
        assert(grown(rows)[c] == node_of(rows, c));
        lemma_siblings_counted(rows, after(rows, c, 1), k - 1);
    }
}

/// Every node of a tree has as many children as its row says.
pub proof fn children_are_counted(rows: Seq<RowView>, i: int)
    requires
        is_one_tree(rows),
        rows.len() <= MAX_NODES,
        0 <= i < rows.len(),
    ensures
        children(grown(rows), i).len() == rows[i].children,
{
    lemma_well_formed(rows);
    lemma_after_grows(rows, i, 1);
    assert(grown(rows)[i] == node_of(rows, i));
    lemma_siblings_counted(rows, i + 1, rows[i].children as int);
}

} // verus!
