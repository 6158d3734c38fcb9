//! Source spans, and the index that turns byte offsets into line numbers.

use vstd::prelude::*;

use crate::text::{char_width, offset};

verus! {

/// A range of the source: bytes `start_byte..end_byte` and 1-based inclusive
/// lines `start_line..=end_line`.
#[derive(Clone, Copy, Debug, PartialEq, Eq, Structural)]
pub struct SourceSpan {
    pub start_byte: u32,
    pub end_byte: u32,
    pub start_line: u32,
    pub end_line: u32,
}

/// The span of nothing.
pub open spec fn empty_span() -> SourceSpan {
    SourceSpan { start_byte: 0, end_byte: 0, start_line: 0, end_line: 0 }
}

impl SourceSpan {
    /// The span of nothing.
    pub fn empty() -> (r: SourceSpan)
        ensures
            r == empty_span(),
    {
        SourceSpan { start_byte: 0, end_byte: 0, start_line: 0, end_line: 0 }
    }
}

/// The number of entries of `starts` that are at most `byte`.
pub open spec fn reached_starts(starts: Seq<u64>, byte: int) -> nat
    decreases starts.len(),
{
    if starts.len() == 0 {
        0
    } else {
        reached_starts(starts.drop_last(), byte) + if starts.last() <= byte {
            1nat
        } else {
            0nat
        }
    }
}

/// The byte offsets at which the lines after the first one start.
pub open spec fn line_starts(text: Seq<char>, i: int) -> Seq<u64>
    decreases i,
{
    if i <= 0 {
        Seq::empty()
    } else if text[i - 1] == '\n' {
        line_starts(text, i - 1).push(offset(text, i) as u64)
    } else {
        line_starts(text, i - 1)
    }
}

/// The most bytes that a text can have for its offsets and its line numbers to
/// fit in 32 bits.
pub const MAX_TEXT: usize = 0xffff_fffe;

/// Whether the byte offsets and the line numbers of a text fit in 32 bits.
pub open spec fn fits(text: Seq<char>) -> bool {
    offset(text, text.len() as int) <= MAX_TEXT
}

/// Whether the byte offsets and the line numbers of a text fit in 32 bits.
pub fn fits_in_spans(text: &Vec<char>) -> (r: bool)
    ensures
        r == fits(text@),
{
    let mut at: u64 = 0;
    let mut i: usize = 0;
    while i < text.len()
        invariant
            i <= text@.len(),
            at == offset(text@, i as int),
            at <= MAX_TEXT,
        decreases text@.len() - i,
    {
        at = at + char_width(text[i]);
        i = i + 1;
        if at > MAX_TEXT as u64 {
            proof {
                lemma_offset_grows(text@, i as int, text@.len() as int);
            }
            return false;
        }
    }
    true
}

/// Later characters have greater offsets.
pub proof fn lemma_offset_grows(text: Seq<char>, i: int, j: int)
    requires
        0 <= i <= j <= text.len(),
    ensures
        offset(text, i) <= offset(text, j),
    decreases j,
{
    if i < j {
        lemma_offset_grows(text, i, j - 1);
    }
}

/// Where each line of a text after the first one starts.
pub ghost struct Lines {
    pub starts: Seq<u64>,
}

/// Where each line of a text after the first one starts, in memory.
pub struct LineIndex {
    starts: Vec<u64>,
}

impl View for LineIndex {
    type V = Lines;

    closed spec fn view(&self) -> Lines {
        Lines { starts: self.starts@ }
    }
}

pub proof fn lemma_offset(text: Seq<char>, i: int)
    requires
        0 <= i <= text.len(),
    ensures
        i <= offset(text, i) <= 4 * i,
    decreases i,
{
    if i > 0 {
        lemma_offset(text, i - 1);
    }
}

proof fn lemma_reached_bound(starts: Seq<u64>, byte: int)
    ensures
        reached_starts(starts, byte) <= starts.len(),
    decreases starts.len(),
{
    if starts.len() > 0 {
        lemma_reached_bound(starts.drop_last(), byte);
    }
}

proof fn lemma_reached_split(starts: Seq<u64>, byte: int, k: int)
    requires
        0 <= k <= starts.len(),
        forall|j: int| 0 <= j < k ==> starts[j] <= byte,
        forall|j: int| k <= j < starts.len() ==> starts[j] > byte,
    ensures
        reached_starts(starts, byte) == k,
    decreases starts.len(),
{
    if starts.len() > 0 {
        let d = starts.drop_last();
        if k == starts.len() {
            lemma_reached_split(d, byte, k - 1);
        } else {
            lemma_reached_split(d, byte, k);
        }
    }
}

impl Lines {
    /// Line starts ascend and are few enough for 32-bit line numbers.
    pub open spec fn wf(self) -> bool {
        &&& self.starts.len() <= MAX_TEXT
        &&& forall|i: int, j: int|
            0 <= i < j < self.starts.len() ==> self.starts[i] < self.starts[j]
    }

    /// The 1-based line of a byte offset.
    pub open spec fn line(self, byte: u32) -> u32 {
        (1 + reached_starts(self.starts, byte as int)) as u32
    }

    /// The line of the last byte before an exclusive end.
    pub open spec fn last_line(self, end: u32) -> u32 {
        self.line(if end == 0 {
            0
        } else {
            (end - 1) as u32
        })
    }

    /// The span of a byte range.
    pub open spec fn span(self, range: (u32, u32)) -> SourceSpan {
        SourceSpan {
            start_byte: range.0,
            end_byte: range.1,
            start_line: self.line(range.0),
            end_line: self.last_line(range.1),
        }
    }
}

impl LineIndex {
    /// The index of a text.
    pub fn new(text: &Vec<char>) -> (r: LineIndex)
        requires
            text.len() <= MAX_TEXT,
        ensures
            r@.wf(),
            r@.starts == line_starts(text@, text@.len() as int),
    {
        let mut starts: Vec<u64> = Vec::new();
        let mut at: u64 = 0;
        let mut i: usize = 0;
        while i < text.len()
            invariant
                i <= text.len() <= MAX_TEXT,
                at == offset(text@, i as int),
                starts@ == line_starts(text@, i as int),
                starts@.len() <= i,
                forall|j: int| 0 <= j < starts@.len() ==> starts@[j] <= at,
                forall|j: int, k: int|
                    0 <= j < k < starts@.len() ==> starts@[j] < starts@[k],
            decreases text.len() - i,
        {
            proof {
                lemma_offset(text@, i as int);
            }
            let ghost before = at;
            at = at + char_width(text[i]);
            if text[i] == '\n' {
                starts.push(at);
            }
            i = i + 1;
        }
        LineIndex { starts }
    }

    /// How many lines of a text start after its first one.
    pub fn count(&self) -> (r: usize)
        ensures
            r == self@.starts.len(),
    {
        self.starts.len()
    }

    /// The 1-based line of a byte offset.
    pub fn line_at(&self, byte: u32) -> (r: u32)
        requires
            self@.wf(),
        ensures
            r == self@.line(byte),
            1 <= r,
    {
        let mut lo: usize = 0;
        let mut hi: usize = self.starts.len();
        while lo < hi
            invariant
                lo <= hi <= self.starts.len(),
                self@.wf(),
                forall|j: int| 0 <= j < lo ==> self.starts@[j] <= byte,
                forall|j: int| hi <= j < self.starts@.len() ==> self.starts@[j] > byte,
            decreases hi - lo,
        {
            let mid: usize = lo + (hi - lo) / 2;
            if self.starts[mid] <= byte as u64 {
                lo = mid + 1;
            } else {
                hi = mid;
            }
        }
        proof {
            lemma_reached_split(self.starts@, byte as int, lo as int);
        }
        1 + lo as u32
    }

    /// The line of the last byte before an exclusive end.
    pub fn last_line_at(&self, end: u32) -> (r: u32)
        requires
            self@.wf(),
        ensures
            r == self@.last_line(end),
            1 <= r,
    {
        if end == 0 {
            self.line_at(0)
        } else {
            self.line_at(end - 1)
        }
    }

    /// The span of a byte range.
    pub fn span_of(&self, range: (u32, u32)) -> (r: SourceSpan)
        requires
            self@.wf(),
        ensures
            r == self@.span(range),
    {
        SourceSpan {
            start_byte: range.0,
            end_byte: range.1,
            start_line: self.line_at(range.0),
            end_line: self.last_line_at(range.1),
        }
    }
}

/// The lines of a text are well formed.
pub proof fn lemma_lines_wf(text: Seq<char>, i: int)
    requires
        0 <= i <= text.len() <= MAX_TEXT,
    ensures
        (Lines { starts: line_starts(text, i) }).wf(),
        line_starts(text, i).len() <= i,
        forall|j: int| 0 <= j < line_starts(text, i).len() ==> (#[trigger] line_starts(text, i)[j])
            <= offset(text, i),
    decreases i,
{
    lemma_offset(text, i);
    if i > 0 {
        lemma_lines_wf(text, i - 1);
        lemma_offset(text, i - 1);
        let before = line_starts(text, i - 1);
        let s = line_starts(text, i);
        assert forall|j: int| 0 <= j < s.len() implies (#[trigger] s[j]) <= offset(text, i) by {
            if j < before.len() {
                assert(s[j] == before[j]);
            }
        }
        assert forall|j: int, k: int| 0 <= j < k < s.len() implies s[j] < s[k] by {
            assert(s[j] == before[j]);
            if k < before.len() {
                assert(s[k] == before[k]);
            }
        }
    }
}

/// Lines never decrease as the byte offset grows.
pub proof fn line_is_monotonic(index: Lines, a: u32, b: u32)
    requires
        index.wf(),
        a <= b,
    ensures
        1 <= index.line(a) <= index.line(b),
{
    lemma_reached_bound(index.starts, a as int);
    lemma_reached_bound(index.starts, b as int);
    lemma_reached_monotonic(index.starts, a as int, b as int);
}

proof fn lemma_reached_monotonic(starts: Seq<u64>, a: int, b: int)
    requires
        a <= b,
    ensures
        reached_starts(starts, a) <= reached_starts(starts, b),
    decreases starts.len(),
{
    if starts.len() > 0 {
        lemma_reached_monotonic(starts.drop_last(), a, b);
    }
}

} // verus!
