//! Lines of code: physical, blank, comment and code lines.

use vstd::prelude::*;

use crate::kind::KindSet;
use crate::span::{lemma_offset, LineIndex, Lines, MAX_TEXT};
use crate::statements::StatementFacts;
use crate::text::{
    char_width, chars_of, is_blank, is_space, is_space_char, occurs_at, offset, slice_of,
};
use crate::tree::{all_in, every, lemma_crawl, Node, Tree, MAX_NODES};

verus! {

/// The line counts of a file. A line can hold both code and a comment.
#[derive(Clone, Copy, Debug, PartialEq, Eq, Structural)]
pub struct SqlLoc {
    pub physical: u64,
    pub code: u64,
    pub comment: u64,
    pub blank: u64,
    /// The number of statements.
    pub logical: u64,
    pub max_statement_lines: u64,
    /// The lines of every statement, added up.
    pub total_statement_lines: u64,
}

// ── lines ──────────────────────────────────────────────────────────────

/// Where the line of position `i` starts.
pub open spec fn line_start(text: Seq<char>, i: int) -> int
    decreases i,
{
    if i <= 0 || text[i - 1] == '\n' {
        i
    } else {
        line_start(text, i - 1)
    }
}

/// The lines that end before position `i`, as ranges of positions without
/// their line feeds.
pub open spec fn ended_lines(text: Seq<char>, i: int) -> Seq<(int, int)>
    decreases i,
{
    if i <= 0 {
        Seq::empty()
    } else if text[i - 1] == '\n' {
        ended_lines(text, i - 1).push((line_start(text, i - 1), i - 1))
    } else {
        ended_lines(text, i - 1)
    }
}

/// The lines of a text. What follows the last line feed is a line unless it
/// is empty.
pub open spec fn lines_of(text: Seq<char>) -> Seq<(int, int)> {
    let len = text.len() as int;
    if line_start(text, len) < len {
        ended_lines(text, len).push((line_start(text, len), len))
    } else {
        ended_lines(text, len)
    }
}

/// The text of a line.
pub open spec fn line_text(text: Seq<char>, line: (int, int)) -> Seq<char> {
    text.subrange(line.0, line.1)
}

// ── comments on one line ───────────────────────────────────────────────

/// The first place at or after `i` where `part` occurs.
pub open spec fn find_from(s: Seq<char>, part: Seq<char>, i: int) -> Option<int>
    decreases s.len() + 1 - i,
{
    if i < 0 || i + part.len() > s.len() {
        None
    } else if occurs_at(s, part, i) {
        Some(i)
    } else {
        find_from(s, part, i + 1)
    }
}

/// A line without its block comments. An unclosed one runs to the end.
pub open spec fn without_blocks(s: Seq<char>) -> Seq<char>
    decreases s.len(),
{
    match find_from(s, seq!['/', '*'], 0) {
        None => s,
        Some(open) => match find_from(s, seq!['*', '/'], open + 2) {
            None => s.take(open),
            Some(close) => if 0 <= open && open + 2 <= close <= s.len() - 2 {
                s.take(open) + without_blocks(s.skip(close + 2))
            } else {
                s
            },
        },
    }
}

/// A line without its line comment.
pub open spec fn without_line_comment(s: Seq<char>) -> Seq<char> {
    match find_from(s, seq!['-', '-'], 0) {
        Some(at) => s.take(at),
        None => s,
    }
}

/// Whether anything is left of a line without its comments.
pub open spec fn code_beside_comment(s: Seq<char>) -> bool {
    !is_blank(without_blocks(without_line_comment(s)))
}

// ── classification ─────────────────────────────────────────────────────

/// The comments of a file.
pub open spec fn comments_of(n: Seq<Node>, root: int) -> Seq<usize> {
    all_in(n, root, KindSet::CommentTexts)
}

/// Whether a comment touches a line, counted from 1.
pub open spec fn touches(n: Seq<Node>, lines: Lines, c: int, number: int) -> bool {
    n[c].span matches Some(range) && lines.line(range.0) <= number <= lines.last_line(range.1)
}

/// Whether some comment touches a line.
pub open spec fn has_comment(n: Seq<Node>, lines: Lines, cs: Seq<usize>, number: int) -> bool {
    exists|k: int| 0 <= k < cs.len() && touches(n, lines, #[trigger] cs[k] as int, number)
}

/// Whether a comment holds a byte.
pub open spec fn holds_byte(n: Seq<Node>, c: int, byte: int) -> bool {
    n[c].span matches Some(range) && range.0 <= byte < range.1
}

pub open spec fn in_comment(n: Seq<Node>, cs: Seq<usize>, byte: int) -> bool {
    exists|k: int| 0 <= k < cs.len() && holds_byte(n, #[trigger] cs[k] as int, byte)
}

/// Whether everything visible on a line belongs to comments.
pub open spec fn all_comment(n: Seq<Node>, cs: Seq<usize>, text: Seq<char>, line: (int, int)) -> bool {
    forall|i: int|
        line.0 <= i < line.1 ==> is_space(#[trigger] text[i]) || in_comment(
            n,
            cs,
            offset(text, i),
        )
}

/// Whether a line holds nothing visible.
pub open spec fn blank_line(text: Seq<char>, line: (int, int)) -> bool {
    is_blank(line_text(text, line))
}

/// Whether a line counts as a comment line.
pub open spec fn comment_line(
    n: Seq<Node>,
    lines: Lines,
    cs: Seq<usize>,
    text: Seq<char>,
    k: int,
) -> bool {
    !blank_line(text, lines_of(text)[k]) && has_comment(n, lines, cs, k + 1)
}

/// Whether a line counts as a code line: it holds something visible, and not
/// only comments.
pub open spec fn code_line(
    n: Seq<Node>,
    lines: Lines,
    cs: Seq<usize>,
    text: Seq<char>,
    k: int,
) -> bool {
    let line = lines_of(text)[k];
    !blank_line(text, line) && !(has_comment(n, lines, cs, k + 1) && (all_comment(
        n,
        cs,
        text,
        line,
    ) || !code_beside_comment(line_text(text, line))))
}

/// The number of the first `k` lines that are blank.
pub open spec fn blank_lines(text: Seq<char>, k: int) -> int
    decreases k,
{
    if k <= 0 {
        0
    } else {
        blank_lines(text, k - 1) + if blank_line(text, lines_of(text)[k - 1]) {
            1int
        } else {
            0int
        }
    }
}

/// The number of the first `k` lines that are comment lines.
pub open spec fn comment_lines(
    n: Seq<Node>,
    lines: Lines,
    cs: Seq<usize>,
    text: Seq<char>,
    k: int,
) -> int
    decreases k,
{
    if k <= 0 {
        0
    } else {
        comment_lines(n, lines, cs, text, k - 1) + if comment_line(n, lines, cs, text, k - 1) {
            1int
        } else {
            0int
        }
    }
}

/// The number of the first `k` lines that are code lines.
pub open spec fn code_lines(
    n: Seq<Node>,
    lines: Lines,
    cs: Seq<usize>,
    text: Seq<char>,
    k: int,
) -> int
    decreases k,
{
    if k <= 0 {
        0
    } else {
        code_lines(n, lines, cs, text, k - 1) + if code_line(n, lines, cs, text, k - 1) {
            1int
        } else {
            0int
        }
    }
}

/// The lines of a statement.
pub open spec fn statement_lines(f: StatementFacts) -> int {
    1 + if f.end_line >= f.start_line {
        f.end_line - f.start_line
    } else {
        0
    }
}

/// The lines of the first `k` statements, added up.
pub open spec fn total_lines(facts: Seq<StatementFacts>, k: int) -> int
    decreases k,
{
    if k <= 0 {
        0
    } else {
        total_lines(facts, k - 1) + statement_lines(facts[k - 1])
    }
}

/// The lines of the longest of the first `k` statements.
pub open spec fn longest_statement(facts: Seq<StatementFacts>, k: int) -> int
    decreases k,
{
    if k <= 0 {
        0
    } else {
        let rest = longest_statement(facts, k - 1);
        if statement_lines(facts[k - 1]) > rest {
            statement_lines(facts[k - 1])
        } else {
            rest
        }
    }
}

/// Whether line counts are those of a parsed file.
pub open spec fn describes_loc(
    n: Seq<Node>,
    lines: Lines,
    root: int,
    text: Seq<char>,
    facts: Seq<StatementFacts>,
    r: SqlLoc,
) -> bool {
    let cs = comments_of(n, root);
    let k = lines_of(text).len() as int;
    &&& r.physical == k
    &&& r.blank == blank_lines(text, k)
    &&& r.comment == comment_lines(n, lines, cs, text, k)
    &&& r.code == code_lines(n, lines, cs, text, k)
    &&& r.logical == facts.len()
    &&& r.max_statement_lines == longest_statement(facts, facts.len() as int)
    &&& r.total_statement_lines == total_lines(facts, facts.len() as int)
}

/// Whether line counts are those of a file without a tree: nothing in it is
/// code.
pub open spec fn describes_textual(text: Seq<char>, r: SqlLoc) -> bool {
    let k = lines_of(text).len() as int;
    &&& r.physical == k
    &&& r.blank == blank_lines(text, k)
    &&& r.comment == k - blank_lines(text, k)
    &&& r.code == 0
    &&& r.logical == 0
    &&& r.max_statement_lines == 0
    &&& r.total_statement_lines == 0
}

// ── execution ──────────────────────────────────────────────────────────

/// The first place at or after `from` where two characters occur.
fn find_pair(s: &Vec<char>, a: char, b: char, from: usize) -> (r: Option<usize>)
    requires
        from <= s@.len(),
    ensures
        match r {
            Some(i) => find_from(s@, seq![a, b], from as int) == Some(i as int) && from <= i && i + 2
                <= s.len(),
            None => find_from(s@, seq![a, b], from as int) is None,
        },
{
    let ghost part = seq![a, b];
    let mut i: usize = from;
    while i < s.len() && s.len() - i >= 2
        invariant
            from <= i <= s@.len(),
            part == seq![a, b],
            find_from(s@, part, from as int) == find_from(s@, part, i as int),
        decreases s@.len() - i,
    {
        if s[i] == a && s[i + 1] == b {
            assert(s@.subrange(i as int, i + 2) =~= part);
            return Some(i);
        }
        assert(!occurs_at(s@, part, i as int)) by {
            if occurs_at(s@, part, i as int) {
                assert(s@.subrange(i as int, i + 2)[0] == part[0]);
                assert(s@.subrange(i as int, i + 2)[1] == part[1]);
            }
        }
        i = i + 1;
    }
    None
}

/// A line without its block comments.
pub fn strip_inline_block_comment(s: &Vec<char>) -> (r: Vec<char>)
    ensures
        r@ == without_blocks(s@),
{
    let mut out: Vec<char> = Vec::new();
    let mut rest: Vec<char> = slice_of(s, 0, s.len());
    assert(rest@ =~= s@);
    loop
        invariant_except_break
            without_blocks(s@) == out@ + without_blocks(rest@),
        ensures
            without_blocks(s@) == out@,
        decreases rest@.len(),
    {
        match find_pair(&rest, '/', '*', 0) {
            None => {
                let ghost before = out@;
                let ghost tail = rest@;
                out.append(&mut rest);
                assert(out@ =~= before + tail);
                break;
            },
            Some(open) => {
                let mut head = slice_of(&rest, 0, open);
                assert(head@ =~= rest@.take(open as int));
                let ghost before = out@;
                let ghost part = head@;
                out.append(&mut head);
                assert(out@ =~= before + part);
                match find_pair(&rest, '*', '/', open + 2) {
                    None => {
                        break;
                    },
                    Some(close) => {
                        let tail = slice_of(&rest, close + 2, rest.len());
                        assert(tail@ =~= rest@.skip(close + 2));
                        assert(out@ + without_blocks(tail@) =~= before + (part + without_blocks(
                            tail@,
                        )));
                        rest = tail;
                    },
                }
            },
        }
    }
    out
}

/// Whether anything is left of a line without its comments.
fn has_code_beside(line: &Vec<char>) -> (r: bool)
    ensures
        r == code_beside_comment(line@),
{
    let before = match find_pair(line, '-', '-', 0) {
        Some(at) => slice_of(line, 0, at),
        None => slice_of(line, 0, line.len()),
    };
    assert(before@ =~= without_line_comment(line@));
    let residual = strip_inline_block_comment(&before);
    !only_space(&residual, 0, residual.len())
}

/// Whether anything is left of a line without its comments.
pub fn line_has_code_outside_comment(line: &str) -> (r: bool)
    ensures
        r == code_beside_comment(line@),
{
    let chars = chars_of(line);
    has_code_beside(&chars)
}

/// Whether a part of a text is white space.
fn only_space(s: &Vec<char>, from: usize, to: usize) -> (r: bool)
    requires
        from <= to <= s@.len(),
    ensures
        r == is_blank(s@.subrange(from as int, to as int)),
        (from == 0 && to == s@.len()) ==> r == is_blank(s@),
{
    let ghost part = s@.subrange(from as int, to as int);
    assert(from == 0 && to == s@.len() ==> part =~= s@);
    let mut i: usize = from;
    while i < to
        invariant
            from <= i <= to <= s@.len(),
            part == s@.subrange(from as int, to as int),
            forall|j: int| 0 <= j < i - from ==> is_space(#[trigger] part[j]),
        decreases to - i,
    {
        assert(part[i - from] == s@[i as int]);
        if !is_space_char(s[i]) {
            return false;
        }
        i = i + 1;
    }
    true
}

/// Whether some comment touches a line.
fn touched_by_comment(tree: &Tree, lines: &LineIndex, cs: &Vec<usize>, number: u64) -> (r: bool)
    requires
        tree.wf(),
        lines@.wf(),
        forall|k: int| 0 <= k < cs@.len() ==> (#[trigger] cs@[k]) < tree@.len(),
    ensures
        r == has_comment(tree@, lines@, cs@, number as int),
{
    let ghost n = tree@;
    let mut k: usize = 0;
    while k < cs.len()
        invariant
            tree.wf(),
            lines@.wf(),
            n == tree@,
            k <= cs@.len(),
            forall|l: int| 0 <= l < cs@.len() ==> (#[trigger] cs@[l]) < n.len(),
            forall|l: int|
                0 <= l < k ==> !touches(n, lines@, #[trigger] cs@[l] as int, number as int),
        decreases cs@.len() - k,
    {
        match tree.span_at(cs[k]) {
            Some((start, end)) => {
                if lines.line_at(start) as u64 <= number && number <= lines.last_line_at(
                    end,
                ) as u64 {
                    assert(touches(n, lines@, cs@[k as int] as int, number as int));
                    return true;
                }
            },
            None => {},
        }
        k = k + 1;
    }
    false
}

/// Whether some comment holds a byte.
fn byte_in_comment(tree: &Tree, cs: &Vec<usize>, byte: u64) -> (r: bool)
    requires
        tree.wf(),
        forall|k: int| 0 <= k < cs@.len() ==> (#[trigger] cs@[k]) < tree@.len(),
    ensures
        r == in_comment(tree@, cs@, byte as int),
{
    let ghost n = tree@;
    let mut k: usize = 0;
    while k < cs.len()
        invariant
            tree.wf(),
            n == tree@,
            k <= cs@.len(),
            forall|l: int| 0 <= l < cs@.len() ==> (#[trigger] cs@[l]) < n.len(),
            forall|l: int| 0 <= l < k ==> !holds_byte(n, #[trigger] cs@[l] as int, byte as int),
        decreases cs@.len() - k,
    {
        match tree.span_at(cs[k]) {
            Some((start, end)) => {
                if start as u64 <= byte && byte < end as u64 {
                    assert(holds_byte(n, cs@[k as int] as int, byte as int));
                    return true;
                }
            },
            None => {},
        }
        k = k + 1;
    }
    false
}

/// Whether everything visible on a line belongs to comments. `at` is the byte
/// at which the line starts.
fn is_all_comment(
    tree: &Tree,
    cs: &Vec<usize>,
    text: &Vec<char>,
    from: usize,
    to: usize,
    at: u64,
) -> (r: bool)
    requires
        tree.wf(),
        forall|k: int| 0 <= k < cs@.len() ==> (#[trigger] cs@[k]) < tree@.len(),
        from <= to <= text@.len() <= MAX_TEXT,
        at == offset(text@, from as int),
    ensures
        r == all_comment(tree@, cs@, text@, (from as int, to as int)),
{
    let ghost n = tree@;
    let mut byte: u64 = at;
    let mut i: usize = from;
    while i < to
        invariant
            tree.wf(),
            n == tree@,
            forall|k: int| 0 <= k < cs@.len() ==> (#[trigger] cs@[k]) < n.len(),
            from <= i <= to <= text@.len() <= MAX_TEXT,
            byte == offset(text@, i as int),
            forall|j: int|
                from <= j < i ==> is_space(#[trigger] text@[j]) || in_comment(
                    n,
                    cs@,
                    offset(text@, j),
                ),
        decreases to - i,
    {
        proof {
            lemma_offset(text@, i as int);
        }
        if !is_space_char(text[i]) && !byte_in_comment(tree, cs, byte) {
            assert(!is_space(text@[i as int]));
            return false;
        }
        byte = byte + char_width(text[i]);
        i = i + 1;
    }
    true
}

proof fn lemma_lines_bound(text: Seq<char>, i: int)
    requires
        0 <= i <= text.len(),
    ensures
        0 <= line_start(text, i) <= i,
        ended_lines(text, i).len() <= line_start(text, i),
    decreases i,
{
    if i > 0 {
        lemma_lines_bound(text, i - 1);
    }
}

/// What one line adds to the counts.
struct LineCounts {
    blank: u64,
    comment: u64,
    code: u64,
}

/// Count one more line.
fn count_line(
    c: &mut LineCounts,
    tree: &Tree,
    lines: &LineIndex,
    cs: &Vec<usize>,
    text: &Vec<char>,
    from: usize,
    to: usize,
    at: u64,
    k: Ghost<int>,
    number: u64,
)
    requires
        tree.wf(),
        lines@.wf(),
        forall|l: int| 0 <= l < cs@.len() ==> (#[trigger] cs@[l]) < tree@.len(),
        from <= to <= text@.len() <= MAX_TEXT,
        at == offset(text@, from as int),
        0 <= k@ < lines_of(text@).len(),
        lines_of(text@)[k@] == (from as int, to as int),
        number == k@ + 1,
        old(c).blank == blank_lines(text@, k@),
        old(c).comment == comment_lines(tree@, lines@, cs@, text@, k@),
        old(c).code == code_lines(tree@, lines@, cs@, text@, k@),
        old(c).blank <= k@ < MAX_TEXT,
        old(c).comment <= k@,
        old(c).code <= k@,
    ensures
        final(c).blank == blank_lines(text@, k@ + 1),
        final(c).comment == comment_lines(tree@, lines@, cs@, text@, k@ + 1),
        final(c).code == code_lines(tree@, lines@, cs@, text@, k@ + 1),
        final(c).blank <= k@ + 1,
        final(c).comment <= k@ + 1,
        final(c).code <= k@ + 1,
{
    if only_space(text, from, to) {
        c.blank = c.blank + 1;
        return ;
    }
    let touched = touched_by_comment(tree, lines, cs, number);
    if touched {
        c.comment = c.comment + 1;
        let line = slice_of(text, from, to);
        if !is_all_comment(tree, cs, text, from, to, at) && has_code_beside(&line) {
            c.code = c.code + 1;
        }
    } else {
        c.code = c.code + 1;
    }
}

proof fn lemma_line_of_prefix(text: Seq<char>, i: int, k: int)
    requires
        0 <= i <= text.len(),
        0 <= k < ended_lines(text, i).len(),
    ensures
        ended_lines(text, i).len() <= ended_lines(text, text.len() as int).len(),
        ended_lines(text, text.len() as int)[k] == ended_lines(text, i)[k],
    decreases text.len() - i,
{
    if i < text.len() {
        lemma_line_of_prefix(text, i + 1, k);
    }
}

/// The line counts of a parsed file.
pub fn compute(
    text: &Vec<char>,
    tree: &Tree,
    lines: &LineIndex,
    root: usize,
    facts: &Vec<StatementFacts>,
) -> (r: SqlLoc)
    requires
        text@.len() <= MAX_TEXT,
        tree.wf(),
        lines@.wf(),
        tree.holds(root),
        facts@.len() <= MAX_NODES,
    ensures
        describes_loc(tree@, lines@, root as int, text@, facts@, r),
        r.code <= r.physical <= MAX_TEXT,
        r.comment <= r.physical,
{
    let ghost n = tree@;
    let cs = tree.all_in(root, KindSet::CommentTexts);
    proof {
        lemma_crawl(n, root as int, every(KindSet::CommentTexts));
        lemma_lines_bound(text@, text@.len() as int);
    }
    let mut c = LineCounts { blank: 0, comment: 0, code: 0 };
    let mut number: u64 = 0;
    let mut from: usize = 0;
    let mut start: u64 = 0;
    let mut at: u64 = 0;
    let mut i: usize = 0;
    while i < text.len()
        invariant
            tree.wf(),
            lines@.wf(),
            n == tree@,
            cs@ == comments_of(n, root as int),
            forall|l: int| 0 <= l < cs@.len() ==> (#[trigger] cs@[l]) < n.len(),
            from <= i <= text@.len() <= MAX_TEXT,
            from == line_start(text@, i as int),
            start == offset(text@, from as int),
            at == offset(text@, i as int),
            number == ended_lines(text@, i as int).len(),
            number <= i,
            c.blank == blank_lines(text@, number as int),
            c.comment == comment_lines(n, lines@, cs@, text@, number as int),
            c.code == code_lines(n, lines@, cs@, text@, number as int),
            c.blank <= number,
            c.comment <= number,
            c.code <= number,
        decreases text@.len() - i,
    {
        proof {
            lemma_offset(text@, i as int);
            lemma_lines_bound(text@, i + 1);
        }
        at = at + char_width(text[i]);
        if text[i] == '\n' {
            proof {
                let k = number as int;
                assert(ended_lines(text@, i + 1)[k] == (from as int, i as int));
                lemma_line_of_prefix(text@, i + 1, k);
                assert(lines_of(text@)[k] == ended_lines(text@, text@.len() as int)[k]);
            }
            count_line(
                &mut c,
                tree,
                lines,
                &cs,
                text,
                from,
                i,
                start,
                Ghost(number as int),
                number + 1,
            );
            number = number + 1;
            from = i + 1;
            start = at;
        }
        i = i + 1;
    }
    if from < text.len() {
        proof {
            assert(lines_of(text@)[number as int] == (from as int, text@.len() as int));
        }
        let len: usize = text.len();
        count_line(
            &mut c,
            tree,
            lines,
            &cs,
            text,
            from,
            len,
            start,
            Ghost(number as int),
            number + 1,
        );
        number = number + 1;
    }
    let mut longest: u64 = 0;
    let mut total: u64 = 0;
    let mut s: usize = 0;
    while s < facts.len()
        invariant
            s <= facts@.len() <= MAX_NODES,
            longest == longest_statement(facts@, s as int),
            total == total_lines(facts@, s as int),
            total <= s * 0x1_0000_0000,
        decreases facts@.len() - s,
    {
        let f: StatementFacts = facts[s];
        let span: u64 = 1 + if f.end_line >= f.start_line {
            (f.end_line - f.start_line) as u64
        } else {
            0
        };
        if span > longest {
            longest = span;
        }
        total = total + span;
        s = s + 1;
    }
    SqlLoc {
        physical: number,
        code: c.code,
        comment: c.comment,
        blank: c.blank,
        logical: facts.len() as u64,
        max_statement_lines: longest,
        total_statement_lines: total,
    }
}

/// The line counts of a file without a tree.
pub fn compute_textual(text: &Vec<char>) -> (r: SqlLoc)
    requires
        text@.len() <= MAX_TEXT,
    ensures
        describes_textual(text@, r),
        r.physical <= MAX_TEXT,
        r.comment <= r.physical,
{
    proof {
        lemma_lines_bound(text@, text@.len() as int);
    }
    let mut blank: u64 = 0;
    let mut number: u64 = 0;
    let mut from: usize = 0;
    let mut i: usize = 0;
    while i < text.len()
        invariant
            from <= i <= text@.len() <= MAX_TEXT,
            from == line_start(text@, i as int),
            number == ended_lines(text@, i as int).len(),
            number <= i,
            blank == blank_lines(text@, number as int),
            blank <= number,
        decreases text@.len() - i,
    {
        if text[i] == '\n' {
            proof {
                let k = number as int;
                assert(ended_lines(text@, i + 1)[k] == (from as int, i as int));
                lemma_line_of_prefix(text@, i + 1, k);
                assert(lines_of(text@)[k] == ended_lines(text@, text@.len() as int)[k]);
            }
            if only_space(text, from, i) {
                blank = blank + 1;
            }
            number = number + 1;
            from = i + 1;
        }
        i = i + 1;
    }
    if from < text.len() {
        proof {
            assert(lines_of(text@)[number as int] == (from as int, text@.len() as int));
        }
        if only_space(text, from, text.len()) {
            blank = blank + 1;
        }
        number = number + 1;
    }
    SqlLoc {
        physical: number,
        code: 0,
        comment: number - blank,
        blank,
        logical: 0,
        max_statement_lines: 0,
        total_statement_lines: 0,
    }
}

/// Every line is blank, a comment line or a code line, and a blank line is
/// nothing else.
pub proof fn lines_are_classified(
    n: Seq<Node>,
    lines: Lines,
    root: int,
    text: Seq<char>,
    facts: Seq<StatementFacts>,
    r: SqlLoc,
)
    requires
        describes_loc(n, lines, root, text, facts, r),
    ensures
        r.blank + r.comment + r.code >= r.physical,
        r.blank + r.comment <= r.physical,
        r.blank + r.code <= r.physical,
{
    lemma_classified(n, lines, comments_of(n, root), text, lines_of(text).len() as int);
}

proof fn lemma_classified(
    n: Seq<Node>,
    lines: Lines,
    cs: Seq<usize>,
    text: Seq<char>,
    k: int,
)
    requires
        0 <= k,
    ensures
        blank_lines(text, k) + comment_lines(n, lines, cs, text, k) + code_lines(
            n,
            lines,
            cs,
            text,
            k,
        ) >= k,
        blank_lines(text, k) + comment_lines(n, lines, cs, text, k) <= k,
        blank_lines(text, k) + code_lines(n, lines, cs, text, k) <= k,
    decreases k,
{
    if k > 0 {
        lemma_classified(n, lines, cs, text, k - 1);
    }
}

} // verus!
