//! What holds of texts, of their lines, and of what is counted of them.

use vstd::prelude::*;

use crate::kind::KindSet;
use crate::loc::{
    blank_line, blank_lines, code_line, code_lines, comment_line, comment_lines, comments_of,
    describes_loc, describes_textual, ended_lines, find_from, has_comment, in_comment, line_start,
    line_text, lines_of, longest_statement, statement_lines, total_lines, touches, without_blocks,
    without_line_comment, SqlLoc,
};
use crate::span::{line_starts, reached_starts, Lines, MAX_TEXT};
use crate::statements::StatementFacts;
use crate::text::{
    contains, is_blank, is_space, lower, lower_char, occurs_at, offset, starts_with, trim,
    trim_end, trim_start, upper, upper_char, width,
};
use crate::tree::{number, well_formed, Node};
use crate::tree_laws::{highest, lemma_is_reported, total};

verus! {

// ── letters ────────────────────────────────────────────────────────────

/// A letter keeps its place in the alphabet when its case is changed; every
/// other character is kept.
pub proof fn letters_keep_their_place(c: char)
    ensures
        'a' <= c <= 'z' ==> upper_char(c) as int - 'A' as int == c as int - 'a' as int,
        'A' <= c <= 'Z' ==> lower_char(c) as int - 'a' as int == c as int - 'A' as int,
        !('a' <= c <= 'z') ==> upper_char(c) == c,
        !('A' <= c <= 'Z') ==> lower_char(c) == c,
        upper_char(lower_char(c)) == upper_char(c),
        lower_char(upper_char(c)) == lower_char(c),
{
}

/// In upper case no small letter is left, and texts that differ in case alone
/// are the same.
pub proof fn case_is_folded(s: Seq<char>, t: Seq<char>, i: int)
    requires
        0 <= i < s.len(),
    ensures
        upper(s).len() == s.len(),
        lower(s).len() == s.len(),
        !('a' <= upper(s)[i] <= 'z'),
        !('A' <= lower(s)[i] <= 'Z'),
        lower(s) == lower(t) <==> upper(s) == upper(t),
        upper(upper(s)) == upper(s),
{
    assert(upper(upper(s)) =~= upper(s));
    if upper(s) == upper(t) {
        assert(upper(s).len() == upper(t).len());
        assert forall|k: int| 0 <= k < s.len() implies lower(s)[k] == lower(t)[k] by {
            assert(upper(s)[k] == upper(t)[k]);
            letters_keep_their_place(s[k]);
            letters_keep_their_place(t[k]);
        }
        assert(lower(s) =~= lower(t));
    }
    if lower(s) == lower(t) {
        assert(lower(s).len() == lower(t).len());
        assert forall|k: int| 0 <= k < s.len() implies upper(s)[k] == upper(t)[k] by {
            assert(lower(s)[k] == lower(t)[k]);
            letters_keep_their_place(s[k]);
            letters_keep_their_place(t[k]);
        }
        assert(upper(s) =~= upper(t));
    }
}

/// The characters that are white space, by their code points.
pub proof fn spaces_have_their_code_points(c: char)
    ensures
        is_space(c) <==> {
            let p = c as int;
            ||| 0x9 <= p <= 0xd
            ||| p == 0x20 || p == 0x85 || p == 0xa0 || p == 0x1680
            ||| 0x2000 <= p <= 0x200a
            ||| p == 0x2028 || p == 0x2029 || p == 0x202f || p == 0x205f || p == 0x3000
        },
{
}

// ── parts ──────────────────────────────────────────────────────────────

proof fn lemma_trim_start_split(s: Seq<char>) -> (a: Seq<char>)
    ensures
        s == a + trim_start(s),
        is_blank(a),
        trim_start(s).len() > 0 ==> !is_space(trim_start(s)[0]),
    decreases s.len(),
{
    if s.len() > 0 && is_space(s[0]) {
        let b = lemma_trim_start_split(s.drop_first());
        let a = seq![s[0]] + b;
        let x = trim_start(s);
        assert(s.drop_first() == b + x);
        assert(s =~= seq![s[0]] + s.drop_first());
        assert(a + x =~= seq![s[0]] + (b + x));
        a
    } else {
        assert(s =~= Seq::<char>::empty() + s);
        Seq::empty()
    }
}

proof fn lemma_trim_end_split(s: Seq<char>) -> (b: Seq<char>)
    ensures
        s == trim_end(s) + b,
        is_blank(b),
        trim_end(s).len() > 0 ==> !is_space(trim_end(s).last()) && trim_end(s)[0] == s[0],
    decreases s.len(),
{
    if s.len() > 0 && is_space(s.last()) {
        let a = lemma_trim_end_split(s.drop_last());
        let b = a.push(s.last());
        let x = trim_end(s);
        assert(s.drop_last() == x + a);
        assert(s =~= s.drop_last().push(s.last()));
        assert(x + b =~= (x + a).push(s.last()));
        b
    } else {
        assert(s =~= s + Seq::<char>::empty());
        Seq::empty()
    }
}

/// Trimming takes away white space on both sides and leaves none there.
pub proof fn trimming_takes_space_away(s: Seq<char>)
    ensures
        exists|a: Seq<char>, b: Seq<char>|
            s == #[trigger] (a + trim(s) + b) && is_blank(a) && is_blank(b),
        trim(s).len() > 0 ==> !is_space(trim(s)[0]) && !is_space(trim(s).last()),
{
    let a = lemma_trim_start_split(s);
    let b = lemma_trim_end_split(trim_start(s));
    assert(s =~= a + trim(s) + b);
    if trim(s).len() > 0 {
        assert(trim_start(s).len() > 0);
    }
}

/// What stands in a text is found in it, and what is found stands there.
pub proof fn parts_are_found(a: Seq<char>, part: Seq<char>, b: Seq<char>, s: Seq<char>)
    ensures
        contains(a + part + b, part),
        starts_with(part + b, part),
        contains(s, part) ==> exists|x: Seq<char>, y: Seq<char>| s == #[trigger] (x + part + y),
        starts_with(s, part) ==> exists|y: Seq<char>| s == #[trigger] (part + y),
{
    let t = a + part + b;
    assert(t.subrange(a.len() as int, a.len() as int + part.len()) =~= part);
    assert(occurs_at(t, part, a.len() as int));
    assert((part + b).subrange(0, 0int + part.len()) =~= part);
    if contains(s, part) {
        let at = choose|at: int| occurs_at(s, part, at);
        let x = s.subrange(0, at);
        let y = s.subrange(at + part.len(), s.len() as int);
        assert(s =~= x + s.subrange(at, at + part.len()) + y);
        assert(s == x + part + y);
    }
    if starts_with(s, part) {
        let y = s.subrange(part.len() as int, s.len() as int);
        assert(s =~= s.subrange(0, 0int + part.len()) + y);
        assert(s == part + y);
    }
}

/// Where a part is looked for, the first place is found.
pub proof fn first_places_are_found(s: Seq<char>, part: Seq<char>, i: int, at: int)
    requires
        0 <= i,
        part.len() > 0,
    ensures
        find_from(s, part, i) == Some(at) <==> i <= at && occurs_at(s, part, at) && forall|j: int|
            i <= j < at ==> !#[trigger] occurs_at(s, part, j),
        find_from(s, part, i) is None <==> forall|j: int| i <= j ==> !#[trigger] occurs_at(
            s,
            part,
            j,
        ),
    decreases s.len() + 1 - i,
{
    if i + part.len() <= s.len() && !occurs_at(s, part, i) {
        first_places_are_found(s, part, i + 1, at);
    }
    if i + part.len() <= s.len() && occurs_at(s, part, i) {
        assert(find_from(s, part, i) == Some(i));
    }
}

/// The bytes of a character are as many as its code point needs.
pub proof fn characters_have_their_width(c: char)
    ensures
        ({
            let p = c as int;
            &&& width(c) == 1 <==> p < 0x80
            &&& width(c) == 2 <==> 0x80 <= p < 0x800
            &&& width(c) == 3 <==> 0x800 <= p < 0x10000
            &&& width(c) == 4 <==> 0x10000 <= p
        }),
{
}

// ── lines ──────────────────────────────────────────────────────────────

proof fn lemma_reached(text: Seq<char>, i: int, byte: int, p: spec_fn(int) -> bool)
    requires
        0 <= i <= text.len(),
        offset(text, text.len() as int) <= MAX_TEXT,
        forall|k: int|
            0 <= k < text.len() ==> #[trigger] p(k) == (text[k] == '\n' && offset(text, k + 1)
                <= byte),
    ensures
        reached_starts(line_starts(text, i), byte) == number(0, i, p),
    decreases i,
{
    if i > 0 {
        lemma_reached(text, i - 1, byte, p);
        assert(p(i - 1) == (text[i - 1] == '\n' && offset(text, i) <= byte));
        crate::span::lemma_offset_grows(text, i, text.len() as int);
        crate::span::lemma_offset(text, i);
        if text[i - 1] == '\n' {
            let s = line_starts(text, i);
            assert(s.drop_last() =~= line_starts(text, i - 1));
        }
    }
}

/// A byte is on the line after as many as end before it; the last byte before an
/// end is on its last line.
pub proof fn lines_are_counted_by_line_feeds(text: Seq<char>, index: Lines, byte: u32)
    requires
        offset(text, text.len() as int) <= MAX_TEXT,
        index.starts == line_starts(text, text.len() as int),
    ensures
        index.line(byte) == (1 + number(
            0,
            text.len() as int,
            |i: int| text[i] == '\n' && offset(text, i + 1) <= byte,
        )) as u32,
        byte > 0 ==> index.last_line(byte) == index.line((byte - 1) as u32),
        index.last_line(0) == index.line(0),
{
    lemma_reached(
        text,
        text.len() as int,
        byte as int,
        |i: int| text[i] == '\n' && offset(text, i + 1) <= byte,
    );
}

/// A span starts and ends with the bytes that it is of, on their lines.
pub proof fn spans_have_their_lines(index: Lines, range: (u32, u32))
    ensures
        index.span(range).start_byte == range.0,
        index.span(range).end_byte == range.1,
        index.span(range).start_line == index.line(range.0),
        range.1 > 0 ==> index.span(range).end_line == index.line((range.1 - 1) as u32),
{
}

proof fn lemma_line_start(text: Seq<char>, i: int)
    requires
        0 <= i <= text.len(),
    ensures
        0 <= line_start(text, i) <= i,
        line_start(text, i) > 0 ==> text[line_start(text, i) - 1] == '\n',
        forall|j: int| line_start(text, i) <= j < i ==> #[trigger] text[j] != '\n',
    decreases i,
{
    if i > 0 && text[i - 1] != '\n' {
        lemma_line_start(text, i - 1);
    }
}

/// Whether a range of positions is a line up to a position: it starts a line, has
/// no line feed in it, and ends before one or where the text does.
pub open spec fn is_line(text: Seq<char>, line: (int, int)) -> bool {
    &&& 0 <= line.0 <= line.1 <= text.len()
    &&& line.0 > 0 ==> text[line.0 - 1] == '\n'
    &&& line.1 < text.len() ==> text[line.1] == '\n'
    &&& forall|j: int| line.0 <= j < line.1 ==> #[trigger] text[j] != '\n'
}

proof fn lemma_ended(text: Seq<char>, i: int)
    requires
        0 <= i <= text.len(),
    ensures
        ended_lines(text, i).len() == number(0, i, |k: int| text[k] == '\n'),
        forall|k: int|
            0 <= k < ended_lines(text, i).len() ==> is_line(
                text,
                #[trigger] ended_lines(text, i)[k],
            ),
    decreases i,
{
    if i > 0 {
        lemma_ended(text, i - 1);
        lemma_line_start(text, i - 1);
    }
}

/// The lines of a text are what stands between its line feeds; what is left after
/// the last one is a line where it is not empty.
pub proof fn lines_stand_between_line_feeds(text: Seq<char>, k: int)
    ensures
        lines_of(text).len() == number(0, text.len() as int, |i: int| text[i] == '\n') + if text.len()
            > 0 && text.last() != '\n' {
            1int
        } else {
            0
        },
        0 <= k < lines_of(text).len() ==> is_line(text, lines_of(text)[k]),
{
    let len = text.len() as int;
    lemma_ended(text, len);
    lemma_line_start(text, len);
    if len > 0 && text[len - 1] == '\n' {
        assert(line_start(text, len) == len);
    }
    if len > 0 && text[len - 1] != '\n' {
        lemma_line_start(text, len - 1);
        assert(line_start(text, len) < len);
    }
}

// ── comments ───────────────────────────────────────────────────────────

/// A line comment takes away what follows it.
pub proof fn line_comments_run_to_the_end(a: Seq<char>, b: Seq<char>)
    requires
        !contains(a.push('-'), seq!['-', '-']),
    ensures
        without_line_comment(a + seq!['-', '-'] + b) == a,
{
    let s = a + seq!['-', '-'] + b;
    let at = a.len() as int;
    let mark = seq!['-', '-'];
    assert(s.subrange(at, at + 2) =~= mark);
    assert forall|j: int| 0 <= j < at implies !#[trigger] occurs_at(s, mark, j) by {
        if occurs_at(s, mark, j) {
            let t = a.push('-');
            assert(t.subrange(j, j + 2) =~= s.subrange(j, j + 2));
            assert(occurs_at(t, mark, j));
        }
    }
    first_places_are_found(s, mark, 0, at);
    assert(s.take(at) =~= a);
}

/// A block comment takes away what stands in it, and what follows it stays.
pub proof fn block_comments_end(a: Seq<char>, b: Seq<char>, c: Seq<char>)
    requires
        !contains(a.push('/'), seq!['/', '*']),
        !contains(b.push('*'), seq!['*', '/']),
    ensures
        without_blocks(a + seq!['/', '*'] + b + seq!['*', '/'] + c) == a + without_blocks(c),
{
    let open = seq!['/', '*'];
    let close = seq!['*', '/'];
    let s = a + open + b + close + c;
    let at = a.len() as int;
    assert(s.subrange(at, at + 2) =~= open);
    assert forall|j: int| 0 <= j < at implies !#[trigger] occurs_at(s, open, j) by {
        if occurs_at(s, open, j) {
            let t = a.push('/');
            assert(t.subrange(j, j + 2) =~= s.subrange(j, j + 2));
            assert(occurs_at(t, open, j));
        }
    }
    first_places_are_found(s, open, 0, at);
    let from = at + 2;
    let end = from + b.len();
    assert(s.subrange(end, end + 2) =~= close);
    assert forall|j: int| from <= j < end implies !#[trigger] occurs_at(s, close, j) by {
        if occurs_at(s, close, j) {
            let t = b.push('*');
            assert(t.subrange(j - from, j - from + 2) =~= s.subrange(j, j + 2));
            assert(occurs_at(t, close, j - from));
        }
    }
    first_places_are_found(s, close, from, end);
    assert(s.take(at) =~= a);
    assert(s.skip(end + 2) =~= c);
}

/// A block comment that is not closed takes away what follows it.
pub proof fn open_block_comments_run_to_the_end(a: Seq<char>, b: Seq<char>)
    requires
        !contains(a.push('/'), seq!['/', '*']),
        !contains(b, seq!['*', '/']),
    ensures
        without_blocks(a + seq!['/', '*'] + b) == a,
{
    let open = seq!['/', '*'];
    let close = seq!['*', '/'];
    let s = a + open + b;
    let at = a.len() as int;
    assert(s.subrange(at, at + 2) =~= open);
    assert forall|j: int| 0 <= j < at implies !#[trigger] occurs_at(s, open, j) by {
        if occurs_at(s, open, j) {
            let t = a.push('/');
            assert(t.subrange(j, j + 2) =~= s.subrange(j, j + 2));
            assert(occurs_at(t, open, j));
        }
    }
    first_places_are_found(s, open, 0, at);
    assert forall|j: int| at + 2 <= j implies !#[trigger] occurs_at(s, close, j) by {
        if occurs_at(s, close, j) {
            let f = j - (at + 2);
            assert(b.subrange(f, f + 2) =~= s.subrange(j, j + 2));
            assert(occurs_at(b, close, f));
        }
    }
    first_places_are_found(s, close, at + 2, 0);
    assert(s.take(at) =~= a);
}

// ── counts ─────────────────────────────────────────────────────────────

/// Whether a line has nothing but white space on it.
pub open spec fn shows_nothing(text: Seq<char>, k: int) -> bool {
    let line = lines_of(text)[k];
    forall|i: int| line.0 <= i < line.1 ==> is_space(#[trigger] text[i])
}

/// Whether a comment reaches a line.
pub open spec fn commented(n: Seq<Node>, lines: Lines, root: int, k: int) -> bool {
    exists|c: int|
        root <= c < n[root].end && KindSet::CommentTexts.holds((#[trigger] n[c]).kind) && (
        n[c].span matches Some(range) && lines.line(range.0) <= k + 1 && k + 1 <= lines.last_line(
            range.1,
        ))
}

/// Whether everything that shows on a line stands in a comment.
pub open spec fn only_commented(n: Seq<Node>, root: int, text: Seq<char>, k: int) -> bool {
    let line = lines_of(text)[k];
    forall|i: int|
        line.0 <= i < line.1 && !is_space(#[trigger] text[i]) ==> exists|c: int|
            root <= c < n[root].end && KindSet::CommentTexts.holds((#[trigger] n[c]).kind) && (
            n[c].span matches Some(range) && range.0 <= offset(text, i) < range.1)
}

proof fn lemma_blank(text: Seq<char>, k: int)
    requires
        0 <= k < lines_of(text).len(),
    ensures
        blank_line(text, lines_of(text)[k]) <==> shows_nothing(text, k),
{
    lines_stand_between_line_feeds(text, k);
    let line = lines_of(text)[k];
    let t = line_text(text, line);
    if is_blank(t) {
        assert forall|i: int| line.0 <= i < line.1 implies is_space(#[trigger] text[i]) by {
            assert(t[i - line.0] == text[i]);
        }
    }
}

proof fn lemma_commented(n: Seq<Node>, lines: Lines, root: int, text: Seq<char>, k: int)
    requires
        well_formed(n),
        0 <= root < n.len(),
        0 <= k < lines_of(text).len(),
    ensures
        has_comment(n, lines, comments_of(n, root), k + 1) <==> commented(n, lines, root, k),
        crate::loc::all_comment(n, comments_of(n, root), text, lines_of(text)[k])
            <==> only_commented(n, root, text, k),
{
    let set = KindSet::CommentTexts;
    let cs = comments_of(n, root);
    let hi = n[root].end as int;
    crate::tree::lemma_crawl(n, root, crate::tree::every(set));
    if has_comment(n, lines, cs, k + 1) {
        let x = choose|x: int| 0 <= x < cs.len() && touches(n, lines, #[trigger] cs[x] as int, k + 1);
        assert(set.holds(n[cs[x] as int].kind));
    }
    if commented(n, lines, root, k) {
        let c = choose|c: int|
            root <= c < n[root].end && KindSet::CommentTexts.holds((#[trigger] n[c]).kind) && (
            n[c].span matches Some(range) && lines.line(range.0) <= k + 1 && k + 1
                <= lines.last_line(range.1));
        let x = lemma_is_reported(n, root, set, hi, c);
        assert(touches(n, lines, cs[x] as int, k + 1));
    }
    let line = lines_of(text)[k];
    assert forall|byte: int| #[trigger] in_comment(n, cs, byte) <==> exists|c: int|
        root <= c < n[root].end && KindSet::CommentTexts.holds((#[trigger] n[c]).kind) && (
        n[c].span matches Some(range) && range.0 <= byte < range.1) by {
        if in_comment(n, cs, byte) {
            let x = choose|x: int|
                0 <= x < cs.len() && crate::loc::holds_byte(n, #[trigger] cs[x] as int, byte);
            assert(set.holds(n[cs[x] as int].kind));
        }
        if exists|c: int|
            root <= c < n[root].end && KindSet::CommentTexts.holds((#[trigger] n[c]).kind) && (
            n[c].span matches Some(range) && range.0 <= byte < range.1) {
            let c = choose|c: int|
                root <= c < n[root].end && KindSet::CommentTexts.holds((#[trigger] n[c]).kind) && (
                n[c].span matches Some(range) && range.0 <= byte < range.1);
            let x = lemma_is_reported(n, root, set, hi, c);
            assert(crate::loc::holds_byte(n, cs[x] as int, byte));
        }
    }
    if only_commented(n, root, text, k) {
        assert forall|i: int| line.0 <= i < line.1 implies is_space(#[trigger] text[i])
            || in_comment(n, cs, offset(text, i)) by {}
    }
    if crate::loc::all_comment(n, cs, text, line) {
        assert forall|i: int|
            line.0 <= i < line.1 && !is_space(#[trigger] text[i]) implies exists|c: int|
            root <= c < n[root].end && KindSet::CommentTexts.holds((#[trigger] n[c]).kind) && (
            n[c].span matches Some(range) && range.0 <= offset(text, i) < range.1) by {
            assert(in_comment(n, cs, offset(text, i)));
        }
    }
}

/// A line is blank where nothing shows on it, a comment line where a comment
/// reaches it and something shows, and a code line where something shows that no
/// comment accounts for, neither the comments of the tree nor the marks on the
/// line.
pub proof fn lines_are_counted_by_what_shows(
    n: Seq<Node>,
    lines: Lines,
    root: int,
    text: Seq<char>,
    facts: Seq<StatementFacts>,
    r: SqlLoc,
)
    requires
        well_formed(n),
        0 <= root < n.len(),
        describes_loc(n, lines, root, text, facts, r),
    ensures
        r.physical == lines_of(text).len(),
        r.blank == number(0, lines_of(text).len() as int, |k: int| shows_nothing(text, k)),
        r.comment == number(
            0,
            lines_of(text).len() as int,
            |k: int| !shows_nothing(text, k) && commented(n, lines, root, k),
        ),
        r.code == number(
            0,
            lines_of(text).len() as int,
            |k: int|
                !shows_nothing(text, k) && (!commented(n, lines, root, k) || !only_commented(
                    n,
                    root,
                    text,
                    k,
                ) && !is_blank(
                    without_blocks(without_line_comment(line_text(text, lines_of(text)[k]))),
                )),
        ),
{
    let k = lines_of(text).len() as int;
    let cs = comments_of(n, root);
    let b = |k: int| shows_nothing(text, k);
    let c = |k: int| !shows_nothing(text, k) && commented(n, lines, root, k);
    let d = |k: int|
        !shows_nothing(text, k) && (!commented(n, lines, root, k) || !only_commented(
            n,
            root,
            text,
            k,
        ) && !is_blank(
            without_blocks(without_line_comment(line_text(text, lines_of(text)[k]))),
        ));
    assert forall|j: int| 0 <= j < k implies #[trigger] b(j) == blank_line(
        text,
        lines_of(text)[j],
    ) by {
        lemma_blank(text, j);
    }
    assert forall|j: int| 0 <= j < k implies #[trigger] c(j) == comment_line(
        n,
        lines,
        cs,
        text,
        j,
    ) by {
        lemma_blank(text, j);
        lemma_commented(n, lines, root, text, j);
    }
    assert forall|j: int| 0 <= j < k implies #[trigger] d(j) == code_line(
        n,
        lines,
        cs,
        text,
        j,
    ) by {
        lemma_blank(text, j);
        lemma_commented(n, lines, root, text, j);
    }
    lemma_line_numbers(n, lines, cs, text, k, b, c, d);
}

proof fn lemma_line_numbers(
    n: Seq<Node>,
    lines: Lines,
    cs: Seq<usize>,
    text: Seq<char>,
    k: int,
    b: spec_fn(int) -> bool,
    c: spec_fn(int) -> bool,
    d: spec_fn(int) -> bool,
)
    requires
        0 <= k <= lines_of(text).len(),
        forall|j: int| 0 <= j < k ==> #[trigger] b(j) == blank_line(text, lines_of(text)[j]),
        forall|j: int| 0 <= j < k ==> #[trigger] c(j) == comment_line(n, lines, cs, text, j),
        forall|j: int| 0 <= j < k ==> #[trigger] d(j) == code_line(n, lines, cs, text, j),
    ensures
        blank_lines(text, k) == number(0, k, b),
        comment_lines(n, lines, cs, text, k) == number(0, k, c),
        code_lines(n, lines, cs, text, k) == number(0, k, d),
    decreases k,
{
    if k > 0 {
        lemma_line_numbers(n, lines, cs, text, k - 1, b, c, d);
        assert(b(k - 1) == blank_line(text, lines_of(text)[k - 1]));
        assert(c(k - 1) == comment_line(n, lines, cs, text, k - 1));
        assert(d(k - 1) == code_line(n, lines, cs, text, k - 1));
    }
}

/// A file that could not be parsed has no code: its lines are blank or comment.
pub proof fn unread_files_have_no_code(text: Seq<char>, r: SqlLoc)
    requires
        describes_textual(text, r),
    ensures
        r.code == 0,
        r.logical == 0,
        r.max_statement_lines == 0,
        r.total_statement_lines == 0,
        r.physical == lines_of(text).len(),
        r.blank == number(0, lines_of(text).len() as int, |k: int| shows_nothing(text, k)),
        r.comment == r.physical - r.blank,
{
    let k = lines_of(text).len() as int;
    let b = |k: int| shows_nothing(text, k);
    assert forall|j: int| 0 <= j < k implies #[trigger] b(j) == blank_line(
        text,
        lines_of(text)[j],
    ) by {
        lemma_blank(text, j);
    }
    lemma_blank_number(text, k, b);
}

proof fn lemma_blank_number(text: Seq<char>, k: int, b: spec_fn(int) -> bool)
    requires
        0 <= k <= lines_of(text).len(),
        forall|j: int| 0 <= j < k ==> #[trigger] b(j) == blank_line(text, lines_of(text)[j]),
    ensures
        blank_lines(text, k) == number(0, k, b),
    decreases k,
{
    if k > 0 {
        lemma_blank_number(text, k - 1, b);
        assert(b(k - 1) == blank_line(text, lines_of(text)[k - 1]));
    }
}

/// The lines of a statement are those from its first to its last.
pub open spec fn lines_from_to(f: StatementFacts) -> int {
    if f.start_line <= f.end_line {
        f.end_line - f.start_line + 1
    } else {
        1
    }
}

/// The lines of the statements are added up, and the most of them is kept.
pub proof fn statements_count_their_lines(
    n: Seq<Node>,
    lines: Lines,
    root: int,
    text: Seq<char>,
    facts: Seq<StatementFacts>,
    r: SqlLoc,
)
    requires
        describes_loc(n, lines, root, text, facts, r),
    ensures
        r.logical == facts.len(),
        r.total_statement_lines == total(0, facts.len() as int, |k: int| lines_from_to(facts[k])),
        r.max_statement_lines == highest(0, facts.len() as int, |k: int| lines_from_to(facts[k])),
{
    lemma_statement_lines(facts, facts.len() as int, |k: int| lines_from_to(facts[k]));
}

proof fn lemma_statement_lines(facts: Seq<StatementFacts>, k: int, f: spec_fn(int) -> int)
    requires
        0 <= k <= facts.len(),
        forall|j: int| #[trigger] f(j) == lines_from_to(facts[j]),
    ensures
        total_lines(facts, k) == total(0, k, f),
        longest_statement(facts, k) == highest(0, k, f),
    decreases k,
{
    if k > 0 {
        lemma_statement_lines(facts, k - 1, f);
        assert(f(k - 1) == lines_from_to(facts[k - 1]));
        assert(statement_lines(facts[k - 1]) == lines_from_to(facts[k - 1]));
    }
}

} // verus!
