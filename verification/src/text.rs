//! Character-level text operations: ASCII case folding, trimming, substring
//! tests, and the byte widths that relate character positions to the byte
//! offsets of a syntax tree.

use vstd::prelude::*;

verus! {

/// ASCII upper case of one character; every other character is kept.
pub open spec fn upper_char(c: char) -> char {
    if 'a' <= c && c <= 'z' {
        ((c as u8) - 32) as u8 as char
    } else {
        c
    }
}

/// ASCII lower case of one character; every other character is kept.
pub open spec fn lower_char(c: char) -> char {
    if 'A' <= c && c <= 'Z' {
        ((c as u8) + 32) as u8 as char
    } else {
        c
    }
}

/// ASCII upper case of a text.
pub open spec fn upper(s: Seq<char>) -> Seq<char> {
    Seq::new(s.len(), |i: int| upper_char(s[i]))
}

/// ASCII lower case of a text.
pub open spec fn lower(s: Seq<char>) -> Seq<char> {
    Seq::new(s.len(), |i: int| lower_char(s[i]))
}

/// The characters with the Unicode `White_Space` property.
pub open spec fn is_space(c: char) -> bool {
    ||| '\t' <= c && c <= '\r'
    ||| c == ' '
    ||| c == '\u{85}'
    ||| c == '\u{a0}'
    ||| c == '\u{1680}'
    ||| '\u{2000}' <= c && c <= '\u{200a}'
    ||| c == '\u{2028}'
    ||| c == '\u{2029}'
    ||| c == '\u{202f}'
    ||| c == '\u{205f}'
    ||| c == '\u{3000}'
}

/// Whether every character is white space.
pub open spec fn is_blank(s: Seq<char>) -> bool {
    forall|i: int| 0 <= i < s.len() ==> is_space(#[trigger] s[i])
}

/// The text without its leading white space.
pub open spec fn trim_start(s: Seq<char>) -> Seq<char>
    decreases s.len(),
{
    if s.len() > 0 && is_space(s[0]) {
        trim_start(s.drop_first())
    } else {
        s
    }
}

/// The text without its trailing white space.
pub open spec fn trim_end(s: Seq<char>) -> Seq<char>
    decreases s.len(),
{
    if s.len() > 0 && is_space(s.last()) {
        trim_end(s.drop_last())
    } else {
        s
    }
}

/// The text without the white space around it.
pub open spec fn trim(s: Seq<char>) -> Seq<char> {
    trim_end(trim_start(s))
}

proof fn lemma_trimmed_start(s: Seq<char>)
    ensures
        trim_start(s).len() > 0 ==> !is_space(trim_start(s)[0]),
    decreases s.len(),
{
    if s.len() > 0 && is_space(s[0]) {
        lemma_trimmed_start(s.drop_first());
    }
}

proof fn lemma_trimmed_end(s: Seq<char>)
    ensures
        trim_end(s).len() <= s.len(),
        trim_end(s).len() > 0 ==> !is_space(trim_end(s).last()) && trim_end(s)[0] == s[0],
        trim_end(trim_end(s)) == trim_end(s),
    decreases s.len(),
{
    if s.len() > 0 && is_space(s.last()) {
        lemma_trimmed_end(s.drop_last());
    }
}

/// Trimming twice is trimming once.
pub proof fn lemma_trim_twice(s: Seq<char>)
    ensures
        trim(trim(s)) == trim(s),
{
    lemma_trimmed_start(s);
    lemma_trimmed_end(trim_start(s));
}

/// Whether `part` occurs in `s` at position `at`.
pub open spec fn occurs_at(s: Seq<char>, part: Seq<char>, at: int) -> bool {
    &&& 0 <= at
    &&& at + part.len() <= s.len()
    &&& s.subrange(at, at + part.len()) == part
}

/// Whether `part` occurs in `s` anywhere.
pub open spec fn contains(s: Seq<char>, part: Seq<char>) -> bool {
    exists|at: int| occurs_at(s, part, at)
}

/// Whether `s` begins with `part`.
pub open spec fn starts_with(s: Seq<char>, part: Seq<char>) -> bool {
    occurs_at(s, part, 0)
}

/// The number of bytes of a character in UTF-8.
pub open spec fn width(c: char) -> int {
    if c <= '\u{7f}' {
        1
    } else if c <= '\u{7ff}' {
        2
    } else if c <= '\u{ffff}' {
        3
    } else {
        4
    }
}

/// The byte offset at which the character at position `i` starts.
pub open spec fn offset(s: Seq<char>, i: int) -> int
    decreases i,
{
    if i <= 0 {
        0
    } else {
        offset(s, i - 1) + width(s[i - 1])
    }
}

pub fn to_upper_char(c: char) -> (r: char)
    ensures
        r == upper_char(c),
{
    if 'a' <= c && c <= 'z' {
        ((c as u8) - 32u8) as char
    } else {
        c
    }
}

pub fn to_lower_char(c: char) -> (r: char)
    ensures
        r == lower_char(c),
{
    if 'A' <= c && c <= 'Z' {
        ((c as u8) + 32u8) as char
    } else {
        c
    }
}

/// Whether a character is white space.
pub fn is_space_char(c: char) -> (r: bool)
    ensures
        r == is_space(c),
{
    ('\t' <= c && c <= '\r') || c == ' ' || c == '\u{85}' || c == '\u{a0}' || c == '\u{1680}' || (
    '\u{2000}' <= c && c <= '\u{200a}') || c == '\u{2028}' || c == '\u{2029}' || c == '\u{202f}'
        || c == '\u{205f}' || c == '\u{3000}'
}

/// The number of bytes of a character in UTF-8.
pub fn char_width(c: char) -> (r: u64)
    ensures
        r == width(c),
        1 <= r <= 4,
{
    if c <= '\u{7f}' {
        1
    } else if c <= '\u{7ff}' {
        2
    } else if c <= '\u{ffff}' {
        3
    } else {
        4
    }
}

/// The characters of a string.
pub fn chars_of(s: &str) -> (r: Vec<char>)
    ensures
        r@ == s@,
{
    let mut out: Vec<char> = Vec::new();
    for c in it: s.chars()
        invariant
            out@ == it.seq().take(it.index() as int),
            it.seq() == s@,
    {
        out.push(c);
        assert(it.seq().take(it.index() as int + 1) =~= it.seq().take(it.index() as int).push(c));
    }
    assert(out@ =~= s@);
    out
}

/// The string of a sequence of characters: `FromIterator<char>` for `String`,
/// which appends the characters in order.
#[verifier::external_body]
pub(crate) fn string_of(s: &Vec<char>) -> (r: String)
    ensures
        r@ == s@,
{
    s.iter().collect()
}

/// A copy of a text.
pub fn copy_of(s: &Vec<char>) -> (r: Vec<char>)
    ensures
        r@ == s@,
{
    let mut out: Vec<char> = Vec::new();
    let mut i: usize = 0;
    while i < s.len()
        invariant
            i <= s.len(),
            out@ == s@.take(i as int),
        decreases s.len() - i,
    {
        out.push(s[i]);
        assert(s@.take(i as int + 1) =~= s@.take(i as int).push(s@[i as int]));
        i = i + 1;
    }
    assert(out@ =~= s@);
    out
}

/// Appends a string to a text.
pub fn add_text(out: &mut Vec<char>, s: &str)
    ensures
        final(out)@ == old(out)@ + s@,
{
    let mut more = chars_of(s);
    out.append(&mut more);
}

/// Appends a text to a text.
pub fn add_chars(out: &mut Vec<char>, s: &Vec<char>)
    ensures
        final(out)@ == old(out)@ + s@,
{
    let mut more = copy_of(s);
    out.append(&mut more);
}

/// The part of a text from position `from` up to but not including `to`.
pub fn slice_of(s: &Vec<char>, from: usize, to: usize) -> (r: Vec<char>)
    requires
        from <= to <= s.len(),
    ensures
        r@ == s@.subrange(from as int, to as int),
{
    let mut out: Vec<char> = Vec::new();
    let mut i: usize = from;
    while i < to
        invariant
            from <= i <= to <= s.len(),
            out@ == s@.subrange(from as int, i as int),
        decreases to - i,
    {
        out.push(s[i]);
        assert(s@.subrange(from as int, i as int + 1) =~= s@.subrange(from as int, i as int).push(
            s@[i as int],
        ));
        i = i + 1;
    }
    out
}

/// ASCII upper case of a text.
pub fn to_upper(s: &Vec<char>) -> (r: Vec<char>)
    ensures
        r@ == upper(s@),
{
    let mut out: Vec<char> = Vec::new();
    let mut i: usize = 0;
    while i < s.len()
        invariant
            i <= s.len(),
            out@ == upper(s@).take(i as int),
        decreases s.len() - i,
    {
        out.push(to_upper_char(s[i]));
        assert(upper(s@).take(i as int + 1) =~= upper(s@).take(i as int).push(upper(s@)[i as int]));
        i = i + 1;
    }
    assert(out@ =~= upper(s@));
    out
}

/// ASCII lower case of a text.
pub fn to_lower(s: &Vec<char>) -> (r: Vec<char>)
    ensures
        r@ == lower(s@),
{
    let mut out: Vec<char> = Vec::new();
    let mut i: usize = 0;
    while i < s.len()
        invariant
            i <= s.len(),
            out@ == lower(s@).take(i as int),
        decreases s.len() - i,
    {
        out.push(to_lower_char(s[i]));
        assert(lower(s@).take(i as int + 1) =~= lower(s@).take(i as int).push(lower(s@)[i as int]));
        i = i + 1;
    }
    assert(out@ =~= lower(s@));
    out
}

/// Whether two texts are equal.
pub fn same(a: &Vec<char>, b: &Vec<char>) -> (r: bool)
    ensures
        r == (a@ == b@),
{
    if a.len() != b.len() {
        return false;
    }
    let mut i: usize = 0;
    while i < a.len()
        invariant
            i <= a.len(),
            a.len() == b.len(),
            forall|j: int| 0 <= j < i ==> a@[j] == b@[j],
        decreases a.len() - i,
    {
        if a[i] != b[i] {
            return false;
        }
        i = i + 1;
    }
    assert(a@ =~= b@);
    true
}

/// Whether a text equals a string.
pub fn is_text(a: &Vec<char>, b: &str) -> (r: bool)
    ensures
        r == (a@ == b@),
{
    let mut i: usize = 0;
    for c in it: b.chars()
        invariant
            it.seq() == b@,
            i == it.index(),
            i <= a.len(),
            forall|j: int| 0 <= j < i ==> a@[j] == b@[j],
    {
        if i >= a.len() || a[i] != c {
            assert(a@ != b@);
            return false;
        }
        i = i + 1;
    }
    if i == a.len() {
        assert(a@ =~= b@);
        true
    } else {
        false
    }
}

/// Whether `part` occurs in `s` at position `at`.
pub fn occurs(s: &Vec<char>, part: &Vec<char>, at: usize) -> (r: bool)
    ensures
        r == occurs_at(s@, part@, at as int),
{
    if at > s.len() || part.len() > s.len() - at {
        return false;
    }
    let mut i: usize = 0;
    while i < part.len()
        invariant
            i <= part.len(),
            at + part.len() <= s.len(),
            forall|j: int| 0 <= j < i ==> s@[at + j] == part@[j],
        decreases part.len() - i,
    {
        if s[at + i] != part[i] {
            assert(s@.subrange(at as int, at + part@.len())[i as int] != part@[i as int]);
            return false;
        }
        i = i + 1;
    }
    assert(s@.subrange(at as int, at + part@.len()) =~= part@);
    true
}

/// Whether `s` begins with `part`.
pub fn begins_with(s: &Vec<char>, part: &str) -> (r: bool)
    ensures
        r == starts_with(s@, part@),
{
    let p = chars_of(part);
    occurs(s, &p, 0)
}

/// Whether `part` occurs in `s` anywhere.
pub fn has_text(s: &Vec<char>, part: &str) -> (r: bool)
    ensures
        r == contains(s@, part@),
{
    let p = chars_of(part);
    let mut i: usize = 0;
    while i < s.len()
        invariant
            i <= s.len(),
            p@ == part@,
            forall|at: int| 0 <= at < i ==> !occurs_at(s@, part@, at),
        decreases s.len() - i,
    {
        if occurs(s, &p, i) {
            return true;
        }
        i = i + 1;
    }
    occurs(s, &p, i)
}

proof fn lemma_trim_start(s: Seq<char>, i: int)
    requires
        0 <= i <= s.len(),
        forall|j: int| 0 <= j < i ==> is_space(#[trigger] s[j]),
        i < s.len() ==> !is_space(s[i]),
    ensures
        trim_start(s) == s.subrange(i, s.len() as int),
    decreases s.len(),
{
    if i == 0 {
        assert(s.subrange(0, s.len() as int) =~= s);
    } else {
        let d = s.drop_first();
        assert forall|j: int| 0 <= j < i - 1 implies is_space(#[trigger] d[j]) by {
            assert(d[j] == s[j + 1]);
        }
        lemma_trim_start(d, i - 1);
        assert(d.subrange(i - 1, d.len() as int) =~= s.subrange(i, s.len() as int));
    }
}

proof fn lemma_trim_end(s: Seq<char>, i: int)
    requires
        0 <= i <= s.len(),
        forall|j: int| i <= j < s.len() ==> is_space(#[trigger] s[j]),
        i > 0 ==> !is_space(s[i - 1]),
    ensures
        trim_end(s) == s.subrange(0, i),
    decreases s.len(),
{
    if i == s.len() {
        assert(s.subrange(0, s.len() as int) =~= s);
    } else {
        let d = s.drop_last();
        lemma_trim_end(d, i);
        assert(d.subrange(0, i) =~= s.subrange(0, i));
    }
}

/// The text without the white space around it.
pub fn trimmed(s: &Vec<char>) -> (r: Vec<char>)
    ensures
        r@ == trim(s@),
{
    let mut a: usize = 0;
    while a < s.len() && is_space_char(s[a])
        invariant
            a <= s.len(),
            forall|j: int| 0 <= j < a ==> is_space(#[trigger] s@[j]),
        decreases s.len() - a,
    {
        a = a + 1;
    }
    proof {
        lemma_trim_start(s@, a as int);
    }
    let ghost rest = s@.subrange(a as int, s@.len() as int);
    let mut b: usize = s.len();
    while b > a && is_space_char(s[b - 1])
        invariant
            a <= b <= s.len(),
            rest == s@.subrange(a as int, s@.len() as int),
            forall|j: int| b - a <= j < rest.len() ==> is_space(#[trigger] rest[j]),
        decreases b,
    {
        b = b - 1;
        assert(rest[b - a] == s@[b as int]);
    }
    proof {
        if b > a {
            assert(rest[b - a - 1] == s@[b - 1]);
        }
        lemma_trim_end(rest, b - a);
        assert(rest.subrange(0, b - a) =~= s@.subrange(a as int, b as int));
    }
    slice_of(s, a, b)
}

/// The text without its leading white space.
pub fn trimmed_start(s: &Vec<char>) -> (r: Vec<char>)
    ensures
        r@ == trim_start(s@),
{
    let mut a: usize = 0;
    while a < s.len() && is_space_char(s[a])
        invariant
            a <= s.len(),
            forall|j: int| 0 <= j < a ==> is_space(#[trigger] s@[j]),
        decreases s.len() - a,
    {
        a = a + 1;
    }
    proof {
        lemma_trim_start(s@, a as int);
    }
    slice_of(s, a, s.len())
}

} // verus!
