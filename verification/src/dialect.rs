//! Dialect selection: an in-file directive, a request, or conservative
//! inference from syntax hints.

use vstd::prelude::*;

use crate::grammar::{dialect_named, has_grammar, kind_named, DialectKind};
use crate::loc::{ended_lines, find_from, line_start, line_text, lines_of};
use crate::text::{
    begins_with, chars_of, contains, has_text, is_text, lemma_trim_twice, occurs, occurs_at,
    slice_of, starts_with, string_of, to_upper, trim, trimmed, upper,
};

verus! {

// ── what of a text is code ─────────────────────────────────────────────

/// Where a character of a text stands.
#[derive(Clone, Copy, PartialEq, Eq, Structural)]
pub enum Zone {
    Code,
    /// In a comment that runs to the end of the line.
    Line,
    /// In a comment between `/*` and `*/`.
    Block,
    /// In a string literal.
    Quote,
    /// In a quoted identifier.
    Name,
}

/// A character that hints do not see: a space, unless it ends a line.
pub open spec fn blanked(c: char) -> char {
    if c == '\n' {
        '\n'
    } else {
        ' '
    }
}

/// The text from `i` on, with comments and string literals blanked out, when
/// position `i` stands in `zone`.
pub open spec fn masked(s: Seq<char>, i: int, zone: Zone) -> Seq<char>
    decreases s.len() - i,
{
    if i < 0 || i >= s.len() {
        Seq::empty()
    } else {
        match zone {
            Zone::Code => if occurs_at(s, seq!['-', '-'], i) {
                seq![' ', ' '] + masked(s, i + 2, Zone::Line)
            } else if occurs_at(s, seq!['/', '*'], i) {
                seq![' ', ' '] + masked(s, i + 2, Zone::Block)
            } else if s[i] == '\'' {
                seq![' '] + masked(s, i + 1, Zone::Quote)
            } else if s[i] == '"' {
                seq!['"'] + masked(s, i + 1, Zone::Name)
            } else {
                seq![s[i]] + masked(s, i + 1, Zone::Code)
            },
            Zone::Line => seq![blanked(s[i])] + masked(
                s,
                i + 1,
                if s[i] == '\n' {
                    Zone::Code
                } else {
                    Zone::Line
                },
            ),
            Zone::Block => if occurs_at(s, seq!['*', '/'], i) {
                seq![' ', ' '] + masked(s, i + 2, Zone::Code)
            } else {
                seq![blanked(s[i])] + masked(s, i + 1, Zone::Block)
            },
            Zone::Quote => seq![blanked(s[i])] + masked(
                s,
                i + 1,
                if s[i] == '\'' {
                    Zone::Code
                } else {
                    Zone::Quote
                },
            ),
            Zone::Name => seq![s[i]] + masked(
                s,
                i + 1,
                if s[i] == '"' {
                    Zone::Code
                } else {
                    Zone::Name
                },
            ),
        }
    }
}

/// What hints are looked for in: the code of a text in upper case.
pub open spec fn hinted(text: Seq<char>) -> Seq<char> {
    upper(masked(text, 0, Zone::Code))
}

fn pair_at(s: &Vec<char>, a: char, b: char, i: usize) -> (r: bool)
    requires
        i < s.len(),
    ensures
        r == occurs_at(s@, seq![a, b], i as int),
{
    if s[i] == a && i + 1 < s.len() && s[i + 1] == b {
        assert(s@.subrange(i as int, i + 2) =~= seq![a, b]);
        true
    } else {
        assert(occurs_at(s@, seq![a, b], i as int) ==> s@[i as int] == a && s@[i + 1] == b) by {
            if occurs_at(s@, seq![a, b], i as int) {
                assert(s@.subrange(i as int, i + 2)[0] == s@[i as int]);
                assert(s@.subrange(i as int, i + 2)[1] == s@[i + 1]);
            }
        }
        false
    }
}

fn blank(c: char) -> (r: char)
    ensures
        r == blanked(c),
{
    if c == '\n' {
        '\n'
    } else {
        ' '
    }
}

/// The text with comments and string literals blanked out.
pub fn mask(s: &Vec<char>) -> (r: Vec<char>)
    ensures
        r@ == masked(s@, 0, Zone::Code),
{
    let mut out: Vec<char> = Vec::new();
    let mut zone: Zone = Zone::Code;
    let mut i: usize = 0;
    while i < s.len()
        invariant
            i <= s.len(),
            out@ + masked(s@, i as int, zone) == masked(s@, 0, Zone::Code),
        decreases s.len() - i,
    {
        let ghost before = out@;
        let c: char = s[i];
        let (open, next): (bool, Zone) = match zone {
            Zone::Code => if pair_at(s, '-', '-', i) {
                (true, Zone::Line)
            } else if pair_at(s, '/', '*', i) {
                (true, Zone::Block)
            } else if c == '\'' {
                (false, Zone::Quote)
            } else if c == '"' {
                (false, Zone::Name)
            } else {
                (false, Zone::Code)
            },
            Zone::Line => (false, if c == '\n' {
                Zone::Code
            } else {
                Zone::Line
            }),
            Zone::Block => if pair_at(s, '*', '/', i) {
                (true, Zone::Code)
            } else {
                (false, Zone::Block)
            },
            Zone::Quote => (false, if c == '\'' {
                Zone::Code
            } else {
                Zone::Quote
            }),
            Zone::Name => (false, if c == '"' {
                Zone::Code
            } else {
                Zone::Name
            }),
        };
        if open {
            out.push(' ');
            out.push(' ');
            assert(out@ =~= before + seq![' ', ' ']);
            assert(before + (seq![' ', ' '] + masked(s@, i + 2, next)) =~= out@ + masked(
                s@,
                i + 2,
                next,
            ));
            i = i + 2;
        } else {
            let shown: char = match zone {
                Zone::Code => if c == '\'' {
                    ' '
                } else {
                    c
                },
                Zone::Name => c,
                _ => blank(c),
            };
            out.push(shown);
            assert(before + (seq![shown] + masked(s@, i + 1, next)) =~= out@ + masked(
                s@,
                i + 1,
                next,
            ));
            i = i + 1;
        }
        zone = next;
    }
    assert(out@ + masked(s@, i as int, zone) =~= out@);
    out
}

// ── inference ──────────────────────────────────────────────────────────

/// The dialect families with hints of their own.
pub open spec fn family(i: int) -> DialectKind {
    if i == 0 {
        DialectKind::Tsql
    } else if i == 1 {
        DialectKind::Snowflake
    } else if i == 2 {
        DialectKind::Postgres
    } else if i == 3 {
        DialectKind::Bigquery
    } else if i == 4 {
        DialectKind::Oracle
    } else {
        DialectKind::Mysql
    }
}

/// How many of five hints fire.
pub open spec fn fired(a: bool, b: bool, c: bool, d: bool, e: bool) -> int {
    (a as int) + (b as int) + (c as int) + (d as int) + (e as int)
}

/// Whether `s` ends with `part`.
pub open spec fn ends_with(s: Seq<char>, part: Seq<char>) -> bool {
    occurs_at(s, part, s.len() - part.len())
}

/// How many hints of a family fire on a text.
pub open spec fn hits(u: Seq<char>, i: int) -> int {
    if i == 0 {
        fired(
            contains(u, "\nGO\n"@) || starts_with(u, "GO\n"@) || ends_with(u, "\nGO"@),
            contains(u, "CROSS APPLY"@) || contains(u, "OUTER APPLY"@),
            contains(u, "["@) && contains(u, "]"@),
            contains(u, "ISNULL("@) || contains(u, "NVARCHAR"@) || contains(u, "DATETIME2"@),
            contains(u, "SELECT TOP "@) || contains(u, "SELECT TOP("@),
        )
    } else if i == 1 {
        fired(
            contains(u, "QUALIFY "@),
            contains(u, "IFF("@),
            contains(u, "COPY INTO "@),
            contains(u, ":: VARIANT"@) || contains(u, "::VARIANT"@) || contains(u, " VARIANT"@),
            contains(u, "LATERAL FLATTEN"@),
        )
    } else if i == 2 {
        fired(
            contains(u, "::"@),
            contains(u, "DISTINCT ON"@),
            contains(u, " ILIKE "@),
            contains(u, "RETURNING "@) || contains(u, "RETURNING\n"@) || contains(u, "RETURNING\t"@)
                || contains(u, "RETURNING\r"@),
            contains(u, "ARRAY["@),
        )
    } else if i == 3 {
        fired(
            contains(u, "`"@),
            contains(u, " STRUCT<"@) || contains(u, " STRUCT("@),
            contains(u, "UNNEST("@),
            contains(u, "ARRAY<"@),
            contains(u, "SAFE_CAST("@),
        )
    } else if i == 4 {
        fired(
            contains(u, "CONNECT BY"@),
            contains(u, " MINUS "@),
            contains(u, "NVL("@) || contains(u, "NVL2("@),
            contains(u, " DUAL"@),
            contains(u, "VARCHAR2"@),
        )
    } else {
        fired(
            contains(u, "ENGINE="@) || contains(u, "ENGINE ="@),
            contains(u, "AUTO_INCREMENT"@),
            contains(u, "`"@) && contains(u, "ENGINE"@),
            contains(u, "UNSIGNED"@),
            contains(u, "LIMIT "@) && contains(u, "OFFSET "@),
        )
    }
}

/// The last of the first `k` families with the most hits, if any has one.
pub open spec fn strongest(u: Seq<char>, k: int) -> Option<int>
    decreases k,
{
    if k <= 0 {
        None
    } else {
        match strongest(u, k - 1) {
            None => if hits(u, k - 1) > 0 {
                Some(k - 1)
            } else {
                None
            },
            Some(b) => if hits(u, k - 1) >= hits(u, b) {
                Some(k - 1)
            } else {
                Some(b)
            },
        }
    }
}

/// How many of the first `k` families have a hit.
pub open spec fn families_hit(u: Seq<char>, k: int) -> int
    decreases k,
{
    if k <= 0 {
        0
    } else {
        families_hit(u, k - 1) + if hits(u, k - 1) > 0 {
            1int
        } else {
            0int
        }
    }
}

/// Whether another family has as many hits as family `b`.
pub open spec fn is_tied(u: Seq<char>, b: int) -> bool {
    exists|i: int| 0 <= i < 6 && i != b && #[trigger] hits(u, i) == hits(u, b)
}

/// A dialect guessed from syntax hints, how sure the guess is out of a hundred,
/// and how many families had hints.
#[derive(Clone, Copy, Debug, PartialEq, Eq, Structural)]
pub struct Inference {
    pub kind: DialectKind,
    pub confidence: u8,
    pub conflict_count: u8,
}

/// The dialect that the hints of a text speak for: the family with the most
/// hits, or `ansi` where no family has a hit or two share the most.
pub open spec fn inferred(text: Seq<char>) -> Inference {
    let u = hinted(text);
    match strongest(u, 6) {
        Some(b) => Inference {
            kind: if is_tied(u, b) {
                DialectKind::Ansi
            } else {
                family(b)
            },
            confidence: if is_tied(u, b) {
                40
            } else if hits(u, b) >= 3 {
                90
            } else if hits(u, b) == 2 {
                70
            } else {
                45
            },
            conflict_count: families_hit(u, 6) as u8,
        },
        None => Inference { kind: DialectKind::Ansi, confidence: 30, conflict_count: 0 },
    }
}

fn count(a: bool, b: bool, c: bool, d: bool, e: bool) -> (r: u8)
    ensures
        r == fired(a, b, c, d, e),
        r <= 5,
{
    let mut n: u8 = 0;
    if a {
        n = n + 1;
    }
    if b {
        n = n + 1;
    }
    if c {
        n = n + 1;
    }
    if d {
        n = n + 1;
    }
    if e {
        n = n + 1;
    }
    n
}

fn finishes_with(s: &Vec<char>, part: &str) -> (r: bool)
    ensures
        r == ends_with(s@, part@),
{
    let p = chars_of(part);
    if p.len() > s.len() {
        false
    } else {
        occurs(s, &p, s.len() - p.len())
    }
}

fn hits_of(u: &Vec<char>, i: usize) -> (r: u8)
    requires
        i < 6,
    ensures
        r == hits(u@, i as int),
        r <= 5,
{
    if i == 0 {
        count(
            has_text(u, "\nGO\n") || begins_with(u, "GO\n") || finishes_with(u, "\nGO"),
            has_text(u, "CROSS APPLY") || has_text(u, "OUTER APPLY"),
            has_text(u, "[") && has_text(u, "]"),
            has_text(u, "ISNULL(") || has_text(u, "NVARCHAR") || has_text(u, "DATETIME2"),
            has_text(u, "SELECT TOP ") || has_text(u, "SELECT TOP("),
        )
    } else if i == 1 {
        count(
            has_text(u, "QUALIFY "),
            has_text(u, "IFF("),
            has_text(u, "COPY INTO "),
            has_text(u, ":: VARIANT") || has_text(u, "::VARIANT") || has_text(u, " VARIANT"),
            has_text(u, "LATERAL FLATTEN"),
        )
    } else if i == 2 {
        count(
            has_text(u, "::"),
            has_text(u, "DISTINCT ON"),
            has_text(u, " ILIKE "),
            has_text(u, "RETURNING ") || has_text(u, "RETURNING\n") || has_text(u, "RETURNING\t")
                || has_text(u, "RETURNING\r"),
            has_text(u, "ARRAY["),
        )
    } else if i == 3 {
        count(
            has_text(u, "`"),
            has_text(u, " STRUCT<") || has_text(u, " STRUCT("),
            has_text(u, "UNNEST("),
            has_text(u, "ARRAY<"),
            has_text(u, "SAFE_CAST("),
        )
    } else if i == 4 {
        count(
            has_text(u, "CONNECT BY"),
            has_text(u, " MINUS "),
            has_text(u, "NVL(") || has_text(u, "NVL2("),
            has_text(u, " DUAL"),
            has_text(u, "VARCHAR2"),
        )
    } else {
        count(
            has_text(u, "ENGINE=") || has_text(u, "ENGINE ="),
            has_text(u, "AUTO_INCREMENT"),
            has_text(u, "`") && has_text(u, "ENGINE"),
            has_text(u, "UNSIGNED"),
            has_text(u, "LIMIT ") && has_text(u, "OFFSET "),
        )
    }
}

fn family_at(i: usize) -> (r: DialectKind)
    ensures
        r == family(i as int),
{
    if i == 0 {
        DialectKind::Tsql
    } else if i == 1 {
        DialectKind::Snowflake
    } else if i == 2 {
        DialectKind::Postgres
    } else if i == 3 {
        DialectKind::Bigquery
    } else if i == 4 {
        DialectKind::Oracle
    } else {
        DialectKind::Mysql
    }
}

/// The dialect that the hints of a text speak for: the family with the most
/// hits, or `ansi` where no family has a hit or two share the most.
pub fn infer(text: &Vec<char>) -> (r: Inference)
    ensures
        r == inferred(text@),
{
    let seen = mask(text);
    let u = to_upper(&seen);
    let mut scored: Vec<u8> = Vec::new();
    let mut best: Option<usize> = None;
    let mut conflict_count: u8 = 0;
    let mut i: usize = 0;
    while i < 6
        invariant
            i <= 6,
            scored.len() == i,
            forall|j: int| 0 <= j < i ==> scored@[j] == hits(u@, j),
            conflict_count == families_hit(u@, i as int),
            conflict_count <= i,
            match best {
                Some(b) => strongest(u@, i as int) == Some(b as int) && b < i,
                None => strongest(u@, i as int) is None,
            },
        decreases 6 - i,
    {
        let n: u8 = hits_of(&u, i);
        scored.push(n);
        if n > 0 {
            conflict_count = conflict_count + 1;
        }
        best = match best {
            Some(b) => if n >= scored[b] {
                Some(i)
            } else {
                Some(b)
            },
            None => if n > 0 {
                Some(i)
            } else {
                None
            },
        };
        i = i + 1;
    }
    match best {
        Some(b) => {
            let mut tied: bool = false;
            let mut j: usize = 0;
            while j < 6
                invariant
                    j <= 6,
                    b < 6,
                    scored.len() == 6,
                    forall|k: int| 0 <= k < 6 ==> scored@[k] == hits(u@, k),
                    tied <==> exists|k: int|
                        0 <= k < j && k != b && #[trigger] hits(u@, k) == hits(u@, b as int),
                decreases 6 - j,
            {
                if j != b && scored[j] == scored[b] {
                    assert(hits(u@, j as int) == hits(u@, b as int));
                    tied = true;
                }
                j = j + 1;
            }
            let confidence: u8 = if tied {
                40
            } else if scored[b] >= 3 {
                90
            } else if scored[b] == 2 {
                70
            } else {
                45
            };
            let kind: DialectKind = if tied {
                DialectKind::Ansi
            } else {
                family_at(b)
            };
            Inference { kind, confidence, conflict_count }
        },
        None => Inference { kind: DialectKind::Ansi, confidence: 30, conflict_count: 0 },
    }
}

/// A guess is never certain, and its grammar is part of this build.
pub proof fn guesses_are_cautious(text: Seq<char>)
    ensures
        30 <= inferred(text).confidence <= 90,
        inferred(text).kind.is_compiled(),
        inferred(text).conflict_count <= 6,
{
    reveal_with_fuel(families_hit, 7);
}

/// No family is picked arbitrarily: where two families share the most hits, the
/// guess is `ansi`, with low confidence, and the conflict is on record.
pub proof fn ties_are_not_decided(text: Seq<char>, i: int, j: int)
    requires
        0 <= i < j < 6,
        hits(hinted(text), i) == hits(hinted(text), j) > 0,
        forall|k: int| 0 <= k < 6 ==> #[trigger] hits(hinted(text), k) <= hits(hinted(text), i),
    ensures
        inferred(text).kind == DialectKind::Ansi,
        inferred(text).confidence == 40,
        inferred(text).conflict_count >= 2,
{
    let u = hinted(text);
    lemma_strongest(u, 6);
    let b = strongest(u, 6)->0;
    assert(hits(u, b) == hits(u, i));
    assert(is_tied(u, b));
    reveal_with_fuel(families_hit, 7);
}

/// A family with more hits than every other is the guess.
pub proof fn leading_family_is_the_guess(text: Seq<char>, i: int)
    requires
        0 <= i < 6,
        hits(hinted(text), i) > 0,
        forall|k: int| 0 <= k < 6 && k != i ==> #[trigger] hits(hinted(text), k) < hits(
            hinted(text),
            i,
        ),
    ensures
        inferred(text).kind == family(i),
        inferred(text).confidence >= 45,
{
    let u = hinted(text);
    lemma_strongest(u, 6);
    let b = strongest(u, 6)->0;
    assert(hits(u, b) >= hits(u, i));
    assert(b == i);
}

proof fn lemma_strongest(u: Seq<char>, k: int)
    requires
        0 <= k,
    ensures
        match strongest(u, k) {
            Some(b) => 0 <= b < k && hits(u, b) > 0 && forall|i: int|
                0 <= i < k ==> #[trigger] hits(u, i) <= hits(u, b),
            None => forall|i: int| 0 <= i < k ==> #[trigger] hits(u, i) <= 0,
        },
    decreases k,
{
    if k > 0 {
        lemma_strongest(u, k - 1);
    }
}

// ── what hints do not see ──────────────────────────────────────────────

/// Whether the reading of a text from `at` in `zone` comes to position `i` in
/// code.
pub open spec fn reaches(s: Seq<char>, at: int, zone: Zone, i: int) -> bool
    decreases s.len() - at,
{
    if at == i {
        zone == Zone::Code
    } else if at < 0 || at > i || at >= s.len() {
        false
    } else {
        match zone {
            Zone::Code => if occurs_at(s, seq!['-', '-'], at) {
                reaches(s, at + 2, Zone::Line, i)
            } else if occurs_at(s, seq!['/', '*'], at) {
                reaches(s, at + 2, Zone::Block, i)
            } else if s[at] == '\'' {
                reaches(s, at + 1, Zone::Quote, i)
            } else if s[at] == '"' {
                reaches(s, at + 1, Zone::Name, i)
            } else {
                reaches(s, at + 1, Zone::Code, i)
            },
            Zone::Line => reaches(
                s,
                at + 1,
                if s[at] == '\n' {
                    Zone::Code
                } else {
                    Zone::Line
                },
                i,
            ),
            Zone::Block => if occurs_at(s, seq!['*', '/'], at) {
                reaches(s, at + 2, Zone::Code, i)
            } else {
                reaches(s, at + 1, Zone::Block, i)
            },
            Zone::Quote => reaches(
                s,
                at + 1,
                if s[at] == '\'' {
                    Zone::Code
                } else {
                    Zone::Quote
                },
                i,
            ),
            Zone::Name => reaches(
                s,
                at + 1,
                if s[at] == '"' {
                    Zone::Code
                } else {
                    Zone::Name
                },
                i,
            ),
        }
    }
}

/// Whether positions `i` up to `e` are a line comment with its line feed, or a
/// string literal on one line.
pub open spec fn hides(s: Seq<char>, i: int, e: int) -> bool {
    &&& 0 <= i
    &&& e <= s.len()
    &&& {
        ||| {
            &&& occurs_at(s, seq!['-', '-'], i)
            &&& i + 2 < e
            &&& s[e - 1] == '\n'
            &&& forall|k: int| i + 2 <= k < e - 1 ==> #[trigger] s[k] != '\n'
        }
        ||| {
            &&& i + 1 < e
            &&& s[i] == '\''
            &&& s[e - 1] == '\''
            &&& forall|k: int| i < k < e - 1 ==> #[trigger] s[k] != '\'' && s[k] != '\n'
        }
    }
}

/// A number of spaces.
pub open spec fn spaces(k: int) -> Seq<char> {
    Seq::new(k as nat, |i: int| ' ')
}

proof fn lemma_pair(s: Seq<char>, a: char, b: char, i: int)
    requires
        0 <= i,
    ensures
        occurs_at(s, seq![a, b], i) <==> i + 2 <= s.len() && s[i] == a && s[i + 1] == b,
{
    if i + 2 <= s.len() {
        assert(s.subrange(i, i + 2)[0] == s[i]);
        assert(s.subrange(i, i + 2)[1] == s[i + 1]);
        if s[i] == a && s[i + 1] == b {
            assert(s.subrange(i, i + 2) =~= seq![a, b]);
        }
    }
}

proof fn lemma_in_line(s: Seq<char>, i: int, j: int)
    requires
        0 <= i <= j < s.len(),
        s[j] == '\n',
        forall|k: int| i <= k < j ==> #[trigger] s[k] != '\n',
    ensures
        masked(s, i, Zone::Line) == spaces(j - i).push('\n') + masked(s, j + 1, Zone::Code),
    decreases j - i,
{
    if i < j {
        lemma_in_line(s, i + 1, j);
        assert(masked(s, i, Zone::Line) =~= spaces(j - i).push('\n') + masked(s, j + 1, Zone::Code));
    } else {
        assert(masked(s, i, Zone::Line) =~= spaces(0).push('\n') + masked(s, j + 1, Zone::Code));
    }
}

proof fn lemma_in_quote(s: Seq<char>, i: int, j: int)
    requires
        0 <= i <= j < s.len(),
        s[j] == '\'',
        forall|k: int| i <= k < j ==> #[trigger] s[k] != '\'' && s[k] != '\n',
    ensures
        masked(s, i, Zone::Quote) == spaces(j - i + 1) + masked(s, j + 1, Zone::Code),
    decreases j - i,
{
    if i < j {
        lemma_in_quote(s, i + 1, j);
    }
    assert(masked(s, i, Zone::Quote) =~= spaces(j - i + 1) + masked(s, j + 1, Zone::Code));
}

/// What is hidden leaves nothing but spaces, and the end of its line.
pub proof fn hidden_text_is_blank(s: Seq<char>, i: int, e: int)
    requires
        hides(s, i, e),
    ensures
        masked(s, i, Zone::Code) == spaces(e - 1 - i).push(blanked(s[e - 1])) + masked(
            s,
            e,
            Zone::Code,
        ),
{
    lemma_pair(s, '-', '-', i);
    lemma_pair(s, '/', '*', i);
    let want = spaces(e - 1 - i).push(blanked(s[e - 1])) + masked(s, e, Zone::Code);
    if occurs_at(s, seq!['-', '-'], i) {
        lemma_in_line(s, i + 2, e - 1);
        assert(masked(s, i, Zone::Code) =~= want);
    } else {
        lemma_in_quote(s, i + 1, e - 1);
        assert(masked(s, i, Zone::Code) =~= want);
    }
}

proof fn lemma_same_rest(s: Seq<char>, t: Seq<char>, at: int, zone: Zone)
    requires
        s.len() == t.len(),
        0 <= at,
        forall|k: int| at <= k < s.len() ==> s[k] == t[k],
    ensures
        masked(s, at, zone) == masked(t, at, zone),
    decreases s.len() - at,
{
    if at < s.len() {
        lemma_pair(s, '-', '-', at);
        lemma_pair(t, '-', '-', at);
        lemma_pair(s, '/', '*', at);
        lemma_pair(t, '/', '*', at);
        lemma_pair(s, '*', '/', at);
        lemma_pair(t, '*', '/', at);
        lemma_same_rest(s, t, at + 1, Zone::Code);
        lemma_same_rest(s, t, at + 1, Zone::Line);
        lemma_same_rest(s, t, at + 1, Zone::Block);
        lemma_same_rest(s, t, at + 1, Zone::Quote);
        lemma_same_rest(s, t, at + 1, Zone::Name);
        if at + 2 <= s.len() {
            lemma_same_rest(s, t, at + 2, Zone::Code);
            lemma_same_rest(s, t, at + 2, Zone::Line);
            lemma_same_rest(s, t, at + 2, Zone::Block);
        }
    }
}

proof fn lemma_same_mask(s: Seq<char>, t: Seq<char>, at: int, zone: Zone, i: int, e: int)
    requires
        s.len() == t.len(),
        0 <= at <= i,
        hides(s, i, e),
        hides(t, i, e),
        forall|k: int| 0 <= k <= i || e - 1 <= k < s.len() ==> s[k] == t[k],
        reaches(s, at, zone, i),
    ensures
        masked(s, at, zone) == masked(t, at, zone),
    decreases s.len() - at,
{
    if at == i {
        hidden_text_is_blank(s, i, e);
        hidden_text_is_blank(t, i, e);
        lemma_same_rest(s, t, e, Zone::Code);
    } else {
        lemma_pair(s, '-', '-', at);
        lemma_pair(t, '-', '-', at);
        lemma_pair(s, '/', '*', at);
        lemma_pair(t, '/', '*', at);
        lemma_pair(s, '*', '/', at);
        lemma_pair(t, '*', '/', at);
        let pair = (zone == Zone::Code && (occurs_at(s, seq!['-', '-'], at) || occurs_at(
            s,
            seq!['/', '*'],
            at,
        ))) || (zone == Zone::Block && occurs_at(s, seq!['*', '/'], at));
        let next = match zone {
            Zone::Code => if occurs_at(s, seq!['-', '-'], at) {
                Zone::Line
            } else if occurs_at(s, seq!['/', '*'], at) {
                Zone::Block
            } else if s[at] == '\'' {
                Zone::Quote
            } else if s[at] == '"' {
                Zone::Name
            } else {
                Zone::Code
            },
            Zone::Line => if s[at] == '\n' {
                Zone::Code
            } else {
                Zone::Line
            },
            Zone::Block => if occurs_at(s, seq!['*', '/'], at) {
                Zone::Code
            } else {
                Zone::Block
            },
            Zone::Quote => if s[at] == '\'' {
                Zone::Code
            } else {
                Zone::Quote
            },
            Zone::Name => if s[at] == '"' {
                Zone::Code
            } else {
                Zone::Name
            },
        };
        if pair {
            assert(reaches(s, at + 2, next, i));
            if at + 2 <= i {
                lemma_same_mask(s, t, at + 2, next, i, e);
            }
        } else {
            assert(reaches(s, at + 1, next, i));
            lemma_same_mask(s, t, at + 1, next, i, e);
        }
    }
}

/// What a comment or a string literal says does not decide the dialect: texts
/// that differ inside of one only are taken for the same dialect.
pub proof fn hidden_text_does_not_decide(s: Seq<char>, t: Seq<char>, i: int, e: int)
    requires
        s.len() == t.len(),
        hides(s, i, e),
        hides(t, i, e),
        forall|k: int| 0 <= k <= i || e - 1 <= k < s.len() ==> s[k] == t[k],
        reaches(s, 0, Zone::Code, i),
    ensures
        inferred(s) == inferred(t),
{
    lemma_same_mask(s, t, 0, Zone::Code, i, e);
}

// ── the in-file directive ──────────────────────────────────────────────

/// A text without the byte order marks it begins with.
pub open spec fn without_marks(s: Seq<char>) -> Seq<char>
    decreases s.len(),
{
    if s.len() > 0 && s[0] == '\u{feff}' {
        without_marks(s.drop_first())
    } else {
        s
    }
}

/// The dialect name that a line sets: `-- sqlfluff:dialect:<name>` from the very
/// start of the line, with a key that is exactly `dialect` and a value that is
/// neither empty nor holds a further colon.
pub open spec fn set_by_line(line: Seq<char>) -> Option<Seq<char>> {
    let inner = trim(line.skip(2));
    let rest = trim(inner.skip("sqlfluff:"@.len() as int));
    if !starts_with(line, "-- sqlfluff"@) && !starts_with(line, "--sqlfluff"@) {
        None
    } else if !starts_with(inner, "sqlfluff:"@) {
        None
    } else {
        match find_from(rest, seq![':'], 0) {
            None => None,
            Some(at) => {
                let value = trim(rest.skip(at + 1));
                if trim(rest.take(at)) != "dialect"@ || value.len() == 0 || value.contains(':') {
                    None
                } else {
                    Some(value)
                }
            },
        }
    }
}

/// The dialect name that line `k` of a text sets. Byte order marks at the very
/// start of the text are not part of its first line.
pub open spec fn set_by(text: Seq<char>, k: int) -> Option<Seq<char>> {
    let line = line_text(text, lines_of(text)[k]);
    set_by_line(
        if k == 0 {
            without_marks(line)
        } else {
            line
        },
    )
}

/// The dialect name that the last setting among the first `k` lines gives.
pub open spec fn set_before(text: Seq<char>, k: int) -> Option<Seq<char>>
    decreases k,
{
    if k <= 0 {
        None
    } else {
        match set_by(text, k - 1) {
            Some(name) => Some(name),
            None => set_before(text, k - 1),
        }
    }
}

/// The dialect name that a text sets for itself.
pub open spec fn directive_of(text: Seq<char>) -> Option<Seq<char>> {
    set_before(text, lines_of(text).len() as int)
}

/// What became of a directive's name.
#[derive(Clone, Copy, Debug, PartialEq, Eq, Structural)]
pub enum DirectiveStatus {
    /// The name of a dialect with a grammar in this build.
    Active(DialectKind),
    /// The name of a dialect without one.
    Unsupported,
    /// No dialect's name.
    Unknown,
}

/// An in-file directive: the name as written, and what became of it.
pub struct DialectDirective {
    pub name: String,
    pub status: DirectiveStatus,
}

/// What a directive's name alone says of it.
pub open spec fn first_status(name: Seq<char>) -> DirectiveStatus {
    match kind_named(name) {
        Some(kind) => DirectiveStatus::Active(kind),
        None => DirectiveStatus::Unknown,
    }
}

fn unmarked(s: &Vec<char>) -> (r: Vec<char>)
    ensures
        r@ == without_marks(s@),
{
    let mut i: usize = 0;
    assert(s@.skip(0) =~= s@);
    while i < s.len() && s[i] == '\u{feff}'
        invariant
            i <= s.len(),
            without_marks(s@) == without_marks(s@.skip(i as int)),
        decreases s.len() - i,
    {
        assert(s@.skip(i as int).drop_first() =~= s@.skip(i as int + 1));
        i = i + 1;
    }
    assert(s@.subrange(i as int, s@.len() as int) =~= s@.skip(i as int));
    slice_of(s, i, s.len())
}

fn tail_of(s: &Vec<char>, from: usize) -> (r: Vec<char>)
    requires
        from <= s.len(),
    ensures
        r@ == s@.skip(from as int),
{
    assert(s@.subrange(from as int, s@.len() as int) =~= s@.skip(from as int));
    slice_of(s, from, s.len())
}

fn find_colon(s: &Vec<char>) -> (r: Option<usize>)
    ensures
        match r {
            Some(at) => find_from(s@, seq![':'], 0) == Some(at as int) && at < s.len(),
            None => find_from(s@, seq![':'], 0) is None,
        },
        r is Some <==> s@.contains(':'),
{
    let mut i: usize = 0;
    while i < s.len()
        invariant
            i <= s.len(),
            find_from(s@, seq![':'], 0) == find_from(s@, seq![':'], i as int),
            forall|j: int| 0 <= j < i ==> s@[j] != ':',
        decreases s.len() - i,
    {
        if s[i] == ':' {
            assert(s@.subrange(i as int, i + 1) =~= seq![':']);
            return Some(i);
        }
        assert(s@.subrange(i as int, i + 1)[0] == s@[i as int]);
        i = i + 1;
    }
    None
}

/// The dialect name that a line sets.
fn read_line(line: &Vec<char>) -> (r: Option<Vec<char>>)
    ensures
        match r {
            Some(name) => set_by_line(line@) == Some(name@),
            None => set_by_line(line@) is None,
        },
{
    proof {
        reveal_strlit("-- sqlfluff");
        reveal_strlit("--sqlfluff");
        reveal_strlit("sqlfluff:");
    }
    if !begins_with(line, "-- sqlfluff") && !begins_with(line, "--sqlfluff") {
        return None;
    }
    let dashed = tail_of(line, 2);
    let inner = trimmed(&dashed);
    if !begins_with(&inner, "sqlfluff:") {
        return None;
    }
    let set = tail_of(&inner, 9);
    let rest = trimmed(&set);
    match find_colon(&rest) {
        None => None,
        Some(at) => {
            assert(rest@.subrange(0, at as int) =~= rest@.take(at as int));
            let spaced_key = slice_of(&rest, 0, at);
            let key = trimmed(&spaced_key);
            let spaced_value = tail_of(&rest, at + 1);
            let value = trimmed(&spaced_value);
            if !is_text(&key, "dialect") || value.len() == 0 || find_colon(&value).is_some() {
                None
            } else {
                Some(value)
            }
        },
    }
}

/// The dialect name that the first line of a text or a later one sets.
fn read_range(text: &Vec<char>, from: usize, to: usize, first: bool) -> (r: Option<Vec<char>>)
    requires
        from <= to <= text.len(),
    ensures
        ({
            let line = text@.subrange(from as int, to as int);
            let said = set_by_line(
                if first {
                    without_marks(line)
                } else {
                    line
                },
            );
            match r {
                Some(name) => said == Some(name@),
                None => said is None,
            }
        }),
{
    let line = slice_of(text, from, to);
    if first {
        let bare = unmarked(&line);
        read_line(&bare)
    } else {
        read_line(&line)
    }
}

/// The in-file directive of a text; the last one wins.
pub fn parse_dialect_directive(text: &Vec<char>) -> (r: Option<DialectDirective>)
    ensures
        match r {
            Some(d) => directive_of(text@) == Some(d.name@) && d.status == first_status(d.name@),
            None => directive_of(text@) is None,
        },
{
    let mut last: Option<Vec<char>> = None;
    let mut start: usize = 0;
    let mut first: bool = true;
    let mut i: usize = 0;
    while i < text.len()
        invariant
            i <= text.len(),
            start <= i,
            start == line_start(text@, i as int),
            first == (ended_lines(text@, i as int).len() == 0),
            ended_lines(text@, i as int).len() <= lines_of(text@).len(),
            match last {
                Some(name) => set_before(text@, ended_lines(text@, i as int).len() as int) == Some(
                    name@,
                ),
                None => set_before(text@, ended_lines(text@, i as int).len() as int) is None,
            },
        decreases text.len() - i,
    {
        proof {
            lemma_ended_prefix(text@, i as int + 1, text@.len() as int);
        }
        if text[i] == '\n' {
            let said = read_range(text, start, i, first);
            assert(lines_of(text@)[ended_lines(text@, i as int).len() as int] == (
                start as int,
                i as int,
            ));
            if said.is_some() {
                last = said;
            }
            start = i + 1;
            first = false;
        }
        i = i + 1;
    }
    if start < text.len() {
        let said = read_range(text, start, i, first);
        if said.is_some() {
            last = said;
        }
    }
    match last {
        None => None,
        Some(chars) => {
            let name = string_of(&chars);
            let status = match dialect_named(name.as_str()) {
                Some(kind) => DirectiveStatus::Active(kind),
                None => DirectiveStatus::Unknown,
            };
            Some(DialectDirective { name, status })
        },
    }
}

/// The lines that have ended stay the first lines of the text.
proof fn lemma_ended_prefix(text: Seq<char>, i: int, hi: int)
    requires
        0 <= i <= hi <= text.len(),
    ensures
        ended_lines(text, i).len() <= ended_lines(text, hi).len() <= lines_of(text).len(),
        forall|k: int|
            0 <= k < ended_lines(text, i).len() ==> ended_lines(text, i)[k] == #[trigger] lines_of(
                text,
            )[k],
    decreases text.len() - i,
{
    if i < text.len() {
        lemma_ended_prefix(text, i + 1, if hi > i {
            hi
        } else {
            i + 1
        });
        if hi == i {
            assert(ended_lines(text, i).len() <= ended_lines(text, i + 1).len());
        }
        assert forall|k: int| 0 <= k < ended_lines(text, i).len() implies ended_lines(text, i)[k]
            == #[trigger] lines_of(text)[k] by {
            assert(ended_lines(text, i)[k] == ended_lines(text, i + 1)[k]);
        }
    }
}

// ── resolution ─────────────────────────────────────────────────────────

/// How the dialect of a file was settled.
pub struct DialectResolution {
    /// The dialect that the caller asked for.
    pub requested: Option<DialectKind>,
    /// The file's own directive.
    pub directive: Option<DialectDirective>,
    /// The dialect that the hints speak for.
    pub inferred: DialectKind,
    /// The dialect that the file is parsed with.
    pub effective: DialectKind,
    /// How sure the choice is, out of a hundred.
    pub confidence: u8,
    /// How many dialect families had hints.
    pub conflict_count: u8,
}

/// What a resolution says.
pub ghost struct ResolutionView {
    pub requested: Option<DialectKind>,
    pub directive: Option<(Seq<char>, DirectiveStatus)>,
    pub inferred: DialectKind,
    pub effective: DialectKind,
    pub confidence: u8,
    pub conflict_count: u8,
}

impl DialectResolution {
    pub open spec fn seen(self) -> ResolutionView {
        ResolutionView {
            requested: self.requested,
            directive: match self.directive {
                Some(d) => Some((d.name@, d.status)),
                None => None,
            },
            inferred: self.inferred,
            effective: self.effective,
            confidence: self.confidence,
            conflict_count: self.conflict_count,
        }
    }
}

/// The dialect that a text's directive names.
pub open spec fn pinned(text: Seq<char>) -> Option<DialectKind> {
    match directive_of(text) {
        Some(name) => kind_named(name),
        None => None,
    }
}

/// Whether a dialect was named and has a grammar in this build.
pub open spec fn usable(kind: Option<DialectKind>) -> bool {
    kind matches Some(k) && k.is_compiled()
}

/// The dialect to parse a text with: the directive's, then the requested one,
/// each only if this build has its grammar, then the inferred one.
pub open spec fn settled(text: Seq<char>, requested: Option<DialectKind>) -> DialectKind {
    if usable(pinned(text)) {
        pinned(text)->0
    } else if usable(requested) {
        requested->0
    } else {
        inferred(text).kind
    }
}

/// What becomes of a directive's name in this build.
pub open spec fn last_status(name: Seq<char>) -> DirectiveStatus {
    match kind_named(name) {
        Some(kind) => if kind.is_compiled() {
            DirectiveStatus::Active(kind)
        } else {
            DirectiveStatus::Unsupported
        },
        None => DirectiveStatus::Unknown,
    }
}

/// Whether a resolution is that of a text and a request.
pub open spec fn resolves(
    text: Seq<char>,
    requested: Option<DialectKind>,
    r: DialectResolution,
) -> bool {
    &&& r.requested == requested
    &&& match r.directive {
        Some(d) => directive_of(text) == Some(d.name@) && d.status == last_status(d.name@),
        None => directive_of(text) is None,
    }
    &&& r.inferred == inferred(text).kind
    &&& r.effective == settled(text, requested)
    &&& r.confidence == if pinned(text) == Some(r.effective) || requested == Some(r.effective) {
        100
    } else {
        inferred(text).confidence
    }
    &&& r.conflict_count == inferred(text).conflict_count
}

/// Settles the dialect of a text.
pub fn resolve(text: &Vec<char>, requested: Option<DialectKind>) -> (r: DialectResolution)
    ensures
        resolves(text@, requested, r),
{
    let inference = infer(text);
    let found = parse_dialect_directive(text);
    let mut effective: DialectKind = inference.kind;
    let mut authority: bool = false;
    if let Some(kind) = requested {
        if has_grammar(kind) {
            effective = kind;
            authority = true;
        }
    }
    proof {
        guesses_are_cautious(text@);
    }
    let directive: Option<DialectDirective> = match found {
        None => None,
        Some(d) => {
            let status: DirectiveStatus = match d.status {
                DirectiveStatus::Active(kind) => if has_grammar(kind) {
                    effective = kind;
                    authority = true;
                    DirectiveStatus::Active(kind)
                } else {
                    DirectiveStatus::Unsupported
                },
                other => other,
            };
            Some(DialectDirective { name: d.name, status })
        },
    };
    let confidence: u8 = if authority {
        100
    } else {
        inference.confidence
    };
    DialectResolution {
        requested,
        directive,
        inferred: inference.kind,
        effective,
        confidence,
        conflict_count: inference.conflict_count,
    }
}

/// A file is always parsed with a grammar of this build.
pub proof fn settled_dialect_has_a_grammar(text: Seq<char>, requested: Option<DialectKind>)
    ensures
        settled(text, requested).is_compiled(),
{
    guesses_are_cautious(text);
}

/// A choice is certain exactly when the file or the caller named a dialect that
/// this build has a grammar for.
pub proof fn only_names_are_certain(
    text: Seq<char>,
    requested: Option<DialectKind>,
    r: DialectResolution,
)
    requires
        resolves(text, requested, r),
    ensures
        r.confidence == 100 <==> usable(pinned(text)) || usable(requested),
        r.confidence < 100 ==> r.effective == r.inferred,
{
    guesses_are_cautious(text);
}

/// Of several directives the last one decides.
pub proof fn last_directive_wins(text: Seq<char>, k: int)
    requires
        0 <= k < lines_of(text).len(),
        set_by(text, k) is Some,
        forall|j: int| k < j < lines_of(text).len() ==> set_by(text, j) is None,
    ensures
        directive_of(text) == set_by(text, k),
{
    lemma_last_directive(text, k, lines_of(text).len() as int);
}

proof fn lemma_last_directive(text: Seq<char>, k: int, hi: int)
    requires
        0 <= k < hi <= lines_of(text).len(),
        set_by(text, k) is Some,
        forall|j: int| k < j < lines_of(text).len() ==> set_by(text, j) is None,
    ensures
        set_before(text, hi) == set_by(text, k),
    decreases hi,
{
    if hi > k + 1 {
        lemma_last_directive(text, k, hi - 1);
    }
}

// ── directives of a text put behind another ────────────────────────────

/// Ranges moved by a number of positions.
pub open spec fn moved(s: Seq<(int, int)>, by: int) -> Seq<(int, int)> {
    Seq::new(s.len(), |i: int| (s[i].0 + by, s[i].1 + by))
}

/// A text with a line feed and another text behind it.
pub open spec fn stacked(a: Seq<char>, b: Seq<char>) -> Seq<char> {
    a.push('\n') + b
}

proof fn lemma_moved_start(a: Seq<char>, b: Seq<char>, i: int)
    requires
        0 <= i <= b.len(),
    ensures
        line_start(stacked(a, b), a.len() + 1 + i) == a.len() + 1 + line_start(b, i),
        line_start(b, i) >= 0,
    decreases i,
{
    let t = stacked(a, b);
    if i > 0 {
        lemma_moved_start(a, b, i - 1);
        assert(t[a.len() + i] == b[i - 1]);
    } else {
        assert(t[a.len() as int] == '\n');
    }
}

proof fn lemma_moved_lines(a: Seq<char>, b: Seq<char>, i: int)
    requires
        0 <= i <= b.len(),
    ensures
        ended_lines(stacked(a, b), a.len() + 1 + i) == ended_lines(
            stacked(a, b),
            a.len() as int + 1,
        ) + moved(ended_lines(b, i), a.len() as int + 1),
    decreases i,
{
    let t = stacked(a, b);
    let by = a.len() as int + 1;
    let first = ended_lines(t, by);
    if i > 0 {
        lemma_moved_lines(a, b, i - 1);
        lemma_moved_start(a, b, i - 1);
        assert(t[by + i - 1] == b[i - 1]);
        assert(ended_lines(t, by + i) =~= first + moved(ended_lines(b, i), by));
    } else {
        assert(first + moved(ended_lines(b, 0), by) =~= first);
    }
}

proof fn lemma_ended_within(text: Seq<char>, i: int)
    requires
        0 <= i <= text.len(),
    ensures
        forall|k: int|
            0 <= k < ended_lines(text, i).len() ==> 0 <= (#[trigger] ended_lines(text, i)[k]).0
                <= ended_lines(text, i)[k].1 <= text.len(),
        0 <= line_start(text, i) <= i,
    decreases i,
{
    if i > 0 {
        lemma_ended_within(text, i - 1);
        let ended = ended_lines(text, i);
        let before = ended_lines(text, i - 1);
        assert forall|k: int| 0 <= k < ended.len() implies 0 <= (#[trigger] ended[k]).0
            <= ended[k].1 <= text.len() by {
            if k < before.len() {
                assert(ended[k] == before[k]);
            }
        }
    }
}

/// The lines of a text put behind another are its last lines.
proof fn lemma_stacked_lines(a: Seq<char>, b: Seq<char>)
    ensures
        lines_of(stacked(a, b)) == ended_lines(stacked(a, b), a.len() as int + 1) + moved(
            lines_of(b),
            a.len() as int + 1,
        ),
        ended_lines(stacked(a, b), a.len() as int + 1).len() >= 1,
{
    let t = stacked(a, b);
    let by = a.len() as int + 1;
    lemma_moved_start(a, b, b.len() as int);
    lemma_moved_lines(a, b, b.len() as int);
    assert(t[a.len() as int] == '\n');
    assert(lines_of(t) =~= ended_lines(t, by) + moved(lines_of(b), by));
}

proof fn lemma_first_line(text: Seq<char>, i: int)
    requires
        0 <= i <= text.len(),
    ensures
        ended_lines(text, i).len() > 0 ==> ended_lines(text, i)[0].0 == 0,
        ended_lines(text, i).len() == 0 ==> line_start(text, i) == 0,
    decreases i,
{
    if i > 0 {
        lemma_first_line(text, i - 1);
    }
}

proof fn lemma_stacked_setting(a: Seq<char>, b: Seq<char>, k: int)
    requires
        0 <= k < lines_of(b).len(),
        b.len() > 0 ==> b[0] != '\u{feff}',
    ensures
        set_by(stacked(a, b), ended_lines(stacked(a, b), a.len() as int + 1).len() + k) == set_by(
            b,
            k,
        ),
{
    let t = stacked(a, b);
    let by = a.len() as int + 1;
    let m = ended_lines(t, by).len() as int;
    lemma_stacked_lines(a, b);
    lemma_ended_within(b, b.len() as int);
    lemma_first_line(b, b.len() as int);
    let l = lines_of(b)[k];
    assert(lines_of(t)[m + k] == (l.0 + by, l.1 + by));
    assert(0 <= l.0 <= l.1 <= b.len());
    assert(line_text(t, lines_of(t)[m + k]) =~= line_text(b, l));
    if k == 0 {
        let line = line_text(b, l);
        assert(l.0 == 0);
        assert(line.len() > 0 ==> line[0] == b[0]);
        assert(without_marks(line) == line);
    }
}

proof fn lemma_stacked_settings(a: Seq<char>, b: Seq<char>, k: int)
    requires
        0 <= k <= lines_of(b).len(),
        b.len() > 0 ==> b[0] != '\u{feff}',
        set_before(b, k) is Some,
    ensures
        set_before(stacked(a, b), ended_lines(stacked(a, b), a.len() as int + 1).len() + k)
            == set_before(b, k),
    decreases k,
{
    if k > 0 {
        lemma_stacked_setting(a, b, k - 1);
        if set_by(b, k - 1) is None {
            lemma_stacked_settings(a, b, k - 1);
        }
    }
}

proof fn lemma_set_name(text: Seq<char>, k: int)
    requires
        set_before(text, k) is Some,
    ensures
        exists|line: Seq<char>| #[trigger] set_by_line(line) == set_before(text, k),
    decreases k,
{
    if set_by(text, k - 1) is None {
        lemma_set_name(text, k - 1);
    } else {
        let line = line_text(text, lines_of(text)[k - 1]);
        let bare = if k == 1 {
            without_marks(line)
        } else {
            line
        };
        assert(set_by_line(bare) == set_before(text, k));
    }
}

/// The directive of a text also decides when another text is put in front of
/// it, whatever that text says. Its name is not empty, has no space around it
/// and no colon in it, and its name alone never says that a dialect lacks a
/// grammar.
pub proof fn a_later_directive_wins(a: Seq<char>, b: Seq<char>)
    requires
        directive_of(b) is Some,
        b.len() > 0 ==> b[0] != '\u{feff}',
    ensures
        directive_of(stacked(a, b)) == directive_of(b),
        directive_of(b)->0.len() > 0,
        trim(directive_of(b)->0) == directive_of(b)->0,
        !directive_of(b)->0.contains(':'),
        first_status(directive_of(b)->0) == (match kind_named(directive_of(b)->0) {
            Some(kind) => DirectiveStatus::Active(kind),
            None => DirectiveStatus::Unknown,
        }),
{
    lemma_stacked_settings(a, b, lines_of(b).len() as int);
    lemma_stacked_lines(a, b);
    lemma_set_name(b, lines_of(b).len() as int);
    let line = choose|line: Seq<char>| #[trigger] set_by_line(line) == directive_of(b);
    let inner = trim(line.skip(2));
    let rest = trim(inner.skip("sqlfluff:"@.len() as int));
    let at = find_from(rest, seq![':'], 0)->0;
    lemma_trim_twice(rest.skip(at + 1));
}

// ── what the hints speak for ───────────────────────────────────────────

/// One for a hint that fires.
pub open spec fn once(fires: bool) -> int {
    if fires {
        1
    } else {
        0
    }
}

/// How much of T-SQL the code of a text holds.
pub open spec fn tsql_hints(u: Seq<char>) -> int {
    once(contains(u, "\nGO\n"@) || starts_with(u, "GO\n"@) || ends_with(u, "\nGO"@))
        + once(contains(u, "CROSS APPLY"@) || contains(u, "OUTER APPLY"@))
        + once(contains(u, "["@) && contains(u, "]"@)) + once(contains(u, "ISNULL("@)
        || contains(u, "NVARCHAR"@) || contains(u, "DATETIME2"@))
        + once(contains(u, "SELECT TOP "@) || contains(u, "SELECT TOP("@))
}

/// How much of Snowflake the code of a text holds.
pub open spec fn snowflake_hints(u: Seq<char>) -> int {
    once(contains(u, "QUALIFY "@)) + once(contains(u, "IFF("@)) + once(contains(u, "COPY INTO "@))
        + once(contains(u, ":: VARIANT"@) || contains(u, "::VARIANT"@)
        || contains(u, " VARIANT"@)) + once(contains(u, "LATERAL FLATTEN"@))
}

/// How much of PostgreSQL the code of a text holds.
pub open spec fn postgres_hints(u: Seq<char>) -> int {
    once(contains(u, "::"@)) + once(contains(u, "DISTINCT ON"@)) + once(contains(u, " ILIKE "@))
        + once(contains(u, "RETURNING "@) || contains(u, "RETURNING\n"@)
        || contains(u, "RETURNING\t"@) || contains(u, "RETURNING\r"@))
        + once(contains(u, "ARRAY["@))
}

/// How much of BigQuery the code of a text holds.
pub open spec fn bigquery_hints(u: Seq<char>) -> int {
    once(contains(u, "`"@)) + once(contains(u, " STRUCT<"@) || contains(u, " STRUCT("@))
        + once(contains(u, "UNNEST("@)) + once(contains(u, "ARRAY<"@))
        + once(contains(u, "SAFE_CAST("@))
}

/// How much of Oracle the code of a text holds.
pub open spec fn oracle_hints(u: Seq<char>) -> int {
    once(contains(u, "CONNECT BY"@)) + once(contains(u, " MINUS "@)) + once(contains(u, "NVL("@)
        || contains(u, "NVL2("@)) + once(contains(u, " DUAL"@)) + once(contains(u, "VARCHAR2"@))
}

/// How much of MySQL the code of a text holds.
pub open spec fn mysql_hints(u: Seq<char>) -> int {
    once(contains(u, "ENGINE="@) || contains(u, "ENGINE ="@))
        + once(contains(u, "AUTO_INCREMENT"@)) + once(contains(u, "`"@) && contains(u, "ENGINE"@))
        + once(contains(u, "UNSIGNED"@)) + once(contains(u, "LIMIT "@) && contains(u, "OFFSET "@))
}

proof fn lemma_hints(u: Seq<char>)
    ensures
        hits(u, 0) == tsql_hints(u) && 0 <= tsql_hints(u) <= 5,
        hits(u, 1) == snowflake_hints(u) && 0 <= snowflake_hints(u) <= 5,
        hits(u, 2) == postgres_hints(u) && 0 <= postgres_hints(u) <= 5,
        hits(u, 3) == bigquery_hints(u) && 0 <= bigquery_hints(u) <= 5,
        hits(u, 4) == oracle_hints(u) && 0 <= oracle_hints(u) <= 5,
        hits(u, 5) == mysql_hints(u) && 0 <= mysql_hints(u) <= 5,
{
}

/// The dialect with more of its hints in the code of a text than any other is
/// the guess, by its name; where two share the most, and where there is no hint
/// at all, the guess is `ansi`.
pub proof fn hints_name_their_dialect(text: Seq<char>)
    ensures
        ({
            let u = hinted(text);
            let tsql = tsql_hints(u);
            let snowflake = snowflake_hints(u);
            let postgres = postgres_hints(u);
            let bigquery = bigquery_hints(u);
            let oracle = oracle_hints(u);
            let mysql = mysql_hints(u);
            let guess = inferred(text).kind;
            &&& (tsql > snowflake && tsql > postgres && tsql > bigquery && tsql > oracle
                && tsql > mysql) ==> guess == DialectKind::Tsql
            &&& (snowflake > tsql && snowflake > postgres && snowflake > bigquery
                && snowflake > oracle && snowflake > mysql) ==> guess == DialectKind::Snowflake
            &&& (postgres > tsql && postgres > snowflake && postgres > bigquery
                && postgres > oracle && postgres > mysql) ==> guess == DialectKind::Postgres
            &&& (bigquery > tsql && bigquery > snowflake && bigquery > postgres
                && bigquery > oracle && bigquery > mysql) ==> guess == DialectKind::Bigquery
            &&& (oracle > tsql && oracle > snowflake && oracle > postgres && oracle > bigquery
                && oracle > mysql) ==> guess == DialectKind::Oracle
            &&& (mysql > tsql && mysql > snowflake && mysql > postgres && mysql > bigquery
                && mysql > oracle) ==> guess == DialectKind::Mysql
            &&& guess == DialectKind::Ansi || guess == DialectKind::Tsql
                || guess == DialectKind::Snowflake || guess == DialectKind::Postgres
                || guess == DialectKind::Bigquery || guess == DialectKind::Oracle
                || guess == DialectKind::Mysql
            &&& guess == DialectKind::Tsql ==> tsql > snowflake && tsql > postgres
                && tsql > bigquery && tsql > oracle && tsql > mysql
            &&& guess == DialectKind::Snowflake ==> snowflake > tsql && snowflake > postgres
                && snowflake > bigquery && snowflake > oracle && snowflake > mysql
            &&& guess == DialectKind::Postgres ==> postgres > tsql && postgres > snowflake
                && postgres > bigquery && postgres > oracle && postgres > mysql
            &&& guess == DialectKind::Bigquery ==> bigquery > tsql && bigquery > snowflake
                && bigquery > postgres && bigquery > oracle && bigquery > mysql
            &&& guess == DialectKind::Oracle ==> oracle > tsql && oracle > snowflake
                && oracle > postgres && oracle > bigquery && oracle > mysql
            &&& guess == DialectKind::Mysql ==> mysql > tsql && mysql > snowflake
                && mysql > postgres && mysql > bigquery && mysql > oracle
        }),
{
    let u = hinted(text);
    lemma_hints(u);
    lemma_strongest(u, 6);
    assert(hits(u, 0) >= 0 && hits(u, 1) >= 0 && hits(u, 2) >= 0 && hits(u, 3) >= 0 && hits(u, 4)
        >= 0 && hits(u, 5) >= 0);
    if let Some(b) = strongest(u, 6) {
        assert(is_tied(u, b) <==> (b != 0 && hits(u, 0) == hits(u, b)) || (b != 1 && hits(u, 1)
            == hits(u, b)) || (b != 2 && hits(u, 2) == hits(u, b)) || (b != 3 && hits(u, 3) == hits(
            u,
            b,
        )) || (b != 4 && hits(u, 4) == hits(u, b)) || (b != 5 && hits(u, 5) == hits(u, b)));
    }
}

/// How sure a guess is follows from the hints for it: ninety out of a hundred
/// for three or more, seventy for two, forty-five for one, forty for a tie, and
/// thirty where there are none.
pub proof fn confidence_follows_from_the_hints(text: Seq<char>)
    ensures
        ({
            let u = hinted(text);
            let tsql = tsql_hints(u);
            let snowflake = snowflake_hints(u);
            let postgres = postgres_hints(u);
            let bigquery = bigquery_hints(u);
            let oracle = oracle_hints(u);
            let mysql = mysql_hints(u);
            let sure = inferred(text).confidence;
            let guess = inferred(text).kind;
            &&& guess == DialectKind::Tsql ==> sure == (if tsql >= 3 { 90u8 }
                else if tsql == 2 { 70u8 } else { 45u8 })
            &&& guess == DialectKind::Snowflake ==> sure == (if snowflake >= 3 { 90u8 }
                else if snowflake == 2 { 70u8 } else { 45u8 })
            &&& guess == DialectKind::Postgres ==> sure == (if postgres >= 3 { 90u8 }
                else if postgres == 2 { 70u8 } else { 45u8 })
            &&& guess == DialectKind::Bigquery ==> sure == (if bigquery >= 3 { 90u8 }
                else if bigquery == 2 { 70u8 } else { 45u8 })
            &&& guess == DialectKind::Oracle ==> sure == (if oracle >= 3 { 90u8 }
                else if oracle == 2 { 70u8 } else { 45u8 })
            &&& guess == DialectKind::Mysql ==> sure == (if mysql >= 3 { 90u8 }
                else if mysql == 2 { 70u8 } else { 45u8 })
            &&& guess == DialectKind::Ansi ==> sure == (if tsql == 0 && snowflake == 0
                && postgres == 0 && bigquery == 0 && oracle == 0 && mysql == 0 { 30u8 }
                else { 40u8 })
            &&& inferred(text).conflict_count == once(tsql > 0) + once(snowflake > 0)
                + once(postgres > 0) + once(bigquery > 0) + once(oracle > 0) + once(mysql > 0)
        }),
{
    let u = hinted(text);
    hints_name_their_dialect(text);
    lemma_hints(u);
    lemma_strongest(u, 6);
    reveal_with_fuel(families_hit, 7);
    if let Some(b) = strongest(u, 6) {
        assert(is_tied(u, b) <==> (b != 0 && hits(u, 0) == hits(u, b)) || (b != 1 && hits(u, 1)
            == hits(u, b)) || (b != 2 && hits(u, 2) == hits(u, b)) || (b != 3 && hits(u, 3) == hits(
            u,
            b,
        )) || (b != 4 && hits(u, 4) == hits(u, b)) || (b != 5 && hits(u, 5) == hits(u, b)));
    }
}

/// T-SQL words without a hint of another dialect speak for T-SQL.
pub proof fn tsql_words_speak_for_tsql(text: Seq<char>)
    requires
        ({
            let u = hinted(text);
            contains(u, "CROSS APPLY"@) || contains(u, "OUTER APPLY"@) || contains(u, "NVARCHAR"@)
                || contains(u, "SELECT TOP "@)
        }),
        snowflake_hints(hinted(text)) == 0,
        postgres_hints(hinted(text)) == 0,
        bigquery_hints(hinted(text)) == 0,
        oracle_hints(hinted(text)) == 0,
        mysql_hints(hinted(text)) == 0,
    ensures
        inferred(text).kind == DialectKind::Tsql,
        inferred(text).conflict_count == 1,
{
    hints_name_their_dialect(text);
    confidence_follows_from_the_hints(text);
}

/// Snowflake words without a hint of another dialect speak for Snowflake.
pub proof fn snowflake_words_speak_for_snowflake(text: Seq<char>)
    requires
        ({
            let u = hinted(text);
            contains(u, "QUALIFY "@) || contains(u, "IFF("@) || contains(u, "LATERAL FLATTEN"@)
        }),
        tsql_hints(hinted(text)) == 0,
        postgres_hints(hinted(text)) == 0,
        bigquery_hints(hinted(text)) == 0,
        oracle_hints(hinted(text)) == 0,
        mysql_hints(hinted(text)) == 0,
    ensures
        inferred(text).kind == DialectKind::Snowflake,
        inferred(text).conflict_count == 1,
{
    hints_name_their_dialect(text);
    confidence_follows_from_the_hints(text);
}

/// PostgreSQL words without a hint of another dialect speak for PostgreSQL.
pub proof fn postgres_words_speak_for_postgres(text: Seq<char>)
    requires
        ({
            let u = hinted(text);
            contains(u, "DISTINCT ON"@) || contains(u, " ILIKE "@) || contains(u, "::"@)
        }),
        tsql_hints(hinted(text)) == 0,
        snowflake_hints(hinted(text)) == 0,
        bigquery_hints(hinted(text)) == 0,
        oracle_hints(hinted(text)) == 0,
        mysql_hints(hinted(text)) == 0,
    ensures
        inferred(text).kind == DialectKind::Postgres,
        inferred(text).conflict_count == 1,
{
    hints_name_their_dialect(text);
    confidence_follows_from_the_hints(text);
}

/// BigQuery words without a hint of another dialect speak for BigQuery.
pub proof fn bigquery_words_speak_for_bigquery(text: Seq<char>)
    requires
        ({
            let u = hinted(text);
            contains(u, "UNNEST("@) || contains(u, "SAFE_CAST("@) || contains(u, " STRUCT<"@)
        }),
        tsql_hints(hinted(text)) == 0,
        snowflake_hints(hinted(text)) == 0,
        postgres_hints(hinted(text)) == 0,
        oracle_hints(hinted(text)) == 0,
        mysql_hints(hinted(text)) == 0,
    ensures
        inferred(text).kind == DialectKind::Bigquery,
        inferred(text).conflict_count == 1,
{
    hints_name_their_dialect(text);
    confidence_follows_from_the_hints(text);
}

/// Oracle words without a hint of another dialect speak for Oracle.
pub proof fn oracle_words_speak_for_oracle(text: Seq<char>)
    requires
        ({
            let u = hinted(text);
            contains(u, "CONNECT BY"@) || contains(u, "VARCHAR2"@) || contains(u, "NVL("@)
        }),
        tsql_hints(hinted(text)) == 0,
        snowflake_hints(hinted(text)) == 0,
        postgres_hints(hinted(text)) == 0,
        bigquery_hints(hinted(text)) == 0,
        mysql_hints(hinted(text)) == 0,
    ensures
        inferred(text).kind == DialectKind::Oracle,
        inferred(text).conflict_count == 1,
{
    hints_name_their_dialect(text);
    confidence_follows_from_the_hints(text);
}

/// MySQL words without a hint of another dialect speak for MySQL.
pub proof fn mysql_words_speak_for_mysql(text: Seq<char>)
    requires
        ({
            let u = hinted(text);
            contains(u, "AUTO_INCREMENT"@) || contains(u, "ENGINE="@) || contains(u, "UNSIGNED"@)
        }),
        tsql_hints(hinted(text)) == 0,
        snowflake_hints(hinted(text)) == 0,
        postgres_hints(hinted(text)) == 0,
        bigquery_hints(hinted(text)) == 0,
        oracle_hints(hinted(text)) == 0,
    ensures
        inferred(text).kind == DialectKind::Mysql,
        inferred(text).conflict_count == 1,
{
    hints_name_their_dialect(text);
    confidence_follows_from_the_hints(text);
}

} // verus!
