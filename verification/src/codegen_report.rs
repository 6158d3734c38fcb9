//! What the code generator reports: rules that the entry rule never reaches, and
//! why it failed.

use vstd::prelude::*;

use crate::antlr::{is_digit, is_lower, is_upper};
use crate::diagnostics::{decimal, to_decimal, Severity};
use crate::names::texts;
use crate::order::{add_ordered, ascending, with_text};
use crate::span::{lemma_offset, MAX_TEXT};
use crate::text::{add_chars, add_text, char_width, chars_of, is_text, offset, slice_of, string_of};

verus! {

// ── rule names ─────────────────────────────────────────────────────────

/// Whether a text is a parser rule's name: a small letter, then letters, digits
/// and underscores.
pub open spec fn names_rule(s: Seq<char>) -> bool {
    &&& s.len() > 0
    &&& is_lower(s[0])
    &&& forall|i: int|
        1 <= i < s.len() ==> is_lower(#[trigger] s[i]) || is_upper(s[i]) || is_digit(s[i]) || s[i]
            == '_'
}

fn is_name(s: &Vec<char>) -> (r: bool)
    ensures
        r == names_rule(s@),
{
    if s.len() == 0 || !('a' <= s[0] && s[0] <= 'z') {
        return false;
    }
    let mut i: usize = 1;
    while i < s.len()
        invariant
            1 <= i <= s@.len(),
            forall|j: int|
                1 <= j < i ==> is_lower(#[trigger] s@[j]) || is_upper(s@[j]) || is_digit(s@[j])
                    || s@[j] == '_',
        decreases s@.len() - i,
    {
        let c: char = s[i];
        if !(('a' <= c && c <= 'z') || ('A' <= c && c <= 'Z') || ('0' <= c && c <= '9') || c == '_') {
            return false;
        }
        i = i + 1;
    }
    true
}

/// Whether a text is a parser rule's name.
pub fn is_rule_name(subject: &str) -> (r: bool)
    ensures
        r == names_rule(subject@),
{
    let s = chars_of(subject);
    is_name(&s)
}

// ── byte spans ─────────────────────────────────────────────────────────

/// The position at or after `i` that starts at a byte offset.
pub open spec fn position_at(text: Seq<char>, byte: int, i: int) -> Option<int>
    decreases text.len() + 1 - i,
{
    if i < 0 || i > text.len() {
        None
    } else if offset(text, i) == byte {
        Some(i)
    } else {
        position_at(text, byte, i + 1)
    }
}

/// The part of a text in a byte span, where both ends are between characters.
pub open spec fn part_at(text: Seq<char>, span: (usize, usize)) -> Option<Seq<char>> {
    match (position_at(text, span.0 as int, 0), position_at(text, span.1 as int, 0)) {
        (Some(a), Some(b)) => if a <= b {
            Some(text.subrange(a, b))
        } else {
            None
        },
        _ => None,
    }
}

fn find_position(text: &Vec<char>, byte: usize) -> (r: Option<usize>)
    requires
        text@.len() <= MAX_TEXT,
    ensures
        match r {
            Some(i) => position_at(text@, byte as int, 0) == Some(i as int) && i <= text@.len(),
            None => position_at(text@, byte as int, 0) is None,
        },
{
    let mut at: u64 = 0;
    let mut i: usize = 0;
    while i < text.len()
        invariant
            i <= text@.len() <= MAX_TEXT,
            at == offset(text@, i as int),
            position_at(text@, byte as int, 0) == position_at(text@, byte as int, i as int),
        decreases text@.len() - i,
    {
        if at == byte as u64 {
            return Some(i);
        }
        proof {
            lemma_offset(text@, i as int);
        }
        at = at + char_width(text[i]);
        i = i + 1;
    }
    if at == byte as u64 {
        Some(i)
    } else {
        assert(position_at(text@, byte as int, i + 1) is None);
        None
    }
}

fn read_part(text: &Vec<char>, span: (usize, usize)) -> (r: Option<Vec<char>>)
    requires
        text@.len() <= MAX_TEXT,
    ensures
        match r {
            Some(part) => part_at(text@, span) == Some(part@),
            None => part_at(text@, span) is None,
        },
{
    match (find_position(text, span.0), find_position(text, span.1)) {
        (Some(a), Some(b)) => if a <= b {
            Some(slice_of(text, a, b))
        } else {
            None
        },
        _ => None,
    }
}

// ── unreachable rules ──────────────────────────────────────────────────

/// A report of the generator on a grammar file.
pub struct RuleReport {
    pub code: String,
    pub path: String,
    /// The byte span of the rule's name.
    pub span: Option<(usize, usize)>,
}

/// What a report of an unreachable rule says: the rule, or why none.
pub open spec fn rule_of(text: Seq<char>, report: RuleReport) -> Result<Seq<char>, Seq<char>> {
    match report.span {
        None => Err("G4S078 diagnostic for "@ + report.path@ + " has no source span"@),
        Some(span) => match part_at(text, span) {
            None => Err(
                "G4S078 diagnostic for "@ + report.path@ + " has an invalid UTF-8 byte span"@,
            ),
            Some(rule) => if names_rule(rule) {
                Ok(rule)
            } else {
                Err("G4S078 diagnostic subject `"@ + rule + "` is not a parser rule name"@)
            },
        },
    }
}

/// The rules that the first `k` reports call unreachable, in order and each
/// once, or what is wrong with the first bad report.
pub open spec fn rules_of(text: Seq<char>, reports: Seq<RuleReport>, k: int) -> Result<
    Seq<Seq<char>>,
    Seq<char>,
>
    decreases k,
{
    if k <= 0 {
        Ok(Seq::empty())
    } else {
        match rules_of(text, reports, k - 1) {
            Err(e) => Err(e),
            Ok(rules) => if reports[k - 1].code@ != "G4S078"@ {
                Ok(rules)
            } else {
                match rule_of(text, reports[k - 1]) {
                    Ok(rule) => Ok(with_text(rules, rule)),
                    Err(e) => Err(e),
                }
            },
        }
    }
}

proof fn lemma_failed(text: Seq<char>, reports: Seq<RuleReport>, k: int, hi: int)
    requires
        k <= hi,
        rules_of(text, reports, k) is Err,
    ensures
        rules_of(text, reports, hi) == rules_of(text, reports, k),
    decreases hi - k,
{
    if k < hi {
        lemma_failed(text, reports, k, hi - 1);
    }
}

fn read_rule(text: &Vec<char>, report: &RuleReport) -> (r: Result<Vec<char>, String>)
    requires
        text@.len() <= MAX_TEXT,
    ensures
        match r {
            Ok(rule) => rule_of(text@, *report) == Ok::<Seq<char>, Seq<char>>(rule@),
            Err(e) => rule_of(text@, *report) == Err::<Seq<char>, Seq<char>>(e@),
        },
{
    match report.span {
        None => {
            let mut out = chars_of("G4S078 diagnostic for ");
            add_text(&mut out, report.path.as_str());
            add_text(&mut out, " has no source span");
            Err(string_of(&out))
        },
        Some(span) => match read_part(text, span) {
            None => {
                let mut out = chars_of("G4S078 diagnostic for ");
                add_text(&mut out, report.path.as_str());
                add_text(&mut out, " has an invalid UTF-8 byte span");
                Err(string_of(&out))
            },
            Some(rule) => if is_name(&rule) {
                Ok(rule)
            } else {
                let mut out = chars_of("G4S078 diagnostic subject `");
                add_chars(&mut out, &rule);
                add_text(&mut out, "` is not a parser rule name");
                Err(string_of(&out))
            },
        },
    }
}

/// The texts of strings.
pub open spec fn rule_texts(s: Seq<String>) -> Seq<Seq<char>> {
    Seq::new(s.len(), |i: int| s[i]@)
}

/// The rules of a grammar that the generator's reports call unreachable, in
/// order and each once; or what is wrong with the first bad report.
pub fn unreachable_rules(source: &Vec<char>, reports: &Vec<RuleReport>) -> (r: Result<
    Vec<String>,
    String,
>)
    requires
        source@.len() <= MAX_TEXT,
    ensures
        match r {
            Ok(rules) => rules_of(source@, reports@, reports@.len() as int) == Ok::<
                Seq<Seq<char>>,
                Seq<char>,
            >(rule_texts(rules@)),
            Err(e) => rules_of(source@, reports@, reports@.len() as int) == Err::<
                Seq<Seq<char>>,
                Seq<char>,
            >(e@),
        },
{
    let mut rules: Vec<Vec<char>> = Vec::new();
    let mut k: usize = 0;
    assert(texts(rules@) =~= Seq::<Seq<char>>::empty());
    while k < reports.len()
        invariant
            source@.len() <= MAX_TEXT,
            k <= reports@.len(),
            ascending(texts(rules@)),
            rules_of(source@, reports@, k as int) == Ok::<Seq<Seq<char>>, Seq<char>>(
                texts(rules@),
            ),
        decreases reports@.len() - k,
    {
        let code = chars_of(reports[k].code.as_str());
        if is_text(&code, "G4S078") {
            match read_rule(source, &reports[k]) {
                Ok(rule) => {
                    add_ordered(&mut rules, rule);
                },
                Err(e) => {
                    proof {
                        lemma_failed(source@, reports@, k + 1, reports@.len() as int);
                    }
                    return Err(e);
                },
            }
        }
        k = k + 1;
    }
    let mut out: Vec<String> = Vec::new();
    let mut i: usize = 0;
    while i < rules.len()
        invariant
            i == out@.len() <= rules@.len(),
            forall|j: int| 0 <= j < i ==> out@[j]@ == rules@[j]@,
        decreases rules@.len() - i,
    {
        out.push(string_of(&rules[i]));
        i = i + 1;
    }
    assert(rule_texts(out@) =~= texts(rules@));
    Ok(out)
}

/// Unreachable rules come in ascending order, so that none occurs twice.
pub proof fn unreachable_rules_ascend(text: Seq<char>, reports: Seq<RuleReport>, k: int)
    ensures
        rules_of(text, reports, k) matches Ok(rules) ==> ascending(rules),
    decreases k,
{
    if k > 0 {
        unreachable_rules_ascend(text, reports, k - 1);
        if let Ok(rules) = rules_of(text, reports, k - 1) {
            if let Ok(rule) = rule_of(text, reports[k - 1]) {
                crate::order::lemma_with_text(rules, rule);
            }
        }
    }
}

// ── failures ───────────────────────────────────────────────────────────

/// A diagnostic of the generator.
pub struct CodegenDiagnostic {
    pub severity: Severity,
    pub code: String,
    pub path: String,
    pub line: Option<u64>,
    pub column: Option<u64>,
    pub message: String,
}

/// A diagnostic on a line of its own.
pub open spec fn diagnostic_line(d: CodegenDiagnostic) -> Seq<char> {
    "\n"@ + (if d.severity == Severity::Warning {
        "warning"@
    } else {
        "error"@
    }) + "["@ + d.code@ + "]: "@ + d.path@ + (match (d.line, d.column) {
        (Some(line), Some(column)) => ":"@ + decimal(line as int) + ":"@ + decimal(column as int),
        _ => ""@,
    }) + ": "@ + d.message@
}

/// A failure with its first `k` diagnostics.
pub open spec fn failure_text(summary: Seq<char>, s: Seq<CodegenDiagnostic>, k: int) -> Seq<char>
    decreases k,
{
    if k <= 0 {
        summary
    } else {
        failure_text(summary, s, k - 1) + diagnostic_line(s[k - 1])
    }
}

fn write_line(d: &CodegenDiagnostic) -> (r: Vec<char>)
    ensures
        r@ == diagnostic_line(*d),
{
    let mut out = chars_of("\n");
    match d.severity {
        Severity::Warning => add_text(&mut out, "warning"),
        Severity::Error => add_text(&mut out, "error"),
    }
    add_text(&mut out, "[");
    add_text(&mut out, d.code.as_str());
    add_text(&mut out, "]: ");
    add_text(&mut out, d.path.as_str());
    let mut place = chars_of("");
    if let (Some(line), Some(column)) = (d.line, d.column) {
        let row = to_decimal(line);
        let col = to_decimal(column);
        place = chars_of(":");
        add_chars(&mut place, &row);
        add_text(&mut place, ":");
        add_chars(&mut place, &col);
    }
    add_chars(&mut out, &place);
    add_text(&mut out, ": ");
    add_text(&mut out, d.message.as_str());
    out
}

/// A failure of the generator with its diagnostics, each on a line of its own.
pub fn format_codegen_error(summary: &str, diagnostics: &Vec<CodegenDiagnostic>) -> (r: String)
    ensures
        r@ == failure_text(summary@, diagnostics@, diagnostics@.len() as int),
{
    let mut out = chars_of(summary);
    let mut k: usize = 0;
    while k < diagnostics.len()
        invariant
            k <= diagnostics@.len(),
            out@ == failure_text(summary@, diagnostics@, k as int),
        decreases diagnostics@.len() - k,
    {
        let line = write_line(&diagnostics[k]);
        add_chars(&mut out, &line);
        k = k + 1;
    }
    string_of(&out)
}

} // verus!
