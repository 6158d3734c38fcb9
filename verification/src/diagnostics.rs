//! What a reader of a file's metrics should know about how they came about.

use vstd::prelude::*;

use crate::dialect::{DialectResolution, DirectiveStatus};
use crate::grammar::dialect_label;
use crate::text::{add_text, string_of};

verus! {

/// How much a diagnostic matters.
#[derive(Clone, Copy, Debug, PartialEq, Eq, Structural)]
pub enum Severity {
    /// Some metrics may be incomplete.
    Warning,
    /// The file could not be analyzed.
    Error,
}

/// A diagnostic.
pub struct Diagnostic {
    pub severity: Severity,
    pub code: &'static str,
    pub message: String,
}

/// What a diagnostic says.
pub ghost struct DiagnosticView {
    pub severity: Severity,
    pub code: Seq<char>,
    pub message: Seq<char>,
}

impl Diagnostic {
    pub open spec fn seen(self) -> DiagnosticView {
        DiagnosticView { severity: self.severity, code: self.code@, message: self.message@ }
    }
}

/// What diagnostics say.
pub open spec fn seen_all(s: Seq<Diagnostic>) -> Seq<DiagnosticView> {
    Seq::new(s.len(), |i: int| s[i].seen())
}

pub open spec fn warning(code: Seq<char>, message: Seq<char>) -> DiagnosticView {
    DiagnosticView { severity: Severity::Warning, code, message }
}

// ── numbers ────────────────────────────────────────────────────────────

/// The digit of a number below ten.
pub open spec fn digit(d: int) -> char {
    if d == 0 {
        '0'
    } else if d == 1 {
        '1'
    } else if d == 2 {
        '2'
    } else if d == 3 {
        '3'
    } else if d == 4 {
        '4'
    } else if d == 5 {
        '5'
    } else if d == 6 {
        '6'
    } else if d == 7 {
        '7'
    } else if d == 8 {
        '8'
    } else {
        '9'
    }
}

/// A number in decimal.
pub open spec fn decimal(n: int) -> Seq<char>
    decreases n,
{
    if n < 10 {
        seq![digit(n)]
    } else {
        decimal(n / 10).push(digit(n % 10))
    }
}

fn digit_of(d: u64) -> (r: char)
    ensures
        r == digit(d as int),
{
    match d {
        0 => '0',
        1 => '1',
        2 => '2',
        3 => '3',
        4 => '4',
        5 => '5',
        6 => '6',
        7 => '7',
        8 => '8',
        _ => '9',
    }
}

/// A number in decimal.
pub fn to_decimal(n: u64) -> (r: Vec<char>)
    ensures
        r@ == decimal(n as int),
    decreases n,
{
    if n < 10 {
        vec![digit_of(n)]
    } else {
        let mut out = to_decimal(n / 10);
        out.push(digit_of(n % 10));
        out
    }
}

// ── messages ───────────────────────────────────────────────────────────

/// The warning about a file's own directive, where it had no effect.
pub open spec fn directive_warning(d: DialectResolution) -> Seq<DiagnosticView> {
    match d.directive {
        Some(directive) => match directive.status {
            DirectiveStatus::Active(_) => Seq::empty(),
            DirectiveStatus::Unsupported => seq![
                warning(
                    "sql.dialect.unsupported"@,
                    "in-file directive requested dialect '"@ + directive.name@
                        + "', which is not compiled into this build; falling back to inferred dialect '"@
                        + d.inferred.spelled() + "'"@,
                ),
            ],
            DirectiveStatus::Unknown => seq![
                warning(
                    "sql.dialect.unknown"@,
                    "in-file directive requested unknown dialect '"@ + directive.name@
                        + "'; falling back to inferred dialect '"@ + d.inferred.spelled() + "'"@,
                ),
            ],
        },
        None => Seq::empty(),
    }
}

/// The warning about segments that could not be parsed.
pub open spec fn unparsable_warning(segments: int) -> Seq<DiagnosticView> {
    if segments > 0 {
        seq![
            warning(
                "sql.unparsable"@,
                decimal(segments) + " unparsable SQL segment(s); some metrics may be incomplete"@,
            ),
        ]
    } else {
        Seq::empty()
    }
}

/// One warning for each complaint of the lexer.
pub open spec fn lexer_warnings(errors: Seq<Seq<char>>) -> Seq<DiagnosticView> {
    Seq::new(
        errors.len(),
        |i: int| warning("sql.lex_error"@, "SQL lexer error: "@ + errors[i]),
    )
}

/// One warning for all complaints of the lexer.
pub open spec fn lexer_summary(errors: int) -> Seq<DiagnosticView> {
    if errors > 0 {
        seq![warning("sql.lex_error"@, decimal(errors) + " SQL lexer error(s)"@)]
    } else {
        Seq::empty()
    }
}

/// The error of a parser that gave up.
pub open spec fn parse_failure(why: Option<Seq<char>>) -> Seq<DiagnosticView> {
    match why {
        Some(text) => seq![
            DiagnosticView {
                severity: Severity::Error,
                code: "sql.parse_error"@,
                message: "sqruff failed to parse: "@ + text,
            },
        ],
        None => Seq::empty(),
    }
}

// ── execution ──────────────────────────────────────────────────────────

/// Appends one diagnostic.
fn report(out: &mut Vec<Diagnostic>, severity: Severity, code: &'static str, message: &Vec<char>)
    ensures
        seen_all(final(out)@) == seen_all(old(out)@).push(
            DiagnosticView { severity, code: code@, message: message@ },
        ),
{
    out.push(Diagnostic { severity, code, message: string_of(message) });
    assert(seen_all(out@) =~= seen_all(old(out)@).push(
        DiagnosticView { severity, code: code@, message: message@ },
    ));
}

/// Warns about a directive that had no effect.
pub fn report_directive(out: &mut Vec<Diagnostic>, d: &DialectResolution)
    ensures
        seen_all(final(out)@) == seen_all(old(out)@) + directive_warning(*d),
{
    let ghost was = seen_all(out@);
    if let Some(directive) = &d.directive {
        let mut message: Vec<char> = Vec::new();
        match directive.status {
            DirectiveStatus::Active(_) => {},
            DirectiveStatus::Unsupported => {
                add_text(&mut message, "in-file directive requested dialect '");
                add_text(&mut message, directive.name.as_str());
                add_text(
                    &mut message,
                    "', which is not compiled into this build; falling back to inferred dialect '",
                );
                add_text(&mut message, dialect_label(d.inferred));
                add_text(&mut message, "'");
                report(out, Severity::Warning, "sql.dialect.unsupported", &message);
            },
            DirectiveStatus::Unknown => {
                add_text(&mut message, "in-file directive requested unknown dialect '");
                add_text(&mut message, directive.name.as_str());
                add_text(&mut message, "'; falling back to inferred dialect '");
                add_text(&mut message, dialect_label(d.inferred));
                add_text(&mut message, "'");
                report(out, Severity::Warning, "sql.dialect.unknown", &message);
            },
        }
    }
    assert(seen_all(out@) =~= was + directive_warning(*d));
}

/// Warns about segments that could not be parsed.
pub fn report_unparsable(out: &mut Vec<Diagnostic>, segments: u64)
    ensures
        seen_all(final(out)@) == seen_all(old(out)@) + unparsable_warning(segments as int),
{
    let ghost was = seen_all(out@);
    if segments > 0 {
        let mut message = to_decimal(segments);
        add_text(&mut message, " unparsable SQL segment(s); some metrics may be incomplete");
        report(out, Severity::Warning, "sql.unparsable", &message);
    }
    assert(seen_all(out@) =~= was + unparsable_warning(segments as int));
}

/// The texts of strings.
pub open spec fn texts_of(s: Seq<String>) -> Seq<Seq<char>> {
    Seq::new(s.len(), |i: int| s[i]@)
}

/// Warns about each complaint of the lexer.
pub fn report_lexer(out: &mut Vec<Diagnostic>, errors: &Vec<String>)
    ensures
        seen_all(final(out)@) == seen_all(old(out)@) + lexer_warnings(texts_of(errors@)),
{
    let ghost was = seen_all(out@);
    let ghost all = lexer_warnings(texts_of(errors@));
    let mut i: usize = 0;
    assert(seen_all(out@) =~= was + all.take(0));
    while i < errors.len()
        invariant
            i <= errors@.len(),
            all == lexer_warnings(texts_of(errors@)),
            seen_all(out@) == was + all.take(i as int),
        decreases errors@.len() - i,
    {
        let mut message: Vec<char> = Vec::new();
        add_text(&mut message, "SQL lexer error: ");
        add_text(&mut message, errors[i].as_str());
        assert(message@ =~= "SQL lexer error: "@ + errors@[i as int]@);
        report(out, Severity::Warning, "sql.lex_error", &message);
        assert(was + all.take(i + 1) =~= (was + all.take(i as int)).push(all[i as int]));
        i = i + 1;
    }
    assert(all.take(i as int) =~= all);
}

/// Warns about the complaints of the lexer all at once.
pub fn report_lexer_summary(out: &mut Vec<Diagnostic>, errors: u64)
    ensures
        seen_all(final(out)@) == seen_all(old(out)@) + lexer_summary(errors as int),
{
    let ghost was = seen_all(out@);
    if errors > 0 {
        let mut message = to_decimal(errors);
        add_text(&mut message, " SQL lexer error(s)");
        report(out, Severity::Warning, "sql.lex_error", &message);
    }
    assert(seen_all(out@) =~= was + lexer_summary(errors as int));
}

/// Reports why the parser gave up.
pub fn report_failure(out: &mut Vec<Diagnostic>, why: &str)
    ensures
        seen_all(final(out)@) == seen_all(old(out)@) + parse_failure(Some(why@)),
{
    let ghost was = seen_all(out@);
    let mut message: Vec<char> = Vec::new();
    add_text(&mut message, "sqruff failed to parse: ");
    add_text(&mut message, why);
    assert(message@ =~= "sqruff failed to parse: "@ + why@);
    report(out, Severity::Error, "sql.parse_error", &message);
    assert(seen_all(out@) =~= was + parse_failure(Some(why@)));
}

/// A directive that took effect, or none, is not warned about.
pub proof fn effective_directives_are_silent(d: DialectResolution)
    requires
        d.directive matches Some(directive) ==> directive.status is Active,
    ensures
        directive_warning(d).len() == 0,
{
}

} // verus!
