//! What holds of the names, messages and comparisons of generated parsers.

use vstd::prelude::*;

use crate::antlr::{
    after_last, is_csharp, is_java, is_kotlin, is_lower, is_upper, last_place, path_in, snake,
    snake_case, with_underscores, without_suffix, AntlrTarget,
};
use crate::codegen::{
    drift_message, is_artifact, listed, occurrences, place_of, same_files, without_breaks,
    with_one_break, Artifact,
};
use crate::codegen_report::{
    diagnostic_line, names_rule, part_at, position_at, rule_of, rules_of, CodegenDiagnostic,
    RuleReport,
};
use crate::contribution_report::{rendered, Member};
use crate::order::{ascending, lemma_with_text, with_text};
use crate::text::{contains, lower_char, occurs_at, offset, starts_with};
use crate::text_laws::parts_are_found;
use crate::tree::number;

verus! {

// ── names ──────────────────────────────────────────────────────────────

/// Whether a capital starts a word: after a small letter, or as the last of
/// several before one.
pub open spec fn word_starts(s: Seq<char>, i: int) -> bool {
    &&& 'A' <= s[i] <= 'Z'
    &&& i > 0
    &&& {
        ||| 'a' <= s[i - 1] <= 'z'
        ||| 'A' <= s[i - 1] <= 'Z' && i + 1 < s.len() && 'a' <= s[i + 1] <= 'z'
    }
}

/// In snake case no capital is left; every character stays, a capital as the
/// small letter; and an underscore is added for each word that starts.
pub proof fn words_are_set_apart(s: Seq<char>, i: int)
    ensures
        0 <= i < snake_case(s).len() ==> !('A' <= snake_case(s)[i] <= 'Z'),
        snake_case(s).len() == s.len() + number(0, s.len() as int, |k: int| word_starts(s, k)),
        0 <= i < s.len() ==> {
            let at = i + number(0, i + 1, |k: int| word_starts(s, k));
            &&& 0 <= at < snake_case(s).len()
            &&& snake_case(s)[at] == lower_char(s[i])
            &&& word_starts(s, i) ==> at > 0 && snake_case(s)[at - 1] == '_'
        },
{
    lemma_snake(s, s.len() as int, i);
}

proof fn lemma_snake(s: Seq<char>, k: int, i: int)
    requires
        0 <= k <= s.len(),
    ensures
        0 <= i < snake(s, k).len() ==> !('A' <= snake(s, k)[i] <= 'Z'),
        snake(s, k).len() == k + number(0, k, |k: int| word_starts(s, k)),
        0 <= i < k ==> {
            let at = i + number(0, i + 1, |k: int| word_starts(s, k));
            &&& 0 <= at < snake(s, k).len()
            &&& snake(s, k)[at] == lower_char(s[i])
            &&& word_starts(s, i) ==> at > 0 && snake(s, k)[at - 1] == '_'
        },
    decreases k,
{
    if k > 0 {
        lemma_snake(s, k - 1, i);
        let p = |k: int| word_starts(s, k);
        crate::clause_laws::lemma_some(0, k - 1, p);
        crate::clause_laws::lemma_some(0, k, p);
        assert(number(0, k, p) == number(0, k - 1, p) + if p(k - 1) {
            1int
        } else {
            0
        });
        assert(p(k - 1) == (is_upper(s[k - 1]) && crate::antlr::starts_word(s, k - 1)));
        if i == k - 1 {
            let at = i + number(0, i + 1, p);
            assert(at == snake(s, k).len() - 1);
        }
    }
}

/// What follows the last occurrence of a part is taken.
pub proof fn tails_follow_the_last_part(a: Seq<char>, part: Seq<char>, b: Seq<char>)
    requires
        part.len() > 0,
        forall|j: int| a.len() < j ==> !#[trigger] occurs_at(a + part + b, part, j),
    ensures
        after_last(a + part + b, part) == b,
{
    let s = a + part + b;
    assert(s.subrange(a.len() as int, a.len() as int + part.len()) =~= part);
    lemma_last_place(s, part, s.len() as int, a.len() as int);
    assert(s.skip(a.len() as int + part.len()) =~= b);
}

proof fn lemma_last_place(s: Seq<char>, part: Seq<char>, k: int, at: int)
    requires
        0 <= at < k,
        occurs_at(s, part, at),
        forall|j: int| at < j ==> !#[trigger] occurs_at(s, part, j),
    ensures
        last_place(s, part, k) == Some(at),
    decreases k,
{
    if k - 1 > at {
        assert(!occurs_at(s, part, k - 1));
        lemma_last_place(s, part, k - 1, at);
    }
}

/// A suffix is taken off as often as it is there.
pub proof fn suffixes_are_taken_off(a: Seq<char>, suffix: Seq<char>)
    requires
        suffix.len() > 0,
    ensures
        without_suffix(a + suffix, suffix) == without_suffix(a, suffix),
        !occurs_at(a, suffix, a.len() - suffix.len()) ==> without_suffix(a, suffix) == a,
{
    let s = a + suffix;
    assert(s.subrange(a.len() as int, a.len() as int + suffix.len()) =~= suffix);
    assert(s.take(s.len() - suffix.len()) =~= a);
}

/// An identifier has underscores for hyphens, and is otherwise the name.
pub proof fn hyphens_become_underscores(s: Seq<char>, i: int)
    requires
        0 <= i < s.len(),
    ensures
        with_underscores(s).len() == s.len(),
        s[i] == '-' ==> with_underscores(s)[i] == '_',
        s[i] != '-' ==> with_underscores(s)[i] == s[i],
{
}

/// A path in another is put behind it with one stroke between them; an absolute
/// one stands for itself.
pub proof fn paths_are_joined(base: Seq<char>, part: Seq<char>)
    requires
        part.len() > 0,
    ensures
        path_in(base, seq!['/'] + part) == seq!['/'] + part,
        part[0] != '/' ==> path_in(base + seq!['/'], part) == base + seq!['/'] + part,
        part[0] != '/' && base.len() > 0 && base.last() != '/' ==> path_in(base, part) == base
            + seq!['/'] + part,
        part[0] != '/' ==> path_in(Seq::empty(), part) == part,
{
    assert((seq!['/'] + part)[0] == '/');
    assert((base + seq!['/']).last() == '/');
    assert(base.push('/') + part =~= base + seq!['/'] + part);
    assert(Seq::<char>::empty() + part =~= part);
}

/// The parser crates are named after their language, and their entry rules in
/// snake case.
pub proof fn parser_crates_are_named_alike(t: AntlrTarget)
    requires
        is_kotlin(t) || is_java(t) || is_csharp(t),
    ensures
        t.crate_dir@ == "crates/mehen-"@ + t.slug@ + "-parser"@,
        t.grammar_dir@ == t.crate_dir@ + "/grammar"@,
        t.entry_rule@ == snake_case(t.grammar_entry_rule@),
        t.prep_script is Some <==> t.prep_source is Some,
{
    reveal_strlit("crates/mehen-");
    reveal_strlit("-parser");
    reveal_strlit("/grammar");
    reveal_strlit("kotlin");
    reveal_strlit("java");
    reveal_strlit("csharp");
    reveal_strlit("crates/mehen-kotlin-parser");
    reveal_strlit("crates/mehen-java-parser");
    reveal_strlit("crates/mehen-csharp-parser");
    reveal_strlit("crates/mehen-kotlin-parser/grammar");
    reveal_strlit("crates/mehen-java-parser/grammar");
    reveal_strlit("crates/mehen-csharp-parser/grammar");
    reveal_strlit("kotlinFile");
    reveal_strlit("kotlin_file");
    reveal_strlit("compilationUnit");
    reveal_strlit("compilation_unit");
    assert(t.crate_dir@ =~= "crates/mehen-"@ + t.slug@ + "-parser"@);
    assert(t.grammar_dir@ =~= t.crate_dir@ + "/grammar"@);
    reveal_with_fuel(snake, 20);
    assert(t.entry_rule@ =~= snake_case(t.grammar_entry_rule@));
}

// ── files ──────────────────────────────────────────────────────────────

/// A generated file ends with one line break, and with no other before it.
pub proof fn files_end_with_one_break(s: Seq<char>)
    ensures
        with_one_break(s).last() == '\n',
        with_one_break(s).len() > 1 ==> with_one_break(s)[with_one_break(s).len() - 2] != '\n'
            && with_one_break(s)[with_one_break(s).len() - 2] != '\r',
        s.len() > 0 && s.last() != '\n' && s.last() != '\r' ==> with_one_break(s) == s.push('\n'),
        with_one_break(s.push('\n')) == with_one_break(s),
        with_one_break(s.push('\r')) == with_one_break(s),
{
    lemma_breaks(s);
    assert(s.push('\n').drop_last() =~= s);
    assert(s.push('\r').drop_last() =~= s);
}

proof fn lemma_breaks(s: Seq<char>)
    ensures
        without_breaks(s).len() > 0 ==> without_breaks(s).last() != '\n' && without_breaks(s).last()
            != '\r',
    decreases s.len(),
{
    if s.len() > 0 && (s.last() == '\n' || s.last() == '\r') {
        lemma_breaks(s.drop_last());
    }
}

/// A file takes part in the comparison by its extension, and one without a stem
/// or without an extension does not.
pub proof fn artifacts_go_by_their_extension(stem: Seq<char>, extension: Seq<char>)
    requires
        stem.len() > 0,
        !extension.contains('.'),
        stem + "."@ + extension != ".."@,
    ensures
        is_artifact(stem + "."@ + extension) <==> extension == "rs"@ || extension == "json"@,
        !is_artifact(extension),
        !is_artifact("."@ + extension),
{
    reveal_strlit(".");
    let dot = "."@;
    let s = stem + dot + extension;
    let at = stem.len() as int;
    assert(dot =~= seq!['.']);
    assert(s.subrange(at, at + 1) =~= dot);
    assert forall|j: int| at < j implies !#[trigger] occurs_at(s, dot, j) by {
        if occurs_at(s, dot, j) {
            assert(s.subrange(j, j + 1)[0] == '.');
            assert(extension[j - at - 1] == '.');
        }
    }
    lemma_last_place(s, dot, s.len() as int, at);
    assert(s.skip(at + 1) =~= extension);
    lemma_no_place(extension, extension.len() as int);
    let t = dot + extension;
    assert(t.subrange(0, 1) =~= dot);
    assert forall|j: int| 0 < j implies !#[trigger] occurs_at(t, dot, j) by {
        if occurs_at(t, dot, j) {
            assert(t.subrange(j, j + 1)[0] == '.');
            assert(extension[j - 1] == '.');
        }
    }
    lemma_last_place(t, dot, t.len() as int, 0);
}

proof fn lemma_no_place(s: Seq<char>, k: int)
    requires
        !s.contains('.'),
        k <= s.len(),
    ensures
        last_place(s, "."@, k) is None,
    decreases k,
{
    reveal_strlit(".");
    if k > 0 {
        if occurs_at(s, "."@, k - 1) {
            assert(s.subrange(k - 1, k)[0] == '.');
            assert(s[k - 1] == '.');
        }
        lemma_no_place(s, k - 1);
    }
}

/// Files are compared in whatever order they come, and each as often as it is
/// there.
pub proof fn files_are_compared_in_any_order(a: Seq<Artifact>, b: Seq<Artifact>, x: Artifact)
    ensures
        same_files(a + b, b + a),
        !same_files(a.push(x), a),
        same_files(a, b) ==> same_files(a.push(x), b.push(x)),
        occurrences(seq![x], x) == 1,
{
    assert forall|y: Artifact| #[trigger] occurrences(a + b, y) == occurrences(b + a, y) by {
        lemma_occurrences(a, b, y);
        lemma_occurrences(b, a, y);
    }
    assert(a.push(x).drop_last() =~= a);
    assert(b.push(x).drop_last() =~= b);
    assert(occurrences(a.push(x), x) == occurrences(a, x) + 1);
    if same_files(a, b) {
        assert forall|y: Artifact| #[trigger] occurrences(a.push(x), y) == occurrences(
            b.push(x),
            y,
        ) by {
            assert(occurrences(a, y) == occurrences(b, y));
        }
    }
    assert(seq![x].drop_last() =~= Seq::<Artifact>::empty());
    assert(occurrences(Seq::<Artifact>::empty(), x) == 0);
}

proof fn lemma_occurrences(a: Seq<Artifact>, b: Seq<Artifact>, x: Artifact)
    ensures
        occurrences(a + b, x) == occurrences(a, x) + occurrences(b, x),
    decreases b.len(),
{
    if b.len() == 0 {
        assert(a + b =~= a);
    } else {
        lemma_occurrences(a, b.drop_last(), x);
        assert((a + b).drop_last() =~= a + b.drop_last());
    }
}

// ── messages ───────────────────────────────────────────────────────────

/// A list of names has every name in it, and the message about stale targets
/// names them and the command.
pub proof fn messages_name_their_targets(names: Seq<Seq<char>>, command: Seq<char>, i: int)
    requires
        0 <= i < names.len(),
    ensures
        contains(listed(names, names.len() as int), names[i]),
        contains(drift_message(names, command), listed(names, names.len() as int)),
        contains(drift_message(names, command), command),
{
    lemma_listed_name(names, names.len() as int, i);
    let l = listed(names, names.len() as int);
    let a = "drift detected for: "@;
    let b = ". Re-run `cargo xtask "@;
    let c = " generate --all` and commit the result."@;
    let m = drift_message(names, command);
    assert(m =~= a + l + (b + command + c));
    parts_are_found(a, l, b + command + c, l);
    assert(m =~= (a + l + b) + command + c);
    parts_are_found(a + l + b, command, c, l);
}

proof fn lemma_listed_name(names: Seq<Seq<char>>, k: int, i: int)
    requires
        0 <= i < k <= names.len(),
    ensures
        contains(listed(names, k), names[i]),
    decreases k,
{
    if k == 1 {
        let s = names[0];
        assert(s.subrange(0, s.len() as int) =~= s);
        assert(occurs_at(s, s, 0));
    } else if i == k - 1 {
        let s = listed(names, k);
        parts_are_found(listed(names, k - 1) + ", "@, names[k - 1], Seq::empty(), s);
        assert(listed(names, k - 1) + ", "@ + names[k - 1] + Seq::<char>::empty() =~= s);
    } else {
        lemma_listed_name(names, k - 1, i);
        let t = listed(names, k - 1);
        let s = listed(names, k);
        let at = choose|at: int| occurs_at(t, names[i], at);
        assert(s.subrange(at, at + names[i].len()) =~= t.subrange(at, at + names[i].len()));
        assert(occurs_at(s, names[i], at));
    }
}

/// A name is found at its first place in a list.
pub proof fn first_places_of_names(names: Seq<Seq<char>>, name: Seq<char>, i: int, at: int)
    requires
        0 <= i,
    ensures
        place_of(names, name, i) == Some(at) <==> i <= at < names.len() && names[at] == name
            && forall|j: int| i <= j < at ==> #[trigger] names[j] != name,
        place_of(names, name, i) is None <==> forall|j: int|
            i <= j < names.len() ==> #[trigger] names[j] != name,
    decreases names.len() - i,
{
    if i < names.len() && names[i] != name {
        first_places_of_names(names, name, i + 1, at);
    }
}

/// A rule's name starts with a small letter and goes on with letters, digits and
/// underscores.
pub proof fn rule_names_are_built_up(s: Seq<char>, c: char)
    ensures
        names_rule(seq![c]) <==> 'a' <= c <= 'z',
        s.len() > 0 ==> (names_rule(s.push(c)) <==> names_rule(s) && ('a' <= c <= 'z' || 'A' <= c
            <= 'Z' || '0' <= c <= '9' || c == '_')),
        !names_rule(Seq::empty()),
{
    let t = s.push(c);
    if s.len() > 0 && names_rule(t) {
        assert forall|i: int| 1 <= i < s.len() implies is_lower(#[trigger] s[i]) || is_upper(s[i])
            || crate::antlr::is_digit(s[i]) || s[i] == '_' by {
            assert(t[i] == s[i]);
        }
        assert(t[0] == s[0]);
        assert(t[s.len() as int] == c);
    }
    if s.len() > 0 && names_rule(s) {
        assert(t[0] == s[0]);
    }
}

/// A span of bytes is found where it starts and ends between characters.
pub proof fn spans_are_found(text: Seq<char>, a: int, b: int, span: (usize, usize))
    requires
        0 <= a <= b <= text.len(),
        span.0 == offset(text, a),
        span.1 == offset(text, b),
    ensures
        part_at(text, span) == Some(text.subrange(a, b)),
{
    lemma_position(text, a, 0);
    lemma_position(text, b, 0);
}

proof fn lemma_position(text: Seq<char>, a: int, i: int)
    requires
        0 <= i <= a <= text.len(),
    ensures
        position_at(text, offset(text, a), i) == Some(a),
    decreases a - i,
{
    if i < a {
        crate::span::lemma_offset_grows(text, i + 1, a);
        crate::span::lemma_offset(text, i);
        lemma_position(text, a, i + 1);
    }
}

/// The unreachable rules are those that the reports of them name.
pub proof fn unreachable_rules_are_reported(
    text: Seq<char>,
    reports: Seq<RuleReport>,
    k: int,
    rule: Seq<char>,
)
    requires
        0 <= k <= reports.len(),
    ensures
        rules_of(text, reports, k) matches Ok(rules) ==> ascending(rules) && (rules.contains(rule)
            <==> exists|j: int|
            0 <= j < k && (#[trigger] reports[j]).code@ == "G4S078"@ && rule_of(text, reports[j])
                == Ok::<Seq<char>, Seq<char>>(rule)),
        rules_of(text, reports, k) is Err <==> exists|j: int|
            0 <= j < k && (#[trigger] reports[j]).code@ == "G4S078"@ && rule_of(text, reports[j])
                is Err,
    decreases k,
{
    if k > 0 {
        unreachable_rules_are_reported(text, reports, k - 1, rule);
        if let Ok(rules) = rules_of(text, reports, k - 1) {
            if reports[k - 1].code@ == "G4S078"@ {
                if let Ok(x) = rule_of(text, reports[k - 1]) {
                    lemma_with_text(rules, x);
                    let t = with_text(rules, x);
                    assert(t.to_set().contains(rule) == t.contains(rule));
                    assert(rules.to_set().contains(rule) == rules.contains(rule));
                }
            }
        }
    }
}

/// A report names a rule where its span holds a rule's name, and says what is
/// wrong where it does not.
pub proof fn reports_name_rules(text: Seq<char>, report: RuleReport)
    ensures
        rule_of(text, report) matches Ok(rule) ==> report.span is Some && part_at(
            text,
            report.span->0,
        ) == Some(rule) && names_rule(rule),
        report.span matches Some(span) ==> (part_at(text, span) matches Some(rule) ==> (names_rule(
            rule,
        ) <==> rule_of(text, report) is Ok)),
        report.span is None ==> rule_of(text, report) is Err,
        report.span matches Some(span) ==> (part_at(text, span) is None ==> rule_of(text, report)
            is Err),
{
}

/// A diagnostic of the generator is a line that starts with how bad it is and
/// has its code, its file and its message in it.
pub proof fn diagnostics_say_where_and_what(d: CodegenDiagnostic)
    ensures
        d.severity is Warning ==> starts_with(diagnostic_line(d), "\nwarning["@),
        d.severity is Error ==> starts_with(diagnostic_line(d), "\nerror["@),
        contains(diagnostic_line(d), d.code@),
        contains(diagnostic_line(d), d.path@),
        contains(diagnostic_line(d), d.message@),
{
    reveal_strlit("\nwarning[");
    reveal_strlit("\nerror[");
    reveal_strlit("\n");
    reveal_strlit("warning");
    reveal_strlit("error");
    reveal_strlit("[");
    let level = if d.severity is Warning {
        "warning"@
    } else {
        "error"@
    };
    let head = "\n"@ + level + "["@;
    let place = match (d.line, d.column) {
        (Some(line), Some(column)) => ":"@ + crate::diagnostics::decimal(line as int) + ":"@
            + crate::diagnostics::decimal(column as int),
        _ => ""@,
    };
    let s = diagnostic_line(d);
    let rest = place + ": "@ + d.message@;
    assert(s =~= head + d.code@ + ("]: "@ + d.path@ + rest));
    parts_are_found(head, d.code@, "]: "@ + d.path@ + rest, s);
    assert(s =~= (head + d.code@ + "]: "@) + d.path@ + rest);
    parts_are_found(head + d.code@ + "]: "@, d.path@, rest, s);
    let front = head + d.code@ + "]: "@ + d.path@ + place + ": "@;
    assert(s =~= front + d.message@ + Seq::<char>::empty());
    parts_are_found(front, d.message@, Seq::empty(), s);
    let tail = d.code@ + "]: "@ + d.path@ + rest;
    assert(s =~= head + tail);
    if d.severity is Warning {
        assert(head =~= "\nwarning["@);
    } else {
        assert(head =~= "\nerror["@);
    }
    parts_are_found(Seq::empty(), head, tail, s);
}

/// The contributions of a report are rendered as they are; a report without them
/// has an empty list; and what went wrong is said.
pub proof fn contributions_are_rendered(m: Member, why: Seq<char>, text: Seq<char>)
    ensures
        m.found == Ok::<Option<Result<Seq<char>, Seq<char>>>, Seq<char>>(Some(Ok(text)))
            ==> rendered(m) == Ok::<Seq<char>, Seq<char>>(text),
        m.found == Ok::<Option<Result<Seq<char>, Seq<char>>>, Seq<char>>(None) ==> rendered(m)
            == Ok::<Seq<char>, Seq<char>>("[]"@),
        m.found == Ok::<Option<Result<Seq<char>, Seq<char>>>, Seq<char>>(Some(Err(why)))
            ==> rendered(m) is Err && contains(rendered(m)->Err_0, why) && starts_with(
            rendered(m)->Err_0,
            "failed to render contributions: "@,
        ),
        m.found == Err::<Option<Result<Seq<char>, Seq<char>>>, Seq<char>>(why) ==> rendered(m) is Err
            && contains(rendered(m)->Err_0, why) && starts_with(
            rendered(m)->Err_0,
            "mehen returned invalid JSON: "@,
        ),
{
    let a = "failed to render contributions: "@;
    let b = "mehen returned invalid JSON: "@;
    parts_are_found(a, why, Seq::empty(), why);
    assert(a + why + Seq::<char>::empty() =~= a + why);
    parts_are_found(b, why, Seq::empty(), why);
    assert(b + why + Seq::<char>::empty() =~= b + why);
    parts_are_found(Seq::empty(), a, why, why);
    parts_are_found(Seq::empty(), b, why, why);
}

} // verus!
