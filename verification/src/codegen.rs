//! Generated parser crates: their README, stale files, and what the code
//! generator reports.

use vstd::prelude::*;

use crate::antlr::{
    after_last, last_place, snake_case, with_underscores, without_suffix, AntlrTarget, HooksReadme,
};
use crate::diagnostics::{decimal, to_decimal};
use crate::text::{add_chars, add_text, chars_of, copy_of, is_text, same, slice_of, string_of};

verus! {

// ── line ends ──────────────────────────────────────────────────────────

/// A text without the line breaks it ends with.
pub open spec fn without_breaks(s: Seq<char>) -> Seq<char>
    decreases s.len(),
{
    if s.len() > 0 && (s.last() == '\n' || s.last() == '\r') {
        without_breaks(s.drop_last())
    } else {
        s
    }
}

/// A text that ends with exactly one line feed.
pub open spec fn with_one_break(s: Seq<char>) -> Seq<char> {
    without_breaks(s).push('\n')
}

fn end_line(s: &Vec<char>) -> (r: Vec<char>)
    ensures
        r@ == with_one_break(s@),
{
    let mut out = copy_of(s);
    while out.len() > 0 && (out[out.len() - 1] == '\n' || out[out.len() - 1] == '\r')
        invariant
            without_breaks(s@) == without_breaks(out@),
        decreases out@.len(),
    {
        let ghost was = out@;
        out.pop();
        assert(out@ =~= was.drop_last());
    }
    out.push('\n');
    out
}

/// A generated file as it is checked in: with exactly one line feed at its end.
pub fn normalize_end(body: &str) -> (r: String)
    ensures
        r@ == with_one_break(body@),
{
    let chars = chars_of(body);
    let out = end_line(&chars);
    string_of(&out)
}

/// Normalizing the end of a text again changes nothing.
pub proof fn normalizing_is_idempotent(s: Seq<char>)
    ensures
        with_one_break(with_one_break(s)) == with_one_break(s),
{
    lemma_no_breaks(s);
    let t = without_breaks(s);
    assert(t.push('\n').drop_last() =~= t);
}

proof fn lemma_no_breaks(s: Seq<char>)
    ensures
        without_breaks(without_breaks(s)) == without_breaks(s),
    decreases s.len(),
{
    if s.len() > 0 && (s.last() == '\n' || s.last() == '\r') {
        lemma_no_breaks(s.drop_last());
    }
}

// ── README ─────────────────────────────────────────────────────────────

/// The name of the type that a grammar file is generated into.
pub open spec fn type_of(g4: Seq<char>) -> Seq<char> {
    without_suffix(g4, ".g4"@)
}

pub open spec fn crate_of(t: AntlrTarget) -> Seq<char> {
    after_last(t.crate_dir@, "/"@)
}

pub open spec fn ident_of(t: AntlrTarget) -> Seq<char> {
    with_underscores(crate_of(t))
}

/// What the README says before its example.
pub open spec fn readme_head(t: AntlrTarget, repo: Seq<char>, version: Seq<char>) -> Seq<char> {
    "<!-- Generated by `cargo xtask antlr generate "@ + t.slug@ + "`. -->\n\n# "@ + crate_of(t)
        + "\n\n"@ + t.display_name@ + " lexer and parser, generated from the ["@ + t.upstream_name@
        + "]("@ + t.upstream_url@ + ") grammar.\n\n```toml\n[dependencies]\n"@ + crate_of(t)
        + " = { git = \""@ + repo + "\" }\nantlr4-runtime = \""@ + version
        + "\"\n```\n\n```rust\nuse "@ + ident_of(t) + "::"@ + snake_case(type_of(t.lexer_g4@))
        + "::"@ + type_of(t.lexer_g4@) + ";\nuse "@ + ident_of(t) + "::"@ + snake_case(
        type_of(t.parser_g4@),
    ) + "::"@ + type_of(t.parser_g4@) + ";\n"@
}

/// The import of a hooks type.
pub open spec fn hooks_use(t: AntlrTarget, hooks: Option<&'static str>) -> Seq<char> {
    match hooks {
        Some(path) => "use "@ + ident_of(t) + "::"@ + path@ + ";\n"@,
        None => ""@,
    }
}

/// The construction of a lexer or parser.
pub open spec fn construction(
    name: Seq<char>,
    argument: Seq<char>,
    hooks: Option<&'static str>,
) -> Seq<char> {
    match hooks {
        Some(path) => name + "::with_typed_hooks("@ + argument + ", "@ + after_last(path@, "::"@)
            + "::default())"@,
        None => name + "::new("@ + argument + ")"@,
    }
}

/// The example of the README.
pub open spec fn readme_example(t: AntlrTarget) -> Seq<char> {
    if t.lexer_hooks is None && t.parser_hooks is None {
        "\nlet file = antlr4_runtime::parse(\""@ + t.sample_source@ + "\\n\", "@ + type_of(
            t.lexer_g4@,
        ) + "::new, "@ + type_of(t.parser_g4@) + "::"@ + t.entry_rule@ + ")?;\n```\n"@
    } else {
        "\nlet input = InputStream::new(\""@ + t.sample_source@ + "\\n\");\nlet lexer = "@
            + construction(type_of(t.lexer_g4@), "input"@, t.lexer_hooks)
            + ";\nlet mut parser = "@ + construction(
            type_of(t.parser_g4@),
            "CommonTokenStream::new(lexer)"@,
            t.parser_hooks,
        ) + ";\nlet tree = parser."@ + t.entry_rule@ + "()?;\n```\n"@
    }
}

/// The README of a parser crate.
pub open spec fn readme_of(t: AntlrTarget, repo: Seq<char>, version: Seq<char>) -> Seq<char> {
    with_one_break(
        readme_head(t, repo, version) + hooks_use(t, t.lexer_hooks) + hooks_use(t, t.parser_hooks)
            + readme_example(t),
    )
}

fn head_of(t: &AntlrTarget, repo: &str, version: &str) -> (r: Vec<char>)
    ensures
        r@ == readme_head(*t, repo@, version@),
{
    let name = t.crate_name();
    let chars = chars_of(name.as_str());
    let ident = crate::antlr::to_identifier(&chars);
    let lexer = crate::antlr::type_name_of(t.lexer_g4);
    let parser = crate::antlr::type_name_of(t.parser_g4);
    let lexer_module = crate::antlr::snake_chars(&lexer);
    let parser_module = crate::antlr::snake_chars(&parser);
    let mut out = chars_of("<!-- Generated by `cargo xtask antlr generate ");
    add_text(&mut out, t.slug);
    add_text(&mut out, "`. -->\n\n# ");
    add_chars(&mut out, &chars);
    add_text(&mut out, "\n\n");
    add_text(&mut out, t.display_name);
    add_text(&mut out, " lexer and parser, generated from the [");
    add_text(&mut out, t.upstream_name);
    add_text(&mut out, "](");
    add_text(&mut out, t.upstream_url);
    add_text(&mut out, ") grammar.\n\n```toml\n[dependencies]\n");
    add_chars(&mut out, &chars);
    add_text(&mut out, " = { git = \"");
    add_text(&mut out, repo);
    add_text(&mut out, "\" }\nantlr4-runtime = \"");
    add_text(&mut out, version);
    add_text(&mut out, "\"\n```\n\n```rust\nuse ");
    add_chars(&mut out, &ident);
    add_text(&mut out, "::");
    add_chars(&mut out, &lexer_module);
    add_text(&mut out, "::");
    add_chars(&mut out, &lexer);
    add_text(&mut out, ";\nuse ");
    add_chars(&mut out, &ident);
    add_text(&mut out, "::");
    add_chars(&mut out, &parser_module);
    add_text(&mut out, "::");
    add_chars(&mut out, &parser);
    add_text(&mut out, ";\n");
    out
}

fn use_of(t: &AntlrTarget, hooks: Option<&'static str>) -> (r: Vec<char>)
    ensures
        r@ == hooks_use(*t, hooks),
{
    match hooks {
        Some(path) => {
            let name = t.crate_name();
            let chars = chars_of(name.as_str());
            let ident = crate::antlr::to_identifier(&chars);
            let mut out = chars_of("use ");
            add_chars(&mut out, &ident);
            add_text(&mut out, "::");
            add_text(&mut out, path);
            add_text(&mut out, ";\n");
            out
        },
        None => chars_of(""),
    }
}

fn construct(name: &Vec<char>, argument: &str, hooks: Option<&'static str>) -> (r: Vec<char>)
    ensures
        r@ == construction(name@, argument@, hooks),
{
    let mut out = copy_of(name);
    match hooks {
        Some(path) => {
            let parts = HooksReadme::from_path(path);
            add_text(&mut out, "::with_typed_hooks(");
            add_text(&mut out, argument);
            add_text(&mut out, ", ");
            add_text(&mut out, parts.bare_name.as_str());
            add_text(&mut out, "::default())");
        },
        None => {
            add_text(&mut out, "::new(");
            add_text(&mut out, argument);
            add_text(&mut out, ")");
        },
    }
    out
}

fn example_of(t: &AntlrTarget) -> (r: Vec<char>)
    ensures
        r@ == readme_example(*t),
{
    let lexer = crate::antlr::type_name_of(t.lexer_g4);
    let parser = crate::antlr::type_name_of(t.parser_g4);
    if t.lexer_hooks.is_none() && t.parser_hooks.is_none() {
        let mut out = chars_of("\nlet file = antlr4_runtime::parse(\"");
        add_text(&mut out, t.sample_source);
        add_text(&mut out, "\\n\", ");
        add_chars(&mut out, &lexer);
        add_text(&mut out, "::new, ");
        add_chars(&mut out, &parser);
        add_text(&mut out, "::");
        add_text(&mut out, t.entry_rule);
        add_text(&mut out, ")?;\n```\n");
        out
    } else {
        let first = construct(&lexer, "input", t.lexer_hooks);
        let second = construct(&parser, "CommonTokenStream::new(lexer)", t.parser_hooks);
        let mut out = chars_of("\nlet input = InputStream::new(\"");
        add_text(&mut out, t.sample_source);
        add_text(&mut out, "\\n\");\nlet lexer = ");
        add_chars(&mut out, &first);
        add_text(&mut out, ";\nlet mut parser = ");
        add_chars(&mut out, &second);
        add_text(&mut out, ";\nlet tree = parser.");
        add_text(&mut out, t.entry_rule);
        add_text(&mut out, "()?;\n```\n");
        out
    }
}

/// The README of a parser crate: how to depend on it and an example. Module and
/// type names are derived from the names of the grammar files.
pub fn render_readme(target: &AntlrTarget, repo_url: &str, runtime_version: &str) -> (r: String)
    ensures
        r@ == readme_of(*target, repo_url@, runtime_version@),
{
    let mut out = head_of(target, repo_url, runtime_version);
    let lexer_use = use_of(target, target.lexer_hooks);
    add_chars(&mut out, &lexer_use);
    let parser_use = use_of(target, target.parser_hooks);
    add_chars(&mut out, &parser_use);
    let example = example_of(target);
    add_chars(&mut out, &example);
    let ended = end_line(&out);
    string_of(&ended)
}

// ── stale files ────────────────────────────────────────────────────────

/// Where the extension of a file name starts: behind its last dot, unless that
/// is its first character.
pub open spec fn extension_of(name: Seq<char>) -> Option<Seq<char>> {
    match last_place(name, "."@, name.len() as int) {
        Some(i) => if i == 0 || name == ".."@ {
            None
        } else {
            Some(name.skip(i + 1))
        },
        None => None,
    }
}

/// Whether a file of a name takes part in the comparison: modules and the
/// generator's reports.
pub open spec fn is_artifact(name: Seq<char>) -> bool {
    extension_of(name) matches Some(x) && (x == "rs"@ || x == "json"@)
}

/// Whether a file of a name takes part in the comparison.
pub fn is_generated_artifact(name: &str) -> (r: bool)
    ensures
        r == is_artifact(name@),
{
    let s = chars_of(name);
    let dot = chars_of(".");
    proof {
        reveal_strlit(".");
    }
    if is_text(&s, "..") {
        assert(!is_artifact(name@));
        return false;
    }
    let mut k: usize = s.len();
    while k > 0
        invariant
            k <= s@.len(),
            s@ == name@,
            dot@ == "."@,
            dot@.len() == 1,
            name@ != ".."@,
            last_place(name@, "."@, name@.len() as int) == last_place(name@, "."@, k as int),
        decreases k,
    {
        if crate::text::occurs(&s, &dot, k - 1) {
            if k == 1 {
                return false;
            }
            assert(s@.subrange(k as int, s@.len() as int) =~= name@.skip(k as int));
            let extension = slice_of(&s, k, s.len());
            return is_text(&extension, "rs") || is_text(&extension, "json");
        }
        k = k - 1;
    }
    false
}

/// A generated file.
pub struct Artifact {
    pub name: Vec<char>,
    pub body: Vec<char>,
}

impl Artifact {
    pub fn new(name: &str, body: &str) -> (r: Artifact)
        ensures
            r.name@ == name@,
            r.body@ == body@,
    {
        Artifact { name: chars_of(name), body: chars_of(body) }
    }
}

/// Whether two files have the same name and contents.
pub open spec fn same_file(a: Artifact, b: Artifact) -> bool {
    a.name@ == b.name@ && a.body@ == b.body@
}

/// How often a file occurs in a list.
pub open spec fn occurrences(s: Seq<Artifact>, x: Artifact) -> int
    decreases s.len(),
{
    if s.len() == 0 {
        0
    } else {
        occurrences(s.drop_last(), x) + if same_file(s.last(), x) {
            1int
        } else {
            0int
        }
    }
}

/// Whether two lists hold the same files, in whatever order.
pub open spec fn same_files(a: Seq<Artifact>, b: Seq<Artifact>) -> bool {
    forall|x: Artifact| #[trigger] occurrences(a, x) == occurrences(b, x)
}

fn count_file(s: &Vec<Artifact>, x: &Artifact) -> (r: usize)
    ensures
        r == occurrences(s@, *x),
{
    let mut found: usize = 0;
    let mut k: usize = 0;
    while k < s.len()
        invariant
            k <= s@.len(),
            found <= k,
            found == occurrences(s@.take(k as int), *x),
        decreases s@.len() - k,
    {
        assert(s@.take(k + 1).drop_last() =~= s@.take(k as int));
        if same(&s[k].name, &x.name) && same(&s[k].body, &x.body) {
            found = found + 1;
        }
        k = k + 1;
    }
    assert(s@.take(k as int) =~= s@);
    found
}

proof fn lemma_occurs(s: Seq<Artifact>, x: Artifact)
    requires
        occurrences(s, x) > 0,
    ensures
        exists|k: int| 0 <= k < s.len() && same_file(#[trigger] s[k], x),
    decreases s.len(),
{
    if same_file(s.last(), x) {
        assert(same_file(s[s.len() - 1], x));
    } else {
        lemma_occurs(s.drop_last(), x);
        let k = choose|k: int|
            0 <= k < s.drop_last().len() && same_file(#[trigger] s.drop_last()[k], x);
        assert(same_file(s[k], x));
    }
}

proof fn lemma_same_occurrences(s: Seq<Artifact>, x: Artifact, y: Artifact)
    requires
        same_file(x, y),
    ensures
        occurrences(s, x) == occurrences(s, y),
        occurrences(s, x) >= 0,
    decreases s.len(),
{
    if s.len() > 0 {
        lemma_same_occurrences(s.drop_last(), x, y);
    }
}

/// Whether each file of `a` occurs in `b` as often as in `a`.
fn all_matched(a: &Vec<Artifact>, b: &Vec<Artifact>) -> (r: bool)
    ensures
        r == forall|k: int|
            0 <= k < a@.len() ==> occurrences(a@, #[trigger] a@[k]) == occurrences(b@, a@[k]),
{
    let mut k: usize = 0;
    while k < a.len()
        invariant
            k <= a@.len(),
            forall|l: int|
                0 <= l < k ==> occurrences(a@, #[trigger] a@[l]) == occurrences(b@, a@[l]),
        decreases a@.len() - k,
    {
        if count_file(a, &a[k]) != count_file(b, &a[k]) {
            return false;
        }
        k = k + 1;
    }
    true
}

/// Whether two lists hold the same files, in whatever order.
pub fn hold_same_files(a: &Vec<Artifact>, b: &Vec<Artifact>) -> (r: bool)
    ensures
        r == same_files(a@, b@),
{
    let r: bool = all_matched(a, b) && all_matched(b, a);
    proof {
        if r {
            assert forall|x: Artifact| #[trigger] occurrences(a@, x) == occurrences(b@, x) by {
                lemma_same_occurrences(a@, x, x);
                lemma_same_occurrences(b@, x, x);
                if occurrences(a@, x) > 0 {
                    lemma_occurs(a@, x);
                    let k = choose|k: int| 0 <= k < a@.len() && same_file(#[trigger] a@[k], x);
                    lemma_same_occurrences(a@, a@[k], x);
                    lemma_same_occurrences(b@, a@[k], x);
                } else if occurrences(b@, x) > 0 {
                    lemma_occurs(b@, x);
                    let k = choose|k: int| 0 <= k < b@.len() && same_file(#[trigger] b@[k], x);
                    lemma_same_occurrences(a@, b@[k], x);
                    lemma_same_occurrences(b@, b@[k], x);
                }
            }
        }
    }
    r
}

/// Whether the checked-in files of a parser crate are stale: they differ from
/// freshly generated ones, or its README does.
pub fn target_has_drift(
    before: &Vec<Artifact>,
    after: &Vec<Artifact>,
    target: &AntlrTarget,
    repo_url: &str,
    runtime_version: &str,
    readme: &str,
) -> (r: bool)
    ensures
        r <==> !same_files(before@, after@) || readme@ != readme_of(
            *target,
            repo_url@,
            runtime_version@,
        ),
{
    if !hold_same_files(before, after) {
        return true;
    }
    let expected = render_readme(target, repo_url, runtime_version);
    let fresh = chars_of(expected.as_str());
    !is_text(&fresh, readme)
}

// ── command-line messages ──────────────────────────────────────────────

/// The first `k` names with commas between them.
pub open spec fn listed(names: Seq<Seq<char>>, k: int) -> Seq<char>
    decreases k,
{
    if k <= 0 {
        Seq::empty()
    } else if k == 1 {
        names[0]
    } else {
        listed(names, k - 1) + ", "@ + names[k - 1]
    }
}

/// The texts of names.
pub open spec fn named(names: Seq<&'static str>) -> Seq<Seq<char>> {
    Seq::new(names.len(), |i: int| names[i]@)
}

fn list_names(names: &Vec<&'static str>) -> (r: Vec<char>)
    ensures
        r@ == listed(named(names@), names@.len() as int),
{
    let mut out: Vec<char> = Vec::new();
    let mut k: usize = 0;
    while k < names.len()
        invariant
            k <= names@.len(),
            out@ == listed(named(names@), k as int),
        decreases names@.len() - k,
    {
        if k > 0 {
            add_text(&mut out, ", ");
        }
        add_text(&mut out, names[k]);
        assert(k == 0 ==> out@ =~= named(names@)[0]);
        k = k + 1;
    }
    out
}

/// The message about stale parser crates.
pub open spec fn drift_message(names: Seq<Seq<char>>, command: Seq<char>) -> Seq<char> {
    "drift detected for: "@ + listed(names, names.len() as int) + ". Re-run `cargo xtask "@
        + command + " generate --all` and commit the result."@
}

/// An error that names the stale targets, if there are any.
pub fn drift_report(drifted: &Vec<&'static str>, command: &str) -> (r: Result<(), String>)
    ensures
        match r {
            Ok(_) => drifted@.len() == 0,
            Err(e) => drifted@.len() > 0 && e@ == drift_message(named(drifted@), command@),
        },
{
    if drifted.len() == 0 {
        return Ok(());
    }
    let names = list_names(drifted);
    let mut out = chars_of("drift detected for: ");
    add_chars(&mut out, &names);
    add_text(&mut out, ". Re-run `cargo xtask ");
    add_text(&mut out, command);
    add_text(&mut out, " generate --all` and commit the result.");
    Err(string_of(&out))
}

/// The first place at or after `i` of a name in a list.
pub open spec fn place_of(names: Seq<Seq<char>>, name: Seq<char>, i: int) -> Option<int>
    decreases names.len() - i,
{
    if i < 0 || i >= names.len() {
        None
    } else if names[i] == name {
        Some(i)
    } else {
        place_of(names, name, i + 1)
    }
}

/// The targets that a command works on: all of them, or the one that is named.
pub fn choose_targets(
    known: &Vec<&'static str>,
    language: Option<&str>,
    all: bool,
    example: &str,
) -> (r: Result<Vec<usize>, String>)
    ensures
        match r {
            Ok(places) => if all {
                places@ == Seq::new(known@.len(), |i: int| i as usize)
            } else {
                language matches Some(slug) && places@.len() == 1 && place_of(
                    named(known@),
                    slug@,
                    0,
                ) == Some(places@[0] as int)
            },
            Err(e) => !all && match language {
                Some(slug) => place_of(named(known@), slug@, 0) is None && e@
                    == "unknown language `"@ + slug@ + "`; known: "@ + listed(
                    named(known@),
                    known@.len() as int,
                ),
                None => e@ == "specify a language slug or pass --all (e.g. `xtask "@ + example@
                    + "`)"@,
            },
        },
{
    if all {
        let mut places: Vec<usize> = Vec::new();
        let mut k: usize = 0;
        while k < known.len()
            invariant
                k == places@.len() <= known@.len(),
                forall|i: int| 0 <= i < k ==> places@[i] == i,
            decreases known@.len() - k,
        {
            places.push(k);
            k = k + 1;
        }
        assert(places@ =~= Seq::new(known@.len(), |i: int| i as usize));
        return Ok(places);
    }
    match language {
        None => {
            let mut out = chars_of("specify a language slug or pass --all (e.g. `xtask ");
            add_text(&mut out, example);
            add_text(&mut out, "`)");
            Err(string_of(&out))
        },
        Some(slug) => {
            let s = chars_of(slug);
            let mut k: usize = 0;
            while k < known.len()
                invariant
                    k <= known@.len(),
                    !all,
                    language == Some(slug),
                    s@ == slug@,
                    place_of(named(known@), slug@, 0) == place_of(named(known@), slug@, k as int),
                decreases known@.len() - k,
            {
                if is_text(&s, known[k]) {
                    assert(named(known@)[k as int] == slug@);
                    return Ok(vec![k]);
                }
                k = k + 1;
            }
            let names = list_names(known);
            let mut out = chars_of("unknown language `");
            add_text(&mut out, slug);
            add_text(&mut out, "`; known: ");
            add_chars(&mut out, &names);
            Err(string_of(&out))
        },
    }
}

/// The grammar-preparation step of a parser crate: its script and its source.
pub fn prep_step(target: &AntlrTarget) -> (r: Option<(&'static str, &'static str)>)
    ensures
        r == (match (target.prep_script, target.prep_source) {
            (Some(script), Some(source)) => Some((script, source)),
            _ => None,
        }),
{
    match (target.prep_script, target.prep_source) {
        (Some(script), Some(source)) => Some((script, source)),
        _ => None,
    }
}

/// The message about a preparation step whose tool is missing.
pub fn missing_tool(slug: &str, script: &str) -> (r: String)
    ensures
        r@ == "`"@ + slug@ + "` needs a grammar-preparation step ("@ + script@
            + "), which runs via `uv`.\nInstall it: https://docs.astral.sh/uv/getting-started/installation/"@,
{
    let mut out = chars_of("`");
    add_text(&mut out, slug);
    add_text(&mut out, "` needs a grammar-preparation step (");
    add_text(&mut out, script);
    add_text(
        &mut out,
        "), which runs via `uv`.\nInstall it: https://docs.astral.sh/uv/getting-started/installation/",
    );
    string_of(&out)
}

/// A number in decimal, with its sign.
pub open spec fn signed(n: int) -> Seq<char> {
    if n < 0 {
        "-"@ + decimal(-n)
    } else {
        decimal(n)
    }
}

/// The message about a preparation step that failed.
pub fn prep_failure(slug: &str, script: &str, code: i32) -> (r: String)
    ensures
        r@ == "grammar preparation failed for `"@ + slug@ + "` ("@ + script@ + " exited "@ + signed(
            code as int,
        ) + ")"@,
{
    let number: Vec<char> = if code < 0 {
        let mut minus = chars_of("-");
        let digits = to_decimal((-(code as i64)) as u64);
        add_chars(&mut minus, &digits);
        minus
    } else {
        to_decimal(code as u64)
    };
    let mut out = chars_of("grammar preparation failed for `");
    add_text(&mut out, slug);
    add_text(&mut out, "` (");
    add_text(&mut out, script);
    add_text(&mut out, " exited ");
    add_chars(&mut out, &number);
    add_text(&mut out, ")");
    string_of(&out)
}

/// The name of a scratch directory of one process.
pub fn scratch_name(kind: &str, slug: &str, process: u32) -> (r: String)
    ensures
        r@ == "mehen-antlr-"@ + kind@ + "-"@ + slug@ + "-"@ + decimal(process as int),
{
    let digits = to_decimal(process as u64);
    let mut out = chars_of("mehen-antlr-");
    add_text(&mut out, kind);
    add_text(&mut out, "-");
    add_text(&mut out, slug);
    add_text(&mut out, "-");
    add_chars(&mut out, &digits);
    string_of(&out)
}

} // verus!
