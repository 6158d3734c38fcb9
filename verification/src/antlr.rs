//! The parser crates that are generated from grammars: where their files are,
//! what their names are derived from, and when the checked-in files are stale.

use vstd::prelude::*;

use crate::text::{
    add_chars, chars_of, copy_of, is_text, lower_char, occurs_at, slice_of, string_of,
    to_lower_char,
};

verus! {

// ── characters ─────────────────────────────────────────────────────────

pub open spec fn is_upper(c: char) -> bool {
    'A' <= c && c <= 'Z'
}

pub open spec fn is_lower(c: char) -> bool {
    'a' <= c && c <= 'z'
}

pub open spec fn is_digit(c: char) -> bool {
    '0' <= c && c <= '9'
}

fn upper_case(c: char) -> (r: bool)
    ensures
        r == is_upper(c),
{
    'A' <= c && c <= 'Z'
}

fn lower_case(c: char) -> (r: bool)
    ensures
        r == is_lower(c),
{
    'a' <= c && c <= 'z'
}

// ── snake case ─────────────────────────────────────────────────────────

/// Whether a word starts at the capital in place `i`: after a small letter, or
/// as the last capital of a run before a small letter.
pub open spec fn starts_word(s: Seq<char>, i: int) -> bool {
    &&& i > 0
    &&& is_lower(s[i - 1]) || (is_upper(s[i - 1]) && i + 1 < s.len() && is_lower(s[i + 1]))
}

/// The first `k` characters of a name in snake case.
pub open spec fn snake(s: Seq<char>, k: int) -> Seq<char>
    decreases k,
{
    if k <= 0 {
        Seq::empty()
    } else {
        let before = snake(s, k - 1);
        let c = s[k - 1];
        if !is_upper(c) {
            before.push(c)
        } else if starts_word(s, k - 1) {
            before.push('_').push(lower_char(c))
        } else {
            before.push(lower_char(c))
        }
    }
}

/// A name in snake case.
pub open spec fn snake_case(s: Seq<char>) -> Seq<char> {
    snake(s, s.len() as int)
}

pub(crate) fn snake_chars(s: &Vec<char>) -> (r: Vec<char>)
    ensures
        r@ == snake_case(s@),
{
    let mut out: Vec<char> = Vec::new();
    let mut i: usize = 0;
    while i < s.len()
        invariant
            i <= s@.len(),
            out@ == snake(s@, i as int),
        decreases s@.len() - i,
    {
        let c: char = s[i];
        if upper_case(c) {
            if i > 0 && (lower_case(s[i - 1]) || (upper_case(s[i - 1]) && i + 1 < s.len()
                && lower_case(s[i + 1]))) {
                out.push('_');
            }
            out.push(to_lower_char(c));
        } else {
            out.push(c);
        }
        i = i + 1;
    }
    out
}

/// A name in snake case.
pub fn to_snake_case(pascal: &str) -> (r: String)
    ensures
        r@ == snake_case(pascal@),
{
    let chars = chars_of(pascal);
    let out = snake_chars(&chars);
    string_of(&out)
}

proof fn lemma_snake_small(s: Seq<char>, k: int)
    requires
        0 <= k <= s.len(),
    ensures
        forall|i: int| 0 <= i < snake(s, k).len() ==> !is_upper(#[trigger] snake(s, k)[i]),
    decreases k,
{
    if k > 0 {
        lemma_snake_small(s, k - 1);
        let before = snake(s, k - 1);
        let r = snake(s, k);
        let c = s[k - 1];
        assert(!is_upper(lower_char(c)));
        assert(!is_upper('_'));
        assert forall|i: int| 0 <= i < r.len() implies !is_upper(#[trigger] r[i]) by {
            if i < before.len() {
                assert(r[i] == before[i]);
            }
        }
    }
}

/// A name in snake case has no capital letter.
pub proof fn snake_case_has_no_capital(s: Seq<char>, i: int)
    requires
        0 <= i < snake_case(s).len(),
    ensures
        !is_upper(snake_case(s)[i]),
{
    lemma_snake_small(s, s.len() as int);
}

/// A name without capital letters is in snake case already.
pub proof fn snake_case_keeps_small_names(s: Seq<char>)
    requires
        forall|i: int| 0 <= i < s.len() ==> !is_upper(#[trigger] s[i]),
    ensures
        snake_case(s) == s,
{
    lemma_snake_same(s, s.len() as int);
    assert(s.take(s.len() as int) =~= s);
}

proof fn lemma_snake_same(s: Seq<char>, k: int)
    requires
        0 <= k <= s.len(),
        forall|i: int| 0 <= i < s.len() ==> !is_upper(#[trigger] s[i]),
    ensures
        snake(s, k) == s.take(k),
    decreases k,
{
    if k > 0 {
        lemma_snake_same(s, k - 1);
        assert(s.take(k) =~= s.take(k - 1).push(s[k - 1]));
    } else {
        assert(s.take(0) =~= Seq::<char>::empty());
    }
}

// ── pieces of names ────────────────────────────────────────────────────

/// Where `part` occurs last in the first `k` places of a text.
pub open spec fn last_place(s: Seq<char>, part: Seq<char>, k: int) -> Option<int>
    decreases k,
{
    if k <= 0 {
        None
    } else if occurs_at(s, part, k - 1) {
        Some(k - 1)
    } else {
        last_place(s, part, k - 1)
    }
}

/// What follows the last `part` of a text; all of it without one.
pub open spec fn after_last(s: Seq<char>, part: Seq<char>) -> Seq<char> {
    match last_place(s, part, s.len() as int) {
        Some(i) => s.skip(i + part.len()),
        None => s,
    }
}

fn tail_after(s: &Vec<char>, part: &str) -> (r: Vec<char>)
    ensures
        r@ == after_last(s@, part@),
{
    let p = chars_of(part);
    let mut k: usize = s.len();
    while k > 0
        invariant
            k <= s@.len(),
            p@ == part@,
            last_place(s@, part@, s@.len() as int) == last_place(s@, part@, k as int),
        decreases k,
    {
        if crate::text::occurs(s, &p, k - 1) {
            let end: usize = s.len();
            assert(occurs_at(s@, p@, k - 1));
            assert(k - 1 + p@.len() <= end);
            let from: usize = (k - 1) + p.len();
            assert(s@.subrange(from as int, s@.len() as int) =~= s@.skip(from as int));
            return slice_of(s, from, end);
        }
        k = k - 1;
    }
    copy_of(s)
}

/// A text without a suffix, as often as it ends with it.
pub open spec fn without_suffix(s: Seq<char>, suffix: Seq<char>) -> Seq<char>
    decreases s.len(),
{
    if suffix.len() > 0 && occurs_at(s, suffix, s.len() - suffix.len()) {
        without_suffix(s.take(s.len() - suffix.len()), suffix)
    } else {
        s
    }
}

fn strip_suffix(s: &Vec<char>, suffix: &str) -> (r: Vec<char>)
    ensures
        r@ == without_suffix(s@, suffix@),
{
    let p = chars_of(suffix);
    let mut out = copy_of(s);
    if p.len() == 0 {
        return out;
    }
    while p.len() <= out.len() && crate::text::occurs(&out, &p, out.len() - p.len())
        invariant
            p@ == suffix@,
            p@.len() > 0,
            without_suffix(s@, suffix@) == without_suffix(out@, suffix@),
        decreases out@.len(),
    {
        let keep: usize = out.len() - p.len();
        assert(out@.subrange(0, keep as int) =~= out@.take(keep as int));
        out = slice_of(&out, 0, keep);
    }
    out
}

/// The name of the type that a grammar file is generated into.
pub(crate) fn type_name_of(g4: &str) -> (r: Vec<char>)
    ensures
        r@ == without_suffix(g4@, ".g4"@),
{
    let chars = chars_of(g4);
    strip_suffix(&chars, ".g4")
}

/// A text with every hyphen replaced by an underscore.
pub open spec fn with_underscores(s: Seq<char>) -> Seq<char> {
    Seq::new(
        s.len(),
        |i: int|
            if s[i] == '-' {
                '_'
            } else {
                s[i]
            },
    )
}

pub(crate) fn to_identifier(s: &Vec<char>) -> (r: Vec<char>)
    ensures
        r@ == with_underscores(s@),
{
    let mut out: Vec<char> = Vec::new();
    let mut i: usize = 0;
    while i < s.len()
        invariant
            i == out@.len() <= s@.len(),
            forall|j: int| 0 <= j < i ==> out@[j] == with_underscores(s@)[j],
        decreases s@.len() - i,
    {
        out.push(
            if s[i] == '-' {
                '_'
            } else {
                s[i]
            },
        );
        i = i + 1;
    }
    assert(out@ =~= with_underscores(s@));
    out
}

/// One path in another: an absolute path stands for itself.
pub open spec fn path_in(base: Seq<char>, part: Seq<char>) -> Seq<char> {
    if part.len() > 0 && part[0] == '/' {
        part
    } else if base.len() == 0 || base.last() == '/' {
        base + part
    } else {
        base.push('/') + part
    }
}

fn join_path(base: &Vec<char>, part: &str) -> (r: Vec<char>)
    ensures
        r@ == path_in(base@, part@),
{
    let p = chars_of(part);
    if p.len() > 0 && p[0] == '/' {
        return p;
    }
    let mut out = copy_of(base);
    if out.len() > 0 && out[out.len() - 1] != '/' {
        out.push('/');
    }
    add_chars(&mut out, &p);
    out
}

// ── targets ────────────────────────────────────────────────────────────

/// A parser crate and the grammar that it is generated from.
pub struct AntlrTarget {
    /// The name on the command line.
    pub slug: &'static str,
    /// The crate's directory in the workspace.
    pub crate_dir: &'static str,
    /// The grammar's directory in the workspace.
    pub grammar_dir: &'static str,
    pub lexer_g4: &'static str,
    pub parser_g4: &'static str,
    /// The language's name.
    pub display_name: &'static str,
    pub upstream_name: &'static str,
    pub upstream_url: &'static str,
    /// The script that derives the grammar from `prep_source`.
    pub prep_script: Option<&'static str>,
    pub prep_source: Option<&'static str>,
    /// The entry rule as the grammar spells it.
    pub grammar_entry_rule: &'static str,
    /// The entry rule as a method of the generated parser.
    pub entry_rule: &'static str,
    /// One line of valid source text.
    pub sample_source: &'static str,
    /// The file that lowers the grammar's helper calls.
    pub sem_patterns: Option<&'static str>,
    /// Grammar options that hooks implement.
    pub option_hooks: Vec<&'static str>,
    /// The type whose hooks the lexer needs, as a path in the crate.
    pub lexer_hooks: Option<&'static str>,
    pub parser_hooks: Option<&'static str>,
}

/// Whether an optional name is the given one.
pub open spec fn is_named(name: Option<&'static str>, text: Seq<char>) -> bool {
    name matches Some(s) && s@ == text
}

pub open spec fn is_kotlin(t: AntlrTarget) -> bool {
    &&& t.slug@ == "kotlin"@
    &&& t.crate_dir@ == "crates/mehen-kotlin-parser"@
    &&& t.grammar_dir@ == "crates/mehen-kotlin-parser/grammar"@
    &&& t.lexer_g4@ == "KotlinLexer.g4"@
    &&& t.parser_g4@ == "KotlinParser.g4"@
    &&& t.display_name@ == "Kotlin"@
    &&& t.upstream_name@ == "Kotlin/kotlin-spec"@
    &&& t.upstream_url@ == "https://github.com/Kotlin/kotlin-spec"@
    &&& t.prep_script is None
    &&& t.prep_source is None
    &&& t.grammar_entry_rule@ == "kotlinFile"@
    &&& t.entry_rule@ == "kotlin_file"@
    &&& t.sample_source@ == "fun main() {}"@
    &&& t.sem_patterns is None
    &&& t.option_hooks@.len() == 0
    &&& t.lexer_hooks is None
    &&& t.parser_hooks is None
}

pub open spec fn is_java(t: AntlrTarget) -> bool {
    &&& t.slug@ == "java"@
    &&& t.crate_dir@ == "crates/mehen-java-parser"@
    &&& t.grammar_dir@ == "crates/mehen-java-parser/grammar"@
    &&& t.lexer_g4@ == "JavaLexer.g4"@
    &&& t.parser_g4@ == "JavaParser.g4"@
    &&& t.display_name@ == "Java"@
    &&& t.upstream_name@ == "antlr/grammars-v4"@
    &&& t.upstream_url@ == "https://github.com/antlr/grammars-v4"@
    &&& t.prep_script is None
    &&& t.prep_source is None
    &&& t.grammar_entry_rule@ == "compilationUnit"@
    &&& t.entry_rule@ == "compilation_unit"@
    &&& t.sample_source@ == "class C {}"@
    &&& is_named(t.sem_patterns, "patterns.toml"@)
    &&& t.option_hooks@.len() == 1
    &&& t.option_hooks@[0]@ == "superClass=JavaParserBase"@
    &&& t.lexer_hooks is None
    &&& is_named(t.parser_hooks, "hooks::JavaParserBase"@)
}

pub open spec fn is_csharp(t: AntlrTarget) -> bool {
    &&& t.slug@ == "csharp"@
    &&& t.crate_dir@ == "crates/mehen-csharp-parser"@
    &&& t.grammar_dir@ == "crates/mehen-csharp-parser/grammar"@
    &&& t.lexer_g4@ == "CSharpLexer.g4"@
    &&& t.parser_g4@ == "CSharpParser.g4"@
    &&& t.display_name@ == "C#"@
    &&& t.upstream_name@ == "dotnet/roslyn"@
    &&& t.upstream_url@ == "https://github.com/dotnet/roslyn"@
    &&& is_named(t.prep_script, "prepare-grammar.py"@)
    &&& is_named(t.prep_source, "CSharp.Generated.g4"@)
    &&& t.grammar_entry_rule@ == "compilation_unit"@
    &&& t.entry_rule@ == "compilation_unit"@
    &&& t.sample_source@ == "class C {}"@
    &&& is_named(t.sem_patterns, "patterns.toml"@)
    &&& t.option_hooks@.len() == 0
    &&& t.lexer_hooks is None
    &&& t.parser_hooks is None
}

fn kotlin() -> (r: AntlrTarget)
    ensures
        is_kotlin(r),
{
    AntlrTarget {
        slug: "kotlin",
        crate_dir: "crates/mehen-kotlin-parser",
        grammar_dir: "crates/mehen-kotlin-parser/grammar",
        lexer_g4: "KotlinLexer.g4",
        parser_g4: "KotlinParser.g4",
        display_name: "Kotlin",
        upstream_name: "Kotlin/kotlin-spec",
        upstream_url: "https://github.com/Kotlin/kotlin-spec",
        prep_script: None,
        prep_source: None,
        grammar_entry_rule: "kotlinFile",
        entry_rule: "kotlin_file",
        sample_source: "fun main() {}",
        sem_patterns: None,
        option_hooks: Vec::new(),
        lexer_hooks: None,
        parser_hooks: None,
    }
}

/// The grammar's two predicates come from its base class, of which the parser
/// crate has a version of its own to be constructed with.
fn java() -> (r: AntlrTarget)
    ensures
        is_java(r),
{
    AntlrTarget {
        slug: "java",
        crate_dir: "crates/mehen-java-parser",
        grammar_dir: "crates/mehen-java-parser/grammar",
        lexer_g4: "JavaLexer.g4",
        parser_g4: "JavaParser.g4",
        display_name: "Java",
        upstream_name: "antlr/grammars-v4",
        upstream_url: "https://github.com/antlr/grammars-v4",
        prep_script: None,
        prep_source: None,
        grammar_entry_rule: "compilationUnit",
        entry_rule: "compilation_unit",
        sample_source: "class C {}",
        sem_patterns: Some("patterns.toml"),
        option_hooks: vec!["superClass=JavaParserBase"],
        lexer_hooks: None,
        parser_hooks: Some("hooks::JavaParserBase"),
    }
}

/// The grammar's files are derived from a reference grammar.
fn csharp() -> (r: AntlrTarget)
    ensures
        is_csharp(r),
{
    AntlrTarget {
        slug: "csharp",
        crate_dir: "crates/mehen-csharp-parser",
        grammar_dir: "crates/mehen-csharp-parser/grammar",
        lexer_g4: "CSharpLexer.g4",
        parser_g4: "CSharpParser.g4",
        display_name: "C#",
        upstream_name: "dotnet/roslyn",
        upstream_url: "https://github.com/dotnet/roslyn",
        prep_script: Some("prepare-grammar.py"),
        prep_source: Some("CSharp.Generated.g4"),
        grammar_entry_rule: "compilation_unit",
        entry_rule: "compilation_unit",
        sample_source: "class C {}",
        sem_patterns: Some("patterns.toml"),
        option_hooks: Vec::new(),
        lexer_hooks: None,
        parser_hooks: None,
    }
}

/// Every parser crate.
pub fn targets() -> (r: Vec<AntlrTarget>)
    ensures
        r@.len() == 3,
        is_kotlin(r@[0]),
        is_java(r@[1]),
        is_csharp(r@[2]),
{
    vec![kotlin(), java(), csharp()]
}

/// The parser crate of a name.
pub fn target_for(slug: &str) -> (r: Option<AntlrTarget>)
    ensures
        match r {
            Some(t) => t.slug@ == slug@ && (is_kotlin(t) || is_java(t) || is_csharp(t)),
            None => slug@ != "kotlin"@ && slug@ != "java"@ && slug@ != "csharp"@,
        },
{
    let s = chars_of(slug);
    if is_text(&s, "kotlin") {
        Some(kotlin())
    } else if is_text(&s, "java") {
        Some(java())
    } else if is_text(&s, "csharp") {
        Some(csharp())
    } else {
        None
    }
}

impl AntlrTarget {
    /// The directory of the generated modules.
    pub fn generated_dir(&self, workspace: &str) -> (r: String)
        ensures
            r@ == path_in(
                path_in(path_in(workspace@, self.crate_dir@), "src"@),
                "generated"@,
            ),
    {
        let base = chars_of(workspace);
        let dir = join_path(&base, self.crate_dir);
        let src = join_path(&dir, "src");
        let out = join_path(&src, "generated");
        string_of(&out)
    }

    /// The path of the generated README.
    pub fn readme_path(&self, workspace: &str) -> (r: String)
        ensures
            r@ == path_in(path_in(workspace@, self.crate_dir@), "README.md"@),
    {
        let base = chars_of(workspace);
        let dir = join_path(&base, self.crate_dir);
        let out = join_path(&dir, "README.md");
        string_of(&out)
    }

    /// The crate's name: the last component of its directory.
    pub fn crate_name(&self) -> (r: String)
        ensures
            r@ == after_last(self.crate_dir@, "/"@),
    {
        let dir = chars_of(self.crate_dir);
        let name = tail_after(&dir, "/");
        string_of(&name)
    }
}

/// A hooks type: its path in the crate and its bare name.
pub struct HooksReadme {
    pub path: String,
    pub bare_name: String,
}

impl HooksReadme {
    pub fn from_path(path: &str) -> (r: HooksReadme)
        ensures
            r.path@ == path@,
            r.bare_name@ == after_last(path@, "::"@),
    {
        let chars = chars_of(path);
        let name = tail_after(&chars, "::");
        HooksReadme { path: string_of(&chars), bare_name: string_of(&name) }
    }
}

} // verus!
