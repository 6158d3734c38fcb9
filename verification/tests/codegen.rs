//! Generated parser crates.

use mehen_sql::antlr::{target_for, targets, to_snake_case, HooksReadme};
use mehen_sql::codegen::{
    choose_targets, drift_report, is_generated_artifact, missing_tool, normalize_end, prep_failure,
    prep_step, render_readme, scratch_name, target_has_drift, Artifact,
};
use mehen_sql::codegen_report::{
    format_codegen_error, is_rule_name, unreachable_rules, CodegenDiagnostic, RuleReport,
};
use mehen_sql::contribution_report::{contributions_from_metrics_json, render_member};
use mehen_sql::diagnostics::Severity;
use mehen_sql::text::chars_of;

#[test]
fn to_snake_case_matches_generated_module_names() {
    // The grammar type names that both parser crates render from.
    assert_eq!(to_snake_case("KotlinLexer"), "kotlin_lexer");
    assert_eq!(to_snake_case("KotlinParser"), "kotlin_parser");
    assert_eq!(to_snake_case("JavaLexer"), "java_lexer");
    assert_eq!(to_snake_case("JavaParser"), "java_parser");
}

#[test]
fn to_snake_case_handles_acronym_runs() {
    assert_eq!(to_snake_case("HTMLParser"), "html_parser");
    assert_eq!(to_snake_case("CSSLexer"), "css_lexer");
    assert_eq!(to_snake_case("Lexer"), "lexer");
}

#[test]
fn readme_renders_derived_names_for_every_target() {
    // Every target places the derived module and type names into its README, so
    // that its `use` paths match its modules.
    for target in targets() {
        let readme = render_readme(&target, "https://example.test/repo", "0.34.0");
        let lexer_type = target.lexer_g4.trim_end_matches(".g4");
        let parser_type = target.parser_g4.trim_end_matches(".g4");
        assert!(
            readme.contains(&to_snake_case(lexer_type)),
            "`{}` README missing lexer module name",
            target.slug
        );
        // The example without hooks calls the entry rule as a path; the one with
        // hooks calls it on the constructed parser.
        let entry_call = if target.lexer_hooks.is_some() || target.parser_hooks.is_some() {
            format!("parser.{}()", target.entry_rule)
        } else {
            format!("{parser_type}::{}", target.entry_rule)
        };
        assert!(
            readme.contains(&entry_call),
            "`{}` README missing `{entry_call}` entry-rule call",
            target.slug,
        );
        assert!(
            readme.contains(target.upstream_url),
            "`{}` README missing upstream URL",
            target.slug
        );
    }
}

#[test]
fn readme_hooks_example_references_every_hooks_path() {
    // A target with hand-written hooks renders an example that imports and
    // installs them.
    for target in targets() {
        let readme = render_readme(&target, "https://example.test/repo", "0.34.0");
        for hooks in [target.lexer_hooks, target.parser_hooks].into_iter().flatten() {
            assert!(
                readme.contains(hooks),
                "`{}` README missing `use …::{hooks}` import",
                target.slug
            );
            let name = hooks.rsplit("::").next().unwrap();
            assert!(
                readme.contains("with_typed_hooks("),
                "`{}` README missing with_typed_hooks construction",
                target.slug
            );
            assert!(
                readme.contains(&format!("{name}::default()")),
                "`{}` README missing `{name}::default()` install",
                target.slug
            );
        }
    }
}

#[test]
fn readme_of_a_target_without_hooks() {
    let target = target_for("kotlin").unwrap();
    let readme = render_readme(&target, "https://example.test/repo", "1.2.3");
    assert_eq!(
        readme,
        "<!-- Generated by `cargo xtask antlr generate kotlin`. -->\n\
         \n\
         # mehen-kotlin-parser\n\
         \n\
         Kotlin lexer and parser, generated from the \
         [Kotlin/kotlin-spec](https://github.com/Kotlin/kotlin-spec) grammar.\n\
         \n\
         ```toml\n\
         [dependencies]\n\
         mehen-kotlin-parser = { git = \"https://example.test/repo\" }\n\
         antlr4-runtime = \"1.2.3\"\n\
         ```\n\
         \n\
         ```rust\n\
         use mehen_kotlin_parser::kotlin_lexer::KotlinLexer;\n\
         use mehen_kotlin_parser::kotlin_parser::KotlinParser;\n\
         \n\
         let file = antlr4_runtime::parse(\"fun main() {}\\n\", KotlinLexer::new, \
         KotlinParser::kotlin_file)?;\n\
         ```\n"
    );
}

#[test]
fn readme_with_hooks_constructs_the_parser_with_them() {
    let target = target_for("java").unwrap();
    let readme = render_readme(&target, "https://example.test/repo", "1.2.3");
    assert!(readme.contains("use mehen_java_parser::hooks::JavaParserBase;\n"));
    assert!(readme.contains("let lexer = JavaLexer::new(input);\n"));
    assert!(readme.contains(
        "let mut parser = JavaParser::with_typed_hooks(CommonTokenStream::new(lexer), \
         JavaParserBase::default());\n"
    ));
}

#[test]
fn readme_ends_with_one_line_feed() {
    for target in targets() {
        let readme = render_readme(&target, "r", "v");
        assert!(readme.ends_with('\n') && !readme.ends_with("\n\n"));
        assert_eq!(normalize_end(&readme), readme);
    }
}

#[test]
fn targets_are_found_by_their_names() {
    let csharp = target_for("csharp").unwrap();
    assert_eq!(csharp.display_name, "C#");
    assert_eq!(csharp.crate_name(), "mehen-csharp-parser");
    assert_eq!(
        csharp.generated_dir("/work"),
        "/work/crates/mehen-csharp-parser/src/generated"
    );
    assert_eq!(csharp.readme_path("/work/"), "/work/crates/mehen-csharp-parser/README.md");
    assert_eq!(csharp.readme_path(""), "crates/mehen-csharp-parser/README.md");
    assert_eq!(prep_step(&csharp), Some(("prepare-grammar.py", "CSharp.Generated.g4")));
    assert!(prep_step(&target_for("kotlin").unwrap()).is_none());
    assert!(target_for("go").is_none());
    let slugs: Vec<&str> = targets().iter().map(|t| t.slug).collect();
    assert_eq!(slugs, ["kotlin", "java", "csharp"]);
}

#[test]
fn hooks_paths_split_at_their_last_separator() {
    let hooks = HooksReadme::from_path("hooks::inner::Base");
    assert_eq!(hooks.path, "hooks::inner::Base");
    assert_eq!(hooks.bare_name, "Base");
    assert_eq!(HooksReadme::from_path("Base").bare_name, "Base");
    assert_eq!(HooksReadme::from_path("a:::b").bare_name, "b");
}

#[test]
fn snake_case_names_stay_as_they_are() {
    assert_eq!(to_snake_case("kotlin_lexer"), "kotlin_lexer");
    assert_eq!(to_snake_case("ABC"), "abc");
    assert_eq!(to_snake_case("aB1C"), "a_b1c");
    assert_eq!(to_snake_case(""), "");
}

#[test]
fn artifacts_are_modules_and_reports() {
    assert!(is_generated_artifact("kotlin_lexer.rs"));
    assert!(is_generated_artifact("semantics.json"));
    assert!(is_generated_artifact("a.b.rs"));
    assert!(!is_generated_artifact("README.md"));
    assert!(!is_generated_artifact(".rs"));
    assert!(!is_generated_artifact(".."));
    assert!(!is_generated_artifact("rs"));
    assert!(!is_generated_artifact("x.rs.bak"));
}

#[test]
fn ends_are_normalized() {
    assert_eq!(normalize_end("a\r\n\r\n"), "a\n");
    assert_eq!(normalize_end("a"), "a\n");
    assert_eq!(normalize_end("\n\n"), "\n");
    assert_eq!(normalize_end("a \n"), "a \n");
}

#[test]
fn drift_is_a_difference_in_files_or_readme() {
    let target = target_for("kotlin").unwrap();
    let readme = render_readme(&target, "r", "v");
    let files = |names: &[(&str, &str)]| -> Vec<Artifact> {
        names.iter().map(|(n, b)| Artifact::new(n, b)).collect()
    };
    let before = files(&[("a.rs", "1"), ("b.rs", "2")]);
    let moved = files(&[("b.rs", "2"), ("a.rs", "1")]);
    assert!(!target_has_drift(&before, &moved, &target, "r", "v", &readme));
    assert!(target_has_drift(&before, &moved, &target, "r", "v", ""));
    assert!(target_has_drift(&before, &moved, &target, "r", "w", &readme));
    let changed = files(&[("a.rs", "1"), ("b.rs", "3")]);
    assert!(target_has_drift(&before, &changed, &target, "r", "v", &readme));
    let fewer = files(&[("a.rs", "1")]);
    assert!(target_has_drift(&before, &fewer, &target, "r", "v", &readme));
    assert!(target_has_drift(&fewer, &before, &target, "r", "v", &readme));
    let twice = files(&[("a.rs", "1"), ("a.rs", "1")]);
    assert!(target_has_drift(&twice, &fewer, &target, "r", "v", &readme));
}

#[test]
fn drift_is_reported_by_name() {
    assert_eq!(drift_report(&vec![], "antlr"), Ok(()));
    assert_eq!(
        drift_report(&vec!["kotlin", "java"], "antlr"),
        Err("drift detected for: kotlin, java. Re-run `cargo xtask antlr generate --all` and \
             commit the result."
            .to_string())
    );
}

#[test]
fn targets_are_chosen_by_name_or_all_together() {
    let known = vec!["kotlin", "java", "csharp"];
    assert_eq!(choose_targets(&known, None, true, "antlr generate kotlin"), Ok(vec![0, 1, 2]));
    assert_eq!(choose_targets(&known, Some("java"), false, "antlr generate kotlin"), Ok(vec![1]));
    assert_eq!(
        choose_targets(&known, Some("go"), false, "antlr generate kotlin"),
        Err("unknown language `go`; known: kotlin, java, csharp".to_string())
    );
    assert_eq!(
        choose_targets(&known, None, false, "antlr generate kotlin"),
        Err("specify a language slug or pass --all (e.g. `xtask antlr generate kotlin`)".to_string())
    );
}

#[test]
fn messages_of_the_preparation_step() {
    assert_eq!(
        missing_tool("csharp", "prepare-grammar.py"),
        "`csharp` needs a grammar-preparation step (prepare-grammar.py), which runs via `uv`.\n\
         Install it: https://docs.astral.sh/uv/getting-started/installation/"
    );
    assert_eq!(
        prep_failure("csharp", "prepare-grammar.py", -1),
        "grammar preparation failed for `csharp` (prepare-grammar.py exited -1)"
    );
    assert_eq!(
        prep_failure("csharp", "p", i32::MIN),
        "grammar preparation failed for `csharp` (p exited -2147483648)"
    );
    assert_eq!(prep_failure("x", "p", 120), "grammar preparation failed for `x` (p exited 120)");
    assert_eq!(scratch_name("check", "java", 4071), "mehen-antlr-check-java-4071");
}

#[test]
fn rule_names_start_small() {
    assert!(is_rule_name("compilationUnit"));
    assert!(is_rule_name("a_1"));
    assert!(!is_rule_name("Unit"));
    assert!(!is_rule_name("_a"));
    assert!(!is_rule_name("a-b"));
    assert!(!is_rule_name(""));
}

fn report(code: &str, span: Option<(usize, usize)>) -> RuleReport {
    RuleReport { code: code.to_string(), path: "G.g4".to_string(), span }
}

#[test]
fn unreachable_rules_are_sorted_and_distinct() {
    let source = chars_of("zeta: é; alpha: b;");
    let reports = vec![
        report("G4S078", Some((0, 4))),
        report("G4S001", None),
        report("G4S078", Some((10, 15))),
        report("G4S078", Some((0, 4))),
    ];
    assert_eq!(
        unreachable_rules(&source, &reports),
        Ok(vec!["alpha".to_string(), "zeta".to_string()])
    );
}

#[test]
fn unreachable_rules_need_a_span_on_a_rule_name() {
    let source = chars_of("é: Big;");
    assert_eq!(
        unreachable_rules(&source, &vec![report("G4S078", None)]),
        Err("G4S078 diagnostic for G.g4 has no source span".to_string())
    );
    for span in [(1, 2), (0, 99), (3, 2)] {
        assert_eq!(
            unreachable_rules(&source, &vec![report("G4S078", Some(span))]),
            Err("G4S078 diagnostic for G.g4 has an invalid UTF-8 byte span".to_string())
        );
    }
    assert_eq!(
        unreachable_rules(&source, &vec![report("G4S078", Some((4, 7))), report("G4S078", None)]),
        Err("G4S078 diagnostic subject `Big` is not a parser rule name".to_string())
    );
}

#[test]
fn codegen_errors_list_their_diagnostics() {
    let diagnostic = |severity: Severity, line: Option<u64>| CodegenDiagnostic {
        severity,
        code: "G1".to_string(),
        path: "G.g4".to_string(),
        line,
        column: Some(4),
        message: "bad".to_string(),
    };
    assert_eq!(
        format_codegen_error(
            "failed",
            &vec![diagnostic(Severity::Error, Some(12)), diagnostic(Severity::Warning, None)]
        ),
        "failed\nerror[G1]: G.g4:12:4: bad\nwarning[G1]: G.g4: bad"
    );
    assert_eq!(format_codegen_error("failed", &vec![]), "failed");
}

#[test]
fn extracts_contributions_or_an_empty_array() {
    let present = br#"{"contributions":[{"metric":"risk","amount":8}]}"#;
    let rendered = contributions_from_metrics_json(&present.to_vec()).unwrap();
    assert!(rendered.contains("\"metric\": \"risk\""));

    let absent = br#"{"schema_version":"1.0"}"#;
    assert_eq!(contributions_from_metrics_json(&absent.to_vec()).unwrap(), "[]");
}

#[test]
fn contributions_need_a_json_report() {
    let broken = contributions_from_metrics_json(&b"{".to_vec()).unwrap_err();
    assert!(broken.starts_with("mehen returned invalid JSON: "));
    assert_eq!(
        render_member(Ok(Some(Err("why".to_string())))),
        Err("failed to render contributions: why".to_string())
    );
    let empty = contributions_from_metrics_json(&br#"{"contributions":[]}"#.to_vec());
    assert_eq!(empty, Ok("[]".to_string()));
}
