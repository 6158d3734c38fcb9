//! What holds of every file, on concrete files.

use mehen_sql::analyzer::{analyze_parsed, AnalysisError, SqlAnalysis, SqlAnalyzer};
use mehen_sql::chain::longest_chain;
use mehen_sql::composite::Share;
use mehen_sql::dialect::{infer, mask, parse_dialect_directive, resolve, DirectiveStatus};
use mehen_sql::grammar::{dialect_label, dialect_named, has_grammar, parse, DialectKind, Parsed};
use mehen_sql::metric_key::{fixed_key, is_published_metric_key, statement_kind, MetricKey};
use mehen_sql::metrics::{count_kind, MetricValue};
use mehen_sql::rows::{tree_of, Row};
use mehen_sql::span::LineIndex;
use mehen_sql::spaces::SpaceKind;
use mehen_sql::text::chars_of;

const KINDS: [DialectKind; 22] = [
    DialectKind::Ansi,
    DialectKind::Athena,
    DialectKind::Bigquery,
    DialectKind::Clickhouse,
    DialectKind::Databricks,
    DialectKind::Db2,
    DialectKind::Duckdb,
    DialectKind::Exasol,
    DialectKind::Greenplum,
    DialectKind::Hive,
    DialectKind::Materialize,
    DialectKind::Mysql,
    DialectKind::Oracle,
    DialectKind::Postgres,
    DialectKind::Redshift,
    DialectKind::Snowflake,
    DialectKind::Sparksql,
    DialectKind::Sqlite,
    DialectKind::Starrocks,
    DialectKind::Teradata,
    DialectKind::Trino,
    DialectKind::Tsql,
];

const RICH: &str = "WITH a AS (SELECT 1 AS x), b AS (SELECT x FROM a)\n\
    SELECT t.x, COUNT(*), CASE WHEN t.x > 0 THEN 1 ELSE 0 END AS c\n\
    FROM b t LEFT JOIN u ON t.x = u.x CROSS JOIN v\n\
    WHERE NOT (t.x = 1 OR t.x IS NULL) AND t.x IN (SELECT z FROM w)\n\
    UNION ALL SELECT 1, 2, 3;\n\
    DROP TABLE old;\n\
    DELETE FROM t;\n\
    UPDATE t SET x = 1 WHERE x = 2;\n";

const BLOCK: &str = "-- sqlfluff:dialect:oracle\n\
    create or replace procedure p(n number) is\n\
    \x20 v number;\n\
    begin\n\
    \x20 if n > 0 and n < 10 then\n\
    \x20   for i in 1..n loop\n\
    \x20     begin\n\
    \x20       select count(*) into v from orders o join lines l on l.oid = o.id;\n\
    \x20     end;\n\
    \x20   end loop;\n\
    \x20 elsif n = 0 then\n\
    \x20   execute immediate 'drop table t';\n\
    \x20 else\n\
    \x20   raise_application_error(-20001, 'no');\n\
    \x20 end if;\n\
    end p;\n\
    /\n";

fn analyze(sql: &str) -> SqlAnalysis {
    match SqlAnalyzer::new().analyze(sql, true) {
        Ok(analysis) => analysis,
        Err(e) => panic!("not analyzed: {e:?}"),
    }
}

fn value<'a>(a: &'a SqlAnalysis, key: &str) -> &'a MetricValue {
    match a.metrics.iter().find(|m| m.key.text() == key) {
        Some(m) => &m.value,
        None => panic!("missing metric {key}"),
    }
}

fn whole(a: &SqlAnalysis, key: &str) -> u128 {
    match value(a, key) {
        MetricValue::Int(n) => *n,
        _ => panic!("not an integer: {key}"),
    }
}

fn ratio(a: &SqlAnalysis, key: &str) -> (u128, u128) {
    match value(a, key) {
        MetricValue::Ratio { num, den } => (*num, *den),
        _ => panic!("not a ratio: {key}"),
    }
}

/// A metric in hundredths.
fn hundredths(a: &SqlAnalysis, key: &str) -> u128 {
    match value(a, key) {
        MetricValue::Int(n) => 100 * *n,
        MetricValue::Ratio { num, den } => *num * (100 / *den),
        _ => panic!("not a number: {key}"),
    }
}

#[test]
fn contributions_add_up_to_their_metrics() {
    for sql in [RICH, BLOCK] {
        let a = analyze(sql);
        for key in [
            "sql.change_risk_score",
            "sql.predicate.not_count",
            "sql.structural_complexity.max_embedded_query",
            "sql.procedural.block_count",
            "sql.procedural.case_statement_count",
            "sql.procedural.cognitive_complexity",
            "sql.procedural.cyclomatic_complexity",
            "sql.procedural.dynamic_sql_count",
            "sql.procedural.exception_handler_count",
            "sql.procedural.if_count",
            "sql.procedural.loop_count",
            "sql.procedural.max_block_depth",
            "sql.procedural.raise_throw_count",
            "sql.procedural.return_count",
            "sql.procedural.routine_count",
        ] {
            let sum: u128 = a
                .contributions
                .iter()
                .filter(|c| c.metric.text() == key)
                .map(|c| c.amount)
                .sum();
            assert_eq!(sum, hundredths(&a, key), "{key}");
        }
        let places: Vec<(u32, u32)> =
            a.contributions.iter().map(|c| (c.span.start_byte, c.span.end_byte)).collect();
        assert!(places.windows(2).all(|w| w[0] <= w[1]));
    }
}

#[test]
fn procedural_values_of_a_routine() {
    let a = analyze(BLOCK);
    // The routine, one inner block.
    assert_eq!(whole(&a, "sql.procedural.routine_count"), 1);
    assert_eq!(whole(&a, "sql.procedural.block_count"), 2);
    assert_eq!(whole(&a, "sql.procedural.max_block_depth"), 2);
    // IF and ELSIF, one loop.
    assert_eq!(whole(&a, "sql.procedural.if_count"), 2);
    assert_eq!(whole(&a, "sql.procedural.loop_count"), 1);
    assert_eq!(whole(&a, "sql.procedural.dynamic_sql_count"), 1);
    assert_eq!(whole(&a, "sql.procedural.raise_throw_count"), 1);
    // Entry, IF, AND, loop, ELSIF, raise.
    assert_eq!(whole(&a, "sql.procedural.cyclomatic_complexity"), 6);
    // IF 1, boolean sequence 1, nested loop 2, ELSIF 1, ELSE 1.
    assert_eq!(whole(&a, "sql.procedural.cognitive_complexity"), 6);
    // CREATE OR REPLACE and the dynamic statement.
    assert_eq!(whole(&a, "sql.change_risk_score"), 4 + 5);
}

#[test]
fn statement_kinds_add_up() {
    let a = analyze(RICH);
    let total: u64 = (0..21).map(|i| count_kind(&a.facts.statements, statement_kind(i))).sum();
    assert_eq!(total as u128, whole(&a, "sql.statement.count"));
    assert_eq!(whole(&a, "sql.statement.count"), 4);
    assert_eq!(whole(&a, "sql.statement.kind_distinct"), 4);
}

#[test]
fn join_kinds_add_up() {
    let a = analyze(RICH);
    let j = &a.facts.joins;
    assert_eq!(j.inner + j.left + j.right + j.full + j.cross, j.total);
    assert_eq!((j.left, j.cross, j.total), (1, 1, 2));
}

#[test]
fn set_operators_and_aliases_add_up() {
    let a = analyze(RICH);
    let s = &a.facts.set_ops;
    assert!(s.union_count + s.union_all_count + s.intersect_count + s.except_count <= s.count);
    assert_eq!(ratio(&a, "sql.set_op.union_all_ratio"), (1, 1));
    let o = &a.facts.output;
    assert_eq!(
        o.aliased_derived_expression_count + o.expression_without_alias_count,
        o.derived_expression_count
    );
}

#[test]
fn shares_stay_between_zero_and_one() {
    for sql in [RICH, BLOCK, "", "-- note\n", "SELECT FROM WHERE ;;; ((("] {
        let a = analyze(sql);
        for key in [
            "sql.loc.comment_density",
            "sql.set_op.union_all_ratio",
            "sql.select.output_alias_coverage",
            "sql.identifier.unqualified_column_ratio",
            "sql.dialect.confidence",
            "sql.parser.unparsable_ratio",
        ] {
            let (num, den) = ratio(&a, key);
            assert!(den > 0 && num <= den, "{key} of {sql:?}");
        }
        for key in ["sql.review_burden_index", "sql.maintainability_index", "sql.modularity_health"] {
            match value(&a, key) {
                MetricValue::Index(terms) => assert!(terms.iter().all(|t| match t.share {
                    Share::Ratio { num, den } => den > 0 && num <= den,
                    Share::Volume { scale, .. } => scale > 0,
                })),
                _ => panic!("not an index: {key}"),
            }
        }
    }
}

#[test]
fn lines_are_code_comment_or_blank() {
    let a = analyze("-- note\n\nSELECT 1 -- one\n;\n/* a\n b */\n");
    assert_eq!(whole(&a, "sql.loc.physical"), 6);
    assert_eq!(whole(&a, "sql.loc.blank"), 1);
    assert_eq!(whole(&a, "sql.loc.code"), 2);
    assert_eq!(whole(&a, "sql.loc.comment"), 4);
    assert_eq!(ratio(&a, "sql.loc.comment_density"), (4, 6));
}

#[test]
fn line_numbers_never_decrease() {
    let text = chars_of("a\né\n\nb");
    let lines = LineIndex::new(&text);
    let numbers: Vec<u32> = (0..8).map(|b| lines.line_at(b)).collect();
    assert_eq!(numbers, [1, 1, 2, 2, 2, 3, 4, 4]);
    assert_eq!(lines.last_line_at(0), 1);
    assert_eq!(lines.last_line_at(2), 1);
}

#[test]
fn metrics_occur_once_and_are_published() {
    let a = analyze(RICH);
    let mut names: Vec<String> = a.metrics.iter().map(|m| m.key.text()).collect();
    assert_eq!(names.len(), 136 + 21 + 1);
    assert!(names.iter().all(|n| is_published_metric_key(n)));
    names.sort();
    names.dedup();
    assert_eq!(names.len(), 136 + 21 + 1);
    let fixed: Vec<String> = (0..136).map(|i| fixed_key(i).text()).collect();
    assert!(fixed.windows(2).all(|w| w[0] < w[1]));
    assert!(!is_published_metric_key(&MetricKey::StatementLines.text()));
    assert!(!is_published_metric_key(""));
    assert!(!is_published_metric_key("sql.dialect.is_"));
    assert!(is_published_metric_key("sql.dialect.is_hive"));
}

#[test]
fn dialect_names_lead_back_to_their_dialects() {
    for kind in KINDS {
        assert_eq!(dialect_named(dialect_label(kind)), Some(kind));
    }
    assert_eq!(dialect_named("POSTGRES"), None);
    assert_eq!(dialect_named(""), None);
    let compiled: Vec<&str> =
        KINDS.iter().filter(|k| has_grammar(**k)).map(|k| dialect_label(*k)).collect();
    assert_eq!(
        compiled,
        [
            "ansi", "athena", "bigquery", "clickhouse", "db2", "hive", "mysql", "oracle",
            "postgres", "redshift", "snowflake", "sparksql", "sqlite", "tsql"
        ]
    );
    assert!(parse(DialectKind::Duckdb, "SELECT 1").is_none());
}

#[test]
fn only_named_dialects_are_certain() {
    for text in ["SELECT 1", "SELECT a::int", "-- sqlfluff:dialect:duckdb\nSELECT 1", ""] {
        let r = resolve(&chars_of(text), None);
        assert!(r.confidence < 100);
        assert_eq!(r.effective, r.inferred);
        assert!(has_grammar(r.effective));
        assert_eq!(resolve(&chars_of(text), Some(DialectKind::Hive)).confidence, 100);
    }
}

#[test]
fn confidence_follows_the_hints() {
    let seen = |text: &str| {
        let i = infer(&chars_of(text));
        (i.kind, i.confidence, i.conflict_count)
    };
    assert_eq!(seen("SELECT 1"), (DialectKind::Ansi, 30, 0));
    assert_eq!(seen("SELECT a::int"), (DialectKind::Postgres, 45, 1));
    assert_eq!(seen("SELECT DISTINCT ON (a) a::int"), (DialectKind::Postgres, 70, 1));
    assert_eq!(
        seen("SELECT DISTINCT ON (a) a::int FROM t WHERE a ILIKE 'x'"),
        (DialectKind::Postgres, 90, 1)
    );
    // Two families with one hint each: neither of them.
    assert_eq!(seen("SELECT a::int, IFF(b, 1, 2)"), (DialectKind::Ansi, 40, 2));
    assert_eq!(
        seen("SELECT a::text FROM t CONNECT BY PRIOR id = pid"),
        (DialectKind::Ansi, 40, 2)
    );
    // A family with more hints than another.
    assert_eq!(
        seen("SELECT DISTINCT ON (a) a::text FROM t CONNECT BY PRIOR id = pid"),
        (DialectKind::Postgres, 70, 2)
    );
    assert_eq!(seen("SELECT 1\nGO"), (DialectKind::Tsql, 45, 1));
    assert_eq!(seen("go\nSELECT 1"), (DialectKind::Tsql, 45, 1));
}

#[test]
fn comments_and_literals_are_blanked() {
    let shown = |text: &str| mask(&chars_of(text)).into_iter().collect::<String>();
    assert_eq!(shown("a -- b\nc"), "a     \nc");
    assert_eq!(shown("a/*/b\nc*/d"), "a    \n   d");
    assert_eq!(shown("'a''b'c"), "      c");
    assert_eq!(shown("\"--'\"--x"), "\"--'\"   ");
    assert_eq!(shown("'--'x"), "    x");
    let plain = infer(&chars_of("SELECT 'aaaaaaa' -- aaaaaaa\nFROM t"));
    let hinted = infer(&chars_of("SELECT 'QUALIFY' -- QUALIFY\nFROM t"));
    assert_eq!(plain, hinted);
}

#[test]
fn spaces_are_listed_after_the_space_around_them() {
    let sql = "-- sqlfluff:dialect:oracle\n\
        create or replace function outer_fn return number is\n\
        \x20 function inner_fn return number is\n\
        \x20 begin\n\
        \x20   return 2;\n\
        \x20 end inner_fn;\n\
        begin\n\
        \x20 return inner_fn();\n\
        end outer_fn;\n\
        /\n";
    let a = analyze(sql);
    assert!(a.spaces.iter().enumerate().all(|(i, s)| s.id == i as u64 + 1 && s.parent < s.id));
    let parents: Vec<u64> = a
        .spaces
        .iter()
        .filter(|s| s.kind == SpaceKind::Function)
        .map(|s| s.parent)
        .collect();
    assert_eq!(parents, [1, 2]);
}

#[test]
fn recovered_definitions_come_in_source_order() {
    let sql = "-- sqlfluff:dialect:oracle\n\
        create package body pkg as\n\
        \x20 procedure outer_p is\n\
        \x20   procedure inner_p is\n\
        \x20   begin\n\
        \x20     null;\n\
        \x20   end;\n\
        \x20 begin\n\
        \x20   null;\n\
        \x20 end;\n\
        \x20 procedure last_p is\n\
        \x20 begin\n\
        \x20   null;\n\
        \x20 end;\n\
        end pkg;\n\
        /\n";
    let a = analyze(sql);
    let names: Vec<String> = a
        .facts
        .procedural_units
        .iter()
        .map(|u| u.name.as_ref().map(|n| n.iter().collect()).unwrap_or_default())
        .collect();
    assert_eq!(names, ["outer_p", "inner_p", "last_p"]);
    let starts: Vec<u32> = a.facts.procedural_units.iter().map(|u| u.start_byte).collect();
    assert!(starts.windows(2).all(|w| w[0] < w[1]));
}

#[test]
fn chains_are_longest_paths() {
    // 0 -> 1 -> 3 and 0 -> 2 -> 4 -> 3.
    let adj = vec![vec![1, 2], vec![3], vec![4], vec![], vec![3]];
    assert_eq!(longest_chain(&adj, &vec![0]), 4);
    assert_eq!(longest_chain(&adj, &vec![1]), 2);
    assert_eq!(longest_chain(&adj, &vec![3, 2]), 3);
    assert_eq!(longest_chain(&adj, &vec![]), 0);
    // A cycle counts once around.
    assert_eq!(longest_chain(&vec![vec![1], vec![0]], &vec![0]), 3);
}

fn row(kind: &'static str, raw: &str, children: usize) -> Row {
    Row { kind, raw: raw.to_string(), span: None, children }
}

#[test]
fn rows_grow_into_a_tree() {
    let rows = vec![
        row("file", "a b", 2),
        row("statement", "a", 1),
        row("word", "a", 0),
        row("word", "b", 0),
    ];
    let tree = tree_of(&rows).unwrap();
    let ends: Vec<usize> = (0..rows.len()).map(|i| tree.end_at(i)).collect();
    assert_eq!(ends, [4, 3, 3, 4]);
    for (i, r) in rows.iter().enumerate() {
        assert_eq!(tree.children(i).len(), r.children);
    }
    assert!(tree_of(&vec![]).is_none());
    assert!(tree_of(&vec![row("file", "", 1)]).is_none());
    assert!(tree_of(&vec![row("file", "", 0), row("file", "", 0)]).is_none());
}

#[test]
fn malformed_rows_are_refused() {
    let text = chars_of("SELECT 1");
    let parsed = Parsed { lex_errors: vec![], tree: Ok(Some(vec![row("file", "", 1)])) };
    let refused = analyze_parsed(&text, resolve(&text, None), &parsed, true);
    assert!(matches!(refused, Err(AnalysisError::Malformed)));
}

#[test]
fn given_parses_are_analyzed() {
    let text = chars_of("?");
    let failed = Parsed { lex_errors: vec!["odd".to_string()], tree: Err("why".to_string()) };
    let a = analyze_parsed(&text, resolve(&text, None), &failed, true).ok().unwrap();
    let said: Vec<(&str, &str)> =
        a.diagnostics.iter().map(|d| (d.code, d.message.as_str())).collect();
    assert_eq!(
        said,
        [
            ("sql.lex_error", "1 SQL lexer error(s)"),
            ("sql.parse_error", "sqruff failed to parse: why")
        ]
    );
    assert_eq!(ratio(&a, "sql.parser.unparsable_ratio"), (1, 1));
    assert_eq!(whole(&a, "sql.parser.diagnostic_count"), 2);

    let mut bad = row("unparsable", "?", 1);
    bad.span = Some(0..1);
    let mut file = row("file", "?", 1);
    file.span = Some(0..1);
    let rows = vec![file, bad, row("word", "?", 0)];
    let parsed = Parsed { lex_errors: vec!["odd".to_string()], tree: Ok(Some(rows)) };
    let a = analyze_parsed(&text, resolve(&text, None), &parsed, true).ok().unwrap();
    let said: Vec<(&str, &str)> =
        a.diagnostics.iter().map(|d| (d.code, d.message.as_str())).collect();
    assert_eq!(
        said,
        [
            ("sql.unparsable", "1 unparsable SQL segment(s); some metrics may be incomplete"),
            ("sql.lex_error", "SQL lexer error: odd")
        ]
    );
}

#[test]
fn directive_messages_name_both_dialects() {
    let said = |sql: &str| {
        analyze(sql).diagnostics.iter().map(|d| d.message.clone()).collect::<Vec<String>>()
    };
    assert_eq!(
        said("-- sqlfluff:dialect:trino\nSELECT 1"),
        ["in-file directive requested dialect 'trino', which is not compiled into this build; \
          falling back to inferred dialect 'ansi'"]
    );
    assert_eq!(
        said("-- sqlfluff:dialect:nope\nSELECT a::int"),
        ["in-file directive requested unknown dialect 'nope'; falling back to inferred dialect \
          'postgres'"]
    );
    assert!(said("-- sqlfluff:dialect:hive\nSELECT 1").is_empty());
}

#[test]
fn credit_never_makes_a_score_negative() {
    let a = analyze("WITH a AS (SELECT 1 AS x) SELECT x FROM a");
    // Two query blocks and one expression, less three quarters for it.
    assert_eq!(ratio(&a, "sql.cognitive_complexity"), (4 * 2 + 4 - 3, 4));
    assert_eq!(ratio(&analyze(""), "sql.cognitive_complexity"), (0, 4));
}

#[test]
fn structural_score_weighs_the_shape() {
    let a = analyze("SELECT a FROM t LEFT JOIN u ON t.x = u.x");
    let f = &a.facts;
    // One query block, one join that is an outer join, and the expressions.
    let want = 100 + 100 + 80 + 50 * f.expressions.max_depth as u128
        + 100 * f.predicates.max_boolean_depth as u128;
    assert_eq!(ratio(&a, "sql.structural_complexity"), (want, 100));
}

#[test]
fn halstead_values_are_exact() {
    let a = analyze("SELECT a, b FROM t WHERE a > 1");
    let h = &a.facts.halstead;
    assert_eq!(whole(&a, "sql.halstead.length"), (h.total_operators + h.total_operands) as u128);
    assert_eq!(
        ratio(&a, "sql.halstead.difficulty"),
        (
            (h.distinct_operators * h.total_operands) as u128,
            2 * h.distinct_operands as u128
        )
    );
    // Operands: a, b, t, 1 with a used twice.
    assert_eq!((h.distinct_operands, h.total_operands), (4, 5));
}

#[test]
fn recovered_names_start_with_a_letter_of_any_script() {
    let units = |name: &str| {
        let sql = format!("create procedure {name} as begin");
        let text = chars_of(&sql);
        let mut rows = vec![];
        let mut at = 0;
        for word in ["create", "procedure", name, "as", "begin"] {
            let mut r = row("word", word, 0);
            r.span = Some(at..at + word.len());
            at += word.len() + 1;
            rows.push(r);
        }
        let mut run = row("unparsable", &sql, 5);
        run.span = Some(0..sql.len());
        let mut file = row("file", &sql, 1);
        file.span = Some(0..sql.len());
        let mut all = vec![file, run];
        all.append(&mut rows);
        let parsed = Parsed { lex_errors: vec![], tree: Ok(Some(all)) };
        let dialect = resolve(&text, Some(DialectKind::Tsql));
        let a = analyze_parsed(&text, dialect, &parsed, true).ok().unwrap();
        a.facts.procedural_units.len()
    };
    assert_eq!(units("dbo"), 1);
    assert_eq!(units("été"), 1);
    assert_eq!(units("7up"), 1);
    assert_eq!(units("*"), 0);
    assert_eq!(units("="), 0);
}

#[test]
fn predicates_with_a_keyword_are_comparisons() {
    let count = |sql: &str| whole(&analyze(sql), "sql.predicate.comparison_count");
    assert_eq!(count("SELECT 1 FROM t"), 0);
    assert_eq!(count("SELECT 1 FROM t WHERE a = 1"), 1);
    assert_eq!(count("SELECT 1 FROM t WHERE a IN (1, 2)"), 1);
    assert_eq!(count("SELECT 1 FROM t WHERE a NOT IN (1, 2)"), 1);
    assert_eq!(count("SELECT 1 FROM t WHERE a LIKE 'x%'"), 1);
    assert_eq!(count("SELECT 1 FROM t WHERE a BETWEEN 1 AND 2"), 1);
    assert_eq!(count("SELECT 1 FROM t WHERE a ILIKE 'x%'"), 0);
    assert_eq!(
        count("SELECT 1 FROM t WHERE a > 0 AND (b IN (1) OR c LIKE 'x') AND d BETWEEN 1 AND 2"),
        4
    );
    // A subquery's IN is counted with the subqueries, a frame's BETWEEN is none.
    let sub = "SELECT 1 FROM t WHERE a IN (SELECT b FROM u)";
    assert_eq!(count(sub), 0);
    assert_eq!(whole(&analyze(sub), "sql.subquery.in_count"), 1);
    let frame = "SELECT SUM(a) OVER (ORDER BY b ROWS BETWEEN 1 PRECEDING AND CURRENT ROW) FROM t";
    assert_eq!(count(frame), 0);
}

#[test]
fn aggregating_expressions_are_not_trivial() {
    let count = |sql: &str| whole(&analyze(sql), "sql.cte.trivial_count");
    assert_eq!(count("WITH a AS (SELECT x FROM t) SELECT x FROM a"), 1);
    assert_eq!(count("WITH a AS (SELECT COUNT(*) AS n FROM t) SELECT n FROM a"), 0);
    assert_eq!(count("WITH a AS (SELECT x FROM t WHERE x > 0) SELECT x FROM a"), 0);
}

#[test]
fn expressions_used_from_inner_blocks_are_used() {
    let nested = "WITH a AS (SELECT 1 AS x), \
        b AS (WITH i AS (SELECT x FROM a) SELECT x FROM i) SELECT x FROM b";
    let seen = analyze(nested);
    assert_eq!(whole(&seen, "sql.cte.count"), 3);
    assert_eq!(whole(&seen, "sql.cte.dependency_edges"), 1);
    assert_eq!(whole(&seen, "sql.cte.unused_count"), 0);
    // The inner `a` is another expression: the outer one is not used.
    let shadowed = "WITH a AS (SELECT 1 AS x), \
        b AS (WITH a AS (SELECT 2 AS x) SELECT x FROM a) SELECT x FROM b";
    let seen = analyze(shadowed);
    assert_eq!(whole(&seen, "sql.cte.dependency_edges"), 0);
    assert_eq!(whole(&seen, "sql.cte.unused_count"), 1);
}

#[test]
fn the_same_text_has_the_same_answer() {
    for sql in [RICH, BLOCK, "", "SELECT", "-- sqlfluff:dialect:nope\nSELECT 1"] {
        let a = analyze(sql);
        let b = analyze(sql);
        let c = SqlAnalyzer::new().analyze(sql, false).ok().unwrap();
        assert_eq!(a.contributions, b.contributions);
        assert!(c.contributions.is_empty());
        for other in [&b, &c] {
            assert_eq!(a.metrics.len(), other.metrics.len());
            for (m, n) in a.metrics.iter().zip(other.metrics.iter()) {
                assert_eq!(m.key, n.key);
                assert_eq!(shown(&m.value), shown(&n.value));
            }
            let spaces = |a: &SqlAnalysis| {
                a.spaces
                    .iter()
                    .map(|s| (s.id, s.parent, s.span, s.name.clone()))
                    .collect::<Vec<_>>()
            };
            assert_eq!(spaces(&a), spaces(other));
            let said = |a: &SqlAnalysis| {
                a.diagnostics.iter().map(|d| (d.code, d.message.clone())).collect::<Vec<_>>()
            };
            assert_eq!(said(&a), said(other));
        }
    }
}

fn shown(value: &MetricValue) -> String {
    match value {
        MetricValue::Int(n) => format!("{n}"),
        MetricValue::Ratio { num, den } => format!("{num}/{den}"),
        MetricValue::Volume { length, vocabulary } => format!("{length} {vocabulary}"),
        MetricValue::Effort { num, den, length, vocabulary } => {
            format!("{num}/{den} {length} {vocabulary}")
        }
        MetricValue::Entropy(counts) => format!("{counts:?}"),
        MetricValue::Index(terms) => format!("{terms:?}"),
    }
}

#[test]
fn touched_objects_are_read_or_written_ones() {
    let a = analyze("INSERT INTO a SELECT x FROM b; UPDATE c SET x = 1 WHERE x = 2; SELECT 1 FROM a");
    let read = whole(&a, "sql.object.read_count");
    let write = whole(&a, "sql.object.write_count");
    let touch = whole(&a, "sql.object.touch_count");
    assert_eq!((read, write, touch), (2, 2, 3));
}

#[test]
fn a_directive_also_decides_behind_another_text() {
    for front in ["", "SELECT 1", "-- sqlfluff:dialect:mysql", "\u{feff}-- sqlfluff:dialect:nope\n"] {
        let text = format!("{front}\n-- sqlfluff:dialect: oracle \nSELECT 1");
        let d = parse_dialect_directive(&chars_of(&text)).unwrap();
        assert_eq!(d.name, "oracle");
        assert_eq!(d.status, DirectiveStatus::Active(DialectKind::Oracle));
    }
}

#[test]
fn contributions_have_their_place_in_the_text() {
    for sql in [RICH, BLOCK] {
        let a = analyze(sql);
        assert!(!a.contributions.is_empty());
        for c in &a.contributions {
            assert!(c.span.start_byte < c.span.end_byte);
            assert!(c.span.end_byte as usize <= sql.len());
            assert!(1 <= c.span.start_line && c.span.start_line <= c.span.end_line);
            let before = &sql[..c.span.start_byte as usize];
            assert_eq!(c.span.start_line as usize, 1 + before.matches('\n').count());
        }
    }
}

#[test]
fn parsed_nodes_lie_in_their_text() {
    for (kind, sql) in [
        (DialectKind::Ansi, RICH),
        (DialectKind::Oracle, BLOCK),
        (DialectKind::Tsql, "IF @a > 0 BEGIN SELECT 1; END\nGO\nCREATE TABLE t (a INT)"),
        (DialectKind::Mysql, "SELECT 'é' AS x; -- ü\nSELECT FROM WHERE"),
        (DialectKind::Ansi, "\n  SELECT a, -- b\n  c FROM t\n\n"),
    ] {
        let rows = parse(kind, sql).unwrap().tree.unwrap().unwrap();
        let tree = tree_of(&rows).unwrap();
        let mut last = 0;
        for (i, row) in rows.iter().enumerate() {
            let span = row.span.clone().unwrap();
            assert!(span.start <= span.end && span.end <= sql.len());
            assert!(last <= span.start);
            last = span.start;
            for inner in &rows[i..tree.end_at(i)] {
                assert!(inner.span.clone().unwrap().end <= span.end);
            }
            for later in &rows[tree.end_at(i)..] {
                assert!(span.end <= later.span.clone().unwrap().start);
            }
        }
    }
}

#[test]
fn grammars_with_missing_rules_still_parse() {
    // `UNUSED` is a keyword of no grammar, `PARTIAL` and `SIMPLE` are none of
    // SQLite's.
    let unused = "-- sqlfluff:dialect:oracle\nALTER TABLE t SET UNUSED COLUMN c;";
    let a = analyze(unused);
    assert_eq!(a.dialect.effective, DialectKind::Oracle);
    assert_eq!(whole(&a, "sql.statement.count"), 1);
    assert_eq!(whole(&a, "sql.ddl.alter_count"), 1);
    let full = "-- sqlfluff:dialect:sqlite\nCREATE TABLE a (b INT REFERENCES c (d) MATCH FULL);";
    let a = analyze(full);
    assert_eq!(a.dialect.effective, DialectKind::Sqlite);
    assert_eq!(whole(&a, "sql.statement.count"), 1);
    assert_eq!(whole(&a, "sql.ddl.create_count"), 1);
    for (label, sql) in [
        ("bigquery", "CREATE TABLE a (b INT64 REFERENCES c (d) MATCH PARTIAL ON DELETE NO ACTION)"),
        ("postgres", "CREATE TRIGGER x BEFORE INSERT ON t EXECUTE FUNCTION f()"),
        ("redshift", "EXPLAIN (TIMING, SUMMARY, WAL) SELECT 1"),
        ("redshift", "CREATE DATABASE d WITH LC_COLLATE 'x' IS_TEMPLATE true"),
        ("snowflake", "CREATE TABLE a (b INT REFERENCES c (d) MATCH SIMPLE ON UPDATE NO ACTION)"),
        ("sqlite", "MERGE INTO t USING u ON t.a = u.a WHEN MATCHED THEN DELETE"),
        ("oracle", "ALTER TABLE t ADD CONSTRAINT c CHECK (a > 0) EXCEPTIONS INTO e"),
    ] {
        let a = analyze(&format!("-- sqlfluff:dialect:{label}\n{sql};"));
        assert_eq!(dialect_label(a.dialect.effective), label);
        assert!(whole(&a, "sql.statement.count") <= 1);
    }
}

