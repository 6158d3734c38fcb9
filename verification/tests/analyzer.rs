//! The analyzer as a whole.

use mehen_sql::analyzer::{SqlAnalysis, SqlAnalyzer};
use mehen_sql::composite::{Share, Term};
use mehen_sql::grammar::{dialect_label, has_grammar, DialectKind};
use mehen_sql::loc::line_has_code_outside_comment;
use mehen_sql::metric_key::is_published_metric_key;
use mehen_sql::metrics::MetricValue;

fn analyze(sql: &str) -> SqlAnalysis {
    match SqlAnalyzer::new().analyze(sql, true) {
        Ok(analysis) => analysis,
        Err(e) => panic!("not analyzed: {e:?}"),
    }
}

fn metric(a: &SqlAnalysis, key: &str) -> f64 {
    a.metrics
        .iter()
        .find(|m| m.key.text() == key)
        .map(|m| number(&m.value))
        .unwrap_or(0.0)
}

fn volume(length: u64, vocabulary: u64) -> f64 {
    if vocabulary > 0 {
        length as f64 * (vocabulary as f64).log2()
    } else {
        0.0
    }
}

fn share(s: &Share) -> f64 {
    match s {
        Share::Ratio { num, den } => *num as f64 / *den as f64,
        Share::Volume { length, vocabulary, scale } => {
            let v = volume(*length, *vocabulary);
            v / (v + *scale as f64)
        }
    }
}

fn index(terms: &[Term]) -> f64 {
    let raw: f64 = terms.iter().map(|t| t.weight as f64 / 100.0 * share(&t.share)).sum();
    100.0 * raw.clamp(0.0, 1.0)
}

fn entropy(counts: &[u64]) -> f64 {
    let total: u64 = counts.iter().sum();
    let present: Vec<f64> =
        counts.iter().filter(|c| **c > 0).map(|c| *c as f64 / total as f64).collect();
    if present.len() <= 1 {
        return 0.0;
    }
    let h: f64 = present.iter().map(|p| -p * p.log2()).sum();
    h / (present.len() as f64).log2()
}

fn number(value: &MetricValue) -> f64 {
    match value {
        MetricValue::Int(n) => *n as f64,
        MetricValue::Ratio { num, den } => *num as f64 / *den as f64,
        MetricValue::Volume { length, vocabulary } => volume(*length, *vocabulary),
        MetricValue::Effort { num, den, length, vocabulary } => {
            *num as f64 / *den as f64 * volume(*length, *vocabulary)
        }
        MetricValue::Entropy(counts) => entropy(counts),
        MetricValue::Index(terms) => index(terms),
    }
}

/// Every dialect with a grammar in this build survives a full analysis of a file
/// with function calls. Grammars resolve their parts while they match, so that a
/// missing part shows at parse time only. How well the file parses does not
/// matter here; the `is_<dialect>` metric proves that the directive took effect.
#[test]
fn every_compiled_dialect_survives_function_call_parse() {
    for kind in [
        DialectKind::Ansi,
        DialectKind::Athena,
        DialectKind::Bigquery,
        DialectKind::Clickhouse,
        DialectKind::Databricks,
        DialectKind::Db2,
        DialectKind::Duckdb,
        DialectKind::Exasol,
        DialectKind::Greenplum,
        DialectKind::Hive,
        DialectKind::Materialize,
        DialectKind::Mysql,
        DialectKind::Oracle,
        DialectKind::Postgres,
        DialectKind::Redshift,
        DialectKind::Snowflake,
        DialectKind::Sparksql,
        DialectKind::Sqlite,
        DialectKind::Starrocks,
        DialectKind::Teradata,
        DialectKind::Trino,
        DialectKind::Tsql,
    ] {
        if !has_grammar(kind) {
            continue;
        }
        let label = dialect_label(kind);
        let sql = format!(
            "-- sqlfluff:dialect:{label}\nselect coalesce(a, 1) from t where nullif(b, 0) > 1;\n"
        );
        let analysis = analyze(&sql);
        assert_eq!(
            metric(&analysis, &format!("sql.dialect.is_{label}")),
            1.0,
            "{label}: the directive must drive the parse"
        );
    }
}

/// Every key the analyzer publishes onto the *root* space — the
/// space thresholds and selectors read — must validate through
/// `is_published_metric_key`, or configuration validation
/// would reject a real metric. Child-only keys must NOT validate:
/// a threshold on them could never fire.
#[test]
fn published_key_catalogue_is_in_sync() {
    let sql = "WITH history AS (SELECT 1 AS x),\n\
               unused AS (SELECT 2 AS y)\n\
               SELECT a.x,\n\
                      COUNT(DISTINCT b.y) OVER (PARTITION BY a.x ORDER BY a.x \
                      ROWS BETWEEN 1 PRECEDING AND CURRENT ROW) AS w,\n\
                      CASE WHEN a.x > 0 THEN 1 ELSE 0 END AS c,\n\
                      CAST(a.x AS INT) AS casted,\n\
                      (SELECT MAX(z) FROM v WHERE v.id = a.x) AS scalar\n\
               FROM history a\n\
               LEFT JOIN t b ON a.x = b.x\n\
               CROSS JOIN u\n\
               JOIN (SELECT 1 AS d) derived ON derived.d = a.x\n\
               WHERE EXISTS (SELECT 1 FROM v WHERE v.id = a.x)\n\
                 AND a.x IN (SELECT z FROM w2)\n\
                 AND NOT (a.x = 1 OR b.y IS NULL)\n\
               GROUP BY ROLLUP(a.x)\n\
               HAVING COUNT(*) > 1\n\
               UNION ALL SELECT 9;\n\
               INSERT INTO t VALUES (1);\n\
               UPDATE t SET c = 1;\n\
               DELETE FROM t;\n\
               MERGE INTO t USING s ON t.id = s.id WHEN MATCHED THEN UPDATE SET c = 2;\n\
               CREATE TABLE fresh (id INT);\n\
               ALTER TABLE fresh ADD COLUMN c INT;\n\
               DROP TABLE old_table;\n\
               TRUNCATE TABLE t;\n\
               GRANT SELECT ON t TO PUBLIC;\n\
               COMMIT;\n";
    let a = analyze(sql);
    let mut seen = 0usize;
    for m in a.metrics.iter() {
        let key = m.key.text();
        seen += 1;
        assert!(
            is_published_metric_key(&key),
            "published root key `{key}` is missing from the catalogue"
        );
    }
    assert!(
        seen > 80,
        "fixture must exercise a rich key set, saw {seen}"
    );
    // The dynamic families validate by their enums, including
    // members the fixture may not exercise…
    assert!(is_published_metric_key(
        "sql.statement.kind_count.create_view"
    ));
    assert!(is_published_metric_key("sql.dialect.is_snowflake"));
    // …and near-misses stay invalid.
    assert!(!is_published_metric_key("sql.modularit_health"));
    assert!(!is_published_metric_key("sql.statement.kind_count.selec"));
    assert!(!is_published_metric_key("sql.dialect.is_klingon"));
    // Recognized-but-uncompiled dialects can never publish their
    // one-hot key; accepting them would create a dead gate.
    assert!(!is_published_metric_key("sql.dialect.is_duckdb"));
    // Child-only keys (statement spaces) are not root-configurable.
    assert!(!is_published_metric_key("sql.statement.lines"));
}

#[test]
fn counts_statements_and_kinds() {
    let a = analyze("SELECT 1; INSERT INTO t VALUES (1); DROP TABLE t;");
    assert_eq!(metric(&a, "sql.statement.count"), 3.0);
    assert_eq!(metric(&a, "sql.statement.kind_count.insert"), 1.0);
    assert_eq!(metric(&a, "sql.ddl.drop_count"), 1.0);
}

#[test]
fn counts_joins_and_ctes() {
    let sql = "WITH a AS (SELECT 1 AS x) \
               SELECT t.x FROM a t LEFT JOIN a u ON t.x = u.x";
    let a = analyze(sql);
    assert_eq!(metric(&a, "sql.cte.count"), 1.0);
    assert_eq!(metric(&a, "sql.join.count"), 1.0);
    assert_eq!(metric(&a, "sql.join.outer_count"), 1.0);
}

#[test]
fn flags_destructive_dml() {
    let a = analyze("DELETE FROM big_table;");
    assert_eq!(metric(&a, "sql.dml.delete_without_where_count"), 1.0);
    assert!(metric(&a, "sql.change_risk_score") > 0.0);
}

#[test]
fn publishes_halstead_volume() {
    let a = analyze("SELECT a, b, c FROM t WHERE a > 1 AND b < 2");
    assert!(metric(&a, "sql.halstead.volume") > 0.0);
}

#[test]
fn empty_input_is_clean() {
    let a = analyze("-- just a comment\n");
    assert_eq!(metric(&a, "sql.statement.count"), 0.0);
    assert!(a.diagnostics.is_empty());
}

#[test]
fn strips_trailing_line_comment() {
    assert!(line_has_code_outside_comment("SELECT 1 -- hi"));
    assert!(!line_has_code_outside_comment("-- just a comment"));
    assert!(!line_has_code_outside_comment("   -- indented comment"));
}

#[test]
fn strips_inline_block_comment() {
    assert!(line_has_code_outside_comment("SELECT /* x */ 1"));
    assert!(!line_has_code_outside_comment("/* whole line */"));
}

/// The normalizer of the indices, `x / (x + t)`, rises towards one.
#[test]
fn norm_saturates() {
    let norm = |x: u128, t: u128| share(&Share::Ratio { num: x, den: x + t });
    assert_eq!(norm(0, 10), 0.0);
    assert!((norm(10, 10) - 0.5).abs() < 1e-9);
    assert!(norm(1000, 10) > 0.9);
}

#[test]
fn empty_facts_score_zero() {
    let a = analyze("");
    assert_eq!(metric(&a, "sql.structural_complexity"), 0.0);
    assert_eq!(metric(&a, "sql.cognitive_complexity"), 0.0);
    assert_eq!(metric(&a, "sql.change_risk_score"), 0.0);
    // No common table expressions: modularity does not apply.
    assert_eq!(metric(&a, "sql.modularity_health"), 0.0);
    // No risk: maintainability is at its maximum.
    assert_eq!(metric(&a, "sql.maintainability_index"), 100.0);
}
