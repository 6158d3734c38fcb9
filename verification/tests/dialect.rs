//! Dialect selection: directive, request, inference.

use mehen_sql::dialect::{
    parse_dialect_directive, DialectDirective, DialectResolution, DirectiveStatus,
};
use mehen_sql::grammar::DialectKind;
use mehen_sql::text::chars_of;

fn resolve(source: &str, requested: Option<DialectKind>) -> DialectResolution {
    mehen_sql::dialect::resolve(&chars_of(source), requested)
}

fn directive(source: &str) -> Option<DialectDirective> {
    parse_dialect_directive(&chars_of(source))
}

#[test]
fn infers_tsql_from_apply_and_brackets() {
    let r = resolve(
        "SELECT TOP 10 * FROM [dbo].[t] CROSS APPLY fn(t.id) AS x",
        None,
    );
    assert_eq!(r.inferred, DialectKind::Tsql);
    assert!(r.confidence >= 70, "confidence was {}", r.confidence);
}

#[test]
fn infers_snowflake_from_qualify() {
    let r = resolve(
        "SELECT a, IFF(b > 0, 1, 0) FROM t QUALIFY ROW_NUMBER() OVER (ORDER BY a) = 1",
        None,
    );
    assert_eq!(r.inferred, DialectKind::Snowflake);
}

#[test]
fn requested_dialect_is_authoritative() {
    let r = resolve("SELECT 1", Some(DialectKind::Postgres));
    assert_eq!(r.effective, DialectKind::Postgres);
    assert_eq!(r.confidence, 100);
}

#[test]
fn plain_sql_falls_back_to_ansi_low_confidence() {
    let r = resolve("SELECT a, b FROM t WHERE a = 1", None);
    assert_eq!(r.inferred, DialectKind::Ansi);
    assert!(r.confidence <= 45);
}

#[test]
fn directive_active_compiled_dialect_drives_effective() {
    let r = resolve("-- sqlfluff:dialect:postgres\nSELECT 1", None);
    assert_eq!(r.effective, DialectKind::Postgres);
    assert_eq!(r.confidence, 100);
    assert!(matches!(
        r.directive.unwrap().status,
        DirectiveStatus::Active(DialectKind::Postgres)
    ));
}

#[test]
fn directive_accepts_both_dash_forms_and_colon_whitespace() {
    // `--sqlfluff` (no space) and whitespace around the value both work.
    assert!(matches!(
        directive("--sqlfluff:dialect:tsql\nSELECT 1")
            .unwrap()
            .status,
        DirectiveStatus::Active(DialectKind::Tsql)
    ));
    assert!(matches!(
        directive("-- sqlfluff:dialect:  mysql  \nSELECT 1")
            .unwrap()
            .status,
        DirectiveStatus::Active(DialectKind::Mysql)
    ));
}

#[test]
fn directive_recognized_but_uncompiled_is_unsupported_and_does_not_pin() {
    // `duckdb` is a real sqruff dialect but not compiled into this build.
    let r = resolve("-- sqlfluff:dialect:duckdb\nSELECT 1", None);
    assert_eq!(
        r.directive.as_ref().unwrap().status,
        DirectiveStatus::Unsupported
    );
    // Falls back to inference, NOT confidence 100.
    assert_eq!(r.effective, r.inferred);
    assert_ne!(r.confidence, 100);
}

#[test]
fn directive_unknown_name_is_unknown_and_falls_back() {
    let r = resolve("-- sqlfluff:dialect:nope\nSELECT 1", None);
    assert_eq!(
        r.directive.as_ref().unwrap().status,
        DirectiveStatus::Unknown
    );
    assert_eq!(r.effective, r.inferred);
    assert_ne!(r.confidence, 100);
}

#[test]
fn directive_is_case_sensitive_like_sqlfluff() {
    // SQLFluff dialect names are case-sensitive; `Postgres` is unknown.
    let r = resolve("-- sqlfluff:dialect:Postgres\nSELECT 1", None);
    assert_eq!(r.directive.unwrap().status, DirectiveStatus::Unknown);
}

#[test]
fn directive_last_one_wins() {
    let r = resolve(
        "-- sqlfluff:dialect:mysql\n-- sqlfluff:dialect:postgres\nSELECT 1",
        None,
    );
    assert_eq!(r.effective, DialectKind::Postgres);
}

#[test]
fn directive_ignores_block_comments_and_hash_comments() {
    assert!(directive("/* sqlfluff:dialect:postgres */\nSELECT 1").is_none());
    assert!(directive("# sqlfluff:dialect:postgres\nSELECT 1").is_none());
}

#[test]
fn directive_ignores_indented_and_empty_and_keyless_forms() {
    // Indented directive: SQLFluff gates on the raw (un-trimmed) line.
    assert!(directive("    -- sqlfluff:dialect:postgres\nSELECT 1").is_none());
    // Empty value is treated as no directive, not unknown-dialect "".
    assert!(directive("-- sqlfluff:dialect:\nSELECT 1").is_none());
    // Missing the value colon entirely.
    assert!(directive("-- sqlfluff:dialect\nSELECT 1").is_none());
    // A non-dialect sqlfluff key is not a dialect directive.
    assert!(directive("-- sqlfluff:rules:LT01\nSELECT 1").is_none());
}

#[test]
fn directive_multi_segment_key_is_not_a_dialect_set() {
    // SQLFluff parses `dialect:postgres:x` into the two-segment key path
    // ("dialect","postgres") with value "x" — NOT a dialect set. mehen must
    // treat it as absent (no spurious `unknown` warning), not pin/reject.
    assert!(directive("-- sqlfluff:dialect:postgres:x\nSELECT 1").is_none());
    // The degenerate double-trailing-colon is likewise absent, not a
    // directive named ":".
    assert!(directive("-- sqlfluff:dialect::\nSELECT 1").is_none());
}

#[test]
fn requested_uncompiled_dialect_is_not_authoritative() {
    // A caller request for an uncompiled dialect must not report confidence
    // 100 while parsing silently falls back — mirror the directive gate.
    // (`Databricks` is recognized by sqruff but not compiled into mehen.)
    let r = resolve("SELECT 1", Some(DialectKind::Databricks));
    assert_ne!(r.effective, DialectKind::Databricks);
    assert_ne!(r.confidence, 100);
    // A compiled request stays authoritative.
    let ok = resolve("SELECT 1", Some(DialectKind::Postgres));
    assert_eq!(ok.effective, DialectKind::Postgres);
    assert_eq!(ok.confidence, 100);
}

#[test]
fn unsupported_directive_falls_through_to_compiled_request_authoritatively() {
    // An unsupported directive (`duckdb`) falling through to a *compiled*
    // caller request must keep confidence 100 — authority is recomputed
    // from the final effective source, not cleared on the first fallback.
    let r = resolve(
        "-- sqlfluff:dialect:duckdb\nSELECT 1",
        Some(DialectKind::Postgres),
    );
    assert_eq!(r.effective, DialectKind::Postgres);
    assert_eq!(r.confidence, 100);
    assert_eq!(r.directive.unwrap().status, DirectiveStatus::Unsupported);
}

#[test]
fn directive_trailing_content_is_part_of_the_value_and_unknown() {
    // SQLFluff does NOT strip a trailing inline comment; the value becomes
    // `postgres -- x`, which is not a known dialect.
    let r = resolve("-- sqlfluff:dialect:postgres -- x\nSELECT 1", None);
    assert_eq!(r.directive.unwrap().status, DirectiveStatus::Unknown);
}

#[test]
fn directive_handles_crlf_and_leading_bom() {
    // CRLF: `.lines()` strips the trailing `\r`, so the value is clean.
    let r = resolve("-- sqlfluff:dialect:postgres\r\nSELECT 1\r\n", None);
    assert_eq!(r.effective, DialectKind::Postgres);
    // UTF-8 BOM on the first line must not block the prefix gate.
    let r = resolve("\u{feff}-- sqlfluff:dialect:sqlite\nSELECT 1", None);
    assert_eq!(r.effective, DialectKind::Sqlite);
}

#[test]
fn directive_every_recognized_name_round_trips_via_from_str() {
    // Each compiled dialect's snake_case label is a valid directive value
    // that resolves to Active(kind) — guards the from_str/label contract.
    for (name, kind) in [
        ("ansi", DialectKind::Ansi),
        ("postgres", DialectKind::Postgres),
        ("tsql", DialectKind::Tsql),
        ("snowflake", DialectKind::Snowflake),
        ("bigquery", DialectKind::Bigquery),
        ("mysql", DialectKind::Mysql),
        ("sqlite", DialectKind::Sqlite),
        ("oracle", DialectKind::Oracle),
        ("clickhouse", DialectKind::Clickhouse),
        ("redshift", DialectKind::Redshift),
        ("sparksql", DialectKind::Sparksql),
        ("athena", DialectKind::Athena),
        ("db2", DialectKind::Db2),
    ] {
        let src = format!("-- sqlfluff:dialect:{name}\nSELECT 1");
        let r = resolve(&src, None);
        assert_eq!(
            r.directive.unwrap().status,
            DirectiveStatus::Active(kind),
            "name {name} should be active {kind:?}",
        );
    }
}
