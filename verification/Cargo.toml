[package]
name = "mehen_sql"
version = "1.0.0"
edition = "2021"
publish = false

[dependencies]
sqruff-lib-core = "=0.40.0"
sqruff-lib-dialects = { version = "=0.40.0", default-features = false, features = [
    "athena", "bigquery", "clickhouse", "db2", "mysql", "oracle", "postgres",
    "redshift", "snowflake", "sparksql", "sqlite", "tsql",
] }
serde_json = "=1.0.154"
clap = { version = "=4.6.7", features = ["derive"] }
antlr-rust-codegen = "=0.34.0"
