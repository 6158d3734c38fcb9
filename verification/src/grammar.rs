//! The SQL dialects, the grammars of this build, and the parser behind them.

use std::str::FromStr;

use sqruff_lib_core::dialects::init::DialectKind as GrammarKind;
use sqruff_lib_core::dialects::syntax::SyntaxKind;
use sqruff_lib_core::dialects::Dialect;
use sqruff_lib_core::helpers::ToMatchable;
use sqruff_lib_core::parser::parsers::StringParser;
use sqruff_lib_core::parser::segments::Tables;
use sqruff_lib_core::parser::Parser;
use sqruff_lib_dialects::kind_to_dialect;
use vstd::prelude::*;

use crate::diagnostics::texts_of;
use crate::rows::{is_one_tree, lie_in, seen_rows, Row, RowView};
use crate::text::{chars_of, is_text, offset, same};

verus! {

/// A dialect that the parser knows by name.
#[derive(Clone, Copy, Debug, PartialEq, Eq, Structural)]
pub enum DialectKind {
    Ansi,
    Athena,
    Bigquery,
    Clickhouse,
    Databricks,
    Db2,
    Duckdb,
    Exasol,
    Greenplum,
    Hive,
    Materialize,
    Mysql,
    Oracle,
    Postgres,
    Redshift,
    Snowflake,
    Sparksql,
    Sqlite,
    Starrocks,
    Teradata,
    Trino,
    Tsql,
}

impl DialectKind {
    /// The name of a dialect.
    pub open spec fn spelled(self) -> Seq<char> {
        match self {
            DialectKind::Ansi => "ansi"@,
            DialectKind::Athena => "athena"@,
            DialectKind::Bigquery => "bigquery"@,
            DialectKind::Clickhouse => "clickhouse"@,
            DialectKind::Databricks => "databricks"@,
            DialectKind::Db2 => "db2"@,
            DialectKind::Duckdb => "duckdb"@,
            DialectKind::Exasol => "exasol"@,
            DialectKind::Greenplum => "greenplum"@,
            DialectKind::Hive => "hive"@,
            DialectKind::Materialize => "materialize"@,
            DialectKind::Mysql => "mysql"@,
            DialectKind::Oracle => "oracle"@,
            DialectKind::Postgres => "postgres"@,
            DialectKind::Redshift => "redshift"@,
            DialectKind::Snowflake => "snowflake"@,
            DialectKind::Sparksql => "sparksql"@,
            DialectKind::Sqlite => "sqlite"@,
            DialectKind::Starrocks => "starrocks"@,
            DialectKind::Teradata => "teradata"@,
            DialectKind::Trino => "trino"@,
            DialectKind::Tsql => "tsql"@,
        }
    }

    /// Whether the grammar of a dialect is part of this build.
    pub open spec fn is_compiled(self) -> bool {
        match self {
            DialectKind::Ansi
            | DialectKind::Athena
            | DialectKind::Bigquery
            | DialectKind::Clickhouse
            | DialectKind::Db2
            | DialectKind::Hive
            | DialectKind::Mysql
            | DialectKind::Oracle
            | DialectKind::Postgres
            | DialectKind::Redshift
            | DialectKind::Snowflake
            | DialectKind::Sparksql
            | DialectKind::Sqlite
            | DialectKind::Tsql => true,
            _ => false,
        }
    }
}

/// The dialect of a name, case and all.
pub open spec fn kind_named(name: Seq<char>) -> Option<DialectKind> {
    if name == "ansi"@ {
        Some(DialectKind::Ansi)
    } else if name == "athena"@ {
        Some(DialectKind::Athena)
    } else if name == "bigquery"@ {
        Some(DialectKind::Bigquery)
    } else if name == "clickhouse"@ {
        Some(DialectKind::Clickhouse)
    } else if name == "databricks"@ {
        Some(DialectKind::Databricks)
    } else if name == "db2"@ {
        Some(DialectKind::Db2)
    } else if name == "duckdb"@ {
        Some(DialectKind::Duckdb)
    } else if name == "exasol"@ {
        Some(DialectKind::Exasol)
    } else if name == "greenplum"@ {
        Some(DialectKind::Greenplum)
    } else if name == "hive"@ {
        Some(DialectKind::Hive)
    } else if name == "materialize"@ {
        Some(DialectKind::Materialize)
    } else if name == "mysql"@ {
        Some(DialectKind::Mysql)
    } else if name == "oracle"@ {
        Some(DialectKind::Oracle)
    } else if name == "postgres"@ {
        Some(DialectKind::Postgres)
    } else if name == "redshift"@ {
        Some(DialectKind::Redshift)
    } else if name == "snowflake"@ {
        Some(DialectKind::Snowflake)
    } else if name == "sparksql"@ {
        Some(DialectKind::Sparksql)
    } else if name == "sqlite"@ {
        Some(DialectKind::Sqlite)
    } else if name == "starrocks"@ {
        Some(DialectKind::Starrocks)
    } else if name == "teradata"@ {
        Some(DialectKind::Teradata)
    } else if name == "trino"@ {
        Some(DialectKind::Trino)
    } else if name == "tsql"@ {
        Some(DialectKind::Tsql)
    } else {
        None
    }
}

/// No two dialects share a name: a name leads back to its dialect, and a
/// dialect's name is the only one that does.
pub proof fn names_are_distinct(kind: DialectKind, name: Seq<char>)
    ensures
        kind_named(kind.spelled()) == Some(kind),
        kind_named(name) == Some(kind) <==> name == kind.spelled(),
{
    reveal_strlit("ansi");
    reveal_strlit("athena");
    reveal_strlit("bigquery");
    reveal_strlit("clickhouse");
    reveal_strlit("databricks");
    reveal_strlit("db2");
    reveal_strlit("duckdb");
    reveal_strlit("exasol");
    reveal_strlit("greenplum");
    reveal_strlit("hive");
    reveal_strlit("materialize");
    reveal_strlit("mysql");
    reveal_strlit("oracle");
    reveal_strlit("postgres");
    reveal_strlit("redshift");
    reveal_strlit("snowflake");
    reveal_strlit("sparksql");
    reveal_strlit("sqlite");
    reveal_strlit("starrocks");
    reveal_strlit("teradata");
    reveal_strlit("trino");
    reveal_strlit("tsql");
    assert("ansi"@.len() == 4);
    assert("athena"@.len() == 6);
    assert("bigquery"@.len() == 8);
    assert("clickhouse"@.len() == 10);
    assert("databricks"@.len() == 10);
    assert("db2"@.len() == 3);
    assert("duckdb"@.len() == 6);
    assert("exasol"@.len() == 6);
    assert("greenplum"@.len() == 9);
    assert("hive"@.len() == 4);
    assert("materialize"@.len() == 11);
    assert("mysql"@.len() == 5);
    assert("oracle"@.len() == 6);
    assert("postgres"@.len() == 8);
    assert("redshift"@.len() == 8);
    assert("snowflake"@.len() == 9);
    assert("sparksql"@.len() == 8);
    assert("sqlite"@.len() == 6);
    assert("starrocks"@.len() == 9);
    assert("teradata"@.len() == 8);
    assert("trino"@.len() == 5);
    assert("tsql"@.len() == 4);
    assert("ansi"@[0] != "hive"@[0]);
    assert("ansi"@[0] != "tsql"@[0]);
    assert("athena"@[0] != "duckdb"@[0]);
    assert("athena"@[0] != "exasol"@[0]);
    assert("athena"@[0] != "oracle"@[0]);
    assert("athena"@[0] != "sqlite"@[0]);
    assert("bigquery"@[0] != "postgres"@[0]);
    assert("bigquery"@[0] != "redshift"@[0]);
    assert("bigquery"@[0] != "sparksql"@[0]);
    assert("bigquery"@[0] != "teradata"@[0]);
    assert("clickhouse"@[0] != "databricks"@[0]);
    assert("duckdb"@[0] != "exasol"@[0]);
    assert("duckdb"@[0] != "oracle"@[0]);
    assert("duckdb"@[0] != "sqlite"@[0]);
    assert("exasol"@[0] != "oracle"@[0]);
    assert("exasol"@[0] != "sqlite"@[0]);
    assert("greenplum"@[0] != "snowflake"@[0]);
    assert("greenplum"@[0] != "starrocks"@[0]);
    assert("hive"@[0] != "tsql"@[0]);
    assert("mysql"@[0] != "trino"@[0]);
    assert("oracle"@[0] != "sqlite"@[0]);
    assert("postgres"@[0] != "redshift"@[0]);
    assert("postgres"@[0] != "sparksql"@[0]);
    assert("postgres"@[0] != "teradata"@[0]);
    assert("redshift"@[0] != "sparksql"@[0]);
    assert("redshift"@[0] != "teradata"@[0]);
    assert("snowflake"@[1] != "starrocks"@[1]);
    assert("sparksql"@[0] != "teradata"@[0]);
}

/// The name of a dialect.
pub fn dialect_label(kind: DialectKind) -> (r: &'static str)
    ensures
        r@ == kind.spelled(),
{
    match kind {
        DialectKind::Ansi => "ansi",
        DialectKind::Athena => "athena",
        DialectKind::Bigquery => "bigquery",
        DialectKind::Clickhouse => "clickhouse",
        DialectKind::Databricks => "databricks",
        DialectKind::Db2 => "db2",
        DialectKind::Duckdb => "duckdb",
        DialectKind::Exasol => "exasol",
        DialectKind::Greenplum => "greenplum",
        DialectKind::Hive => "hive",
        DialectKind::Materialize => "materialize",
        DialectKind::Mysql => "mysql",
        DialectKind::Oracle => "oracle",
        DialectKind::Postgres => "postgres",
        DialectKind::Redshift => "redshift",
        DialectKind::Snowflake => "snowflake",
        DialectKind::Sparksql => "sparksql",
        DialectKind::Sqlite => "sqlite",
        DialectKind::Starrocks => "starrocks",
        DialectKind::Teradata => "teradata",
        DialectKind::Trino => "trino",
        DialectKind::Tsql => "tsql",
    }
}

/// `DialectKind::from_str` of the parser: the recognized names are the
/// dialects' names in lower case, and `AsRef<str>` gives a recognized name back
/// as it was written.
#[verifier::external_body]
fn recognized(name: &str) -> (r: Option<String>)
    ensures
        r is Some <==> kind_named(name@) is Some,
        r matches Some(s) ==> s@ == name@,
{
    GrammarKind::from_str(name).ok().map(|kind| kind.as_ref().to_string())
}

/// The dialect of a name, case and all.
pub fn dialect_named(name: &str) -> (r: Option<DialectKind>)
    ensures
        r == kind_named(name@),
{
    match recognized(name) {
        None => None,
        Some(label) => {
            let s = chars_of(label.as_str());
            if is_text(&s, "ansi") {
                Some(DialectKind::Ansi)
            } else if is_text(&s, "athena") {
                Some(DialectKind::Athena)
            } else if is_text(&s, "bigquery") {
                Some(DialectKind::Bigquery)
            } else if is_text(&s, "clickhouse") {
                Some(DialectKind::Clickhouse)
            } else if is_text(&s, "databricks") {
                Some(DialectKind::Databricks)
            } else if is_text(&s, "db2") {
                Some(DialectKind::Db2)
            } else if is_text(&s, "duckdb") {
                Some(DialectKind::Duckdb)
            } else if is_text(&s, "exasol") {
                Some(DialectKind::Exasol)
            } else if is_text(&s, "greenplum") {
                Some(DialectKind::Greenplum)
            } else if is_text(&s, "hive") {
                Some(DialectKind::Hive)
            } else if is_text(&s, "materialize") {
                Some(DialectKind::Materialize)
            } else if is_text(&s, "mysql") {
                Some(DialectKind::Mysql)
            } else if is_text(&s, "oracle") {
                Some(DialectKind::Oracle)
            } else if is_text(&s, "postgres") {
                Some(DialectKind::Postgres)
            } else if is_text(&s, "redshift") {
                Some(DialectKind::Redshift)
            } else if is_text(&s, "snowflake") {
                Some(DialectKind::Snowflake)
            } else if is_text(&s, "sparksql") {
                Some(DialectKind::Sparksql)
            } else if is_text(&s, "sqlite") {
                Some(DialectKind::Sqlite)
            } else if is_text(&s, "starrocks") {
                Some(DialectKind::Starrocks)
            } else if is_text(&s, "teradata") {
                Some(DialectKind::Teradata)
            } else if is_text(&s, "trino") {
                Some(DialectKind::Trino)
            } else if is_text(&s, "tsql") {
                Some(DialectKind::Tsql)
            } else {
                None
            }
        },
    }
}

/// Whether the grammar of a dialect is part of this build.
pub fn has_grammar(kind: DialectKind) -> (r: bool)
    ensures
        r == kind.is_compiled(),
{
    proof {
        names_are_distinct(kind, kind.spelled());
    }
    grammar_of(dialect_label(kind)).is_some()
}

// ── grammars ───────────────────────────────────────────────────────────

/// The parser's grammar of a dialect: rules by name, which refer to each other
/// by name.
#[verifier::external_type_specification]
#[verifier::external_body]
pub struct ExDialect(sqruff_lib_core::dialects::Dialect);

/// The label that a grammar was made for.
pub uninterp spec fn made_for(grammar: Dialect) -> Seq<char>;

/// The names that rules of a grammar refer to and that it has no rule for, as
/// far as the rules can be reached from the one of a file.
pub uninterp spec fn missing_in(grammar: Dialect) -> Set<Seq<char>>;

/// `kind_to_dialect` of the parser's dialects: it builds the grammar of a
/// dialect exactly when that dialect is among the features that the package
/// asks for, the ones these imply, or `ansi`.
#[verifier::external_body]
fn grammar_of(label: &str) -> (r: Option<Dialect>)
    ensures
        r is Some <==> (kind_named(label@) matches Some(kind) && kind.is_compiled()),
        r matches Some(grammar) ==> made_for(grammar) == label@,
{
    GrammarKind::from_str(label).ok().and_then(|kind| kind_to_dialect(&kind, None))
}

/// `Dialect::validation_errors` and `missing_reference` of each: the names that
/// a grammar lacks a rule for, some of them more than once.
#[verifier::external_body]
fn missing_words(grammar: &Dialect) -> (r: Vec<String>)
    ensures
        texts_of(r@).to_set() == missing_in(*grammar),
{
    grammar.validation_errors().iter().map(|e| e.missing_reference().to_string()).collect()
}

/// `Dialect::add` of a `StringParser` for a keyword: the grammar has a rule for
/// the name, which refers to no other.
#[verifier::external_body]
fn add_keyword(grammar: &mut Dialect, word: &str)
    requires
        missing_in(*old(grammar)).contains(word@),
    ensures
        made_for(*final(grammar)) == made_for(*old(grammar)),
        missing_in(*final(grammar)) == missing_in(*old(grammar)).remove(word@),
{
    let rule = StringParser::new(word, SyntaxKind::Keyword).to_matchable();
    grammar.add([(word.to_string().into(), rule.into())]);
}

/// Whether one of the first `k` words is the given one.
fn occurs_before(words: &Vec<String>, k: usize, word: &Vec<char>) -> (r: bool)
    requires
        k <= words@.len(),
    ensures
        r == texts_of(words@).take(k as int).contains(word@),
{
    let ghost first = texts_of(words@).take(k as int);
    let mut i: usize = 0;
    while i < k
        invariant
            i <= k <= words@.len(),
            first == texts_of(words@).take(k as int),
            forall|j: int| 0 <= j < i ==> #[trigger] first[j] != word@,
        decreases k - i,
    {
        let other = chars_of(words[i].as_str());
        assert(first[i as int] == words@[i as int]@);
        if same(&other, word) {
            return true;
        }
        i = i + 1;
    }
    false
}

/// A grammar with a keyword for every name that it lacks a rule for, so that
/// none is missing when a text is parsed.
fn completed(grammar: Dialect) -> (r: Dialect)
    ensures
        made_for(r) == made_for(grammar),
        missing_in(r) == Set::<Seq<char>>::empty(),
{
    let mut whole = grammar;
    let words = missing_words(&whole);
    let ghost texts = texts_of(words@);
    assert(missing_in(whole) =~= texts.to_set() - texts.take(0).to_set());
    let mut k: usize = 0;
    while k < words.len()
        invariant
            k <= words@.len(),
            texts == texts_of(words@),
            made_for(whole) == made_for(grammar),
            missing_in(whole) == texts.to_set() - texts.take(k as int).to_set(),
        decreases words@.len() - k,
    {
        let word = chars_of(words[k].as_str());
        let seen = occurs_before(&words, k, &word);
        proof {
            assert(texts[k as int] == word@);
            assert(texts.to_set().contains(word@));
            assert(texts.take(k + 1) =~= texts.take(k as int).push(word@));
            assert(texts.take(k + 1).to_set() =~= texts.take(k as int).to_set().insert(word@)) by {
                let longer = texts.take(k + 1);
                let first = texts.take(k as int);
                let all = first.to_set().insert(word@);
                assert forall|x: Seq<char>| #[trigger] all.contains(x) implies longer.to_set().contains(
                    x,
                ) by {
                    if x == word@ {
                        assert(longer[k as int] == x);
                    } else {
                        let j = choose|j: int| 0 <= j < first.len() && first[j] == x;
                        assert(longer[j] == x);
                    }
                }
            }
        }
        if !seen {
            add_keyword(&mut whole, words[k].as_str());
        }
        assert(missing_in(whole) =~= texts.to_set() - texts.take(k + 1).to_set());
        k = k + 1;
    }
    assert(texts.take(k as int) =~= texts);
    assert(missing_in(whole) =~= Set::<Seq<char>>::empty());
    whole
}

// ── parsing ────────────────────────────────────────────────────────────

/// What the parser makes of a text: the lexer's complaints, and either the rows
/// of the tree, nothing when there was nothing to parse, or why it gave up.
pub struct Parsed {
    pub lex_errors: Vec<String>,
    pub tree: Result<Option<Vec<Row>>, String>,
}

/// What a parse says.
pub ghost struct ParsedView {
    pub lex_errors: Seq<Seq<char>>,
    pub tree: Result<Option<Seq<RowView>>, Seq<char>>,
}

/// What a parse says, of its two parts.
pub open spec fn seen_parts(
    lex_errors: Seq<String>,
    tree: Result<Option<Vec<Row>>, String>,
) -> ParsedView {
    ParsedView {
        lex_errors: Seq::new(lex_errors.len(), |i: int| lex_errors[i]@),
        tree: match tree {
            Ok(Some(rows)) => Ok(Some(seen_rows(rows@))),
            Ok(None) => Ok(None),
            Err(why) => Err(why@),
        },
    }
}

impl Parsed {
    pub open spec fn seen(self) -> ParsedView {
        seen_parts(self.lex_errors@, self.tree)
    }
}

/// What lexing and then parsing a text gives, with the grammar of a label that
/// has a keyword for every name it lacks a rule for.
pub uninterp spec fn parse_of(label: Seq<char>, text: Seq<char>) -> ParsedView;

/// `Lexer::lex` and `Parser::parse` with a grammar, and the tree's nodes as
/// `recursive_crawl_all` lists them: each node before its children, with their
/// number. The parser looks rules up by name, which is why none may be missing.
/// The result depends on the label and the text alone, the rows are one tree,
/// and their byte ranges lie in the text, nested as the nodes are and in order;
/// what the grammars make of a text is left unsaid.
#[verifier::external_body]
fn parse_with(grammar: &Dialect, text: &str) -> (r: (
    Vec<String>,
    Result<Option<Vec<Row>>, String>,
))
    requires
        missing_in(*grammar) == Set::<Seq<char>>::empty(),
    ensures
        seen_parts(r.0@, r.1) == parse_of(made_for(*grammar), text@),
        r.1 matches Ok(Some(rows)) ==> is_one_tree(seen_rows(rows@)) && lie_in(
            seen_rows(rows@),
            offset(text@, text@.len() as int),
        ),
{
    let tables = Tables::default();
    let (tokens, errors) = grammar.lexer().lex(&tables, text);
    let tree = Parser::from(grammar).parse(&tables, &tokens);
    (
        errors.iter().map(ToString::to_string).collect(),
        tree.map_err(|e| e.description).map(|t| Some(t?.recursive_crawl_all(false).iter().map(|s| Row {
            kind: s.get_type().as_str(),
            raw: s.raw().to_string(),
            span: s.get_position_marker().map(|m| m.source_slice.clone()),
            children: s.segments().len()
        }).collect()))
    )
}

/// Parses a text with the grammar of a dialect; `None` when this build has no
/// such grammar.
pub fn parse(kind: DialectKind, text: &str) -> (r: Option<Parsed>)
    ensures
        r is Some <==> kind.is_compiled(),
        r matches Some(p) ==> p.seen() == parse_of(kind.spelled(), text@) && (p.tree matches Ok(
            Some(rows),
        ) ==> is_one_tree(seen_rows(rows@)) && lie_in(
            seen_rows(rows@),
            offset(text@, text@.len() as int),
        )),
{
    proof {
        names_are_distinct(kind, kind.spelled());
    }
    match grammar_of(dialect_label(kind)) {
        Some(grammar) => {
            let whole = completed(grammar);
            let (lex_errors, tree) = parse_with(&whole, text);
            Some(Parsed { lex_errors, tree })
        },
        None => None,
    }
}

} // verus!
