# mehen_sql

SQL metrics with proofs. `SqlAnalyzer::analyze` takes the text of a `.sql` file,
settles its dialect, parses it with sqruff, and returns

- the `sql.*` metrics of the file, as exact values,
- its spaces: one for each statement and one for each routine, nested,
- the contributions to its metrics, in source order, each with its reason,
- diagnostics.

Every contract is checked by Verus. A metric's value is stated over the syntax
tree; `evidence.rs` proves that what is reported for a metric adds up to it,
`placement.rs` that it lies in the text, and
`answers.rs` that the same text has the same answer and that asking for evidence
changes no metric.

## Layout

- `src/` is the verified library. `lib.rs` lists its modules.
- `tests/` runs the library, with the real parser.
- `app/` is a command-line program around it: file access, the code generator
  for parser crates, and floating-point arithmetic.

## What is not proved

These items call code outside the library and are trusted:

| item | calls |
| --- | --- |
| `grammar::recognized` | sqruff's `DialectKind::from_str` |
| `grammar::grammar_of` | sqruff's `kind_to_dialect` |
| `grammar::missing_words` | sqruff's `Dialect::validation_errors` |
| `grammar::add_keyword` | sqruff's `Dialect::add` |
| `grammar::parse_with` | sqruff's lexer and parser |
| `contribution_report::look_up` | `serde_json` |
| `text::string_of` | `String: FromIterator<char>` |
| `units::alphanumeric` | `char::is_alphanumeric` |

Some of sqruff's grammars refer to rules that they do not have, and its parser
stops the program when it comes to one. `grammar::parse` adds a keyword for each
of them first.

What the parser returns for a text has a name, `grammar::parse_of`: its rows are
one tree and lie in the text, and all contracts are relative to it.
