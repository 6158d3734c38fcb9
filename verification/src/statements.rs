//! Top-level statements and their kinds.

use vstd::prelude::*;

use crate::kind::{Kind, KindSet};
use crate::measure::of_kind;
use crate::span::{LineIndex, Lines, SourceSpan};
use crate::text::{begins_with, starts_with, to_upper, trim_start, trimmed_start, upper};
use crate::tree::{
    all_in, apart, children, code_children, crawl, is_keyword, kept, lemma_crawl, lemma_kept_apart,
    lemma_kept_step, lemma_outermost_apart, lemma_siblings, lemma_take_all, raw_word, Node, Probe,
    Tree, MAX_NODES,
};
use crate::word::Word;

verus! {

/// The kind of a statement.
#[derive(Clone, Copy, Debug, PartialEq, Eq, Structural)]
pub enum StatementKind {
    Select,
    WithSelect,
    Insert,
    Update,
    Delete,
    Merge,
    CreateView,
    CreateTable,
    CreateTableAsSelect,
    CreateOther,
    AlterTable,
    Drop,
    Truncate,
    Grant,
    Revoke,
    TransactionControl,
    Explain,
    Procedural,
    /// Blocks and scripting statements, which run when the file is applied.
    AnonymousBlock,
    SetOperation,
    Unknown,
}

impl StatementKind {
    /// The public label of the kind.
    pub open spec fn spelled(self) -> Seq<char> {
        match self {
            StatementKind::Select => "select"@,
            StatementKind::WithSelect => "with_select"@,
            StatementKind::Insert => "insert"@,
            StatementKind::Update => "update"@,
            StatementKind::Delete => "delete"@,
            StatementKind::Merge => "merge"@,
            StatementKind::CreateView => "create_view"@,
            StatementKind::CreateTable => "create_table"@,
            StatementKind::CreateTableAsSelect => "create_table_as"@,
            StatementKind::CreateOther => "create_other"@,
            StatementKind::AlterTable => "alter_table"@,
            StatementKind::Drop => "drop"@,
            StatementKind::Truncate => "truncate"@,
            StatementKind::Grant => "grant"@,
            StatementKind::Revoke => "revoke"@,
            StatementKind::TransactionControl => "transaction_control"@,
            StatementKind::Explain => "explain"@,
            StatementKind::Procedural => "procedural"@,
            StatementKind::AnonymousBlock => "anonymous_block"@,
            StatementKind::SetOperation => "set_operation"@,
            StatementKind::Unknown => "unknown"@,
        }
    }

    /// The public label of the kind.
    pub fn label(self) -> (r: &'static str)
        ensures
            r@ == self.spelled(),
    {
        match self {
            StatementKind::Select => "select",
            StatementKind::WithSelect => "with_select",
            StatementKind::Insert => "insert",
            StatementKind::Update => "update",
            StatementKind::Delete => "delete",
            StatementKind::Merge => "merge",
            StatementKind::CreateView => "create_view",
            StatementKind::CreateTable => "create_table",
            StatementKind::CreateTableAsSelect => "create_table_as",
            StatementKind::CreateOther => "create_other",
            StatementKind::AlterTable => "alter_table",
            StatementKind::Drop => "drop",
            StatementKind::Truncate => "truncate",
            StatementKind::Grant => "grant",
            StatementKind::Revoke => "revoke",
            StatementKind::TransactionControl => "transaction_control",
            StatementKind::Explain => "explain",
            StatementKind::Procedural => "procedural",
            StatementKind::AnonymousBlock => "anonymous_block",
            StatementKind::SetOperation => "set_operation",
            StatementKind::Unknown => "unknown",
        }
    }
}

/// One statement: its kind and its place.
#[derive(Clone, Copy, Debug, PartialEq, Eq, Structural)]
pub struct StatementFacts {
    pub kind: StatementKind,
    pub start_line: u32,
    pub end_line: u32,
    pub start_byte: u32,
    pub end_byte: u32,
}

/// The span of a statement.
pub open spec fn span_of_statement(s: StatementFacts) -> SourceSpan {
    SourceSpan {
        start_byte: s.start_byte,
        end_byte: s.end_byte,
        start_line: s.start_line,
        end_line: s.end_line,
    }
}

/// The span of a statement.
pub fn statement_span(s: &StatementFacts) -> (r: SourceSpan)
    ensures
        r == span_of_statement(*s),
{
    SourceSpan {
        start_byte: s.start_byte,
        end_byte: s.end_byte,
        start_line: s.start_line,
        end_line: s.end_line,
    }
}

// ── scripting brackets ─────────────────────────────────────────────────

/// A transaction statement that is nothing else than a bracket.
#[derive(Clone, Copy, Debug, PartialEq, Eq, Structural)]
pub enum ScriptingBracket {
    Begin,
    End,
}

/// The bracket that a transaction statement is by its only keyword.
pub open spec fn node_bracket(n: Seq<Node>, i: int) -> Option<ScriptingBracket> {
    let words = kept(children(n, i), of_kind(n, Kind::Keyword));
    if words.len() == 1 && raw_word(n, words[0] as int) == Word::Begin {
        Some(ScriptingBracket::Begin)
    } else if words.len() == 1 && raw_word(n, words[0] as int) == Word::End {
        Some(ScriptingBracket::End)
    } else {
        None
    }
}

/// The bracket that a statement is, by its first child that carries code.
pub open spec fn statement_bracket(n: Seq<Node>, stmt: int) -> Option<ScriptingBracket> {
    let code = code_children(n, stmt);
    if code.len() > 0 && KindSet::Transactions.holds(n[code[0] as int].kind) {
        node_bracket(n, code[0] as int)
    } else {
        None
    }
}

/// Whether a statement is nothing else than `GO`.
pub open spec fn is_go(n: Seq<Node>, stmt: int) -> bool {
    let code = code_children(n, stmt);
    code.len() == 1 && is_keyword(n, code[0] as int, Word::Go)
}

pub open spec fn counts_as_statement(n: Seq<Node>, bigquery: bool) -> spec_fn(usize) -> bool {
    |s: usize| !bigquery || statement_bracket(n, s as int) != Some(ScriptingBracket::End)
}

/// The outermost statements of a file. A closing bracket of BigQuery
/// scripting is no statement.
pub open spec fn statements_of(n: Seq<Node>, root: int, bigquery: bool) -> Seq<usize> {
    kept(
        crawl(
            n,
            root,
            Probe {
                set: KindSet::Only(Kind::Statement),
                deep: false,
                stop: KindSet::Empty,
                own: true,
            },
        ),
        counts_as_statement(n, bigquery),
    )
}

// ── blocks ─────────────────────────────────────────────────────────────

/// How a statement is an anonymous block.
#[derive(Clone, Copy, Debug, PartialEq, Eq, Structural)]
pub enum AnonymousBlockShape {
    /// A block with a node kind of its own.
    TypedBlock,
    /// A control statement with a node kind of its own.
    TypedControl,
    /// A statement led by a control keyword.
    KeywordLed,
}

/// Whether a statement holds a node of a set outside brackets and outside
/// routine definitions.
pub open spec fn holds_kind(n: Seq<Node>, stmt: int, set: KindSet) -> bool {
    crawl(
        n,
        stmt,
        Probe { set, deep: true, stop: KindSet::BlockBoundaries, own: false },
    ).len() > 0
}

/// The words after a leading `BEGIN` that make it transaction control.
pub open spec fn names_transaction(w: Word) -> bool {
    w == Word::Transaction || w == Word::Tran || w == Word::Work || w == Word::Dialog || w
        == Word::Distributed
}

/// Whether a statement is led by a control keyword.
pub open spec fn keyword_led(n: Seq<Node>, stmt: int) -> bool {
    let code = code_children(n, stmt);
    &&& code.len() > 0
    &&& n[code[0] as int].kind == Kind::Keyword
    &&& {
        ||| raw_word(n, code[0] as int) == Word::If
        ||| raw_word(n, code[0] as int) == Word::While
        ||| raw_word(n, code[0] as int) == Word::Begin && !(code.len() > 1 && names_transaction(
            raw_word(n, code[1] as int),
        ))
    }
}

/// How a statement is an anonymous block, if it is one.
pub open spec fn block_shape(n: Seq<Node>, stmt: int) -> Option<AnonymousBlockShape> {
    if holds_kind(n, stmt, KindSet::TypedBlocks) {
        Some(AnonymousBlockShape::TypedBlock)
    } else if holds_kind(n, stmt, KindSet::TypedControls) {
        Some(AnonymousBlockShape::TypedControl)
    } else if keyword_led(n, stmt) {
        Some(AnonymousBlockShape::KeywordLed)
    } else {
        None
    }
}

// ── kinds ──────────────────────────────────────────────────────────────

/// Whether a statement holds a node of a set.
pub open spec fn has_any(n: Seq<Node>, stmt: int, set: KindSet) -> bool {
    all_in(n, stmt, set).len() > 0
}

/// The queries of a statement outside brackets.
pub open spec fn query_bodies(n: Seq<Node>, stmt: int) -> Seq<usize> {
    crawl(
        n,
        stmt,
        Probe {
            set: KindSet::QueryBodies,
            deep: true,
            stop: KindSet::Only(Kind::Bracketed),
            own: false,
        },
    )
}

/// The kind of a statement's outermost query.
pub open spec fn query_kind(n: Seq<Node>, stmt: int) -> StatementKind {
    let bodies = query_bodies(n, stmt);
    if bodies.len() == 0 {
        StatementKind::Unknown
    } else if n[bodies[0] as int].kind == Kind::WithCompoundStatement {
        StatementKind::WithSelect
    } else if n[bodies[0] as int].kind == Kind::SetExpression {
        StatementKind::SetOperation
    } else {
        StatementKind::Select
    }
}

/// The kind of a statement that is neither a block nor a definition.
pub open spec fn plain_kind(n: Seq<Node>, stmt: int, bigquery: bool) -> StatementKind {
    if has_any(n, stmt, KindSet::Only(Kind::MergeStatement)) {
        StatementKind::Merge
    } else if has_any(n, stmt, KindSet::Inserts) {
        StatementKind::Insert
    } else if has_any(n, stmt, KindSet::Updates) {
        StatementKind::Update
    } else if has_any(n, stmt, KindSet::Deletes) {
        StatementKind::Delete
    } else if has_any(n, stmt, KindSet::Only(Kind::TruncateStatement)) {
        StatementKind::Truncate
    } else if has_any(n, stmt, KindSet::AlterTables) {
        StatementKind::AlterTable
    } else if has_any(n, stmt, KindSet::CreateTables) {
        if has_any(n, stmt, KindSet::Only(Kind::SelectStatement)) || has_any(
            n,
            stmt,
            KindSet::Only(Kind::WithCompoundStatement),
        ) {
            StatementKind::CreateTableAsSelect
        } else {
            StatementKind::CreateTable
        }
    } else if has_any(n, stmt, KindSet::CreateViews) {
        StatementKind::CreateView
    } else if starts_with(upper(trim_start(n[stmt].raw)), "CREATE"@) {
        StatementKind::CreateOther
    } else if has_any(n, stmt, KindSet::Drops) {
        StatementKind::Drop
    } else if has_any(n, stmt, KindSet::Only(Kind::AccessStatement)) {
        if starts_with(trim_start(upper(n[stmt].raw)), "REVOKE"@) {
            StatementKind::Revoke
        } else {
            StatementKind::Grant
        }
    } else if has_any(n, stmt, KindSet::Transactions) && !(bigquery && statement_bracket(n, stmt)
        is Some) {
        StatementKind::TransactionControl
    } else if has_any(n, stmt, KindSet::Only(Kind::ExplainStatement)) {
        StatementKind::Explain
    } else {
        query_kind(n, stmt)
    }
}

/// The kind of a statement on its own.
pub open spec fn statement_kind(n: Seq<Node>, stmt: int, bigquery: bool) -> StatementKind {
    if block_shape(n, stmt) is Some || (bigquery && statement_bracket(n, stmt) == Some(
        ScriptingBracket::Begin,
    )) {
        StatementKind::AnonymousBlock
    } else if has_any(n, stmt, KindSet::Definitions) {
        StatementKind::Procedural
    } else {
        plain_kind(n, stmt, bigquery)
    }
}

/// Whether a byte range lies inside a unit without being all of it.
pub open spec fn owned(units: Seq<(u32, u32)>, range: (u32, u32)) -> bool {
    exists|k: int| 0 <= k < units.len() && owns(#[trigger] units[k], range)
}

pub open spec fn owns(unit: (u32, u32), range: (u32, u32)) -> bool {
    unit.0 <= range.0 && range.1 <= unit.1 && unit != range
}

/// The byte range of a node, `(0, 0)` where it has none.
pub open spec fn range_of(n: Seq<Node>, i: int) -> (u32, u32) {
    match n[i].span {
        Some(range) => range,
        None => (0, 0),
    }
}

/// The dialects whose statement rules differ.
#[derive(Clone, Copy, Debug, PartialEq, Eq, Structural)]
pub struct StatementRules {
    /// A routine's body lasts until the next `GO`.
    pub batches: bool,
    /// Scripting brackets are parsed as transaction statements.
    pub brackets: bool,
}

/// A statement in the context of the one before it, and whether the next one
/// can continue a routine.
pub open spec fn classify_next(
    n: Seq<Node>,
    lines: Lines,
    rules: StatementRules,
    units: Seq<(u32, u32)>,
    stmt: int,
    after_routine: bool,
) -> (StatementFacts, bool) {
    let range = range_of(n, stmt);
    let alone = statement_kind(n, stmt, rules.brackets);
    let contained = alone != StatementKind::Procedural && owned(units, range);
    let kind = if contained {
        StatementKind::Procedural
    } else {
        alone
    };
    let go = kind == StatementKind::Unknown && is_go(n, stmt);
    let continues = after_routine && !go && kind != StatementKind::Procedural && (rules.batches || (
    kind == StatementKind::AnonymousBlock && (block_shape(n, stmt) == Some(
        AnonymousBlockShape::KeywordLed,
    ) || block_shape(n, stmt) == Some(AnonymousBlockShape::TypedControl))));
    let last = if continues {
        StatementKind::Procedural
    } else {
        kind
    };
    (
        StatementFacts {
            kind: last,
            start_line: lines.line(range.0),
            end_line: lines.last_line(range.1),
            start_byte: range.0,
            end_byte: range.1,
        },
        if go {
            false
        } else if last == StatementKind::Procedural {
            if contained {
                after_routine
            } else {
                true
            }
        } else if last == StatementKind::Unknown {
            after_routine
        } else {
            false
        },
    )
}

/// The first `k` statements, each in the context of the one before it.
pub open spec fn classified(
    n: Seq<Node>,
    lines: Lines,
    rules: StatementRules,
    units: Seq<(u32, u32)>,
    s: Seq<usize>,
    k: int,
) -> (Seq<StatementFacts>, bool)
    decreases k,
{
    if k <= 0 {
        (Seq::empty(), false)
    } else {
        let (facts, after) = classified(n, lines, rules, units, s, k - 1);
        let (next, then_after) = classify_next(n, lines, rules, units, s[k - 1] as int, after);
        (facts.push(next), then_after)
    }
}

/// The statements of a file.
pub open spec fn statement_facts(
    n: Seq<Node>,
    lines: Lines,
    rules: StatementRules,
    units: Seq<(u32, u32)>,
    root: int,
) -> Seq<StatementFacts> {
    let s = statements_of(n, root, rules.brackets);
    classified(n, lines, rules, units, s, s.len() as int).0
}

// ── execution ──────────────────────────────────────────────────────────

/// The bracket that a transaction statement is by its only keyword.
pub fn transaction_node_bracket(tree: &Tree, i: usize) -> (r: Option<ScriptingBracket>)
    requires
        tree.wf(),
        tree.holds(i),
    ensures
        r == node_bracket(tree@, i as int),
{
    let ghost n = tree@;
    let ghost p = of_kind(n, Kind::Keyword);
    let kids = tree.children(i);
    proof {
        lemma_siblings(n, i + 1, n[i as int].end as int);
        lemma_take_all(kids@);
    }
    let mut words: Vec<usize> = Vec::new();
    let mut k: usize = 0;
    while k < kids.len()
        invariant
            n == tree@,
            p == of_kind(n, Kind::Keyword),
            k <= kids@.len(),
            forall|l: int| 0 <= l < kids@.len() ==> (#[trigger] kids@[l]) < n.len(),
            words@ == kept(kids@.take(k as int), p),
            forall|l: int| 0 <= l < words@.len() ==> (#[trigger] words@[l]) < n.len(),
        decreases kids@.len() - k,
    {
        proof {
            lemma_kept_step(kids@, k as int, p);
        }
        if tree.kind_at(kids[k]) == Kind::Keyword {
            words.push(kids[k]);
        }
        k = k + 1;
    }
    if words.len() == 1 {
        match tree.word(words[0]) {
            Word::Begin => Some(ScriptingBracket::Begin),
            Word::End => Some(ScriptingBracket::End),
            _ => None,
        }
    } else {
        None
    }
}

/// The bracket that a statement is, by its first child that carries code.
pub fn bare_scripting_bracket(tree: &Tree, stmt: usize) -> (r: Option<ScriptingBracket>)
    requires
        tree.wf(),
        tree.holds(stmt),
    ensures
        r == statement_bracket(tree@, stmt as int),
{
    let code = tree.code_children(stmt);
    proof {
        lemma_siblings(tree@, stmt + 1, tree@[stmt as int].end as int);
    }
    if code.len() > 0 && KindSet::Transactions.has(tree.kind_at(code[0])) {
        transaction_node_bracket(tree, code[0])
    } else {
        None
    }
}

/// Whether a statement is nothing else than `GO`.
pub fn is_go_separator(tree: &Tree, stmt: usize) -> (r: bool)
    requires
        tree.wf(),
        tree.holds(stmt),
    ensures
        r == is_go(tree@, stmt as int),
{
    let code = tree.code_children(stmt);
    proof {
        lemma_siblings(tree@, stmt + 1, tree@[stmt as int].end as int);
    }
    code.len() == 1 && tree.keyword(code[0], Word::Go)
}

/// The outermost statements of a file.
pub fn top_level_statements(tree: &Tree, root: usize, bigquery: bool) -> (r: Vec<usize>)
    requires
        tree.wf(),
        tree.holds(root),
    ensures
        r@ == statements_of(tree@, root as int, bigquery),
        apart(tree@, r@),
        r@.len() <= MAX_NODES,
        forall|k: int| 0 <= k < r@.len() ==> (#[trigger] r@[k]) < tree@.len(),
{
    let ghost n = tree@;
    let ghost p = counts_as_statement(n, bigquery);
    let probe = Probe {
        set: KindSet::Only(Kind::Statement),
        deep: false,
        stop: KindSet::Empty,
        own: true,
    };
    let all = tree.crawl(root, probe);
    proof {
        lemma_crawl(n, root as int, probe);
        lemma_take_all(all@);
    }
    let mut out: Vec<usize> = Vec::new();
    let mut k: usize = 0;
    while k < all.len()
        invariant
            tree.wf(),
            n == tree@,
            p == counts_as_statement(n, bigquery),
            k <= all@.len() <= MAX_NODES,
            forall|l: int| 0 <= l < all@.len() ==> (#[trigger] all@[l]) < n.len(),
            out@ == kept(all@.take(k as int), p),
            out@.len() <= k,
            forall|l: int| 0 <= l < out@.len() ==> (#[trigger] out@[l]) < n.len(),
        decreases all@.len() - k,
    {
        proof {
            lemma_kept_step(all@, k as int, p);
        }
        let closer = bigquery && match bare_scripting_bracket(tree, all[k]) {
            Some(ScriptingBracket::End) => true,
            _ => false,
        };
        if !closer {
            out.push(all[k]);
        }
        k = k + 1;
    }
    proof {
        lemma_outermost_apart(n, root as int, probe);
        lemma_kept_apart(n, all@, p);
    }
    out
}

/// Whether a statement holds a node of a set outside brackets and outside
/// routine definitions.
fn contains_kind(tree: &Tree, stmt: usize, set: KindSet) -> (r: bool)
    requires
        tree.wf(),
        tree.holds(stmt),
    ensures
        r == holds_kind(tree@, stmt as int, set),
{
    let found = tree.crawl(
        stmt,
        Probe { set, deep: true, stop: KindSet::BlockBoundaries, own: false },
    );
    found.len() > 0
}

/// How a statement is an anonymous block, if it is one.
pub fn anonymous_block_shape(tree: &Tree, stmt: usize) -> (r: Option<AnonymousBlockShape>)
    requires
        tree.wf(),
        tree.holds(stmt),
    ensures
        r == block_shape(tree@, stmt as int),
{
    if contains_kind(tree, stmt, KindSet::TypedBlocks) {
        return Some(AnonymousBlockShape::TypedBlock);
    }
    if contains_kind(tree, stmt, KindSet::TypedControls) {
        return Some(AnonymousBlockShape::TypedControl);
    }
    let code = tree.code_children(stmt);
    proof {
        lemma_siblings(tree@, stmt + 1, tree@[stmt as int].end as int);
    }
    if code.len() == 0 || tree.kind_at(code[0]) != Kind::Keyword {
        return None;
    }
    match tree.word(code[0]) {
        Word::If | Word::While => Some(AnonymousBlockShape::KeywordLed),
        Word::Begin => {
            let transaction = code.len() > 1 && matches!(
                tree.word(code[1]),
                Word::Transaction | Word::Tran | Word::Work | Word::Dialog | Word::Distributed
            );
            if transaction {
                None
            } else {
                Some(AnonymousBlockShape::KeywordLed)
            }
        },
        _ => None,
    }
}

/// Whether a statement holds a node of a set.
fn holds_any(tree: &Tree, stmt: usize, set: KindSet) -> (r: bool)
    requires
        tree.wf(),
        tree.holds(stmt),
    ensures
        r == has_any(tree@, stmt as int, set),
{
    let found = tree.all_in(stmt, set);
    found.len() > 0
}

/// The kind of a statement's outermost query.
fn top_level_query_kind(tree: &Tree, stmt: usize) -> (r: StatementKind)
    requires
        tree.wf(),
        tree.holds(stmt),
    ensures
        r == query_kind(tree@, stmt as int),
{
    let p = Probe {
        set: KindSet::QueryBodies,
        deep: true,
        stop: KindSet::Only(Kind::Bracketed),
        own: false,
    };
    let bodies = tree.crawl(stmt, p);
    proof {
        lemma_crawl(tree@, stmt as int, p);
    }
    if bodies.len() == 0 {
        StatementKind::Unknown
    } else {
        match tree.kind_at(bodies[0]) {
            Kind::WithCompoundStatement => StatementKind::WithSelect,
            Kind::SetExpression => StatementKind::SetOperation,
            _ => StatementKind::Select,
        }
    }
}

/// The kind of a statement that is neither a block nor a definition.
fn classify_plain(tree: &Tree, stmt: usize, bigquery: bool) -> (r: StatementKind)
    requires
        tree.wf(),
        tree.holds(stmt),
    ensures
        r == plain_kind(tree@, stmt as int, bigquery),
{
    if holds_any(tree, stmt, KindSet::Only(Kind::MergeStatement)) {
        return StatementKind::Merge;
    }
    if holds_any(tree, stmt, KindSet::Inserts) {
        return StatementKind::Insert;
    }
    if holds_any(tree, stmt, KindSet::Updates) {
        return StatementKind::Update;
    }
    if holds_any(tree, stmt, KindSet::Deletes) {
        return StatementKind::Delete;
    }
    if holds_any(tree, stmt, KindSet::Only(Kind::TruncateStatement)) {
        return StatementKind::Truncate;
    }
    if holds_any(tree, stmt, KindSet::AlterTables) {
        return StatementKind::AlterTable;
    }
    if holds_any(tree, stmt, KindSet::CreateTables) {
        if holds_any(tree, stmt, KindSet::Only(Kind::SelectStatement)) || holds_any(
            tree,
            stmt,
            KindSet::Only(Kind::WithCompoundStatement),
        ) {
            return StatementKind::CreateTableAsSelect;
        }
        return StatementKind::CreateTable;
    }
    if holds_any(tree, stmt, KindSet::CreateViews) {
        return StatementKind::CreateView;
    }
    let start = trimmed_start(tree.raw_at(stmt));
    let start_up = to_upper(&start);
    if begins_with(&start_up, "CREATE") {
        return StatementKind::CreateOther;
    }
    if holds_any(tree, stmt, KindSet::Drops) {
        return StatementKind::Drop;
    }
    if holds_any(tree, stmt, KindSet::Only(Kind::AccessStatement)) {
        let up = to_upper(tree.raw_at(stmt));
        let lead = trimmed_start(&up);
        if begins_with(&lead, "REVOKE") {
            return StatementKind::Revoke;
        }
        return StatementKind::Grant;
    }
    if holds_any(tree, stmt, KindSet::Transactions) && !(bigquery && bare_scripting_bracket(
        tree,
        stmt,
    ).is_some()) {
        return StatementKind::TransactionControl;
    }
    if holds_any(tree, stmt, KindSet::Only(Kind::ExplainStatement)) {
        return StatementKind::Explain;
    }
    top_level_query_kind(tree, stmt)
}

/// The kind of a statement on its own.
pub fn classify_statement(tree: &Tree, stmt: usize, bigquery: bool) -> (r: StatementKind)
    requires
        tree.wf(),
        tree.holds(stmt),
    ensures
        r == statement_kind(tree@, stmt as int, bigquery),
{
    if anonymous_block_shape(tree, stmt).is_some() {
        return StatementKind::AnonymousBlock;
    }
    if bigquery {
        match bare_scripting_bracket(tree, stmt) {
            Some(ScriptingBracket::Begin) => {
                return StatementKind::AnonymousBlock;
            },
            _ => {},
        }
    }
    if holds_any(tree, stmt, KindSet::Definitions) {
        return StatementKind::Procedural;
    }
    classify_plain(tree, stmt, bigquery)
}

/// Whether a byte range lies inside a unit without being all of it.
pub fn is_owned(units: &Vec<(u32, u32)>, range: (u32, u32)) -> (r: bool)
    ensures
        r == owned(units@, range),
{
    let mut k: usize = 0;
    while k < units.len()
        invariant
            k <= units@.len(),
            forall|l: int| 0 <= l < k ==> !owns(#[trigger] units@[l], range),
        decreases units@.len() - k,
    {
        let (s, e) = units[k];
        if s <= range.0 && range.1 <= e && !(s == range.0 && e == range.1) {
            assert(owns(units@[k as int], range));
            return true;
        }
        k = k + 1;
    }
    false
}

/// The statements of a file.
pub fn classify_statements(
    tree: &Tree,
    lines: &LineIndex,
    rules: StatementRules,
    units: &Vec<(u32, u32)>,
    root: usize,
) -> (r: Vec<StatementFacts>)
    requires
        tree.wf(),
        lines@.wf(),
        tree.holds(root),
    ensures
        r@ == statement_facts(tree@, lines@, rules, units@, root as int),
        r@.len() == statements_of(tree@, root as int, rules.brackets).len(),
{
    let ghost n = tree@;
    let statements = top_level_statements(tree, root, rules.brackets);
    let mut out: Vec<StatementFacts> = Vec::new();
    let mut after_routine = false;
    let mut k: usize = 0;
    while k < statements.len()
        invariant
            tree.wf(),
            lines@.wf(),
            n == tree@,
            k <= statements@.len(),
            forall|l: int| 0 <= l < statements@.len() ==> (#[trigger] statements@[l]) < n.len(),
            (out@, after_routine) == classified(n, lines@, rules, units@, statements@, k as int),
            out@.len() == k,
        decreases statements@.len() - k,
    {
        let stmt: usize = statements[k];
        let range: (u32, u32) = match tree.span_at(stmt) {
            Some(span) => span,
            None => (0, 0),
        };
        let mut kind = classify_statement(tree, stmt, rules.brackets);
        let contained = kind != StatementKind::Procedural && is_owned(units, range);
        if contained {
            kind = StatementKind::Procedural;
        }
        let go = kind == StatementKind::Unknown && is_go_separator(tree, stmt);
        if after_routine && !go && kind != StatementKind::Procedural {
            let continues = rules.batches || (kind == StatementKind::AnonymousBlock
                && match anonymous_block_shape(tree, stmt) {
                Some(AnonymousBlockShape::KeywordLed) => true,
                Some(AnonymousBlockShape::TypedControl) => true,
                _ => false,
            });
            if continues {
                kind = StatementKind::Procedural;
            }
        }
        after_routine = if go {
            false
        } else {
            match kind {
                StatementKind::Procedural => !contained || after_routine,
                StatementKind::Unknown => after_routine,
                _ => false,
            }
        };
        out.push(
            StatementFacts {
                kind,
                start_line: lines.line_at(range.0),
                end_line: lines.last_line_at(range.1),
                start_byte: range.0,
                end_byte: range.1,
            },
        );
        k = k + 1;
    }
    out
}

} // verus!
