//! What a file does to database objects when it is applied: the statements
//! that change something, the objects they touch, and how risky that is.

use vstd::prelude::*;

use crate::ctes::{ref_name, shadowed};
use crate::kind::{Kind, KindSet};
use crate::names::own_level;
use crate::order::rank;
use crate::span::{empty_span, Lines, SourceSpan};
use crate::statements::{node_bracket, span_of_statement, StatementFacts, StatementKind};
use crate::tree::{all_in, belongs, crawl, is_code_leaf, kept, raw_word, trimmed_word, Node, Probe};
use crate::word::Word;

verus! {

// ── vocabulary ─────────────────────────────────────────────────────────

/// A factor of the change-risk score.
#[derive(Clone, Copy, Debug, PartialEq, Eq, Structural)]
pub enum ChangeRiskFactor {
    Drop,
    Truncate,
    Alter,
    DeleteWithoutWhere,
    UpdateWithoutWhere,
    GrantRevoke,
    DynamicSql,
    Merge,
    CreateOrReplace,
    TransactionControl,
    WriteObject,
    ReadObject,
}

impl ChangeRiskFactor {
    /// What one occurrence adds to the score.
    pub open spec fn weight(self) -> u64 {
        match self {
            ChangeRiskFactor::Drop => 8,
            ChangeRiskFactor::Truncate => 8,
            ChangeRiskFactor::Alter => 6,
            ChangeRiskFactor::DeleteWithoutWhere => 6,
            ChangeRiskFactor::UpdateWithoutWhere => 6,
            ChangeRiskFactor::GrantRevoke => 5,
            ChangeRiskFactor::DynamicSql => 5,
            ChangeRiskFactor::Merge => 4,
            ChangeRiskFactor::CreateOrReplace => 4,
            ChangeRiskFactor::TransactionControl => 3,
            ChangeRiskFactor::WriteObject => 2,
            ChangeRiskFactor::ReadObject => 1,
        }
    }

    /// What one occurrence adds to the score.
    pub fn amount(self) -> (r: u64)
        ensures
            r == self.weight(),
            r <= 8,
    {
        match self {
            ChangeRiskFactor::Drop | ChangeRiskFactor::Truncate => 8,
            ChangeRiskFactor::Alter
            | ChangeRiskFactor::DeleteWithoutWhere
            | ChangeRiskFactor::UpdateWithoutWhere => 6,
            ChangeRiskFactor::GrantRevoke | ChangeRiskFactor::DynamicSql => 5,
            ChangeRiskFactor::Merge | ChangeRiskFactor::CreateOrReplace => 4,
            ChangeRiskFactor::TransactionControl => 3,
            ChangeRiskFactor::WriteObject => 2,
            ChangeRiskFactor::ReadObject => 1,
        }
    }

    /// The public code of the factor.
    pub open spec fn spelled(self) -> Seq<char> {
        match self {
            ChangeRiskFactor::Drop => "sql.change_risk.drop"@,
            ChangeRiskFactor::Truncate => "sql.change_risk.truncate"@,
            ChangeRiskFactor::Alter => "sql.change_risk.alter"@,
            ChangeRiskFactor::DeleteWithoutWhere => "sql.change_risk.delete_without_where"@,
            ChangeRiskFactor::UpdateWithoutWhere => "sql.change_risk.update_without_where"@,
            ChangeRiskFactor::GrantRevoke => "sql.change_risk.grant_revoke"@,
            ChangeRiskFactor::DynamicSql => "sql.change_risk.dynamic_sql"@,
            ChangeRiskFactor::Merge => "sql.change_risk.merge"@,
            ChangeRiskFactor::CreateOrReplace => "sql.change_risk.create_or_replace"@,
            ChangeRiskFactor::TransactionControl => "sql.change_risk.transaction_control"@,
            ChangeRiskFactor::WriteObject => "sql.change_risk.write_object"@,
            ChangeRiskFactor::ReadObject => "sql.change_risk.read_object"@,
        }
    }

    /// The public code of the factor.
    pub fn reason(self) -> (r: &'static str)
        ensures
            r@ == self.spelled(),
    {
        match self {
            ChangeRiskFactor::Drop => "sql.change_risk.drop",
            ChangeRiskFactor::Truncate => "sql.change_risk.truncate",
            ChangeRiskFactor::Alter => "sql.change_risk.alter",
            ChangeRiskFactor::DeleteWithoutWhere => "sql.change_risk.delete_without_where",
            ChangeRiskFactor::UpdateWithoutWhere => "sql.change_risk.update_without_where",
            ChangeRiskFactor::GrantRevoke => "sql.change_risk.grant_revoke",
            ChangeRiskFactor::DynamicSql => "sql.change_risk.dynamic_sql",
            ChangeRiskFactor::Merge => "sql.change_risk.merge",
            ChangeRiskFactor::CreateOrReplace => "sql.change_risk.create_or_replace",
            ChangeRiskFactor::TransactionControl => "sql.change_risk.transaction_control",
            ChangeRiskFactor::WriteObject => "sql.change_risk.write_object",
            ChangeRiskFactor::ReadObject => "sql.change_risk.read_object",
        }
    }
}

/// One term of the change-risk score, with its place.
#[derive(Clone, Copy, Debug, PartialEq, Eq, Structural)]
pub struct ChangeRiskEvidence {
    pub span: SourceSpan,
    pub factor: ChangeRiskFactor,
}

/// Something that a file does to a database object.
#[derive(Clone, Copy, Debug, PartialEq, Eq, Structural)]
pub enum Change {
    Insert,
    Update,
    Delete,
    Merge,
    Create,
    Alter,
    Drop,
    Truncate,
    GrantRevoke,
    TransactionControl,
    UpdateWithoutWhere,
    DeleteWithoutWhere,
    Returning,
    CreateOrReplace,
    WriteObject,
    ReadObject,
}

impl Change {
    /// The risk factor that a change is, if it is one.
    pub open spec fn risk(self) -> Option<ChangeRiskFactor> {
        match self {
            Change::Merge => Some(ChangeRiskFactor::Merge),
            Change::Alter => Some(ChangeRiskFactor::Alter),
            Change::Drop => Some(ChangeRiskFactor::Drop),
            Change::Truncate => Some(ChangeRiskFactor::Truncate),
            Change::GrantRevoke => Some(ChangeRiskFactor::GrantRevoke),
            Change::TransactionControl => Some(ChangeRiskFactor::TransactionControl),
            Change::UpdateWithoutWhere => Some(ChangeRiskFactor::UpdateWithoutWhere),
            Change::DeleteWithoutWhere => Some(ChangeRiskFactor::DeleteWithoutWhere),
            Change::CreateOrReplace => Some(ChangeRiskFactor::CreateOrReplace),
            Change::WriteObject => Some(ChangeRiskFactor::WriteObject),
            Change::ReadObject => Some(ChangeRiskFactor::ReadObject),
            _ => None,
        }
    }

    /// The risk factor that a change is, if it is one.
    pub fn factor(self) -> (r: Option<ChangeRiskFactor>)
        ensures
            r == self.risk(),
    {
        match self {
            Change::Merge => Some(ChangeRiskFactor::Merge),
            Change::Alter => Some(ChangeRiskFactor::Alter),
            Change::Drop => Some(ChangeRiskFactor::Drop),
            Change::Truncate => Some(ChangeRiskFactor::Truncate),
            Change::GrantRevoke => Some(ChangeRiskFactor::GrantRevoke),
            Change::TransactionControl => Some(ChangeRiskFactor::TransactionControl),
            Change::UpdateWithoutWhere => Some(ChangeRiskFactor::UpdateWithoutWhere),
            Change::DeleteWithoutWhere => Some(ChangeRiskFactor::DeleteWithoutWhere),
            Change::CreateOrReplace => Some(ChangeRiskFactor::CreateOrReplace),
            Change::WriteObject => Some(ChangeRiskFactor::WriteObject),
            Change::ReadObject => Some(ChangeRiskFactor::ReadObject),
            _ => None,
        }
    }
}

/// One change with its place.
#[derive(Clone, Copy, Debug, PartialEq, Eq, Structural)]
pub struct ObjectEvent {
    pub change: Change,
    pub span: SourceSpan,
}

/// Object changes and touches.
#[derive(Clone, Copy, Debug, PartialEq, Eq, Structural)]
pub struct ObjectFacts {
    pub insert_count: u64,
    pub update_count: u64,
    pub delete_count: u64,
    pub merge_count: u64,
    pub update_without_where_count: u64,
    pub delete_without_where_count: u64,
    pub create_count: u64,
    pub alter_count: u64,
    pub drop_count: u64,
    pub truncate_count: u64,
    pub create_or_replace_count: u64,
    pub grant_revoke_count: u64,
    pub transaction_control_count: u64,
    pub returning_count: u64,
    pub write_object_count: u64,
    pub read_object_count: u64,
    pub touch_count: u128,
}

// ── places ─────────────────────────────────────────────────────────────

/// The span of a node, where it has a position.
pub open spec fn placed_span(n: Seq<Node>, lines: Lines, i: int) -> Option<SourceSpan> {
    match n[i].span {
        Some(range) => Some(lines.span(range)),
        None => None,
    }
}

pub open spec fn span_or(s: Option<SourceSpan>, fallback: SourceSpan) -> SourceSpan {
    match s {
        Some(span) => span,
        None => fallback,
    }
}

/// The same change at each of the first `k` nodes.
pub open spec fn events_at(
    n: Seq<Node>,
    lines: Lines,
    fallback: SourceSpan,
    change: Change,
    s: Seq<usize>,
    k: int,
) -> Seq<ObjectEvent>
    decreases k,
{
    if k <= 0 {
        Seq::empty()
    } else {
        events_at(n, lines, fallback, change, s, k - 1).push(
            ObjectEvent {
                change,
                span: span_or(placed_span(n, lines, s[k - 1] as int), fallback),
            },
        )
    }
}

/// The same change at each of the nodes.
pub open spec fn events(
    n: Seq<Node>,
    lines: Lines,
    fallback: SourceSpan,
    change: Change,
    s: Seq<usize>,
) -> Seq<ObjectEvent> {
    events_at(n, lines, fallback, change, s, s.len() as int)
}

// ── statements ─────────────────────────────────────────────────────────

/// The change that a statement of a kind is.
pub open spec fn kind_change(kind: StatementKind) -> Option<Change> {
    match kind {
        StatementKind::Insert => Some(Change::Insert),
        StatementKind::Update => Some(Change::Update),
        StatementKind::Delete => Some(Change::Delete),
        StatementKind::Merge => Some(Change::Merge),
        StatementKind::CreateTable => Some(Change::Create),
        StatementKind::CreateTableAsSelect => Some(Change::Create),
        StatementKind::CreateView => Some(Change::Create),
        StatementKind::CreateOther => Some(Change::Create),
        StatementKind::AlterTable => Some(Change::Alter),
        StatementKind::Drop => Some(Change::Drop),
        StatementKind::Truncate => Some(Change::Truncate),
        StatementKind::Grant => Some(Change::GrantRevoke),
        StatementKind::Revoke => Some(Change::GrantRevoke),
        StatementKind::TransactionControl => Some(Change::TransactionControl),
        _ => None,
    }
}

/// The changes that the first `k` statements are by their kinds.
pub open spec fn statement_events(facts: Seq<StatementFacts>, k: int) -> Seq<ObjectEvent>
    decreases k,
{
    if k <= 0 {
        Seq::empty()
    } else {
        match kind_change(facts[k - 1].kind) {
            Some(change) => statement_events(facts, k - 1).push(
                ObjectEvent { change, span: span_of_statement(facts[k - 1]) },
            ),
            None => statement_events(facts, k - 1),
        }
    }
}

// ── blocks ─────────────────────────────────────────────────────────────

/// The outermost statements of a set in a block, those of routines defined in
/// it left out.
pub open spec fn in_block(n: Seq<Node>, block: int, set: KindSet) -> Seq<usize> {
    crawl(n, block, Probe { set, deep: false, stop: KindSet::Definitions, own: false })
}

pub open spec fn controls_transaction(n: Seq<Node>) -> spec_fn(usize) -> bool {
    |i: usize| node_bracket(n, i as int) is None
}

/// The kinds of statements that change something in a block, in the order in
/// which they are looked for.
pub open spec fn block_search(step: int) -> (KindSet, Change) {
    if step == 0 {
        (KindSet::Inserts, Change::Insert)
    } else if step == 1 {
        (KindSet::Updates, Change::Update)
    } else if step == 2 {
        (KindSet::Deletes, Change::Delete)
    } else if step == 3 {
        (KindSet::CreateTables, Change::Create)
    } else if step == 4 {
        (KindSet::CreateViews, Change::Create)
    } else if step == 5 {
        (KindSet::CreateOthers, Change::Create)
    } else if step == 6 {
        (KindSet::Only(Kind::MergeStatement), Change::Merge)
    } else if step == 7 {
        (KindSet::Drops, Change::Drop)
    } else if step == 8 {
        (KindSet::Only(Kind::TruncateStatement), Change::Truncate)
    } else if step == 9 {
        (KindSet::AlterTables, Change::Alter)
    } else {
        (KindSet::Only(Kind::AccessStatement), Change::GrantRevoke)
    }
}

/// The changes that a block makes, by the first `steps` searches.
pub open spec fn block_events_by(n: Seq<Node>, lines: Lines, block: int, steps: int) -> Seq<
    ObjectEvent,
>
    decreases steps,
{
    if steps <= 0 {
        Seq::empty()
    } else {
        let (set, change) = block_search(steps - 1);
        block_events_by(n, lines, block, steps - 1) + events(
            n,
            lines,
            empty_span(),
            change,
            in_block(n, block, set),
        )
    }
}

/// The changes that a block makes. Scripting brackets are no transaction
/// control.
pub open spec fn block_events(n: Seq<Node>, lines: Lines, block: int) -> Seq<ObjectEvent> {
    block_events_by(n, lines, block, 11) + events(
        n,
        lines,
        empty_span(),
        Change::TransactionControl,
        kept(in_block(n, block, KindSet::Transactions), controls_transaction(n)),
    )
}

/// The changes that the blocks among the first `k` statements make.
pub open spec fn blocks_events(
    n: Seq<Node>,
    lines: Lines,
    s: Seq<usize>,
    facts: Seq<StatementFacts>,
    k: int,
) -> Seq<ObjectEvent>
    decreases k,
{
    if k <= 0 {
        Seq::empty()
    } else if facts[k - 1].kind == StatementKind::AnonymousBlock {
        blocks_events(n, lines, s, facts, k - 1) + block_events(n, lines, s[k - 1] as int)
    } else {
        blocks_events(n, lines, s, facts, k - 1)
    }
}

// ── touched objects ────────────────────────────────────────────────────

/// Objects by name, in ascending order, each with the place where it is named
/// first.
#[verifier::ext_equal]
pub struct Objects {
    pub names: Seq<Seq<char>>,
    pub spans: Seq<Option<SourceSpan>>,
}

pub open spec fn no_objects() -> Objects {
    Objects { names: Seq::empty(), spans: Seq::empty() }
}

/// The earlier of two places.
pub open spec fn earlier(a: Option<SourceSpan>, b: Option<SourceSpan>) -> Option<SourceSpan> {
    match (a, b) {
        (None, Some(_)) => b,
        (Some(x), Some(y)) => if y.start_byte < x.start_byte {
            b
        } else {
            a
        },
        _ => a,
    }
}

impl Objects {
    /// The objects with one more occurrence.
    pub open spec fn noted(self, name: Seq<char>, span: Option<SourceSpan>) -> Objects {
        let at = rank(self.names, name);
        if self.names.contains(name) {
            Objects { spans: self.spans.update(at, earlier(self.spans[at], span)), ..self }
        } else {
            Objects {
                names: self.names.insert(at, name),
                spans: self.spans.insert(at, span),
            }
        }
    }
}

/// What is known of the touched objects.
#[verifier::ext_equal]
pub struct Touched {
    pub read: Objects,
    pub write: Objects,
    /// The references that are targets of the statement at hand.
    pub targets: Seq<usize>,
}

/// Whether a reference is to a common table expression of the statement.
pub open spec fn is_local(n: Seq<Node>, stmt: int, r: int) -> bool {
    belongs(KindSet::TableReferences, n[r].kind) && shadowed(n, stmt, r)
}

/// The references of a write statement, those in nested queries left out.
pub open spec fn target_refs(n: Seq<Node>, ws: int) -> Seq<usize> {
    crawl(
        n,
        ws,
        Probe {
            set: if KindSet::OracleDrops.holds(n[ws].kind) {
                KindSet::DropTargets
            } else {
                KindSet::Targets
            },
            deep: false,
            stop: KindSet::Only(Kind::SelectStatement),
            own: true,
        },
    )
}

/// What is known after the first `k` references of a write statement: its
/// targets are written, its other references read.
pub open spec fn after_refs(
    n: Seq<Node>,
    lines: Lines,
    stmt: int,
    ws: int,
    t: Touched,
    k: int,
) -> Touched
    decreases k,
{
    if k <= 0 {
        t
    } else {
        let t = after_refs(n, lines, stmt, ws, t, k - 1);
        let r = target_refs(n, ws)[k - 1];
        let name = ref_name(n, r as int);
        let span = placed_span(n, lines, r as int);
        if is_local(n, stmt, r as int) {
            t
        } else if k == 1 || !KindSet::FirstTargetOnly.holds(n[ws].kind) {
            Touched { write: t.write.noted(name, span), targets: t.targets.push(r), ..t }
        } else {
            Touched { read: t.read.noted(name, span), ..t }
        }
    }
}

/// The write statements of a statement.
pub open spec fn write_statements(n: Seq<Node>, stmt: int) -> Seq<usize> {
    crawl(
        n,
        stmt,
        Probe { set: KindSet::Writes, deep: true, stop: KindSet::Definitions, own: true },
    )
}

/// What is known after the first `k` write statements.
pub open spec fn after_writes(n: Seq<Node>, lines: Lines, stmt: int, t: Touched, k: int) -> Touched
    decreases k,
{
    if k <= 0 {
        t
    } else {
        let ws = write_statements(n, stmt)[k - 1] as int;
        after_refs(
            n,
            lines,
            stmt,
            ws,
            after_writes(n, lines, stmt, t, k - 1),
            target_refs(n, ws).len() as int,
        )
    }
}

/// The `FROM` elements of a statement.
pub open spec fn from_elements(n: Seq<Node>, stmt: int) -> Seq<usize> {
    crawl(
        n,
        stmt,
        Probe {
            set: KindSet::Only(Kind::FromExpressionElement),
            deep: true,
            stop: KindSet::Definitions,
            own: true,
        },
    )
}

/// What is known after the first `k` references of a `FROM` element: they are
/// read unless they are targets.
pub open spec fn after_reads(
    n: Seq<Node>,
    lines: Lines,
    stmt: int,
    elem: int,
    t: Touched,
    k: int,
) -> Touched
    decreases k,
{
    if k <= 0 {
        t
    } else {
        let t = after_reads(n, lines, stmt, elem, t, k - 1);
        let r = all_in(n, elem, KindSet::TableReferences)[k - 1];
        if is_local(n, stmt, r as int) || t.targets.contains(r) {
            t
        } else {
            Touched {
                read: t.read.noted(ref_name(n, r as int), placed_span(n, lines, r as int)),
                ..t
            }
        }
    }
}

/// What is known after the first `k` `FROM` elements.
pub open spec fn after_elements(n: Seq<Node>, lines: Lines, stmt: int, t: Touched, k: int) -> Touched
    decreases k,
{
    if k <= 0 {
        t
    } else {
        let elem = from_elements(n, stmt)[k - 1] as int;
        after_reads(
            n,
            lines,
            stmt,
            elem,
            after_elements(n, lines, stmt, t, k - 1),
            all_in(n, elem, KindSet::TableReferences).len() as int,
        )
    }
}

/// What is known after a statement.
pub open spec fn touched_by(n: Seq<Node>, lines: Lines, stmt: int, t: Touched) -> Touched {
    let fresh = Touched { targets: Seq::empty(), ..t };
    let written = after_writes(n, lines, stmt, fresh, write_statements(n, stmt).len() as int);
    after_elements(n, lines, stmt, written, from_elements(n, stmt).len() as int)
}

/// What is known after the first `k` statements. Routines touch their objects
/// only when they are called.
pub open spec fn touched(
    n: Seq<Node>,
    lines: Lines,
    s: Seq<usize>,
    facts: Seq<StatementFacts>,
    k: int,
) -> Touched
    decreases k,
{
    if k <= 0 {
        Touched { read: no_objects(), write: no_objects(), targets: Seq::empty() }
    } else {
        let t = touched(n, lines, s, facts, k - 1);
        if facts[k - 1].kind == StatementKind::Procedural {
            t
        } else {
            touched_by(n, lines, s[k - 1] as int, t)
        }
    }
}

/// The same change at each of the first `k` objects.
pub open spec fn object_events(change: Change, o: Objects, fallback: SourceSpan, k: int) -> Seq<
    ObjectEvent,
>
    decreases k,
{
    if k <= 0 {
        Seq::empty()
    } else {
        object_events(change, o, fallback, k - 1).push(
            ObjectEvent { change, span: span_or(o.spans[k - 1], fallback) },
        )
    }
}

// ── missing WHERE ──────────────────────────────────────────────────────

/// Whether a statement lacks a `WHERE` of its own.
pub open spec fn lacks_where(n: Seq<Node>) -> spec_fn(usize) -> bool {
    |i: usize| own_level(n, i as int, KindSet::Only(Kind::WhereClause)).len() == 0
}

/// The statements of a set that lack a `WHERE`.
pub open spec fn unfiltered(n: Seq<Node>, stmt: int, set: KindSet) -> Seq<usize> {
    kept(
        crawl(n, stmt, Probe { set, deep: true, stop: KindSet::Definitions, own: true }),
        lacks_where(n),
    )
}

/// The missing `WHERE` clauses of the first `k` statements.
pub open spec fn unfiltered_events(
    n: Seq<Node>,
    lines: Lines,
    fallback: SourceSpan,
    s: Seq<usize>,
    facts: Seq<StatementFacts>,
    k: int,
) -> Seq<ObjectEvent>
    decreases k,
{
    if k <= 0 {
        Seq::empty()
    } else {
        let before = unfiltered_events(n, lines, fallback, s, facts, k - 1);
        let stmt = s[k - 1] as int;
        if facts[k - 1].kind == StatementKind::Procedural {
            before
        } else {
            before + events(
                n,
                lines,
                fallback,
                Change::UpdateWithoutWhere,
                unfiltered(n, stmt, KindSet::Updates),
            ) + events(
                n,
                lines,
                fallback,
                Change::DeleteWithoutWhere,
                unfiltered(n, stmt, KindSet::Deletes),
            )
        }
    }
}

// ── CREATE OR REPLACE ──────────────────────────────────────────────────

/// The code leaves at positions `lo..hi`.
pub open spec fn code_leaves(n: Seq<Node>, lo: int, hi: int) -> Seq<usize>
    decreases hi - lo,
{
    if hi <= lo {
        Seq::empty()
    } else if is_code_leaf(n, hi - 1) {
        code_leaves(n, lo, hi - 1).push((hi - 1) as usize)
    } else {
        code_leaves(n, lo, hi - 1)
    }
}

/// Whether `CREATE OR REPLACE` starts at the leaf in place `j`.
pub open spec fn replaces(n: Seq<Node>, leaf: Seq<usize>, j: int) -> bool {
    &&& trimmed_word(n, leaf[j] as int) == Word::Create
    &&& trimmed_word(n, leaf[j + 1] as int) == Word::Or
    &&& trimmed_word(n, leaf[j + 2] as int) == Word::Replace
}

/// The span from one leaf to another.
pub open spec fn joined_span(
    n: Seq<Node>,
    lines: Lines,
    fallback: SourceSpan,
    a: int,
    b: int,
) -> SourceSpan {
    match (placed_span(n, lines, a), placed_span(n, lines, b)) {
        (Some(x), Some(y)) => SourceSpan {
            start_byte: x.start_byte,
            end_byte: y.end_byte,
            start_line: x.start_line,
            end_line: y.end_line,
        },
        _ => fallback,
    }
}

/// The replacements that start at one of the first `k` leaves.
pub open spec fn replace_events(
    n: Seq<Node>,
    lines: Lines,
    fallback: SourceSpan,
    leaf: Seq<usize>,
    k: int,
) -> Seq<ObjectEvent>
    decreases k,
{
    if k <= 0 {
        Seq::empty()
    } else if k + 1 < leaf.len() && replaces(n, leaf, k - 1) {
        replace_events(n, lines, fallback, leaf, k - 1).push(
            ObjectEvent {
                change: Change::CreateOrReplace,
                span: joined_span(n, lines, fallback, leaf[k - 1] as int, leaf[k + 1] as int),
            },
        )
    } else {
        replace_events(n, lines, fallback, leaf, k - 1)
    }
}

// ── RETURNING ──────────────────────────────────────────────────────────

pub open spec fn keyword_spelled(n: Seq<Node>, w: Word) -> spec_fn(usize) -> bool {
    |i: usize| raw_word(n, i as int) == w
}

/// The keywords with the given text in a subtree.
pub open spec fn keywords_in(n: Seq<Node>, i: int, w: Word) -> Seq<usize> {
    kept(all_in(n, i, KindSet::Only(Kind::Keyword)), keyword_spelled(n, w))
}

/// The statements of a statement that can return the rows they change.
pub open spec fn dml_in(n: Seq<Node>, stmt: int) -> Seq<usize> {
    crawl(
        n,
        stmt,
        Probe { set: KindSet::Dml, deep: true, stop: KindSet::Definitions, own: true },
    )
}

/// The result clauses of the first `k` listed statements.
pub open spec fn returning_in(
    n: Seq<Node>,
    lines: Lines,
    fallback: SourceSpan,
    dml: Seq<usize>,
    k: int,
) -> Seq<ObjectEvent>
    decreases k,
{
    if k <= 0 {
        Seq::empty()
    } else {
        let d = dml[k - 1] as int;
        returning_in(n, lines, fallback, dml, k - 1) + events(
            n,
            lines,
            fallback,
            Change::Returning,
            keywords_in(n, d, Word::Returning),
        ) + events(n, lines, fallback, Change::Returning, keywords_in(n, d, Word::Output))
    }
}

/// The result clauses of the first `k` statements.
pub open spec fn returning_events(
    n: Seq<Node>,
    lines: Lines,
    fallback: SourceSpan,
    s: Seq<usize>,
    facts: Seq<StatementFacts>,
    k: int,
) -> Seq<ObjectEvent>
    decreases k,
{
    if k <= 0 {
        Seq::empty()
    } else {
        let before = returning_events(n, lines, fallback, s, facts, k - 1);
        let dml = dml_in(n, s[k - 1] as int);
        if facts[k - 1].kind == StatementKind::Procedural {
            before
        } else {
            before + returning_in(n, lines, fallback, dml, dml.len() as int)
        }
    }
}

// ── the file ───────────────────────────────────────────────────────────

/// Everything that a file does to database objects.
pub open spec fn object_log(
    n: Seq<Node>,
    lines: Lines,
    root: int,
    s: Seq<usize>,
    facts: Seq<StatementFacts>,
) -> Seq<ObjectEvent> {
    let k = facts.len() as int;
    let fallback = span_or(placed_span(n, lines, root), empty_span());
    let t = touched(n, lines, s, facts, k);
    let leaf = code_leaves(n, root, n[root].end as int);
    statement_events(facts, k) + blocks_events(n, lines, s, facts, k) + object_events(
        Change::WriteObject,
        t.write,
        fallback,
        t.write.names.len() as int,
    ) + object_events(Change::ReadObject, t.read, fallback, t.read.names.len() as int)
        + unfiltered_events(n, lines, fallback, s, facts, k) + replace_events(
        n,
        lines,
        fallback,
        leaf,
        leaf.len() as int,
    ) + returning_events(n, lines, fallback, s, facts, k)
}

/// How often a change occurs.
pub open spec fn tally(log: Seq<ObjectEvent>, change: Change) -> int
    decreases log.len(),
{
    if log.len() == 0 {
        0
    } else {
        tally(log.drop_last(), change) + if log.last().change == change {
            1int
        } else {
            0int
        }
    }
}

/// The terms of the change-risk score.
pub open spec fn risks(log: Seq<ObjectEvent>) -> Seq<ChangeRiskEvidence>
    decreases log.len(),
{
    if log.len() == 0 {
        Seq::empty()
    } else {
        match log.last().change.risk() {
            Some(factor) => risks(log.drop_last()).push(
                ChangeRiskEvidence { span: log.last().span, factor },
            ),
            None => risks(log.drop_last()),
        }
    }
}

/// The objects that are read or written.
pub open spec fn touched_names(t: Touched) -> Set<Seq<char>> {
    t.read.names.to_set() + t.write.names.to_set()
}

/// Whether object facts are those of a file: every count is the number of its
/// events.
pub open spec fn describes_objects(
    n: Seq<Node>,
    lines: Lines,
    root: int,
    s: Seq<usize>,
    facts: Seq<StatementFacts>,
    r: ObjectFacts,
) -> bool {
    let log = object_log(n, lines, root, s, facts);
    let t = touched(n, lines, s, facts, facts.len() as int);
    &&& r.insert_count == tally(log, Change::Insert)
    &&& r.update_count == tally(log, Change::Update)
    &&& r.delete_count == tally(log, Change::Delete)
    &&& r.merge_count == tally(log, Change::Merge)
    &&& r.update_without_where_count == tally(log, Change::UpdateWithoutWhere)
    &&& r.delete_without_where_count == tally(log, Change::DeleteWithoutWhere)
    &&& r.create_count == tally(log, Change::Create)
    &&& r.alter_count == tally(log, Change::Alter)
    &&& r.drop_count == tally(log, Change::Drop)
    &&& r.truncate_count == tally(log, Change::Truncate)
    &&& r.create_or_replace_count == tally(log, Change::CreateOrReplace)
    &&& r.grant_revoke_count == tally(log, Change::GrantRevoke)
    &&& r.transaction_control_count == tally(log, Change::TransactionControl)
    &&& r.returning_count == tally(log, Change::Returning)
    &&& r.write_object_count == t.write.names.len()
    &&& r.read_object_count == t.read.names.len()
    &&& r.touch_count == touched_names(t).len()
}

} // verus!
