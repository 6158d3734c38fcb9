//! The control-flow scanner: one state machine over code tokens that measures
//! procedural SQL of every dialect.
//!
//! The scanner keeps a stack of open constructs and reports each increment of
//! a metric as one piece of evidence. What a file publishes is the sum of that
//! evidence.

use vstd::prelude::*;

use crate::span::SourceSpan;
use crate::token::{executes_variable, scalar_if, word_at, Token};
use crate::word::Word;

verus! {

/// The metric that a piece of procedural evidence adds to.
#[derive(Clone, Copy, Debug, PartialEq, Eq, Structural)]
pub enum ProceduralMetric {
    Cyclomatic,
    Cognitive,
    EmbeddedQueryMax,
    BlockCount,
    RoutineCount,
    LoopCount,
    IfCount,
    CaseStatementCount,
    ExceptionHandlerCount,
    ReturnCount,
    RaiseThrowCount,
    DynamicSqlCount,
    MaxBlockDepth,
}

/// Why a piece of procedural evidence was reported.
#[derive(Clone, Copy, Debug, PartialEq, Eq, Structural)]
pub enum Reason {
    Entry,
    If,
    Elsif,
    Else,
    Loop,
    CaseStatement,
    CaseWhen,
    ExceptionHandler,
    ConditionalExit,
    RaiseThrow,
    Goto,
    BooleanSequence,
    BooleanOperator,
    EmbeddedQuery,
    Block,
    DeepestBlock,
    Routine,
    Return,
    DynamicSql,
}

impl Reason {
    /// The public code of the reason.
    pub open spec fn spelled(self) -> Seq<char> {
        match self {
            Reason::Entry => "sql.procedural.entry"@,
            Reason::If => "sql.procedural.if"@,
            Reason::Elsif => "sql.procedural.elsif"@,
            Reason::Else => "sql.procedural.else"@,
            Reason::Loop => "sql.procedural.loop"@,
            Reason::CaseStatement => "sql.procedural.case_statement"@,
            Reason::CaseWhen => "sql.procedural.case_when"@,
            Reason::ExceptionHandler => "sql.procedural.exception_handler"@,
            Reason::ConditionalExit => "sql.procedural.conditional_exit"@,
            Reason::RaiseThrow => "sql.procedural.raise_throw"@,
            Reason::Goto => "sql.procedural.goto"@,
            Reason::BooleanSequence => "sql.procedural.boolean_sequence"@,
            Reason::BooleanOperator => "sql.procedural.boolean_operator"@,
            Reason::EmbeddedQuery => "sql.procedural.embedded_query"@,
            Reason::Block => "sql.procedural.block"@,
            Reason::DeepestBlock => "sql.procedural.deepest_block"@,
            Reason::Routine => "sql.procedural.routine"@,
            Reason::Return => "sql.procedural.return"@,
            Reason::DynamicSql => "sql.procedural.dynamic_sql"@,
        }
    }

    /// The public code of the reason.
    pub fn code(self) -> (r: &'static str)
        ensures
            r@ == self.spelled(),
    {
        match self {
            Reason::Entry => "sql.procedural.entry",
            Reason::If => "sql.procedural.if",
            Reason::Elsif => "sql.procedural.elsif",
            Reason::Else => "sql.procedural.else",
            Reason::Loop => "sql.procedural.loop",
            Reason::CaseStatement => "sql.procedural.case_statement",
            Reason::CaseWhen => "sql.procedural.case_when",
            Reason::ExceptionHandler => "sql.procedural.exception_handler",
            Reason::ConditionalExit => "sql.procedural.conditional_exit",
            Reason::RaiseThrow => "sql.procedural.raise_throw",
            Reason::Goto => "sql.procedural.goto",
            Reason::BooleanSequence => "sql.procedural.boolean_sequence",
            Reason::BooleanOperator => "sql.procedural.boolean_operator",
            Reason::EmbeddedQuery => "sql.procedural.embedded_query",
            Reason::Block => "sql.procedural.block",
            Reason::DeepestBlock => "sql.procedural.deepest_block",
            Reason::Routine => "sql.procedural.routine",
            Reason::Return => "sql.procedural.return",
            Reason::DynamicSql => "sql.procedural.dynamic_sql",
        }
    }
}

/// One increment of a procedural metric, with its place and its reason.
#[derive(Clone, Copy, Debug, PartialEq, Eq, Structural)]
pub struct ProceduralEvidence {
    pub span: SourceSpan,
    pub metric: ProceduralMetric,
    pub amount: u64,
    pub reason: Reason,
}

/// An open construct.
#[derive(Clone, Copy, Debug, PartialEq, Eq, Structural)]
pub enum Ctx {
    /// `BEGIN … END`. In its exception section every `WHEN` opens a handler;
    /// cognitive nesting starts afresh in a routine's body.
    Block { exception_section: bool, routine_body: bool },
    Try,
    Catch,
    /// An `IF`. Without `THEN` it ends with the block that is bound to it, or
    /// else at the next terminator, unless an `ELSE` follows that it can take.
    If { with_then: bool, bound: bool, else_taken: bool },
    /// A loop, from its header on. A bound loop ends with its block.
    Loop { block_bound: bool },
    /// A `CASE`, of which only the closer tells whether it was a statement.
    Case { id: u64, nesting: u64, open_span: SourceSpan },
    /// The body of one exception handler.
    Handler,
}

/// A `WHEN` arm of the case with the given identity.
#[derive(Clone, Copy, Debug, PartialEq, Eq, Structural)]
pub struct Arm {
    pub case: u64,
    pub span: SourceSpan,
}

/// A boolean operator.
#[derive(Clone, Copy, Debug, PartialEq, Eq, Structural)]
pub enum BoolOp {
    And,
    Or,
}

// ── the open constructs ────────────────────────────────────────────────

/// Whether a construct adds to cognitive nesting.
pub open spec fn is_decision(c: Ctx) -> bool {
    c is If || c is Loop || c is Case || c is Catch || c is Handler
}

/// Whether a construct is a block.
pub open spec fn is_block(c: Ctx) -> bool {
    c is Block || c is Try || c is Catch
}

/// Cognitive nesting: the decisions open inside the innermost routine body.
pub open spec fn nesting(stack: Seq<Ctx>) -> int
    decreases stack.len(),
{
    if stack.len() == 0 {
        0
    } else if stack.last() matches Ctx::Block { routine_body: true, .. } {
        0
    } else if is_decision(stack.last()) {
        1 + nesting(stack.drop_last())
    } else {
        nesting(stack.drop_last())
    }
}

/// The number of open blocks.
pub open spec fn block_depth(stack: Seq<Ctx>) -> int
    decreases stack.len(),
{
    if stack.len() == 0 {
        0
    } else {
        block_depth(stack.drop_last()) + if is_block(stack.last()) {
            1int
        } else {
            0int
        }
    }
}

/// The stack with the topmost `k` unbound loops bound.
pub open spec fn bind_loops(stack: Seq<Ctx>, k: int) -> Seq<Ctx>
    decreases stack.len(),
{
    if k <= 0 || stack.len() == 0 {
        stack
    } else if stack.last() == (Ctx::Loop { block_bound: false }) {
        bind_loops(stack.drop_last(), k - 1).push(Ctx::Loop { block_bound: true })
    } else {
        bind_loops(stack.drop_last(), k).push(stack.last())
    }
}

/// Whether a construct is complete once the block inside it is: a bound loop,
/// or an `IF` without `THEN` that no `ELSE` continues.
pub open spec fn is_completed(c: Ctx, else_next: bool) -> bool {
    match c {
        Ctx::Loop { block_bound } => block_bound,
        Ctx::If { with_then, .. } => !with_then && !else_next,
        _ => false,
    }
}

/// The stack without the completed constructs on top of it.
pub open spec fn close_owners(stack: Seq<Ctx>, else_next: bool) -> Seq<Ctx>
    decreases stack.len(),
{
    if stack.len() > 0 && is_completed(stack.last(), else_next) {
        close_owners(stack.drop_last(), else_next)
    } else {
        stack
    }
}

/// Whether a terminator completes a construct: an `IF` without `THEN` and
/// without a block, which before an `ELSE` must have had its own already.
pub open spec fn ends_at_terminator(c: Ctx, else_next: bool) -> bool {
    c matches Ctx::If { with_then, bound, else_taken } && !with_then && !bound && (else_next
        ==> else_taken)
}

/// The stack without the constructs on top of it that a terminator completes.
pub open spec fn close_ifs(stack: Seq<Ctx>, else_next: bool) -> Seq<Ctx>
    decreases stack.len(),
{
    if stack.len() > 0 && ends_at_terminator(stack.last(), else_next) {
        close_ifs(stack.drop_last(), else_next)
    } else {
        stack
    }
}

/// The constructs that a closer looks for.
#[derive(Clone, Copy, PartialEq, Eq, Structural)]
pub enum Pick {
    IfWithThen,
    OpenLoop,
    Case,
    Try,
    Catch,
    Block,
    BareEnd,
}

/// Whether a closer looks for a construct.
pub open spec fn picks(p: Pick, c: Ctx) -> bool {
    match p {
        Pick::IfWithThen => c matches Ctx::If { with_then: true, .. },
        Pick::OpenLoop => c == (Ctx::Loop { block_bound: false }),
        Pick::Case => c is Case,
        Pick::Try => c is Try,
        Pick::Catch => c is Catch,
        Pick::Block => c is Block,
        Pick::BareEnd => c is Block || c is Case || c is Try || c is Catch,
    }
}

/// The position of the topmost construct that a closer looks for, or -1.
pub open spec fn topmost(stack: Seq<Ctx>, p: Pick) -> int
    decreases stack.len(),
{
    if stack.len() == 0 {
        -1
    } else if picks(p, stack.last()) {
        stack.len() - 1
    } else {
        topmost(stack.drop_last(), p)
    }
}

/// The stack without the topmost construct that a closer looks for and
/// without everything above it.
pub open spec fn close_to(stack: Seq<Ctx>, p: Pick) -> Seq<Ctx> {
    if topmost(stack, p) < 0 {
        stack
    } else {
        stack.take(topmost(stack, p))
    }
}

/// The stack after `k` loop headers ended without a body opener.
pub open spec fn close_loops(stack: Seq<Ctx>, k: int) -> Seq<Ctx>
    decreases k,
{
    if k <= 0 {
        stack
    } else {
        close_loops(close_to(stack, Pick::OpenLoop), k - 1)
    }
}

/// The evidence of the `WHEN` arms of one case statement.
pub open spec fn arm_evidence(arms: Seq<Arm>, id: u64) -> Seq<ProceduralEvidence>
    decreases arms.len(),
{
    if arms.len() == 0 {
        Seq::empty()
    } else if arms.last().case == id {
        arm_evidence(arms.drop_last(), id).push(
            ProceduralEvidence {
                span: arms.last().span,
                metric: ProceduralMetric::Cyclomatic,
                amount: 1,
                reason: Reason::CaseWhen,
            },
        )
    } else {
        arm_evidence(arms.drop_last(), id)
    }
}

// ── the state ──────────────────────────────────────────────────────────

/// The scanner's state.
#[verifier::ext_equal]
pub struct Scan {
    pub stack: Seq<Ctx>,
    pub arms: Seq<Arm>,
    pub next_case: int,
    pub in_body: bool,
    pub pending_loops: int,
    pub pending_between: bool,
    pub pending_header: bool,
    pub pending_bodies: int,
    pub last_bool: Option<BoolOp>,
    pub evidence: Seq<ProceduralEvidence>,
    pub max_depth: int,
    pub max_depth_span: Option<SourceSpan>,
}

pub open spec fn less_one(k: int) -> int {
    if k > 0 {
        k - 1
    } else {
        0
    }
}

impl Scan {
    pub open spec fn report(
        self,
        metric: ProceduralMetric,
        span: SourceSpan,
        amount: int,
        reason: Reason,
    ) -> Scan {
        Scan {
            evidence: self.evidence.push(
                ProceduralEvidence { span, metric, amount: amount as u64, reason },
            ),
            ..self
        }
    }

    /// A raw count, a path and a cost that grows with nesting, all for one
    /// decision.
    pub open spec fn decide(self, count: ProceduralMetric, span: SourceSpan, reason: Reason) -> Scan {
        self.report(count, span, 1, reason).report(
            ProceduralMetric::Cyclomatic,
            span,
            1,
            reason,
        ).report(ProceduralMetric::Cognitive, span, 1 + nesting(self.stack), reason)
    }

    pub open spec fn open(self, c: Ctx) -> Scan {
        Scan { stack: self.stack.push(c), ..self }
    }

    pub open spec fn quiet(self) -> Scan {
        Scan { last_bool: None, ..self }
    }

    pub open spec fn note_depth(self, span: SourceSpan) -> Scan {
        if block_depth(self.stack) > self.max_depth {
            Scan { max_depth: block_depth(self.stack), max_depth_span: Some(span), ..self }
        } else {
            self
        }
    }

    /// A body opener takes the controls that wait for a body: every pending
    /// loop, or else the `IF` without `THEN` on top.
    pub open spec fn bind_owner(self) -> Scan {
        if self.pending_loops > 0 {
            Scan { stack: bind_loops(self.stack, self.pending_loops), pending_loops: 0, ..self }
        } else if self.stack.len() > 0 {
            match self.stack.last() {
                Ctx::If { with_then: false, else_taken, .. } => Scan {
                    stack: self.stack.drop_last().push(
                        Ctx::If { with_then: false, bound: true, else_taken },
                    ),
                    ..self
                },
                _ => self,
            }
        } else {
            self
        }
    }

    pub open spec fn dynamic_sql(self, span: SourceSpan) -> Scan {
        self.report(ProceduralMetric::DynamicSqlCount, span, 1, Reason::DynamicSql)
    }

    pub open spec fn end_headers(self) -> Scan {
        Scan { stack: close_loops(self.stack, self.pending_loops), pending_loops: 0, ..self }
    }

    /// `;`
    pub open spec fn terminator(self, else_next: bool) -> Scan {
        let s = if self.pending_header {
            Scan { pending_header: false, pending_bodies: less_one(self.pending_bodies), ..self }
        } else {
            self
        };
        let s = s.end_headers();
        Scan {
            stack: close_ifs(s.stack, else_next),
            pending_between: false,
            last_bool: None,
            ..s
        }
    }

    /// `IS` or `AS`
    pub open spec fn body_start(self, next: Word) -> Scan {
        Scan {
            in_body: true,
            pending_header: false,
            pending_bodies: if next == Word::Language || next == Word::External {
                less_one(self.pending_bodies)
            } else {
                self.pending_bodies
            },
            last_bool: None,
            ..self
        }
    }

    /// `FUNCTION` or `PROCEDURE`
    pub open spec fn routine_header(self, prev: Word) -> Scan {
        Scan {
            pending_bodies: if names_only(prev) {
                self.pending_bodies
            } else {
                self.pending_bodies + 1
            },
            pending_header: true,
            last_bool: None,
            ..self
        }
    }

    /// `BEGIN`
    pub open spec fn begin(self, span: SourceSpan, next: Word) -> (Scan, int) {
        let s = Scan { last_bool: None, pending_header: false, ..self };
        let body = Scan { in_body: true, ..s }.report(
            ProceduralMetric::BlockCount,
            span,
            1,
            Reason::Block,
        );
        if starts_transaction(next) {
            (s, 1)
        } else if next == Word::Try {
            (body.bind_owner().open(Ctx::Try).note_depth(span), 2)
        } else if next == Word::Catch {
            (
                body.decide(
                    ProceduralMetric::ExceptionHandlerCount,
                    span,
                    Reason::ExceptionHandler,
                ).open(Ctx::Catch).note_depth(span),
                2,
            )
        } else {
            let bound = body.bind_owner();
            (
                Scan { pending_bodies: less_one(bound.pending_bodies), ..bound }.open(
                    Ctx::Block {
                        exception_section: false,
                        routine_body: bound.pending_bodies > 0,
                    },
                ).note_depth(span),
                1,
            )
        }
    }

    /// `END CASE`: the case was a statement.
    pub open spec fn end_case(self) -> Scan {
        let at = topmost(self.stack, Pick::Case);
        if at < 0 {
            self
        } else {
            match self.stack[at] {
                Ctx::Case { id, nesting, open_span } => {
                    let s = Scan { stack: self.stack.take(at), ..self }.report(
                        ProceduralMetric::CaseStatementCount,
                        open_span,
                        1,
                        Reason::CaseStatement,
                    ).report(
                        ProceduralMetric::Cognitive,
                        open_span,
                        1 + nesting,
                        Reason::CaseStatement,
                    );
                    Scan { evidence: s.evidence + arm_evidence(self.arms, id), ..s }
                },
                _ => self,
            }
        }
    }

    /// A bare `END` closes the nearest block or case expression.
    pub open spec fn bare_end(self, next: Word) -> Scan {
        let at = topmost(self.stack, Pick::BareEnd);
        if at < 0 {
            self
        } else if self.stack[at] is Block {
            Scan { stack: close_owners(self.stack.take(at), next == Word::Else), ..self }
        } else {
            Scan { stack: self.stack.take(at), ..self }
        }
    }

    /// `END`
    pub open spec fn end(self, next: Word, after: Word) -> (Scan, int) {
        let s = self.quiet();
        if next == Word::If && topmost(s.stack, Pick::IfWithThen) >= 0 {
            (Scan { stack: close_to(s.stack, Pick::IfWithThen), ..s }, 2)
        } else if (next == Word::Loop || next == Word::While || next == Word::Repeat || next
            == Word::For) && s.stack.len() > 0 && picks(Pick::OpenLoop, s.stack.last()) {
            (Scan { stack: s.stack.drop_last(), ..s }, 2)
        } else if next == Word::Case {
            (s.end_case(), 2)
        } else if next == Word::Try && topmost(s.stack, Pick::Try) >= 0 {
            (Scan { stack: close_to(s.stack, Pick::Try), ..s }, 2)
        } else if next == Word::Catch && topmost(s.stack, Pick::Catch) >= 0 {
            (
                Scan {
                    stack: close_owners(close_to(s.stack, Pick::Catch), after == Word::Else),
                    ..s
                },
                2,
            )
        } else {
            (s.bare_end(next), 1)
        }
    }

    /// `IF`
    pub open spec fn if_word(self, t: Seq<Token>, i: int) -> Scan {
        let s = self.quiet();
        if guards_ddl(word_at(t, i - 1)) || t[i].function_name || scalar_if(t, i) {
            s
        } else {
            s.decide(ProceduralMetric::IfCount, t[i].span, Reason::If).open(
                Ctx::If { with_then: false, bound: false, else_taken: false },
            )
        }
    }

    /// `THEN`
    pub open spec fn then_word(self) -> Scan {
        let s = self.quiet();
        if s.stack.len() > 0 {
            match s.stack.last() {
                Ctx::If { bound, else_taken, .. } => Scan {
                    stack: s.stack.drop_last().push(
                        Ctx::If { with_then: true, bound, else_taken },
                    ),
                    ..s
                },
                _ => s,
            }
        } else {
            s
        }
    }

    /// `ELSIF` or `ELSEIF`
    pub open spec fn elsif(self, span: SourceSpan) -> Scan {
        self.quiet().report(ProceduralMetric::IfCount, span, 1, Reason::Elsif).report(
            ProceduralMetric::Cyclomatic,
            span,
            1,
            Reason::Elsif,
        ).report(ProceduralMetric::Cognitive, span, 1, Reason::Elsif)
    }

    /// `ELSE`
    pub open spec fn else_word(self, span: SourceSpan) -> Scan {
        let s = self.quiet();
        let s = if s.stack.len() > 0 && s.stack.last() is Case {
            s
        } else {
            s.report(ProceduralMetric::Cognitive, span, 1, Reason::Else)
        };
        if s.stack.len() > 0 {
            match s.stack.last() {
                Ctx::If { with_then: false, .. } => Scan {
                    stack: s.stack.drop_last().push(
                        Ctx::If { with_then: false, bound: false, else_taken: true },
                    ),
                    ..s
                },
                _ => s,
            }
        } else {
            s
        }
    }

    /// `CASE`
    pub open spec fn case_word(self, span: SourceSpan) -> Scan {
        Scan { next_case: self.next_case + 1, ..self.quiet() }.open(
            Ctx::Case {
                id: self.next_case as u64,
                nesting: nesting(self.stack) as u64,
                open_span: span,
            },
        )
    }

    /// `WHEN`
    pub open spec fn when_word(self, span: SourceSpan, next: Word, after: Word) -> Scan {
        let s = self.quiet();
        if next == Word::Matched || (next == Word::Not && after == Word::Matched)
            || s.stack.len() == 0 {
            s
        } else {
            match s.stack.last() {
                Ctx::Case { id, .. } => Scan { arms: s.arms.push(Arm { case: id, span }), ..s },
                Ctx::Block { exception_section: true, .. } => s.decide(
                    ProceduralMetric::ExceptionHandlerCount,
                    span,
                    Reason::ExceptionHandler,
                ).open(Ctx::Handler),
                Ctx::Handler => Scan { stack: s.stack.drop_last(), ..s }.decide(
                    ProceduralMetric::ExceptionHandlerCount,
                    span,
                    Reason::ExceptionHandler,
                ).open(Ctx::Handler),
                _ => s,
            }
        }
    }

    /// `EXCEPTION`
    pub open spec fn exception(self) -> Scan {
        let s = self.quiet();
        let at = topmost(s.stack, Pick::Block);
        if at < 0 {
            s.open(Ctx::Block { exception_section: true, routine_body: false })
        } else {
            match s.stack[at] {
                Ctx::Block { routine_body, .. } => Scan {
                    stack: s.stack.update(
                        at,
                        Ctx::Block { exception_section: true, routine_body },
                    ),
                    ..s
                },
                _ => s,
            }
        }
    }

    /// `EXIT` or `CONTINUE`
    pub open spec fn exit_word(self, span: SourceSpan, next: Word) -> (Scan, int) {
        let s = self.quiet();
        if next == Word::When {
            (
                s.report(ProceduralMetric::Cyclomatic, span, 1, Reason::ConditionalExit).report(
                    ProceduralMetric::Cognitive,
                    span,
                    1,
                    Reason::ConditionalExit,
                ),
                2,
            )
        } else {
            (s, 1)
        }
    }

    pub open spec fn count_loop(self, span: SourceSpan) -> Scan {
        self.decide(ProceduralMetric::LoopCount, span, Reason::Loop).open(
            Ctx::Loop { block_bound: false },
        )
    }

    /// `LOOP`
    pub open spec fn loop_word(self, span: SourceSpan) -> Scan {
        let s = self.quiet();
        if s.pending_loops > 0 {
            Scan { pending_loops: s.pending_loops - 1, ..s }
        } else {
            s.count_loop(span)
        }
    }

    /// `WHILE`, or a `FOR` that heads a loop
    pub open spec fn loop_header(self, span: SourceSpan) -> Scan {
        let s = self.quiet().count_loop(span);
        Scan { pending_loops: s.pending_loops + 1, ..s }
    }

    /// `EXECUTE` or `EXEC`
    pub open spec fn execute(self, t: Seq<Token>, i: int) -> (Scan, int) {
        let s = self.quiet();
        let next = word_at(t, i + 1);
        if !s.in_body || word_at(t, i - 1) == Word::Dot {
            (s, 1)
        } else if next == Word::Immediate || next == Word::SpExecutesql {
            (s.dynamic_sql(t[i].span), 2)
        } else if next == Word::OpenParen || executes_variable(t, i) {
            (s.dynamic_sql(t[i].span), 1)
        } else {
            (s, 1)
        }
    }

    /// `AND` or `OR`
    pub open spec fn boolean(self, op: BoolOp, span: SourceSpan) -> Scan {
        if op == BoolOp::And && self.pending_between {
            Scan { pending_between: false, ..self }
        } else if self.in_body && !self.pending_header {
            let s = self.report(ProceduralMetric::Cyclomatic, span, 1, Reason::BooleanOperator);
            let s = if s.last_bool == Some(op) {
                s
            } else {
                s.report(ProceduralMetric::Cognitive, span, 1, Reason::BooleanSequence)
            };
            Scan { last_bool: Some(op), ..s }
        } else {
            self
        }
    }

    /// What a keyword does, and how many tokens it takes. Keywords without a
    /// rule of their own leave the state alone.
    pub open spec fn keyword(self, t: Seq<Token>, i: int) -> (Scan, int) {
        let span = t[i].span;
        let next = word_at(t, i + 1);
        let after = word_at(t, i + 2);
        match t[i].word {
            Word::Is => (self.body_start(next), 1),
            Word::As => (self.body_start(next), 1),
            Word::Function => (self.routine_header(word_at(t, i - 1)), 1),
            Word::Procedure => (self.routine_header(word_at(t, i - 1)), 1),
            Word::Begin => self.begin(span, next),
            Word::End => self.end(next, after),
            Word::If => (self.if_word(t, i), 1),
            Word::Then => (self.then_word(), 1),
            Word::Elsif => (self.elsif(span), 1),
            Word::Elseif => (self.elsif(span), 1),
            Word::Else => (self.else_word(span), 1),
            Word::Case => (self.case_word(span), 1),
            Word::When => (self.when_word(span, next, after), 1),
            Word::Exception => (self.exception(), 1),
            Word::Exit => self.exit_word(span, next),
            Word::Continue => self.exit_word(span, next),
            Word::Loop => (self.loop_word(span), 1),
            Word::Do => (
                Scan { pending_loops: less_one(self.pending_loops), ..self.quiet() },
                1,
            ),
            Word::While => (self.loop_header(span), 1),
            Word::Repeat => (
                if next == Word::OpenParen {
                    self.quiet()
                } else {
                    self.quiet().count_loop(span)
                },
                1,
            ),
            Word::For => (
                if heads_no_loop(next) || after != Word::In {
                    self.quiet()
                } else {
                    self.loop_header(span)
                },
                1,
            ),
            Word::Goto => (
                if self.in_body {
                    self.quiet().report(ProceduralMetric::Cognitive, span, 1, Reason::Goto)
                } else {
                    self.quiet()
                },
                1,
            ),
            Word::Return => (
                if self.in_body && !self.pending_header {
                    self.quiet().report(ProceduralMetric::ReturnCount, span, 1, Reason::Return)
                } else {
                    self.quiet()
                },
                1,
            ),
            Word::Raise => (self.raise(span), 1),
            Word::RaiseApplicationError => (self.raise(span), 1),
            Word::Throw => (self.raise(span), 1),
            Word::Raiserror => (self.raise(span), 1),
            Word::Signal => (self.raise(span), 1),
            Word::Resignal => (self.raise(span), 1),
            Word::Execute => self.execute(t, i),
            Word::Exec => self.execute(t, i),
            Word::SpExecutesql => (
                if self.in_body {
                    self.quiet().dynamic_sql(span)
                } else {
                    self.quiet()
                },
                1,
            ),
            Word::Prepare => (
                if self.in_body && after == Word::From {
                    self.quiet().dynamic_sql(span)
                } else {
                    self.quiet()
                },
                1,
            ),
            Word::Between => (Scan { pending_between: true, ..self.quiet() }, 1),
            _ => (self, 1),
        }
    }

    /// `RAISE` and its kin
    pub open spec fn raise(self, span: SourceSpan) -> Scan {
        let s = self.quiet();
        if s.in_body {
            s.report(ProceduralMetric::RaiseThrowCount, span, 1, Reason::RaiseThrow).report(
                ProceduralMetric::Cyclomatic,
                span,
                1,
                Reason::RaiseThrow,
            )
        } else {
            s
        }
    }

    /// The state after the token at `i`, and how many tokens were taken.
    pub open spec fn step(self, t: Seq<Token>, i: int) -> (Scan, int) {
        let w = t[i].word;
        if w == Word::Semicolon {
            (self.terminator(word_at(t, i + 1) == Word::Else), 1)
        } else if w == Word::And {
            (self.boolean(BoolOp::And, t[i].span), 1)
        } else if w == Word::Or {
            (self.boolean(BoolOp::Or, t[i].span), 1)
        } else if w == Word::DbmsSql && word_at(t, i + 1) == Word::Dot && word_at(t, i + 3)
            == Word::OpenParen {
            (
                if self.in_body {
                    self.quiet().dynamic_sql(t[i].span)
                } else {
                    self.quiet()
                },
                1,
            )
        } else if breaks_boolean_run(w) {
            (self.quiet(), 1)
        } else if t[i].keyword_like {
            self.keyword(t, i)
        } else {
            (self, 1)
        }
    }

    /// The state at the end of a region: what is tied to adjacent tokens does
    /// not outlive it.
    pub open spec fn finish(self) -> Scan {
        Scan {
            pending_between: false,
            pending_header: false,
            last_bool: None,
            ..self.end_headers()
        }
    }

    /// The state after the tokens from `i` on.
    pub open spec fn scan(self, t: Seq<Token>, i: int) -> Scan
        decreases t.len() - i,
    {
        if 0 <= i < t.len() {
            let (s, taken) = self.step(t, i);
            s.scan(t, if taken == 2 {
                i + 2
            } else {
                i + 1
            })
        } else {
            self.finish()
        }
    }
}

/// The words before `FUNCTION` or `PROCEDURE` that make it a reference.
pub open spec fn names_only(w: Word) -> bool {
    w == Word::Drop || w == Word::Alter || w == Word::On || w == Word::End || w == Word::Exists
}

/// The words after `BEGIN` that make it transaction control.
pub open spec fn starts_transaction(w: Word) -> bool {
    ||| w == Word::Transaction
    ||| w == Word::Tran
    ||| w == Word::Work
    ||| w == Word::Dialog
    ||| w == Word::Distributed
    ||| w == Word::Semicolon
}

/// The words before `IF` that make it a guard of a definition.
pub open spec fn guards_ddl(w: Word) -> bool {
    ||| w == Word::Table
    ||| w == Word::View
    ||| w == Word::Index
    ||| w == Word::Schema
    ||| w == Word::Database
    ||| w == Word::Function
    ||| w == Word::Procedure
    ||| w == Word::Trigger
    ||| w == Word::Sequence
    ||| w == Word::Column
    ||| w == Word::Constraint
    ||| w == Word::Extension
    ||| w == Word::Type
    ||| w == Word::Role
    ||| w == Word::User
    ||| w == Word::Exists
}

/// The words after `FOR` that no loop header has.
pub open spec fn heads_no_loop(w: Word) -> bool {
    ||| w == Word::Each
    ||| w == Word::Update
    ||| w == Word::Select
    ||| w == Word::Xml
    ||| w == Word::Json
    ||| w == Word::Browse
    ||| w == Word::Share
    ||| w == Word::Key
    ||| w == Word::No
    ||| w == Word::Delete
    ||| w == Word::Insert
    ||| w == Word::OpenParen
}

/// The clause starters and separators that end a run of boolean operators.
pub open spec fn breaks_boolean_run(w: Word) -> bool {
    ||| w == Word::Comma
    ||| w == Word::Where
    ||| w == Word::Having
    ||| w == Word::On
    ||| w == Word::SetWord
    ||| w == Word::Select
    ||| w == Word::From
    ||| w == Word::Group
    ||| w == Word::Order
    ||| w == Word::Values
    ||| w == Word::Into
    ||| w == Word::Union
    ||| w == Word::Join
    ||| w == Word::Qualify
}

} // verus!
