//! What one token adds to each procedural metric, and which tokens belong
//! together.

use vstd::prelude::*;

use crate::control::{
    arm_evidence, block_depth, close_ifs, close_loops, close_owners, nesting, topmost, Arm, BoolOp,
    Ctx, Pick, ProceduralEvidence, ProceduralMetric, Reason, Scan,
};
use crate::evidence::amount_in;
use crate::scanner::lemma_topmost;
use crate::span::SourceSpan;
use crate::token::{scalar_if, variable_at, word_at, Token};
use crate::tree::number;
use crate::word::Word;

verus! {

// ── what a step adds ───────────────────────────────────────────────────

/// What the token at `i` adds to a metric.
pub open spec fn gain(s: Scan, t: Seq<Token>, i: int, m: ProceduralMetric) -> int {
    amount_in(s.step(t, i).0.evidence, m) - amount_in(s.evidence, m)
}

/// Whether the token at `i` is a keyword.
pub open spec fn keyword(t: Seq<Token>, i: int, w: Word) -> bool {
    t[i].keyword_like && t[i].word == w
}

/// Whether the innermost open construct is of this kind.
pub open spec fn in_case(s: Scan) -> bool {
    s.stack.len() > 0 && s.stack.last() is Case
}

/// Whether a handler can follow: in the exception section of a block, or after
/// another handler.
pub open spec fn awaits_handler(s: Scan) -> bool {
    s.stack.len() > 0 && (s.stack.last() is Handler || (s.stack.last() matches Ctx::Block {
        exception_section,
        ..
    } && exception_section))
}

/// Whether the word before an `IF` makes it part of a definition: what is
/// defined, or `EXISTS`.
pub open spec fn names_definition(w: Word) -> bool {
    ||| w is Table || w is View || w is Index || w is Schema || w is Database
    ||| w is Function || w is Procedure || w is Trigger || w is Sequence
    ||| w is Column || w is Constraint || w is Extension || w is Type
    ||| w is Role || w is User || w is Exists
}

/// Whether an `IF` opens a branch: it is no guard of a definition and no
/// function.
pub open spec fn opens_if(t: Seq<Token>, i: int) -> bool {
    &&& keyword(t, i, Word::If)
    &&& !names_definition(word_at(t, i - 1))
    &&& !t[i].function_name
    &&& !scalar_if(t, i)
}

/// Whether a token is another branch of an `IF`.
pub open spec fn continues_if(t: Seq<Token>, i: int) -> bool {
    keyword(t, i, Word::Elsif) || keyword(t, i, Word::Elseif)
}

/// Whether the word after a `FOR` shows that it heads no loop.
pub open spec fn follows_other_for(w: Word) -> bool {
    ||| w is Each || w is Update || w is Select || w is Xml || w is Json || w is Browse
    ||| w is Share || w is Key || w is No || w is Delete || w is Insert || w is OpenParen
}

/// Whether a token opens a loop: `WHILE`, `FOR x IN`, a `REPEAT` that is no call,
/// and a `LOOP` that no header waits for.
pub open spec fn opens_loop(s: Scan, t: Seq<Token>, i: int) -> bool {
    ||| keyword(t, i, Word::While)
    ||| keyword(t, i, Word::For) && word_at(t, i + 2) is In && !follows_other_for(word_at(t, i + 1))
    ||| keyword(t, i, Word::Repeat) && !(word_at(t, i + 1) is OpenParen)
    ||| keyword(t, i, Word::Loop) && s.pending_loops <= 0
}

/// Whether a token opens an exception handler: `BEGIN CATCH`, and a `WHEN` that
/// belongs to no merge where one can follow.
pub open spec fn opens_handler(s: Scan, t: Seq<Token>, i: int) -> bool {
    ||| keyword(t, i, Word::Begin) && word_at(t, i + 1) is Catch
    ||| keyword(t, i, Word::When) && awaits_handler(s) && !(word_at(t, i + 1) is Matched) && !(
    word_at(t, i + 1) is Not && word_at(t, i + 2) is Matched)
}

/// Whether a token raises an error in a body.
pub open spec fn raises(s: Scan, t: Seq<Token>, i: int) -> bool {
    s.in_body && (keyword(t, i, Word::Raise) || keyword(t, i, Word::RaiseApplicationError)
        || keyword(t, i, Word::Throw) || keyword(t, i, Word::Raiserror) || keyword(
        t,
        i,
        Word::Signal,
    ) || keyword(t, i, Word::Resignal))
}

/// Whether a token leaves a loop under a condition.
pub open spec fn leaves_loop(t: Seq<Token>, i: int) -> bool {
    (keyword(t, i, Word::Exit) || keyword(t, i, Word::Continue)) && word_at(t, i + 1) is When
}

/// Whether a token joins two conditions in a body: `AND` or `OR`, but not the
/// `AND` of a `BETWEEN`.
pub open spec fn joins(s: Scan, t: Seq<Token>, i: int) -> bool {
    (t[i].word is Or || t[i].word is And && !s.pending_between) && s.in_body && !s.pending_header
}

/// Whether a token that joins conditions is of another kind than the one before
/// it.
pub open spec fn turns(s: Scan, t: Seq<Token>, i: int) -> bool {
    if t[i].word is And {
        s.last_bool != Some(BoolOp::And)
    } else {
        s.last_bool != Some(BoolOp::Or)
    }
}

/// Whether a token closes a case statement; a case is one where it is closed by
/// `END CASE`.
pub open spec fn closes_case(s: Scan, t: Seq<Token>, i: int) -> bool {
    keyword(t, i, Word::End) && word_at(t, i + 1) is Case && exists|k: int|
        0 <= k < s.stack.len() && (#[trigger] s.stack[k]) is Case
}

/// Whether the case at `k` is the innermost open one.
pub open spec fn innermost_case(s: Scan, k: int) -> bool {
    &&& 0 <= k < s.stack.len()
    &&& s.stack[k] is Case
    &&& forall|j: int| k < j < s.stack.len() ==> !((#[trigger] s.stack[j]) is Case)
}

/// Whether a token runs a text as a statement.
pub open spec fn runs_text(s: Scan, t: Seq<Token>, i: int) -> bool {
    &&& s.in_body
    &&& {
        ||| t[i].word is DbmsSql && word_at(t, i + 1) is Dot && word_at(t, i + 3) is OpenParen
        ||| keyword(t, i, Word::SpExecutesql)
        ||| keyword(t, i, Word::Prepare) && word_at(t, i + 2) is From
        ||| (keyword(t, i, Word::Execute) || keyword(t, i, Word::Exec)) && !(word_at(t, i - 1)
            is Dot) && (word_at(t, i + 1) is Immediate || word_at(t, i + 1) is SpExecutesql
            || word_at(t, i + 1) is OpenParen || variable_at(t, i + 1) && (!(word_at(t, i + 2)
            is Equals) || variable_at(t, i + 3)))
    }
}

pub open spec fn one_if(b: bool) -> int {
    if b {
        1
    } else {
        0
    }
}

/// Whether a token begins a block: a `BEGIN` that begins no transaction.
pub open spec fn begins_block(t: Seq<Token>, i: int) -> bool {
    &&& keyword(t, i, Word::Begin)
    &&& !(word_at(t, i + 1) is Transaction)
    &&& !(word_at(t, i + 1) is Tran)
    &&& !(word_at(t, i + 1) is Work)
    &&& !(word_at(t, i + 1) is Dialog)
    &&& !(word_at(t, i + 1) is Distributed)
    &&& !(word_at(t, i + 1) is Semicolon)
}

/// The constructs that are open around a handler: those around the one before it,
/// which it ends.
pub open spec fn around_handler(s: Scan, t: Seq<Token>, i: int) -> Seq<Ctx> {
    if keyword(t, i, Word::When) && s.stack.len() > 0 && s.stack.last() is Handler {
        s.stack.drop_last()
    } else {
        s.stack
    }
}

/// One piece of evidence.
pub open spec fn piece(
    metric: ProceduralMetric,
    span: SourceSpan,
    amount: int,
    reason: Reason,
) -> ProceduralEvidence {
    ProceduralEvidence { span, metric, amount: amount as u64, reason }
}

/// The evidence of a decision: its own count, one path, and a cost.
pub open spec fn decision(
    metric: ProceduralMetric,
    span: SourceSpan,
    cost: int,
    reason: Reason,
) -> Seq<ProceduralEvidence> {
    seq![
        piece(metric, span, 1, reason),
        piece(ProceduralMetric::Cyclomatic, span, 1, reason),
        piece(ProceduralMetric::Cognitive, span, cost, reason),
    ]
}

/// The evidence of a closed case statement.
pub open spec fn case_evidence(s: Scan, k: int) -> Seq<ProceduralEvidence> {
    match s.stack[k] {
        Ctx::Case { id, nesting, open_span } => seq![
            piece(ProceduralMetric::CaseStatementCount, open_span, 1, Reason::CaseStatement),
            piece(ProceduralMetric::Cognitive, open_span, 1 + nesting, Reason::CaseStatement),
        ] + arm_evidence(s.arms, id),
        _ => Seq::empty(),
    }
}

/// The evidence that a token adds.
pub open spec fn added(s: Scan, t: Seq<Token>, i: int, k: int) -> Seq<ProceduralEvidence> {
    let span = t[i].span;
    if opens_if(t, i) {
        decision(ProceduralMetric::IfCount, span, 1 + nesting(s.stack), Reason::If)
    } else if continues_if(t, i) {
        decision(ProceduralMetric::IfCount, span, 1, Reason::Elsif)
    } else if opens_loop(s, t, i) {
        decision(ProceduralMetric::LoopCount, span, 1 + nesting(s.stack), Reason::Loop)
    } else if begins_block(t, i) && word_at(t, i + 1) is Catch {
        seq![piece(ProceduralMetric::BlockCount, span, 1, Reason::Block)] + decision(
            ProceduralMetric::ExceptionHandlerCount,
            span,
            1 + nesting(s.stack),
            Reason::ExceptionHandler,
        )
    } else if begins_block(t, i) {
        seq![piece(ProceduralMetric::BlockCount, span, 1, Reason::Block)]
    } else if opens_handler(s, t, i) {
        decision(
            ProceduralMetric::ExceptionHandlerCount,
            span,
            1 + nesting(around_handler(s, t, i)),
            Reason::ExceptionHandler,
        )
    } else if raises(s, t, i) {
        seq![
            piece(ProceduralMetric::RaiseThrowCount, span, 1, Reason::RaiseThrow),
            piece(ProceduralMetric::Cyclomatic, span, 1, Reason::RaiseThrow),
        ]
    } else if leaves_loop(t, i) {
        seq![
            piece(ProceduralMetric::Cyclomatic, span, 1, Reason::ConditionalExit),
            piece(ProceduralMetric::Cognitive, span, 1, Reason::ConditionalExit),
        ]
    } else if joins(s, t, i) && turns(s, t, i) {
        seq![
            piece(ProceduralMetric::Cyclomatic, span, 1, Reason::BooleanOperator),
            piece(ProceduralMetric::Cognitive, span, 1, Reason::BooleanSequence),
        ]
    } else if joins(s, t, i) {
        seq![piece(ProceduralMetric::Cyclomatic, span, 1, Reason::BooleanOperator)]
    } else if keyword(t, i, Word::Else) && !in_case(s) {
        seq![piece(ProceduralMetric::Cognitive, span, 1, Reason::Else)]
    } else if keyword(t, i, Word::Goto) && s.in_body {
        seq![piece(ProceduralMetric::Cognitive, span, 1, Reason::Goto)]
    } else if keyword(t, i, Word::Return) && s.in_body && !s.pending_header {
        seq![piece(ProceduralMetric::ReturnCount, span, 1, Reason::Return)]
    } else if runs_text(s, t, i) {
        seq![piece(ProceduralMetric::DynamicSqlCount, span, 1, Reason::DynamicSql)]
    } else if closes_case(s, t, i) {
        case_evidence(s, k)
    } else {
        Seq::empty()
    }
}

proof fn lemma_added_by_case(s: Scan, t: Seq<Token>, i: int, k: int)
    requires
        0 <= i < t.len(),
        keyword(t, i, Word::End),
        closes_case(s, t, i) ==> innermost_case(s, k),
    ensures
        s.step(t, i).0.evidence == s.evidence + added(s, t, i, k),
{
    lemma_topmost(s.stack, Pick::Case);
    let at = topmost(s.stack, Pick::Case);
    if word_at(t, i + 1) is Case {
        if closes_case(s, t, i) {
            assert(at == k) by {
                if at < k {
                    assert(!crate::control::picks(Pick::Case, s.stack[k]));
                }
            }
            assert(s.step(t, i).0.evidence =~= s.evidence + case_evidence(s, k));
        } else {
            assert(at < 0) by {
                if at >= 0 {
                    assert(s.stack[at] is Case);
                }
            }
            assert(s.step(t, i).0.evidence =~= s.evidence);
        }
    } else {
        assert(s.step(t, i).0.evidence =~= s.evidence);
    }
}

proof fn lemma_added_by_begin(s: Scan, t: Seq<Token>, i: int, k: int)
    requires
        0 <= i < t.len(),
        keyword(t, i, Word::Begin),
    ensures
        s.step(t, i).0.evidence == s.evidence + added(s, t, i, k),
{
    assert(s.step(t, i).0.evidence =~= s.evidence + added(s, t, i, k));
}

proof fn lemma_added_by_branch(s: Scan, t: Seq<Token>, i: int, k: int)
    requires
        0 <= i < t.len(),
        t[i].keyword_like,
        t[i].word is If || t[i].word is Elsif || t[i].word is Elseif || t[i].word is Else
            || t[i].word is Then || t[i].word is Case,
    ensures
        s.step(t, i).0.evidence == s.evidence + added(s, t, i, k),
{
    assert(s.step(t, i).0.evidence =~= s.evidence + added(s, t, i, k));
}

proof fn lemma_added_by_loop(s: Scan, t: Seq<Token>, i: int, k: int)
    requires
        0 <= i < t.len(),
        t[i].keyword_like,
        t[i].word is Loop || t[i].word is While || t[i].word is Repeat || t[i].word is For
            || t[i].word is Exit || t[i].word is Continue,
    ensures
        s.step(t, i).0.evidence == s.evidence + added(s, t, i, k),
{
    assert(s.step(t, i).0.evidence =~= s.evidence + added(s, t, i, k));
}

proof fn lemma_added_by_when(s: Scan, t: Seq<Token>, i: int, k: int)
    requires
        0 <= i < t.len(),
        t[i].keyword_like,
        t[i].word is When || t[i].word is Exception || t[i].word is Between || t[i].word is Do,
    ensures
        s.step(t, i).0.evidence == s.evidence + added(s, t, i, k),
{
    assert(s.step(t, i).0.evidence =~= s.evidence + added(s, t, i, k));
}

proof fn lemma_added_by_exit(s: Scan, t: Seq<Token>, i: int, k: int)
    requires
        0 <= i < t.len(),
        t[i].keyword_like,
        t[i].word is Goto || t[i].word is Return || t[i].word is Raise
            || t[i].word is RaiseApplicationError || t[i].word is Throw || t[i].word is Raiserror
            || t[i].word is Signal || t[i].word is Resignal,
    ensures
        s.step(t, i).0.evidence == s.evidence + added(s, t, i, k),
{
    assert(s.step(t, i).0.evidence =~= s.evidence + added(s, t, i, k));
}

proof fn lemma_added_by_text(s: Scan, t: Seq<Token>, i: int, k: int)
    requires
        0 <= i < t.len(),
        t[i].word is DbmsSql || t[i].keyword_like && (t[i].word is Execute || t[i].word is Exec
            || t[i].word is SpExecutesql || t[i].word is Prepare),
    ensures
        s.step(t, i).0.evidence == s.evidence + added(s, t, i, k),
{
    assert(s.step(t, i).0.evidence =~= s.evidence + added(s, t, i, k));
}

proof fn lemma_added_by_operator(s: Scan, t: Seq<Token>, i: int, k: int)
    requires
        0 <= i < t.len(),
        t[i].word is And || t[i].word is Or,
    ensures
        s.step(t, i).0.evidence == s.evidence + added(s, t, i, k),
{
    assert(s.step(t, i).0.evidence =~= s.evidence + added(s, t, i, k));
}

proof fn lemma_added_by_no_keyword(s: Scan, t: Seq<Token>, i: int, k: int)
    requires
        0 <= i < t.len(),
        !t[i].keyword_like,
        !(t[i].word is DbmsSql) && !(t[i].word is And) && !(t[i].word is Or),
    ensures
        s.step(t, i).0.evidence == s.evidence + added(s, t, i, k),
{
    assert(s.step(t, i).0.evidence =~= s.evidence + added(s, t, i, k));
}

proof fn lemma_added_by_others(s: Scan, t: Seq<Token>, i: int, k: int)
    requires
        0 <= i < t.len(),
        ({
            let w = t[i].word;
            &&& !(w is DbmsSql) && !(w is And) && !(w is Or) && !(w is Begin) && !(w is End)
            &&& !(w is If) && !(w is Elsif) && !(w is Elseif) && !(w is Else) && !(w is Then)
            &&& !(w is Case) && !(w is Loop) && !(w is While) && !(w is Repeat) && !(w is For)
            &&& !(w is Exit) && !(w is Continue) && !(w is When) && !(w is Exception)
            &&& !(w is Between) && !(w is Do) && !(w is Goto) && !(w is Return) && !(w is Raise)
            &&& !(w is RaiseApplicationError) && !(w is Throw) && !(w is Raiserror)
            &&& !(w is Signal) && !(w is Resignal) && !(w is Execute) && !(w is Exec)
            &&& !(w is SpExecutesql) && !(w is Prepare)
        }),
    ensures
        s.step(t, i).0.evidence == s.evidence + added(s, t, i, k),
{
    assert(s.step(t, i).0.evidence =~= s.evidence + added(s, t, i, k));
}

/// A token adds evidence for what it opens, joins, leaves or closes, and a token
/// that does none of these adds none.
pub proof fn tokens_add_their_evidence(s: Scan, t: Seq<Token>, i: int, k: int)
    requires
        0 <= i < t.len(),
        closes_case(s, t, i) ==> innermost_case(s, k),
    ensures
        s.step(t, i).0.evidence == s.evidence + added(s, t, i, k),
{
    let w = t[i].word;
    if w is DbmsSql {
        lemma_added_by_text(s, t, i, k);
    } else if w is And || w is Or {
        lemma_added_by_operator(s, t, i, k);
    } else if !t[i].keyword_like {
        lemma_added_by_no_keyword(s, t, i, k);
    } else if w is Begin {
        lemma_added_by_begin(s, t, i, k);
    } else if w is End {
        lemma_added_by_case(s, t, i, k);
    } else if w is If || w is Elsif || w is Elseif || w is Else || w is Then || w is Case {
        lemma_added_by_branch(s, t, i, k);
    } else if w is Loop || w is While || w is Repeat || w is For || w is Exit || w is Continue {
        lemma_added_by_loop(s, t, i, k);
    } else if w is When || w is Exception || w is Between || w is Do {
        lemma_added_by_when(s, t, i, k);
    } else if w is Goto || w is Return || w is Raise || w is RaiseApplicationError || w is Throw
        || w is Raiserror || w is Signal || w is Resignal {
        lemma_added_by_exit(s, t, i, k);
    } else if w is Execute || w is Exec || w is SpExecutesql || w is Prepare {
        lemma_added_by_text(s, t, i, k);
    } else {
        lemma_added_by_others(s, t, i, k);
    }
}

// ── what it comes to ───────────────────────────────────────────────────

proof fn lemma_amount_concat(
    a: Seq<ProceduralEvidence>,
    b: Seq<ProceduralEvidence>,
    m: ProceduralMetric,
)
    ensures
        amount_in(a + b, m) == amount_in(a, m) + amount_in(b, m),
    decreases b.len(),
{
    if b.len() == 0 {
        assert(a + b =~= a);
    } else {
        lemma_amount_concat(a, b.drop_last(), m);
        assert((a + b).drop_last() =~= a + b.drop_last());
    }
}

/// How many arms a case has.
pub open spec fn arms_with(arms: Seq<Arm>, id: u64) -> int {
    number(0, arms.len() as int, |k: int| arms[k].case == id)
}

proof fn lemma_arms(arms: Seq<Arm>, id: u64, m: ProceduralMetric)
    ensures
        amount_in(arm_evidence(arms, id), m) == if m is Cyclomatic {
            arms_with(arms, id)
        } else {
            0
        },
    decreases arms.len(),
{
    if arms.len() > 0 {
        let rest = arms.drop_last();
        lemma_arms(rest, id, m);
        crate::tree::lemma_same_number(
            0,
            rest.len() as int,
            |k: int| arms[k].case == id,
            |k: int| rest[k].case == id,
        );
        if arms.last().case == id {
            let e = arm_evidence(arms, id);
            assert(e.drop_last() =~= arm_evidence(rest, id));
        }
    }
}

/// The cost of an open case, from where it was opened.
pub open spec fn case_cost(s: Scan, k: int) -> int {
    match s.stack[k] {
        Ctx::Case { nesting, .. } => (1 + nesting) as u64 as int,
        _ => 0,
    }
}

/// The arms of an open case.
pub open spec fn case_arms(s: Scan, k: int) -> int {
    match s.stack[k] {
        Ctx::Case { id, .. } => arms_with(s.arms, id),
        _ => 0,
    }
}

spec fn share(e: ProceduralEvidence, m: ProceduralMetric) -> int {
    if e.metric == m {
        e.amount as int
    } else {
        0
    }
}

proof fn lemma_short(e: Seq<ProceduralEvidence>, m: ProceduralMetric)
    ensures
        e.len() == 0 ==> amount_in(e, m) == 0,
        e.len() == 1 ==> amount_in(e, m) == share(e[0], m),
        e.len() == 2 ==> amount_in(e, m) == share(e[0], m) + share(e[1], m),
        e.len() == 3 ==> amount_in(e, m) == share(e[0], m) + share(e[1], m) + share(e[2], m),
        e.len() == 4 ==> amount_in(e, m) == share(e[0], m) + share(e[1], m) + share(e[2], m)
            + share(e[3], m),
{
    reveal_with_fuel(amount_in, 5);
}

/// The innermost open case, where there is one.
proof fn lemma_some_case(s: Scan) -> (k: int)
    ensures
        innermost_case(s, k) || forall|j: int|
            0 <= j < s.stack.len() ==> !((#[trigger] s.stack[j]) is Case),
{
    lemma_topmost(s.stack, Pick::Case);
    let at = topmost(s.stack, Pick::Case);
    if at >= 0 {
        assert forall|j: int| at < j < s.stack.len() implies !((#[trigger] s.stack[j]) is Case) by {
            assert(!crate::control::picks(Pick::Case, s.stack[j]));
        }
    } else {
        assert forall|j: int| 0 <= j < s.stack.len() implies !((#[trigger] s.stack[j]) is Case) by {
            assert(!crate::control::picks(Pick::Case, s.stack[j]));
        }
    }
    at
}

/// What a token adds comes to this.
proof fn lemma_gain(s: Scan, t: Seq<Token>, i: int, k: int, m: ProceduralMetric)
    requires
        0 <= i < t.len(),
        closes_case(s, t, i) ==> innermost_case(s, k),
    ensures
        gain(s, t, i, m) == amount_in(added(s, t, i, k), m),
        gain(s, t, i, m) == match m {
            ProceduralMetric::IfCount => one_if(opens_if(t, i) || continues_if(t, i)),
            ProceduralMetric::LoopCount => one_if(opens_loop(s, t, i)),
            ProceduralMetric::ExceptionHandlerCount => one_if(opens_handler(s, t, i)),
            ProceduralMetric::BlockCount => one_if(begins_block(t, i)),
            ProceduralMetric::ReturnCount => one_if(
                keyword(t, i, Word::Return) && s.in_body && !s.pending_header,
            ),
            ProceduralMetric::RaiseThrowCount => one_if(raises(s, t, i)),
            ProceduralMetric::DynamicSqlCount => one_if(runs_text(s, t, i)),
            ProceduralMetric::CaseStatementCount => one_if(closes_case(s, t, i)),
            ProceduralMetric::Cyclomatic => one_if(
                opens_if(t, i) || continues_if(t, i) || opens_loop(s, t, i) || opens_handler(
                    s,
                    t,
                    i,
                ) || leaves_loop(t, i) || raises(s, t, i) || joins(s, t, i),
            ) + if closes_case(s, t, i) {
                case_arms(s, k)
            } else {
                0
            },
            ProceduralMetric::Cognitive => if opens_if(t, i) || opens_loop(s, t, i) {
                (1 + nesting(s.stack)) as u64 as int
            } else if opens_handler(s, t, i) {
                (1 + nesting(around_handler(s, t, i))) as u64 as int
            } else if closes_case(s, t, i) {
                case_cost(s, k)
            } else {
                one_if(
                    continues_if(t, i) || leaves_loop(t, i) || (keyword(t, i, Word::Else)
                        && !in_case(s)) || (keyword(t, i, Word::Goto) && s.in_body) || (joins(
                        s,
                        t,
                        i,
                    ) && turns(s, t, i)),
                )
            },
            _ => 0,
        },
{
    tokens_add_their_evidence(s, t, i, k);
    let e = added(s, t, i, k);
    lemma_amount_concat(s.evidence, e, m);
    lemma_short(e, m);
    if closes_case(s, t, i) {
        match s.stack[k] {
            Ctx::Case { id, nesting, open_span } => {
                let two = seq![
                    piece(ProceduralMetric::CaseStatementCount, open_span, 1, Reason::CaseStatement),
                    piece(
                        ProceduralMetric::Cognitive,
                        open_span,
                        1 + nesting,
                        Reason::CaseStatement,
                    ),
                ];
                lemma_short(two, m);
                lemma_arms(s.arms, id, m);
                lemma_amount_concat(two, arm_evidence(s.arms, id), m);
            },
            _ => {},
        }
    }
}

/// An `IF` counts once, and so does each further branch of it; a loop and an
/// exception handler count once, where they are opened; every `BEGIN` that
/// begins no transaction counts as a block; and a case counts as a statement
/// where `END CASE` closes it.
pub proof fn constructs_are_counted(s: Scan, t: Seq<Token>, i: int)
    requires
        0 <= i < t.len(),
    ensures
        gain(s, t, i, ProceduralMetric::IfCount) == one_if(opens_if(t, i) || continues_if(t, i)),
        gain(s, t, i, ProceduralMetric::LoopCount) == one_if(opens_loop(s, t, i)),
        gain(s, t, i, ProceduralMetric::ExceptionHandlerCount) == one_if(opens_handler(s, t, i)),
        gain(s, t, i, ProceduralMetric::BlockCount) == one_if(begins_block(t, i)),
        gain(s, t, i, ProceduralMetric::CaseStatementCount) == one_if(closes_case(s, t, i)),
{
    let k = lemma_some_case(s);
    lemma_gain(s, t, i, k, ProceduralMetric::IfCount);
    lemma_gain(s, t, i, k, ProceduralMetric::LoopCount);
    lemma_gain(s, t, i, k, ProceduralMetric::ExceptionHandlerCount);
    lemma_gain(s, t, i, k, ProceduralMetric::BlockCount);
    lemma_gain(s, t, i, k, ProceduralMetric::CaseStatementCount);
}

/// A return counts in a body, a raised error too, and so does a text that is run
/// as a statement.
pub proof fn exits_are_counted(s: Scan, t: Seq<Token>, i: int)
    requires
        0 <= i < t.len(),
    ensures
        gain(s, t, i, ProceduralMetric::ReturnCount) == one_if(
            keyword(t, i, Word::Return) && s.in_body && !s.pending_header,
        ),
        gain(s, t, i, ProceduralMetric::RaiseThrowCount) == one_if(raises(s, t, i)),
        gain(s, t, i, ProceduralMetric::DynamicSqlCount) == one_if(runs_text(s, t, i)),
{
    let k = lemma_some_case(s);
    lemma_gain(s, t, i, k, ProceduralMetric::ReturnCount);
    lemma_gain(s, t, i, k, ProceduralMetric::RaiseThrowCount);
    lemma_gain(s, t, i, k, ProceduralMetric::DynamicSqlCount);
}

/// Every decision is one more path: a branch, a loop, a handler, a conditional
/// exit, a raised error, an operator that joins conditions, and each arm of a
/// case statement.
pub proof fn paths_are_counted(s: Scan, t: Seq<Token>, i: int, k: int)
    requires
        0 <= i < t.len(),
        closes_case(s, t, i) ==> innermost_case(s, k),
    ensures
        gain(s, t, i, ProceduralMetric::Cyclomatic) == one_if(
            opens_if(t, i) || continues_if(t, i) || opens_loop(s, t, i) || opens_handler(s, t, i)
                || leaves_loop(t, i) || raises(s, t, i) || joins(s, t, i),
        ) + if closes_case(s, t, i) {
            case_arms(s, k)
        } else {
            0
        },
{
    lemma_gain(s, t, i, k, ProceduralMetric::Cyclomatic);
}

/// A decision costs one and one more for each decision around it; a further
/// branch, an `ELSE`, a jump, a conditional exit and a new run of joined
/// conditions cost one.
pub proof fn costs_grow_with_nesting(s: Scan, t: Seq<Token>, i: int, k: int)
    requires
        0 <= i < t.len(),
        closes_case(s, t, i) ==> innermost_case(s, k),
    ensures
        gain(s, t, i, ProceduralMetric::Cognitive) == if opens_if(t, i) || opens_loop(s, t, i) {
            (1 + nesting(s.stack)) as u64 as int
        } else if opens_handler(s, t, i) {
            (1 + nesting(around_handler(s, t, i))) as u64 as int
        } else if closes_case(s, t, i) {
            case_cost(s, k)
        } else {
            one_if(
                continues_if(t, i) || leaves_loop(t, i) || (keyword(t, i, Word::Else) && !in_case(s))
                    || (keyword(t, i, Word::Goto) && s.in_body) || (joins(s, t, i) && turns(
                    s,
                    t,
                    i,
                )),
            )
        },
{
    lemma_gain(s, t, i, k, ProceduralMetric::Cognitive);
}

// ── nesting ────────────────────────────────────────────────────────────

/// Whether a construct is one that a reader has to keep in mind.
pub open spec fn weighs(c: Ctx) -> bool {
    c is If || c is Loop || c is Case || c is Catch || c is Handler
}

/// Whether a construct is the body of a routine.
pub open spec fn is_routine_body(c: Ctx) -> bool {
    c matches Ctx::Block { routine_body, .. } && routine_body
}

/// The decisions around a place are counted from the innermost routine body on.
pub proof fn nesting_starts_in_the_body(stack: Seq<Ctx>, lo: int)
    requires
        0 <= lo <= stack.len(),
        lo > 0 ==> is_routine_body(stack[lo - 1]),
        forall|k: int| lo <= k < stack.len() ==> !is_routine_body(#[trigger] stack[k]),
    ensures
        nesting(stack) == number(lo, stack.len() as int, |k: int| weighs(stack[k])),
    decreases stack.len(),
{
    if lo < stack.len() {
        let rest = stack.drop_last();
        assert forall|k: int| lo <= k < rest.len() implies !is_routine_body(#[trigger] rest[k]) by {
            assert(rest[k] == stack[k]);
        }
        nesting_starts_in_the_body(rest, lo);
        crate::tree::lemma_same_number(
            lo,
            rest.len() as int,
            |k: int| weighs(stack[k]),
            |k: int| weighs(rest[k]),
        );
        assert(!is_routine_body(stack[stack.len() - 1]));
    } else if stack.len() > 0 {
        assert(is_routine_body(stack[stack.len() - 1]));
    }
}

/// The depth of blocks is the number of open blocks, the parts of a `TRY` too.
pub proof fn depth_counts_blocks(stack: Seq<Ctx>)
    ensures
        block_depth(stack) == number(
            0,
            stack.len() as int,
            |k: int| stack[k] is Block || stack[k] is Try || stack[k] is Catch,
        ),
    decreases stack.len(),
{
    if stack.len() > 0 {
        let rest = stack.drop_last();
        depth_counts_blocks(rest);
        crate::tree::lemma_same_number(
            0,
            rest.len() as int,
            |k: int| stack[k] is Block || stack[k] is Try || stack[k] is Catch,
            |k: int| rest[k] is Block || rest[k] is Try || rest[k] is Catch,
        );
    }
}

/// A block that is deeper than every one before it is the deepest so far, and
/// no other is.
pub proof fn deepest_block_is_kept(s: Scan, t: Seq<Token>, i: int)
    requires
        0 <= i < t.len(),
        begins_block(t, i),
    ensures
        ({
            let r = s.step(t, i).0;
            &&& block_depth(r.stack) > s.max_depth ==> r.max_depth == block_depth(r.stack)
                && r.max_depth_span == Some(t[i].span)
            &&& block_depth(r.stack) <= s.max_depth ==> r.max_depth == s.max_depth
                && r.max_depth_span == s.max_depth_span
        }),
{
}

// ── what belongs together ──────────────────────────────────────────────

/// Whether a closing word follows an `END`.
pub open spec fn names_closed(w: Word) -> bool {
    ||| w is If || w is Loop || w is While || w is Repeat || w is For
    ||| w is Case || w is Try || w is Catch
}

/// Whether a body opener finds no control that waits for it.
pub open spec fn has_no_owner(s: Scan) -> bool {
    &&& s.pending_loops == 0
    &&& s.stack.len() > 0 ==> !(s.stack.last() is If) && !(s.stack.last() is Loop)
}

/// `END` closes what `BEGIN` opened.
pub proof fn end_closes_begin(s: Scan, t: Seq<Token>, b: int, u: Seq<Token>, e: int)
    requires
        0 <= b < t.len(),
        0 <= e < u.len(),
        keyword(t, b, Word::Begin),
        !(word_at(t, b + 1) is Transaction) && !(word_at(t, b + 1) is Tran) && !(word_at(t, b + 1)
            is Work) && !(word_at(t, b + 1) is Dialog) && !(word_at(t, b + 1) is Distributed) && !(
        word_at(t, b + 1) is Semicolon) && !(word_at(t, b + 1) is Try) && !(word_at(t, b + 1)
            is Catch),
        keyword(u, e, Word::End),
        !names_closed(word_at(u, e + 1)),
        has_no_owner(s),
    ensures
        ({
            let opened = s.step(t, b).0;
            let closed = opened.step(u, e).0;
            &&& opened.in_body
            &&& opened.stack.len() == s.stack.len() + 1
            &&& opened.stack.last() is Block
            &&& is_routine_body(opened.stack.last()) == (s.pending_bodies > 0)
            &&& opened.pending_bodies == if s.pending_bodies > 0 {
                s.pending_bodies - 1
            } else {
                0
            }
            &&& closed.stack == s.stack
            &&& closed.evidence == opened.evidence
        }),
{
    let opened = s.step(t, b).0;
    assert(topmost(opened.stack, Pick::BareEnd) == s.stack.len());
    assert(opened.stack.take(s.stack.len() as int) =~= s.stack);
}

/// `END IF` closes an `IF` that had its `THEN`.
pub proof fn end_if_closes_if(
    s: Scan,
    t: Seq<Token>,
    b: int,
    u: Seq<Token>,
    m: int,
    v: Seq<Token>,
    e: int,
)
    requires
        0 <= b < t.len(),
        0 <= m < u.len(),
        0 <= e < v.len(),
        opens_if(t, b),
        keyword(u, m, Word::Then),
        keyword(v, e, Word::End),
        word_at(v, e + 1) is If,
    ensures
        ({
            let opened = s.step(t, b).0;
            let begun = opened.step(u, m).0;
            let (closed, taken) = begun.step(v, e);
            &&& opened.stack.len() == s.stack.len() + 1
            &&& opened.stack.last() is If
            &&& begun.stack.len() == s.stack.len() + 1
            &&& begun.evidence == opened.evidence
            &&& closed.stack == s.stack
            &&& closed.evidence == opened.evidence
            &&& taken == 2
        }),
{
    let opened = s.step(t, b).0;
    let begun = opened.step(u, m).0;
    assert(opened.stack.drop_last() =~= s.stack);
    assert(topmost(begun.stack, Pick::IfWithThen) == s.stack.len());
    assert(begun.stack.take(s.stack.len() as int) =~= s.stack);
}

/// `END LOOP` closes a `LOOP`, and a loop that a header opened.
pub proof fn end_loop_closes_loop(s: Scan, t: Seq<Token>, b: int, u: Seq<Token>, e: int)
    requires
        0 <= b < t.len(),
        0 <= e < u.len(),
        opens_loop(s, t, b),
        keyword(u, e, Word::End),
        word_at(u, e + 1) is Loop || word_at(u, e + 1) is While || word_at(u, e + 1) is Repeat
            || word_at(u, e + 1) is For,
    ensures
        ({
            let opened = s.step(t, b).0;
            let (closed, taken) = opened.step(u, e);
            &&& opened.stack.len() == s.stack.len() + 1
            &&& opened.stack.last() is Loop
            &&& closed.stack == s.stack
            &&& closed.evidence == opened.evidence
            &&& taken == 2
        }),
{
    let opened = s.step(t, b).0;
    assert(opened.stack.drop_last() =~= s.stack);
}

/// The header of a loop waits for one body: `LOOP` or `DO` after it opens no
/// other loop, and a terminator before that ends it.
pub proof fn headers_wait_for_a_body(s: Scan, t: Seq<Token>, b: int, u: Seq<Token>, e: int)
    requires
        0 <= b < t.len(),
        0 <= e < u.len(),
        s.pending_loops >= 0,
        keyword(t, b, Word::While),
    ensures
        ({
            let opened = s.step(t, b).0;
            let next = opened.step(u, e).0;
            &&& opened.pending_loops == s.pending_loops + 1
            &&& keyword(u, e, Word::Loop) || keyword(u, e, Word::Do) ==> next.pending_loops
                == s.pending_loops && next.stack == opened.stack && next.evidence
                == opened.evidence
            &&& u[e].word is Semicolon ==> next.pending_loops == 0 && next.evidence
                == opened.evidence
            &&& u[e].word is Semicolon && s.pending_loops == 0 && s.stack.len() == 0
                ==> next.stack.len() == 0
        }),
{
    let opened = s.step(t, b).0;
    if u[e].word is Semicolon && s.pending_loops == 0 && s.stack.len() == 0 {
        reveal_with_fuel(close_loops, 2);
        assert(topmost(opened.stack, Pick::OpenLoop) == 0);
        assert(opened.stack.take(0) =~= Seq::<Ctx>::empty());
    }
}

/// The block of a loop ends it: `WHILE … BEGIN … END`.
pub proof fn blocks_end_their_loop(
    s: Scan,
    t: Seq<Token>,
    h: int,
    u: Seq<Token>,
    b: int,
    v: Seq<Token>,
    e: int,
)
    requires
        0 <= h < t.len(),
        0 <= b < u.len(),
        0 <= e < v.len(),
        keyword(t, h, Word::While),
        keyword(u, b, Word::Begin),
        word_at(u, b + 1) is Other,
        keyword(v, e, Word::End),
        !names_closed(word_at(v, e + 1)),
        has_no_owner(s),
    ensures
        ({
            let headed = s.step(t, h).0;
            let opened = headed.step(u, b).0;
            let closed = opened.step(v, e).0;
            &&& headed.stack.len() == s.stack.len() + 1
            &&& opened.stack.len() == s.stack.len() + 2
            &&& opened.pending_loops == 0
            &&& closed.stack == s.stack
        }),
{
    let headed = s.step(t, h).0;
    let opened = headed.step(u, b).0;
    reveal_with_fuel(crate::control::bind_loops, 2);
    assert(headed.stack.drop_last() =~= s.stack);
    let bound = s.stack.push(Ctx::Loop { block_bound: true });
    assert(crate::control::bind_loops(headed.stack, 1) =~= bound);
    assert(opened.stack.drop_last() =~= bound);
    assert(topmost(opened.stack, Pick::BareEnd) == s.stack.len() + 1);
    assert(opened.stack.take(s.stack.len() as int + 1) =~= bound);
    reveal_with_fuel(close_owners, 2);
    assert(bound.drop_last() =~= s.stack);
}

/// `END` closes a case that is an expression, and `END CASE` one that is a
/// statement.
pub proof fn end_closes_case(s: Scan, t: Seq<Token>, b: int, u: Seq<Token>, e: int)
    requires
        0 <= b < t.len(),
        0 <= e < u.len(),
        keyword(t, b, Word::Case),
        keyword(u, e, Word::End),
        word_at(u, e + 1) is Case || !names_closed(word_at(u, e + 1)),
    ensures
        ({
            let opened = s.step(t, b).0;
            let closed = opened.step(u, e).0;
            &&& opened.stack.len() == s.stack.len() + 1
            &&& opened.stack.last() is Case
            &&& opened.evidence == s.evidence
            &&& opened.next_case == s.next_case + 1
            &&& closed.stack == s.stack
            &&& !(word_at(u, e + 1) is Case) ==> closed.evidence == s.evidence
        }),
{
    let opened = s.step(t, b).0;
    assert(topmost(opened.stack, Pick::BareEnd) == s.stack.len());
    assert(topmost(opened.stack, Pick::Case) == s.stack.len());
    assert(opened.stack.take(s.stack.len() as int) =~= s.stack);
}

/// A `WHEN` in a case is one of its arms, and adds nothing until the case is
/// closed.
pub proof fn arms_belong_to_their_case(s: Scan, t: Seq<Token>, i: int)
    requires
        0 <= i < t.len(),
        keyword(t, i, Word::When),
        !(word_at(t, i + 1) is Matched),
        !(word_at(t, i + 1) is Not && word_at(t, i + 2) is Matched),
        in_case(s),
    ensures
        ({
            let r = s.step(t, i).0;
            &&& r.stack == s.stack
            &&& r.evidence == s.evidence
            &&& r.arms.len() == s.arms.len() + 1
            &&& r.arms.drop_last() == s.arms
            &&& r.arms.last().span == t[i].span
            &&& s.stack.last() matches Ctx::Case { id, .. } && r.arms.last().case == id
        }),
{
    assert(s.step(t, i).0.arms.drop_last() =~= s.arms);
}

/// `END TRY` and `END CATCH` close what `BEGIN TRY` and `BEGIN CATCH` opened.
pub proof fn end_try_closes_try(s: Scan, t: Seq<Token>, b: int, u: Seq<Token>, e: int)
    requires
        0 <= b < t.len(),
        0 <= e < u.len(),
        keyword(t, b, Word::Begin),
        keyword(u, e, Word::End),
        word_at(t, b + 1) is Try && word_at(u, e + 1) is Try || word_at(t, b + 1) is Catch
            && word_at(u, e + 1) is Catch,
        has_no_owner(s),
    ensures
        ({
            let (opened, taken) = s.step(t, b);
            let (closed, left) = opened.step(u, e);
            &&& taken == 2
            &&& left == 2
            &&& opened.stack.len() == s.stack.len() + 1
            &&& opened.stack.last() is Try || opened.stack.last() is Catch
            &&& closed.stack == s.stack
            &&& closed.evidence == opened.evidence
        }),
{
    let opened = s.step(t, b).0;
    assert(opened.stack.take(s.stack.len() as int) =~= s.stack);
    assert(topmost(opened.stack, Pick::Try) == s.stack.len() || word_at(t, b + 1) is Catch);
    assert(topmost(opened.stack, Pick::Catch) == s.stack.len() || word_at(t, b + 1) is Try);
}

/// An `IF` without `THEN` and without a block ends at the terminator, but an
/// `ELSE` keeps it open once.
pub proof fn terminators_end_short_ifs(s: Scan, t: Seq<Token>, b: int, u: Seq<Token>, e: int)
    requires
        0 <= b < t.len(),
        0 <= e < u.len(),
        opens_if(t, b),
        u[e].word is Semicolon,
        s.stack.len() == 0,
        s.pending_loops == 0,
    ensures
        ({
            let opened = s.step(t, b).0;
            let next = opened.step(u, e).0;
            &&& !(word_at(u, e + 1) is Else) ==> next.stack == s.stack
            &&& word_at(u, e + 1) is Else ==> next.stack == opened.stack
            &&& next.evidence == opened.evidence
        }),
{
    let opened = s.step(t, b).0;
    reveal_with_fuel(close_ifs, 2);
    assert(opened.stack.drop_last() =~= s.stack);
}

/// The block of an `IF` without `THEN` ends it, unless an `ELSE` follows.
pub proof fn blocks_end_their_if(
    s: Scan,
    t: Seq<Token>,
    h: int,
    u: Seq<Token>,
    b: int,
    v: Seq<Token>,
    e: int,
)
    requires
        0 <= h < t.len(),
        0 <= b < u.len(),
        0 <= e < v.len(),
        opens_if(t, h),
        keyword(u, b, Word::Begin),
        word_at(u, b + 1) is Other,
        keyword(v, e, Word::End),
        !names_closed(word_at(v, e + 1)),
        has_no_owner(s),
    ensures
        ({
            let opened = s.step(t, h).0;
            let begun = opened.step(u, b).0;
            let closed = begun.step(v, e).0;
            &&& begun.stack.len() == s.stack.len() + 2
            &&& !(word_at(v, e + 1) is Else) ==> closed.stack == s.stack
            &&& word_at(v, e + 1) is Else ==> closed.stack == s.stack.push(
                Ctx::If { with_then: false, bound: true, else_taken: false },
            )
        }),
{
    let opened = s.step(t, h).0;
    let begun = opened.step(u, b).0;
    assert(opened.stack.drop_last() =~= s.stack);
    let bound = s.stack.push(Ctx::If { with_then: false, bound: true, else_taken: false });
    assert(begun.stack.drop_last() =~= bound);
    assert(topmost(begun.stack, Pick::BareEnd) == s.stack.len() + 1);
    assert(begun.stack.take(s.stack.len() as int + 1) =~= bound);
    reveal_with_fuel(close_owners, 2);
    assert(bound.drop_last() =~= s.stack);
}

/// An `ELSE` is taken by the `IF` without `THEN` before it, which then waits for
/// another statement and for no other `ELSE`.
pub proof fn else_is_taken_once(s: Scan, t: Seq<Token>, i: int)
    requires
        0 <= i < t.len(),
        keyword(t, i, Word::Else),
        s.stack.len() > 0,
        s.stack.last() matches Ctx::If { with_then, .. } && !with_then,
    ensures
        s.step(t, i).0.stack == s.stack.drop_last().push(
            Ctx::If { with_then: false, bound: false, else_taken: true },
        ),
{
}

// ── runs of conditions, and bodies ─────────────────────────────────────

/// The `AND` of a `BETWEEN` joins nothing, and the next one does again.
pub proof fn between_takes_its_and(s: Scan, t: Seq<Token>, b: int, u: Seq<Token>, a: int)
    requires
        0 <= b < t.len(),
        0 <= a < u.len(),
        keyword(t, b, Word::Between),
        u[a].word is And,
    ensures
        ({
            let r = s.step(t, b).0;
            let q = r.step(u, a).0;
            &&& r.evidence == s.evidence
            &&& q.evidence == s.evidence
            &&& !q.pending_between
            &&& q.stack == s.stack
        }),
{
}

/// Operators of one kind in a row are one run: the second costs nothing more,
/// one of the other kind does.
pub proof fn runs_cost_once(s: Scan, t: Seq<Token>, a: int, u: Seq<Token>, b: int)
    requires
        0 <= a < t.len(),
        0 <= b < u.len(),
        joins(s, t, a),
        u[b].word is And || u[b].word is Or,
        !s.pending_between,
    ensures
        gain(s.step(t, a).0, u, b, ProceduralMetric::Cyclomatic) == 1,
        gain(s.step(t, a).0, u, b, ProceduralMetric::Cognitive) == one_if(t[a].word != u[b].word),
{
    let r = s.step(t, a).0;
    let k = lemma_some_case(r);
    lemma_gain(r, u, b, k, ProceduralMetric::Cyclomatic);
    lemma_gain(r, u, b, k, ProceduralMetric::Cognitive);
}

/// Separators and clause words end a run of conditions; so does every keyword
/// that the scan knows.
pub proof fn clauses_end_runs(s: Scan, t: Seq<Token>, i: int)
    requires
        0 <= i < t.len(),
        ({
            let w = t[i].word;
            ||| w is Comma || w is Where || w is Having || w is On || w is SetWord || w is Select
            ||| w is From || w is Group || w is Order || w is Values || w is Into || w is Union
            ||| w is Join || w is Qualify || w is Semicolon
        }),
    ensures
        s.step(t, i).0.last_bool is None,
        s.step(t, i).0.evidence == s.evidence,
{
}

/// A body starts at `IS`, `AS` or a `BEGIN` that begins no transaction, and goes
/// on.
pub proof fn bodies_start_once(s: Scan, t: Seq<Token>, i: int)
    requires
        0 <= i < t.len(),
    ensures
        s.in_body ==> s.step(t, i).0.in_body,
        keyword(t, i, Word::Is) || keyword(t, i, Word::As) ==> s.step(t, i).0.in_body && !s.step(
            t,
            i,
        ).0.pending_header,
        !s.in_body && s.step(t, i).0.in_body ==> keyword(t, i, Word::Is) || keyword(t, i, Word::As)
            || keyword(t, i, Word::Begin),
{
    lemma_topmost(s.stack, Pick::Case);
}

/// A routine that is defined waits for its body; one that is only named does
/// not; and one that is written in another language has none.
pub proof fn routines_wait_for_their_body(s: Scan, t: Seq<Token>, i: int)
    requires
        0 <= i < t.len(),
        s.pending_bodies >= 0,
    ensures
        ({
            let r = s.step(t, i).0;
            let prev = word_at(t, i - 1);
            let next = word_at(t, i + 1);
            &&& keyword(t, i, Word::Function) || keyword(t, i, Word::Procedure)
                ==> r.pending_header && r.pending_bodies == s.pending_bodies + one_if(
                !(prev is Drop || prev is Alter || prev is On || prev is End || prev is Exists),
            )
            &&& keyword(t, i, Word::Is) || keyword(t, i, Word::As) ==> r.pending_bodies
                == s.pending_bodies - one_if(
                (next is Language || next is External) && s.pending_bodies > 0,
            )
            &&& t[i].word is Semicolon ==> r.pending_bodies == s.pending_bodies - one_if(
                s.pending_header && s.pending_bodies > 0,
            ) && !r.pending_header
        }),
{
}

/// The exception section of a block is that of the innermost one.
pub proof fn exception_sections_are_innermost(s: Scan, t: Seq<Token>, i: int, k: int)
    requires
        0 <= i < t.len(),
        keyword(t, i, Word::Exception),
        0 <= k < s.stack.len(),
        s.stack[k] is Block,
        forall|j: int| k < j < s.stack.len() ==> !((#[trigger] s.stack[j]) is Block),
    ensures
        ({
            let r = s.step(t, i).0;
            &&& r.stack.len() == s.stack.len()
            &&& r.stack[k] matches Ctx::Block { exception_section, routine_body }
                && exception_section && routine_body == is_routine_body(s.stack[k])
            &&& forall|j: int|
                0 <= j < s.stack.len() && j != k ==> #[trigger] r.stack[j] == s.stack[j]
            &&& r.evidence == s.evidence
        }),
{
    lemma_topmost(s.stack, Pick::Block);
    let at = topmost(s.stack, Pick::Block);
    assert(at == k) by {
        if at < k {
            assert(!crate::control::picks(Pick::Block, s.stack[k]));
        }
        if at > k {
            assert(crate::control::picks(Pick::Block, s.stack[at]));
        }
    }
}

/// The public codes of the reasons.
pub proof fn reasons_have_their_codes()
    ensures
        Reason::Entry.spelled() == "sql.procedural.entry"@,
        Reason::If.spelled() == "sql.procedural.if"@,
        Reason::Elsif.spelled() == "sql.procedural.elsif"@,
        Reason::Else.spelled() == "sql.procedural.else"@,
        Reason::Loop.spelled() == "sql.procedural.loop"@,
        Reason::CaseStatement.spelled() == "sql.procedural.case_statement"@,
        Reason::CaseWhen.spelled() == "sql.procedural.case_when"@,
        Reason::ExceptionHandler.spelled() == "sql.procedural.exception_handler"@,
        Reason::ConditionalExit.spelled() == "sql.procedural.conditional_exit"@,
        Reason::RaiseThrow.spelled() == "sql.procedural.raise_throw"@,
        Reason::Goto.spelled() == "sql.procedural.goto"@,
        Reason::BooleanSequence.spelled() == "sql.procedural.boolean_sequence"@,
        Reason::BooleanOperator.spelled() == "sql.procedural.boolean_operator"@,
        Reason::EmbeddedQuery.spelled() == "sql.procedural.embedded_query"@,
        Reason::Block.spelled() == "sql.procedural.block"@,
        Reason::DeepestBlock.spelled() == "sql.procedural.deepest_block"@,
        Reason::Routine.spelled() == "sql.procedural.routine"@,
        Reason::Return.spelled() == "sql.procedural.return"@,
        Reason::DynamicSql.spelled() == "sql.procedural.dynamic_sql"@,
{
}

} // verus!
