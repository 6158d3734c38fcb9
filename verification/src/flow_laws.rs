//! What control flow reports, told from the tokens.

use vstd::prelude::*;

use crate::control::{
    close_loops, nesting, starts_transaction, topmost, BoolOp, Ctx, Pick, ProceduralEvidence,
    ProceduralMetric, Reason, Scan,
};
use crate::scanner::lemma_topmost;
use crate::span::SourceSpan;
use crate::token::{word_at, Token};
use crate::word::Word;

verus! {

/// The evidence with a reason, in order.
pub open spec fn for_reason(s: Seq<ProceduralEvidence>, r: Reason) -> Seq<ProceduralEvidence>
    decreases s.len(),
{
    if s.len() == 0 {
        Seq::empty()
    } else if s.last().reason == r {
        for_reason(s.drop_last(), r).push(s.last())
    } else {
        for_reason(s.drop_last(), r)
    }
}

proof fn lemma_for_reason_push(s: Seq<ProceduralEvidence>, e: ProceduralEvidence, r: Reason)
    ensures
        for_reason(s.push(e), r) == if e.reason == r {
            for_reason(s, r).push(e)
        } else {
            for_reason(s, r)
        },
{
    assert(s.push(e).drop_last() =~= s);
}

pub broadcast proof fn lemma_report_reason(
    s: Scan,
    metric: ProceduralMetric,
    span: SourceSpan,
    amount: int,
    reason: Reason,
    r: Reason,
)
    ensures
        #[trigger] for_reason(s.report(metric, span, amount, reason).evidence, r) == if reason == r {
            for_reason(s.evidence, r).push(
                ProceduralEvidence { span, metric, amount: amount as u64, reason },
            )
        } else {
            for_reason(s.evidence, r)
        },
{
    lemma_for_reason_push(
        s.evidence,
        ProceduralEvidence { span, metric, amount: amount as u64, reason },
        r,
    );
}

// ── exception handlers ─────────────────────────────────────────────────

/// Whether a token neither opens nor closes nor divides a construct.
pub open spec fn is_calm(w: Word) -> bool {
    &&& w != Word::Begin
    &&& w != Word::End
    &&& w != Word::If
    &&& w != Word::Elsif
    &&& w != Word::Elseif
    &&& w != Word::Else
    &&& w != Word::Then
    &&& w != Word::Case
    &&& w != Word::When
    &&& w != Word::Exception
    &&& w != Word::Exit
    &&& w != Word::Continue
    &&& w != Word::Loop
    &&& w != Word::While
    &&& w != Word::Repeat
    &&& w != Word::For
    &&& w != Word::Do
    &&& w != Word::Function
    &&& w != Word::Procedure
}

/// Three pieces of evidence at a handler: the handler, a path, and a cost that
/// grows with the decisions around its block.
pub open spec fn handler_at(span: SourceSpan, around: int) -> Seq<ProceduralEvidence> {
    seq![
        ProceduralEvidence {
            span,
            metric: ProceduralMetric::ExceptionHandlerCount,
            amount: 1,
            reason: Reason::ExceptionHandler,
        },
        ProceduralEvidence {
            span,
            metric: ProceduralMetric::Cyclomatic,
            amount: 1,
            reason: Reason::ExceptionHandler,
        },
        ProceduralEvidence {
            span,
            metric: ProceduralMetric::Cognitive,
            amount: (1 + around) as u64,
            reason: Reason::ExceptionHandler,
        },
    ]
}

/// What the handlers among the tokens `lo..hi` report, one for each `WHEN`.
pub open spec fn handlers_in(t: Seq<Token>, lo: int, hi: int, around: int) -> Seq<
    ProceduralEvidence,
>
    decreases hi - lo,
{
    if lo >= hi {
        Seq::empty()
    } else if t[lo].word == Word::When {
        handler_at(t[lo].span, around) + handlers_in(t, lo + 1, hi, around)
    } else {
        handlers_in(t, lo + 1, hi, around)
    }
}

/// Whether a token can stand among handlers: a calm one, `THEN`, or the `WHEN`
/// of a handler, which is none of a `MERGE`.
pub open spec fn in_handlers(t: Seq<Token>, k: int) -> bool {
    ||| is_calm(t[k].word)
    ||| t[k].word == Word::Then
    ||| t[k].word == Word::When && t[k].keyword_like && word_at(t, k + 1) != Word::Matched && !(
    word_at(t, k + 1) == Word::Not && word_at(t, k + 2) == Word::Matched)
}

/// Whether the tokens from `b` on are a block with an exception section and what
/// follows it: `BEGIN` up to `EXCEPTION` at `x`, handlers up to `END` at `e`.
pub open spec fn has_handlers(t: Seq<Token>, b: int, x: int, e: int) -> bool {
    &&& 0 <= b < x < e < t.len()
    &&& t[b].word == Word::Begin && t[b].keyword_like
    &&& t[x].word == Word::Exception && t[x].keyword_like
    &&& t[e].word == Word::End && t[e].keyword_like
    &&& !starts_transaction(t[b + 1].word) && t[b + 1].word != Word::Try && t[b + 1].word
        != Word::Catch
    &&& forall|k: int| b < k < x ==> is_calm((#[trigger] t[k]).word)
    &&& forall|k: int| x < k < e ==> #[trigger] in_handlers(t, k)
    &&& forall|k: int| e < k < t.len() ==> is_calm((#[trigger] t[k]).word)
}

/// Whether a step leaves the constructs and the handlers as they are.
pub open spec fn keeps(s: Scan, r: Scan) -> bool {
    &&& r.stack == s.stack
    &&& r.pending_loops == 0
    &&& r.pending_bodies >= 0
    &&& for_reason(r.evidence, Reason::ExceptionHandler) == for_reason(
        s.evidence,
        Reason::ExceptionHandler,
    )
}

proof fn lemma_calm_word(s: Scan, t: Seq<Token>, i: int)
    requires
        0 <= i < t.len(),
        is_calm(t[i].word) || t[i].word == Word::Then,
    ensures
        for_reason(s.keyword(t, i).0.evidence, Reason::ExceptionHandler) == for_reason(
            s.evidence,
            Reason::ExceptionHandler,
        ),
        s.pending_loops == 0 ==> s.keyword(t, i).0.pending_loops == 0,
        is_calm(t[i].word) ==> s.keyword(t, i).0.stack == s.stack,
        s.keyword(t, i).1 == 1 || (s.keyword(t, i).1 == 2 && (word_at(t, i + 1) == Word::Immediate
            || word_at(t, i + 1) == Word::SpExecutesql)),
        s.pending_bodies >= 0 ==> s.keyword(t, i).0.pending_bodies >= 0,
{
    broadcast use lemma_report_reason;

    let span = t[i].span;
    assert(for_reason(s.raise(span).evidence, Reason::ExceptionHandler) == for_reason(
        s.evidence,
        Reason::ExceptionHandler,
    ));
    assert(for_reason(s.execute(t, i).0.evidence, Reason::ExceptionHandler) == for_reason(
        s.evidence,
        Reason::ExceptionHandler,
    ));
}

/// The state after a token, and how many tokens were taken.
#[verifier::opaque]
spec fn stepped(s: Scan, t: Seq<Token>, i: int) -> (Scan, int) {
    s.step(t, i)
}

/// The handlers that are known at the end of the tokens.
#[verifier::opaque]
spec fn told(s: Scan, t: Seq<Token>, i: int) -> Seq<ProceduralEvidence> {
    for_reason(s.scan(t, i).evidence, Reason::ExceptionHandler)
}

/// The handlers that are known.
spec fn known(s: Scan) -> Seq<ProceduralEvidence> {
    for_reason(s.evidence, Reason::ExceptionHandler)
}

proof fn lemma_told(s: Scan, t: Seq<Token>, i: int)
    requires
        0 <= i < t.len(),
    ensures
        told(s, t, i) == told(
            stepped(s, t, i).0,
            t,
            if stepped(s, t, i).1 == 2 {
                i + 2
            } else {
                i + 1
            },
        ),
{
    reveal(stepped);
    reveal(told);
}

proof fn lemma_end_word(s: Scan, t: Seq<Token>, i: int)
    requires
        0 <= i < t.len(),
        t[i].word == Word::End && t[i].keyword_like,
        word_at(t, i + 1) != Word::Case,
    ensures
        known(stepped(s, t, i).0) == known(s),
        stepped(s, t, i).1 == 2 ==> word_at(t, i + 1) != Word::Absent,
{
    reveal(stepped);
}

proof fn lemma_exception_word(s: Scan, t: Seq<Token>, i: int, base: Seq<Ctx>, body: bool)
    requires
        0 <= i < t.len(),
        t[i].word == Word::Exception && t[i].keyword_like,
        s.stack == base.push(Ctx::Block { exception_section: false, routine_body: body }),
    ensures
        stepped(s, t, i).1 == 1,
        stepped(s, t, i).0.stack == base.push(
            Ctx::Block { exception_section: true, routine_body: body },
        ),
        stepped(s, t, i).0.pending_loops == s.pending_loops,
        stepped(s, t, i).0.pending_bodies == s.pending_bodies,
        known(stepped(s, t, i).0) == known(s),
{
    reveal(stepped);
    lemma_topmost(s.stack, Pick::Block);
    assert(s.stack.last() == (Ctx::Block { exception_section: false, routine_body: body }));
    assert(topmost(s.stack, Pick::Block) == s.stack.len() - 1);
    assert(s.exception().stack =~= base.push(
        Ctx::Block { exception_section: true, routine_body: body },
    ));
}

proof fn lemma_begin_word(s: Scan, t: Seq<Token>, i: int) -> (base: Seq<Ctx>)
    requires
        0 <= i < t.len(),
        t[i].word == Word::Begin && t[i].keyword_like,
        !starts_transaction(word_at(t, i + 1)),
        word_at(t, i + 1) != Word::Try,
        word_at(t, i + 1) != Word::Catch,
        s.pending_loops == 0,
        s.pending_bodies >= 0,
    ensures
        stepped(s, t, i).1 == 1,
        nesting(base) == nesting(s.stack),
        stepped(s, t, i).0.stack == base.push(
            Ctx::Block { exception_section: false, routine_body: s.pending_bodies > 0 },
        ),
        stepped(s, t, i).0.pending_loops == 0,
        stepped(s, t, i).0.pending_bodies >= 0,
        known(stepped(s, t, i).0) == known(s),
{
    broadcast use lemma_report_reason;

    reveal(stepped);
    let span = t[i].span;
    let q = Scan { last_bool: None, pending_header: false, ..s };
    let body = Scan { in_body: true, ..q }.report(
        ProceduralMetric::BlockCount,
        span,
        1,
        Reason::Block,
    );
    let bound = body.bind_owner();
    lemma_bound_nesting(body);
    let opened = Ctx::Block {
        exception_section: false,
        routine_body: bound.pending_bodies > 0,
    };
    assert(s.begin(span, word_at(t, i + 1)).0.stack == bound.stack.push(opened));
    assert(nesting(bound.stack) == nesting(s.stack));
    bound.stack
}

/// A calm token changes no handler, and below an open block or handler it leaves
/// the constructs alone.
proof fn lemma_calm(s: Scan, t: Seq<Token>, i: int)
    requires
        0 <= i < t.len(),
        is_calm(t[i].word) || t[i].word == Word::Then,
    ensures
        for_reason(stepped(s, t, i).0.evidence, Reason::ExceptionHandler) == for_reason(
            s.evidence,
            Reason::ExceptionHandler,
        ),
        stepped(s, t, i).1 == 1 || (stepped(s, t, i).1 == 2 && (word_at(t, i + 1) == Word::Immediate
            || word_at(t, i + 1) == Word::SpExecutesql)),
        s.pending_loops == 0 && s.pending_bodies >= 0 && s.stack.len() > 0 && (s.stack.last()
            is Block || s.stack.last() is Handler) ==> keeps(s, stepped(s, t, i).0),
{
    broadcast use lemma_report_reason;

    reveal(stepped);
    lemma_calm_word(s, t, i);
    let span = t[i].span;
    assert(for_reason(s.boolean(BoolOp::And, span).evidence, Reason::ExceptionHandler)
        == for_reason(s.evidence, Reason::ExceptionHandler));
    assert(for_reason(s.boolean(BoolOp::Or, span).evidence, Reason::ExceptionHandler)
        == for_reason(s.evidence, Reason::ExceptionHandler));
    if s.pending_loops == 0 {
        assert(close_loops(s.stack, 0) == s.stack);
    }
}

/// What follows the block reports no handler.
proof fn lemma_calm_rest(s: Scan, t: Seq<Token>, i: int)
    requires
        0 <= i <= t.len(),
        forall|k: int| i <= k < t.len() ==> is_calm((#[trigger] t[k]).word),
    ensures
        told(s, t, i) == known(s),
    decreases t.len() - i,
{
    if i < t.len() {
        lemma_calm(s, t, i);
        lemma_told(s, t, i);
        let (r, taken) = stepped(s, t, i);
        if taken == 2 {
            assert(i + 1 < t.len());
            lemma_calm_rest(r, t, i + 2);
        } else {
            lemma_calm_rest(r, t, i + 1);
        }
    } else {
        reveal(told);
    }
}

/// The block around handlers, and a handler in it or not.
pub open spec fn in_section(stack: Seq<Ctx>, base: Seq<Ctx>, body: bool) -> bool {
    let block = Ctx::Block { exception_section: true, routine_body: body };
    stack == base.push(block) || stack == base.push(block).push(Ctx::Handler)
}

proof fn lemma_when(s: Scan, t: Seq<Token>, i: int, base: Seq<Ctx>, body: bool)
    requires
        0 <= i < t.len(),
        in_section(s.stack, base, body),
        t[i].word == Word::When && t[i].keyword_like,
        word_at(t, i + 1) != Word::Matched,
        !(word_at(t, i + 1) == Word::Not && word_at(t, i + 2) == Word::Matched),
    ensures
        stepped(s, t, i).1 == 1,
        in_section(stepped(s, t, i).0.stack, base, body),
        stepped(s, t, i).0.pending_loops == s.pending_loops,
        stepped(s, t, i).0.pending_bodies == s.pending_bodies,
        for_reason(stepped(s, t, i).0.evidence, Reason::ExceptionHandler) == for_reason(
            s.evidence,
            Reason::ExceptionHandler,
        ) + handler_at(
            t[i].span,
            if body {
                0
            } else {
                nesting(base)
            },
        ),
{
    broadcast use lemma_report_reason;

    reveal(stepped);
    let block = Ctx::Block { exception_section: true, routine_body: body };
    let open = base.push(block);
    assert(open.drop_last() =~= base);
    assert(open.last() == block);
    assert(nesting(open) == if body {
        0
    } else {
        nesting(base)
    });
    let span = t[i].span;
    let q = s.quiet();
    let below = Scan { stack: open, ..q };
    if s.stack == open {
        assert(below =~= q);
    } else {
        assert(s.stack.last() == Ctx::Handler);
        assert(s.stack.drop_last() =~= open);
        assert((Scan { stack: s.stack.drop_last(), ..q }) =~= below);
    }
    let r = below.decide(ProceduralMetric::ExceptionHandlerCount, span, Reason::ExceptionHandler);
    assert(s.when_word(span, word_at(t, i + 1), word_at(t, i + 2)) == r.open(Ctx::Handler));
    assert(for_reason(r.evidence, Reason::ExceptionHandler) =~= for_reason(
        s.evidence,
        Reason::ExceptionHandler,
    ) + handler_at(
        span,
        if body {
            0
        } else {
            nesting(base)
        },
    ));
    assert(r.open(Ctx::Handler).stack == open.push(Ctx::Handler));
}

proof fn lemma_section(
    s: Scan,
    t: Seq<Token>,
    b: int,
    x: int,
    e: int,
    i: int,
    base: Seq<Ctx>,
    body: bool,
)
    requires
        has_handlers(t, b, x, e),
        x < i <= e,
        in_section(s.stack, base, body),
        s.pending_loops == 0,
        s.pending_bodies >= 0,
    ensures
        told(s, t, i) == known(s) + handlers_in(
            t,
            i,
            e,
            if body {
                0
            } else {
                nesting(base)
            },
        ),
    decreases e - i,
{
    let around = if body {
        0
    } else {
        nesting(base)
    };
    let (r, taken) = stepped(s, t, i);
    lemma_told(s, t, i);
    if i == e {
        if e + 1 < t.len() {
            assert(is_calm(t[e + 1].word));
        }
        lemma_end_word(s, t, i);
        lemma_calm_rest(
            r,
            t,
            if taken == 2 {
                i + 2
            } else {
                i + 1
            },
        );
        assert(known(s) + handlers_in(t, i, e, around) =~= known(s));
    } else if t[i].word == Word::When {
        assert(in_handlers(t, i));
        lemma_when(s, t, i, base, body);
        lemma_section(r, t, b, x, e, i + 1, base, body);
        assert(known(s) + (handler_at(t[i].span, around) + handlers_in(t, i + 1, e, around)) =~= (
        known(s) + handler_at(t[i].span, around)) + handlers_in(t, i + 1, e, around));
    } else {
        assert(in_handlers(t, i));
        assert(s.stack.last() is Block || s.stack.last() is Handler);
        lemma_calm(s, t, i);
        if taken == 2 {
            assert(t[i + 1].word == Word::Immediate || t[i + 1].word == Word::SpExecutesql);
            assert(i + 1 < e);
            assert(handlers_in(t, i + 1, e, around) == handlers_in(t, i + 2, e, around));
            lemma_section(r, t, b, x, e, i + 2, base, body);
        } else {
            lemma_section(r, t, b, x, e, i + 1, base, body);
        }
    }
}

proof fn lemma_before_section(
    s: Scan,
    t: Seq<Token>,
    b: int,
    x: int,
    e: int,
    i: int,
    base: Seq<Ctx>,
    body: bool,
)
    requires
        has_handlers(t, b, x, e),
        b < i <= x,
        s.stack == base.push(Ctx::Block { exception_section: false, routine_body: body }),
        s.pending_loops == 0,
        s.pending_bodies >= 0,
    ensures
        told(s, t, i) == known(s) + handlers_in(
            t,
            x + 1,
            e,
            if body {
                0
            } else {
                nesting(base)
            },
        ),
    decreases x - i,
{
    let (r, taken) = stepped(s, t, i);
    lemma_told(s, t, i);
    assert(s.stack.last() == (Ctx::Block { exception_section: false, routine_body: body }));
    if i == x {
        lemma_exception_word(s, t, i, base, body);
        lemma_section(r, t, b, x, e, x + 1, base, body);
    } else {
        lemma_calm(s, t, i);
        if taken == 2 {
            assert(t[i + 1].word == Word::Immediate || t[i + 1].word == Word::SpExecutesql);
            lemma_before_section(r, t, b, x, e, i + 2, base, body);
        } else {
            lemma_before_section(r, t, b, x, e, i + 1, base, body);
        }
    }
}

/// Every `WHEN` in the exception section of a block is a handler: it reports one
/// handler, one path and one cost at its place, in order, and nothing else in
/// the block reports a handler. The cost is one and one more for each decision
/// around the block, none of them in the body of a routine.
pub proof fn every_when_of_a_section_is_a_handler(s: Scan, t: Seq<Token>, b: int, x: int, e: int)
    requires
        has_handlers(t, b, x, e),
        s.pending_loops == 0,
        s.pending_bodies >= 0,
    ensures
        for_reason(s.scan(t, b).evidence, Reason::ExceptionHandler) == for_reason(
            s.evidence,
            Reason::ExceptionHandler,
        ) + handlers_in(
            t,
            x + 1,
            e,
            if s.pending_bodies > 0 {
                0
            } else {
                nesting(s.stack)
            },
        ),
{
    let r = stepped(s, t, b).0;
    assert(word_at(t, b + 1) == t[b + 1].word);
    let base = lemma_begin_word(s, t, b);
    lemma_told(s, t, b);
    let body = s.pending_bodies > 0;
    lemma_before_section(r, t, b, x, e, b + 1, base, body);
    reveal(told);
}

/// Binding a control to its body changes no nesting.
proof fn lemma_bound_nesting(s: Scan)
    requires
        s.pending_loops == 0,
    ensures
        nesting(s.bind_owner().stack) == nesting(s.stack),
        s.bind_owner().evidence == s.evidence,
        s.bind_owner().pending_bodies == s.pending_bodies,
        s.bind_owner().pending_loops == 0,
{
    if s.stack.len() > 0 {
        let d = s.stack.drop_last();
        if let Ctx::If { with_then: false, else_taken, .. } = s.stack.last() {
            let c = Ctx::If { with_then: false, bound: true, else_taken };
            assert(d.push(c).drop_last() =~= d);
            assert(d.push(c).last() == c);
        }
    }
}

} // verus!
