//! The executable control-flow scanner.

use vstd::prelude::*;

use crate::control::{
    arm_evidence, bind_loops, block_depth, close_ifs, close_loops, close_owners, close_to,
    is_decision, nesting, picks, topmost, Arm, BoolOp, Ctx, Pick, ProceduralEvidence,
    ProceduralMetric, Reason, Scan,
};
use crate::span::SourceSpan;
use crate::token::{before, executes_text, peek, scalar_if_call, word_at, Token};
use crate::word::Word;

verus! {

/// The bound on every counter of a scanner.
pub const LIMIT: u64 = 0xffff_ffff_ffff_fffe;

/// A control-flow scanner.
pub struct Scanner {
    pub stack: Vec<Ctx>,
    pub arms: Vec<Arm>,
    pub next_case: u64,
    pub in_body: bool,
    pub pending_loops: u64,
    pub pending_between: bool,
    pub pending_header: bool,
    pub pending_bodies: u64,
    pub last_bool: Option<BoolOp>,
    pub evidence: Vec<ProceduralEvidence>,
    pub max_depth: u64,
    pub max_depth_span: Option<SourceSpan>,
}

impl View for Scanner {
    type V = Scan;

    open spec fn view(&self) -> Scan {
        Scan {
            stack: self.stack@,
            arms: self.arms@,
            next_case: self.next_case as int,
            in_body: self.in_body,
            pending_loops: self.pending_loops as int,
            pending_between: self.pending_between,
            pending_header: self.pending_header,
            pending_bodies: self.pending_bodies as int,
            last_bool: self.last_bool,
            evidence: self.evidence@,
            max_depth: self.max_depth as int,
            max_depth_span: self.max_depth_span,
        }
    }
}

/// Whether the state leaves room for `room` more tokens.
pub open spec fn fits(s: Scan, room: int) -> bool {
    &&& s.stack.len() + room <= LIMIT
    &&& 0 <= s.next_case && s.next_case + room <= LIMIT
    &&& 0 <= s.pending_loops && s.pending_loops + room <= LIMIT
    &&& 0 <= s.pending_bodies && s.pending_bodies + room <= LIMIT
    &&& 0 <= s.max_depth
}

/// What one token adds to the counters at most.
pub open spec fn grows(s: Scan, r: Scan) -> bool {
    &&& r.stack.len() <= s.stack.len() + 1
    &&& 0 <= r.next_case <= s.next_case + 1
    &&& 0 <= r.pending_loops <= s.pending_loops + 1
    &&& 0 <= r.pending_bodies <= s.pending_bodies + 1
    &&& 0 <= r.max_depth
}

// ── bounds ─────────────────────────────────────────────────────────────

pub proof fn lemma_nesting(stack: Seq<Ctx>)
    ensures
        0 <= nesting(stack) <= stack.len(),
    decreases stack.len(),
{
    if stack.len() > 0 {
        lemma_nesting(stack.drop_last());
    }
}

pub proof fn lemma_block_depth(stack: Seq<Ctx>)
    ensures
        0 <= block_depth(stack) <= stack.len(),
    decreases stack.len(),
{
    if stack.len() > 0 {
        lemma_block_depth(stack.drop_last());
    }
}

pub proof fn lemma_bind_loops(stack: Seq<Ctx>, k: int)
    ensures
        bind_loops(stack, k).len() == stack.len(),
    decreases stack.len(),
{
    if k > 0 && stack.len() > 0 {
        if stack.last() == (Ctx::Loop { block_bound: false }) {
            lemma_bind_loops(stack.drop_last(), k - 1);
        } else {
            lemma_bind_loops(stack.drop_last(), k);
        }
    }
}

pub proof fn lemma_close_owners(stack: Seq<Ctx>, else_next: bool)
    ensures
        close_owners(stack, else_next).len() <= stack.len(),
    decreases stack.len(),
{
    if stack.len() > 0 {
        lemma_close_owners(stack.drop_last(), else_next);
    }
}

pub proof fn lemma_close_ifs(stack: Seq<Ctx>, else_next: bool)
    ensures
        close_ifs(stack, else_next).len() <= stack.len(),
    decreases stack.len(),
{
    if stack.len() > 0 {
        lemma_close_ifs(stack.drop_last(), else_next);
    }
}

pub proof fn lemma_topmost(stack: Seq<Ctx>, p: Pick)
    ensures
        -1 <= topmost(stack, p) < stack.len(),
        topmost(stack, p) >= 0 ==> picks(p, stack[topmost(stack, p)]),
        forall|j: int| topmost(stack, p) < j < stack.len() ==> !picks(p, #[trigger] stack[j]),
        close_to(stack, p).len() <= stack.len(),
    decreases stack.len(),
{
    if stack.len() > 0 && !picks(p, stack.last()) {
        lemma_topmost(stack.drop_last(), p);
        assert forall|j: int| topmost(stack, p) < j < stack.len() implies !picks(
            p,
            #[trigger] stack[j],
        ) by {
            if j < stack.len() - 1 {
                assert(stack.drop_last()[j] == stack[j]);
            }
        }
    }
}

pub proof fn lemma_close_loops(stack: Seq<Ctx>, k: int)
    ensures
        close_loops(stack, k).len() <= stack.len(),
    decreases k,
{
    if k > 0 {
        lemma_topmost(stack, Pick::OpenLoop);
        lemma_close_loops(close_to(stack, Pick::OpenLoop), k - 1);
    }
}

proof fn lemma_begin_grows(s: Scan, span: SourceSpan, next: Word, room: int)
    requires
        fits(s, room),
    ensures
        grows(s, s.begin(span, next).0),
        s.begin(span, next).1 == 1 || s.begin(span, next).1 == 2,
{
    broadcast use {lemma_bind_len, lemma_depth_len};

}

proof fn lemma_end_grows(s: Scan, next: Word, after: Word, room: int)
    requires
        fits(s, room),
    ensures
        grows(s, s.end(next, after).0),
        s.end(next, after).1 == 1 || s.end(next, after).1 == 2,
{
    broadcast use {lemma_close_owners_len, lemma_close_to_len};

    lemma_topmost(s.stack, Pick::BareEnd);
    lemma_topmost(s.stack, Pick::Case);
}

proof fn lemma_terminator_grows(s: Scan, else_next: bool, room: int)
    requires
        fits(s, room),
    ensures
        grows(s, s.terminator(else_next)),
{
    broadcast use {lemma_close_ifs_len, lemma_close_loops_len};

}

proof fn lemma_keyword_grows(s: Scan, t: Seq<Token>, i: int, room: int)
    requires
        0 <= i < t.len(),
        fits(s, room),
    ensures
        grows(s, s.keyword(t, i).0),
        s.keyword(t, i).1 == 1 || s.keyword(t, i).1 == 2,
{
    lemma_begin_grows(s, t[i].span, word_at(t, i + 1), room);
    lemma_end_grows(s, word_at(t, i + 1), word_at(t, i + 2), room);
    lemma_topmost(s.stack, Pick::Block);
    assert(grows(s, s.exception()));
    assert(grows(s, s.if_word(t, i)));
    assert(grows(s, s.when_word(t[i].span, word_at(t, i + 1), word_at(t, i + 2))));
    assert(grows(s, s.else_word(t[i].span)));
    assert(grows(s, s.then_word()));
    assert(grows(s, s.execute(t, i).0));
    assert(grows(s, s.loop_word(t[i].span)));
    assert(grows(s, s.loop_header(t[i].span)));
    assert(grows(s, s.raise(t[i].span)));
}

/// One token opens at most one construct.
pub proof fn lemma_step_grows(s: Scan, t: Seq<Token>, i: int, room: int)
    requires
        0 <= i < t.len(),
        fits(s, room),
    ensures
        grows(s, s.step(t, i).0),
        s.step(t, i).1 == 1 || s.step(t, i).1 == 2,
{
    lemma_terminator_grows(s, word_at(t, i + 1) == Word::Else, room);
    lemma_keyword_grows(s, t, i, room);
}

pub broadcast proof fn lemma_close_owners_len(stack: Seq<Ctx>, else_next: bool)
    ensures
        #[trigger] close_owners(stack, else_next).len() <= stack.len(),
{
    lemma_close_owners(stack, else_next);
}

pub broadcast proof fn lemma_close_ifs_len(stack: Seq<Ctx>, else_next: bool)
    ensures
        #[trigger] close_ifs(stack, else_next).len() <= stack.len(),
{
    lemma_close_ifs(stack, else_next);
}

pub broadcast proof fn lemma_bind_len(stack: Seq<Ctx>, k: int)
    ensures
        #[trigger] bind_loops(stack, k).len() == stack.len(),
{
    lemma_bind_loops(stack, k);
}

pub broadcast proof fn lemma_close_loops_len(stack: Seq<Ctx>, k: int)
    ensures
        #[trigger] close_loops(stack, k).len() <= stack.len(),
{
    lemma_close_loops(stack, k);
}

pub broadcast proof fn lemma_close_to_len(stack: Seq<Ctx>, p: Pick)
    ensures
        #[trigger] close_to(stack, p).len() <= stack.len(),
{
    lemma_topmost(stack, p);
}

pub broadcast proof fn lemma_depth_len(stack: Seq<Ctx>)
    ensures
        0 <= #[trigger] block_depth(stack) <= stack.len(),
{
    lemma_block_depth(stack);
}

// ── the open constructs ────────────────────────────────────────────────

/// Whether a construct adds to cognitive nesting.
fn decision(c: Ctx) -> (r: bool)
    ensures
        r == is_decision(c),
{
    match c {
        Ctx::If { .. } => true,
        Ctx::Loop { .. } => true,
        Ctx::Case { .. } => true,
        Ctx::Catch => true,
        Ctx::Handler => true,
        _ => false,
    }
}

/// Whether a closer looks for a construct.
fn picked(p: Pick, c: Ctx) -> (r: bool)
    ensures
        r == picks(p, c),
{
    match p {
        Pick::IfWithThen => matches!(c, Ctx::If { with_then: true, .. }),
        Pick::OpenLoop => matches!(c, Ctx::Loop { block_bound: false }),
        Pick::Case => matches!(c, Ctx::Case { .. }),
        Pick::Try => matches!(c, Ctx::Try),
        Pick::Catch => matches!(c, Ctx::Catch),
        Pick::Block => matches!(c, Ctx::Block { .. }),
        Pick::BareEnd => matches!(c, Ctx::Block { .. } | Ctx::Case { .. } | Ctx::Try | Ctx::Catch),
    }
}

impl Scanner {
    /// Cognitive nesting: the decisions open inside the innermost routine
    /// body.
    pub fn nesting(&self) -> (r: u64)
        requires
            self.stack@.len() <= LIMIT,
        ensures
            r == nesting(self.stack@),
            r <= self.stack@.len(),
    {
        let mut found: u64 = 0;
        let mut i: usize = self.stack.len();
        assert(self.stack@.take(i as int) =~= self.stack@);
        while i > 0
            invariant
                i <= self.stack@.len() <= LIMIT,
                found + i <= self.stack@.len(),
                nesting(self.stack@) == found + nesting(self.stack@.take(i as int)),
            decreases i,
        {
            let c: Ctx = self.stack[i - 1];
            proof {
                assert(self.stack@.take(i as int).drop_last() =~= self.stack@.take(i - 1));
                assert(self.stack@.take(i as int).last() == c);
            }
            if matches!(c, Ctx::Block { routine_body: true, .. }) {
                return found;
            }
            if decision(c) {
                found = found + 1;
            }
            i = i - 1;
        }
        found
    }

    /// The number of open blocks.
    pub fn block_depth(&self) -> (r: u64)
        requires
            self.stack@.len() <= LIMIT,
        ensures
            r == block_depth(self.stack@),
    {
        let mut found: u64 = 0;
        let mut i: usize = 0;
        while i < self.stack.len()
            invariant
                i <= self.stack@.len() <= LIMIT,
                found <= i,
                found == block_depth(self.stack@.take(i as int)),
            decreases self.stack@.len() - i,
        {
            proof {
                assert(self.stack@.take(i + 1).drop_last() =~= self.stack@.take(i as int));
                assert(self.stack@.take(i + 1).last() == self.stack@[i as int]);
            }
            match self.stack[i] {
                Ctx::Block { .. } => {
                    found = found + 1;
                },
                Ctx::Try => {
                    found = found + 1;
                },
                Ctx::Catch => {
                    found = found + 1;
                },
                _ => {},
            }
            i = i + 1;
        }
        assert(self.stack@.take(i as int) =~= self.stack@);
        found
    }

    /// The position of the topmost construct that a closer looks for.
    fn topmost(&self, p: Pick) -> (r: Option<usize>)
        ensures
            match r {
                Some(at) => at == topmost(self.stack@, p) && at < self.stack@.len() && picks(
                    p,
                    self.stack@[at as int],
                ),
                None => topmost(self.stack@, p) < 0,
            },
    {
        let mut i: usize = self.stack.len();
        assert(self.stack@.take(i as int) =~= self.stack@);
        while i > 0
            invariant
                i <= self.stack@.len(),
                topmost(self.stack@, p) == topmost(self.stack@.take(i as int), p),
            decreases i,
        {
            proof {
                assert(self.stack@.take(i as int).drop_last() =~= self.stack@.take(i - 1));
                assert(self.stack@.take(i as int).last() == self.stack@[i - 1]);
            }
            if picked(p, self.stack[i - 1]) {
                return Some(i - 1);
            }
            i = i - 1;
        }
        None
    }

    /// Close the topmost construct that a closer looks for and everything
    /// above it.
    fn close_to(&mut self, p: Pick)
        ensures
            final(self)@ == (Scan { stack: close_to(old(self)@.stack, p), ..old(self)@ }),
    {
        match self.topmost(p) {
            Some(at) => {
                self.stack.truncate(at);
            },
            None => {},
        }
        assert(self@.stack =~= close_to(old(self)@.stack, p));
    }

    /// Close the completed constructs on top.
    fn close_owners(&mut self, else_next: bool)
        ensures
            final(self)@ == (Scan {
                stack: close_owners(old(self)@.stack, else_next),
                ..old(self)@
            }),
    {
        loop
            invariant
                self@ == (Scan { stack: self@.stack, ..old(self)@ }),
                close_owners(self@.stack, else_next) == close_owners(old(self)@.stack, else_next),
            ensures
                self@ == (Scan {
                    stack: close_owners(old(self)@.stack, else_next),
                    ..old(self)@
                }),
            decreases self.stack@.len(),
        {
            let k: usize = self.stack.len();
            if k == 0 {
                break;
            }
            let done = match self.stack[k - 1] {
                Ctx::Loop { block_bound } => block_bound,
                Ctx::If { with_then, .. } => !with_then && !else_next,
                _ => false,
            };
            if !done {
                break;
            }
            self.stack.pop();
        }
    }

    /// Close the constructs on top that a terminator completes.
    fn close_ifs(&mut self, else_next: bool)
        ensures
            final(self)@ == (Scan { stack: close_ifs(old(self)@.stack, else_next), ..old(self)@ }),
    {
        loop
            invariant
                self@ == (Scan { stack: self@.stack, ..old(self)@ }),
                close_ifs(self@.stack, else_next) == close_ifs(old(self)@.stack, else_next),
            ensures
                self@ == (Scan { stack: close_ifs(old(self)@.stack, else_next), ..old(self)@ }),
            decreases self.stack@.len(),
        {
            let k: usize = self.stack.len();
            if k == 0 {
                break;
            }
            let done = match self.stack[k - 1] {
                Ctx::If { with_then, bound, else_taken } => !with_then && !bound && (!else_next
                    || else_taken),
                _ => false,
            };
            if !done {
                break;
            }
            self.stack.pop();
        }
    }

    /// Close every loop header that still waits for its body opener.
    fn end_headers(&mut self)
        requires
            old(self)@.pending_loops >= 0,
        ensures
            final(self)@ == old(self)@.end_headers(),
    {
        let ghost start = self@;
        while self.pending_loops > 0
            invariant
                self@ == (Scan {
                    stack: self@.stack,
                    pending_loops: self@.pending_loops,
                    ..start
                }),
                close_loops(self@.stack, self@.pending_loops) == close_loops(
                    start.stack,
                    start.pending_loops,
                ),
            decreases self.pending_loops,
        {
            self.pending_loops = self.pending_loops - 1;
            self.close_to(Pick::OpenLoop);
        }
        assert(self@ =~= start.end_headers());
    }

    /// Bind the controls that wait for a body.
    fn bind_owner(&mut self)
        ensures
            final(self)@ == old(self)@.bind_owner(),
    {
        let ghost start = self@;
        if self.pending_loops > 0 {
            let mut pending: u64 = self.pending_loops;
            self.pending_loops = 0;
            let mut i: usize = self.stack.len();
            proof {
                assert(start.stack.take(i as int) =~= start.stack);
                lemma_bind_loops(start.stack, start.pending_loops);
                assert(bind_loops(start.stack, start.pending_loops) =~= bind_loops(
                    start.stack,
                    start.pending_loops,
                ) + self@.stack.skip(i as int));
            }
            while i > 0 && pending > 0
                invariant
                    i <= self.stack@.len() == start.stack.len(),
                    self@ == (Scan { stack: self@.stack, pending_loops: 0, ..start }),
                    start.pending_loops > 0,
                    self@.stack.take(i as int) == start.stack.take(i as int),
                    bind_loops(start.stack, start.pending_loops) == bind_loops(
                        start.stack.take(i as int),
                        pending as int,
                    ) + self@.stack.skip(i as int),
                decreases i,
            {
                let ghost prefix = start.stack.take(i as int);
                let ghost tail = self@.stack.skip(i as int);
                assert(prefix.drop_last() =~= start.stack.take(i - 1));
                assert(prefix.last() == self@.stack[i - 1]) by {
                    assert(self@.stack.take(i as int)[i - 1] == prefix[i - 1]);
                }
                let hit = matches!(self.stack[i - 1], Ctx::Loop { block_bound: false });
                if hit {
                    self.stack.set(i - 1, Ctx::Loop { block_bound: true });
                    pending = pending - 1;
                }
                i = i - 1;
                assert(self@.stack.take(i as int) =~= start.stack.take(i as int));
                assert(bind_loops(start.stack, start.pending_loops) =~= bind_loops(
                    start.stack.take(i as int),
                    pending as int,
                ) + self@.stack.skip(i as int));
            }
            assert(bind_loops(start.stack.take(i as int), pending as int) == start.stack.take(
                i as int,
            ));
            assert(self@.stack =~= self@.stack.take(i as int) + self@.stack.skip(i as int));
            assert(self@ =~= start.bind_owner());
        } else {
            let k: usize = self.stack.len();
            if k > 0 {
                match self.stack[k - 1] {
                    Ctx::If { with_then, else_taken, .. } => {
                        if !with_then {
                            self.stack.set(
                                k - 1,
                                Ctx::If { with_then: false, bound: true, else_taken },
                            );
                            assert(self@.stack =~= start.bind_owner().stack);
                        }
                    },
                    _ => {},
                }
            }
            assert(self@ =~= start.bind_owner());
        }
    }

    // ── reporting ──────────────────────────────────────────────────────

    fn report(&mut self, metric: ProceduralMetric, span: SourceSpan, amount: u64, reason: Reason)
        ensures
            final(self)@ == old(self)@.report(metric, span, amount as int, reason),
    {
        self.evidence.push(ProceduralEvidence { span, metric, amount, reason });
    }

    fn decide(&mut self, count: ProceduralMetric, span: SourceSpan, reason: Reason)
        requires
            old(self)@.stack.len() <= LIMIT,
        ensures
            final(self)@ == old(self)@.decide(count, span, reason),
    {
        let depth: u64 = self.nesting();
        self.report(count, span, 1, reason);
        self.report(ProceduralMetric::Cyclomatic, span, 1, reason);
        self.report(ProceduralMetric::Cognitive, span, 1 + depth, reason);
    }

    fn note_depth(&mut self, span: SourceSpan)
        requires
            old(self)@.stack.len() <= LIMIT,
        ensures
            final(self)@ == old(self)@.note_depth(span),
    {
        let depth: u64 = self.block_depth();
        if depth > self.max_depth {
            self.max_depth = depth;
            self.max_depth_span = Some(span);
        }
    }

    // ── tokens ─────────────────────────────────────────────────────────

    fn terminator(&mut self, else_next: bool)
        requires
            fits(old(self)@, 1),
        ensures
            final(self)@ == old(self)@.terminator(else_next),
    {
        if self.pending_header {
            self.pending_header = false;
            if self.pending_bodies > 0 {
                self.pending_bodies = self.pending_bodies - 1;
            }
        }
        self.end_headers();
        self.close_ifs(else_next);
        self.pending_between = false;
        self.last_bool = None;
    }

    fn begin(&mut self, span: SourceSpan, next: Word) -> (r: usize)
        requires
            fits(old(self)@, 1),
        ensures
            (final(self)@, r as int) == old(self)@.begin(span, next),
    {
        self.last_bool = None;
        self.pending_header = false;
        if matches!(
            next,
            Word::Transaction
                | Word::Tran
                | Word::Work
                | Word::Dialog
                | Word::Distributed
                | Word::Semicolon
        ) {
            return 1;
        }
        self.in_body = true;
        self.report(ProceduralMetric::BlockCount, span, 1, Reason::Block);
        proof {
            lemma_bind_loops(self@.stack, self@.pending_loops);
        }
        if next == Word::Try {
            self.bind_owner();
            self.stack.push(Ctx::Try);
            self.note_depth(span);
            2
        } else if next == Word::Catch {
            self.decide(
                ProceduralMetric::ExceptionHandlerCount,
                span,
                Reason::ExceptionHandler,
            );
            self.stack.push(Ctx::Catch);
            self.note_depth(span);
            2
        } else {
            self.bind_owner();
            let armed = self.pending_bodies > 0;
            if armed {
                self.pending_bodies = self.pending_bodies - 1;
            }
            self.stack.push(Ctx::Block { exception_section: false, routine_body: armed });
            self.note_depth(span);
            1
        }
    }

    fn end_case(&mut self)
        requires
            old(self)@.stack.len() <= LIMIT,
            cases_bounded(old(self)@.stack),
        ensures
            final(self)@ == old(self)@.end_case(),
    {
        let ghost start = self@;
        match self.topmost(Pick::Case) {
            Some(at) => {
                match self.stack[at] {
                    Ctx::Case { id, nesting, open_span } => {
                        self.stack.truncate(at);
                        assert(self@.stack =~= start.stack.take(at as int));
                        self.report(
                            ProceduralMetric::CaseStatementCount,
                            open_span,
                            1,
                            Reason::CaseStatement,
                        );
                        self.report(
                            ProceduralMetric::Cognitive,
                            open_span,
                            1 + nesting,
                            Reason::CaseStatement,
                        );
                        let ghost reported = self@;
                        let mut k: usize = 0;
                        while k < self.arms.len()
                            invariant
                                k <= self.arms@.len(),
                                self@ == (Scan {
                                    evidence: reported.evidence + arm_evidence(
                                        self.arms@.take(k as int),
                                        id,
                                    ),
                                    ..reported
                                }),
                            decreases self.arms@.len() - k,
                        {
                            let arm: Arm = self.arms[k];
                            proof {
                                assert(self.arms@.take(k + 1).drop_last() =~= self.arms@.take(
                                    k as int,
                                ));
                                assert(self.arms@.take(k + 1).last() == arm);
                            }
                            if arm.case == id {
                                self.report(
                                    ProceduralMetric::Cyclomatic,
                                    arm.span,
                                    1,
                                    Reason::CaseWhen,
                                );
                            }
                            k = k + 1;
                            assert(self@.evidence =~= reported.evidence + arm_evidence(
                                self.arms@.take(k as int),
                                id,
                            ));
                        }
                        assert(self.arms@.take(k as int) =~= self.arms@);
                        assert(self@ =~= start.end_case());
                    },
                    _ => {},
                }
            },
            None => {},
        }
    }

    fn bare_end(&mut self, next: Word)
        ensures
            final(self)@ == old(self)@.bare_end(next),
    {
        match self.topmost(Pick::BareEnd) {
            Some(at) => {
                let block = matches!(self.stack[at], Ctx::Block { .. });
                self.stack.truncate(at);
                assert(self@.stack =~= old(self)@.stack.take(at as int));
                if block {
                    self.close_owners(next == Word::Else);
                }
            },
            None => {},
        }
        assert(self@ =~= old(self)@.bare_end(next));
    }

    fn end(&mut self, next: Word, after: Word) -> (r: usize)
        requires
            fits(old(self)@, 1),
            cases_bounded(old(self)@.stack),
        ensures
            (final(self)@, r as int) == old(self)@.end(next, after),
    {
        self.last_bool = None;
        let k: usize = self.stack.len();
        if next == Word::If && self.topmost(Pick::IfWithThen).is_some() {
            self.close_to(Pick::IfWithThen);
            2
        } else if (next == Word::Loop || next == Word::While || next == Word::Repeat || next
            == Word::For) && k > 0 && picked(Pick::OpenLoop, self.stack[k - 1]) {
            self.stack.pop();
            assert(self@.stack =~= old(self)@.stack.drop_last());
            2
        } else if next == Word::Case {
            self.end_case();
            2
        } else if next == Word::Try && self.topmost(Pick::Try).is_some() {
            self.close_to(Pick::Try);
            2
        } else if next == Word::Catch && self.topmost(Pick::Catch).is_some() {
            self.close_to(Pick::Catch);
            self.close_owners(after == Word::Else);
            2
        } else {
            self.bare_end(next);
            1
        }
    }

    fn if_word(&mut self, t: &Vec<Token>, i: usize)
        requires
            i < t@.len(),
            fits(old(self)@, 1),
        ensures
            final(self)@ == old(self)@.if_word(t@, i as int),
    {
        self.last_bool = None;
        let guard = matches!(
            before(t, i),
            Word::Table
                | Word::View
                | Word::Index
                | Word::Schema
                | Word::Database
                | Word::Function
                | Word::Procedure
                | Word::Trigger
                | Word::Sequence
                | Word::Column
                | Word::Constraint
                | Word::Extension
                | Word::Type
                | Word::Role
                | Word::User
                | Word::Exists
        );
        if !guard && !t[i].function_name && !scalar_if_call(t, i) {
            self.decide(ProceduralMetric::IfCount, t[i].span, Reason::If);
            self.stack.push(Ctx::If { with_then: false, bound: false, else_taken: false });
        }
    }

    fn then_word(&mut self)
        ensures
            final(self)@ == old(self)@.then_word(),
    {
        self.last_bool = None;
        let k: usize = self.stack.len();
        if k > 0 {
            match self.stack[k - 1] {
                Ctx::If { bound, else_taken, .. } => {
                    self.stack.set(k - 1, Ctx::If { with_then: true, bound, else_taken });
                },
                _ => {},
            }
        }
        assert(self@ =~= old(self)@.then_word());
    }

    fn elsif(&mut self, span: SourceSpan)
        ensures
            final(self)@ == old(self)@.elsif(span),
    {
        self.last_bool = None;
        self.report(ProceduralMetric::IfCount, span, 1, Reason::Elsif);
        self.report(ProceduralMetric::Cyclomatic, span, 1, Reason::Elsif);
        self.report(ProceduralMetric::Cognitive, span, 1, Reason::Elsif);
    }

    fn else_word(&mut self, span: SourceSpan)
        ensures
            final(self)@ == old(self)@.else_word(span),
    {
        self.last_bool = None;
        let k: usize = self.stack.len();
        let of_case = k > 0 && matches!(self.stack[k - 1], Ctx::Case { .. });
        if !of_case {
            self.report(ProceduralMetric::Cognitive, span, 1, Reason::Else);
        }
        if k > 0 {
            match self.stack[k - 1] {
                Ctx::If { with_then, .. } => {
                    if !with_then {
                        self.stack.set(
                            k - 1,
                            Ctx::If { with_then: false, bound: false, else_taken: true },
                        );
                    }
                },
                _ => {},
            }
        }
        assert(self@ =~= old(self)@.else_word(span));
    }

    fn case_word(&mut self, span: SourceSpan)
        requires
            fits(old(self)@, 1),
        ensures
            final(self)@ == old(self)@.case_word(span),
    {
        self.last_bool = None;
        let depth: u64 = self.nesting();
        let id: u64 = self.next_case;
        self.next_case = id + 1;
        self.stack.push(Ctx::Case { id, nesting: depth, open_span: span });
    }

    fn when_word(&mut self, span: SourceSpan, next: Word, after: Word)
        requires
            fits(old(self)@, 1),
        ensures
            final(self)@ == old(self)@.when_word(span, next, after),
    {
        self.last_bool = None;
        let k: usize = self.stack.len();
        if next == Word::Matched || (next == Word::Not && after == Word::Matched) || k == 0 {
            return ;
        }
        match self.stack[k - 1] {
            Ctx::Case { id, .. } => {
                self.arms.push(Arm { case: id, span });
            },
            Ctx::Block { exception_section, .. } => {
                if exception_section {
                    self.decide(
                        ProceduralMetric::ExceptionHandlerCount,
                        span,
                        Reason::ExceptionHandler,
                    );
                    self.stack.push(Ctx::Handler);
                }
            },
            Ctx::Handler => {
                self.stack.pop();
                assert(self@.stack =~= old(self)@.stack.drop_last());
                self.decide(
                    ProceduralMetric::ExceptionHandlerCount,
                    span,
                    Reason::ExceptionHandler,
                );
                self.stack.push(Ctx::Handler);
            },
            _ => {},
        }
    }

    fn exception(&mut self)
        ensures
            final(self)@ == old(self)@.exception(),
    {
        self.last_bool = None;
        match self.topmost(Pick::Block) {
            Some(at) => {
                match self.stack[at] {
                    Ctx::Block { routine_body, .. } => {
                        self.stack.set(at, Ctx::Block { exception_section: true, routine_body });
                    },
                    _ => {},
                }
            },
            None => {
                self.stack.push(Ctx::Block { exception_section: true, routine_body: false });
            },
        }
        assert(self@ =~= old(self)@.exception());
    }

    fn exit_word(&mut self, span: SourceSpan, next: Word) -> (r: usize)
        ensures
            (final(self)@, r as int) == old(self)@.exit_word(span, next),
    {
        self.last_bool = None;
        if next == Word::When {
            self.report(ProceduralMetric::Cyclomatic, span, 1, Reason::ConditionalExit);
            self.report(ProceduralMetric::Cognitive, span, 1, Reason::ConditionalExit);
            2
        } else {
            1
        }
    }

    fn count_loop(&mut self, span: SourceSpan)
        requires
            fits(old(self)@, 1),
        ensures
            final(self)@ == old(self)@.count_loop(span),
    {
        self.decide(ProceduralMetric::LoopCount, span, Reason::Loop);
        self.stack.push(Ctx::Loop { block_bound: false });
    }

    fn loop_header(&mut self, span: SourceSpan)
        requires
            fits(old(self)@, 1),
        ensures
            final(self)@ == old(self)@.loop_header(span),
    {
        self.last_bool = None;
        self.count_loop(span);
        self.pending_loops = self.pending_loops + 1;
    }

    fn loop_word(&mut self, span: SourceSpan)
        requires
            fits(old(self)@, 1),
        ensures
            final(self)@ == old(self)@.loop_word(span),
    {
        self.last_bool = None;
        if self.pending_loops > 0 {
            self.pending_loops = self.pending_loops - 1;
        } else {
            self.count_loop(span);
        }
    }

    fn raise(&mut self, span: SourceSpan)
        ensures
            final(self)@ == old(self)@.raise(span),
    {
        self.last_bool = None;
        if self.in_body {
            self.report(ProceduralMetric::RaiseThrowCount, span, 1, Reason::RaiseThrow);
            self.report(ProceduralMetric::Cyclomatic, span, 1, Reason::RaiseThrow);
        }
    }

    fn dynamic_sql(&mut self, span: SourceSpan)
        ensures
            final(self)@ == old(self)@.dynamic_sql(span),
    {
        self.report(ProceduralMetric::DynamicSqlCount, span, 1, Reason::DynamicSql);
    }

    fn execute(&mut self, t: &Vec<Token>, i: usize) -> (r: usize)
        requires
            i < t@.len(),
        ensures
            (final(self)@, r as int) == old(self)@.execute(t@, i as int),
    {
        self.last_bool = None;
        let next: Word = peek(t, i, 1);
        if !self.in_body || before(t, i) == Word::Dot {
            1
        } else if next == Word::Immediate || next == Word::SpExecutesql {
            self.dynamic_sql(t[i].span);
            2
        } else if next == Word::OpenParen || executes_text(t, i) {
            self.dynamic_sql(t[i].span);
            1
        } else {
            1
        }
    }

    fn boolean(&mut self, op: BoolOp, span: SourceSpan)
        ensures
            final(self)@ == old(self)@.boolean(op, span),
    {
        if op == BoolOp::And && self.pending_between {
            self.pending_between = false;
        } else if self.in_body && !self.pending_header {
            self.report(ProceduralMetric::Cyclomatic, span, 1, Reason::BooleanOperator);
            let repeated = match self.last_bool {
                Some(last) => last == op,
                None => false,
            };
            if !repeated {
                self.report(ProceduralMetric::Cognitive, span, 1, Reason::BooleanSequence);
            }
            self.last_bool = Some(op);
        }
    }

    fn routine_header(&mut self, prev: Word)
        requires
            fits(old(self)@, 1),
        ensures
            final(self)@ == old(self)@.routine_header(prev),
    {
        if !matches!(prev, Word::Drop | Word::Alter | Word::On | Word::End | Word::Exists) {
            self.pending_bodies = self.pending_bodies + 1;
        }
        self.pending_header = true;
        self.last_bool = None;
    }

    fn body_start(&mut self, next: Word)
        requires
            fits(old(self)@, 1),
        ensures
            final(self)@ == old(self)@.body_start(next),
    {
        self.in_body = true;
        self.pending_header = false;
        if (next == Word::Language || next == Word::External) && self.pending_bodies > 0 {
            self.pending_bodies = self.pending_bodies - 1;
        }
        self.last_bool = None;
    }

    fn keyword(&mut self, t: &Vec<Token>, i: usize) -> (r: usize)
        requires
            i < t@.len(),
            fits(old(self)@, 1),
            cases_bounded(old(self)@.stack),
        ensures
            (final(self)@, r as int) == old(self)@.keyword(t@, i as int),
    {
        let span: SourceSpan = t[i].span;
        let next: Word = peek(t, i, 1);
        let after: Word = peek(t, i, 2);
        match t[i].word {
            Word::Is | Word::As => {
                self.body_start(next);
                1
            },
            Word::Function | Word::Procedure => {
                self.routine_header(before(t, i));
                1
            },
            Word::Begin => self.begin(span, next),
            Word::End => self.end(next, after),
            Word::If => {
                self.if_word(t, i);
                1
            },
            Word::Then => {
                self.then_word();
                1
            },
            Word::Elsif | Word::Elseif => {
                self.elsif(span);
                1
            },
            Word::Else => {
                self.else_word(span);
                1
            },
            Word::Case => {
                self.case_word(span);
                1
            },
            Word::When => {
                self.when_word(span, next, after);
                1
            },
            Word::Exception => {
                self.exception();
                1
            },
            Word::Exit | Word::Continue => self.exit_word(span, next),
            Word::Loop => {
                self.loop_word(span);
                1
            },
            Word::Do => {
                self.last_bool = None;
                if self.pending_loops > 0 {
                    self.pending_loops = self.pending_loops - 1;
                }
                1
            },
            Word::While => {
                self.loop_header(span);
                1
            },
            Word::Repeat => {
                self.last_bool = None;
                if next != Word::OpenParen {
                    self.count_loop(span);
                }
                1
            },
            Word::For => {
                self.last_bool = None;
                let other = matches!(
                    next,
                    Word::Each
                        | Word::Update
                        | Word::Select
                        | Word::Xml
                        | Word::Json
                        | Word::Browse
                        | Word::Share
                        | Word::Key
                        | Word::No
                        | Word::Delete
                        | Word::Insert
                        | Word::OpenParen
                );
                if !other && after == Word::In {
                    self.loop_header(span);
                }
                1
            },
            Word::Goto => {
                self.last_bool = None;
                if self.in_body {
                    self.report(ProceduralMetric::Cognitive, span, 1, Reason::Goto);
                }
                1
            },
            Word::Return => {
                self.last_bool = None;
                if self.in_body && !self.pending_header {
                    self.report(ProceduralMetric::ReturnCount, span, 1, Reason::Return);
                }
                1
            },
            Word::Raise
            | Word::RaiseApplicationError
            | Word::Throw
            | Word::Raiserror
            | Word::Signal
            | Word::Resignal => {
                self.raise(span);
                1
            },
            Word::Execute | Word::Exec => self.execute(t, i),
            Word::SpExecutesql => {
                self.last_bool = None;
                if self.in_body {
                    self.dynamic_sql(span);
                }
                1
            },
            Word::Prepare => {
                self.last_bool = None;
                if self.in_body && after == Word::From {
                    self.dynamic_sql(span);
                }
                1
            },
            Word::Between => {
                self.last_bool = None;
                self.pending_between = true;
                1
            },
            _ => 1,
        }
    }

    fn step(&mut self, t: &Vec<Token>, i: usize) -> (r: usize)
        requires
            i < t@.len(),
            fits(old(self)@, 1),
            cases_bounded(old(self)@.stack),
        ensures
            (final(self)@, r as int) == old(self)@.step(t@, i as int),
    {
        let w: Word = t[i].word;
        if w == Word::Semicolon {
            self.terminator(peek(t, i, 1) == Word::Else);
            1
        } else if w == Word::And {
            self.boolean(BoolOp::And, t[i].span);
            1
        } else if w == Word::Or {
            self.boolean(BoolOp::Or, t[i].span);
            1
        } else if w == Word::DbmsSql && peek(t, i, 1) == Word::Dot && peek(t, i, 3)
            == Word::OpenParen {
            self.last_bool = None;
            if self.in_body {
                self.dynamic_sql(t[i].span);
            }
            1
        } else if matches!(
            w,
            Word::Comma
                | Word::Where
                | Word::Having
                | Word::On
                | Word::SetWord
                | Word::Select
                | Word::From
                | Word::Group
                | Word::Order
                | Word::Values
                | Word::Into
                | Word::Union
                | Word::Join
                | Word::Qualify
        ) {
            self.last_bool = None;
            1
        } else if t[i].keyword_like {
            self.keyword(t, i)
        } else {
            1
        }
    }

    /// Scan a region's tokens.
    pub fn scan(&mut self, t: &Vec<Token>)
        requires
            fits(old(self)@, t@.len() as int),
            cases_bounded(old(self)@.stack),
        ensures
            final(self)@ == old(self)@.scan(t@, 0),
            fits(final(self)@, 0),
            final(self)@.stack.len() <= old(self)@.stack.len() + t@.len(),
            final(self)@.next_case <= old(self)@.next_case + t@.len(),
            cases_bounded(final(self)@.stack),
    {
        let ghost start = self@;
        let mut i: usize = 0;
        while i < t.len()
            invariant
                i <= t@.len(),
                fits(self@, t@.len() - i),
                cases_bounded(self@.stack),
                self@.scan(t@, i as int) == start.scan(t@, 0),
                self@.stack.len() <= start.stack.len() + i,
                self@.next_case <= start.next_case + i,
            decreases t@.len() - i,
        {
            let ghost was = self@;
            proof {
                lemma_step_grows(was, t@, i as int, t@.len() - i);
                lemma_step_cases(was, t@, i as int);
            }
            let taken: usize = self.step(t, i);
            if taken == 2 && i + 1 < t.len() {
                i = i + 2;
            } else if taken == 2 {
                proof {
                    assert(self@.scan(t@, i + 2) == self@.finish());
                    assert(self@.scan(t@, i + 1) == self@.finish());
                }
                i = i + 1;
            } else {
                i = i + 1;
            }
        }
        proof {
            lemma_close_loops(self@.stack, self@.pending_loops);
            lemma_close_loops_cases(self@.stack, self@.pending_loops);
        }
        self.end_headers();
        self.pending_between = false;
        self.pending_header = false;
        self.last_bool = None;
    }
}

/// Every case on the stack was opened at a nesting within bounds.
pub open spec fn cases_bounded(stack: Seq<Ctx>) -> bool {
    forall|j: int|
        0 <= j < stack.len() ==> ((#[trigger] stack[j]) matches Ctx::Case { nesting, .. } ==> nesting
            <= LIMIT)
}

proof fn lemma_close_loops_cases(stack: Seq<Ctx>, k: int)
    requires
        cases_bounded(stack),
    ensures
        cases_bounded(close_loops(stack, k)),
    decreases k,
{
    if k > 0 {
        lemma_topmost(stack, Pick::OpenLoop);
        lemma_close_loops_cases(close_to(stack, Pick::OpenLoop), k - 1);
    }
}

proof fn lemma_close_owners_cases(stack: Seq<Ctx>, else_next: bool)
    requires
        cases_bounded(stack),
    ensures
        cases_bounded(close_owners(stack, else_next)),
    decreases stack.len(),
{
    if stack.len() > 0 {
        assert(cases_bounded(stack.drop_last()));
        lemma_close_owners_cases(stack.drop_last(), else_next);
    }
}

proof fn lemma_close_ifs_cases(stack: Seq<Ctx>, else_next: bool)
    requires
        cases_bounded(stack),
    ensures
        cases_bounded(close_ifs(stack, else_next)),
    decreases stack.len(),
{
    if stack.len() > 0 {
        assert(cases_bounded(stack.drop_last()));
        lemma_close_ifs_cases(stack.drop_last(), else_next);
    }
}

proof fn lemma_bind_cases(stack: Seq<Ctx>, k: int)
    requires
        cases_bounded(stack),
    ensures
        cases_bounded(bind_loops(stack, k)),
    decreases stack.len(),
{
    if k > 0 && stack.len() > 0 {
        assert(cases_bounded(stack.drop_last()));
        lemma_bind_cases(stack.drop_last(), k - 1);
        lemma_bind_cases(stack.drop_last(), k);
    }
}

proof fn lemma_begin_cases(s: Scan, span: SourceSpan, next: Word)
    requires
        fits(s, 1),
        cases_bounded(s.stack),
    ensures
        cases_bounded(s.begin(span, next).0.stack),
{
    lemma_bind_cases(s.stack, s.pending_loops);
}

proof fn lemma_end_cases(s: Scan, next: Word, after: Word)
    requires
        fits(s, 1),
        cases_bounded(s.stack),
    ensures
        cases_bounded(s.end(next, after).0.stack),
{
    lemma_topmost(s.stack, Pick::BareEnd);
    lemma_topmost(s.stack, Pick::Catch);
    lemma_topmost(s.stack, Pick::Case);
    lemma_topmost(s.stack, Pick::Try);
    lemma_topmost(s.stack, Pick::IfWithThen);
    assert(cases_bounded(close_to(s.stack, Pick::Catch)));
    lemma_close_owners_cases(close_to(s.stack, Pick::Catch), after == Word::Else);
    assert(cases_bounded(close_to(s.stack, Pick::BareEnd)));
    lemma_close_owners_cases(close_to(s.stack, Pick::BareEnd), next == Word::Else);
}

proof fn lemma_keyword_cases(s: Scan, t: Seq<Token>, i: int)
    requires
        0 <= i < t.len(),
        fits(s, 1),
        cases_bounded(s.stack),
    ensures
        cases_bounded(s.keyword(t, i).0.stack),
{
    lemma_nesting(s.stack);
    lemma_begin_cases(s, t[i].span, word_at(t, i + 1));
    lemma_end_cases(s, word_at(t, i + 1), word_at(t, i + 2));
    lemma_topmost(s.stack, Pick::Block);
    assert(cases_bounded(s.exception().stack));
    assert(cases_bounded(s.if_word(t, i).stack));
    assert(cases_bounded(s.when_word(t[i].span, word_at(t, i + 1), word_at(t, i + 2)).stack));
    assert(cases_bounded(s.else_word(t[i].span).stack));
    assert(cases_bounded(s.then_word().stack));
    assert(cases_bounded(s.case_word(t[i].span).stack));
    assert(cases_bounded(s.loop_header(t[i].span).stack));
    assert(cases_bounded(s.loop_word(t[i].span).stack));
    assert(s.execute(t, i).0.stack == s.stack);
    assert(s.raise(t[i].span).stack == s.stack);
}

proof fn lemma_step_cases(s: Scan, t: Seq<Token>, i: int)
    requires
        0 <= i < t.len(),
        fits(s, 1),
        cases_bounded(s.stack),
    ensures
        cases_bounded(s.step(t, i).0.stack),
{
    lemma_close_loops_cases(s.stack, s.pending_loops);
    lemma_close_ifs_cases(
        close_loops(s.stack, s.pending_loops),
        word_at(t, i + 1) == Word::Else,
    );
    lemma_keyword_cases(s, t, i);
}

} // verus!
