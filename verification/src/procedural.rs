//! Procedural facts of a file: the control flow of its routines, blocks and
//! scripts.

use vstd::prelude::*;

use crate::control::{Arm, Ctx, ProceduralEvidence, ProceduralMetric, Reason};
use crate::kind::{Kind, KindSet};
use crate::query_shape::{
    bounded, lemma_bound_grows, lemma_merged_bound, merged, no_query, query_facts_of, region_shape,
    structural, QueryFacts, QueryShape, MERGE_BOUND, REGION_BOUND, SCORE_BOUND,
};
use crate::regions::{
    after_entries, after_routines, after_run, after_runs, after_segment, after_segments,
    after_statement, after_statements, attributed_all, continued_anonymous, continued_unit,
    control_led, evidence_of, file_progress, heaviest, holds_range, in_some_range, innermost,
    last_before, last_inside, no_progress, nothing_saved, open_anonymous, overlaps, overlaps_some,
    resumed, saved_or_nothing, separated, separates, spilled_unit, starts_between, starts_in,
    starts_in_body, total, unit_ranges, unit_structural, unit_total, LogEntry, Progress, Saved,
    Source,
};
use crate::scanner::{cases_bounded, Scanner, LIMIT};
use crate::span::{LineIndex, SourceSpan};
use crate::statements::{is_go_separator, is_owned, statement_span, StatementFacts, StatementKind};
use crate::token::{collect_tokens, peek, procedural_run, word_at, Token};
use crate::tree::{
    all_in, apart, crawl, every, lemma_crawl, lemma_outermost_apart, Node, Probe, Tree, MAX_NODES,
};
use crate::units::{units_view, ProceduralUnitFacts, Unit, UnitShare};
use crate::word::Word;

verus! {

// ── state ──────────────────────────────────────────────────────────────

/// The state in which a region leaves its routine.
pub struct SavedState {
    pub stack: Vec<Ctx>,
    pub arms: Vec<Arm>,
    pub next_case: u64,
    pub in_body: bool,
}

impl View for SavedState {
    type V = Saved;

    open spec fn view(&self) -> Saved {
        Saved {
            stack: self.stack@,
            arms: self.arms@,
            next_case: self.next_case as int,
            in_body: self.in_body,
        }
    }
}

pub open spec fn saved_view(s: Option<SavedState>) -> Option<Saved> {
    match s {
        Some(saved) => Some(saved@),
        None => None,
    }
}

/// What is known of a file while its regions are scanned.
pub struct Walk {
    pub log: Vec<LogEntry>,
    pub max_depth: u64,
    pub max_depth_span: Option<SourceSpan>,
    pub regions: Vec<(u32, u32)>,
    pub carried: Vec<Option<SavedState>>,
    pub anonymous: Vec<(u32, Option<SavedState>)>,
    pub extents: Vec<(u32, u32)>,
    pub queries: Vec<QueryFacts>,
}

pub open spec fn carried_view(v: Seq<Option<SavedState>>) -> Seq<Option<Saved>> {
    Seq::new(v.len(), |i: int| saved_view(v[i]))
}

pub open spec fn anonymous_view(v: Seq<(u32, Option<SavedState>)>) -> Seq<(u32, Option<Saved>)> {
    Seq::new(v.len(), |i: int| (v[i].0, saved_view(v[i].1)))
}

pub open spec fn queries_view(v: Seq<QueryFacts>) -> Seq<QueryShape> {
    Seq::new(v.len(), |i: int| v[i]@)
}

impl View for Walk {
    type V = Progress;

    open spec fn view(&self) -> Progress {
        Progress {
            log: self.log@,
            max_depth: self.max_depth as int,
            max_depth_span: self.max_depth_span,
            regions: self.regions@,
            carried: carried_view(self.carried@),
            anonymous: anonymous_view(self.anonymous@),
            extents: self.extents@,
            queries: queries_view(self.queries@),
        }
    }
}

/// Whether a state is no larger than `room` tokens can make it.
pub open spec fn saved_fits(s: Saved, room: int) -> bool {
    &&& s.stack.len() <= room
    &&& 0 <= s.next_case <= room
    &&& cases_bounded(s.stack)
}

pub open spec fn held_fits(s: Option<Saved>, room: int) -> bool {
    s matches Some(saved) ==> saved_fits(saved, room)
}

/// The most regions that a file can have.
pub const MAX_REGIONS: u64 = 0x3_0000_0000;

/// Whether everything known is no larger than `r` regions of `c` nodes can make
/// it.
pub open spec fn walk_fits(p: Progress, units: int, r: int, c: int) -> bool {
    &&& 0 <= r
    &&& 0 <= c
    &&& p.carried.len() == units
    &&& p.extents.len() == units
    &&& p.queries.len() == units
    &&& 0 <= p.max_depth
    &&& forall|u: int|
        0 <= u < p.carried.len() ==> held_fits(#[trigger] p.carried[u], c)
    &&& forall|a: int|
        0 <= a < p.anonymous.len() ==> held_fits((#[trigger] p.anonymous[a]).1, c)
    &&& forall|u: int|
        0 <= u < p.queries.len() ==> bounded(#[trigger] p.queries[u], r * REGION_BOUND)
}

proof fn lemma_fits_grows(p: Progress, units: int, r: int, c: int, d: int)
    requires
        walk_fits(p, units, r, c),
        c <= d,
    ensures
        walk_fits(p, units, r + 1, d),
{
    assert forall|u: int| 0 <= u < p.queries.len() implies bounded(
        #[trigger] p.queries[u],
        (r + 1) * REGION_BOUND,
    ) by {
        lemma_bound_grows(p.queries[u], r * REGION_BOUND, (r + 1) * REGION_BOUND);
    }
}

/// More nodes leave more room.
proof fn lemma_more_room(p: Progress, units: int, r: int, c: int, d: int)
    requires
        walk_fits(p, units, r, c),
        c <= d,
    ensures
        walk_fits(p, units, r, d),
{
}

/// How many nodes a subtree has.
pub open spec fn subtree_size(n: Seq<Node>, i: int) -> int {
    n[i].end - i
}

// ── ranges ─────────────────────────────────────────────────────────────

/// The last range that holds a range.
fn find_innermost(s: &Vec<(u32, u32)>, range: (u32, u32)) -> (r: Option<usize>)
    ensures
        r == innermost(s@, range, s@.len() as int),
        r matches Some(u) ==> u < s@.len(),
{
    let mut k: usize = s.len();
    while k > 0
        invariant
            k <= s@.len(),
            innermost(s@, range, s@.len() as int) == innermost(s@, range, k as int),
        decreases k,
    {
        let (a, b) = s[k - 1];
        if a <= range.0 && range.1 <= b {
            return Some(k - 1);
        }
        k = k - 1;
    }
    None
}

/// The last range that lies in a range.
fn find_last_inside(s: &Vec<(u32, u32)>, range: (u32, u32)) -> (r: Option<usize>)
    ensures
        r == last_inside(s@, range, s@.len() as int),
        r matches Some(u) ==> u < s@.len(),
{
    let mut k: usize = s.len();
    while k > 0
        invariant
            k <= s@.len(),
            last_inside(s@, range, s@.len() as int) == last_inside(s@, range, k as int),
        decreases k,
    {
        let (a, b) = s[k - 1];
        if range.0 <= a && b <= range.1 {
            return Some(k - 1);
        }
        k = k - 1;
    }
    None
}

/// The range that ends last at or before `byte`.
pub fn last_unit_before(s: &Vec<(u32, u32)>, byte: u32) -> (r: Option<usize>)
    ensures
        r == last_before(s@, byte, s@.len() as int),
        r matches Some(u) ==> u < s@.len(),
{
    let mut best: Option<usize> = None;
    let mut k: usize = 0;
    while k < s.len()
        invariant
            k <= s@.len(),
            best == last_before(s@, byte, k as int),
            best matches Some(u) ==> u < k,
        decreases s@.len() - k,
    {
        let later = match best {
            Some(u) => s[u].1 <= s[k].1,
            None => true,
        };
        if s[k].1 <= byte && later {
            best = Some(k);
        }
        k = k + 1;
    }
    best
}

/// Whether one of the ranges holds a range.
fn is_in_some_range(s: &Vec<(u32, u32)>, range: (u32, u32)) -> (r: bool)
    ensures
        r == in_some_range(s@, range),
{
    let mut k: usize = 0;
    while k < s.len()
        invariant
            k <= s@.len(),
            forall|l: int| 0 <= l < k ==> !holds_range(#[trigger] s@[l], range),
        decreases s@.len() - k,
    {
        if s[k].0 <= range.0 && range.1 <= s[k].1 {
            assert(holds_range(s@[k as int], range));
            return true;
        }
        k = k + 1;
    }
    false
}

/// Whether one of the ranges shares a byte with a range.
fn overlaps_any(s: &Vec<(u32, u32)>, range: (u32, u32)) -> (r: bool)
    ensures
        r == overlaps_some(s@, range),
{
    let mut k: usize = 0;
    while k < s.len()
        invariant
            k <= s@.len(),
            forall|l: int| 0 <= l < k ==> !overlaps(#[trigger] s@[l], range),
        decreases s@.len() - k,
    {
        if s[k].0 < range.1 && range.0 < s[k].1 {
            assert(overlaps(s@[k as int], range));
            return true;
        }
        k = k + 1;
    }
    false
}

/// Whether a region starts between two bytes.
fn any_starts_between(s: &Vec<(u32, u32)>, from: u32, to: u32) -> (r: bool)
    ensures
        r == starts_between(s@, from, to),
{
    let mut k: usize = 0;
    while k < s.len()
        invariant
            k <= s@.len(),
            forall|l: int| 0 <= l < k ==> !starts_in(#[trigger] s@[l], from, to),
        decreases s@.len() - k,
    {
        if from < s[k].0 && s[k].0 < to {
            assert(starts_in(s@[k as int], from, to));
            return true;
        }
        k = k + 1;
    }
    false
}

// ── the file's context ─────────────────────────────────────────────────

/// What the rules need to know of a file.
pub struct Context<'a> {
    pub tree: &'a Tree,
    pub lines: &'a LineIndex,
    pub units: &'a Vec<ProceduralUnitFacts>,
    pub ranges: &'a Vec<(u32, u32)>,
    pub statements: &'a Vec<usize>,
    pub facts: &'a Vec<StatementFacts>,
    pub spills: bool,
}

impl<'a> Context<'a> {
    pub open spec fn source(self) -> Source {
        Source {
            nodes: self.tree@,
            lines: self.lines@,
            units: units_view(self.units@),
            statements: self.statements@,
            facts: self.facts@,
            spills: self.spills,
        }
    }

    pub open spec fn wf(self) -> bool {
        &&& self.tree.wf()
        &&& self.lines@.wf()
        &&& self.ranges@ == unit_ranges(units_view(self.units@))
        &&& self.statements@.len() == self.facts@.len()
        &&& self.facts@.len() <= MAX_NODES
        &&& forall|k: int|
            0 <= k < self.statements@.len() ==> (#[trigger] self.statements@[k])
                < self.tree@.len()
        &&& apart(self.tree@, self.statements@)
        &&& forall|u: int|
            0 <= u < self.units@.len() ==> ((#[trigger] self.units@[u]).node matches Some(node)
                ==> node < self.tree@.len())
    }
}

impl Walk {
    /// Scan a region and take down what it reports.
    fn scan(
        &mut self,
        ranges: &Vec<(u32, u32)>,
        t: &Vec<Token>,
        fallback: Option<usize>,
        saved: SavedState,
        in_body: bool,
        units: Ghost<int>,
        r: Ghost<int>,
        c: Ghost<int>,
    ) -> (end: SavedState)
        requires
            walk_fits(old(self)@, units@, r@, c@),
            r@ < MAX_REGIONS,
            c@ + t@.len() <= LIMIT,
            saved_fits(saved@, c@),
        ensures
            (final(self)@, end@) == old(self)@.scanned(ranges@, t@, fallback, saved@, in_body),
            walk_fits(final(self)@, units@, r@ + 1, c@ + t@.len()),
            saved_fits(end@, c@ + t@.len()),
    {
        let ghost start = self@;
        let SavedState { stack, arms, next_case, .. } = saved;
        let mut scanner = Scanner {
            stack,
            arms,
            next_case,
            in_body,
            pending_loops: 0,
            pending_between: false,
            pending_header: false,
            pending_bodies: 0,
            last_bool: None,
            evidence: Vec::new(),
            max_depth: self.max_depth,
            max_depth_span: self.max_depth_span,
        };
        assert(scanner@ =~= resumed(start, saved@, in_body));
        scanner.scan(t);
        let ghost s = scanner@;
        let mut k: usize = 0;
        while k < scanner.evidence.len()
            invariant
                k <= scanner.evidence@.len(),
                scanner@ == s,
                self@ == (Progress {
                    log: start.log + attributed_all(ranges@, fallback, s.evidence, k as int),
                    ..start
                }),
            decreases scanner.evidence@.len() - k,
        {
            let e: ProceduralEvidence = scanner.evidence[k];
            let inner = find_innermost(ranges, (e.span.start_byte, e.span.end_byte));
            let unit: Option<usize> = match inner {
                Some(u) => Some(u),
                None => fallback,
            };
            let ghost was = self.log@;
            self.log.push(LogEntry { evidence: e, unit });
            k = k + 1;
            assert(self.log@ =~= start.log + attributed_all(
                ranges@,
                fallback,
                s.evidence,
                k as int,
            ));
        }
        self.max_depth = scanner.max_depth;
        self.max_depth_span = scanner.max_depth_span;
        proof {
            assert(self@ =~= start.scanned(ranges@, t@, fallback, saved@, in_body).0);
            lemma_fits_grows(start, units@, r@, c@, c@ + t@.len());
        }
        let Scanner { stack, arms, next_case, in_body, .. } = scanner;
        SavedState { stack, arms, next_case, in_body }
    }

    /// Take down one piece of evidence.
    fn log_entry(
        &mut self,
        span: SourceSpan,
        metric: ProceduralMetric,
        amount: u64,
        reason: Reason,
        unit: Option<usize>,
    )
        ensures
            final(self)@ == old(self)@.logged(span, metric, amount, reason, unit),
    {
        self.log.push(
            LogEntry { evidence: ProceduralEvidence { span, metric, amount, reason }, unit },
        );
        assert(self@ =~= old(self)@.logged(span, metric, amount, reason, unit));
    }

    /// Let a routine reach at least to the given end.
    fn extend(&mut self, unit: usize, end: u32, end_line: u32)
        requires
            unit < old(self)@.extents.len(),
        ensures
            final(self)@ == old(self)@.extended(unit as int, end, end_line),
    {
        let (e, l) = self.extents[unit];
        if end > e {
            self.extents.set(unit, (end, if end_line > l {
                end_line
            } else {
                l
            }));
        }
        assert(self@ =~= old(self)@.extended(unit as int, end, end_line));
    }

    /// Take up the state in which a routine was left.
    fn take_carried(&mut self, unit: usize) -> (r: Option<SavedState>)
        requires
            unit < old(self)@.carried.len(),
        ensures
            saved_view(r) == old(self)@.carried[unit as int],
            final(self)@ == (Progress {
                carried: old(self)@.carried.update(unit as int, None),
                ..old(self)@
            }),
    {
        let held = self.carried.remove(unit);
        self.carried.insert(unit, None);
        assert(self@.carried =~= old(self)@.carried.update(unit as int, None));
        held
    }

    /// Keep the state in which a routine is left.
    fn put_carried(&mut self, unit: usize, s: SavedState)
        requires
            unit < old(self)@.carried.len(),
        ensures
            final(self)@ == (Progress {
                carried: old(self)@.carried.update(unit as int, Some(s@)),
                ..old(self)@
            }),
    {
        let ghost state = s@;
        self.carried.set(unit, Some(s));
        assert(self@.carried =~= old(self)@.carried.update(unit as int, Some(state)));
    }
}

/// No state.
fn fresh_state() -> (r: SavedState)
    ensures
        r@ == nothing_saved(),
        saved_fits(r@, 0),
{
    SavedState { stack: Vec::new(), arms: Vec::new(), next_case: 0, in_body: false }
}

fn state_or_fresh(s: Option<SavedState>) -> (r: SavedState)
    ensures
        r@ == saved_or_nothing(saved_view(s)),
{
    match s {
        Some(saved) => saved,
        None => fresh_state(),
    }
}

/// Scan one statement, if it is a region.
fn visit_statement(cx: &Context, w: &mut Walk, k: usize, r: Ghost<int>, c: Ghost<int>)
    requires
        cx.wf(),
        k < cx.facts@.len(),
        walk_fits(old(w)@, cx.units@.len() as int, r@, c@),
        r@ < MAX_REGIONS,
        c@ + subtree_size(cx.tree@, cx.statements@[k as int] as int) <= LIMIT,
    ensures
        final(w)@ == after_statement(cx.source(), old(w)@, k as int),
        walk_fits(
            final(w)@,
            cx.units@.len() as int,
            r@ + 1,
            c@ + subtree_size(cx.tree@, cx.statements@[k as int] as int),
        ),
{
    let ghost src = cx.source();
    let ghost start = w@;
    let ghost count = cx.units@.len() as int;
    let ghost d = c@ + subtree_size(cx.tree@, cx.statements@[k as int] as int);
    proof {
        lemma_fits_grows(start, count, r@, c@, d);
        assert(src.units.len() == count);
        assert(cx.ranges@.len() == count);
    }
    let f: StatementFacts = cx.facts[k];
    let node: usize = cx.statements[k];
    let t = collect_tokens(cx.tree, cx.lines, node);
    let known = f.kind == StatementKind::Procedural || f.kind == StatementKind::AnonymousBlock;
    let gate = f.kind == StatementKind::Unknown && procedural_run(&t);
    let range: (u32, u32) = (f.start_byte, f.end_byte);
    if !(known || gate) || is_owned(cx.ranges, range) {
        return ;
    }
    let inside = find_last_inside(cx.ranges, range);
    let fallback: Option<usize> = if f.kind == StatementKind::Procedural && inside.is_none() {
        last_unit_before(cx.ranges, f.start_byte)
    } else {
        None
    };
    assert(fallback == continued_unit(src, k as int));
    w.regions.push(range);
    let ghost opened = w@;
    assert(opened =~= (Progress { regions: start.regions.push(range), ..start }));
    let held: Option<SavedState> = match fallback {
        Some(u) => w.take_carried(u),
        None => None,
    };
    let ghost held_view = saved_view(held);
    let from = state_or_fresh(held);
    let ghost from_view = from@;
    proof {
        assert(walk_fits(w@, count, r@, c@));
        assert(saved_fits(from@, c@)) by {
            if fallback is Some {
                assert(held_fits(start.carried[fallback->0 as int], c@));
            }
        }
    }
    let lead: Word = peek(&t, 0, 0);
    let in_body = from.in_body || (f.kind == StatementKind::AnonymousBlock && lead
        != Word::Declare) || fallback.is_some() || gate;
    assert(in_body == (from_view.in_body || starts_in_body(src, k as int, t@)));
    let end = w.scan(cx.ranges, &t, fallback, from, in_body, Ghost(count), r, c);
    proof {
        lemma_more_room(w@, count, r@ + 1, c@ + t@.len(), d);
    }
    let ghost scanned = w@;
    let ghost end_view = end@;
    let owner: Option<usize> = match fallback {
        Some(u) => Some(u),
        None => inside,
    };
    match owner {
        Some(u) => {
            w.put_carried(u, end);
        },
        None => {
            if f.kind == StatementKind::AnonymousBlock && end.stack.len() > 0 {
                w.anonymous.push((f.end_byte, Some(end)));
                assert(w@ =~= (Progress {
                    anonymous: scanned.anonymous.push((f.end_byte, Some(end_view))),
                    ..scanned
                }));
            }
        },
    }
    let ghost kept = w@;
    assert(walk_fits(kept, count, r@ + 1, d));
    match fallback {
        Some(u) => {
            let more = query_facts_of(cx.tree, node);
            let before: QueryFacts = w.queries[u];
            proof {
                assert(start.queries[u as int] == before@);
                assert(bounded(start.queries[u as int], r@ * REGION_BOUND));
                lemma_bound_grows(before@, r@ * REGION_BOUND, MERGE_BOUND as int);
                lemma_bound_grows(more@, REGION_BOUND as int, MERGE_BOUND as int);
                lemma_merged_bound(before@, more@, r@ * REGION_BOUND, REGION_BOUND as int);
                assert(r@ * REGION_BOUND + REGION_BOUND == (r@ + 1) * REGION_BOUND);
            }
            let both = before.merge(&more);
            w.queries.set(u, both);
            assert(w@ =~= (Progress {
                queries: kept.queries.update(
                    u as int,
                    merged(kept.queries[u as int], region_shape(src.nodes, node as int)),
                ),
                ..kept
            }));
            assert(walk_fits(w@, count, r@ + 1, d));
            w.extend(u, f.end_byte, f.end_line);
        },
        None => {},
    }
    if f.kind == StatementKind::AnonymousBlock {
        w.log_entry(
            statement_span(&f),
            ProceduralMetric::Cyclomatic,
            1,
            Reason::Entry,
            None,
        );
    }
}

/// Scan one scripting segment.
fn visit_segment(cx: &Context, w: &mut Walk, seg: usize, r: Ghost<int>, c: Ghost<int>)
    requires
        cx.wf(),
        seg < cx.tree@.len(),
        walk_fits(old(w)@, cx.units@.len() as int, r@, c@),
        r@ < MAX_REGIONS,
        c@ + subtree_size(cx.tree@, seg as int) <= LIMIT,
    ensures
        final(w)@ == after_segment(cx.source(), old(w)@, seg as int),
        walk_fits(
            final(w)@,
            cx.units@.len() as int,
            r@ + 1,
            c@ + subtree_size(cx.tree@, seg as int),
        ),
{
    let ghost start = w@;
    let ghost count = cx.units@.len() as int;
    let ghost d = c@ + subtree_size(cx.tree@, seg as int);
    proof {
        lemma_fits_grows(start, count, r@, c@, d);
    }
    match cx.tree.span_at(seg) {
        None => {},
        Some(range) => {
            if is_in_some_range(&w.regions, range) {
                return ;
            }
            w.regions.push(range);
            assert(w@ =~= (Progress { regions: start.regions.push(range), ..start }));
            let t = collect_tokens(cx.tree, cx.lines, seg);
            let fresh = fresh_state();
            let ghost fresh_view = fresh@;
            let end = w.scan(cx.ranges, &t, None, fresh, true, Ghost(count), r, c);
            proof {
                lemma_more_room(w@, count, r@ + 1, c@ + t@.len(), d);
            }
            if !overlaps_any(cx.ranges, range) {
                w.log_entry(
                    cx.lines.span_of(range),
                    ProceduralMetric::Cyclomatic,
                    1,
                    Reason::Entry,
                    None,
                );
            }
        },
    }
}

/// Whether a batch separator stands between two bytes.
fn is_separated(cx: &Context, from: u32, to: u32) -> (r: bool)
    requires
        cx.wf(),
    ensures
        r == separated(cx.source(), from, to),
{
    let ghost src = cx.source();
    let mut k: usize = 0;
    while k < cx.facts.len()
        invariant
            cx.wf(),
            src == cx.source(),
            k <= cx.facts@.len(),
            forall|l: int| 0 <= l < k ==> !#[trigger] separates(src, l, from, to),
        decreases cx.facts@.len() - k,
    {
        let f: StatementFacts = cx.facts[k];
        if f.kind == StatementKind::Unknown && from <= f.start_byte && f.start_byte <= to
            && is_go_separator(cx.tree, cx.statements[k]) {
            assert(separates(src, k as int, from, to));
            return true;
        }
        k = k + 1;
    }
    false
}

/// Whether a run is a block of its own.
fn leads_with_control(t: &Vec<Token>) -> (r: bool)
    ensures
        r == control_led(t@),
{
    match peek(t, 0, 0) {
        Word::If | Word::While | Word::For | Word::Loop | Word::Declare => true,
        Word::Begin => !matches!(
            peek(t, 0, 1),
            Word::Transaction
                | Word::Tran
                | Word::Work
                | Word::Dialog
                | Word::Distributed
                | Word::Semicolon
        ),
        _ => false,
    }
}

/// The anonymous region that a run goes on from.
fn find_anonymous(w: &Walk, t: &Vec<Token>, start: u32) -> (r: Option<usize>)
    ensures
        r == continued_anonymous(w@, t@, start),
        r matches Some(a) ==> a < w.anonymous@.len() && w@.anonymous[a as int].1 is Some,
{
    if peek(t, 0, 0) != Word::Else {
        return None;
    }
    let ghost s = w@.anonymous;
    let mut k: usize = w.anonymous.len();
    while k > 0
        invariant
            k <= w.anonymous@.len(),
            s == w@.anonymous,
            word_at(t@, 0) == Word::Else,
            open_anonymous(s, start, s.len() as int) == open_anonymous(s, start, k as int),
        decreases k,
    {
        assert(s[k - 1] == (w.anonymous@[k - 1].0, saved_view(w.anonymous@[k - 1].1)));
        if w.anonymous[k - 1].0 <= start && w.anonymous[k - 1].1.is_some() {
            if any_starts_between(&w.regions, w.anonymous[k - 1].0, start) {
                return None;
            }
            return Some(k - 1);
        }
        k = k - 1;
    }
    None
}

/// Scan one run that could not be parsed.
fn visit_run(cx: &Context, w: &mut Walk, run: usize, r: Ghost<int>, c: Ghost<int>)
    requires
        cx.wf(),
        run < cx.tree@.len(),
        walk_fits(old(w)@, cx.units@.len() as int, r@, c@),
        r@ < MAX_REGIONS,
        c@ + subtree_size(cx.tree@, run as int) <= LIMIT,
    ensures
        final(w)@ == after_run(cx.source(), old(w)@, run as int),
        walk_fits(
            final(w)@,
            cx.units@.len() as int,
            r@ + 1,
            c@ + subtree_size(cx.tree@, run as int),
        ),
{
    let ghost src = cx.source();
    let ghost start = w@;
    let ghost count = cx.units@.len() as int;
    let ghost d = c@ + subtree_size(cx.tree@, run as int);
    proof {
        lemma_fits_grows(start, count, r@, c@, d);
        assert(cx.ranges@.len() == count);
    }
    let range: (u32, u32) = match cx.tree.span_at(run) {
        None => {
            return ;
        },
        Some(range) => range,
    };
    if is_in_some_range(&w.regions, range) {
        return ;
    }
    let t = collect_tokens(cx.tree, cx.lines, run);
    if !procedural_run(&t) {
        return ;
    }
    let fallback: Option<usize> = if cx.spills {
        match last_unit_before(cx.ranges, range.0) {
            Some(u) => {
                if is_separated(cx, w.extents[u].0, range.0) {
                    None
                } else {
                    Some(u)
                }
            },
            None => None,
        }
    } else {
        None
    };
    assert(fallback == spilled_unit(src, start, range.0));
    if cx.spills && fallback.is_none() && leads_with_control(&t) {
        w.log_entry(
            cx.lines.span_of(range),
            ProceduralMetric::Cyclomatic,
            1,
            Reason::Entry,
            None,
        );
    }
    let ghost entered = w@;
    let anon: Option<usize> = if fallback.is_none() {
        find_anonymous(w, &t, range.0)
    } else {
        None
    };
    let taken: Option<SavedState> = match fallback {
        Some(u) => w.take_carried(u),
        None => {
            match anon {
                Some(a) => {
                    let (end, state) = w.anonymous.remove(a);
                    w.anonymous.insert(a, (end, None));
                    assert(w@ =~= (Progress {
                        anonymous: entered.anonymous.update(
                            a as int,
                            (entered.anonymous[a as int].0, None),
                        ),
                        ..entered
                    }));
                    state
                },
                None => None,
            }
        },
    };
    let ghost taken_view = saved_view(taken);
    let alone = fallback.is_none() && taken.is_none();
    let from = state_or_fresh(taken);
    let ghost from_view = from@;
    proof {
        assert(walk_fits(w@, count, r@, c@));
        assert(saved_fits(from@, c@)) by {
            if fallback is Some {
                assert(held_fits(start.carried[fallback->0 as int], c@));
            } else if anon is Some {
                assert(held_fits(start.anonymous[anon->0 as int].1, c@));
            }
        }
    }
    let in_body = from.in_body || !(alone && peek(&t, 0, 0) == Word::Declare);
    let end = w.scan(cx.ranges, &t, fallback, from, in_body, Ghost(count), r, c);
    proof {
        lemma_more_room(w@, count, r@ + 1, c@ + t@.len(), d);
    }
    match fallback {
        Some(u) => {
            w.put_carried(u, end);
            w.extend(u, range.1, cx.lines.last_line_at(range.1));
        },
        None => {},
    }
}

// ── the file ───────────────────────────────────────────────────────────

/// Procedural facts of a file.
pub struct ProceduralFacts {
    /// Openers of blocks.
    pub block_count: u128,
    /// Routine definitions.
    pub routine_count: u128,
    pub cyclomatic_complexity: u128,
    pub cognitive_complexity: u128,
    /// The deepest nesting of blocks.
    pub max_block_depth: u64,
    pub loop_count: u128,
    /// `IF` statements and their `ELSIF` branches.
    pub if_count: u128,
    /// `CASE` statements, expressions left out.
    pub case_statement_count: u128,
    pub exception_handler_count: u128,
    pub return_count: u128,
    pub raise_throw_count: u128,
    pub dynamic_sql_count: u128,
    /// The largest structural score of one routine's queries, in hundredths.
    pub max_embedded_query_structural: u128,
    /// The routine with that score.
    pub heaviest_unit: Option<usize>,
    /// Where dynamic SQL is executed or prepared.
    pub dynamic_sql_spans: Vec<SourceSpan>,
    /// Every increment, where evidence is asked for.
    pub evidence: Vec<ProceduralEvidence>,
}

/// The places of the evidence for a metric.
pub open spec fn places_of(log: Seq<LogEntry>, m: ProceduralMetric) -> Seq<SourceSpan>
    decreases log.len(),
{
    if log.len() == 0 {
        Seq::empty()
    } else if log.last().evidence.metric == m {
        places_of(log.drop_last(), m).push(log.last().evidence.span)
    } else {
        places_of(log.drop_last(), m)
    }
}

/// The structural score of the heaviest routine.
pub open spec fn heaviest_score(src: Source, p: Progress) -> nat {
    match heaviest(src, p, src.units.len() as int) {
        Some(u) => unit_structural(src, p, u as int),
        None => 0,
    }
}

/// Whether procedural facts are those of a file: every count is the sum of
/// its evidence.
pub open spec fn describes_procedural(
    src: Source,
    root: int,
    emit: bool,
    r: ProceduralFacts,
) -> bool {
    let p = file_progress(src, root);
    &&& r.block_count == total(p.log, ProceduralMetric::BlockCount)
    &&& r.routine_count == total(p.log, ProceduralMetric::RoutineCount)
    &&& r.cyclomatic_complexity == total(p.log, ProceduralMetric::Cyclomatic)
    &&& r.cognitive_complexity == total(p.log, ProceduralMetric::Cognitive)
    &&& r.max_block_depth == p.max_depth
    &&& r.loop_count == total(p.log, ProceduralMetric::LoopCount)
    &&& r.if_count == total(p.log, ProceduralMetric::IfCount)
    &&& r.case_statement_count == total(p.log, ProceduralMetric::CaseStatementCount)
    &&& r.exception_handler_count == total(p.log, ProceduralMetric::ExceptionHandlerCount)
    &&& r.return_count == total(p.log, ProceduralMetric::ReturnCount)
    &&& r.raise_throw_count == total(p.log, ProceduralMetric::RaiseThrowCount)
    &&& r.dynamic_sql_count == total(p.log, ProceduralMetric::DynamicSqlCount)
    &&& r.max_embedded_query_structural == heaviest_score(src, p)
    &&& r.heaviest_unit == heaviest(src, p, src.units.len() as int)
    &&& r.dynamic_sql_spans@ == places_of(p.log, ProceduralMetric::DynamicSqlCount)
    &&& r.evidence@ == (if emit {
        evidence_of(p.log)
    } else {
        Seq::empty()
    })
}

/// Whether a routine's facts are its share of the file.
pub open spec fn describes_unit(
    src: Source,
    root: int,
    u: int,
    r: ProceduralUnitFacts,
) -> bool {
    let p = file_progress(src, root);
    r@ == (UnitShare {
        definition: Unit {
            end_byte: p.extents[u].0,
            end_line: p.extents[u].1,
            ..src.units[u]
        },
        cyclomatic_complexity: unit_total(p.log, ProceduralMetric::Cyclomatic, u as usize),
        cognitive_complexity: unit_total(p.log, ProceduralMetric::Cognitive, u as usize),
        embedded_query_structural: unit_structural(src, p, u) as int,
    })
}

/// The sum of the evidence for a metric.
fn sum_of(log: &Vec<LogEntry>, m: ProceduralMetric) -> (r: u128)
    ensures
        r == total(log@, m),
{
    let mut sum: u128 = 0;
    let mut k: usize = 0;
    while k < log.len()
        invariant
            k <= log@.len(),
            sum == total(log@.take(k as int), m),
            sum <= k * 0xffff_ffff_ffff_ffff,
        decreases log@.len() - k,
    {
        proof {
            assert(log@.take(k + 1).drop_last() =~= log@.take(k as int));
            assert(log@.take(k + 1).last() == log@[k as int]);
            assert(k < 0xffff_ffff_ffff_ffff);
        }
        if log[k].evidence.metric == m {
            sum = sum + log[k].evidence.amount as u128;
        }
        k = k + 1;
    }
    assert(log@.take(k as int) =~= log@);
    sum
}

/// The sum of the evidence for a metric that counts for a routine.
fn unit_sum_of(log: &Vec<LogEntry>, m: ProceduralMetric, u: usize) -> (r: u128)
    ensures
        r == unit_total(log@, m, u),
{
    let mut sum: u128 = 0;
    let mut k: usize = 0;
    while k < log.len()
        invariant
            k <= log@.len(),
            sum == unit_total(log@.take(k as int), m, u),
            sum <= k * 0xffff_ffff_ffff_ffff,
        decreases log@.len() - k,
    {
        proof {
            assert(log@.take(k + 1).drop_last() =~= log@.take(k as int));
            assert(log@.take(k + 1).last() == log@[k as int]);
            assert(k < 0xffff_ffff_ffff_ffff);
        }
        let own = match log[k].unit {
            Some(unit) => unit == u,
            None => false,
        };
        if log[k].evidence.metric == m && own {
            sum = sum + log[k].evidence.amount as u128;
        }
        k = k + 1;
    }
    assert(log@.take(k as int) =~= log@);
    sum
}

/// The places of the evidence for a metric.
fn collect_places(log: &Vec<LogEntry>, m: ProceduralMetric) -> (r: Vec<SourceSpan>)
    ensures
        r@ == places_of(log@, m),
{
    let mut out: Vec<SourceSpan> = Vec::new();
    let mut k: usize = 0;
    while k < log.len()
        invariant
            k <= log@.len(),
            out@ == places_of(log@.take(k as int), m),
        decreases log@.len() - k,
    {
        proof {
            assert(log@.take(k + 1).drop_last() =~= log@.take(k as int));
            assert(log@.take(k + 1).last() == log@[k as int]);
        }
        if log[k].evidence.metric == m {
            out.push(log[k].evidence.span);
        }
        k = k + 1;
    }
    assert(log@.take(k as int) =~= log@);
    out
}

/// The pieces of evidence of a log.
fn collect_evidence(log: &Vec<LogEntry>) -> (r: Vec<ProceduralEvidence>)
    ensures
        r@ == evidence_of(log@),
{
    let mut out: Vec<ProceduralEvidence> = Vec::new();
    let mut k: usize = 0;
    while k < log.len()
        invariant
            k <= log@.len(),
            out@.len() == k,
            forall|l: int| 0 <= l < k ==> (#[trigger] out@[l]) == log@[l].evidence,
        decreases log@.len() - k,
    {
        out.push(log[k].evidence);
        k = k + 1;
    }
    assert(out@ =~= evidence_of(log@));
    out
}

/// The progress before anything was scanned.
fn new_walk(units: &Vec<ProceduralUnitFacts>) -> (w: Walk)
    ensures
        w@ == no_progress(units_view(units@)),
        walk_fits(w@, units@.len() as int, 0, 0),
{
    let mut carried: Vec<Option<SavedState>> = Vec::new();
    let mut extents: Vec<(u32, u32)> = Vec::new();
    let mut queries: Vec<QueryFacts> = Vec::new();
    let mut u: usize = 0;
    while u < units.len()
        invariant
            u <= units@.len(),
            carried@.len() == u,
            extents@.len() == u,
            queries@.len() == u,
            forall|l: int| 0 <= l < u ==> (#[trigger] carried@[l]) is None,
            forall|l: int|
                0 <= l < u ==> (#[trigger] extents@[l]) == (units@[l].end_byte, units@[l].end_line),
            forall|l: int|
                0 <= l < u ==> (#[trigger] queries@[l])@ == no_query() && bounded(queries@[l]@, 0),
        decreases units@.len() - u,
    {
        carried.push(None);
        extents.push((units[u].end_byte, units[u].end_line));
        queries.push(QueryFacts::none());
        u = u + 1;
    }
    let w = Walk {
        log: Vec::new(),
        max_depth: 0,
        max_depth_span: None,
        regions: Vec::new(),
        carried,
        anonymous: Vec::new(),
        extents,
        queries,
    };
    proof {
        let want = no_progress(units_view(units@));
        assert(w@.carried =~= want.carried);
        assert(w@.extents =~= want.extents);
        assert(w@.queries =~= want.queries);
        assert(w@.anonymous =~= want.anonymous);
        assert(w@ =~= want);
        assert forall|l: int| 0 <= l < w@.queries.len() implies bounded(
            #[trigger] w@.queries[l],
            0 * REGION_BOUND,
        ) by {
            assert(w@.queries[l] == w.queries@[l]@);
        }
    }
    w
}

/// Scan every region of a file.
fn walk_file(cx: &Context, root: usize) -> (w: Walk)
    requires
        cx.wf(),
        cx.tree.holds(root),
    ensures
        w@ == file_progress(cx.source(), root as int),
        walk_fits(w@, cx.units@.len() as int, 0x2_ffff_ffff, LIMIT as int),
{
    let ghost src = cx.source();
    let ghost n = cx.tree@;
    let ghost count = cx.units@.len() as int;
    let mut w = new_walk(cx.units);
    let ghost start = w@;
    let ghost mut c: int = 0;
    let mut k: usize = 0;
    while k < cx.facts.len()
        invariant
            cx.wf(),
            src == cx.source(),
            count == cx.units@.len(),
            k <= cx.facts@.len() <= MAX_NODES,
            w@ == after_statements(src, start, k as int),
            n == cx.tree@,
            walk_fits(w@, count, k as int, c),
            0 <= c <= n.len(),
            k < cx.facts@.len() ==> c <= cx.statements@[k as int],
        decreases cx.facts@.len() - k,
    {
        let ghost node = cx.statements@[k as int] as int;
        proof {
            reveal(apart);
            assert(n[node].end <= n.len());
        }
        visit_statement(cx, &mut w, k, Ghost(k as int), Ghost(c));
        proof {
            lemma_more_room(w@, count, k + 1, c + subtree_size(n, node), n[node].end as int);
            c = n[node].end as int;
        }
        k = k + 1;
    }
    let ghost r = k as int;
    let ghost c0 = c;
    let p = Probe {
        set: KindSet::Only(Kind::MultiStatementSegment),
        deep: false,
        stop: KindSet::Empty,
        own: true,
    };
    let segs = cx.tree.crawl(root, p);
    proof {
        lemma_crawl(n, root as int, p);
        lemma_outermost_apart(n, root as int, p);
        c = 0;
    }
    let ghost after_first = w@;
    let mut g: usize = 0;
    while g < segs.len()
        invariant
            cx.wf(),
            src == cx.source(),
            n == cx.tree@,
            count == cx.units@.len(),
            0 <= r <= MAX_NODES,
            g <= segs@.len() <= MAX_NODES,
            forall|l: int| 0 <= l < segs@.len() ==> (#[trigger] segs@[l]) < n.len(),
            w@ == after_segments(src, after_first, segs@, g as int),
            walk_fits(w@, count, r + g, c0 + c),
            apart(n, segs@),
            0 <= c0 <= n.len() <= MAX_NODES,
            0 <= c <= n.len(),
            g < segs@.len() ==> c <= segs@[g as int],
        decreases segs@.len() - g,
    {
        let ghost node = segs@[g as int] as int;
        proof {
            reveal(apart);
            assert(n[node].end <= n.len());
        }
        visit_segment(cx, &mut w, segs[g], Ghost(r + g), Ghost(c0 + c));
        proof {
            lemma_more_room(
                w@,
                count,
                r + g + 1,
                c0 + c + subtree_size(n, node),
                c0 + n[node].end,
            );
            c = n[node].end as int;
        }
        g = g + 1;
    }
    let ghost r2 = r + g;
    let ghost c2 = c0 + c;
    let ghost after_second = w@;
    let mut u: usize = 0;
    while u < cx.units.len()
        invariant
            src == cx.source(),
            count == cx.units@.len(),
            u <= cx.units@.len(),
            w@ == after_entries(src, after_second, u as int),
            walk_fits(w@, count, r2, c2),
        decreases cx.units@.len() - u,
    {
        let (end, end_line) = w.extents[u];
        assert(src.units[u as int] == cx.units@[u as int].definition());
        let span = SourceSpan {
            start_byte: cx.units[u].start_byte,
            end_byte: end,
            start_line: cx.units[u].start_line,
            end_line,
        };
        w.log_entry(span, ProceduralMetric::Cyclomatic, 1, Reason::Entry, Some(u));
        u = u + 1;
    }
    let runs = cx.tree.all_in(root, KindSet::Only(Kind::Unparsable));
    proof {
        lemma_crawl(n, root as int, every(KindSet::Only(Kind::Unparsable)));
    }
    let ghost after_third = w@;
    let mut q: usize = 0;
    while q < runs.len()
        invariant
            cx.wf(),
            src == cx.source(),
            n == cx.tree@,
            count == cx.units@.len(),
            0 <= r2 <= 2 * MAX_NODES,
            q <= runs@.len() <= MAX_NODES,
            forall|l: int| 0 <= l < runs@.len() ==> (#[trigger] runs@[l]) < n.len(),
            w@ == after_runs(src, after_third, runs@, q as int),
            0 <= c2 <= 2 * MAX_NODES,
            n.len() <= MAX_NODES,
            walk_fits(w@, count, r2 + q, c2 + q * MAX_NODES),
        decreases runs@.len() - q,
    {
        let ghost node = runs@[q as int] as int;
        let ghost room = c2 + q * MAX_NODES;
        proof {
            assert(n[node].end <= n.len());
            assert(q * MAX_NODES + MAX_NODES == (q + 1) * MAX_NODES) by (nonlinear_arith);
            assert((q + 1) * MAX_NODES <= MAX_NODES * MAX_NODES) by (nonlinear_arith)
                requires
                    q + 1 <= MAX_NODES,
            ;
        }
        visit_run(cx, &mut w, runs[q], Ghost(r2 + q), Ghost(room));
        proof {
            lemma_more_room(
                w@,
                count,
                r2 + q + 1,
                room + subtree_size(n, node),
                c2 + (q + 1) * MAX_NODES,
            );
        }
        q = q + 1;
    }
    proof {
        assert(q * MAX_NODES <= MAX_NODES * MAX_NODES) by (nonlinear_arith)
            requires
                q <= MAX_NODES,
        ;
        lemma_more_room(w@, count, r2 + q, c2 + q * MAX_NODES, LIMIT as int);
        lemma_fits_up_to(w@, count, r2 + q, 0x2_ffff_ffff);
    }
    let ghost after_fourth = w@;
    let mut v: usize = 0;
    while v < cx.units.len()
        invariant
            src == cx.source(),
            count == cx.units@.len(),
            v <= cx.units@.len(),
            w@ == after_routines(src, after_fourth, v as int),
            walk_fits(w@, count, 0x2_ffff_ffff, LIMIT as int),
        decreases cx.units@.len() - v,
    {
        let (end, end_line) = w.extents[v];
        assert(src.units[v as int] == cx.units@[v as int].definition());
        let span = SourceSpan {
            start_byte: cx.units[v].start_byte,
            end_byte: end,
            start_line: cx.units[v].start_line,
            end_line,
        };
        w.log_entry(span, ProceduralMetric::RoutineCount, 1, Reason::Routine, Some(v));
        v = v + 1;
    }
    match w.max_depth_span {
        Some(span) => {
            let depth: u64 = w.max_depth;
            w.log_entry(span, ProceduralMetric::MaxBlockDepth, depth, Reason::DeepestBlock, None);
        },
        None => {},
    }
    w
}

proof fn lemma_fits_up_to(p: Progress, units: int, r: int, top: int)
    requires
        walk_fits(p, units, r, LIMIT as int),
        r <= top,
    ensures
        walk_fits(p, units, top, LIMIT as int),
    decreases top - r,
{
    if r < top {
        lemma_fits_grows(p, units, r, LIMIT as int, LIMIT as int);
        lemma_fits_up_to(p, units, r + 1, top);
    }
}

/// The structural score of the queries that belong to a routine.
fn score_unit(cx: &Context, w: &Walk, u: usize) -> (r: u128)
    requires
        cx.wf(),
        u < cx.units@.len(),
        walk_fits(w@, cx.units@.len() as int, 0x2_ffff_ffff, LIMIT as int),
    ensures
        r == unit_structural(cx.source(), w@, u as int),
{
    let ghost src = cx.source();
    let outside: QueryFacts = w.queries[u];
    proof {
        assert(src.units[u as int] == cx.units@[u as int].definition());
        assert(w@.queries[u as int] == outside@);
        assert(bounded(w@.queries[u as int], 0x2_ffff_ffff * REGION_BOUND));
        lemma_bound_grows(outside@, 0x2_ffff_ffff * REGION_BOUND, MERGE_BOUND as int);
        lemma_bound_grows(outside@, 0x2_ffff_ffff * REGION_BOUND, SCORE_BOUND as int);
    }
    match cx.units[u].node {
        Some(node) => {
            let inside = query_facts_of(cx.tree, node);
            proof {
                lemma_bound_grows(inside@, REGION_BOUND as int, MERGE_BOUND as int);
                lemma_merged_bound(
                    inside@,
                    outside@,
                    REGION_BOUND as int,
                    0x2_ffff_ffff * REGION_BOUND,
                );
                lemma_bound_grows(
                    merged(inside@, outside@),
                    REGION_BOUND + 0x2_ffff_ffff * REGION_BOUND,
                    SCORE_BOUND as int,
                );
            }
            let both = inside.merge(&outside);
            both.structural()
        },
        None => outside.structural(),
    }
}

/// The procedural facts of a file. Each routine learns its share of them.
pub fn extract(
    tree: &Tree,
    lines: &LineIndex,
    root: usize,
    statements: &Vec<usize>,
    facts: &Vec<StatementFacts>,
    spills: bool,
    emit: bool,
    units: &mut Vec<ProceduralUnitFacts>,
) -> (r: ProceduralFacts)
    requires
        tree.wf(),
        lines@.wf(),
        tree.holds(root),
        statements@.len() == facts@.len() <= MAX_NODES,
        forall|k: int| 0 <= k < statements@.len() ==> (#[trigger] statements@[k]) < tree@.len(),
        apart(tree@, statements@),
        forall|u: int|
            0 <= u < old(units)@.len() ==> ((#[trigger] old(units)@[u]).node matches Some(node)
                ==> node < tree@.len()),
    ensures
        ({
            let src = Source {
                nodes: tree@,
                lines: lines@,
                units: units_view(old(units)@),
                statements: statements@,
                facts: facts@,
                spills,
            };
            &&& describes_procedural(src, root as int, emit, r)
            &&& final(units)@.len() == old(units)@.len()
            &&& forall|u: int|
                0 <= u < old(units)@.len() ==> describes_unit(
                    src,
                    root as int,
                    u,
                    #[trigger] final(units)@[u],
                )
        }),
{
    let mut ranges: Vec<(u32, u32)> = Vec::new();
    let mut k: usize = 0;
    while k < units.len()
        invariant
            k <= units@.len(),
            units@ == old(units)@,
            ranges@.len() == k,
            forall|l: int|
                0 <= l < k ==> (#[trigger] ranges@[l]) == (units@[l].start_byte, units@[l].end_byte),
        decreases units@.len() - k,
    {
        ranges.push((units[k].start_byte, units[k].end_byte));
        k = k + 1;
    }
    assert(ranges@ =~= unit_ranges(units_view(units@)));
    let cx = Context {
        tree,
        lines,
        units: &*units,
        ranges: &ranges,
        statements,
        facts,
        spills,
    };
    let ghost src = cx.source();
    let w = walk_file(&cx, root);
    let ghost p = w@;
    let mut scores: Vec<u128> = Vec::new();
    let mut winner: Option<usize> = None;
    let mut best: u128 = 0;
    let mut u: usize = 0;
    while u < cx.units.len()
        invariant
            cx.wf(),
            src == cx.source(),
            w@ == p,
            walk_fits(p, cx.units@.len() as int, 0x2_ffff_ffff, LIMIT as int),
            u <= cx.units@.len(),
            scores@.len() == u,
            forall|l: int| 0 <= l < u ==> (#[trigger] scores@[l]) == unit_structural(src, p, l),
            winner == heaviest(src, p, u as int),
            winner matches Some(x) ==> x < u && best == unit_structural(src, p, x as int),
            winner is None ==> best == 0,
        decreases cx.units@.len() - u,
    {
        let score: u128 = score_unit(&cx, &w, u);
        if score > best {
            best = score;
            winner = Some(u);
        }
        scores.push(score);
        u = u + 1;
    }
    let ghost before = units@;
    let mut v: usize = 0;
    while v < units.len()
        invariant
            v <= units@.len(),
            units@.len() == before.len(),
            scores@.len() == before.len(),
            w@ == p,
            p == file_progress(src, root as int),
            p.extents.len() == before.len(),
            src.units == units_view(before),
            forall|l: int| 0 <= l < scores@.len() ==> (#[trigger] scores@[l]) == unit_structural(src, p, l),
            forall|l: int| v <= l < units@.len() ==> (#[trigger] units@[l]) == before[l],
            forall|l: int|
                0 <= l < v ==> describes_unit(src, root as int, l, #[trigger] units@[l]),
        decreases units@.len() - v,
    {
        let (end, end_line) = w.extents[v];
        let cyclomatic: u128 = unit_sum_of(&w.log, ProceduralMetric::Cyclomatic, v);
        let cognitive: u128 = unit_sum_of(&w.log, ProceduralMetric::Cognitive, v);
        let score: u128 = scores[v];
        let mut unit = units.remove(v);
        assert(unit == before[v as int]);
        unit.end_byte = end;
        unit.end_line = end_line;
        unit.cyclomatic_complexity = cyclomatic;
        unit.cognitive_complexity = cognitive;
        unit.embedded_query_structural = score;
        proof {
            assert(src.units[v as int] == before[v as int].definition());
            assert(p.extents[v as int] == (end, end_line));
            assert(describes_unit(src, root as int, v as int, unit));
        }
        units.insert(v, unit);
        v = v + 1;
    }
    ProceduralFacts {
        block_count: sum_of(&w.log, ProceduralMetric::BlockCount),
        routine_count: sum_of(&w.log, ProceduralMetric::RoutineCount),
        cyclomatic_complexity: sum_of(&w.log, ProceduralMetric::Cyclomatic),
        cognitive_complexity: sum_of(&w.log, ProceduralMetric::Cognitive),
        max_block_depth: w.max_depth,
        loop_count: sum_of(&w.log, ProceduralMetric::LoopCount),
        if_count: sum_of(&w.log, ProceduralMetric::IfCount),
        case_statement_count: sum_of(&w.log, ProceduralMetric::CaseStatementCount),
        exception_handler_count: sum_of(&w.log, ProceduralMetric::ExceptionHandlerCount),
        return_count: sum_of(&w.log, ProceduralMetric::ReturnCount),
        raise_throw_count: sum_of(&w.log, ProceduralMetric::RaiseThrowCount),
        dynamic_sql_count: sum_of(&w.log, ProceduralMetric::DynamicSqlCount),
        max_embedded_query_structural: best,
        heaviest_unit: winner,
        dynamic_sql_spans: collect_places(&w.log, ProceduralMetric::DynamicSqlCount),
        evidence: if emit {
            collect_evidence(&w.log)
        } else {
            Vec::new()
        },
    }
}

} // verus!
