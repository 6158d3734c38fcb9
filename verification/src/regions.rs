//! Procedural regions: which parts of a file are scanned for control flow, in
//! what state, and which routine what is found there belongs to.

use vstd::prelude::*;

use crate::control::{Arm, Ctx, ProceduralEvidence, ProceduralMetric, Reason, Scan};
use crate::kind::{Kind, KindSet};
use crate::query_shape::{merged, no_query, region_shape, structural, QueryShape};
use crate::span::{Lines, SourceSpan};
use crate::statements::{is_go, owned, span_of_statement, StatementFacts, StatementKind};
use crate::token::{is_procedural_run, tokens_of, word_at, Token};
use crate::tree::{all_in, crawl, Node, Probe};
use crate::units::Unit;
use crate::word::Word;

verus! {

/// A piece of evidence with the routine that it counts for.
#[derive(Clone, Copy, Debug, PartialEq, Eq, Structural)]
pub struct LogEntry {
    pub evidence: ProceduralEvidence,
    pub unit: Option<usize>,
}

/// The state in which a region leaves its routine.
#[verifier::ext_equal]
pub struct Saved {
    pub stack: Seq<Ctx>,
    pub arms: Seq<Arm>,
    pub next_case: int,
    pub in_body: bool,
}

/// No state.
pub open spec fn nothing_saved() -> Saved {
    Saved { stack: Seq::empty(), arms: Seq::empty(), next_case: 0, in_body: false }
}

/// What is known of a file while its regions are scanned.
#[verifier::ext_equal]
pub struct Progress {
    pub log: Seq<LogEntry>,
    pub max_depth: int,
    pub max_depth_span: Option<SourceSpan>,
    /// The byte ranges of the scanned statements and segments.
    pub regions: Seq<(u32, u32)>,
    /// The state in which each routine was left last.
    pub carried: Seq<Option<Saved>>,
    /// The state in which anonymous regions were left, by their end.
    pub anonymous: Seq<(u32, Option<Saved>)>,
    /// How far each routine reaches: its end byte and its end line.
    pub extents: Seq<(u32, u32)>,
    /// The queries of each routine outside its definition.
    pub queries: Seq<QueryShape>,
}

/// What the rules need to know of a file.
pub struct Source {
    pub nodes: Seq<Node>,
    pub lines: Lines,
    pub units: Seq<Unit>,
    pub statements: Seq<usize>,
    pub facts: Seq<StatementFacts>,
    /// Whether routine bodies can spill into runs that were not parsed.
    pub spills: bool,
}

/// The byte range of a routine definition.
pub open spec fn unit_range(u: Unit) -> (u32, u32) {
    (u.start_byte, u.end_byte)
}

/// The byte ranges of the routine definitions.
pub open spec fn unit_ranges(units: Seq<Unit>) -> Seq<(u32, u32)> {
    Seq::new(units.len(), |i: int| unit_range(units[i]))
}

/// Whether a range holds another.
pub open spec fn holds_range(outer: (u32, u32), inner: (u32, u32)) -> bool {
    outer.0 <= inner.0 && inner.1 <= outer.1
}

pub open spec fn in_some_range(s: Seq<(u32, u32)>, range: (u32, u32)) -> bool {
    exists|k: int| 0 <= k < s.len() && holds_range(#[trigger] s[k], range)
}

/// The last of the first `k` ranges that holds a range: the innermost one.
pub open spec fn innermost(s: Seq<(u32, u32)>, range: (u32, u32), k: int) -> Option<usize>
    decreases k,
{
    if k <= 0 {
        None
    } else if holds_range(s[k - 1], range) {
        Some((k - 1) as usize)
    } else {
        innermost(s, range, k - 1)
    }
}

/// The last of the first `k` ranges that lies in a range.
pub open spec fn last_inside(s: Seq<(u32, u32)>, range: (u32, u32), k: int) -> Option<usize>
    decreases k,
{
    if k <= 0 {
        None
    } else if holds_range(range, s[k - 1]) {
        Some((k - 1) as usize)
    } else {
        last_inside(s, range, k - 1)
    }
}

/// Of the first `k` ranges, the one that ends last at or before `byte`.
pub open spec fn last_before(s: Seq<(u32, u32)>, byte: u32, k: int) -> Option<usize>
    decreases k,
{
    if k <= 0 {
        None
    } else {
        let rest = last_before(s, byte, k - 1);
        if s[k - 1].1 <= byte && (rest is None || s[rest->0 as int].1 <= s[k - 1].1) {
            Some((k - 1) as usize)
        } else {
            rest
        }
    }
}

/// The routine that a piece of evidence counts for: the innermost one around
/// it, or else the one whose body the region continues.
pub open spec fn attributed(
    ranges: Seq<(u32, u32)>,
    fallback: Option<usize>,
    e: ProceduralEvidence,
) -> LogEntry {
    let inner = innermost(ranges, (e.span.start_byte, e.span.end_byte), ranges.len() as int);
    LogEntry {
        evidence: e,
        unit: if inner is Some {
            inner
        } else {
            fallback
        },
    }
}

/// The first `k` pieces of evidence, each with its routine.
pub open spec fn attributed_all(
    ranges: Seq<(u32, u32)>,
    fallback: Option<usize>,
    s: Seq<ProceduralEvidence>,
    k: int,
) -> Seq<LogEntry>
    decreases k,
{
    if k <= 0 {
        Seq::empty()
    } else {
        attributed_all(ranges, fallback, s, k - 1).push(attributed(ranges, fallback, s[k - 1]))
    }
}

/// The scanner's state at the start of a region.
pub open spec fn resumed(p: Progress, saved: Saved, in_body: bool) -> Scan {
    Scan {
        stack: saved.stack,
        arms: saved.arms,
        next_case: saved.next_case,
        in_body,
        pending_loops: 0,
        pending_between: false,
        pending_header: false,
        pending_bodies: 0,
        last_bool: None,
        evidence: Seq::empty(),
        max_depth: p.max_depth,
        max_depth_span: p.max_depth_span,
    }
}

pub open spec fn left(s: Scan) -> Saved {
    Saved { stack: s.stack, arms: s.arms, next_case: s.next_case, in_body: s.in_body }
}

impl Progress {
    /// The progress after a region's tokens, and the state they leave.
    pub open spec fn scanned(
        self,
        ranges: Seq<(u32, u32)>,
        t: Seq<Token>,
        fallback: Option<usize>,
        saved: Saved,
        in_body: bool,
    ) -> (Progress, Saved) {
        let s = resumed(self, saved, in_body).scan(t, 0);
        (
            Progress {
                log: self.log + attributed_all(
                    ranges,
                    fallback,
                    s.evidence,
                    s.evidence.len() as int,
                ),
                max_depth: s.max_depth,
                max_depth_span: s.max_depth_span,
                ..self
            },
            left(s),
        )
    }

    pub open spec fn logged(
        self,
        span: SourceSpan,
        metric: ProceduralMetric,
        amount: u64,
        reason: Reason,
        unit: Option<usize>,
    ) -> Progress {
        Progress {
            log: self.log.push(
                LogEntry { evidence: ProceduralEvidence { span, metric, amount, reason }, unit },
            ),
            ..self
        }
    }

    /// One path into an anonymous block or a routine.
    pub open spec fn entered(self, span: SourceSpan, unit: Option<usize>) -> Progress {
        self.logged(span, ProceduralMetric::Cyclomatic, 1, Reason::Entry, unit)
    }

    /// A routine reaches at least to the given end.
    pub open spec fn extended(self, unit: int, end: u32, end_line: u32) -> Progress {
        if end > self.extents[unit].0 {
            Progress {
                extents: self.extents.update(
                    unit,
                    (
                        end,
                        if end_line > self.extents[unit].1 {
                            end_line
                        } else {
                            self.extents[unit].1
                        },
                    ),
                ),
                ..self
            }
        } else {
            self
        }
    }
}

// ── statements ─────────────────────────────────────────────────────────

/// Whether a statement without a known kind holds procedural code.
pub open spec fn gated(t: Seq<Token>, kind: StatementKind) -> bool {
    kind == StatementKind::Unknown && is_procedural_run(t)
}

/// Whether a statement is a region of its own.
pub open spec fn is_region(src: Source, k: int) -> bool {
    let f = src.facts[k];
    let t = tokens_of(src.nodes, src.lines, src.statements[k] as int);
    &&& f.kind == StatementKind::Procedural || f.kind == StatementKind::AnonymousBlock || gated(
        t,
        f.kind,
    )
    &&& !owned(unit_ranges(src.units), (f.start_byte, f.end_byte))
}

/// The routine whose body a statement continues: the last one before it, for
/// procedural statements that define no routine themselves.
pub open spec fn continued_unit(src: Source, k: int) -> Option<usize> {
    let f = src.facts[k];
    let ranges = unit_ranges(src.units);
    let len = ranges.len() as int;
    if f.kind == StatementKind::Procedural && last_inside(
        ranges,
        (f.start_byte, f.end_byte),
        len,
    ) is None {
        last_before(ranges, f.start_byte, len)
    } else {
        None
    }
}

/// Whether a statement is in a body from its first token on.
pub open spec fn starts_in_body(src: Source, k: int, t: Seq<Token>) -> bool {
    let f = src.facts[k];
    ||| f.kind == StatementKind::AnonymousBlock && word_at(t, 0) != Word::Declare
    ||| continued_unit(src, k) is Some
    ||| gated(t, f.kind)
}

pub open spec fn saved_or_nothing(s: Option<Saved>) -> Saved {
    match s {
        Some(saved) => saved,
        None => nothing_saved(),
    }
}

/// The progress after the statement at place `k`.
pub open spec fn after_statement(src: Source, p: Progress, k: int) -> Progress {
    if !is_region(src, k) {
        p
    } else {
        let f = src.facts[k];
        let range = (f.start_byte, f.end_byte);
        let ranges = unit_ranges(src.units);
        let node = src.statements[k] as int;
        let t = tokens_of(src.nodes, src.lines, node);
        let fallback = continued_unit(src, k);
        let held = match fallback {
            Some(u) => p.carried[u as int],
            None => None,
        };
        let from = saved_or_nothing(held);
        let p = Progress {
            regions: p.regions.push(range),
            carried: match fallback {
                Some(u) => p.carried.update(u as int, None),
                None => p.carried,
            },
            ..p
        };
        let (p, end) = p.scanned(
            ranges,
            t,
            fallback,
            from,
            from.in_body || starts_in_body(src, k, t),
        );
        let owner = if fallback is Some {
            fallback
        } else {
            last_inside(ranges, range, ranges.len() as int)
        };
        let p = match owner {
            Some(u) => Progress { carried: p.carried.update(u as int, Some(end)), ..p },
            None => if f.kind == StatementKind::AnonymousBlock && end.stack.len() > 0 {
                Progress { anonymous: p.anonymous.push((f.end_byte, Some(end))), ..p }
            } else {
                p
            },
        };
        let p = match fallback {
            Some(u) => Progress {
                queries: p.queries.update(
                    u as int,
                    merged(p.queries[u as int], region_shape(src.nodes, node)),
                ),
                ..p
            }.extended(u as int, f.end_byte, f.end_line),
            None => p,
        };
        if f.kind == StatementKind::AnonymousBlock {
            p.entered(span_of_statement(f), None)
        } else {
            p
        }
    }
}

/// The progress after the first `k` statements.
pub open spec fn after_statements(src: Source, p: Progress, k: int) -> Progress
    decreases k,
{
    if k <= 0 {
        p
    } else {
        after_statement(src, after_statements(src, p, k - 1), k - 1)
    }
}

// ── scripting segments ─────────────────────────────────────────────────

/// The scripting segments of a file, outermost only.
pub open spec fn segments_of(n: Seq<Node>, root: int) -> Seq<usize> {
    crawl(
        n,
        root,
        Probe {
            set: KindSet::Only(Kind::MultiStatementSegment),
            deep: false,
            stop: KindSet::Empty,
            own: true,
        },
    )
}

/// Whether two ranges share a byte.
pub open spec fn overlaps(a: (u32, u32), b: (u32, u32)) -> bool {
    a.0 < b.1 && b.0 < a.1
}

pub open spec fn overlaps_some(s: Seq<(u32, u32)>, range: (u32, u32)) -> bool {
    exists|k: int| 0 <= k < s.len() && overlaps(#[trigger] s[k], range)
}

/// The progress after a scripting segment.
pub open spec fn after_segment(src: Source, p: Progress, seg: int) -> Progress {
    match src.nodes[seg].span {
        None => p,
        Some(range) => if in_some_range(p.regions, range) {
            p
        } else {
            let ranges = unit_ranges(src.units);
            let t = tokens_of(src.nodes, src.lines, seg);
            let p = Progress { regions: p.regions.push(range), ..p };
            let p = p.scanned(ranges, t, None, nothing_saved(), true).0;
            if overlaps_some(ranges, range) {
                p
            } else {
                p.entered(src.lines.span(range), None)
            }
        },
    }
}

/// The progress after the first `k` scripting segments.
pub open spec fn after_segments(src: Source, p: Progress, segs: Seq<usize>, k: int) -> Progress
    decreases k,
{
    if k <= 0 {
        p
    } else {
        after_segment(src, after_segments(src, p, segs, k - 1), segs[k - 1] as int)
    }
}

// ── routines ───────────────────────────────────────────────────────────

/// How far a routine reaches, as a span.
pub open spec fn unit_span(u: Unit, extent: (u32, u32)) -> SourceSpan {
    SourceSpan {
        start_byte: u.start_byte,
        end_byte: extent.0,
        start_line: u.start_line,
        end_line: extent.1,
    }
}

/// The progress after the first `k` routines: each is one path.
pub open spec fn after_entries(src: Source, p: Progress, k: int) -> Progress
    decreases k,
{
    if k <= 0 {
        p
    } else {
        let q = after_entries(src, p, k - 1);
        q.entered(unit_span(src.units[k - 1], q.extents[k - 1]), Some((k - 1) as usize))
    }
}

// ── runs ───────────────────────────────────────────────────────────────

/// Whether a statement is a batch separator between two bytes.
pub open spec fn separates(src: Source, k: int, from: u32, to: u32) -> bool {
    let f = src.facts[k];
    &&& f.kind == StatementKind::Unknown
    &&& is_go(src.nodes, src.statements[k] as int)
    &&& from <= f.start_byte <= to
}

pub open spec fn separated(src: Source, from: u32, to: u32) -> bool {
    exists|k: int| 0 <= k < src.facts.len() && #[trigger] separates(src, k, from, to)
}

/// The routine whose body a run continues.
pub open spec fn spilled_unit(src: Source, p: Progress, start: u32) -> Option<usize> {
    let ranges = unit_ranges(src.units);
    if src.spills {
        match last_before(ranges, start, ranges.len() as int) {
            Some(u) => if separated(src, p.extents[u as int].0, start) {
                None
            } else {
                Some(u)
            },
            None => None,
        }
    } else {
        None
    }
}

/// Whether a run is led by a control keyword. Where runs can be lost from the
/// file, such a run is a block of its own.
pub open spec fn control_led(t: Seq<Token>) -> bool {
    let w = word_at(t, 0);
    ||| w == Word::If
    ||| w == Word::While
    ||| w == Word::For
    ||| w == Word::Loop
    ||| w == Word::Declare
    ||| w == Word::Begin && !crate::control::starts_transaction(word_at(t, 1))
}

/// The last of the first `k` anonymous regions that ends at or before `start`
/// and whose state was not taken up yet.
pub open spec fn open_anonymous(s: Seq<(u32, Option<Saved>)>, start: u32, k: int) -> Option<usize>
    decreases k,
{
    if k <= 0 {
        None
    } else if s[k - 1].0 <= start && s[k - 1].1 is Some {
        Some((k - 1) as usize)
    } else {
        open_anonymous(s, start, k - 1)
    }
}

/// Whether a region starts between two bytes.
pub open spec fn starts_between(regions: Seq<(u32, u32)>, from: u32, to: u32) -> bool {
    exists|k: int| 0 <= k < regions.len() && starts_in(#[trigger] regions[k], from, to)
}

pub open spec fn starts_in(r: (u32, u32), from: u32, to: u32) -> bool {
    from < r.0 && r.0 < to
}

/// The anonymous region that an `ELSE`-led run goes on from: the one right
/// before it.
pub open spec fn continued_anonymous(p: Progress, t: Seq<Token>, start: u32) -> Option<usize> {
    if word_at(t, 0) == Word::Else {
        match open_anonymous(p.anonymous, start, p.anonymous.len() as int) {
            Some(a) => if starts_between(p.regions, p.anonymous[a as int].0, start) {
                None
            } else {
                Some(a)
            },
            None => None,
        }
    } else {
        None
    }
}

/// The progress after a run that could not be parsed.
pub open spec fn after_run(src: Source, p: Progress, run: int) -> Progress {
    let t = tokens_of(src.nodes, src.lines, run);
    match src.nodes[run].span {
        None => p,
        Some(range) => if in_some_range(p.regions, range) || !is_procedural_run(t) {
            p
        } else {
            let ranges = unit_ranges(src.units);
            let fallback = spilled_unit(src, p, range.0);
            let p = if src.spills && fallback is None && control_led(t) {
                p.entered(src.lines.span(range), None)
            } else {
                p
            };
            let held = match fallback {
                Some(u) => p.carried[u as int],
                None => None,
            };
            let anon = if fallback is None {
                continued_anonymous(p, t, range.0)
            } else {
                None
            };
            let taken = match anon {
                Some(a) => p.anonymous[a as int].1,
                None => held,
            };
            let from = saved_or_nothing(taken);
            let alone = fallback is None && taken is None;
            let p = Progress {
                carried: match fallback {
                    Some(u) => p.carried.update(u as int, None),
                    None => p.carried,
                },
                anonymous: match anon {
                    Some(a) => p.anonymous.update(a as int, (p.anonymous[a as int].0, None)),
                    None => p.anonymous,
                },
                ..p
            };
            let (p, end) = p.scanned(
                ranges,
                t,
                fallback,
                from,
                from.in_body || !(alone && word_at(t, 0) == Word::Declare),
            );
            match fallback {
                Some(u) => Progress {
                    carried: p.carried.update(u as int, Some(end)),
                    ..p
                }.extended(u as int, range.1, src.lines.last_line(range.1)),
                None => p,
            }
        },
    }
}

/// The progress after the first `k` runs.
pub open spec fn after_runs(src: Source, p: Progress, runs: Seq<usize>, k: int) -> Progress
    decreases k,
{
    if k <= 0 {
        p
    } else {
        after_run(src, after_runs(src, p, runs, k - 1), runs[k - 1] as int)
    }
}

// ── the file ───────────────────────────────────────────────────────────

/// The progress before anything was scanned.
pub open spec fn no_progress(units: Seq<Unit>) -> Progress {
    Progress {
        log: Seq::empty(),
        max_depth: 0,
        max_depth_span: None,
        regions: Seq::empty(),
        carried: Seq::new(units.len(), |i: int| None),
        anonymous: Seq::empty(),
        extents: Seq::new(units.len(), |i: int| (units[i].end_byte, units[i].end_line)),
        queries: Seq::new(units.len(), |i: int| no_query()),
    }
}

/// The progress after the first `k` routines were counted as such.
pub open spec fn after_routines(src: Source, p: Progress, k: int) -> Progress
    decreases k,
{
    if k <= 0 {
        p
    } else {
        let q = after_routines(src, p, k - 1);
        q.logged(
            unit_span(src.units[k - 1], q.extents[k - 1]),
            ProceduralMetric::RoutineCount,
            1,
            Reason::Routine,
            Some((k - 1) as usize),
        )
    }
}

/// The deepest block, as one piece of evidence that counts for its depth.
pub open spec fn with_deepest(p: Progress) -> Progress {
    match p.max_depth_span {
        Some(span) => p.logged(
            span,
            ProceduralMetric::MaxBlockDepth,
            p.max_depth as u64,
            Reason::DeepestBlock,
            None,
        ),
        None => p,
    }
}

/// The progress after all of a file.
pub open spec fn file_progress(src: Source, root: int) -> Progress {
    let p = after_statements(src, no_progress(src.units), src.facts.len() as int);
    let segs = segments_of(src.nodes, root);
    let p = after_segments(src, p, segs, segs.len() as int);
    let p = after_entries(src, p, src.units.len() as int);
    let runs = all_in(src.nodes, root, KindSet::Only(Kind::Unparsable));
    let p = after_runs(src, p, runs, runs.len() as int);
    with_deepest(after_routines(src, p, src.units.len() as int))
}

/// The structural score of the queries that belong to a routine.
pub open spec fn unit_structural(src: Source, p: Progress, u: int) -> nat {
    structural(
        match src.units[u].node {
            Some(node) => merged(region_shape(src.nodes, node as int), p.queries[u]),
            None => p.queries[u],
        },
    )
}

/// The first of the first `k` routines with the largest structural score
/// above 0.
pub open spec fn heaviest(src: Source, p: Progress, k: int) -> Option<usize>
    decreases k,
{
    if k <= 0 {
        None
    } else {
        let rest = heaviest(src, p, k - 1);
        let best = match rest {
            Some(u) => unit_structural(src, p, u as int),
            None => 0nat,
        };
        if unit_structural(src, p, k - 1) > best {
            Some((k - 1) as usize)
        } else {
            rest
        }
    }
}

// ── totals ─────────────────────────────────────────────────────────────

/// The sum of the evidence for a metric.
pub open spec fn total(log: Seq<LogEntry>, m: ProceduralMetric) -> int
    decreases log.len(),
{
    if log.len() == 0 {
        0
    } else {
        total(log.drop_last(), m) + if log.last().evidence.metric == m {
            log.last().evidence.amount as int
        } else {
            0
        }
    }
}

/// The sum of the evidence for a metric that counts for a routine.
pub open spec fn unit_total(log: Seq<LogEntry>, m: ProceduralMetric, u: usize) -> int
    decreases log.len(),
{
    if log.len() == 0 {
        0
    } else {
        unit_total(log.drop_last(), m, u) + if log.last().evidence.metric == m && log.last().unit
            == Some(u) {
            log.last().evidence.amount as int
        } else {
            0
        }
    }
}

/// The pieces of evidence of a log.
pub open spec fn evidence_of(log: Seq<LogEntry>) -> Seq<ProceduralEvidence> {
    Seq::new(log.len(), |i: int| log[i].evidence)
}

} // verus!
