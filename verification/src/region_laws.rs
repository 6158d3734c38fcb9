//! Which parts of a file are procedural code, where each is scanned from, and
//! which routine it counts for.

use vstd::prelude::*;

use crate::control::{ProceduralEvidence, ProceduralMetric, Reason, Scan};
use crate::query_shape::{merged, region_shape};
use crate::regions::{
    after_entries, after_routines, after_run, after_segment, after_statement, attributed,
    attributed_all, continued_unit, control_led, heaviest, in_some_range, innermost, is_region,
    last_before, last_inside, left, open_anonymous, overlaps_some, resumed, separated,
    spilled_unit, total, unit_ranges, unit_structural, with_deepest, LogEntry, Progress, Saved,
    Source,
};
use crate::span::SourceSpan;
use crate::statement_laws::inside_routine;
use crate::statements::{owned, owns, span_of_statement};
use crate::token::{is_marker, is_procedural_run, scalar_if, tokens_of, variable_at, word_at, Token};

verus! {

// ── finding a routine ──────────────────────────────────────────────────

/// Whether a range of bytes lies in another.
pub open spec fn lies_within(inner: (u32, u32), outer: (u32, u32)) -> bool {
    outer.0 <= inner.0 && inner.1 <= outer.1
}

/// Evidence counts for the last routine around it, which is the innermost one;
/// outside routines it counts for the one that is gone on with.
pub proof fn evidence_counts_for_the_innermost_routine(
    ranges: Seq<(u32, u32)>,
    fallback: Option<usize>,
    e: ProceduralEvidence,
    u: usize,
)
    requires
        ranges.len() <= usize::MAX,
    ensures
        ({
            let here = (e.span.start_byte, e.span.end_byte);
            let entry = attributed(ranges, fallback, e);
            let around = u < ranges.len() && lies_within(here, ranges[u as int]) && forall|j: int|
                u < j < ranges.len() ==> !lies_within(here, #[trigger] ranges[j]);
            let outside = forall|j: int|
                0 <= j < ranges.len() ==> !lies_within(here, #[trigger] ranges[j]);
            &&& entry.evidence == e
            &&& around ==> entry.unit == Some(u)
            &&& outside ==> entry.unit == fallback
        }),
{
    let here = (e.span.start_byte, e.span.end_byte);
    lemma_innermost(ranges, here, ranges.len() as int);
    let inner = innermost(ranges, here, ranges.len() as int);
    if inner is Some {
        let k = inner->0 as int;
        assert(lies_within(here, ranges[k]));
        if u < ranges.len() && lies_within(here, ranges[u as int]) && u > k {
            assert(!lies_within(here, ranges[u as int]));
        }
    } else if u < ranges.len() {
        assert(!lies_within(here, ranges[u as int]));
    }
}

proof fn lemma_innermost(s: Seq<(u32, u32)>, range: (u32, u32), k: int)
    requires
        0 <= k <= s.len() <= usize::MAX,
    ensures
        match innermost(s, range, k) {
            Some(i) => i < k && lies_within(range, s[i as int]) && forall|j: int|
                i < j < k ==> !lies_within(range, #[trigger] s[j]),
            None => forall|j: int| 0 <= j < k ==> !lies_within(range, #[trigger] s[j]),
        },
    decreases k,
{
    if k > 0 {
        lemma_innermost(s, range, k - 1);
    }
}

/// The last definition in a statement is the last range that lies in it.
pub proof fn last_definition_inside(s: Seq<(u32, u32)>, range: (u32, u32), k: int)
    requires
        0 <= k <= s.len() <= usize::MAX,
    ensures
        match last_inside(s, range, k) {
            Some(i) => i < k && lies_within(s[i as int], range) && forall|j: int|
                i < j < k ==> !lies_within(#[trigger] s[j], range),
            None => forall|j: int| 0 <= j < k ==> !lies_within(#[trigger] s[j], range),
        },
    decreases k,
{
    if k > 0 {
        last_definition_inside(s, range, k - 1);
    }
}

/// The routine before a place is the one that ends last before it.
pub proof fn routine_before_a_place(s: Seq<(u32, u32)>, byte: u32, k: int)
    requires
        0 <= k <= s.len() <= usize::MAX,
    ensures
        match last_before(s, byte, k) {
            Some(i) => i < k && s[i as int].1 <= byte && forall|j: int|
                0 <= j < k && (#[trigger] s[j]).1 <= byte ==> s[j].1 <= s[i as int].1 && (j > i
                    ==> s[j].1 < s[i as int].1),
            None => forall|j: int| 0 <= j < k ==> (#[trigger] s[j]).1 > byte,
        },
    decreases k,
{
    if k > 0 {
        routine_before_a_place(s, byte, k - 1);
    }
}

/// A run that starts with `ELSE` goes on from the last block before it whose state
/// is still open.
pub proof fn last_open_block(s: Seq<(u32, Option<Saved>)>, start: u32, k: int)
    requires
        0 <= k <= s.len() <= usize::MAX,
    ensures
        match open_anonymous(s, start, k) {
            Some(i) => i < k && s[i as int].0 <= start && s[i as int].1 is Some && forall|j: int|
                i < j < k ==> (#[trigger] s[j]).0 > start || s[j].1 is None,
            None => forall|j: int| 0 <= j < k ==> (#[trigger] s[j]).0 > start || s[j].1 is None,
        },
    decreases k,
{
    if k > 0 {
        last_open_block(s, start, k - 1);
    }
}

// ── which statements are scanned ───────────────────────────────────────

/// Whether a token can only stand in procedural code.
pub open spec fn shows_control(t: Seq<Token>, i: int) -> bool {
    let w = word_at(t, i);
    let next = word_at(t, i + 1);
    let text = next is OpenParen || variable_at(t, i + 1) && (!(word_at(t, i + 2) is Equals)
        || variable_at(t, i + 3));
    ||| w is Begin && !(next is Transaction) && !(next is Tran) && !(next is Work) && !(
    next is Distributed) && !(next is Semicolon)
    ||| w is End && (next is If || next is Loop || next is While || next is Case || next is Repeat)
    ||| w is Elsif || w is Elseif || w is While || w is SpExecutesql
    ||| i == 0 && w is Else
    ||| i == 0 && w is If && !(next is Semicolon) && !(next is Absent) && !scalar_if(t, 0)
    ||| w is Execute && (next is Immediate || text)
    ||| w is Exec && text
    ||| w is Prepare && word_at(t, i + 2) is From
    ||| w is Exception && next is When
}

/// A run of tokens is procedural code where one of them can stand nowhere else.
pub proof fn procedural_runs_show_control(t: Seq<Token>)
    ensures
        is_procedural_run(t) <==> exists|i: int| 0 <= i < t.len() && #[trigger] shows_control(t, i),
{
    assert forall|i: int| #[trigger] shows_control(t, i) == is_marker(t, i) by {}
    if is_procedural_run(t) {
        let i = choose|i: int| 0 <= i < t.len() && #[trigger] is_marker(t, i);
        assert(shows_control(t, i));
    }
    if exists|i: int| 0 <= i < t.len() && #[trigger] shows_control(t, i) {
        let i = choose|i: int| 0 <= i < t.len() && #[trigger] shows_control(t, i);
        assert(is_marker(t, i));
    }
}

/// A statement is scanned where it is procedural or a block, or is not understood
/// and shows control; but not where it lies in a routine, with which it is
/// scanned.
pub proof fn procedural_statements_are_scanned(src: Source, k: int)
    ensures
        ({
            let f = src.facts[k];
            let t = tokens_of(src.nodes, src.lines, src.statements[k] as int);
            is_region(src, k) <==> (f.kind is Procedural || f.kind is AnonymousBlock
                || f.kind is Unknown && is_procedural_run(t)) && !inside_routine(
                unit_ranges(src.units),
                (f.start_byte, f.end_byte),
            )
        }),
{
    let f = src.facts[k];
    let range = (f.start_byte, f.end_byte);
    let units = unit_ranges(src.units);
    if owned(units, range) {
        let i = choose|i: int| 0 <= i < units.len() && owns(#[trigger] units[i], range);
        assert(units[i].0 <= range.0);
    }
    if inside_routine(units, range) {
        let i = choose|i: int|
            0 <= i < units.len() && (#[trigger] units[i]).0 <= range.0 && range.1 <= units[i].1
                && units[i] != range;
        assert(owns(units[i], range));
    }
}

/// The state of a scan with nothing open.
pub open spec fn fresh(p: Progress, in_body: bool) -> Scan {
    Scan {
        stack: Seq::empty(),
        arms: Seq::empty(),
        next_case: 0,
        in_body,
        pending_loops: 0,
        pending_between: false,
        pending_header: false,
        pending_bodies: 0,
        last_bool: None,
        evidence: Seq::empty(),
        max_depth: p.max_depth,
        max_depth_span: p.max_depth_span,
    }
}

/// One path into a block or a routine.
pub open spec fn one_path(span: SourceSpan, unit: Option<usize>) -> LogEntry {
    LogEntry {
        evidence: ProceduralEvidence {
            span,
            metric: ProceduralMetric::Cyclomatic,
            amount: 1,
            reason: Reason::Entry,
        },
        unit,
    }
}

/// A block is scanned from its first token on, in a body unless it declares
/// something first, and is one path of its own; what it leaves open is kept for
/// what may go on with it.
pub proof fn blocks_are_scanned_afresh(src: Source, p: Progress, k: int)
    requires
        is_region(src, k),
        src.facts[k].kind is AnonymousBlock,
    ensures
        ({
            let f = src.facts[k];
            let t = tokens_of(src.nodes, src.lines, src.statements[k] as int);
            let ranges = unit_ranges(src.units);
            let s = fresh(p, !(word_at(t, 0) is Declare)).scan(t, 0);
            let q = after_statement(src, p, k);
            &&& q.log == (p.log + attributed_all(ranges, None, s.evidence, s.evidence.len() as int))
                .push(one_path(span_of_statement(f), None))
            &&& q.regions == p.regions.push((f.start_byte, f.end_byte))
            &&& q.max_depth == s.max_depth
            &&& q.extents == p.extents
            &&& q.queries == p.queries
            &&& last_inside(ranges, (f.start_byte, f.end_byte), ranges.len() as int) is None ==> {
                &&& q.carried == p.carried
                &&& s.stack.len() > 0 ==> q.anonymous == p.anonymous.push(
                    (f.end_byte, Some(left(s))),
                )
                &&& s.stack.len() == 0 ==> q.anonymous == p.anonymous
            }
        }),
{
    let t = tokens_of(src.nodes, src.lines, src.statements[k] as int);
    assert(continued_unit(src, k) is None);
    let b = !(word_at(t, 0) is Declare);
    assert(resumed(p, crate::regions::nothing_saved(), b) == fresh(p, b));
}

/// A procedural statement without a definition in it goes on with the routine
/// before it, from where that was left and in its body; the routine then reaches
/// to its end and has its queries.
pub proof fn routines_are_gone_on_with(src: Source, p: Progress, k: int, u: usize, held: Saved)
    requires
        is_region(src, k),
        src.facts[k].kind is Procedural,
        src.units.len() <= usize::MAX,
        forall|j: int|
            0 <= j < src.units.len() ==> !lies_within(
                #[trigger] unit_ranges(src.units)[j],
                (src.facts[k].start_byte, src.facts[k].end_byte),
            ),
        last_before(unit_ranges(src.units), src.facts[k].start_byte, src.units.len() as int)
            == Some(u),
        u < p.carried.len(),
        u < p.extents.len(),
        u < p.queries.len(),
        p.carried[u as int] == Some(held),
    ensures
        ({
            let f = src.facts[k];
            let node = src.statements[k] as int;
            let t = tokens_of(src.nodes, src.lines, node);
            let ranges = unit_ranges(src.units);
            let s = Scan {
                stack: held.stack,
                arms: held.arms,
                next_case: held.next_case,
                ..fresh(p, true)
            }.scan(t, 0);
            let q = after_statement(src, p, k);
            &&& q.log == p.log + attributed_all(
                ranges,
                Some(u),
                s.evidence,
                s.evidence.len() as int,
            )
            &&& q.carried == p.carried.update(u as int, Some(left(s)))
            &&& q.queries == p.queries.update(
                u as int,
                merged(p.queries[u as int], region_shape(src.nodes, node)),
            )
            &&& q.extents[u as int].0 >= f.end_byte
            &&& q.extents[u as int].0 == f.end_byte || q.extents == p.extents
            &&& q.regions == p.regions.push((f.start_byte, f.end_byte))
        }),
{
    let f = src.facts[k];
    let ranges = unit_ranges(src.units);
    last_definition_inside(ranges, (f.start_byte, f.end_byte), ranges.len() as int);
    assert(continued_unit(src, k) == Some(u));
    assert(p.carried.update(u as int, None).update(u as int, Some(left(resumed(
        p,
        held,
        true,
    ).scan(tokens_of(src.nodes, src.lines, src.statements[k] as int), 0)))) =~= p.carried.update(
        u as int,
        Some(
            left(
                resumed(p, held, true).scan(
                    tokens_of(src.nodes, src.lines, src.statements[k] as int),
                    0,
                ),
            ),
        ),
    ));
    assert(resumed(p, held, true) == (Scan {
        stack: held.stack,
        arms: held.arms,
        next_case: held.next_case,
        ..fresh(p, true)
    }));
}

/// A statement that is not scanned leaves everything as it was.
pub proof fn other_statements_are_passed_over(src: Source, p: Progress, k: int)
    requires
        !is_region(src, k),
    ensures
        after_statement(src, p, k) == p,
{
}

/// A scripting segment is scanned in a body, once, and is a path of its own where
/// no routine shares a byte with it.
pub proof fn segments_are_scanned_in_a_body(src: Source, p: Progress, seg: int, range: (u32, u32))
    requires
        src.nodes[seg].span == Some(range),
    ensures
        ({
            let t = tokens_of(src.nodes, src.lines, seg);
            let ranges = unit_ranges(src.units);
            let seen = exists|k: int|
                0 <= k < p.regions.len() && lies_within(range, #[trigger] p.regions[k]);
            let shared = exists|k: int|
                0 <= k < ranges.len() && (#[trigger] ranges[k]).0 < range.1 && range.0
                    < ranges[k].1;
            let s = fresh(p, true).scan(t, 0);
            let log = p.log + attributed_all(ranges, None, s.evidence, s.evidence.len() as int);
            let q = after_segment(src, p, seg);
            &&& seen ==> q == p
            &&& !seen ==> q.regions == p.regions.push(range)
            &&& !seen && shared ==> q.log == log
            &&& !seen && !shared ==> q.log == log.push(one_path(src.lines.span(range), None))
        }),
{
    let ranges = unit_ranges(src.units);
    if in_some_range(p.regions, range) {
        let k = choose|k: int|
            0 <= k < p.regions.len() && crate::regions::holds_range(#[trigger] p.regions[k], range);
        assert(lies_within(range, p.regions[k]));
    }
    if exists|k: int| 0 <= k < p.regions.len() && lies_within(range, #[trigger] p.regions[k]) {
        let k = choose|k: int| 0 <= k < p.regions.len() && lies_within(range, #[trigger] p.regions[k]);
        assert(crate::regions::holds_range(p.regions[k], range));
    }
    if overlaps_some(ranges, range) {
        let k = choose|k: int|
            0 <= k < ranges.len() && crate::regions::overlaps(#[trigger] ranges[k], range);
        assert(ranges[k].0 < range.1);
    }
    if exists|k: int|
        0 <= k < ranges.len() && (#[trigger] ranges[k]).0 < range.1 && range.0 < ranges[k].1 {
        let k = choose|k: int|
            0 <= k < ranges.len() && (#[trigger] ranges[k]).0 < range.1 && range.0 < ranges[k].1;
        assert(crate::regions::overlaps(ranges[k], range));
    }
    assert(resumed(p, crate::regions::nothing_saved(), true) == fresh(p, true));
}

/// A run that could not be parsed is scanned only where it shows control and was
/// not scanned already. Where bodies spill over it goes on with the routine before
/// it, unless a batch ends between them; where it belongs to none and starts with
/// control it is a path of its own.
pub proof fn runs_are_scanned_where_they_show_control(
    src: Source,
    p: Progress,
    run: int,
    range: (u32, u32),
)
    requires
        src.nodes[run].span == Some(range),
    ensures
        ({
            let t = tokens_of(src.nodes, src.lines, run);
            let q = after_run(src, p, run);
            let idle = in_some_range(p.regions, range) || !is_procedural_run(t);
            let first = word_at(t, 0);
            let leads = first is If || first is While || first is For || first is Loop
                || first is Declare || (first is Begin && !(word_at(t, 1) is Transaction) && !(
            word_at(t, 1) is Tran) && !(word_at(t, 1) is Work) && !(word_at(t, 1) is Dialog) && !(
            word_at(t, 1) is Distributed) && !(word_at(t, 1) is Semicolon));
            &&& idle ==> q == p
            &&& !src.spills ==> spilled_unit(src, p, range.0) is None
            &&& !idle && src.spills && spilled_unit(src, p, range.0) is None && leads
                ==> q.log.len() > p.log.len() && q.log[p.log.len() as int] == one_path(
                src.lines.span(range),
                None,
            )
            &&& !idle && !(first is Else) && spilled_unit(src, p, range.0) is None && !(src.spills
                && leads) ==> {
                let s = fresh(p, !(first is Declare)).scan(t, 0);
                q.log == p.log + attributed_all(
                    unit_ranges(src.units),
                    None,
                    s.evidence,
                    s.evidence.len() as int,
                )
            }
        }),
{
    let t = tokens_of(src.nodes, src.lines, run);
    let b = !(word_at(t, 0) is Declare);
    assert(resumed(p, crate::regions::nothing_saved(), b) == fresh(p, b));
    assert(control_led(t) ==> word_at(t, 0) is If || word_at(t, 0) is While || word_at(t, 0) is For
        || word_at(t, 0) is Loop || word_at(t, 0) is Declare || word_at(t, 0) is Begin);
}

/// A run goes on with the routine that ends last before it, unless a batch ends
/// in between.
pub proof fn batches_keep_runs_apart(src: Source, p: Progress, start: u32, u: usize)
    requires
        src.spills,
        last_before(unit_ranges(src.units), start, src.units.len() as int) == Some(u),
    ensures
        spilled_unit(src, p, start) == Some(u) <==> !separated(src, p.extents[u as int].0, start),
        spilled_unit(src, p, start) is None <==> separated(src, p.extents[u as int].0, start),
{
}

// ── routines ───────────────────────────────────────────────────────────

proof fn lemma_total_push(log: Seq<LogEntry>, e: LogEntry, m: ProceduralMetric)
    ensures
        total(log.push(e), m) == total(log, m) + if e.evidence.metric == m {
            e.evidence.amount as int
        } else {
            0
        },
{
    assert(log.push(e).drop_last() =~= log);
}

/// Every routine is one path and counts once.
pub proof fn routines_are_paths(src: Source, p: Progress, k: int, m: ProceduralMetric)
    requires
        k >= 0,
    ensures
        total(after_entries(src, p, k).log, m) == total(p.log, m) + if m is Cyclomatic {
            k
        } else {
            0
        },
        total(after_routines(src, p, k).log, m) == total(p.log, m) + if m is RoutineCount {
            k
        } else {
            0
        },
    decreases k,
{
    if k > 0 {
        routines_are_paths(src, p, k - 1, m);
        let a = after_entries(src, p, k - 1);
        let b = after_routines(src, p, k - 1);
        lemma_total_push(a.log, after_entries(src, p, k).log.last(), m);
        lemma_total_push(b.log, after_routines(src, p, k).log.last(), m);
        assert(after_entries(src, p, k).log =~= a.log.push(after_entries(src, p, k).log.last()));
        assert(after_routines(src, p, k).log =~= b.log.push(after_routines(src, p, k).log.last()));
    }
}

/// The deepest block is reported with its depth, where there is one.
pub proof fn deepest_block_is_reported(p: Progress)
    ensures
        p.max_depth_span is None ==> with_deepest(p) == p,
        p.max_depth_span matches Some(span) ==> {
            let q = with_deepest(p);
            &&& q.log.len() == p.log.len() + 1
            &&& q.log.last().evidence.metric is MaxBlockDepth
            &&& q.log.last().evidence.amount == p.max_depth as u64
            &&& q.log.last().evidence.span == span
            &&& q.log.last().evidence.reason is DeepestBlock
        },
{
}

/// A routine reaches as far as the furthest of its parts.
pub proof fn routines_reach_their_last_part(p: Progress, u: int, end: u32, line: u32)
    requires
        0 <= u < p.extents.len(),
    ensures
        ({
            let q = p.extended(u, end, line);
            &&& q.extents[u].0 >= p.extents[u].0
            &&& q.extents[u].0 >= end
            &&& q.extents[u].0 == end || q.extents[u] == p.extents[u]
            &&& q.extents[u].1 >= p.extents[u].1
            &&& end > p.extents[u].0 ==> q.extents[u].1 >= line
            &&& forall|v: int|
                0 <= v < p.extents.len() && v != u ==> #[trigger] q.extents[v] == p.extents[v]
            &&& q.log == p.log
        }),
{
}

/// The heaviest routine is the first one with the largest score, if any has one.
pub proof fn heaviest_routine_has_the_largest_score(src: Source, p: Progress, k: int)
    requires
        0 <= k <= usize::MAX,
    ensures
        match heaviest(src, p, k) {
            Some(u) => u < k && unit_structural(src, p, u as int) > 0 && forall|j: int|
                0 <= j < k ==> (#[trigger] unit_structural(src, p, j)) <= unit_structural(
                    src,
                    p,
                    u as int,
                ) && (j < u ==> unit_structural(src, p, j) < unit_structural(src, p, u as int)),
            None => forall|j: int| 0 <= j < k ==> #[trigger] unit_structural(src, p, j) == 0,
        },
    decreases k,
{
    if k > 0 {
        heaviest_routine_has_the_largest_score(src, p, k - 1);
    }
}

} // verus!
