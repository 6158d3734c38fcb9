//! Where evidence stands: what is reported of a file lies in its text where the
//! nodes of its syntax tree do.

use vstd::prelude::*;

use crate::control::{
    arm_evidence, bind_loops, close_ifs, close_loops, close_owners, close_to, Arm, BoolOp, Ctx,
    Pick, ProceduralEvidence, ProceduralMetric, Scan,
};
use crate::contributions::{
    contributions_of, in_source_order, of_heaviest, of_not, of_procedural, of_risk, recorded,
    with_contribution, Contribution,
};
use crate::ctes::ref_name;
use crate::facts::{
    describes_file, dynamic_risks, recovery_of, rules_of, source_of, SqlFileFacts,
};
use crate::grammar::DialectKind;
use crate::kind::{Kind, KindSet};
use crate::object_scan::{lemma_noted, table_wf};
use crate::objects::{
    after_elements, after_reads, after_refs, after_writes, block_events, block_events_by,
    block_search, blocks_events, code_leaves, controls_transaction, dml_in, events, events_at,
    from_elements, in_block, keyword_spelled, keywords_in, lacks_where, object_events, object_log,
    placed_span, replace_events, returning_events, returning_in, risks, span_or, statement_events,
    target_refs, touched, unfiltered, unfiltered_events, write_statements, Change,
    ChangeRiskEvidence, ObjectEvent, Objects, Touched,
};
use crate::order::{lemma_less_irreflexive, lemma_rank, rank};
use crate::predicates::{nots_at, nots_in};
use crate::procedural::{describes_unit, places_of};
use crate::regions::{
    after_entries, after_routines, after_run, after_runs, after_segments, after_statement,
    after_statements, attributed_all, continued_anonymous, continued_unit, control_led,
    file_progress, in_some_range, is_region, last_before, last_inside, no_progress, nothing_saved,
    open_anonymous, resumed, saved_or_nothing, segments_of, spilled_unit, starts_in_body,
    unit_ranges, unit_span, LogEntry, Progress, Saved, Source,
};
use crate::scanner::lemma_topmost;
use crate::span::{empty_span, line_is_monotonic, Lines, SourceSpan};
use crate::statements::{
    classified, counts_as_statement, span_of_statement, statements_of, StatementFacts,
    StatementKind, StatementRules,
};
use crate::token::{is_procedural_run, tokens_in, tokens_of, word_at, Token};
use crate::tree::{
    all_in, code_children, crawl, every, kept, lemma_crawl, lemma_kept, lemma_siblings,
    well_formed, Node, Probe,
};
use crate::units::{
    header_places, header_units, in_order, is_routine, leaf_end, leaf_start, leaf_text, leaves_in,
    member_close, member_last, member_places, member_units, parsed_units, run_leaves, unit_nodes,
    units_of, with_runs, with_unit, Recovery, Unit,
};
use crate::word::Word;

verus! {

/// The lines of a text and its length in bytes.
pub ghost struct Frame {
    pub lines: Lines,
    pub len: int,
}

impl Frame {
    /// Whether a span lies in the text and its lines are those of its bytes.
    pub open spec fn has(self, s: SourceSpan) -> bool {
        s.start_byte <= s.end_byte <= self.len && s == self.lines.span((s.start_byte, s.end_byte))
    }

    /// Whether the nodes of a tree lie in the text: every node has a byte range,
    /// none starts before an earlier one, and none ends after a node around it.
    pub open spec fn holds_tree(self, n: Seq<Node>) -> bool {
        &&& forall|i: int|
            0 <= i < n.len() ==> ((#[trigger] n[i]).span matches Some(range) && range.0 <= range.1
                <= self.len)
        &&& forall|i: int, j: int|
            #![trigger n[i], n[j]]
            0 <= i <= j < n.len() ==> (n[i].span->0).0 <= (n[j].span->0).0
        &&& forall|i: int, j: int|
            #![trigger n[i], n[j]]
            0 <= i < n.len() && i <= j < n[i].end ==> (n[j].span->0).1 <= (n[i].span->0).1
    }
}

// ── scans ──────────────────────────────────────────────────────────────

pub open spec fn tokens_lie(f: Frame, t: Seq<Token>) -> bool {
    forall|i: int| 0 <= i < t.len() ==> f.has((#[trigger] t[i]).span)
}

pub open spec fn cases_lie(f: Frame, stack: Seq<Ctx>) -> bool {
    forall|j: int|
        0 <= j < stack.len() ==> ((#[trigger] stack[j]) matches Ctx::Case { open_span, .. }
            ==> f.has(open_span))
}

pub open spec fn arms_lie(f: Frame, arms: Seq<Arm>) -> bool {
    forall|j: int| 0 <= j < arms.len() ==> f.has((#[trigger] arms[j]).span)
}

pub open spec fn evidence_lies(f: Frame, s: Seq<ProceduralEvidence>) -> bool {
    forall|j: int| 0 <= j < s.len() ==> f.has((#[trigger] s[j]).span)
}

pub open spec fn place_lies(f: Frame, s: Option<SourceSpan>) -> bool {
    s matches Some(span) ==> f.has(span)
}

pub open spec fn scan_lies(f: Frame, s: Scan) -> bool {
    &&& cases_lie(f, s.stack)
    &&& arms_lie(f, s.arms)
    &&& evidence_lies(f, s.evidence)
    &&& place_lies(f, s.max_depth_span)
}

proof fn lemma_close_loops_lie(f: Frame, stack: Seq<Ctx>, k: int)
    requires
        cases_lie(f, stack),
    ensures
        cases_lie(f, close_loops(stack, k)),
    decreases k,
{
    if k > 0 {
        lemma_topmost(stack, Pick::OpenLoop);
        lemma_close_loops_lie(f, close_to(stack, Pick::OpenLoop), k - 1);
    }
}

proof fn lemma_close_owners_lie(f: Frame, stack: Seq<Ctx>, else_next: bool)
    requires
        cases_lie(f, stack),
    ensures
        cases_lie(f, close_owners(stack, else_next)),
    decreases stack.len(),
{
    if stack.len() > 0 {
        assert(cases_lie(f, stack.drop_last()));
        lemma_close_owners_lie(f, stack.drop_last(), else_next);
    }
}

proof fn lemma_close_ifs_lie(f: Frame, stack: Seq<Ctx>, else_next: bool)
    requires
        cases_lie(f, stack),
    ensures
        cases_lie(f, close_ifs(stack, else_next)),
    decreases stack.len(),
{
    if stack.len() > 0 {
        assert(cases_lie(f, stack.drop_last()));
        lemma_close_ifs_lie(f, stack.drop_last(), else_next);
    }
}

proof fn lemma_bind_lie(f: Frame, stack: Seq<Ctx>, k: int)
    requires
        cases_lie(f, stack),
    ensures
        cases_lie(f, bind_loops(stack, k)),
    decreases stack.len(),
{
    if k > 0 && stack.len() > 0 {
        assert(cases_lie(f, stack.drop_last()));
        lemma_bind_lie(f, stack.drop_last(), k - 1);
        lemma_bind_lie(f, stack.drop_last(), k);
    }
}

proof fn lemma_arms_lie(f: Frame, arms: Seq<Arm>, id: u64)
    requires
        arms_lie(f, arms),
    ensures
        evidence_lies(f, arm_evidence(arms, id)),
    decreases arms.len(),
{
    if arms.len() > 0 {
        assert(arms_lie(f, arms.drop_last()));
        assert(f.has(arms[arms.len() - 1].span));
        lemma_arms_lie(f, arms.drop_last(), id);
    }
}

proof fn lemma_end_case_lies(f: Frame, s: Scan)
    requires
        scan_lies(f, s),
    ensures
        scan_lies(f, s.end_case()),
{
    lemma_topmost(s.stack, Pick::Case);
    assert forall|id: u64| evidence_lies(f, #[trigger] arm_evidence(s.arms, id)) by {
        lemma_arms_lie(f, s.arms, id);
    }
}

proof fn lemma_begin_lies(f: Frame, s: Scan, span: SourceSpan, next: Word)
    requires
        scan_lies(f, s),
        f.has(span),
    ensures
        scan_lies(f, s.begin(span, next).0),
{
    lemma_bind_lie(f, s.stack, s.pending_loops);
}

proof fn lemma_end_lies(f: Frame, s: Scan, next: Word, after: Word)
    requires
        scan_lies(f, s),
    ensures
        scan_lies(f, s.end(next, after).0),
{
    lemma_end_case_lies(f, s.quiet());
    lemma_topmost(s.stack, Pick::BareEnd);
    lemma_topmost(s.stack, Pick::Catch);
    lemma_topmost(s.stack, Pick::Try);
    lemma_topmost(s.stack, Pick::IfWithThen);
    assert(cases_lie(f, close_to(s.stack, Pick::Catch)));
    lemma_close_owners_lie(f, close_to(s.stack, Pick::Catch), after == Word::Else);
    assert(cases_lie(f, close_to(s.stack, Pick::BareEnd)));
    lemma_close_owners_lie(f, close_to(s.stack, Pick::BareEnd), next == Word::Else);
}

proof fn lemma_keyword_lies(f: Frame, s: Scan, t: Seq<Token>, i: int)
    requires
        scan_lies(f, s),
        tokens_lie(f, t),
        0 <= i < t.len(),
    ensures
        scan_lies(f, s.keyword(t, i).0),
{
    let span = t[i].span;
    lemma_begin_lies(f, s, span, word_at(t, i + 1));
    lemma_end_lies(f, s, word_at(t, i + 1), word_at(t, i + 2));
    lemma_topmost(s.stack, Pick::Block);
    assert(scan_lies(f, s.exception()));
    assert(scan_lies(f, s.if_word(t, i)));
    assert(scan_lies(f, s.when_word(span, word_at(t, i + 1), word_at(t, i + 2))));
    assert(scan_lies(f, s.else_word(span)));
    assert(scan_lies(f, s.then_word()));
    assert(scan_lies(f, s.elsif(span)));
    assert(scan_lies(f, s.execute(t, i).0));
    assert(scan_lies(f, s.loop_word(span)));
    assert(scan_lies(f, s.loop_header(span)));
    assert(scan_lies(f, s.raise(span)));
    assert(scan_lies(f, s.exit_word(span, word_at(t, i + 1)).0));
    assert(scan_lies(f, s.case_word(span)));
}

proof fn lemma_terminator_lies(f: Frame, s: Scan, else_next: bool)
    requires
        scan_lies(f, s),
    ensures
        scan_lies(f, s.terminator(else_next)),
        scan_lies(f, s.finish()),
{
    lemma_close_loops_lie(f, s.stack, s.pending_loops);
    lemma_close_ifs_lie(f, close_loops(s.stack, s.pending_loops), else_next);
}

proof fn lemma_step_lies(f: Frame, s: Scan, t: Seq<Token>, i: int)
    requires
        scan_lies(f, s),
        tokens_lie(f, t),
        0 <= i < t.len(),
    ensures
        scan_lies(f, s.step(t, i).0),
{
    lemma_keyword_lies(f, s, t, i);
    lemma_terminator_lies(f, s, word_at(t, i + 1) == Word::Else);
    assert(scan_lies(f, s.boolean(BoolOp::And, t[i].span)));
    assert(scan_lies(f, s.boolean(BoolOp::Or, t[i].span)));
}

proof fn lemma_scan_lies(f: Frame, s: Scan, t: Seq<Token>, i: int)
    requires
        scan_lies(f, s),
        tokens_lie(f, t),
    ensures
        scan_lies(f, s.scan(t, i)),
    decreases t.len() - i,
{
    if 0 <= i < t.len() {
        lemma_step_lies(f, s, t, i);
        let (r, taken) = s.step(t, i);
        lemma_scan_lies(f, r, t, if taken == 2 {
            i + 2
        } else {
            i + 1
        });
    } else {
        lemma_terminator_lies(f, s, false);
    }
}

proof fn lemma_tokens_lie(f: Frame, n: Seq<Node>, lo: int, hi: int)
    requires
        f.holds_tree(n),
        0 <= lo,
        hi <= n.len(),
    ensures
        tokens_lie(f, tokens_in(n, f.lines, lo, hi)),
    decreases hi - lo,
{
    if hi > lo {
        lemma_tokens_lie(f, n, lo, hi - 1);
        assert(n[hi - 1].span is Some);
        let before = tokens_in(n, f.lines, lo, hi - 1);
        let t = tokens_in(n, f.lines, lo, hi);
        assert forall|i: int| 0 <= i < t.len() implies f.has((#[trigger] t[i]).span) by {
            if i < before.len() {
                assert(t[i] == before[i]);
            }
        }
    }
}

// ── progress ───────────────────────────────────────────────────────────

pub open spec fn saved_lies(f: Frame, s: Saved) -> bool {
    cases_lie(f, s.stack) && arms_lie(f, s.arms)
}

pub open spec fn held_lies(f: Frame, s: Option<Saved>) -> bool {
    s matches Some(saved) ==> saved_lies(f, saved)
}

/// Whether how far a routine reaches lies in the text.
pub open spec fn extent_lies(f: Frame, u: Unit, e: (u32, u32)) -> bool {
    f.has(unit_span(u, e))
}

/// Whether everything known of a file lies in its text.
pub open spec fn progress_lies(f: Frame, units: Seq<Unit>, p: Progress) -> bool {
    &&& forall|i: int| 0 <= i < p.log.len() ==> f.has((#[trigger] p.log[i]).evidence.span)
    &&& place_lies(f, p.max_depth_span)
    &&& p.carried.len() == units.len()
    &&& p.extents.len() == units.len()
    &&& forall|u: int| 0 <= u < units.len() ==> held_lies(f, #[trigger] p.carried[u])
    &&& forall|a: int| 0 <= a < p.anonymous.len() ==> held_lies(f, (#[trigger] p.anonymous[a]).1)
    &&& forall|u: int|
        0 <= u < units.len() ==> extent_lies(f, units[u], #[trigger] p.extents[u])
}

/// Whether the routines and statements of a file lie in its text.
pub open spec fn source_lies(f: Frame, src: Source) -> bool {
    &&& f.lines == src.lines
    &&& f.lines.wf()
    &&& well_formed(src.nodes)
    &&& f.holds_tree(src.nodes)
    &&& src.statements.len() == src.facts.len()
    &&& forall|k: int|
        0 <= k < src.statements.len() ==> (#[trigger] src.statements[k]) < src.nodes.len()
    &&& forall|k: int|
        0 <= k < src.facts.len() ==> f.has(span_of_statement(#[trigger] src.facts[k]))
    &&& forall|u: int|
        0 <= u < src.units.len() ==> extent_lies(
            f,
            #[trigger] src.units[u],
            (src.units[u].end_byte, src.units[u].end_line),
        )
}

proof fn lemma_last_inside(s: Seq<(u32, u32)>, range: (u32, u32), k: int)
    requires
        0 <= k,
    ensures
        last_inside(s, range, k) matches Some(u) ==> u < k,
    decreases k,
{
    if k > 0 {
        lemma_last_inside(s, range, k - 1);
    }
}

proof fn lemma_last_before(s: Seq<(u32, u32)>, byte: u32, k: int)
    requires
        0 <= k,
    ensures
        last_before(s, byte, k) matches Some(u) ==> u < k,
    decreases k,
{
    if k > 0 {
        lemma_last_before(s, byte, k - 1);
    }
}

proof fn lemma_attributed_lie(
    f: Frame,
    ranges: Seq<(u32, u32)>,
    fallback: Option<usize>,
    s: Seq<ProceduralEvidence>,
    k: int,
)
    requires
        evidence_lies(f, s),
        k <= s.len(),
    ensures
        forall|i: int|
            0 <= i < attributed_all(ranges, fallback, s, k).len() ==> f.has(
                (#[trigger] attributed_all(ranges, fallback, s, k)[i]).evidence.span,
            ),
    decreases k,
{
    if k > 0 {
        lemma_attributed_lie(f, ranges, fallback, s, k - 1);
        assert(f.has(s[k - 1].span));
    }
}

proof fn lemma_scanned_lies(
    f: Frame,
    units: Seq<Unit>,
    p: Progress,
    ranges: Seq<(u32, u32)>,
    t: Seq<Token>,
    fallback: Option<usize>,
    saved: Saved,
    in_body: bool,
)
    requires
        progress_lies(f, units, p),
        saved_lies(f, saved),
        tokens_lie(f, t),
    ensures
        progress_lies(f, units, p.scanned(ranges, t, fallback, saved, in_body).0),
        saved_lies(f, p.scanned(ranges, t, fallback, saved, in_body).1),
{
    lemma_scan_lies(f, resumed(p, saved, in_body), t, 0);
    let s = resumed(p, saved, in_body).scan(t, 0);
    lemma_attributed_lie(f, ranges, fallback, s.evidence, s.evidence.len() as int);
    let added = attributed_all(ranges, fallback, s.evidence, s.evidence.len() as int);
    let log = p.log + added;
    assert forall|i: int| 0 <= i < log.len() implies f.has((#[trigger] log[i]).evidence.span) by {
        if i < p.log.len() {
            assert(log[i] == p.log[i]);
        } else {
            assert(log[i] == added[i - p.log.len()]);
        }
    }
}

proof fn lemma_extended_lies(
    f: Frame,
    units: Seq<Unit>,
    p: Progress,
    u: int,
    end: u32,
    end_line: u32,
)
    requires
        f.lines.wf(),
        progress_lies(f, units, p),
        0 <= u < units.len(),
        end <= f.len,
        end_line == f.lines.last_line(end),
    ensures
        progress_lies(f, units, p.extended(u, end, end_line)),
{
    assert(extent_lies(f, units[u], p.extents[u]));
    let old_end = p.extents[u].0;
    if end > old_end {
        line_is_monotonic(
            f.lines,
            if old_end == 0 {
                0
            } else {
                (old_end - 1) as u32
            },
            (end - 1) as u32,
        );
    }
}

proof fn lemma_statement_lies(f: Frame, src: Source, p: Progress, k: int)
    requires
        source_lies(f, src),
        progress_lies(f, src.units, p),
        0 <= k < src.facts.len(),
    ensures
        progress_lies(f, src.units, after_statement(src, p, k)),
{
    if is_region(src, k) {
        let s = src.facts[k];
        let range = (s.start_byte, s.end_byte);
        let ranges = unit_ranges(src.units);
        let node = src.statements[k] as int;
        let t = tokens_of(src.nodes, src.lines, node);
        let fallback = continued_unit(src, k);
        let count = ranges.len() as int;
        lemma_last_before(ranges, s.start_byte, count);
        lemma_last_inside(ranges, range, count);
        assert(f.has(span_of_statement(s)));
        lemma_tokens_lie(f, src.nodes, node, src.nodes[node].end as int);
        let held = match fallback {
            Some(u) => p.carried[u as int],
            None => None,
        };
        assert(held_lies(f, held));
        let from = saved_or_nothing(held);
        assert(saved_lies(f, from));
        let q = Progress {
            regions: p.regions.push(range),
            carried: match fallback {
                Some(u) => p.carried.update(u as int, None),
                None => p.carried,
            },
            ..p
        };
        assert(progress_lies(f, src.units, q));
        let in_body = from.in_body || starts_in_body(src, k, t);
        lemma_scanned_lies(f, src.units, q, ranges, t, fallback, from, in_body);
        let (q, end) = q.scanned(ranges, t, fallback, from, in_body);
        let owner = if fallback is Some {
            fallback
        } else {
            last_inside(ranges, range, count)
        };
        let q = match owner {
            Some(u) => Progress { carried: q.carried.update(u as int, Some(end)), ..q },
            None => if s.kind == StatementKind::AnonymousBlock && end.stack.len() > 0 {
                Progress { anonymous: q.anonymous.push((s.end_byte, Some(end))), ..q }
            } else {
                q
            },
        };
        assert(progress_lies(f, src.units, q));
        if let Some(u) = fallback {
            let r = Progress {
                queries: q.queries.update(
                    u as int,
                    crate::query_shape::merged(
                        q.queries[u as int],
                        crate::query_shape::region_shape(src.nodes, node),
                    ),
                ),
                ..q
            };
            assert(progress_lies(f, src.units, r));
            lemma_extended_lies(f, src.units, r, u as int, s.end_byte, s.end_line);
        }
    }
}

proof fn lemma_statements_lie(f: Frame, src: Source, p: Progress, k: int)
    requires
        source_lies(f, src),
        progress_lies(f, src.units, p),
        k <= src.facts.len(),
    ensures
        progress_lies(f, src.units, after_statements(src, p, k)),
    decreases k,
{
    if k > 0 {
        lemma_statements_lie(f, src, p, k - 1);
        lemma_statement_lies(f, src, after_statements(src, p, k - 1), k - 1);
    }
}

proof fn lemma_segments_lie(f: Frame, src: Source, p: Progress, segs: Seq<usize>, k: int)
    requires
        source_lies(f, src),
        progress_lies(f, src.units, p),
        forall|i: int| 0 <= i < segs.len() ==> (#[trigger] segs[i]) < src.nodes.len(),
        k <= segs.len(),
    ensures
        progress_lies(f, src.units, after_segments(src, p, segs, k)),
    decreases k,
{
    if k > 0 {
        lemma_segments_lie(f, src, p, segs, k - 1);
        let p = after_segments(src, p, segs, k - 1);
        let seg = segs[k - 1] as int;
        if let Some(range) = src.nodes[seg].span {
            let ranges = unit_ranges(src.units);
            let t = tokens_of(src.nodes, src.lines, seg);
            lemma_tokens_lie(f, src.nodes, seg, src.nodes[seg].end as int);
            let q = Progress { regions: p.regions.push(range), ..p };
            assert(progress_lies(f, src.units, q));
            lemma_scanned_lies(f, src.units, q, ranges, t, None, nothing_saved(), true);
            assert(f.has(src.lines.span(range)));
        }
    }
}

proof fn lemma_entries_lie(f: Frame, src: Source, p: Progress, k: int)
    requires
        progress_lies(f, src.units, p),
        k <= src.units.len(),
    ensures
        progress_lies(f, src.units, after_entries(src, p, k)),
        after_entries(src, p, k).extents == p.extents,
    decreases k,
{
    if k > 0 {
        lemma_entries_lie(f, src, p, k - 1);
        let q = after_entries(src, p, k - 1);
        assert(extent_lies(f, src.units[k - 1], q.extents[k - 1]));
    }
}

proof fn lemma_routines_lie(f: Frame, src: Source, p: Progress, k: int)
    requires
        progress_lies(f, src.units, p),
        k <= src.units.len(),
    ensures
        progress_lies(f, src.units, after_routines(src, p, k)),
        after_routines(src, p, k).extents == p.extents,
    decreases k,
{
    if k > 0 {
        lemma_routines_lie(f, src, p, k - 1);
        let q = after_routines(src, p, k - 1);
        assert(extent_lies(f, src.units[k - 1], q.extents[k - 1]));
    }
}

proof fn lemma_open_anonymous(s: Seq<(u32, Option<Saved>)>, start: u32, k: int)
    requires
        0 <= k,
    ensures
        open_anonymous(s, start, k) matches Some(a) ==> a < k,
    decreases k,
{
    if k > 0 {
        lemma_open_anonymous(s, start, k - 1);
    }
}

proof fn lemma_run_lies(f: Frame, src: Source, p: Progress, run: int)
    requires
        source_lies(f, src),
        progress_lies(f, src.units, p),
        0 <= run < src.nodes.len(),
    ensures
        progress_lies(f, src.units, after_run(src, p, run)),
{
    let t = tokens_of(src.nodes, src.lines, run);
    lemma_tokens_lie(f, src.nodes, run, src.nodes[run].end as int);
    if let Some(range) = src.nodes[run].span {
        if !in_some_range(p.regions, range) && is_procedural_run(t) {
            let ranges = unit_ranges(src.units);
            lemma_last_before(ranges, range.0, ranges.len() as int);
            let fallback = spilled_unit(src, p, range.0);
            assert(f.has(src.lines.span(range)));
            let p = if src.spills && fallback is None && control_led(t) {
                p.entered(src.lines.span(range), None)
            } else {
                p
            };
            assert(progress_lies(f, src.units, p));
            let held = match fallback {
                Some(u) => p.carried[u as int],
                None => None,
            };
            lemma_open_anonymous(p.anonymous, range.0, p.anonymous.len() as int);
            let anon = if fallback is None {
                continued_anonymous(p, t, range.0)
            } else {
                None
            };
            let taken = match anon {
                Some(a) => p.anonymous[a as int].1,
                None => held,
            };
            assert(held_lies(f, taken));
            let from = saved_or_nothing(taken);
            let alone = fallback is None && taken is None;
            let q = Progress {
                carried: match fallback {
                    Some(u) => p.carried.update(u as int, None),
                    None => p.carried,
                },
                anonymous: match anon {
                    Some(a) => p.anonymous.update(a as int, (p.anonymous[a as int].0, None)),
                    None => p.anonymous,
                },
                ..p
            };
            assert(progress_lies(f, src.units, q));
            let in_body = from.in_body || !(alone && word_at(t, 0) == Word::Declare);
            lemma_scanned_lies(f, src.units, q, ranges, t, fallback, from, in_body);
            let (q, end) = q.scanned(ranges, t, fallback, from, in_body);
            if let Some(u) = fallback {
                let r = Progress { carried: q.carried.update(u as int, Some(end)), ..q };
                assert(progress_lies(f, src.units, r));
                lemma_extended_lies(
                    f,
                    src.units,
                    r,
                    u as int,
                    range.1,
                    src.lines.last_line(range.1),
                );
            }
        }
    }
}

proof fn lemma_runs_lie(f: Frame, src: Source, p: Progress, runs: Seq<usize>, k: int)
    requires
        source_lies(f, src),
        progress_lies(f, src.units, p),
        forall|i: int| 0 <= i < runs.len() ==> (#[trigger] runs[i]) < src.nodes.len(),
        k <= runs.len(),
    ensures
        progress_lies(f, src.units, after_runs(src, p, runs, k)),
    decreases k,
{
    if k > 0 {
        lemma_runs_lie(f, src, p, runs, k - 1);
        lemma_run_lies(f, src, after_runs(src, p, runs, k - 1), runs[k - 1] as int);
    }
}

proof fn lemma_file_lies(f: Frame, src: Source, root: int)
    requires
        source_lies(f, src),
        0 <= root < src.nodes.len(),
    ensures
        progress_lies(f, src.units, file_progress(src, root)),
{
    let p = no_progress(src.units);
    assert forall|u: int| 0 <= u < src.units.len() implies extent_lies(
        f,
        src.units[u],
        #[trigger] p.extents[u],
    ) by {
        assert(extent_lies(
            f,
            src.units[u],
            (src.units[u].end_byte, src.units[u].end_line),
        ));
    }
    assert(progress_lies(f, src.units, p));
    lemma_statements_lie(f, src, p, src.facts.len() as int);
    let p = after_statements(src, p, src.facts.len() as int);
    let probe = Probe {
        set: KindSet::Only(Kind::MultiStatementSegment),
        deep: false,
        stop: KindSet::Empty,
        own: true,
    };
    lemma_crawl(src.nodes, root, probe);
    let segs = segments_of(src.nodes, root);
    lemma_segments_lie(f, src, p, segs, segs.len() as int);
    let p = after_segments(src, p, segs, segs.len() as int);
    lemma_entries_lie(f, src, p, src.units.len() as int);
    let p = after_entries(src, p, src.units.len() as int);
    lemma_crawl(src.nodes, root, every(KindSet::Only(Kind::Unparsable)));
    let runs = all_in(src.nodes, root, KindSet::Only(Kind::Unparsable));
    lemma_runs_lie(f, src, p, runs, runs.len() as int);
    let p = after_runs(src, p, runs, runs.len() as int);
    lemma_routines_lie(f, src, p, src.units.len() as int);
}

// ── routines ───────────────────────────────────────────────────────────

pub open spec fn unit_lies(f: Frame, u: Unit) -> bool {
    f.has(unit_span(u, (u.end_byte, u.end_line)))
}

pub open spec fn units_lie(f: Frame, s: Seq<Unit>) -> bool {
    forall|i: int| 0 <= i < s.len() ==> unit_lies(f, #[trigger] s[i])
}

proof fn lemma_parsed_units_lie(f: Frame, n: Seq<Node>, s: Seq<usize>, k: int)
    requires
        f.holds_tree(n),
        forall|i: int| 0 <= i < s.len() ==> (#[trigger] s[i]) < n.len(),
        k <= s.len(),
    ensures
        units_lie(f, parsed_units(n, f.lines, s, k)),
    decreases k,
{
    if k > 0 {
        lemma_parsed_units_lie(f, n, s, k - 1);
        assert(n[s[k - 1] as int].span is Some);
    }
}

/// Whether positions lie in a range and ascend.
pub open spec fn ascend_in(s: Seq<usize>, lo: int, hi: int) -> bool {
    &&& forall|i: int| 0 <= i < s.len() ==> lo <= (#[trigger] s[i]) < hi
    &&& forall|i: int, j: int| 0 <= i < j < s.len() ==> (#[trigger] s[i]) < (#[trigger] s[j])
}

proof fn lemma_ascend_push(s: Seq<usize>, lo: int, hi: int)
    requires
        ascend_in(s, lo, hi),
        0 <= lo <= hi <= usize::MAX,
    ensures
        ascend_in(s, lo, hi + 1),
        ascend_in(s.push(hi as usize), lo, hi + 1),
{
    let t = s.push(hi as usize);
    assert forall|i: int| 0 <= i < t.len() implies lo <= (#[trigger] t[i]) < hi + 1 by {
        if i < s.len() {
            assert(t[i] == s[i]);
        }
    }
    assert forall|i: int, j: int| 0 <= i < j < t.len() implies (#[trigger] t[i]) < (
    #[trigger] t[j]) by {
        assert(t[i] == s[i]);
        if j < s.len() {
            assert(t[j] == s[j]);
        }
    }
}

/// Leaves are nodes of their range, in order.
proof fn lemma_leaves(n: Seq<Node>, lo: int, hi: int)
    requires
        0 <= lo,
        hi <= n.len() <= usize::MAX,
    ensures
        ascend_in(leaves_in(n, lo, hi), lo, hi),
    decreases hi - lo,
{
    if hi > lo {
        lemma_leaves(n, lo, hi - 1);
        lemma_ascend_push(leaves_in(n, lo, hi - 1), lo, hi - 1);
    }
}

/// What is known of the leaves of a run.
pub open spec fn leaves_lie(f: Frame, n: Seq<Node>, leaf: Seq<usize>, run_end: u32) -> bool {
    &&& run_end <= f.len
    &&& forall|i: int|
        0 <= i < leaf.len() ==> leaf_start(n, leaf, i) <= leaf_end(n, leaf, i) && leaf_end(
            n,
            leaf,
            i,
        ) <= run_end
    &&& forall|i: int, j: int|
        0 <= i <= j < leaf.len() ==> leaf_start(n, leaf, i) <= leaf_start(n, leaf, j)
}

proof fn lemma_run_leaves(f: Frame, n: Seq<Node>, run: int)
    requires
        well_formed(n),
        f.holds_tree(n),
        0 <= run < n.len(),
    ensures
        leaves_lie(f, n, run_leaves(n, run), (n[run].span->0).1),
{
    let leaf = run_leaves(n, run);
    lemma_leaves(n, run, n[run].end as int);
    assert forall|i: int| 0 <= i < leaf.len() implies leaf_start(n, leaf, i) <= leaf_end(n, leaf, i)
        && leaf_end(n, leaf, i) <= (n[run].span->0).1 by {
        let j = leaf[i] as int;
        assert(n[j].span is Some);
        assert((n[j].span->0).1 <= (n[run].span->0).1);
    }
    assert forall|i: int, j: int| 0 <= i <= j < leaf.len() implies leaf_start(n, leaf, i)
        <= leaf_start(n, leaf, j) by {
        let a = leaf[i] as int;
        let b = leaf[j] as int;
        assert((n[a].span->0).0 <= (n[b].span->0).0);
    }
    assert(n[run].span is Some);
}

proof fn lemma_header_places(n: Seq<Node>, leaf: Seq<usize>, allow_alter: bool, k: int)
    requires
        0 <= k <= leaf.len() <= usize::MAX,
    ensures
        ascend_in(header_places(n, leaf, allow_alter, k), 0, k),
    decreases k,
{
    if k > 0 {
        lemma_header_places(n, leaf, allow_alter, k - 1);
        lemma_ascend_push(header_places(n, leaf, allow_alter, k - 1), 0, k - 1);
    }
}

proof fn lemma_header_units_lie(
    f: Frame,
    n: Seq<Node>,
    leaf: Seq<usize>,
    at: Seq<usize>,
    allow_alter: bool,
    run_end: u32,
    k: int,
)
    requires
        leaves_lie(f, n, leaf, run_end),
        ascend_in(at, 0, leaf.len() as int),
        k <= at.len(),
    ensures
        units_lie(f, header_units(n, f.lines, leaf, at, allow_alter, run_end, k)),
    decreases k,
{
    if k > 0 {
        lemma_header_units_lie(f, n, leaf, at, allow_alter, run_end, k - 1);
        let a = at[k - 1] as int;
        assert(leaf_start(n, leaf, a) <= leaf_end(n, leaf, a));
        if k < at.len() {
            let b = at[k] as int;
            assert(a < b);
            assert(leaf_start(n, leaf, a) <= leaf_start(n, leaf, b));
            assert(leaf_start(n, leaf, b) <= leaf_end(n, leaf, b));
        }
    }
}

proof fn lemma_member_places(n: Seq<Node>, leaf: Seq<usize>, k: int)
    requires
        0 <= k <= leaf.len() <= usize::MAX,
    ensures
        ascend_in(member_places(n, leaf, k), 0, k),
    decreases k,
{
    if k > 0 {
        lemma_member_places(n, leaf, k - 1);
        lemma_ascend_push(member_places(n, leaf, k - 1), 0, k - 1);
    }
}

proof fn lemma_member_close(
    n: Seq<Node>,
    leaf: Seq<usize>,
    j: int,
    depth: int,
    opened: bool,
    due: int,
)
    ensures
        member_close(n, leaf, j, depth, opened, due) matches Some(close) ==> j <= close
            < leaf.len(),
    decreases leaf.len() - j,
{
    if 0 <= j < leaf.len() {
        lemma_member_close(n, leaf, j + 1, depth, opened, due + 1);
        lemma_member_close(n, leaf, j + 1, depth + 1, true, due);
        lemma_member_close(n, leaf, j + 1, depth + 1, opened, due);
        lemma_member_close(n, leaf, j + 1, depth - 1, opened, due);
        lemma_member_close(n, leaf, j + 1, 0, opened, due);
        lemma_member_close(n, leaf, j + 1, 0, false, due - 1);
        lemma_member_close(n, leaf, j + 1, depth, opened, due);
    }
}

proof fn lemma_member_units_lie(
    f: Frame,
    n: Seq<Node>,
    leaf: Seq<usize>,
    at: Seq<usize>,
    run_end: u32,
    k: int,
)
    requires
        leaves_lie(f, n, leaf, run_end),
        ascend_in(at, 0, leaf.len() as int),
        k <= at.len(),
    ensures
        units_lie(f, member_units(n, f.lines, leaf, at, run_end, k)),
    decreases k,
{
    if k > 0 {
        lemma_member_units_lie(f, n, leaf, at, run_end, k - 1);
        let j = at[k - 1] as int;
        assert(leaf_start(n, leaf, j) <= leaf_end(n, leaf, j));
        let fallback = if k < at.len() {
            leaf_start(n, leaf, at[k] as int)
        } else {
            run_end
        };
        if k < at.len() {
            let b = at[k] as int;
            assert(j < b);
            assert(leaf_start(n, leaf, j) <= leaf_start(n, leaf, b));
            assert(leaf_start(n, leaf, b) <= leaf_end(n, leaf, b));
        }
        lemma_member_close(n, leaf, j + 1, 0, false, 1);
        if let Some(close) = member_close(n, leaf, j + 1, 0, false, 1) {
            let last = member_last(n, leaf, close, leaf_text(n, leaf, j + 1));
            assert(j <= last < leaf.len());
            assert(leaf_start(n, leaf, j) <= leaf_start(n, leaf, last));
            assert(leaf_start(n, leaf, last) <= leaf_end(n, leaf, last));
        }
    }
}

proof fn lemma_with_runs_lie(
    f: Frame,
    n: Seq<Node>,
    how: Recovery,
    units: Seq<Unit>,
    runs: Seq<usize>,
    k: int,
)
    requires
        well_formed(n),
        f.holds_tree(n),
        units_lie(f, units),
        forall|i: int| 0 <= i < runs.len() ==> (#[trigger] runs[i]) < n.len(),
        k <= runs.len(),
    ensures
        units_lie(f, with_runs(n, f.lines, how, units, runs, k)),
    decreases k,
{
    if k > 0 {
        lemma_with_runs_lie(f, n, how, units, runs, k - 1);
        let run = runs[k - 1] as int;
        let leaf = run_leaves(n, run);
        let end = (n[run].span->0).1;
        lemma_run_leaves(f, n, run);
        lemma_leaves_len(n, run, n[run].end as int);
        lemma_header_places(n, leaf, true, leaf.len() as int);
        lemma_header_places(n, leaf, false, leaf.len() as int);
        lemma_member_places(n, leaf, leaf.len() as int);
        let a = header_places(n, leaf, true, leaf.len() as int);
        let b = header_places(n, leaf, false, leaf.len() as int);
        let m = member_places(n, leaf, leaf.len() as int);
        lemma_header_units_lie(f, n, leaf, a, true, end, a.len() as int);
        lemma_header_units_lie(f, n, leaf, b, false, end, b.len() as int);
        lemma_member_units_lie(f, n, leaf, m, end, m.len() as int);
        assert(n[run].span is Some);
    }
}

proof fn lemma_leaves_len(n: Seq<Node>, lo: int, hi: int)
    requires
        0 <= lo,
    ensures
        leaves_in(n, lo, hi).len() <= if hi > lo {
            hi - lo
        } else {
            0
        },
    decreases hi - lo,
{
    if hi > lo {
        lemma_leaves_len(n, lo, hi - 1);
    }
}

proof fn lemma_with_unit_lies(f: Frame, s: Seq<Unit>, u: Unit)
    requires
        units_lie(f, s),
        unit_lies(f, u),
    ensures
        units_lie(f, with_unit(s, u)),
    decreases s.len(),
{
    if s.len() > 0 {
        assert(unit_lies(f, s[s.len() - 1]));
        assert(units_lie(f, s.drop_last()));
        lemma_with_unit_lies(f, s.drop_last(), u);
    }
}

proof fn lemma_in_order_lies(f: Frame, s: Seq<Unit>, k: int)
    requires
        units_lie(f, s),
        k <= s.len(),
    ensures
        units_lie(f, in_order(s, k)),
    decreases k,
{
    if k > 0 {
        lemma_in_order_lies(f, s, k - 1);
        assert(unit_lies(f, s[k - 1]));
        lemma_with_unit_lies(f, in_order(s, k - 1), s[k - 1]);
    }
}

proof fn lemma_units_lie(f: Frame, n: Seq<Node>, how: Recovery, root: int)
    requires
        well_formed(n),
        f.holds_tree(n),
        0 <= root < n.len(),
    ensures
        units_lie(f, units_of(n, f.lines, how, root)),
{
    let nodes = unit_nodes(n, root);
    let p = Probe { set: KindSet::Units, deep: true, stop: KindSet::Empty, own: false };
    lemma_kept_nodes(n, root, p, is_routine(n, root));
    let parsed = parsed_units(n, f.lines, nodes, nodes.len() as int);
    lemma_parsed_units_lie(f, n, nodes, nodes.len() as int);
    lemma_crawl(n, root, every(KindSet::Only(Kind::Unparsable)));
    let runs = all_in(n, root, KindSet::Only(Kind::Unparsable));
    lemma_with_runs_lie(f, n, how, parsed, runs, runs.len() as int);
    let all = with_runs(n, f.lines, how, parsed, runs, runs.len() as int);
    lemma_in_order_lies(f, all, all.len() as int);
}

/// What is kept of a crawl are nodes.
proof fn lemma_kept_nodes(n: Seq<Node>, root: int, p: Probe, which: spec_fn(usize) -> bool)
    requires
        well_formed(n),
        0 <= root < n.len(),
    ensures
        forall|k: int|
            0 <= k < kept(crawl(n, root, p), which).len() ==> (#[trigger] kept(
                crawl(n, root, p),
                which,
            )[k]) < n.len(),
{
    let all = crawl(n, root, p);
    lemma_crawl(n, root, p);
    lemma_kept(all, which);
    assert forall|k: int| 0 <= k < kept(all, which).len() implies (#[trigger] kept(all, which)[k])
        < n.len() by {
        let x = kept(all, which)[k];
        assert(all.contains(x));
        let j = choose|j: int| 0 <= j < all.len() && all[j] == x;
        assert(all[j] < n[root].end);
    }
}

// ── statements ─────────────────────────────────────────────────────────

proof fn lemma_classified_lie(
    f: Frame,
    n: Seq<Node>,
    rules: StatementRules,
    units: Seq<(u32, u32)>,
    s: Seq<usize>,
    k: int,
)
    requires
        f.holds_tree(n),
        forall|i: int| 0 <= i < s.len() ==> (#[trigger] s[i]) < n.len(),
        0 <= k <= s.len(),
    ensures
        classified(n, f.lines, rules, units, s, k).0.len() == k,
        forall|i: int|
            0 <= i < k ==> f.has(
                span_of_statement(#[trigger] classified(n, f.lines, rules, units, s, k).0[i]),
            ),
    decreases k,
{
    if k > 0 {
        lemma_classified_lie(f, n, rules, units, s, k - 1);
        assert(n[s[k - 1] as int].span is Some);
    }
}

proof fn lemma_source_lies(f: Frame, n: Seq<Node>, root: int, kind: DialectKind)
    requires
        f.lines.wf(),
        well_formed(n),
        f.holds_tree(n),
        0 <= root < n.len(),
    ensures
        source_lies(f, source_of(n, f.lines, root, kind)),
{
    let src = source_of(n, f.lines, root, kind);
    lemma_units_lie(f, n, recovery_of(kind), root);
    let p = Probe {
        set: KindSet::Only(Kind::Statement),
        deep: false,
        stop: KindSet::Empty,
        own: true,
    };
    let brackets = rules_of(kind).brackets;
    lemma_kept_nodes(n, root, p, counts_as_statement(n, brackets));
    let s = statements_of(n, root, brackets);
    lemma_classified_lie(f, n, rules_of(kind), unit_ranges(src.units), s, s.len() as int);
    assert forall|u: int| 0 <= u < src.units.len() implies extent_lies(
        f,
        #[trigger] src.units[u],
        (src.units[u].end_byte, src.units[u].end_line),
    ) by {
        assert(unit_lies(f, src.units[u]));
    }
}

// ── objects ────────────────────────────────────────────────────────────

pub open spec fn events_lie(f: Frame, s: Seq<ObjectEvent>) -> bool {
    forall|i: int| 0 <= i < s.len() ==> f.has((#[trigger] s[i]).span)
}

/// Whether positions name nodes.
pub open spec fn are_nodes(n: Seq<Node>, s: Seq<usize>) -> bool {
    forall|i: int| 0 <= i < s.len() ==> (#[trigger] s[i]) < n.len()
}

proof fn lemma_joined_events(f: Frame, a: Seq<ObjectEvent>, b: Seq<ObjectEvent>)
    requires
        events_lie(f, a),
        events_lie(f, b),
    ensures
        events_lie(f, a + b),
{
    let s = a + b;
    assert forall|i: int| 0 <= i < s.len() implies f.has((#[trigger] s[i]).span) by {
        if i < a.len() {
            assert(s[i] == a[i]);
        } else {
            assert(s[i] == b[i - a.len()]);
        }
    }
}

proof fn lemma_events_lie(
    f: Frame,
    n: Seq<Node>,
    fallback: SourceSpan,
    change: Change,
    s: Seq<usize>,
    k: int,
)
    requires
        f.holds_tree(n),
        are_nodes(n, s),
        k <= s.len(),
    ensures
        events_lie(f, events_at(n, f.lines, fallback, change, s, k)),
    decreases k,
{
    if k > 0 {
        lemma_events_lie(f, n, fallback, change, s, k - 1);
        assert(n[s[k - 1] as int].span is Some);
    }
}

proof fn lemma_statement_events_lie(f: Frame, facts: Seq<StatementFacts>, k: int)
    requires
        forall|i: int| 0 <= i < facts.len() ==> f.has(span_of_statement(#[trigger] facts[i])),
        k <= facts.len(),
    ensures
        events_lie(f, statement_events(facts, k)),
    decreases k,
{
    if k > 0 {
        lemma_statement_events_lie(f, facts, k - 1);
        assert(f.has(span_of_statement(facts[k - 1])));
    }
}

proof fn lemma_block_events_lie(f: Frame, n: Seq<Node>, block: int, steps: int)
    requires
        well_formed(n),
        f.holds_tree(n),
        0 <= block < n.len(),
    ensures
        events_lie(f, block_events_by(n, f.lines, block, steps)),
    decreases steps,
{
    if steps > 0 {
        lemma_block_events_lie(f, n, block, steps - 1);
        let (set, change) = block_search(steps - 1);
        let p = Probe { set, deep: false, stop: KindSet::Definitions, own: false };
        lemma_crawl(n, block, p);
        let found = in_block(n, block, set);
        lemma_events_lie(f, n, empty_span(), change, found, found.len() as int);
        lemma_joined_events(
            f,
            block_events_by(n, f.lines, block, steps - 1),
            events(n, f.lines, empty_span(), change, found),
        );
    }
}

proof fn lemma_blocks_events_lie(
    f: Frame,
    n: Seq<Node>,
    s: Seq<usize>,
    facts: Seq<StatementFacts>,
    k: int,
)
    requires
        well_formed(n),
        f.holds_tree(n),
        are_nodes(n, s),
        k <= s.len(),
    ensures
        events_lie(f, blocks_events(n, f.lines, s, facts, k)),
    decreases k,
{
    if k > 0 {
        lemma_blocks_events_lie(f, n, s, facts, k - 1);
        let block = s[k - 1] as int;
        lemma_block_events_lie(f, n, block, 11);
        let p = Probe {
            set: KindSet::Transactions,
            deep: false,
            stop: KindSet::Definitions,
            own: false,
        };
        lemma_kept_nodes(n, block, p, controls_transaction(n));
        let found = kept(in_block(n, block, KindSet::Transactions), controls_transaction(n));
        lemma_events_lie(
            f,
            n,
            empty_span(),
            Change::TransactionControl,
            found,
            found.len() as int,
        );
        lemma_joined_events(
            f,
            block_events_by(n, f.lines, block, 11),
            events(n, f.lines, empty_span(), Change::TransactionControl, found),
        );
        lemma_joined_events(
            f,
            blocks_events(n, f.lines, s, facts, k - 1),
            block_events(n, f.lines, block),
        );
    }
}

pub open spec fn objects_lie(f: Frame, o: Objects) -> bool {
    table_wf(o) && forall|i: int| 0 <= i < o.spans.len() ==> place_lies(f, #[trigger] o.spans[i])
}

pub open spec fn touched_lie(f: Frame, t: Touched) -> bool {
    objects_lie(f, t.read) && objects_lie(f, t.write)
}

proof fn lemma_noted_lies(f: Frame, o: Objects, name: Seq<char>, span: Option<SourceSpan>)
    requires
        objects_lie(f, o),
        place_lies(f, span),
    ensures
        objects_lie(f, o.noted(name, span)),
{
    lemma_noted(o, name, span);
    lemma_rank(o.names, name);
    let at = rank(o.names, name);
    let r = o.noted(name, span);
    if o.names.contains(name) {
        let j = choose|j: int| 0 <= j < o.names.len() && o.names[j] == name;
        lemma_less_irreflexive(name);
        assert(at <= j);
        assert(place_lies(f, o.spans[at]));
    }
    assert forall|i: int| 0 <= i < r.spans.len() implies place_lies(f, #[trigger] r.spans[i]) by {
        if o.names.contains(name) {
            if i != at {
                assert(r.spans[i] == o.spans[i]);
            }
        } else if i < at {
            assert(r.spans[i] == o.spans[i]);
        } else if i > at {
            assert(r.spans[i] == o.spans[i - 1]);
        }
    }
}

proof fn lemma_refs_lie(f: Frame, n: Seq<Node>, stmt: int, ws: int, t: Touched, k: int)
    requires
        f.holds_tree(n),
        are_nodes(n, target_refs(n, ws)),
        touched_lie(f, t),
        k <= target_refs(n, ws).len(),
    ensures
        touched_lie(f, after_refs(n, f.lines, stmt, ws, t, k)),
    decreases k,
{
    if k > 0 {
        lemma_refs_lie(f, n, stmt, ws, t, k - 1);
        let t = after_refs(n, f.lines, stmt, ws, t, k - 1);
        let r = target_refs(n, ws)[k - 1] as int;
        assert(n[r].span is Some);
        lemma_noted_lies(f, t.write, ref_name(n, r), placed_span(n, f.lines, r));
        lemma_noted_lies(f, t.read, ref_name(n, r), placed_span(n, f.lines, r));
    }
}

proof fn lemma_writes_lie(f: Frame, n: Seq<Node>, stmt: int, t: Touched, k: int)
    requires
        well_formed(n),
        f.holds_tree(n),
        are_nodes(n, write_statements(n, stmt)),
        touched_lie(f, t),
        k <= write_statements(n, stmt).len(),
    ensures
        touched_lie(f, after_writes(n, f.lines, stmt, t, k)),
    decreases k,
{
    if k > 0 {
        lemma_writes_lie(f, n, stmt, t, k - 1);
        let ws = write_statements(n, stmt)[k - 1] as int;
        let p = Probe {
            set: if KindSet::OracleDrops.holds(n[ws].kind) {
                KindSet::DropTargets
            } else {
                KindSet::Targets
            },
            deep: false,
            stop: KindSet::Only(Kind::SelectStatement),
            own: true,
        };
        lemma_crawl(n, ws, p);
        lemma_refs_lie(
            f,
            n,
            stmt,
            ws,
            after_writes(n, f.lines, stmt, t, k - 1),
            target_refs(n, ws).len() as int,
        );
    }
}

proof fn lemma_reads_lie(f: Frame, n: Seq<Node>, stmt: int, elem: int, t: Touched, k: int)
    requires
        f.holds_tree(n),
        are_nodes(n, all_in(n, elem, KindSet::TableReferences)),
        touched_lie(f, t),
        k <= all_in(n, elem, KindSet::TableReferences).len(),
    ensures
        touched_lie(f, after_reads(n, f.lines, stmt, elem, t, k)),
    decreases k,
{
    if k > 0 {
        lemma_reads_lie(f, n, stmt, elem, t, k - 1);
        let t = after_reads(n, f.lines, stmt, elem, t, k - 1);
        let r = all_in(n, elem, KindSet::TableReferences)[k - 1] as int;
        assert(n[r].span is Some);
        lemma_noted_lies(f, t.read, ref_name(n, r), placed_span(n, f.lines, r));
    }
}

proof fn lemma_elements_lie(f: Frame, n: Seq<Node>, stmt: int, t: Touched, k: int)
    requires
        well_formed(n),
        f.holds_tree(n),
        are_nodes(n, from_elements(n, stmt)),
        touched_lie(f, t),
        k <= from_elements(n, stmt).len(),
    ensures
        touched_lie(f, after_elements(n, f.lines, stmt, t, k)),
    decreases k,
{
    if k > 0 {
        lemma_elements_lie(f, n, stmt, t, k - 1);
        let elem = from_elements(n, stmt)[k - 1] as int;
        lemma_crawl(n, elem, every(KindSet::TableReferences));
        lemma_reads_lie(
            f,
            n,
            stmt,
            elem,
            after_elements(n, f.lines, stmt, t, k - 1),
            all_in(n, elem, KindSet::TableReferences).len() as int,
        );
    }
}

proof fn lemma_touched_lie(
    f: Frame,
    n: Seq<Node>,
    s: Seq<usize>,
    facts: Seq<StatementFacts>,
    k: int,
)
    requires
        well_formed(n),
        f.holds_tree(n),
        are_nodes(n, s),
        k <= s.len(),
    ensures
        touched_lie(f, touched(n, f.lines, s, facts, k)),
    decreases k,
{
    if k > 0 {
        lemma_touched_lie(f, n, s, facts, k - 1);
        let t = touched(n, f.lines, s, facts, k - 1);
        let stmt = s[k - 1] as int;
        let fresh = Touched { targets: Seq::empty(), ..t };
        lemma_crawl(
            n,
            stmt,
            Probe { set: KindSet::Writes, deep: true, stop: KindSet::Definitions, own: true },
        );
        lemma_crawl(
            n,
            stmt,
            Probe {
                set: KindSet::Only(Kind::FromExpressionElement),
                deep: true,
                stop: KindSet::Definitions,
                own: true,
            },
        );
        let written = after_writes(
            n,
            f.lines,
            stmt,
            fresh,
            write_statements(n, stmt).len() as int,
        );
        lemma_writes_lie(f, n, stmt, fresh, write_statements(n, stmt).len() as int);
        lemma_elements_lie(f, n, stmt, written, from_elements(n, stmt).len() as int);
    }
}

proof fn lemma_object_events_lie(
    f: Frame,
    change: Change,
    o: Objects,
    fallback: SourceSpan,
    k: int,
)
    requires
        objects_lie(f, o),
        f.has(fallback),
        k <= o.spans.len(),
    ensures
        events_lie(f, object_events(change, o, fallback, k)),
    decreases k,
{
    if k > 0 {
        lemma_object_events_lie(f, change, o, fallback, k - 1);
        assert(place_lies(f, o.spans[k - 1]));
    }
}

proof fn lemma_unfiltered_lie(
    f: Frame,
    n: Seq<Node>,
    fallback: SourceSpan,
    s: Seq<usize>,
    facts: Seq<StatementFacts>,
    k: int,
)
    requires
        well_formed(n),
        f.holds_tree(n),
        are_nodes(n, s),
        k <= s.len(),
    ensures
        events_lie(f, unfiltered_events(n, f.lines, fallback, s, facts, k)),
    decreases k,
{
    if k > 0 {
        lemma_unfiltered_lie(f, n, fallback, s, facts, k - 1);
        let stmt = s[k - 1] as int;
        let p = Probe { set: KindSet::Updates, deep: true, stop: KindSet::Definitions, own: true };
        let q = Probe { set: KindSet::Deletes, deep: true, stop: KindSet::Definitions, own: true };
        lemma_kept_nodes(n, stmt, p, lacks_where(n));
        lemma_kept_nodes(n, stmt, q, lacks_where(n));
        let a = unfiltered(n, stmt, KindSet::Updates);
        let b = unfiltered(n, stmt, KindSet::Deletes);
        lemma_events_lie(f, n, fallback, Change::UpdateWithoutWhere, a, a.len() as int);
        lemma_events_lie(f, n, fallback, Change::DeleteWithoutWhere, b, b.len() as int);
        let before = unfiltered_events(n, f.lines, fallback, s, facts, k - 1);
        let first = events(n, f.lines, fallback, Change::UpdateWithoutWhere, a);
        lemma_joined_events(f, before, first);
        lemma_joined_events(
            f,
            before + first,
            events(n, f.lines, fallback, Change::DeleteWithoutWhere, b),
        );
    }
}

proof fn lemma_code_leaves(n: Seq<Node>, lo: int, hi: int)
    requires
        0 <= lo,
        hi <= n.len() <= usize::MAX,
    ensures
        ascend_in(code_leaves(n, lo, hi), lo, hi),
    decreases hi - lo,
{
    if hi > lo {
        lemma_code_leaves(n, lo, hi - 1);
        lemma_ascend_push(code_leaves(n, lo, hi - 1), lo, hi - 1);
    }
}

proof fn lemma_replace_lie(
    f: Frame,
    n: Seq<Node>,
    fallback: SourceSpan,
    leaf: Seq<usize>,
    k: int,
)
    requires
        f.holds_tree(n),
        ascend_in(leaf, 0, n.len() as int),
        k <= leaf.len(),
    ensures
        events_lie(f, replace_events(n, f.lines, fallback, leaf, k)),
    decreases k,
{
    if k > 0 {
        lemma_replace_lie(f, n, fallback, leaf, k - 1);
        if k + 1 < leaf.len() {
            let a = leaf[k - 1] as int;
            let b = leaf[k + 1] as int;
            assert(a < b);
            assert(n[a].span is Some);
            assert(n[b].span is Some);
            assert((n[a].span->0).0 <= (n[b].span->0).0);
        }
    }
}

proof fn lemma_returning_in_lie(
    f: Frame,
    n: Seq<Node>,
    fallback: SourceSpan,
    dml: Seq<usize>,
    k: int,
)
    requires
        well_formed(n),
        f.holds_tree(n),
        are_nodes(n, dml),
        k <= dml.len(),
    ensures
        events_lie(f, returning_in(n, f.lines, fallback, dml, k)),
    decreases k,
{
    if k > 0 {
        lemma_returning_in_lie(f, n, fallback, dml, k - 1);
        let d = dml[k - 1] as int;
        let p = every(KindSet::Only(Kind::Keyword));
        lemma_kept_nodes(n, d, p, keyword_spelled(n, Word::Returning));
        lemma_kept_nodes(n, d, p, keyword_spelled(n, Word::Output));
        let a = keywords_in(n, d, Word::Returning);
        let b = keywords_in(n, d, Word::Output);
        lemma_events_lie(f, n, fallback, Change::Returning, a, a.len() as int);
        lemma_events_lie(f, n, fallback, Change::Returning, b, b.len() as int);
        let before = returning_in(n, f.lines, fallback, dml, k - 1);
        let first = events(n, f.lines, fallback, Change::Returning, a);
        lemma_joined_events(f, before, first);
        lemma_joined_events(
            f,
            before + first,
            events(n, f.lines, fallback, Change::Returning, b),
        );
    }
}

proof fn lemma_returning_lie(
    f: Frame,
    n: Seq<Node>,
    fallback: SourceSpan,
    s: Seq<usize>,
    facts: Seq<StatementFacts>,
    k: int,
)
    requires
        well_formed(n),
        f.holds_tree(n),
        are_nodes(n, s),
        k <= s.len(),
    ensures
        events_lie(f, returning_events(n, f.lines, fallback, s, facts, k)),
    decreases k,
{
    if k > 0 {
        lemma_returning_lie(f, n, fallback, s, facts, k - 1);
        let stmt = s[k - 1] as int;
        lemma_crawl(
            n,
            stmt,
            Probe { set: KindSet::Dml, deep: true, stop: KindSet::Definitions, own: true },
        );
        let dml = dml_in(n, stmt);
        lemma_returning_in_lie(f, n, fallback, dml, dml.len() as int);
        lemma_joined_events(
            f,
            returning_events(n, f.lines, fallback, s, facts, k - 1),
            returning_in(n, f.lines, fallback, dml, dml.len() as int),
        );
    }
}

proof fn lemma_object_log_lies(f: Frame, src: Source, root: int)
    requires
        source_lies(f, src),
        0 <= root < src.nodes.len(),
    ensures
        events_lie(f, object_log(src.nodes, f.lines, root, src.statements, src.facts)),
{
    let n = src.nodes;
    let s = src.statements;
    let facts = src.facts;
    let k = facts.len() as int;
    assert(n[root].span is Some);
    let fallback = span_or(placed_span(n, f.lines, root), empty_span());
    let t = touched(n, f.lines, s, facts, k);
    let leaf = code_leaves(n, root, n[root].end as int);
    lemma_statement_events_lie(f, facts, k);
    lemma_blocks_events_lie(f, n, s, facts, k);
    lemma_touched_lie(f, n, s, facts, k);
    lemma_object_events_lie(
        f,
        Change::WriteObject,
        t.write,
        fallback,
        t.write.names.len() as int,
    );
    lemma_object_events_lie(f, Change::ReadObject, t.read, fallback, t.read.names.len() as int);
    lemma_unfiltered_lie(f, n, fallback, s, facts, k);
    lemma_code_leaves(n, root, n[root].end as int);
    lemma_replace_lie(f, n, fallback, leaf, leaf.len() as int);
    lemma_returning_lie(f, n, fallback, s, facts, k);
    let a = statement_events(facts, k);
    let b = blocks_events(n, f.lines, s, facts, k);
    let c = object_events(Change::WriteObject, t.write, fallback, t.write.names.len() as int);
    let d = object_events(Change::ReadObject, t.read, fallback, t.read.names.len() as int);
    let e = unfiltered_events(n, f.lines, fallback, s, facts, k);
    let g = replace_events(n, f.lines, fallback, leaf, leaf.len() as int);
    let h = returning_events(n, f.lines, fallback, s, facts, k);
    lemma_joined_events(f, a, b);
    lemma_joined_events(f, a + b, c);
    lemma_joined_events(f, a + b + c, d);
    lemma_joined_events(f, a + b + c + d, e);
    lemma_joined_events(f, a + b + c + d + e, g);
    lemma_joined_events(f, a + b + c + d + e + g, h);
}

pub open spec fn risks_lie(f: Frame, s: Seq<ChangeRiskEvidence>) -> bool {
    forall|i: int| 0 <= i < s.len() ==> f.has((#[trigger] s[i]).span)
}

proof fn lemma_risks_lie(f: Frame, log: Seq<ObjectEvent>)
    requires
        events_lie(f, log),
    ensures
        risks_lie(f, risks(log)),
    decreases log.len(),
{
    if log.len() > 0 {
        assert(events_lie(f, log.drop_last()));
        assert(f.has(log[log.len() - 1].span));
        lemma_risks_lie(f, log.drop_last());
    }
}

proof fn lemma_places_lie(f: Frame, log: Seq<LogEntry>, m: ProceduralMetric)
    requires
        forall|i: int| 0 <= i < log.len() ==> f.has((#[trigger] log[i]).evidence.span),
    ensures
        forall|i: int|
            0 <= i < places_of(log, m).len() ==> f.has(#[trigger] places_of(log, m)[i]),
    decreases log.len(),
{
    if log.len() > 0 {
        let d = log.drop_last();
        assert forall|i: int| 0 <= i < d.len() implies f.has((#[trigger] d[i]).evidence.span) by {
            assert(d[i] == log[i]);
        }
        assert(f.has(log[log.len() - 1].evidence.span));
        lemma_places_lie(f, d, m);
        let before = places_of(d, m);
        let s = places_of(log, m);
        assert forall|i: int| 0 <= i < s.len() implies f.has(#[trigger] s[i]) by {
            if i < before.len() {
                assert(s[i] == before[i]);
            }
        }
    }
}

// ── negations ──────────────────────────────────────────────────────────

/// Whether byte ranges lie in the text.
pub open spec fn ranges_lie(f: Frame, s: Seq<(u32, u32)>) -> bool {
    forall|i: int| 0 <= i < s.len() ==> (#[trigger] s[i]).0 <= s[i].1 <= f.len
}

proof fn lemma_nots_at_lie(f: Frame, n: Seq<Node>, root: int, p: int, k: int)
    requires
        f.holds_tree(n),
        are_nodes(n, code_children(n, p)),
        k <= code_children(n, p).len(),
    ensures
        ranges_lie(f, nots_at(n, root, p, k)),
    decreases k,
{
    if k > 0 {
        lemma_nots_at_lie(f, n, root, p, k - 1);
        assert(n[code_children(n, p)[k - 1] as int].span is Some);
    }
}

proof fn lemma_nots_lie(f: Frame, n: Seq<Node>, root: int, hi: int)
    requires
        well_formed(n),
        f.holds_tree(n),
        0 <= root,
        hi <= n.len(),
    ensures
        ranges_lie(f, nots_in(n, root, hi)),
    decreases hi - root,
{
    if hi > root {
        lemma_nots_lie(f, n, root, hi - 1);
        lemma_siblings(n, hi, n[hi - 1].end as int);
        let k = code_children(n, hi - 1).len() as int;
        lemma_nots_at_lie(f, n, root, hi - 1, k);
        let a = nots_in(n, root, hi - 1);
        let b = nots_at(n, root, hi - 1, k);
        let s = a + b;
        assert forall|i: int| 0 <= i < s.len() implies (#[trigger] s[i]).0 <= s[i].1 <= f.len by {
            if i < a.len() {
                assert(s[i] == a[i]);
            } else {
                assert(s[i] == b[i - a.len()]);
            }
        }
    }
}

// ── contributions ──────────────────────────────────────────────────────

pub open spec fn contributions_lie(f: Frame, s: Seq<Contribution>) -> bool {
    forall|i: int| 0 <= i < s.len() ==> f.has((#[trigger] s[i]).span)
}

proof fn lemma_with_contribution_lies(f: Frame, s: Seq<Contribution>, c: Contribution)
    requires
        contributions_lie(f, s),
        f.has(c.span),
    ensures
        contributions_lie(f, with_contribution(s, c)),
    decreases s.len(),
{
    if s.len() > 0 {
        assert(f.has(s[s.len() - 1].span));
        assert(contributions_lie(f, s.drop_last()));
        lemma_with_contribution_lies(f, s.drop_last(), c);
    }
}

proof fn lemma_sorted_lie(f: Frame, s: Seq<Contribution>, k: int)
    requires
        contributions_lie(f, s),
        k <= s.len(),
    ensures
        contributions_lie(f, in_source_order(s, k)),
    decreases k,
{
    if k > 0 {
        lemma_sorted_lie(f, s, k - 1);
        assert(f.has(s[k - 1].span));
        lemma_with_contribution_lies(f, in_source_order(s, k - 1), s[k - 1]);
    }
}

/// What is reported of a file lies in its text: where the nodes of its syntax
/// tree do, every contribution starts no later than it ends, ends no later than
/// the text, and names the lines of its bytes, counted from 1. A contribution
/// that is not empty starts on no later line than it ends.
pub proof fn contributions_lie_in_the_text(
    frame: Frame,
    n: Seq<Node>,
    root: int,
    kind: DialectKind,
    f: SqlFileFacts,
    i: int,
)
    requires
        frame.lines.wf(),
        well_formed(n),
        frame.holds_tree(n),
        0 <= root < n.len(),
        describes_file(n, frame.lines, root, kind, true, f),
        0 <= i < contributions_of(f, frame.lines, true).len(),
    ensures
        ({
            let s = contributions_of(f, frame.lines, true)[i].span;
            &&& s.start_byte <= s.end_byte <= frame.len
            &&& s == frame.lines.span((s.start_byte, s.end_byte))
            &&& 1 <= s.start_line
            &&& 1 <= s.end_line
            &&& s.start_byte < s.end_byte ==> s.start_line <= s.end_line
        }),
{
    let src = source_of(n, frame.lines, root, kind);
    lemma_source_lies(frame, n, root, kind);
    lemma_file_lies(frame, src, root);
    let p = file_progress(src, root);
    lemma_object_log_lies(frame, src, root);
    let log = object_log(n, frame.lines, root, src.statements, src.facts);
    lemma_risks_lie(frame, log);
    lemma_places_lie(frame, p.log, ProceduralMetric::DynamicSqlCount);
    lemma_nots_lie(frame, n, root, n[root].end as int);
    let risk = f.change_risk_evidence@;
    let steps = f.procedural.evidence@;
    let nots = f.predicates.not_spans@;
    let places = places_of(p.log, ProceduralMetric::DynamicSqlCount);
    assert forall|j: int| 0 <= j < risk.len() implies frame.has((#[trigger] risk[j]).span) by {
        if j < places.len() {
            assert(risk[j] == dynamic_risks(places)[j]);
            assert(frame.has(places[j]));
        } else {
            assert(risk[j] == risks(log)[j - places.len()]);
        }
    }
    assert forall|j: int| 0 <= j < steps.len() implies frame.has((#[trigger] steps[j]).span) by {
        assert(steps[j] == p.log[j].evidence);
    }
    assert(contributions_lie(frame, of_heaviest(f))) by {
        if let Some(u) = f.procedural.heaviest_unit {
            if u < f.procedural_units@.len() {
                assert(describes_unit(src, root, u as int, f.procedural_units@[u as int]));
                assert(extent_lies(frame, src.units[u as int], p.extents[u as int]));
            }
        }
    }
    let all = recorded(f, frame.lines);
    assert forall|j: int| 0 <= j < all.len() implies frame.has((#[trigger] all[j]).span) by {
        let a = risk.len() as int;
        let b = a + steps.len();
        let c = b + of_heaviest(f).len();
        if j < a {
            assert(all[j] == of_risk(risk[j]));
        } else if j < b {
            assert(all[j] == of_procedural(steps[j - a]));
        } else if j < c {
            assert(all[j] == of_heaviest(f)[j - b]);
        } else {
            assert(all[j] == of_not(frame.lines, nots[j - c]));
            assert(nots[j - c].0 <= nots[j - c].1);
        }
    }
    lemma_sorted_lie(frame, all, all.len() as int);
    let s = contributions_of(f, frame.lines, true)[i].span;
    assert(frame.has(s));
    let last = if s.end_byte == 0 {
        0u32
    } else {
        (s.end_byte - 1) as u32
    };
    line_is_monotonic(frame.lines, s.start_byte, s.start_byte);
    line_is_monotonic(frame.lines, last, last);
    if s.start_byte < s.end_byte {
        line_is_monotonic(frame.lines, s.start_byte, last);
    }
}

} // verus!
