//! Every published value is the sum of its evidence.

use vstd::prelude::*;

use crate::composite::risk_score;
use crate::contributions::{
    amount_for, contributions_are_in_source_order, contributions_of, key_of, of_heaviest, of_not,
    of_procedural, of_risk, recorded, Contribution,
};
use crate::control::{arm_evidence, Arm, BoolOp, ProceduralEvidence, ProceduralMetric, Reason, Scan};
use crate::facts::{describes_file, dynamic_risks, source_of, SqlFileFacts};
use crate::grammar::DialectKind;
use crate::kind::{Kind, KindSet};
use crate::metric_key::MetricKey;
use crate::objects::{
    block_events, block_events_by, block_search, blocks_events, code_leaves, controls_transaction,
    dml_in, events, events_at, in_block, keywords_in, kind_change, object_events, object_log,
    placed_span, replace_events, replaces, returning_events, returning_in, risks, span_or,
    statement_events, tally, touched, unfiltered, unfiltered_events, Change, ChangeRiskEvidence,
    ObjectEvent, Objects,
};
use crate::procedural::{describes_procedural, places_of, ProceduralFacts};
use crate::regions::{
    after_entries, after_routines, after_run, after_runs, after_segment, after_segments,
    after_statement, after_statements, attributed_all, continued_anonymous, continued_unit,
    control_led, evidence_of, file_progress, heaviest, in_some_range, is_region, no_progress,
    nothing_saved, resumed, saved_or_nothing, segments_of, spilled_unit, starts_in_body, total,
    unit_ranges, unit_span, with_deepest, LogEntry, Progress, Saved, Source,
};
use crate::span::{empty_span, Lines, SourceSpan};
use crate::statements::{span_of_statement, StatementFacts};
use crate::token::{is_procedural_run, tokens_of, word_at, Token};
use crate::tree::{all_in, kept, Node};
use crate::word::Word;

verus! {

// ── what a scan reports ────────────────────────────────────────────────

/// Whether evidence is of a kind that scanning a region reports: raw counts
/// count one each, and nothing adds to a maximum or to the routines.
pub open spec fn is_tidy(e: ProceduralEvidence) -> bool {
    match e.metric {
        ProceduralMetric::Cyclomatic => true,
        ProceduralMetric::Cognitive => true,
        ProceduralMetric::EmbeddedQueryMax => false,
        ProceduralMetric::RoutineCount => false,
        ProceduralMetric::MaxBlockDepth => false,
        _ => e.amount == 1,
    }
}

pub open spec fn all_tidy(s: Seq<ProceduralEvidence>) -> bool {
    forall|i: int| 0 <= i < s.len() ==> is_tidy(#[trigger] s[i])
}

/// Whether the deepest block has a place exactly when there is one.
pub open spec fn placed_depth(depth: int, span: Option<SourceSpan>) -> bool {
    depth >= 0 && (span is Some <==> depth > 0)
}

pub open spec fn is_sound(s: Scan) -> bool {
    all_tidy(s.evidence) && placed_depth(s.max_depth, s.max_depth_span)
}

proof fn lemma_arms_tidy(arms: Seq<Arm>, id: u64)
    ensures
        all_tidy(arm_evidence(arms, id)),
    decreases arms.len(),
{
    if arms.len() > 0 {
        lemma_arms_tidy(arms.drop_last(), id);
    }
}

proof fn lemma_end_case_sound(s: Scan)
    requires
        is_sound(s),
    ensures
        is_sound(s.end_case()),
{
    assert forall|id: u64| all_tidy(#[trigger] arm_evidence(s.arms, id)) by {
        lemma_arms_tidy(s.arms, id);
    }
}

proof fn lemma_end_sound(s: Scan, next: Word, after: Word)
    requires
        is_sound(s),
    ensures
        is_sound(s.end(next, after).0),
{
    lemma_end_case_sound(s.quiet());
}

proof fn lemma_begin_sound(s: Scan, span: SourceSpan, next: Word)
    requires
        is_sound(s),
    ensures
        is_sound(s.begin(span, next).0),
{
}

proof fn lemma_keyword_sound(s: Scan, t: Seq<Token>, i: int)
    requires
        is_sound(s),
    ensures
        is_sound(s.keyword(t, i).0),
{
    lemma_begin_sound(s, t[i].span, word_at(t, i + 1));
    lemma_end_sound(s, word_at(t, i + 1), word_at(t, i + 2));
    assert(is_sound(s.exception()));
    assert(is_sound(s.if_word(t, i)));
    assert(is_sound(s.when_word(t[i].span, word_at(t, i + 1), word_at(t, i + 2))));
    assert(is_sound(s.else_word(t[i].span)));
    assert(is_sound(s.then_word()));
    assert(is_sound(s.elsif(t[i].span)));
    assert(is_sound(s.execute(t, i).0));
    assert(is_sound(s.loop_word(t[i].span)));
    assert(is_sound(s.loop_header(t[i].span)));
    assert(is_sound(s.raise(t[i].span)));
    assert(is_sound(s.exit_word(t[i].span, word_at(t, i + 1)).0));
    assert(is_sound(s.case_word(t[i].span)));
}

proof fn lemma_step_sound(s: Scan, t: Seq<Token>, i: int)
    requires
        is_sound(s),
    ensures
        is_sound(s.step(t, i).0),
{
    lemma_keyword_sound(s, t, i);
    assert(is_sound(s.boolean(BoolOp::And, t[i].span)));
    assert(is_sound(s.boolean(BoolOp::Or, t[i].span)));
    assert(is_sound(s.terminator(word_at(t, i + 1) == Word::Else)));
}

/// Scanning tokens keeps evidence tidy.
proof fn lemma_scan_sound(s: Scan, t: Seq<Token>, i: int)
    requires
        is_sound(s),
    ensures
        is_sound(s.scan(t, i)),
    decreases t.len() - i,
{
    if 0 <= i < t.len() {
        lemma_step_sound(s, t, i);
        let (r, taken) = s.step(t, i);
        lemma_scan_sound(r, t, if taken == 2 {
            i + 2
        } else {
            i + 1
        });
    }
}

// ── what a file reports ────────────────────────────────────────────────

/// Whether progress holds nothing but tidy evidence.
pub open spec fn is_orderly(p: Progress) -> bool {
    &&& forall|i: int| 0 <= i < p.log.len() ==> is_tidy((#[trigger] p.log[i]).evidence)
    &&& placed_depth(p.max_depth, p.max_depth_span)
}

proof fn lemma_attributed_tidy(
    ranges: Seq<(u32, u32)>,
    fallback: Option<usize>,
    s: Seq<ProceduralEvidence>,
    k: int,
)
    requires
        all_tidy(s),
        k <= s.len(),
    ensures
        forall|i: int|
            0 <= i < attributed_all(ranges, fallback, s, k).len() ==> is_tidy(
                (#[trigger] attributed_all(ranges, fallback, s, k)[i]).evidence,
            ),
    decreases k,
{
    if k > 0 {
        lemma_attributed_tidy(ranges, fallback, s, k - 1);
    }
}

proof fn lemma_scanned_orderly(
    p: Progress,
    ranges: Seq<(u32, u32)>,
    t: Seq<Token>,
    fallback: Option<usize>,
    saved: Saved,
    in_body: bool,
)
    requires
        is_orderly(p),
    ensures
        is_orderly(p.scanned(ranges, t, fallback, saved, in_body).0),
{
    lemma_scan_sound(resumed(p, saved, in_body), t, 0);
    let s = resumed(p, saved, in_body).scan(t, 0);
    lemma_attributed_tidy(ranges, fallback, s.evidence, s.evidence.len() as int);
    let added = attributed_all(ranges, fallback, s.evidence, s.evidence.len() as int);
    let log = p.log + added;
    assert forall|i: int| 0 <= i < log.len() implies is_tidy((#[trigger] log[i]).evidence) by {
        if i < p.log.len() {
            assert(log[i] == p.log[i]);
        } else {
            assert(log[i] == added[i - p.log.len()]);
        }
    }
}

proof fn lemma_statement_orderly(src: Source, p: Progress, k: int)
    requires
        is_orderly(p),
    ensures
        is_orderly(after_statement(src, p, k)),
{
    if is_region(src, k) {
        let f = src.facts[k];
        let range = (f.start_byte, f.end_byte);
        let ranges = unit_ranges(src.units);
        let t = tokens_of(src.nodes, src.lines, src.statements[k] as int);
        let fallback = continued_unit(src, k);
        let held = match fallback {
            Some(u) => p.carried[u as int],
            None => None,
        };
        let from = saved_or_nothing(held);
        let q = Progress {
            regions: p.regions.push(range),
            carried: match fallback {
                Some(u) => p.carried.update(u as int, None),
                None => p.carried,
            },
            ..p
        };
        assert(is_orderly(q));
        lemma_scanned_orderly(
            q,
            ranges,
            t,
            fallback,
            from,
            from.in_body || starts_in_body(src, k, t),
        );
    }
}

proof fn lemma_statements_orderly(src: Source, p: Progress, k: int)
    requires
        is_orderly(p),
    ensures
        is_orderly(after_statements(src, p, k)),
    decreases k,
{
    if k > 0 {
        lemma_statements_orderly(src, p, k - 1);
        lemma_statement_orderly(src, after_statements(src, p, k - 1), k - 1);
    }
}

proof fn lemma_segment_orderly(src: Source, p: Progress, seg: int)
    requires
        is_orderly(p),
    ensures
        is_orderly(after_segment(src, p, seg)),
{
    if let Some(range) = src.nodes[seg].span {
        let ranges = unit_ranges(src.units);
        let t = tokens_of(src.nodes, src.lines, seg);
        let q = Progress { regions: p.regions.push(range), ..p };
        assert(is_orderly(q));
        lemma_scanned_orderly(q, ranges, t, None, nothing_saved(), true);
    }
}

proof fn lemma_segments_orderly(src: Source, p: Progress, segs: Seq<usize>, k: int)
    requires
        is_orderly(p),
    ensures
        is_orderly(after_segments(src, p, segs, k)),
    decreases k,
{
    if k > 0 {
        lemma_segments_orderly(src, p, segs, k - 1);
        lemma_segment_orderly(src, after_segments(src, p, segs, k - 1), segs[k - 1] as int);
    }
}

proof fn lemma_entries_orderly(src: Source, p: Progress, k: int)
    requires
        is_orderly(p),
    ensures
        is_orderly(after_entries(src, p, k)),
    decreases k,
{
    if k > 0 {
        lemma_entries_orderly(src, p, k - 1);
    }
}

proof fn lemma_run_orderly(src: Source, p: Progress, run: int)
    requires
        is_orderly(p),
    ensures
        is_orderly(after_run(src, p, run)),
{
    let t = tokens_of(src.nodes, src.lines, run);
    if let Some(range) = src.nodes[run].span {
        if !in_some_range(p.regions, range) && is_procedural_run(t) {
            let ranges = unit_ranges(src.units);
            let fallback = spilled_unit(src, p, range.0);
            let p = if src.spills && fallback is None && control_led(t) {
                p.entered(src.lines.span(range), None)
            } else {
                p
            };
            assert(is_orderly(p));
            let held = match fallback {
                Some(u) => p.carried[u as int],
                None => None,
            };
            let anon = if fallback is None {
                continued_anonymous(p, t, range.0)
            } else {
                None
            };
            let taken = match anon {
                Some(a) => p.anonymous[a as int].1,
                None => held,
            };
            let from = saved_or_nothing(taken);
            let alone = fallback is None && taken is None;
            let q = Progress {
                carried: match fallback {
                    Some(u) => p.carried.update(u as int, None),
                    None => p.carried,
                },
                anonymous: match anon {
                    Some(a) => p.anonymous.update(a as int, (p.anonymous[a as int].0, None)),
                    None => p.anonymous,
                },
                ..p
            };
            assert(is_orderly(q));
            lemma_scanned_orderly(
                q,
                ranges,
                t,
                fallback,
                from,
                from.in_body || !(alone && word_at(t, 0) == Word::Declare),
            );
        }
    }
}

proof fn lemma_runs_orderly(src: Source, p: Progress, runs: Seq<usize>, k: int)
    requires
        is_orderly(p),
    ensures
        is_orderly(after_runs(src, p, runs, k)),
    decreases k,
{
    if k > 0 {
        lemma_runs_orderly(src, p, runs, k - 1);
        lemma_run_orderly(src, after_runs(src, p, runs, k - 1), runs[k - 1] as int);
    }
}

// ── totals ─────────────────────────────────────────────────────────────

/// A maximum or a count of routines gets nothing from tidy evidence.
proof fn lemma_tidy_total(log: Seq<LogEntry>, m: ProceduralMetric)
    requires
        forall|i: int| 0 <= i < log.len() ==> is_tidy((#[trigger] log[i]).evidence),
        m == ProceduralMetric::RoutineCount || m == ProceduralMetric::MaxBlockDepth || m
            == ProceduralMetric::EmbeddedQueryMax,
    ensures
        total(log, m) == 0,
    decreases log.len(),
{
    if log.len() > 0 {
        assert(is_tidy(log[log.len() - 1].evidence));
        lemma_tidy_total(log.drop_last(), m);
    }
}

proof fn lemma_push_total(log: Seq<LogEntry>, e: LogEntry, m: ProceduralMetric)
    ensures
        total(log.push(e), m) == total(log, m) + if e.evidence.metric == m {
            e.evidence.amount as int
        } else {
            0
        },
        places_of(log.push(e), m).len() == places_of(log, m).len() + if e.evidence.metric == m {
            1int
        } else {
            0
        },
{
    assert(log.push(e).drop_last() =~= log);
}

proof fn lemma_routines_total(src: Source, p: Progress, k: int, m: ProceduralMetric)
    requires
        0 <= k,
    ensures
        total(after_routines(src, p, k).log, m) == total(p.log, m) + if m
            == ProceduralMetric::RoutineCount {
            k
        } else {
            0
        },
        places_of(after_routines(src, p, k).log, m).len() == places_of(p.log, m).len() + if m
            == ProceduralMetric::RoutineCount {
            k
        } else {
            0
        },
        after_routines(src, p, k).max_depth == p.max_depth,
        after_routines(src, p, k).max_depth_span == p.max_depth_span,
    decreases k,
{
    if k > 0 {
        lemma_routines_total(src, p, k - 1, m);
        let q = after_routines(src, p, k - 1);
        let span = unit_span(src.units[k - 1], q.extents[k - 1]);
        lemma_push_total(
            q.log,
            LogEntry {
                evidence: ProceduralEvidence {
                    span,
                    metric: ProceduralMetric::RoutineCount,
                    amount: 1,
                    reason: Reason::Routine,
                },
                unit: Some((k - 1) as usize),
            },
            m,
        );
    }
}

/// A raw count is the number of its places.
proof fn lemma_places(log: Seq<LogEntry>, m: ProceduralMetric)
    requires
        forall|i: int| 0 <= i < log.len() ==> is_tidy((#[trigger] log[i]).evidence),
        m != ProceduralMetric::Cyclomatic,
        m != ProceduralMetric::Cognitive,
    ensures
        total(log, m) == places_of(log, m).len(),
    decreases log.len(),
{
    if log.len() > 0 {
        assert(is_tidy(log[log.len() - 1].evidence));
        lemma_places(log.drop_last(), m);
    }
}

/// What was scanned of a file before the routines are counted.
pub open spec fn scanned_progress(src: Source, root: int) -> Progress {
    let p = after_statements(src, no_progress(src.units), src.facts.len() as int);
    let segs = segments_of(src.nodes, root);
    let p = after_segments(src, p, segs, segs.len() as int);
    let p = after_entries(src, p, src.units.len() as int);
    let runs = all_in(src.nodes, root, KindSet::Only(Kind::Unparsable));
    after_runs(src, p, runs, runs.len() as int)
}

proof fn lemma_file_orderly(src: Source, root: int)
    ensures
        is_orderly(scanned_progress(src, root)),
        file_progress(src, root) == with_deepest(
            after_routines(src, scanned_progress(src, root), src.units.len() as int),
        ),
{
    let p = no_progress(src.units);
    lemma_statements_orderly(src, p, src.facts.len() as int);
    let p = after_statements(src, p, src.facts.len() as int);
    let segs = segments_of(src.nodes, root);
    lemma_segments_orderly(src, p, segs, segs.len() as int);
    let p = after_segments(src, p, segs, segs.len() as int);
    lemma_entries_orderly(src, p, src.units.len() as int);
    let p = after_entries(src, p, src.units.len() as int);
    let runs = all_in(src.nodes, root, KindSet::Only(Kind::Unparsable));
    lemma_runs_orderly(src, p, runs, runs.len() as int);
}

proof fn lemma_file_totals(src: Source, root: int)
    requires
        file_progress(src, root).max_depth <= u64::MAX,
    ensures
        ({
            let log = file_progress(src, root).log;
            &&& total(log, ProceduralMetric::RoutineCount) == src.units.len()
            &&& total(log, ProceduralMetric::MaxBlockDepth) == file_progress(src, root).max_depth
            &&& total(log, ProceduralMetric::EmbeddedQueryMax) == 0
            &&& total(log, ProceduralMetric::DynamicSqlCount) == places_of(
                log,
                ProceduralMetric::DynamicSqlCount,
            ).len()
        }),
{
    lemma_file_orderly(src, root);
    let p = scanned_progress(src, root);
    let k = src.units.len() as int;
    let q = after_routines(src, p, k);
    lemma_tidy_total(p.log, ProceduralMetric::RoutineCount);
    lemma_tidy_total(p.log, ProceduralMetric::MaxBlockDepth);
    lemma_tidy_total(p.log, ProceduralMetric::EmbeddedQueryMax);
    lemma_places(p.log, ProceduralMetric::DynamicSqlCount);
    lemma_routines_total(src, p, k, ProceduralMetric::RoutineCount);
    lemma_routines_total(src, p, k, ProceduralMetric::MaxBlockDepth);
    lemma_routines_total(src, p, k, ProceduralMetric::EmbeddedQueryMax);
    lemma_routines_total(src, p, k, ProceduralMetric::DynamicSqlCount);
    if let Some(span) = q.max_depth_span {
        let e = LogEntry {
            evidence: ProceduralEvidence {
                span,
                metric: ProceduralMetric::MaxBlockDepth,
                amount: q.max_depth as u64,
                reason: Reason::DeepestBlock,
            },
            unit: None,
        };
        lemma_push_total(q.log, e, ProceduralMetric::RoutineCount);
        lemma_push_total(q.log, e, ProceduralMetric::MaxBlockDepth);
        lemma_push_total(q.log, e, ProceduralMetric::EmbeddedQueryMax);
        lemma_push_total(q.log, e, ProceduralMetric::DynamicSqlCount);
    }
}

/// What evidence adds to a metric, all together.
pub open spec fn amount_in(s: Seq<ProceduralEvidence>, m: ProceduralMetric) -> int
    decreases s.len(),
{
    if s.len() == 0 {
        0
    } else {
        amount_in(s.drop_last(), m) + if s.last().metric == m {
            s.last().amount as int
        } else {
            0
        }
    }
}

proof fn lemma_amount_in(log: Seq<LogEntry>, m: ProceduralMetric)
    ensures
        amount_in(evidence_of(log), m) == total(log, m),
    decreases log.len(),
{
    if log.len() > 0 {
        lemma_amount_in(log.drop_last(), m);
        assert(evidence_of(log).drop_last() =~= evidence_of(log.drop_last()));
    }
}

/// The value of a procedural metric.
pub open spec fn count_of(r: ProceduralFacts, m: ProceduralMetric) -> int {
    match m {
        ProceduralMetric::Cyclomatic => r.cyclomatic_complexity as int,
        ProceduralMetric::Cognitive => r.cognitive_complexity as int,
        ProceduralMetric::EmbeddedQueryMax => r.max_embedded_query_structural as int,
        ProceduralMetric::BlockCount => r.block_count as int,
        ProceduralMetric::RoutineCount => r.routine_count as int,
        ProceduralMetric::LoopCount => r.loop_count as int,
        ProceduralMetric::IfCount => r.if_count as int,
        ProceduralMetric::CaseStatementCount => r.case_statement_count as int,
        ProceduralMetric::ExceptionHandlerCount => r.exception_handler_count as int,
        ProceduralMetric::ReturnCount => r.return_count as int,
        ProceduralMetric::RaiseThrowCount => r.raise_throw_count as int,
        ProceduralMetric::DynamicSqlCount => r.dynamic_sql_count as int,
        ProceduralMetric::MaxBlockDepth => r.max_block_depth as int,
    }
}

/// Every procedural count is the sum of its evidence, and the deepest block is
/// one piece of evidence that counts for its depth.
pub proof fn procedural_counts_are_their_evidence(
    src: Source,
    root: int,
    r: ProceduralFacts,
    m: ProceduralMetric,
)
    requires
        describes_procedural(src, root, true, r),
        m != ProceduralMetric::EmbeddedQueryMax,
    ensures
        amount_in(r.evidence@, m) == count_of(r, m),
{
    lemma_amount_in(file_progress(src, root).log, m);
    lemma_file_totals(src, root);
}

/// A file has as many routines as were found in it, and dynamic SQL counts once
/// for each of its places.
pub proof fn routines_and_dynamic_sql_are_counted(
    src: Source,
    root: int,
    emit: bool,
    r: ProceduralFacts,
)
    requires
        describes_procedural(src, root, emit, r),
    ensures
        r.routine_count == src.units.len(),
        r.dynamic_sql_count == r.dynamic_sql_spans@.len(),
{
    lemma_file_totals(src, root);
}

// ── change risk ────────────────────────────────────────────────────────

/// What evidence adds to the change-risk score, all together.
pub open spec fn weight_of(s: Seq<ChangeRiskEvidence>) -> int
    decreases s.len(),
{
    if s.len() == 0 {
        0
    } else {
        weight_of(s.drop_last()) + s.last().factor.weight()
    }
}

proof fn lemma_weight_joins(a: Seq<ChangeRiskEvidence>, b: Seq<ChangeRiskEvidence>)
    ensures
        weight_of(a + b) == weight_of(a) + weight_of(b),
    decreases b.len(),
{
    if b.len() == 0 {
        assert(a + b =~= a);
    } else {
        lemma_weight_joins(a, b.drop_last());
        assert((a + b).drop_last() =~= a + b.drop_last());
    }
}

proof fn lemma_weight_of_dynamic(places: Seq<SourceSpan>)
    ensures
        weight_of(dynamic_risks(places)) == 5 * places.len(),
    decreases places.len(),
{
    if places.len() > 0 {
        lemma_weight_of_dynamic(places.drop_last());
        assert(dynamic_risks(places).drop_last() =~= dynamic_risks(places.drop_last()));
    }
}

proof fn lemma_weight_of_risks(log: Seq<ObjectEvent>)
    ensures
        weight_of(risks(log)) == 8 * tally(log, Change::Drop) + 8 * tally(log, Change::Truncate) + 6
            * tally(log, Change::Alter) + 6 * tally(log, Change::DeleteWithoutWhere) + 6 * tally(
            log,
            Change::UpdateWithoutWhere,
        ) + 5 * tally(log, Change::GrantRevoke) + 4 * tally(log, Change::Merge) + 4 * tally(
            log,
            Change::CreateOrReplace,
        ) + 3 * tally(log, Change::TransactionControl) + 2 * tally(log, Change::WriteObject)
            + tally(log, Change::ReadObject),
    decreases log.len(),
{
    if log.len() > 0 {
        let d = log.drop_last();
        lemma_weight_of_risks(d);
        if let Some(factor) = log.last().change.risk() {
            let e = ChangeRiskEvidence { span: log.last().span, factor };
            assert(risks(d).push(e).drop_last() =~= risks(d));
        }
    }
}

proof fn lemma_tally_joins(a: Seq<ObjectEvent>, b: Seq<ObjectEvent>, change: Change)
    ensures
        tally(a + b, change) == tally(a, change) + tally(b, change),
    decreases b.len(),
{
    if b.len() == 0 {
        assert(a + b =~= a);
    } else {
        lemma_tally_joins(a, b.drop_last(), change);
        assert((a + b).drop_last() =~= a + b.drop_last());
    }
}

/// Whether a change is one object being touched.
pub open spec fn is_touch(change: Change) -> bool {
    change == Change::WriteObject || change == Change::ReadObject
}

proof fn lemma_events_at(
    n: Seq<Node>,
    lines: Lines,
    fallback: SourceSpan,
    change: Change,
    s: Seq<usize>,
    k: int,
    touch: Change,
)
    requires
        touch != change,
    ensures
        tally(events_at(n, lines, fallback, change, s, k), touch) == 0,
    decreases k,
{
    if k > 0 {
        lemma_events_at(n, lines, fallback, change, s, k - 1, touch);
        let before = events_at(n, lines, fallback, change, s, k - 1);
        let all = events_at(n, lines, fallback, change, s, k);
        assert(all.drop_last() =~= before);
    }
}

proof fn lemma_no_touch_in_statements(facts: Seq<StatementFacts>, k: int, touch: Change)
    requires
        is_touch(touch),
    ensures
        tally(statement_events(facts, k), touch) == 0,
    decreases k,
{
    if k > 0 {
        lemma_no_touch_in_statements(facts, k - 1, touch);
        let before = statement_events(facts, k - 1);
        if let Some(change) = kind_change(facts[k - 1].kind) {
            let e = ObjectEvent { change, span: span_of_statement(facts[k - 1]) };
            assert(before.push(e).drop_last() =~= before);
        }
    }
}

proof fn lemma_no_touch_in_block(n: Seq<Node>, lines: Lines, block: int, steps: int, touch: Change)
    requires
        is_touch(touch),
    ensures
        tally(block_events_by(n, lines, block, steps), touch) == 0,
    decreases steps,
{
    if steps > 0 {
        lemma_no_touch_in_block(n, lines, block, steps - 1, touch);
        let (set, change) = block_search(steps - 1);
        let s = in_block(n, block, set);
        lemma_events_at(n, lines, empty_span(), change, s, s.len() as int, touch);
        lemma_tally_joins(
            block_events_by(n, lines, block, steps - 1),
            events(n, lines, empty_span(), change, s),
            touch,
        );
    }
}

proof fn lemma_no_touch_in_blocks(
    n: Seq<Node>,
    lines: Lines,
    s: Seq<usize>,
    facts: Seq<StatementFacts>,
    k: int,
    touch: Change,
)
    requires
        is_touch(touch),
    ensures
        tally(blocks_events(n, lines, s, facts, k), touch) == 0,
    decreases k,
{
    if k > 0 {
        lemma_no_touch_in_blocks(n, lines, s, facts, k - 1, touch);
        let block = s[k - 1] as int;
        let last = kept(in_block(n, block, KindSet::Transactions), controls_transaction(n));
        lemma_no_touch_in_block(n, lines, block, 11, touch);
        lemma_events_at(
            n,
            lines,
            empty_span(),
            Change::TransactionControl,
            last,
            last.len() as int,
            touch,
        );
        lemma_tally_joins(
            block_events_by(n, lines, block, 11),
            events(n, lines, empty_span(), Change::TransactionControl, last),
            touch,
        );
        lemma_tally_joins(
            blocks_events(n, lines, s, facts, k - 1),
            block_events(n, lines, block),
            touch,
        );
    }
}

proof fn lemma_touches(change: Change, o: Objects, fallback: SourceSpan, k: int, touch: Change)
    requires
        0 <= k,
    ensures
        tally(object_events(change, o, fallback, k), touch) == if touch == change {
            k
        } else {
            0
        },
    decreases k,
{
    if k > 0 {
        lemma_touches(change, o, fallback, k - 1, touch);
        let before = object_events(change, o, fallback, k - 1);
        assert(object_events(change, o, fallback, k).drop_last() =~= before);
    }
}

proof fn lemma_no_touch_unfiltered(
    n: Seq<Node>,
    lines: Lines,
    fallback: SourceSpan,
    s: Seq<usize>,
    facts: Seq<StatementFacts>,
    k: int,
    touch: Change,
)
    requires
        is_touch(touch),
    ensures
        tally(unfiltered_events(n, lines, fallback, s, facts, k), touch) == 0,
    decreases k,
{
    if k > 0 {
        lemma_no_touch_unfiltered(n, lines, fallback, s, facts, k - 1, touch);
        let before = unfiltered_events(n, lines, fallback, s, facts, k - 1);
        let stmt = s[k - 1] as int;
        let u = unfiltered(n, stmt, KindSet::Updates);
        let d = unfiltered(n, stmt, KindSet::Deletes);
        lemma_events_at(n, lines, fallback, Change::UpdateWithoutWhere, u, u.len() as int, touch);
        lemma_events_at(n, lines, fallback, Change::DeleteWithoutWhere, d, d.len() as int, touch);
        let updates = events(n, lines, fallback, Change::UpdateWithoutWhere, u);
        let deletes = events(n, lines, fallback, Change::DeleteWithoutWhere, d);
        lemma_tally_joins(before, updates, touch);
        lemma_tally_joins(before + updates, deletes, touch);
    }
}

proof fn lemma_no_touch_in_replacements(
    n: Seq<Node>,
    lines: Lines,
    fallback: SourceSpan,
    leaf: Seq<usize>,
    k: int,
    touch: Change,
)
    requires
        is_touch(touch),
    ensures
        tally(replace_events(n, lines, fallback, leaf, k), touch) == 0,
    decreases k,
{
    if k > 0 {
        lemma_no_touch_in_replacements(n, lines, fallback, leaf, k - 1, touch);
        let before = replace_events(n, lines, fallback, leaf, k - 1);
        if k + 1 < leaf.len() && replaces(n, leaf, k - 1) {
            assert(replace_events(n, lines, fallback, leaf, k).drop_last() =~= before);
        }
    }
}

proof fn lemma_no_touch_returned(
    n: Seq<Node>,
    lines: Lines,
    fallback: SourceSpan,
    dml: Seq<usize>,
    k: int,
    touch: Change,
)
    requires
        is_touch(touch),
    ensures
        tally(returning_in(n, lines, fallback, dml, k), touch) == 0,
    decreases k,
{
    if k > 0 {
        lemma_no_touch_returned(n, lines, fallback, dml, k - 1, touch);
        let d = dml[k - 1] as int;
        let before = returning_in(n, lines, fallback, dml, k - 1);
        let r = keywords_in(n, d, Word::Returning);
        let o = keywords_in(n, d, Word::Output);
        lemma_events_at(n, lines, fallback, Change::Returning, r, r.len() as int, touch);
        lemma_events_at(n, lines, fallback, Change::Returning, o, o.len() as int, touch);
        let first = events(n, lines, fallback, Change::Returning, r);
        let second = events(n, lines, fallback, Change::Returning, o);
        lemma_tally_joins(before, first, touch);
        lemma_tally_joins(before + first, second, touch);
    }
}

proof fn lemma_no_touch_returning(
    n: Seq<Node>,
    lines: Lines,
    fallback: SourceSpan,
    s: Seq<usize>,
    facts: Seq<StatementFacts>,
    k: int,
    touch: Change,
)
    requires
        is_touch(touch),
    ensures
        tally(returning_events(n, lines, fallback, s, facts, k), touch) == 0,
    decreases k,
{
    if k > 0 {
        lemma_no_touch_returning(n, lines, fallback, s, facts, k - 1, touch);
        let dml = dml_in(n, s[k - 1] as int);
        lemma_no_touch_returned(n, lines, fallback, dml, dml.len() as int, touch);
        lemma_tally_joins(
            returning_events(n, lines, fallback, s, facts, k - 1),
            returning_in(n, lines, fallback, dml, dml.len() as int),
            touch,
        );
    }
}

/// Objects are touched as often as the log says.
proof fn lemma_log_touches(
    n: Seq<Node>,
    lines: Lines,
    root: int,
    s: Seq<usize>,
    facts: Seq<StatementFacts>,
    touch: Change,
)
    requires
        is_touch(touch),
    ensures
        ({
            let t = touched(n, lines, s, facts, facts.len() as int);
            tally(object_log(n, lines, root, s, facts), touch) == if touch == Change::WriteObject {
                t.write.names.len()
            } else {
                t.read.names.len()
            }
        }),
{
    let k = facts.len() as int;
    let fallback = span_or(placed_span(n, lines, root), empty_span());
    let t = touched(n, lines, s, facts, k);
    let leaf = code_leaves(n, root, n[root].end as int);
    let a = statement_events(facts, k);
    let b = blocks_events(n, lines, s, facts, k);
    let w = object_events(Change::WriteObject, t.write, fallback, t.write.names.len() as int);
    let r = object_events(Change::ReadObject, t.read, fallback, t.read.names.len() as int);
    let u = unfiltered_events(n, lines, fallback, s, facts, k);
    let c = replace_events(n, lines, fallback, leaf, leaf.len() as int);
    let o = returning_events(n, lines, fallback, s, facts, k);
    lemma_no_touch_in_statements(facts, k, touch);
    lemma_no_touch_in_blocks(n, lines, s, facts, k, touch);
    lemma_touches(Change::WriteObject, t.write, fallback, t.write.names.len() as int, touch);
    lemma_touches(Change::ReadObject, t.read, fallback, t.read.names.len() as int, touch);
    lemma_no_touch_unfiltered(n, lines, fallback, s, facts, k, touch);
    lemma_no_touch_in_replacements(n, lines, fallback, leaf, leaf.len() as int, touch);
    lemma_no_touch_returning(n, lines, fallback, s, facts, k, touch);
    lemma_tally_joins(a, b, touch);
    lemma_tally_joins(a + b, w, touch);
    lemma_tally_joins(a + b + w, r, touch);
    lemma_tally_joins(a + b + w + r, u, touch);
    lemma_tally_joins(a + b + w + r + u, c, touch);
    lemma_tally_joins(a + b + w + r + u + c, o, touch);
}

/// The change-risk score of a file is the sum of the weights of its evidence.
pub proof fn change_risk_is_its_evidence(
    n: Seq<Node>,
    lines: Lines,
    root: int,
    kind: DialectKind,
    f: SqlFileFacts,
)
    requires
        describes_file(n, lines, root, kind, true, f),
    ensures
        weight_of(f.change_risk_evidence@) == risk_score(f),
{
    let src = source_of(n, lines, root, kind);
    let log = object_log(n, lines, root, src.statements, src.facts);
    let places = f.procedural.dynamic_sql_spans@;
    lemma_weight_joins(dynamic_risks(places), risks(log));
    lemma_weight_of_dynamic(places);
    lemma_weight_of_risks(log);
    lemma_log_touches(n, lines, root, src.statements, src.facts, Change::WriteObject);
    lemma_log_touches(n, lines, root, src.statements, src.facts, Change::ReadObject);
}

// ── contributions ──────────────────────────────────────────────────────

/// The value of a metric that contributions are reported for, in hundredths;
/// nothing for any other.
pub open spec fn explained(f: SqlFileFacts, key: MetricKey) -> int {
    let p = f.procedural;
    match key {
        MetricKey::ChangeRiskScore => 100 * risk_score(f),
        MetricKey::PredicateNotCount => 100 * f.predicates.not_count,
        MetricKey::StructuralComplexityMaxEmbeddedQuery => p.max_embedded_query_structural as int,
        MetricKey::ProceduralCyclomaticComplexity => 100 * p.cyclomatic_complexity,
        MetricKey::ProceduralCognitiveComplexity => 100 * p.cognitive_complexity,
        MetricKey::ProceduralBlockCount => 100 * p.block_count,
        MetricKey::ProceduralRoutineCount => 100 * p.routine_count,
        MetricKey::ProceduralLoopCount => 100 * p.loop_count,
        MetricKey::ProceduralIfCount => 100 * p.if_count,
        MetricKey::ProceduralCaseStatementCount => 100 * p.case_statement_count,
        MetricKey::ProceduralExceptionHandlerCount => 100 * p.exception_handler_count,
        MetricKey::ProceduralReturnCount => 100 * p.return_count,
        MetricKey::ProceduralRaiseThrowCount => 100 * p.raise_throw_count,
        MetricKey::ProceduralDynamicSqlCount => 100 * p.dynamic_sql_count,
        MetricKey::ProceduralMaxBlockDepth => 100 * p.max_block_depth,
        _ => 0,
    }
}

proof fn lemma_amount_joins(a: Seq<Contribution>, b: Seq<Contribution>, key: MetricKey)
    ensures
        amount_for(a + b, key) == amount_for(a, key) + amount_for(b, key),
    decreases b.len(),
{
    if b.len() == 0 {
        assert(a + b =~= a);
    } else {
        lemma_amount_joins(a, b.drop_last(), key);
        assert((a + b).drop_last() =~= a + b.drop_last());
    }
}

pub open spec fn of_risks(s: Seq<ChangeRiskEvidence>) -> Seq<Contribution> {
    Seq::new(s.len(), |i: int| of_risk(s[i]))
}

pub open spec fn of_steps(s: Seq<ProceduralEvidence>) -> Seq<Contribution> {
    Seq::new(s.len(), |i: int| of_procedural(s[i]))
}

pub open spec fn of_nots(lines: Lines, s: Seq<(u32, u32)>) -> Seq<Contribution> {
    Seq::new(s.len(), |i: int| of_not(lines, s[i]))
}

proof fn lemma_risk_amount(s: Seq<ChangeRiskEvidence>, key: MetricKey)
    ensures
        amount_for(of_risks(s), key) == if key == MetricKey::ChangeRiskScore {
            100 * weight_of(s)
        } else {
            0
        },
    decreases s.len(),
{
    if s.len() > 0 {
        lemma_risk_amount(s.drop_last(), key);
        assert(of_risks(s).drop_last() =~= of_risks(s.drop_last()));
    }
}

proof fn lemma_step_amount(s: Seq<ProceduralEvidence>, m: ProceduralMetric, key: MetricKey)
    ensures
        key == key_of(m) ==> amount_for(of_steps(s), key) == 100 * amount_in(s, m),
    decreases s.len(),
{
    if s.len() > 0 {
        lemma_step_amount(s.drop_last(), m, key);
        assert(of_steps(s).drop_last() =~= of_steps(s.drop_last()));
    }
}

proof fn lemma_no_step_amount(s: Seq<ProceduralEvidence>, key: MetricKey)
    requires
        forall|m: ProceduralMetric| #[trigger] key_of(m) != key,
    ensures
        amount_for(of_steps(s), key) == 0,
    decreases s.len(),
{
    if s.len() > 0 {
        lemma_no_step_amount(s.drop_last(), key);
        assert(of_steps(s).drop_last() =~= of_steps(s.drop_last()));
        assert(key_of(s.last().metric) != key);
    }
}

proof fn lemma_not_amount(lines: Lines, s: Seq<(u32, u32)>, key: MetricKey)
    ensures
        amount_for(of_nots(lines, s), key) == if key == MetricKey::PredicateNotCount {
            100 * s.len()
        } else {
            0
        },
    decreases s.len(),
{
    if s.len() > 0 {
        lemma_not_amount(lines, s.drop_last(), key);
        assert(of_nots(lines, s).drop_last() =~= of_nots(lines, s.drop_last()));
    }
}

proof fn lemma_heaviest_bound(src: Source, p: Progress, k: int)
    requires
        0 <= k <= usize::MAX,
    ensures
        heaviest(src, p, k) matches Some(u) ==> u < k,
    decreases k,
{
    if k > 0 {
        lemma_heaviest_bound(src, p, k - 1);
    }
}

proof fn lemma_heaviest_amount(src: Source, root: int, f: SqlFileFacts, key: MetricKey)
    requires
        describes_procedural(src, root, true, f.procedural),
        f.procedural_units@.len() == src.units.len(),
    ensures
        amount_for(of_heaviest(f), key) == if key
            == MetricKey::StructuralComplexityMaxEmbeddedQuery {
            f.procedural.max_embedded_query_structural as int
        } else {
            0
        },
{
    assert(f.procedural_units.len() == f.procedural_units@.len());
    lemma_heaviest_bound(src, file_progress(src, root), src.units.len() as int);
    let s = of_heaviest(f);
    if s.len() > 0 {
        assert(s.drop_last() =~= Seq::<Contribution>::empty());
        assert(amount_for(s.drop_last(), key) == 0);
    }
}

proof fn lemma_steps_explained(src: Source, root: int, f: SqlFileFacts, key: MetricKey)
    requires
        describes_procedural(src, root, true, f.procedural),
    ensures
        amount_for(of_steps(f.procedural.evidence@), key) == if key == MetricKey::ChangeRiskScore
            || key == MetricKey::PredicateNotCount || key
            == MetricKey::StructuralComplexityMaxEmbeddedQuery {
            0
        } else {
            explained(f, key)
        },
{
    let s = f.procedural.evidence@;
    let r = f.procedural;
    let found: Option<ProceduralMetric> = match key {
        MetricKey::StructuralComplexityMaxEmbeddedQuery => Some(ProceduralMetric::EmbeddedQueryMax),
        MetricKey::ProceduralCyclomaticComplexity => Some(ProceduralMetric::Cyclomatic),
        MetricKey::ProceduralCognitiveComplexity => Some(ProceduralMetric::Cognitive),
        MetricKey::ProceduralBlockCount => Some(ProceduralMetric::BlockCount),
        MetricKey::ProceduralRoutineCount => Some(ProceduralMetric::RoutineCount),
        MetricKey::ProceduralLoopCount => Some(ProceduralMetric::LoopCount),
        MetricKey::ProceduralIfCount => Some(ProceduralMetric::IfCount),
        MetricKey::ProceduralCaseStatementCount => Some(ProceduralMetric::CaseStatementCount),
        MetricKey::ProceduralExceptionHandlerCount => Some(
            ProceduralMetric::ExceptionHandlerCount,
        ),
        MetricKey::ProceduralReturnCount => Some(ProceduralMetric::ReturnCount),
        MetricKey::ProceduralRaiseThrowCount => Some(ProceduralMetric::RaiseThrowCount),
        MetricKey::ProceduralDynamicSqlCount => Some(ProceduralMetric::DynamicSqlCount),
        MetricKey::ProceduralMaxBlockDepth => Some(ProceduralMetric::MaxBlockDepth),
        _ => None,
    };
    match found {
        Some(m) => {
            lemma_step_amount(s, m, key);
            if m == ProceduralMetric::EmbeddedQueryMax {
                lemma_amount_in(file_progress(src, root).log, m);
                lemma_file_totals(src, root);
            } else {
                procedural_counts_are_their_evidence(src, root, r, m);
            }
        },
        None => {
            assert forall|m: ProceduralMetric| #[trigger] key_of(m) != key by {}
            lemma_no_step_amount(s, key);
        },
    }
}

/// What is reported for a metric adds up to the metric: the change-risk score,
/// every procedural metric, and the negations in predicates. Nothing is reported
/// for any other metric.
pub proof fn contributions_add_up(
    n: Seq<Node>,
    lines: Lines,
    root: int,
    kind: DialectKind,
    f: SqlFileFacts,
    key: MetricKey,
)
    requires
        describes_file(n, lines, root, kind, true, f),
    ensures
        amount_for(contributions_of(f, lines, true), key) == explained(f, key),
{
    let src = source_of(n, lines, root, kind);
    let a = of_risks(f.change_risk_evidence@);
    let b = of_steps(f.procedural.evidence@);
    let c = of_heaviest(f);
    let d = of_nots(lines, f.predicates.not_spans@);
    contributions_are_in_source_order(f, lines, key);
    assert(recorded(f, lines) == a + b + c + d);
    lemma_amount_joins(a, b, key);
    lemma_amount_joins(a + b, c, key);
    lemma_amount_joins(a + b + c, d, key);
    lemma_risk_amount(f.change_risk_evidence@, key);
    change_risk_is_its_evidence(n, lines, root, kind, f);
    lemma_steps_explained(src, root, f, key);
    lemma_heaviest_amount(src, root, f, key);
    lemma_not_amount(lines, f.predicates.not_spans@, key);
}

/// What is reported for the procedural metrics of a file.
pub open spec fn procedural_record(f: SqlFileFacts) -> Seq<Contribution> {
    of_steps(f.procedural.evidence@) + of_heaviest(f)
}

/// The value of a procedural metric in hundredths.
pub open spec fn hundredths(r: ProceduralFacts, m: ProceduralMetric) -> int {
    if m == ProceduralMetric::EmbeddedQueryMax {
        count_of(r, m)
    } else {
        100 * count_of(r, m)
    }
}

/// Every procedural metric is the sum of its evidence: both complexities, every
/// count, the deepest block and the heaviest embedded query. And a file has as
/// many routines as were found in it.
pub proof fn procedural_metrics_are_their_evidence(
    n: Seq<Node>,
    lines: Lines,
    root: int,
    kind: DialectKind,
    f: SqlFileFacts,
    m: ProceduralMetric,
)
    requires
        describes_file(n, lines, root, kind, true, f),
    ensures
        amount_for(procedural_record(f), key_of(m)) == hundredths(f.procedural, m),
        amount_for(contributions_of(f, lines, true), key_of(m)) == hundredths(f.procedural, m),
        f.procedural.routine_count == f.procedural_units@.len(),
{
    let src = source_of(n, lines, root, kind);
    let key = key_of(m);
    contributions_add_up(n, lines, root, kind, f, key);
    routines_and_dynamic_sql_are_counted(src, root, true, f.procedural);
    lemma_amount_joins(of_steps(f.procedural.evidence@), of_heaviest(f), key);
    lemma_steps_explained(src, root, f, key);
    lemma_heaviest_amount(src, root, f, key);
}

} // verus!
