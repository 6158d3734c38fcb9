//! What adds to which metric, where in a file and why.

use vstd::prelude::*;

use crate::control::{ProceduralEvidence, ProceduralMetric, Reason};
use crate::facts::SqlFileFacts;
use crate::metric_key::MetricKey;
use crate::objects::{ChangeRiskEvidence, ChangeRiskFactor};
use crate::span::{LineIndex, Lines, SourceSpan};

verus! {

/// Why something adds to a metric.
#[derive(Clone, Copy, Debug, PartialEq, Eq, Structural)]
pub enum Cause {
    ChangeRisk(ChangeRiskFactor),
    Procedural(Reason),
    /// A negation in a predicate.
    Not,
}

impl Cause {
    /// The public code of the cause.
    pub open spec fn spelled(self) -> Seq<char> {
        match self {
            Cause::ChangeRisk(factor) => factor.spelled(),
            Cause::Procedural(reason) => reason.spelled(),
            Cause::Not => "sql.predicate.not"@,
        }
    }

    /// The public code of the cause.
    pub fn code(self) -> (r: &'static str)
        ensures
            r@ == self.spelled(),
    {
        match self {
            Cause::ChangeRisk(factor) => factor.reason(),
            Cause::Procedural(reason) => reason.code(),
            Cause::Not => "sql.predicate.not",
        }
    }
}

/// One addition to a metric of a file.
#[derive(Clone, Copy, Debug, PartialEq, Eq, Structural)]
pub struct Contribution {
    pub metric: MetricKey,
    pub span: SourceSpan,
    /// In hundredths.
    pub amount: u128,
    pub cause: Cause,
}

/// The metric of a file that procedural evidence adds to.
pub open spec fn key_of(metric: ProceduralMetric) -> MetricKey {
    match metric {
        ProceduralMetric::Cyclomatic => MetricKey::ProceduralCyclomaticComplexity,
        ProceduralMetric::Cognitive => MetricKey::ProceduralCognitiveComplexity,
        ProceduralMetric::EmbeddedQueryMax => MetricKey::StructuralComplexityMaxEmbeddedQuery,
        ProceduralMetric::BlockCount => MetricKey::ProceduralBlockCount,
        ProceduralMetric::RoutineCount => MetricKey::ProceduralRoutineCount,
        ProceduralMetric::LoopCount => MetricKey::ProceduralLoopCount,
        ProceduralMetric::IfCount => MetricKey::ProceduralIfCount,
        ProceduralMetric::CaseStatementCount => MetricKey::ProceduralCaseStatementCount,
        ProceduralMetric::ExceptionHandlerCount => MetricKey::ProceduralExceptionHandlerCount,
        ProceduralMetric::ReturnCount => MetricKey::ProceduralReturnCount,
        ProceduralMetric::RaiseThrowCount => MetricKey::ProceduralRaiseThrowCount,
        ProceduralMetric::DynamicSqlCount => MetricKey::ProceduralDynamicSqlCount,
        ProceduralMetric::MaxBlockDepth => MetricKey::ProceduralMaxBlockDepth,
    }
}

pub open spec fn of_risk(e: ChangeRiskEvidence) -> Contribution {
    Contribution {
        metric: MetricKey::ChangeRiskScore,
        span: e.span,
        amount: (100 * e.factor.weight()) as u128,
        cause: Cause::ChangeRisk(e.factor),
    }
}

pub open spec fn of_procedural(e: ProceduralEvidence) -> Contribution {
    Contribution {
        metric: key_of(e.metric),
        span: e.span,
        amount: (100 * e.amount) as u128,
        cause: Cause::Procedural(e.reason),
    }
}

pub open spec fn of_not(lines: Lines, range: (u32, u32)) -> Contribution {
    Contribution {
        metric: MetricKey::PredicateNotCount,
        span: lines.span(range),
        amount: 100,
        cause: Cause::Not,
    }
}

/// The routine whose queries weigh the most, with their score.
pub open spec fn of_heaviest(f: SqlFileFacts) -> Seq<Contribution> {
    match f.procedural.heaviest_unit {
        Some(u) => if u < f.procedural_units@.len() {
            let unit = f.procedural_units@[u as int];
            seq![
                Contribution {
                    metric: MetricKey::StructuralComplexityMaxEmbeddedQuery,
                    span: SourceSpan {
                        start_byte: unit.start_byte,
                        end_byte: unit.end_byte,
                        start_line: unit.start_line,
                        end_line: unit.end_line,
                    },
                    amount: f.procedural.max_embedded_query_structural,
                    cause: Cause::Procedural(Reason::EmbeddedQuery),
                },
            ]
        } else {
            Seq::empty()
        },
        None => Seq::empty(),
    }
}

/// Everything that is reported of a file, by family.
pub open spec fn recorded(f: SqlFileFacts, lines: Lines) -> Seq<Contribution> {
    let risk = f.change_risk_evidence@;
    let steps = f.procedural.evidence@;
    let nots = f.predicates.not_spans@;
    Seq::new(risk.len(), |i: int| of_risk(risk[i])) + Seq::new(
        steps.len(),
        |i: int| of_procedural(steps[i]),
    ) + of_heaviest(f) + Seq::new(nots.len(), |i: int| of_not(lines, nots[i]))
}

/// Whether `a` stands before `b`.
pub open spec fn stands_before(a: SourceSpan, b: SourceSpan) -> bool {
    a.start_byte < b.start_byte || (a.start_byte == b.start_byte && a.end_byte < b.end_byte)
}

/// A list in source order with one more contribution, behind its equals.
pub open spec fn with_contribution(s: Seq<Contribution>, c: Contribution) -> Seq<Contribution>
    decreases s.len(),
{
    if s.len() > 0 && stands_before(c.span, s.last().span) {
        with_contribution(s.drop_last(), c).push(s.last())
    } else {
        s.push(c)
    }
}

/// The first `k` contributions in source order.
pub open spec fn in_source_order(s: Seq<Contribution>, k: int) -> Seq<Contribution>
    decreases k,
{
    if k <= 0 {
        Seq::empty()
    } else {
        with_contribution(in_source_order(s, k - 1), s[k - 1])
    }
}

/// The contributions of a file, in source order; none where evidence is not
/// asked for.
pub open spec fn contributions_of(f: SqlFileFacts, lines: Lines, emit: bool) -> Seq<Contribution> {
    if emit {
        in_source_order(recorded(f, lines), recorded(f, lines).len() as int)
    } else {
        Seq::empty()
    }
}

/// What adds to a metric, all together.
pub open spec fn amount_for(s: Seq<Contribution>, key: MetricKey) -> int
    decreases s.len(),
{
    if s.len() == 0 {
        0
    } else {
        amount_for(s.drop_last(), key) + if s.last().metric == key {
            s.last().amount as int
        } else {
            0
        }
    }
}

// ── order ──────────────────────────────────────────────────────────────

/// Whether no contribution stands before an earlier one.
pub open spec fn sorted(s: Seq<Contribution>) -> bool {
    forall|i: int, j: int|
        0 <= i < j < s.len() ==> !stands_before((#[trigger] s[j]).span, (#[trigger] s[i]).span)
}

proof fn lemma_with_contribution(s: Seq<Contribution>, c: Contribution, key: MetricKey)
    requires
        sorted(s),
    ensures
        sorted(with_contribution(s, c)),
        with_contribution(s, c).len() == s.len() + 1,
        forall|i: int|
            0 <= i < with_contribution(s, c).len() ==> (#[trigger] with_contribution(s, c)[i]) == c
                || s.contains(with_contribution(s, c)[i]),
        amount_for(with_contribution(s, c), key) == amount_for(s, key) + if c.metric == key {
            c.amount as int
        } else {
            0
        },
    decreases s.len(),
{
    let r = with_contribution(s, c);
    if s.len() > 0 && stands_before(c.span, s.last().span) {
        let d = s.drop_last();
        let q = with_contribution(d, c);
        lemma_with_contribution(d, c, key);
        assert(r.drop_last() =~= q);
        assert forall|i: int| 0 <= i < r.len() implies (#[trigger] r[i]) == c || s.contains(r[i]) by {
            if i < q.len() {
                assert(r[i] == q[i]);
                if q[i] != c {
                    let at = choose|l: int| 0 <= l < d.len() && d[l] == q[i];
                    assert(s[at] == r[i]);
                }
            } else {
                assert(r[i] == s[s.len() - 1]);
            }
        }
        assert forall|i: int, j: int| 0 <= i < j < r.len() implies !stands_before(
            (#[trigger] r[j]).span,
            (#[trigger] r[i]).span,
        ) by {
            if j < q.len() {
                assert(r[j] == q[j] && r[i] == q[i]);
            } else {
                assert(r[i] == q[i]);
                if q[i] != c {
                    let at = choose|l: int| 0 <= l < d.len() && d[l] == q[i];
                    assert(s[at] == r[i]);
                }
            }
        }
    } else {
        assert(r.drop_last() =~= s);
        assert forall|i: int| 0 <= i < r.len() implies (#[trigger] r[i]) == c || s.contains(r[i]) by {
            if i < s.len() {
                assert(r[i] == s[i]);
            }
        }
        assert forall|i: int, j: int| 0 <= i < j < r.len() implies !stands_before(
            (#[trigger] r[j]).span,
            (#[trigger] r[i]).span,
        ) by {
            if j == s.len() && i < s.len() - 1 {
                assert(!stands_before(s[s.len() - 1].span, s[i].span));
            }
        }
    }
}

proof fn lemma_in_source_order(s: Seq<Contribution>, k: int, key: MetricKey)
    requires
        0 <= k <= s.len(),
    ensures
        sorted(in_source_order(s, k)),
        in_source_order(s, k).len() == k,
        amount_for(in_source_order(s, k), key) == amount_for(s.take(k), key),
    decreases k,
{
    if k > 0 {
        lemma_in_source_order(s, k - 1, key);
        lemma_with_contribution(in_source_order(s, k - 1), s[k - 1], key);
        assert(s.take(k).drop_last() =~= s.take(k - 1));
    } else {
        assert(s.take(0) =~= Seq::<Contribution>::empty());
    }
}

/// Contributions come in source order, as many as were recorded, and add up to
/// what was recorded for each metric.
pub proof fn contributions_are_in_source_order(f: SqlFileFacts, lines: Lines, key: MetricKey)
    ensures
        sorted(contributions_of(f, lines, true)),
        contributions_of(f, lines, true).len() == recorded(f, lines).len(),
        amount_for(contributions_of(f, lines, true), key) == amount_for(recorded(f, lines), key),
{
    let s = recorded(f, lines);
    lemma_in_source_order(s, s.len() as int, key);
    assert(s.take(s.len() as int) =~= s);
}

// ── execution ──────────────────────────────────────────────────────────

fn procedural_key(metric: ProceduralMetric) -> (r: MetricKey)
    ensures
        r == key_of(metric),
{
    match metric {
        ProceduralMetric::Cyclomatic => MetricKey::ProceduralCyclomaticComplexity,
        ProceduralMetric::Cognitive => MetricKey::ProceduralCognitiveComplexity,
        ProceduralMetric::EmbeddedQueryMax => MetricKey::StructuralComplexityMaxEmbeddedQuery,
        ProceduralMetric::BlockCount => MetricKey::ProceduralBlockCount,
        ProceduralMetric::RoutineCount => MetricKey::ProceduralRoutineCount,
        ProceduralMetric::LoopCount => MetricKey::ProceduralLoopCount,
        ProceduralMetric::IfCount => MetricKey::ProceduralIfCount,
        ProceduralMetric::CaseStatementCount => MetricKey::ProceduralCaseStatementCount,
        ProceduralMetric::ExceptionHandlerCount => MetricKey::ProceduralExceptionHandlerCount,
        ProceduralMetric::ReturnCount => MetricKey::ProceduralReturnCount,
        ProceduralMetric::RaiseThrowCount => MetricKey::ProceduralRaiseThrowCount,
        ProceduralMetric::DynamicSqlCount => MetricKey::ProceduralDynamicSqlCount,
        ProceduralMetric::MaxBlockDepth => MetricKey::ProceduralMaxBlockDepth,
    }
}

/// Puts one more contribution into a list in source order.
fn insert(s: &mut Vec<Contribution>, c: Contribution)
    ensures
        final(s)@ == with_contribution(old(s)@, c),
{
    let ghost was = s@;
    let mut p: usize = s.len();
    assert(was.take(p as int) =~= was);
    assert(with_contribution(was.take(p as int), c) + was.skip(p as int) =~= with_contribution(
        was,
        c,
    ));
    while p > 0 && (c.span.start_byte < s[p - 1].span.start_byte || (c.span.start_byte
        == s[p - 1].span.start_byte && c.span.end_byte < s[p - 1].span.end_byte))
        invariant
            p <= s@.len(),
            was == s@,
            with_contribution(was, c) == with_contribution(was.take(p as int), c) + was.skip(
                p as int,
            ),
        decreases p,
    {
        proof {
            let t = was.take(p as int);
            assert(t.last() == was[p - 1]);
            assert(t.drop_last() =~= was.take(p - 1));
            assert(with_contribution(was.take(p - 1), c) + was.skip(p - 1) =~= with_contribution(
                t,
                c,
            ) + was.skip(p as int));
        }
        p = p - 1;
    }
    proof {
        let t = was.take(p as int);
        if p > 0 {
            assert(t.last() == was[p - 1]);
        }
        assert(t.push(c) + was.skip(p as int) =~= was.insert(p as int, c));
    }
    s.insert(p, c);
}

/// The contributions of a file, in source order.
pub fn collect_contributions(f: &SqlFileFacts, lines: &LineIndex, emit: bool) -> (r: Vec<Contribution>)
    requires
        lines@.wf(),
    ensures
        r@ == contributions_of(*f, lines@, emit),
{
    let mut all: Vec<Contribution> = Vec::new();
    let mut out: Vec<Contribution> = Vec::new();
    if !emit {
        return out;
    }
    let ghost want = recorded(*f, lines@);
    let ghost risk = f.change_risk_evidence@;
    let ghost steps = f.procedural.evidence@;
    let ghost nots = f.predicates.not_spans@;
    let mut i: usize = 0;
    while i < f.change_risk_evidence.len()
        invariant
            i == all@.len() <= risk.len(),
            risk == f.change_risk_evidence@,
            forall|k: int| 0 <= k < i ==> all@[k] == of_risk(risk[k]),
        decreases risk.len() - i,
    {
        let e = f.change_risk_evidence[i];
        all.push(
            Contribution {
                metric: MetricKey::ChangeRiskScore,
                span: e.span,
                amount: 100 * e.factor.amount() as u128,
                cause: Cause::ChangeRisk(e.factor),
            },
        );
        i = i + 1;
    }
    let mut i: usize = 0;
    while i < f.procedural.evidence.len()
        invariant
            i <= steps.len(),
            all@.len() == risk.len() + i,
            steps == f.procedural.evidence@,
            forall|k: int| 0 <= k < risk.len() ==> all@[k] == of_risk(risk[k]),
            forall|k: int|
                #![trigger steps[k]]
                0 <= k < i ==> all@[risk.len() + k] == of_procedural(steps[k]),
        decreases steps.len() - i,
    {
        let e = f.procedural.evidence[i];
        all.push(
            Contribution {
                metric: procedural_key(e.metric),
                span: e.span,
                amount: 100 * e.amount as u128,
                cause: Cause::Procedural(e.reason),
            },
        );
        i = i + 1;
    }
    let ghost counted = all@;
    if let Some(u) = f.procedural.heaviest_unit {
        if u < f.procedural_units.len() {
            let unit = &f.procedural_units[u];
            all.push(
                Contribution {
                    metric: MetricKey::StructuralComplexityMaxEmbeddedQuery,
                    span: SourceSpan {
                        start_byte: unit.start_byte,
                        end_byte: unit.end_byte,
                        start_line: unit.start_line,
                        end_line: unit.end_line,
                    },
                    amount: f.procedural.max_embedded_query_structural,
                    cause: Cause::Procedural(Reason::EmbeddedQuery),
                },
            );
        }
    }
    let ghost of_risks = Seq::new(risk.len(), |i: int| of_risk(risk[i]));
    let ghost of_steps = Seq::new(steps.len(), |i: int| of_procedural(steps[i]));
    assert(counted =~= of_risks + of_steps) by {
        assert forall|k: int| 0 <= k < counted.len() implies counted[k] == (of_risks + of_steps)[k] by {
            if k >= risk.len() {
                assert(steps[k - risk.len()] == steps[k - risk.len()]);
            }
        }
    }
    assert(all@ =~= counted + of_heaviest(*f));
    let ghost before = all@;
    let mut i: usize = 0;
    while i < f.predicates.not_spans.len()
        invariant
            lines@.wf(),
            i <= nots.len(),
            nots == f.predicates.not_spans@,
            all@.len() == before.len() + i,
            forall|k: int| 0 <= k < before.len() ==> all@[k] == before[k],
            forall|k: int|
                #![trigger nots[k]]
                0 <= k < i ==> all@[before.len() + k] == of_not(lines@, nots[k]),
        decreases nots.len() - i,
    {
        all.push(
            Contribution {
                metric: MetricKey::PredicateNotCount,
                span: lines.span_of(f.predicates.not_spans[i]),
                amount: 100,
                cause: Cause::Not,
            },
        );
        i = i + 1;
    }
    let ghost of_nots = Seq::new(nots.len(), |i: int| of_not(lines@, nots[i]));
    assert(all@ =~= before + of_nots) by {
        assert forall|k: int| 0 <= k < all@.len() implies all@[k] == (before + of_nots)[k] by {
            if k >= before.len() {
                assert(nots[k - before.len()] == nots[k - before.len()]);
            }
        }
    }
    assert(all@ == want);
    let mut i: usize = 0;
    while i < all.len()
        invariant
            i <= all@.len(),
            out@ == in_source_order(all@, i as int),
        decreases all@.len() - i,
    {
        insert(&mut out, all[i]);
        i = i + 1;
    }
    out
}

} // verus!
