//! What two analyses of one text have in common.

use vstd::prelude::*;

use crate::analyzer::{
    analyzes, analyzes_text, analyzes_tree, answers, lines_in, AnalysisError, SqlAnalysis,
};
use crate::composite::risk_score;
use crate::contributions::{
    amount_for, contributions_are_in_source_order, key_of, recorded, sorted,
};
use crate::control::ProceduralMetric;
use crate::diagnostics::directive_warning;
use crate::dialect::{resolves, settled, DialectResolution};
use crate::evidence::{contributions_add_up, explained};
use crate::facts::SqlFileFacts;
use crate::grammar::{parse_of, ParsedView};
use crate::loc::SqlLoc;
use crate::metric_key::MetricKey;
use crate::metric_laws::{agree, facts_are_determined, lemma_one_loc, metrics_are_determined};
use crate::metrics::{value_of, MetricView};
use crate::placement::{contributions_lie_in_the_text, Frame};
use crate::rows::{
    grown, is_one_tree, lemma_after_fits, lemma_well_formed, lie_in, node_of, RowView,
};
use crate::spaces::{seen_spaces, spaces_are_determined};
use crate::span::{lemma_lines_wf, lemma_offset, Lines};
use crate::text::offset;
use crate::tree::{Node, MAX_NODES};

verus! {

/// A text has one resolution.
pub proof fn resolution_is_determined(text: Seq<char>, d: DialectResolution, e: DialectResolution)
    requires
        resolves(text, None, d),
        resolves(text, None, e),
    ensures
        d.seen() == e.seen(),
        directive_warning(d) == directive_warning(e),
{
    assert(d.seen().directive == e.seen().directive);
}

proof fn lemma_same_evidence(f: SqlFileFacts, g: SqlFileFacts, lines: Lines)
    requires
        agree(f, g),
        f.change_risk_evidence@ == g.change_risk_evidence@,
        f.procedural.evidence@ == g.procedural.evidence@,
        f.procedural.heaviest_unit == g.procedural.heaviest_unit,
        f.predicates.not_spans@ == g.predicates.not_spans@,
        f.procedural_units@.len() == g.procedural_units@.len(),
        forall|u: int|
            0 <= u < f.procedural_units@.len() ==> (#[trigger] f.procedural_units@[u])@
                == g.procedural_units@[u]@,
    ensures
        recorded(f, lines) == recorded(g, lines),
{
    if let Some(u) = f.procedural.heaviest_unit {
        if u < f.procedural_units@.len() {
            let a = f.procedural_units@[u as int];
            let b = g.procedural_units@[u as int];
            assert(a@.definition == b@.definition);
        }
    }
    assert(recorded(f, lines) =~= recorded(g, lines));
}

proof fn lemma_same_tree(
    text: Seq<char>,
    n: Seq<Node>,
    lines: Lines,
    complaints: Seq<Seq<char>>,
    emit: bool,
    other: bool,
    a: SqlAnalysis,
    b: SqlAnalysis,
)
    requires
        analyzes_tree(text, n, lines, complaints, emit, a),
        analyzes_tree(text, n, lines, complaints, other, b),
        a.dialect.seen() == b.dialect.seen(),
        directive_warning(a.dialect) == directive_warning(b.dialect),
    ensures
        a.seen().span == b.seen().span,
        a.seen().loc == b.seen().loc,
        a.seen().metrics == b.seen().metrics,
        a.seen().spaces == b.seen().spaces,
        a.seen().diagnostics == b.seen().diagnostics,
        emit == other ==> a.seen().contributions == b.seen().contributions,
        !other ==> b.seen().contributions.len() == 0,
{
    reveal(analyzes_tree);
    let kind = a.dialect.effective;
    assert(kind == a.dialect.seen().effective);
    assert(b.dialect.effective == kind);
    facts_are_determined(n, lines, 0, kind, emit, other, a.facts, b.facts);
    lemma_one_loc(n, lines, text, a.facts.statements@, a.loc, b.loc);
    metrics_are_determined(
        a.facts,
        b.facts,
        a.loc,
        a.dialect,
        b.dialect,
        a.metrics@,
        b.metrics@,
    );
    spaces_are_determined(
        a.facts.statements@,
        a.facts.procedural_units@,
        b.facts.procedural_units@,
        a.spaces@,
        b.spaces@,
    );
    if emit == other {
        lemma_same_evidence(a.facts, b.facts, lines);
    }
}

proof fn lemma_same_text(
    text: Seq<char>,
    complaints: int,
    failure: Option<Seq<char>>,
    a: SqlAnalysis,
    b: SqlAnalysis,
)
    requires
        analyzes_text(text, complaints, failure, a),
        analyzes_text(text, complaints, failure, b),
        a.dialect.seen() == b.dialect.seen(),
        directive_warning(a.dialect) == directive_warning(b.dialect),
    ensures
        a.seen() == b.seen(),
        b.seen().contributions.len() == 0,
{
    reveal(analyzes_text);
    assert(a.loc == b.loc);
    assert(a.facts.statements@ =~= b.facts.statements@);
    assert(a.facts.procedural.dynamic_sql_spans@ =~= b.facts.procedural.dynamic_sql_spans@);
    assert(agree(a.facts, b.facts));
    metrics_are_determined(
        a.facts,
        b.facts,
        a.loc,
        a.dialect,
        b.dialect,
        a.metrics@,
        b.metrics@,
    );
    assert(seen_spaces(a.spaces@) =~= seen_spaces(b.spaces@));
    assert(a.contributions@ =~= b.contributions@);
}

proof fn lemma_same_parse(
    text: Seq<char>,
    p: ParsedView,
    emit: bool,
    other: bool,
    a: SqlAnalysis,
    b: SqlAnalysis,
)
    requires
        resolves(text, None, a.dialect),
        resolves(text, None, b.dialect),
        analyzes(text, p, emit, a),
        analyzes(text, p, other, b),
    ensures
        a.seen().span == b.seen().span,
        a.seen().dialect == b.seen().dialect,
        a.seen().loc == b.seen().loc,
        a.seen().metrics == b.seen().metrics,
        a.seen().spaces == b.seen().spaces,
        a.seen().diagnostics == b.seen().diagnostics,
        emit == other ==> a.seen().contributions == b.seen().contributions,
        !other ==> b.seen().contributions.len() == 0,
{
    resolution_is_determined(text, a.dialect, b.dialect);
    match p.tree {
        Ok(Some(rows)) => lemma_same_tree(
            text,
            grown(rows),
            lines_in(text),
            p.lex_errors,
            emit,
            other,
            a,
            b,
        ),
        Ok(None) => lemma_same_text(text, p.lex_errors.len() as int, None, a, b),
        Err(why) => lemma_same_text(text, p.lex_errors.len() as int, Some(why), a, b),
    }
}

/// The same input gives the same output: two answers to one text say the same
/// in their metrics, spaces, contributions and diagnostics, or refuse it for the
/// same reason.
pub proof fn same_text_same_answer(
    text: Seq<char>,
    emit: bool,
    a: Result<SqlAnalysis, AnalysisError>,
    b: Result<SqlAnalysis, AnalysisError>,
)
    requires
        answers(text, emit, a),
        answers(text, emit, b),
    ensures
        match (a, b) {
            (Ok(x), Ok(y)) => x.seen() == y.seen(),
            (Err(x), Err(y)) => x == y,
            _ => false,
        },
{
    let p = parse_of(settled(text, None).spelled(), text);
    if let (Ok(x), Ok(y)) = (a, b) {
        lemma_same_parse(text, p, emit, emit, x, y);
    }
}

/// Asking for evidence changes nothing but the contributions; without evidence
/// there are none.
pub proof fn evidence_changes_no_metric(
    text: Seq<char>,
    a: Result<SqlAnalysis, AnalysisError>,
    b: Result<SqlAnalysis, AnalysisError>,
)
    requires
        answers(text, true, a),
        answers(text, false, b),
    ensures
        match (a, b) {
            (Ok(x), Ok(y)) => {
                &&& x.seen().metrics == y.seen().metrics
                &&& x.seen().spaces == y.seen().spaces
                &&& x.seen().diagnostics == y.seen().diagnostics
                &&& x.seen().dialect == y.seen().dialect
                &&& x.seen().loc == y.seen().loc
                &&& y.contributions@.len() == 0
            },
            (Err(x), Err(y)) => x == y,
            _ => false,
        },
{
    let p = parse_of(settled(text, None).spelled(), text);
    if let (Ok(x), Ok(y)) = (a, b) {
        lemma_same_parse(text, p, true, false, x, y);
    }
}

// ── contributions ──────────────────────────────────────────────────────

/// A metric's value in hundredths, where it is a number.
pub open spec fn in_hundredths(v: MetricView) -> int {
    match v {
        MetricView::Int(n) => 100 * n,
        MetricView::Ratio { num, den } => if den == 100 {
            num as int
        } else {
            0
        },
        _ => 0,
    }
}

/// Whether contributions are reported for a metric.
pub open spec fn is_explained(key: MetricKey) -> bool {
    key == MetricKey::ChangeRiskScore || key == MetricKey::PredicateNotCount || exists|m|
        #[trigger] key_of(m) == key
}

proof fn lemma_explained_value(f: SqlFileFacts, loc: SqlLoc, d: DialectResolution, key: MetricKey)
    requires
        is_explained(key),
    ensures
        in_hundredths(value_of(f, loc, d, key)) == explained(f, key),
{
    assert(f.procedural.dynamic_sql_spans.len() == f.procedural.dynamic_sql_spans@.len());
    assert(0 <= risk_score(f) <= u128::MAX);
}

/// The contributions to a text explain its metrics: they come in source order,
/// and what is reported for a metric adds up to its value. Nothing is reported
/// for a metric without contributions.
pub proof fn contributions_explain_the_metrics(text: Seq<char>, a: SqlAnalysis, i: int)
    requires
        answers(text, true, Ok(a)),
        0 <= i < a.metrics@.len(),
    ensures
        sorted(a.contributions@),
        amount_for(a.contributions@, a.metrics@[i].key) == if is_explained(a.metrics@[i].key) {
            in_hundredths(a.metrics@[i].value@)
        } else {
            0
        },
{
    let p = parse_of(settled(text, None).spelled(), text);
    let key = a.metrics@[i].key;
    reveal(analyzes_tree);
    reveal(analyzes_text);
    if is_explained(key) {
        lemma_explained_value(a.facts, a.loc, a.dialect, key);
    } else {
        assert(explained(a.facts, key) == 0) by {
            lemma_unexplained(a.facts, key);
        }
    }
    match p.tree {
        Ok(Some(rows)) => {
            let lines = lines_in(text);
            contributions_are_in_source_order(a.facts, lines, key);
            contributions_add_up(grown(rows), lines, 0, a.dialect.effective, a.facts, key);
        },
        _ => {
            assert(amount_for(a.contributions@, key) == 0);
            assert(explained(a.facts, key) == 0);
        },
    }
}

proof fn lemma_unexplained(f: SqlFileFacts, key: MetricKey)
    requires
        !is_explained(key),
    ensures
        explained(f, key) == 0,
{
    assert(key != key_of(ProceduralMetric::Cyclomatic));
    assert(key != key_of(ProceduralMetric::Cognitive));
    assert(key != key_of(ProceduralMetric::EmbeddedQueryMax));
    assert(key != key_of(ProceduralMetric::BlockCount));
    assert(key != key_of(ProceduralMetric::RoutineCount));
    assert(key != key_of(ProceduralMetric::LoopCount));
    assert(key != key_of(ProceduralMetric::IfCount));
    assert(key != key_of(ProceduralMetric::CaseStatementCount));
    assert(key != key_of(ProceduralMetric::ExceptionHandlerCount));
    assert(key != key_of(ProceduralMetric::ReturnCount));
    assert(key != key_of(ProceduralMetric::RaiseThrowCount));
    assert(key != key_of(ProceduralMetric::DynamicSqlCount));
    assert(key != key_of(ProceduralMetric::MaxBlockDepth));
}

/// A text as contributions lie in it.
pub open spec fn frame_of(text: Seq<char>) -> Frame {
    Frame { lines: lines_in(text), len: offset(text, text.len() as int) }
}

/// Rows that lie in a text grow into nodes that do.
proof fn lemma_grown_lie(rows: Seq<RowView>, f: Frame)
    requires
        is_one_tree(rows),
        rows.len() <= MAX_NODES,
        lie_in(rows, f.len),
        f.len <= u32::MAX,
    ensures
        f.holds_tree(grown(rows)),
{
    let n = grown(rows);
    assert forall|i: int| 0 <= i < n.len() implies ((#[trigger] n[i]).span matches Some(range)
        && range.0 <= range.1 <= f.len) by {
        assert(n[i] == node_of(rows, i));
        assert(rows[i].span is Some);
    }
    assert forall|i: int, j: int|
        #![trigger n[i], n[j]]
        0 <= i <= j < n.len() implies (n[i].span->0).0 <= (n[j].span->0).0 by {
        assert(n[i] == node_of(rows, i));
        assert(n[j] == node_of(rows, j));
        assert(rows[i].span is Some);
        assert(rows[j].span is Some);
    }
    lemma_well_formed(rows);
    assert forall|i: int, j: int|
        #![trigger n[i], n[j]]
        0 <= i < n.len() && i <= j < n[i].end implies (n[j].span->0).1 <= (n[i].span->0).1 by {
        assert(n[i] == node_of(rows, i));
        assert(n[j] == node_of(rows, j));
        assert(rows[i].span is Some);
        assert(rows[j].span is Some);
        lemma_after_fits(rows, i);
    }
}

/// Contributions lie in the text: each starts no later than it ends and ends no
/// later than the text, on lines that are counted from 1 and, unless it is
/// empty, do not run backwards.
pub proof fn contributions_have_their_place(text: Seq<char>, a: SqlAnalysis, i: int)
    requires
        answers(text, true, Ok(a)),
        0 <= i < a.contributions@.len(),
    ensures
        ({
            let s = a.contributions@[i].span;
            &&& s.start_byte <= s.end_byte <= offset(text, text.len() as int)
            &&& 1 <= s.start_line
            &&& 1 <= s.end_line
            &&& s.start_byte < s.end_byte ==> s.start_line <= s.end_line
        }),
{
    let p = parse_of(settled(text, None).spelled(), text);
    reveal(analyzes_tree);
    reveal(analyzes_text);
    if let Ok(Some(rows)) = p.tree {
        lemma_offset(text, text.len() as int);
        lemma_lines_wf(text, text.len() as int);
        lemma_well_formed(rows);
        lemma_grown_lie(rows, frame_of(text));
        contributions_lie_in_the_text(
            frame_of(text),
            grown(rows),
            0,
            a.dialect.effective,
            a.facts,
            i,
        );
    }
}

} // verus!
