//! What holds of the metrics of every file.

use vstd::prelude::*;

use crate::analyzer::{analyzes_text, SqlAnalysis};
use crate::clauses::{describes_aggregates, describes_cases, describes_set_ops, describes_windows};
use crate::composite::{
    cognitive_score, credit, maintainability_terms, mental_load, modularity_terms, review_terms,
    risk_score, structural_score, term, Share,
};
use crate::ctes::describes_ctes;
use crate::dialect::{guesses_are_cautious, resolves, DialectResolution};
use crate::facts::{describes_blocks, describes_file, source_of, within_bounds, SqlFileFacts};
use crate::grammar::DialectKind;
use crate::halstead::describes_halstead;
use crate::joins::{describes_joins, JoinFacts};
use crate::loc::{describes_loc, SqlLoc};
use crate::metric_key::{kind_at, kind_rank, lemma_kind_rank, MetricKey, STATEMENT_KINDS};
use crate::metrics::{
    describes_metrics, kind_tally, metric_at, seen_metrics, value_of, Metric, MetricView,
};
use crate::object_scan::touched_objects_are_read_or_written;
use crate::objects::{describes_objects, ObjectFacts};
use crate::output::{
    derived_expressions_split, describes_output, multi_columns_of, multi_unqualified_of,
    own_columns, unqualified, OutputFacts,
};
use crate::predicates::PredicateFacts;
use crate::procedural::{describes_unit, ProceduralFacts};
use crate::query_shape::{query_shape, structural};
use crate::span::Lines;
use crate::statements::StatementFacts;
use crate::subqueries::{describes_expressions, describes_subqueries, selects_in};
use crate::tree::{lemma_count_bound, sum, Node};

verus! {

// ── statement kinds ────────────────────────────────────────────────────

/// The statements of the first `k` kinds, added up.
pub open spec fn tallied(s: Seq<StatementFacts>, k: int) -> int
    decreases k,
{
    if k <= 0 {
        0
    } else {
        tallied(s, k - 1) + kind_tally(s, kind_at(k - 1))
    }
}

proof fn lemma_tallied_step(s: Seq<StatementFacts>, k: int)
    requires
        s.len() > 0,
        0 <= k <= STATEMENT_KINDS,
    ensures
        tallied(s, k) == tallied(s.drop_last(), k) + if kind_rank(s.last().kind) < k {
            1int
        } else {
            0
        },
    decreases k,
{
    lemma_kind_rank(s.last().kind);
    if k > 0 {
        lemma_tallied_step(s, k - 1);
        if kind_at(k - 1) == s.last().kind {
            assert(kind_rank(kind_at(k - 1)) == k - 1);
        }
    }
}

/// Every statement is of exactly one kind: the counts of the kinds add up to the
/// number of statements.
pub proof fn kinds_add_up(s: Seq<StatementFacts>)
    ensures
        tallied(s, STATEMENT_KINDS as int) == s.len(),
    decreases s.len(),
{
    if s.len() > 0 {
        kinds_add_up(s.drop_last());
        lemma_tallied_step(s, STATEMENT_KINDS as int);
        lemma_kind_rank(s.last().kind);
    } else {
        lemma_tallied_none(s, STATEMENT_KINDS as int);
    }
}

proof fn lemma_tallied_none(s: Seq<StatementFacts>, k: int)
    requires
        s.len() == 0,
    ensures
        tallied(s, k) == 0,
    decreases k,
{
    if k > 0 {
        lemma_tallied_none(s, k - 1);
    }
}

// ── shares ─────────────────────────────────────────────────────────────

/// Whether a value is a number between zero and one.
pub open spec fn is_share(v: MetricView) -> bool {
    v matches MetricView::Ratio { num, den } && den > 0 && num <= den
}

/// The metrics that are shares of something.
pub open spec fn is_share_key(key: MetricKey) -> bool {
    ||| key == MetricKey::LocCommentDensity
    ||| key == MetricKey::SetOpUnionAllRatio
    ||| key == MetricKey::SelectOutputAliasCoverage
    ||| key == MetricKey::IdentifierUnqualifiedColumnRatio
    ||| key == MetricKey::DialectConfidence
    ||| key == MetricKey::ParserUnparsableRatio
}

proof fn lemma_unqualified_bound(n: Seq<Node>, s: Seq<usize>)
    ensures
        sum(s, multi_unqualified_of(n)) <= sum(s, multi_columns_of(n)),
    decreases s.len(),
{
    if s.len() > 0 {
        lemma_unqualified_bound(n, s.drop_last());
        lemma_count_bound(own_columns(n, s.last() as int), unqualified(n));
    }
}

proof fn lemma_is_share(f: SqlFileFacts, loc: SqlLoc, d: DialectResolution, key: MetricKey)
    requires
        is_share_key(key),
        d.confidence <= 100,
        f.output.aliased_derived_expression_count <= f.output.derived_expression_count,
        f.output.multi_relation_unqualified_refs <= f.output.multi_relation_column_refs,
    ensures
        is_share(value_of(f, loc, d, key)),
{
}

proof fn lemma_output_shares(n: Seq<Node>, root: int, r: OutputFacts)
    requires
        describes_output(n, root, r),
    ensures
        r.aliased_derived_expression_count <= r.derived_expression_count,
        r.multi_relation_unqualified_refs <= r.multi_relation_column_refs,
{
    derived_expressions_split(n, root, r);
    lemma_unqualified_bound(n, selects_in(n, root));
}

/// Densities, ratios, coverage and confidence lie between zero and one.
pub proof fn shares_are_shares(
    n: Seq<Node>,
    lines: Lines,
    root: int,
    emit: bool,
    f: SqlFileFacts,
    loc: SqlLoc,
    text: Seq<char>,
    requested: Option<DialectKind>,
    d: DialectResolution,
    key: MetricKey,
)
    requires
        describes_file(n, lines, root, d.effective, emit, f),
        resolves(text, requested, d),
        is_share_key(key),
    ensures
        is_share(value_of(f, loc, d, key)),
{
    assert(f.output.aliased_derived_expression_count <= f.output.derived_expression_count
        && f.output.multi_relation_unqualified_refs <= f.output.multi_relation_column_refs) by {
        lemma_output_shares(n, root, f.output);
    }
    assert(d.confidence <= 100) by {
        guesses_are_cautious(text);
    }
    lemma_is_share(f, loc, d, key);
}

// ── scores ─────────────────────────────────────────────────────────────

/// Whether a share lies between zero and one.
pub open spec fn is_proper(s: Share) -> bool {
    match s {
        Share::Ratio { num, den } => den > 0 && num <= den,
        Share::Volume { scale, .. } => scale > 0,
    }
}

/// The terms of every index are proper shares, so that an index depends on each
/// of its parts by no more than the part's weight.
pub proof fn index_terms_are_proper(f: SqlFileFacts, loc: SqlLoc, conflicts: int, i: int)
    requires
        0 <= conflicts <= u8::MAX,
        within_bounds(f),
    ensures
        0 <= i < review_terms(f, loc, conflicts).len() ==> is_proper(
            review_terms(f, loc, conflicts)[i].share,
        ),
        0 <= i < maintainability_terms(f, conflicts).len() ==> is_proper(
            maintainability_terms(f, conflicts)[i].share,
        ),
        0 <= i < modularity_terms(f).len() ==> is_proper(modularity_terms(f)[i].share),
{
    lemma_scores_fit(f);
}

proof fn lemma_scores_fit(f: SqlFileFacts)
    requires
        within_bounds(f),
    ensures
        0 <= cognitive_score(f) <= 0x0800_0000_0000_0000_0000_0000_0000,
        0 <= structural_score(f) <= 0x0800_0000_0000_0000_0000_0000_0000,
        0 <= risk_score(f) <= 0x0800_0000_0000_0000_0000_0000_0000,
{
    assert(f.procedural.dynamic_sql_spans.len() == f.procedural.dynamic_sql_spans@.len());
}

/// What common table expressions take off the cognitive score is at most five
/// points, and the score never falls below zero.
pub proof fn credit_is_capped(f: SqlFileFacts)
    ensures
        0 <= credit(f.ctes) <= 20,
        0 <= cognitive_score(f),
        mental_load(f) - 20 <= cognitive_score(f) <= mental_load(f),
{
}

/// The structural score of a file is that of its syntax tree taken as one query.
pub proof fn structural_score_is_of_the_tree(
    n: Seq<Node>,
    lines: Lines,
    root: int,
    kind: DialectKind,
    emit: bool,
    f: SqlFileFacts,
)
    requires
        describes_file(n, lines, root, kind, emit, f),
    ensures
        structural_score(f) == structural(query_shape(n, root)),
{
    reveal(query_shape);
}

// ── evidence and metrics ───────────────────────────────────────────────

/// Whether two files agree in everything that metrics are computed from.
pub open spec fn agree(f: SqlFileFacts, g: SqlFileFacts) -> bool {
    &&& f.statements@ == g.statements@
    &&& agree_in_flow(f.procedural, g.procedural)
    &&& f.query_block_count == g.query_block_count
    &&& f.query_block_max_depth == g.query_block_max_depth
    &&& f.select_item_total == g.select_item_total
    &&& f.select_item_max == g.select_item_max
    &&& f.joins == g.joins
    &&& f.subqueries == g.subqueries
    &&& agree_in_predicates(f.predicates, g.predicates)
    &&& f.cases == g.cases
    &&& f.aggregates == g.aggregates
    &&& f.windows == g.windows
    &&& f.set_ops == g.set_ops
    &&& f.expressions == g.expressions
    &&& f.output == g.output
    &&& f.ctes == g.ctes
    &&& f.objects == g.objects
    &&& f.halstead == g.halstead
    &&& f.relation_ref_count == g.relation_ref_count
    &&& f.unparsable_segments == g.unparsable_segments
    &&& f.unparsable_lines == g.unparsable_lines
    &&& f.lex_error_count == g.lex_error_count
}

pub open spec fn agree_in_flow(a: ProceduralFacts, b: ProceduralFacts) -> bool {
    &&& a.block_count == b.block_count
    &&& a.routine_count == b.routine_count
    &&& a.cyclomatic_complexity == b.cyclomatic_complexity
    &&& a.cognitive_complexity == b.cognitive_complexity
    &&& a.max_block_depth == b.max_block_depth
    &&& a.loop_count == b.loop_count
    &&& a.if_count == b.if_count
    &&& a.case_statement_count == b.case_statement_count
    &&& a.exception_handler_count == b.exception_handler_count
    &&& a.return_count == b.return_count
    &&& a.raise_throw_count == b.raise_throw_count
    &&& a.dynamic_sql_count == b.dynamic_sql_count
    &&& a.dynamic_sql_spans@ == b.dynamic_sql_spans@
    &&& a.max_embedded_query_structural == b.max_embedded_query_structural
}

pub open spec fn agree_in_predicates(a: PredicateFacts, b: PredicateFacts) -> bool {
    &&& a.boolean_operator_count == b.boolean_operator_count
    &&& a.max_boolean_depth == b.max_boolean_depth
    &&& a.not_count == b.not_count
    &&& a.comparison_count == b.comparison_count
    &&& a.null_semantics_risk_count == b.null_semantics_risk_count
}

proof fn lemma_one_join(n: Seq<Node>, root: int, a: JoinFacts, b: JoinFacts)
    requires
        describes_joins(n, root, a),
        describes_joins(n, root, b),
    ensures
        a == b,
{
}

proof fn lemma_one_clause(n: Seq<Node>, root: int, f: SqlFileFacts, g: SqlFileFacts)
    requires
        describes_set_ops(n, root, f.set_ops),
        describes_set_ops(n, root, g.set_ops),
        describes_cases(n, root, f.cases),
        describes_cases(n, root, g.cases),
        describes_windows(n, root, f.windows),
        describes_windows(n, root, g.windows),
        describes_aggregates(n, root, f.aggregates),
        describes_aggregates(n, root, g.aggregates),
    ensures
        f.set_ops == g.set_ops,
        f.cases == g.cases,
        f.windows == g.windows,
        f.aggregates == g.aggregates,
{
}

proof fn lemma_one_query(n: Seq<Node>, root: int, f: SqlFileFacts, g: SqlFileFacts)
    requires
        describes_subqueries(n, root, f.subqueries),
        describes_subqueries(n, root, g.subqueries),
        describes_expressions(n, root, f.expressions),
        describes_expressions(n, root, g.expressions),
        describes_output(n, root, f.output),
        describes_output(n, root, g.output),
        describes_ctes(n, root, f.ctes),
        describes_ctes(n, root, g.ctes),
        describes_halstead(n, root, f.halstead),
        describes_halstead(n, root, g.halstead),
        describes_blocks(n, root, f),
        describes_blocks(n, root, g),
    ensures
        f.subqueries == g.subqueries,
        f.expressions == g.expressions,
        f.output == g.output,
        f.ctes == g.ctes,
        f.halstead == g.halstead,
        f.query_block_count == g.query_block_count,
        f.query_block_max_depth == g.query_block_max_depth,
        f.select_item_total == g.select_item_total,
        f.select_item_max == g.select_item_max,
{
}

proof fn lemma_one_effect(
    n: Seq<Node>,
    lines: Lines,
    root: int,
    s: Seq<usize>,
    facts: Seq<StatementFacts>,
    a: ObjectFacts,
    b: ObjectFacts,
)
    requires
        describes_objects(n, lines, root, s, facts, a),
        describes_objects(n, lines, root, s, facts, b),
    ensures
        a == b,
{
}

/// Facts of one file agree in what metrics are computed from, whether or not
/// evidence is asked for.
pub proof fn facts_are_determined(
    n: Seq<Node>,
    lines: Lines,
    root: int,
    kind: DialectKind,
    emit: bool,
    other: bool,
    f: SqlFileFacts,
    g: SqlFileFacts,
)
    requires
        describes_file(n, lines, root, kind, emit, f),
        describes_file(n, lines, root, kind, other, g),
        f.lex_error_count == g.lex_error_count,
    ensures
        agree(f, g),
        f.procedural_units@.len() == g.procedural_units@.len(),
        forall|u: int|
            0 <= u < f.procedural_units@.len() ==> (#[trigger] f.procedural_units@[u])@
                == g.procedural_units@[u]@,
        f.procedural.heaviest_unit == g.procedural.heaviest_unit,
        f.predicates.not_spans@ == g.predicates.not_spans@,
{
    let src = source_of(n, lines, root, kind);
    lemma_one_join(n, root, f.joins, g.joins);
    lemma_one_clause(n, root, f, g);
    lemma_one_query(n, root, f, g);
    lemma_one_effect(n, lines, root, src.statements, src.facts, f.objects, g.objects);
    assert forall|u: int| 0 <= u < f.procedural_units@.len() implies (
    #[trigger] f.procedural_units@[u])@ == g.procedural_units@[u]@ by {
        assert(describes_unit(src, root, u, f.procedural_units@[u]));
        assert(describes_unit(src, root, u, g.procedural_units@[u]));
    }
}

/// Asking for evidence changes nothing that metrics are computed from.
pub proof fn evidence_changes_no_fact(
    n: Seq<Node>,
    lines: Lines,
    root: int,
    kind: DialectKind,
    f: SqlFileFacts,
    g: SqlFileFacts,
)
    requires
        describes_file(n, lines, root, kind, true, f),
        describes_file(n, lines, root, kind, false, g),
        f.lex_error_count == g.lex_error_count,
    ensures
        agree(f, g),
        g.change_risk_evidence@.len() == 0,
        g.object_evidence@.len() == 0,
        g.procedural.evidence@.len() == 0,
{
    facts_are_determined(n, lines, root, kind, true, false, f, g);
}

/// Asking for evidence changes no object count, leaves no evidence where none is
/// asked for, and every object that is read or written is touched, once.
pub proof fn object_counts_need_no_evidence(
    n: Seq<Node>,
    lines: Lines,
    root: int,
    kind: DialectKind,
    f: SqlFileFacts,
    g: SqlFileFacts,
)
    requires
        describes_file(n, lines, root, kind, true, f),
        describes_file(n, lines, root, kind, false, g),
    ensures
        f.objects == g.objects,
        g.change_risk_evidence@.len() == 0,
        g.object_evidence@.len() == 0,
        f.objects.read_object_count <= f.objects.touch_count,
        f.objects.write_object_count <= f.objects.touch_count,
        f.objects.touch_count <= f.objects.read_object_count + f.objects.write_object_count,
{
    let src = source_of(n, lines, root, kind);
    lemma_one_effect(n, lines, root, src.statements, src.facts, f.objects, g.objects);
    touched_objects_are_read_or_written(
        n,
        lines,
        root,
        src.statements,
        src.facts,
        f.objects,
    );
}

proof fn lemma_same_scores(f: SqlFileFacts, g: SqlFileFacts, loc: SqlLoc, conflicts: int)
    requires
        agree(f, g),
    ensures
        structural_score(f) == structural_score(g),
        cognitive_score(f) == cognitive_score(g),
        risk_score(f) == risk_score(g),
        review_terms(f, loc, conflicts) == review_terms(g, loc, conflicts),
        maintainability_terms(f, conflicts) == maintainability_terms(g, conflicts),
        modularity_terms(f) == modularity_terms(g),
{
    assert(structural_score(f) == structural_score(g));
    assert(cognitive_score(f) == cognitive_score(g));
    assert(risk_score(f) == risk_score(g));
}

/// Files that agree in what metrics are computed from have the same metrics.
pub proof fn facts_determine_metrics(
    f: SqlFileFacts,
    g: SqlFileFacts,
    loc: SqlLoc,
    d: DialectResolution,
    e: DialectResolution,
    key: MetricKey,
)
    requires
        agree(f, g),
        d.seen() == e.seen(),
    ensures
        value_of(f, loc, d, key) == value_of(g, loc, e, key),
{
    assert(d.seen().directive is Some <==> d.directive is Some);
    assert(e.seen().directive is Some <==> e.directive is Some);
    lemma_same_scores(f, g, loc, d.conflict_count as int);
}

/// Files that agree in what metrics are computed from have the same metrics.
pub proof fn metrics_are_determined(
    f: SqlFileFacts,
    g: SqlFileFacts,
    loc: SqlLoc,
    d: DialectResolution,
    e: DialectResolution,
    a: Seq<Metric>,
    b: Seq<Metric>,
)
    requires
        agree(f, g),
        d.seen() == e.seen(),
        describes_metrics(f, loc, d, a),
        describes_metrics(g, loc, e, b),
    ensures
        seen_metrics(a) == seen_metrics(b),
{
    assert forall|i: int| 0 <= i < a.len() implies (#[trigger] a[i]).seen() == b[i].seen() by {
        assert(metric_at(d, i) == metric_at(e, i));
        facts_determine_metrics(f, g, loc, d, e, metric_at(d, i));
    }
    assert(seen_metrics(a) =~= seen_metrics(b));
}

pub proof fn lemma_one_loc(
    n: Seq<Node>,
    lines: Lines,
    text: Seq<char>,
    facts: Seq<StatementFacts>,
    a: SqlLoc,
    b: SqlLoc,
)
    requires
        describes_loc(n, lines, 0, text, facts, a),
        describes_loc(n, lines, 0, text, facts, b),
    ensures
        a == b,
{
}

/// A file that the parser gave up on does not look healthy: all of it counts as
/// unparsable, and its maintainability suffers.
pub proof fn failed_parses_show(text: Seq<char>, complaints: int, why: Seq<char>, a: SqlAnalysis)
    requires
        analyzes_text(text, complaints, Some(why), a),
    ensures
        value_of(a.facts, a.loc, a.dialect, MetricKey::ParserUnparsableRatio) matches MetricView::Ratio {
            num,
            den,
        } && num == den && den > 0,
        value_of(a.facts, a.loc, a.dialect, MetricKey::ParserDiagnosticCount) matches MetricView::Int(
            count,
        ) && count >= 1,
        maintainability_terms(a.facts, a.dialect.conflict_count as int)[7] == term(
            -5,
            Share::Ratio { num: 1, den: 6 },
        ),
{
    reveal(analyzes_text);
}

} // verus!
