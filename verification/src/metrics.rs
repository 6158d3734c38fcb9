//! The metrics of a file, exact: numbers that need rounding are published as
//! what they are computed from.

use vstd::prelude::*;

use crate::composite::{
    cognitive_score, compute, describes_scores, maintainability_terms, modularity_terms,
    review_terms, risk_score, structural_score, CompositeScores, Term,
};
use crate::dialect::DialectResolution;
use crate::facts::{within_bounds, SqlFileFacts};
use crate::halstead::HalsteadFacts;
use crate::loc::SqlLoc;
use crate::metric_key::{
    fixed_key, fixed_keys_are_distinct, key_at, kind_at, statement_kind, MetricKey, FIXED_KEYS,
    STATEMENT_KINDS,
};
use crate::span::MAX_TEXT;
use crate::statements::{StatementFacts, StatementKind};
use crate::tree::MAX_NODES;

verus! {

/// The value of a metric.
pub enum MetricValue {
    Int(u128),
    /// The quotient of two numbers.
    Ratio { num: u128, den: u128 },
    /// The Halstead volume: the length times the binary logarithm of the
    /// vocabulary, nothing for an empty one.
    Volume { length: u64, vocabulary: u64 },
    /// A Halstead volume times the quotient of two numbers.
    Effort { num: u128, den: u128, length: u64, vocabulary: u64 },
    /// The entropy of a distribution, as a share of the most that as many kinds
    /// can have; nothing for a single kind.
    Entropy(Vec<u64>),
    /// The sum of the terms between zero and one, as a percentage.
    Index(Vec<Term>),
}

/// What a value says.
pub ghost enum MetricView {
    Int(u128),
    Ratio { num: u128, den: u128 },
    Volume { length: u64, vocabulary: u64 },
    Effort { num: u128, den: u128, length: u64, vocabulary: u64 },
    Entropy(Seq<u64>),
    Index(Seq<Term>),
}

impl View for MetricValue {
    type V = MetricView;

    open spec fn view(&self) -> MetricView {
        match *self {
            MetricValue::Int(n) => MetricView::Int(n),
            MetricValue::Ratio { num, den } => MetricView::Ratio { num, den },
            MetricValue::Volume { length, vocabulary } => MetricView::Volume { length, vocabulary },
            MetricValue::Effort { num, den, length, vocabulary } => MetricView::Effort {
                num,
                den,
                length,
                vocabulary,
            },
            MetricValue::Entropy(counts) => MetricView::Entropy(counts@),
            MetricValue::Index(terms) => MetricView::Index(terms@),
        }
    }
}

/// A metric with its value.
pub struct Metric {
    pub key: MetricKey,
    pub value: MetricValue,
}

impl Metric {
    /// The key and what the value says.
    pub open spec fn seen(self) -> (MetricKey, MetricView) {
        (self.key, self.value@)
    }
}

/// What metrics say.
pub open spec fn seen_metrics(s: Seq<Metric>) -> Seq<(MetricKey, MetricView)> {
    Seq::new(s.len(), |i: int| s[i].seen())
}

/// A quotient, nothing out of nothing.
pub open spec fn ratio(num: int, den: int) -> MetricView {
    if den == 0 {
        MetricView::Ratio { num: 0, den: 1 }
    } else {
        MetricView::Ratio { num: num as u128, den: den as u128 }
    }
}

// ── statement kinds ────────────────────────────────────────────────────

/// How many statements are of a kind.
pub open spec fn kind_tally(s: Seq<StatementFacts>, kind: StatementKind) -> int
    decreases s.len(),
{
    if s.len() == 0 {
        0
    } else {
        kind_tally(s.drop_last(), kind) + if s.last().kind == kind {
            1int
        } else {
            0int
        }
    }
}

/// How many of the first `k` kinds have a statement.
pub open spec fn kinds_present(s: Seq<StatementFacts>, k: int) -> int
    decreases k,
{
    if k <= 0 {
        0
    } else {
        kinds_present(s, k - 1) + if kind_tally(s, kind_at(k - 1)) > 0 {
            1int
        } else {
            0int
        }
    }
}

/// How many statements each kind has.
pub open spec fn kind_counts(s: Seq<StatementFacts>) -> Seq<u64> {
    Seq::new(STATEMENT_KINDS as nat, |i: int| kind_tally(s, kind_at(i)) as u64)
}

// ── Halstead ───────────────────────────────────────────────────────────

pub open spec fn volume(h: HalsteadFacts) -> MetricView {
    MetricView::Volume {
        length: (h.total_operators + h.total_operands) as u64,
        vocabulary: (h.distinct_operators + h.distinct_operands) as u64,
    }
}

/// Half the operators times how often an operand is used.
pub open spec fn effort(h: HalsteadFacts) -> MetricView {
    MetricView::Effort {
        num: if h.distinct_operands == 0 {
            0
        } else {
            (h.distinct_operators * h.total_operands) as u128
        },
        den: if h.distinct_operands == 0 {
            1
        } else {
            (2 * h.distinct_operands) as u128
        },
        length: (h.total_operators + h.total_operands) as u64,
        vocabulary: (h.distinct_operators + h.distinct_operands) as u64,
    }
}

// ── values ─────────────────────────────────────────────────────────────

/// The value of a fixed metric of a file.
pub open spec fn fixed_value(
    f: SqlFileFacts,
    loc: SqlLoc,
    d: DialectResolution,
    key: MetricKey,
) -> MetricView {
    match key {
        MetricKey::AggregateDistinctCount => MetricView::Int(f.aggregates.distinct_count as u128),
        MetricKey::AggregateFunctionCount => MetricView::Int(f.aggregates.function_count as u128),
        MetricKey::AliasTableAliasCount => MetricView::Int(f.output.table_alias_count as u128),
        MetricKey::CaseCount => MetricView::Int(f.cases.count as u128),
        MetricKey::CaseMaxDepth => MetricView::Int(f.cases.max_depth as u128),
        MetricKey::CaseMaxWhenCount => MetricView::Int(f.cases.max_when_count as u128),
        MetricKey::CaseMissingElseCount => MetricView::Int(f.cases.missing_else_count as u128),
        MetricKey::CaseWhenCount => MetricView::Int(f.cases.when_count as u128),
        MetricKey::CastCount => MetricView::Int(f.expressions.cast_count as u128),
        MetricKey::ChangeRiskScore => MetricView::Int(risk_score(f) as u128),
        MetricKey::CognitiveComplexity => MetricView::Ratio {
            num: cognitive_score(f) as u128,
            den: 4,
        },
        MetricKey::CteCount => MetricView::Int(f.ctes.count as u128),
        MetricKey::CteDependencyEdges => MetricView::Int(f.ctes.dependency_edges as u128),
        MetricKey::CteMaxDependencyDepth => MetricView::Int(f.ctes.max_dependency_depth as u128),
        MetricKey::CteMaxFanOut => MetricView::Int(f.ctes.max_fan_out as u128),
        MetricKey::CteRecursiveCount => MetricView::Int(f.ctes.recursive_count as u128),
        MetricKey::CteTrivialCount => MetricView::Int(f.ctes.trivial_count as u128),
        MetricKey::CteUnusedCount => MetricView::Int(f.ctes.unused_count as u128),
        MetricKey::DclGrantRevokeCount => MetricView::Int(f.objects.grant_revoke_count as u128),
        MetricKey::DdlAlterCount => MetricView::Int(f.objects.alter_count as u128),
        MetricKey::DdlCreateCount => MetricView::Int(f.objects.create_count as u128),
        MetricKey::DdlCreateOrReplaceCount => MetricView::Int(
            f.objects.create_or_replace_count as u128,
        ),
        MetricKey::DdlDropCount => MetricView::Int(f.objects.drop_count as u128),
        MetricKey::DdlTruncateCount => MetricView::Int(f.objects.truncate_count as u128),
        MetricKey::DerivedTableCount => MetricView::Int(f.subqueries.derived_table_count as u128),
        MetricKey::DialectConfidence => ratio(d.confidence as int, 100),
        MetricKey::DialectConflictCount => MetricView::Int(d.conflict_count as u128),
        MetricKey::DialectDirectivePresent => MetricView::Int(
            if d.directive is Some {
                1
            } else {
                0
            },
        ),
        MetricKey::DialectRequested => MetricView::Int(if d.requested is Some { 1 } else { 0 }),
        MetricKey::DmlDeleteCount => MetricView::Int(f.objects.delete_count as u128),
        MetricKey::DmlDeleteWithoutWhereCount => MetricView::Int(
            f.objects.delete_without_where_count as u128,
        ),
        MetricKey::DmlInsertCount => MetricView::Int(f.objects.insert_count as u128),
        MetricKey::DmlMergeCount => MetricView::Int(f.objects.merge_count as u128),
        MetricKey::DmlReturningCount => MetricView::Int(f.objects.returning_count as u128),
        MetricKey::DmlUpdateCount => MetricView::Int(f.objects.update_count as u128),
        MetricKey::DmlUpdateWithoutWhereCount => MetricView::Int(
            f.objects.update_without_where_count as u128,
        ),
        MetricKey::ExpressionMaxDepth => MetricView::Int(f.expressions.max_depth as u128),
        MetricKey::FunctionCallCount => MetricView::Int(f.expressions.function_call_count as u128),
        MetricKey::FunctionDistinctCount => MetricView::Int(
            f.expressions.distinct_function_count as u128,
        ),
        MetricKey::FunctionNestedCallDepth => MetricView::Int(
            f.expressions.max_function_nesting as u128,
        ),
        MetricKey::GroupByCount => MetricView::Int(f.aggregates.group_by_count as u128),
        MetricKey::GroupByCubeCount => MetricView::Int(f.aggregates.cube_count as u128),
        MetricKey::GroupByGroupingSetsCount => MetricView::Int(
            f.aggregates.grouping_sets_count as u128,
        ),
        MetricKey::GroupByRollupCount => MetricView::Int(f.aggregates.rollup_count as u128),
        MetricKey::HalsteadDifficulty => ratio(
            f.halstead.distinct_operators * f.halstead.total_operands,
            2 * f.halstead.distinct_operands,
        ),
        MetricKey::HalsteadDistinctOperands => MetricView::Int(
            f.halstead.distinct_operands as u128,
        ),
        MetricKey::HalsteadDistinctOperators => MetricView::Int(
            f.halstead.distinct_operators as u128,
        ),
        MetricKey::HalsteadEffort => effort(f.halstead),
        MetricKey::HalsteadLength => MetricView::Int(
            (f.halstead.total_operators + f.halstead.total_operands) as u128,
        ),
        MetricKey::HalsteadTotalOperands => MetricView::Int(f.halstead.total_operands as u128),
        MetricKey::HalsteadTotalOperators => MetricView::Int(f.halstead.total_operators as u128),
        MetricKey::HalsteadVocabulary => MetricView::Int(
            (f.halstead.distinct_operators + f.halstead.distinct_operands) as u128,
        ),
        MetricKey::HalsteadVolume => volume(f.halstead),
        MetricKey::HavingCount => MetricView::Int(f.aggregates.having_count as u128),
        MetricKey::IdentifierQuotedCount => MetricView::Int(
            f.output.quoted_identifier_count as u128,
        ),
        MetricKey::IdentifierUnqualifiedColumnRatio => ratio(
            f.output.multi_relation_unqualified_refs as int,
            f.output.multi_relation_column_refs as int,
        ),
        MetricKey::JoinCount => MetricView::Int(f.joins.total as u128),
        MetricKey::JoinCrossCount => MetricView::Int(f.joins.cross as u128),
        MetricKey::JoinKindCountCross => MetricView::Int(f.joins.cross as u128),
        MetricKey::JoinKindCountFull => MetricView::Int(f.joins.full as u128),
        MetricKey::JoinKindCountInner => MetricView::Int(f.joins.inner as u128),
        MetricKey::JoinKindCountLateral => MetricView::Int(f.joins.lateral as u128),
        MetricKey::JoinKindCountLeft => MetricView::Int(f.joins.left as u128),
        MetricKey::JoinKindCountNatural => MetricView::Int(f.joins.natural as u128),
        MetricKey::JoinKindCountRight => MetricView::Int(f.joins.right as u128),
        MetricKey::JoinMissingConditionCount => MetricView::Int(f.joins.missing_condition as u128),
        MetricKey::JoinNaturalCount => MetricView::Int(f.joins.natural as u128),
        MetricKey::JoinNonEquiCount => MetricView::Int(f.joins.non_equi as u128),
        MetricKey::JoinOuterCount => MetricView::Int(
            (f.joins.left + f.joins.right + f.joins.full) as u128,
        ),
        MetricKey::LocAvgStatementLines => ratio(
            loc.total_statement_lines as int,
            loc.logical as int,
        ),
        MetricKey::LocBlank => MetricView::Int(loc.blank as u128),
        MetricKey::LocCode => MetricView::Int(loc.code as u128),
        MetricKey::LocComment => MetricView::Int(loc.comment as u128),
        MetricKey::LocCommentDensity => ratio(loc.comment as int, loc.code + loc.comment),
        MetricKey::LocLogical => MetricView::Int(loc.logical as u128),
        MetricKey::LocMaxStatementLines => MetricView::Int(loc.max_statement_lines as u128),
        MetricKey::LocPhysical => MetricView::Int(loc.physical as u128),
        MetricKey::MaintainabilityIndex => MetricView::Index(
            maintainability_terms(f, d.conflict_count as int),
        ),
        MetricKey::ModularityHealth => MetricView::Index(modularity_terms(f)),
        MetricKey::ObjectReadCount => MetricView::Int(f.objects.read_object_count as u128),
        MetricKey::ObjectTouchCount => MetricView::Int(f.objects.touch_count as u128),
        MetricKey::ObjectWriteCount => MetricView::Int(f.objects.write_object_count as u128),
        MetricKey::ParserDiagnosticCount => MetricView::Int(
            (f.unparsable_segments + f.lex_error_count) as u128,
        ),
        MetricKey::ParserUnparsableLineCount => MetricView::Int(f.unparsable_lines as u128),
        MetricKey::ParserUnparsableRatio => ratio(
            f.unparsable_lines as int,
            if loc.code > f.unparsable_lines {
                loc.code as int
            } else {
                f.unparsable_lines as int
            },
        ),
        MetricKey::ParserUnparsableSegmentCount => MetricView::Int(f.unparsable_segments as u128),
        MetricKey::PredicateBooleanOperatorCount => MetricView::Int(
            f.predicates.boolean_operator_count as u128,
        ),
        MetricKey::PredicateComparisonCount => MetricView::Int(
            f.predicates.comparison_count as u128,
        ),
        MetricKey::PredicateMaxBooleanDepth => MetricView::Int(
            f.predicates.max_boolean_depth as u128,
        ),
        MetricKey::PredicateNotCount => MetricView::Int(f.predicates.not_count as u128),
        MetricKey::PredicateNullSemanticsRiskCount => MetricView::Int(
            f.predicates.null_semantics_risk_count as u128,
        ),
        MetricKey::ProceduralBlockCount => MetricView::Int(f.procedural.block_count as u128),
        MetricKey::ProceduralCaseStatementCount => MetricView::Int(
            f.procedural.case_statement_count as u128,
        ),
        MetricKey::ProceduralCognitiveComplexity => MetricView::Int(
            f.procedural.cognitive_complexity as u128,
        ),
        MetricKey::ProceduralCyclomaticComplexity => MetricView::Int(
            f.procedural.cyclomatic_complexity as u128,
        ),
        MetricKey::ProceduralDynamicSqlCount => MetricView::Int(
            f.procedural.dynamic_sql_count as u128,
        ),
        MetricKey::ProceduralExceptionHandlerCount => MetricView::Int(
            f.procedural.exception_handler_count as u128,
        ),
        MetricKey::ProceduralIfCount => MetricView::Int(f.procedural.if_count as u128),
        MetricKey::ProceduralLoopCount => MetricView::Int(f.procedural.loop_count as u128),
        MetricKey::ProceduralMaxBlockDepth => MetricView::Int(f.procedural.max_block_depth as u128),
        MetricKey::ProceduralRaiseThrowCount => MetricView::Int(
            f.procedural.raise_throw_count as u128,
        ),
        MetricKey::ProceduralReturnCount => MetricView::Int(f.procedural.return_count as u128),
        MetricKey::ProceduralRoutineCount => MetricView::Int(f.procedural.routine_count as u128),
        MetricKey::QueryBlockAvgSelectItems => ratio(
            f.select_item_total as int,
            f.query_block_count as int,
        ),
        MetricKey::QueryBlockCount => MetricView::Int(f.query_block_count as u128),
        MetricKey::QueryBlockMaxDepth => MetricView::Int(f.query_block_max_depth as u128),
        MetricKey::QueryBlockMaxSelectItems => MetricView::Int(f.select_item_max as u128),
        MetricKey::RelationRefCount => MetricView::Int(f.relation_ref_count as u128),
        MetricKey::ReviewBurdenIndex => MetricView::Index(
            review_terms(f, loc, d.conflict_count as int),
        ),
        MetricKey::SelectExpressionWithoutAliasCount => MetricView::Int(
            f.output.expression_without_alias_count as u128,
        ),
        MetricKey::SelectOuterStarCount => MetricView::Int(f.output.outer_star_count as u128),
        MetricKey::SelectOutputAliasCoverage => if f.output.derived_expression_count == 0 {
            MetricView::Ratio { num: 1, den: 1 }
        } else {
            ratio(
                f.output.aliased_derived_expression_count as int,
                f.output.derived_expression_count as int,
            )
        },
        MetricKey::SelectStarCount => MetricView::Int(f.output.star_count as u128),
        MetricKey::SetOpCount => MetricView::Int(f.set_ops.count as u128),
        MetricKey::SetOpKindCountExcept => MetricView::Int(f.set_ops.except_count as u128),
        MetricKey::SetOpKindCountIntersect => MetricView::Int(f.set_ops.intersect_count as u128),
        MetricKey::SetOpKindCountUnion => MetricView::Int(f.set_ops.union_count as u128),
        MetricKey::SetOpKindCountUnionAll => MetricView::Int(f.set_ops.union_all_count as u128),
        MetricKey::SetOpUnionAllRatio => ratio(
            f.set_ops.union_all_count as int,
            f.set_ops.union_count + f.set_ops.union_all_count,
        ),
        MetricKey::StatementCount => MetricView::Int(f.statements@.len() as u128),
        MetricKey::StatementKindDistinct => MetricView::Int(
            kinds_present(f.statements@, STATEMENT_KINDS as int) as u128,
        ),
        MetricKey::StatementKindEntropy => MetricView::Entropy(kind_counts(f.statements@)),
        MetricKey::StatementUnparsedCount => MetricView::Int(
            kind_tally(f.statements@, StatementKind::Unknown) as u128,
        ),
        MetricKey::StructuralComplexity => MetricView::Ratio {
            num: structural_score(f) as u128,
            den: 100,
        },
        MetricKey::StructuralComplexityMaxEmbeddedQuery => MetricView::Ratio {
            num: f.procedural.max_embedded_query_structural,
            den: 100,
        },
        MetricKey::SubqueryCorrelatedCount => MetricView::Int(
            f.subqueries.correlated_count as u128,
        ),
        MetricKey::SubqueryCount => MetricView::Int(f.subqueries.count as u128),
        MetricKey::SubqueryExistsCount => MetricView::Int(f.subqueries.exists_count as u128),
        MetricKey::SubqueryInCount => MetricView::Int(f.subqueries.in_count as u128),
        MetricKey::SubqueryMaxDepth => MetricView::Int(f.subqueries.max_depth as u128),
        MetricKey::SubqueryScalarCount => MetricView::Int(f.subqueries.scalar_count as u128),
        MetricKey::TransactionControlCount => MetricView::Int(
            f.objects.transaction_control_count as u128,
        ),
        MetricKey::WindowFrameCount => MetricView::Int(f.windows.frame_count as u128),
        MetricKey::WindowFunctionCount => MetricView::Int(f.windows.function_count as u128),
        MetricKey::WindowOrderExpressionCount => MetricView::Int(
            f.windows.order_expression_count as u128,
        ),
        MetricKey::WindowPartitionExpressionCount => MetricView::Int(
            f.windows.partition_expression_count as u128,
        ),
        _ => MetricView::Int(0),
    }
}

/// The value of a metric of a file.
pub open spec fn value_of(
    f: SqlFileFacts,
    loc: SqlLoc,
    d: DialectResolution,
    key: MetricKey,
) -> MetricView {
    match key {
        MetricKey::StatementKindCount(kind) => MetricView::Int(
            kind_tally(f.statements@, kind) as u128,
        ),
        MetricKey::DialectIs(kind) => MetricView::Int(
            if kind == d.effective {
                1
            } else {
                0
            },
        ),
        _ => fixed_value(f, loc, d, key),
    }
}

/// How many metrics a file has.
pub open spec fn metric_count() -> int {
    FIXED_KEYS + STATEMENT_KINDS + 1
}

/// The metric in place `i` of a file: the fixed ones, one for each statement
/// kind, and one for the dialect.
pub open spec fn metric_at(d: DialectResolution, i: int) -> MetricKey {
    if i < FIXED_KEYS {
        key_at(i)
    } else if i < FIXED_KEYS + STATEMENT_KINDS {
        MetricKey::StatementKindCount(kind_at(i - FIXED_KEYS))
    } else {
        MetricKey::DialectIs(d.effective)
    }
}

/// Whether metrics are those of a file.
pub open spec fn describes_metrics(
    f: SqlFileFacts,
    loc: SqlLoc,
    d: DialectResolution,
    r: Seq<Metric>,
) -> bool {
    &&& r.len() == metric_count()
    &&& forall|i: int|
        0 <= i < r.len() ==> (#[trigger] r[i]).key == metric_at(d, i) && r[i].value@ == value_of(
            f,
            loc,
            d,
            metric_at(d, i),
        )
}

/// Every metric of a file is one that a file can have.
pub proof fn metrics_are_published(d: DialectResolution, i: int)
    requires
        d.effective.is_compiled(),
        0 <= i < metric_count(),
    ensures
        crate::metric_key::is_published(metric_at(d, i).spelled()),
{
    if i < FIXED_KEYS {
        fixed_keys_are_distinct(i);
    }
    assert(metric_at(d, i).on_file());
}

/// No metric of a file occurs twice.
pub proof fn metrics_are_distinct(d: DialectResolution, i: int, j: int)
    requires
        0 <= i < j < metric_count(),
    ensures
        metric_at(d, i) != metric_at(d, j),
{
    if i < FIXED_KEYS {
        fixed_keys_are_distinct(i);
    }
    if j < FIXED_KEYS {
        fixed_keys_are_distinct(j);
    }
}

// ── execution ──────────────────────────────────────────────────────────

fn quotient(num: u128, den: u128) -> (r: MetricValue)
    ensures
        r@ == ratio(num as int, den as int),
{
    if den == 0 {
        MetricValue::Ratio { num: 0, den: 1 }
    } else {
        MetricValue::Ratio { num, den }
    }
}

/// How many statements are of a kind.
pub fn count_kind(s: &Vec<StatementFacts>, kind: StatementKind) -> (r: u64)
    ensures
        r == kind_tally(s@, kind),
        r <= s@.len(),
{
    let mut found: u64 = 0;
    let mut k: usize = 0;
    while k < s.len()
        invariant
            k <= s@.len(),
            found <= k,
            found == kind_tally(s@.take(k as int), kind),
        decreases s@.len() - k,
    {
        assert(s@.take(k + 1).drop_last() =~= s@.take(k as int));
        if s[k].kind == kind {
            found = found + 1;
        }
        k = k + 1;
    }
    assert(s@.take(k as int) =~= s@);
    found
}

fn count_present(s: &Vec<StatementFacts>) -> (r: u128)
    ensures
        r == kinds_present(s@, STATEMENT_KINDS as int),
{
    let mut found: u128 = 0;
    let mut k: usize = 0;
    while k < STATEMENT_KINDS
        invariant
            k <= STATEMENT_KINDS,
            found <= k,
            found == kinds_present(s@, k as int),
        decreases STATEMENT_KINDS - k,
    {
        if count_kind(s, statement_kind(k)) > 0 {
            found = found + 1;
        }
        k = k + 1;
    }
    found
}

fn count_kinds(s: &Vec<StatementFacts>) -> (r: Vec<u64>)
    ensures
        r@ == kind_counts(s@),
{
    let mut out: Vec<u64> = Vec::new();
    let mut k: usize = 0;
    while k < STATEMENT_KINDS
        invariant
            k == out@.len() <= STATEMENT_KINDS,
            forall|i: int| 0 <= i < k ==> out@[i] == kind_tally(s@, kind_at(i)),
        decreases STATEMENT_KINDS - k,
    {
        out.push(count_kind(s, statement_kind(k)));
        k = k + 1;
    }
    assert(out@ =~= kind_counts(s@));
    out
}

fn volume_value(h: &HalsteadFacts) -> (r: MetricValue)
    requires
        h.distinct_operators <= MAX_NODES,
        h.distinct_operands <= MAX_NODES,
        h.total_operators <= MAX_NODES,
        h.total_operands <= MAX_NODES,
    ensures
        r@ == volume(*h),
{
    MetricValue::Volume {
        length: h.total_operators + h.total_operands,
        vocabulary: h.distinct_operators + h.distinct_operands,
    }
}

fn weighted(h: &HalsteadFacts) -> (r: (u128, u128))
    requires
        h.distinct_operators <= MAX_NODES,
        h.distinct_operands <= MAX_NODES,
        h.total_operands <= MAX_NODES,
    ensures
        r.0 == h.distinct_operators * h.total_operands,
        r.1 == 2 * h.distinct_operands,
{
    let a: u128 = h.distinct_operators as u128;
    let b: u128 = h.total_operands as u128;
    assert(a * b <= 0xffff_fffe * 0xffff_fffe) by (nonlinear_arith)
        requires
            a <= 0xffff_fffe,
            b <= 0xffff_fffe,
    ;
    (a * b, 2 * h.distinct_operands as u128)
}

fn difficulty_value(h: &HalsteadFacts) -> (r: MetricValue)
    requires
        h.distinct_operators <= MAX_NODES,
        h.distinct_operands <= MAX_NODES,
        h.total_operands <= MAX_NODES,
    ensures
        r@ == ratio(h.distinct_operators * h.total_operands, 2 * h.distinct_operands),
{
    let (num, den): (u128, u128) = weighted(h);
    quotient(num, den)
}

fn effort_value(h: &HalsteadFacts) -> (r: MetricValue)
    requires
        h.distinct_operators <= MAX_NODES,
        h.distinct_operands <= MAX_NODES,
        h.total_operators <= MAX_NODES,
        h.total_operands <= MAX_NODES,
    ensures
        r@ == effort(*h),
{
    let length: u64 = h.total_operators + h.total_operands;
    let vocabulary: u64 = h.distinct_operators + h.distinct_operands;
    if h.distinct_operands == 0 {
        MetricValue::Effort { num: 0, den: 1, length, vocabulary }
    } else {
        let (num, den): (u128, u128) = weighted(h);
        MetricValue::Effort { num, den, length, vocabulary }
    }
}

fn copy_terms(s: &Vec<Term>) -> (r: Vec<Term>)
    ensures
        r@ == s@,
{
    let mut out: Vec<Term> = Vec::new();
    let mut k: usize = 0;
    while k < s.len()
        invariant
            k <= s@.len(),
            out@ == s@.take(k as int),
        decreases s@.len() - k,
    {
        out.push(s[k]);
        assert(s@.take(k + 1) =~= s@.take(k as int).push(s@[k as int]));
        k = k + 1;
    }
    assert(s@.take(k as int) =~= s@);
    out
}

/// The value of a fixed metric of a file.
fn fixed_metric(
    f: &SqlFileFacts,
    loc: &SqlLoc,
    d: &DialectResolution,
    s: &CompositeScores,
    key: MetricKey,
) -> (r: MetricValue)
    requires
        within_bounds(*f),
        describes_scores(*f, *loc, d.conflict_count as int, *s),
    ensures
        r@ == fixed_value(*f, *loc, *d, key),
{
    match key {
        MetricKey::AggregateDistinctCount => MetricValue::Int(f.aggregates.distinct_count as u128),
        MetricKey::AggregateFunctionCount => MetricValue::Int(f.aggregates.function_count as u128),
        MetricKey::AliasTableAliasCount => MetricValue::Int(f.output.table_alias_count as u128),
        MetricKey::CaseCount => MetricValue::Int(f.cases.count as u128),
        MetricKey::CaseMaxDepth => MetricValue::Int(f.cases.max_depth as u128),
        MetricKey::CaseMaxWhenCount => MetricValue::Int(f.cases.max_when_count as u128),
        MetricKey::CaseMissingElseCount => MetricValue::Int(f.cases.missing_else_count as u128),
        MetricKey::CaseWhenCount => MetricValue::Int(f.cases.when_count as u128),
        MetricKey::CastCount => MetricValue::Int(f.expressions.cast_count as u128),
        MetricKey::ChangeRiskScore => MetricValue::Int(s.change_risk_score),
        MetricKey::CognitiveComplexity => MetricValue::Ratio {
            num: s.cognitive_complexity,
            den: 4,
        },
        MetricKey::CteCount => MetricValue::Int(f.ctes.count as u128),
        MetricKey::CteDependencyEdges => MetricValue::Int(f.ctes.dependency_edges),
        MetricKey::CteMaxDependencyDepth => MetricValue::Int(f.ctes.max_dependency_depth as u128),
        MetricKey::CteMaxFanOut => MetricValue::Int(f.ctes.max_fan_out as u128),
        MetricKey::CteRecursiveCount => MetricValue::Int(f.ctes.recursive_count as u128),
        MetricKey::CteTrivialCount => MetricValue::Int(f.ctes.trivial_count as u128),
        MetricKey::CteUnusedCount => MetricValue::Int(f.ctes.unused_count as u128),
        MetricKey::DclGrantRevokeCount => MetricValue::Int(f.objects.grant_revoke_count as u128),
        MetricKey::DdlAlterCount => MetricValue::Int(f.objects.alter_count as u128),
        MetricKey::DdlCreateCount => MetricValue::Int(f.objects.create_count as u128),
        MetricKey::DdlCreateOrReplaceCount => MetricValue::Int(
            f.objects.create_or_replace_count as u128,
        ),
        MetricKey::DdlDropCount => MetricValue::Int(f.objects.drop_count as u128),
        MetricKey::DdlTruncateCount => MetricValue::Int(f.objects.truncate_count as u128),
        MetricKey::DerivedTableCount => MetricValue::Int(f.subqueries.derived_table_count as u128),
        MetricKey::DialectConfidence => quotient(d.confidence as u128, 100),
        MetricKey::DialectConflictCount => MetricValue::Int(d.conflict_count as u128),
        MetricKey::DialectDirectivePresent => MetricValue::Int(
            if d.directive.is_some() {
                1
            } else {
                0
            },
        ),
        MetricKey::DialectRequested => MetricValue::Int(if d.requested.is_some() { 1 } else { 0 }),
        MetricKey::DmlDeleteCount => MetricValue::Int(f.objects.delete_count as u128),
        MetricKey::DmlDeleteWithoutWhereCount => MetricValue::Int(
            f.objects.delete_without_where_count as u128,
        ),
        MetricKey::DmlInsertCount => MetricValue::Int(f.objects.insert_count as u128),
        MetricKey::DmlMergeCount => MetricValue::Int(f.objects.merge_count as u128),
        MetricKey::DmlReturningCount => MetricValue::Int(f.objects.returning_count as u128),
        MetricKey::DmlUpdateCount => MetricValue::Int(f.objects.update_count as u128),
        MetricKey::DmlUpdateWithoutWhereCount => MetricValue::Int(
            f.objects.update_without_where_count as u128,
        ),
        MetricKey::ExpressionMaxDepth => MetricValue::Int(f.expressions.max_depth as u128),
        MetricKey::FunctionCallCount => MetricValue::Int(f.expressions.function_call_count as u128),
        MetricKey::FunctionDistinctCount => MetricValue::Int(
            f.expressions.distinct_function_count as u128,
        ),
        MetricKey::FunctionNestedCallDepth => MetricValue::Int(
            f.expressions.max_function_nesting as u128,
        ),
        MetricKey::GroupByCount => MetricValue::Int(f.aggregates.group_by_count as u128),
        MetricKey::GroupByCubeCount => MetricValue::Int(f.aggregates.cube_count as u128),
        MetricKey::GroupByGroupingSetsCount => MetricValue::Int(
            f.aggregates.grouping_sets_count as u128,
        ),
        MetricKey::GroupByRollupCount => MetricValue::Int(f.aggregates.rollup_count as u128),
        MetricKey::HalsteadDifficulty => difficulty_value(&f.halstead),
        MetricKey::HalsteadDistinctOperands => MetricValue::Int(
            f.halstead.distinct_operands as u128,
        ),
        MetricKey::HalsteadDistinctOperators => MetricValue::Int(
            f.halstead.distinct_operators as u128,
        ),
        MetricKey::HalsteadEffort => effort_value(&f.halstead),
        MetricKey::HalsteadLength => MetricValue::Int(
            f.halstead.total_operators as u128 + f.halstead.total_operands as u128,
        ),
        MetricKey::HalsteadTotalOperands => MetricValue::Int(f.halstead.total_operands as u128),
        MetricKey::HalsteadTotalOperators => MetricValue::Int(f.halstead.total_operators as u128),
        MetricKey::HalsteadVocabulary => MetricValue::Int(
            f.halstead.distinct_operators as u128 + f.halstead.distinct_operands as u128,
        ),
        MetricKey::HalsteadVolume => volume_value(&f.halstead),
        MetricKey::HavingCount => MetricValue::Int(f.aggregates.having_count as u128),
        MetricKey::IdentifierQuotedCount => MetricValue::Int(
            f.output.quoted_identifier_count as u128,
        ),
        MetricKey::IdentifierUnqualifiedColumnRatio => quotient(
            f.output.multi_relation_unqualified_refs as u128,
            f.output.multi_relation_column_refs as u128,
        ),
        MetricKey::JoinCount => MetricValue::Int(f.joins.total as u128),
        MetricKey::JoinCrossCount => MetricValue::Int(f.joins.cross as u128),
        MetricKey::JoinKindCountCross => MetricValue::Int(f.joins.cross as u128),
        MetricKey::JoinKindCountFull => MetricValue::Int(f.joins.full as u128),
        MetricKey::JoinKindCountInner => MetricValue::Int(f.joins.inner as u128),
        MetricKey::JoinKindCountLateral => MetricValue::Int(f.joins.lateral as u128),
        MetricKey::JoinKindCountLeft => MetricValue::Int(f.joins.left as u128),
        MetricKey::JoinKindCountNatural => MetricValue::Int(f.joins.natural as u128),
        MetricKey::JoinKindCountRight => MetricValue::Int(f.joins.right as u128),
        MetricKey::JoinMissingConditionCount => MetricValue::Int(f.joins.missing_condition as u128),
        MetricKey::JoinNaturalCount => MetricValue::Int(f.joins.natural as u128),
        MetricKey::JoinNonEquiCount => MetricValue::Int(f.joins.non_equi as u128),
        MetricKey::JoinOuterCount => MetricValue::Int(
            f.joins.left as u128 + f.joins.right as u128 + f.joins.full as u128,
        ),
        MetricKey::LocAvgStatementLines => quotient(
            loc.total_statement_lines as u128,
            loc.logical as u128,
        ),
        MetricKey::LocBlank => MetricValue::Int(loc.blank as u128),
        MetricKey::LocCode => MetricValue::Int(loc.code as u128),
        MetricKey::LocComment => MetricValue::Int(loc.comment as u128),
        MetricKey::LocCommentDensity => quotient(
            loc.comment as u128,
            loc.code as u128 + loc.comment as u128,
        ),
        MetricKey::LocLogical => MetricValue::Int(loc.logical as u128),
        MetricKey::LocMaxStatementLines => MetricValue::Int(loc.max_statement_lines as u128),
        MetricKey::LocPhysical => MetricValue::Int(loc.physical as u128),
        MetricKey::MaintainabilityIndex => MetricValue::Index(copy_terms(&s.maintainability_index)),
        MetricKey::ModularityHealth => MetricValue::Index(copy_terms(&s.modularity_health)),
        MetricKey::ObjectReadCount => MetricValue::Int(f.objects.read_object_count as u128),
        MetricKey::ObjectTouchCount => MetricValue::Int(f.objects.touch_count),
        MetricKey::ObjectWriteCount => MetricValue::Int(f.objects.write_object_count as u128),
        MetricKey::ParserDiagnosticCount => MetricValue::Int(
            f.unparsable_segments as u128 + f.lex_error_count as u128,
        ),
        MetricKey::ParserUnparsableLineCount => MetricValue::Int(f.unparsable_lines as u128),
        MetricKey::ParserUnparsableRatio => quotient(
            f.unparsable_lines as u128,
            if loc.code > f.unparsable_lines {
                loc.code as u128
            } else {
                f.unparsable_lines as u128
            },
        ),
        MetricKey::ParserUnparsableSegmentCount => MetricValue::Int(f.unparsable_segments as u128),
        MetricKey::PredicateBooleanOperatorCount => MetricValue::Int(
            f.predicates.boolean_operator_count as u128,
        ),
        MetricKey::PredicateComparisonCount => MetricValue::Int(
            f.predicates.comparison_count as u128,
        ),
        MetricKey::PredicateMaxBooleanDepth => MetricValue::Int(
            f.predicates.max_boolean_depth as u128,
        ),
        MetricKey::PredicateNotCount => MetricValue::Int(f.predicates.not_count as u128),
        MetricKey::PredicateNullSemanticsRiskCount => MetricValue::Int(
            f.predicates.null_semantics_risk_count as u128,
        ),
        MetricKey::ProceduralBlockCount => MetricValue::Int(f.procedural.block_count),
        MetricKey::ProceduralCaseStatementCount => MetricValue::Int(
            f.procedural.case_statement_count,
        ),
        MetricKey::ProceduralCognitiveComplexity => MetricValue::Int(
            f.procedural.cognitive_complexity,
        ),
        MetricKey::ProceduralCyclomaticComplexity => MetricValue::Int(
            f.procedural.cyclomatic_complexity,
        ),
        MetricKey::ProceduralDynamicSqlCount => MetricValue::Int(f.procedural.dynamic_sql_count),
        MetricKey::ProceduralExceptionHandlerCount => MetricValue::Int(
            f.procedural.exception_handler_count,
        ),
        MetricKey::ProceduralIfCount => MetricValue::Int(f.procedural.if_count),
        MetricKey::ProceduralLoopCount => MetricValue::Int(f.procedural.loop_count),
        MetricKey::ProceduralMaxBlockDepth => MetricValue::Int(
            f.procedural.max_block_depth as u128,
        ),
        MetricKey::ProceduralRaiseThrowCount => MetricValue::Int(f.procedural.raise_throw_count),
        MetricKey::ProceduralReturnCount => MetricValue::Int(f.procedural.return_count),
        MetricKey::ProceduralRoutineCount => MetricValue::Int(f.procedural.routine_count),
        MetricKey::QueryBlockAvgSelectItems => quotient(
            f.select_item_total as u128,
            f.query_block_count as u128,
        ),
        MetricKey::QueryBlockCount => MetricValue::Int(f.query_block_count as u128),
        MetricKey::QueryBlockMaxDepth => MetricValue::Int(f.query_block_max_depth as u128),
        MetricKey::QueryBlockMaxSelectItems => MetricValue::Int(f.select_item_max as u128),
        MetricKey::RelationRefCount => MetricValue::Int(f.relation_ref_count as u128),
        MetricKey::ReviewBurdenIndex => MetricValue::Index(copy_terms(&s.review_burden_index)),
        MetricKey::SelectExpressionWithoutAliasCount => MetricValue::Int(
            f.output.expression_without_alias_count as u128,
        ),
        MetricKey::SelectOuterStarCount => MetricValue::Int(f.output.outer_star_count as u128),
        MetricKey::SelectOutputAliasCoverage => if f.output.derived_expression_count == 0 {
            MetricValue::Ratio { num: 1, den: 1 }
        } else {
            quotient(
                f.output.aliased_derived_expression_count as u128,
                f.output.derived_expression_count as u128,
            )
        },
        MetricKey::SelectStarCount => MetricValue::Int(f.output.star_count as u128),
        MetricKey::SetOpCount => MetricValue::Int(f.set_ops.count as u128),
        MetricKey::SetOpKindCountExcept => MetricValue::Int(f.set_ops.except_count as u128),
        MetricKey::SetOpKindCountIntersect => MetricValue::Int(f.set_ops.intersect_count as u128),
        MetricKey::SetOpKindCountUnion => MetricValue::Int(f.set_ops.union_count as u128),
        MetricKey::SetOpKindCountUnionAll => MetricValue::Int(f.set_ops.union_all_count as u128),
        MetricKey::SetOpUnionAllRatio => quotient(
            f.set_ops.union_all_count as u128,
            f.set_ops.union_count as u128 + f.set_ops.union_all_count as u128,
        ),
        MetricKey::StatementCount => MetricValue::Int(f.statements.len() as u128),
        MetricKey::StatementKindDistinct => MetricValue::Int(count_present(&f.statements)),
        MetricKey::StatementKindEntropy => MetricValue::Entropy(count_kinds(&f.statements)),
        MetricKey::StatementUnparsedCount => MetricValue::Int(
            count_kind(&f.statements, StatementKind::Unknown) as u128,
        ),
        MetricKey::StructuralComplexity => MetricValue::Ratio {
            num: s.structural_complexity,
            den: 100,
        },
        MetricKey::StructuralComplexityMaxEmbeddedQuery => MetricValue::Ratio {
            num: f.procedural.max_embedded_query_structural,
            den: 100,
        },
        MetricKey::SubqueryCorrelatedCount => MetricValue::Int(
            f.subqueries.correlated_count as u128,
        ),
        MetricKey::SubqueryCount => MetricValue::Int(f.subqueries.count as u128),
        MetricKey::SubqueryExistsCount => MetricValue::Int(f.subqueries.exists_count as u128),
        MetricKey::SubqueryInCount => MetricValue::Int(f.subqueries.in_count as u128),
        MetricKey::SubqueryMaxDepth => MetricValue::Int(f.subqueries.max_depth as u128),
        MetricKey::SubqueryScalarCount => MetricValue::Int(f.subqueries.scalar_count as u128),
        MetricKey::TransactionControlCount => MetricValue::Int(
            f.objects.transaction_control_count as u128,
        ),
        MetricKey::WindowFrameCount => MetricValue::Int(f.windows.frame_count as u128),
        MetricKey::WindowFunctionCount => MetricValue::Int(f.windows.function_count as u128),
        MetricKey::WindowOrderExpressionCount => MetricValue::Int(f.windows.order_expression_count),
        MetricKey::WindowPartitionExpressionCount => MetricValue::Int(
            f.windows.partition_expression_count,
        ),
        _ => MetricValue::Int(0),
    }
}

/// The metrics of a file.
pub fn publish(f: &SqlFileFacts, loc: &SqlLoc, d: &DialectResolution) -> (r: Vec<Metric>)
    requires
        within_bounds(*f),
        loc.code <= MAX_TEXT,
        loc.comment <= MAX_TEXT,
    ensures
        describes_metrics(*f, *loc, *d, r@),
{
    let s = compute(f, loc, d);
    let mut out: Vec<Metric> = Vec::new();
    let mut i: usize = 0;
    while i < FIXED_KEYS
        invariant
            i == out@.len() <= FIXED_KEYS,
            within_bounds(*f),
            describes_scores(*f, *loc, d.conflict_count as int, s),
            forall|j: int|
                0 <= j < i ==> (#[trigger] out@[j]).key == metric_at(*d, j) && out@[j].value@
                    == value_of(*f, *loc, *d, metric_at(*d, j)),
        decreases FIXED_KEYS - i,
    {
        let key = fixed_key(i);
        proof {
            fixed_keys_are_distinct(i as int);
        }
        let value = fixed_metric(f, loc, d, &s, key);
        out.push(Metric { key, value });
        i = i + 1;
    }
    let mut k: usize = 0;
    while k < STATEMENT_KINDS
        invariant
            k <= STATEMENT_KINDS,
            out@.len() == FIXED_KEYS + k,
            forall|j: int|
                0 <= j < out@.len() ==> (#[trigger] out@[j]).key == metric_at(*d, j)
                    && out@[j].value@ == value_of(*f, *loc, *d, metric_at(*d, j)),
        decreases STATEMENT_KINDS - k,
    {
        let kind = statement_kind(k);
        let n: u64 = count_kind(&f.statements, kind);
        out.push(
            Metric {
                key: MetricKey::StatementKindCount(kind),
                value: MetricValue::Int(n as u128),
            },
        );
        k = k + 1;
    }
    out.push(Metric { key: MetricKey::DialectIs(d.effective), value: MetricValue::Int(1) });
    out
}

} // verus!
