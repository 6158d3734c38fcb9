//! Under which name each metric of a file is published, and what it says.

use vstd::prelude::*;

use crate::composite::{
    cognitive_score, maintainability_terms, modularity_terms, review_terms, risk_score,
    structural_score,
};
use crate::dialect::DialectResolution;
use crate::facts::SqlFileFacts;
use crate::loc::SqlLoc;
use crate::metric_key::{
    fixed_keys_are_distinct, key_rank, kind_rank, lemma_key_rank, lemma_kind_rank, MetricKey,
    FIXED_KEYS, STATEMENT_KINDS,
};
use crate::metrics::{
    describes_metrics, kind_counts, kind_tally, kinds_present, value_of, Metric, MetricView,
};
use crate::statements::{StatementFacts, StatementKind};
use crate::tree::{lemma_same_number, number};

verus! {

/// Whether a value is published under a name.
pub open spec fn published(r: Seq<Metric>, name: Seq<char>, value: MetricView) -> bool {
    exists|i: int|
        0 <= i < r.len() && (#[trigger] r[i]).key.spelled() == name && r[i].value@ == value
}

/// Whether a number is published under a name.
pub open spec fn counts(r: Seq<Metric>, name: Seq<char>, n: int) -> bool {
    published(r, name, MetricView::Int(n as u128))
}

/// Whether a quotient is published under a name; it is nothing where there is
/// nothing to divide by.
pub open spec fn shares(r: Seq<Metric>, name: Seq<char>, num: int, den: int) -> bool {
    &&& den != 0 ==> published(r, name, MetricView::Ratio { num: num as u128, den: den as u128 })
    &&& den == 0 ==> published(r, name, MetricView::Ratio { num: 0, den: 1 })
}

/// The value of a fixed metric is published under its name.
proof fn lemma_published(
    f: SqlFileFacts,
    loc: SqlLoc,
    d: DialectResolution,
    r: Seq<Metric>,
    key: MetricKey,
)
    requires
        describes_metrics(f, loc, d, r),
        !(key is StatementKindCount),
        !(key is DialectIs),
        !(key is StatementLines),
    ensures
        published(r, key.spelled(), value_of(f, loc, d, key)),
{
    lemma_key_rank(key);
    let i = key_rank(key);
    assert(r[i].key == key);
}

/// How many statements there are, of how many kinds, and how many of them are
/// not understood, stands under these names.
pub proof fn statement_metrics_are_published(
    f: SqlFileFacts,
    loc: SqlLoc,
    d: DialectResolution,
    r: Seq<Metric>,
)
    requires
        describes_metrics(f, loc, d, r),
    ensures
        counts(r, "sql.statement.count"@, f.statements@.len() as int),
        counts(
            r,
            "sql.statement.kind_distinct"@,
            kinds_present(f.statements@, STATEMENT_KINDS as int),
        ),
        counts(
            r,
            "sql.statement.unparsed_count"@,
            kind_tally(f.statements@, StatementKind::Unknown),
        ),
{
    lemma_published(f, loc, d, r, MetricKey::StatementCount);
    lemma_published(f, loc, d, r, MetricKey::StatementKindDistinct);
    lemma_published(f, loc, d, r, MetricKey::StatementUnparsedCount);
}

/// The lines of a file stand under these names.
pub proof fn line_metrics_are_published(
    f: SqlFileFacts,
    loc: SqlLoc,
    d: DialectResolution,
    r: Seq<Metric>,
)
    requires
        describes_metrics(f, loc, d, r),
    ensures
        shares(
            r,
            "sql.loc.avg_statement_lines"@,
            loc.total_statement_lines as int,
            loc.logical as int,
        ),
        counts(r, "sql.loc.blank"@, loc.blank as int),
        counts(r, "sql.loc.code"@, loc.code as int),
        counts(r, "sql.loc.comment"@, loc.comment as int),
        shares(r, "sql.loc.comment_density"@, loc.comment as int, loc.code + loc.comment),
        counts(r, "sql.loc.logical"@, loc.logical as int),
        counts(r, "sql.loc.max_statement_lines"@, loc.max_statement_lines as int),
        counts(r, "sql.loc.physical"@, loc.physical as int),
        counts(r, "sql.parser.diagnostic_count"@, f.unparsable_segments + f.lex_error_count),
        counts(r, "sql.parser.unparsable_line_count"@, f.unparsable_lines as int),
        shares(
            r,
            "sql.parser.unparsable_ratio"@,
            f.unparsable_lines as int,
            if loc.code > f.unparsable_lines {
                loc.code as int
            } else {
                f.unparsable_lines as int
            },
        ),
        counts(r, "sql.parser.unparsable_segment_count"@, f.unparsable_segments as int),
{
    lemma_published(f, loc, d, r, MetricKey::LocAvgStatementLines);
    lemma_published(f, loc, d, r, MetricKey::LocBlank);
    lemma_published(f, loc, d, r, MetricKey::LocCode);
    lemma_published(f, loc, d, r, MetricKey::LocComment);
    lemma_published(f, loc, d, r, MetricKey::LocCommentDensity);
    lemma_published(f, loc, d, r, MetricKey::LocLogical);
    lemma_published(f, loc, d, r, MetricKey::LocMaxStatementLines);
    lemma_published(f, loc, d, r, MetricKey::LocPhysical);
    lemma_published(f, loc, d, r, MetricKey::ParserDiagnosticCount);
    lemma_published(f, loc, d, r, MetricKey::ParserUnparsableLineCount);
    lemma_published(f, loc, d, r, MetricKey::ParserUnparsableRatio);
    lemma_published(f, loc, d, r, MetricKey::ParserUnparsableSegmentCount);
}

/// What is known of the dialect stands under these names.
pub proof fn dialect_metrics_are_published(
    f: SqlFileFacts,
    loc: SqlLoc,
    d: DialectResolution,
    r: Seq<Metric>,
)
    requires
        describes_metrics(f, loc, d, r),
    ensures
        shares(r, "sql.dialect.confidence"@, d.confidence as int, 100),
        counts(r, "sql.dialect.conflict_count"@, d.conflict_count as int),
        counts(r, "sql.dialect.directive_present"@, if d.directive is Some { 1 } else { 0 }),
        counts(r, "sql.dialect.requested"@, if d.requested is Some { 1 } else { 0 }),
{
    lemma_published(f, loc, d, r, MetricKey::DialectConfidence);
    lemma_published(f, loc, d, r, MetricKey::DialectConflictCount);
    lemma_published(f, loc, d, r, MetricKey::DialectDirectivePresent);
    lemma_published(f, loc, d, r, MetricKey::DialectRequested);
}

/// The query blocks, their selections and their relations stand under these
/// names.
pub proof fn query_metrics_are_published(
    f: SqlFileFacts,
    loc: SqlLoc,
    d: DialectResolution,
    r: Seq<Metric>,
)
    requires
        describes_metrics(f, loc, d, r),
    ensures
        counts(r, "sql.alias.table_alias_count"@, f.output.table_alias_count as int),
        counts(r, "sql.identifier.quoted_count"@, f.output.quoted_identifier_count as int),
        shares(
            r,
            "sql.identifier.unqualified_column_ratio"@,
            f.output.multi_relation_unqualified_refs as int,
            f.output.multi_relation_column_refs as int,
        ),
        shares(
            r,
            "sql.query_block.avg_select_items"@,
            f.select_item_total as int,
            f.query_block_count as int,
        ),
        counts(r, "sql.query_block.count"@, f.query_block_count as int),
        counts(r, "sql.query_block.max_depth"@, f.query_block_max_depth as int),
        counts(r, "sql.query_block.max_select_items"@, f.select_item_max as int),
        counts(r, "sql.relation.ref_count"@, f.relation_ref_count as int),
        counts(
            r,
            "sql.select.expression_without_alias_count"@,
            f.output.expression_without_alias_count as int,
        ),
        counts(r, "sql.select.outer_star_count"@, f.output.outer_star_count as int),
        counts(r, "sql.select.star_count"@, f.output.star_count as int),
{
    lemma_published(f, loc, d, r, MetricKey::AliasTableAliasCount);
    lemma_published(f, loc, d, r, MetricKey::IdentifierQuotedCount);
    lemma_published(f, loc, d, r, MetricKey::IdentifierUnqualifiedColumnRatio);
    lemma_published(f, loc, d, r, MetricKey::QueryBlockAvgSelectItems);
    lemma_published(f, loc, d, r, MetricKey::QueryBlockCount);
    lemma_published(f, loc, d, r, MetricKey::QueryBlockMaxDepth);
    lemma_published(f, loc, d, r, MetricKey::QueryBlockMaxSelectItems);
    lemma_published(f, loc, d, r, MetricKey::RelationRefCount);
    lemma_published(f, loc, d, r, MetricKey::SelectExpressionWithoutAliasCount);
    lemma_published(f, loc, d, r, MetricKey::SelectOuterStarCount);
    lemma_published(f, loc, d, r, MetricKey::SelectStarCount);
}

/// The joins stand under these names. An outer join is one of the left, the
/// right or the full ones.
pub proof fn join_metrics_are_published(
    f: SqlFileFacts,
    loc: SqlLoc,
    d: DialectResolution,
    r: Seq<Metric>,
)
    requires
        describes_metrics(f, loc, d, r),
    ensures
        counts(r, "sql.join.count"@, f.joins.total as int),
        counts(r, "sql.join.cross_count"@, f.joins.cross as int),
        counts(r, "sql.join.kind_count.cross"@, f.joins.cross as int),
        counts(r, "sql.join.kind_count.full"@, f.joins.full as int),
        counts(r, "sql.join.kind_count.inner"@, f.joins.inner as int),
        counts(r, "sql.join.kind_count.lateral"@, f.joins.lateral as int),
        counts(r, "sql.join.kind_count.left"@, f.joins.left as int),
        counts(r, "sql.join.kind_count.natural"@, f.joins.natural as int),
        counts(r, "sql.join.kind_count.right"@, f.joins.right as int),
        counts(r, "sql.join.missing_condition_count"@, f.joins.missing_condition as int),
        counts(r, "sql.join.natural_count"@, f.joins.natural as int),
        counts(r, "sql.join.non_equi_count"@, f.joins.non_equi as int),
        counts(r, "sql.join.outer_count"@, f.joins.left + f.joins.right + f.joins.full),
{
    lemma_published(f, loc, d, r, MetricKey::JoinCount);
    lemma_published(f, loc, d, r, MetricKey::JoinCrossCount);
    lemma_published(f, loc, d, r, MetricKey::JoinKindCountCross);
    lemma_published(f, loc, d, r, MetricKey::JoinKindCountFull);
    lemma_published(f, loc, d, r, MetricKey::JoinKindCountInner);
    lemma_published(f, loc, d, r, MetricKey::JoinKindCountLateral);
    lemma_published(f, loc, d, r, MetricKey::JoinKindCountLeft);
    lemma_published(f, loc, d, r, MetricKey::JoinKindCountNatural);
    lemma_published(f, loc, d, r, MetricKey::JoinKindCountRight);
    lemma_published(f, loc, d, r, MetricKey::JoinMissingConditionCount);
    lemma_published(f, loc, d, r, MetricKey::JoinNaturalCount);
    lemma_published(f, loc, d, r, MetricKey::JoinNonEquiCount);
    lemma_published(f, loc, d, r, MetricKey::JoinOuterCount);
}

/// The named expressions stand under these names.
pub proof fn cte_metrics_are_published(
    f: SqlFileFacts,
    loc: SqlLoc,
    d: DialectResolution,
    r: Seq<Metric>,
)
    requires
        describes_metrics(f, loc, d, r),
    ensures
        counts(r, "sql.cte.count"@, f.ctes.count as int),
        counts(r, "sql.cte.dependency_edges"@, f.ctes.dependency_edges as int),
        counts(r, "sql.cte.max_dependency_depth"@, f.ctes.max_dependency_depth as int),
        counts(r, "sql.cte.max_fan_out"@, f.ctes.max_fan_out as int),
        counts(r, "sql.cte.recursive_count"@, f.ctes.recursive_count as int),
        counts(r, "sql.cte.trivial_count"@, f.ctes.trivial_count as int),
        counts(r, "sql.cte.unused_count"@, f.ctes.unused_count as int),
{
    lemma_published(f, loc, d, r, MetricKey::CteCount);
    lemma_published(f, loc, d, r, MetricKey::CteDependencyEdges);
    lemma_published(f, loc, d, r, MetricKey::CteMaxDependencyDepth);
    lemma_published(f, loc, d, r, MetricKey::CteMaxFanOut);
    lemma_published(f, loc, d, r, MetricKey::CteRecursiveCount);
    lemma_published(f, loc, d, r, MetricKey::CteTrivialCount);
    lemma_published(f, loc, d, r, MetricKey::CteUnusedCount);
}

/// The subqueries stand under these names.
pub proof fn subquery_metrics_are_published(
    f: SqlFileFacts,
    loc: SqlLoc,
    d: DialectResolution,
    r: Seq<Metric>,
)
    requires
        describes_metrics(f, loc, d, r),
    ensures
        counts(r, "sql.derived_table.count"@, f.subqueries.derived_table_count as int),
        counts(r, "sql.subquery.correlated_count"@, f.subqueries.correlated_count as int),
        counts(r, "sql.subquery.count"@, f.subqueries.count as int),
        counts(r, "sql.subquery.exists_count"@, f.subqueries.exists_count as int),
        counts(r, "sql.subquery.in_count"@, f.subqueries.in_count as int),
        counts(r, "sql.subquery.max_depth"@, f.subqueries.max_depth as int),
        counts(r, "sql.subquery.scalar_count"@, f.subqueries.scalar_count as int),
{
    lemma_published(f, loc, d, r, MetricKey::DerivedTableCount);
    lemma_published(f, loc, d, r, MetricKey::SubqueryCorrelatedCount);
    lemma_published(f, loc, d, r, MetricKey::SubqueryCount);
    lemma_published(f, loc, d, r, MetricKey::SubqueryExistsCount);
    lemma_published(f, loc, d, r, MetricKey::SubqueryInCount);
    lemma_published(f, loc, d, r, MetricKey::SubqueryMaxDepth);
    lemma_published(f, loc, d, r, MetricKey::SubqueryScalarCount);
}

/// Groupings, aggregates, windows and set operators stand under these names.
pub proof fn clause_metrics_are_published(
    f: SqlFileFacts,
    loc: SqlLoc,
    d: DialectResolution,
    r: Seq<Metric>,
)
    requires
        describes_metrics(f, loc, d, r),
    ensures
        counts(r, "sql.aggregate.distinct_count"@, f.aggregates.distinct_count as int),
        counts(r, "sql.aggregate.function_count"@, f.aggregates.function_count as int),
        counts(r, "sql.group_by.count"@, f.aggregates.group_by_count as int),
        counts(r, "sql.group_by.cube_count"@, f.aggregates.cube_count as int),
        counts(r, "sql.group_by.grouping_sets_count"@, f.aggregates.grouping_sets_count as int),
        counts(r, "sql.group_by.rollup_count"@, f.aggregates.rollup_count as int),
        counts(r, "sql.having.count"@, f.aggregates.having_count as int),
        counts(r, "sql.set_op.count"@, f.set_ops.count as int),
        counts(r, "sql.set_op.kind_count.except"@, f.set_ops.except_count as int),
        counts(r, "sql.set_op.kind_count.intersect"@, f.set_ops.intersect_count as int),
        counts(r, "sql.set_op.kind_count.union"@, f.set_ops.union_count as int),
        counts(r, "sql.set_op.kind_count.union_all"@, f.set_ops.union_all_count as int),
        shares(
            r,
            "sql.set_op.union_all_ratio"@,
            f.set_ops.union_all_count as int,
            f.set_ops.union_count + f.set_ops.union_all_count,
        ),
        counts(r, "sql.window.frame_count"@, f.windows.frame_count as int),
        counts(r, "sql.window.function_count"@, f.windows.function_count as int),
        counts(r, "sql.window.order_expression_count"@, f.windows.order_expression_count as int),
        counts(
            r,
            "sql.window.partition_expression_count"@,
            f.windows.partition_expression_count as int,
        ),
{
    lemma_published(f, loc, d, r, MetricKey::AggregateDistinctCount);
    lemma_published(f, loc, d, r, MetricKey::AggregateFunctionCount);
    lemma_published(f, loc, d, r, MetricKey::GroupByCount);
    lemma_published(f, loc, d, r, MetricKey::GroupByCubeCount);
    lemma_published(f, loc, d, r, MetricKey::GroupByGroupingSetsCount);
    lemma_published(f, loc, d, r, MetricKey::GroupByRollupCount);
    lemma_published(f, loc, d, r, MetricKey::HavingCount);
    lemma_published(f, loc, d, r, MetricKey::SetOpCount);
    lemma_published(f, loc, d, r, MetricKey::SetOpKindCountExcept);
    lemma_published(f, loc, d, r, MetricKey::SetOpKindCountIntersect);
    lemma_published(f, loc, d, r, MetricKey::SetOpKindCountUnion);
    lemma_published(f, loc, d, r, MetricKey::SetOpKindCountUnionAll);
    lemma_published(f, loc, d, r, MetricKey::SetOpUnionAllRatio);
    lemma_published(f, loc, d, r, MetricKey::WindowFrameCount);
    lemma_published(f, loc, d, r, MetricKey::WindowFunctionCount);
    lemma_published(f, loc, d, r, MetricKey::WindowOrderExpressionCount);
    lemma_published(f, loc, d, r, MetricKey::WindowPartitionExpressionCount);
}

/// Cases, casts, calls and predicates stand under these names.
pub proof fn expression_metrics_are_published(
    f: SqlFileFacts,
    loc: SqlLoc,
    d: DialectResolution,
    r: Seq<Metric>,
)
    requires
        describes_metrics(f, loc, d, r),
    ensures
        counts(r, "sql.case.count"@, f.cases.count as int),
        counts(r, "sql.case.max_depth"@, f.cases.max_depth as int),
        counts(r, "sql.case.max_when_count"@, f.cases.max_when_count as int),
        counts(r, "sql.case.missing_else_count"@, f.cases.missing_else_count as int),
        counts(r, "sql.case.when_count"@, f.cases.when_count as int),
        counts(r, "sql.cast.count"@, f.expressions.cast_count as int),
        counts(r, "sql.expression.max_depth"@, f.expressions.max_depth as int),
        counts(r, "sql.function.call_count"@, f.expressions.function_call_count as int),
        counts(r, "sql.function.distinct_count"@, f.expressions.distinct_function_count as int),
        counts(r, "sql.function.nested_call_depth"@, f.expressions.max_function_nesting as int),
        counts(
            r,
            "sql.predicate.boolean_operator_count"@,
            f.predicates.boolean_operator_count as int,
        ),
        counts(r, "sql.predicate.comparison_count"@, f.predicates.comparison_count as int),
        counts(r, "sql.predicate.max_boolean_depth"@, f.predicates.max_boolean_depth as int),
        counts(r, "sql.predicate.not_count"@, f.predicates.not_count as int),
        counts(
            r,
            "sql.predicate.null_semantics_risk_count"@,
            f.predicates.null_semantics_risk_count as int,
        ),
{
    lemma_published(f, loc, d, r, MetricKey::CaseCount);
    lemma_published(f, loc, d, r, MetricKey::CaseMaxDepth);
    lemma_published(f, loc, d, r, MetricKey::CaseMaxWhenCount);
    lemma_published(f, loc, d, r, MetricKey::CaseMissingElseCount);
    lemma_published(f, loc, d, r, MetricKey::CaseWhenCount);
    lemma_published(f, loc, d, r, MetricKey::CastCount);
    lemma_published(f, loc, d, r, MetricKey::ExpressionMaxDepth);
    lemma_published(f, loc, d, r, MetricKey::FunctionCallCount);
    lemma_published(f, loc, d, r, MetricKey::FunctionDistinctCount);
    lemma_published(f, loc, d, r, MetricKey::FunctionNestedCallDepth);
    lemma_published(f, loc, d, r, MetricKey::PredicateBooleanOperatorCount);
    lemma_published(f, loc, d, r, MetricKey::PredicateComparisonCount);
    lemma_published(f, loc, d, r, MetricKey::PredicateMaxBooleanDepth);
    lemma_published(f, loc, d, r, MetricKey::PredicateNotCount);
    lemma_published(f, loc, d, r, MetricKey::PredicateNullSemanticsRiskCount);
}

/// What is written, defined and granted stands under these names.
pub proof fn object_metrics_are_published(
    f: SqlFileFacts,
    loc: SqlLoc,
    d: DialectResolution,
    r: Seq<Metric>,
)
    requires
        describes_metrics(f, loc, d, r),
    ensures
        counts(r, "sql.dcl.grant_revoke_count"@, f.objects.grant_revoke_count as int),
        counts(r, "sql.ddl.alter_count"@, f.objects.alter_count as int),
        counts(r, "sql.ddl.create_count"@, f.objects.create_count as int),
        counts(r, "sql.ddl.create_or_replace_count"@, f.objects.create_or_replace_count as int),
        counts(r, "sql.ddl.drop_count"@, f.objects.drop_count as int),
        counts(r, "sql.ddl.truncate_count"@, f.objects.truncate_count as int),
        counts(r, "sql.dml.delete_count"@, f.objects.delete_count as int),
        counts(
            r,
            "sql.dml.delete_without_where_count"@,
            f.objects.delete_without_where_count as int,
        ),
        counts(r, "sql.dml.insert_count"@, f.objects.insert_count as int),
        counts(r, "sql.dml.merge_count"@, f.objects.merge_count as int),
        counts(r, "sql.dml.returning_count"@, f.objects.returning_count as int),
        counts(r, "sql.dml.update_count"@, f.objects.update_count as int),
        counts(
            r,
            "sql.dml.update_without_where_count"@,
            f.objects.update_without_where_count as int,
        ),
        counts(r, "sql.object.read_count"@, f.objects.read_object_count as int),
        counts(r, "sql.object.touch_count"@, f.objects.touch_count as int),
        counts(r, "sql.object.write_count"@, f.objects.write_object_count as int),
        counts(r, "sql.transaction.control_count"@, f.objects.transaction_control_count as int),
{
    lemma_published(f, loc, d, r, MetricKey::DclGrantRevokeCount);
    lemma_published(f, loc, d, r, MetricKey::DdlAlterCount);
    lemma_published(f, loc, d, r, MetricKey::DdlCreateCount);
    lemma_published(f, loc, d, r, MetricKey::DdlCreateOrReplaceCount);
    lemma_published(f, loc, d, r, MetricKey::DdlDropCount);
    lemma_published(f, loc, d, r, MetricKey::DdlTruncateCount);
    lemma_published(f, loc, d, r, MetricKey::DmlDeleteCount);
    lemma_published(f, loc, d, r, MetricKey::DmlDeleteWithoutWhereCount);
    lemma_published(f, loc, d, r, MetricKey::DmlInsertCount);
    lemma_published(f, loc, d, r, MetricKey::DmlMergeCount);
    lemma_published(f, loc, d, r, MetricKey::DmlReturningCount);
    lemma_published(f, loc, d, r, MetricKey::DmlUpdateCount);
    lemma_published(f, loc, d, r, MetricKey::DmlUpdateWithoutWhereCount);
    lemma_published(f, loc, d, r, MetricKey::ObjectReadCount);
    lemma_published(f, loc, d, r, MetricKey::ObjectTouchCount);
    lemma_published(f, loc, d, r, MetricKey::ObjectWriteCount);
    lemma_published(f, loc, d, r, MetricKey::TransactionControlCount);
}

/// What procedural code does stands under these names.
pub proof fn procedural_metrics_are_published(
    f: SqlFileFacts,
    loc: SqlLoc,
    d: DialectResolution,
    r: Seq<Metric>,
)
    requires
        describes_metrics(f, loc, d, r),
    ensures
        counts(r, "sql.procedural.block_count"@, f.procedural.block_count as int),
        counts(r, "sql.procedural.case_statement_count"@, f.procedural.case_statement_count as int),
        counts(r, "sql.procedural.cognitive_complexity"@, f.procedural.cognitive_complexity as int),
        counts(
            r,
            "sql.procedural.cyclomatic_complexity"@,
            f.procedural.cyclomatic_complexity as int,
        ),
        counts(r, "sql.procedural.dynamic_sql_count"@, f.procedural.dynamic_sql_count as int),
        counts(
            r,
            "sql.procedural.exception_handler_count"@,
            f.procedural.exception_handler_count as int,
        ),
        counts(r, "sql.procedural.if_count"@, f.procedural.if_count as int),
        counts(r, "sql.procedural.loop_count"@, f.procedural.loop_count as int),
        counts(r, "sql.procedural.max_block_depth"@, f.procedural.max_block_depth as int),
        counts(r, "sql.procedural.raise_throw_count"@, f.procedural.raise_throw_count as int),
        counts(r, "sql.procedural.return_count"@, f.procedural.return_count as int),
        counts(r, "sql.procedural.routine_count"@, f.procedural.routine_count as int),
{
    lemma_published(f, loc, d, r, MetricKey::ProceduralBlockCount);
    lemma_published(f, loc, d, r, MetricKey::ProceduralCaseStatementCount);
    lemma_published(f, loc, d, r, MetricKey::ProceduralCognitiveComplexity);
    lemma_published(f, loc, d, r, MetricKey::ProceduralCyclomaticComplexity);
    lemma_published(f, loc, d, r, MetricKey::ProceduralDynamicSqlCount);
    lemma_published(f, loc, d, r, MetricKey::ProceduralExceptionHandlerCount);
    lemma_published(f, loc, d, r, MetricKey::ProceduralIfCount);
    lemma_published(f, loc, d, r, MetricKey::ProceduralLoopCount);
    lemma_published(f, loc, d, r, MetricKey::ProceduralMaxBlockDepth);
    lemma_published(f, loc, d, r, MetricKey::ProceduralRaiseThrowCount);
    lemma_published(f, loc, d, r, MetricKey::ProceduralReturnCount);
    lemma_published(f, loc, d, r, MetricKey::ProceduralRoutineCount);
}

/// The operators and operands stand under these names.
pub proof fn size_metrics_are_published(
    f: SqlFileFacts,
    loc: SqlLoc,
    d: DialectResolution,
    r: Seq<Metric>,
)
    requires
        describes_metrics(f, loc, d, r),
    ensures
        shares(
            r,
            "sql.halstead.difficulty"@,
            f.halstead.distinct_operators * f.halstead.total_operands,
            2 * f.halstead.distinct_operands,
        ),
        counts(r, "sql.halstead.distinct_operands"@, f.halstead.distinct_operands as int),
        counts(r, "sql.halstead.distinct_operators"@, f.halstead.distinct_operators as int),
        counts(r, "sql.halstead.length"@, f.halstead.total_operators + f.halstead.total_operands),
        counts(r, "sql.halstead.total_operands"@, f.halstead.total_operands as int),
        counts(r, "sql.halstead.total_operators"@, f.halstead.total_operators as int),
        counts(
            r,
            "sql.halstead.vocabulary"@,
            f.halstead.distinct_operators + f.halstead.distinct_operands,
        ),
{
    lemma_published(f, loc, d, r, MetricKey::HalsteadDifficulty);
    lemma_published(f, loc, d, r, MetricKey::HalsteadDistinctOperands);
    lemma_published(f, loc, d, r, MetricKey::HalsteadDistinctOperators);
    lemma_published(f, loc, d, r, MetricKey::HalsteadLength);
    lemma_published(f, loc, d, r, MetricKey::HalsteadTotalOperands);
    lemma_published(f, loc, d, r, MetricKey::HalsteadTotalOperators);
    lemma_published(f, loc, d, r, MetricKey::HalsteadVocabulary);
}

/// The scores stand under these names.
pub proof fn score_metrics_are_published(
    f: SqlFileFacts,
    loc: SqlLoc,
    d: DialectResolution,
    r: Seq<Metric>,
)
    requires
        describes_metrics(f, loc, d, r),
    ensures
        counts(r, "sql.change_risk_score"@, risk_score(f)),
        shares(r, "sql.cognitive_complexity"@, cognitive_score(f), 4),
        shares(r, "sql.structural_complexity"@, structural_score(f), 100),
        shares(
            r,
            "sql.structural_complexity.max_embedded_query"@,
            f.procedural.max_embedded_query_structural as int,
            100,
        ),
{
    lemma_published(f, loc, d, r, MetricKey::ChangeRiskScore);
    lemma_published(f, loc, d, r, MetricKey::CognitiveComplexity);
    lemma_published(f, loc, d, r, MetricKey::StructuralComplexity);
    lemma_published(f, loc, d, r, MetricKey::StructuralComplexityMaxEmbeddedQuery);
}

/// The volume is that of the length and the vocabulary, and the effort is the
/// volume times the difficulty.
pub proof fn volume_and_effort_are_published(
    f: SqlFileFacts,
    loc: SqlLoc,
    d: DialectResolution,
    r: Seq<Metric>,
)
    requires
        describes_metrics(f, loc, d, r),
    ensures
        published(
            r,
            "sql.halstead.volume"@,
            MetricView::Volume {
                length: (f.halstead.total_operators + f.halstead.total_operands) as u64,
                vocabulary: (f.halstead.distinct_operators + f.halstead.distinct_operands) as u64,
            },
        ),
        f.halstead.distinct_operands > 0 ==> published(
            r,
            "sql.halstead.effort"@,
            MetricView::Effort {
                num: (f.halstead.distinct_operators * f.halstead.total_operands) as u128,
                den: (2 * f.halstead.distinct_operands) as u128,
                length: (f.halstead.total_operators + f.halstead.total_operands) as u64,
                vocabulary: (f.halstead.distinct_operators + f.halstead.distinct_operands) as u64,
            },
        ),
{
    lemma_published(f, loc, d, r, MetricKey::HalsteadVolume);
    lemma_published(f, loc, d, r, MetricKey::HalsteadEffort);
}

/// What share of the derived outputs has a name; all of them where there is
/// none.
pub proof fn alias_coverage_is_published(
    f: SqlFileFacts,
    loc: SqlLoc,
    d: DialectResolution,
    r: Seq<Metric>,
)
    requires
        describes_metrics(f, loc, d, r),
    ensures
        f.output.derived_expression_count != 0 ==> shares(
            r,
            "sql.select.output_alias_coverage"@,
            f.output.aliased_derived_expression_count as int,
            f.output.derived_expression_count as int,
        ),
        f.output.derived_expression_count == 0 ==> shares(
            r,
            "sql.select.output_alias_coverage"@,
            1,
            1,
        ),
{
    lemma_published(f, loc, d, r, MetricKey::SelectOutputAliasCoverage);
}

/// The indices stand under these names.
pub proof fn indices_are_published(
    f: SqlFileFacts,
    loc: SqlLoc,
    d: DialectResolution,
    r: Seq<Metric>,
)
    requires
        describes_metrics(f, loc, d, r),
    ensures
        published(
            r,
            "sql.maintainability_index"@,
            MetricView::Index(maintainability_terms(f, d.conflict_count as int)),
        ),
        published(r, "sql.modularity_health"@, MetricView::Index(modularity_terms(f))),
        published(
            r,
            "sql.review_burden_index"@,
            MetricView::Index(review_terms(f, loc, d.conflict_count as int)),
        ),
{
    lemma_published(f, loc, d, r, MetricKey::MaintainabilityIndex);
    lemma_published(f, loc, d, r, MetricKey::ModularityHealth);
    lemma_published(f, loc, d, r, MetricKey::ReviewBurdenIndex);
}

/// How many statements are of a kind stands under the name of the kind, and is
/// what the entropy is taken of.
pub proof fn kinds_are_published(
    f: SqlFileFacts,
    loc: SqlLoc,
    d: DialectResolution,
    r: Seq<Metric>,
    kind: StatementKind,
)
    requires
        describes_metrics(f, loc, d, r),
    ensures
        counts(
            r,
            "sql.statement.kind_count."@ + kind.spelled(),
            number(0, f.statements@.len() as int, |i: int| f.statements@[i].kind == kind),
        ),
        exists|shares: Seq<u64>| #[trigger]
            published(r, "sql.statement.kind_entropy"@, MetricView::Entropy(shares)) && shares.len()
                == STATEMENT_KINDS && shares[kind_rank(kind)] == number(
                0,
                f.statements@.len() as int,
                |i: int| f.statements@[i].kind == kind,
            ) as u64,
{
    lemma_kind_rank(kind);
    lemma_tally_is_number(f.statements@, kind);
    let i = FIXED_KEYS + kind_rank(kind);
    assert(r[i].key == MetricKey::StatementKindCount(kind));
    lemma_published(f, loc, d, r, MetricKey::StatementKindEntropy);
    let shares = kind_counts(f.statements@);
    assert(published(r, "sql.statement.kind_entropy"@, MetricView::Entropy(shares)));
}

proof fn lemma_tally_is_number(s: Seq<StatementFacts>, kind: StatementKind)
    ensures
        kind_tally(s, kind) == number(0, s.len() as int, |i: int| s[i].kind == kind),
    decreases s.len(),
{
    if s.len() > 0 {
        let t = s.drop_last();
        lemma_tally_is_number(t, kind);
        lemma_same_number(
            0,
            t.len() as int,
            |i: int| t[i].kind == kind,
            |i: int| s[i].kind == kind,
        );
    }
}

/// The dialect that a file was read in is the one that is marked.
pub proof fn effective_dialect_is_published(
    f: SqlFileFacts,
    loc: SqlLoc,
    d: DialectResolution,
    r: Seq<Metric>,
)
    requires
        describes_metrics(f, loc, d, r),
    ensures
        counts(r, "sql.dialect.is_"@ + d.effective.spelled(), 1),
        forall|i: int|
            0 <= i < r.len() ==> ((#[trigger] r[i]).key matches MetricKey::DialectIs(kind) ==> kind
                == d.effective),
{
    let i = FIXED_KEYS + STATEMENT_KINDS;
    assert(r[i].key == MetricKey::DialectIs(d.effective));
    assert forall|i: int| 0 <= i < r.len() implies ((#[trigger] r[i]).key matches MetricKey::DialectIs(
        kind,
    ) ==> kind == d.effective) by {
        if i < FIXED_KEYS {
            fixed_keys_are_distinct(i);
        }
    }
}

} // verus!
