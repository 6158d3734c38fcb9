//! The names of the metrics.

use vstd::prelude::*;

use crate::grammar::{
    dialect_label, dialect_named, has_grammar, kind_named, names_are_distinct, DialectKind,
};
use crate::statements::StatementKind;
use crate::text::{begins_with, chars_of, same, slice_of, starts_with, string_of};

verus! {

/// The name of a metric.
#[derive(Clone, Copy, Debug, PartialEq, Eq, Structural)]
pub enum MetricKey {
    AggregateDistinctCount,
    AggregateFunctionCount,
    AliasTableAliasCount,
    CaseCount,
    CaseMaxDepth,
    CaseMaxWhenCount,
    CaseMissingElseCount,
    CaseWhenCount,
    CastCount,
    ChangeRiskScore,
    CognitiveComplexity,
    CteCount,
    CteDependencyEdges,
    CteMaxDependencyDepth,
    CteMaxFanOut,
    CteRecursiveCount,
    CteTrivialCount,
    CteUnusedCount,
    DclGrantRevokeCount,
    DdlAlterCount,
    DdlCreateCount,
    DdlCreateOrReplaceCount,
    DdlDropCount,
    DdlTruncateCount,
    DerivedTableCount,
    DialectConfidence,
    DialectConflictCount,
    DialectDirectivePresent,
    DialectRequested,
    DmlDeleteCount,
    DmlDeleteWithoutWhereCount,
    DmlInsertCount,
    DmlMergeCount,
    DmlReturningCount,
    DmlUpdateCount,
    DmlUpdateWithoutWhereCount,
    ExpressionMaxDepth,
    FunctionCallCount,
    FunctionDistinctCount,
    FunctionNestedCallDepth,
    GroupByCount,
    GroupByCubeCount,
    GroupByGroupingSetsCount,
    GroupByRollupCount,
    HalsteadDifficulty,
    HalsteadDistinctOperands,
    HalsteadDistinctOperators,
    HalsteadEffort,
    HalsteadLength,
    HalsteadTotalOperands,
    HalsteadTotalOperators,
    HalsteadVocabulary,
    HalsteadVolume,
    HavingCount,
    IdentifierQuotedCount,
    IdentifierUnqualifiedColumnRatio,
    JoinCount,
    JoinCrossCount,
    JoinKindCountCross,
    JoinKindCountFull,
    JoinKindCountInner,
    JoinKindCountLateral,
    JoinKindCountLeft,
    JoinKindCountNatural,
    JoinKindCountRight,
    JoinMissingConditionCount,
    JoinNaturalCount,
    JoinNonEquiCount,
    JoinOuterCount,
    LocAvgStatementLines,
    LocBlank,
    LocCode,
    LocComment,
    LocCommentDensity,
    LocLogical,
    LocMaxStatementLines,
    LocPhysical,
    MaintainabilityIndex,
    ModularityHealth,
    ObjectReadCount,
    ObjectTouchCount,
    ObjectWriteCount,
    ParserDiagnosticCount,
    ParserUnparsableLineCount,
    ParserUnparsableRatio,
    ParserUnparsableSegmentCount,
    PredicateBooleanOperatorCount,
    PredicateComparisonCount,
    PredicateMaxBooleanDepth,
    PredicateNotCount,
    PredicateNullSemanticsRiskCount,
    ProceduralBlockCount,
    ProceduralCaseStatementCount,
    ProceduralCognitiveComplexity,
    ProceduralCyclomaticComplexity,
    ProceduralDynamicSqlCount,
    ProceduralExceptionHandlerCount,
    ProceduralIfCount,
    ProceduralLoopCount,
    ProceduralMaxBlockDepth,
    ProceduralRaiseThrowCount,
    ProceduralReturnCount,
    ProceduralRoutineCount,
    QueryBlockAvgSelectItems,
    QueryBlockCount,
    QueryBlockMaxDepth,
    QueryBlockMaxSelectItems,
    RelationRefCount,
    ReviewBurdenIndex,
    SelectExpressionWithoutAliasCount,
    SelectOuterStarCount,
    SelectOutputAliasCoverage,
    SelectStarCount,
    SetOpCount,
    SetOpKindCountExcept,
    SetOpKindCountIntersect,
    SetOpKindCountUnion,
    SetOpKindCountUnionAll,
    SetOpUnionAllRatio,
    StatementCount,
    StatementKindDistinct,
    StatementKindEntropy,
    StatementUnparsedCount,
    StructuralComplexity,
    StructuralComplexityMaxEmbeddedQuery,
    SubqueryCorrelatedCount,
    SubqueryCount,
    SubqueryExistsCount,
    SubqueryInCount,
    SubqueryMaxDepth,
    SubqueryScalarCount,
    TransactionControlCount,
    WindowFrameCount,
    WindowFunctionCount,
    WindowOrderExpressionCount,
    WindowPartitionExpressionCount,
    /// The number of statements of a kind.
    StatementKindCount(StatementKind),
    /// One for the dialect that a file was parsed with.
    DialectIs(DialectKind),
    /// The lines of one statement.
    StatementLines,
}

/// The number of metrics with a name of their own that a file has.
pub const FIXED_KEYS: usize = 136;

/// The number of statement kinds.
pub const STATEMENT_KINDS: usize = 21;

/// The statement kind in place `i`.
pub open spec fn kind_at(i: int) -> StatementKind {
    if i == 0 {
        StatementKind::Select
    } else if i == 1 {
        StatementKind::WithSelect
    } else if i == 2 {
        StatementKind::Insert
    } else if i == 3 {
        StatementKind::Update
    } else if i == 4 {
        StatementKind::Delete
    } else if i == 5 {
        StatementKind::Merge
    } else if i == 6 {
        StatementKind::CreateView
    } else if i == 7 {
        StatementKind::CreateTable
    } else if i == 8 {
        StatementKind::CreateTableAsSelect
    } else if i == 9 {
        StatementKind::CreateOther
    } else if i == 10 {
        StatementKind::AlterTable
    } else if i == 11 {
        StatementKind::Drop
    } else if i == 12 {
        StatementKind::Truncate
    } else if i == 13 {
        StatementKind::Grant
    } else if i == 14 {
        StatementKind::Revoke
    } else if i == 15 {
        StatementKind::TransactionControl
    } else if i == 16 {
        StatementKind::Explain
    } else if i == 17 {
        StatementKind::Procedural
    } else if i == 18 {
        StatementKind::AnonymousBlock
    } else if i == 19 {
        StatementKind::SetOperation
    } else {
        StatementKind::Unknown
    }
}

/// The place of a statement kind.
pub open spec fn kind_rank(kind: StatementKind) -> int {
    match kind {
        StatementKind::Select => 0,
        StatementKind::WithSelect => 1,
        StatementKind::Insert => 2,
        StatementKind::Update => 3,
        StatementKind::Delete => 4,
        StatementKind::Merge => 5,
        StatementKind::CreateView => 6,
        StatementKind::CreateTable => 7,
        StatementKind::CreateTableAsSelect => 8,
        StatementKind::CreateOther => 9,
        StatementKind::AlterTable => 10,
        StatementKind::Drop => 11,
        StatementKind::Truncate => 12,
        StatementKind::Grant => 13,
        StatementKind::Revoke => 14,
        StatementKind::TransactionControl => 15,
        StatementKind::Explain => 16,
        StatementKind::Procedural => 17,
        StatementKind::AnonymousBlock => 18,
        StatementKind::SetOperation => 19,
        StatementKind::Unknown => 20,
    }
}

/// The fixed metric in place `i`, in alphabetical order of their names.
pub open spec fn key_at(i: int) -> MetricKey {
    if i == 0 {
        MetricKey::AggregateDistinctCount
    } else if i == 1 {
        MetricKey::AggregateFunctionCount
    } else if i == 2 {
        MetricKey::AliasTableAliasCount
    } else if i == 3 {
        MetricKey::CaseCount
    } else if i == 4 {
        MetricKey::CaseMaxDepth
    } else if i == 5 {
        MetricKey::CaseMaxWhenCount
    } else if i == 6 {
        MetricKey::CaseMissingElseCount
    } else if i == 7 {
        MetricKey::CaseWhenCount
    } else if i == 8 {
        MetricKey::CastCount
    } else if i == 9 {
        MetricKey::ChangeRiskScore
    } else if i == 10 {
        MetricKey::CognitiveComplexity
    } else if i == 11 {
        MetricKey::CteCount
    } else if i == 12 {
        MetricKey::CteDependencyEdges
    } else if i == 13 {
        MetricKey::CteMaxDependencyDepth
    } else if i == 14 {
        MetricKey::CteMaxFanOut
    } else if i == 15 {
        MetricKey::CteRecursiveCount
    } else if i == 16 {
        MetricKey::CteTrivialCount
    } else if i == 17 {
        MetricKey::CteUnusedCount
    } else if i == 18 {
        MetricKey::DclGrantRevokeCount
    } else if i == 19 {
        MetricKey::DdlAlterCount
    } else if i == 20 {
        MetricKey::DdlCreateCount
    } else if i == 21 {
        MetricKey::DdlCreateOrReplaceCount
    } else if i == 22 {
        MetricKey::DdlDropCount
    } else if i == 23 {
        MetricKey::DdlTruncateCount
    } else if i == 24 {
        MetricKey::DerivedTableCount
    } else if i == 25 {
        MetricKey::DialectConfidence
    } else if i == 26 {
        MetricKey::DialectConflictCount
    } else if i == 27 {
        MetricKey::DialectDirectivePresent
    } else if i == 28 {
        MetricKey::DialectRequested
    } else if i == 29 {
        MetricKey::DmlDeleteCount
    } else if i == 30 {
        MetricKey::DmlDeleteWithoutWhereCount
    } else if i == 31 {
        MetricKey::DmlInsertCount
    } else if i == 32 {
        MetricKey::DmlMergeCount
    } else if i == 33 {
        MetricKey::DmlReturningCount
    } else if i == 34 {
        MetricKey::DmlUpdateCount
    } else if i == 35 {
        MetricKey::DmlUpdateWithoutWhereCount
    } else if i == 36 {
        MetricKey::ExpressionMaxDepth
    } else if i == 37 {
        MetricKey::FunctionCallCount
    } else if i == 38 {
        MetricKey::FunctionDistinctCount
    } else if i == 39 {
        MetricKey::FunctionNestedCallDepth
    } else if i == 40 {
        MetricKey::GroupByCount
    } else if i == 41 {
        MetricKey::GroupByCubeCount
    } else if i == 42 {
        MetricKey::GroupByGroupingSetsCount
    } else if i == 43 {
        MetricKey::GroupByRollupCount
    } else if i == 44 {
        MetricKey::HalsteadDifficulty
    } else if i == 45 {
        MetricKey::HalsteadDistinctOperands
    } else if i == 46 {
        MetricKey::HalsteadDistinctOperators
    } else if i == 47 {
        MetricKey::HalsteadEffort
    } else if i == 48 {
        MetricKey::HalsteadLength
    } else if i == 49 {
        MetricKey::HalsteadTotalOperands
    } else if i == 50 {
        MetricKey::HalsteadTotalOperators
    } else if i == 51 {
        MetricKey::HalsteadVocabulary
    } else if i == 52 {
        MetricKey::HalsteadVolume
    } else if i == 53 {
        MetricKey::HavingCount
    } else if i == 54 {
        MetricKey::IdentifierQuotedCount
    } else if i == 55 {
        MetricKey::IdentifierUnqualifiedColumnRatio
    } else if i == 56 {
        MetricKey::JoinCount
    } else if i == 57 {
        MetricKey::JoinCrossCount
    } else if i == 58 {
        MetricKey::JoinKindCountCross
    } else if i == 59 {
        MetricKey::JoinKindCountFull
    } else if i == 60 {
        MetricKey::JoinKindCountInner
    } else if i == 61 {
        MetricKey::JoinKindCountLateral
    } else if i == 62 {
        MetricKey::JoinKindCountLeft
    } else if i == 63 {
        MetricKey::JoinKindCountNatural
    } else if i == 64 {
        MetricKey::JoinKindCountRight
    } else if i == 65 {
        MetricKey::JoinMissingConditionCount
    } else if i == 66 {
        MetricKey::JoinNaturalCount
    } else if i == 67 {
        MetricKey::JoinNonEquiCount
    } else if i == 68 {
        MetricKey::JoinOuterCount
    } else if i == 69 {
        MetricKey::LocAvgStatementLines
    } else if i == 70 {
        MetricKey::LocBlank
    } else if i == 71 {
        MetricKey::LocCode
    } else if i == 72 {
        MetricKey::LocComment
    } else if i == 73 {
        MetricKey::LocCommentDensity
    } else if i == 74 {
        MetricKey::LocLogical
    } else if i == 75 {
        MetricKey::LocMaxStatementLines
    } else if i == 76 {
        MetricKey::LocPhysical
    } else if i == 77 {
        MetricKey::MaintainabilityIndex
    } else if i == 78 {
        MetricKey::ModularityHealth
    } else if i == 79 {
        MetricKey::ObjectReadCount
    } else if i == 80 {
        MetricKey::ObjectTouchCount
    } else if i == 81 {
        MetricKey::ObjectWriteCount
    } else if i == 82 {
        MetricKey::ParserDiagnosticCount
    } else if i == 83 {
        MetricKey::ParserUnparsableLineCount
    } else if i == 84 {
        MetricKey::ParserUnparsableRatio
    } else if i == 85 {
        MetricKey::ParserUnparsableSegmentCount
    } else if i == 86 {
        MetricKey::PredicateBooleanOperatorCount
    } else if i == 87 {
        MetricKey::PredicateComparisonCount
    } else if i == 88 {
        MetricKey::PredicateMaxBooleanDepth
    } else if i == 89 {
        MetricKey::PredicateNotCount
    } else if i == 90 {
        MetricKey::PredicateNullSemanticsRiskCount
    } else if i == 91 {
        MetricKey::ProceduralBlockCount
    } else if i == 92 {
        MetricKey::ProceduralCaseStatementCount
    } else if i == 93 {
        MetricKey::ProceduralCognitiveComplexity
    } else if i == 94 {
        MetricKey::ProceduralCyclomaticComplexity
    } else if i == 95 {
        MetricKey::ProceduralDynamicSqlCount
    } else if i == 96 {
        MetricKey::ProceduralExceptionHandlerCount
    } else if i == 97 {
        MetricKey::ProceduralIfCount
    } else if i == 98 {
        MetricKey::ProceduralLoopCount
    } else if i == 99 {
        MetricKey::ProceduralMaxBlockDepth
    } else if i == 100 {
        MetricKey::ProceduralRaiseThrowCount
    } else if i == 101 {
        MetricKey::ProceduralReturnCount
    } else if i == 102 {
        MetricKey::ProceduralRoutineCount
    } else if i == 103 {
        MetricKey::QueryBlockAvgSelectItems
    } else if i == 104 {
        MetricKey::QueryBlockCount
    } else if i == 105 {
        MetricKey::QueryBlockMaxDepth
    } else if i == 106 {
        MetricKey::QueryBlockMaxSelectItems
    } else if i == 107 {
        MetricKey::RelationRefCount
    } else if i == 108 {
        MetricKey::ReviewBurdenIndex
    } else if i == 109 {
        MetricKey::SelectExpressionWithoutAliasCount
    } else if i == 110 {
        MetricKey::SelectOuterStarCount
    } else if i == 111 {
        MetricKey::SelectOutputAliasCoverage
    } else if i == 112 {
        MetricKey::SelectStarCount
    } else if i == 113 {
        MetricKey::SetOpCount
    } else if i == 114 {
        MetricKey::SetOpKindCountExcept
    } else if i == 115 {
        MetricKey::SetOpKindCountIntersect
    } else if i == 116 {
        MetricKey::SetOpKindCountUnion
    } else if i == 117 {
        MetricKey::SetOpKindCountUnionAll
    } else if i == 118 {
        MetricKey::SetOpUnionAllRatio
    } else if i == 119 {
        MetricKey::StatementCount
    } else if i == 120 {
        MetricKey::StatementKindDistinct
    } else if i == 121 {
        MetricKey::StatementKindEntropy
    } else if i == 122 {
        MetricKey::StatementUnparsedCount
    } else if i == 123 {
        MetricKey::StructuralComplexity
    } else if i == 124 {
        MetricKey::StructuralComplexityMaxEmbeddedQuery
    } else if i == 125 {
        MetricKey::SubqueryCorrelatedCount
    } else if i == 126 {
        MetricKey::SubqueryCount
    } else if i == 127 {
        MetricKey::SubqueryExistsCount
    } else if i == 128 {
        MetricKey::SubqueryInCount
    } else if i == 129 {
        MetricKey::SubqueryMaxDepth
    } else if i == 130 {
        MetricKey::SubqueryScalarCount
    } else if i == 131 {
        MetricKey::TransactionControlCount
    } else if i == 132 {
        MetricKey::WindowFrameCount
    } else if i == 133 {
        MetricKey::WindowFunctionCount
    } else if i == 134 {
        MetricKey::WindowOrderExpressionCount
    } else {
        MetricKey::WindowPartitionExpressionCount
    }
}

/// The place of a fixed metric.
pub open spec fn key_rank(key: MetricKey) -> int {
    match key {
        MetricKey::AggregateDistinctCount => 0,
        MetricKey::AggregateFunctionCount => 1,
        MetricKey::AliasTableAliasCount => 2,
        MetricKey::CaseCount => 3,
        MetricKey::CaseMaxDepth => 4,
        MetricKey::CaseMaxWhenCount => 5,
        MetricKey::CaseMissingElseCount => 6,
        MetricKey::CaseWhenCount => 7,
        MetricKey::CastCount => 8,
        MetricKey::ChangeRiskScore => 9,
        MetricKey::CognitiveComplexity => 10,
        MetricKey::CteCount => 11,
        MetricKey::CteDependencyEdges => 12,
        MetricKey::CteMaxDependencyDepth => 13,
        MetricKey::CteMaxFanOut => 14,
        MetricKey::CteRecursiveCount => 15,
        MetricKey::CteTrivialCount => 16,
        MetricKey::CteUnusedCount => 17,
        MetricKey::DclGrantRevokeCount => 18,
        MetricKey::DdlAlterCount => 19,
        MetricKey::DdlCreateCount => 20,
        MetricKey::DdlCreateOrReplaceCount => 21,
        MetricKey::DdlDropCount => 22,
        MetricKey::DdlTruncateCount => 23,
        MetricKey::DerivedTableCount => 24,
        MetricKey::DialectConfidence => 25,
        MetricKey::DialectConflictCount => 26,
        MetricKey::DialectDirectivePresent => 27,
        MetricKey::DialectRequested => 28,
        MetricKey::DmlDeleteCount => 29,
        MetricKey::DmlDeleteWithoutWhereCount => 30,
        MetricKey::DmlInsertCount => 31,
        MetricKey::DmlMergeCount => 32,
        MetricKey::DmlReturningCount => 33,
        MetricKey::DmlUpdateCount => 34,
        MetricKey::DmlUpdateWithoutWhereCount => 35,
        MetricKey::ExpressionMaxDepth => 36,
        MetricKey::FunctionCallCount => 37,
        MetricKey::FunctionDistinctCount => 38,
        MetricKey::FunctionNestedCallDepth => 39,
        MetricKey::GroupByCount => 40,
        MetricKey::GroupByCubeCount => 41,
        MetricKey::GroupByGroupingSetsCount => 42,
        MetricKey::GroupByRollupCount => 43,
        MetricKey::HalsteadDifficulty => 44,
        MetricKey::HalsteadDistinctOperands => 45,
        MetricKey::HalsteadDistinctOperators => 46,
        MetricKey::HalsteadEffort => 47,
        MetricKey::HalsteadLength => 48,
        MetricKey::HalsteadTotalOperands => 49,
        MetricKey::HalsteadTotalOperators => 50,
        MetricKey::HalsteadVocabulary => 51,
        MetricKey::HalsteadVolume => 52,
        MetricKey::HavingCount => 53,
        MetricKey::IdentifierQuotedCount => 54,
        MetricKey::IdentifierUnqualifiedColumnRatio => 55,
        MetricKey::JoinCount => 56,
        MetricKey::JoinCrossCount => 57,
        MetricKey::JoinKindCountCross => 58,
        MetricKey::JoinKindCountFull => 59,
        MetricKey::JoinKindCountInner => 60,
        MetricKey::JoinKindCountLateral => 61,
        MetricKey::JoinKindCountLeft => 62,
        MetricKey::JoinKindCountNatural => 63,
        MetricKey::JoinKindCountRight => 64,
        MetricKey::JoinMissingConditionCount => 65,
        MetricKey::JoinNaturalCount => 66,
        MetricKey::JoinNonEquiCount => 67,
        MetricKey::JoinOuterCount => 68,
        MetricKey::LocAvgStatementLines => 69,
        MetricKey::LocBlank => 70,
        MetricKey::LocCode => 71,
        MetricKey::LocComment => 72,
        MetricKey::LocCommentDensity => 73,
        MetricKey::LocLogical => 74,
        MetricKey::LocMaxStatementLines => 75,
        MetricKey::LocPhysical => 76,
        MetricKey::MaintainabilityIndex => 77,
        MetricKey::ModularityHealth => 78,
        MetricKey::ObjectReadCount => 79,
        MetricKey::ObjectTouchCount => 80,
        MetricKey::ObjectWriteCount => 81,
        MetricKey::ParserDiagnosticCount => 82,
        MetricKey::ParserUnparsableLineCount => 83,
        MetricKey::ParserUnparsableRatio => 84,
        MetricKey::ParserUnparsableSegmentCount => 85,
        MetricKey::PredicateBooleanOperatorCount => 86,
        MetricKey::PredicateComparisonCount => 87,
        MetricKey::PredicateMaxBooleanDepth => 88,
        MetricKey::PredicateNotCount => 89,
        MetricKey::PredicateNullSemanticsRiskCount => 90,
        MetricKey::ProceduralBlockCount => 91,
        MetricKey::ProceduralCaseStatementCount => 92,
        MetricKey::ProceduralCognitiveComplexity => 93,
        MetricKey::ProceduralCyclomaticComplexity => 94,
        MetricKey::ProceduralDynamicSqlCount => 95,
        MetricKey::ProceduralExceptionHandlerCount => 96,
        MetricKey::ProceduralIfCount => 97,
        MetricKey::ProceduralLoopCount => 98,
        MetricKey::ProceduralMaxBlockDepth => 99,
        MetricKey::ProceduralRaiseThrowCount => 100,
        MetricKey::ProceduralReturnCount => 101,
        MetricKey::ProceduralRoutineCount => 102,
        MetricKey::QueryBlockAvgSelectItems => 103,
        MetricKey::QueryBlockCount => 104,
        MetricKey::QueryBlockMaxDepth => 105,
        MetricKey::QueryBlockMaxSelectItems => 106,
        MetricKey::RelationRefCount => 107,
        MetricKey::ReviewBurdenIndex => 108,
        MetricKey::SelectExpressionWithoutAliasCount => 109,
        MetricKey::SelectOuterStarCount => 110,
        MetricKey::SelectOutputAliasCoverage => 111,
        MetricKey::SelectStarCount => 112,
        MetricKey::SetOpCount => 113,
        MetricKey::SetOpKindCountExcept => 114,
        MetricKey::SetOpKindCountIntersect => 115,
        MetricKey::SetOpKindCountUnion => 116,
        MetricKey::SetOpKindCountUnionAll => 117,
        MetricKey::SetOpUnionAllRatio => 118,
        MetricKey::StatementCount => 119,
        MetricKey::StatementKindDistinct => 120,
        MetricKey::StatementKindEntropy => 121,
        MetricKey::StatementUnparsedCount => 122,
        MetricKey::StructuralComplexity => 123,
        MetricKey::StructuralComplexityMaxEmbeddedQuery => 124,
        MetricKey::SubqueryCorrelatedCount => 125,
        MetricKey::SubqueryCount => 126,
        MetricKey::SubqueryExistsCount => 127,
        MetricKey::SubqueryInCount => 128,
        MetricKey::SubqueryMaxDepth => 129,
        MetricKey::SubqueryScalarCount => 130,
        MetricKey::TransactionControlCount => 131,
        MetricKey::WindowFrameCount => 132,
        MetricKey::WindowFunctionCount => 133,
        MetricKey::WindowOrderExpressionCount => 134,
        MetricKey::WindowPartitionExpressionCount => 135,
        _ => -1,
    }
}

impl MetricKey {
    /// The text of a name.
    pub open spec fn spelled(self) -> Seq<char> {
        match self {
            MetricKey::AggregateDistinctCount => "sql.aggregate.distinct_count"@,
            MetricKey::AggregateFunctionCount => "sql.aggregate.function_count"@,
            MetricKey::AliasTableAliasCount => "sql.alias.table_alias_count"@,
            MetricKey::CaseCount => "sql.case.count"@,
            MetricKey::CaseMaxDepth => "sql.case.max_depth"@,
            MetricKey::CaseMaxWhenCount => "sql.case.max_when_count"@,
            MetricKey::CaseMissingElseCount => "sql.case.missing_else_count"@,
            MetricKey::CaseWhenCount => "sql.case.when_count"@,
            MetricKey::CastCount => "sql.cast.count"@,
            MetricKey::ChangeRiskScore => "sql.change_risk_score"@,
            MetricKey::CognitiveComplexity => "sql.cognitive_complexity"@,
            MetricKey::CteCount => "sql.cte.count"@,
            MetricKey::CteDependencyEdges => "sql.cte.dependency_edges"@,
            MetricKey::CteMaxDependencyDepth => "sql.cte.max_dependency_depth"@,
            MetricKey::CteMaxFanOut => "sql.cte.max_fan_out"@,
            MetricKey::CteRecursiveCount => "sql.cte.recursive_count"@,
            MetricKey::CteTrivialCount => "sql.cte.trivial_count"@,
            MetricKey::CteUnusedCount => "sql.cte.unused_count"@,
            MetricKey::DclGrantRevokeCount => "sql.dcl.grant_revoke_count"@,
            MetricKey::DdlAlterCount => "sql.ddl.alter_count"@,
            MetricKey::DdlCreateCount => "sql.ddl.create_count"@,
            MetricKey::DdlCreateOrReplaceCount => "sql.ddl.create_or_replace_count"@,
            MetricKey::DdlDropCount => "sql.ddl.drop_count"@,
            MetricKey::DdlTruncateCount => "sql.ddl.truncate_count"@,
            MetricKey::DerivedTableCount => "sql.derived_table.count"@,
            MetricKey::DialectConfidence => "sql.dialect.confidence"@,
            MetricKey::DialectConflictCount => "sql.dialect.conflict_count"@,
            MetricKey::DialectDirectivePresent => "sql.dialect.directive_present"@,
            MetricKey::DialectRequested => "sql.dialect.requested"@,
            MetricKey::DmlDeleteCount => "sql.dml.delete_count"@,
            MetricKey::DmlDeleteWithoutWhereCount => "sql.dml.delete_without_where_count"@,
            MetricKey::DmlInsertCount => "sql.dml.insert_count"@,
            MetricKey::DmlMergeCount => "sql.dml.merge_count"@,
            MetricKey::DmlReturningCount => "sql.dml.returning_count"@,
            MetricKey::DmlUpdateCount => "sql.dml.update_count"@,
            MetricKey::DmlUpdateWithoutWhereCount => "sql.dml.update_without_where_count"@,
            MetricKey::ExpressionMaxDepth => "sql.expression.max_depth"@,
            MetricKey::FunctionCallCount => "sql.function.call_count"@,
            MetricKey::FunctionDistinctCount => "sql.function.distinct_count"@,
            MetricKey::FunctionNestedCallDepth => "sql.function.nested_call_depth"@,
            MetricKey::GroupByCount => "sql.group_by.count"@,
            MetricKey::GroupByCubeCount => "sql.group_by.cube_count"@,
            MetricKey::GroupByGroupingSetsCount => "sql.group_by.grouping_sets_count"@,
            MetricKey::GroupByRollupCount => "sql.group_by.rollup_count"@,
            MetricKey::HalsteadDifficulty => "sql.halstead.difficulty"@,
            MetricKey::HalsteadDistinctOperands => "sql.halstead.distinct_operands"@,
            MetricKey::HalsteadDistinctOperators => "sql.halstead.distinct_operators"@,
            MetricKey::HalsteadEffort => "sql.halstead.effort"@,
            MetricKey::HalsteadLength => "sql.halstead.length"@,
            MetricKey::HalsteadTotalOperands => "sql.halstead.total_operands"@,
            MetricKey::HalsteadTotalOperators => "sql.halstead.total_operators"@,
            MetricKey::HalsteadVocabulary => "sql.halstead.vocabulary"@,
            MetricKey::HalsteadVolume => "sql.halstead.volume"@,
            MetricKey::HavingCount => "sql.having.count"@,
            MetricKey::IdentifierQuotedCount => "sql.identifier.quoted_count"@,
            MetricKey::IdentifierUnqualifiedColumnRatio => "sql.identifier.unqualified_column_ratio"@,
            MetricKey::JoinCount => "sql.join.count"@,
            MetricKey::JoinCrossCount => "sql.join.cross_count"@,
            MetricKey::JoinKindCountCross => "sql.join.kind_count.cross"@,
            MetricKey::JoinKindCountFull => "sql.join.kind_count.full"@,
            MetricKey::JoinKindCountInner => "sql.join.kind_count.inner"@,
            MetricKey::JoinKindCountLateral => "sql.join.kind_count.lateral"@,
            MetricKey::JoinKindCountLeft => "sql.join.kind_count.left"@,
            MetricKey::JoinKindCountNatural => "sql.join.kind_count.natural"@,
            MetricKey::JoinKindCountRight => "sql.join.kind_count.right"@,
            MetricKey::JoinMissingConditionCount => "sql.join.missing_condition_count"@,
            MetricKey::JoinNaturalCount => "sql.join.natural_count"@,
            MetricKey::JoinNonEquiCount => "sql.join.non_equi_count"@,
            MetricKey::JoinOuterCount => "sql.join.outer_count"@,
            MetricKey::LocAvgStatementLines => "sql.loc.avg_statement_lines"@,
            MetricKey::LocBlank => "sql.loc.blank"@,
            MetricKey::LocCode => "sql.loc.code"@,
            MetricKey::LocComment => "sql.loc.comment"@,
            MetricKey::LocCommentDensity => "sql.loc.comment_density"@,
            MetricKey::LocLogical => "sql.loc.logical"@,
            MetricKey::LocMaxStatementLines => "sql.loc.max_statement_lines"@,
            MetricKey::LocPhysical => "sql.loc.physical"@,
            MetricKey::MaintainabilityIndex => "sql.maintainability_index"@,
            MetricKey::ModularityHealth => "sql.modularity_health"@,
            MetricKey::ObjectReadCount => "sql.object.read_count"@,
            MetricKey::ObjectTouchCount => "sql.object.touch_count"@,
            MetricKey::ObjectWriteCount => "sql.object.write_count"@,
            MetricKey::ParserDiagnosticCount => "sql.parser.diagnostic_count"@,
            MetricKey::ParserUnparsableLineCount => "sql.parser.unparsable_line_count"@,
            MetricKey::ParserUnparsableRatio => "sql.parser.unparsable_ratio"@,
            MetricKey::ParserUnparsableSegmentCount => "sql.parser.unparsable_segment_count"@,
            MetricKey::PredicateBooleanOperatorCount => "sql.predicate.boolean_operator_count"@,
            MetricKey::PredicateComparisonCount => "sql.predicate.comparison_count"@,
            MetricKey::PredicateMaxBooleanDepth => "sql.predicate.max_boolean_depth"@,
            MetricKey::PredicateNotCount => "sql.predicate.not_count"@,
            MetricKey::PredicateNullSemanticsRiskCount => "sql.predicate.null_semantics_risk_count"@,
            MetricKey::ProceduralBlockCount => "sql.procedural.block_count"@,
            MetricKey::ProceduralCaseStatementCount => "sql.procedural.case_statement_count"@,
            MetricKey::ProceduralCognitiveComplexity => "sql.procedural.cognitive_complexity"@,
            MetricKey::ProceduralCyclomaticComplexity => "sql.procedural.cyclomatic_complexity"@,
            MetricKey::ProceduralDynamicSqlCount => "sql.procedural.dynamic_sql_count"@,
            MetricKey::ProceduralExceptionHandlerCount => "sql.procedural.exception_handler_count"@,
            MetricKey::ProceduralIfCount => "sql.procedural.if_count"@,
            MetricKey::ProceduralLoopCount => "sql.procedural.loop_count"@,
            MetricKey::ProceduralMaxBlockDepth => "sql.procedural.max_block_depth"@,
            MetricKey::ProceduralRaiseThrowCount => "sql.procedural.raise_throw_count"@,
            MetricKey::ProceduralReturnCount => "sql.procedural.return_count"@,
            MetricKey::ProceduralRoutineCount => "sql.procedural.routine_count"@,
            MetricKey::QueryBlockAvgSelectItems => "sql.query_block.avg_select_items"@,
            MetricKey::QueryBlockCount => "sql.query_block.count"@,
            MetricKey::QueryBlockMaxDepth => "sql.query_block.max_depth"@,
            MetricKey::QueryBlockMaxSelectItems => "sql.query_block.max_select_items"@,
            MetricKey::RelationRefCount => "sql.relation.ref_count"@,
            MetricKey::ReviewBurdenIndex => "sql.review_burden_index"@,
            MetricKey::SelectExpressionWithoutAliasCount => "sql.select.expression_without_alias_count"@,
            MetricKey::SelectOuterStarCount => "sql.select.outer_star_count"@,
            MetricKey::SelectOutputAliasCoverage => "sql.select.output_alias_coverage"@,
            MetricKey::SelectStarCount => "sql.select.star_count"@,
            MetricKey::SetOpCount => "sql.set_op.count"@,
            MetricKey::SetOpKindCountExcept => "sql.set_op.kind_count.except"@,
            MetricKey::SetOpKindCountIntersect => "sql.set_op.kind_count.intersect"@,
            MetricKey::SetOpKindCountUnion => "sql.set_op.kind_count.union"@,
            MetricKey::SetOpKindCountUnionAll => "sql.set_op.kind_count.union_all"@,
            MetricKey::SetOpUnionAllRatio => "sql.set_op.union_all_ratio"@,
            MetricKey::StatementCount => "sql.statement.count"@,
            MetricKey::StatementKindDistinct => "sql.statement.kind_distinct"@,
            MetricKey::StatementKindEntropy => "sql.statement.kind_entropy"@,
            MetricKey::StatementUnparsedCount => "sql.statement.unparsed_count"@,
            MetricKey::StructuralComplexity => "sql.structural_complexity"@,
            MetricKey::StructuralComplexityMaxEmbeddedQuery => "sql.structural_complexity.max_embedded_query"@,
            MetricKey::SubqueryCorrelatedCount => "sql.subquery.correlated_count"@,
            MetricKey::SubqueryCount => "sql.subquery.count"@,
            MetricKey::SubqueryExistsCount => "sql.subquery.exists_count"@,
            MetricKey::SubqueryInCount => "sql.subquery.in_count"@,
            MetricKey::SubqueryMaxDepth => "sql.subquery.max_depth"@,
            MetricKey::SubqueryScalarCount => "sql.subquery.scalar_count"@,
            MetricKey::TransactionControlCount => "sql.transaction.control_count"@,
            MetricKey::WindowFrameCount => "sql.window.frame_count"@,
            MetricKey::WindowFunctionCount => "sql.window.function_count"@,
            MetricKey::WindowOrderExpressionCount => "sql.window.order_expression_count"@,
            MetricKey::WindowPartitionExpressionCount => "sql.window.partition_expression_count"@,
            MetricKey::StatementKindCount(kind) => "sql.statement.kind_count."@ + kind.spelled(),
            MetricKey::DialectIs(kind) => "sql.dialect.is_"@ + kind.spelled(),
            MetricKey::StatementLines => "sql.statement.lines"@,
        }
    }

    /// Whether a file can have the metric: every one but those of single
    /// statements, and of dialects only those with a grammar in this build.
    pub open spec fn on_file(self) -> bool {
        match self {
            MetricKey::DialectIs(kind) => kind.is_compiled(),
            MetricKey::StatementLines => false,
            _ => true,
        }
    }

    /// The text of a name.
    pub fn chars(self) -> (r: Vec<char>)
        ensures
            r@ == self.spelled(),
    {
        match self {
            MetricKey::StatementKindCount(kind) => joined("sql.statement.kind_count.", kind.label()),
            MetricKey::DialectIs(kind) => joined("sql.dialect.is_", dialect_label(kind)),
            MetricKey::AggregateDistinctCount => chars_of("sql.aggregate.distinct_count"),
            MetricKey::AggregateFunctionCount => chars_of("sql.aggregate.function_count"),
            MetricKey::AliasTableAliasCount => chars_of("sql.alias.table_alias_count"),
            MetricKey::CaseCount => chars_of("sql.case.count"),
            MetricKey::CaseMaxDepth => chars_of("sql.case.max_depth"),
            MetricKey::CaseMaxWhenCount => chars_of("sql.case.max_when_count"),
            MetricKey::CaseMissingElseCount => chars_of("sql.case.missing_else_count"),
            MetricKey::CaseWhenCount => chars_of("sql.case.when_count"),
            MetricKey::CastCount => chars_of("sql.cast.count"),
            MetricKey::ChangeRiskScore => chars_of("sql.change_risk_score"),
            MetricKey::CognitiveComplexity => chars_of("sql.cognitive_complexity"),
            MetricKey::CteCount => chars_of("sql.cte.count"),
            MetricKey::CteDependencyEdges => chars_of("sql.cte.dependency_edges"),
            MetricKey::CteMaxDependencyDepth => chars_of("sql.cte.max_dependency_depth"),
            MetricKey::CteMaxFanOut => chars_of("sql.cte.max_fan_out"),
            MetricKey::CteRecursiveCount => chars_of("sql.cte.recursive_count"),
            MetricKey::CteTrivialCount => chars_of("sql.cte.trivial_count"),
            MetricKey::CteUnusedCount => chars_of("sql.cte.unused_count"),
            MetricKey::DclGrantRevokeCount => chars_of("sql.dcl.grant_revoke_count"),
            MetricKey::DdlAlterCount => chars_of("sql.ddl.alter_count"),
            MetricKey::DdlCreateCount => chars_of("sql.ddl.create_count"),
            MetricKey::DdlCreateOrReplaceCount => chars_of("sql.ddl.create_or_replace_count"),
            MetricKey::DdlDropCount => chars_of("sql.ddl.drop_count"),
            MetricKey::DdlTruncateCount => chars_of("sql.ddl.truncate_count"),
            MetricKey::DerivedTableCount => chars_of("sql.derived_table.count"),
            MetricKey::DialectConfidence => chars_of("sql.dialect.confidence"),
            MetricKey::DialectConflictCount => chars_of("sql.dialect.conflict_count"),
            MetricKey::DialectDirectivePresent => chars_of("sql.dialect.directive_present"),
            MetricKey::DialectRequested => chars_of("sql.dialect.requested"),
            MetricKey::DmlDeleteCount => chars_of("sql.dml.delete_count"),
            MetricKey::DmlDeleteWithoutWhereCount => chars_of("sql.dml.delete_without_where_count"),
            MetricKey::DmlInsertCount => chars_of("sql.dml.insert_count"),
            MetricKey::DmlMergeCount => chars_of("sql.dml.merge_count"),
            MetricKey::DmlReturningCount => chars_of("sql.dml.returning_count"),
            MetricKey::DmlUpdateCount => chars_of("sql.dml.update_count"),
            MetricKey::DmlUpdateWithoutWhereCount => chars_of("sql.dml.update_without_where_count"),
            MetricKey::ExpressionMaxDepth => chars_of("sql.expression.max_depth"),
            MetricKey::FunctionCallCount => chars_of("sql.function.call_count"),
            MetricKey::FunctionDistinctCount => chars_of("sql.function.distinct_count"),
            MetricKey::FunctionNestedCallDepth => chars_of("sql.function.nested_call_depth"),
            MetricKey::GroupByCount => chars_of("sql.group_by.count"),
            MetricKey::GroupByCubeCount => chars_of("sql.group_by.cube_count"),
            MetricKey::GroupByGroupingSetsCount => chars_of("sql.group_by.grouping_sets_count"),
            MetricKey::GroupByRollupCount => chars_of("sql.group_by.rollup_count"),
            MetricKey::HalsteadDifficulty => chars_of("sql.halstead.difficulty"),
            MetricKey::HalsteadDistinctOperands => chars_of("sql.halstead.distinct_operands"),
            MetricKey::HalsteadDistinctOperators => chars_of("sql.halstead.distinct_operators"),
            MetricKey::HalsteadEffort => chars_of("sql.halstead.effort"),
            MetricKey::HalsteadLength => chars_of("sql.halstead.length"),
            MetricKey::HalsteadTotalOperands => chars_of("sql.halstead.total_operands"),
            MetricKey::HalsteadTotalOperators => chars_of("sql.halstead.total_operators"),
            MetricKey::HalsteadVocabulary => chars_of("sql.halstead.vocabulary"),
            MetricKey::HalsteadVolume => chars_of("sql.halstead.volume"),
            MetricKey::HavingCount => chars_of("sql.having.count"),
            MetricKey::IdentifierQuotedCount => chars_of("sql.identifier.quoted_count"),
            MetricKey::IdentifierUnqualifiedColumnRatio => chars_of("sql.identifier.unqualified_column_ratio"),
            MetricKey::JoinCount => chars_of("sql.join.count"),
            MetricKey::JoinCrossCount => chars_of("sql.join.cross_count"),
            MetricKey::JoinKindCountCross => chars_of("sql.join.kind_count.cross"),
            MetricKey::JoinKindCountFull => chars_of("sql.join.kind_count.full"),
            MetricKey::JoinKindCountInner => chars_of("sql.join.kind_count.inner"),
            MetricKey::JoinKindCountLateral => chars_of("sql.join.kind_count.lateral"),
            MetricKey::JoinKindCountLeft => chars_of("sql.join.kind_count.left"),
            MetricKey::JoinKindCountNatural => chars_of("sql.join.kind_count.natural"),
            MetricKey::JoinKindCountRight => chars_of("sql.join.kind_count.right"),
            MetricKey::JoinMissingConditionCount => chars_of("sql.join.missing_condition_count"),
            MetricKey::JoinNaturalCount => chars_of("sql.join.natural_count"),
            MetricKey::JoinNonEquiCount => chars_of("sql.join.non_equi_count"),
            MetricKey::JoinOuterCount => chars_of("sql.join.outer_count"),
            MetricKey::LocAvgStatementLines => chars_of("sql.loc.avg_statement_lines"),
            MetricKey::LocBlank => chars_of("sql.loc.blank"),
            MetricKey::LocCode => chars_of("sql.loc.code"),
            MetricKey::LocComment => chars_of("sql.loc.comment"),
            MetricKey::LocCommentDensity => chars_of("sql.loc.comment_density"),
            MetricKey::LocLogical => chars_of("sql.loc.logical"),
            MetricKey::LocMaxStatementLines => chars_of("sql.loc.max_statement_lines"),
            MetricKey::LocPhysical => chars_of("sql.loc.physical"),
            MetricKey::MaintainabilityIndex => chars_of("sql.maintainability_index"),
            MetricKey::ModularityHealth => chars_of("sql.modularity_health"),
            MetricKey::ObjectReadCount => chars_of("sql.object.read_count"),
            MetricKey::ObjectTouchCount => chars_of("sql.object.touch_count"),
            MetricKey::ObjectWriteCount => chars_of("sql.object.write_count"),
            MetricKey::ParserDiagnosticCount => chars_of("sql.parser.diagnostic_count"),
            MetricKey::ParserUnparsableLineCount => chars_of("sql.parser.unparsable_line_count"),
            MetricKey::ParserUnparsableRatio => chars_of("sql.parser.unparsable_ratio"),
            MetricKey::ParserUnparsableSegmentCount => chars_of("sql.parser.unparsable_segment_count"),
            MetricKey::PredicateBooleanOperatorCount => chars_of("sql.predicate.boolean_operator_count"),
            MetricKey::PredicateComparisonCount => chars_of("sql.predicate.comparison_count"),
            MetricKey::PredicateMaxBooleanDepth => chars_of("sql.predicate.max_boolean_depth"),
            MetricKey::PredicateNotCount => chars_of("sql.predicate.not_count"),
            MetricKey::PredicateNullSemanticsRiskCount => chars_of("sql.predicate.null_semantics_risk_count"),
            MetricKey::ProceduralBlockCount => chars_of("sql.procedural.block_count"),
            MetricKey::ProceduralCaseStatementCount => chars_of("sql.procedural.case_statement_count"),
            MetricKey::ProceduralCognitiveComplexity => chars_of("sql.procedural.cognitive_complexity"),
            MetricKey::ProceduralCyclomaticComplexity => chars_of("sql.procedural.cyclomatic_complexity"),
            MetricKey::ProceduralDynamicSqlCount => chars_of("sql.procedural.dynamic_sql_count"),
            MetricKey::ProceduralExceptionHandlerCount => chars_of("sql.procedural.exception_handler_count"),
            MetricKey::ProceduralIfCount => chars_of("sql.procedural.if_count"),
            MetricKey::ProceduralLoopCount => chars_of("sql.procedural.loop_count"),
            MetricKey::ProceduralMaxBlockDepth => chars_of("sql.procedural.max_block_depth"),
            MetricKey::ProceduralRaiseThrowCount => chars_of("sql.procedural.raise_throw_count"),
            MetricKey::ProceduralReturnCount => chars_of("sql.procedural.return_count"),
            MetricKey::ProceduralRoutineCount => chars_of("sql.procedural.routine_count"),
            MetricKey::QueryBlockAvgSelectItems => chars_of("sql.query_block.avg_select_items"),
            MetricKey::QueryBlockCount => chars_of("sql.query_block.count"),
            MetricKey::QueryBlockMaxDepth => chars_of("sql.query_block.max_depth"),
            MetricKey::QueryBlockMaxSelectItems => chars_of("sql.query_block.max_select_items"),
            MetricKey::RelationRefCount => chars_of("sql.relation.ref_count"),
            MetricKey::ReviewBurdenIndex => chars_of("sql.review_burden_index"),
            MetricKey::SelectExpressionWithoutAliasCount => chars_of("sql.select.expression_without_alias_count"),
            MetricKey::SelectOuterStarCount => chars_of("sql.select.outer_star_count"),
            MetricKey::SelectOutputAliasCoverage => chars_of("sql.select.output_alias_coverage"),
            MetricKey::SelectStarCount => chars_of("sql.select.star_count"),
            MetricKey::SetOpCount => chars_of("sql.set_op.count"),
            MetricKey::SetOpKindCountExcept => chars_of("sql.set_op.kind_count.except"),
            MetricKey::SetOpKindCountIntersect => chars_of("sql.set_op.kind_count.intersect"),
            MetricKey::SetOpKindCountUnion => chars_of("sql.set_op.kind_count.union"),
            MetricKey::SetOpKindCountUnionAll => chars_of("sql.set_op.kind_count.union_all"),
            MetricKey::SetOpUnionAllRatio => chars_of("sql.set_op.union_all_ratio"),
            MetricKey::StatementCount => chars_of("sql.statement.count"),
            MetricKey::StatementKindDistinct => chars_of("sql.statement.kind_distinct"),
            MetricKey::StatementKindEntropy => chars_of("sql.statement.kind_entropy"),
            MetricKey::StatementUnparsedCount => chars_of("sql.statement.unparsed_count"),
            MetricKey::StructuralComplexity => chars_of("sql.structural_complexity"),
            MetricKey::StructuralComplexityMaxEmbeddedQuery => chars_of("sql.structural_complexity.max_embedded_query"),
            MetricKey::SubqueryCorrelatedCount => chars_of("sql.subquery.correlated_count"),
            MetricKey::SubqueryCount => chars_of("sql.subquery.count"),
            MetricKey::SubqueryExistsCount => chars_of("sql.subquery.exists_count"),
            MetricKey::SubqueryInCount => chars_of("sql.subquery.in_count"),
            MetricKey::SubqueryMaxDepth => chars_of("sql.subquery.max_depth"),
            MetricKey::SubqueryScalarCount => chars_of("sql.subquery.scalar_count"),
            MetricKey::TransactionControlCount => chars_of("sql.transaction.control_count"),
            MetricKey::WindowFrameCount => chars_of("sql.window.frame_count"),
            MetricKey::WindowFunctionCount => chars_of("sql.window.function_count"),
            MetricKey::WindowOrderExpressionCount => chars_of("sql.window.order_expression_count"),
            MetricKey::WindowPartitionExpressionCount => chars_of("sql.window.partition_expression_count"),
            MetricKey::StatementLines => chars_of("sql.statement.lines"),
        }
    }

    /// The text of a name.
    pub fn text(self) -> (r: String)
        ensures
            r@ == self.spelled(),
    {
        let chars = self.chars();
        string_of(&chars)
    }
}

/// One text after another.
fn joined(a: &str, b: &str) -> (r: Vec<char>)
    ensures
        r@ == a@ + b@,
{
    let mut out = chars_of(a);
    let mut rest = chars_of(b);
    out.append(&mut rest);
    out
}

/// The statement kind in place `i`.
pub fn statement_kind(i: usize) -> (r: StatementKind)
    ensures
        r == kind_at(i as int),
{
    match i {
        0 => StatementKind::Select,
        1 => StatementKind::WithSelect,
        2 => StatementKind::Insert,
        3 => StatementKind::Update,
        4 => StatementKind::Delete,
        5 => StatementKind::Merge,
        6 => StatementKind::CreateView,
        7 => StatementKind::CreateTable,
        8 => StatementKind::CreateTableAsSelect,
        9 => StatementKind::CreateOther,
        10 => StatementKind::AlterTable,
        11 => StatementKind::Drop,
        12 => StatementKind::Truncate,
        13 => StatementKind::Grant,
        14 => StatementKind::Revoke,
        15 => StatementKind::TransactionControl,
        16 => StatementKind::Explain,
        17 => StatementKind::Procedural,
        18 => StatementKind::AnonymousBlock,
        19 => StatementKind::SetOperation,
        _ => StatementKind::Unknown,
    }
}

/// The fixed metric in place `i`.
pub fn fixed_key(i: usize) -> (r: MetricKey)
    ensures
        r == key_at(i as int),
{
    match i {
        0 => MetricKey::AggregateDistinctCount,
        1 => MetricKey::AggregateFunctionCount,
        2 => MetricKey::AliasTableAliasCount,
        3 => MetricKey::CaseCount,
        4 => MetricKey::CaseMaxDepth,
        5 => MetricKey::CaseMaxWhenCount,
        6 => MetricKey::CaseMissingElseCount,
        7 => MetricKey::CaseWhenCount,
        8 => MetricKey::CastCount,
        9 => MetricKey::ChangeRiskScore,
        10 => MetricKey::CognitiveComplexity,
        11 => MetricKey::CteCount,
        12 => MetricKey::CteDependencyEdges,
        13 => MetricKey::CteMaxDependencyDepth,
        14 => MetricKey::CteMaxFanOut,
        15 => MetricKey::CteRecursiveCount,
        16 => MetricKey::CteTrivialCount,
        17 => MetricKey::CteUnusedCount,
        18 => MetricKey::DclGrantRevokeCount,
        19 => MetricKey::DdlAlterCount,
        20 => MetricKey::DdlCreateCount,
        21 => MetricKey::DdlCreateOrReplaceCount,
        22 => MetricKey::DdlDropCount,
        23 => MetricKey::DdlTruncateCount,
        24 => MetricKey::DerivedTableCount,
        25 => MetricKey::DialectConfidence,
        26 => MetricKey::DialectConflictCount,
        27 => MetricKey::DialectDirectivePresent,
        28 => MetricKey::DialectRequested,
        29 => MetricKey::DmlDeleteCount,
        30 => MetricKey::DmlDeleteWithoutWhereCount,
        31 => MetricKey::DmlInsertCount,
        32 => MetricKey::DmlMergeCount,
        33 => MetricKey::DmlReturningCount,
        34 => MetricKey::DmlUpdateCount,
        35 => MetricKey::DmlUpdateWithoutWhereCount,
        36 => MetricKey::ExpressionMaxDepth,
        37 => MetricKey::FunctionCallCount,
        38 => MetricKey::FunctionDistinctCount,
        39 => MetricKey::FunctionNestedCallDepth,
        40 => MetricKey::GroupByCount,
        41 => MetricKey::GroupByCubeCount,
        42 => MetricKey::GroupByGroupingSetsCount,
        43 => MetricKey::GroupByRollupCount,
        44 => MetricKey::HalsteadDifficulty,
        45 => MetricKey::HalsteadDistinctOperands,
        46 => MetricKey::HalsteadDistinctOperators,
        47 => MetricKey::HalsteadEffort,
        48 => MetricKey::HalsteadLength,
        49 => MetricKey::HalsteadTotalOperands,
        50 => MetricKey::HalsteadTotalOperators,
        51 => MetricKey::HalsteadVocabulary,
        52 => MetricKey::HalsteadVolume,
        53 => MetricKey::HavingCount,
        54 => MetricKey::IdentifierQuotedCount,
        55 => MetricKey::IdentifierUnqualifiedColumnRatio,
        56 => MetricKey::JoinCount,
        57 => MetricKey::JoinCrossCount,
        58 => MetricKey::JoinKindCountCross,
        59 => MetricKey::JoinKindCountFull,
        60 => MetricKey::JoinKindCountInner,
        61 => MetricKey::JoinKindCountLateral,
        62 => MetricKey::JoinKindCountLeft,
        63 => MetricKey::JoinKindCountNatural,
        64 => MetricKey::JoinKindCountRight,
        65 => MetricKey::JoinMissingConditionCount,
        66 => MetricKey::JoinNaturalCount,
        67 => MetricKey::JoinNonEquiCount,
        68 => MetricKey::JoinOuterCount,
        69 => MetricKey::LocAvgStatementLines,
        70 => MetricKey::LocBlank,
        71 => MetricKey::LocCode,
        72 => MetricKey::LocComment,
        73 => MetricKey::LocCommentDensity,
        74 => MetricKey::LocLogical,
        75 => MetricKey::LocMaxStatementLines,
        76 => MetricKey::LocPhysical,
        77 => MetricKey::MaintainabilityIndex,
        78 => MetricKey::ModularityHealth,
        79 => MetricKey::ObjectReadCount,
        80 => MetricKey::ObjectTouchCount,
        81 => MetricKey::ObjectWriteCount,
        82 => MetricKey::ParserDiagnosticCount,
        83 => MetricKey::ParserUnparsableLineCount,
        84 => MetricKey::ParserUnparsableRatio,
        85 => MetricKey::ParserUnparsableSegmentCount,
        86 => MetricKey::PredicateBooleanOperatorCount,
        87 => MetricKey::PredicateComparisonCount,
        88 => MetricKey::PredicateMaxBooleanDepth,
        89 => MetricKey::PredicateNotCount,
        90 => MetricKey::PredicateNullSemanticsRiskCount,
        91 => MetricKey::ProceduralBlockCount,
        92 => MetricKey::ProceduralCaseStatementCount,
        93 => MetricKey::ProceduralCognitiveComplexity,
        94 => MetricKey::ProceduralCyclomaticComplexity,
        95 => MetricKey::ProceduralDynamicSqlCount,
        96 => MetricKey::ProceduralExceptionHandlerCount,
        97 => MetricKey::ProceduralIfCount,
        98 => MetricKey::ProceduralLoopCount,
        99 => MetricKey::ProceduralMaxBlockDepth,
        100 => MetricKey::ProceduralRaiseThrowCount,
        101 => MetricKey::ProceduralReturnCount,
        102 => MetricKey::ProceduralRoutineCount,
        103 => MetricKey::QueryBlockAvgSelectItems,
        104 => MetricKey::QueryBlockCount,
        105 => MetricKey::QueryBlockMaxDepth,
        106 => MetricKey::QueryBlockMaxSelectItems,
        107 => MetricKey::RelationRefCount,
        108 => MetricKey::ReviewBurdenIndex,
        109 => MetricKey::SelectExpressionWithoutAliasCount,
        110 => MetricKey::SelectOuterStarCount,
        111 => MetricKey::SelectOutputAliasCoverage,
        112 => MetricKey::SelectStarCount,
        113 => MetricKey::SetOpCount,
        114 => MetricKey::SetOpKindCountExcept,
        115 => MetricKey::SetOpKindCountIntersect,
        116 => MetricKey::SetOpKindCountUnion,
        117 => MetricKey::SetOpKindCountUnionAll,
        118 => MetricKey::SetOpUnionAllRatio,
        119 => MetricKey::StatementCount,
        120 => MetricKey::StatementKindDistinct,
        121 => MetricKey::StatementKindEntropy,
        122 => MetricKey::StatementUnparsedCount,
        123 => MetricKey::StructuralComplexity,
        124 => MetricKey::StructuralComplexityMaxEmbeddedQuery,
        125 => MetricKey::SubqueryCorrelatedCount,
        126 => MetricKey::SubqueryCount,
        127 => MetricKey::SubqueryExistsCount,
        128 => MetricKey::SubqueryInCount,
        129 => MetricKey::SubqueryMaxDepth,
        130 => MetricKey::SubqueryScalarCount,
        131 => MetricKey::TransactionControlCount,
        132 => MetricKey::WindowFrameCount,
        133 => MetricKey::WindowFunctionCount,
        134 => MetricKey::WindowOrderExpressionCount,
        _ => MetricKey::WindowPartitionExpressionCount,
    }
}

/// Every statement kind has its place.
pub proof fn lemma_kind_rank(kind: StatementKind)
    ensures
        0 <= kind_rank(kind) < STATEMENT_KINDS,
        kind_at(kind_rank(kind)) == kind,
{
}

/// Every fixed metric has its place.
pub proof fn lemma_key_rank(key: MetricKey)
    requires
        !(key is StatementKindCount),
        !(key is DialectIs),
        !(key is StatementLines),
    ensures
        0 <= key_rank(key) < FIXED_KEYS,
        key_at(key_rank(key)) == key,
{
}

/// No two places hold the same fixed metric.
pub proof fn fixed_keys_are_distinct(i: int)
    requires
        0 <= i < FIXED_KEYS,
    ensures
        key_rank(key_at(i)) == i,
        key_at(i).on_file(),
{
}

/// Whether a file can have a metric of a name.
pub open spec fn is_published(name: Seq<char>) -> bool {
    exists|key: MetricKey| key.on_file() && #[trigger] key.spelled() == name
}

/// Whether a file can have a metric of a name.
pub fn is_published_metric_key(name: &str) -> (r: bool)
    ensures
        r == is_published(name@),
{
    let chars = chars_of(name);
    let mut i: usize = 0;
    while i < FIXED_KEYS
        invariant
            i <= FIXED_KEYS,
            chars@ == name@,
            forall|j: int| 0 <= j < i ==> (#[trigger] key_at(j)).spelled() != name@,
        decreases FIXED_KEYS - i,
    {
        let key = fixed_key(i);
        let text = key.chars();
        if same(&text, &chars) {
            proof {
                fixed_keys_are_distinct(i as int);
            }
            return true;
        }
        i = i + 1;
    }
    let mut k: usize = 0;
    while k < STATEMENT_KINDS
        invariant
            k <= STATEMENT_KINDS,
            chars@ == name@,
            forall|j: int|
                0 <= j < k ==> MetricKey::StatementKindCount(#[trigger] kind_at(j)).spelled()
                    != name@,
        decreases STATEMENT_KINDS - k,
    {
        let key = MetricKey::StatementKindCount(statement_kind(k));
        let text = key.chars();
        if same(&text, &chars) {
            return true;
        }
        k = k + 1;
    }
    let prefix = chars_of("sql.dialect.is_");
    let mut found: bool = false;
    if begins_with(&chars, "sql.dialect.is_") {
        let rest = slice_of(&chars, prefix.len(), chars.len());
        let label = string_of(&rest);
        assert(name@ =~= prefix@ + label@);
        if let Some(kind) = dialect_named(label.as_str()) {
            found = has_grammar(kind);
            proof {
                names_are_distinct(kind, label@);
                if kind.is_compiled() {
                    assert(MetricKey::DialectIs(kind).spelled() == name@);
                }
            }
        }
    }
    proof {
        if !found {
            assert forall|key: MetricKey| key.on_file() implies #[trigger] key.spelled() != name@ by {
                lemma_not_published(name@, key);
            }
        }
    }
    found
}

/// A name that is no fixed metric's, no statement kind's and no dialect's is no
/// metric's.
proof fn lemma_not_published(name: Seq<char>, key: MetricKey)
    requires
        key.on_file(),
        forall|j: int| 0 <= j < FIXED_KEYS ==> (#[trigger] key_at(j)).spelled() != name,
        forall|j: int|
            0 <= j < STATEMENT_KINDS ==> MetricKey::StatementKindCount(#[trigger] kind_at(j)).spelled()
                != name,
        starts_with(name, "sql.dialect.is_"@) ==> !(kind_named(
            name.skip("sql.dialect.is_"@.len() as int),
        ) matches Some(kind) && kind.is_compiled()),
    ensures
        key.spelled() != name,
{
    match key {
        MetricKey::StatementKindCount(kind) => {
            lemma_kind_rank(kind);
        },
        MetricKey::DialectIs(kind) => {
            names_are_distinct(kind, kind.spelled());
            let prefix = "sql.dialect.is_"@;
            if key.spelled() == name {
                assert(name.subrange(0, prefix.len() as int) =~= prefix);
                assert(name.skip(prefix.len() as int) =~= kind.spelled());
            }
        },
        _ => {
            lemma_key_rank(key);
        },
    }
}

/// The metric of single statements is not one that a file can have.
pub proof fn statement_lines_are_not_published()
    ensures
        !is_published(MetricKey::StatementLines.spelled()),
{
    assert forall|key: MetricKey| key.on_file() implies #[trigger] key.spelled()
        != MetricKey::StatementLines.spelled() by {
        lemma_no_statement_lines(key);
    }
}

proof fn lemma_no_statement_lines(key: MetricKey)
    requires
        key.on_file(),
    ensures
        key.spelled() != "sql.statement.lines"@,
{
    reveal_strlit("sql.statement.lines");
    match key {
        MetricKey::AggregateDistinctCount => {
            reveal_strlit("sql.aggregate.distinct_count");
            assert("sql.aggregate.distinct_count"@.len() == 28);
        },
        MetricKey::AggregateFunctionCount => {
            reveal_strlit("sql.aggregate.function_count");
            assert("sql.aggregate.function_count"@.len() == 28);
        },
        MetricKey::AliasTableAliasCount => {
            reveal_strlit("sql.alias.table_alias_count");
            assert("sql.alias.table_alias_count"@.len() == 27);
        },
        MetricKey::CaseCount => {
            reveal_strlit("sql.case.count");
            assert("sql.case.count"@.len() == 14);
        },
        MetricKey::CaseMaxDepth => {
            reveal_strlit("sql.case.max_depth");
            assert("sql.case.max_depth"@.len() == 18);
        },
        MetricKey::CaseMaxWhenCount => {
            reveal_strlit("sql.case.max_when_count");
            assert("sql.case.max_when_count"@.len() == 23);
        },
        MetricKey::CaseMissingElseCount => {
            reveal_strlit("sql.case.missing_else_count");
            assert("sql.case.missing_else_count"@.len() == 27);
        },
        MetricKey::CaseWhenCount => {
            reveal_strlit("sql.case.when_count");
            assert("sql.case.when_count"@[4] != "sql.statement.lines"@[4]);
        },
        MetricKey::CastCount => {
            reveal_strlit("sql.cast.count");
            assert("sql.cast.count"@.len() == 14);
        },
        MetricKey::ChangeRiskScore => {
            reveal_strlit("sql.change_risk_score");
            assert("sql.change_risk_score"@.len() == 21);
        },
        MetricKey::CognitiveComplexity => {
            reveal_strlit("sql.cognitive_complexity");
            assert("sql.cognitive_complexity"@.len() == 24);
        },
        MetricKey::CteCount => {
            reveal_strlit("sql.cte.count");
            assert("sql.cte.count"@.len() == 13);
        },
        MetricKey::CteDependencyEdges => {
            reveal_strlit("sql.cte.dependency_edges");
            assert("sql.cte.dependency_edges"@.len() == 24);
        },
        MetricKey::CteMaxDependencyDepth => {
            reveal_strlit("sql.cte.max_dependency_depth");
            assert("sql.cte.max_dependency_depth"@.len() == 28);
        },
        MetricKey::CteMaxFanOut => {
            reveal_strlit("sql.cte.max_fan_out");
            assert("sql.cte.max_fan_out"@[4] != "sql.statement.lines"@[4]);
        },
        MetricKey::CteRecursiveCount => {
            reveal_strlit("sql.cte.recursive_count");
            assert("sql.cte.recursive_count"@.len() == 23);
        },
        MetricKey::CteTrivialCount => {
            reveal_strlit("sql.cte.trivial_count");
            assert("sql.cte.trivial_count"@.len() == 21);
        },
        MetricKey::CteUnusedCount => {
            reveal_strlit("sql.cte.unused_count");
            assert("sql.cte.unused_count"@.len() == 20);
        },
        MetricKey::DclGrantRevokeCount => {
            reveal_strlit("sql.dcl.grant_revoke_count");
            assert("sql.dcl.grant_revoke_count"@.len() == 26);
        },
        MetricKey::DdlAlterCount => {
            reveal_strlit("sql.ddl.alter_count");
            assert("sql.ddl.alter_count"@[4] != "sql.statement.lines"@[4]);
        },
        MetricKey::DdlCreateCount => {
            reveal_strlit("sql.ddl.create_count");
            assert("sql.ddl.create_count"@.len() == 20);
        },
        MetricKey::DdlCreateOrReplaceCount => {
            reveal_strlit("sql.ddl.create_or_replace_count");
            assert("sql.ddl.create_or_replace_count"@.len() == 31);
        },
        MetricKey::DdlDropCount => {
            reveal_strlit("sql.ddl.drop_count");
            assert("sql.ddl.drop_count"@.len() == 18);
        },
        MetricKey::DdlTruncateCount => {
            reveal_strlit("sql.ddl.truncate_count");
            assert("sql.ddl.truncate_count"@.len() == 22);
        },
        MetricKey::DerivedTableCount => {
            reveal_strlit("sql.derived_table.count");
            assert("sql.derived_table.count"@.len() == 23);
        },
        MetricKey::DialectConfidence => {
            reveal_strlit("sql.dialect.confidence");
            assert("sql.dialect.confidence"@.len() == 22);
        },
        MetricKey::DialectConflictCount => {
            reveal_strlit("sql.dialect.conflict_count");
            assert("sql.dialect.conflict_count"@.len() == 26);
        },
        MetricKey::DialectDirectivePresent => {
            reveal_strlit("sql.dialect.directive_present");
            assert("sql.dialect.directive_present"@.len() == 29);
        },
        MetricKey::DialectRequested => {
            reveal_strlit("sql.dialect.requested");
            assert("sql.dialect.requested"@.len() == 21);
        },
        MetricKey::DmlDeleteCount => {
            reveal_strlit("sql.dml.delete_count");
            assert("sql.dml.delete_count"@.len() == 20);
        },
        MetricKey::DmlDeleteWithoutWhereCount => {
            reveal_strlit("sql.dml.delete_without_where_count");
            assert("sql.dml.delete_without_where_count"@.len() == 34);
        },
        MetricKey::DmlInsertCount => {
            reveal_strlit("sql.dml.insert_count");
            assert("sql.dml.insert_count"@.len() == 20);
        },
        MetricKey::DmlMergeCount => {
            reveal_strlit("sql.dml.merge_count");
            assert("sql.dml.merge_count"@[4] != "sql.statement.lines"@[4]);
        },
        MetricKey::DmlReturningCount => {
            reveal_strlit("sql.dml.returning_count");
            assert("sql.dml.returning_count"@.len() == 23);
        },
        MetricKey::DmlUpdateCount => {
            reveal_strlit("sql.dml.update_count");
            assert("sql.dml.update_count"@.len() == 20);
        },
        MetricKey::DmlUpdateWithoutWhereCount => {
            reveal_strlit("sql.dml.update_without_where_count");
            assert("sql.dml.update_without_where_count"@.len() == 34);
        },
        MetricKey::ExpressionMaxDepth => {
            reveal_strlit("sql.expression.max_depth");
            assert("sql.expression.max_depth"@.len() == 24);
        },
        MetricKey::FunctionCallCount => {
            reveal_strlit("sql.function.call_count");
            assert("sql.function.call_count"@.len() == 23);
        },
        MetricKey::FunctionDistinctCount => {
            reveal_strlit("sql.function.distinct_count");
            assert("sql.function.distinct_count"@.len() == 27);
        },
        MetricKey::FunctionNestedCallDepth => {
            reveal_strlit("sql.function.nested_call_depth");
            assert("sql.function.nested_call_depth"@.len() == 30);
        },
        MetricKey::GroupByCount => {
            reveal_strlit("sql.group_by.count");
            assert("sql.group_by.count"@.len() == 18);
        },
        MetricKey::GroupByCubeCount => {
            reveal_strlit("sql.group_by.cube_count");
            assert("sql.group_by.cube_count"@.len() == 23);
        },
        MetricKey::GroupByGroupingSetsCount => {
            reveal_strlit("sql.group_by.grouping_sets_count");
            assert("sql.group_by.grouping_sets_count"@.len() == 32);
        },
        MetricKey::GroupByRollupCount => {
            reveal_strlit("sql.group_by.rollup_count");
            assert("sql.group_by.rollup_count"@.len() == 25);
        },
        MetricKey::HalsteadDifficulty => {
            reveal_strlit("sql.halstead.difficulty");
            assert("sql.halstead.difficulty"@.len() == 23);
        },
        MetricKey::HalsteadDistinctOperands => {
            reveal_strlit("sql.halstead.distinct_operands");
            assert("sql.halstead.distinct_operands"@.len() == 30);
        },
        MetricKey::HalsteadDistinctOperators => {
            reveal_strlit("sql.halstead.distinct_operators");
            assert("sql.halstead.distinct_operators"@.len() == 31);
        },
        MetricKey::HalsteadEffort => {
            reveal_strlit("sql.halstead.effort");
            assert("sql.halstead.effort"@[4] != "sql.statement.lines"@[4]);
        },
        MetricKey::HalsteadLength => {
            reveal_strlit("sql.halstead.length");
            assert("sql.halstead.length"@[4] != "sql.statement.lines"@[4]);
        },
        MetricKey::HalsteadTotalOperands => {
            reveal_strlit("sql.halstead.total_operands");
            assert("sql.halstead.total_operands"@.len() == 27);
        },
        MetricKey::HalsteadTotalOperators => {
            reveal_strlit("sql.halstead.total_operators");
            assert("sql.halstead.total_operators"@.len() == 28);
        },
        MetricKey::HalsteadVocabulary => {
            reveal_strlit("sql.halstead.vocabulary");
            assert("sql.halstead.vocabulary"@.len() == 23);
        },
        MetricKey::HalsteadVolume => {
            reveal_strlit("sql.halstead.volume");
            assert("sql.halstead.volume"@[4] != "sql.statement.lines"@[4]);
        },
        MetricKey::HavingCount => {
            reveal_strlit("sql.having.count");
            assert("sql.having.count"@.len() == 16);
        },
        MetricKey::IdentifierQuotedCount => {
            reveal_strlit("sql.identifier.quoted_count");
            assert("sql.identifier.quoted_count"@.len() == 27);
        },
        MetricKey::IdentifierUnqualifiedColumnRatio => {
            reveal_strlit("sql.identifier.unqualified_column_ratio");
            assert("sql.identifier.unqualified_column_ratio"@.len() == 39);
        },
        MetricKey::JoinCount => {
            reveal_strlit("sql.join.count");
            assert("sql.join.count"@.len() == 14);
        },
        MetricKey::JoinCrossCount => {
            reveal_strlit("sql.join.cross_count");
            assert("sql.join.cross_count"@.len() == 20);
        },
        MetricKey::JoinKindCountCross => {
            reveal_strlit("sql.join.kind_count.cross");
            assert("sql.join.kind_count.cross"@.len() == 25);
        },
        MetricKey::JoinKindCountFull => {
            reveal_strlit("sql.join.kind_count.full");
            assert("sql.join.kind_count.full"@.len() == 24);
        },
        MetricKey::JoinKindCountInner => {
            reveal_strlit("sql.join.kind_count.inner");
            assert("sql.join.kind_count.inner"@.len() == 25);
        },
        MetricKey::JoinKindCountLateral => {
            reveal_strlit("sql.join.kind_count.lateral");
            assert("sql.join.kind_count.lateral"@.len() == 27);
        },
        MetricKey::JoinKindCountLeft => {
            reveal_strlit("sql.join.kind_count.left");
            assert("sql.join.kind_count.left"@.len() == 24);
        },
        MetricKey::JoinKindCountNatural => {
            reveal_strlit("sql.join.kind_count.natural");
            assert("sql.join.kind_count.natural"@.len() == 27);
        },
        MetricKey::JoinKindCountRight => {
            reveal_strlit("sql.join.kind_count.right");
            assert("sql.join.kind_count.right"@.len() == 25);
        },
        MetricKey::JoinMissingConditionCount => {
            reveal_strlit("sql.join.missing_condition_count");
            assert("sql.join.missing_condition_count"@.len() == 32);
        },
        MetricKey::JoinNaturalCount => {
            reveal_strlit("sql.join.natural_count");
            assert("sql.join.natural_count"@.len() == 22);
        },
        MetricKey::JoinNonEquiCount => {
            reveal_strlit("sql.join.non_equi_count");
            assert("sql.join.non_equi_count"@.len() == 23);
        },
        MetricKey::JoinOuterCount => {
            reveal_strlit("sql.join.outer_count");
            assert("sql.join.outer_count"@.len() == 20);
        },
        MetricKey::LocAvgStatementLines => {
            reveal_strlit("sql.loc.avg_statement_lines");
            assert("sql.loc.avg_statement_lines"@.len() == 27);
        },
        MetricKey::LocBlank => {
            reveal_strlit("sql.loc.blank");
            assert("sql.loc.blank"@.len() == 13);
        },
        MetricKey::LocCode => {
            reveal_strlit("sql.loc.code");
            assert("sql.loc.code"@.len() == 12);
        },
        MetricKey::LocComment => {
            reveal_strlit("sql.loc.comment");
            assert("sql.loc.comment"@.len() == 15);
        },
        MetricKey::LocCommentDensity => {
            reveal_strlit("sql.loc.comment_density");
            assert("sql.loc.comment_density"@.len() == 23);
        },
        MetricKey::LocLogical => {
            reveal_strlit("sql.loc.logical");
            assert("sql.loc.logical"@.len() == 15);
        },
        MetricKey::LocMaxStatementLines => {
            reveal_strlit("sql.loc.max_statement_lines");
            assert("sql.loc.max_statement_lines"@.len() == 27);
        },
        MetricKey::LocPhysical => {
            reveal_strlit("sql.loc.physical");
            assert("sql.loc.physical"@.len() == 16);
        },
        MetricKey::MaintainabilityIndex => {
            reveal_strlit("sql.maintainability_index");
            assert("sql.maintainability_index"@.len() == 25);
        },
        MetricKey::ModularityHealth => {
            reveal_strlit("sql.modularity_health");
            assert("sql.modularity_health"@.len() == 21);
        },
        MetricKey::ObjectReadCount => {
            reveal_strlit("sql.object.read_count");
            assert("sql.object.read_count"@.len() == 21);
        },
        MetricKey::ObjectTouchCount => {
            reveal_strlit("sql.object.touch_count");
            assert("sql.object.touch_count"@.len() == 22);
        },
        MetricKey::ObjectWriteCount => {
            reveal_strlit("sql.object.write_count");
            assert("sql.object.write_count"@.len() == 22);
        },
        MetricKey::ParserDiagnosticCount => {
            reveal_strlit("sql.parser.diagnostic_count");
            assert("sql.parser.diagnostic_count"@.len() == 27);
        },
        MetricKey::ParserUnparsableLineCount => {
            reveal_strlit("sql.parser.unparsable_line_count");
            assert("sql.parser.unparsable_line_count"@.len() == 32);
        },
        MetricKey::ParserUnparsableRatio => {
            reveal_strlit("sql.parser.unparsable_ratio");
            assert("sql.parser.unparsable_ratio"@.len() == 27);
        },
        MetricKey::ParserUnparsableSegmentCount => {
            reveal_strlit("sql.parser.unparsable_segment_count");
            assert("sql.parser.unparsable_segment_count"@.len() == 35);
        },
        MetricKey::PredicateBooleanOperatorCount => {
            reveal_strlit("sql.predicate.boolean_operator_count");
            assert("sql.predicate.boolean_operator_count"@.len() == 36);
        },
        MetricKey::PredicateComparisonCount => {
            reveal_strlit("sql.predicate.comparison_count");
            assert("sql.predicate.comparison_count"@.len() == 30);
        },
        MetricKey::PredicateMaxBooleanDepth => {
            reveal_strlit("sql.predicate.max_boolean_depth");
            assert("sql.predicate.max_boolean_depth"@.len() == 31);
        },
        MetricKey::PredicateNotCount => {
            reveal_strlit("sql.predicate.not_count");
            assert("sql.predicate.not_count"@.len() == 23);
        },
        MetricKey::PredicateNullSemanticsRiskCount => {
            reveal_strlit("sql.predicate.null_semantics_risk_count");
            assert("sql.predicate.null_semantics_risk_count"@.len() == 39);
        },
        MetricKey::ProceduralBlockCount => {
            reveal_strlit("sql.procedural.block_count");
            assert("sql.procedural.block_count"@.len() == 26);
        },
        MetricKey::ProceduralCaseStatementCount => {
            reveal_strlit("sql.procedural.case_statement_count");
            assert("sql.procedural.case_statement_count"@.len() == 35);
        },
        MetricKey::ProceduralCognitiveComplexity => {
            reveal_strlit("sql.procedural.cognitive_complexity");
            assert("sql.procedural.cognitive_complexity"@.len() == 35);
        },
        MetricKey::ProceduralCyclomaticComplexity => {
            reveal_strlit("sql.procedural.cyclomatic_complexity");
            assert("sql.procedural.cyclomatic_complexity"@.len() == 36);
        },
        MetricKey::ProceduralDynamicSqlCount => {
            reveal_strlit("sql.procedural.dynamic_sql_count");
            assert("sql.procedural.dynamic_sql_count"@.len() == 32);
        },
        MetricKey::ProceduralExceptionHandlerCount => {
            reveal_strlit("sql.procedural.exception_handler_count");
            assert("sql.procedural.exception_handler_count"@.len() == 38);
        },
        MetricKey::ProceduralIfCount => {
            reveal_strlit("sql.procedural.if_count");
            assert("sql.procedural.if_count"@.len() == 23);
        },
        MetricKey::ProceduralLoopCount => {
            reveal_strlit("sql.procedural.loop_count");
            assert("sql.procedural.loop_count"@.len() == 25);
        },
        MetricKey::ProceduralMaxBlockDepth => {
            reveal_strlit("sql.procedural.max_block_depth");
            assert("sql.procedural.max_block_depth"@.len() == 30);
        },
        MetricKey::ProceduralRaiseThrowCount => {
            reveal_strlit("sql.procedural.raise_throw_count");
            assert("sql.procedural.raise_throw_count"@.len() == 32);
        },
        MetricKey::ProceduralReturnCount => {
            reveal_strlit("sql.procedural.return_count");
            assert("sql.procedural.return_count"@.len() == 27);
        },
        MetricKey::ProceduralRoutineCount => {
            reveal_strlit("sql.procedural.routine_count");
            assert("sql.procedural.routine_count"@.len() == 28);
        },
        MetricKey::QueryBlockAvgSelectItems => {
            reveal_strlit("sql.query_block.avg_select_items");
            assert("sql.query_block.avg_select_items"@.len() == 32);
        },
        MetricKey::QueryBlockCount => {
            reveal_strlit("sql.query_block.count");
            assert("sql.query_block.count"@.len() == 21);
        },
        MetricKey::QueryBlockMaxDepth => {
            reveal_strlit("sql.query_block.max_depth");
            assert("sql.query_block.max_depth"@.len() == 25);
        },
        MetricKey::QueryBlockMaxSelectItems => {
            reveal_strlit("sql.query_block.max_select_items");
            assert("sql.query_block.max_select_items"@.len() == 32);
        },
        MetricKey::RelationRefCount => {
            reveal_strlit("sql.relation.ref_count");
            assert("sql.relation.ref_count"@.len() == 22);
        },
        MetricKey::ReviewBurdenIndex => {
            reveal_strlit("sql.review_burden_index");
            assert("sql.review_burden_index"@.len() == 23);
        },
        MetricKey::SelectExpressionWithoutAliasCount => {
            reveal_strlit("sql.select.expression_without_alias_count");
            assert("sql.select.expression_without_alias_count"@.len() == 41);
        },
        MetricKey::SelectOuterStarCount => {
            reveal_strlit("sql.select.outer_star_count");
            assert("sql.select.outer_star_count"@.len() == 27);
        },
        MetricKey::SelectOutputAliasCoverage => {
            reveal_strlit("sql.select.output_alias_coverage");
            assert("sql.select.output_alias_coverage"@.len() == 32);
        },
        MetricKey::SelectStarCount => {
            reveal_strlit("sql.select.star_count");
            assert("sql.select.star_count"@.len() == 21);
        },
        MetricKey::SetOpCount => {
            reveal_strlit("sql.set_op.count");
            assert("sql.set_op.count"@.len() == 16);
        },
        MetricKey::SetOpKindCountExcept => {
            reveal_strlit("sql.set_op.kind_count.except");
            assert("sql.set_op.kind_count.except"@.len() == 28);
        },
        MetricKey::SetOpKindCountIntersect => {
            reveal_strlit("sql.set_op.kind_count.intersect");
            assert("sql.set_op.kind_count.intersect"@.len() == 31);
        },
        MetricKey::SetOpKindCountUnion => {
            reveal_strlit("sql.set_op.kind_count.union");
            assert("sql.set_op.kind_count.union"@.len() == 27);
        },
        MetricKey::SetOpKindCountUnionAll => {
            reveal_strlit("sql.set_op.kind_count.union_all");
            assert("sql.set_op.kind_count.union_all"@.len() == 31);
        },
        MetricKey::SetOpUnionAllRatio => {
            reveal_strlit("sql.set_op.union_all_ratio");
            assert("sql.set_op.union_all_ratio"@.len() == 26);
        },
        MetricKey::StatementCount => {
            reveal_strlit("sql.statement.count");
            assert("sql.statement.count"@[14] != "sql.statement.lines"@[14]);
        },
        MetricKey::StatementKindDistinct => {
            reveal_strlit("sql.statement.kind_distinct");
            assert("sql.statement.kind_distinct"@.len() == 27);
        },
        MetricKey::StatementKindEntropy => {
            reveal_strlit("sql.statement.kind_entropy");
            assert("sql.statement.kind_entropy"@.len() == 26);
        },
        MetricKey::StatementUnparsedCount => {
            reveal_strlit("sql.statement.unparsed_count");
            assert("sql.statement.unparsed_count"@.len() == 28);
        },
        MetricKey::StructuralComplexity => {
            reveal_strlit("sql.structural_complexity");
            assert("sql.structural_complexity"@.len() == 25);
        },
        MetricKey::StructuralComplexityMaxEmbeddedQuery => {
            reveal_strlit("sql.structural_complexity.max_embedded_query");
            assert("sql.structural_complexity.max_embedded_query"@.len() == 44);
        },
        MetricKey::SubqueryCorrelatedCount => {
            reveal_strlit("sql.subquery.correlated_count");
            assert("sql.subquery.correlated_count"@.len() == 29);
        },
        MetricKey::SubqueryCount => {
            reveal_strlit("sql.subquery.count");
            assert("sql.subquery.count"@.len() == 18);
        },
        MetricKey::SubqueryExistsCount => {
            reveal_strlit("sql.subquery.exists_count");
            assert("sql.subquery.exists_count"@.len() == 25);
        },
        MetricKey::SubqueryInCount => {
            reveal_strlit("sql.subquery.in_count");
            assert("sql.subquery.in_count"@.len() == 21);
        },
        MetricKey::SubqueryMaxDepth => {
            reveal_strlit("sql.subquery.max_depth");
            assert("sql.subquery.max_depth"@.len() == 22);
        },
        MetricKey::SubqueryScalarCount => {
            reveal_strlit("sql.subquery.scalar_count");
            assert("sql.subquery.scalar_count"@.len() == 25);
        },
        MetricKey::TransactionControlCount => {
            reveal_strlit("sql.transaction.control_count");
            assert("sql.transaction.control_count"@.len() == 29);
        },
        MetricKey::WindowFrameCount => {
            reveal_strlit("sql.window.frame_count");
            assert("sql.window.frame_count"@.len() == 22);
        },
        MetricKey::WindowFunctionCount => {
            reveal_strlit("sql.window.function_count");
            assert("sql.window.function_count"@.len() == 25);
        },
        MetricKey::WindowOrderExpressionCount => {
            reveal_strlit("sql.window.order_expression_count");
            assert("sql.window.order_expression_count"@.len() == 33);
        },
        MetricKey::WindowPartitionExpressionCount => {
            reveal_strlit("sql.window.partition_expression_count");
            assert("sql.window.partition_expression_count"@.len() == 37);
        },
        MetricKey::StatementKindCount(kind) => {
            reveal_strlit("sql.statement.kind_count.");
            assert(key.spelled().len() >= 25);
        },
        MetricKey::DialectIs(kind) => {
            reveal_strlit("sql.dialect.is_");
            assert(key.spelled()[4] == 'd');
            assert("sql.statement.lines"@[4] == 's');
        },
        MetricKey::StatementLines => {},
    }
}

} // verus!
