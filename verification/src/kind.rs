//! The node kinds of the syntax tree that the rules look at, and the sets of
//! kinds that they ask for.

use vstd::prelude::*;

use crate::text::is_text;

verus! {

/// A node kind. `Other` stands for every kind that no rule looks at.
#[derive(Clone, Copy, Debug, PartialEq, Eq, Structural)]
pub enum Kind {
    Other,
    File,
    Keyword,
    Word,
    FunctionNameIdentifier,
    Comment,
    InlineComment,
    BlockComment,
    NotebookStart,
    Whitespace,
    Newline,
    Indent,
    Implicit,
    Dedent,
    EndOfFile,
    Placeholder,
    TemplateLoop,
    Unparsable,
    MultiStatementSegment,
    SelectStatement,
    WithCompoundStatement,
    SetExpression,
    InsertStatement,
    OracleInsertStatement,
    BulkInsertStatement,
    UpdateStatement,
    OracleUpdateStatement,
    DeleteStatement,
    OracleDeleteStatement,
    MergeStatement,
    TableReference,
    OracleTableReference,
    TransactionStatement,
    OracleTransactionStatement,
    CreateTableStatement,
    OracleCreateTableStatement,
    CreateViewStatement,
    CreateMaterializedViewStatement,
    OracleCreateViewStatement,
    AlterTableStatement,
    OracleAlterTableStatement,
    DropTableStatement,
    DropViewStatement,
    DropIndexStatement,
    DropStatement,
    DropFunctionStatement,
    DropSchemaStatement,
    OracleDropPackageStatement,
    OracleDropProcedureStatement,
    OracleDropSynonymStatement,
    OracleDropDatabaseLinkStatement,
    CreateIndexStatement,
    CreateSequenceStatement,
    CreateSchemaStatement,
    CreateSynonymStatement,
    CreateDatabaseStatement,
    CreateDomainStatement,
    CreateExtensionStatement,
    CreateTypeStatement,
    CreateUserStatement,
    CreateRoleStatement,
    SelectClauseElement,
    TruncateStatement,
    AccessStatement,
    ExplainStatement,
    Bracketed,
    OracleBeginEndBlock,
    BeginEndBlock,
    AtomicBeginEndBlock,
    IfStatements,
    IfStatement,
    IfThenStatement,
    WhileStatements,
    WhileStatement,
    LoopStatements,
    LoopStatement,
    RepeatStatement,
    ForInStatement,
    JoinClause,
    JoinOnCondition,
    ComparisonOperator,
    ColumnReference,
    Expression,
    StartBracket,
    EndBracket,
    SetOperator,
    CaseExpression,
    WhenClause,
    ElseClause,
    OverClause,
    FrameClause,
    PartitionbyClause,
    OrderbyClause,
    Function,
    GroupbyClause,
    HavingClause,
    CubeRollupClause,
    GroupingSetsClause,
    BinaryOperator,
    WhereClause,
    ColumnDefinition,
    ColumnConstraintSegment,
    NullLiteral,
    NakedIdentifier,
    QuotedIdentifier,
    FromExpressionElement,
    AliasExpression,
    CastExpression,
    WildcardExpression,
    WildcardIdentifier,
    CommonTableExpression,
    CreateProcedureStatement,
    CreateFunctionStatement,
    CreateTriggerStatement,
    CreateTrigger,
    OracleCreateProcedureStatement,
    OracleCreateFunctionStatement,
    OracleCreateTriggerStatement,
    OracleCreatePackageStatement,
    OracleCreateTypeBodyStatement,
    OracleFunctionName,
    FunctionName,
    ObjectReference,
    TriggerReference,
    OracleCreateTypeStatement,
    Statement,
    DatabaseReference,
    NumericLiteral,
    QuotedLiteral,
    BooleanLiteral,
    Parameter,
    Comma,
    Dot,
    StatementTerminator,
    Semicolon,
}

/// The kind of a node by its snake-case name.
pub open spec fn kind_of(s: Seq<char>) -> Kind {
    if s == "file"@ {
        Kind::File
    } else if s == "keyword"@ {
        Kind::Keyword
    } else if s == "word"@ {
        Kind::Word
    } else if s == "function_name_identifier"@ {
        Kind::FunctionNameIdentifier
    } else if s == "comment"@ {
        Kind::Comment
    } else if s == "inline_comment"@ {
        Kind::InlineComment
    } else if s == "block_comment"@ {
        Kind::BlockComment
    } else if s == "notebook_start"@ {
        Kind::NotebookStart
    } else if s == "whitespace"@ {
        Kind::Whitespace
    } else if s == "newline"@ {
        Kind::Newline
    } else if s == "indent"@ {
        Kind::Indent
    } else if s == "implicit"@ {
        Kind::Implicit
    } else if s == "dedent"@ {
        Kind::Dedent
    } else if s == "end_of_file"@ {
        Kind::EndOfFile
    } else if s == "placeholder"@ {
        Kind::Placeholder
    } else if s == "template_loop"@ {
        Kind::TemplateLoop
    } else if s == "unparsable"@ {
        Kind::Unparsable
    } else if s == "multi_statement_segment"@ {
        Kind::MultiStatementSegment
    } else if s == "select_statement"@ {
        Kind::SelectStatement
    } else if s == "with_compound_statement"@ {
        Kind::WithCompoundStatement
    } else if s == "set_expression"@ {
        Kind::SetExpression
    } else if s == "insert_statement"@ {
        Kind::InsertStatement
    } else if s == "oracle_insert_statement"@ {
        Kind::OracleInsertStatement
    } else if s == "bulk_insert_statement"@ {
        Kind::BulkInsertStatement
    } else if s == "update_statement"@ {
        Kind::UpdateStatement
    } else if s == "oracle_update_statement"@ {
        Kind::OracleUpdateStatement
    } else if s == "delete_statement"@ {
        Kind::DeleteStatement
    } else if s == "oracle_delete_statement"@ {
        Kind::OracleDeleteStatement
    } else if s == "merge_statement"@ {
        Kind::MergeStatement
    } else if s == "table_reference"@ {
        Kind::TableReference
    } else if s == "oracle_table_reference"@ {
        Kind::OracleTableReference
    } else if s == "transaction_statement"@ {
        Kind::TransactionStatement
    } else if s == "oracle_transaction_statement"@ {
        Kind::OracleTransactionStatement
    } else if s == "create_table_statement"@ {
        Kind::CreateTableStatement
    } else if s == "oracle_create_table_statement"@ {
        Kind::OracleCreateTableStatement
    } else if s == "create_view_statement"@ {
        Kind::CreateViewStatement
    } else if s == "create_materialized_view_statement"@ {
        Kind::CreateMaterializedViewStatement
    } else if s == "oracle_create_view_statement"@ {
        Kind::OracleCreateViewStatement
    } else if s == "alter_table_statement"@ {
        Kind::AlterTableStatement
    } else if s == "oracle_alter_table_statement"@ {
        Kind::OracleAlterTableStatement
    } else if s == "drop_table_statement"@ {
        Kind::DropTableStatement
    } else if s == "drop_view_statement"@ {
        Kind::DropViewStatement
    } else if s == "drop_index_statement"@ {
        Kind::DropIndexStatement
    } else if s == "drop_statement"@ {
        Kind::DropStatement
    } else if s == "drop_function_statement"@ {
        Kind::DropFunctionStatement
    } else if s == "drop_schema_statement"@ {
        Kind::DropSchemaStatement
    } else if s == "oracle_drop_package_statement"@ {
        Kind::OracleDropPackageStatement
    } else if s == "oracle_drop_procedure_statement"@ {
        Kind::OracleDropProcedureStatement
    } else if s == "oracle_drop_synonym_statement"@ {
        Kind::OracleDropSynonymStatement
    } else if s == "oracle_drop_database_link_statement"@ {
        Kind::OracleDropDatabaseLinkStatement
    } else if s == "create_index_statement"@ {
        Kind::CreateIndexStatement
    } else if s == "create_sequence_statement"@ {
        Kind::CreateSequenceStatement
    } else if s == "create_schema_statement"@ {
        Kind::CreateSchemaStatement
    } else if s == "create_synonym_statement"@ {
        Kind::CreateSynonymStatement
    } else if s == "create_database_statement"@ {
        Kind::CreateDatabaseStatement
    } else if s == "create_domain_statement"@ {
        Kind::CreateDomainStatement
    } else if s == "create_extension_statement"@ {
        Kind::CreateExtensionStatement
    } else if s == "create_type_statement"@ {
        Kind::CreateTypeStatement
    } else if s == "create_user_statement"@ {
        Kind::CreateUserStatement
    } else if s == "create_role_statement"@ {
        Kind::CreateRoleStatement
    } else if s == "select_clause_element"@ {
        Kind::SelectClauseElement
    } else if s == "truncate_statement"@ {
        Kind::TruncateStatement
    } else if s == "access_statement"@ {
        Kind::AccessStatement
    } else if s == "explain_statement"@ {
        Kind::ExplainStatement
    } else if s == "bracketed"@ {
        Kind::Bracketed
    } else if s == "oracle_begin_end_block"@ {
        Kind::OracleBeginEndBlock
    } else if s == "begin_end_block"@ {
        Kind::BeginEndBlock
    } else if s == "atomic_begin_end_block"@ {
        Kind::AtomicBeginEndBlock
    } else if s == "if_statements"@ {
        Kind::IfStatements
    } else if s == "if_statement"@ {
        Kind::IfStatement
    } else if s == "if_then_statement"@ {
        Kind::IfThenStatement
    } else if s == "while_statements"@ {
        Kind::WhileStatements
    } else if s == "while_statement"@ {
        Kind::WhileStatement
    } else if s == "loop_statements"@ {
        Kind::LoopStatements
    } else if s == "loop_statement"@ {
        Kind::LoopStatement
    } else if s == "repeat_statement"@ {
        Kind::RepeatStatement
    } else if s == "for_in_statement"@ {
        Kind::ForInStatement
    } else if s == "join_clause"@ {
        Kind::JoinClause
    } else if s == "join_on_condition"@ {
        Kind::JoinOnCondition
    } else if s == "comparison_operator"@ {
        Kind::ComparisonOperator
    } else if s == "column_reference"@ {
        Kind::ColumnReference
    } else if s == "expression"@ {
        Kind::Expression
    } else if s == "start_bracket"@ {
        Kind::StartBracket
    } else if s == "end_bracket"@ {
        Kind::EndBracket
    } else if s == "set_operator"@ {
        Kind::SetOperator
    } else if s == "case_expression"@ {
        Kind::CaseExpression
    } else if s == "when_clause"@ {
        Kind::WhenClause
    } else if s == "else_clause"@ {
        Kind::ElseClause
    } else if s == "over_clause"@ {
        Kind::OverClause
    } else if s == "frame_clause"@ {
        Kind::FrameClause
    } else if s == "partitionby_clause"@ {
        Kind::PartitionbyClause
    } else if s == "orderby_clause"@ {
        Kind::OrderbyClause
    } else if s == "function"@ {
        Kind::Function
    } else if s == "groupby_clause"@ {
        Kind::GroupbyClause
    } else if s == "having_clause"@ {
        Kind::HavingClause
    } else if s == "cube_rollup_clause"@ {
        Kind::CubeRollupClause
    } else if s == "grouping_sets_clause"@ {
        Kind::GroupingSetsClause
    } else if s == "binary_operator"@ {
        Kind::BinaryOperator
    } else if s == "where_clause"@ {
        Kind::WhereClause
    } else if s == "column_definition"@ {
        Kind::ColumnDefinition
    } else if s == "column_constraint_segment"@ {
        Kind::ColumnConstraintSegment
    } else if s == "null_literal"@ {
        Kind::NullLiteral
    } else if s == "naked_identifier"@ {
        Kind::NakedIdentifier
    } else if s == "quoted_identifier"@ {
        Kind::QuotedIdentifier
    } else if s == "from_expression_element"@ {
        Kind::FromExpressionElement
    } else if s == "alias_expression"@ {
        Kind::AliasExpression
    } else if s == "cast_expression"@ {
        Kind::CastExpression
    } else if s == "wildcard_expression"@ {
        Kind::WildcardExpression
    } else if s == "wildcard_identifier"@ {
        Kind::WildcardIdentifier
    } else if s == "common_table_expression"@ {
        Kind::CommonTableExpression
    } else if s == "create_procedure_statement"@ {
        Kind::CreateProcedureStatement
    } else if s == "create_function_statement"@ {
        Kind::CreateFunctionStatement
    } else if s == "create_trigger_statement"@ {
        Kind::CreateTriggerStatement
    } else if s == "create_trigger"@ {
        Kind::CreateTrigger
    } else if s == "oracle_create_procedure_statement"@ {
        Kind::OracleCreateProcedureStatement
    } else if s == "oracle_create_function_statement"@ {
        Kind::OracleCreateFunctionStatement
    } else if s == "oracle_create_trigger_statement"@ {
        Kind::OracleCreateTriggerStatement
    } else if s == "oracle_create_package_statement"@ {
        Kind::OracleCreatePackageStatement
    } else if s == "oracle_create_type_body_statement"@ {
        Kind::OracleCreateTypeBodyStatement
    } else if s == "oracle_function_name"@ {
        Kind::OracleFunctionName
    } else if s == "function_name"@ {
        Kind::FunctionName
    } else if s == "object_reference"@ {
        Kind::ObjectReference
    } else if s == "trigger_reference"@ {
        Kind::TriggerReference
    } else if s == "oracle_create_type_statement"@ {
        Kind::OracleCreateTypeStatement
    } else if s == "statement"@ {
        Kind::Statement
    } else if s == "database_reference"@ {
        Kind::DatabaseReference
    } else if s == "numeric_literal"@ {
        Kind::NumericLiteral
    } else if s == "quoted_literal"@ {
        Kind::QuotedLiteral
    } else if s == "boolean_literal"@ {
        Kind::BooleanLiteral
    } else if s == "parameter"@ {
        Kind::Parameter
    } else if s == "comma"@ {
        Kind::Comma
    } else if s == "dot"@ {
        Kind::Dot
    } else if s == "statement_terminator"@ {
        Kind::StatementTerminator
    } else if s == "semicolon"@ {
        Kind::Semicolon
    } else {
        Kind::Other
    }
}

/// The kind of a node by its snake-case name.
pub fn classify_kind(s: &Vec<char>) -> (r: Kind)
    ensures
        r == kind_of(s@),
{
    if is_text(s, "file") {
        Kind::File
    } else if is_text(s, "keyword") {
        Kind::Keyword
    } else if is_text(s, "word") {
        Kind::Word
    } else if is_text(s, "function_name_identifier") {
        Kind::FunctionNameIdentifier
    } else if is_text(s, "comment") {
        Kind::Comment
    } else if is_text(s, "inline_comment") {
        Kind::InlineComment
    } else if is_text(s, "block_comment") {
        Kind::BlockComment
    } else if is_text(s, "notebook_start") {
        Kind::NotebookStart
    } else if is_text(s, "whitespace") {
        Kind::Whitespace
    } else if is_text(s, "newline") {
        Kind::Newline
    } else if is_text(s, "indent") {
        Kind::Indent
    } else if is_text(s, "implicit") {
        Kind::Implicit
    } else if is_text(s, "dedent") {
        Kind::Dedent
    } else if is_text(s, "end_of_file") {
        Kind::EndOfFile
    } else if is_text(s, "placeholder") {
        Kind::Placeholder
    } else if is_text(s, "template_loop") {
        Kind::TemplateLoop
    } else if is_text(s, "unparsable") {
        Kind::Unparsable
    } else if is_text(s, "multi_statement_segment") {
        Kind::MultiStatementSegment
    } else if is_text(s, "select_statement") {
        Kind::SelectStatement
    } else if is_text(s, "with_compound_statement") {
        Kind::WithCompoundStatement
    } else if is_text(s, "set_expression") {
        Kind::SetExpression
    } else if is_text(s, "insert_statement") {
        Kind::InsertStatement
    } else if is_text(s, "oracle_insert_statement") {
        Kind::OracleInsertStatement
    } else if is_text(s, "bulk_insert_statement") {
        Kind::BulkInsertStatement
    } else if is_text(s, "update_statement") {
        Kind::UpdateStatement
    } else if is_text(s, "oracle_update_statement") {
        Kind::OracleUpdateStatement
    } else if is_text(s, "delete_statement") {
        Kind::DeleteStatement
    } else if is_text(s, "oracle_delete_statement") {
        Kind::OracleDeleteStatement
    } else if is_text(s, "merge_statement") {
        Kind::MergeStatement
    } else if is_text(s, "table_reference") {
        Kind::TableReference
    } else if is_text(s, "oracle_table_reference") {
        Kind::OracleTableReference
    } else if is_text(s, "transaction_statement") {
        Kind::TransactionStatement
    } else if is_text(s, "oracle_transaction_statement") {
        Kind::OracleTransactionStatement
    } else if is_text(s, "create_table_statement") {
        Kind::CreateTableStatement
    } else if is_text(s, "oracle_create_table_statement") {
        Kind::OracleCreateTableStatement
    } else if is_text(s, "create_view_statement") {
        Kind::CreateViewStatement
    } else if is_text(s, "create_materialized_view_statement") {
        Kind::CreateMaterializedViewStatement
    } else if is_text(s, "oracle_create_view_statement") {
        Kind::OracleCreateViewStatement
    } else if is_text(s, "alter_table_statement") {
        Kind::AlterTableStatement
    } else if is_text(s, "oracle_alter_table_statement") {
        Kind::OracleAlterTableStatement
    } else if is_text(s, "drop_table_statement") {
        Kind::DropTableStatement
    } else if is_text(s, "drop_view_statement") {
        Kind::DropViewStatement
    } else if is_text(s, "drop_index_statement") {
        Kind::DropIndexStatement
    } else if is_text(s, "drop_statement") {
        Kind::DropStatement
    } else if is_text(s, "drop_function_statement") {
        Kind::DropFunctionStatement
    } else if is_text(s, "drop_schema_statement") {
        Kind::DropSchemaStatement
    } else if is_text(s, "oracle_drop_package_statement") {
        Kind::OracleDropPackageStatement
    } else if is_text(s, "oracle_drop_procedure_statement") {
        Kind::OracleDropProcedureStatement
    } else if is_text(s, "oracle_drop_synonym_statement") {
        Kind::OracleDropSynonymStatement
    } else if is_text(s, "oracle_drop_database_link_statement") {
        Kind::OracleDropDatabaseLinkStatement
    } else if is_text(s, "create_index_statement") {
        Kind::CreateIndexStatement
    } else if is_text(s, "create_sequence_statement") {
        Kind::CreateSequenceStatement
    } else if is_text(s, "create_schema_statement") {
        Kind::CreateSchemaStatement
    } else if is_text(s, "create_synonym_statement") {
        Kind::CreateSynonymStatement
    } else if is_text(s, "create_database_statement") {
        Kind::CreateDatabaseStatement
    } else if is_text(s, "create_domain_statement") {
        Kind::CreateDomainStatement
    } else if is_text(s, "create_extension_statement") {
        Kind::CreateExtensionStatement
    } else if is_text(s, "create_type_statement") {
        Kind::CreateTypeStatement
    } else if is_text(s, "create_user_statement") {
        Kind::CreateUserStatement
    } else if is_text(s, "create_role_statement") {
        Kind::CreateRoleStatement
    } else if is_text(s, "select_clause_element") {
        Kind::SelectClauseElement
    } else if is_text(s, "truncate_statement") {
        Kind::TruncateStatement
    } else if is_text(s, "access_statement") {
        Kind::AccessStatement
    } else if is_text(s, "explain_statement") {
        Kind::ExplainStatement
    } else if is_text(s, "bracketed") {
        Kind::Bracketed
    } else if is_text(s, "oracle_begin_end_block") {
        Kind::OracleBeginEndBlock
    } else if is_text(s, "begin_end_block") {
        Kind::BeginEndBlock
    } else if is_text(s, "atomic_begin_end_block") {
        Kind::AtomicBeginEndBlock
    } else if is_text(s, "if_statements") {
        Kind::IfStatements
    } else if is_text(s, "if_statement") {
        Kind::IfStatement
    } else if is_text(s, "if_then_statement") {
        Kind::IfThenStatement
    } else if is_text(s, "while_statements") {
        Kind::WhileStatements
    } else if is_text(s, "while_statement") {
        Kind::WhileStatement
    } else if is_text(s, "loop_statements") {
        Kind::LoopStatements
    } else if is_text(s, "loop_statement") {
        Kind::LoopStatement
    } else if is_text(s, "repeat_statement") {
        Kind::RepeatStatement
    } else if is_text(s, "for_in_statement") {
        Kind::ForInStatement
    } else if is_text(s, "join_clause") {
        Kind::JoinClause
    } else if is_text(s, "join_on_condition") {
        Kind::JoinOnCondition
    } else if is_text(s, "comparison_operator") {
        Kind::ComparisonOperator
    } else if is_text(s, "column_reference") {
        Kind::ColumnReference
    } else if is_text(s, "expression") {
        Kind::Expression
    } else if is_text(s, "start_bracket") {
        Kind::StartBracket
    } else if is_text(s, "end_bracket") {
        Kind::EndBracket
    } else if is_text(s, "set_operator") {
        Kind::SetOperator
    } else if is_text(s, "case_expression") {
        Kind::CaseExpression
    } else if is_text(s, "when_clause") {
        Kind::WhenClause
    } else if is_text(s, "else_clause") {
        Kind::ElseClause
    } else if is_text(s, "over_clause") {
        Kind::OverClause
    } else if is_text(s, "frame_clause") {
        Kind::FrameClause
    } else if is_text(s, "partitionby_clause") {
        Kind::PartitionbyClause
    } else if is_text(s, "orderby_clause") {
        Kind::OrderbyClause
    } else if is_text(s, "function") {
        Kind::Function
    } else if is_text(s, "groupby_clause") {
        Kind::GroupbyClause
    } else if is_text(s, "having_clause") {
        Kind::HavingClause
    } else if is_text(s, "cube_rollup_clause") {
        Kind::CubeRollupClause
    } else if is_text(s, "grouping_sets_clause") {
        Kind::GroupingSetsClause
    } else if is_text(s, "binary_operator") {
        Kind::BinaryOperator
    } else if is_text(s, "where_clause") {
        Kind::WhereClause
    } else if is_text(s, "column_definition") {
        Kind::ColumnDefinition
    } else if is_text(s, "column_constraint_segment") {
        Kind::ColumnConstraintSegment
    } else if is_text(s, "null_literal") {
        Kind::NullLiteral
    } else if is_text(s, "naked_identifier") {
        Kind::NakedIdentifier
    } else if is_text(s, "quoted_identifier") {
        Kind::QuotedIdentifier
    } else if is_text(s, "from_expression_element") {
        Kind::FromExpressionElement
    } else if is_text(s, "alias_expression") {
        Kind::AliasExpression
    } else if is_text(s, "cast_expression") {
        Kind::CastExpression
    } else if is_text(s, "wildcard_expression") {
        Kind::WildcardExpression
    } else if is_text(s, "wildcard_identifier") {
        Kind::WildcardIdentifier
    } else if is_text(s, "common_table_expression") {
        Kind::CommonTableExpression
    } else if is_text(s, "create_procedure_statement") {
        Kind::CreateProcedureStatement
    } else if is_text(s, "create_function_statement") {
        Kind::CreateFunctionStatement
    } else if is_text(s, "create_trigger_statement") {
        Kind::CreateTriggerStatement
    } else if is_text(s, "create_trigger") {
        Kind::CreateTrigger
    } else if is_text(s, "oracle_create_procedure_statement") {
        Kind::OracleCreateProcedureStatement
    } else if is_text(s, "oracle_create_function_statement") {
        Kind::OracleCreateFunctionStatement
    } else if is_text(s, "oracle_create_trigger_statement") {
        Kind::OracleCreateTriggerStatement
    } else if is_text(s, "oracle_create_package_statement") {
        Kind::OracleCreatePackageStatement
    } else if is_text(s, "oracle_create_type_body_statement") {
        Kind::OracleCreateTypeBodyStatement
    } else if is_text(s, "oracle_function_name") {
        Kind::OracleFunctionName
    } else if is_text(s, "function_name") {
        Kind::FunctionName
    } else if is_text(s, "object_reference") {
        Kind::ObjectReference
    } else if is_text(s, "trigger_reference") {
        Kind::TriggerReference
    } else if is_text(s, "oracle_create_type_statement") {
        Kind::OracleCreateTypeStatement
    } else if is_text(s, "statement") {
        Kind::Statement
    } else if is_text(s, "database_reference") {
        Kind::DatabaseReference
    } else if is_text(s, "numeric_literal") {
        Kind::NumericLiteral
    } else if is_text(s, "quoted_literal") {
        Kind::QuotedLiteral
    } else if is_text(s, "boolean_literal") {
        Kind::BooleanLiteral
    } else if is_text(s, "parameter") {
        Kind::Parameter
    } else if is_text(s, "comma") {
        Kind::Comma
    } else if is_text(s, "dot") {
        Kind::Dot
    } else if is_text(s, "statement_terminator") {
        Kind::StatementTerminator
    } else if is_text(s, "semicolon") {
        Kind::Semicolon
    } else {
        Kind::Other
    }
}

/// A set of node kinds.
#[derive(Clone, Copy, Debug, PartialEq, Eq, Structural)]
pub enum KindSet {
    /// No kind.
    Empty,
    /// Every kind.
    Any,
    /// One kind.
    Only(Kind),
    /// The clauses that hold a predicate.
    Conditions,
    /// Table references in any dialect's spelling.
    TableReferences,
    /// `INSERT` statements.
    Inserts,
    /// `UPDATE` statements.
    Updates,
    /// `DELETE` statements.
    Deletes,
    /// Transaction control statements.
    Transactions,
    /// `CREATE TABLE` statements.
    CreateTables,
    /// `CREATE VIEW` statements.
    CreateViews,
    /// `ALTER TABLE` statements.
    AlterTables,
    /// `DROP` statements.
    Drops,
    /// `CREATE` statements of other objects than tables, views and routines.
    CreateOthers,
    /// Statements whose `IF NOT EXISTS` is a guard and no predicate.
    GuardedDdl,
    /// Contexts whose `NOT NULL` is a column constraint and no predicate.
    Constraints,
    /// Blocks with a node kind of their own.
    TypedBlocks,
    /// Control statements with a node kind of their own.
    TypedControls,
    /// Naked and quoted identifiers.
    Identifiers,
    /// The queries that make a derived table.
    Selectables,
    /// The expressions that make a select element derived.
    Computed,
    /// The constructs that keep a common table expression from being trivial.
    Structure,
    /// Statements that can return rows they changed.
    Dml,
    /// Statements that change an object.
    Writes,
    /// Drops that name their target through a generic reference.
    OracleDrops,
    /// Write statements of which only the first reference is a target.
    FirstTargetOnly,
    /// The references that name what a statement writes.
    Targets,
    /// The references that name what a generic drop removes.
    DropTargets,
    /// Routine definitions and their containers.
    Definitions,
    /// Definitions of one routine.
    Units,
    /// The nodes that name a routine in its definition.
    UnitNames,
    /// Oracle definitions of one routine.
    OracleRoutines,
    /// Oracle statements that can hold a specification.
    OracleSpecs,
    /// The nodes at which an embedded query starts.
    QueryRoots,
    /// Leaf tokens that are operands.
    Operands,
    /// References that are one operand as a whole.
    References,
    /// Leaf tokens that are neither operator nor operand.
    Punctuation,
    /// Comment tokens.
    Comments,
    /// Comments in the source text.
    CommentTexts,
    /// White-space tokens.
    Spaces,
    /// Tokens without source text.
    Metas,
    /// Leaf tokens that can be keywords.
    KeywordLikes,
    /// Where the search for a statement's own block stops.
    BlockBoundaries,
    /// The nodes that can be a statement's query.
    QueryBodies,
    /// Children that deepen an expression.
    DepthSteps,
}

impl KindSet {
    /// Whether the set holds a kind.
    pub open spec fn holds(self, k: Kind) -> bool {
        match self {
            KindSet::Empty => false,
            KindSet::Any => true,
            KindSet::Only(only) => k == only,
            KindSet::Conditions => {
                ||| k == Kind::WhereClause
                ||| k == Kind::HavingClause
                ||| k == Kind::JoinOnCondition
            },
            KindSet::TableReferences => {
                ||| k == Kind::TableReference
                ||| k == Kind::OracleTableReference
            },
            KindSet::Inserts => {
                ||| k == Kind::InsertStatement
                ||| k == Kind::OracleInsertStatement
                ||| k == Kind::BulkInsertStatement
            },
            KindSet::Updates => {
                ||| k == Kind::UpdateStatement
                ||| k == Kind::OracleUpdateStatement
            },
            KindSet::Deletes => {
                ||| k == Kind::DeleteStatement
                ||| k == Kind::OracleDeleteStatement
            },
            KindSet::Transactions => {
                ||| k == Kind::TransactionStatement
                ||| k == Kind::OracleTransactionStatement
            },
            KindSet::CreateTables => {
                ||| k == Kind::CreateTableStatement
                ||| k == Kind::OracleCreateTableStatement
            },
            KindSet::CreateViews => {
                ||| k == Kind::CreateViewStatement
                ||| k == Kind::CreateMaterializedViewStatement
                ||| k == Kind::OracleCreateViewStatement
            },
            KindSet::AlterTables => {
                ||| k == Kind::AlterTableStatement
                ||| k == Kind::OracleAlterTableStatement
            },
            KindSet::Drops => {
                ||| k == Kind::DropTableStatement
                ||| k == Kind::DropViewStatement
                ||| k == Kind::DropIndexStatement
                ||| k == Kind::DropStatement
                ||| k == Kind::DropFunctionStatement
                ||| k == Kind::DropSchemaStatement
                ||| k == Kind::OracleDropPackageStatement
                ||| k == Kind::OracleDropProcedureStatement
                ||| k == Kind::OracleDropSynonymStatement
                ||| k == Kind::OracleDropDatabaseLinkStatement
            },
            KindSet::CreateOthers => {
                ||| k == Kind::CreateIndexStatement
                ||| k == Kind::CreateSequenceStatement
                ||| k == Kind::CreateSchemaStatement
                ||| k == Kind::CreateSynonymStatement
                ||| k == Kind::CreateDatabaseStatement
                ||| k == Kind::CreateDomainStatement
                ||| k == Kind::CreateExtensionStatement
                ||| k == Kind::CreateTypeStatement
                ||| k == Kind::CreateUserStatement
                ||| k == Kind::CreateRoleStatement
            },
            KindSet::GuardedDdl => {
                ||| k == Kind::CreateTableStatement
                ||| k == Kind::OracleCreateTableStatement
                ||| k == Kind::CreateViewStatement
                ||| k == Kind::CreateMaterializedViewStatement
                ||| k == Kind::OracleCreateViewStatement
                ||| k == Kind::CreateIndexStatement
                ||| k == Kind::CreateSequenceStatement
                ||| k == Kind::CreateSchemaStatement
                ||| k == Kind::CreateSynonymStatement
                ||| k == Kind::CreateDatabaseStatement
                ||| k == Kind::CreateDomainStatement
                ||| k == Kind::CreateExtensionStatement
                ||| k == Kind::CreateTypeStatement
                ||| k == Kind::CreateUserStatement
                ||| k == Kind::CreateRoleStatement
                ||| k == Kind::AlterTableStatement
                ||| k == Kind::OracleAlterTableStatement
                ||| k == Kind::DropTableStatement
                ||| k == Kind::DropViewStatement
                ||| k == Kind::DropIndexStatement
                ||| k == Kind::DropStatement
                ||| k == Kind::DropFunctionStatement
                ||| k == Kind::DropSchemaStatement
                ||| k == Kind::OracleDropPackageStatement
                ||| k == Kind::OracleDropProcedureStatement
                ||| k == Kind::OracleDropSynonymStatement
                ||| k == Kind::OracleDropDatabaseLinkStatement
            },
            KindSet::Constraints => {
                ||| k == Kind::ColumnDefinition
                ||| k == Kind::ColumnConstraintSegment
            },
            KindSet::TypedBlocks => {
                ||| k == Kind::OracleBeginEndBlock
                ||| k == Kind::BeginEndBlock
                ||| k == Kind::AtomicBeginEndBlock
            },
            KindSet::TypedControls => {
                ||| k == Kind::IfStatements
                ||| k == Kind::IfStatement
                ||| k == Kind::IfThenStatement
                ||| k == Kind::WhileStatements
                ||| k == Kind::WhileStatement
                ||| k == Kind::LoopStatements
                ||| k == Kind::LoopStatement
                ||| k == Kind::RepeatStatement
                ||| k == Kind::ForInStatement
            },
            KindSet::Identifiers => {
                ||| k == Kind::NakedIdentifier
                ||| k == Kind::QuotedIdentifier
            },
            KindSet::Selectables => {
                ||| k == Kind::SelectStatement
                ||| k == Kind::SetExpression
            },
            KindSet::Computed => {
                ||| k == Kind::Expression
                ||| k == Kind::Function
                ||| k == Kind::CaseExpression
                ||| k == Kind::CastExpression
            },
            KindSet::Structure => {
                ||| k == Kind::WhereClause
                ||| k == Kind::JoinClause
                ||| k == Kind::GroupbyClause
                ||| k == Kind::HavingClause
                ||| k == Kind::SetExpression
                ||| k == Kind::CaseExpression
                ||| k == Kind::OverClause
            },
            KindSet::Dml => {
                ||| k == Kind::InsertStatement
                ||| k == Kind::OracleInsertStatement
                ||| k == Kind::BulkInsertStatement
                ||| k == Kind::UpdateStatement
                ||| k == Kind::OracleUpdateStatement
                ||| k == Kind::DeleteStatement
                ||| k == Kind::OracleDeleteStatement
                ||| k == Kind::MergeStatement
            },
            KindSet::Writes => {
                ||| k == Kind::InsertStatement
                ||| k == Kind::OracleInsertStatement
                ||| k == Kind::BulkInsertStatement
                ||| k == Kind::UpdateStatement
                ||| k == Kind::OracleUpdateStatement
                ||| k == Kind::DeleteStatement
                ||| k == Kind::OracleDeleteStatement
                ||| k == Kind::MergeStatement
                ||| k == Kind::TruncateStatement
                ||| k == Kind::AlterTableStatement
                ||| k == Kind::OracleAlterTableStatement
                ||| k == Kind::CreateTableStatement
                ||| k == Kind::OracleCreateTableStatement
                ||| k == Kind::CreateViewStatement
                ||| k == Kind::OracleCreateViewStatement
                ||| k == Kind::CreateMaterializedViewStatement
                ||| k == Kind::CreateIndexStatement
                ||| k == Kind::DropTableStatement
                ||| k == Kind::DropViewStatement
                ||| k == Kind::DropIndexStatement
                ||| k == Kind::DropFunctionStatement
                ||| k == Kind::DropSchemaStatement
                ||| k == Kind::DropStatement
                ||| k == Kind::OracleDropPackageStatement
                ||| k == Kind::OracleDropProcedureStatement
                ||| k == Kind::OracleDropSynonymStatement
                ||| k == Kind::OracleDropDatabaseLinkStatement
            },
            KindSet::OracleDrops => {
                ||| k == Kind::OracleDropPackageStatement
                ||| k == Kind::OracleDropProcedureStatement
                ||| k == Kind::OracleDropSynonymStatement
                ||| k == Kind::OracleDropDatabaseLinkStatement
            },
            KindSet::FirstTargetOnly => {
                ||| k == Kind::UpdateStatement
                ||| k == Kind::OracleUpdateStatement
                ||| k == Kind::DeleteStatement
                ||| k == Kind::OracleDeleteStatement
                ||| k == Kind::MergeStatement
                ||| k == Kind::CreateIndexStatement
                ||| k == Kind::DropIndexStatement
                ||| k == Kind::CreateTableStatement
                ||| k == Kind::OracleCreateTableStatement
                ||| k == Kind::AlterTableStatement
                ||| k == Kind::OracleAlterTableStatement
            },
            KindSet::Targets => {
                ||| k == Kind::TableReference
                ||| k == Kind::OracleTableReference
                ||| k == Kind::FunctionName
                ||| k == Kind::DatabaseReference
            },
            KindSet::DropTargets => {
                ||| k == Kind::TableReference
                ||| k == Kind::OracleTableReference
                ||| k == Kind::FunctionName
                ||| k == Kind::DatabaseReference
                ||| k == Kind::ObjectReference
                ||| k == Kind::OracleFunctionName
            },
            KindSet::Definitions => {
                ||| k == Kind::CreateProcedureStatement
                ||| k == Kind::CreateFunctionStatement
                ||| k == Kind::CreateTriggerStatement
                ||| k == Kind::CreateTrigger
                ||| k == Kind::OracleCreateProcedureStatement
                ||| k == Kind::OracleCreateFunctionStatement
                ||| k == Kind::OracleCreateTriggerStatement
                ||| k == Kind::OracleCreatePackageStatement
                ||| k == Kind::OracleCreateTypeBodyStatement
            },
            KindSet::Units => {
                ||| k == Kind::CreateProcedureStatement
                ||| k == Kind::CreateFunctionStatement
                ||| k == Kind::CreateTriggerStatement
                ||| k == Kind::CreateTrigger
                ||| k == Kind::OracleCreateProcedureStatement
                ||| k == Kind::OracleCreateFunctionStatement
                ||| k == Kind::OracleCreateTriggerStatement
            },
            KindSet::UnitNames => {
                ||| k == Kind::OracleFunctionName
                ||| k == Kind::FunctionName
                ||| k == Kind::ObjectReference
                ||| k == Kind::TriggerReference
            },
            KindSet::OracleRoutines => {
                ||| k == Kind::OracleCreateProcedureStatement
                ||| k == Kind::OracleCreateFunctionStatement
                ||| k == Kind::OracleCreateTriggerStatement
            },
            KindSet::OracleSpecs => {
                ||| k == Kind::OracleCreatePackageStatement
                ||| k == Kind::OracleCreateTypeStatement
            },
            KindSet::QueryRoots => {
                ||| k == Kind::WithCompoundStatement
                ||| k == Kind::SetExpression
                ||| k == Kind::SelectStatement
                ||| k == Kind::InsertStatement
                ||| k == Kind::OracleInsertStatement
                ||| k == Kind::BulkInsertStatement
                ||| k == Kind::UpdateStatement
                ||| k == Kind::OracleUpdateStatement
                ||| k == Kind::DeleteStatement
                ||| k == Kind::OracleDeleteStatement
                ||| k == Kind::MergeStatement
            },
            KindSet::Operands => {
                ||| k == Kind::NakedIdentifier
                ||| k == Kind::QuotedIdentifier
                ||| k == Kind::NumericLiteral
                ||| k == Kind::QuotedLiteral
                ||| k == Kind::BooleanLiteral
                ||| k == Kind::NullLiteral
                ||| k == Kind::ColumnReference
                ||| k == Kind::Parameter
            },
            KindSet::References => {
                ||| k == Kind::ColumnReference
                ||| k == Kind::TableReference
                ||| k == Kind::ObjectReference
            },
            KindSet::Punctuation => {
                ||| k == Kind::Comma
                ||| k == Kind::Dot
                ||| k == Kind::StartBracket
                ||| k == Kind::EndBracket
                ||| k == Kind::StatementTerminator
                ||| k == Kind::Semicolon
            },
            KindSet::Comments => {
                ||| k == Kind::Comment
                ||| k == Kind::InlineComment
                ||| k == Kind::BlockComment
                ||| k == Kind::NotebookStart
            },
            KindSet::CommentTexts => {
                ||| k == Kind::Comment
                ||| k == Kind::InlineComment
                ||| k == Kind::BlockComment
            },
            KindSet::Spaces => {
                ||| k == Kind::Whitespace
                ||| k == Kind::Newline
            },
            KindSet::Metas => {
                ||| k == Kind::Indent
                ||| k == Kind::Implicit
                ||| k == Kind::Dedent
                ||| k == Kind::EndOfFile
                ||| k == Kind::Placeholder
                ||| k == Kind::TemplateLoop
            },
            KindSet::KeywordLikes => {
                ||| k == Kind::Keyword
                ||| k == Kind::Word
                ||| k == Kind::FunctionNameIdentifier
            },
            KindSet::BlockBoundaries => {
                ||| k == Kind::Bracketed
                ||| k == Kind::CreateProcedureStatement
                ||| k == Kind::CreateFunctionStatement
                ||| k == Kind::CreateTriggerStatement
                ||| k == Kind::CreateTrigger
                ||| k == Kind::OracleCreateProcedureStatement
                ||| k == Kind::OracleCreateFunctionStatement
                ||| k == Kind::OracleCreateTriggerStatement
                ||| k == Kind::OracleCreatePackageStatement
                ||| k == Kind::OracleCreateTypeBodyStatement
            },
            KindSet::QueryBodies => {
                ||| k == Kind::WithCompoundStatement
                ||| k == Kind::SetExpression
                ||| k == Kind::SelectStatement
            },
            KindSet::DepthSteps => {
                ||| k == Kind::Expression
                ||| k == Kind::Function
                ||| k == Kind::CaseExpression
                ||| k == Kind::Bracketed
            },
        }
    }

    /// Whether the set holds a kind.
    pub fn has(self, k: Kind) -> (r: bool)
        ensures
            r == self.holds(k),
    {
        match self {
            KindSet::Empty => false,
            KindSet::Any => true,
            KindSet::Only(only) => k == only,
            KindSet::Conditions => matches!(
                k,
                Kind::WhereClause
                    | Kind::HavingClause
                    | Kind::JoinOnCondition
            ),
            KindSet::TableReferences => matches!(
                k,
                Kind::TableReference
                    | Kind::OracleTableReference
            ),
            KindSet::Inserts => matches!(
                k,
                Kind::InsertStatement
                    | Kind::OracleInsertStatement
                    | Kind::BulkInsertStatement
            ),
            KindSet::Updates => matches!(
                k,
                Kind::UpdateStatement
                    | Kind::OracleUpdateStatement
            ),
            KindSet::Deletes => matches!(
                k,
                Kind::DeleteStatement
                    | Kind::OracleDeleteStatement
            ),
            KindSet::Transactions => matches!(
                k,
                Kind::TransactionStatement
                    | Kind::OracleTransactionStatement
            ),
            KindSet::CreateTables => matches!(
                k,
                Kind::CreateTableStatement
                    | Kind::OracleCreateTableStatement
            ),
            KindSet::CreateViews => matches!(
                k,
                Kind::CreateViewStatement
                    | Kind::CreateMaterializedViewStatement
                    | Kind::OracleCreateViewStatement
            ),
            KindSet::AlterTables => matches!(
                k,
                Kind::AlterTableStatement
                    | Kind::OracleAlterTableStatement
            ),
            KindSet::Drops => matches!(
                k,
                Kind::DropTableStatement
                    | Kind::DropViewStatement
                    | Kind::DropIndexStatement
                    | Kind::DropStatement
                    | Kind::DropFunctionStatement
                    | Kind::DropSchemaStatement
                    | Kind::OracleDropPackageStatement
                    | Kind::OracleDropProcedureStatement
                    | Kind::OracleDropSynonymStatement
                    | Kind::OracleDropDatabaseLinkStatement
            ),
            KindSet::CreateOthers => matches!(
                k,
                Kind::CreateIndexStatement
                    | Kind::CreateSequenceStatement
                    | Kind::CreateSchemaStatement
                    | Kind::CreateSynonymStatement
                    | Kind::CreateDatabaseStatement
                    | Kind::CreateDomainStatement
                    | Kind::CreateExtensionStatement
                    | Kind::CreateTypeStatement
                    | Kind::CreateUserStatement
                    | Kind::CreateRoleStatement
            ),
            KindSet::GuardedDdl => matches!(
                k,
                Kind::CreateTableStatement
                    | Kind::OracleCreateTableStatement
                    | Kind::CreateViewStatement
                    | Kind::CreateMaterializedViewStatement
                    | Kind::OracleCreateViewStatement
                    | Kind::CreateIndexStatement
                    | Kind::CreateSequenceStatement
                    | Kind::CreateSchemaStatement
                    | Kind::CreateSynonymStatement
                    | Kind::CreateDatabaseStatement
                    | Kind::CreateDomainStatement
                    | Kind::CreateExtensionStatement
                    | Kind::CreateTypeStatement
                    | Kind::CreateUserStatement
                    | Kind::CreateRoleStatement
                    | Kind::AlterTableStatement
                    | Kind::OracleAlterTableStatement
                    | Kind::DropTableStatement
                    | Kind::DropViewStatement
                    | Kind::DropIndexStatement
                    | Kind::DropStatement
                    | Kind::DropFunctionStatement
                    | Kind::DropSchemaStatement
                    | Kind::OracleDropPackageStatement
                    | Kind::OracleDropProcedureStatement
                    | Kind::OracleDropSynonymStatement
                    | Kind::OracleDropDatabaseLinkStatement
            ),
            KindSet::Constraints => matches!(
                k,
                Kind::ColumnDefinition
                    | Kind::ColumnConstraintSegment
            ),
            KindSet::TypedBlocks => matches!(
                k,
                Kind::OracleBeginEndBlock
                    | Kind::BeginEndBlock
                    | Kind::AtomicBeginEndBlock
            ),
            KindSet::TypedControls => matches!(
                k,
                Kind::IfStatements
                    | Kind::IfStatement
                    | Kind::IfThenStatement
                    | Kind::WhileStatements
                    | Kind::WhileStatement
                    | Kind::LoopStatements
                    | Kind::LoopStatement
                    | Kind::RepeatStatement
                    | Kind::ForInStatement
            ),
            KindSet::Identifiers => matches!(
                k,
                Kind::NakedIdentifier
                    | Kind::QuotedIdentifier
            ),
            KindSet::Selectables => matches!(
                k,
                Kind::SelectStatement
                    | Kind::SetExpression
            ),
            KindSet::Computed => matches!(
                k,
                Kind::Expression
                    | Kind::Function
                    | Kind::CaseExpression
                    | Kind::CastExpression
            ),
            KindSet::Structure => matches!(
                k,
                Kind::WhereClause
                    | Kind::JoinClause
                    | Kind::GroupbyClause
                    | Kind::HavingClause
                    | Kind::SetExpression
                    | Kind::CaseExpression
                    | Kind::OverClause
            ),
            KindSet::Dml => matches!(
                k,
                Kind::InsertStatement
                    | Kind::OracleInsertStatement
                    | Kind::BulkInsertStatement
                    | Kind::UpdateStatement
                    | Kind::OracleUpdateStatement
                    | Kind::DeleteStatement
                    | Kind::OracleDeleteStatement
                    | Kind::MergeStatement
            ),
            KindSet::Writes => matches!(
                k,
                Kind::InsertStatement
                    | Kind::OracleInsertStatement
                    | Kind::BulkInsertStatement
                    | Kind::UpdateStatement
                    | Kind::OracleUpdateStatement
                    | Kind::DeleteStatement
                    | Kind::OracleDeleteStatement
                    | Kind::MergeStatement
                    | Kind::TruncateStatement
                    | Kind::AlterTableStatement
                    | Kind::OracleAlterTableStatement
                    | Kind::CreateTableStatement
                    | Kind::OracleCreateTableStatement
                    | Kind::CreateViewStatement
                    | Kind::OracleCreateViewStatement
                    | Kind::CreateMaterializedViewStatement
                    | Kind::CreateIndexStatement
                    | Kind::DropTableStatement
                    | Kind::DropViewStatement
                    | Kind::DropIndexStatement
                    | Kind::DropFunctionStatement
                    | Kind::DropSchemaStatement
                    | Kind::DropStatement
                    | Kind::OracleDropPackageStatement
                    | Kind::OracleDropProcedureStatement
                    | Kind::OracleDropSynonymStatement
                    | Kind::OracleDropDatabaseLinkStatement
            ),
            KindSet::OracleDrops => matches!(
                k,
                Kind::OracleDropPackageStatement
                    | Kind::OracleDropProcedureStatement
                    | Kind::OracleDropSynonymStatement
                    | Kind::OracleDropDatabaseLinkStatement
            ),
            KindSet::FirstTargetOnly => matches!(
                k,
                Kind::UpdateStatement
                    | Kind::OracleUpdateStatement
                    | Kind::DeleteStatement
                    | Kind::OracleDeleteStatement
                    | Kind::MergeStatement
                    | Kind::CreateIndexStatement
                    | Kind::DropIndexStatement
                    | Kind::CreateTableStatement
                    | Kind::OracleCreateTableStatement
                    | Kind::AlterTableStatement
                    | Kind::OracleAlterTableStatement
            ),
            KindSet::Targets => matches!(
                k,
                Kind::TableReference
                    | Kind::OracleTableReference
                    | Kind::FunctionName
                    | Kind::DatabaseReference
            ),
            KindSet::DropTargets => matches!(
                k,
                Kind::TableReference
                    | Kind::OracleTableReference
                    | Kind::FunctionName
                    | Kind::DatabaseReference
                    | Kind::ObjectReference
                    | Kind::OracleFunctionName
            ),
            KindSet::Definitions => matches!(
                k,
                Kind::CreateProcedureStatement
                    | Kind::CreateFunctionStatement
                    | Kind::CreateTriggerStatement
                    | Kind::CreateTrigger
                    | Kind::OracleCreateProcedureStatement
                    | Kind::OracleCreateFunctionStatement
                    | Kind::OracleCreateTriggerStatement
                    | Kind::OracleCreatePackageStatement
                    | Kind::OracleCreateTypeBodyStatement
            ),
            KindSet::Units => matches!(
                k,
                Kind::CreateProcedureStatement
                    | Kind::CreateFunctionStatement
                    | Kind::CreateTriggerStatement
                    | Kind::CreateTrigger
                    | Kind::OracleCreateProcedureStatement
                    | Kind::OracleCreateFunctionStatement
                    | Kind::OracleCreateTriggerStatement
            ),
            KindSet::UnitNames => matches!(
                k,
                Kind::OracleFunctionName
                    | Kind::FunctionName
                    | Kind::ObjectReference
                    | Kind::TriggerReference
            ),
            KindSet::OracleRoutines => matches!(
                k,
                Kind::OracleCreateProcedureStatement
                    | Kind::OracleCreateFunctionStatement
                    | Kind::OracleCreateTriggerStatement
            ),
            KindSet::OracleSpecs => matches!(
                k,
                Kind::OracleCreatePackageStatement
                    | Kind::OracleCreateTypeStatement
            ),
            KindSet::QueryRoots => matches!(
                k,
                Kind::WithCompoundStatement
                    | Kind::SetExpression
                    | Kind::SelectStatement
                    | Kind::InsertStatement
                    | Kind::OracleInsertStatement
                    | Kind::BulkInsertStatement
                    | Kind::UpdateStatement
                    | Kind::OracleUpdateStatement
                    | Kind::DeleteStatement
                    | Kind::OracleDeleteStatement
                    | Kind::MergeStatement
            ),
            KindSet::Operands => matches!(
                k,
                Kind::NakedIdentifier
                    | Kind::QuotedIdentifier
                    | Kind::NumericLiteral
                    | Kind::QuotedLiteral
                    | Kind::BooleanLiteral
                    | Kind::NullLiteral
                    | Kind::ColumnReference
                    | Kind::Parameter
            ),
            KindSet::References => matches!(
                k,
                Kind::ColumnReference
                    | Kind::TableReference
                    | Kind::ObjectReference
            ),
            KindSet::Punctuation => matches!(
                k,
                Kind::Comma
                    | Kind::Dot
                    | Kind::StartBracket
                    | Kind::EndBracket
                    | Kind::StatementTerminator
                    | Kind::Semicolon
            ),
            KindSet::Comments => matches!(
                k,
                Kind::Comment
                    | Kind::InlineComment
                    | Kind::BlockComment
                    | Kind::NotebookStart
            ),
            KindSet::CommentTexts => matches!(
                k,
                Kind::Comment
                    | Kind::InlineComment
                    | Kind::BlockComment
            ),
            KindSet::Spaces => matches!(
                k,
                Kind::Whitespace
                    | Kind::Newline
            ),
            KindSet::Metas => matches!(
                k,
                Kind::Indent
                    | Kind::Implicit
                    | Kind::Dedent
                    | Kind::EndOfFile
                    | Kind::Placeholder
                    | Kind::TemplateLoop
            ),
            KindSet::KeywordLikes => matches!(
                k,
                Kind::Keyword
                    | Kind::Word
                    | Kind::FunctionNameIdentifier
            ),
            KindSet::BlockBoundaries => matches!(
                k,
                Kind::Bracketed
                    | Kind::CreateProcedureStatement
                    | Kind::CreateFunctionStatement
                    | Kind::CreateTriggerStatement
                    | Kind::CreateTrigger
                    | Kind::OracleCreateProcedureStatement
                    | Kind::OracleCreateFunctionStatement
                    | Kind::OracleCreateTriggerStatement
                    | Kind::OracleCreatePackageStatement
                    | Kind::OracleCreateTypeBodyStatement
            ),
            KindSet::QueryBodies => matches!(
                k,
                Kind::WithCompoundStatement
                    | Kind::SetExpression
                    | Kind::SelectStatement
            ),
            KindSet::DepthSteps => matches!(
                k,
                Kind::Expression
                    | Kind::Function
                    | Kind::CaseExpression
                    | Kind::Bracketed
            ),
        }
    }
}

} // verus!
