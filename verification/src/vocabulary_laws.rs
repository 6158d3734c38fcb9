//! What the words and the node kinds are called, and which kinds belong
//! together.

use vstd::prelude::*;

use crate::kind::{kind_of, Kind, KindSet};
use crate::word::{word_of, Word};

verus! {

/// How a word of the vocabulary is written; the other texts have no entry.
pub open spec fn word_text(w: Word) -> Option<Seq<char>> {
    match w {
        Word::Absent => None,
        Word::Other => None,
        Word::OpenParen => Some("("@),
        Word::CloseParen => Some(")"@),
        Word::Comma => Some(","@),
        Word::Semicolon => Some(";"@),
        Word::Dot => Some("."@),
        Word::Equals => Some("="@),
        Word::Plus => Some("+"@),
        Word::Minus => Some("-"@),
        Word::Star => Some("*"@),
        Word::Slash => Some("/"@),
        Word::Percent => Some("%"@),
        Word::Concat => Some("||"@),
        Word::Greater => Some(">"@),
        Word::Less => Some("<"@),
        Word::GreaterEquals => Some(">="@),
        Word::LessEquals => Some("<="@),
        Word::NotEquals => Some("<>"@),
        Word::BangEquals => Some("!="@),
        Word::Begin => Some("BEGIN"@),
        Word::Transaction => Some("TRANSACTION"@),
        Word::Tran => Some("TRAN"@),
        Word::Work => Some("WORK"@),
        Word::Distributed => Some("DISTRIBUTED"@),
        Word::Dialog => Some("DIALOG"@),
        Word::End => Some("END"@),
        Word::If => Some("IF"@),
        Word::Loop => Some("LOOP"@),
        Word::While => Some("WHILE"@),
        Word::Case => Some("CASE"@),
        Word::Repeat => Some("REPEAT"@),
        Word::Elsif => Some("ELSIF"@),
        Word::Elseif => Some("ELSEIF"@),
        Word::Else => Some("ELSE"@),
        Word::SpExecutesql => Some("SP_EXECUTESQL"@),
        Word::Execute => Some("EXECUTE"@),
        Word::Immediate => Some("IMMEDIATE"@),
        Word::Exec => Some("EXEC"@),
        Word::Prepare => Some("PREPARE"@),
        Word::From => Some("FROM"@),
        Word::Exception => Some("EXCEPTION"@),
        Word::When => Some("WHEN"@),
        Word::Select => Some("SELECT"@),
        Word::Return => Some("RETURN"@),
        Word::And => Some("AND"@),
        Word::Or => Some("OR"@),
        Word::Not => Some("NOT"@),
        Word::Until => Some("UNTIL"@),
        Word::Then => Some("THEN"@),
        Word::Is => Some("IS"@),
        Word::As => Some("AS"@),
        Word::Language => Some("LANGUAGE"@),
        Word::External => Some("EXTERNAL"@),
        Word::Function => Some("FUNCTION"@),
        Word::Procedure => Some("PROCEDURE"@),
        Word::Drop => Some("DROP"@),
        Word::Alter => Some("ALTER"@),
        Word::On => Some("ON"@),
        Word::Exists => Some("EXISTS"@),
        Word::Try => Some("TRY"@),
        Word::Catch => Some("CATCH"@),
        Word::For => Some("FOR"@),
        Word::Table => Some("TABLE"@),
        Word::View => Some("VIEW"@),
        Word::Index => Some("INDEX"@),
        Word::Schema => Some("SCHEMA"@),
        Word::Database => Some("DATABASE"@),
        Word::Trigger => Some("TRIGGER"@),
        Word::Sequence => Some("SEQUENCE"@),
        Word::Column => Some("COLUMN"@),
        Word::Constraint => Some("CONSTRAINT"@),
        Word::Extension => Some("EXTENSION"@),
        Word::Type => Some("TYPE"@),
        Word::Role => Some("ROLE"@),
        Word::User => Some("USER"@),
        Word::Matched => Some("MATCHED"@),
        Word::Exit => Some("EXIT"@),
        Word::Continue => Some("CONTINUE"@),
        Word::Do => Some("DO"@),
        Word::Each => Some("EACH"@),
        Word::Update => Some("UPDATE"@),
        Word::Xml => Some("XML"@),
        Word::Json => Some("JSON"@),
        Word::Browse => Some("BROWSE"@),
        Word::Share => Some("SHARE"@),
        Word::Key => Some("KEY"@),
        Word::No => Some("NO"@),
        Word::Delete => Some("DELETE"@),
        Word::Insert => Some("INSERT"@),
        Word::In => Some("IN"@),
        Word::Goto => Some("GOTO"@),
        Word::Raise => Some("RAISE"@),
        Word::RaiseApplicationError => Some("RAISE_APPLICATION_ERROR"@),
        Word::Throw => Some("THROW"@),
        Word::Raiserror => Some("RAISERROR"@),
        Word::Signal => Some("SIGNAL"@),
        Word::Resignal => Some("RESIGNAL"@),
        Word::DbmsSql => Some("DBMS_SQL"@),
        Word::Between => Some("BETWEEN"@),
        Word::Like => Some("LIKE"@),
        Word::Where => Some("WHERE"@),
        Word::Having => Some("HAVING"@),
        Word::SetWord => Some("SET"@),
        Word::Group => Some("GROUP"@),
        Word::Order => Some("ORDER"@),
        Word::Values => Some("VALUES"@),
        Word::Into => Some("INTO"@),
        Word::Union => Some("UNION"@),
        Word::Join => Some("JOIN"@),
        Word::Qualify => Some("QUALIFY"@),
        Word::Declare => Some("DECLARE"@),
        Word::Go => Some("GO"@),
        Word::Left => Some("LEFT"@),
        Word::Right => Some("RIGHT"@),
        Word::Full => Some("FULL"@),
        Word::Cross => Some("CROSS"@),
        Word::Outer => Some("OUTER"@),
        Word::Natural => Some("NATURAL"@),
        Word::Lateral => Some("LATERAL"@),
        Word::Apply => Some("APPLY"@),
        Word::Using => Some("USING"@),
        Word::Distinct => Some("DISTINCT"@),
        Word::Cube => Some("CUBE"@),
        Word::Rollup => Some("ROLLUP"@),
        Word::Null => Some("NULL"@),
        Word::Cast => Some("CAST"@),
        Word::Create => Some("CREATE"@),
        Word::Replace => Some("REPLACE"@),
        Word::Returning => Some("RETURNING"@),
        Word::Output => Some("OUTPUT"@),
        Word::Body => Some("BODY"@),
        Word::Editionable => Some("EDITIONABLE"@),
        Word::Noneditionable => Some("NONEDITIONABLE"@),
        Word::Package => Some("PACKAGE"@),
        Word::Definer => Some("DEFINER"@),
        Word::Proc => Some("PROC"@),
    }
}

/// A text is found in the vocabulary as the word that is written so, and it is
/// found whenever a word is written so.
pub proof fn words_are_found_by_their_text(s: Seq<char>, w: Word)
    ensures
        word_of(s) != Word::Absent,
        word_of(s) != Word::Other ==> word_text(word_of(s)) == Some(s),
        word_text(w) == Some(s) ==> word_of(s) != Word::Other,
{
}

/// What a node of a kind is called; the kinds that no rule looks at have no
/// entry.
pub open spec fn kind_name(k: Kind) -> Option<Seq<char>> {
    match k {
        Kind::Other => None,
        Kind::File => Some("file"@),
        Kind::Keyword => Some("keyword"@),
        Kind::Word => Some("word"@),
        Kind::FunctionNameIdentifier => Some("function_name_identifier"@),
        Kind::Comment => Some("comment"@),
        Kind::InlineComment => Some("inline_comment"@),
        Kind::BlockComment => Some("block_comment"@),
        Kind::NotebookStart => Some("notebook_start"@),
        Kind::Whitespace => Some("whitespace"@),
        Kind::Newline => Some("newline"@),
        Kind::Indent => Some("indent"@),
        Kind::Implicit => Some("implicit"@),
        Kind::Dedent => Some("dedent"@),
        Kind::EndOfFile => Some("end_of_file"@),
        Kind::Placeholder => Some("placeholder"@),
        Kind::TemplateLoop => Some("template_loop"@),
        Kind::Unparsable => Some("unparsable"@),
        Kind::MultiStatementSegment => Some("multi_statement_segment"@),
        Kind::SelectStatement => Some("select_statement"@),
        Kind::WithCompoundStatement => Some("with_compound_statement"@),
        Kind::SetExpression => Some("set_expression"@),
        Kind::InsertStatement => Some("insert_statement"@),
        Kind::OracleInsertStatement => Some("oracle_insert_statement"@),
        Kind::BulkInsertStatement => Some("bulk_insert_statement"@),
        Kind::UpdateStatement => Some("update_statement"@),
        Kind::OracleUpdateStatement => Some("oracle_update_statement"@),
        Kind::DeleteStatement => Some("delete_statement"@),
        Kind::OracleDeleteStatement => Some("oracle_delete_statement"@),
        Kind::MergeStatement => Some("merge_statement"@),
        Kind::TableReference => Some("table_reference"@),
        Kind::OracleTableReference => Some("oracle_table_reference"@),
        Kind::TransactionStatement => Some("transaction_statement"@),
        Kind::OracleTransactionStatement => Some("oracle_transaction_statement"@),
        Kind::CreateTableStatement => Some("create_table_statement"@),
        Kind::OracleCreateTableStatement => Some("oracle_create_table_statement"@),
        Kind::CreateViewStatement => Some("create_view_statement"@),
        Kind::CreateMaterializedViewStatement => Some("create_materialized_view_statement"@),
        Kind::OracleCreateViewStatement => Some("oracle_create_view_statement"@),
        Kind::AlterTableStatement => Some("alter_table_statement"@),
        Kind::OracleAlterTableStatement => Some("oracle_alter_table_statement"@),
        Kind::DropTableStatement => Some("drop_table_statement"@),
        Kind::DropViewStatement => Some("drop_view_statement"@),
        Kind::DropIndexStatement => Some("drop_index_statement"@),
        Kind::DropStatement => Some("drop_statement"@),
        Kind::DropFunctionStatement => Some("drop_function_statement"@),
        Kind::DropSchemaStatement => Some("drop_schema_statement"@),
        Kind::OracleDropPackageStatement => Some("oracle_drop_package_statement"@),
        Kind::OracleDropProcedureStatement => Some("oracle_drop_procedure_statement"@),
        Kind::OracleDropSynonymStatement => Some("oracle_drop_synonym_statement"@),
        Kind::OracleDropDatabaseLinkStatement => Some("oracle_drop_database_link_statement"@),
        Kind::CreateIndexStatement => Some("create_index_statement"@),
        Kind::CreateSequenceStatement => Some("create_sequence_statement"@),
        Kind::CreateSchemaStatement => Some("create_schema_statement"@),
        Kind::CreateSynonymStatement => Some("create_synonym_statement"@),
        Kind::CreateDatabaseStatement => Some("create_database_statement"@),
        Kind::CreateDomainStatement => Some("create_domain_statement"@),
        Kind::CreateExtensionStatement => Some("create_extension_statement"@),
        Kind::CreateTypeStatement => Some("create_type_statement"@),
        Kind::CreateUserStatement => Some("create_user_statement"@),
        Kind::CreateRoleStatement => Some("create_role_statement"@),
        Kind::SelectClauseElement => Some("select_clause_element"@),
        Kind::TruncateStatement => Some("truncate_statement"@),
        Kind::AccessStatement => Some("access_statement"@),
        Kind::ExplainStatement => Some("explain_statement"@),
        Kind::Bracketed => Some("bracketed"@),
        Kind::OracleBeginEndBlock => Some("oracle_begin_end_block"@),
        Kind::BeginEndBlock => Some("begin_end_block"@),
        Kind::AtomicBeginEndBlock => Some("atomic_begin_end_block"@),
        Kind::IfStatements => Some("if_statements"@),
        Kind::IfStatement => Some("if_statement"@),
        Kind::IfThenStatement => Some("if_then_statement"@),
        Kind::WhileStatements => Some("while_statements"@),
        Kind::WhileStatement => Some("while_statement"@),
        Kind::LoopStatements => Some("loop_statements"@),
        Kind::LoopStatement => Some("loop_statement"@),
        Kind::RepeatStatement => Some("repeat_statement"@),
        Kind::ForInStatement => Some("for_in_statement"@),
        Kind::JoinClause => Some("join_clause"@),
        Kind::JoinOnCondition => Some("join_on_condition"@),
        Kind::ComparisonOperator => Some("comparison_operator"@),
        Kind::ColumnReference => Some("column_reference"@),
        Kind::Expression => Some("expression"@),
        Kind::StartBracket => Some("start_bracket"@),
        Kind::EndBracket => Some("end_bracket"@),
        Kind::SetOperator => Some("set_operator"@),
        Kind::CaseExpression => Some("case_expression"@),
        Kind::WhenClause => Some("when_clause"@),
        Kind::ElseClause => Some("else_clause"@),
        Kind::OverClause => Some("over_clause"@),
        Kind::FrameClause => Some("frame_clause"@),
        Kind::PartitionbyClause => Some("partitionby_clause"@),
        Kind::OrderbyClause => Some("orderby_clause"@),
        Kind::Function => Some("function"@),
        Kind::GroupbyClause => Some("groupby_clause"@),
        Kind::HavingClause => Some("having_clause"@),
        Kind::CubeRollupClause => Some("cube_rollup_clause"@),
        Kind::GroupingSetsClause => Some("grouping_sets_clause"@),
        Kind::BinaryOperator => Some("binary_operator"@),
        Kind::WhereClause => Some("where_clause"@),
        Kind::ColumnDefinition => Some("column_definition"@),
        Kind::ColumnConstraintSegment => Some("column_constraint_segment"@),
        Kind::NullLiteral => Some("null_literal"@),
        Kind::NakedIdentifier => Some("naked_identifier"@),
        Kind::QuotedIdentifier => Some("quoted_identifier"@),
        Kind::FromExpressionElement => Some("from_expression_element"@),
        Kind::AliasExpression => Some("alias_expression"@),
        Kind::CastExpression => Some("cast_expression"@),
        Kind::WildcardExpression => Some("wildcard_expression"@),
        Kind::WildcardIdentifier => Some("wildcard_identifier"@),
        Kind::CommonTableExpression => Some("common_table_expression"@),
        Kind::CreateProcedureStatement => Some("create_procedure_statement"@),
        Kind::CreateFunctionStatement => Some("create_function_statement"@),
        Kind::CreateTriggerStatement => Some("create_trigger_statement"@),
        Kind::CreateTrigger => Some("create_trigger"@),
        Kind::OracleCreateProcedureStatement => Some("oracle_create_procedure_statement"@),
        Kind::OracleCreateFunctionStatement => Some("oracle_create_function_statement"@),
        Kind::OracleCreateTriggerStatement => Some("oracle_create_trigger_statement"@),
        Kind::OracleCreatePackageStatement => Some("oracle_create_package_statement"@),
        Kind::OracleCreateTypeBodyStatement => Some("oracle_create_type_body_statement"@),
        Kind::OracleFunctionName => Some("oracle_function_name"@),
        Kind::FunctionName => Some("function_name"@),
        Kind::ObjectReference => Some("object_reference"@),
        Kind::TriggerReference => Some("trigger_reference"@),
        Kind::OracleCreateTypeStatement => Some("oracle_create_type_statement"@),
        Kind::Statement => Some("statement"@),
        Kind::DatabaseReference => Some("database_reference"@),
        Kind::NumericLiteral => Some("numeric_literal"@),
        Kind::QuotedLiteral => Some("quoted_literal"@),
        Kind::BooleanLiteral => Some("boolean_literal"@),
        Kind::Parameter => Some("parameter"@),
        Kind::Comma => Some("comma"@),
        Kind::Dot => Some("dot"@),
        Kind::StatementTerminator => Some("statement_terminator"@),
        Kind::Semicolon => Some("semicolon"@),
    }
}

/// A node is of the kind that is called as it is called, and of a known kind
/// whenever one is called so.
pub proof fn kinds_are_found_by_their_name(s: Seq<char>, k: Kind)
    ensures
        kind_of(s) != Kind::Other ==> kind_name(kind_of(s)) == Some(s),
        kind_name(k) == Some(s) ==> kind_of(s) != Kind::Other,
{
}

/// The statements that insert, update and delete are these, in every dialect that
/// spells them; a data statement is one of them or a merge.
pub proof fn data_statements_have_their_kinds(k: Kind)
    ensures
        KindSet::Inserts.holds(k) <==> {
            ||| k is InsertStatement
            ||| k is OracleInsertStatement
            ||| k is BulkInsertStatement
        },
        KindSet::Updates.holds(k) <==> k is UpdateStatement || k is OracleUpdateStatement,
        KindSet::Deletes.holds(k) <==> k is DeleteStatement || k is OracleDeleteStatement,
        KindSet::Dml.holds(k) <==> {
            ||| KindSet::Inserts.holds(k)
            ||| KindSet::Updates.holds(k)
            ||| KindSet::Deletes.holds(k)
            ||| k is MergeStatement
        },
        KindSet::Transactions.holds(k) <==> {
            ||| k is TransactionStatement
            ||| k is OracleTransactionStatement
        },
{
}

/// The statements that create, alter and drop are these; a guard belongs to any
/// of them.
pub proof fn definition_statements_have_their_kinds(k: Kind)
    ensures
        KindSet::CreateTables.holds(k) <==> {
            ||| k is CreateTableStatement
            ||| k is OracleCreateTableStatement
        },
        KindSet::CreateViews.holds(k) <==> {
            ||| k is CreateViewStatement
            ||| k is CreateMaterializedViewStatement
            ||| k is OracleCreateViewStatement
        },
        KindSet::AlterTables.holds(k) <==> {
            ||| k is AlterTableStatement
            ||| k is OracleAlterTableStatement
        },
        KindSet::Drops.holds(k) <==> {
            ||| k is DropTableStatement
            ||| k is DropViewStatement
            ||| k is DropIndexStatement
            ||| k is DropStatement
            ||| k is DropFunctionStatement
            ||| k is DropSchemaStatement
            ||| k is OracleDropPackageStatement
            ||| k is OracleDropProcedureStatement
            ||| k is OracleDropSynonymStatement
            ||| k is OracleDropDatabaseLinkStatement
        },
        KindSet::OracleDrops.holds(k) <==> {
            ||| k is OracleDropPackageStatement
            ||| k is OracleDropProcedureStatement
            ||| k is OracleDropSynonymStatement
            ||| k is OracleDropDatabaseLinkStatement
        },
        KindSet::CreateOthers.holds(k) <==> {
            ||| k is CreateIndexStatement
            ||| k is CreateSequenceStatement
            ||| k is CreateSchemaStatement
            ||| k is CreateSynonymStatement
            ||| k is CreateDatabaseStatement
            ||| k is CreateDomainStatement
            ||| k is CreateExtensionStatement
            ||| k is CreateTypeStatement
            ||| k is CreateUserStatement
            ||| k is CreateRoleStatement
        },
        KindSet::GuardedDdl.holds(k) <==> {
            ||| KindSet::CreateTables.holds(k)
            ||| KindSet::CreateViews.holds(k)
            ||| KindSet::CreateOthers.holds(k)
            ||| KindSet::AlterTables.holds(k)
            ||| KindSet::Drops.holds(k)
        },
{
}

/// A statement changes an object where it changes data, empties, creates, alters or
/// drops a table or a view, creates an index, or drops anything.
pub proof fn writes_change_an_object(k: Kind)
    ensures
        KindSet::Writes.holds(k) <==> {
            ||| KindSet::Dml.holds(k)
            ||| k is TruncateStatement
            ||| KindSet::AlterTables.holds(k)
            ||| KindSet::CreateTables.holds(k)
            ||| KindSet::CreateViews.holds(k)
            ||| k is CreateIndexStatement
            ||| KindSet::Drops.holds(k)
        },
        KindSet::FirstTargetOnly.holds(k) <==> {
            ||| KindSet::Updates.holds(k)
            ||| KindSet::Deletes.holds(k)
            ||| k is MergeStatement
            ||| k is CreateIndexStatement
            ||| k is DropIndexStatement
            ||| KindSet::CreateTables.holds(k)
            ||| KindSet::AlterTables.holds(k)
        },
{
}

/// What is referred to, written and dropped is named by these nodes.
pub proof fn references_have_their_kinds(k: Kind)
    ensures
        KindSet::TableReferences.holds(k) <==> k is TableReference || k is OracleTableReference,
        KindSet::Targets.holds(k) <==> {
            ||| KindSet::TableReferences.holds(k)
            ||| k is FunctionName
            ||| k is DatabaseReference
        },
        KindSet::DropTargets.holds(k) <==> {
            ||| KindSet::Targets.holds(k)
            ||| k is ObjectReference
            ||| k is OracleFunctionName
        },
        KindSet::References.holds(k) <==> {
            ||| k is ColumnReference
            ||| k is TableReference
            ||| k is ObjectReference
        },
{
}

/// A routine is defined by one of these, and a definition is that of a routine, of a
/// package or of the body of a type.
pub proof fn routines_have_their_kinds(k: Kind)
    ensures
        KindSet::Units.holds(k) <==> {
            ||| k is CreateProcedureStatement
            ||| k is CreateFunctionStatement
            ||| k is CreateTriggerStatement
            ||| k is CreateTrigger
            ||| k is OracleCreateProcedureStatement
            ||| k is OracleCreateFunctionStatement
            ||| k is OracleCreateTriggerStatement
        },
        KindSet::Definitions.holds(k) <==> {
            ||| KindSet::Units.holds(k)
            ||| k is OracleCreatePackageStatement
            ||| k is OracleCreateTypeBodyStatement
        },
        KindSet::OracleRoutines.holds(k) <==> {
            ||| k is OracleCreateProcedureStatement
            ||| k is OracleCreateFunctionStatement
            ||| k is OracleCreateTriggerStatement
        },
        KindSet::OracleSpecs.holds(k) <==> {
            ||| k is OracleCreatePackageStatement
            ||| k is OracleCreateTypeStatement
        },
        KindSet::UnitNames.holds(k) <==> {
            ||| k is OracleFunctionName
            ||| k is FunctionName
            ||| k is ObjectReference
            ||| k is TriggerReference
        },
        KindSet::BlockBoundaries.holds(k) <==> KindSet::Definitions.holds(k) || k is Bracketed,
{
}

/// A query is one of these, and a data statement can hold one.
pub proof fn queries_have_their_kinds(k: Kind)
    ensures
        KindSet::QueryBodies.holds(k) <==> {
            ||| k is WithCompoundStatement
            ||| k is SetExpression
            ||| k is SelectStatement
        },
        KindSet::QueryRoots.holds(k) <==> KindSet::QueryBodies.holds(k) || KindSet::Dml.holds(k),
        KindSet::Selectables.holds(k) <==> k is SelectStatement || k is SetExpression,
{
}

/// The clauses that test, compute, structure and deepen are these.
pub proof fn clauses_have_their_kinds(k: Kind)
    ensures
        KindSet::Conditions.holds(k) <==> {
            ||| k is WhereClause
            ||| k is HavingClause
            ||| k is JoinOnCondition
        },
        KindSet::Computed.holds(k) <==> {
            ||| k is Expression
            ||| k is Function
            ||| k is CaseExpression
            ||| k is CastExpression
        },
        KindSet::Structure.holds(k) <==> {
            ||| k is WhereClause
            ||| k is JoinClause
            ||| k is GroupbyClause
            ||| k is HavingClause
            ||| k is SetExpression
            ||| k is CaseExpression
            ||| k is OverClause
        },
        KindSet::DepthSteps.holds(k) <==> {
            ||| k is Expression
            ||| k is Function
            ||| k is CaseExpression
            ||| k is Bracketed
        },
        KindSet::Constraints.holds(k) <==> k is ColumnDefinition || k is ColumnConstraintSegment,
{
}

/// The blocks and control statements with a node of their own are these.
pub proof fn blocks_have_their_kinds(k: Kind)
    ensures
        KindSet::TypedBlocks.holds(k) <==> {
            ||| k is OracleBeginEndBlock
            ||| k is BeginEndBlock
            ||| k is AtomicBeginEndBlock
        },
        KindSet::TypedControls.holds(k) <==> {
            ||| k is IfStatements
            ||| k is IfStatement
            ||| k is IfThenStatement
            ||| k is WhileStatements
            ||| k is WhileStatement
            ||| k is LoopStatements
            ||| k is LoopStatement
            ||| k is RepeatStatement
            ||| k is ForInStatement
        },
{
}

/// The tokens that name, hold a value, separate, comment and space are these.
pub proof fn tokens_have_their_kinds(k: Kind)
    ensures
        KindSet::Identifiers.holds(k) <==> k is NakedIdentifier || k is QuotedIdentifier,
        KindSet::Operands.holds(k) <==> {
            ||| KindSet::Identifiers.holds(k)
            ||| k is NumericLiteral
            ||| k is QuotedLiteral
            ||| k is BooleanLiteral
            ||| k is NullLiteral
            ||| k is ColumnReference
            ||| k is Parameter
        },
        KindSet::Punctuation.holds(k) <==> {
            ||| k is Comma
            ||| k is Dot
            ||| k is StartBracket
            ||| k is EndBracket
            ||| k is StatementTerminator
            ||| k is Semicolon
        },
        KindSet::CommentTexts.holds(k) <==> k is Comment || k is InlineComment || k is BlockComment,
        KindSet::Comments.holds(k) <==> KindSet::CommentTexts.holds(k) || k is NotebookStart,
        KindSet::Spaces.holds(k) <==> k is Whitespace || k is Newline,
        KindSet::Metas.holds(k) <==> {
            ||| k is Indent
            ||| k is Implicit
            ||| k is Dedent
            ||| k is EndOfFile
            ||| k is Placeholder
            ||| k is TemplateLoop
        },
        KindSet::KeywordLikes.holds(k) <==> {
            ||| k is Keyword
            ||| k is Word
            ||| k is FunctionNameIdentifier
        },
{
}

} // verus!
