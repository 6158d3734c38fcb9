//! The keyword vocabulary: every token text that a classification rule or
//! the control-flow scanner looks at, as one closed enumeration.

use vstd::prelude::*;

use crate::text::is_text;

verus! {

/// A token text as the rules see it. `Absent` stands for a position beyond
/// the last token, `Other` for every text outside the vocabulary.
#[derive(Clone, Copy, Debug, PartialEq, Eq, Structural)]
pub enum Word {
    Absent,
    Other,
    OpenParen,
    CloseParen,
    Comma,
    Semicolon,
    Dot,
    Equals,
    Plus,
    Minus,
    Star,
    Slash,
    Percent,
    Concat,
    Greater,
    Less,
    GreaterEquals,
    LessEquals,
    NotEquals,
    BangEquals,
    Begin,
    Transaction,
    Tran,
    Work,
    Distributed,
    Dialog,
    End,
    If,
    Loop,
    While,
    Case,
    Repeat,
    Elsif,
    Elseif,
    Else,
    SpExecutesql,
    Execute,
    Immediate,
    Exec,
    Prepare,
    From,
    Exception,
    When,
    Select,
    Return,
    And,
    Or,
    Not,
    Until,
    Then,
    Is,
    As,
    Language,
    External,
    Function,
    Procedure,
    Drop,
    Alter,
    On,
    Exists,
    Try,
    Catch,
    For,
    Table,
    View,
    Index,
    Schema,
    Database,
    Trigger,
    Sequence,
    Column,
    Constraint,
    Extension,
    Type,
    Role,
    User,
    Matched,
    Exit,
    Continue,
    Do,
    Each,
    Update,
    Xml,
    Json,
    Browse,
    Share,
    Key,
    No,
    Delete,
    Insert,
    In,
    Goto,
    Raise,
    RaiseApplicationError,
    Throw,
    Raiserror,
    Signal,
    Resignal,
    DbmsSql,
    Between,
    Like,
    Where,
    Having,
    SetWord,
    Group,
    Order,
    Values,
    Into,
    Union,
    Join,
    Qualify,
    Declare,
    Go,
    Left,
    Right,
    Full,
    Cross,
    Outer,
    Natural,
    Lateral,
    Apply,
    Using,
    Distinct,
    Cube,
    Rollup,
    Null,
    Cast,
    Create,
    Replace,
    Returning,
    Output,
    Body,
    Editionable,
    Noneditionable,
    Package,
    Definer,
    Proc,
}

/// The vocabulary entry of an upper-cased text.
pub open spec fn word_of(s: Seq<char>) -> Word {
    if s == "("@ {
        Word::OpenParen
    } else if s == ")"@ {
        Word::CloseParen
    } else if s == ","@ {
        Word::Comma
    } else if s == ";"@ {
        Word::Semicolon
    } else if s == "."@ {
        Word::Dot
    } else if s == "="@ {
        Word::Equals
    } else if s == "+"@ {
        Word::Plus
    } else if s == "-"@ {
        Word::Minus
    } else if s == "*"@ {
        Word::Star
    } else if s == "/"@ {
        Word::Slash
    } else if s == "%"@ {
        Word::Percent
    } else if s == "||"@ {
        Word::Concat
    } else if s == ">"@ {
        Word::Greater
    } else if s == "<"@ {
        Word::Less
    } else if s == ">="@ {
        Word::GreaterEquals
    } else if s == "<="@ {
        Word::LessEquals
    } else if s == "<>"@ {
        Word::NotEquals
    } else if s == "!="@ {
        Word::BangEquals
    } else if s == "BEGIN"@ {
        Word::Begin
    } else if s == "TRANSACTION"@ {
        Word::Transaction
    } else if s == "TRAN"@ {
        Word::Tran
    } else if s == "WORK"@ {
        Word::Work
    } else if s == "DISTRIBUTED"@ {
        Word::Distributed
    } else if s == "DIALOG"@ {
        Word::Dialog
    } else if s == "END"@ {
        Word::End
    } else if s == "IF"@ {
        Word::If
    } else if s == "LOOP"@ {
        Word::Loop
    } else if s == "WHILE"@ {
        Word::While
    } else if s == "CASE"@ {
        Word::Case
    } else if s == "REPEAT"@ {
        Word::Repeat
    } else if s == "ELSIF"@ {
        Word::Elsif
    } else if s == "ELSEIF"@ {
        Word::Elseif
    } else if s == "ELSE"@ {
        Word::Else
    } else if s == "SP_EXECUTESQL"@ {
        Word::SpExecutesql
    } else if s == "EXECUTE"@ {
        Word::Execute
    } else if s == "IMMEDIATE"@ {
        Word::Immediate
    } else if s == "EXEC"@ {
        Word::Exec
    } else if s == "PREPARE"@ {
        Word::Prepare
    } else if s == "FROM"@ {
        Word::From
    } else if s == "EXCEPTION"@ {
        Word::Exception
    } else if s == "WHEN"@ {
        Word::When
    } else if s == "SELECT"@ {
        Word::Select
    } else if s == "RETURN"@ {
        Word::Return
    } else if s == "AND"@ {
        Word::And
    } else if s == "OR"@ {
        Word::Or
    } else if s == "NOT"@ {
        Word::Not
    } else if s == "UNTIL"@ {
        Word::Until
    } else if s == "THEN"@ {
        Word::Then
    } else if s == "IS"@ {
        Word::Is
    } else if s == "AS"@ {
        Word::As
    } else if s == "LANGUAGE"@ {
        Word::Language
    } else if s == "EXTERNAL"@ {
        Word::External
    } else if s == "FUNCTION"@ {
        Word::Function
    } else if s == "PROCEDURE"@ {
        Word::Procedure
    } else if s == "DROP"@ {
        Word::Drop
    } else if s == "ALTER"@ {
        Word::Alter
    } else if s == "ON"@ {
        Word::On
    } else if s == "EXISTS"@ {
        Word::Exists
    } else if s == "TRY"@ {
        Word::Try
    } else if s == "CATCH"@ {
        Word::Catch
    } else if s == "FOR"@ {
        Word::For
    } else if s == "TABLE"@ {
        Word::Table
    } else if s == "VIEW"@ {
        Word::View
    } else if s == "INDEX"@ {
        Word::Index
    } else if s == "SCHEMA"@ {
        Word::Schema
    } else if s == "DATABASE"@ {
        Word::Database
    } else if s == "TRIGGER"@ {
        Word::Trigger
    } else if s == "SEQUENCE"@ {
        Word::Sequence
    } else if s == "COLUMN"@ {
        Word::Column
    } else if s == "CONSTRAINT"@ {
        Word::Constraint
    } else if s == "EXTENSION"@ {
        Word::Extension
    } else if s == "TYPE"@ {
        Word::Type
    } else if s == "ROLE"@ {
        Word::Role
    } else if s == "USER"@ {
        Word::User
    } else if s == "MATCHED"@ {
        Word::Matched
    } else if s == "EXIT"@ {
        Word::Exit
    } else if s == "CONTINUE"@ {
        Word::Continue
    } else if s == "DO"@ {
        Word::Do
    } else if s == "EACH"@ {
        Word::Each
    } else if s == "UPDATE"@ {
        Word::Update
    } else if s == "XML"@ {
        Word::Xml
    } else if s == "JSON"@ {
        Word::Json
    } else if s == "BROWSE"@ {
        Word::Browse
    } else if s == "SHARE"@ {
        Word::Share
    } else if s == "KEY"@ {
        Word::Key
    } else if s == "NO"@ {
        Word::No
    } else if s == "DELETE"@ {
        Word::Delete
    } else if s == "INSERT"@ {
        Word::Insert
    } else if s == "IN"@ {
        Word::In
    } else if s == "GOTO"@ {
        Word::Goto
    } else if s == "RAISE"@ {
        Word::Raise
    } else if s == "RAISE_APPLICATION_ERROR"@ {
        Word::RaiseApplicationError
    } else if s == "THROW"@ {
        Word::Throw
    } else if s == "RAISERROR"@ {
        Word::Raiserror
    } else if s == "SIGNAL"@ {
        Word::Signal
    } else if s == "RESIGNAL"@ {
        Word::Resignal
    } else if s == "DBMS_SQL"@ {
        Word::DbmsSql
    } else if s == "BETWEEN"@ {
        Word::Between
    } else if s == "LIKE"@ {
        Word::Like
    } else if s == "WHERE"@ {
        Word::Where
    } else if s == "HAVING"@ {
        Word::Having
    } else if s == "SET"@ {
        Word::SetWord
    } else if s == "GROUP"@ {
        Word::Group
    } else if s == "ORDER"@ {
        Word::Order
    } else if s == "VALUES"@ {
        Word::Values
    } else if s == "INTO"@ {
        Word::Into
    } else if s == "UNION"@ {
        Word::Union
    } else if s == "JOIN"@ {
        Word::Join
    } else if s == "QUALIFY"@ {
        Word::Qualify
    } else if s == "DECLARE"@ {
        Word::Declare
    } else if s == "GO"@ {
        Word::Go
    } else if s == "LEFT"@ {
        Word::Left
    } else if s == "RIGHT"@ {
        Word::Right
    } else if s == "FULL"@ {
        Word::Full
    } else if s == "CROSS"@ {
        Word::Cross
    } else if s == "OUTER"@ {
        Word::Outer
    } else if s == "NATURAL"@ {
        Word::Natural
    } else if s == "LATERAL"@ {
        Word::Lateral
    } else if s == "APPLY"@ {
        Word::Apply
    } else if s == "USING"@ {
        Word::Using
    } else if s == "DISTINCT"@ {
        Word::Distinct
    } else if s == "CUBE"@ {
        Word::Cube
    } else if s == "ROLLUP"@ {
        Word::Rollup
    } else if s == "NULL"@ {
        Word::Null
    } else if s == "CAST"@ {
        Word::Cast
    } else if s == "CREATE"@ {
        Word::Create
    } else if s == "REPLACE"@ {
        Word::Replace
    } else if s == "RETURNING"@ {
        Word::Returning
    } else if s == "OUTPUT"@ {
        Word::Output
    } else if s == "BODY"@ {
        Word::Body
    } else if s == "EDITIONABLE"@ {
        Word::Editionable
    } else if s == "NONEDITIONABLE"@ {
        Word::Noneditionable
    } else if s == "PACKAGE"@ {
        Word::Package
    } else if s == "DEFINER"@ {
        Word::Definer
    } else if s == "PROC"@ {
        Word::Proc
    } else {
        Word::Other
    }
}

/// The vocabulary entry of an upper-cased text.
pub fn classify_word(s: &Vec<char>) -> (r: Word)
    ensures
        r == word_of(s@),
{
    if is_text(s, "(") {
        Word::OpenParen
    } else if is_text(s, ")") {
        Word::CloseParen
    } else if is_text(s, ",") {
        Word::Comma
    } else if is_text(s, ";") {
        Word::Semicolon
    } else if is_text(s, ".") {
        Word::Dot
    } else if is_text(s, "=") {
        Word::Equals
    } else if is_text(s, "+") {
        Word::Plus
    } else if is_text(s, "-") {
        Word::Minus
    } else if is_text(s, "*") {
        Word::Star
    } else if is_text(s, "/") {
        Word::Slash
    } else if is_text(s, "%") {
        Word::Percent
    } else if is_text(s, "||") {
        Word::Concat
    } else if is_text(s, ">") {
        Word::Greater
    } else if is_text(s, "<") {
        Word::Less
    } else if is_text(s, ">=") {
        Word::GreaterEquals
    } else if is_text(s, "<=") {
        Word::LessEquals
    } else if is_text(s, "<>") {
        Word::NotEquals
    } else if is_text(s, "!=") {
        Word::BangEquals
    } else if is_text(s, "BEGIN") {
        Word::Begin
    } else if is_text(s, "TRANSACTION") {
        Word::Transaction
    } else if is_text(s, "TRAN") {
        Word::Tran
    } else if is_text(s, "WORK") {
        Word::Work
    } else if is_text(s, "DISTRIBUTED") {
        Word::Distributed
    } else if is_text(s, "DIALOG") {
        Word::Dialog
    } else if is_text(s, "END") {
        Word::End
    } else if is_text(s, "IF") {
        Word::If
    } else if is_text(s, "LOOP") {
        Word::Loop
    } else if is_text(s, "WHILE") {
        Word::While
    } else if is_text(s, "CASE") {
        Word::Case
    } else if is_text(s, "REPEAT") {
        Word::Repeat
    } else if is_text(s, "ELSIF") {
        Word::Elsif
    } else if is_text(s, "ELSEIF") {
        Word::Elseif
    } else if is_text(s, "ELSE") {
        Word::Else
    } else if is_text(s, "SP_EXECUTESQL") {
        Word::SpExecutesql
    } else if is_text(s, "EXECUTE") {
        Word::Execute
    } else if is_text(s, "IMMEDIATE") {
        Word::Immediate
    } else if is_text(s, "EXEC") {
        Word::Exec
    } else if is_text(s, "PREPARE") {
        Word::Prepare
    } else if is_text(s, "FROM") {
        Word::From
    } else if is_text(s, "EXCEPTION") {
        Word::Exception
    } else if is_text(s, "WHEN") {
        Word::When
    } else if is_text(s, "SELECT") {
        Word::Select
    } else if is_text(s, "RETURN") {
        Word::Return
    } else if is_text(s, "AND") {
        Word::And
    } else if is_text(s, "OR") {
        Word::Or
    } else if is_text(s, "NOT") {
        Word::Not
    } else if is_text(s, "UNTIL") {
        Word::Until
    } else if is_text(s, "THEN") {
        Word::Then
    } else if is_text(s, "IS") {
        Word::Is
    } else if is_text(s, "AS") {
        Word::As
    } else if is_text(s, "LANGUAGE") {
        Word::Language
    } else if is_text(s, "EXTERNAL") {
        Word::External
    } else if is_text(s, "FUNCTION") {
        Word::Function
    } else if is_text(s, "PROCEDURE") {
        Word::Procedure
    } else if is_text(s, "DROP") {
        Word::Drop
    } else if is_text(s, "ALTER") {
        Word::Alter
    } else if is_text(s, "ON") {
        Word::On
    } else if is_text(s, "EXISTS") {
        Word::Exists
    } else if is_text(s, "TRY") {
        Word::Try
    } else if is_text(s, "CATCH") {
        Word::Catch
    } else if is_text(s, "FOR") {
        Word::For
    } else if is_text(s, "TABLE") {
        Word::Table
    } else if is_text(s, "VIEW") {
        Word::View
    } else if is_text(s, "INDEX") {
        Word::Index
    } else if is_text(s, "SCHEMA") {
        Word::Schema
    } else if is_text(s, "DATABASE") {
        Word::Database
    } else if is_text(s, "TRIGGER") {
        Word::Trigger
    } else if is_text(s, "SEQUENCE") {
        Word::Sequence
    } else if is_text(s, "COLUMN") {
        Word::Column
    } else if is_text(s, "CONSTRAINT") {
        Word::Constraint
    } else if is_text(s, "EXTENSION") {
        Word::Extension
    } else if is_text(s, "TYPE") {
        Word::Type
    } else if is_text(s, "ROLE") {
        Word::Role
    } else if is_text(s, "USER") {
        Word::User
    } else if is_text(s, "MATCHED") {
        Word::Matched
    } else if is_text(s, "EXIT") {
        Word::Exit
    } else if is_text(s, "CONTINUE") {
        Word::Continue
    } else if is_text(s, "DO") {
        Word::Do
    } else if is_text(s, "EACH") {
        Word::Each
    } else if is_text(s, "UPDATE") {
        Word::Update
    } else if is_text(s, "XML") {
        Word::Xml
    } else if is_text(s, "JSON") {
        Word::Json
    } else if is_text(s, "BROWSE") {
        Word::Browse
    } else if is_text(s, "SHARE") {
        Word::Share
    } else if is_text(s, "KEY") {
        Word::Key
    } else if is_text(s, "NO") {
        Word::No
    } else if is_text(s, "DELETE") {
        Word::Delete
    } else if is_text(s, "INSERT") {
        Word::Insert
    } else if is_text(s, "IN") {
        Word::In
    } else if is_text(s, "GOTO") {
        Word::Goto
    } else if is_text(s, "RAISE") {
        Word::Raise
    } else if is_text(s, "RAISE_APPLICATION_ERROR") {
        Word::RaiseApplicationError
    } else if is_text(s, "THROW") {
        Word::Throw
    } else if is_text(s, "RAISERROR") {
        Word::Raiserror
    } else if is_text(s, "SIGNAL") {
        Word::Signal
    } else if is_text(s, "RESIGNAL") {
        Word::Resignal
    } else if is_text(s, "DBMS_SQL") {
        Word::DbmsSql
    } else if is_text(s, "BETWEEN") {
        Word::Between
    } else if is_text(s, "LIKE") {
        Word::Like
    } else if is_text(s, "WHERE") {
        Word::Where
    } else if is_text(s, "HAVING") {
        Word::Having
    } else if is_text(s, "SET") {
        Word::SetWord
    } else if is_text(s, "GROUP") {
        Word::Group
    } else if is_text(s, "ORDER") {
        Word::Order
    } else if is_text(s, "VALUES") {
        Word::Values
    } else if is_text(s, "INTO") {
        Word::Into
    } else if is_text(s, "UNION") {
        Word::Union
    } else if is_text(s, "JOIN") {
        Word::Join
    } else if is_text(s, "QUALIFY") {
        Word::Qualify
    } else if is_text(s, "DECLARE") {
        Word::Declare
    } else if is_text(s, "GO") {
        Word::Go
    } else if is_text(s, "LEFT") {
        Word::Left
    } else if is_text(s, "RIGHT") {
        Word::Right
    } else if is_text(s, "FULL") {
        Word::Full
    } else if is_text(s, "CROSS") {
        Word::Cross
    } else if is_text(s, "OUTER") {
        Word::Outer
    } else if is_text(s, "NATURAL") {
        Word::Natural
    } else if is_text(s, "LATERAL") {
        Word::Lateral
    } else if is_text(s, "APPLY") {
        Word::Apply
    } else if is_text(s, "USING") {
        Word::Using
    } else if is_text(s, "DISTINCT") {
        Word::Distinct
    } else if is_text(s, "CUBE") {
        Word::Cube
    } else if is_text(s, "ROLLUP") {
        Word::Rollup
    } else if is_text(s, "NULL") {
        Word::Null
    } else if is_text(s, "CAST") {
        Word::Cast
    } else if is_text(s, "CREATE") {
        Word::Create
    } else if is_text(s, "REPLACE") {
        Word::Replace
    } else if is_text(s, "RETURNING") {
        Word::Returning
    } else if is_text(s, "OUTPUT") {
        Word::Output
    } else if is_text(s, "BODY") {
        Word::Body
    } else if is_text(s, "EDITIONABLE") {
        Word::Editionable
    } else if is_text(s, "NONEDITIONABLE") {
        Word::Noneditionable
    } else if is_text(s, "PACKAGE") {
        Word::Package
    } else if is_text(s, "DEFINER") {
        Word::Definer
    } else if is_text(s, "PROC") {
        Word::Proc
    } else {
        Word::Other
    }
}

} // verus!
