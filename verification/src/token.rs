//! Classified code tokens, and the token shapes that tell procedural code
//! from declarative SQL.

use vstd::prelude::*;

use crate::kind::{Kind, KindSet};
use crate::span::{empty_span, LineIndex, Lines, SourceSpan};
use crate::text::{trim, trimmed};
use crate::tree::{is_code_leaf, trimmed_word, Node, Tree};
use crate::word::Word;

verus! {

/// One code token: its text as the vocabulary knows it, whether the text
/// names a variable (`@name`), whether the lexer took it for a keyword or for
/// the name of a called function, and where it stands.
#[derive(Clone, Copy, Debug, PartialEq, Eq, Structural)]
pub struct Token {
    pub word: Word,
    pub variable: bool,
    pub keyword_like: bool,
    pub function_name: bool,
    pub span: SourceSpan,
}

/// The span of a node, or the empty span where it has no position.
pub open spec fn span_or_empty(n: Seq<Node>, lines: Lines, i: int) -> SourceSpan {
    match n[i].span {
        Some(range) => lines.span(range),
        None => empty_span(),
    }
}

/// The token of a code leaf.
pub open spec fn token_at(n: Seq<Node>, lines: Lines, i: int) -> Token {
    Token {
        word: trimmed_word(n, i),
        variable: trim(n[i].raw).len() > 0 && trim(n[i].raw)[0] == '@',
        keyword_like: KindSet::KeywordLikes.holds(n[i].kind),
        function_name: n[i].kind == Kind::FunctionNameIdentifier,
        span: span_or_empty(n, lines, i),
    }
}

/// The code tokens at positions `lo..hi`, in order.
pub open spec fn tokens_in(n: Seq<Node>, lines: Lines, lo: int, hi: int) -> Seq<Token>
    decreases hi - lo,
{
    if hi <= lo {
        Seq::empty()
    } else if is_code_leaf(n, hi - 1) {
        tokens_in(n, lines, lo, hi - 1).push(token_at(n, lines, hi - 1))
    } else {
        tokens_in(n, lines, lo, hi - 1)
    }
}

/// The code tokens of the subtree of `root`, in order.
pub open spec fn tokens_of(n: Seq<Node>, lines: Lines, root: int) -> Seq<Token> {
    tokens_in(n, lines, root, n[root].end as int)
}

/// There are at most as many tokens as positions.
pub proof fn lemma_tokens_bound(n: Seq<Node>, lines: Lines, lo: int, hi: int)
    requires
        lo <= hi,
    ensures
        tokens_in(n, lines, lo, hi).len() <= hi - lo,
    decreases hi - lo,
{
    if lo < hi {
        lemma_tokens_bound(n, lines, lo, hi - 1);
    }
}

/// The span of a node, or the empty span where it has no position.
pub fn node_span(tree: &Tree, lines: &LineIndex, i: usize) -> (r: SourceSpan)
    requires
        tree.holds(i),
        lines@.wf(),
    ensures
        r == span_or_empty(tree@, lines@, i as int),
{
    match tree.span_at(i) {
        Some(range) => lines.span_of(range),
        None => SourceSpan::empty(),
    }
}

/// The code tokens of the subtree of `root`, in order.
pub fn collect_tokens(tree: &Tree, lines: &LineIndex, root: usize) -> (r: Vec<Token>)
    requires
        tree.wf(),
        tree.holds(root),
        lines@.wf(),
    ensures
        r@ == tokens_of(tree@, lines@, root as int),
        r@.len() <= tree@[root as int].end - root,
        r@.len() <= tree@.len(),
{
    let ghost n = tree@;
    let hi: usize = tree.end_at(root);
    let mut out: Vec<Token> = Vec::new();
    let mut i: usize = root;
    while i < hi
        invariant
            tree.wf(),
            n == tree@,
            lines@.wf(),
            root <= i <= hi <= n.len(),
            out@ == tokens_in(n, lines@, root as int, i as int),
        decreases hi - i,
    {
        if tree.code_leaf(i) {
            let raw = trimmed(tree.raw_at(i));
            let kind: Kind = tree.kind_at(i);
            out.push(
                Token {
                    word: tree.trimmed_word(i),
                    variable: raw.len() > 0 && raw[0] == '@',
                    keyword_like: KindSet::KeywordLikes.has(kind),
                    function_name: kind == Kind::FunctionNameIdentifier,
                    span: node_span(tree, lines, i),
                },
            );
        }
        i = i + 1;
    }
    proof {
        lemma_tokens_bound(n, lines@, root as int, hi as int);
    }
    out
}

/// The text of the token at `i`, `Absent` beyond the last one.
pub open spec fn word_at(t: Seq<Token>, i: int) -> Word {
    if 0 <= i < t.len() {
        t[i].word
    } else {
        Word::Absent
    }
}

/// Whether the token at `i` names a variable.
pub open spec fn variable_at(t: Seq<Token>, i: int) -> bool {
    0 <= i < t.len() && t[i].variable
}

/// The text of the token `ahead` places after `i`.
pub fn peek(t: &Vec<Token>, i: usize, ahead: usize) -> (r: Word)
    ensures
        r == word_at(t@, i + ahead),
{
    if i < t.len() && ahead < t.len() - i {
        t[i + ahead].word
    } else {
        Word::Absent
    }
}

/// The text of the token before `i`.
pub fn before(t: &Vec<Token>, i: usize) -> (r: Word)
    requires
        i <= t.len(),
    ensures
        r == word_at(t@, i - 1),
{
    if i == 0 {
        Word::Absent
    } else {
        t[i - 1].word
    }
}

/// Whether the token `ahead` places after `i` names a variable.
pub fn peek_variable(t: &Vec<Token>, i: usize, ahead: usize) -> (r: bool)
    ensures
        r == variable_at(t@, i + ahead),
{
    if i < t.len() && ahead < t.len() - i {
        t[i + ahead].variable
    } else {
        false
    }
}

// ── the scalar IF function ─────────────────────────────────────────────

/// The position after the parenthesis that closes the group opened before
/// `j`, and whether a comma stood directly inside that group.
pub open spec fn group_end(t: Seq<Token>, j: int, depth: int, comma: bool) -> Option<(int, bool)>
    decreases t.len() - j,
{
    if j < 0 || j >= t.len() {
        None
    } else if t[j].word == Word::OpenParen {
        group_end(t, j + 1, depth + 1, comma)
    } else if t[j].word == Word::CloseParen {
        if depth <= 1 {
            Some((j + 1, comma))
        } else {
            group_end(t, j + 1, depth - 1, comma)
        }
    } else {
        group_end(t, j + 1, depth, comma || (t[j].word == Word::Comma && depth == 1))
    }
}

/// Whether the tokens from `j` on end the expression before a `THEN` makes it
/// a condition.
pub open spec fn ends_as_operand(t: Seq<Token>, j: int, depth: int) -> bool
    decreases t.len() - j,
{
    if j < 0 || j >= t.len() {
        true
    } else if t[j].word == Word::OpenParen {
        ends_as_operand(t, j + 1, depth + 1)
    } else if t[j].word == Word::CloseParen {
        depth <= 0 || ends_as_operand(t, j + 1, depth - 1)
    } else if depth == 0 && t[j].word == Word::Then && t[j].keyword_like {
        false
    } else if depth == 0 && t[j].word == Word::Semicolon {
        true
    } else {
        ends_as_operand(t, j + 1, depth)
    }
}

/// The tokens that only an operand can follow.
pub open spec fn precedes_operand(w: Word) -> bool {
    ||| w == Word::Equals
    ||| w == Word::Comma
    ||| w == Word::OpenParen
    ||| w == Word::Plus
    ||| w == Word::Minus
    ||| w == Word::Star
    ||| w == Word::Slash
    ||| w == Word::Percent
    ||| w == Word::Concat
    ||| w == Word::Greater
    ||| w == Word::Less
    ||| w == Word::GreaterEquals
    ||| w == Word::LessEquals
    ||| w == Word::NotEquals
    ||| w == Word::BangEquals
    ||| w == Word::Select
    ||| w == Word::Return
    ||| w == Word::And
    ||| w == Word::Or
    ||| w == Word::Not
    ||| w == Word::When
    ||| w == Word::If
    ||| w == Word::Elsif
    ||| w == Word::Elseif
    ||| w == Word::While
    ||| w == Word::Until
}

/// Whether the `IF` at `i` is the conditional function `IF(test, a, b)`: its
/// parentheses hold a top-level comma, and either an operand is due before it
/// or the expression ends without a `THEN`.
pub open spec fn scalar_if(t: Seq<Token>, i: int) -> bool {
    word_at(t, i + 1) == Word::OpenParen && match group_end(t, i + 1, 0, false) {
        Some((after, comma)) => comma && (precedes_operand(word_at(t, i - 1)) || ends_as_operand(
            t,
            after,
            0,
        )),
        None => false,
    }
}

/// Whether only an operand can follow the token.
pub fn operand_due(w: Word) -> (r: bool)
    ensures
        r == precedes_operand(w),
{
    matches!(
        w,
        Word::Equals
            | Word::Comma
            | Word::OpenParen
            | Word::Plus
            | Word::Minus
            | Word::Star
            | Word::Slash
            | Word::Percent
            | Word::Concat
            | Word::Greater
            | Word::Less
            | Word::GreaterEquals
            | Word::LessEquals
            | Word::NotEquals
            | Word::BangEquals
            | Word::Select
            | Word::Return
            | Word::And
            | Word::Or
            | Word::Not
            | Word::When
            | Word::If
            | Word::Elsif
            | Word::Elseif
            | Word::While
            | Word::Until
    )
}

/// Whether the `IF` at `i` is the conditional function `IF(test, a, b)`.
pub fn scalar_if_call(t: &Vec<Token>, i: usize) -> (r: bool)
    requires
        i < t.len(),
    ensures
        r == scalar_if(t@, i as int),
{
    if peek(t, i, 1) != Word::OpenParen {
        return false;
    }
    let mut depth: usize = 0;
    let mut comma = false;
    let mut closed = false;
    let mut j: usize = i + 1;
    while j < t.len() && !closed
        invariant
            i < j <= t.len(),
            depth <= j,
            !closed ==> group_end(t@, i + 1, 0, false) == group_end(t@, j as int, depth as int, comma),
            closed ==> group_end(t@, i + 1, 0, false) == Some((j as int, comma)),
        decreases t.len() - j,
    {
        let w: Word = t[j].word;
        if w == Word::OpenParen {
            depth = depth + 1;
        } else if w == Word::CloseParen {
            if depth <= 1 {
                closed = true;
            } else {
                depth = depth - 1;
            }
        } else if w == Word::Comma && depth == 1 {
            comma = true;
        }
        j = j + 1;
    }
    if !closed || !comma {
        return false;
    }
    if operand_due(before(t, i)) {
        return true;
    }
    let ghost after = j as int;
    let mut level: usize = 0;
    while j < t.len()
        invariant
            after <= j <= t.len(),
            level <= j,
            ends_as_operand(t@, after, 0) == ends_as_operand(t@, j as int, level as int),
            group_end(t@, i + 1, 0, false) == Some((after, true)),
            word_at(t@, i + 1) == Word::OpenParen,
            !precedes_operand(word_at(t@, i - 1)),
        decreases t.len() - j,
    {
        let w: Word = t[j].word;
        if w == Word::OpenParen {
            level = level + 1;
        } else if w == Word::CloseParen {
            if level == 0 {
                return true;
            }
            level = level - 1;
        } else if level == 0 && w == Word::Then && t[j].keyword_like {
            return false;
        } else if level == 0 && w == Word::Semicolon {
            return true;
        }
        j = j + 1;
    }
    true
}

// ── procedural runs ────────────────────────────────────────────────────

/// The words after `BEGIN` that make it transaction control in a run.
pub open spec fn opens_transaction(w: Word) -> bool {
    ||| w == Word::Transaction
    ||| w == Word::Tran
    ||| w == Word::Work
    ||| w == Word::Distributed
    ||| w == Word::Semicolon
}

/// Whether the token at `i` executes text: `EXEC @sql`, unless it captures
/// the status of a procedure that is named literally.
pub open spec fn executes_variable(t: Seq<Token>, i: int) -> bool {
    variable_at(t, i + 1) && (word_at(t, i + 2) != Word::Equals || variable_at(t, i + 3))
}

/// Whether the token at `i` can only stand in procedural code.
pub open spec fn is_marker(t: Seq<Token>, i: int) -> bool {
    let w = word_at(t, i);
    let next = word_at(t, i + 1);
    ||| w == Word::Begin && !opens_transaction(next)
    ||| w == Word::End && (next == Word::If || next == Word::Loop || next == Word::While || next
        == Word::Case || next == Word::Repeat)
    ||| w == Word::Elsif
    ||| w == Word::Elseif
    ||| w == Word::Else && i == 0
    ||| w == Word::If && i == 0 && next != Word::Semicolon && next != Word::Absent && !scalar_if(
        t,
        0,
    )
    ||| w == Word::SpExecutesql
    ||| w == Word::Execute && next == Word::Immediate
    ||| (w == Word::Exec || w == Word::Execute) && (next == Word::OpenParen || executes_variable(
        t,
        i,
    ))
    ||| w == Word::Prepare && word_at(t, i + 2) == Word::From
    ||| w == Word::Exception && next == Word::When
    ||| w == Word::While
}

/// Whether a run of tokens is procedural code.
pub open spec fn is_procedural_run(t: Seq<Token>) -> bool {
    exists|i: int| 0 <= i < t.len() && #[trigger] is_marker(t, i)
}

/// Whether the word after `BEGIN` makes it transaction control in a run.
pub fn transaction_word(w: Word) -> (r: bool)
    ensures
        r == opens_transaction(w),
{
    matches!(
        w,
        Word::Transaction | Word::Tran | Word::Work | Word::Distributed | Word::Semicolon
    )
}

/// Whether the token at `i` executes text.
pub fn executes_text(t: &Vec<Token>, i: usize) -> (r: bool)
    ensures
        r == executes_variable(t@, i as int),
{
    peek_variable(t, i, 1) && (peek(t, i, 2) != Word::Equals || peek_variable(t, i, 3))
}

/// Whether the token at `i` can only stand in procedural code.
fn marker(t: &Vec<Token>, i: usize) -> (r: bool)
    requires
        i < t.len(),
    ensures
        r == is_marker(t@, i as int),
{
    let next: Word = peek(t, i, 1);
    match t[i].word {
        Word::Begin => !transaction_word(next),
        Word::End => matches!(
            next,
            Word::If | Word::Loop | Word::While | Word::Case | Word::Repeat
        ),
        Word::Elsif => true,
        Word::Elseif => true,
        Word::Else => i == 0,
        Word::If => i == 0 && next != Word::Semicolon && next != Word::Absent && !scalar_if_call(
            t,
            0,
        ),
        Word::SpExecutesql => true,
        Word::Execute => next == Word::Immediate || next == Word::OpenParen || executes_text(t, i),
        Word::Exec => next == Word::OpenParen || executes_text(t, i),
        Word::Prepare => peek(t, i, 2) == Word::From,
        Word::Exception => next == Word::When,
        Word::While => true,
        _ => false,
    }
}

/// Whether a run of tokens is procedural code.
pub fn procedural_run(t: &Vec<Token>) -> (r: bool)
    ensures
        r == is_procedural_run(t@),
{
    let mut i: usize = 0;
    while i < t.len()
        invariant
            i <= t.len(),
            forall|j: int| 0 <= j < i ==> !#[trigger] is_marker(t@, j),
        decreases t.len() - i,
    {
        if marker(t, i) {
            return true;
        }
        i = i + 1;
    }
    false
}

} // verus!
