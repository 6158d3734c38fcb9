//! How expressions nest, what a join condition equates, and what tokens and
//! nodes are made of.

use vstd::prelude::*;

use crate::joins::{
    column_equality, equates_columns, is_column, level_equality, operands_from, own_conditions,
    own_nodes,
};
use crate::kind::{kind_of, Kind, KindSet};
use crate::output_laws::{lemma_is_crawled, own_scope};
use crate::rows::{after, grown, RowView};
use crate::span::Lines;
use crate::subqueries::{depth_below, describes_expressions, expression_depth, ExpressionFacts};
use crate::text::{trim, upper};
use crate::token::{
    ends_as_operand, group_end, precedes_operand, scalar_if, token_at, tokens_in, tokens_of,
    word_at, Token,
};
use crate::tree::{
    closes, code_children, is_code_leaf, lemma_reported, number, open_to, reports, well_formed,
    Node, Probe,
};
use crate::tree_laws::{
    child_of, highest, highest_in, lemma_highest, lemma_same_highest, nodes_in,
};
use crate::word::{word_of, Word};

verus! {

// ── expressions ────────────────────────────────────────────────────────

spec fn on_top_of(n: Seq<Node>, lo: int, c: int) -> bool {
    forall|a: int| lo <= a < c ==> #[trigger] n[a].end <= c
}

spec fn deepens(n: Seq<Node>, lo: int, direct: bool, x: int) -> bool {
    n[x].kind is Expression || direct && on_top_of(n, lo, x) && KindSet::DepthSteps.holds(
        n[x].kind,
    )
}

spec fn depth_from(n: Seq<Node>, x: int) -> int {
    1 + depth_below(n, x + 1, n[x].end as int, true)
}

spec fn depths(n: Seq<Node>, lo: int, direct: bool) -> spec_fn(int) -> int {
    |x: int|
        if deepens(n, lo, direct, x) {
            depth_from(n, x)
        } else {
            0
        }
}

proof fn lemma_highest_split(lo: int, mid: int, hi: int, f: spec_fn(int) -> int)
    requires
        lo <= mid <= hi,
    ensures
        highest(lo, hi, f) == if highest(lo, mid, f) > highest(mid, hi, f) {
            highest(lo, mid, f)
        } else {
            highest(mid, hi, f)
        },
        highest(lo, mid, f) >= 0,
        highest(mid, hi, f) >= 0,
    decreases hi - mid,
{
    if mid < hi {
        lemma_highest_split(lo, mid, hi - 1, f);
    } else {
        lemma_highest_floor(lo, mid, f);
    }
}

proof fn lemma_highest_floor(lo: int, hi: int, f: spec_fn(int) -> int)
    ensures
        highest(lo, hi, f) >= 0,
    decreases hi - lo,
{
    if lo < hi {
        lemma_highest_floor(lo, hi - 1, f);
    }
}

proof fn lemma_highest_grows(lo: int, hi: int, f: spec_fn(int) -> int, g: spec_fn(int) -> int)
    requires
        forall|i: int| lo <= i < hi ==> #[trigger] f(i) <= g(i),
    ensures
        highest(lo, hi, f) <= highest(lo, hi, g),
    decreases hi - lo,
{
    if lo < hi {
        lemma_highest_grows(lo, hi - 1, f, g);
        assert(f(hi - 1) <= g(hi - 1));
    }
}

proof fn lemma_depth(n: Seq<Node>, c: int, hi: int, direct: bool)
    requires
        well_formed(n),
        0 <= c <= hi <= n.len(),
        forall|a: int| c <= a < hi ==> (#[trigger] n[a]).end <= hi,
    ensures
        depth_below(n, c, hi, direct) == highest(c, hi, depths(n, c, direct)),
    decreases hi - c,
{
    if c < hi {
        let d = n[c].end as int;
        let f = depths(n, c, direct);
        let inner = depths(n, c + 1, false);
        let below = depths(n, c + 1, true);
        let rest = depths(n, d, direct);
        lemma_depth(n, c + 1, d, false);
        lemma_depth(n, c + 1, d, true);
        lemma_depth(n, d, hi, direct);
        lemma_highest_split(c, d, hi, f);
        lemma_highest_split(c, c + 1, d, f);
        assert forall|x: int| c + 1 <= x < d implies #[trigger] f(x) == inner(x) by {
            assert(n[c].end > x);
            assert(!on_top_of(n, c, x));
        }
        lemma_same_highest(c + 1, d, f, inner);
        assert forall|x: int| c + 1 <= x < d implies #[trigger] inner(x) <= below(x) by {
            lemma_depth_floor(n, x + 1, n[x].end as int, true);
        }
        lemma_highest_grows(c + 1, d, inner, below);
        assert forall|x: int| d <= x < hi implies #[trigger] f(x) == rest(x) by {
            assert(on_top_of(n, c, x) == on_top_of(n, d, x)) by {
                if on_top_of(n, d, x) {
                    assert forall|a: int| c <= a < x implies #[trigger] n[a].end <= x by {
                        if c < a < d {
                            assert(n[a].end <= n[c].end);
                        }
                    }
                }
            }
        }
        lemma_same_highest(d, hi, f, rest);
        assert(on_top_of(n, c, c));
        assert(highest(c, c + 1, f) == if f(c) > 0 {
            f(c)
        } else {
            0
        }) by {
            assert(highest(c, c, f) == 0);
        }
        lemma_depth_floor(n, c + 1, d, true);
    }
}

proof fn lemma_depth_floor(n: Seq<Node>, c: int, hi: int, direct: bool)
    ensures
        depth_below(n, c, hi, direct) >= 0,
    decreases hi - c,
{
    if 0 <= c < hi && c < n[c].end <= hi {
        lemma_depth_floor(n, c + 1, n[c].end as int, true);
        lemma_depth_floor(n, c + 1, n[c].end as int, false);
        lemma_depth_floor(n, n[c].end as int, hi, direct);
    }
}

/// An expression is one level deeper than the deepest in it: any expression below
/// it, and any call, case or bracket that is its child.
pub proof fn expressions_are_deeper_than_their_parts(n: Seq<Node>, i: int)
    requires
        well_formed(n),
        0 <= i < n.len(),
    ensures
        expression_depth(n)(i as usize) == 1 + highest(
            i + 1,
            n[i].end as int,
            |c: int|
                if n[c].kind is Expression || child_of(n, i, c) && (n[c].kind is Function
                    || n[c].kind is CaseExpression || n[c].kind is Bracketed) {
                    expression_depth(n)(c as usize)
                } else {
                    0
                },
        ),
{
    let hi = n[i].end as int;
    lemma_depth(n, i + 1, hi, true);
    let g = |c: int|
        if n[c].kind is Expression || child_of(n, i, c) && (n[c].kind is Function
            || n[c].kind is CaseExpression || n[c].kind is Bracketed) {
            expression_depth(n)(c as usize)
        } else {
            0
        };
    assert forall|c: int| i + 1 <= c < hi implies #[trigger] depths(n, i + 1, true)(c) == g(c) by {
        assert(child_of(n, i, c) == on_top_of(n, i + 1, c));
    }
    lemma_same_highest(i + 1, hi, depths(n, i + 1, true), g);
}

/// The depth of a file's expressions is that of its deepest one.
pub proof fn deepest_expression_counts(n: Seq<Node>, root: int, r: ExpressionFacts)
    requires
        well_formed(n),
        0 <= root < n.len(),
        describes_expressions(n, root, r),
    ensures
        r.max_depth == highest_in(
            n,
            root,
            |j: int|
                if n[j].kind is Expression {
                    expression_depth(n)(j as usize)
                } else {
                    0
                },
        ),
{
    lemma_highest(
        n,
        root,
        KindSet::Only(Kind::Expression),
        expression_depth(n),
        |j: int|
            if n[j].kind is Expression {
                expression_depth(n)(j as usize)
            } else {
                0
            },
    );
}

// ── join conditions ────────────────────────────────────────────────────

/// Whether the child at place `k` is an `=` with a column on either side.
pub open spec fn stands_between_columns(n: Seq<Node>, code: Seq<usize>, k: int) -> bool {
    &&& 1 <= k
    &&& k + 1 < code.len()
    &&& n[code[k] as int].kind is ComparisonOperator
    &&& trim(n[code[k] as int].raw) == "="@
    &&& is_column(n, code[k - 1] as int)
    &&& is_column(n, code[k + 1] as int)
}

/// Whether an `=` between two columns is a child of a node.
pub open spec fn equates_below(n: Seq<Node>, j: int) -> bool {
    exists|k: int| #[trigger] stands_between_columns(n, code_children(n, j), k)
}

proof fn lemma_equates(n: Seq<Node>, j: int)
    ensures
        level_equality(n, j) <==> equates_below(n, j),
{
    let code = code_children(n, j);
    if level_equality(n, j) {
        let k = choose|k: int| #[trigger] equates_columns(n, code, k);
        assert(stands_between_columns(n, code, k));
    }
    if equates_below(n, j) {
        let k = choose|k: int| #[trigger] stands_between_columns(n, code, k);
        assert(equates_columns(n, code, k));
    }
}

spec fn node_probe() -> Probe {
    Probe {
        set: KindSet::Any,
        deep: true,
        stop: KindSet::Only(Kind::SelectStatement),
        own: true,
    }
}

proof fn lemma_own_node(n: Seq<Node>, i: int, j: int)
    requires
        well_formed(n),
        0 <= i < n.len(),
        i <= j < n[i].end,
    ensures
        reports(n, i, node_probe(), j) <==> own_scope(n, i, j),
{
    let p = node_probe();
    if reports(n, i, p, j) {
        assert forall|a: int| i < a <= j && j < (#[trigger] n[a]).end implies !(
        n[a].kind is SelectStatement) by {
            if a < j {
                assert(!closes(n, i, p, a));
            }
        }
    }
    if own_scope(n, i, j) {
        assert(n[j].end > j);
        assert(open_to(n, i, p, j));
    }
}

proof fn lemma_own_nodes(n: Seq<Node>, i: int, f: spec_fn(int) -> bool)
    requires
        well_formed(n),
        0 <= i < n.len(),
    ensures
        (exists|x: int| 0 <= x < own_nodes(n, i).len() && f(#[trigger] own_nodes(n, i)[x] as int))
            <==> exists|j: int| #[trigger] own_scope(n, i, j) && f(j),
{
    let p = node_probe();
    let s = own_nodes(n, i);
    let hi = n[i].end as int;
    lemma_reported(n, i, p, hi);
    if exists|x: int| 0 <= x < s.len() && f(#[trigger] s[x] as int) {
        let x = choose|x: int| 0 <= x < s.len() && f(#[trigger] s[x] as int);
        lemma_own_node(n, i, s[x] as int);
        assert(own_scope(n, i, s[x] as int));
    }
    if exists|j: int| #[trigger] own_scope(n, i, j) && f(j) {
        let j = choose|j: int| #[trigger] own_scope(n, i, j) && f(j);
        lemma_own_node(n, i, j);
        let x = lemma_is_crawled(n, i, p, hi, j);
        assert(f(s[x] as int));
    }
}

#[verifier::opaque]
spec fn equal_below(n: Seq<Node>, j: int) -> bool {
    level_equality(n, j)
}

spec fn equal_nodes(n: Seq<Node>) -> spec_fn(int) -> bool {
    |j: int| equal_below(n, j)
}

proof fn lemma_column_equality(n: Seq<Node>, i: int)
    ensures
        column_equality(n, i) <==> exists|x: int|
            0 <= x < own_nodes(n, i).len() && equal_nodes(n)(
                #[trigger] own_nodes(n, i)[x] as int,
            ),
{
    reveal(equal_below);
    let s = own_nodes(n, i);
    if column_equality(n, i) {
        let x = choose|x: int| 0 <= x < s.len() && level_equality(n, #[trigger] s[x] as int);
        assert(equal_nodes(n)(s[x] as int));
    }
    if exists|x: int| 0 <= x < s.len() && equal_nodes(n)(#[trigger] s[x] as int) {
        let x = choose|x: int| 0 <= x < s.len() && equal_nodes(n)(#[trigger] s[x] as int);
        assert(level_equality(n, s[x] as int));
    }
}

/// A condition equates columns where an `=` between two of them stands in its own
/// scope, however deep.
pub proof fn conditions_equate_columns(n: Seq<Node>, i: int)
    requires
        well_formed(n),
        0 <= i < n.len(),
    ensures
        column_equality(n, i) <==> exists|j: int| #[trigger]
            own_scope(n, i, j) && equates_below(n, j),
{
    lemma_column_equality(n, i);
    lemma_own_nodes(n, i, equal_nodes(n));
    assert forall|j: int| #[trigger] own_scope(n, i, j) implies equal_nodes(n)(j) == equates_below(
        n,
        j,
    ) by {
        reveal(equal_below);
        lemma_equates(n, j);
    }
}

/// A column counts as one in brackets and in expressions that hold nothing else,
/// and nothing else counts as one.
pub proof fn columns_can_be_wrapped(n: Seq<Node>, i: int)
    requires
        well_formed(n),
        0 <= i < n.len(),
    ensures
        n[i].kind is ColumnReference ==> is_column(n, i),
        is_column(n, i) && !(n[i].kind is ColumnReference) ==> (n[i].kind is Bracketed
            || n[i].kind is Expression) && operands_from(n, i + 1, n[i].end as int).len() == 1
            && is_column(n, operands_from(n, i + 1, n[i].end as int)[0] as int),
        (n[i].kind is Bracketed || n[i].kind is Expression) && operands_from(
            n,
            i + 1,
            n[i].end as int,
        ).len() == 1 ==> is_column(n, i) == is_column(
            n,
            operands_from(n, i + 1, n[i].end as int)[0] as int,
        ),
{
    lemma_operands(n, i + 1, n[i].end as int);
}

proof fn lemma_operands(n: Seq<Node>, c: int, hi: int)
    requires
        well_formed(n),
        0 <= c <= hi <= n.len(),
        forall|a: int| c <= a < hi ==> (#[trigger] n[a]).end <= hi,
    ensures
        forall|k: int|
            0 <= k < operands_from(n, c, hi).len() ==> c <= (#[trigger] operands_from(n, c, hi)[k])
                < hi,
    decreases hi - c,
{
    if c < hi {
        let d = n[c].end as int;
        let s = operands_from(n, c, hi);
        let t = operands_from(n, d, hi);
        lemma_operands(n, d, hi);
        assert forall|k: int| 0 <= k < s.len() implies c <= (#[trigger] s[k]) < hi by {
            if s.len() == t.len() {
                assert(s[k] == t[k]);
            } else if k > 0 {
                assert(s[k] == t[k - 1]);
            }
        }
    }
}

/// The conditions of a join are those in it that belong to no other join in it.
pub proof fn conditions_belong_to_their_join(n: Seq<Node>, clause: int, c: int)
    requires
        well_formed(n),
        0 <= clause < n.len(),
        clause <= c < n[clause].end,
    ensures
        own_conditions(n, clause).contains(c as usize) <==> c > clause && n[c].kind is JoinOnCondition
            && forall|a: int|
            clause < a < c && c < (#[trigger] n[a]).end ==> !(n[a].kind is JoinClause),
{
    let p = Probe {
        set: KindSet::Only(Kind::JoinOnCondition),
        deep: true,
        stop: KindSet::Only(Kind::JoinClause),
        own: false,
    };
    let s = own_conditions(n, clause);
    let hi = n[clause].end as int;
    lemma_reported(n, clause, p, hi);
    if s.contains(c as usize) {
        let k = choose|k: int| 0 <= k < s.len() && s[k] == c as usize;
        assert(reports(n, clause, p, s[k] as int));
        assert forall|a: int| clause < a < c && c < (#[trigger] n[a]).end implies !(
        n[a].kind is JoinClause) by {
            assert(!closes(n, clause, p, a));
        }
    }
    if c > clause && n[c].kind is JoinOnCondition && (forall|a: int|
        clause < a < c && c < (#[trigger] n[a]).end ==> !(n[a].kind is JoinClause)) {
        assert(open_to(n, clause, p, c));
        let k = lemma_is_crawled(n, clause, p, hi, c);
        assert(s[k] == c as usize);
    }
}

// ── tokens ─────────────────────────────────────────────────────────────

/// Whether a node is a leaf with something to see that is no comment, no white
/// space and not without source text.
pub open spec fn carries_code(n: Seq<Node>, i: int) -> bool {
    &&& n[i].end == i + 1
    &&& !KindSet::Comments.holds(n[i].kind)
    &&& !KindSet::Spaces.holds(n[i].kind)
    &&& !KindSet::Metas.holds(n[i].kind)
    &&& trim(n[i].raw).len() > 0
}

/// The tokens of a subtree are its leaves that carry code, in order; each has its
/// word, whether it is a variable, whether it can be a keyword, and its place.
pub proof fn tokens_are_the_code(n: Seq<Node>, lines: Lines, root: int, i: int)
    requires
        root <= i < n[root].end,
        carries_code(n, i),
    ensures
        tokens_of(n, lines, root).len() == nodes_in(n, root, |j: int| carries_code(n, j)),
        ({
            let k = number(root, i, |j: int| carries_code(n, j));
            let t = tokens_of(n, lines, root);
            &&& 0 <= k < t.len()
            &&& t[k].word == word_of(upper(trim(n[i].raw)))
            &&& t[k].variable <==> trim(n[i].raw)[0] == '@'
            &&& t[k].keyword_like <==> n[i].kind is Keyword || n[i].kind is Word
                || n[i].kind is FunctionNameIdentifier
            &&& t[k].function_name <==> n[i].kind is FunctionNameIdentifier
            &&& n[i].span matches Some(range) ==> t[k].span == lines.span(range)
        }),
{
    let p = |j: int| carries_code(n, j);
    lemma_tokens(n, lines, root, n[root].end as int, i, p);
}

proof fn lemma_tokens(
    n: Seq<Node>,
    lines: Lines,
    lo: int,
    hi: int,
    i: int,
    p: spec_fn(int) -> bool,
)
    requires
        forall|j: int| #[trigger] p(j) == carries_code(n, j),
    ensures
        tokens_in(n, lines, lo, hi).len() == number(lo, hi, p),
        lo <= i < hi && carries_code(n, i) ==> 0 <= number(lo, i, p) < tokens_in(
            n,
            lines,
            lo,
            hi,
        ).len() && tokens_in(n, lines, lo, hi)[number(lo, i, p)] == token_at(n, lines, i),
    decreases hi - lo,
{
    if lo < hi {
        lemma_tokens(n, lines, lo, hi - 1, i, p);
        lemma_tokens(n, lines, lo, hi - 1, hi - 1, p);
        assert(p(hi - 1) == is_code_leaf(n, hi - 1));
        if i == hi - 1 {
            crate::clause_laws::lemma_some(lo, i, p);
        }
    }
}

/// Whether a token is a parenthesis.
pub open spec fn is_parenthesis(t: Seq<Token>, j: int) -> bool {
    t[j].word is OpenParen || t[j].word is CloseParen
}

/// A group without another in it ends at its parenthesis, and has a comma where
/// one stands in it.
pub proof fn groups_end_at_their_parenthesis(t: Seq<Token>, b: int, e: int)
    requires
        0 <= b < e < t.len(),
        t[b].word is OpenParen,
        t[e].word is CloseParen,
        forall|j: int| b < j < e ==> !is_parenthesis(t, #[trigger] id(j)),
    ensures
        group_end(t, b, 0, false) == Some(
            (e + 1, exists|j: int| b < j < e && #[trigger] t[j].word is Comma),
        ),
{
    lemma_group(t, b + 1, b, e, false);
}

/// A place.
pub open spec fn id(j: int) -> int {
    j
}

proof fn lemma_group(t: Seq<Token>, j: int, b: int, e: int, comma: bool)
    requires
        0 <= b < j <= e < t.len(),
        t[e].word is CloseParen,
        forall|i: int| b < i < e ==> !is_parenthesis(t, #[trigger] id(i)),
        comma <==> exists|i: int| b < i < j && #[trigger] t[i].word is Comma,
    ensures
        group_end(t, j, 1, comma) == Some(
            (e + 1, exists|i: int| b < i < e && #[trigger] t[i].word is Comma),
        ),
    decreases e - j,
{
    if j < e {
        assert(!is_parenthesis(t, id(j)));
        let next = comma || t[j].word == Word::Comma;
        assert(next <==> exists|i: int| b < i < j + 1 && #[trigger] t[i].word is Comma) by {
            if t[j].word is Comma {
                assert(b < j < j + 1 && t[j].word is Comma);
            }
            if exists|i: int| b < i < j + 1 && #[trigger] t[i].word is Comma {
                let i = choose|i: int| b < i < j + 1 && #[trigger] t[i].word is Comma;
                if i < j {
                    assert(b < i < j && t[i].word is Comma);
                }
            }
        }
        lemma_group(t, j + 1, b, e, next);
    }
}

/// What follows is an operand's end where a semicolon or the last token comes
/// before any `THEN`, and a condition's where a `THEN` comes first.
pub proof fn conditions_are_followed_by_then(t: Seq<Token>, j: int, e: int)
    requires
        0 <= j <= e < t.len(),
        forall|i: int|
            j <= i < e ==> !is_parenthesis(t, #[trigger] id(i)) && !(t[i].word is Semicolon) && !(
            t[i].word is Then && t[i].keyword_like),
    ensures
        t[e].word is Then && t[e].keyword_like ==> !ends_as_operand(t, j, 0),
        t[e].word is Semicolon ==> ends_as_operand(t, j, 0),
        t[e].word is CloseParen ==> ends_as_operand(t, j, 0),
    decreases e - j,
{
    if j < e {
        assert(!is_parenthesis(t, id(j)));
        conditions_are_followed_by_then(t, j + 1, e);
    }
}

/// An `IF` is a function only where a group follows it that has a comma in it.
pub proof fn functions_have_their_group(t: Seq<Token>, i: int)
    ensures
        !(word_at(t, i + 1) is OpenParen) ==> !scalar_if(t, i),
        scalar_if(t, i) ==> (group_end(t, i + 1, 0, false) matches Some((after, comma)) && comma && (
        precedes_operand(word_at(t, i - 1)) || ends_as_operand(t, after, 0))),
        word_at(t, i + 1) is OpenParen && (group_end(t, i + 1, 0, false) matches Some((after, comma))
            && comma && ends_as_operand(t, after, 0)) ==> scalar_if(t, i),
        word_at(t, i + 1) is OpenParen && (group_end(t, i + 1, 0, false) matches Some((after, comma))
            && comma && precedes_operand(word_at(t, i - 1))) ==> scalar_if(t, i),
{
}

/// The tokens that only an operand can follow: operators, separators, and the
/// words before a value or a condition.
pub proof fn operands_follow_operators(w: Word)
    ensures
        precedes_operand(w) <==> {
            ||| w is Equals || w is Greater || w is Less || w is GreaterEquals || w is LessEquals
            ||| w is NotEquals || w is BangEquals || w is Plus || w is Minus || w is Star
            ||| w is Slash || w is Percent || w is Concat || w is Comma || w is OpenParen
            ||| w is Select || w is Return || w is And || w is Or || w is Not || w is When
            ||| w is If || w is Elsif || w is Elseif || w is While || w is Until
        },
{
}

// ── nodes ──────────────────────────────────────────────────────────────

/// A row of the parser's tree becomes a node of the kind that it names, with its
/// text and its place; a row without children becomes a leaf, and one with
/// children holds what follows it.
pub proof fn rows_become_nodes(rows: Seq<RowView>, i: int)
    requires
        0 <= i < rows.len() < usize::MAX,
    ensures
        grown(rows).len() == rows.len(),
        grown(rows)[i].kind == kind_of(rows[i].kind),
        grown(rows)[i].raw == rows[i].raw,
        rows[i].span is None <==> grown(rows)[i].span is None,
        rows[i].span matches Some(s) ==> (s.0 <= u32::MAX && s.1 <= u32::MAX ==> grown(rows)[i].span
            == Some((s.0 as u32, s.1 as u32))),
        rows[i].children == 0 ==> grown(rows)[i].end == i + 1,
        rows[i].children == 1 && i + 1 < rows.len() ==> grown(rows)[i].end == grown(rows)[i + 1].end,
{
    reveal_with_fuel(after, 3);
}

} // verus!
