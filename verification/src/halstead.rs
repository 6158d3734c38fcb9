//! Halstead tallies: operators and operands, in total and distinct.

use vstd::prelude::*;

use crate::kind::{Kind, KindSet};
use crate::names::{add_distinct, lemma_distinct, texts};
use crate::text::{lower, to_lower, to_upper, trim, trimmed, upper};
use crate::tree::{is_leaf, is_trivia, number, trivia, well_formed, Node, Tree, MAX_NODES};

verus! {

/// Operators and operands. Distinct ones differ by more than case.
#[derive(Clone, Copy, Debug, PartialEq, Eq, Structural)]
pub struct HalsteadFacts {
    pub distinct_operators: u64,
    pub distinct_operands: u64,
    pub total_operators: u64,
    pub total_operands: u64,
}

/// What a node counts as.
#[derive(Clone, Copy, Debug, PartialEq, Eq, Structural)]
pub enum Role {
    /// Its parts count.
    Container,
    Operator,
    Operand,
    /// Neither it nor its parts count.
    Silent,
}

/// What a node counts as: references are operands as a whole; of the leaves,
/// identifiers and literals are operands, punctuation is nothing, and other
/// code is an operator.
pub open spec fn role(n: Seq<Node>, i: int) -> Role {
    let k = n[i].kind;
    let blank = trim(n[i].raw).len() == 0;
    if KindSet::References.holds(k) {
        if blank {
            Role::Silent
        } else {
            Role::Operand
        }
    } else if !is_leaf(n, i) {
        Role::Container
    } else if is_trivia(k) || blank || KindSet::Punctuation.holds(k) {
        Role::Silent
    } else if KindSet::Operands.holds(k) {
        Role::Operand
    } else {
        Role::Operator
    }
}

/// Whether a walk from `root` comes to the node at `j`: every node on the way
/// is a container.
pub open spec fn visited(n: Seq<Node>, root: int, j: int) -> bool {
    forall|a: int| root <= a < j && j < (#[trigger] n[a]).end ==> role(n, a) == Role::Container
}

/// How many of the nodes `root..hi` are visited in a role.
pub open spec fn occurrences(n: Seq<Node>, root: int, r: Role, hi: int) -> int
    decreases hi - root,
{
    if hi <= root {
        0
    } else {
        occurrences(n, root, r, hi - 1) + if visited(n, root, hi - 1) && role(n, hi - 1) == r {
            1int
        } else {
            0int
        }
    }
}

/// The operators among the nodes `root..hi`, in upper case.
pub open spec fn operators(n: Seq<Node>, root: int, hi: int) -> Set<Seq<char>>
    decreases hi - root,
{
    if hi <= root {
        Set::empty()
    } else if visited(n, root, hi - 1) && role(n, hi - 1) == Role::Operator {
        operators(n, root, hi - 1).insert(upper(trim(n[hi - 1].raw)))
    } else {
        operators(n, root, hi - 1)
    }
}

/// The operands among the nodes `root..hi`, in lower case.
pub open spec fn operands(n: Seq<Node>, root: int, hi: int) -> Set<Seq<char>>
    decreases hi - root,
{
    if hi <= root {
        Set::empty()
    } else if visited(n, root, hi - 1) && role(n, hi - 1) == Role::Operand {
        operands(n, root, hi - 1).insert(lower(trim(n[hi - 1].raw)))
    } else {
        operands(n, root, hi - 1)
    }
}

/// Whether Halstead tallies are those of a subtree.
pub open spec fn describes_halstead(n: Seq<Node>, root: int, r: HalsteadFacts) -> bool {
    let hi = n[root].end as int;
    &&& r.distinct_operators == operators(n, root, hi).len()
    &&& r.distinct_operands == operands(n, root, hi).len()
    &&& r.total_operators == occurrences(n, root, Role::Operator, hi)
    &&& r.total_operands == occurrences(n, root, Role::Operand, hi)
}

proof fn lemma_closed(n: Seq<Node>, root: int, a: int, hi: int)
    requires
        well_formed(n),
        0 <= root <= a < n.len(),
        role(n, a) != Role::Container,
        a < hi <= n[a].end,
    ensures
        operators(n, root, hi) == operators(n, root, a + 1),
        operands(n, root, hi) == operands(n, root, a + 1),
        occurrences(n, root, Role::Operator, hi) == occurrences(n, root, Role::Operator, a + 1),
        occurrences(n, root, Role::Operand, hi) == occurrences(n, root, Role::Operand, a + 1),
    decreases hi,
{
    if hi > a + 1 {
        lemma_closed(n, root, a, hi - 1);
        assert(!visited(n, root, hi - 1)) by {
            assert(hi - 1 < n[a].end);
        }
    }
}

/// What a node counts as.
fn role_of(tree: &Tree, i: usize) -> (r: Role)
    requires
        tree.wf(),
        tree.holds(i),
    ensures
        r == role(tree@, i as int),
{
    let k: Kind = tree.kind_at(i);
    let text = trimmed(tree.raw_at(i));
    if KindSet::References.has(k) {
        if text.len() == 0 {
            Role::Silent
        } else {
            Role::Operand
        }
    } else if tree.end_at(i) != i + 1 {
        Role::Container
    } else if trivia(k) || text.len() == 0 || KindSet::Punctuation.has(k) {
        Role::Silent
    } else if KindSet::Operands.has(k) {
        Role::Operand
    } else {
        Role::Operator
    }
}

/// The Halstead tallies of a subtree.
pub fn extract_halstead(tree: &Tree, root: usize) -> (r: HalsteadFacts)
    requires
        tree.wf(),
        tree.holds(root),
    ensures
        describes_halstead(tree@, root as int, r),
        r.total_operators + r.total_operands <= MAX_NODES,
        r.distinct_operators <= r.total_operators,
        r.distinct_operands <= r.total_operands,
{
    let ghost n = tree@;
    let hi: usize = tree.end_at(root);
    let mut ops: Vec<Vec<char>> = Vec::new();
    let mut opnds: Vec<Vec<char>> = Vec::new();
    let mut op_total: u64 = 0;
    let mut opnd_total: u64 = 0;
    let mut i: usize = root;
    assert(texts(ops@).to_set() =~= operators(n, root as int, root as int));
    assert(texts(opnds@).to_set() =~= operands(n, root as int, root as int));
    while i < hi
        invariant
            tree.wf(),
            n == tree@,
            root <= i <= hi <= n.len() <= MAX_NODES,
            hi == n[root as int].end,
            i < hi ==> visited(n, root as int, i as int),
            texts(ops@).no_duplicates(),
            texts(opnds@).no_duplicates(),
            texts(ops@).to_set() == operators(n, root as int, i as int),
            texts(opnds@).to_set() == operands(n, root as int, i as int),
            op_total == occurrences(n, root as int, Role::Operator, i as int),
            opnd_total == occurrences(n, root as int, Role::Operand, i as int),
            op_total + opnd_total <= i - root,
            ops@.len() <= op_total,
            opnds@.len() <= opnd_total,
        decreases hi - i,
    {
        let here = role_of(tree, i);
        let e: usize = tree.end_at(i);
        match here {
            Role::Operator => {
                let text = trimmed(tree.raw_at(i));
                let up = to_upper(&text);
                add_distinct(&mut ops, up);
                op_total = op_total + 1;
            },
            Role::Operand => {
                let text = trimmed(tree.raw_at(i));
                let low = to_lower(&text);
                add_distinct(&mut opnds, low);
                opnd_total = opnd_total + 1;
            },
            _ => {},
        }
        match here {
            Role::Container => {
                assert forall|a: int| root <= a < i + 1 && i + 1 < (#[trigger] n[a]).end implies role(
                    n,
                    a,
                ) == Role::Container by {}
                i = i + 1;
            },
            _ => {
                proof {
                    lemma_closed(n, root as int, i as int, e as int);
                    assert forall|a: int|
                        root <= a < e && e < (#[trigger] n[a]).end && e < hi implies role(n, a)
                        == Role::Container by {
                        if a >= i {
                            assert(n[a].end <= n[i as int].end || a == i);
                        }
                    }
                }
                i = e;
            },
        }
    }
    proof {
        lemma_distinct(ops@);
        lemma_distinct(opnds@);
    }
    HalsteadFacts {
        distinct_operators: ops.len() as u64,
        distinct_operands: opnds.len() as u64,
        total_operators: op_total,
        total_operands: opnd_total,
    }
}

// ── every word counts once ─────────────────────────────────────────────

/// Whether a kind is a reference, which counts as a whole.
pub open spec fn is_reference(k: Kind) -> bool {
    k == Kind::ColumnReference || k == Kind::TableReference || k == Kind::ObjectReference
}

/// Whether a kind is punctuation, which does not count.
pub open spec fn is_mark(k: Kind) -> bool {
    ||| k == Kind::Comma
    ||| k == Kind::Dot
    ||| k == Kind::StartBracket
    ||| k == Kind::EndBracket
    ||| k == Kind::StatementTerminator
    ||| k == Kind::Semicolon
}

/// Whether a kind is an identifier, a literal or a parameter.
pub open spec fn is_value(k: Kind) -> bool {
    ||| k == Kind::NakedIdentifier
    ||| k == Kind::QuotedIdentifier
    ||| k == Kind::NumericLiteral
    ||| k == Kind::QuotedLiteral
    ||| k == Kind::BooleanLiteral
    ||| k == Kind::NullLiteral
    ||| k == Kind::Parameter
}

/// Whether the node at `j` is a word of the subtree of `root`: a reference or a
/// leaf, outside any reference, with text that is neither white space nor a
/// comment.
pub open spec fn is_word(n: Seq<Node>, root: int, j: int) -> bool {
    &&& root <= j
    &&& is_reference(n[j].kind) || n[j].end == j + 1
    &&& trim(n[j].raw).len() > 0
    &&& is_reference(n[j].kind) || !is_trivia(n[j].kind)
    &&& forall|a: int| root <= a < j && j < (#[trigger] n[a]).end ==> !is_reference(n[a].kind)
}

pub open spec fn operator_word(n: Seq<Node>, root: int) -> spec_fn(int) -> bool {
    |j: int|
        is_word(n, root, j) && !is_reference(n[j].kind) && !is_mark(n[j].kind) && !is_value(
            n[j].kind,
        )
}

pub open spec fn operand_word(n: Seq<Node>, root: int) -> spec_fn(int) -> bool {
    |j: int| is_word(n, root, j) && (is_reference(n[j].kind) || is_value(n[j].kind))
}

pub open spec fn mark_word(n: Seq<Node>, root: int) -> spec_fn(int) -> bool {
    |j: int| is_word(n, root, j) && is_mark(n[j].kind)
}

pub open spec fn any_word(n: Seq<Node>, root: int) -> spec_fn(int) -> bool {
    |j: int| is_word(n, root, j)
}

proof fn lemma_word_role(n: Seq<Node>, root: int, j: int)
    requires
        well_formed(n),
        0 <= root <= j < n.len(),
    ensures
        visited(n, root, j) && role(n, j) == Role::Operator <==> operator_word(n, root)(j),
        visited(n, root, j) && role(n, j) == Role::Operand <==> operand_word(n, root)(j),
{
    assert forall|a: int| root <= a < j && j < (#[trigger] n[a]).end implies (role(n, a)
        == Role::Container <==> !is_reference(n[a].kind)) by {
        assert(n[a].end > a + 1);
    }
    if visited(n, root, j) {
        assert forall|a: int| root <= a < j && j < (#[trigger] n[a]).end implies !is_reference(
            n[a].kind,
        ) by {
            assert(role(n, a) == Role::Container);
        }
    }
    if is_word(n, root, j) {
        assert forall|a: int| root <= a < j && j < (#[trigger] n[a]).end implies role(n, a)
            == Role::Container by {
            assert(!is_reference(n[a].kind));
        }
    }
}

proof fn lemma_words(n: Seq<Node>, root: int, hi: int)
    requires
        well_formed(n),
        0 <= root < n.len(),
        hi <= n.len(),
    ensures
        occurrences(n, root, Role::Operator, hi) == number(root, hi, operator_word(n, root)),
        occurrences(n, root, Role::Operand, hi) == number(root, hi, operand_word(n, root)),
        number(root, hi, any_word(n, root)) == number(root, hi, operator_word(n, root)) + number(
            root,
            hi,
            operand_word(n, root),
        ) + number(root, hi, mark_word(n, root)),
    decreases hi - root,
{
    if hi > root {
        lemma_words(n, root, hi - 1);
        lemma_word_role(n, root, hi - 1);
    }
}

/// Every word of a file is exactly one of operator, operand and punctuation:
/// references and values are operands, and whatever else is no punctuation,
/// keywords among them, is an operator.
pub proof fn every_word_counts_once(n: Seq<Node>, root: int, r: HalsteadFacts)
    requires
        well_formed(n),
        0 <= root < n.len(),
        describes_halstead(n, root, r),
    ensures
        ({
            let hi = n[root].end as int;
            &&& r.total_operators == number(root, hi, operator_word(n, root))
            &&& r.total_operands == number(root, hi, operand_word(n, root))
            &&& r.total_operators + r.total_operands + number(root, hi, mark_word(n, root))
                == number(root, hi, any_word(n, root))
        }),
{
    lemma_words(n, root, n[root].end as int);
}

/// A keyword is an operator, an identifier is none.
pub proof fn keywords_are_operators(n: Seq<Node>, root: int, j: int)
    requires
        is_word(n, root, j),
    ensures
        n[j].kind == Kind::Keyword ==> operator_word(n, root)(j) && !operand_word(n, root)(j),
        n[j].kind == Kind::NakedIdentifier ==> operand_word(n, root)(j) && !operator_word(n, root)(
            j,
        ),
{
}

proof fn lemma_texts(n: Seq<Node>, root: int, hi: int, x: Seq<char>)
    requires
        well_formed(n),
        0 <= root < n.len(),
        hi <= n.len(),
    ensures
        operators(n, root, hi).contains(x) <==> exists|j: int|
            root <= j < hi && operator_word(n, root)(j) && x == upper(trim((#[trigger] n[j]).raw)),
        operands(n, root, hi).contains(x) <==> exists|j: int|
            root <= j < hi && operand_word(n, root)(j) && x == lower(trim((#[trigger] n[j]).raw)),
    decreases hi - root,
{
    if hi > root {
        lemma_texts(n, root, hi - 1, x);
        lemma_word_role(n, root, hi - 1);
        let last = n[hi - 1];
        if operators(n, root, hi).contains(x) && !operators(n, root, hi - 1).contains(x) {
            assert(x == upper(trim(last.raw)));
        }
        if operands(n, root, hi).contains(x) && !operands(n, root, hi - 1).contains(x) {
            assert(x == lower(trim(last.raw)));
        }
    }
}

/// The distinct operators are the texts of the operators in one case, and the
/// distinct operands those of the operands.
pub proof fn distinct_words_differ_in_text(n: Seq<Node>, root: int, r: HalsteadFacts)
    requires
        well_formed(n),
        0 <= root < n.len(),
        describes_halstead(n, root, r),
    ensures
        ({
            let hi = n[root].end as int;
            &&& r.distinct_operators == Set::new(
                |x: Seq<char>|
                    exists|j: int|
                        root <= j < hi && operator_word(n, root)(j) && x == upper(
                            trim((#[trigger] n[j]).raw),
                        ),
            ).len()
            &&& r.distinct_operands == Set::new(
                |x: Seq<char>|
                    exists|j: int|
                        root <= j < hi && operand_word(n, root)(j) && x == lower(
                            trim((#[trigger] n[j]).raw),
                        ),
            ).len()
        }),
{
    let hi = n[root].end as int;
    let a = Set::new(
        |x: Seq<char>|
            exists|j: int|
                root <= j < hi && operator_word(n, root)(j) && x == upper(
                    trim((#[trigger] n[j]).raw),
                ),
    );
    let b = Set::new(
        |x: Seq<char>|
            exists|j: int|
                root <= j < hi && operand_word(n, root)(j) && x == lower(
                    trim((#[trigger] n[j]).raw),
                ),
    );
    assert forall|x: Seq<char>| #[trigger] operators(n, root, hi).contains(x) == a.contains(x) by {
        lemma_texts(n, root, hi, x);
    }
    assert forall|x: Seq<char>| #[trigger] operands(n, root, hi).contains(x) == b.contains(x) by {
        lemma_texts(n, root, hi, x);
    }
    assert(operators(n, root, hi) =~= a);
    assert(operands(n, root, hi) =~= b);
}

} // verus!
