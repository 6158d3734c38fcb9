//! Join clauses: their kinds, and whether their conditions relate columns.

use vstd::prelude::*;

use crate::kind::{Kind, KindSet};
use crate::text::{trim, trimmed, is_text};
use crate::tree::{
    all_in, children, code_children, count, crawl, every, is_keyword, lemma_count_step, lemma_crawl,
    lemma_same_count, lemma_siblings, lemma_take_all, matched, open_to, raw_word, reported,
    siblings, trivia, well_formed, Node, Probe, Tree, MAX_NODES,
};
use crate::word::Word;

verus! {

/// Join counts by kind and by condition.
#[derive(Clone, Copy, Debug, PartialEq, Eq, Structural)]
pub struct JoinFacts {
    pub inner: u64,
    pub left: u64,
    pub right: u64,
    pub full: u64,
    pub cross: u64,
    pub natural: u64,
    pub lateral: u64,
    /// Joins without a condition where one is expected.
    pub missing_condition: u64,
    /// Joins whose condition equates no two columns.
    pub non_equi: u64,
    pub total: u64,
}

/// The kind of a join.
#[derive(Clone, Copy, Debug, PartialEq, Eq, Structural)]
pub enum JoinWord {
    Inner,
    Left,
    Right,
    Full,
    Cross,
}

/// What counts of one join clause.
#[derive(Clone, Copy, Debug, PartialEq, Eq, Structural)]
pub struct JoinShape {
    pub kind: JoinWord,
    pub natural: bool,
    pub lateral: bool,
    pub missing_condition: bool,
    pub non_equi: bool,
}

/// The keywords that lead the siblings from `c` on, up to the first other
/// node that is neither white space nor without source text.
pub open spec fn leading_keywords(n: Seq<Node>, c: int, hi: int) -> Seq<Word>
    decreases hi - c,
{
    if 0 <= c < hi && c < n[c].end <= hi {
        if n[c].kind == Kind::Keyword {
            seq![raw_word(n, c)] + leading_keywords(n, n[c].end as int, hi)
        } else if KindSet::Spaces.holds(n[c].kind) || KindSet::Metas.holds(n[c].kind) {
            leading_keywords(n, n[c].end as int, hi)
        } else {
            Seq::empty()
        }
    } else {
        Seq::empty()
    }
}

/// The keywords that lead a join clause.
pub open spec fn join_keywords(n: Seq<Node>, clause: int) -> Seq<Word> {
    leading_keywords(n, clause + 1, n[clause].end as int)
}

/// The kind of a join by its leading keywords. `OUTER APPLY` keeps the rows
/// of its left side and is a left join.
pub open spec fn join_word(words: Seq<Word>) -> JoinWord {
    if words.contains(Word::Left) {
        JoinWord::Left
    } else if words.contains(Word::Right) {
        JoinWord::Right
    } else if words.contains(Word::Full) {
        JoinWord::Full
    } else if words.contains(Word::Cross) {
        JoinWord::Cross
    } else if words.contains(Word::Outer) {
        JoinWord::Left
    } else {
        JoinWord::Inner
    }
}

/// Whether a node has a child keyword with the given text.
pub open spec fn has_keyword_child(n: Seq<Node>, i: int, w: Word) -> bool {
    exists|k: int|
        0 <= k < children(n, i).len() && is_keyword(n, #[trigger] children(n, i)[k] as int, w)
}

/// The children of a node that carry code, brackets left out.
pub open spec fn operands_from(n: Seq<Node>, c: int, hi: int) -> Seq<usize>
    decreases hi - c,
{
    if 0 <= c < hi && c < n[c].end <= hi {
        if crate::tree::is_trivia(n[c].kind) || n[c].kind == Kind::StartBracket || n[c].kind
            == Kind::EndBracket {
            operands_from(n, n[c].end as int, hi)
        } else {
            seq![c as usize] + operands_from(n, n[c].end as int, hi)
        }
    } else {
        Seq::empty()
    }
}

/// Whether a node is a column reference, or a bracket or expression around
/// nothing else than one.
pub open spec fn is_column(n: Seq<Node>, i: int) -> bool
    decreases n[i].end - i,
{
    let inner = operands_from(n, i + 1, n[i].end as int);
    ||| n[i].kind == Kind::ColumnReference
    ||| (n[i].kind == Kind::Bracketed || n[i].kind == Kind::Expression) && inner.len() == 1 && i
        < inner[0] < n[inner[0] as int].end <= n[i].end && is_column(n, inner[0] as int)
}

/// Whether the child at place `k` of a node is an `=` between two columns.
pub open spec fn equates_columns(n: Seq<Node>, code: Seq<usize>, k: int) -> bool {
    &&& 0 < k < code.len() - 1
    &&& n[code[k] as int].kind == Kind::ComparisonOperator
    &&& trim(n[code[k] as int].raw) == "="@
    &&& is_column(n, code[k - 1] as int)
    &&& is_column(n, code[k + 1] as int)
}

/// Whether an `=` between two columns stands directly below a node.
pub open spec fn level_equality(n: Seq<Node>, i: int) -> bool {
    exists|k: int| #[trigger] equates_columns(n, code_children(n, i), k)
}

/// The nodes of an expression that belong to no nested query.
pub open spec fn own_nodes(n: Seq<Node>, i: int) -> Seq<usize> {
    crawl(
        n,
        i,
        Probe {
            set: KindSet::Any,
            deep: true,
            stop: KindSet::Only(Kind::SelectStatement),
            own: true,
        },
    )
}

/// Whether an expression holds an `=` between two columns outside its nested
/// queries.
pub open spec fn column_equality(n: Seq<Node>, i: int) -> bool {
    exists|k: int|
        0 <= k < own_nodes(n, i).len() && level_equality(n, #[trigger] own_nodes(n, i)[k] as int)
}

/// The conditions of a join that belong to no nested join.
pub open spec fn own_conditions(n: Seq<Node>, clause: int) -> Seq<usize> {
    crawl(
        n,
        clause,
        Probe {
            set: KindSet::Only(Kind::JoinOnCondition),
            deep: true,
            stop: KindSet::Only(Kind::JoinClause),
            own: false,
        },
    )
}

/// Whether a join's own condition equates two columns.
pub open spec fn joins_on_columns(n: Seq<Node>, clause: int) -> bool {
    ||| has_keyword_child(n, clause, Word::Using)
    ||| exists|k: int|
        0 <= k < own_conditions(n, clause).len() && column_equality(
            n,
            #[trigger] own_conditions(n, clause)[k] as int,
        )
}

/// What counts of one join clause.
pub open spec fn join_shape(n: Seq<Node>, clause: int) -> JoinShape {
    let words = join_keywords(n, clause);
    let kind = join_word(words);
    let natural = words.contains(Word::Natural);
    let lateral = words.contains(Word::Lateral) || words.contains(Word::Apply);
    let condition = all_in(n, clause, KindSet::Only(Kind::JoinOnCondition)).len() > 0
        || has_keyword_child(n, clause, Word::Using);
    JoinShape {
        kind,
        natural,
        lateral,
        missing_condition: !condition && kind != JoinWord::Cross && !natural && !lateral,
        non_equi: condition && !joins_on_columns(n, clause),
    }
}

/// The join clauses of a subtree.
pub open spec fn join_clauses(n: Seq<Node>, root: int) -> Seq<usize> {
    all_in(n, root, KindSet::Only(Kind::JoinClause))
}

pub open spec fn of_join(n: Seq<Node>, w: JoinWord) -> spec_fn(usize) -> bool {
    |c: usize| join_shape(n, c as int).kind == w
}

pub open spec fn natural_join(n: Seq<Node>) -> spec_fn(usize) -> bool {
    |c: usize| join_shape(n, c as int).natural
}

pub open spec fn lateral_join(n: Seq<Node>) -> spec_fn(usize) -> bool {
    |c: usize| join_shape(n, c as int).lateral
}

pub open spec fn unconditional_join(n: Seq<Node>) -> spec_fn(usize) -> bool {
    |c: usize| join_shape(n, c as int).missing_condition
}

pub open spec fn non_equi_join(n: Seq<Node>) -> spec_fn(usize) -> bool {
    |c: usize| join_shape(n, c as int).non_equi
}

/// Whether join counts are those of a list of join clauses.
pub open spec fn counts_joins(n: Seq<Node>, s: Seq<usize>, r: JoinFacts) -> bool {
    &&& r.inner == count(s, of_join(n, JoinWord::Inner))
    &&& r.left == count(s, of_join(n, JoinWord::Left))
    &&& r.right == count(s, of_join(n, JoinWord::Right))
    &&& r.full == count(s, of_join(n, JoinWord::Full))
    &&& r.cross == count(s, of_join(n, JoinWord::Cross))
    &&& r.natural == count(s, natural_join(n))
    &&& r.lateral == count(s, lateral_join(n))
    &&& r.missing_condition == count(s, unconditional_join(n))
    &&& r.non_equi == count(s, non_equi_join(n))
}

/// Whether join counts are those of a subtree.
pub open spec fn describes_joins(n: Seq<Node>, root: int, r: JoinFacts) -> bool {
    counts_joins(n, join_clauses(n, root), r) && r.total == join_clauses(n, root).len()
}

// ── execution ──────────────────────────────────────────────────────────

/// The keywords that lead a join clause.
fn lead_words(tree: &Tree, clause: usize) -> (r: Vec<Word>)
    requires
        tree.wf(),
        tree.holds(clause),
    ensures
        r@ == join_keywords(tree@, clause as int),
{
    let ghost n = tree@;
    let hi: usize = tree.end_at(clause);
    let mut out: Vec<Word> = Vec::new();
    let mut c: usize = clause + 1;
    while c < hi
        invariant
            tree.wf(),
            n == tree@,
            clause < c <= hi,
            clause < n.len(),
            hi == n[clause as int].end,
            join_keywords(n, clause as int) == out@ + leading_keywords(n, c as int, hi as int),
        decreases hi - c,
    {
        assert(n[c as int].end <= hi);
        let k: Kind = tree.kind_at(c);
        if k == Kind::Keyword {
            out.push(tree.word(c));
        } else if !(KindSet::Spaces.has(k) || KindSet::Metas.has(k)) {
            assert(out@ =~= join_keywords(n, clause as int));
            return out;
        }
        assert(join_keywords(n, clause as int) =~= out@ + leading_keywords(
            n,
            n[c as int].end as int,
            hi as int,
        ));
        c = tree.end_at(c);
    }
    assert(out@ =~= join_keywords(n, clause as int));
    out
}

/// Whether a list of words holds a word.
pub fn has_word(v: &Vec<Word>, w: Word) -> (r: bool)
    ensures
        r == v@.contains(w),
{
    let mut i: usize = 0;
    while i < v.len()
        invariant
            i <= v@.len(),
            forall|j: int| 0 <= j < i ==> v@[j] != w,
        decreases v@.len() - i,
    {
        if v[i] == w {
            assert(v@[i as int] == w);
            return true;
        }
        i = i + 1;
    }
    false
}

/// Whether a node has a child keyword with the given text.
pub fn keyword_child(tree: &Tree, i: usize, w: Word) -> (r: bool)
    requires
        tree.wf(),
        tree.holds(i),
    ensures
        r == has_keyword_child(tree@, i as int, w),
{
    let kids = tree.children(i);
    proof {
        lemma_siblings(tree@, i + 1, tree@[i as int].end as int);
    }
    let mut k: usize = 0;
    while k < kids.len()
        invariant
            k <= kids@.len(),
            tree.wf(),
            kids@ == children(tree@, i as int),
            forall|j: int| 0 <= j < kids@.len() ==> (#[trigger] kids@[j]) < tree@.len(),
            forall|j: int| 0 <= j < k ==> !is_keyword(tree@, #[trigger] kids@[j] as int, w),
        decreases kids@.len() - k,
    {
        if tree.keyword(kids[k], w) {
            assert(is_keyword(
                tree@,
                children(tree@, i as int)[k as int] as int,
                w,
            ));
            return true;
        }
        k = k + 1;
    }
    false
}

/// The children of a node that carry code, brackets left out.
fn operands(tree: &Tree, i: usize) -> (r: Vec<usize>)
    requires
        tree.wf(),
        tree.holds(i),
    ensures
        r@ == operands_from(tree@, i + 1, tree@[i as int].end as int),
        forall|k: int| 0 <= k < r@.len() ==> i < (#[trigger] r@[k]) < tree@[i as int].end,
{
    let ghost n = tree@;
    let hi: usize = tree.end_at(i);
    let mut out: Vec<usize> = Vec::new();
    let mut c: usize = i + 1;
    while c < hi
        invariant
            tree.wf(),
            n == tree@,
            i < c <= hi,
            i < n.len(),
            hi == n[i as int].end,
            forall|k: int| 0 <= k < out@.len() ==> i < (#[trigger] out@[k]) < hi,
            operands_from(n, i + 1, hi as int) == out@ + operands_from(n, c as int, hi as int),
        decreases hi - c,
    {
        assert(n[c as int].end <= hi);
        let k: Kind = tree.kind_at(c);
        if !(trivia(k) || k == Kind::StartBracket || k == Kind::EndBracket) {
            out.push(c);
        }
        assert(operands_from(n, i + 1, hi as int) =~= out@ + operands_from(
            n,
            n[c as int].end as int,
            hi as int,
        ));
        c = tree.end_at(c);
    }
    assert(out@ =~= operands_from(n, i + 1, hi as int));
    out
}

/// Whether a node is a column reference, or a bracket or expression around
/// nothing else than one.
pub fn operand_is_column_reference(tree: &Tree, i: usize) -> (r: bool)
    requires
        tree.wf(),
        tree.holds(i),
    ensures
        r == is_column(tree@, i as int),
    decreases tree@[i as int].end - i,
{
    let k: Kind = tree.kind_at(i);
    if k == Kind::ColumnReference {
        return true;
    }
    if k == Kind::Bracketed || k == Kind::Expression {
        let inner = operands(tree, i);
        if inner.len() == 1 {
            let only: usize = inner[0];
            assert(i < only < tree@[i as int].end);
            assert(tree@[only as int].end <= tree@[i as int].end);
            return operand_is_column_reference(tree, only);
        }
    }
    false
}

/// Whether an `=` between two columns stands directly below a node.
fn equality_below(tree: &Tree, i: usize) -> (r: bool)
    requires
        tree.wf(),
        tree.holds(i),
    ensures
        r == level_equality(tree@, i as int),
{
    let ghost n = tree@;
    let code = tree.code_children(i);
    proof {
        lemma_siblings(n, i + 1, n[i as int].end as int);
    }
    if code.len() < 3 {
        return false;
    }
    let mut k: usize = 1;
    while k < code.len() - 1
        invariant
            tree.wf(),
            n == tree@,
            1 <= k <= code@.len() - 1,
            code@ == code_children(n, i as int),
            forall|j: int| 0 <= j < code@.len() ==> (#[trigger] code@[j]) < n.len(),
            forall|j: int| j < k ==> !equates_columns(n, code@, j),
        decreases code@.len() - k,
    {
        let c: usize = code[k];
        if tree.kind_at(c) == Kind::ComparisonOperator {
            let raw = trimmed(tree.raw_at(c));
            if is_text(&raw, "=") && operand_is_column_reference(tree, code[k - 1])
                && operand_is_column_reference(tree, code[k + 1]) {
                assert(equates_columns(n, code_children(n, i as int), k as int));
                return true;
            }
        }
        k = k + 1;
    }
    false
}

/// Whether an expression holds an `=` between two columns outside its nested
/// queries.
pub fn expression_has_column_equality(tree: &Tree, i: usize) -> (r: bool)
    requires
        tree.wf(),
        tree.holds(i),
    ensures
        r == column_equality(tree@, i as int),
{
    let ghost n = tree@;
    let p = Probe {
        set: KindSet::Any,
        deep: true,
        stop: KindSet::Only(Kind::SelectStatement),
        own: true,
    };
    let own = tree.crawl(i, p);
    proof {
        lemma_crawl(n, i as int, p);
    }
    let mut k: usize = 0;
    while k < own.len()
        invariant
            tree.wf(),
            n == tree@,
            k <= own@.len(),
            own@ == own_nodes(n, i as int),
            forall|j: int| 0 <= j < own@.len() ==> (#[trigger] own@[j]) < n.len(),
            forall|j: int| 0 <= j < k ==> !level_equality(n, #[trigger] own@[j] as int),
        decreases own@.len() - k,
    {
        if equality_below(tree, own[k]) {
            assert(level_equality(n, own_nodes(n, i as int)[k as int] as int));
            return true;
        }
        k = k + 1;
    }
    false
}

/// Whether a join's own condition equates two columns.
pub fn join_condition_has_equality(tree: &Tree, clause: usize, has_using: bool) -> (r: bool)
    requires
        tree.wf(),
        tree.holds(clause),
        has_using == has_keyword_child(tree@, clause as int, Word::Using),
    ensures
        r == joins_on_columns(tree@, clause as int),
{
    let ghost n = tree@;
    if has_using {
        return true;
    }
    let p = Probe {
        set: KindSet::Only(Kind::JoinOnCondition),
        deep: true,
        stop: KindSet::Only(Kind::JoinClause),
        own: false,
    };
    let conds = tree.crawl(clause, p);
    proof {
        lemma_crawl(n, clause as int, p);
    }
    let mut k: usize = 0;
    while k < conds.len()
        invariant
            tree.wf(),
            n == tree@,
            k <= conds@.len(),
            conds@ == own_conditions(n, clause as int),
            !has_keyword_child(n, clause as int, Word::Using),
            forall|j: int| 0 <= j < conds@.len() ==> (#[trigger] conds@[j]) < n.len(),
            forall|j: int| 0 <= j < k ==> !column_equality(n, #[trigger] conds@[j] as int),
        decreases conds@.len() - k,
    {
        if expression_has_column_equality(tree, conds[k]) {
            assert(column_equality(n, own_conditions(n, clause as int)[k as int] as int));
            return true;
        }
        k = k + 1;
    }
    false
}

/// What counts of one join clause.
pub fn classify_join(tree: &Tree, clause: usize) -> (r: JoinShape)
    requires
        tree.wf(),
        tree.holds(clause),
    ensures
        r == join_shape(tree@, clause as int),
{
    let words = lead_words(tree, clause);
    let kind = if has_word(&words, Word::Left) {
        JoinWord::Left
    } else if has_word(&words, Word::Right) {
        JoinWord::Right
    } else if has_word(&words, Word::Full) {
        JoinWord::Full
    } else if has_word(&words, Word::Cross) {
        JoinWord::Cross
    } else if has_word(&words, Word::Outer) {
        JoinWord::Left
    } else {
        JoinWord::Inner
    };
    let natural = has_word(&words, Word::Natural);
    let lateral = has_word(&words, Word::Lateral) || has_word(&words, Word::Apply);
    let has_using = keyword_child(tree, clause, Word::Using);
    let conds = tree.all_in(clause, KindSet::Only(Kind::JoinOnCondition));
    let condition = conds.len() > 0 || has_using;
    let cross = match kind {
        JoinWord::Cross => true,
        _ => false,
    };
    JoinShape {
        kind,
        natural,
        lateral,
        missing_condition: !condition && !cross && !natural && !lateral,
        non_equi: condition && !join_condition_has_equality(tree, clause, has_using),
    }
}

/// The join counts of a subtree.
pub fn extract_joins(tree: &Tree, root: usize) -> (r: JoinFacts)
    requires
        tree.wf(),
        tree.holds(root),
    ensures
        describes_joins(tree@, root as int, r),
        r.total <= MAX_NODES,
{
    let ghost n = tree@;
    let clauses = tree.all_in(root, KindSet::Only(Kind::JoinClause));
    proof {
        lemma_crawl(n, root as int, crate::tree::every(KindSet::Only(Kind::JoinClause)));
        lemma_take_all(clauses@);
    }
    let mut r = JoinFacts {
        inner: 0,
        left: 0,
        right: 0,
        full: 0,
        cross: 0,
        natural: 0,
        lateral: 0,
        missing_condition: 0,
        non_equi: 0,
        total: clauses.len() as u64,
    };
    let mut k: usize = 0;
    while k < clauses.len()
        invariant
            tree.wf(),
            n == tree@,
            k <= clauses@.len() <= MAX_NODES,
            forall|j: int| 0 <= j < clauses@.len() ==> (#[trigger] clauses@[j]) < n.len(),
            counts_joins(n, clauses@.take(k as int), r),
            r.total == clauses@.len(),
        decreases clauses@.len() - k,
    {
        proof {
            lemma_count_step(clauses@, k as int, of_join(n, JoinWord::Inner));
            lemma_count_step(clauses@, k as int, of_join(n, JoinWord::Left));
            lemma_count_step(clauses@, k as int, of_join(n, JoinWord::Right));
            lemma_count_step(clauses@, k as int, of_join(n, JoinWord::Full));
            lemma_count_step(clauses@, k as int, of_join(n, JoinWord::Cross));
            lemma_count_step(clauses@, k as int, natural_join(n));
            lemma_count_step(clauses@, k as int, lateral_join(n));
            lemma_count_step(clauses@, k as int, unconditional_join(n));
            lemma_count_step(clauses@, k as int, non_equi_join(n));
        }
        let shape = classify_join(tree, clauses[k]);
        match shape.kind {
            JoinWord::Left => {
                r.left = r.left + 1;
            },
            JoinWord::Right => {
                r.right = r.right + 1;
            },
            JoinWord::Full => {
                r.full = r.full + 1;
            },
            JoinWord::Cross => {
                r.cross = r.cross + 1;
            },
            JoinWord::Inner => {
                r.inner = r.inner + 1;
            },
        }
        if shape.natural {
            r.natural = r.natural + 1;
        }
        if shape.lateral {
            r.lateral = r.lateral + 1;
        }
        if shape.missing_condition {
            r.missing_condition = r.missing_condition + 1;
        }
        if shape.non_equi {
            r.non_equi = r.non_equi + 1;
        }
        k = k + 1;
    }
    r
}

/// Every join is of exactly one kind.
pub proof fn join_kinds_partition(n: Seq<Node>, root: int, r: JoinFacts)
    requires
        describes_joins(n, root, r),
    ensures
        r.inner + r.left + r.right + r.full + r.cross == r.total,
{
    lemma_kinds_partition(n, join_clauses(n, root));
}

proof fn lemma_kinds_partition(n: Seq<Node>, s: Seq<usize>)
    ensures
        count(s, of_join(n, JoinWord::Inner)) + count(s, of_join(n, JoinWord::Left)) + count(
            s,
            of_join(n, JoinWord::Right),
        ) + count(s, of_join(n, JoinWord::Full)) + count(s, of_join(n, JoinWord::Cross)) == s.len(),
    decreases s.len(),
{
    if s.len() > 0 {
        lemma_kinds_partition(n, s.drop_last());
    }
}

// ── what keywords say of a join ────────────────────────────────────────

/// Whether the leading keywords of a join clause satisfy `p`.
pub open spec fn led_by(n: Seq<Node>, p: spec_fn(Seq<Word>) -> bool) -> spec_fn(usize) -> bool {
    |c: usize| p(join_keywords(n, c as int))
}

/// Every join counts by its leading keywords: the first of `LEFT`, `RIGHT`,
/// `FULL` and `CROSS` that is among them, in this order, is its kind; one with
/// `OUTER` alone keeps the rows of its left side; any other is an inner join.
/// `NATURAL`, and `LATERAL` or `APPLY`, count on their own.
pub proof fn joins_go_by_their_keywords(n: Seq<Node>, root: int, r: JoinFacts)
    requires
        describes_joins(n, root, r),
    ensures
        ({
            let s = join_clauses(n, root);
            let right = |w: Seq<Word>| w.contains(Word::Right) && !w.contains(Word::Left);
            let full = |w: Seq<Word>|
                w.contains(Word::Full) && !w.contains(Word::Left) && !w.contains(Word::Right);
            let cross = |w: Seq<Word>|
                w.contains(Word::Cross) && !w.contains(Word::Left) && !w.contains(Word::Right)
                    && !w.contains(Word::Full);
            let left = |w: Seq<Word>|
                w.contains(Word::Left) || (w.contains(Word::Outer) && !w.contains(Word::Right)
                    && !w.contains(Word::Full) && !w.contains(Word::Cross));
            let inner = |w: Seq<Word>|
                !w.contains(Word::Left) && !w.contains(Word::Right) && !w.contains(Word::Full)
                    && !w.contains(Word::Cross) && !w.contains(Word::Outer);
            let natural = |w: Seq<Word>| w.contains(Word::Natural);
            let lateral = |w: Seq<Word>| w.contains(Word::Lateral) || w.contains(Word::Apply);
            &&& r.total == s.len()
            &&& r.right == count(s, led_by(n, right))
            &&& r.full == count(s, led_by(n, full))
            &&& r.cross == count(s, led_by(n, cross))
            &&& r.left == count(s, led_by(n, left))
            &&& r.inner == count(s, led_by(n, inner))
            &&& r.natural == count(s, led_by(n, natural))
            &&& r.lateral == count(s, led_by(n, lateral))
        }),
{
    let s = join_clauses(n, root);
    let right = |w: Seq<Word>| w.contains(Word::Right) && !w.contains(Word::Left);
    let full = |w: Seq<Word>|
        w.contains(Word::Full) && !w.contains(Word::Left) && !w.contains(Word::Right);
    let cross = |w: Seq<Word>|
        w.contains(Word::Cross) && !w.contains(Word::Left) && !w.contains(Word::Right)
            && !w.contains(Word::Full);
    let left = |w: Seq<Word>|
        w.contains(Word::Left) || (w.contains(Word::Outer) && !w.contains(Word::Right)
            && !w.contains(Word::Full) && !w.contains(Word::Cross));
    let inner = |w: Seq<Word>|
        !w.contains(Word::Left) && !w.contains(Word::Right) && !w.contains(Word::Full)
            && !w.contains(Word::Cross) && !w.contains(Word::Outer);
    let natural = |w: Seq<Word>| w.contains(Word::Natural);
    let lateral = |w: Seq<Word>| w.contains(Word::Lateral) || w.contains(Word::Apply);
    lemma_same_count(s, of_join(n, JoinWord::Right), led_by(n, right));
    lemma_same_count(s, of_join(n, JoinWord::Full), led_by(n, full));
    lemma_same_count(s, of_join(n, JoinWord::Cross), led_by(n, cross));
    lemma_same_count(s, of_join(n, JoinWord::Left), led_by(n, left));
    lemma_same_count(s, of_join(n, JoinWord::Inner), led_by(n, inner));
    lemma_same_count(s, natural_join(n), led_by(n, natural));
    lemma_same_count(s, lateral_join(n), led_by(n, lateral));
}

/// Whether a join clause says which rows match: by `ON` or by `USING`.
pub open spec fn states_condition(n: Seq<Node>, c: int) -> bool {
    ||| exists|j: int| c <= j < n[c].end && (#[trigger] n[j]).kind == Kind::JoinOnCondition
    ||| exists|k: int|
        0 <= k < children(n, c).len() && is_keyword(
            n,
            #[trigger] children(n, c)[k] as int,
            Word::Using,
        )
}

/// Whether a join clause needs no condition: `CROSS` without an outer side,
/// `NATURAL`, `LATERAL` or `APPLY`.
pub open spec fn needs_no_condition(w: Seq<Word>) -> bool {
    ||| w.contains(Word::Natural)
    ||| w.contains(Word::Lateral)
    ||| w.contains(Word::Apply)
    ||| w.contains(Word::Cross) && !w.contains(Word::Left) && !w.contains(Word::Right)
        && !w.contains(Word::Full)
}

/// The joins without a condition are those that state none and need one, and
/// only a join that states a condition can be one that equates no two columns.
pub proof fn conditions_are_missed_where_needed(n: Seq<Node>, root: int, r: JoinFacts)
    requires
        well_formed(n),
        0 <= root < n.len(),
        describes_joins(n, root, r),
    ensures
        r.missing_condition == count(
            join_clauses(n, root),
            |c: usize|
                !states_condition(n, c as int) && !needs_no_condition(join_keywords(n, c as int)),
        ),
        r.non_equi == count(
            join_clauses(n, root),
            |c: usize|
                states_condition(n, c as int) && !has_keyword_child(n, c as int, Word::Using)
                    && forall|k: int|
                    0 <= k < own_conditions(n, c as int).len() ==> !column_equality(
                        n,
                        #[trigger] own_conditions(n, c as int)[k] as int,
                    ),
        ),
{
    let s = join_clauses(n, root);
    lemma_crawl(n, root, every(KindSet::Only(Kind::JoinClause)));
    let missed = |c: usize|
        !states_condition(n, c as int) && !needs_no_condition(join_keywords(n, c as int));
    let loose = |c: usize|
        states_condition(n, c as int) && !has_keyword_child(n, c as int, Word::Using)
            && forall|k: int|
            0 <= k < own_conditions(n, c as int).len() ==> !column_equality(
                n,
                #[trigger] own_conditions(n, c as int)[k] as int,
            );
    assert forall|i: int| 0 <= i < s.len() implies unconditional_join(n)(#[trigger] s[i]) == missed(
        s[i],
    ) && non_equi_join(n)(s[i]) == loose(s[i]) by {
        let c = s[i] as int;
        lemma_some_in(n, c, Kind::JoinOnCondition);
    }
    lemma_same_count(s, unconditional_join(n), missed);
    lemma_same_count(s, non_equi_join(n), loose);
}

/// A subtree reports a kind exactly when it has a node of it.
pub proof fn lemma_some_in(n: Seq<Node>, c: int, k: Kind)
    requires
        well_formed(n),
        0 <= c < n.len(),
        k != Kind::ObjectReference,
    ensures
        all_in(n, c, KindSet::Only(k)).len() > 0 <==> exists|j: int|
            c <= j < n[c].end && (#[trigger] n[j]).kind == k,
{
    let p = every(KindSet::Only(k));
    lemma_crawl(n, c, p);
    if all_in(n, c, KindSet::Only(k)).len() > 0 {
        let j = all_in(n, c, KindSet::Only(k))[0] as int;
        assert(n[j].kind == k);
    }
    if exists|j: int| c <= j < n[c].end && (#[trigger] n[j]).kind == k {
        let j = choose|j: int| c <= j < n[c].end && (#[trigger] n[j]).kind == k;
        lemma_found(n, c, p, n[c].end as int, j);
    }
}

proof fn lemma_found(n: Seq<Node>, root: int, p: Probe, hi: int, j: int)
    requires
        p.deep,
        p.stop == KindSet::Empty,
        root <= j < hi,
        matched(n, root, p, j),
    ensures
        reported(n, root, p, hi).len() > 0,
    decreases hi - j,
{
    assert(open_to(n, root, p, j));
    if hi - 1 > j {
        lemma_found(n, root, p, hi - 1, j);
    }
}

/// The keywords that lead a clause are those of its children before the first
/// child that is neither a keyword nor white space nor without source text.
pub proof fn leading_keywords_come_first(n: Seq<Node>, c: int, hi: int, w: Word)
    requires
        well_formed(n),
        0 <= c,
        hi <= n.len(),
    ensures
        leading_keywords(n, c, hi).contains(w) <==> exists|k: int|
            leads_with(n, siblings(n, c, hi), k, w),
    decreases hi - c,
{
    let s = siblings(n, c, hi);
    if 0 <= c < hi && n[c].end <= hi {
        let d = n[c].end as int;
        let t = siblings(n, d, hi);
        leading_keywords_come_first(n, d, hi, w);
        assert(s =~= seq![c as usize] + t);
        let words = leading_keywords(n, c, hi);
        let rest = leading_keywords(n, d, hi);
        if n[c].kind == Kind::Keyword {
            assert(words =~= seq![raw_word(n, c)] + rest);
            if words.contains(w) {
                if raw_word(n, c) == w {
                    assert(leads_with(n, s, 0, w));
                } else {
                    let i = choose|i: int| 0 <= i < words.len() && words[i] == w;
                    assert(rest[i - 1] == w);
                    let k = choose|k: int| leads_with(n, t, k, w);
                    lemma_leads_later(n, c, s, t, k, w);
                }
            }
            if exists|k: int| leads_with(n, s, k, w) {
                let k = choose|k: int| leads_with(n, s, k, w);
                if k == 0 {
                    assert(words[0] == w);
                } else {
                    lemma_leads_sooner(n, s, t, k, w);
                    let i = choose|i: int| 0 <= i < rest.len() && rest[i] == w;
                    assert(words[i + 1] == w);
                }
            }
        } else if passes(n[c].kind) {
            if words.contains(w) {
                let k = choose|k: int| leads_with(n, t, k, w);
                lemma_leads_later(n, c, s, t, k, w);
            }
            if exists|k: int| leads_with(n, s, k, w) {
                let k = choose|k: int| leads_with(n, s, k, w);
                lemma_leads_sooner(n, s, t, k, w);
            }
        } else {
            if exists|k: int| leads_with(n, s, k, w) {
                let k = choose|k: int| leads_with(n, s, k, w);
                assert(passes(n[s[0] as int].kind));
            }
        }
    }
}

/// Whether a child can stand among leading keywords: a keyword, white space, or
/// a node without source text.
pub open spec fn passes(k: Kind) -> bool {
    ||| k == Kind::Keyword
    ||| k == Kind::Whitespace
    ||| k == Kind::Newline
    ||| KindSet::Metas.holds(k)
}

/// Whether the sibling at place `k` is a keyword with nothing but keywords and
/// spaces before it.
pub open spec fn leads_with(n: Seq<Node>, s: Seq<usize>, k: int, w: Word) -> bool {
    &&& 0 <= k < s.len()
    &&& is_keyword(n, s[k] as int, w)
    &&& forall|i: int| 0 <= i <= k ==> passes(n[#[trigger] s[i] as int].kind)
}

proof fn lemma_leads_later(n: Seq<Node>, c: int, s: Seq<usize>, t: Seq<usize>, k: int, w: Word)
    requires
        s == seq![c as usize] + t,
        0 <= c <= usize::MAX,
        passes(n[c].kind),
        leads_with(n, t, k, w),
    ensures
        leads_with(n, s, k + 1, w),
{
    assert(s[k + 1] == t[k]);
    assert forall|i: int| 0 <= i <= k + 1 implies passes(n[#[trigger] s[i] as int].kind) by {
        if i > 0 {
            assert(s[i] == t[i - 1]);
        }
    }
}

proof fn lemma_leads_sooner(n: Seq<Node>, s: Seq<usize>, t: Seq<usize>, k: int, w: Word)
    requires
        s.len() == t.len() + 1,
        forall|i: int| 0 <= i < t.len() ==> s[i + 1] == #[trigger] t[i],
        leads_with(n, s, k, w),
        k > 0,
    ensures
        leads_with(n, t, k - 1, w),
{
    assert(t[k - 1] == s[k]);
    assert forall|i: int| 0 <= i <= k - 1 implies passes(n[#[trigger] t[i] as int].kind) by {
        assert(t[i] == s[i + 1]);
    }
}

} // verus!
