//! Predicates: boolean operators and their nesting, negations, comparisons,
//! and comparisons that `NULL` makes treacherous.

use vstd::prelude::*;

use crate::kind::{Kind, KindSet};
use crate::measure::{count_anywhere, deepest, deepest_nest};
use crate::subqueries::{is_query_test, tests_query};
use crate::text::{is_text, trim, trimmed};
use crate::tree::{
    all_in, code_children, count, crawl, every, is_keyword, kept, lemma_count_step, lemma_crawl,
    lemma_kept, lemma_kept_step, lemma_peak_step, lemma_siblings, lemma_take_all, peak, raw_word,
    Node, Probe, Tree, MAX_NODES,
};
use crate::word::Word;

verus! {

/// Predicates and boolean logic.
pub struct PredicateFacts {
    pub boolean_operator_count: u64,
    pub max_boolean_depth: u64,
    pub not_count: u64,
    /// The byte ranges of the counted `NOT` tokens.
    pub not_spans: Vec<(u32, u32)>,
    /// Comparison operators, and the predicates `IN`, `LIKE` and `BETWEEN`.
    pub comparison_count: u64,
    /// `NOT IN`, and comparisons with a `NULL` literal.
    pub null_semantics_risk_count: u64,
}

// ── boolean operators ──────────────────────────────────────────────────

/// Whether an operator is `AND` or `OR`.
pub open spec fn is_boolean(n: Seq<Node>, i: int) -> bool {
    raw_word(n, i) == Word::And || raw_word(n, i) == Word::Or
}

pub open spec fn boolean_operator(n: Seq<Node>) -> spec_fn(usize) -> bool {
    |i: usize| is_boolean(n, i as int)
}

/// The number of boolean operators in a subtree.
pub open spec fn boolean_operators(n: Seq<Node>, i: int) -> int {
    count(all_in(n, i, KindSet::Only(Kind::BinaryOperator)), boolean_operator(n))
}

pub open spec fn holds_boolean(n: Seq<Node>) -> spec_fn(usize) -> bool {
    |i: usize| boolean_operators(n, i as int) > 0
}

/// The bracketed groups of a subtree that hold boolean operators.
pub open spec fn boolean_groups(n: Seq<Node>, i: int) -> Seq<usize> {
    kept(all_in(n, i, KindSet::Only(Kind::Bracketed)), holds_boolean(n))
}

/// The operators of a subtree outside every bracketed group.
pub open spec fn bare_operators(n: Seq<Node>, i: int) -> Seq<usize> {
    crawl(
        n,
        i,
        Probe {
            set: KindSet::Only(Kind::BinaryOperator),
            deep: true,
            stop: KindSet::Only(Kind::Bracketed),
            own: false,
        },
    )
}

/// The nesting of boolean expressions in a clause: one level for the clause
/// and one for each boolean group inside another. A group around all of the
/// boolean operators adds no level.
pub open spec fn boolean_depth(n: Seq<Node>) -> spec_fn(usize) -> int {
    |i: usize|
        if boolean_operators(n, i as int) == 0 {
            0
        } else {
            1 + deepest(n, boolean_groups(n, i as int)) - if count(
                bare_operators(n, i as int),
                boolean_operator(n),
            ) > 0 {
                0int
            } else {
                1int
            }
        }
}

// ── negations ──────────────────────────────────────────────────────────

/// Whether a node lies below `root` in a node of the set.
pub open spec fn below(n: Seq<Node>, root: int, p: int, set: KindSet) -> bool {
    exists|a: int| root < a <= p && p < (#[trigger] n[a]).end && set.holds(n[a].kind)
}

/// The text of the sibling at place `k`, `Absent` where there is none.
pub open spec fn sibling_word(n: Seq<Node>, code: Seq<usize>, k: int) -> Word {
    if 0 <= k < code.len() {
        raw_word(n, code[k] as int)
    } else {
        Word::Absent
    }
}

/// Whether the child at place `k` of the node at `p` is a `NOT` that negates
/// a predicate: no column constraint and no guard of a definition.
pub open spec fn negates(n: Seq<Node>, root: int, p: int, k: int) -> bool {
    let code = code_children(n, p);
    let prev = sibling_word(n, code, k - 1);
    let next = sibling_word(n, code, k + 1);
    &&& is_keyword(n, code[k] as int, Word::Not)
    &&& !(next == Word::Null && prev != Word::Is && below(n, root, p, KindSet::Constraints))
    &&& !(next == Word::Exists && prev == Word::If && below(n, root, p, KindSet::GuardedDdl))
    &&& n[code[k] as int].span is Some
}

/// The ranges of the negations among the first `k` children of a node.
pub open spec fn nots_at(n: Seq<Node>, root: int, p: int, k: int) -> Seq<(u32, u32)>
    decreases k,
{
    if k <= 0 {
        Seq::empty()
    } else if negates(n, root, p, k - 1) {
        nots_at(n, root, p, k - 1).push(n[code_children(n, p)[k - 1] as int].span->0)
    } else {
        nots_at(n, root, p, k - 1)
    }
}

/// The ranges of the negations below the nodes `root..hi`, node by node.
pub open spec fn nots_in(n: Seq<Node>, root: int, hi: int) -> Seq<(u32, u32)>
    decreases hi - root,
{
    if hi <= root {
        Seq::empty()
    } else {
        nots_in(n, root, hi - 1) + nots_at(
            n,
            root,
            hi - 1,
            code_children(n, hi - 1).len() as int,
        )
    }
}

/// The ranges of the negations in a subtree.
pub open spec fn predicate_nots(n: Seq<Node>, root: int) -> Seq<(u32, u32)> {
    nots_in(n, root, n[root].end as int)
}

// ── NULL semantics ─────────────────────────────────────────────────────

/// Whether the child at place `k` is a `NULL` literal.
pub open spec fn null_at(n: Seq<Node>, code: Seq<usize>, k: int) -> bool {
    0 <= k < code.len() && n[code[k] as int].kind == Kind::NullLiteral
}

/// Whether an operator compares for equality or inequality.
pub open spec fn is_equality(raw: Seq<char>) -> bool {
    trim(raw) == "="@ || trim(raw) == "<>"@ || trim(raw) == "!="@
}

/// Whether the child at place `k` compares with `NULL` or starts a `NOT IN`.
pub open spec fn risks_null(n: Seq<Node>, code: Seq<usize>, k: int) -> bool {
    let c = code[k] as int;
    ||| n[c].kind == Kind::ComparisonOperator && is_equality(n[c].raw) && (null_at(n, code, k - 1)
        || null_at(n, code, k + 1))
    ||| is_keyword(n, c, Word::Not) && k + 1 < code.len() && is_keyword(
        n,
        code[k + 1] as int,
        Word::In,
    )
}

/// The risks among the first `k` children.
pub open spec fn null_risks_at(n: Seq<Node>, code: Seq<usize>, k: int) -> int
    decreases k,
{
    if k <= 0 {
        0
    } else {
        null_risks_at(n, code, k - 1) + if risks_null(n, code, k - 1) {
            1int
        } else {
            0int
        }
    }
}

/// The risks below the nodes `root..hi`.
pub open spec fn null_risks_in(n: Seq<Node>, root: int, hi: int) -> int
    decreases hi - root,
{
    if hi <= root {
        0
    } else {
        null_risks_in(n, root, hi - 1) + null_risks_at(
            n,
            code_children(n, hi - 1),
            code_children(n, hi - 1).len() as int,
        )
    }
}

// ── comparisons ────────────────────────────────────────────────────────

/// Whether a keyword compares: `IN`, `LIKE` or `BETWEEN`.
pub open spec fn is_test_word(w: Word) -> bool {
    w == Word::In || w == Word::Like || w == Word::Between
}

/// Whether the child at place `k` of an expression is the keyword of a
/// predicate. `IN` before a query is a subquery's and not counted here.
pub open spec fn tests_at(n: Seq<Node>, code: Seq<usize>, k: int) -> bool {
    &&& n[code[k] as int].kind == Kind::Keyword
    &&& is_test_word(raw_word(n, code[k] as int))
    &&& !tests_query(n, code, k, Word::In)
}

/// The predicates with a keyword among the first `k` children of an expression.
pub open spec fn keyword_tests_at(n: Seq<Node>, code: Seq<usize>, k: int) -> int
    decreases k,
{
    if k <= 0 {
        0
    } else {
        keyword_tests_at(n, code, k - 1) + if tests_at(n, code, k - 1) {
            1int
        } else {
            0int
        }
    }
}

/// The predicates with a keyword in the expressions among the nodes `root..hi`.
pub open spec fn keyword_tests_in(n: Seq<Node>, root: int, hi: int) -> int
    decreases hi - root,
{
    if hi <= root {
        0
    } else {
        keyword_tests_in(n, root, hi - 1) + if n[hi - 1].kind == Kind::Expression {
            keyword_tests_at(n, code_children(n, hi - 1), code_children(n, hi - 1).len() as int)
        } else {
            0
        }
    }
}

/// Whether predicate facts are those of a subtree.
pub open spec fn describes_predicates(n: Seq<Node>, root: int, r: PredicateFacts) -> bool {
    &&& r.boolean_operator_count == boolean_operators(n, root)
    &&& r.max_boolean_depth == peak(all_in(n, root, KindSet::Conditions), boolean_depth(n))
    &&& r.not_spans@ == predicate_nots(n, root)
    &&& r.not_count == predicate_nots(n, root).len()
    &&& r.comparison_count == all_in(n, root, KindSet::Only(Kind::ComparisonOperator)).len()
        + keyword_tests_in(n, root, n[root].end as int)
    &&& r.null_semantics_risk_count == null_risks_in(n, root, n[root].end as int)
}

// ── execution ──────────────────────────────────────────────────────────

/// How many of the listed operators are boolean.
fn count_boolean(tree: &Tree, s: &Vec<usize>) -> (r: u64)
    requires
        tree.wf(),
        s@.len() <= MAX_NODES,
        forall|k: int| 0 <= k < s@.len() ==> (#[trigger] s@[k]) < tree@.len(),
    ensures
        r == count(s@, boolean_operator(tree@)),
        r <= s@.len(),
{
    let ghost n = tree@;
    proof {
        lemma_take_all(s@);
    }
    let mut found: u64 = 0;
    let mut k: usize = 0;
    while k < s.len()
        invariant
            n == tree@,
            k <= s@.len() <= MAX_NODES,
            forall|l: int| 0 <= l < s@.len() ==> (#[trigger] s@[l]) < n.len(),
            found == count(s@.take(k as int), boolean_operator(n)),
            found <= k,
        decreases s@.len() - k,
    {
        proof {
            lemma_count_step(s@, k as int, boolean_operator(n));
        }
        let w: Word = tree.word(s[k]);
        if w == Word::And || w == Word::Or {
            found = found + 1;
        }
        k = k + 1;
    }
    found
}

/// The number of boolean operators in a subtree.
fn operators_in(tree: &Tree, i: usize) -> (r: u64)
    requires
        tree.wf(),
        tree.holds(i),
    ensures
        r == boolean_operators(tree@, i as int),
        r <= MAX_NODES,
{
    let ops = tree.all_in(i, KindSet::Only(Kind::BinaryOperator));
    proof {
        lemma_crawl(tree@, i as int, every(KindSet::Only(Kind::BinaryOperator)));
    }
    count_boolean(tree, &ops)
}

/// The nesting of boolean expressions in a clause.
fn boolean_nesting(tree: &Tree, i: usize) -> (r: u64)
    requires
        tree.wf(),
        tree.holds(i),
    ensures
        r == boolean_depth(tree@)(i),
        r <= MAX_NODES + 1,
{
    let ghost n = tree@;
    if operators_in(tree, i) == 0 {
        return 0;
    }
    let groups = tree.all_in(i, KindSet::Only(Kind::Bracketed));
    proof {
        lemma_crawl(n, i as int, every(KindSet::Only(Kind::Bracketed)));
        lemma_take_all(groups@);
    }
    let mut own: Vec<usize> = Vec::new();
    let mut k: usize = 0;
    while k < groups.len()
        invariant
            tree.wf(),
            n == tree@,
            k <= groups@.len() <= MAX_NODES,
            forall|l: int| 0 <= l < groups@.len() ==> (#[trigger] groups@[l]) < n.len(),
            own@ == kept(groups@.take(k as int), holds_boolean(n)),
        decreases groups@.len() - k,
    {
        proof {
            lemma_kept_step(groups@, k as int, holds_boolean(n));
        }
        if operators_in(tree, groups[k]) > 0 {
            own.push(groups[k]);
        }
        k = k + 1;
    }
    let p = Probe {
        set: KindSet::Only(Kind::BinaryOperator),
        deep: true,
        stop: KindSet::Only(Kind::Bracketed),
        own: false,
    };
    let bare = tree.crawl(i, p);
    proof {
        lemma_kept(groups@, holds_boolean(n));
        assert forall|l: int| 0 <= l < own@.len() implies (#[trigger] own@[l]) < n.len() by {
            assert(groups@.contains(own@[l]));
        }
        lemma_crawl(n, i as int, p);
    }
    let depth: u64 = deepest_nest(tree, &own);
    if count_boolean(tree, &bare) > 0 {
        1 + depth
    } else {
        depth
    }
}

/// Whether a node lies below `root` in a node of the set.
fn lies_below(tree: &Tree, root: usize, p: usize, set: KindSet) -> (r: bool)
    requires
        tree.wf(),
        root <= p < tree@.len(),
    ensures
        r == below(tree@, root as int, p as int, set),
{
    let ghost n = tree@;
    let mut a: usize = root + 1;
    while a <= p
        invariant
            tree.wf(),
            n == tree@,
            root < a <= n.len(),
            p < n.len(),
            forall|b: int| root < b < a && b <= p && p < (#[trigger] n[b]).end ==> !set.holds(
                n[b].kind,
            ),
        decreases n.len() - a,
    {
        if p < tree.end_at(a) {
            if set.has(tree.kind_at(a)) {
                assert(p < n[a as int].end);
                return true;
            }
            a = a + 1;
        } else {
            let e: usize = tree.end_at(a);
            proof {
                assert forall|b: int|
                    root < b < e && b <= p && p < (#[trigger] n[b]).end implies !set.holds(
                    n[b].kind,
                ) by {
                    if b >= a {
                        assert(n[b].end <= n[a as int].end || b == a);
                    }
                }
            }
            a = e;
        }
    }
    false
}

/// The text of the sibling at place `k`.
fn word_in(tree: &Tree, code: &Vec<usize>, k: usize) -> (r: Word)
    requires
        tree.wf(),
        forall|l: int| 0 <= l < code@.len() ==> (#[trigger] code@[l]) < tree@.len(),
    ensures
        r == sibling_word(tree@, code@, k as int),
{
    if k < code.len() {
        tree.word(code[k])
    } else {
        Word::Absent
    }
}

/// Whether the child at place `k` of the node at `p` negates a predicate.
fn is_negation(tree: &Tree, root: usize, p: usize, code: &Vec<usize>, k: usize) -> (r: bool)
    requires
        tree.wf(),
        root <= p < tree@.len(),
        code@ == code_children(tree@, p as int),
        k < code@.len() <= MAX_NODES,
        forall|l: int| 0 <= l < code@.len() ==> (#[trigger] code@[l]) < tree@.len(),
    ensures
        r == negates(tree@, root as int, p as int, k as int),
{
    let c: usize = code[k];
    if !tree.keyword(c, Word::Not) || tree.span_at(c).is_none() {
        return false;
    }
    let next: Word = word_in(tree, code, k + 1);
    let prev: Word = if k == 0 {
        Word::Absent
    } else {
        word_in(tree, code, k - 1)
    };
    if next == Word::Null && prev != Word::Is && lies_below(tree, root, p, KindSet::Constraints) {
        return false;
    }
    if next == Word::Exists && prev == Word::If && lies_below(tree, root, p, KindSet::GuardedDdl) {
        return false;
    }
    true
}

/// The ranges of the negations in a subtree.
pub fn collect_predicate_nots(tree: &Tree, root: usize) -> (r: Vec<(u32, u32)>)
    requires
        tree.wf(),
        tree.holds(root),
    ensures
        r@ == predicate_nots(tree@, root as int),
        r@.len() <= 0xffff_ffff_0000_0000,
{
    let ghost n = tree@;
    let hi: usize = tree.end_at(root);
    let mut out: Vec<(u32, u32)> = Vec::new();
    let mut p: usize = root;
    while p < hi
        invariant
            tree.wf(),
            n == tree@,
            root <= p <= hi <= n.len(),
            out@ == nots_in(n, root as int, p as int),
            out@.len() <= (p - root) * MAX_NODES,
        decreases hi - p,
    {
        let code = tree.code_children(p);
        proof {
            lemma_siblings(n, p + 1, n[p as int].end as int);
        }
        let ghost before = out@;
        let mut k: usize = 0;
        assert(out@ =~= before + nots_at(n, root as int, p as int, 0));
        while k < code.len()
            invariant
                tree.wf(),
                n == tree@,
                root <= p < n.len(),
                k <= code@.len() <= MAX_NODES,
                code@ == code_children(n, p as int),
                forall|l: int| 0 <= l < code@.len() ==> (#[trigger] code@[l]) < n.len(),
                out@ == before + nots_at(n, root as int, p as int, k as int),
                out@.len() <= before.len() + k,
            decreases code@.len() - k,
        {
            if is_negation(tree, root, p, &code, k) {
                match tree.span_at(code[k]) {
                    Some(range) => {
                        out.push(range);
                    },
                    None => {},
                }
            }
            k = k + 1;
            assert(out@ =~= before + nots_at(n, root as int, p as int, k as int));
        }
        p = p + 1;
    }
    out
}

/// Whether the child at place `k` is a `NULL` literal.
fn is_null(tree: &Tree, code: &Vec<usize>, k: usize) -> (r: bool)
    requires
        tree.wf(),
        forall|l: int| 0 <= l < code@.len() ==> (#[trigger] code@[l]) < tree@.len(),
    ensures
        r == null_at(tree@, code@, k as int),
{
    k < code.len() && tree.kind_at(code[k]) == Kind::NullLiteral
}

/// Whether the child at place `k` compares with `NULL` or starts a `NOT IN`.
fn is_null_risk(tree: &Tree, code: &Vec<usize>, k: usize) -> (r: bool)
    requires
        tree.wf(),
        k < code@.len() <= MAX_NODES,
        forall|l: int| 0 <= l < code@.len() ==> (#[trigger] code@[l]) < tree@.len(),
    ensures
        r == risks_null(tree@, code@, k as int),
{
    let c: usize = code[k];
    if tree.kind_at(c) == Kind::ComparisonOperator {
        let raw = trimmed(tree.raw_at(c));
        let equality = is_text(&raw, "=") || is_text(&raw, "<>") || is_text(&raw, "!=");
        let left = k > 0 && is_null(tree, code, k - 1);
        return equality && (left || is_null(tree, code, k + 1));
    }
    tree.keyword(c, Word::Not) && k + 1 < code.len() && tree.keyword(code[k + 1], Word::In)
}

/// Count the comparisons with `NULL` and the `NOT IN` predicates.
pub fn count_null_semantics_risk(tree: &Tree, root: usize) -> (r: u64)
    requires
        tree.wf(),
        tree.holds(root),
    ensures
        r == null_risks_in(tree@, root as int, tree@[root as int].end as int),
{
    let ghost n = tree@;
    let hi: usize = tree.end_at(root);
    let mut total: u64 = 0;
    let mut p: usize = root;
    while p < hi
        invariant
            tree.wf(),
            n == tree@,
            root <= p <= hi <= n.len() <= MAX_NODES,
            total == null_risks_in(n, root as int, p as int),
            total <= (p - root) * MAX_NODES,
        decreases hi - p,
    {
        let code = tree.code_children(p);
        proof {
            lemma_siblings(n, p + 1, n[p as int].end as int);
        }
        let ghost before = total;
        let mut k: usize = 0;
        while k < code.len()
            invariant
                tree.wf(),
                n == tree@,
                k <= code@.len() <= MAX_NODES,
                forall|l: int| 0 <= l < code@.len() ==> (#[trigger] code@[l]) < n.len(),
                before <= 0xffff_ffff_0000_0000,
                total == before + null_risks_at(n, code@, k as int),
                total <= before + k,
            decreases code@.len() - k,
        {
            if is_null_risk(tree, &code, k) {
                total = total + 1;
            }
            k = k + 1;
        }
        p = p + 1;
    }
    total
}

/// Whether the child at place `k` of an expression is the keyword of a
/// predicate.
fn is_keyword_test(tree: &Tree, code: &Vec<usize>, k: usize) -> (r: bool)
    requires
        tree.wf(),
        k < code@.len() <= MAX_NODES,
        forall|l: int| 0 <= l < code@.len() ==> (#[trigger] code@[l]) < tree@.len(),
    ensures
        r == tests_at(tree@, code@, k as int),
{
    if tree.kind_at(code[k]) != Kind::Keyword {
        return false;
    }
    let w: Word = tree.word(code[k]);
    let test = w == Word::In || w == Word::Like || w == Word::Between;
    test && !is_query_test(tree, code, k, Word::In)
}

/// Count the predicates `IN`, `LIKE` and `BETWEEN`.
fn count_keyword_tests(tree: &Tree, root: usize) -> (r: u64)
    requires
        tree.wf(),
        tree.holds(root),
    ensures
        r == keyword_tests_in(tree@, root as int, tree@[root as int].end as int),
        r <= 0xffff_ffff_0000_0000,
{
    let ghost n = tree@;
    let hi: usize = tree.end_at(root);
    let mut total: u64 = 0;
    let mut p: usize = root;
    while p < hi
        invariant
            tree.wf(),
            n == tree@,
            root <= p <= hi <= n.len() <= MAX_NODES,
            total == keyword_tests_in(n, root as int, p as int),
            total <= (p - root) * MAX_NODES,
        decreases hi - p,
    {
        if tree.kind_at(p) == Kind::Expression {
            let code = tree.code_children(p);
            proof {
                lemma_siblings(n, p + 1, n[p as int].end as int);
            }
            let ghost before = total;
            let mut k: usize = 0;
            while k < code.len()
                invariant
                    tree.wf(),
                    n == tree@,
                    k <= code@.len() <= MAX_NODES,
                    forall|l: int| 0 <= l < code@.len() ==> (#[trigger] code@[l]) < n.len(),
                    before <= 0xffff_ffff_0000_0000,
                    total == before + keyword_tests_at(n, code@, k as int),
                    total <= before + k,
                decreases code@.len() - k,
            {
                if is_keyword_test(tree, &code, k) {
                    total = total + 1;
                }
                k = k + 1;
            }
        }
        p = p + 1;
    }
    total
}

/// The predicate facts of a subtree.
pub fn extract_predicates(tree: &Tree, root: usize) -> (r: PredicateFacts)
    requires
        tree.wf(),
        tree.holds(root),
    ensures
        describes_predicates(tree@, root as int, r),
        r.boolean_operator_count <= MAX_NODES,
        r.max_boolean_depth <= MAX_NODES + 1,
{
    let ghost n = tree@;
    let parents = tree.all_in(root, KindSet::Conditions);
    proof {
        lemma_crawl(n, root as int, every(KindSet::Conditions));
        lemma_take_all(parents@);
    }
    let mut depth: u64 = 0;
    let mut k: usize = 0;
    while k < parents.len()
        invariant
            tree.wf(),
            n == tree@,
            k <= parents@.len() <= MAX_NODES,
            forall|l: int| 0 <= l < parents@.len() ==> (#[trigger] parents@[l]) < n.len(),
            depth == peak(parents@.take(k as int), boolean_depth(n)),
            depth <= MAX_NODES + 1,
        decreases parents@.len() - k,
    {
        proof {
            lemma_peak_step(parents@, k as int, boolean_depth(n));
        }
        let here: u64 = boolean_nesting(tree, parents[k]);
        if here > depth {
            depth = here;
        }
        k = k + 1;
    }
    let spans = collect_predicate_nots(tree, root);
    let nots: u64 = spans.len() as u64;
    PredicateFacts {
        boolean_operator_count: operators_in(tree, root),
        max_boolean_depth: depth,
        not_count: nots,
        not_spans: spans,
        comparison_count: count_anywhere(tree, root, Kind::ComparisonOperator)
            + count_keyword_tests(tree, root),
        null_semantics_risk_count: count_null_semantics_risk(tree, root),
    }
}

} // verus!
