//! Identifiers: normal forms, qualifiers, and sets of distinct names.

use vstd::prelude::*;

use crate::kind::{Kind, KindSet};
use crate::text::{same, slice_of, to_upper, trim, trimmed, upper};
use crate::tree::{all_in, crawl, every, lemma_crawl, Node, Probe, Tree, MAX_NODES};

verus! {

// ── sets of texts ──────────────────────────────────────────────────────

/// The texts of a list.
pub open spec fn texts(v: Seq<Vec<char>>) -> Seq<Seq<char>> {
    Seq::new(v.len(), |i: int| v[i]@)
}

/// Whether a list holds a text.
pub fn holds_text(v: &Vec<Vec<char>>, x: &Vec<char>) -> (r: bool)
    ensures
        r == texts(v@).contains(x@),
{
    let mut i: usize = 0;
    while i < v.len()
        invariant
            i <= v@.len(),
            forall|j: int| 0 <= j < i ==> texts(v@)[j] != x@,
        decreases v@.len() - i,
    {
        if same(&v[i], x) {
            assert(texts(v@)[i as int] == x@);
            return true;
        }
        i = i + 1;
    }
    false
}

/// Add a text to a list of distinct texts.
pub fn add_distinct(v: &mut Vec<Vec<char>>, x: Vec<char>)
    requires
        texts(old(v)@).no_duplicates(),
    ensures
        texts(final(v)@).no_duplicates(),
        texts(final(v)@).to_set() == texts(old(v)@).to_set().insert(x@),
        final(v)@.len() <= old(v)@.len() + 1,
        old(v)@.len() <= final(v)@.len(),
{
    let ghost was = texts(v@);
    if holds_text(v, &x) {
        assert(was.to_set() =~= was.to_set().insert(x@));
    } else {
        let ghost text = x@;
        v.push(x);
        proof {
            assert(texts(v@) =~= was.push(text));
            assert(was.push(text).to_set() =~= was.to_set().insert(text)) by {
                assert forall|y: Seq<char>| was.push(text).to_set().contains(y)
                    == was.to_set().insert(text).contains(y) by {
                    if was.contains(y) {
                        let j = choose|j: int| 0 <= j < was.len() && was[j] == y;
                        assert(was.push(text)[j] == y);
                    }
                    if y == text {
                        assert(was.push(text)[was.len() as int] == y);
                    }
                }
            }
        }
    }
}

/// A list of distinct texts is as long as its set is large.
pub proof fn lemma_distinct(v: Seq<Vec<char>>)
    requires
        texts(v).no_duplicates(),
    ensures
        texts(v).to_set().len() == v.len(),
        texts(v).to_set().finite(),
{
    texts(v).unique_seq_to_set();
}

// ── identifiers ────────────────────────────────────────────────────────

/// An identifier without the space and the quotes around it.
pub open spec fn normalized(raw: Seq<char>) -> Seq<char> {
    let t = trim(raw);
    if t.len() >= 2 && ((t[0] == '"' && t.last() == '"') || (t[0] == '`' && t.last() == '`') || (
    t[0] == '[' && t.last() == ']')) {
        t.subrange(1, t.len() - 1)
    } else {
        t
    }
}

/// An identifier without the space and the quotes around it.
pub fn normalize_identifier(raw: &Vec<char>) -> (r: Vec<char>)
    ensures
        r@ == normalized(raw@),
{
    let t = trimmed(raw);
    let k: usize = t.len();
    if k >= 2 {
        let first: char = t[0];
        let last: char = t[k - 1];
        if (first == '"' && last == '"') || (first == '`' && last == '`') || (first == '[' && last
            == ']') {
            return slice_of(&t, 1, k - 1);
        }
    }
    t
}

/// The identifiers of a subtree.
pub open spec fn identifiers(n: Seq<Node>, i: int) -> Seq<usize> {
    all_in(n, i, KindSet::Identifiers)
}

/// Whether a text holds a dot.
pub open spec fn dotted(s: Seq<char>) -> bool {
    s.contains('.')
}

/// The relation that qualifies a column reference: the identifier before the
/// column's own.
pub open spec fn column_qualifier(n: Seq<Node>, col: int) -> Option<Seq<char>> {
    let ids = identifiers(n, col);
    if dotted(n[col].raw) && ids.len() >= 2 {
        Some(normalized(n[ids[ids.len() - 2] as int].raw))
    } else {
        None
    }
}

/// The last identifier of a reference, or the reference as a whole.
pub open spec fn last_identifier(n: Seq<Node>, i: int) -> Seq<char> {
    let ids = identifiers(n, i);
    if ids.len() > 0 {
        normalized(n[ids.last() as int].raw)
    } else {
        normalized(n[i].raw)
    }
}

/// What a crawl finds without entering a nested query.
pub open spec fn own_level(n: Seq<Node>, i: int, set: KindSet) -> Seq<usize> {
    crawl(
        n,
        i,
        Probe { set, deep: true, stop: KindSet::Only(Kind::SelectStatement), own: true },
    )
}

/// Whether a table reference of a `FROM` element has the given upper-cased
/// name.
pub open spec fn refers_to(n: Seq<Node>, elem: int, up: Seq<char>) -> bool {
    exists|k: int|
        0 <= k < own_level(n, elem, KindSet::TableReferences).len() && upper(
            last_identifier(n, #[trigger] own_level(n, elem, KindSet::TableReferences)[k] as int),
        ) == up
}

/// Whether an alias of a `FROM` element has the given upper-cased name.
pub open spec fn aliased_as(n: Seq<Node>, elem: int, up: Seq<char>) -> bool {
    exists|k: int|
        0 <= k < own_level(n, elem, KindSet::Only(Kind::AliasExpression)).len() && first_named(
            n,
            #[trigger] own_level(n, elem, KindSet::Only(Kind::AliasExpression))[k] as int,
            up,
        )
}

/// Whether the first identifier of a node has the given upper-cased name.
pub open spec fn first_named(n: Seq<Node>, i: int, up: Seq<char>) -> bool {
    identifiers(n, i).len() > 0 && upper(normalized(n[identifiers(n, i)[0] as int].raw)) == up
}

/// Whether a name is one of the relations in a query's own scope.
pub open spec fn in_scope(n: Seq<Node>, query: int, up: Seq<char>) -> bool {
    exists|k: int|
        0 <= k < own_level(n, query, KindSet::Only(Kind::FromExpressionElement)).len()
            && names_relation(
            n,
            #[trigger] own_level(n, query, KindSet::Only(Kind::FromExpressionElement))[k] as int,
            up,
        )
}

/// Whether a `FROM` element names a relation.
pub open spec fn names_relation(n: Seq<Node>, elem: int, up: Seq<char>) -> bool {
    refers_to(n, elem, up) || aliased_as(n, elem, up)
}

/// Whether a text holds a dot.
fn has_dot(s: &Vec<char>) -> (r: bool)
    ensures
        r == dotted(s@),
{
    let mut i: usize = 0;
    while i < s.len()
        invariant
            i <= s@.len(),
            forall|j: int| 0 <= j < i ==> s@[j] != '.',
        decreases s@.len() - i,
    {
        if s[i] == '.' {
            assert(s@[i as int] == '.');
            return true;
        }
        i = i + 1;
    }
    false
}

/// The relation that qualifies a column reference.
pub fn qualifier_of(tree: &Tree, col: usize) -> (r: Option<Vec<char>>)
    requires
        tree.wf(),
        tree.holds(col),
    ensures
        match r {
            Some(q) => column_qualifier(tree@, col as int) == Some(q@),
            None => column_qualifier(tree@, col as int) is None,
        },
{
    let ids = tree.all_in(col, KindSet::Identifiers);
    proof {
        lemma_crawl(tree@, col as int, every(KindSet::Identifiers));
    }
    if ids.len() >= 2 && has_dot(tree.raw_at(col)) {
        Some(normalize_identifier(tree.raw_at(ids[ids.len() - 2])))
    } else {
        None
    }
}

/// The last identifier of a reference, or the reference as a whole.
pub fn last_name(tree: &Tree, i: usize) -> (r: Vec<char>)
    requires
        tree.wf(),
        tree.holds(i),
    ensures
        r@ == last_identifier(tree@, i as int),
{
    let ids = tree.all_in(i, KindSet::Identifiers);
    proof {
        lemma_crawl(tree@, i as int, every(KindSet::Identifiers));
    }
    if ids.len() > 0 {
        normalize_identifier(tree.raw_at(ids[ids.len() - 1]))
    } else {
        normalize_identifier(tree.raw_at(i))
    }
}

/// What a crawl finds without entering a nested query.
pub fn collect_own_level(tree: &Tree, i: usize, set: KindSet) -> (r: Vec<usize>)
    requires
        tree.wf(),
        tree.holds(i),
    ensures
        r@ == own_level(tree@, i as int, set),
        r@.len() <= MAX_NODES,
        forall|k: int| 0 <= k < r@.len() ==> (#[trigger] r@[k]) < tree@.len(),
{
    let p = Probe { set, deep: true, stop: KindSet::Only(Kind::SelectStatement), own: true };
    proof {
        lemma_crawl(tree@, i as int, p);
    }
    tree.crawl(i, p)
}

/// Whether a `FROM` element names a relation.
fn element_names(tree: &Tree, elem: usize, up: &Vec<char>) -> (r: bool)
    requires
        tree.wf(),
        tree.holds(elem),
    ensures
        r == names_relation(tree@, elem as int, up@),
{
    let ghost n = tree@;
    let refs = collect_own_level(tree, elem, KindSet::TableReferences);
    let mut k: usize = 0;
    while k < refs.len()
        invariant
            tree.wf(),
            n == tree@,
            k <= refs@.len(),
            refs@ == own_level(n, elem as int, KindSet::TableReferences),
            forall|l: int| 0 <= l < refs@.len() ==> (#[trigger] refs@[l]) < n.len(),
            forall|l: int|
                0 <= l < k ==> upper(last_identifier(n, #[trigger] refs@[l] as int)) != up@,
        decreases refs@.len() - k,
    {
        let name = last_name(tree, refs[k]);
        let folded = to_upper(&name);
        if same(&folded, up) {
            assert(upper(
                last_identifier(
                    n,
                    own_level(n, elem as int, KindSet::TableReferences)[k as int] as int,
                ),
            ) == up@);
            return true;
        }
        k = k + 1;
    }
    assert(!refers_to(n, elem as int, up@));
    let aliases = collect_own_level(tree, elem, KindSet::Only(Kind::AliasExpression));
    let mut a: usize = 0;
    while a < aliases.len()
        invariant
            tree.wf(),
            n == tree@,
            a <= aliases@.len(),
            !refers_to(n, elem as int, up@),
            aliases@ == own_level(n, elem as int, KindSet::Only(Kind::AliasExpression)),
            forall|l: int| 0 <= l < aliases@.len() ==> (#[trigger] aliases@[l]) < n.len(),
            forall|l: int|
                0 <= l < a ==> !first_named(n, #[trigger] aliases@[l] as int, up@),
        decreases aliases@.len() - a,
    {
        let ids = tree.all_in(aliases[a], KindSet::Identifiers);
        proof {
            lemma_crawl(n, aliases@[a as int] as int, every(KindSet::Identifiers));
        }
        if ids.len() > 0 {
            let name = normalize_identifier(tree.raw_at(ids[0]));
            let folded = to_upper(&name);
            if same(&folded, up) {
                assert(first_named(
                    n,
                    own_level(n, elem as int, KindSet::Only(Kind::AliasExpression))[a as int]
                        as int,
                    up@,
                ));
                return true;
            }
        }
        a = a + 1;
    }
    false
}

/// Whether a name is one of the relations in a query's own scope.
pub fn names_in_scope(tree: &Tree, query: usize, up: &Vec<char>) -> (r: bool)
    requires
        tree.wf(),
        tree.holds(query),
    ensures
        r == in_scope(tree@, query as int, up@),
{
    let ghost n = tree@;
    let elems = collect_own_level(tree, query, KindSet::Only(Kind::FromExpressionElement));
    let mut k: usize = 0;
    while k < elems.len()
        invariant
            tree.wf(),
            n == tree@,
            k <= elems@.len(),
            elems@ == own_level(n, query as int, KindSet::Only(Kind::FromExpressionElement)),
            forall|l: int| 0 <= l < elems@.len() ==> (#[trigger] elems@[l]) < n.len(),
            forall|l: int| 0 <= l < k ==> !names_relation(n, #[trigger] elems@[l] as int, up@),
        decreases elems@.len() - k,
    {
        if element_names(tree, elems[k], up) {
            assert(names_relation(
                n,
                own_level(n, query as int, KindSet::Only(Kind::FromExpressionElement))[k as int]
                    as int,
                up@,
            ));
            return true;
        }
        k = k + 1;
    }
    false
}

} // verus!
