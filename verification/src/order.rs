//! Ordered lists of distinct texts.

use vstd::prelude::*;

use crate::names::texts;
use crate::text::same;

verus! {

/// Whether `a` comes before `b` in lexicographic order.
pub open spec fn text_less(a: Seq<char>, b: Seq<char>) -> bool
    decreases a.len(),
{
    if b.len() == 0 {
        false
    } else if a.len() == 0 {
        true
    } else if a[0] != b[0] {
        a[0] < b[0]
    } else {
        text_less(a.drop_first(), b.drop_first())
    }
}

/// The number of leading entries of an ordered list that come before `x`.
pub open spec fn rank(s: Seq<Seq<char>>, x: Seq<char>) -> int
    decreases s.len(),
{
    if s.len() > 0 && text_less(s[0], x) {
        1 + rank(s.drop_first(), x)
    } else {
        0
    }
}

/// An ordered list of distinct texts with one more text.
pub open spec fn with_text(s: Seq<Seq<char>>, x: Seq<char>) -> Seq<Seq<char>> {
    if s.contains(x) {
        s
    } else {
        s.insert(rank(s, x), x)
    }
}

/// Whether a list is in ascending order, which makes its texts distinct.
pub open spec fn ascending(s: Seq<Seq<char>>) -> bool {
    forall|i: int, j: int| 0 <= i < j < s.len() ==> text_less(#[trigger] s[i], #[trigger] s[j])
}

pub proof fn lemma_less_irreflexive(a: Seq<char>)
    ensures
        !text_less(a, a),
    decreases a.len(),
{
    if a.len() > 0 {
        lemma_less_irreflexive(a.drop_first());
    }
}

pub proof fn lemma_less_total(a: Seq<char>, b: Seq<char>)
    ensures
        a == b || text_less(a, b) || text_less(b, a),
    decreases a.len(),
{
    if a.len() > 0 && b.len() > 0 && a[0] == b[0] {
        lemma_less_total(a.drop_first(), b.drop_first());
        if a.drop_first() == b.drop_first() {
            assert(a =~= seq![a[0]] + a.drop_first());
            assert(b =~= seq![b[0]] + b.drop_first());
        }
    } else if a.len() == 0 && b.len() == 0 {
        assert(a =~= b);
    }
}

pub proof fn lemma_less_transitive(a: Seq<char>, b: Seq<char>, c: Seq<char>)
    requires
        text_less(a, b),
        text_less(b, c),
    ensures
        text_less(a, c),
    decreases a.len(),
{
    if a.len() > 0 && b.len() > 0 && c.len() > 0 && a[0] == b[0] && b[0] == c[0] {
        lemma_less_transitive(a.drop_first(), b.drop_first(), c.drop_first());
    }
}

pub proof fn lemma_rank(s: Seq<Seq<char>>, x: Seq<char>)
    ensures
        0 <= rank(s, x) <= s.len(),
        forall|i: int| 0 <= i < rank(s, x) ==> text_less(#[trigger] s[i], x),
        rank(s, x) < s.len() ==> !text_less(s[rank(s, x)], x),
    decreases s.len(),
{
    if s.len() > 0 && text_less(s[0], x) {
        let d = s.drop_first();
        lemma_rank(d, x);
        assert forall|i: int| 0 <= i < rank(s, x) implies text_less(#[trigger] s[i], x) by {
            if i > 0 {
                assert(d[i - 1] == s[i]);
            }
        }
        if rank(s, x) < s.len() {
            assert(d[rank(d, x)] == s[rank(s, x)]);
        }
    }
}

/// Adding a text keeps a list in ascending order and adds that text only.
pub proof fn lemma_with_text(s: Seq<Seq<char>>, x: Seq<char>)
    requires
        ascending(s),
    ensures
        ascending(with_text(s, x)),
        with_text(s, x).to_set() == s.to_set().insert(x),
        with_text(s, x).len() <= s.len() + 1,
{
    let t = with_text(s, x);
    let r = rank(s, x);
    lemma_rank(s, x);
    if !s.contains(x) {
        assert forall|i: int| r <= i < s.len() implies text_less(x, #[trigger] s[i]) by {
            lemma_less_total(s[r], x);
            if i > r {
                assert(text_less(s[r], s[i]));
                assert(text_less(x, s[r])) by {
                    assert(s[r] != x);
                }
                lemma_less_transitive(x, s[r], s[i]);
            } else {
                assert(s[r] != x);
            }
        }
        assert forall|i: int, j: int| 0 <= i < j < t.len() implies text_less(
            #[trigger] t[i],
            #[trigger] t[j],
        ) by {
            if i < r && j < r {
                assert(text_less(s[i], s[j]));
            } else if i < r && j == r {
                assert(text_less(s[i], x));
            } else if i < r {
                assert(text_less(s[i], s[j - 1]));
            } else if i == r {
                assert(text_less(x, s[j - 1]));
            } else {
                assert(text_less(s[i - 1], s[j - 1]));
            }
        }
        assert forall|y: Seq<char>| t.to_set().contains(y) == s.to_set().insert(x).contains(y) by {
            if s.contains(y) {
                let k = choose|k: int| 0 <= k < s.len() && s[k] == y;
                if k < r {
                    assert(t[k] == y);
                } else {
                    assert(t[k + 1] == y);
                }
            }
            if y == x {
                assert(t[r] == x);
            }
            if t.contains(y) {
                let k = choose|k: int| 0 <= k < t.len() && t[k] == y;
                if k < r {
                    assert(s[k] == y);
                } else if k > r {
                    assert(s[k - 1] == y);
                }
            }
        }
        assert(t.to_set() =~= s.to_set().insert(x));
    } else {
        assert(s.to_set() =~= s.to_set().insert(x));
    }
}

/// Whether `a` comes before `b` in lexicographic order.
pub fn comes_before(a: &Vec<char>, b: &Vec<char>) -> (r: bool)
    ensures
        r == text_less(a@, b@),
{
    let mut i: usize = 0;
    assert(a@.skip(0) =~= a@);
    assert(b@.skip(0) =~= b@);
    while i < a.len() && i < b.len()
        invariant
            i <= a@.len(),
            i <= b@.len(),
            text_less(a@, b@) == text_less(a@.skip(i as int), b@.skip(i as int)),
        decreases a@.len() - i,
    {
        if a[i] != b[i] {
            return a[i] < b[i];
        }
        assert(a@.skip(i as int).drop_first() =~= a@.skip(i + 1));
        assert(b@.skip(i as int).drop_first() =~= b@.skip(i + 1));
        i = i + 1;
    }
    i < b.len()
}

/// The place of a text in an ordered list, and whether the list holds it
/// already.
pub fn find_place(v: &Vec<Vec<char>>, x: &Vec<char>) -> (r: (usize, bool))
    requires
        ascending(texts(v@)),
    ensures
        r.0 == rank(texts(v@), x@),
        r.0 <= v@.len(),
        r.1 == texts(v@).contains(x@),
        r.1 ==> r.0 < v@.len() && v@[r.0 as int]@ == x@,
{
    let ghost s = texts(v@);
    let mut i: usize = 0;
    assert(s.skip(0) =~= s);
    while i < v.len() && comes_before(&v[i], x)
        invariant
            s == texts(v@),
            i <= v@.len(),
            rank(s, x@) == i + rank(s.skip(i as int), x@),
            forall|j: int| 0 <= j < i ==> text_less(#[trigger] s[j], x@),
        decreases v@.len() - i,
    {
        assert(s.skip(i as int)[0] == s[i as int]);
        assert(s.skip(i as int).drop_first() =~= s.skip(i + 1));
        i = i + 1;
    }
    let found = i < v.len() && same(&v[i], x);
    proof {
        if i < v@.len() {
            assert(s.skip(i as int)[0] == s[i as int]);
        }
        if found {
            assert(s[i as int] == x@);
        } else if s.contains(x@) {
            let k = choose|k: int| 0 <= k < s.len() && s[k] == x@;
            lemma_less_irreflexive(x@);
            if k > i {
                assert(text_less(s[i as int], s[k]));
            }
        }
    }
    (i, found)
}

/// Add a text to an ordered list of distinct texts.
pub fn add_ordered(v: &mut Vec<Vec<char>>, x: Vec<char>)
    requires
        ascending(texts(old(v)@)),
    ensures
        texts(final(v)@) == with_text(texts(old(v)@), x@),
        ascending(texts(final(v)@)),
        final(v)@.len() <= old(v)@.len() + 1,
{
    let ghost s = texts(v@);
    let ghost text = x@;
    proof {
        lemma_with_text(s, x@);
    }
    let (place, found) = find_place(v, &x);
    if !found {
        v.insert(place, x);
        assert(texts(v@) =~= s.insert(place as int, text));
    }
}

} // verus!
