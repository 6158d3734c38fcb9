//! Which objects a file reads and writes.

use vstd::prelude::*;

use crate::cte_laws::hidden_from;
use crate::ctes::ref_name;
use crate::kind::KindSet;
use crate::objects::{
    after_elements, after_reads, after_refs, after_writes, from_elements, is_local, no_objects,
    placed_span, target_refs, touched, touched_by, write_statements, Objects, Touched,
};
use crate::order::{lemma_rank, rank};
use crate::span::{Lines, SourceSpan};
use crate::statements::StatementFacts;
use crate::text::upper;
use crate::tree::{all_in, Node};

verus! {

// ── one statement ──────────────────────────────────────────────────────

/// The reference at place `b` of the write statement at place `a`.
pub open spec fn target_at(n: Seq<Node>, stmt: int, a: int, b: int) -> int {
    target_refs(n, write_statements(n, stmt)[a] as int)[b] as int
}

/// Whether there is a reference at place `b` of the write statement at place `a`.
pub open spec fn has_target(n: Seq<Node>, stmt: int, a: int, b: int) -> bool {
    &&& 0 <= a < write_statements(n, stmt).len()
    &&& 0 <= b < target_refs(n, write_statements(n, stmt)[a] as int).len()
    &&& !is_local(n, stmt, target_at(n, stmt, a, b))
}

/// Whether the reference at place `b` of the write statement at place `a` is
/// written: the first one always, the others unless the statement has one target
/// alone. A reference to an expression of the statement is none.
pub open spec fn is_target(n: Seq<Node>, stmt: int, a: int, b: int) -> bool {
    has_target(n, stmt, a, b) && (b == 0 || !KindSet::FirstTargetOnly.holds(
        n[write_statements(n, stmt)[a] as int].kind,
    ))
}

/// Whether the reference at place `b` of the write statement at place `a` is
/// read: one behind the only target.
pub open spec fn is_source(n: Seq<Node>, stmt: int, a: int, b: int) -> bool {
    has_target(n, stmt, a, b) && b > 0 && KindSet::FirstTargetOnly.holds(
        n[write_statements(n, stmt)[a] as int].kind,
    )
}

/// Whether a statement writes an object.
pub open spec fn writes_object(n: Seq<Node>, stmt: int, name: Seq<char>) -> bool {
    exists|a: int, b: int| #[trigger]
        is_target(n, stmt, a, b) && upper(n[target_at(n, stmt, a, b)].raw) == name
}

/// Whether a reference is written by a statement.
pub open spec fn is_written(n: Seq<Node>, stmt: int, r: usize) -> bool {
    exists|a: int, b: int| #[trigger] is_target(n, stmt, a, b) && target_at(n, stmt, a, b) == r
}

/// Whether the reference at place `j` of the `FROM` element at place `e` is read.
pub open spec fn is_read_at(n: Seq<Node>, stmt: int, e: int, j: int) -> bool {
    &&& 0 <= e < from_elements(n, stmt).len()
    &&& 0 <= j < all_in(n, from_elements(n, stmt)[e] as int, KindSet::TableReferences).len()
    &&& !is_local(n, stmt, element_ref(n, stmt, e, j) as int)
    &&& !is_written(n, stmt, element_ref(n, stmt, e, j))
}

/// The reference at place `j` of the `FROM` element at place `e`.
pub open spec fn element_ref(n: Seq<Node>, stmt: int, e: int, j: int) -> usize {
    all_in(n, from_elements(n, stmt)[e] as int, KindSet::TableReferences)[j]
}

/// Whether a statement reads an object: in a `FROM`, unless it is what the
/// statement writes, or behind the only target of a write.
pub open spec fn reads_object(n: Seq<Node>, stmt: int, name: Seq<char>) -> bool {
    ||| exists|a: int, b: int| #[trigger]
        is_source(n, stmt, a, b) && upper(n[target_at(n, stmt, a, b)].raw) == name
    ||| exists|e: int, j: int| #[trigger]
        is_read_at(n, stmt, e, j) && upper(n[element_ref(n, stmt, e, j) as int].raw) == name
}

proof fn lemma_noted(o: Objects, name: Seq<char>, span: Option<SourceSpan>, x: Seq<char>)
    ensures
        o.noted(name, span).names.contains(x) <==> o.names.contains(x) || x == name,
{
    lemma_rank(o.names, name);
    let at = rank(o.names, name);
    if !o.names.contains(name) {
        let t = o.names.insert(at, name);
        assert(t[at] == name);
        if o.names.contains(x) {
            let i = choose|i: int| 0 <= i < o.names.len() && o.names[i] == x;
            if i < at {
                assert(t[i] == x);
            } else {
                assert(t[i + 1] == x);
            }
        }
        if t.contains(x) {
            let i = choose|i: int| 0 <= i < t.len() && t[i] == x;
            if i < at {
                assert(o.names[i] == x);
            } else if i > at {
                assert(o.names[i - 1] == x);
            }
        }
    }
}

proof fn lemma_refs(
    n: Seq<Node>,
    lines: Lines,
    stmt: int,
    a: int,
    t: Touched,
    k: int,
    x: Seq<char>,
    r: usize,
)
    requires
        0 <= a < write_statements(n, stmt).len(),
        0 <= k <= target_refs(n, write_statements(n, stmt)[a] as int).len(),
    ensures
        ({
            let ws = write_statements(n, stmt)[a] as int;
            let u = after_refs(n, lines, stmt, ws, t, k);
            &&& u.write.names.contains(x) <==> t.write.names.contains(x) || exists|b: int|
                b < k && #[trigger] is_target(n, stmt, a, b) && upper(
                    n[target_at(n, stmt, a, b)].raw,
                ) == x
            &&& u.read.names.contains(x) <==> t.read.names.contains(x) || exists|b: int|
                b < k && #[trigger] is_source(n, stmt, a, b) && upper(
                    n[target_at(n, stmt, a, b)].raw,
                ) == x
            &&& u.targets.contains(r) <==> t.targets.contains(r) || exists|b: int|
                b < k && #[trigger] is_target(n, stmt, a, b) && target_at(n, stmt, a, b) == r
        }),
    decreases k,
{
    if k > 0 {
        lemma_refs(n, lines, stmt, a, t, k - 1, x, r);
        let ws = write_statements(n, stmt)[a] as int;
        let v = after_refs(n, lines, stmt, ws, t, k - 1);
        let u = after_refs(n, lines, stmt, ws, t, k);
        let c = target_refs(n, ws)[k - 1];
        let name = ref_name(n, c as int);
        let span = placed_span(n, lines, c as int);
        lemma_noted(v.write, name, span, x);
        lemma_noted(v.read, name, span, x);
        assert(target_at(n, stmt, a, k - 1) == c);
        if is_target(n, stmt, a, k - 1) {
            assert(u.targets == v.targets.push(c));
            assert(u.targets.contains(r) <==> v.targets.contains(r) || r == c) by {
                if v.targets.contains(r) {
                    let i = choose|i: int| 0 <= i < v.targets.len() && v.targets[i] == r;
                    assert(u.targets[i] == r);
                }
                if r == c {
                    assert(u.targets[v.targets.len() as int] == r);
                }
                if u.targets.contains(r) {
                    let i = choose|i: int| 0 <= i < u.targets.len() && u.targets[i] == r;
                    if i < v.targets.len() {
                        assert(v.targets[i] == r);
                    }
                }
            }
        } else if is_source(n, stmt, a, k - 1) {
            assert(u.targets == v.targets);
        } else {
            assert(u == v);
        }
        lemma_refs_step(n, stmt, a, k, x, r);
    }
}

proof fn lemma_refs_step(n: Seq<Node>, stmt: int, a: int, k: int, x: Seq<char>, r: usize)
    ensures
        (exists|b: int|
            b < k && #[trigger] is_target(n, stmt, a, b) && upper(n[target_at(n, stmt, a, b)].raw)
                == x) <==> (exists|b: int|
            b < k - 1 && #[trigger] is_target(n, stmt, a, b) && upper(
                n[target_at(n, stmt, a, b)].raw,
            ) == x) || (is_target(n, stmt, a, k - 1) && upper(n[target_at(n, stmt, a, k - 1)].raw)
            == x),
        (exists|b: int|
            b < k && #[trigger] is_source(n, stmt, a, b) && upper(n[target_at(n, stmt, a, b)].raw)
                == x) <==> (exists|b: int|
            b < k - 1 && #[trigger] is_source(n, stmt, a, b) && upper(
                n[target_at(n, stmt, a, b)].raw,
            ) == x) || (is_source(n, stmt, a, k - 1) && upper(n[target_at(n, stmt, a, k - 1)].raw)
            == x),
        (exists|b: int|
            b < k && #[trigger] is_target(n, stmt, a, b) && target_at(n, stmt, a, b) == r) <==> (
        exists|b: int|
            b < k - 1 && #[trigger] is_target(n, stmt, a, b) && target_at(n, stmt, a, b) == r) || (
        is_target(n, stmt, a, k - 1) && target_at(n, stmt, a, k - 1) == r),
{
}

proof fn lemma_writes(
    n: Seq<Node>,
    lines: Lines,
    stmt: int,
    t: Touched,
    k: int,
    x: Seq<char>,
    r: usize,
)
    requires
        0 <= k <= write_statements(n, stmt).len(),
    ensures
        ({
            let u = after_writes(n, lines, stmt, t, k);
            &&& u.write.names.contains(x) <==> t.write.names.contains(x) || exists|a: int, b: int|
                a < k && #[trigger] is_target(n, stmt, a, b) && upper(
                    n[target_at(n, stmt, a, b)].raw,
                ) == x
            &&& u.read.names.contains(x) <==> t.read.names.contains(x) || exists|a: int, b: int|
                a < k && #[trigger] is_source(n, stmt, a, b) && upper(
                    n[target_at(n, stmt, a, b)].raw,
                ) == x
            &&& u.targets.contains(r) <==> t.targets.contains(r) || exists|a: int, b: int|
                a < k && #[trigger] is_target(n, stmt, a, b) && target_at(n, stmt, a, b) == r
        }),
    decreases k,
{
    if k > 0 {
        lemma_writes(n, lines, stmt, t, k - 1, x, r);
        let ws = write_statements(n, stmt)[k - 1] as int;
        let v = after_writes(n, lines, stmt, t, k - 1);
        let len = target_refs(n, ws).len() as int;
        lemma_refs(n, lines, stmt, k - 1, v, len, x, r);
        let u = after_writes(n, lines, stmt, t, k);
        assert(u == after_refs(n, lines, stmt, ws, v, len));
        if exists|a: int, b: int|
            a < k && #[trigger] is_target(n, stmt, a, b) && upper(n[target_at(n, stmt, a, b)].raw)
                == x {
            let (a, b) = choose|a: int, b: int|
                a < k && #[trigger] is_target(n, stmt, a, b) && upper(
                    n[target_at(n, stmt, a, b)].raw,
                ) == x;
            if a == k - 1 {
                assert(b < len && is_target(n, stmt, k - 1, b));
            }
        }
        if exists|a: int, b: int|
            a < k && #[trigger] is_source(n, stmt, a, b) && upper(n[target_at(n, stmt, a, b)].raw)
                == x {
            let (a, b) = choose|a: int, b: int|
                a < k && #[trigger] is_source(n, stmt, a, b) && upper(
                    n[target_at(n, stmt, a, b)].raw,
                ) == x;
            if a == k - 1 {
                assert(b < len && is_source(n, stmt, k - 1, b));
            }
        }
        if exists|a: int, b: int|
            a < k && #[trigger] is_target(n, stmt, a, b) && target_at(n, stmt, a, b) == r {
            let (a, b) = choose|a: int, b: int|
                a < k && #[trigger] is_target(n, stmt, a, b) && target_at(n, stmt, a, b) == r;
            if a == k - 1 {
                assert(b < len && is_target(n, stmt, k - 1, b));
            }
        }
    } else {
        assert forall|a: int, b: int| a < k implies !(#[trigger] is_target(n, stmt, a, b)) by {}
    }
}

proof fn lemma_reads(
    n: Seq<Node>,
    lines: Lines,
    stmt: int,
    e: int,
    t: Touched,
    k: int,
    x: Seq<char>,
)
    requires
        0 <= e < from_elements(n, stmt).len(),
        0 <= k <= all_in(n, from_elements(n, stmt)[e] as int, KindSet::TableReferences).len(),
        forall|r: usize| #[trigger] t.targets.contains(r) <==> is_written(n, stmt, r),
    ensures
        ({
            let u = after_reads(n, lines, stmt, from_elements(n, stmt)[e] as int, t, k);
            &&& u.write == t.write
            &&& u.targets == t.targets
            &&& u.read.names.contains(x) <==> t.read.names.contains(x) || exists|j: int|
                j < k && #[trigger] is_read_at(n, stmt, e, j) && upper(
                    n[element_ref(n, stmt, e, j) as int].raw,
                ) == x
        }),
    decreases k,
{
    if k > 0 {
        lemma_reads(n, lines, stmt, e, t, k - 1, x);
        let elem = from_elements(n, stmt)[e] as int;
        let v = after_reads(n, lines, stmt, elem, t, k - 1);
        let c = all_in(n, elem, KindSet::TableReferences)[k - 1];
        lemma_noted(v.read, ref_name(n, c as int), placed_span(n, lines, c as int), x);
        assert(element_ref(n, stmt, e, k - 1) == c);
        assert(t.targets.contains(c) <==> is_written(n, stmt, c));
        assert((exists|j: int|
            j < k && #[trigger] is_read_at(n, stmt, e, j) && upper(
                n[element_ref(n, stmt, e, j) as int].raw,
            ) == x) <==> (exists|j: int|
            j < k - 1 && #[trigger] is_read_at(n, stmt, e, j) && upper(
                n[element_ref(n, stmt, e, j) as int].raw,
            ) == x) || (is_read_at(n, stmt, e, k - 1) && upper(
            n[element_ref(n, stmt, e, k - 1) as int].raw,
        ) == x));
    }
}

proof fn lemma_elements(
    n: Seq<Node>,
    lines: Lines,
    stmt: int,
    t: Touched,
    k: int,
    x: Seq<char>,
)
    requires
        0 <= k <= from_elements(n, stmt).len(),
        forall|r: usize| #[trigger] t.targets.contains(r) <==> is_written(n, stmt, r),
    ensures
        ({
            let u = after_elements(n, lines, stmt, t, k);
            &&& u.write == t.write
            &&& u.targets == t.targets
            &&& u.read.names.contains(x) <==> t.read.names.contains(x) || exists|e: int, j: int|
                e < k && #[trigger] is_read_at(n, stmt, e, j) && upper(
                    n[element_ref(n, stmt, e, j) as int].raw,
                ) == x
        }),
    decreases k,
{
    if k > 0 {
        lemma_elements(n, lines, stmt, t, k - 1, x);
        let elem = from_elements(n, stmt)[k - 1] as int;
        let v = after_elements(n, lines, stmt, t, k - 1);
        let len = all_in(n, elem, KindSet::TableReferences).len() as int;
        lemma_reads(n, lines, stmt, k - 1, v, len, x);
        if exists|e: int, j: int|
            e < k && #[trigger] is_read_at(n, stmt, e, j) && upper(
                n[element_ref(n, stmt, e, j) as int].raw,
            ) == x {
            let (e, j) = choose|e: int, j: int|
                e < k && #[trigger] is_read_at(n, stmt, e, j) && upper(
                    n[element_ref(n, stmt, e, j) as int].raw,
                ) == x;
            if e == k - 1 {
                assert(j < len && is_read_at(n, stmt, k - 1, j));
            }
        }
    }
}

proof fn lemma_touched_by(n: Seq<Node>, lines: Lines, stmt: int, t: Touched, x: Seq<char>)
    ensures
        ({
            let u = touched_by(n, lines, stmt, t);
            &&& u.write.names.contains(x) <==> t.write.names.contains(x) || writes_object(
                n,
                stmt,
                x,
            )
            &&& u.read.names.contains(x) <==> t.read.names.contains(x) || reads_object(n, stmt, x)
        }),
{
    let fresh = Touched { targets: Seq::empty(), ..t };
    let ws = write_statements(n, stmt).len() as int;
    let v = after_writes(n, lines, stmt, fresh, ws);
    let es = from_elements(n, stmt).len() as int;
    assert forall|r: usize| #[trigger] v.targets.contains(r) <==> is_written(n, stmt, r) by {
        lemma_writes(n, lines, stmt, fresh, ws, x, r);
        if is_written(n, stmt, r) {
            let (a, b) = choose|a: int, b: int| #[trigger]
                is_target(n, stmt, a, b) && target_at(n, stmt, a, b) == r;
            assert(a < ws && is_target(n, stmt, a, b));
        }
    }
    lemma_writes(n, lines, stmt, fresh, ws, x, 0);
    lemma_elements(n, lines, stmt, v, es, x);
    if writes_object(n, stmt, x) {
        let (a, b) = choose|a: int, b: int| #[trigger]
            is_target(n, stmt, a, b) && upper(n[target_at(n, stmt, a, b)].raw) == x;
        assert(a < ws && is_target(n, stmt, a, b));
    }
    if exists|a: int, b: int| #[trigger]
        is_source(n, stmt, a, b) && upper(n[target_at(n, stmt, a, b)].raw) == x {
        let (a, b) = choose|a: int, b: int| #[trigger]
            is_source(n, stmt, a, b) && upper(n[target_at(n, stmt, a, b)].raw) == x;
        assert(a < ws && is_source(n, stmt, a, b));
    }
    if exists|e: int, j: int| #[trigger]
        is_read_at(n, stmt, e, j) && upper(n[element_ref(n, stmt, e, j) as int].raw) == x {
        let (e, j) = choose|e: int, j: int| #[trigger]
            is_read_at(n, stmt, e, j) && upper(n[element_ref(n, stmt, e, j) as int].raw) == x;
        assert(e < es && is_read_at(n, stmt, e, j));
    }
}

// ── the file ───────────────────────────────────────────────────────────

/// An object is written by a file where a statement writes it, and read where one
/// reads it; what is in a routine is done only when that is called.
pub proof fn objects_are_touched_by_statements(
    n: Seq<Node>,
    lines: Lines,
    s: Seq<usize>,
    facts: Seq<StatementFacts>,
    k: int,
    name: Seq<char>,
)
    requires
        0 <= k <= facts.len(),
    ensures
        touched(n, lines, s, facts, k).write.names.contains(name) <==> exists|i: int|
            0 <= i < k && !((#[trigger] facts[i]).kind is Procedural) && writes_object(
                n,
                s[i] as int,
                name,
            ),
        touched(n, lines, s, facts, k).read.names.contains(name) <==> exists|i: int|
            0 <= i < k && !((#[trigger] facts[i]).kind is Procedural) && reads_object(
                n,
                s[i] as int,
                name,
            ),
    decreases k,
{
    if k > 0 {
        objects_are_touched_by_statements(n, lines, s, facts, k - 1, name);
        let t = touched(n, lines, s, facts, k - 1);
        lemma_touched_by(n, lines, s[k - 1] as int, t, name);
        assert(facts[k - 1] == facts[k - 1]);
    } else {
        assert(!no_objects().names.contains(name));
    }
}

/// A reference is to an expression of the statement where a `WITH` block around it
/// defines its name.
pub proof fn local_references_are_hidden(n: Seq<Node>, stmt: int, r: int)
    requires
        crate::tree::well_formed(n),
        0 <= stmt < n.len(),
        stmt <= r < n[stmt].end,
        KindSet::TableReferences.holds(n[r].kind),
    ensures
        is_local(n, stmt, r) <==> hidden_from(n, stmt, r),
{
    crate::cte_laws::lemma_hidden(n, stmt, r);
}

} // verus!
