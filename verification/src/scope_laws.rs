//! Which nodes and leaves a rule looks at.

use vstd::prelude::*;

use crate::ctes::{cte_name, defines};
use crate::kind::{Kind, KindSet};
use crate::object_laws::runs_with;
use crate::objects::{code_leaves, from_elements, target_refs, write_statements};
use crate::order::text_less;
use crate::output_laws::lemma_is_crawled;
use crate::query_shape::{
    defines_routine, merged, no_query, query_roots, region_shape, shape_below, shape_of_list,
};
use crate::shape_laws::carries_code;
use crate::statement_laws::only_keyword;
use crate::statements::{node_bracket, ScriptingBracket};
use crate::tree::{
    belongs, children, closes, crawl, is_code_leaf, lemma_reported, open_to, reports, well_formed,
    Node, Probe, MAX_NODES,
};
use crate::units::{
    goes_to_body, header_places, is_header, is_member, leads_package_body, leaf_word, member_places,
};
use crate::word::Word;

verus! {

// ── statements that write and read ─────────────────────────────────────

spec fn running(set: KindSet) -> Probe {
    Probe { set, deep: true, stop: KindSet::Definitions, own: true }
}

proof fn lemma_running(n: Seq<Node>, stmt: int, set: KindSet, j: int)
    requires
        well_formed(n),
        0 <= stmt < n.len(),
        stmt <= j < n[stmt].end,
        !set.holds(Kind::ObjectReference),
    ensures
        crawl(n, stmt, running(set)).contains(j as usize) <==> set.holds(n[j].kind) && runs_with(
            n,
            stmt,
            j,
        ),
{
    let p = running(set);
    let s = crawl(n, stmt, p);
    let hi = n[stmt].end as int;
    lemma_reported(n, stmt, p, hi);
    if s.contains(j as usize) {
        let k = choose|k: int| 0 <= k < s.len() && s[k] == j as usize;
        assert(reports(n, stmt, p, s[k] as int));
        assert forall|a: int| stmt < a <= j && j < (#[trigger] n[a]).end implies !(
        KindSet::Definitions.holds(n[a].kind)) by {
            if a < j {
                assert(!closes(n, stmt, p, a));
            }
        }
    }
    if set.holds(n[j].kind) && runs_with(n, stmt, j) {
        assert(n[j].end > j);
        assert(open_to(n, stmt, p, j));
        let k = lemma_is_crawled(n, stmt, p, hi, j);
        assert(s[k] == j as usize);
    }
}

/// A statement writes through the statements in it that change an object, and
/// reads through its `FROM` elements, those in definitions left out.
pub proof fn writes_and_reads_run_with_the_statement(n: Seq<Node>, stmt: int, j: int)
    requires
        well_formed(n),
        0 <= stmt < n.len(),
        stmt <= j < n[stmt].end,
    ensures
        write_statements(n, stmt).contains(j as usize) <==> KindSet::Writes.holds(n[j].kind)
            && runs_with(n, stmt, j),
        from_elements(n, stmt).contains(j as usize) <==> n[j].kind is FromExpressionElement
            && runs_with(n, stmt, j),
{
    lemma_running(n, stmt, KindSet::Writes, j);
    lemma_running(n, stmt, KindSet::Only(Kind::FromExpressionElement), j);
}

/// Whether a node names what a write statement can change.
pub open spec fn names_target(n: Seq<Node>, ws: int, r: int) -> bool {
    if KindSet::OracleDrops.holds(n[ws].kind) {
        KindSet::DropTargets.holds(n[r].kind) || n[r].kind is ColumnReference
            || n[r].kind is WildcardIdentifier
    } else {
        KindSet::Targets.holds(n[r].kind)
    }
}

/// The targets of a write statement are the outermost names in it that no query in
/// it holds.
pub proof fn targets_stand_outside_queries(n: Seq<Node>, ws: int, r: int)
    requires
        well_formed(n),
        0 <= ws < n.len(),
        ws <= r < n[ws].end,
    ensures
        target_refs(n, ws).contains(r as usize) <==> names_target(n, ws, r) && (forall|a: int|
            ws < a < r && r < (#[trigger] n[a]).end ==> !(n[a].kind is SelectStatement)
                && !names_target(n, ws, a)) && (ws < r ==> !names_target(n, ws, ws)),
{
    let set = if KindSet::OracleDrops.holds(n[ws].kind) {
        KindSet::DropTargets
    } else {
        KindSet::Targets
    };
    let p = Probe {
        set,
        deep: false,
        stop: KindSet::Only(Kind::SelectStatement),
        own: true,
    };
    let s = target_refs(n, ws);
    let hi = n[ws].end as int;
    lemma_reported(n, ws, p, hi);
    assert forall|a: int| ws <= a < hi implies #[trigger] belongs(set, n[a].kind) == names_target(
        n,
        ws,
        a,
    ) by {}
    if s.contains(r as usize) {
        let k = choose|k: int| 0 <= k < s.len() && s[k] == r as usize;
        assert(reports(n, ws, p, s[k] as int));
        assert forall|a: int| ws < a < r && r < (#[trigger] n[a]).end implies !(
        n[a].kind is SelectStatement) && !names_target(n, ws, a) by {
            assert(!closes(n, ws, p, a));
            assert(belongs(set, n[a].kind) == names_target(n, ws, a));
        }
        if ws < r {
            assert(!closes(n, ws, p, ws));
            assert(belongs(set, n[ws].kind) == names_target(n, ws, ws));
        }
        assert(belongs(set, n[r].kind) == names_target(n, ws, r));
    }
    if names_target(n, ws, r) && (forall|a: int|
        ws < a < r && r < (#[trigger] n[a]).end ==> !(n[a].kind is SelectStatement)
            && !names_target(n, ws, a)) && (ws < r ==> !names_target(n, ws, ws)) {
        assert(belongs(set, n[r].kind) == names_target(n, ws, r));
        assert forall|a: int| ws <= a < r && r < (#[trigger] n[a]).end implies !closes(
            n,
            ws,
            p,
            a,
        ) by {
            assert(belongs(set, n[a].kind) == names_target(n, ws, a));
        }
        assert(open_to(n, ws, p, r));
        let k = lemma_is_crawled(n, ws, p, hi, r);
        assert(s[k] == r as usize);
    }
}

/// A `WITH` block defines the names of the expressions that are its children.
pub proof fn blocks_define_their_expressions(n: Seq<Node>, w: int, name: Seq<char>)
    ensures
        defines(n, w, name) <==> exists|k: int|
            0 <= k < children(n, w).len() && n[#[trigger] children(n, w)[k] as int].kind is CommonTableExpression
                && cte_name(n, children(n, w)[k] as int) == name,
{
    if defines(n, w, name) {
        let k = choose|k: int|
            0 <= k < children(n, w).len() && crate::ctes::defines_at(
                n,
                #[trigger] children(n, w)[k] as int,
                name,
            );
        assert(n[children(n, w)[k] as int].kind is CommonTableExpression);
    }
    if exists|k: int|
        0 <= k < children(n, w).len() && n[#[trigger] children(n, w)[k] as int].kind is CommonTableExpression
            && cte_name(n, children(n, w)[k] as int) == name {
        let k = choose|k: int|
            0 <= k < children(n, w).len()
                && n[#[trigger] children(n, w)[k] as int].kind is CommonTableExpression && cte_name(
                n,
                children(n, w)[k] as int,
            ) == name;
        assert(crate::ctes::defines_at(n, children(n, w)[k] as int, name));
    }
}

/// A transaction statement is a bracket by its only keyword.
pub proof fn brackets_are_single_keywords(n: Seq<Node>, i: int)
    ensures
        node_bracket(n, i) == Some(ScriptingBracket::Begin) <==> only_keyword(n, i, Word::Begin),
        node_bracket(n, i) == Some(ScriptingBracket::End) <==> only_keyword(n, i, Word::End),
        node_bracket(n, i) is None <==> !only_keyword(n, i, Word::Begin) && !only_keyword(
            n,
            i,
            Word::End,
        ),
{
    crate::statement_laws::lemma_only(n, children(n, i), Word::Begin);
    crate::statement_laws::lemma_only(n, children(n, i), Word::End);
}

// ── leaves ─────────────────────────────────────────────────────────────

/// The code of a file is looked at leaf by leaf, in order.
pub proof fn leaves_of_code_come_in_order(n: Seq<Node>, lo: int, hi: int, i: int)
    requires
        0 <= lo,
        hi <= n.len() <= MAX_NODES,
    ensures
        0 <= i <= usize::MAX ==> (code_leaves(n, lo, hi).contains(i as usize) <==> lo <= i < hi
            && carries_code(n, i)),
        forall|k: int, l: int|
            0 <= k < l < code_leaves(n, lo, hi).len() ==> (#[trigger] code_leaves(n, lo, hi)[k]) < (
            #[trigger] code_leaves(n, lo, hi)[l]),
        forall|k: int|
            0 <= k < code_leaves(n, lo, hi).len() ==> (#[trigger] code_leaves(n, lo, hi)[k]) < hi,
    decreases hi - lo,
{
    if lo < hi {
        leaves_of_code_come_in_order(n, lo, hi - 1, i);
        let s = code_leaves(n, lo, hi);
        let t = code_leaves(n, lo, hi - 1);
        assert(carries_code(n, hi - 1) == is_code_leaf(n, hi - 1));
        if is_code_leaf(n, hi - 1) {
            assert(s == t.push((hi - 1) as usize));
            if 0 <= i <= usize::MAX {
                if t.contains(i as usize) {
                    let k = choose|k: int| 0 <= k < t.len() && t[k] == i as usize;
                    assert(s[k] == i as usize);
                }
                if i == hi - 1 {
                    assert(s[t.len() as int] == i as usize);
                }
                if s.contains(i as usize) {
                    let k = choose|k: int| 0 <= k < s.len() && s[k] == i as usize;
                    if k < t.len() {
                        assert(t[k] == i as usize);
                    }
                }
            }
        }
    }
}

proof fn lemma_headers(n: Seq<Node>, leaf: Seq<usize>, allow_alter: bool, k: int, j: int)
    requires
        0 <= k <= leaf.len() <= usize::MAX,
        0 <= j <= usize::MAX,
    ensures
        header_places(n, leaf, allow_alter, k).contains(j as usize) <==> j < k && is_header(
            n,
            leaf,
            j,
            allow_alter,
        ),
        member_places(n, leaf, k).contains(j as usize) <==> j < k && is_member(n, leaf, j),
    decreases k,
{
    if k > 0 {
        lemma_headers(n, leaf, allow_alter, k - 1, j);
        lemma_push_contains(header_places(n, leaf, allow_alter, k - 1), (k - 1) as usize, j as usize);
        lemma_push_contains(member_places(n, leaf, k - 1), (k - 1) as usize, j as usize);
    }
}

proof fn lemma_push_contains(s: Seq<usize>, x: usize, y: usize)
    ensures
        s.push(x).contains(y) <==> s.contains(y) || x == y,
{
    let t = s.push(x);
    if s.contains(y) {
        let k = choose|k: int| 0 <= k < s.len() && s[k] == y;
        assert(t[k] == y);
    }
    if x == y {
        assert(t[s.len() as int] == y);
    }
    if t.contains(y) {
        let k = choose|k: int| 0 <= k < t.len() && t[k] == y;
        if k < s.len() {
            assert(s[k] == y);
        }
    }
}

/// Every definition and every member of a run is found.
pub proof fn all_headers_are_found(n: Seq<Node>, leaf: Seq<usize>, allow_alter: bool, j: int)
    requires
        leaf.len() <= usize::MAX,
        0 <= j < leaf.len(),
    ensures
        header_places(n, leaf, allow_alter, leaf.len() as int).contains(j as usize) <==> is_header(
            n,
            leaf,
            j,
            allow_alter,
        ),
        member_places(n, leaf, leaf.len() as int).contains(j as usize) <==> is_member(n, leaf, j),
{
    lemma_headers(n, leaf, allow_alter, leaf.len() as int, j);
}

/// A member has a body where `IS` or `AS` comes before the semicolon, unless it is
/// written in another language.
pub proof fn members_have_bodies(n: Seq<Node>, leaf: Seq<usize>, j: int, e: int)
    requires
        0 <= j <= e < leaf.len(),
        forall|i: int|
            j <= i < e ==> !(#[trigger] leaf_word(n, leaf, i) is Semicolon) && !(leaf_word(
                n,
                leaf,
                i,
            ) is Is) && !(leaf_word(n, leaf, i) is As),
    ensures
        leaf_word(n, leaf, e) is Semicolon ==> !goes_to_body(n, leaf, j),
        leaf_word(n, leaf, e) is Is || leaf_word(n, leaf, e) is As ==> (goes_to_body(n, leaf, j)
            <==> !(leaf_word(n, leaf, e + 1) is Language) && !(leaf_word(n, leaf, e + 1)
            is External)),
    decreases e - j,
{
    if j < e {
        assert(!(leaf_word(n, leaf, j) is Semicolon));
        members_have_bodies(n, leaf, j + 1, e);
    }
}

/// A run leads with the body of a package where it starts with `CREATE`, what may
/// follow that, and `PACKAGE BODY`.
pub proof fn package_bodies_lead_a_run(n: Seq<Node>, leaf: Seq<usize>)
    ensures
        ({
            let w = |j: int| leaf_word(n, leaf, j);
            let plain = w(1) is Package && w(2) is Body;
            let replaced = w(1) is Or && w(2) is Replace && w(3) is Package && w(4) is Body;
            let marked = (w(1) is Editionable || w(1) is Noneditionable) && w(2) is Package && w(3)
                is Body;
            let both = w(1) is Or && w(2) is Replace && (w(3) is Editionable || w(3)
                is Noneditionable) && w(4) is Package && w(5) is Body;
            leads_package_body(n, leaf) <==> w(0) is Create && (plain || replaced || marked || both)
        }),
{
}

// ── queries of a routine ───────────────────────────────────────────────

/// The queries of a part of a routine are its outermost ones; a routine that is
/// defined in it has its own.
pub proof fn routines_have_their_own_queries(n: Seq<Node>, c: int, hi: int)
    requires
        well_formed(n),
        0 <= c < hi <= n.len(),
        n[c].end <= hi,
    ensures
        ({
            let rest = shape_below(n, n[c].end as int, hi);
            let inner = exists|u: int|
                c < u < n[c].end && KindSet::Units.holds((#[trigger] n[u]).kind);
            &&& KindSet::Units.holds(n[c].kind) ==> shape_below(n, c, hi) == merged(
                no_query(),
                rest,
            )
            &&& !KindSet::Units.holds(n[c].kind) && inner ==> shape_below(n, c, hi) == merged(
                region_shape(n, c),
                rest,
            )
            &&& !KindSet::Units.holds(n[c].kind) && !inner ==> shape_below(n, c, hi) == merged(
                shape_of_list(n, query_roots(n, c), query_roots(n, c).len() as int),
                rest,
            )
        }),
{
    let p = Probe { set: KindSet::Units, deep: true, stop: KindSet::Empty, own: false };
    let s = crawl(n, c, p);
    let end = n[c].end as int;
    lemma_reported(n, c, p, end);
    if s.len() > 0 {
        assert(reports(n, c, p, s[0] as int));
        assert(KindSet::Units.holds(n[s[0] as int].kind));
    }
    if exists|u: int| c < u < n[c].end && KindSet::Units.holds((#[trigger] n[u]).kind) {
        let u = choose|u: int| c < u < n[c].end && KindSet::Units.holds((#[trigger] n[u]).kind);
        assert(open_to(n, c, p, u));
        let k = lemma_is_crawled(n, c, p, end, u);
    }
    assert(defines_routine(n, c) <==> s.len() > 0);
}

/// The outermost queries of a part are those in no other one.
pub proof fn outermost_queries_of_a_part(n: Seq<Node>, i: int, q: int)
    requires
        well_formed(n),
        0 <= i < n.len(),
        i <= q < n[i].end,
    ensures
        query_roots(n, i).contains(q as usize) <==> KindSet::QueryRoots.holds(n[q].kind) && forall|
            a: int,
        |
            i <= a < q && q < (#[trigger] n[a]).end ==> !KindSet::QueryRoots.holds(n[a].kind),
{
    let p = Probe { set: KindSet::QueryRoots, deep: false, stop: KindSet::Empty, own: true };
    let s = query_roots(n, i);
    let hi = n[i].end as int;
    lemma_reported(n, i, p, hi);
    if s.contains(q as usize) {
        let k = choose|k: int| 0 <= k < s.len() && s[k] == q as usize;
        assert(reports(n, i, p, s[k] as int));
        assert forall|a: int| i <= a < q && q < (#[trigger] n[a]).end implies !(
        KindSet::QueryRoots.holds(n[a].kind)) by {
            assert(!closes(n, i, p, a));
        }
    }
    if KindSet::QueryRoots.holds(n[q].kind) && (forall|a: int|
        i <= a < q && q < (#[trigger] n[a]).end ==> !KindSet::QueryRoots.holds(n[a].kind)) {
        assert(open_to(n, i, p, q));
        let k = lemma_is_crawled(n, i, p, hi, q);
        assert(s[k] == q as usize);
    }
}

// ── order ──────────────────────────────────────────────────────────────

/// Texts are in the order of the first character in which they differ, and a text
/// comes before every longer one that starts with it.
pub proof fn texts_are_in_lexicographic_order(
    p: Seq<char>,
    a: char,
    b: char,
    x: Seq<char>,
    y: Seq<char>,
)
    requires
        a < b,
    ensures
        text_less(p + seq![a] + x, p + seq![b] + y),
        !text_less(p + seq![b] + y, p + seq![a] + x),
        text_less(p, p + seq![a] + x),
        !text_less(p + seq![a] + x, p),
    decreases p.len(),
{
    let s = p + seq![a] + x;
    let t = p + seq![b] + y;
    if p.len() > 0 {
        let q = p.drop_first();
        texts_are_in_lexicographic_order(q, a, b, x, y);
        assert(s.drop_first() =~= q + seq![a] + x);
        assert(t.drop_first() =~= q + seq![b] + y);
    } else {
        assert(s[0] == a);
        assert(t[0] == b);
    }
}

} // verus!
