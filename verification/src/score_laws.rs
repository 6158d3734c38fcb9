//! How the scores of a file move with what is in it.

use vstd::prelude::*;

use crate::composite::{
    beyond, cognitive_score, credit, maintainability_terms, mental_load, modularity_terms, norm,
    review_terms, risk_score, structural_score, Share, Term,
};
use crate::ctes::CteFacts;
use crate::facts::{within_bounds, SqlFileFacts};
use crate::loc::SqlLoc;
use crate::objects::ChangeRiskFactor;
use crate::span::MAX_TEXT;

verus! {

// ── shares and indices ─────────────────────────────────────────────────

/// Whether a share is at least as large as another.
pub open spec fn no_less(a: Share, b: Share) -> bool {
    match (a, b) {
        (Share::Ratio { num: p, den: q }, Share::Ratio { num: r, den: s }) => q > 0 && s > 0 && p
            * s >= r * q,
        (
            Share::Volume { length: l, vocabulary: v, scale: c },
            Share::Volume { length: m, vocabulary: w, scale: d },
        ) => l >= m && v >= w && c == d,
        _ => false,
    }
}

/// Whether a share is larger than another.
pub open spec fn more(a: Share, b: Share) -> bool {
    match (a, b) {
        (Share::Ratio { num: p, den: q }, Share::Ratio { num: r, den: s }) => q > 0 && s > 0 && p
            * s > r * q,
        (
            Share::Volume { length: l, vocabulary: v, scale: c },
            Share::Volume { length: m, vocabulary: w, scale: d },
        ) => l > m && v >= w && c == d,
        _ => false,
    }
}

/// Whether a share is one half.
pub open spec fn is_half(a: Share) -> bool {
    a matches Share::Ratio { num, den } && den > 0 && 2 * num == den
}

/// Whether a share is all.
pub open spec fn is_whole(a: Share) -> bool {
    a matches Share::Ratio { num, den } && den > 0 && num == den
}

/// Whether a share is nothing.
pub open spec fn is_nothing(a: Share) -> bool {
    a matches Share::Ratio { num, den } && den > 0 && num == 0
}

/// Whether an index is no higher than another: what is added is no more, and
/// what is taken off is no less.
pub open spec fn no_higher(a: Seq<Term>, b: Seq<Term>) -> bool {
    &&& a.len() == b.len()
    &&& forall|i: int|
        0 <= i < a.len() ==> (#[trigger] a[i]).weight == b[i].weight && (if a[i].weight > 0 {
            no_less(b[i].share, a[i].share)
        } else {
            no_less(a[i].share, b[i].share)
        })
}

/// Whether something that an index loses for grows from one file to another.
pub open spec fn loses_more(a: Seq<Term>, b: Seq<Term>, weight: int) -> bool {
    exists|i: int|
        0 <= i < a.len() && (#[trigger] a[i]).weight == weight && weight < 0 && more(
            a[i].share,
            b[i].share,
        )
}

/// Whether something that an index gains by grows from one file to another.
pub open spec fn gains_more(a: Seq<Term>, b: Seq<Term>, weight: int) -> bool {
    exists|i: int|
        0 <= i < a.len() && (#[trigger] a[i]).weight == weight && weight > 0 && more(
            a[i].share,
            b[i].share,
        )
}

/// The weights of an index, added up.
pub open spec fn weights(s: Seq<Term>) -> int
    decreases s.len(),
{
    if s.len() == 0 {
        0
    } else {
        weights(s.drop_last()) + s.last().weight
    }
}

proof fn lemma_weights(s: Seq<Term>, k: int)
    requires
        0 <= k < s.len(),
    ensures
        weights(s.take(k + 1)) == weights(s.take(k)) + s[k].weight,
{
    assert(s.take(k + 1).drop_last() =~= s.take(k));
}

// ── what is complex ────────────────────────────────────────────────────

/// How many words a file has.
pub open spec fn words_in(f: SqlFileFacts) -> int {
    f.halstead.total_operators + f.halstead.total_operands
}

/// How many different words a file has.
pub open spec fn vocabulary_of(f: SqlFileFacts) -> int {
    f.halstead.distinct_operators + f.halstead.distinct_operands
}

/// Whether a file is at least as hard to maintain as another by everything that
/// counts.
pub open spec fn as_hard_as(f: SqlFileFacts, g: SqlFileFacts) -> bool {
    &&& words_in(f) >= words_in(g)
    &&& vocabulary_of(f) >= vocabulary_of(g)
    &&& cognitive_score(f) >= cognitive_score(g)
    &&& structural_score(f) >= structural_score(g)
    &&& f.predicates.boolean_operator_count >= g.predicates.boolean_operator_count
    &&& f.ctes.max_dependency_depth >= g.ctes.max_dependency_depth
    &&& f.subqueries.max_depth >= g.subqueries.max_depth
    &&& f.unparsable_segments >= g.unparsable_segments
}

proof fn lemma_norm(x: int, y: int, t: int)
    requires
        0 <= y <= x,
        0 < t,
    ensures
        x * (y + t) >= y * (x + t),
        x > y ==> x * (y + t) > y * (x + t),
        t * (x + t) >= t * (y + t),
        x > y ==> t * (x + t) > t * (y + t),
{
    assert(x * (y + t) - y * (x + t) == t * (x - y)) by (nonlinear_arith);
    assert(t * (x - y) >= 0) by (nonlinear_arith)
        requires
            0 < t,
            y <= x,
    ;
    assert(t * (x + t) - t * (y + t) == t * (x - y)) by (nonlinear_arith);
    if x > y {
        assert(t * (x - y) > 0) by (nonlinear_arith)
            requires
                0 < t,
                y < x,
        ;
    }
}

proof fn lemma_norms(x: int, y: int, t: int)
    requires
        0 <= y <= x,
        0 < t,
        x + t <= u128::MAX,
    ensures
        no_less(norm(x, t), norm(y, t)),
        x > y ==> more(norm(x, t), norm(y, t)),
{
    lemma_norm(x, y, t);
}

proof fn lemma_score_bounds(f: SqlFileFacts)
    requires
        within_bounds(f),
    ensures
        0 <= cognitive_score(f) <= 0x0800_0000_0000_0000_0000_0000_0000,
        0 <= structural_score(f) <= 0x0800_0000_0000_0000_0000_0000_0000,
        0 <= risk_score(f) <= 0x0800_0000_0000_0000_0000_0000_0000,
        words_in(f) <= u64::MAX,
        vocabulary_of(f) <= u64::MAX,
{
    assert(f.procedural.dynamic_sql_spans.len() == f.procedural.dynamic_sql_spans@.len());
}

// ── maintainability ────────────────────────────────────────────────────

/// The maintainability index starts whole, every other term takes off it, and
/// together they can take off all of it and no more.
pub proof fn maintainability_starts_whole(f: SqlFileFacts, conflicts: int)
    ensures
        ({
            let s = maintainability_terms(f, conflicts);
            &&& s.len() == 9
            &&& s[0].weight == 100
            &&& is_whole(s[0].share)
            &&& forall|i: int| 1 <= i < s.len() ==> (#[trigger] s[i]).weight < 0
            &&& weights(s) == 0
        }),
{
    let s = maintainability_terms(f, conflicts);
    assert(s.take(0) =~= Seq::<Term>::empty());
    assert(s.take(9) =~= s);
    lemma_weights(s, 0);
    lemma_weights(s, 1);
    lemma_weights(s, 2);
    lemma_weights(s, 3);
    lemma_weights(s, 4);
    lemma_weights(s, 5);
    lemma_weights(s, 6);
    lemma_weights(s, 7);
    lemma_weights(s, 8);
}

/// The maintainability index never rises with complexity, and it falls with each
/// kind of it: the index of a file that is at least as hard as another by
/// everything that counts is no higher, and whatever there is more of takes more
/// off.
pub proof fn maintainability_falls_with_complexity(
    f: SqlFileFacts,
    g: SqlFileFacts,
    c: int,
    d: int,
)
    requires
        within_bounds(f),
        within_bounds(g),
        as_hard_as(f, g),
        0 <= d <= c <= u8::MAX,
    ensures
        ({
            let a = maintainability_terms(f, c);
            let b = maintainability_terms(g, d);
            &&& no_higher(a, b)
            &&& words_in(f) > words_in(g) ==> loses_more(a, b, -22)
            &&& cognitive_score(f) > cognitive_score(g) ==> loses_more(a, b, -22)
            &&& structural_score(f) > structural_score(g) ==> loses_more(a, b, -16)
            &&& f.predicates.boolean_operator_count > g.predicates.boolean_operator_count
                ==> loses_more(a, b, -12)
            &&& f.ctes.max_dependency_depth > g.ctes.max_dependency_depth ==> loses_more(a, b, -10)
            &&& f.subqueries.max_depth > g.subqueries.max_depth ==> loses_more(a, b, -8)
            &&& f.unparsable_segments > g.unparsable_segments ==> loses_more(a, b, -5)
            &&& c > d ==> loses_more(a, b, -5)
        }),
{
    let a = maintainability_terms(f, c);
    let b = maintainability_terms(g, d);
    lemma_score_bounds(f);
    lemma_score_bounds(g);
    lemma_norm(cognitive_score(f), cognitive_score(g), 240);
    lemma_norm(structural_score(f), structural_score(g), 8000);
    lemma_norm(
        f.predicates.boolean_operator_count as int,
        g.predicates.boolean_operator_count as int,
        30,
    );
    lemma_norm(f.ctes.max_dependency_depth as int, g.ctes.max_dependency_depth as int, 6);
    lemma_norm(f.subqueries.max_depth as int, g.subqueries.max_depth as int, 4);
    lemma_norm(f.unparsable_segments as int, g.unparsable_segments as int, 5);
    lemma_norm(c, d, 20);
    assert(a[1].weight == -22 && a[2].weight == -22 && a[3].weight == -16 && a[4].weight == -12
        && a[5].weight == -10 && a[6].weight == -8 && a[7].weight == -5 && a[8].weight == -5);
}

/// What takes off the maintainability index takes off half of its weight at a
/// fixed amount: sixty points of cognitive and eighty of structural complexity,
/// thirty boolean operators, chains of six expressions, subqueries four deep,
/// five unparsable segments, twenty conflicting dialects.
pub proof fn maintainability_is_halved_at(f: SqlFileFacts, conflicts: int)
    requires
        within_bounds(f),
        0 <= conflicts <= u8::MAX,
    ensures
        ({
            let s = maintainability_terms(f, conflicts);
            &&& cognitive_score(f) == 240 <==> is_half(s[2].share)
            &&& structural_score(f) == 8000 <==> is_half(s[3].share)
            &&& f.predicates.boolean_operator_count == 30 <==> is_half(s[4].share)
            &&& f.ctes.max_dependency_depth == 6 <==> is_half(s[5].share)
            &&& f.subqueries.max_depth == 4 <==> is_half(s[6].share)
            &&& f.unparsable_segments == 5 <==> is_half(s[7].share)
            &&& conflicts == 20 <==> is_half(s[8].share)
            &&& s[1].share == (Share::Volume {
                length: words_in(f) as u64,
                vocabulary: vocabulary_of(f) as u64,
                scale: 1500,
            })
        }),
{
    lemma_score_bounds(f);
}

// ── review burden ──────────────────────────────────────────────────────

/// Whether a file is at least as hard to review as another by everything that
/// counts but its comments.
pub open spec fn as_burdensome_as(
    f: SqlFileFacts,
    l: SqlLoc,
    c: int,
    g: SqlFileFacts,
    m: SqlLoc,
    d: int,
) -> bool {
    &&& cognitive_score(f) >= cognitive_score(g)
    &&& structural_score(f) >= structural_score(g)
    &&& f.objects.read_object_count + f.objects.write_object_count
        >= g.objects.read_object_count + g.objects.write_object_count
    &&& risk_score(f) >= risk_score(g)
    &&& words_in(f) >= words_in(g)
    &&& vocabulary_of(f) >= vocabulary_of(g)
    &&& f.unparsable_segments >= g.unparsable_segments
    &&& c >= d
    &&& l.code >= m.code
}

/// The review burden index never falls with what makes a file hard to review,
/// and it rises with each kind of it, as long as comments take off no more.
pub proof fn review_burden_rises_with_complexity(
    f: SqlFileFacts,
    l: SqlLoc,
    c: int,
    g: SqlFileFacts,
    m: SqlLoc,
    d: int,
)
    requires
        within_bounds(f),
        within_bounds(g),
        l.code <= MAX_TEXT && l.comment <= MAX_TEXT,
        m.code <= MAX_TEXT && m.comment <= MAX_TEXT,
        0 <= d && c <= u8::MAX,
        as_burdensome_as(f, l, c, g, m, d),
        no_less(review_terms(g, m, d)[8].share, review_terms(f, l, c)[8].share),
    ensures
        ({
            let a = review_terms(f, l, c);
            let b = review_terms(g, m, d);
            &&& a.len() == 9
            &&& no_higher(b, a)
            &&& cognitive_score(f) > cognitive_score(g) ==> gains_more(a, b, 30)
            &&& structural_score(f) > structural_score(g) ==> gains_more(a, b, 18)
            &&& f.objects.read_object_count + f.objects.write_object_count
                > g.objects.read_object_count + g.objects.write_object_count ==> gains_more(
                a,
                b,
                14,
            )
            &&& risk_score(f) > risk_score(g) ==> gains_more(a, b, 12)
            &&& words_in(f) > words_in(g) ==> gains_more(a, b, 10)
            &&& f.unparsable_segments > g.unparsable_segments ==> gains_more(a, b, 8)
            &&& c > d ==> gains_more(a, b, 5)
            &&& l.code > m.code ==> gains_more(a, b, 5)
        }),
{
    let a = review_terms(f, l, c);
    let b = review_terms(g, m, d);
    lemma_score_bounds(f);
    lemma_score_bounds(g);
    lemma_norms(cognitive_score(f), cognitive_score(g), 240);
    lemma_norms(structural_score(f), structural_score(g), 8000);
    lemma_norms(
        f.objects.read_object_count + f.objects.write_object_count,
        g.objects.read_object_count + g.objects.write_object_count,
        20,
    );
    lemma_norms(risk_score(f), risk_score(g), 25);
    lemma_norms(f.unparsable_segments as int, g.unparsable_segments as int, 5);
    lemma_norms(c, d, 20);
    lemma_norms(l.code as int, m.code as int, 300);
    assert(a[0].weight == 30 && a[1].weight == 18 && a[2].weight == 14 && a[3].weight == 12
        && a[4].weight == 10 && a[5].weight == 8 && a[6].weight == 5 && a[7].weight == 5
        && a[8].weight == -2);
    assert(no_less(a[0].share, b[0].share));
    assert(no_less(a[1].share, b[1].share));
    assert(no_less(a[2].share, b[2].share));
    assert(no_less(a[3].share, b[3].share));
    assert(no_less(a[4].share, b[4].share));
    assert(no_less(a[5].share, b[5].share));
    assert(no_less(a[6].share, b[6].share));
    assert(no_less(a[7].share, b[7].share));
}

/// What makes a file hard to review adds to the review burden index, all of it
/// together a hundred and two hundredths; comments take off the two.
pub proof fn review_burden_can_be_whole(f: SqlFileFacts, loc: SqlLoc, conflicts: int)
    ensures
        ({
            let s = review_terms(f, loc, conflicts);
            &&& s.len() == 9
            &&& forall|i: int| 0 <= i < 8 ==> (#[trigger] s[i]).weight > 0
            &&& s[8].weight == -2
            &&& weights(s) == 100
        }),
{
    let a = review_terms(f, loc, conflicts);
    assert(a.take(0) =~= Seq::<Term>::empty());
    assert(a.take(9) =~= a);
    lemma_weights(a, 0);
    lemma_weights(a, 1);
    lemma_weights(a, 2);
    lemma_weights(a, 3);
    lemma_weights(a, 4);
    lemma_weights(a, 5);
    lemma_weights(a, 6);
    lemma_weights(a, 7);
    lemma_weights(a, 8);
}

/// What adds to the review burden adds half of its weight at a fixed amount, and
/// comments take off all of theirs from a fifth of the lines with text on.
pub proof fn review_burden_is_halved_at(f: SqlFileFacts, loc: SqlLoc, conflicts: int)
    requires
        within_bounds(f),
        loc.code <= MAX_TEXT && loc.comment <= MAX_TEXT,
        0 <= conflicts <= u8::MAX,
    ensures
        ({
            let s = review_terms(f, loc, conflicts);
            &&& cognitive_score(f) == 240 <==> is_half(s[0].share)
            &&& structural_score(f) == 8000 <==> is_half(s[1].share)
            &&& f.objects.read_object_count + f.objects.write_object_count == 20 <==> is_half(
                s[2].share,
            )
            &&& risk_score(f) == 25 <==> is_half(s[3].share)
            &&& s[4].share == (Share::Volume {
                length: words_in(f) as u64,
                vocabulary: vocabulary_of(f) as u64,
                scale: 1500,
            })
            &&& f.unparsable_segments == 5 <==> is_half(s[5].share)
            &&& conflicts == 20 <==> is_half(s[6].share)
            &&& loc.code == 300 <==> is_half(s[7].share)
            &&& is_nothing(s[8].share) <==> loc.comment == 0
            &&& is_whole(s[8].share) <==> loc.comment > 0 && 5 * loc.comment >= loc.code
                + loc.comment
            &&& is_half(s[8].share) <==> loc.comment > 0 && 10 * loc.comment == loc.code
                + loc.comment
        }),
{
    lemma_score_bounds(f);
}

// ── modularity ─────────────────────────────────────────────────────────

/// The modularity index has no terms without common table expressions; with
/// them it can be whole, it loses with unused and trivial ones, with long chains,
/// with much shared ones and with derived tables, and with nothing else.
pub proof fn modularity_falls_with_entanglement(f: SqlFileFacts, g: SqlFileFacts)
    requires
        within_bounds(f),
        within_bounds(g),
        f.ctes.count == g.ctes.count,
        f.ctes.unused_count >= g.ctes.unused_count,
        f.ctes.trivial_count >= g.ctes.trivial_count,
        f.ctes.max_dependency_depth >= g.ctes.max_dependency_depth,
        f.ctes.max_fan_out >= g.ctes.max_fan_out,
        f.subqueries.derived_table_count >= g.subqueries.derived_table_count,
    ensures
        ({
            let a = modularity_terms(f);
            let b = modularity_terms(g);
            &&& a.len() == if f.ctes.count == 0 {
                0int
            } else {
                5
            }
            &&& no_higher(a, b)
            &&& f.ctes.count > 0 ==> {
                &&& weights(a) == 100
                &&& forall|i: int| 0 <= i < a.len() ==> (#[trigger] a[i]).weight > 0
                &&& f.ctes.count >= f.ctes.unused_count > g.ctes.unused_count ==> gains_more(
                    b,
                    a,
                    35,
                )
                &&& f.ctes.max_dependency_depth > g.ctes.max_dependency_depth ==> gains_more(
                    b,
                    a,
                    25,
                )
                &&& f.ctes.max_fan_out > g.ctes.max_fan_out ==> gains_more(b, a, 15)
                &&& f.subqueries.derived_table_count > g.subqueries.derived_table_count
                    ==> gains_more(b, a, 15)
                &&& f.ctes.count >= f.ctes.trivial_count > g.ctes.trivial_count ==> gains_more(
                    b,
                    a,
                    10,
                )
                &&& f.ctes.unused_count == 0 <==> is_whole(a[0].share)
                &&& f.ctes.max_dependency_depth == 6 <==> is_half(a[1].share)
                &&& f.ctes.max_fan_out == 8 <==> is_half(a[2].share)
                &&& f.subqueries.derived_table_count == 5 <==> is_half(a[3].share)
                &&& f.ctes.trivial_count == 0 <==> is_whole(a[4].share)
            }
        }),
{
    let a = modularity_terms(f);
    let b = modularity_terms(g);
    if f.ctes.count > 0 {
        let n = f.ctes.count as int;
        lemma_norm(f.ctes.max_dependency_depth as int, g.ctes.max_dependency_depth as int, 6);
        lemma_norm(f.ctes.max_fan_out as int, g.ctes.max_fan_out as int, 8);
        lemma_norm(
            f.subqueries.derived_table_count as int,
            g.subqueries.derived_table_count as int,
            5,
        );
        lemma_parts(
            beyond(n, f.ctes.unused_count as int),
            beyond(n, g.ctes.unused_count as int),
            n,
        );
        lemma_parts(
            beyond(n, f.ctes.trivial_count as int),
            beyond(n, g.ctes.trivial_count as int),
            n,
        );
        assert(b[0].weight == 35 && b[1].weight == 25 && b[2].weight == 15 && b[3].weight == 15
            && b[4].weight == 10);
        assert(a.take(0) =~= Seq::<Term>::empty());
        assert(a.take(5) =~= a);
        lemma_weights(a, 0);
        lemma_weights(a, 1);
        lemma_weights(a, 2);
        lemma_weights(a, 3);
        lemma_weights(a, 4);
    }
}

proof fn lemma_parts(x: int, y: int, n: int)
    requires
        0 <= x <= y,
        0 < n,
    ensures
        y * n >= x * n,
        y > x ==> y * n > x * n,
{
    assert(y * n - x * n == (y - x) * n) by (nonlinear_arith);
    assert((y - x) * n >= 0) by (nonlinear_arith)
        requires
            x <= y,
            0 < n,
    ;
    if y > x {
        assert((y - x) * n > 0) by (nonlinear_arith)
            requires
                x < y,
                0 < n,
        ;
    }
}

// ── points ─────────────────────────────────────────────────────────────

/// The structural score of two files differs by what they differ in, each
/// construct at its own price in hundredths: an outer join costs more than an
/// inner one, a cross join most.
pub proof fn structural_points_are_prices(f: SqlFileFacts, g: SqlFileFacts)
    ensures
        structural_score(f) - structural_score(g) == 100 * (f.query_block_count
            - g.query_block_count) + 80 * (f.ctes.count - g.ctes.count) + 120 * (
        f.ctes.max_dependency_depth - g.ctes.max_dependency_depth) + 100 * (f.joins.total
            - g.joins.total) + 80 * (f.joins.left - g.joins.left) + 80 * (f.joins.right
            - g.joins.right) + 80 * (f.joins.full - g.joins.full) + 200 * (f.joins.cross
            - g.joins.cross) + 150 * (f.subqueries.count - g.subqueries.count) + 125 * (
        f.subqueries.max_depth - g.subqueries.max_depth) + 200 * (f.subqueries.correlated_count
            - g.subqueries.correlated_count) + 50 * (f.subqueries.derived_table_count
            - g.subqueries.derived_table_count) + 35 * (f.predicates.boolean_operator_count
            - g.predicates.boolean_operator_count) + 100 * (f.predicates.max_boolean_depth
            - g.predicates.max_boolean_depth) + 80 * (f.cases.count - g.cases.count) + 80 * (
        f.cases.max_depth - g.cases.max_depth) + 60 * (f.windows.function_count
            - g.windows.function_count) + 35 * (f.aggregates.function_count
            - g.aggregates.function_count) + 100 * (f.set_ops.count - g.set_ops.count) + 50 * (
        f.expressions.max_depth - g.expressions.max_depth),
{
}

/// What a reader keeps in mind differs between two files by what they differ in,
/// in quarters of a point; the first dependency, the first level of `CASE` and
/// the first two levels of boolean logic are free.
pub proof fn mental_load_is_added_up(f: SqlFileFacts, g: SqlFileFacts)
    requires
        f.ctes.dependency_edges >= 1 && g.ctes.dependency_edges >= 1,
        f.cases.max_depth >= 1 && g.cases.max_depth >= 1,
        f.predicates.max_boolean_depth >= 2 && g.predicates.max_boolean_depth >= 2,
    ensures
        mental_load(f) - mental_load(g) == 4 * (f.query_block_count - g.query_block_count) + 4 * (
        f.subqueries.max_depth - g.subqueries.max_depth) + 8 * (f.subqueries.correlated_count
            - g.subqueries.correlated_count) + 4 * (f.ctes.count - g.ctes.count) + 4 * (
        f.ctes.dependency_edges - g.ctes.dependency_edges) + 4 * (f.joins.total - g.joins.total) + 4
            * (f.joins.left - g.joins.left) + 4 * (f.joins.right - g.joins.right) + 4 * (
        f.joins.full - g.joins.full) + 4 * (f.joins.cross - g.joins.cross) + 4 * (f.joins.natural
            - g.joins.natural) + 4 * (f.joins.lateral - g.joins.lateral) + 4 * (f.cases.count
            - g.cases.count) + 4 * (f.cases.max_depth - g.cases.max_depth) + (
        f.cases.surplus_when_arms - g.cases.surplus_when_arms) + (
        f.predicates.boolean_operator_count - g.predicates.boolean_operator_count) + 4 * (
        f.predicates.max_boolean_depth - g.predicates.max_boolean_depth) + 2 * (
        f.windows.function_count - g.windows.function_count) + 4 * (f.windows.frame_count
            - g.windows.frame_count) + 2 * (f.set_ops.count - g.set_ops.count) + (
        f.output.expression_without_alias_count - g.output.expression_without_alias_count) + 2 * (
        f.output.outer_star_count - g.output.outer_star_count),
{
}

/// The first dependency, the first level of `CASE` and the first two levels of
/// boolean logic weigh as much as none.
pub proof fn first_levels_are_free(f: SqlFileFacts, g: SqlFileFacts)
    requires
        g == (SqlFileFacts {
            ctes: CteFacts { dependency_edges: 0, ..f.ctes },
            cases: crate::clauses::CaseFacts { max_depth: 0, ..f.cases },
            predicates: crate::predicates::PredicateFacts { max_boolean_depth: 0, ..f.predicates },
            ..f
        }),
    ensures
        mental_load(f) == mental_load(g) <==> f.ctes.dependency_edges <= 1 && f.cases.max_depth <= 1
            && f.predicates.max_boolean_depth <= 2,
        mental_load(f) >= mental_load(g),
{
}

/// Common table expressions that are used earn three quarters of a point each
/// where chains are at most three long, a quarter where they are longer, and five
/// points at most; the cognitive score is what they leave, and never negative.
pub proof fn used_expressions_earn_credit(f: SqlFileFacts)
    requires
        f.ctes.unused_count <= f.ctes.count,
    ensures
        ({
            let used = f.ctes.count - f.ctes.unused_count;
            let each = if f.ctes.max_dependency_depth <= 3 {
                3int
            } else {
                1
            };
            &&& each * used <= 20 ==> credit(f.ctes) == each * used
            &&& each * used >= 20 ==> credit(f.ctes) == 20
            &&& mental_load(f) >= credit(f.ctes) ==> cognitive_score(f) == mental_load(f) - credit(
                f.ctes,
            )
            &&& mental_load(f) < credit(f.ctes) ==> cognitive_score(f) == 0
        }),
{
}

/// The change-risk score of two files differs by what they differ in: losing
/// data or structure weighs most, reading an object least.
pub proof fn risk_points_are_weights(f: SqlFileFacts, g: SqlFileFacts)
    ensures
        risk_score(f) - risk_score(g) == 8 * (f.objects.drop_count - g.objects.drop_count) + 8 * (
        f.objects.truncate_count - g.objects.truncate_count) + 6 * (f.objects.alter_count
            - g.objects.alter_count) + 6 * (f.objects.delete_without_where_count
            - g.objects.delete_without_where_count) + 6 * (f.objects.update_without_where_count
            - g.objects.update_without_where_count) + 5 * (f.objects.grant_revoke_count
            - g.objects.grant_revoke_count) + 5 * (f.procedural.dynamic_sql_spans@.len()
            - g.procedural.dynamic_sql_spans@.len()) + 4 * (f.objects.merge_count
            - g.objects.merge_count) + 4 * (f.objects.create_or_replace_count
            - g.objects.create_or_replace_count) + 3 * (f.objects.transaction_control_count
            - g.objects.transaction_control_count) + 2 * (f.objects.write_object_count
            - g.objects.write_object_count) + (f.objects.read_object_count
            - g.objects.read_object_count),
{
}

/// A risk weighs the more the more it can destroy: dropping and truncating most,
/// then altering and changing rows without a condition, then handing out rights
/// and running built text, then merging and replacing, then transactions, then
/// writing and reading.
pub proof fn risks_are_ranked()
    ensures
        ChangeRiskFactor::Drop.weight() == ChangeRiskFactor::Truncate.weight() == 8,
        ChangeRiskFactor::Alter.weight() == 6,
        ChangeRiskFactor::DeleteWithoutWhere.weight() == ChangeRiskFactor::UpdateWithoutWhere.weight()
            == 6,
        ChangeRiskFactor::GrantRevoke.weight() == ChangeRiskFactor::DynamicSql.weight() == 5,
        ChangeRiskFactor::Merge.weight() == ChangeRiskFactor::CreateOrReplace.weight() == 4,
        ChangeRiskFactor::TransactionControl.weight() == 3,
        ChangeRiskFactor::WriteObject.weight() == 2,
        ChangeRiskFactor::ReadObject.weight() == 1,
{
}

} // verus!
