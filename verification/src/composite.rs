//! Composite scores: explainable weighted combinations of a file's facts.
//!
//! Scores are exact. A score with fractional weights is counted in the unit
//! that its weights are multiples of; an index is the list of its weighted
//! shares.

use vstd::prelude::*;

use crate::ctes::CteFacts;
use crate::dialect::DialectResolution;
use crate::facts::{within_bounds, SqlFileFacts};
use crate::loc::SqlLoc;
use crate::query_shape::{bounded, structural, QueryFacts, QueryShape};
use crate::span::MAX_TEXT;

verus! {

/// A share between zero and one.
#[derive(Clone, Copy, Debug, PartialEq, Eq, Structural)]
pub enum Share {
    /// The quotient of two numbers.
    Ratio { num: u128, den: u128 },
    /// The Halstead volume `v` of a text with `length` words out of a
    /// vocabulary, as `v / (v + scale)`.
    Volume { length: u64, vocabulary: u64, scale: u64 },
}

/// A share of an index with its weight, in hundredths of the index.
#[derive(Clone, Copy, Debug, PartialEq, Eq, Structural)]
pub struct Term {
    pub weight: i64,
    pub share: Share,
}

/// The scores of a file.
pub struct CompositeScores {
    /// In hundredths.
    pub structural_complexity: u128,
    /// In quarters.
    pub cognitive_complexity: u128,
    pub change_risk_score: u128,
    /// The index is the sum of its terms between zero and one, as a percentage.
    pub review_burden_index: Vec<Term>,
    pub maintainability_index: Vec<Term>,
    /// Without terms where a file has no common table expressions.
    pub modularity_health: Vec<Term>,
}

// ── vocabulary ─────────────────────────────────────────────────────────

/// `x / (x + t)`: close to one for an `x` much larger than `t`.
pub open spec fn norm(x: int, t: int) -> Share {
    Share::Ratio { num: x as u128, den: (x + t) as u128 }
}

pub open spec fn term(weight: int, share: Share) -> Term {
    Term { weight: weight as i64, share }
}

/// What is left of `a` without `b`, nothing at least.
pub open spec fn beyond(a: int, b: int) -> int {
    if a > b {
        a - b
    } else {
        0
    }
}

/// The Halstead volume of a file against the volume of a large one.
pub open spec fn volume_share(f: SqlFileFacts) -> Share {
    Share::Volume {
        length: (f.halstead.total_operators + f.halstead.total_operands) as u64,
        vocabulary: (f.halstead.distinct_operators + f.halstead.distinct_operands) as u64,
        scale: 1500,
    }
}

// ── structural complexity ──────────────────────────────────────────────

/// What of a file feeds its structural score.
pub open spec fn shape_of(f: SqlFileFacts) -> QueryShape {
    QueryShape {
        query_blocks: f.query_block_count as nat,
        ctes: f.ctes.count as nat,
        cte_depth: f.ctes.max_dependency_depth as nat,
        joins: f.joins.total as nat,
        outer_joins: (f.joins.left + f.joins.right + f.joins.full) as nat,
        cross_joins: f.joins.cross as nat,
        subqueries: f.subqueries.count as nat,
        subquery_depth: f.subqueries.max_depth as nat,
        correlated: f.subqueries.correlated_count as nat,
        derived_tables: f.subqueries.derived_table_count as nat,
        boolean_operators: f.predicates.boolean_operator_count as nat,
        boolean_depth: f.predicates.max_boolean_depth as nat,
        cases: f.cases.count as nat,
        case_depth: f.cases.max_depth as nat,
        windows: f.windows.function_count as nat,
        aggregates: f.aggregates.function_count as nat,
        set_ops: f.set_ops.count as nat,
        expression_depth: f.expressions.max_depth as nat,
    }
}

/// The structural score of a file, in hundredths.
pub open spec fn structural_score(f: SqlFileFacts) -> int {
    structural(shape_of(f)) as int
}

// ── cognitive complexity ───────────────────────────────────────────────

/// The expressions that some query uses.
pub open spec fn used_ctes(c: CteFacts) -> int {
    beyond(c.count as int, c.unused_count as int)
}

/// What shallow and used common table expressions take off, in quarters: five
/// points at most.
pub open spec fn credit(c: CteFacts) -> int {
    let earned = if c.max_dependency_depth <= 3 {
        3 * used_ctes(c)
    } else {
        used_ctes(c)
    };
    if earned < 20 {
        earned
    } else {
        20
    }
}

/// What a reader has to keep in mind, in quarters.
pub open spec fn mental_load(f: SqlFileFacts) -> int {
    let j = f.joins;
    4 * f.query_block_count + 4 * f.subqueries.max_depth + 8 * f.subqueries.correlated_count + 4
        * f.ctes.count + 4 * beyond(f.ctes.dependency_edges as int, 1) + 4 * j.total + 4 * (j.left
        + j.right + j.full + j.cross + j.natural + j.lateral) + 4 * f.cases.count + 4 * beyond(
        f.cases.max_depth as int,
        1,
    ) + f.cases.surplus_when_arms + f.predicates.boolean_operator_count + 4 * beyond(
        f.predicates.max_boolean_depth as int,
        2,
    ) + 2 * f.windows.function_count + 4 * f.windows.frame_count + 2 * f.set_ops.count
        + f.output.expression_without_alias_count + 2 * f.output.outer_star_count
}

/// The cognitive score of a file, in quarters.
pub open spec fn cognitive_score(f: SqlFileFacts) -> int {
    beyond(mental_load(f), credit(f.ctes))
}

// ── change risk ────────────────────────────────────────────────────────

/// The change-risk score of a file.
pub open spec fn risk_score(f: SqlFileFacts) -> int {
    let o = f.objects;
    8 * o.drop_count + 8 * o.truncate_count + 6 * o.alter_count + 6 * o.delete_without_where_count
        + 6 * o.update_without_where_count + 5 * o.grant_revoke_count + 5
        * f.procedural.dynamic_sql_spans@.len() + 4 * o.merge_count + 4 * o.create_or_replace_count
        + 3 * o.transaction_control_count + 2 * o.write_object_count + o.read_object_count
}

// ── indices ────────────────────────────────────────────────────────────

/// How far comments come towards a fifth of the lines with text.
pub open spec fn comment_share(loc: SqlLoc) -> Share {
    let lines = loc.code + loc.comment;
    if lines == 0 {
        Share::Ratio { num: 0, den: 1 }
    } else if 5 * loc.comment < lines {
        Share::Ratio { num: (5 * loc.comment) as u128, den: lines as u128 }
    } else {
        Share::Ratio { num: 1, den: 1 }
    }
}

/// The terms of the review burden index.
pub open spec fn review_terms(f: SqlFileFacts, loc: SqlLoc, conflicts: int) -> Seq<Term> {
    seq![
        term(30, norm(cognitive_score(f), 240)),
        term(18, norm(structural_score(f), 8000)),
        term(14, norm(f.objects.read_object_count + f.objects.write_object_count, 20)),
        term(12, norm(risk_score(f), 25)),
        term(10, volume_share(f)),
        term(8, norm(f.unparsable_segments as int, 5)),
        term(5, norm(conflicts, 20)),
        term(5, norm(loc.code as int, 300)),
        term(-2, comment_share(loc)),
    ]
}

/// The terms of the maintainability index: all of it, less what puts it at
/// risk.
pub open spec fn maintainability_terms(f: SqlFileFacts, conflicts: int) -> Seq<Term> {
    seq![
        term(100, Share::Ratio { num: 1, den: 1 }),
        term(-22, volume_share(f)),
        term(-22, norm(cognitive_score(f), 240)),
        term(-16, norm(structural_score(f), 8000)),
        term(-12, norm(f.predicates.boolean_operator_count as int, 30)),
        term(-10, norm(f.ctes.max_dependency_depth as int, 6)),
        term(-8, norm(f.subqueries.max_depth as int, 4)),
        term(-5, norm(f.unparsable_segments as int, 5)),
        term(-5, norm(conflicts, 20)),
    ]
}

/// What `norm(x, t)` leaves of one.
pub open spec fn remainder(x: int, t: int) -> Share {
    Share::Ratio { num: t as u128, den: (x + t) as u128 }
}

/// The terms of the modularity index.
pub open spec fn modularity_terms(f: SqlFileFacts) -> Seq<Term> {
    let c = f.ctes;
    if c.count == 0 {
        Seq::empty()
    } else {
        seq![
            term(35, Share::Ratio { num: used_ctes(c) as u128, den: c.count as u128 }),
            term(25, remainder(c.max_dependency_depth as int, 6)),
            term(15, remainder(c.max_fan_out as int, 8)),
            term(15, remainder(f.subqueries.derived_table_count as int, 5)),
            term(
                10,
                Share::Ratio {
                    num: beyond(c.count as int, c.trivial_count as int) as u128,
                    den: c.count as u128,
                },
            ),
        ]
    }
}

/// Whether scores are those of a file.
pub open spec fn describes_scores(
    f: SqlFileFacts,
    loc: SqlLoc,
    conflicts: int,
    r: CompositeScores,
) -> bool {
    &&& r.structural_complexity == structural_score(f)
    &&& r.cognitive_complexity == cognitive_score(f)
    &&& r.change_risk_score == risk_score(f)
    &&& r.review_burden_index@ == review_terms(f, loc, conflicts)
    &&& r.maintainability_index@ == maintainability_terms(f, conflicts)
    &&& r.modularity_health@ == modularity_terms(f)
}

// ── execution ──────────────────────────────────────────────────────────

fn less(a: u128, b: u128) -> (r: u128)
    ensures
        r == beyond(a as int, b as int),
{
    if a > b {
        a - b
    } else {
        0
    }
}

fn against(x: u128, t: u128) -> (r: Share)
    requires
        x + t <= u128::MAX,
    ensures
        r == norm(x as int, t as int),
{
    Share::Ratio { num: x, den: x + t }
}

/// The structural score of a file, in hundredths.
pub fn structural_of(f: &SqlFileFacts) -> (r: u128)
    ensures
        r == structural_score(*f),
        r <= 0x0800_0000_0000_0000_0000_0000_0000,
{
    let q = QueryFacts {
        query_blocks: f.query_block_count as u128,
        ctes: f.ctes.count as u128,
        cte_depth: f.ctes.max_dependency_depth as u128,
        joins: f.joins.total as u128,
        outer_joins: f.joins.left as u128 + f.joins.right as u128 + f.joins.full as u128,
        cross_joins: f.joins.cross as u128,
        subqueries: f.subqueries.count as u128,
        subquery_depth: f.subqueries.max_depth as u128,
        correlated: f.subqueries.correlated_count as u128,
        derived_tables: f.subqueries.derived_table_count as u128,
        boolean_operators: f.predicates.boolean_operator_count as u128,
        boolean_depth: f.predicates.max_boolean_depth as u128,
        cases: f.cases.count as u128,
        case_depth: f.cases.max_depth as u128,
        windows: f.windows.function_count as u128,
        aggregates: f.aggregates.function_count as u128,
        set_ops: f.set_ops.count as u128,
        expression_depth: f.expressions.max_depth as u128,
    };
    proof {
        reveal(bounded);
    }
    q.structural()
}

/// What shallow and used common table expressions take off, in quarters.
pub fn modularization_credit(c: &CteFacts) -> (r: u128)
    ensures
        r == credit(*c),
{
    let used: u128 = less(c.count as u128, c.unused_count as u128);
    let earned: u128 = if c.max_dependency_depth <= 3 {
        3 * used
    } else {
        used
    };
    if earned < 20 {
        earned
    } else {
        20
    }
}

/// The cognitive score of a file, in quarters.
pub fn cognitive_of(f: &SqlFileFacts) -> (r: u128)
    requires
        within_bounds(*f),
    ensures
        r == cognitive_score(*f),
        r <= 0x0800_0000_0000_0000_0000_0000_0000,
{
    let j = &f.joins;
    let special: u128 = j.left as u128 + j.right as u128 + j.full as u128 + j.cross as u128
        + j.natural as u128 + j.lateral as u128;
    let load: u128 = 4 * f.query_block_count as u128 + 4 * f.subqueries.max_depth as u128 + 8
        * f.subqueries.correlated_count as u128 + 4 * f.ctes.count as u128 + 4 * less(
        f.ctes.dependency_edges,
        1,
    ) + 4 * j.total as u128 + 4 * special + 4 * f.cases.count as u128 + 4 * less(
        f.cases.max_depth as u128,
        1,
    ) + f.cases.surplus_when_arms as u128 + f.predicates.boolean_operator_count as u128 + 4 * less(
        f.predicates.max_boolean_depth as u128,
        2,
    ) + 2 * f.windows.function_count as u128 + 4 * f.windows.frame_count as u128 + 2
        * f.set_ops.count as u128 + f.output.expression_without_alias_count as u128 + 2
        * f.output.outer_star_count as u128;
    less(load, modularization_credit(&f.ctes))
}

/// The change-risk score of a file.
pub fn change_risk_of(f: &SqlFileFacts) -> (r: u128)
    ensures
        r == risk_score(*f),
        r <= 0x0800_0000_0000_0000_0000_0000_0000,
{
    let o = &f.objects;
    8 * o.drop_count as u128 + 8 * o.truncate_count as u128 + 6 * o.alter_count as u128 + 6
        * o.delete_without_where_count as u128 + 6 * o.update_without_where_count as u128 + 5
        * o.grant_revoke_count as u128 + 5 * f.procedural.dynamic_sql_spans.len() as u128 + 4
        * o.merge_count as u128 + 4 * o.create_or_replace_count as u128 + 3
        * o.transaction_control_count as u128 + 2 * o.write_object_count as u128
        + o.read_object_count as u128
}

fn volume_of(f: &SqlFileFacts) -> (r: Share)
    requires
        within_bounds(*f),
    ensures
        r == volume_share(*f),
{
    Share::Volume {
        length: f.halstead.total_operators + f.halstead.total_operands,
        vocabulary: f.halstead.distinct_operators + f.halstead.distinct_operands,
        scale: 1500,
    }
}

fn comments_of(loc: &SqlLoc) -> (r: Share)
    requires
        loc.code <= MAX_TEXT,
        loc.comment <= MAX_TEXT,
    ensures
        r == comment_share(*loc),
{
    let lines: u128 = loc.code as u128 + loc.comment as u128;
    let five: u128 = 5 * loc.comment as u128;
    if lines == 0 {
        Share::Ratio { num: 0, den: 1 }
    } else if five < lines {
        Share::Ratio { num: five, den: lines }
    } else {
        Share::Ratio { num: 1, den: 1 }
    }
}

/// The scores of a file.
pub fn compute(f: &SqlFileFacts, loc: &SqlLoc, dialect: &DialectResolution) -> (r: CompositeScores)
    requires
        within_bounds(*f),
        loc.code <= MAX_TEXT,
        loc.comment <= MAX_TEXT,
    ensures
        describes_scores(*f, *loc, dialect.conflict_count as int, r),
{
    let structural: u128 = structural_of(f);
    let cognitive: u128 = cognitive_of(f);
    let risk: u128 = change_risk_of(f);
    let volume = volume_of(f);
    let conflicts: u128 = dialect.conflict_count as u128;
    let touch: u128 = f.objects.read_object_count as u128 + f.objects.write_object_count as u128;

    let review_burden_index: Vec<Term> = vec![
        Term { weight: 30, share: against(cognitive, 240) },
        Term { weight: 18, share: against(structural, 8000) },
        Term { weight: 14, share: against(touch, 20) },
        Term { weight: 12, share: against(risk, 25) },
        Term { weight: 10, share: volume },
        Term { weight: 8, share: against(f.unparsable_segments as u128, 5) },
        Term { weight: 5, share: against(conflicts, 20) },
        Term { weight: 5, share: against(loc.code as u128, 300) },
        Term { weight: -2, share: comments_of(loc) },
    ];
    let maintainability_index: Vec<Term> = vec![
        Term { weight: 100, share: Share::Ratio { num: 1, den: 1 } },
        Term { weight: -22, share: volume },
        Term { weight: -22, share: against(cognitive, 240) },
        Term { weight: -16, share: against(structural, 8000) },
        Term { weight: -12, share: against(f.predicates.boolean_operator_count as u128, 30) },
        Term { weight: -10, share: against(f.ctes.max_dependency_depth as u128, 6) },
        Term { weight: -8, share: against(f.subqueries.max_depth as u128, 4) },
        Term { weight: -5, share: against(f.unparsable_segments as u128, 5) },
        Term { weight: -5, share: against(conflicts, 20) },
    ];
    let mut modularity_health: Vec<Term> = Vec::new();
    let c = &f.ctes;
    if c.count > 0 {
        let count: u128 = c.count as u128;
        modularity_health = vec![
            Term {
                weight: 35,
                share: Share::Ratio { num: less(count, c.unused_count as u128), den: count },
            },
            Term {
                weight: 25,
                share: Share::Ratio { num: 6, den: c.max_dependency_depth as u128 + 6 },
            },
            Term { weight: 15, share: Share::Ratio { num: 8, den: c.max_fan_out as u128 + 8 } },
            Term {
                weight: 15,
                share: Share::Ratio { num: 5, den: f.subqueries.derived_table_count as u128 + 5 },
            },
            Term {
                weight: 10,
                share: Share::Ratio { num: less(count, c.trivial_count as u128), den: count },
            },
        ];
    }
    assert(review_burden_index@ =~= review_terms(*f, *loc, conflicts as int));
    assert(maintainability_index@ =~= maintainability_terms(*f, conflicts as int));
    assert(modularity_health@ =~= modularity_terms(*f));
    CompositeScores {
        structural_complexity: structural,
        cognitive_complexity: cognitive,
        change_risk_score: risk,
        review_burden_index,
        maintainability_index,
        modularity_health,
    }
}

} // verus!
