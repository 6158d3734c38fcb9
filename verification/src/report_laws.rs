//! What is reported of a file, in numbers and in words.

use vstd::prelude::*;

use crate::contributions::{key_of, of_heaviest, of_not, of_procedural, of_risk};
use crate::control::{ProceduralEvidence, ProceduralMetric};
use crate::diagnostics::{
    decimal, digit, directive_warning, lexer_summary, lexer_warnings, parse_failure,
    unparsable_warning,
};
use crate::dialect::DialectResolution;
use crate::facts::SqlFileFacts;
use crate::objects::ChangeRiskEvidence;
use crate::query_shape::{merged, no_query, structural, QueryShape};
use crate::span::Lines;
use crate::text::{contains, starts_with};
use crate::text_laws::parts_are_found;

verus! {

// ── numbers ────────────────────────────────────────────────────────────

/// The number that digits write.
pub open spec fn number_read(s: Seq<char>) -> int
    decreases s.len(),
{
    if s.len() == 0 {
        0
    } else {
        10 * number_read(s.drop_last()) + (s.last() as int - '0' as int)
    }
}

/// A number in decimal reads back as itself, in digits, and without a leading
/// nought.
pub proof fn decimals_read_back(n: int)
    requires
        n >= 0,
    ensures
        number_read(decimal(n)) == n,
        decimal(n).len() >= 1,
        forall|i: int| 0 <= i < decimal(n).len() ==> '0' <= #[trigger] decimal(n)[i] <= '9',
        decimal(n)[0] == '0' ==> n == 0,
    decreases n,
{
    if n >= 10 {
        decimals_read_back(n / 10);
        assert(decimal(n).drop_last() =~= decimal(n / 10));
        assert(digit(n % 10) as int - '0' as int == n % 10);
    } else {
        assert(digit(n) as int - '0' as int == n);
        assert(decimal(n).drop_last() =~= Seq::<char>::empty());
        assert(number_read(Seq::<char>::empty()) == 0);
    }
}

// ── diagnostics ────────────────────────────────────────────────────────

/// A directive that had no effect is warned about once, with its name and the
/// dialect that is taken instead.
pub proof fn useless_directives_are_warned_about(d: DialectResolution)
    ensures
        d.directive is None ==> directive_warning(d).len() == 0,
        d.directive matches Some(directive) ==> {
            let said = directive_warning(d);
            &&& directive.status is Active ==> said.len() == 0
            &&& !(directive.status is Active) ==> {
                &&& said.len() == 1
                &&& said[0].severity is Warning
                &&& contains(said[0].message, directive.name@)
                &&& contains(said[0].message, d.inferred.spelled())
                &&& directive.status is Unsupported ==> said[0].code == "sql.dialect.unsupported"@
                &&& directive.status is Unknown ==> said[0].code == "sql.dialect.unknown"@
            }
        },
{
    if let Some(directive) = d.directive {
        if !(directive.status is Active) {
            let said = directive_warning(d);
            let a = if directive.status is Unknown {
                "in-file directive requested unknown dialect '"@
            } else {
                "in-file directive requested dialect '"@
            };
            let b = if directive.status is Unknown {
                "'; falling back to inferred dialect '"@
            } else {
                "', which is not compiled into this build; falling back to inferred dialect '"@
            };
            let name = directive.name@;
            let kind = d.inferred.spelled();
            assert(said[0].message =~= a + name + (b + kind + "'"@));
            parts_are_found(a, name, b + kind + "'"@, name);
            assert(said[0].message =~= (a + name + b) + kind + "'"@);
            parts_are_found(a + name + b, kind, "'"@, kind);
        }
    }
}

/// Whatever could not be parsed is warned about once, with how many segments it
/// is; and every complaint of the lexer is passed on.
pub proof fn complaints_are_passed_on(segments: int, errors: Seq<Seq<char>>, why: Seq<char>, i: int)
    requires
        segments >= 0,
        0 <= i < errors.len(),
    ensures
        segments == 0 <==> unparsable_warning(segments).len() == 0,
        segments > 0 ==> unparsable_warning(segments).len() == 1 && unparsable_warning(
            segments,
        )[0].severity is Warning && unparsable_warning(segments)[0].code == "sql.unparsable"@
            && starts_with(unparsable_warning(segments)[0].message, decimal(segments)),
        lexer_warnings(errors).len() == errors.len(),
        lexer_warnings(errors)[i].severity is Warning,
        lexer_warnings(errors)[i].code == "sql.lex_error"@,
        contains(lexer_warnings(errors)[i].message, errors[i]),
        segments == 0 <==> lexer_summary(segments).len() == 0,
        segments > 0 ==> lexer_summary(segments).len() == 1 && lexer_summary(segments)[0].severity
            is Warning && lexer_summary(segments)[0].code == "sql.lex_error"@ && starts_with(
            lexer_summary(segments)[0].message,
            decimal(segments),
        ),
        parse_failure(None).len() == 0,
        parse_failure(Some(why)).len() == 1,
        parse_failure(Some(why))[0].severity is Error,
        parse_failure(Some(why))[0].code == "sql.parse_error"@,
        contains(parse_failure(Some(why))[0].message, why),
{
    parts_are_found(
        Seq::empty(),
        decimal(segments),
        " unparsable SQL segment(s); some metrics may be incomplete"@,
        why,
    );
    parts_are_found(Seq::empty(), decimal(segments), " SQL lexer error(s)"@, why);
    parts_are_found("SQL lexer error: "@, errors[i], Seq::empty(), why);
    assert("SQL lexer error: "@ + errors[i] + Seq::<char>::empty() =~= "SQL lexer error: "@
        + errors[i]);
    parts_are_found("sqruff failed to parse: "@, why, Seq::empty(), why);
    assert("sqruff failed to parse: "@ + why + Seq::<char>::empty() =~= "sqruff failed to parse: "@
        + why);
}

// ── contributions ──────────────────────────────────────────────────────

/// Procedural evidence adds to the metrics of these names.
pub proof fn evidence_adds_to_its_metric()
    ensures
        key_of(ProceduralMetric::Cyclomatic).spelled() == "sql.procedural.cyclomatic_complexity"@,
        key_of(ProceduralMetric::Cognitive).spelled() == "sql.procedural.cognitive_complexity"@,
        key_of(ProceduralMetric::EmbeddedQueryMax).spelled()
            == "sql.structural_complexity.max_embedded_query"@,
        key_of(ProceduralMetric::BlockCount).spelled() == "sql.procedural.block_count"@,
        key_of(ProceduralMetric::RoutineCount).spelled() == "sql.procedural.routine_count"@,
        key_of(ProceduralMetric::LoopCount).spelled() == "sql.procedural.loop_count"@,
        key_of(ProceduralMetric::IfCount).spelled() == "sql.procedural.if_count"@,
        key_of(ProceduralMetric::CaseStatementCount).spelled()
            == "sql.procedural.case_statement_count"@,
        key_of(ProceduralMetric::ExceptionHandlerCount).spelled()
            == "sql.procedural.exception_handler_count"@,
        key_of(ProceduralMetric::ReturnCount).spelled() == "sql.procedural.return_count"@,
        key_of(ProceduralMetric::RaiseThrowCount).spelled() == "sql.procedural.raise_throw_count"@,
        key_of(ProceduralMetric::DynamicSqlCount).spelled() == "sql.procedural.dynamic_sql_count"@,
        key_of(ProceduralMetric::MaxBlockDepth).spelled() == "sql.procedural.max_block_depth"@,
{
}

/// A contribution stands where its evidence does, says why, and is a hundred
/// times what it adds.
pub proof fn contributions_are_their_evidence(
    e: ChangeRiskEvidence,
    p: ProceduralEvidence,
    lines: Lines,
    range: (u32, u32),
)
    ensures
        of_risk(e).span == e.span,
        of_risk(e).metric.spelled() == "sql.change_risk_score"@,
        of_risk(e).cause.spelled() == e.factor.spelled(),
        of_risk(e).amount == 100 * e.factor.weight(),
        of_procedural(p).span == p.span,
        of_procedural(p).metric == key_of(p.metric),
        of_procedural(p).cause.spelled() == p.reason.spelled(),
        of_procedural(p).amount == 100 * p.amount,
        of_not(lines, range).span == lines.span(range),
        of_not(lines, range).metric.spelled() == "sql.predicate.not_count"@,
        of_not(lines, range).cause.spelled() == "sql.predicate.not"@,
        of_not(lines, range).amount == 100,
{
}

/// The heaviest routine contributes its score in hundredths, where it stands.
pub proof fn heaviest_routine_contributes(f: SqlFileFacts, u: usize)
    requires
        f.procedural.heaviest_unit == Some(u),
        u < f.procedural_units@.len(),
    ensures
        of_heaviest(f).len() == 1,
        of_heaviest(f)[0].metric.spelled() == "sql.structural_complexity.max_embedded_query"@,
        of_heaviest(f)[0].cause.spelled() == "sql.procedural.embedded_query"@,
        of_heaviest(f)[0].amount == f.procedural.max_embedded_query_structural,
        of_heaviest(f)[0].span.start_byte == f.procedural_units@[u as int].start_byte,
        of_heaviest(f)[0].span.end_byte == f.procedural_units@[u as int].end_byte,
        of_heaviest(f)[0].span.start_line == f.procedural_units@[u as int].start_line,
        of_heaviest(f)[0].span.end_line == f.procedural_units@[u as int].end_line,
{
}

// ── shapes of queries ──────────────────────────────────────────────────

/// Whether a depth is the larger of two.
pub open spec fn is_deeper(d: nat, a: nat, b: nat) -> bool {
    d >= a && d >= b && (d == a || d == b)
}

/// Of two sets of queries the counts are added up and the depths are the deeper
/// ones.
pub proof fn shapes_are_merged(a: QueryShape, b: QueryShape)
    ensures
        ({
            let m = merged(a, b);
            &&& m.query_blocks == a.query_blocks + b.query_blocks
            &&& m.ctes == a.ctes + b.ctes
            &&& m.joins == a.joins + b.joins
            &&& m.outer_joins == a.outer_joins + b.outer_joins
            &&& m.cross_joins == a.cross_joins + b.cross_joins
            &&& m.subqueries == a.subqueries + b.subqueries
            &&& m.correlated == a.correlated + b.correlated
            &&& m.derived_tables == a.derived_tables + b.derived_tables
            &&& m.boolean_operators == a.boolean_operators + b.boolean_operators
            &&& m.cases == a.cases + b.cases
            &&& m.windows == a.windows + b.windows
            &&& m.aggregates == a.aggregates + b.aggregates
            &&& m.set_ops == a.set_ops + b.set_ops
            &&& is_deeper(m.cte_depth, a.cte_depth, b.cte_depth)
            &&& is_deeper(m.subquery_depth, a.subquery_depth, b.subquery_depth)
            &&& is_deeper(m.boolean_depth, a.boolean_depth, b.boolean_depth)
            &&& is_deeper(m.case_depth, a.case_depth, b.case_depth)
            &&& is_deeper(m.expression_depth, a.expression_depth, b.expression_depth)
        }),
        merged(a, b) == merged(b, a),
        merged(a, no_query()) == a,
        structural(no_query()) == 0,
        structural(merged(a, b)) >= structural(a),
        structural(merged(a, b)) <= structural(a) + structural(b),
{
    reveal(merged);
}

} // verus!
