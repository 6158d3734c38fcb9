//! The SQL analyzer: from the text of a file to its metrics, its spaces, the
//! contributions to its metrics, and diagnostics.

use vstd::prelude::*;

use crate::clauses::{AggregateFacts, CaseFacts, SetOpFacts, WindowFacts};
use crate::contributions::{collect_contributions, contributions_of, Contribution};
use crate::ctes::CteFacts;
use crate::diagnostics::{
    directive_warning, lexer_summary, lexer_warnings, parse_failure, report_directive,
    report_failure, report_lexer, report_lexer_summary, report_unparsable, seen_all, texts_of,
    unparsable_warning, Diagnostic, DiagnosticView,
};
use crate::dialect::{
    resolve, resolves, settled, settled_dialect_has_a_grammar, DialectResolution, ResolutionView,
};
use crate::facts::{describes_file, extract, within_bounds, SqlFileFacts};
use crate::grammar::{parse, parse_of, Parsed, ParsedView};
use crate::halstead::HalsteadFacts;
use crate::joins::JoinFacts;
use crate::loc::{compute, compute_textual, describes_loc, describes_textual, SqlLoc};
use crate::metric_key::MetricKey;
use crate::metrics::{describes_metrics, publish, seen_metrics, Metric, MetricView};
use crate::objects::ObjectFacts;
use crate::output::OutputFacts;
use crate::predicates::PredicateFacts;
use crate::procedural::ProceduralFacts;
use crate::rows::{grown, is_one_tree, lie_in, tree_of};
use crate::spaces::{collect_spaces, describes_spaces, seen_spaces, Space, SpaceView};
use crate::span::{
    fits, fits_in_spans, lemma_offset, line_starts, LineIndex, Lines, SourceSpan, MAX_TEXT,
};
use crate::subqueries::{ExpressionFacts, SubqueryFacts};
use crate::text::{char_width, chars_of, offset};
use crate::tree::{Node, Tree, MAX_NODES};

verus! {

/// Everything that is known of a file.
pub struct SqlAnalysis {
    /// The span of the file.
    pub span: SourceSpan,
    /// How its dialect was settled.
    pub dialect: DialectResolution,
    /// What the metrics were computed from.
    pub facts: SqlFileFacts,
    pub loc: SqlLoc,
    pub metrics: Vec<Metric>,
    pub spaces: Vec<Space>,
    /// In source order; empty where evidence was not asked for.
    pub contributions: Vec<Contribution>,
    pub diagnostics: Vec<Diagnostic>,
}

/// What an analysis says.
pub ghost struct AnalysisView {
    pub span: SourceSpan,
    pub dialect: ResolutionView,
    pub loc: SqlLoc,
    pub metrics: Seq<(MetricKey, MetricView)>,
    pub spaces: Seq<SpaceView>,
    pub contributions: Seq<Contribution>,
    pub diagnostics: Seq<DiagnosticView>,
}

impl SqlAnalysis {
    pub open spec fn seen(self) -> AnalysisView {
        AnalysisView {
            span: self.span,
            dialect: self.dialect.seen(),
            loc: self.loc,
            metrics: seen_metrics(self.metrics@),
            spaces: seen_spaces(self.spaces@),
            contributions: self.contributions@,
            diagnostics: seen_all(self.diagnostics@),
        }
    }
}

/// Why a file was not analyzed.
#[derive(Clone, Copy, Debug, PartialEq, Eq, Structural)]
pub enum AnalysisError {
    /// Its byte offsets or its line numbers do not fit in 32 bits.
    TextTooLong,
    /// 32 bits cannot number the nodes of its syntax tree.
    TooManyNodes,
    /// The parser's rows are not one tree.
    Malformed,
}

// ── the file ───────────────────────────────────────────────────────────

/// The lines of a text.
pub open spec fn lines_in(text: Seq<char>) -> Lines {
    Lines { starts: line_starts(text, text.len() as int) }
}

/// The span of a file.
pub open spec fn file_span(text: Seq<char>) -> SourceSpan {
    SourceSpan {
        start_byte: 0,
        end_byte: offset(text, text.len() as int) as u32,
        start_line: 1,
        end_line: (line_starts(text, text.len() as int).len() + 1) as u32,
    }
}

/// Whether facts say nothing but how many segments and lines could not be
/// parsed and how often the lexer complained.
pub open spec fn says_only(f: SqlFileFacts, segments: int, lines: int, complaints: int) -> bool {
    &&& f.statements@.len() == 0
    &&& f.procedural_units@.len() == 0
    &&& is_quiet(f.procedural)
    &&& f.query_block_count == 0
    &&& f.query_block_max_depth == 0
    &&& f.select_item_total == 0
    &&& f.select_item_max == 0
    &&& f.joins == no_joins()
    &&& f.subqueries == no_subqueries()
    &&& f.predicates.boolean_operator_count == 0
    &&& f.predicates.max_boolean_depth == 0
    &&& f.predicates.not_count == 0
    &&& f.predicates.not_spans@.len() == 0
    &&& f.predicates.comparison_count == 0
    &&& f.predicates.null_semantics_risk_count == 0
    &&& f.cases == no_cases()
    &&& f.aggregates == no_aggregates()
    &&& f.windows == no_windows()
    &&& f.set_ops == no_set_ops()
    &&& f.expressions == no_expressions()
    &&& f.output == no_output()
    &&& f.ctes == no_ctes()
    &&& f.objects == no_changes()
    &&& f.change_risk_evidence@.len() == 0
    &&& f.object_evidence@.len() == 0
    &&& f.halstead == no_words()
    &&& f.relation_ref_count == 0
    &&& f.unparsable_segments == segments
    &&& f.unparsable_lines == lines
    &&& f.lex_error_count == complaints
}

/// Whether nothing procedural was found.
pub open spec fn is_quiet(p: ProceduralFacts) -> bool {
    &&& p.block_count == 0
    &&& p.routine_count == 0
    &&& p.cyclomatic_complexity == 0
    &&& p.cognitive_complexity == 0
    &&& p.max_block_depth == 0
    &&& p.loop_count == 0
    &&& p.if_count == 0
    &&& p.case_statement_count == 0
    &&& p.exception_handler_count == 0
    &&& p.return_count == 0
    &&& p.raise_throw_count == 0
    &&& p.dynamic_sql_count == 0
    &&& p.max_embedded_query_structural == 0
    &&& p.heaviest_unit is None
    &&& p.dynamic_sql_spans@.len() == 0
    &&& p.evidence@.len() == 0
}

pub open spec fn no_joins() -> JoinFacts {
    JoinFacts {
        inner: 0,
        left: 0,
        right: 0,
        full: 0,
        cross: 0,
        natural: 0,
        lateral: 0,
        missing_condition: 0,
        non_equi: 0,
        total: 0,
    }
}

pub open spec fn no_subqueries() -> SubqueryFacts {
    SubqueryFacts {
        count: 0,
        max_depth: 0,
        correlated_count: 0,
        scalar_count: 0,
        exists_count: 0,
        in_count: 0,
        derived_table_count: 0,
    }
}

pub open spec fn no_cases() -> CaseFacts {
    CaseFacts {
        count: 0,
        max_depth: 0,
        when_count: 0,
        max_when_count: 0,
        missing_else_count: 0,
        surplus_when_arms: 0,
    }
}

pub open spec fn no_aggregates() -> AggregateFacts {
    AggregateFacts {
        function_count: 0,
        distinct_count: 0,
        group_by_count: 0,
        rollup_count: 0,
        cube_count: 0,
        grouping_sets_count: 0,
        having_count: 0,
    }
}

pub open spec fn no_windows() -> WindowFacts {
    WindowFacts {
        function_count: 0,
        frame_count: 0,
        partition_expression_count: 0,
        order_expression_count: 0,
    }
}

pub open spec fn no_set_ops() -> SetOpFacts {
    SetOpFacts {
        count: 0,
        union_count: 0,
        union_all_count: 0,
        intersect_count: 0,
        except_count: 0,
    }
}

pub open spec fn no_expressions() -> ExpressionFacts {
    ExpressionFacts {
        max_depth: 0,
        function_call_count: 0,
        distinct_function_count: 0,
        max_function_nesting: 0,
        cast_count: 0,
    }
}

pub open spec fn no_output() -> OutputFacts {
    OutputFacts {
        star_count: 0,
        outer_star_count: 0,
        expression_without_alias_count: 0,
        derived_expression_count: 0,
        aliased_derived_expression_count: 0,
        total_column_refs: 0,
        unqualified_column_refs: 0,
        multi_relation_column_refs: 0,
        multi_relation_unqualified_refs: 0,
        quoted_identifier_count: 0,
        table_alias_count: 0,
    }
}

pub open spec fn no_ctes() -> CteFacts {
    CteFacts {
        count: 0,
        recursive_count: 0,
        dependency_edges: 0,
        max_dependency_depth: 0,
        max_fan_out: 0,
        unused_count: 0,
        trivial_count: 0,
    }
}

pub open spec fn no_changes() -> ObjectFacts {
    ObjectFacts {
        insert_count: 0,
        update_count: 0,
        delete_count: 0,
        merge_count: 0,
        update_without_where_count: 0,
        delete_without_where_count: 0,
        create_count: 0,
        alter_count: 0,
        drop_count: 0,
        truncate_count: 0,
        create_or_replace_count: 0,
        grant_revoke_count: 0,
        transaction_control_count: 0,
        returning_count: 0,
        write_object_count: 0,
        read_object_count: 0,
        touch_count: 0,
    }
}

pub open spec fn no_words() -> HalsteadFacts {
    HalsteadFacts {
        distinct_operators: 0,
        distinct_operands: 0,
        total_operators: 0,
        total_operands: 0,
    }
}

// ── analyses ───────────────────────────────────────────────────────────

/// Whether an analysis is that of a text with the given syntax tree.
#[verifier::opaque]
pub open spec fn analyzes_tree(
    text: Seq<char>,
    n: Seq<Node>,
    lines: Lines,
    complaints: Seq<Seq<char>>,
    emit: bool,
    a: SqlAnalysis,
) -> bool {
    &&& a.span == file_span(text)
    &&& describes_file(n, lines, 0, a.dialect.effective, emit, a.facts)
    &&& a.facts.lex_error_count == complaints.len()
    &&& describes_loc(n, lines, 0, text, a.facts.statements@, a.loc)
    &&& describes_metrics(a.facts, a.loc, a.dialect, a.metrics@)
    &&& describes_spaces(a.facts.statements@, a.facts.procedural_units@, a.spaces@)
    &&& a.contributions@ == contributions_of(a.facts, lines, emit)
    &&& seen_all(a.diagnostics@) == unparsable_warning(a.facts.unparsable_segments as int)
        + lexer_warnings(complaints) + directive_warning(a.dialect)
}

/// Whether an analysis is that of a text without a syntax tree. Where the
/// parser gave up, all of the file counts as one unparsable segment.
#[verifier::opaque]
pub open spec fn analyzes_text(
    text: Seq<char>,
    complaints: int,
    failure: Option<Seq<char>>,
    a: SqlAnalysis,
) -> bool {
    &&& a.span == file_span(text)
    &&& describes_textual(text, a.loc)
    &&& says_only(
        a.facts,
        if failure is Some {
            1
        } else {
            0
        },
        if failure is None {
            0
        } else if a.loc.physical > 0 {
            a.loc.physical as int
        } else {
            1
        },
        complaints,
    )
    &&& describes_metrics(a.facts, a.loc, a.dialect, a.metrics@)
    &&& a.spaces@.len() == 0
    &&& a.contributions@.len() == 0
    &&& seen_all(a.diagnostics@) == lexer_summary(complaints) + directive_warning(a.dialect)
        + parse_failure(failure)
}

/// Whether an analysis is that of a text and of what the parser makes of it.
pub open spec fn analyzes(text: Seq<char>, p: ParsedView, emit: bool, a: SqlAnalysis) -> bool {
    match p.tree {
        Ok(Some(rows)) => analyzes_tree(text, grown(rows), lines_in(text), p.lex_errors, emit, a),
        Ok(None) => analyzes_text(text, p.lex_errors.len() as int, None, a),
        Err(why) => analyzes_text(text, p.lex_errors.len() as int, Some(why), a),
    }
}

/// Whether and why a text is not analyzed.
pub open spec fn refusal(text: Seq<char>, p: ParsedView) -> Option<AnalysisError> {
    if !fits(text) {
        Some(AnalysisError::TextTooLong)
    } else {
        match p.tree {
            Ok(Some(rows)) => if rows.len() > MAX_NODES {
                Some(AnalysisError::TooManyNodes)
            } else if !is_one_tree(rows) {
                Some(AnalysisError::Malformed)
            } else {
                None
            },
            _ => None,
        }
    }
}

/// Whether the nodes that the parser reports lie in the text.
pub open spec fn lies_in_text(text: Seq<char>, p: ParsedView) -> bool {
    p.tree matches Ok(Some(rows)) ==> lie_in(rows, offset(text, text.len() as int))
}

/// Whether a result is what a text is answered: its analysis in the dialect that
/// is settled on, of nodes that lie in the text, or why it is not analyzed.
pub open spec fn answers(
    text: Seq<char>,
    emit: bool,
    r: Result<SqlAnalysis, AnalysisError>,
) -> bool {
    let p = parse_of(settled(text, None).spelled(), text);
    match r {
        Ok(a) => refusal(text, p) is None && resolves(text, None, a.dialect) && analyzes(
            text,
            p,
            emit,
            a,
        ) && lies_in_text(text, p),
        Err(e) => refusal(text, p) == Some(e) && e != AnalysisError::Malformed,
    }
}

fn span_of_file(text: &Vec<char>, lines: &LineIndex) -> (r: SourceSpan)
    requires
        fits(text@),
        lines@.wf(),
        lines@ == lines_in(text@),
    ensures
        r == file_span(text@),
{
    proof {
        lemma_offset(text@, text@.len() as int);
    }
    let mut end: u64 = 0;
    let mut i: usize = 0;
    while i < text.len()
        invariant
            i <= text@.len() <= MAX_TEXT,
            end == offset(text@, i as int),
        decreases text@.len() - i,
    {
        proof {
            lemma_offset(text@, i as int);
        }
        end = end + char_width(text[i]);
        i = i + 1;
    }
    proof {
        lemma_offset(text@, i as int);
    }
    SourceSpan {
        start_byte: 0,
        end_byte: end as u32,
        start_line: 1,
        end_line: lines.count() as u32 + 1,
    }
}

fn bare_facts(segments: u64, lines: u64, complaints: u64) -> (r: SqlFileFacts)
    ensures
        says_only(r, segments as int, lines as int, complaints as int),
        within_bounds(r),
{
    SqlFileFacts {
        statements: Vec::new(),
        procedural_units: Vec::new(),
        procedural: ProceduralFacts {
            block_count: 0,
            routine_count: 0,
            cyclomatic_complexity: 0,
            cognitive_complexity: 0,
            max_block_depth: 0,
            loop_count: 0,
            if_count: 0,
            case_statement_count: 0,
            exception_handler_count: 0,
            return_count: 0,
            raise_throw_count: 0,
            dynamic_sql_count: 0,
            max_embedded_query_structural: 0,
            heaviest_unit: None,
            dynamic_sql_spans: Vec::new(),
            evidence: Vec::new(),
        },
        query_block_count: 0,
        query_block_max_depth: 0,
        select_item_total: 0,
        select_item_max: 0,
        joins: JoinFacts {
            inner: 0,
            left: 0,
            right: 0,
            full: 0,
            cross: 0,
            natural: 0,
            lateral: 0,
            missing_condition: 0,
            non_equi: 0,
            total: 0,
        },
        subqueries: SubqueryFacts {
            count: 0,
            max_depth: 0,
            correlated_count: 0,
            scalar_count: 0,
            exists_count: 0,
            in_count: 0,
            derived_table_count: 0,
        },
        predicates: PredicateFacts {
            boolean_operator_count: 0,
            max_boolean_depth: 0,
            not_count: 0,
            not_spans: Vec::new(),
            comparison_count: 0,
            null_semantics_risk_count: 0,
        },
        cases: CaseFacts {
            count: 0,
            max_depth: 0,
            when_count: 0,
            max_when_count: 0,
            missing_else_count: 0,
            surplus_when_arms: 0,
        },
        aggregates: AggregateFacts {
            function_count: 0,
            distinct_count: 0,
            group_by_count: 0,
            rollup_count: 0,
            cube_count: 0,
            grouping_sets_count: 0,
            having_count: 0,
        },
        windows: WindowFacts {
            function_count: 0,
            frame_count: 0,
            partition_expression_count: 0,
            order_expression_count: 0,
        },
        set_ops: SetOpFacts {
            count: 0,
            union_count: 0,
            union_all_count: 0,
            intersect_count: 0,
            except_count: 0,
        },
        expressions: ExpressionFacts {
            max_depth: 0,
            function_call_count: 0,
            distinct_function_count: 0,
            max_function_nesting: 0,
            cast_count: 0,
        },
        output: OutputFacts {
            star_count: 0,
            outer_star_count: 0,
            expression_without_alias_count: 0,
            derived_expression_count: 0,
            aliased_derived_expression_count: 0,
            total_column_refs: 0,
            unqualified_column_refs: 0,
            multi_relation_column_refs: 0,
            multi_relation_unqualified_refs: 0,
            quoted_identifier_count: 0,
            table_alias_count: 0,
        },
        ctes: CteFacts {
            count: 0,
            recursive_count: 0,
            dependency_edges: 0,
            max_dependency_depth: 0,
            max_fan_out: 0,
            unused_count: 0,
            trivial_count: 0,
        },
        objects: ObjectFacts {
            insert_count: 0,
            update_count: 0,
            delete_count: 0,
            merge_count: 0,
            update_without_where_count: 0,
            delete_without_where_count: 0,
            create_count: 0,
            alter_count: 0,
            drop_count: 0,
            truncate_count: 0,
            create_or_replace_count: 0,
            grant_revoke_count: 0,
            transaction_control_count: 0,
            returning_count: 0,
            write_object_count: 0,
            read_object_count: 0,
            touch_count: 0,
        },
        change_risk_evidence: Vec::new(),
        object_evidence: Vec::new(),
        halstead: HalsteadFacts {
            distinct_operators: 0,
            distinct_operands: 0,
            total_operators: 0,
            total_operands: 0,
        },
        relation_ref_count: 0,
        unparsable_segments: segments,
        unparsable_lines: lines,
        lex_error_count: complaints,
    }
}

/// Analyzes a text with a syntax tree.
pub fn analyze_tree(
    text: &Vec<char>,
    tree: &Tree,
    lines: &LineIndex,
    dialect: DialectResolution,
    complaints: &Vec<String>,
    emit: bool,
) -> (r: SqlAnalysis)
    requires
        fits(text@),
        tree.wf(),
        lines@.wf(),
        lines@ == lines_in(text@),
    ensures
        analyzes_tree(text@, tree@, lines@, texts_of(complaints@), emit, r),
        r.dialect == dialect,
{
    proof {
        reveal(analyzes_tree);
        lemma_offset(text@, text@.len() as int);
    }
    let facts = extract(tree, lines, 0, dialect.effective, complaints.len() as u64, emit);
    let loc = compute(text, tree, lines, 0, &facts.statements);
    let metrics = publish(&facts, &loc, &dialect);
    let spaces = collect_spaces(&facts.statements, &facts.procedural_units);
    let contributions = collect_contributions(&facts, lines, emit);
    let mut diagnostics: Vec<Diagnostic> = Vec::new();
    assert(seen_all(diagnostics@) =~= Seq::empty());
    report_unparsable(&mut diagnostics, facts.unparsable_segments);
    report_lexer(&mut diagnostics, complaints);
    report_directive(&mut diagnostics, &dialect);
    assert(seen_all(diagnostics@) =~= unparsable_warning(facts.unparsable_segments as int)
        + lexer_warnings(texts_of(complaints@)) + directive_warning(dialect));
    SqlAnalysis {
        span: span_of_file(text, lines),
        dialect,
        facts,
        loc,
        metrics,
        spaces,
        contributions,
        diagnostics,
    }
}

/// Analyzes a text without a syntax tree: nothing to parse, or a parser that
/// gave up.
pub fn analyze_text(
    text: &Vec<char>,
    lines: &LineIndex,
    dialect: DialectResolution,
    complaints: u64,
    failure: Option<&str>,
) -> (r: SqlAnalysis)
    requires
        fits(text@),
        lines@.wf(),
        lines@ == lines_in(text@),
    ensures
        analyzes_text(
            text@,
            complaints as int,
            match failure {
                Some(why) => Some(why@),
                None => None,
            },
            r,
        ),
        r.dialect == dialect,
{
    proof {
        reveal(analyzes_text);
        lemma_offset(text@, text@.len() as int);
    }
    let loc = compute_textual(text);
    let (segments, unparsed): (u64, u64) = if failure.is_some() {
        (1, if loc.physical > 0 {
            loc.physical
        } else {
            1
        })
    } else {
        (0, 0)
    };
    let facts = bare_facts(segments, unparsed, complaints);
    let metrics = publish(&facts, &loc, &dialect);
    let mut diagnostics: Vec<Diagnostic> = Vec::new();
    assert(seen_all(diagnostics@) =~= Seq::empty());
    report_lexer_summary(&mut diagnostics, complaints);
    report_directive(&mut diagnostics, &dialect);
    if let Some(why) = failure {
        report_failure(&mut diagnostics, why);
    }
    assert(seen_all(diagnostics@) =~= lexer_summary(complaints as int) + directive_warning(dialect)
        + parse_failure(
        match failure {
            Some(why) => Some(why@),
            None => None,
        },
    ));
    SqlAnalysis {
        span: span_of_file(text, lines),
        dialect,
        facts,
        loc,
        metrics,
        spaces: Vec::new(),
        contributions: Vec::new(),
        diagnostics,
    }
}

/// Analyzes a text, given what the parser makes of it.
pub fn analyze_parsed(text: &Vec<char>, dialect: DialectResolution, parsed: &Parsed, emit: bool) -> (r:
    Result<SqlAnalysis, AnalysisError>)
    ensures
        match r {
            Ok(a) => refusal(text@, parsed.seen()) is None && analyzes(
                text@,
                parsed.seen(),
                emit,
                a,
            ) && a.dialect == dialect,
            Err(e) => refusal(text@, parsed.seen()) == Some(e),
        },
{
    if !fits_in_spans(text) {
        return Err(AnalysisError::TextTooLong);
    }
    proof {
        lemma_offset(text@, text@.len() as int);
    }
    let lines = LineIndex::new(text);
    assert(parsed.seen().lex_errors =~= texts_of(parsed.lex_errors@));
    match &parsed.tree {
        Ok(Some(rows)) => {
            if rows.len() > MAX_NODES {
                return Err(AnalysisError::TooManyNodes);
            }
            match tree_of(rows) {
                None => Err(AnalysisError::Malformed),
                Some(tree) => {
                    let a = analyze_tree(text, &tree, &lines, dialect, &parsed.lex_errors, emit);
                    Ok(a)
                },
            }
        },
        Ok(None) => Ok(analyze_text(text, &lines, dialect, parsed.lex_errors.len() as u64, None)),
        Err(why) => Ok(
            analyze_text(
                text,
                &lines,
                dialect,
                parsed.lex_errors.len() as u64,
                Some(why.as_str()),
            ),
        ),
    }
}

/// The SQL analyzer.
pub struct SqlAnalyzer;

impl SqlAnalyzer {
    pub fn new() -> (r: SqlAnalyzer)
        ensures
            r == SqlAnalyzer,
    {
        SqlAnalyzer
    }

    /// Analyzes the text of a file: settles its dialect, parses it, and computes
    /// its metrics. With `emit`, what adds to the metrics is reported too.
    pub fn analyze(&self, text: &str, emit: bool) -> (r: Result<SqlAnalysis, AnalysisError>)
        ensures
            answers(text@, emit, r),
    {
        let chars = chars_of(text);
        let dialect = resolve(&chars, None);
        proof {
            settled_dialect_has_a_grammar(text@, None);
        }
        match parse(dialect.effective, text) {
            Some(parsed) => analyze_parsed(&chars, dialect, &parsed, emit),
            None => Err(AnalysisError::Malformed),
        }
    }
}

impl Default for SqlAnalyzer {
    fn default() -> (r: SqlAnalyzer)
        ensures
            r == SqlAnalyzer,
    {
        SqlAnalyzer::new()
    }
}

} // verus!
