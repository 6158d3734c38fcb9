//! Everything the metrics of a file are computed from.

use vstd::prelude::*;

use crate::clauses::{
    describes_aggregates, describes_cases, describes_set_ops, describes_windows, extract_aggregates,
    extract_cases, extract_set_ops, extract_windows, AggregateFacts, CaseFacts, SetOpFacts,
    WindowFacts,
};
use crate::control::ProceduralMetric;
use crate::ctes::{describes_ctes, extract_cte_graph, CteFacts};
use crate::grammar::DialectKind;
use crate::halstead::{describes_halstead, extract_halstead, HalsteadFacts};
use crate::joins::{describes_joins, extract_joins, JoinFacts};
use crate::kind::{Kind, KindSet};
use crate::measure::{count_any, deepest_nest};
use crate::names::{collect_own_level, own_level};
use crate::object_scan::{collect_risks, extract_objects};
use crate::objects::{
    describes_objects, object_log, risks, ChangeRiskEvidence, ChangeRiskFactor, ObjectEvent,
    ObjectFacts,
};
use crate::output::{describes_output, extract_output, OutputFacts};
use crate::predicates::{describes_predicates, extract_predicates, PredicateFacts};
use crate::procedural::{
    describes_procedural, describes_unit, extract as extract_procedural, places_of, ProceduralFacts,
};
use crate::regions::{file_progress, unit_range, unit_ranges, Source};
use crate::span::{LineIndex, Lines, SourceSpan};
use crate::statements::{
    classify_statements, statement_facts, statements_of, top_level_statements, StatementFacts,
    StatementRules,
};
use crate::subqueries::{
    describes_expressions, describes_subqueries, extract_expressions, extract_subqueries,
    select_depth, selects_in, ExpressionFacts, SubqueryFacts,
};
use crate::tree::{
    all_in, every, lemma_crawl, lemma_peak_step, lemma_sum_step, lemma_take_all, peak, sum, Node,
    Tree, MAX_NODES,
};
use crate::unit_scan::extract_procedural_units;
use crate::units::{units_of, units_view, ProceduralUnitFacts, Recovery};

verus! {

/// The facts of a file.
pub struct SqlFileFacts {
    pub statements: Vec<StatementFacts>,
    /// The routine definitions, each before those inside it.
    pub procedural_units: Vec<ProceduralUnitFacts>,
    pub procedural: ProceduralFacts,
    pub query_block_count: u64,
    pub query_block_max_depth: u64,
    /// The select items of every query block, added up.
    pub select_item_total: u64,
    pub select_item_max: u64,
    pub joins: JoinFacts,
    pub subqueries: SubqueryFacts,
    pub predicates: PredicateFacts,
    pub cases: CaseFacts,
    pub aggregates: AggregateFacts,
    pub windows: WindowFacts,
    pub set_ops: SetOpFacts,
    pub expressions: ExpressionFacts,
    pub output: OutputFacts,
    pub ctes: CteFacts,
    pub objects: ObjectFacts,
    /// The terms of the change-risk score, where evidence is asked for.
    pub change_risk_evidence: Vec<ChangeRiskEvidence>,
    /// The events behind the object counts, where evidence is asked for.
    pub object_evidence: Vec<ObjectEvent>,
    pub halstead: HalsteadFacts,
    pub relation_ref_count: u64,
    /// The segments that could not be parsed.
    pub unparsable_segments: u64,
    /// The lines that those touch, added up.
    pub unparsable_lines: u64,
    /// What the lexer complained of.
    pub lex_error_count: u64,
}

// ── rules by dialect ───────────────────────────────────────────────────

/// How a dialect's statements are told apart.
pub open spec fn rules_of(kind: DialectKind) -> StatementRules {
    StatementRules {
        batches: kind == DialectKind::Tsql,
        brackets: kind == DialectKind::Bigquery,
    }
}

/// How a dialect's routine definitions are found where the parser gave up.
pub open spec fn recovery_of(kind: DialectKind) -> Recovery {
    match kind {
        DialectKind::Tsql => Recovery::Batches,
        DialectKind::Mysql => Recovery::Delimited,
        DialectKind::Oracle => Recovery::Packages,
        _ => Recovery::Nothing,
    }
}

/// Whether a dialect's routine bodies can spill into runs that were not parsed.
pub open spec fn spills(kind: DialectKind) -> bool {
    kind == DialectKind::Tsql || kind == DialectKind::Mysql
}

/// A file as the rules on procedural code see it.
pub open spec fn source_of(n: Seq<Node>, lines: Lines, root: int, kind: DialectKind) -> Source {
    let units = units_of(n, lines, recovery_of(kind), root);
    Source {
        nodes: n,
        lines,
        units,
        statements: statements_of(n, root, rules_of(kind).brackets),
        facts: statement_facts(n, lines, rules_of(kind), unit_ranges(units), root),
        spills: spills(kind),
    }
}

// ── file-wide counts ───────────────────────────────────────────────────

/// The segments that could not be parsed.
pub open spec fn unparsables(n: Seq<Node>, root: int) -> Seq<usize> {
    all_in(n, root, KindSet::Only(Kind::Unparsable))
}

/// How many lines a node touches.
pub open spec fn lines_touched(n: Seq<Node>, lines: Lines) -> spec_fn(usize) -> int {
    |i: usize|
        match n[i as int].span {
            Some(range) => {
                let first = lines.line(range.0);
                let last = lines.last_line(range.1);
                if last >= first {
                    last - first + 1
                } else {
                    1
                }
            },
            None => 0,
        }
}

/// How many items a query block selects.
pub open spec fn select_items(n: Seq<Node>) -> spec_fn(usize) -> int {
    |i: usize| own_level(n, i as int, KindSet::Only(Kind::SelectClauseElement)).len() as int
}

/// Dynamic SQL at the first `k` places, as terms of the change-risk score.
pub open spec fn dynamic_risks(places: Seq<SourceSpan>) -> Seq<ChangeRiskEvidence> {
    Seq::new(
        places.len(),
        |i: int| ChangeRiskEvidence { span: places[i], factor: ChangeRiskFactor::DynamicSql },
    )
}

/// Every term of a file's change-risk score.
pub open spec fn change_risks(n: Seq<Node>, lines: Lines, root: int, kind: DialectKind) -> Seq<
    ChangeRiskEvidence,
> {
    let src = source_of(n, lines, root, kind);
    dynamic_risks(places_of(file_progress(src, root).log, ProceduralMetric::DynamicSqlCount))
        + risks(object_log(n, lines, root, src.statements, src.facts))
}

/// Whether the counts of query blocks and their items are those of a subtree.
pub open spec fn describes_blocks(n: Seq<Node>, root: int, f: SqlFileFacts) -> bool {
    let selects = selects_in(n, root);
    &&& f.query_block_count == selects.len()
    &&& f.query_block_max_depth == peak(selects, select_depth(n, root))
    &&& f.select_item_total == sum(selects, select_items(n))
    &&& f.select_item_max == peak(selects, select_items(n))
}

/// Whether the parser-health counts are those of a subtree.
pub open spec fn describes_health(n: Seq<Node>, lines: Lines, root: int, f: SqlFileFacts) -> bool {
    &&& f.unparsable_segments == unparsables(n, root).len()
    &&& f.unparsable_lines == sum(unparsables(n, root), lines_touched(n, lines))
}

/// Whether facts are those of a file. What depends on `emit` is the evidence
/// alone.
pub open spec fn describes_file(
    n: Seq<Node>,
    lines: Lines,
    root: int,
    kind: DialectKind,
    emit: bool,
    f: SqlFileFacts,
) -> bool {
    let src = source_of(n, lines, root, kind);
    let log = object_log(n, lines, root, src.statements, src.facts);
    &&& f.statements@ == src.facts
    &&& f.procedural_units@.len() == src.units.len()
    &&& forall|u: int|
        0 <= u < src.units.len() ==> describes_unit(src, root, u, #[trigger] f.procedural_units@[u])
    &&& describes_procedural(src, root, emit, f.procedural)
    &&& describes_health(n, lines, root, f)
    &&& describes_blocks(n, root, f)
    &&& describes_joins(n, root, f.joins)
    &&& describes_set_ops(n, root, f.set_ops)
    &&& describes_cases(n, root, f.cases)
    &&& describes_windows(n, root, f.windows)
    &&& describes_aggregates(n, root, f.aggregates)
    &&& describes_predicates(n, root, f.predicates)
    &&& describes_subqueries(n, root, f.subqueries)
    &&& describes_expressions(n, root, f.expressions)
    &&& describes_output(n, root, f.output)
    &&& f.relation_ref_count == all_in(n, root, KindSet::TableReferences).len()
        + f.subqueries.derived_table_count
    &&& describes_ctes(n, root, f.ctes)
    &&& describes_objects(n, lines, root, src.statements, src.facts, f.objects)
    &&& f.change_risk_evidence@ == (if emit {
        change_risks(n, lines, root, kind)
    } else {
        Seq::empty()
    })
    &&& f.object_evidence@ == (if emit {
        log
    } else {
        Seq::empty()
    })
    &&& describes_halstead(n, root, f.halstead)
}

/// Bounds that keep the scores within their types.
pub open spec fn within_bounds(f: SqlFileFacts) -> bool {
    &&& f.ctes.dependency_edges <= 0x1_0000_0000_0000_0000_0000_0000
    &&& f.ctes.count <= MAX_NODES
    &&& f.halstead.distinct_operators <= MAX_NODES
    &&& f.halstead.distinct_operands <= MAX_NODES
    &&& f.halstead.total_operators <= MAX_NODES
    &&& f.halstead.total_operands <= MAX_NODES
    &&& f.statements@.len() <= MAX_NODES
    &&& f.procedural_units@.len() <= 0xffff_ffff_0000_0000
}

// ── extraction ─────────────────────────────────────────────────────────

fn ranges_of(units: &Vec<ProceduralUnitFacts>) -> (r: Vec<(u32, u32)>)
    ensures
        r@ == unit_ranges(units_view(units@)),
{
    let mut out: Vec<(u32, u32)> = Vec::new();
    let mut k: usize = 0;
    while k < units.len()
        invariant
            k == out@.len() <= units@.len(),
            forall|l: int| 0 <= l < k ==> out@[l] == unit_range(units@[l].definition()),
        decreases units@.len() - k,
    {
        out.push((units[k].start_byte, units[k].end_byte));
        k = k + 1;
    }
    assert(out@ =~= unit_ranges(units_view(units@)));
    out
}

/// The lines that the given nodes touch, added up.
fn sum_lines(tree: &Tree, lines: &LineIndex, s: &Vec<usize>) -> (r: u64)
    requires
        tree.wf(),
        lines@.wf(),
        s@.len() <= MAX_NODES,
        forall|k: int| 0 <= k < s@.len() ==> (#[trigger] s@[k]) < tree@.len(),
    ensures
        r == sum(s@, lines_touched(tree@, lines@)),
        r <= s@.len() * 0x1_0000_0000,
{
    let ghost f = lines_touched(tree@, lines@);
    let mut total: u64 = 0;
    let mut k: usize = 0;
    while k < s.len()
        invariant
            tree.wf(),
            lines@.wf(),
            f == lines_touched(tree@, lines@),
            k <= s@.len() <= MAX_NODES,
            forall|l: int| 0 <= l < s@.len() ==> (#[trigger] s@[l]) < tree@.len(),
            total == sum(s@.take(k as int), f),
            total <= k * 0x1_0000_0000,
        decreases s@.len() - k,
    {
        proof {
            lemma_sum_step(s@, k as int, f);
        }
        let i: usize = s[k];
        if let Some(range) = tree.span_at(i) {
            let first: u32 = lines.line_at(range.0);
            let last: u32 = lines.last_line_at(range.1);
            total = total + if last >= first {
                (last - first) as u64 + 1
            } else {
                1
            };
        }
        k = k + 1;
    }
    proof {
        lemma_take_all(s@);
    }
    total
}

/// The number of select items of the given query blocks: their sum and the
/// most of one block.
fn count_items(tree: &Tree, selects: &Vec<usize>) -> (r: (u64, u64))
    requires
        tree.wf(),
        selects@.len() <= MAX_NODES,
        forall|k: int| 0 <= k < selects@.len() ==> (#[trigger] selects@[k]) < tree@.len(),
    ensures
        r.0 == sum(selects@, select_items(tree@)),
        r.1 == peak(selects@, select_items(tree@)),
{
    let ghost f = select_items(tree@);
    let mut total: u64 = 0;
    let mut most: u64 = 0;
    let mut k: usize = 0;
    while k < selects.len()
        invariant
            tree.wf(),
            f == select_items(tree@),
            k <= selects@.len() <= MAX_NODES,
            forall|l: int| 0 <= l < selects@.len() ==> (#[trigger] selects@[l]) < tree@.len(),
            total == sum(selects@.take(k as int), f),
            most == peak(selects@.take(k as int), f),
            total <= k * MAX_NODES,
        decreases selects@.len() - k,
    {
        proof {
            lemma_sum_step(selects@, k as int, f);
            lemma_peak_step(selects@, k as int, f);
        }
        let items = collect_own_level(
            tree,
            selects[k],
            KindSet::Only(Kind::SelectClauseElement),
        );
        let n: u64 = items.len() as u64;
        total = total + n;
        if n > most {
            most = n;
        }
        k = k + 1;
    }
    proof {
        lemma_take_all(selects@);
    }
    (total, most)
}

fn dynamic_terms(places: &Vec<SourceSpan>) -> (r: Vec<ChangeRiskEvidence>)
    ensures
        r@ == dynamic_risks(places@),
{
    let mut out: Vec<ChangeRiskEvidence> = Vec::new();
    let mut k: usize = 0;
    while k < places.len()
        invariant
            k <= places@.len(),
            out@ == dynamic_risks(places@).take(k as int),
        decreases places@.len() - k,
    {
        out.push(ChangeRiskEvidence { span: places[k], factor: ChangeRiskFactor::DynamicSql });
        assert(dynamic_risks(places@).take(k + 1) =~= dynamic_risks(places@).take(k as int).push(
            dynamic_risks(places@)[k as int],
        ));
        k = k + 1;
    }
    assert(dynamic_risks(places@).take(k as int) =~= dynamic_risks(places@));
    out
}

/// The facts of a file that the lexer complained of so many times. With `emit`,
/// the evidence for each count is kept.
pub fn extract(
    tree: &Tree,
    lines: &LineIndex,
    root: usize,
    kind: DialectKind,
    lex_error_count: u64,
    emit: bool,
) -> (r: SqlFileFacts)
    requires
        tree.wf(),
        lines@.wf(),
        tree.holds(root),
    ensures
        describes_file(tree@, lines@, root as int, kind, emit, r),
        within_bounds(r),
        r.lex_error_count == lex_error_count,
        r.unparsable_lines <= 0xffff_ffff_0000_0000,
        r.unparsable_segments <= MAX_NODES,
{
    let ghost n = tree@;
    let ghost src = source_of(n, lines@, root as int, kind);
    let how: Recovery = match kind {
        DialectKind::Tsql => Recovery::Batches,
        DialectKind::Mysql => Recovery::Delimited,
        DialectKind::Oracle => Recovery::Packages,
        _ => Recovery::Nothing,
    };
    let rules = StatementRules {
        batches: kind == DialectKind::Tsql,
        brackets: kind == DialectKind::Bigquery,
    };
    let spilling: bool = kind == DialectKind::Tsql || kind == DialectKind::Mysql;

    let mut procedural_units = extract_procedural_units(tree, lines, how, root);
    let ranges = ranges_of(&procedural_units);
    let statements = classify_statements(tree, lines, rules, &ranges, root);
    let nodes = top_level_statements(tree, root, rules.brackets);
    let procedural = extract_procedural(
        tree,
        lines,
        root,
        &nodes,
        &statements,
        spilling,
        emit,
        &mut procedural_units,
    );

    let runs = tree.all_in(root, KindSet::Only(Kind::Unparsable));
    let selects = tree.all_in(root, KindSet::Only(Kind::SelectStatement));
    proof {
        lemma_crawl(n, root as int, every(KindSet::Only(Kind::Unparsable)));
        lemma_crawl(n, root as int, every(KindSet::Only(Kind::SelectStatement)));
    }
    let unparsable_lines: u64 = sum_lines(tree, lines, &runs);
    let query_block_max_depth: u64 = deepest_nest(tree, &selects);
    let items: (u64, u64) = count_items(tree, &selects);
    let subqueries = extract_subqueries(tree, root);
    let references: u64 = count_any(tree, root, KindSet::TableReferences);
    let relation_ref_count: u64 = references + subqueries.derived_table_count;
    let (objects, log) = extract_objects(tree, lines, root, &nodes, &statements);

    let mut change_risk_evidence: Vec<ChangeRiskEvidence> = Vec::new();
    let mut object_evidence: Vec<ObjectEvent> = Vec::new();
    if emit {
        change_risk_evidence = dynamic_terms(&procedural.dynamic_sql_spans);
        let mut terms = collect_risks(&log);
        change_risk_evidence.append(&mut terms);
        object_evidence = log;
    }
    SqlFileFacts {
        statements,
        procedural_units,
        procedural,
        query_block_count: selects.len() as u64,
        query_block_max_depth,
        select_item_total: items.0,
        select_item_max: items.1,
        joins: extract_joins(tree, root),
        subqueries,
        predicates: extract_predicates(tree, root),
        cases: extract_cases(tree, root),
        aggregates: extract_aggregates(tree, root),
        windows: extract_windows(tree, root),
        set_ops: extract_set_ops(tree, root),
        expressions: extract_expressions(tree, root),
        output: extract_output(tree, root),
        ctes: extract_cte_graph(tree, root),
        objects,
        change_risk_evidence,
        object_evidence,
        halstead: extract_halstead(tree, root),
        relation_ref_count,
        unparsable_segments: runs.len() as u64,
        unparsable_lines,
        lex_error_count,
    }
}

} // verus!
