//! The spaces of a file: one for each statement, and one for each routine,
//! nested in the routine or the statement around it.

use vstd::prelude::*;

use crate::metric_key::MetricKey;
use crate::metrics::{seen_metrics, Metric, MetricValue, MetricView};
use crate::regions::holds_range;
use crate::span::SourceSpan;
use crate::statements::{span_of_statement, statement_span, StatementFacts};
use crate::text::{chars_of, string_of};
use crate::tree::MAX_NODES;
use crate::units::ProceduralUnitFacts;

verus! {

/// What a space is made of.
#[derive(Clone, Copy, Debug, PartialEq, Eq, Structural)]
pub enum SpaceKind {
    Statement,
    Function,
}

/// A part of a file with metrics of its own. The file itself is space 0.
pub struct Space {
    pub id: u64,
    /// The space around it.
    pub parent: u64,
    pub kind: SpaceKind,
    pub span: SourceSpan,
    pub name: Option<String>,
    pub metrics: Vec<Metric>,
}

/// What a space says.
pub ghost struct SpaceView {
    pub id: u64,
    pub parent: u64,
    pub kind: SpaceKind,
    pub span: SourceSpan,
    pub name: Option<Seq<char>>,
    pub metrics: Seq<(MetricKey, MetricView)>,
}

impl Space {
    pub open spec fn seen(self) -> SpaceView {
        SpaceView {
            id: self.id,
            parent: self.parent,
            kind: self.kind,
            span: self.span,
            name: match self.name {
                Some(name) => Some(name@),
                None => None,
            },
            metrics: seen_metrics(self.metrics@),
        }
    }
}

/// What spaces say.
pub open spec fn seen_spaces(s: Seq<Space>) -> Seq<SpaceView> {
    Seq::new(s.len(), |i: int| s[i].seen())
}

// ── nesting ────────────────────────────────────────────────────────────

/// The byte range of a routine.
pub open spec fn routine_range(u: ProceduralUnitFacts) -> (u32, u32) {
    (u.start_byte, u.end_byte)
}

/// The byte ranges of the routines.
pub open spec fn routine_ranges(units: Seq<ProceduralUnitFacts>) -> Seq<(u32, u32)> {
    Seq::new(units.len(), |i: int| routine_range(units[i]))
}

/// The open routines without those that ended before `start`.
pub open spec fn still_open(ranges: Seq<(u32, u32)>, open: Seq<int>, start: u32) -> Seq<int>
    decreases open.len(),
{
    if open.len() > 0 && start >= ranges[open.last()].1 {
        still_open(ranges, open.drop_last(), start)
    } else {
        open
    }
}

/// The routines that are open at the start of routine `k`, outermost first and
/// without itself.
pub open spec fn open_around(ranges: Seq<(u32, u32)>, k: int) -> Seq<int>
    decreases k,
{
    if k <= 0 {
        Seq::empty()
    } else {
        still_open(ranges, open_around(ranges, k - 1).push(k - 1), ranges[k].0)
    }
}

/// The first statement at or after `i` that holds a byte range.
pub open spec fn first_around(s: Seq<StatementFacts>, range: (u32, u32), i: int) -> Option<int>
    decreases s.len() - i,
{
    if i < 0 || i >= s.len() {
        None
    } else if holds_range((s[i].start_byte, s[i].end_byte), range) {
        Some(i)
    } else {
        first_around(s, range, i + 1)
    }
}

/// The space around a routine: the innermost open routine, or else the first
/// statement that holds it, or else the file.
pub open spec fn parent_of(s: Seq<StatementFacts>, ranges: Seq<(u32, u32)>, k: int) -> int {
    let open = open_around(ranges, k);
    if open.len() > 0 {
        s.len() + 1 + open.last()
    } else {
        match first_around(s, ranges[k], 0) {
            Some(i) => i + 1,
            None => 0,
        }
    }
}

// ── spaces ─────────────────────────────────────────────────────────────

/// How many lines a statement has.
pub open spec fn line_count(s: StatementFacts) -> int {
    (if s.end_line >= s.start_line {
        s.end_line - s.start_line
    } else {
        0
    }) + 1
}

/// Whether a space is that of the statement in place `i`.
pub open spec fn is_statement_space(s: StatementFacts, i: int, r: Space) -> bool {
    &&& r.id == i + 1
    &&& r.parent == 0
    &&& r.kind == SpaceKind::Statement
    &&& r.span == span_of_statement(s)
    &&& r.name matches Some(name) && name@ == s.kind.spelled()
    &&& r.metrics@.len() == 1
    &&& r.metrics@[0].key == MetricKey::StatementLines
    &&& r.metrics@[0].value@ == MetricView::Int(line_count(s) as u128)
}

/// Whether a space is that of a routine.
pub open spec fn is_routine_space(u: ProceduralUnitFacts, id: int, parent: int, r: Space) -> bool {
    &&& r.id == id
    &&& r.parent == parent
    &&& r.kind == SpaceKind::Function
    &&& r.span == (SourceSpan {
        start_byte: u.start_byte,
        end_byte: u.end_byte,
        start_line: u.start_line,
        end_line: u.end_line,
    })
    &&& match (r.name, u.name) {
        (Some(a), Some(b)) => a@ == b@,
        (None, None) => true,
        _ => false,
    }
    &&& r.metrics@.len() == 3
    &&& r.metrics@[0].key == MetricKey::ProceduralCyclomaticComplexity
    &&& r.metrics@[0].value@ == MetricView::Int(u.cyclomatic_complexity)
    &&& r.metrics@[1].key == MetricKey::ProceduralCognitiveComplexity
    &&& r.metrics@[1].value@ == MetricView::Int(u.cognitive_complexity)
    &&& r.metrics@[2].key == MetricKey::StructuralComplexity
    &&& r.metrics@[2].value@ == (MetricView::Ratio { num: u.embedded_query_structural, den: 100 })
}

/// Whether spaces are those of a file: its statements, then its routines.
pub open spec fn describes_spaces(
    s: Seq<StatementFacts>,
    units: Seq<ProceduralUnitFacts>,
    r: Seq<Space>,
) -> bool {
    &&& r.len() == s.len() + units.len()
    &&& forall|i: int| 0 <= i < s.len() ==> is_statement_space(s[i], i, #[trigger] r[i])
    &&& forall|k: int|
        #![trigger units[k]]
        0 <= k < units.len() ==> is_routine_space(
            units[k],
            s.len() + 1 + k,
            parent_of(s, routine_ranges(units), k),
            r[s.len() + k],
        )
}

/// The same statements and routines have the same spaces.
pub proof fn spaces_are_determined(
    s: Seq<StatementFacts>,
    us: Seq<ProceduralUnitFacts>,
    vs: Seq<ProceduralUnitFacts>,
    a: Seq<Space>,
    b: Seq<Space>,
)
    requires
        describes_spaces(s, us, a),
        describes_spaces(s, vs, b),
        us.len() == vs.len(),
        forall|k: int| 0 <= k < us.len() ==> (#[trigger] us[k])@ == vs[k]@,
    ensures
        seen_spaces(a) == seen_spaces(b),
{
    assert forall|k: int| 0 <= k < us.len() implies routine_range(#[trigger] us[k])
        == routine_range(vs[k]) by {
        assert(us[k]@.definition == vs[k]@.definition);
    }
    assert(routine_ranges(us) =~= routine_ranges(vs));
    assert forall|i: int| 0 <= i < a.len() implies (#[trigger] a[i]).seen() == b[i].seen() by {
        if i < s.len() {
            assert(is_statement_space(s[i], i, a[i]));
            assert(is_statement_space(s[i], i, b[i]));
        } else {
            let k = i - s.len();
            assert(us[k]@ == vs[k]@);
            assert(us[k]@.definition == vs[k]@.definition);
            let parent = parent_of(s, routine_ranges(us), k);
            assert(is_routine_space(us[k], s.len() + 1 + k, parent, a[i]));
            assert(is_routine_space(vs[k], s.len() + 1 + k, parent, b[i]));
        }
        assert(seen_metrics(a[i].metrics@) =~= seen_metrics(b[i].metrics@));
    }
    assert(seen_spaces(a) =~= seen_spaces(b));
}

proof fn lemma_still_open(ranges: Seq<(u32, u32)>, open: Seq<int>, start: u32, k: int)
    requires
        forall|i: int| 0 <= i < open.len() ==> 0 <= #[trigger] open[i] < k,
    ensures
        forall|i: int|
            0 <= i < still_open(ranges, open, start).len() ==> 0 <= #[trigger] still_open(
                ranges,
                open,
                start,
            )[i] < k,
        still_open(ranges, open, start).len() <= open.len(),
    decreases open.len(),
{
    if open.len() > 0 && start >= ranges[open.last()].1 {
        lemma_still_open(ranges, open.drop_last(), start, k);
    }
}

proof fn lemma_open_around(ranges: Seq<(u32, u32)>, k: int)
    requires
        0 <= k,
    ensures
        forall|i: int|
            0 <= i < open_around(ranges, k).len() ==> 0 <= #[trigger] open_around(ranges, k)[i] < k,
        open_around(ranges, k).len() <= k,
    decreases k,
{
    if k > 0 {
        lemma_open_around(ranges, k - 1);
        lemma_still_open(ranges, open_around(ranges, k - 1).push(k - 1), ranges[k].0, k);
    }
}

proof fn lemma_first_around(s: Seq<StatementFacts>, range: (u32, u32), i: int)
    ensures
        first_around(s, range, i) matches Some(j) ==> i <= j < s.len(),
    decreases s.len() - i,
{
    if 0 <= i < s.len() {
        lemma_first_around(s, range, i + 1);
    }
}

/// A space is listed after the space around it, so that spaces are a forest;
/// a space's id is its place.
pub proof fn spaces_are_nested(
    s: Seq<StatementFacts>,
    units: Seq<ProceduralUnitFacts>,
    r: Seq<Space>,
    i: int,
)
    requires
        describes_spaces(s, units, r),
        0 <= i < r.len(),
    ensures
        r[i].id == i + 1,
        r[i].parent < r[i].id,
        r[i].kind == SpaceKind::Statement ==> r[i].parent == 0,
{
    if i < s.len() {
        assert(is_statement_space(s[i], i, r[i]));
    } else {
        let k = i - s.len();
        let ranges = routine_ranges(units);
        assert(is_routine_space(units[k], s.len() + 1 + k, parent_of(s, ranges, k), r[i]));
        lemma_open_around(ranges, k);
        lemma_first_around(s, ranges[k], 0);
    }
}

proof fn lemma_keeps_open(ranges: Seq<(u32, u32)>, open: Seq<int>, start: u32, j: int)
    requires
        open.contains(j),
        start < ranges[j].1,
    ensures
        still_open(ranges, open, start).contains(j),
    decreases open.len(),
{
    if open.len() > 0 && start >= ranges[open.last()].1 {
        let at = choose|i: int| 0 <= i < open.len() && open[i] == j;
        assert(open.drop_last()[at] == j);
        lemma_keeps_open(ranges, open.drop_last(), start, j);
    }
}

/// A routine is open as long as none starts behind its end.
proof fn lemma_stays_open(ranges: Seq<(u32, u32)>, j: int, k: int)
    requires
        0 <= j < k,
        forall|l: int| j < l <= k ==> (#[trigger] ranges[l]).0 < ranges[j].1,
    ensures
        open_around(ranges, k).contains(j),
    decreases k,
{
    let before = open_around(ranges, k - 1).push(k - 1);
    if j == k - 1 {
        assert(before[before.len() - 1] == j);
    } else {
        lemma_stays_open(ranges, j, k - 1);
        let earlier = open_around(ranges, k - 1);
        let at = choose|i: int| 0 <= i < earlier.len() && earlier[i] == j;
        assert(before[at] == j);
    }
    assert(ranges[k].0 < ranges[j].1);
    lemma_keeps_open(ranges, before, ranges[k].0, j);
}

proof fn lemma_ascending_open(ranges: Seq<(u32, u32)>, open: Seq<int>, start: u32)
    requires
        forall|i: int, j: int| 0 <= i < j < open.len() ==> open[i] < open[j],
    ensures
        forall|i: int, j: int|
            0 <= i < j < still_open(ranges, open, start).len() ==> still_open(ranges, open, start)[i]
                < still_open(ranges, open, start)[j],
        still_open(ranges, open, start).len() > 0 ==> start < ranges[still_open(
            ranges,
            open,
            start,
        ).last()].1,
    decreases open.len(),
{
    if open.len() > 0 && start >= ranges[open.last()].1 {
        lemma_ascending_open(ranges, open.drop_last(), start);
    }
}

proof fn lemma_ascending_around(ranges: Seq<(u32, u32)>, k: int)
    requires
        0 <= k,
    ensures
        forall|i: int, j: int|
            0 <= i < j < open_around(ranges, k).len() ==> open_around(ranges, k)[i]
                < open_around(ranges, k)[j],
        open_around(ranges, k).len() > 0 ==> ranges[k].0 < ranges[open_around(ranges, k).last()].1,
    decreases k,
{
    if k > 0 {
        lemma_ascending_around(ranges, k - 1);
        lemma_open_around(ranges, k - 1);
        lemma_ascending_open(ranges, open_around(ranges, k - 1).push(k - 1), ranges[k].0);
    }
}

/// Whether ranges come in source order, none is empty, and any two of them are
/// apart or one in the other.
pub open spec fn well_nested(ranges: Seq<(u32, u32)>) -> bool {
    &&& forall|i: int| 0 <= i < ranges.len() ==> (#[trigger] ranges[i]).0 < ranges[i].1
    &&& forall|i: int, j: int|
        #![trigger ranges[i], ranges[j]]
        0 <= i < j < ranges.len() ==> ranges[i].0 <= ranges[j].0 && (ranges[i].1 <= ranges[j].0
            || ranges[j].1 <= ranges[i].1)
}

/// Of well-nested routines each has the innermost one that holds it around it.
pub proof fn routines_are_in_their_innermost(ranges: Seq<(u32, u32)>, k: int)
    requires
        well_nested(ranges),
        0 <= k < ranges.len(),
    ensures
        ({
            let open = open_around(ranges, k);
            if open.len() > 0 {
                &&& 0 <= open.last() < k
                &&& holds_range(ranges[open.last()], ranges[k])
                &&& forall|j: int| open.last() < j < k ==> !holds_range(#[trigger] ranges[j], ranges[k])
            } else {
                forall|j: int| 0 <= j < k ==> !holds_range(#[trigger] ranges[j], ranges[k])
            }
        }),
{
    let open = open_around(ranges, k);
    lemma_open_around(ranges, k);
    lemma_ascending_around(ranges, k);
    assert forall|j: int| 0 <= j < k && holds_range(#[trigger] ranges[j], ranges[k]) implies (
    open.len() > 0 && j <= open.last()) by {
        assert forall|l: int| j < l <= k implies (#[trigger] ranges[l]).0 < ranges[j].1 by {
            if l < k {
                assert(ranges[l].0 <= ranges[k].0);
            }
            assert(ranges[k].0 < ranges[k].1);
        }
        lemma_stays_open(ranges, j, k);
        let at = choose|i: int| 0 <= i < open.len() && open[i] == j;
        assert(open[at] <= open.last());
    }
    if open.len() > 0 {
        let o = open.last();
        assert(0 <= open[open.len() - 1] < k);
        assert(ranges[o].0 <= ranges[k].0);
    }
}

// ── execution ──────────────────────────────────────────────────────────

fn ranges_of(units: &Vec<ProceduralUnitFacts>) -> (r: Vec<(u32, u32)>)
    ensures
        r@ == routine_ranges(units@),
{
    let mut out: Vec<(u32, u32)> = Vec::new();
    let mut k: usize = 0;
    while k < units.len()
        invariant
            k == out@.len() <= units@.len(),
            forall|l: int| 0 <= l < k ==> out@[l] == routine_range(units@[l]),
        decreases units@.len() - k,
    {
        out.push((units[k].start_byte, units[k].end_byte));
        k = k + 1;
    }
    assert(out@ =~= routine_ranges(units@));
    out
}

fn find_around(s: &Vec<StatementFacts>, range: (u32, u32)) -> (r: Option<usize>)
    ensures
        match r {
            Some(i) => first_around(s@, range, 0) == Some(i as int) && i < s@.len(),
            None => first_around(s@, range, 0) is None,
        },
{
    let mut i: usize = 0;
    while i < s.len()
        invariant
            i <= s@.len(),
            first_around(s@, range, 0) == first_around(s@, range, i as int),
        decreases s@.len() - i,
    {
        if s[i].start_byte <= range.0 && range.1 <= s[i].end_byte {
            return Some(i);
        }
        i = i + 1;
    }
    None
}

fn statement_space(s: &StatementFacts, i: usize) -> (r: Space)
    requires
        i < MAX_NODES,
    ensures
        is_statement_space(*s, i as int, r),
{
    let lines: u128 = if s.end_line >= s.start_line {
        (s.end_line - s.start_line) as u128 + 1
    } else {
        1
    };
    let name = chars_of(s.kind.label());
    let metrics: Vec<Metric> = vec![
        Metric { key: MetricKey::StatementLines, value: MetricValue::Int(lines) },
    ];
    Space {
        id: i as u64 + 1,
        parent: 0,
        kind: SpaceKind::Statement,
        span: statement_span(s),
        name: Some(string_of(&name)),
        metrics,
    }
}

fn routine_space(u: &ProceduralUnitFacts, id: u64, parent: u64) -> (r: Space)
    ensures
        is_routine_space(*u, id as int, parent as int, r),
{
    let metrics: Vec<Metric> = vec![
        Metric {
            key: MetricKey::ProceduralCyclomaticComplexity,
            value: MetricValue::Int(u.cyclomatic_complexity),
        },
        Metric {
            key: MetricKey::ProceduralCognitiveComplexity,
            value: MetricValue::Int(u.cognitive_complexity),
        },
        Metric {
            key: MetricKey::StructuralComplexity,
            value: MetricValue::Ratio { num: u.embedded_query_structural, den: 100 },
        },
    ];
    Space {
        id,
        parent,
        kind: SpaceKind::Function,
        span: SourceSpan {
            start_byte: u.start_byte,
            end_byte: u.end_byte,
            start_line: u.start_line,
            end_line: u.end_line,
        },
        name: match &u.name {
            Some(chars) => Some(string_of(chars)),
            None => None,
        },
        metrics,
    }
}

/// Adds the spaces of the routines behind those of the statements.
fn attach_routines(
    s: &Vec<StatementFacts>,
    units: &Vec<ProceduralUnitFacts>,
    out: &mut Vec<Space>,
)
    requires
        s@.len() <= MAX_NODES,
        units@.len() <= 0xffff_ffff_0000_0000,
        old(out)@.len() == s@.len(),
    ensures
        final(out)@.len() == s@.len() + units@.len(),
        forall|i: int| 0 <= i < s@.len() ==> #[trigger] final(out)@[i] == old(out)@[i],
        forall|k: int|
            #![trigger units@[k]]
            0 <= k < units@.len() ==> is_routine_space(
                units@[k],
                s@.len() + 1 + k,
                parent_of(s@, routine_ranges(units@), k),
                final(out)@[s@.len() + k],
            ),
{
    let ranges = ranges_of(units);
    let ghost first = out@;
    let mut open: Vec<usize> = Vec::new();
    let mut k: usize = 0;
    while k < units.len()
        invariant
            k <= units@.len() <= 0xffff_ffff_0000_0000,
            s@.len() <= MAX_NODES,
            ranges@ == routine_ranges(units@),
            out@.len() == s@.len() + k,
            first.len() == s@.len(),
            forall|i: int| 0 <= i < s@.len() ==> #[trigger] out@[i] == first[i],
            forall|l: int|
                #![trigger units@[l]]
                0 <= l < k ==> is_routine_space(
                    units@[l],
                    s@.len() + 1 + l,
                    parent_of(s@, ranges@, l),
                    out@[s@.len() + l],
                ),
            k == 0 ==> open@.len() == 0,
            k > 0 ==> positions(open@) == open_around(ranges@, k - 1).push(k - 1),
            forall|i: int| 0 <= i < open@.len() ==> #[trigger] open@[i] < k,
        decreases units@.len() - k,
    {
        let ghost before = positions(open@);
        while open.len() > 0 && ranges[k].0 >= ranges[open[open.len() - 1]].1
            invariant
                k < ranges@.len(),
                forall|i: int| 0 <= i < open@.len() ==> #[trigger] open@[i] < k,
                still_open(ranges@, before, ranges@[k as int].0) == still_open(
                    ranges@,
                    positions(open@),
                    ranges@[k as int].0,
                ),
            decreases open@.len(),
        {
            assert(positions(open@).drop_last() =~= positions(open@.drop_last()));
            open.pop();
        }
        assert(positions(open@) == still_open(ranges@, before, ranges@[k as int].0));
        assert(positions(open@) =~= open_around(ranges@, k as int));
        let parent: u64 = if open.len() > 0 {
            s.len() as u64 + 1 + open[open.len() - 1] as u64
        } else {
            match find_around(s, ranges[k]) {
                Some(i) => i as u64 + 1,
                None => 0,
            }
        };
        assert(parent == parent_of(s@, ranges@, k as int));
        out.push(routine_space(&units[k], s.len() as u64 + 1 + k as u64, parent));
        let ghost around = positions(open@);
        open.push(k);
        assert(positions(open@) =~= around.push(k as int));
        k = k + 1;
    }
}

/// Positions as numbers.
pub open spec fn positions(s: Seq<usize>) -> Seq<int> {
    Seq::new(s.len(), |i: int| s[i] as int)
}

/// The spaces of a file.
pub fn collect_spaces(s: &Vec<StatementFacts>, units: &Vec<ProceduralUnitFacts>) -> (r: Vec<Space>)
    requires
        s@.len() <= MAX_NODES,
        units@.len() <= 0xffff_ffff_0000_0000,
    ensures
        describes_spaces(s@, units@, r@),
{
    let mut out: Vec<Space> = Vec::new();
    let mut i: usize = 0;
    while i < s.len()
        invariant
            i == out@.len() <= s@.len() <= MAX_NODES,
            forall|j: int| 0 <= j < i ==> is_statement_space(s@[j], j, #[trigger] out@[j]),
        decreases s@.len() - i,
    {
        out.push(statement_space(&s[i], i));
        i = i + 1;
    }
    attach_routines(s, units, &mut out);
    out
}

} // verus!
