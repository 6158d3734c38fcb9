//! Which routines a file defines, how they are called and how far they reach,
//! and which space they stand in.

use vstd::prelude::*;

use crate::joins::{has_keyword_child, lemma_some_in};
use crate::kind::{Kind, KindSet};
use crate::output_laws::lemma_is_crawled;
use crate::spaces::{describes_spaces, first_around, parent_of, routine_ranges, Space};
use crate::span::Lines;
use crate::statement_laws::lemma_kept_contains;
use crate::statements::StatementFacts;
use crate::text::trim;
use crate::tree::{
    children, crawl, lemma_reported, open_to, reports, siblings, well_formed, Node, Probe,
};
use crate::units::{
    at_boundary, custom_delimiter, dotted_name, header_at, header_units, in_order, in_specification,
    is_member, is_routine, leaf_start, leaf_text, leaf_word, member_close, member_last,
    parsed_units, spec_nodes, specifies, starts_name, unit_name, unit_name_from, unit_nodes,
    with_run, with_unit, ProceduralUnitFacts, Recovery, Unit,
};
use crate::word::Word;

verus! {

// ── parsed definitions ─────────────────────────────────────────────────

/// Whether a definition only announces a routine: an Oracle one without a block,
/// in the specification of a package or of a type.
pub open spec fn only_announces(n: Seq<Node>, root: int, u: int) -> bool {
    &&& KindSet::OracleRoutines.holds(n[u].kind)
    &&& forall|j: int| u <= j < n[u].end ==> !((#[trigger] n[j]).kind is OracleBeginEndBlock)
    &&& exists|c: int| #[trigger] is_specification(n, root, c) && (n[c].span matches Some(outer)
        && n[u].span matches Some(inner) && outer.0 <= inner.0 && inner.1 <= outer.1 && outer
        != inner)
}

/// Whether a node below `root` is the specification of a package or of a type.
pub open spec fn is_specification(n: Seq<Node>, root: int, c: int) -> bool {
    &&& root < c < n[root].end
    &&& n[c].kind is OracleCreateTypeStatement || n[c].kind is OracleCreatePackageStatement
        && !has_keyword_child(n, c, Word::Body)
}

/// A node defines a routine where it is a definition with a place that does not
/// only announce one.
pub proof fn definitions_are_routines(n: Seq<Node>, root: int, u: int)
    requires
        well_formed(n),
        0 <= root < n.len(),
        root <= u < n[root].end,
    ensures
        unit_nodes(n, root).contains(u as usize) <==> u > root && KindSet::Units.holds(n[u].kind)
            && n[u].span is Some && !only_announces(n, root, u),
{
    let p = Probe { set: KindSet::Units, deep: true, stop: KindSet::Empty, own: false };
    let s = crawl(n, root, p);
    let hi = n[root].end as int;
    lemma_reported(n, root, p, hi);
    lemma_kept_contains(s, is_routine(n, root), u as usize);
    if u > root && KindSet::Units.holds(n[u].kind) {
        assert(open_to(n, root, p, u));
        let k = lemma_is_crawled(n, root, p, hi, u);
        assert(s[k] == u as usize);
    }
    if s.contains(u as usize) {
        let k = choose|k: int| 0 <= k < s.len() && s[k] == u as usize;
        assert(reports(n, root, p, s[k] as int));
    }
    if n[u].span is Some {
        let range = n[u].span->0;
        lemma_some_in(n, u, Kind::OracleBeginEndBlock);
        lemma_specified(n, root, range);
        if only_announces(n, root, u) {
            let c = choose|c: int| #[trigger]
                is_specification(n, root, c) && (n[c].span matches Some(outer) && n[u].span matches Some(
                    inner,
                ) && outer.0 <= inner.0 && inner.1 <= outer.1 && outer != inner);
            assert(holds_in_specification(n, root, c, range));
        }
        if in_specification(n, root, range) {
            let c = choose|c: int| #[trigger] holds_in_specification(n, root, c, range);
            assert(is_specification(n, root, c));
        }
    }
}

spec fn holds_in_specification(n: Seq<Node>, root: int, c: int, range: (u32, u32)) -> bool {
    is_specification(n, root, c) && (n[c].span matches Some(outer) && outer.0 <= range.0 && range.1
        <= outer.1 && outer != range)
}

proof fn lemma_specified(n: Seq<Node>, root: int, range: (u32, u32))
    requires
        well_formed(n),
        0 <= root < n.len(),
    ensures
        in_specification(n, root, range) <==> exists|c: int| #[trigger]
            holds_in_specification(n, root, c, range),
{
    let p = Probe { set: KindSet::OracleSpecs, deep: true, stop: KindSet::Empty, own: false };
    let s = spec_nodes(n, root);
    let hi = n[root].end as int;
    lemma_reported(n, root, p, hi);
    if in_specification(n, root, range) {
        let k = choose|k: int| 0 <= k < s.len() && specifies(n, #[trigger] s[k] as int, range);
        assert(reports(n, root, p, s[k] as int));
        assert(holds_in_specification(n, root, s[k] as int, range));
    }
    if exists|c: int| #[trigger] holds_in_specification(n, root, c, range) {
        let c = choose|c: int| #[trigger] holds_in_specification(n, root, c, range);
        assert(open_to(n, root, p, c));
        let k = lemma_is_crawled(n, root, p, hi, c);
        assert(specifies(n, s[k] as int, range));
    }
}

/// A routine that was parsed has the place of its node and its name.
pub proof fn parsed_routines_have_their_place(
    n: Seq<Node>,
    lines: Lines,
    s: Seq<usize>,
    k: int,
    i: int,
)
    requires
        0 <= i < k <= s.len(),
    ensures
        parsed_units(n, lines, s, k).len() == k,
        ({
            let u = parsed_units(n, lines, s, k)[i];
            let range = n[s[i] as int].span->0;
            &&& u.node == Some(s[i])
            &&& u.name == unit_name(n, s[i] as int)
            &&& u.start_byte == range.0
            &&& u.end_byte == range.1
            &&& u.start_line == lines.line(range.0)
            &&& u.end_line == lines.last_line(range.1)
        }),
    decreases k,
{
    if i < k - 1 {
        parsed_routines_have_their_place(n, lines, s, k - 1, i);
    } else {
        lemma_parsed_len(n, lines, s, k - 1);
    }
}

proof fn lemma_parsed_len(n: Seq<Node>, lines: Lines, s: Seq<usize>, k: int)
    requires
        0 <= k,
    ensures
        parsed_units(n, lines, s, k).len() == k,
    decreases k,
{
    if k > 0 {
        lemma_parsed_len(n, lines, s, k - 1);
    }
}

/// A routine is called by the first of its children that names routines, without
/// the space around it.
pub proof fn routines_are_called_by_their_first_name(n: Seq<Node>, u: int, k: int)
    requires
        well_formed(n),
        0 <= u < n.len(),
        0 <= k < children(n, u).len(),
        KindSet::UnitNames.holds(n[children(n, u)[k] as int].kind),
        forall|j: int|
            0 <= j < k ==> !KindSet::UnitNames.holds(n[#[trigger] children(n, u)[j] as int].kind),
    ensures
        ({
            let text = trim(n[children(n, u)[k] as int].raw);
            &&& text.len() > 0 ==> unit_name(n, u) == Some(text)
            &&& text.len() == 0 ==> unit_name(n, u) is None
        }),
{
    lemma_first_unit_name(n, u + 1, n[u].end as int, k);
}

proof fn lemma_first_unit_name(n: Seq<Node>, c: int, hi: int, k: int)
    requires
        well_formed(n),
        0 <= c,
        hi <= n.len(),
        0 <= k < siblings(n, c, hi).len(),
        KindSet::UnitNames.holds(n[siblings(n, c, hi)[k] as int].kind),
        forall|j: int|
            0 <= j < k ==> !KindSet::UnitNames.holds(
                n[#[trigger] siblings(n, c, hi)[j] as int].kind,
            ),
    ensures
        ({
            let text = trim(n[siblings(n, c, hi)[k] as int].raw);
            unit_name_from(n, c, hi) == if text.len() > 0 {
                Some(text)
            } else {
                None
            }
        }),
    decreases hi - c,
{
    let s = siblings(n, c, hi);
    if k > 0 {
        let d = n[c].end as int;
        let t = siblings(n, d, hi);
        assert(s[0] == c);
        assert forall|j: int| 0 <= j < t.len() implies t[j] == #[trigger] s[j + 1] by {}
        assert(t[k - 1] == s[k]);
        assert forall|j: int| 0 <= j < k - 1 implies !KindSet::UnitNames.holds(
            n[#[trigger] t[j] as int].kind,
        ) by {
            assert(t[j] == s[j + 1]);
        }
        lemma_first_unit_name(n, d, hi, k - 1);
    }
}

// ── recovered definitions ──────────────────────────────────────────────

/// Whether a leaf says what kind of routine is defined.
pub open spec fn says_routine(n: Seq<Node>, leaf: Seq<usize>, j: int) -> bool {
    let w = leaf_word(n, leaf, j);
    w is Function || w is Procedure || w is Proc || w is Trigger
}

/// A definition is `CREATE` and a kind of routine and its name; it can be one that
/// may be there already; and where definitions are altered as well, `ALTER` starts
/// one too. Nothing else does.
pub proof fn headers_start_with_create(n: Seq<Node>, leaf: Seq<usize>, i: int, allow_alter: bool)
    requires
        0 <= i < leaf.len(),
    ensures
        ({
            let lead = leaf_word(n, leaf, i);
            let starts = lead is Create || lead is Alter && allow_alter;
            let second = leaf_word(n, leaf, i + 1);
            let third = leaf_word(n, leaf, i + 2);
            &&& !starts ==> header_at(n, leaf, i, allow_alter) is None
            &&& starts && says_routine(n, leaf, i + 1) && i + 2 < leaf.len() && starts_name(
                leaf_text(n, leaf, i + 2),
            ) ==> header_at(n, leaf, i, allow_alter) == Some(dotted_name(n, leaf, i + 2))
            &&& starts && second is Or && (third is Replace || third is Alter) && says_routine(
                n,
                leaf,
                i + 3,
            ) && i + 4 < leaf.len() && starts_name(leaf_text(n, leaf, i + 4)) ==> header_at(
                n,
                leaf,
                i,
                allow_alter,
            ) == Some(dotted_name(n, leaf, i + 4))
            &&& starts && !(second is Or) && !(second is Definer) && !says_routine(n, leaf, i + 1)
                ==> header_at(n, leaf, i, allow_alter) is None
        }),
{
}

/// A name goes on over its dots.
pub proof fn names_go_on_over_dots(n: Seq<Node>, leaf: Seq<usize>, i: int)
    requires
        0 <= i < leaf.len(),
    ensures
        leaf_word(n, leaf, i + 1) is Dot && i + 2 < leaf.len() ==> dotted_name(n, leaf, i)
            == leaf_text(n, leaf, i) + seq!['.'] + dotted_name(n, leaf, i + 2),
        !(leaf_word(n, leaf, i + 1) is Dot) ==> dotted_name(n, leaf, i) == leaf_text(n, leaf, i),
{
}

/// A statement can start at the first leaf, after a semicolon, after `GO` and
/// after a delimiter of the client.
pub proof fn statements_start_at_boundaries(n: Seq<Node>, leaf: Seq<usize>, j: int)
    ensures
        at_boundary(n, leaf, j) <==> j == 0 || leaf_word(n, leaf, j - 1) is Semicolon || leaf_word(
            n,
            leaf,
            j - 1,
        ) is Go || custom_delimiter(leaf_text(n, leaf, j - 1)),
{
}

/// A delimiter of the client is made of strokes, dollars, semicolons, bars and
/// exclamation marks.
pub proof fn delimiters_are_built_up(s: Seq<char>, c: char)
    ensures
        !custom_delimiter(Seq::empty()),
        custom_delimiter(seq![c]) <==> c == '/' || c == '$' || c == ';' || c == '|' || c == '!',
        s.len() > 0 ==> (custom_delimiter(s.push(c)) <==> custom_delimiter(s) && (c == '/' || c
            == '$' || c == ';' || c == '|' || c == '!')),
{
    let t = s.push(c);
    assert(seq![c][0] == c);
    if custom_delimiter(seq![c]) {
        assert(crate::units::delimits(seq![c][0]));
    }
    if s.len() > 0 && custom_delimiter(t) {
        assert forall|i: int| 0 <= i < s.len() implies crate::units::delimits(#[trigger] s[i]) by {
            assert(t[i] == s[i]);
        }
        assert(crate::units::delimits(t[s.len() as int]));
    }
}

/// A definition that was recovered lasts until the next one starts, the last one
/// until the run ends.
pub proof fn recovered_routines_follow_each_other(
    n: Seq<Node>,
    lines: Lines,
    leaf: Seq<usize>,
    at: Seq<usize>,
    allow_alter: bool,
    run_end: u32,
    k: int,
    i: int,
)
    requires
        0 <= i < k <= at.len(),
    ensures
        header_units(n, lines, leaf, at, allow_alter, run_end, k).len() == k,
        ({
            let u = header_units(n, lines, leaf, at, allow_alter, run_end, k);
            &&& u[i].start_byte == leaf_start(n, leaf, at[i] as int)
            &&& i + 1 < at.len() ==> u[i].end_byte == leaf_start(n, leaf, at[i + 1] as int)
            &&& i + 1 == at.len() ==> u[i].end_byte == run_end
            &&& u[i].name == header_at(n, leaf, at[i] as int, allow_alter)
            &&& u[i].start_line == lines.line(u[i].start_byte)
            &&& u[i].end_line == lines.last_line(u[i].end_byte)
        }),
    decreases k,
{
    lemma_header_len(n, lines, leaf, at, allow_alter, run_end, k - 1);
    if i < k - 1 {
        recovered_routines_follow_each_other(n, lines, leaf, at, allow_alter, run_end, k - 1, i);
    }
}

proof fn lemma_header_len(
    n: Seq<Node>,
    lines: Lines,
    leaf: Seq<usize>,
    at: Seq<usize>,
    allow_alter: bool,
    run_end: u32,
    k: int,
)
    requires
        0 <= k,
    ensures
        header_units(n, lines, leaf, at, allow_alter, run_end, k).len() == k,
    decreases k,
{
    if k > 0 {
        lemma_header_len(n, lines, leaf, at, allow_alter, run_end, k - 1);
    }
}

/// Routines are recovered from a run that no known routine covers, in the way of
/// the dialect: with altered ones among batches, without them where a delimiter
/// is set, and from the bodies of packages.
pub proof fn runs_are_recovered_by_dialect(
    n: Seq<Node>,
    lines: Lines,
    units: Seq<Unit>,
    run: int,
    range: (u32, u32),
)
    requires
        n[run].span == Some(range),
    ensures
        ({
            let known = exists|k: int|
                0 <= k < units.len() && (#[trigger] units[k]).start_byte <= range.0 && range.1
                    <= units[k].end_byte;
            &&& known ==> forall|how: Recovery| #[trigger] with_run(n, lines, how, units, run)
                == units
            &&& with_run(n, lines, Recovery::Nothing, units, run) == units
            &&& !known ==> with_run(n, lines, Recovery::Batches, units, run) == units
                + crate::units::run_definitions(n, lines, run, true, range.1)
            &&& !known ==> with_run(n, lines, Recovery::Delimited, units, run) == units
                + crate::units::run_definitions(n, lines, run, false, range.1)
            &&& !known ==> with_run(n, lines, Recovery::Packages, units, run) == units
                + crate::units::run_members(n, lines, run, range.1)
        }),
{
    if crate::units::covered(units, range) {
        let k = choose|k: int|
            0 <= k < units.len() && crate::units::covers(#[trigger] units[k], range);
        assert(units[k].start_byte <= range.0);
    }
    if exists|k: int|
        0 <= k < units.len() && (#[trigger] units[k]).start_byte <= range.0 && range.1
            <= units[k].end_byte {
        let k = choose|k: int|
            0 <= k < units.len() && (#[trigger] units[k]).start_byte <= range.0 && range.1
                <= units[k].end_byte;
        assert(crate::units::covers(units[k], range));
    }
}

/// Whether a leaf neither opens nor closes anything in the body of a member.
pub open spec fn is_plain(n: Seq<Node>, leaf: Seq<usize>, j: int) -> bool {
    let w = leaf_word(n, leaf, j);
    &&& !(w is Begin) && !(w is Case) && !(w is Procedure) && !(w is Function)
    &&& w is End ==> leaf_word(n, leaf, j + 1) is If || leaf_word(n, leaf, j + 1) is Loop
        || leaf_word(n, leaf, j + 1) is While || leaf_word(n, leaf, j + 1) is Repeat
}

/// The body of a member ends with the `END` of its `BEGIN`.
pub proof fn members_end_with_their_body(n: Seq<Node>, leaf: Seq<usize>, j: int, b: int, e: int)
    requires
        0 <= j <= b < e < leaf.len(),
        leaf_word(n, leaf, b) is Begin,
        leaf_word(n, leaf, e) is End,
        !(leaf_word(n, leaf, e + 1) is If) && !(leaf_word(n, leaf, e + 1) is Loop) && !(leaf_word(
            n,
            leaf,
            e + 1,
        ) is While) && !(leaf_word(n, leaf, e + 1) is Repeat),
        forall|i: int| j <= i < e && i != b ==> #[trigger] is_plain(n, leaf, i),
    ensures
        member_close(n, leaf, j, 0, false, 1) == Some(e),
    decreases b - j,
{
    if j < b {
        assert(is_plain(n, leaf, j));
        members_end_with_their_body(n, leaf, j + 1, b, e);
    } else {
        lemma_inside_body(n, leaf, b + 1, e);
    }
}

proof fn lemma_inside_body(n: Seq<Node>, leaf: Seq<usize>, j: int, e: int)
    requires
        0 <= j <= e < leaf.len(),
        leaf_word(n, leaf, e) is End,
        !(leaf_word(n, leaf, e + 1) is If) && !(leaf_word(n, leaf, e + 1) is Loop) && !(leaf_word(
            n,
            leaf,
            e + 1,
        ) is While) && !(leaf_word(n, leaf, e + 1) is Repeat),
        forall|i: int| j <= i < e ==> #[trigger] is_plain(n, leaf, i),
    ensures
        member_close(n, leaf, j, 1, true, 1) == Some(e),
    decreases e - j,
{
    if j < e {
        assert(is_plain(n, leaf, j));
        lemma_inside_body(n, leaf, j + 1, e);
    }
}

/// A member is declared after a semicolon or at the start of a body, by its kind
/// and its name.
pub proof fn members_are_declared(n: Seq<Node>, leaf: Seq<usize>, j: int)
    ensures
        is_member(n, leaf, j) ==> {
            let w = leaf_word(n, leaf, j);
            let prev = leaf_word(n, leaf, j - 1);
            &&& w is Procedure || w is Function
            &&& prev is Semicolon || prev is Is || prev is As
            &&& j + 1 < leaf.len()
            &&& leaf_text(n, leaf, j + 1).len() > 0
        },
{
}

/// The name and the semicolon after the last `END` belong to a member.
pub proof fn members_end_with_their_name(n: Seq<Node>, leaf: Seq<usize>, j: int, name: Seq<char>)
    requires
        0 <= j,
        j + 1 < leaf.len(),
    ensures
        ({
            let named = crate::text::upper(leaf_text(n, leaf, j + 1)) == crate::text::upper(name);
            &&& named && leaf_word(n, leaf, j + 2) is Semicolon ==> member_last(n, leaf, j, name)
                == j + 2
            &&& named && !(leaf_word(n, leaf, j + 2) is Semicolon) ==> member_last(n, leaf, j, name)
                == j + 1
            &&& !named && leaf_word(n, leaf, j + 1) is Semicolon ==> member_last(n, leaf, j, name)
                == j + 1
            &&& !named && !(leaf_word(n, leaf, j + 1) is Semicolon) ==> member_last(
                n,
                leaf,
                j,
                name,
            ) == j
        }),
{
}

/// Putting definitions in order loses none and adds none.
pub proof fn ordering_keeps_the_routines(s: Seq<Unit>, k: int, u: Unit)
    requires
        0 <= k <= s.len(),
    ensures
        in_order(s, k).len() == k,
        in_order(s, k).contains(u) <==> exists|i: int| 0 <= i < k && #[trigger] s[i] == u,
    decreases k,
{
    if k > 0 {
        ordering_keeps_the_routines(s, k - 1, u);
        lemma_with_unit(in_order(s, k - 1), s[k - 1], u);
    }
}

proof fn lemma_with_unit(s: Seq<Unit>, v: Unit, u: Unit)
    ensures
        with_unit(s, v).len() == s.len() + 1,
        with_unit(s, v).contains(u) <==> s.contains(u) || u == v,
    decreases s.len(),
{
    let w = with_unit(s, v);
    if s.len() > 0 && crate::units::precedes(v, s.last()) {
        let t = s.drop_last();
        lemma_with_unit(t, v, u);
        let x = with_unit(t, v);
        assert(w == x.push(s.last()));
        if w.contains(u) {
            let i = choose|i: int| 0 <= i < w.len() && w[i] == u;
            if i < x.len() {
                assert(x[i] == u);
                if t.contains(u) {
                    let j = choose|j: int| 0 <= j < t.len() && t[j] == u;
                    assert(s[j] == u);
                }
            } else {
                assert(s[s.len() - 1] == u);
            }
        }
        if s.contains(u) {
            let j = choose|j: int| 0 <= j < s.len() && s[j] == u;
            if j < t.len() {
                assert(t[j] == u);
                let i = choose|i: int| 0 <= i < x.len() && x[i] == u;
                assert(w[i] == u);
            } else {
                assert(w[x.len() as int] == u);
            }
        }
        if u == v {
            let i = choose|i: int| 0 <= i < x.len() && x[i] == u;
            assert(w[i] == u);
        }
    } else {
        assert(w == s.push(v));
        if s.contains(u) {
            let j = choose|j: int| 0 <= j < s.len() && s[j] == u;
            assert(w[j] == u);
        }
        if u == v {
            assert(w[s.len() as int] == u);
        }
        if w.contains(u) {
            let i = choose|i: int| 0 <= i < w.len() && w[i] == u;
            if i < s.len() {
                assert(s[i] == u);
            }
        }
    }
}

// ── spaces ─────────────────────────────────────────────────────────────

/// A statement is a space of the file under the label of its kind, with its
/// lines.
pub proof fn statements_are_spaces(
    s: Seq<StatementFacts>,
    units: Seq<ProceduralUnitFacts>,
    r: Seq<Space>,
    i: int,
)
    requires
        describes_spaces(s, units, r),
        0 <= i < s.len(),
    ensures
        r[i].id == i + 1,
        r[i].parent == 0,
        r[i].kind is Statement,
        r[i].name matches Some(name) && name@ == s[i].kind.spelled(),
        r[i].span.start_byte == s[i].start_byte,
        r[i].span.end_byte == s[i].end_byte,
        r[i].metrics@.len() == 1,
        r[i].metrics@[0].key.spelled() == "sql.statement.lines"@,
        r[i].metrics@[0].value@ == crate::metrics::MetricView::Int(
            crate::text_laws::lines_from_to(s[i]) as u128,
        ),
{
    assert(crate::spaces::is_statement_space(s[i], i, r[i]));
}

/// A routine is a space behind the statements, under its name, with its
/// complexities.
pub proof fn routines_are_spaces(
    s: Seq<StatementFacts>,
    units: Seq<ProceduralUnitFacts>,
    r: Seq<Space>,
    k: int,
)
    requires
        describes_spaces(s, units, r),
        0 <= k < units.len(),
    ensures
        ({
            let x = r[s.len() + k];
            &&& x.id == s.len() + 1 + k
            &&& x.kind is Function
            &&& x.span.start_byte == units[k].start_byte
            &&& x.span.end_byte == units[k].end_byte
            &&& x.metrics@.len() == 3
            &&& x.metrics@[0].key.spelled() == "sql.procedural.cyclomatic_complexity"@
            &&& x.metrics@[0].value@ == crate::metrics::MetricView::Int(
                units[k].cyclomatic_complexity,
            )
            &&& x.metrics@[1].key.spelled() == "sql.procedural.cognitive_complexity"@
            &&& x.metrics@[1].value@ == crate::metrics::MetricView::Int(
                units[k].cognitive_complexity,
            )
            &&& x.metrics@[2].key.spelled() == "sql.structural_complexity"@
            &&& x.metrics@[2].value@ == (crate::metrics::MetricView::Ratio {
                num: units[k].embedded_query_structural,
                den: 100,
            })
        }),
{
    assert(crate::spaces::is_routine_space(
        units[k],
        s.len() + 1 + k,
        parent_of(s, routine_ranges(units), k),
        r[s.len() + k],
    ));
}

/// A routine outside every other one stands in the first statement that holds
/// it, or else in the file.
pub proof fn outer_routines_stand_in_statements(
    s: Seq<StatementFacts>,
    ranges: Seq<(u32, u32)>,
    k: int,
    i: int,
)
    requires
        crate::spaces::open_around(ranges, k).len() == 0,
        0 <= i < s.len(),
    ensures
        s[i].start_byte <= ranges[k].0 && ranges[k].1 <= s[i].end_byte && (forall|j: int|
            0 <= j < i ==> !((#[trigger] s[j]).start_byte <= ranges[k].0 && ranges[k].1
                <= s[j].end_byte)) ==> parent_of(s, ranges, k) == i + 1,
        (forall|j: int|
            0 <= j < s.len() ==> !((#[trigger] s[j]).start_byte <= ranges[k].0 && ranges[k].1
                <= s[j].end_byte)) ==> parent_of(s, ranges, k) == 0,
{
    lemma_first_statement(s, ranges[k], 0, i);
}

proof fn lemma_first_statement(s: Seq<StatementFacts>, range: (u32, u32), from: int, i: int)
    requires
        0 <= from,
    ensures
        from <= i < s.len() && s[i].start_byte <= range.0 && range.1 <= s[i].end_byte && (forall|
            j: int,
        |
            from <= j < i ==> !((#[trigger] s[j]).start_byte <= range.0 && range.1
                <= s[j].end_byte)) ==> first_around(s, range, from) == Some(i),
        (forall|j: int|
            from <= j < s.len() ==> !((#[trigger] s[j]).start_byte <= range.0 && range.1
                <= s[j].end_byte)) ==> first_around(s, range, from) is None,
    decreases s.len() - from,
{
    if from < s.len() {
        lemma_first_statement(s, range, from + 1, i);
    }
}

} // verus!
