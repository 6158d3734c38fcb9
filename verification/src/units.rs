//! Routine definitions: those that the parser recognises, and those that are
//! recovered from the tokens of a run that it could not parse.

use vstd::prelude::*;

use crate::joins::has_keyword_child;
use crate::kind::{Kind, KindSet};
use crate::span::Lines;
use crate::statements::owns;
use crate::text::{trim, upper};
use crate::tree::{
    all_in, crawl, is_code_leaf, kept, lemma_kept, lemma_reported, trimmed_word, well_formed, Node,
    Probe,
};
use crate::word::Word;

verus! {

/// The place and the name of a routine definition.
#[verifier::ext_equal]
pub struct Unit {
    /// The definition's node, where the parser recognised it.
    pub node: Option<usize>,
    pub name: Option<Seq<char>>,
    pub start_byte: u32,
    pub end_byte: u32,
    pub start_line: u32,
    pub end_line: u32,
}

/// A routine definition with its share of the file's complexity.
pub struct ProceduralUnitFacts {
    /// The definition's node, where the parser recognised it.
    pub node: Option<usize>,
    pub name: Option<Vec<char>>,
    pub start_line: u32,
    pub end_line: u32,
    pub start_byte: u32,
    pub end_byte: u32,
    pub cyclomatic_complexity: u128,
    pub cognitive_complexity: u128,
    /// The structural score of the embedded queries, in hundredths.
    pub embedded_query_structural: u128,
}

pub open spec fn name_view(name: Option<Vec<char>>) -> Option<Seq<char>> {
    match name {
        Some(text) => Some(text@),
        None => None,
    }
}

impl ProceduralUnitFacts {
    /// The definition itself.
    pub open spec fn definition(self) -> Unit {
        Unit {
            node: self.node,
            name: name_view(self.name),
            start_byte: self.start_byte,
            end_byte: self.end_byte,
            start_line: self.start_line,
            end_line: self.end_line,
        }
    }
}

/// A routine definition and its share of the file's complexity, as values.
pub ghost struct UnitShare {
    pub definition: Unit,
    pub cyclomatic_complexity: int,
    pub cognitive_complexity: int,
    pub embedded_query_structural: int,
}

impl View for ProceduralUnitFacts {
    type V = UnitShare;

    open spec fn view(&self) -> UnitShare {
        UnitShare {
            definition: self.definition(),
            cyclomatic_complexity: self.cyclomatic_complexity as int,
            cognitive_complexity: self.cognitive_complexity as int,
            embedded_query_structural: self.embedded_query_structural as int,
        }
    }
}

/// The definitions of a list.
pub open spec fn units_view(v: Seq<ProceduralUnitFacts>) -> Seq<Unit> {
    Seq::new(v.len(), |i: int| v[i].definition())
}

/// A definition of a byte range.
pub open spec fn unit_at(
    lines: Lines,
    node: Option<usize>,
    name: Option<Seq<char>>,
    start: u32,
    end: u32,
) -> Unit {
    Unit {
        node,
        name,
        start_byte: start,
        end_byte: end,
        start_line: lines.line(start),
        end_line: lines.last_line(end),
    }
}

// ── parsed definitions ─────────────────────────────────────────────────

/// The nodes that can hold an Oracle specification.
pub open spec fn spec_nodes(n: Seq<Node>, root: int) -> Seq<usize> {
    crawl(
        n,
        root,
        Probe { set: KindSet::OracleSpecs, deep: true, stop: KindSet::Empty, own: false },
    )
}

/// Whether a node is a specification that holds a byte range.
pub open spec fn specifies(n: Seq<Node>, c: int, range: (u32, u32)) -> bool {
    &&& n[c].kind != Kind::OracleCreatePackageStatement || !has_keyword_child(n, c, Word::Body)
    &&& n[c].span matches Some(outer) && owns(outer, range)
}

/// Whether a byte range lies in an Oracle specification.
pub open spec fn in_specification(n: Seq<Node>, root: int, range: (u32, u32)) -> bool {
    exists|k: int|
        0 <= k < spec_nodes(n, root).len() && specifies(
            n,
            #[trigger] spec_nodes(n, root)[k] as int,
            range,
        )
}

/// Whether a definition node is a routine: it has a place, and it is no
/// prototype in an Oracle specification.
pub open spec fn is_routine(n: Seq<Node>, root: int) -> spec_fn(usize) -> bool {
    |u: usize|
        n[u as int].span matches Some(range) && (!KindSet::OracleRoutines.holds(n[u as int].kind)
            || all_in(n, u as int, KindSet::Only(Kind::OracleBeginEndBlock)).len() > 0
            || !in_specification(n, root, range))
}

/// The routine definitions that the parser recognised, in pre-order.
pub open spec fn unit_nodes(n: Seq<Node>, root: int) -> Seq<usize> {
    kept(
        crawl(
            n,
            root,
            Probe { set: KindSet::Units, deep: true, stop: KindSet::Empty, own: false },
        ),
        is_routine(n, root),
    )
}

/// The name of a definition by its siblings from `c` on.
pub open spec fn unit_name_from(n: Seq<Node>, c: int, hi: int) -> Option<Seq<char>>
    decreases hi - c,
{
    if 0 <= c < hi && c < n[c].end <= hi {
        if KindSet::UnitNames.holds(n[c].kind) {
            if trim(n[c].raw).len() > 0 {
                Some(trim(n[c].raw))
            } else {
                None
            }
        } else {
            unit_name_from(n, n[c].end as int, hi)
        }
    } else {
        None
    }
}

/// The name that a definition node gives its routine.
pub open spec fn unit_name(n: Seq<Node>, u: int) -> Option<Seq<char>> {
    unit_name_from(n, u + 1, n[u].end as int)
}

/// The first `k` parsed definitions.
pub open spec fn parsed_units(n: Seq<Node>, lines: Lines, s: Seq<usize>, k: int) -> Seq<Unit>
    decreases k,
{
    if k <= 0 {
        Seq::empty()
    } else {
        let u = s[k - 1] as int;
        let range = n[u].span->0;
        parsed_units(n, lines, s, k - 1).push(
            unit_at(lines, Some(s[k - 1]), unit_name(n, u), range.0, range.1),
        )
    }
}

// ── token runs ─────────────────────────────────────────────────────────

/// Whether a position is a code leaf with a place.
pub open spec fn is_placed_leaf(n: Seq<Node>, i: int) -> bool {
    is_code_leaf(n, i) && n[i].span is Some
}

/// The code leaves at positions `lo..hi`.
pub open spec fn leaves_in(n: Seq<Node>, lo: int, hi: int) -> Seq<usize>
    decreases hi - lo,
{
    if hi <= lo {
        Seq::empty()
    } else if is_placed_leaf(n, hi - 1) {
        leaves_in(n, lo, hi - 1).push((hi - 1) as usize)
    } else {
        leaves_in(n, lo, hi - 1)
    }
}

/// The code leaves of a run.
pub open spec fn run_leaves(n: Seq<Node>, run: int) -> Seq<usize> {
    leaves_in(n, run, n[run].end as int)
}

/// The text of the leaf at place `j`.
pub open spec fn leaf_text(n: Seq<Node>, leaf: Seq<usize>, j: int) -> Seq<char> {
    trim(n[leaf[j] as int].raw)
}

/// The vocabulary entry of the leaf at place `j`.
pub open spec fn leaf_word(n: Seq<Node>, leaf: Seq<usize>, j: int) -> Word {
    if 0 <= j < leaf.len() {
        trimmed_word(n, leaf[j] as int)
    } else {
        Word::Absent
    }
}

/// The first byte of the leaf at place `j`.
pub open spec fn leaf_start(n: Seq<Node>, leaf: Seq<usize>, j: int) -> u32 {
    (n[leaf[j] as int].span->0).0
}

/// The end of the leaf at place `j`.
pub open spec fn leaf_end(n: Seq<Node>, leaf: Seq<usize>, j: int) -> u32 {
    (n[leaf[j] as int].span->0).1
}

/// Whether a character is a letter or a digit of any script: what
/// `char::is_alphanumeric` returns.
pub uninterp spec fn is_alphanumeric(c: char) -> bool;

/// Whether a character is a letter or a digit of any script:
/// `char::is_alphanumeric`. The ASCII letters and digits are among them.
#[verifier::external_body]
pub(crate) fn alphanumeric(c: char) -> (r: bool)
    ensures
        r == is_alphanumeric(c),
        ('a' <= c && c <= 'z') || ('A' <= c && c <= 'Z') || ('0' <= c && c <= '9') ==> r,
{
    c.is_alphanumeric()
}

/// Whether a text consists of the characters that client delimiters are made
/// of.
pub open spec fn custom_delimiter(s: Seq<char>) -> bool {
    s.len() > 0 && forall|i: int| 0 <= i < s.len() ==> delimits(#[trigger] s[i])
}

pub open spec fn delimits(c: char) -> bool {
    c == '/' || c == '$' || c == ';' || c == '|' || c == '!'
}

/// Whether a text consists of the characters that client delimiters are made
/// of.
pub fn is_custom_delimiter(s: &Vec<char>) -> (r: bool)
    ensures
        r == custom_delimiter(s@),
{
    let mut i: usize = 0;
    while i < s.len()
        invariant
            i <= s@.len(),
            forall|j: int| 0 <= j < i ==> delimits(#[trigger] s@[j]),
        decreases s@.len() - i,
    {
        if !matches!(s[i], '/' | '$' | ';' | '|' | '!') {
            assert(!delimits(s@[i as int]));
            return false;
        }
        i = i + 1;
    }
    s.len() > 0
}

// ── recovered headers ──────────────────────────────────────────────────

/// The words that name the kind of a routine.
pub open spec fn names_routine(w: Word) -> bool {
    w == Word::Function || w == Word::Procedure || w == Word::Proc || w == Word::Trigger
}

/// The place after an account, which ends at the kind of the routine, at the
/// end of the run, or beyond `limit`.
pub open spec fn after_account(n: Seq<Node>, leaf: Seq<usize>, i: int, limit: int) -> int
    decreases limit + 1 - i,
{
    if i > limit || names_routine(leaf_word(n, leaf, i)) || leaf_word(n, leaf, i) == Word::Absent {
        i
    } else {
        after_account(n, leaf, i + 1, limit)
    }
}

/// The place of the kind keyword of a header that starts at `i`.
pub open spec fn kind_place(n: Seq<Node>, leaf: Seq<usize>, i: int) -> int {
    let a = i + 1;
    let b = if leaf_word(n, leaf, a) == Word::Or && (leaf_word(n, leaf, a + 1) == Word::Alter
        || leaf_word(n, leaf, a + 1) == Word::Replace) {
        a + 2
    } else {
        a
    };
    if leaf_word(n, leaf, b) == Word::Definer {
        after_account(n, leaf, b + 1, b + 8)
    } else {
        b
    }
}

/// The text of a dotted name that starts at `i`.
pub open spec fn dotted_name(n: Seq<Node>, leaf: Seq<usize>, i: int) -> Seq<char>
    decreases leaf.len() - i,
{
    if 0 <= i && leaf_word(n, leaf, i + 1) == Word::Dot && i + 2 < leaf.len() {
        leaf_text(n, leaf, i) + seq!['.'] + dotted_name(n, leaf, i + 2)
    } else {
        leaf_text(n, leaf, i)
    }
}

/// Whether a text can start a routine's name.
pub open spec fn starts_name(s: Seq<char>) -> bool {
    s.len() > 0 && (is_alphanumeric(s[0]) || s[0] == '_' || s[0] == '[' || s[0] == '"' || s[0]
        == '`')
}

/// The name in a definition header that starts at `i`, if one does.
pub open spec fn header_at(n: Seq<Node>, leaf: Seq<usize>, i: int, allow_alter: bool) -> Option<
    Seq<char>,
> {
    let lead = leaf_word(n, leaf, i);
    let k = kind_place(n, leaf, i);
    if (lead == Word::Create || (lead == Word::Alter && allow_alter)) && names_routine(
        leaf_word(n, leaf, k),
    ) && k + 1 < leaf.len() && starts_name(leaf_text(n, leaf, k + 1)) {
        Some(dotted_name(n, leaf, k + 1))
    } else {
        None
    }
}

/// Whether a statement can start at place `j`.
pub open spec fn at_boundary(n: Seq<Node>, leaf: Seq<usize>, j: int) -> bool {
    ||| j == 0
    ||| leaf_word(n, leaf, j - 1) == Word::Semicolon
    ||| leaf_word(n, leaf, j - 1) == Word::Go
    ||| custom_delimiter(leaf_text(n, leaf, j - 1))
}

/// Whether a recovered definition starts at place `j`.
pub open spec fn is_header(n: Seq<Node>, leaf: Seq<usize>, j: int, allow_alter: bool) -> bool {
    at_boundary(n, leaf, j) && header_at(n, leaf, j, allow_alter) is Some
}

/// The places of the recovered definitions among the first `k` leaves.
pub open spec fn header_places(n: Seq<Node>, leaf: Seq<usize>, allow_alter: bool, k: int) -> Seq<
    usize,
>
    decreases k,
{
    if k <= 0 {
        Seq::empty()
    } else if is_header(n, leaf, k - 1, allow_alter) {
        header_places(n, leaf, allow_alter, k - 1).push((k - 1) as usize)
    } else {
        header_places(n, leaf, allow_alter, k - 1)
    }
}

/// The first `k` recovered definitions of a run: each lasts until the next
/// one starts.
pub open spec fn header_units(
    n: Seq<Node>,
    lines: Lines,
    leaf: Seq<usize>,
    at: Seq<usize>,
    allow_alter: bool,
    run_end: u32,
    k: int,
) -> Seq<Unit>
    decreases k,
{
    if k <= 0 {
        Seq::empty()
    } else {
        let end = if k < at.len() {
            leaf_start(n, leaf, at[k] as int)
        } else {
            run_end
        };
        header_units(n, lines, leaf, at, allow_alter, run_end, k - 1).push(
            unit_at(
                lines,
                None,
                header_at(n, leaf, at[k - 1] as int, allow_alter),
                leaf_start(n, leaf, at[k - 1] as int),
                end,
            ),
        )
    }
}

/// The definitions that a run of T-SQL or MySQL tokens holds.
pub open spec fn run_definitions(
    n: Seq<Node>,
    lines: Lines,
    run: int,
    allow_alter: bool,
    run_end: u32,
) -> Seq<Unit> {
    let leaf = run_leaves(n, run);
    let at = header_places(n, leaf, allow_alter, leaf.len() as int);
    header_units(n, lines, leaf, at, allow_alter, run_end, at.len() as int)
}

// ── recovered package members ──────────────────────────────────────────

/// Whether a run leads with the header of a package body.
pub open spec fn leads_package_body(n: Seq<Node>, leaf: Seq<usize>) -> bool {
    let a = if leaf_word(n, leaf, 1) == Word::Or && leaf_word(n, leaf, 2) == Word::Replace {
        3int
    } else {
        1int
    };
    let b = if leaf_word(n, leaf, a) == Word::Editionable || leaf_word(n, leaf, a)
        == Word::Noneditionable {
        a + 1
    } else {
        a
    };
    leaf_word(n, leaf, 0) == Word::Create && leaf_word(n, leaf, b) == Word::Package && leaf_word(
        n,
        leaf,
        b + 1,
    ) == Word::Body
}

/// Whether a member's declaration starts at place `j`.
pub open spec fn is_member(n: Seq<Node>, leaf: Seq<usize>, j: int) -> bool {
    let prev = leaf_word(n, leaf, j - 1);
    &&& leaf_word(n, leaf, j) == Word::Procedure || leaf_word(n, leaf, j) == Word::Function
    &&& prev == Word::Semicolon || prev == Word::Is || prev == Word::As
    &&& j + 1 < leaf.len()
    &&& starts_member_name(leaf_text(n, leaf, j + 1))
}

pub open spec fn starts_member_name(s: Seq<char>) -> bool {
    s.len() > 0 && (is_alphanumeric(s[0]) || s[0] == '_' || s[0] == '"')
}

/// Whether a declaration goes on to a body: `IS` or `AS` comes before the
/// terminator and opens no call specification.
pub open spec fn goes_to_body(n: Seq<Node>, leaf: Seq<usize>, j: int) -> bool
    decreases leaf.len() - j,
{
    if j < 0 || j >= leaf.len() || leaf_word(n, leaf, j) == Word::Semicolon {
        false
    } else if leaf_word(n, leaf, j) == Word::Is || leaf_word(n, leaf, j) == Word::As {
        leaf_word(n, leaf, j + 1) != Word::Language && leaf_word(n, leaf, j + 1) != Word::External
    } else {
        goes_to_body(n, leaf, j + 1)
    }
}

/// The words after `END` that close no block.
pub open spec fn closes_control(w: Word) -> bool {
    w == Word::If || w == Word::Loop || w == Word::While || w == Word::Repeat
}

/// The place of the `END` that closes a member's own body, scanning from `j`
/// with `depth` blocks and cases open, `opened` when a body is open, and `due`
/// bodies to come: the member's own and those of the subprograms that it
/// declares.
pub open spec fn member_close(
    n: Seq<Node>,
    leaf: Seq<usize>,
    j: int,
    depth: int,
    opened: bool,
    due: int,
) -> Option<int>
    decreases leaf.len() - j,
{
    if j < 0 || j >= leaf.len() {
        None
    } else if depth == 0 && is_member(n, leaf, j) && goes_to_body(n, leaf, j + 1) {
        member_close(n, leaf, j + 1, depth, opened, due + 1)
    } else if leaf_word(n, leaf, j) == Word::Begin {
        member_close(n, leaf, j + 1, depth + 1, true, due)
    } else if leaf_word(n, leaf, j) == Word::Case && leaf_word(n, leaf, j - 1) != Word::End {
        member_close(n, leaf, j + 1, depth + 1, opened, due)
    } else if leaf_word(n, leaf, j) == Word::End && !closes_control(leaf_word(n, leaf, j + 1)) {
        if depth > 1 {
            member_close(n, leaf, j + 1, depth - 1, opened, due)
        } else if !opened {
            member_close(n, leaf, j + 1, 0, opened, due)
        } else if due <= 1 {
            Some(j)
        } else {
            member_close(n, leaf, j + 1, 0, false, due - 1)
        }
    } else {
        member_close(n, leaf, j + 1, depth, opened, due)
    }
}

/// The last leaf of a member whose body closes at `j`: the name and the
/// terminator after `END` belong to it.
pub open spec fn member_last(n: Seq<Node>, leaf: Seq<usize>, j: int, name: Seq<char>) -> int {
    let a = if j + 1 < leaf.len() && upper(leaf_text(n, leaf, j + 1)) == upper(name) {
        j + 2
    } else {
        j + 1
    };
    if leaf_word(n, leaf, a) == Word::Semicolon {
        a
    } else {
        a - 1
    }
}

/// The end of the member at place `j`, `fallback` where it has no closed body.
pub open spec fn member_end(n: Seq<Node>, leaf: Seq<usize>, j: int, fallback: u32) -> u32 {
    if goes_to_body(n, leaf, j + 1) {
        match member_close(n, leaf, j + 1, 0, false, 1) {
            Some(close) => leaf_end(
                n,
                leaf,
                member_last(n, leaf, close, leaf_text(n, leaf, j + 1)),
            ),
            None => fallback,
        }
    } else {
        fallback
    }
}

/// The places of the members among the first `k` leaves.
pub open spec fn member_places(n: Seq<Node>, leaf: Seq<usize>, k: int) -> Seq<usize>
    decreases k,
{
    if k <= 0 {
        Seq::empty()
    } else if is_member(n, leaf, k - 1) {
        member_places(n, leaf, k - 1).push((k - 1) as usize)
    } else {
        member_places(n, leaf, k - 1)
    }
}

/// The first `k` members.
pub open spec fn member_units(
    n: Seq<Node>,
    lines: Lines,
    leaf: Seq<usize>,
    at: Seq<usize>,
    run_end: u32,
    k: int,
) -> Seq<Unit>
    decreases k,
{
    if k <= 0 {
        Seq::empty()
    } else {
        let fallback = if k < at.len() {
            leaf_start(n, leaf, at[k] as int)
        } else {
            run_end
        };
        let j = at[k - 1] as int;
        member_units(n, lines, leaf, at, run_end, k - 1).push(
            unit_at(
                lines,
                None,
                Some(leaf_text(n, leaf, j + 1)),
                leaf_start(n, leaf, j),
                member_end(n, leaf, j, fallback),
            ),
        )
    }
}

/// The members that a run of Oracle tokens holds.
pub open spec fn run_members(n: Seq<Node>, lines: Lines, run: int, run_end: u32) -> Seq<Unit> {
    let leaf = run_leaves(n, run);
    if leads_package_body(n, leaf) {
        let at = member_places(n, leaf, leaf.len() as int);
        member_units(n, lines, leaf, at, run_end, at.len() as int)
    } else {
        Seq::empty()
    }
}

// ── all units ──────────────────────────────────────────────────────────

/// How routines are recovered from runs that could not be parsed.
#[derive(Clone, Copy, Debug, PartialEq, Eq, Structural)]
pub enum Recovery {
    /// Not at all.
    Nothing,
    /// T-SQL: definitions, redefinitions by `ALTER` among them.
    Batches,
    /// MySQL: definitions.
    Delimited,
    /// Oracle: the members of package bodies.
    Packages,
}

/// Whether a definition holds a byte range.
pub open spec fn covers(u: Unit, range: (u32, u32)) -> bool {
    u.start_byte <= range.0 && range.1 <= u.end_byte
}

pub open spec fn covered(units: Seq<Unit>, range: (u32, u32)) -> bool {
    exists|k: int| 0 <= k < units.len() && covers(#[trigger] units[k], range)
}

/// The definitions found in one run, unless a known one holds the run.
pub open spec fn with_run(
    n: Seq<Node>,
    lines: Lines,
    how: Recovery,
    units: Seq<Unit>,
    run: int,
) -> Seq<Unit> {
    match n[run].span {
        None => units,
        Some(range) => if covered(units, range) {
            units
        } else {
            match how {
                Recovery::Nothing => units,
                Recovery::Batches => units + run_definitions(n, lines, run, true, range.1),
                Recovery::Delimited => units + run_definitions(n, lines, run, false, range.1),
                Recovery::Packages => units + run_members(n, lines, run, range.1),
            }
        },
    }
}

pub open spec fn with_runs(
    n: Seq<Node>,
    lines: Lines,
    how: Recovery,
    units: Seq<Unit>,
    runs: Seq<usize>,
    k: int,
) -> Seq<Unit>
    decreases k,
{
    if k <= 0 {
        units
    } else {
        with_run(n, lines, how, with_runs(n, lines, how, units, runs, k - 1), runs[k - 1] as int)
    }
}

/// Whether `a` precedes `b` in source order, the longer first.
pub open spec fn precedes(a: Unit, b: Unit) -> bool {
    a.start_byte < b.start_byte || (a.start_byte == b.start_byte && a.end_byte > b.end_byte)
}

/// A list in source order with one more definition, behind its equals.
pub open spec fn with_unit(s: Seq<Unit>, u: Unit) -> Seq<Unit>
    decreases s.len(),
{
    if s.len() > 0 && precedes(u, s.last()) {
        with_unit(s.drop_last(), u).push(s.last())
    } else {
        s.push(u)
    }
}

/// The first `k` definitions in source order.
pub open spec fn in_order(s: Seq<Unit>, k: int) -> Seq<Unit>
    decreases k,
{
    if k <= 0 {
        Seq::empty()
    } else {
        with_unit(in_order(s, k - 1), s[k - 1])
    }
}

/// The routine definitions of a file.
pub open spec fn units_of(n: Seq<Node>, lines: Lines, how: Recovery, root: int) -> Seq<Unit> {
    let nodes = unit_nodes(n, root);
    let parsed = parsed_units(n, lines, nodes, nodes.len() as int);
    if how == Recovery::Nothing {
        parsed
    } else {
        let runs = all_in(n, root, KindSet::Only(Kind::Unparsable));
        let all = with_runs(n, lines, how, parsed, runs, runs.len() as int);
        in_order(all, all.len() as int)
    }
}

/// Whether no definition precedes an earlier one.
pub open spec fn in_source_order(s: Seq<Unit>) -> bool {
    forall|i: int, j: int| 0 <= i < j < s.len() ==> !precedes(#[trigger] s[j], #[trigger] s[i])
}

proof fn lemma_with_unit(s: Seq<Unit>, u: Unit)
    requires
        in_source_order(s),
    ensures
        in_source_order(with_unit(s, u)),
        with_unit(s, u).len() == s.len() + 1,
        forall|i: int|
            0 <= i < with_unit(s, u).len() ==> (#[trigger] with_unit(s, u)[i]) == u || s.contains(
                with_unit(s, u)[i],
            ),
    decreases s.len(),
{
    let r = with_unit(s, u);
    if s.len() > 0 && precedes(u, s.last()) {
        let d = s.drop_last();
        let q = with_unit(d, u);
        lemma_with_unit(d, u);
        assert forall|i: int| 0 <= i < r.len() implies (#[trigger] r[i]) == u || s.contains(r[i]) by {
            if i < q.len() {
                assert(r[i] == q[i]);
                if q[i] != u {
                    let at = choose|l: int| 0 <= l < d.len() && d[l] == q[i];
                    assert(s[at] == r[i]);
                }
            } else {
                assert(r[i] == s[s.len() - 1]);
            }
        }
        assert forall|i: int, j: int| 0 <= i < j < r.len() implies !precedes(
            #[trigger] r[j],
            #[trigger] r[i],
        ) by {
            if j < q.len() {
                assert(r[j] == q[j] && r[i] == q[i]);
            } else {
                assert(r[i] == q[i]);
                if q[i] != u {
                    let at = choose|l: int| 0 <= l < d.len() && d[l] == q[i];
                    assert(s[at] == r[i]);
                }
            }
        }
    } else {
        assert forall|i: int| 0 <= i < r.len() implies (#[trigger] r[i]) == u || s.contains(r[i]) by {
            if i < s.len() {
                assert(r[i] == s[i]);
            }
        }
        assert forall|i: int, j: int| 0 <= i < j < r.len() implies !precedes(
            #[trigger] r[j],
            #[trigger] r[i],
        ) by {
            if j == s.len() && i < s.len() - 1 {
                assert(!precedes(s[s.len() - 1], s[i]));
            }
        }
    }
}

proof fn lemma_in_order(s: Seq<Unit>, k: int)
    requires
        0 <= k <= s.len(),
    ensures
        in_source_order(in_order(s, k)),
        in_order(s, k).len() == k,
    decreases k,
{
    if k > 0 {
        lemma_in_order(s, k - 1);
        lemma_with_unit(in_order(s, k - 1), s[k - 1]);
    }
}

/// Where definitions are recovered from what could not be parsed, all of them
/// come in source order, and one that holds another comes first.
pub proof fn recovered_units_are_in_order(n: Seq<Node>, lines: Lines, how: Recovery, root: int)
    requires
        how != Recovery::Nothing,
    ensures
        in_source_order(units_of(n, lines, how, root)),
{
    let nodes = unit_nodes(n, root);
    let parsed = parsed_units(n, lines, nodes, nodes.len() as int);
    let runs = all_in(n, root, KindSet::Only(Kind::Unparsable));
    let all = with_runs(n, lines, how, parsed, runs, runs.len() as int);
    lemma_in_order(all, all.len() as int);
}

/// Whether the byte ranges of nodes are nested as the nodes are and in order.
pub open spec fn ranges_nest(n: Seq<Node>) -> bool {
    &&& forall|i: int|
        0 <= i < n.len() ==> ((#[trigger] n[i]).span matches Some(range) && range.0 <= range.1)
    &&& forall|i: int, j: int|
        #![trigger n[i], n[j]]
        0 <= i < j < n.len() ==> if j < n[i].end {
            (n[i].span->0).0 <= (n[j].span->0).0 && (n[j].span->0).1 <= (n[i].span->0).1
        } else {
            (n[i].span->0).1 <= (n[j].span->0).0
        }
}

/// What is kept of ascending positions ascends.
proof fn lemma_kept_ascends(s: Seq<usize>, which: spec_fn(usize) -> bool)
    requires
        forall|i: int, j: int| 0 <= i < j < s.len() ==> (#[trigger] s[i]) < (#[trigger] s[j]),
    ensures
        forall|i: int, j: int|
            0 <= i < j < kept(s, which).len() ==> (#[trigger] kept(s, which)[i])
                < (#[trigger] kept(s, which)[j]),
        forall|i: int|
            0 <= i < kept(s, which).len() ==> s.len() > 0 && (#[trigger] kept(s, which)[i])
                <= s.last(),
    decreases s.len(),
{
    if s.len() > 0 {
        let d = s.drop_last();
        lemma_kept_ascends(d, which);
        let k = kept(s, which);
        let before = kept(d, which);
        assert forall|i: int| 0 <= i < before.len() implies (#[trigger] before[i]) < s.last() by {
            assert(d.last() == s[s.len() - 2]);
            assert(s[s.len() - 2] < s[s.len() - 1]);
        }
        assert forall|i: int, j: int| 0 <= i < j < k.len() implies (#[trigger] k[i]) < (
        #[trigger] k[j]) by {
            assert(k[i] == before[i]);
            if j < before.len() {
                assert(k[j] == before[j]);
            }
        }
        assert forall|i: int| 0 <= i < k.len() implies (#[trigger] k[i]) <= s.last() by {
            if i < before.len() {
                assert(k[i] == before[i]);
            }
        }
    }
}

proof fn lemma_parsed_units(n: Seq<Node>, lines: Lines, s: Seq<usize>, k: int)
    requires
        0 <= k <= s.len(),
    ensures
        parsed_units(n, lines, s, k).len() == k,
        forall|i: int|
            0 <= i < k ==> {
                let u = #[trigger] parsed_units(n, lines, s, k)[i];
                let range = n[s[i] as int].span->0;
                u.start_byte == range.0 && u.end_byte == range.1
            },
    decreases k,
{
    if k > 0 {
        lemma_parsed_units(n, lines, s, k - 1);
    }
}

/// Routine definitions come in source order, and one that holds another comes
/// first: always where some are recovered from what could not be parsed, and
/// everywhere else in a tree whose byte ranges are nested as its nodes are and
/// in order, when no definition is empty.
pub proof fn units_are_in_order(n: Seq<Node>, lines: Lines, how: Recovery, root: int)
    requires
        how == Recovery::Nothing ==> {
            &&& well_formed(n)
            &&& 0 <= root < n.len()
            &&& ranges_nest(n)
            &&& forall|k: int|
                0 <= k < unit_nodes(n, root).len() ==> {
                    let range = n[#[trigger] unit_nodes(n, root)[k] as int].span->0;
                    range.0 < range.1
                }
        },
    ensures
        in_source_order(units_of(n, lines, how, root)),
{
    if how != Recovery::Nothing {
        recovered_units_are_in_order(n, lines, how, root);
    } else {
        let nodes = unit_nodes(n, root);
        let p = Probe { set: KindSet::Units, deep: true, stop: KindSet::Empty, own: false };
        lemma_reported(n, root, p, n[root].end as int);
        lemma_kept_ascends(crawl(n, root, p), is_routine(n, root));
        lemma_kept(crawl(n, root, p), is_routine(n, root));
        lemma_parsed_units(n, lines, nodes, nodes.len() as int);
        let units = units_of(n, lines, how, root);
        assert forall|i: int, j: int| 0 <= i < j < units.len() implies !precedes(
            #[trigger] units[j],
            #[trigger] units[i],
        ) by {
            let a = nodes[i];
            let b = nodes[j];
            assert(a < b);
            let all = crawl(n, root, p);
            assert(all.contains(b));
            let at = choose|l: int| 0 <= l < all.len() && all[l] == b;
            assert(all[at] < n[root].end);
            assert(n[a as int].span is Some);
            assert(n[b as int].span is Some);
        }
    }
}

} // verus!
