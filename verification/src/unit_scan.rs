//! Finding the routine definitions of a file.

use vstd::prelude::*;

use crate::joins::keyword_child;
use crate::kind::{Kind, KindSet};
use crate::span::LineIndex;
use crate::text::{copy_of, same, to_upper, trimmed};
use crate::tree::{
    all_in, crawl, every, kept, lemma_crawl, lemma_kept_step, lemma_take_all, Node, Probe, Tree,
    MAX_NODES,
};
use crate::units::{
    after_account, alphanumeric, at_boundary, covered, covers, dotted_name, goes_to_body, header_at,
    header_places, header_units, in_order, in_specification, is_custom_delimiter, is_member,
    is_routine, kind_place, leads_package_body, leaf_end, leaf_start, leaf_text, leaf_word,
    leaves_in, member_close, member_end, member_places, member_units, name_view, names_routine,
    parsed_units, run_definitions, run_leaves, run_members, spec_nodes, specifies, unit_at,
    unit_name, unit_name_from, unit_nodes, units_of, units_view, with_runs, with_unit,
    ProceduralUnitFacts, Recovery, Unit,
};
use crate::word::Word;

verus! {

/// A definition of a byte range, with nothing counted yet.
fn fresh_unit(
    lines: &LineIndex,
    node: Option<usize>,
    name: Option<Vec<char>>,
    start: u32,
    end: u32,
) -> (r: ProceduralUnitFacts)
    requires
        lines@.wf(),
    ensures
        r.definition() == unit_at(lines@, node, name_view(name), start, end),
        r.cyclomatic_complexity == 0,
        r.cognitive_complexity == 0,
        r.embedded_query_structural == 0,
{
    ProceduralUnitFacts {
        node,
        name,
        start_line: lines.line_at(start),
        end_line: lines.last_line_at(end),
        start_byte: start,
        end_byte: end,
        cyclomatic_complexity: 0,
        cognitive_complexity: 0,
        embedded_query_structural: 0,
    }
}

/// Whether nothing is counted yet of any definition, and a definition's node is
/// one of `len`.
pub open spec fn uncounted(v: Seq<ProceduralUnitFacts>, len: nat) -> bool {
    forall|k: int|
        0 <= k < v.len() ==> (#[trigger] v[k]).cyclomatic_complexity == 0
            && v[k].cognitive_complexity == 0 && v[k].embedded_query_structural == 0 && (
        v[k].node matches Some(node) ==> node < len)
}

// ── parsed definitions ─────────────────────────────────────────────────

/// Whether a byte range lies in an Oracle specification.
fn lies_in_specification(tree: &Tree, root: usize, specs: &Vec<usize>, range: (u32, u32)) -> (r:
    bool)
    requires
        tree.wf(),
        specs@ == spec_nodes(tree@, root as int),
        forall|l: int| 0 <= l < specs@.len() ==> (#[trigger] specs@[l]) < tree@.len(),
    ensures
        r == in_specification(tree@, root as int, range),
{
    let ghost n = tree@;
    let mut k: usize = 0;
    while k < specs.len()
        invariant
            tree.wf(),
            n == tree@,
            k <= specs@.len(),
            specs@ == spec_nodes(n, root as int),
            forall|l: int| 0 <= l < specs@.len() ==> (#[trigger] specs@[l]) < n.len(),
            forall|l: int| 0 <= l < k ==> !specifies(n, #[trigger] specs@[l] as int, range),
        decreases specs@.len() - k,
    {
        let c: usize = specs[k];
        let body = tree.kind_at(c) == Kind::OracleCreatePackageStatement && keyword_child(
            tree,
            c,
            Word::Body,
        );
        let holds = match tree.span_at(c) {
            Some((s, e)) => s <= range.0 && range.1 <= e && !(s == range.0 && e == range.1),
            None => false,
        };
        if !body && holds {
            assert(specifies(n, spec_nodes(n, root as int)[k as int] as int, range));
            return true;
        }
        k = k + 1;
    }
    false
}

/// The routine definitions that the parser recognised, in pre-order.
pub fn procedural_unit_nodes(tree: &Tree, root: usize) -> (r: Vec<usize>)
    requires
        tree.wf(),
        tree.holds(root),
    ensures
        r@ == unit_nodes(tree@, root as int),
        r@.len() <= MAX_NODES,
        forall|k: int|
            0 <= k < r@.len() ==> (#[trigger] r@[k]) < tree@.len()
                && tree@[r@[k] as int].span is Some,
{
    let ghost n = tree@;
    let ghost p = is_routine(n, root as int);
    let spec_probe = Probe {
        set: KindSet::OracleSpecs,
        deep: true,
        stop: KindSet::Empty,
        own: false,
    };
    let unit_probe = Probe {
        set: KindSet::Units,
        deep: true,
        stop: KindSet::Empty,
        own: false,
    };
    let specs = tree.crawl(root, spec_probe);
    let all = tree.crawl(root, unit_probe);
    proof {
        lemma_crawl(n, root as int, spec_probe);
        lemma_crawl(n, root as int, unit_probe);
        lemma_take_all(all@);
    }
    let mut out: Vec<usize> = Vec::new();
    let mut k: usize = 0;
    while k < all.len()
        invariant
            tree.wf(),
            n == tree@,
            p == is_routine(n, root as int),
            k <= all@.len() <= MAX_NODES,
            specs@ == spec_nodes(n, root as int),
            forall|l: int| 0 <= l < specs@.len() ==> (#[trigger] specs@[l]) < n.len(),
            forall|l: int| 0 <= l < all@.len() ==> (#[trigger] all@[l]) < n.len(),
            out@ == kept(all@.take(k as int), p),
            out@.len() <= k,
            forall|l: int|
                0 <= l < out@.len() ==> (#[trigger] out@[l]) < n.len() && n[out@[l] as int].span
                    is Some,
        decreases all@.len() - k,
    {
        proof {
            lemma_kept_step(all@, k as int, p);
        }
        let u: usize = all[k];
        let keep = match tree.span_at(u) {
            None => false,
            Some(range) => {
                if !KindSet::OracleRoutines.has(tree.kind_at(u)) {
                    true
                } else {
                    let blocks = tree.all_in(u, KindSet::Only(Kind::OracleBeginEndBlock));
                    blocks.len() > 0 || !lies_in_specification(tree, root, &specs, range)
                }
            },
        };
        if keep {
            out.push(u);
        }
        k = k + 1;
    }
    out
}

/// The name that a definition node gives its routine.
fn name_of_unit(tree: &Tree, u: usize) -> (r: Option<Vec<char>>)
    requires
        tree.wf(),
        tree.holds(u),
    ensures
        name_view(r) == unit_name(tree@, u as int),
{
    let ghost n = tree@;
    let hi: usize = tree.end_at(u);
    let mut c: usize = u + 1;
    while c < hi
        invariant
            tree.wf(),
            n == tree@,
            u < c <= hi,
            u < n.len(),
            hi == n[u as int].end,
            unit_name(n, u as int) == unit_name_from(n, c as int, hi as int),
        decreases hi - c,
    {
        assert(n[c as int].end <= hi);
        if KindSet::UnitNames.has(tree.kind_at(c)) {
            let text = trimmed(tree.raw_at(c));
            if text.len() > 0 {
                return Some(text);
            }
            return None;
        }
        c = tree.end_at(c);
    }
    None
}

/// The routine definitions that the parser recognised.
fn collect_parsed(tree: &Tree, lines: &LineIndex, root: usize) -> (r: Vec<ProceduralUnitFacts>)
    requires
        tree.wf(),
        lines@.wf(),
        tree.holds(root),
    ensures
        units_view(r@) == ({
            let s = unit_nodes(tree@, root as int);
            parsed_units(tree@, lines@, s, s.len() as int)
        }),
        uncounted(r@, tree@.len()),
        r@.len() <= MAX_NODES,
{
    let ghost n = tree@;
    let nodes = procedural_unit_nodes(tree, root);
    let mut out: Vec<ProceduralUnitFacts> = Vec::new();
    let mut k: usize = 0;
    assert(units_view(out@) =~= Seq::<Unit>::empty());
    while k < nodes.len()
        invariant
            tree.wf(),
            lines@.wf(),
            n == tree@,
            k <= nodes@.len() <= MAX_NODES,
            nodes@ == unit_nodes(n, root as int),
            forall|l: int|
                0 <= l < nodes@.len() ==> (#[trigger] nodes@[l]) < n.len() && n[nodes@[l] as int].span
                    is Some,
            units_view(out@) == parsed_units(n, lines@, nodes@, k as int),
            uncounted(out@, tree@.len()),
            out@.len() <= k,
        decreases nodes@.len() - k,
    {
        let u: usize = nodes[k];
        match tree.span_at(u) {
            Some((start, end)) => {
                let name = name_of_unit(tree, u);
                let ghost was = out@;
                let unit = fresh_unit(lines, Some(u), name, start, end);
                let ghost added = unit.definition();
                out.push(unit);
                assert(units_view(out@) =~= units_view(was).push(added));
            },
            None => {},
        }
        k = k + 1;
    }
    out
}

// ── runs ───────────────────────────────────────────────────────────────

/// Whether every entry is a leaf with a place.
spec fn placed(n: Seq<Node>, leaf: Seq<usize>) -> bool {
    &&& leaf.len() <= MAX_NODES
    &&& forall|l: int|
        0 <= l < leaf.len() ==> (#[trigger] leaf[l]) < n.len() && n[leaf[l] as int].span is Some
}

/// The code leaves of a run.
fn collect_leaves(tree: &Tree, run: usize) -> (r: Vec<usize>)
    requires
        tree.wf(),
        tree.holds(run),
    ensures
        r@ == run_leaves(tree@, run as int),
        placed(tree@, r@),
{
    let ghost n = tree@;
    let hi: usize = tree.end_at(run);
    let mut out: Vec<usize> = Vec::new();
    let mut i: usize = run;
    while i < hi
        invariant
            tree.wf(),
            n == tree@,
            run <= i <= hi <= n.len() <= MAX_NODES,
            out@ == leaves_in(n, run as int, i as int),
            out@.len() <= i - run,
            forall|l: int|
                0 <= l < out@.len() ==> (#[trigger] out@[l]) < n.len() && n[out@[l] as int].span
                    is Some,
        decreases hi - i,
    {
        if tree.span_at(i).is_some() && tree.code_leaf(i) {
            out.push(i);
        }
        i = i + 1;
    }
    out
}

/// The vocabulary entry of the leaf at place `j`.
fn word_of_leaf(tree: &Tree, leaf: &Vec<usize>, j: usize) -> (r: Word)
    requires
        placed(tree@, leaf@),
    ensures
        r == leaf_word(tree@, leaf@, j as int),
{
    if j < leaf.len() {
        tree.trimmed_word(leaf[j])
    } else {
        Word::Absent
    }
}

/// The text of the leaf at place `j`.
fn text_of_leaf(tree: &Tree, leaf: &Vec<usize>, j: usize) -> (r: Vec<char>)
    requires
        placed(tree@, leaf@),
        j < leaf@.len(),
    ensures
        r@ == leaf_text(tree@, leaf@, j as int),
{
    trimmed(tree.raw_at(leaf[j]))
}

/// The byte range of the leaf at place `j`.
fn range_of_leaf(tree: &Tree, leaf: &Vec<usize>, j: usize) -> (r: (u32, u32))
    requires
        placed(tree@, leaf@),
        j < leaf@.len(),
    ensures
        r.0 == leaf_start(tree@, leaf@, j as int),
        r.1 == leaf_end(tree@, leaf@, j as int),
{
    match tree.span_at(leaf[j]) {
        Some(range) => range,
        None => (0, 0),
    }
}

/// Whether a word names the kind of a routine.
fn routine_word(w: Word) -> (r: bool)
    ensures
        r == names_routine(w),
{
    matches!(w, Word::Function | Word::Procedure | Word::Proc | Word::Trigger)
}

/// The place of the kind keyword of a header that starts at `i`.
fn find_kind(tree: &Tree, leaf: &Vec<usize>, i: usize) -> (r: usize)
    requires
        placed(tree@, leaf@),
        i < leaf@.len(),
    ensures
        r == kind_place(tree@, leaf@, i as int),
        r <= i + 12,
{
    let ghost n = tree@;
    let mut at: usize = i + 1;
    if word_of_leaf(tree, leaf, at) == Word::Or {
        let second: Word = word_of_leaf(tree, leaf, at + 1);
        if second == Word::Alter || second == Word::Replace {
            at = at + 2;
        }
    }
    if word_of_leaf(tree, leaf, at) == Word::Definer {
        let ghost limit = at + 8;
        at = at + 1;
        let ghost from = at as int;
        let mut steps: usize = 0;
        while steps < 8
            invariant
                placed(n, leaf@),
                n == tree@,
                i < leaf@.len() <= MAX_NODES,
                limit <= i + 11,
                from == limit - 7,
                at == from + steps,
                steps <= 8,
                at <= leaf@.len(),
                after_account(n, leaf@, from, limit) == after_account(n, leaf@, at as int, limit),
            ensures
                at == after_account(n, leaf@, from, limit),
                at <= limit + 1,
            decreases 8 - steps,
        {
            let w: Word = word_of_leaf(tree, leaf, at);
            if routine_word(w) || w == Word::Absent {
                break;
            }
            at = at + 1;
            steps = steps + 1;
        }
    }
    at
}

/// The text of a dotted name that starts at `i`.
fn read_dotted(tree: &Tree, leaf: &Vec<usize>, i: usize) -> (r: Vec<char>)
    requires
        placed(tree@, leaf@),
        i < leaf@.len(),
    ensures
        r@ == dotted_name(tree@, leaf@, i as int),
{
    let ghost n = tree@;
    let mut name = text_of_leaf(tree, leaf, i);
    let mut at: usize = i;
    let ghost prefix = Seq::<char>::empty();
    assert(prefix + dotted_name(n, leaf@, at as int) =~= dotted_name(n, leaf@, i as int));
    assert(name@ =~= prefix + leaf_text(n, leaf@, at as int));
    while at + 2 < leaf.len() && word_of_leaf(tree, leaf, at + 1) == Word::Dot
        invariant
            placed(n, leaf@),
            n == tree@,
            i <= at < leaf@.len() <= MAX_NODES,
            name@ == prefix + leaf_text(n, leaf@, at as int),
            dotted_name(n, leaf@, i as int) == prefix + dotted_name(n, leaf@, at as int),
        decreases leaf@.len() - at,
    {
        let part = text_of_leaf(tree, leaf, at + 2);
        proof {
            let next = prefix + leaf_text(n, leaf@, at as int) + seq!['.'];
            assert(prefix + dotted_name(n, leaf@, at as int) =~= next + dotted_name(
                n,
                leaf@,
                at + 2,
            ));
            prefix = next;
        }
        name.push('.');
        assert(name@ =~= prefix);
        let mut k: usize = 0;
        while k < part.len()
            invariant
                k <= part@.len(),
                name@ == prefix + part@.take(k as int),
            decreases part@.len() - k,
        {
            name.push(part[k]);
            k = k + 1;
            assert(name@ =~= prefix + part@.take(k as int));
        }
        assert(part@.take(k as int) =~= part@);
        at = at + 2;
    }
    name
}

/// The name in a definition header that starts at `i`, if one does.
fn read_header(tree: &Tree, leaf: &Vec<usize>, i: usize, allow_alter: bool) -> (r: Option<
    Vec<char>,
>)
    requires
        placed(tree@, leaf@),
        i < leaf@.len(),
    ensures
        name_view(r) == header_at(tree@, leaf@, i as int, allow_alter),
{
    let lead: Word = word_of_leaf(tree, leaf, i);
    if !(lead == Word::Create || (lead == Word::Alter && allow_alter)) {
        return None;
    }
    let k: usize = find_kind(tree, leaf, i);
    if !routine_word(word_of_leaf(tree, leaf, k)) || k + 1 >= leaf.len() {
        return None;
    }
    let first = text_of_leaf(tree, leaf, k + 1);
    if first.len() == 0 {
        return None;
    }
    let c: char = first[0];
    if alphanumeric(c) || c == '_' || c == '[' || c == '"' || c == '`' {
        Some(read_dotted(tree, leaf, k + 1))
    } else {
        None
    }
}

/// Whether a statement can start at place `j`.
fn is_boundary(tree: &Tree, leaf: &Vec<usize>, j: usize) -> (r: bool)
    requires
        placed(tree@, leaf@),
        j < leaf@.len(),
    ensures
        r == at_boundary(tree@, leaf@, j as int),
{
    if j == 0 {
        return true;
    }
    let w: Word = word_of_leaf(tree, leaf, j - 1);
    if w == Word::Semicolon || w == Word::Go {
        return true;
    }
    let text = text_of_leaf(tree, leaf, j - 1);
    is_custom_delimiter(&text)
}

/// The definitions that a run of T-SQL or MySQL tokens holds.
fn recovered_definition_headers(
    tree: &Tree,
    lines: &LineIndex,
    run: usize,
    allow_alter: bool,
    run_end: u32,
) -> (r: Vec<ProceduralUnitFacts>)
    requires
        tree.wf(),
        lines@.wf(),
        tree.holds(run),
    ensures
        units_view(r@) == run_definitions(tree@, lines@, run as int, allow_alter, run_end),
        uncounted(r@, tree@.len()),
        r@.len() <= MAX_NODES,
{
    let ghost n = tree@;
    let leaf = collect_leaves(tree, run);
    let mut at: Vec<usize> = Vec::new();
    let mut names: Vec<Vec<char>> = Vec::new();
    let mut j: usize = 0;
    while j < leaf.len()
        invariant
            tree.wf(),
            n == tree@,
            placed(n, leaf@),
            j <= leaf@.len(),
            at@ == header_places(n, leaf@, allow_alter, j as int),
            names@.len() == at@.len(),
            at@.len() <= j,
            forall|l: int|
                0 <= l < at@.len() ==> (#[trigger] at@[l]) < leaf@.len() && header_at(
                    n,
                    leaf@,
                    at@[l] as int,
                    allow_alter,
                ) == Some(names@[l]@),
        decreases leaf@.len() - j,
    {
        if is_boundary(tree, &leaf, j) {
            match read_header(tree, &leaf, j, allow_alter) {
                Some(name) => {
                    at.push(j);
                    names.push(name);
                },
                None => {},
            }
        }
        j = j + 1;
    }
    let mut out: Vec<ProceduralUnitFacts> = Vec::new();
    let mut k: usize = 0;
    assert(units_view(out@) =~= Seq::<Unit>::empty());
    while k < at.len()
        invariant
            tree.wf(),
            lines@.wf(),
            n == tree@,
            placed(n, leaf@),
            k <= at@.len() <= MAX_NODES,
            names@.len() == at@.len(),
            forall|l: int|
                0 <= l < at@.len() ==> (#[trigger] at@[l]) < leaf@.len() && header_at(
                    n,
                    leaf@,
                    at@[l] as int,
                    allow_alter,
                ) == Some(names@[l]@),
            units_view(out@) == header_units(
                n,
                lines@,
                leaf@,
                at@,
                allow_alter,
                run_end,
                k as int,
            ),
            uncounted(out@, tree@.len()),
            out@.len() <= k,
        decreases at@.len() - k,
    {
        let (start, _) = range_of_leaf(tree, &leaf, at[k]);
        let end: u32 = if k + 1 < at.len() {
            assert(at@[k + 1] < leaf@.len());
            range_of_leaf(tree, &leaf, at[k + 1]).0
        } else {
            run_end
        };
        let ghost was = out@;
        let name = copy_of(&names[k]);
        let unit = fresh_unit(lines, None, Some(name), start, end);
        let ghost added = unit.definition();
        out.push(unit);
        k = k + 1;
        assert(units_view(out@) =~= units_view(was).push(added));
    }
    out
}

// ── package members ────────────────────────────────────────────────────

/// Whether a run leads with the header of a package body.
fn is_package_body(tree: &Tree, leaf: &Vec<usize>) -> (r: bool)
    requires
        placed(tree@, leaf@),
    ensures
        r == leads_package_body(tree@, leaf@),
{
    let mut i: usize = 1;
    if word_of_leaf(tree, leaf, 1) == Word::Or && word_of_leaf(tree, leaf, 2) == Word::Replace {
        i = 3;
    }
    let w: Word = word_of_leaf(tree, leaf, i);
    if w == Word::Editionable || w == Word::Noneditionable {
        i = i + 1;
    }
    word_of_leaf(tree, leaf, 0) == Word::Create && word_of_leaf(tree, leaf, i) == Word::Package
        && word_of_leaf(tree, leaf, i + 1) == Word::Body
}

/// Whether a member's declaration starts at place `j`.
fn is_member_header(tree: &Tree, leaf: &Vec<usize>, j: usize) -> (r: bool)
    requires
        placed(tree@, leaf@),
        j < leaf@.len(),
    ensures
        r == is_member(tree@, leaf@, j as int),
{
    let w: Word = word_of_leaf(tree, leaf, j);
    if !(w == Word::Procedure || w == Word::Function) || j == 0 || j + 1 >= leaf.len() {
        return false;
    }
    let prev: Word = word_of_leaf(tree, leaf, j - 1);
    if !(prev == Word::Semicolon || prev == Word::Is || prev == Word::As) {
        return false;
    }
    let name = text_of_leaf(tree, leaf, j + 1);
    name.len() > 0 && (alphanumeric(name[0]) || name[0] == '_' || name[0] == '"')
}

/// Whether a declaration goes on to a body.
fn has_body(tree: &Tree, leaf: &Vec<usize>, from: usize) -> (r: bool)
    requires
        placed(tree@, leaf@),
        from <= leaf@.len(),
    ensures
        r == goes_to_body(tree@, leaf@, from as int),
{
    let ghost n = tree@;
    let mut j: usize = from;
    while j < leaf.len()
        invariant
            n == tree@,
            placed(n, leaf@),
            from <= j <= leaf@.len(),
            goes_to_body(n, leaf@, from as int) == goes_to_body(n, leaf@, j as int),
        decreases leaf@.len() - j,
    {
        let w: Word = word_of_leaf(tree, leaf, j);
        if w == Word::Semicolon {
            return false;
        }
        if w == Word::Is || w == Word::As {
            let next: Word = word_of_leaf(tree, leaf, j + 1);
            return next != Word::Language && next != Word::External;
        }
        j = j + 1;
    }
    false
}

/// The place of the `END` that closes a member's own body.
fn find_close(tree: &Tree, leaf: &Vec<usize>, from: usize) -> (r: Option<usize>)
    requires
        placed(tree@, leaf@),
        from <= leaf@.len(),
    ensures
        match r {
            Some(j) => member_close(tree@, leaf@, from as int, 0, false, 1) == Some(j as int)
                && j < leaf@.len(),
            None => member_close(tree@, leaf@, from as int, 0, false, 1) is None,
        },
{
    let ghost n = tree@;
    let mut depth: usize = 0;
    let mut opened = false;
    let mut due: usize = 1;
    let mut j: usize = from;
    while j < leaf.len()
        invariant
            n == tree@,
            placed(n, leaf@),
            from <= j <= leaf@.len() <= MAX_NODES,
            depth <= j - from,
            1 <= due <= 1 + j - from,
            member_close(n, leaf@, from as int, 0, false, 1) == member_close(
                n,
                leaf@,
                j as int,
                depth as int,
                opened,
                due as int,
            ),
        decreases leaf@.len() - j,
    {
        let w: Word = word_of_leaf(tree, leaf, j);
        let prev: Word = if j == 0 {
            Word::Absent
        } else {
            word_of_leaf(tree, leaf, j - 1)
        };
        if depth == 0 && is_member_header(tree, leaf, j) && has_body(tree, leaf, j + 1) {
            due = due + 1;
        } else if w == Word::Begin {
            depth = depth + 1;
            opened = true;
        } else if w == Word::Case && prev != Word::End {
            depth = depth + 1;
        } else if w == Word::End && !matches!(
            word_of_leaf(tree, leaf, j + 1),
            Word::If | Word::Loop | Word::While | Word::Repeat
        ) {
            if depth > 1 {
                depth = depth - 1;
            } else if !opened {
                depth = 0;
            } else if due <= 1 {
                return Some(j);
            } else {
                depth = 0;
                opened = false;
                due = due - 1;
            }
        }
        j = j + 1;
    }
    None
}

/// The end of the member at place `j`.
fn end_of_member(tree: &Tree, leaf: &Vec<usize>, j: usize, fallback: u32) -> (r: u32)
    requires
        placed(tree@, leaf@),
        j + 1 < leaf@.len(),
    ensures
        r == member_end(tree@, leaf@, j as int, fallback),
{
    if !has_body(tree, leaf, j + 1) {
        return fallback;
    }
    match find_close(tree, leaf, j + 1) {
        None => fallback,
        Some(close) => {
            let name = text_of_leaf(tree, leaf, j + 1);
            let up = to_upper(&name);
            let mut a: usize = close + 1;
            if a < leaf.len() {
                let after = text_of_leaf(tree, leaf, a);
                let after_up = to_upper(&after);
                if same(&after_up, &up) {
                    a = a + 1;
                }
            }
            if word_of_leaf(tree, leaf, a) == Word::Semicolon {
                range_of_leaf(tree, leaf, a).1
            } else {
                range_of_leaf(tree, leaf, a - 1).1
            }
        },
    }
}

/// The members that a run of Oracle tokens holds.
fn recovered_package_body_members(tree: &Tree, lines: &LineIndex, run: usize, run_end: u32) -> (r:
    Vec<ProceduralUnitFacts>)
    requires
        tree.wf(),
        lines@.wf(),
        tree.holds(run),
    ensures
        units_view(r@) == run_members(tree@, lines@, run as int, run_end),
        uncounted(r@, tree@.len()),
        r@.len() <= MAX_NODES,
{
    let ghost n = tree@;
    let leaf = collect_leaves(tree, run);
    let mut out: Vec<ProceduralUnitFacts> = Vec::new();
    assert(units_view(out@) =~= Seq::<Unit>::empty());
    if !is_package_body(tree, &leaf) {
        return out;
    }
    let mut at: Vec<usize> = Vec::new();
    let mut j: usize = 0;
    while j < leaf.len()
        invariant
            tree.wf(),
            n == tree@,
            placed(n, leaf@),
            j <= leaf@.len(),
            at@ == member_places(n, leaf@, j as int),
            at@.len() <= j,
            forall|l: int| 0 <= l < at@.len() ==> (#[trigger] at@[l]) + 1 < leaf@.len(),
        decreases leaf@.len() - j,
    {
        if is_member_header(tree, &leaf, j) {
            at.push(j);
        }
        j = j + 1;
    }
    let mut k: usize = 0;
    while k < at.len()
        invariant
            tree.wf(),
            lines@.wf(),
            n == tree@,
            placed(n, leaf@),
            k <= at@.len() <= MAX_NODES,
            forall|l: int| 0 <= l < at@.len() ==> (#[trigger] at@[l]) + 1 < leaf@.len(),
            units_view(out@) == member_units(n, lines@, leaf@, at@, run_end, k as int),
            uncounted(out@, tree@.len()),
            out@.len() <= k,
        decreases at@.len() - k,
    {
        let place: usize = at[k];
        let fallback: u32 = if k + 1 < at.len() {
            assert(at@[k + 1] + 1 < leaf@.len());
            range_of_leaf(tree, &leaf, at[k + 1]).0
        } else {
            run_end
        };
        let (start, _) = range_of_leaf(tree, &leaf, place);
        let end: u32 = end_of_member(tree, &leaf, place, fallback);
        let name = text_of_leaf(tree, &leaf, place + 1);
        let ghost was = out@;
        let unit = fresh_unit(lines, None, Some(name), start, end);
        let ghost added = unit.definition();
        out.push(unit);
        k = k + 1;
        assert(units_view(out@) =~= units_view(was).push(added));
    }
    out
}

// ── all units ──────────────────────────────────────────────────────────

/// Whether a known definition holds a byte range.
fn is_covered(units: &Vec<ProceduralUnitFacts>, range: (u32, u32)) -> (r: bool)
    ensures
        r == covered(units_view(units@), range),
{
    let ghost s = units_view(units@);
    let mut k: usize = 0;
    while k < units.len()
        invariant
            s == units_view(units@),
            k <= units@.len(),
            forall|l: int| 0 <= l < k ==> !covers(#[trigger] s[l], range),
        decreases units@.len() - k,
    {
        assert(s[k as int] == units@[k as int].definition());
        if units[k].start_byte <= range.0 && range.1 <= units[k].end_byte {
            assert(covers(s[k as int], range));
            return true;
        }
        k = k + 1;
    }
    false
}

/// The definitions in source order, the longer of two first.
fn order_units(units: Vec<ProceduralUnitFacts>, len: Ghost<nat>) -> (r: Vec<ProceduralUnitFacts>)
    requires
        uncounted(units@, len@),
    ensures
        units_view(r@) == in_order(units_view(units@), units@.len() as int),
        uncounted(r@, len@),
        r@.len() == units@.len(),
{
    let ghost s = units_view(units@);
    let ghost total = units@.len();
    let mut rest = units;
    let mut out: Vec<ProceduralUnitFacts> = Vec::new();
    let mut taken: usize = 0;
    let count: usize = rest.len();
    assert(units_view(out@) =~= Seq::<Unit>::empty());
    while taken < count
        invariant
            count == total == s.len(),
            taken <= count,
            rest@.len() == count - taken,
            forall|l: int| 0 <= l < rest@.len() ==> (#[trigger] rest@[l]).definition() == s[taken + l],
            uncounted(rest@, len@),
            units_view(out@) == in_order(s, taken as int),
            uncounted(out@, len@),
            out@.len() == taken,
        decreases count - taken,
    {
        let u = rest.remove(0);
        let ghost was = units_view(out@);
        let ghost added = u.definition();
        let mut p: usize = out.len();
        assert(was.take(p as int) =~= was);
        assert(with_unit(was.take(p as int), added) + was.skip(p as int) =~= with_unit(was, added));
        while p > 0 && (u.start_byte < out[p - 1].start_byte || (u.start_byte == out[p - 1].start_byte
            && u.end_byte > out[p - 1].end_byte))
            invariant
                p <= out@.len(),
                was == units_view(out@),
                added == u.definition(),
                with_unit(was, added) == with_unit(was.take(p as int), added) + was.skip(p as int),
            decreases p,
        {
            proof {
                let t = was.take(p as int);
                assert(t.last() == out@[p - 1].definition());
                assert(t.drop_last() =~= was.take(p - 1));
                assert(with_unit(t, added) == with_unit(was.take(p - 1), added).push(t.last()));
                assert(with_unit(was.take(p - 1), added) + was.skip(p - 1) =~= with_unit(
                    t,
                    added,
                ) + was.skip(p as int));
            }
            p = p - 1;
        }
        proof {
            let t = was.take(p as int);
            if p > 0 {
                assert(t.last() == out@[p - 1].definition());
            }
            assert(with_unit(t, added) == t.push(added));
        }
        let ghost before = out@;
        out.insert(p, u);
        proof {
            assert(units_view(out@) =~= was.take(p as int).push(added) + was.skip(p as int));
            assert forall|l: int| 0 <= l < out@.len() implies (
            #[trigger] out@[l]).cyclomatic_complexity == 0 && out@[l].cognitive_complexity == 0
                && out@[l].embedded_query_structural == 0 by {
                if l < p {
                    assert(out@[l] == before[l]);
                } else if l > p {
                    assert(out@[l] == before[l - 1]);
                }
            }
        }
        taken = taken + 1;
    }
    out
}

/// The routine definitions of a file.
pub fn extract_procedural_units(tree: &Tree, lines: &LineIndex, how: Recovery, root: usize) -> (r:
    Vec<ProceduralUnitFacts>)
    requires
        tree.wf(),
        lines@.wf(),
        tree.holds(root),
    ensures
        units_view(r@) == units_of(tree@, lines@, how, root as int),
        uncounted(r@, tree@.len()),
        r@.len() <= 0xffff_ffff_0000_0000,
{
    let ghost n = tree@;
    let mut units = collect_parsed(tree, lines, root);
    if how == Recovery::Nothing {
        return units;
    }
    let ghost parsed = units_view(units@);
    let runs = tree.all_in(root, KindSet::Only(Kind::Unparsable));
    proof {
        lemma_crawl(n, root as int, every(KindSet::Only(Kind::Unparsable)));
    }
    let mut k: usize = 0;
    while k < runs.len()
        invariant
            tree.wf(),
            lines@.wf(),
            n == tree@,
            how != Recovery::Nothing,
            k <= runs@.len() <= MAX_NODES,
            forall|l: int| 0 <= l < runs@.len() ==> (#[trigger] runs@[l]) < n.len(),
            units_view(units@) == with_runs(n, lines@, how, parsed, runs@, k as int),
            uncounted(units@, tree@.len()),
            units@.len() <= MAX_NODES + k * MAX_NODES,
        decreases runs@.len() - k,
    {
        let run: usize = runs[k];
        match tree.span_at(run) {
            Some(range) => {
                if !is_covered(&units, range) {
                    let mut found = match how {
                        Recovery::Packages => recovered_package_body_members(
                            tree,
                            lines,
                            run,
                            range.1,
                        ),
                        Recovery::Batches => recovered_definition_headers(
                            tree,
                            lines,
                            run,
                            true,
                            range.1,
                        ),
                        _ => recovered_definition_headers(tree, lines, run, false, range.1),
                    };
                    let ghost was = units@;
                    let ghost more = found@;
                    units.append(&mut found);
                    proof {
                        assert(units_view(units@) =~= units_view(was) + units_view(more));
                        assert forall|l: int| 0 <= l < units@.len() implies (
                        #[trigger] units@[l]).cyclomatic_complexity == 0
                            && units@[l].cognitive_complexity == 0
                            && units@[l].embedded_query_structural == 0 && (
                        units@[l].node matches Some(node) ==> node < n.len()) by {
                            if l < was.len() {
                                assert(units@[l] == was[l]);
                            } else {
                                assert(units@[l] == more[l - was.len()]);
                            }
                        }
                    }
                }
            },
            None => {},
        }
        k = k + 1;
    }
    order_units(units, Ghost(n.len()))
}

} // verus!
