//! Collecting what a file does to database objects.

use vstd::prelude::*;

use crate::ctes::{defines_name, ref_name, shadows, withs_in};
use crate::kind::{Kind, KindSet};
use crate::names::{collect_own_level, holds_text, texts};
use crate::objects::{
    after_elements, after_reads, after_refs, after_writes, block_events, block_events_by,
    block_search, blocks_events, code_leaves, controls_transaction, describes_objects, events,
    events_at, from_elements, is_local, keyword_spelled, keywords_in, kind_change, lacks_where,
    no_objects, object_events, object_log, placed_span, replace_events, returning_events,
    returning_in, risks, span_or, statement_events, tally, target_refs, touched, touched_by,
    touched_names, unfiltered, unfiltered_events, write_statements, Change, ChangeRiskEvidence,
    ObjectEvent, ObjectFacts, Objects, Touched,
};
use crate::order::{
    ascending, find_place, lemma_less_irreflexive, lemma_rank, lemma_with_text, rank, with_text,
};
use crate::span::{LineIndex, Lines, SourceSpan};
use crate::statements::{
    statement_span, transaction_node_bracket, StatementFacts, StatementKind,
};
use crate::text::to_upper;
use crate::tree::{
    all_in, belongs_to, crawl, every, kept, lemma_crawl, lemma_kept_step, lemma_take_all, Node,
    Probe, Tree, MAX_NODES,
};
use crate::word::Word;

verus! {

/// Objects by name, in ascending order, each with the place where it is named
/// first.
pub struct ObjectTable {
    pub names: Vec<Vec<char>>,
    pub spans: Vec<Option<SourceSpan>>,
}

impl View for ObjectTable {
    type V = Objects;

    open spec fn view(&self) -> Objects {
        Objects { names: texts(self.names@), spans: self.spans@ }
    }
}

/// Whether a table is in ascending order, with one place for each name.
pub open spec fn table_wf(o: Objects) -> bool {
    ascending(o.names) && o.names.len() == o.spans.len()
}

impl ObjectTable {
    fn new() -> (r: ObjectTable)
        ensures
            r@ == no_objects(),
            table_wf(r@),
    {
        let r = ObjectTable { names: Vec::new(), spans: Vec::new() };
        assert(r@ =~= no_objects());
        r
    }

    /// Take down one more occurrence.
    fn note(&mut self, name: Vec<char>, span: Option<SourceSpan>)
        requires
            table_wf(old(self)@),
        ensures
            final(self)@ == old(self)@.noted(name@, span),
            table_wf(final(self)@),
    {
        let ghost was = self@;
        let ghost text = name@;
        proof {
            lemma_with_text(was.names, name@);
        }
        let (at, found) = find_place(&self.names, &name);
        if found {
            let current: Option<SourceSpan> = self.spans[at];
            let next: Option<SourceSpan> = match (current, span) {
                (None, Some(_)) => span,
                (Some(x), Some(y)) => {
                    if y.start_byte < x.start_byte {
                        span
                    } else {
                        current
                    }
                },
                _ => current,
            };
            self.spans.set(at, next);
        } else {
            self.names.insert(at, name);
            self.spans.insert(at, span);
            assert(texts(self.names@) =~= was.names.insert(at as int, text));
        }
        assert(self@ =~= was.noted(text, span));
    }
}

/// What is known of the touched objects.
struct TouchedTables {
    read: ObjectTable,
    write: ObjectTable,
    targets: Vec<usize>,
}

impl View for TouchedTables {
    type V = Touched;

    closed spec fn view(&self) -> Touched {
        Touched { read: self.read@, write: self.write@, targets: self.targets@ }
    }
}

spec fn tables_wf(t: Touched) -> bool {
    table_wf(t.read) && table_wf(t.write)
}

// ── places ─────────────────────────────────────────────────────────────

/// The span of a node, where it has a position.
fn segment_span(tree: &Tree, lines: &LineIndex, i: usize) -> (r: Option<SourceSpan>)
    requires
        tree.holds(i),
        lines@.wf(),
    ensures
        r == placed_span(tree@, lines@, i as int),
{
    match tree.span_at(i) {
        Some(range) => Some(lines.span_of(range)),
        None => None,
    }
}

fn or_span(s: Option<SourceSpan>, fallback: SourceSpan) -> (r: SourceSpan)
    ensures
        r == span_or(s, fallback),
{
    match s {
        Some(span) => span,
        None => fallback,
    }
}

/// Take down the same change at each of the nodes.
fn push_events(
    log: &mut Vec<ObjectEvent>,
    tree: &Tree,
    lines: &LineIndex,
    fallback: SourceSpan,
    change: Change,
    s: &Vec<usize>,
)
    requires
        lines@.wf(),
        forall|k: int| 0 <= k < s@.len() ==> (#[trigger] s@[k]) < tree@.len(),
    ensures
        final(log)@ == old(log)@ + events(tree@, lines@, fallback, change, s@),
{
    let ghost n = tree@;
    let ghost was = log@;
    let mut k: usize = 0;
    assert(log@ =~= was + events_at(n, lines@, fallback, change, s@, 0));
    while k < s.len()
        invariant
            lines@.wf(),
            n == tree@,
            k <= s@.len(),
            forall|l: int| 0 <= l < s@.len() ==> (#[trigger] s@[l]) < n.len(),
            log@ == was + events_at(n, lines@, fallback, change, s@, k as int),
        decreases s@.len() - k,
    {
        let span = or_span(segment_span(tree, lines, s[k]), fallback);
        log.push(ObjectEvent { change, span });
        k = k + 1;
        assert(log@ =~= was + events_at(n, lines@, fallback, change, s@, k as int));
    }
}

// ── statements and blocks ──────────────────────────────────────────────

/// The change that a statement of a kind is.
fn change_of(kind: StatementKind) -> (r: Option<Change>)
    ensures
        r == kind_change(kind),
{
    match kind {
        StatementKind::Insert => Some(Change::Insert),
        StatementKind::Update => Some(Change::Update),
        StatementKind::Delete => Some(Change::Delete),
        StatementKind::Merge => Some(Change::Merge),
        StatementKind::CreateTable
        | StatementKind::CreateTableAsSelect
        | StatementKind::CreateView
        | StatementKind::CreateOther => Some(Change::Create),
        StatementKind::AlterTable => Some(Change::Alter),
        StatementKind::Drop => Some(Change::Drop),
        StatementKind::Truncate => Some(Change::Truncate),
        StatementKind::Grant | StatementKind::Revoke => Some(Change::GrantRevoke),
        StatementKind::TransactionControl => Some(Change::TransactionControl),
        _ => None,
    }
}

/// Take down the changes that statements are by their kinds.
fn push_statements(log: &mut Vec<ObjectEvent>, facts: &Vec<StatementFacts>)
    ensures
        final(log)@ == old(log)@ + statement_events(facts@, facts@.len() as int),
{
    let ghost was = log@;
    let mut k: usize = 0;
    assert(log@ =~= was + statement_events(facts@, 0));
    while k < facts.len()
        invariant
            k <= facts@.len(),
            log@ == was + statement_events(facts@, k as int),
        decreases facts@.len() - k,
    {
        match change_of(facts[k].kind) {
            Some(change) => {
                log.push(ObjectEvent { change, span: statement_span(&facts[k]) });
            },
            None => {},
        }
        k = k + 1;
        assert(log@ =~= was + statement_events(facts@, k as int));
    }
}

/// What a block is searched for in one step.
fn search_of(step: usize) -> (r: (KindSet, Change))
    ensures
        r == block_search(step as int),
{
    if step == 0 {
        (KindSet::Inserts, Change::Insert)
    } else if step == 1 {
        (KindSet::Updates, Change::Update)
    } else if step == 2 {
        (KindSet::Deletes, Change::Delete)
    } else if step == 3 {
        (KindSet::CreateTables, Change::Create)
    } else if step == 4 {
        (KindSet::CreateViews, Change::Create)
    } else if step == 5 {
        (KindSet::CreateOthers, Change::Create)
    } else if step == 6 {
        (KindSet::Only(Kind::MergeStatement), Change::Merge)
    } else if step == 7 {
        (KindSet::Drops, Change::Drop)
    } else if step == 8 {
        (KindSet::Only(Kind::TruncateStatement), Change::Truncate)
    } else if step == 9 {
        (KindSet::AlterTables, Change::Alter)
    } else {
        (KindSet::Only(Kind::AccessStatement), Change::GrantRevoke)
    }
}

/// Take down the changes that a block makes.
fn scan_block_body_dml(log: &mut Vec<ObjectEvent>, tree: &Tree, lines: &LineIndex, block: usize)
    requires
        tree.wf(),
        lines@.wf(),
        tree.holds(block),
    ensures
        final(log)@ == old(log)@ + block_events(tree@, lines@, block as int),
{
    let ghost n = tree@;
    let ghost was = log@;
    let mut step: usize = 0;
    assert(log@ =~= was + block_events_by(n, lines@, block as int, 0));
    while step < 11
        invariant
            tree.wf(),
            lines@.wf(),
            n == tree@,
            block < n.len(),
            step <= 11,
            log@ == was + block_events_by(n, lines@, block as int, step as int),
        decreases 11 - step,
    {
        let (set, change) = search_of(step);
        let p = Probe { set, deep: false, stop: KindSet::Definitions, own: false };
        let found = tree.crawl(block, p);
        proof {
            lemma_crawl(n, block as int, p);
        }
        push_events(log, tree, lines, SourceSpan::empty(), change, &found);
        step = step + 1;
        assert(log@ =~= was + block_events_by(n, lines@, block as int, step as int));
    }
    let p = Probe {
        set: KindSet::Transactions,
        deep: false,
        stop: KindSet::Definitions,
        own: false,
    };
    let all = tree.crawl(block, p);
    proof {
        lemma_crawl(n, block as int, p);
        lemma_take_all(all@);
    }
    let mut controls: Vec<usize> = Vec::new();
    let mut k: usize = 0;
    while k < all.len()
        invariant
            tree.wf(),
            n == tree@,
            k <= all@.len(),
            forall|l: int| 0 <= l < all@.len() ==> (#[trigger] all@[l]) < n.len(),
            forall|l: int| 0 <= l < controls@.len() ==> (#[trigger] controls@[l]) < n.len(),
            controls@ == kept(all@.take(k as int), controls_transaction(n)),
        decreases all@.len() - k,
    {
        proof {
            lemma_kept_step(all@, k as int, controls_transaction(n));
        }
        if transaction_node_bracket(tree, all[k]).is_none() {
            controls.push(all[k]);
        }
        k = k + 1;
    }
    push_events(log, tree, lines, SourceSpan::empty(), Change::TransactionControl, &controls);
    assert(log@ =~= was + block_events(n, lines@, block as int));
}

// ── touched objects ────────────────────────────────────────────────────

/// Whether a reference is to a common table expression of the statement.
fn is_local_ref(tree: &Tree, withs: &Vec<usize>, stmt: usize, r: usize, name: &Vec<char>) -> (b:
    bool)
    requires
        tree.wf(),
        tree.holds(r),
        withs@ == withs_in(tree@, stmt as int),
        name@ == ref_name(tree@, r as int),
        forall|l: int| 0 <= l < withs@.len() ==> (#[trigger] withs@[l]) < tree@.len(),
    ensures
        b == is_local(tree@, stmt as int, r as int),
{
    let ghost n = tree@;
    if !belongs_to(KindSet::TableReferences, tree.kind_at(r)) {
        return false;
    }
    let mut k: usize = 0;
    while k < withs.len()
        invariant
            tree.wf(),
            n == tree@,
            r < n.len(),
            k <= withs@.len(),
            withs@ == withs_in(n, stmt as int),
            name@ == ref_name(n, r as int),
            crate::tree::belongs(KindSet::TableReferences, n[r as int].kind),
            forall|l: int| 0 <= l < withs@.len() ==> (#[trigger] withs@[l]) < n.len(),
            forall|l: int| 0 <= l < k ==> !shadows(n, #[trigger] withs@[l] as int, r as int),
        decreases withs@.len() - k,
    {
        let w: usize = withs[k];
        if w <= r && r < tree.end_at(w) && defines_name(tree, w, name) {
            assert(shadows(n, withs_in(n, stmt as int)[k as int] as int, r as int));
            return true;
        }
        k = k + 1;
    }
    false
}

/// Whether a list holds a position.
fn holds_position(v: &Vec<usize>, x: usize) -> (r: bool)
    ensures
        r == v@.contains(x),
{
    let mut i: usize = 0;
    while i < v.len()
        invariant
            i <= v@.len(),
            forall|j: int| 0 <= j < i ==> v@[j] != x,
        decreases v@.len() - i,
    {
        if v[i] == x {
            assert(v@[i as int] == x);
            return true;
        }
        i = i + 1;
    }
    false
}

/// Take down the objects of one write statement.
fn touch_write(
    t: &mut TouchedTables,
    tree: &Tree,
    lines: &LineIndex,
    withs: &Vec<usize>,
    stmt: usize,
    ws: usize,
)
    requires
        tree.wf(),
        lines@.wf(),
        tree.holds(ws),
        withs@ == withs_in(tree@, stmt as int),
        forall|l: int| 0 <= l < withs@.len() ==> (#[trigger] withs@[l]) < tree@.len(),
        tables_wf(old(t)@),
    ensures
        final(t)@ == after_refs(
            tree@,
            lines@,
            stmt as int,
            ws as int,
            old(t)@,
            target_refs(tree@, ws as int).len() as int,
        ),
        tables_wf(final(t)@),
{
    let ghost n = tree@;
    let ghost was = t@;
    let kind: Kind = tree.kind_at(ws);
    let set = if KindSet::OracleDrops.has(kind) {
        KindSet::DropTargets
    } else {
        KindSet::Targets
    };
    let p = Probe {
        set,
        deep: false,
        stop: KindSet::Only(Kind::SelectStatement),
        own: true,
    };
    let refs = tree.crawl(ws, p);
    proof {
        lemma_crawl(n, ws as int, p);
    }
    let first_only = KindSet::FirstTargetOnly.has(kind);
    let mut k: usize = 0;
    while k < refs.len()
        invariant
            tree.wf(),
            lines@.wf(),
            n == tree@,
            ws < n.len(),
            kind == n[ws as int].kind,
            first_only == KindSet::FirstTargetOnly.holds(kind),
            k <= refs@.len(),
            refs@ == target_refs(n, ws as int),
            withs@ == withs_in(n, stmt as int),
            forall|l: int| 0 <= l < withs@.len() ==> (#[trigger] withs@[l]) < n.len(),
            forall|l: int| 0 <= l < refs@.len() ==> (#[trigger] refs@[l]) < n.len(),
            t@ == after_refs(n, lines@, stmt as int, ws as int, was, k as int),
            tables_wf(t@),
        decreases refs@.len() - k,
    {
        let r: usize = refs[k];
        let name = to_upper(tree.raw_at(r));
        let span = segment_span(tree, lines, r);
        if !is_local_ref(tree, withs, stmt, r, &name) {
            if k == 0 || !first_only {
                t.write.note(name, span);
                t.targets.push(r);
            } else {
                t.read.note(name, span);
            }
        }
        k = k + 1;
        assert(t@ =~= after_refs(n, lines@, stmt as int, ws as int, was, k as int));
    }
}

/// Take down the objects of one `FROM` element.
fn touch_element(
    t: &mut TouchedTables,
    tree: &Tree,
    lines: &LineIndex,
    withs: &Vec<usize>,
    stmt: usize,
    elem: usize,
)
    requires
        tree.wf(),
        lines@.wf(),
        tree.holds(elem),
        withs@ == withs_in(tree@, stmt as int),
        forall|l: int| 0 <= l < withs@.len() ==> (#[trigger] withs@[l]) < tree@.len(),
        tables_wf(old(t)@),
    ensures
        final(t)@ == after_reads(
            tree@,
            lines@,
            stmt as int,
            elem as int,
            old(t)@,
            all_in(tree@, elem as int, KindSet::TableReferences).len() as int,
        ),
        tables_wf(final(t)@),
{
    let ghost n = tree@;
    let ghost was = t@;
    let refs = tree.all_in(elem, KindSet::TableReferences);
    proof {
        lemma_crawl(n, elem as int, every(KindSet::TableReferences));
    }
    let mut k: usize = 0;
    while k < refs.len()
        invariant
            tree.wf(),
            lines@.wf(),
            n == tree@,
            k <= refs@.len(),
            refs@ == all_in(n, elem as int, KindSet::TableReferences),
            withs@ == withs_in(n, stmt as int),
            forall|l: int| 0 <= l < withs@.len() ==> (#[trigger] withs@[l]) < n.len(),
            forall|l: int| 0 <= l < refs@.len() ==> (#[trigger] refs@[l]) < n.len(),
            t@ == after_reads(n, lines@, stmt as int, elem as int, was, k as int),
            tables_wf(t@),
        decreases refs@.len() - k,
    {
        let r: usize = refs[k];
        let name = to_upper(tree.raw_at(r));
        let local = is_local_ref(tree, withs, stmt, r, &name);
        if !local && !holds_position(&t.targets, r) {
            t.read.note(name, segment_span(tree, lines, r));
        }
        k = k + 1;
        assert(t@ =~= after_reads(n, lines@, stmt as int, elem as int, was, k as int));
    }
}

/// Take down the objects of one statement.
fn collect_statement_objects(t: &mut TouchedTables, tree: &Tree, lines: &LineIndex, stmt: usize)
    requires
        tree.wf(),
        lines@.wf(),
        tree.holds(stmt),
        tables_wf(old(t)@),
    ensures
        final(t)@ == touched_by(tree@, lines@, stmt as int, old(t)@),
        tables_wf(final(t)@),
{
    let ghost n = tree@;
    let ghost was = t@;
    let withs = tree.all_in(stmt, KindSet::Only(Kind::WithCompoundStatement));
    t.targets.clear();
    let ghost fresh = t@;
    assert(fresh =~= (Touched { targets: Seq::empty(), ..was }));
    let wp = Probe {
        set: KindSet::Writes,
        deep: true,
        stop: KindSet::Definitions,
        own: true,
    };
    let fp = Probe {
        set: KindSet::Only(Kind::FromExpressionElement),
        deep: true,
        stop: KindSet::Definitions,
        own: true,
    };
    let writes = tree.crawl(stmt, wp);
    let elems = tree.crawl(stmt, fp);
    proof {
        lemma_crawl(n, stmt as int, wp);
        lemma_crawl(n, stmt as int, fp);
        lemma_crawl(n, stmt as int, every(KindSet::Only(Kind::WithCompoundStatement)));
    }
    let mut k: usize = 0;
    while k < writes.len()
        invariant
            tree.wf(),
            lines@.wf(),
            n == tree@,
            k <= writes@.len(),
            writes@ == write_statements(n, stmt as int),
            withs@ == withs_in(n, stmt as int),
            forall|l: int| 0 <= l < withs@.len() ==> (#[trigger] withs@[l]) < n.len(),
            forall|l: int| 0 <= l < writes@.len() ==> (#[trigger] writes@[l]) < n.len(),
            t@ == after_writes(n, lines@, stmt as int, fresh, k as int),
            tables_wf(t@),
        decreases writes@.len() - k,
    {
        touch_write(t, tree, lines, &withs, stmt, writes[k]);
        k = k + 1;
    }
    let ghost written = t@;
    let mut e: usize = 0;
    while e < elems.len()
        invariant
            tree.wf(),
            lines@.wf(),
            n == tree@,
            e <= elems@.len(),
            elems@ == from_elements(n, stmt as int),
            withs@ == withs_in(n, stmt as int),
            forall|l: int| 0 <= l < withs@.len() ==> (#[trigger] withs@[l]) < n.len(),
            forall|l: int| 0 <= l < elems@.len() ==> (#[trigger] elems@[l]) < n.len(),
            t@ == after_elements(n, lines@, stmt as int, written, e as int),
            tables_wf(t@),
        decreases elems@.len() - e,
    {
        touch_element(t, tree, lines, &withs, stmt, elems[e]);
        e = e + 1;
    }
}

/// The objects that a file touches.
fn collect_touched_objects(
    tree: &Tree,
    lines: &LineIndex,
    s: &Vec<usize>,
    facts: &Vec<StatementFacts>,
) -> (t: TouchedTables)
    requires
        tree.wf(),
        lines@.wf(),
        s@.len() == facts@.len(),
        forall|k: int| 0 <= k < s@.len() ==> (#[trigger] s@[k]) < tree@.len(),
    ensures
        t@ == touched(tree@, lines@, s@, facts@, facts@.len() as int),
        tables_wf(t@),
{
    let ghost n = tree@;
    let mut t = TouchedTables {
        read: ObjectTable::new(),
        write: ObjectTable::new(),
        targets: Vec::new(),
    };
    let mut k: usize = 0;
    assert(t@ =~= touched(n, lines@, s@, facts@, 0));
    while k < facts.len()
        invariant
            tree.wf(),
            lines@.wf(),
            n == tree@,
            k <= facts@.len() == s@.len(),
            forall|l: int| 0 <= l < s@.len() ==> (#[trigger] s@[l]) < n.len(),
            t@ == touched(n, lines@, s@, facts@, k as int),
            tables_wf(t@),
        decreases facts@.len() - k,
    {
        if facts[k].kind != StatementKind::Procedural {
            collect_statement_objects(&mut t, tree, lines, s[k]);
        }
        k = k + 1;
    }
    t
}

/// Take down the same change at each of the objects.
fn push_objects(log: &mut Vec<ObjectEvent>, change: Change, o: &ObjectTable, fallback: SourceSpan)
    requires
        table_wf(o@),
    ensures
        final(log)@ == old(log)@ + object_events(change, o@, fallback, o@.names.len() as int),
{
    let ghost was = log@;
    let mut k: usize = 0;
    assert(log@ =~= was + object_events(change, o@, fallback, 0));
    while k < o.spans.len()
        invariant
            k <= o.spans@.len() == o@.names.len(),
            log@ == was + object_events(change, o@, fallback, k as int),
        decreases o.spans@.len() - k,
    {
        log.push(ObjectEvent { change, span: or_span(o.spans[k], fallback) });
        k = k + 1;
        assert(log@ =~= was + object_events(change, o@, fallback, k as int));
    }
}

/// How many objects are read or written.
fn count_touched(t: &TouchedTables) -> (r: u128)
    requires
        tables_wf(t@),
    ensures
        r == touched_names(t@).len(),
{
    let ghost read = t@.read.names;
    let ghost write = t@.write.names;
    let ghost all = read.to_set();
    proof {
        lemma_ascending_distinct(read);
        read.unique_seq_to_set();
    }
    let mut more: u64 = 0;
    let mut k: usize = 0;
    let ghost mut so_far: Set<Seq<char>> = read.to_set();
    assert(so_far =~= read.to_set() + write.take(0).to_set());
    while k < t.write.names.len()
        invariant
            k <= t.write.names@.len(),
            read == t@.read.names,
            write == t@.write.names,
            ascending(write),
            read == texts(t.read.names@),
            write == texts(t.write.names@),
            more <= k,
            so_far == read.to_set() + write.take(k as int).to_set(),
            so_far.finite(),
            so_far.len() == read.len() + more,
        decreases t.write.names@.len() - k,
    {
        assert(write[k as int] == t.write.names@[k as int]@);
        let known = holds_text(&t.read.names, &t.write.names[k]);
        proof {
            let x = write[k as int];
            let next = write.take(k + 1);
            assert(next =~= write.take(k as int).push(x));
            assert(!write.take(k as int).contains(x)) by {
                if write.take(k as int).contains(x) {
                    let j = choose|j: int|
                        0 <= j < write.take(k as int).len() && write.take(k as int)[j] == x;
                    assert(crate::order::text_less(write[j], write[k as int]));
                    lemma_less_irreflexive(x);
                }
            }
            assert(next.to_set() =~= write.take(k as int).to_set().insert(x)) by {
                assert forall|y: Seq<char>| next.to_set().contains(y) == write.take(
                    k as int,
                ).to_set().insert(x).contains(y) by {
                    if write.take(k as int).contains(y) {
                        let j = choose|j: int|
                            0 <= j < write.take(k as int).len() && write.take(k as int)[j] == y;
                        assert(next[j] == y);
                    }
                    if y == x {
                        assert(next[k as int] == x);
                    }
                    if next.contains(y) {
                        let j = choose|j: int| 0 <= j < next.len() && next[j] == y;
                        if j < k {
                            assert(write.take(k as int)[j] == y);
                        }
                    }
                }
            }
            assert(read.to_set() + next.to_set() =~= so_far.insert(x));
            if read.contains(x) {
                assert(so_far.insert(x) =~= so_far);
            }
            so_far = so_far.insert(x);
        }
        if !known {
            more = more + 1;
        }
        k = k + 1;
    }
    proof {
        assert(write.take(k as int) =~= write);
        assert(so_far == touched_names(t@));
    }
    t.read.names.len() as u128 + more as u128
}

proof fn lemma_ascending_distinct(s: Seq<Seq<char>>)
    requires
        ascending(s),
    ensures
        s.no_duplicates(),
{
    assert forall|i: int, j: int| 0 <= i < s.len() && 0 <= j < s.len() && i != j implies s[i]
        != s[j] by {
        if i < j {
            assert(crate::order::text_less(s[i], s[j]));
        } else {
            assert(crate::order::text_less(s[j], s[i]));
        }
        lemma_less_irreflexive(s[i]);
    }
}

// ── clauses ────────────────────────────────────────────────────────────

/// The statements of a set that lack a `WHERE`.
fn collect_unfiltered(tree: &Tree, stmt: usize, set: KindSet) -> (r: Vec<usize>)
    requires
        tree.wf(),
        tree.holds(stmt),
    ensures
        r@ == unfiltered(tree@, stmt as int, set),
        forall|k: int| 0 <= k < r@.len() ==> (#[trigger] r@[k]) < tree@.len(),
{
    let ghost n = tree@;
    let p = Probe { set, deep: true, stop: KindSet::Definitions, own: true };
    let all = tree.crawl(stmt, p);
    proof {
        lemma_crawl(n, stmt as int, p);
        lemma_take_all(all@);
    }
    let mut out: Vec<usize> = Vec::new();
    let mut k: usize = 0;
    while k < all.len()
        invariant
            tree.wf(),
            n == tree@,
            k <= all@.len(),
            forall|l: int| 0 <= l < all@.len() ==> (#[trigger] all@[l]) < n.len(),
            forall|l: int| 0 <= l < out@.len() ==> (#[trigger] out@[l]) < n.len(),
            out@ == kept(all@.take(k as int), lacks_where(n)),
        decreases all@.len() - k,
    {
        proof {
            lemma_kept_step(all@, k as int, lacks_where(n));
        }
        let wheres = collect_own_level(tree, all[k], KindSet::Only(Kind::WhereClause));
        if wheres.len() == 0 {
            out.push(all[k]);
        }
        k = k + 1;
    }
    out
}

/// Take down the missing `WHERE` clauses.
fn push_unfiltered(
    log: &mut Vec<ObjectEvent>,
    tree: &Tree,
    lines: &LineIndex,
    fallback: SourceSpan,
    s: &Vec<usize>,
    facts: &Vec<StatementFacts>,
)
    requires
        tree.wf(),
        lines@.wf(),
        s@.len() == facts@.len(),
        forall|k: int| 0 <= k < s@.len() ==> (#[trigger] s@[k]) < tree@.len(),
    ensures
        final(log)@ == old(log)@ + unfiltered_events(
            tree@,
            lines@,
            fallback,
            s@,
            facts@,
            facts@.len() as int,
        ),
{
    let ghost n = tree@;
    let ghost was = log@;
    let mut k: usize = 0;
    assert(log@ =~= was + unfiltered_events(n, lines@, fallback, s@, facts@, 0));
    while k < facts.len()
        invariant
            tree.wf(),
            lines@.wf(),
            n == tree@,
            k <= facts@.len() == s@.len(),
            forall|l: int| 0 <= l < s@.len() ==> (#[trigger] s@[l]) < n.len(),
            log@ == was + unfiltered_events(n, lines@, fallback, s@, facts@, k as int),
        decreases facts@.len() - k,
    {
        if facts[k].kind != StatementKind::Procedural {
            let updates = collect_unfiltered(tree, s[k], KindSet::Updates);
            push_events(log, tree, lines, fallback, Change::UpdateWithoutWhere, &updates);
            let deletes = collect_unfiltered(tree, s[k], KindSet::Deletes);
            push_events(log, tree, lines, fallback, Change::DeleteWithoutWhere, &deletes);
        }
        k = k + 1;
        assert(log@ =~= was + unfiltered_events(n, lines@, fallback, s@, facts@, k as int));
    }
}

/// Take down the replacements.
fn push_replacements(
    log: &mut Vec<ObjectEvent>,
    tree: &Tree,
    lines: &LineIndex,
    fallback: SourceSpan,
    root: usize,
)
    requires
        tree.wf(),
        lines@.wf(),
        tree.holds(root),
    ensures
        ({
            let n = tree@;
            let leaf = code_leaves(n, root as int, n[root as int].end as int);
            final(log)@ == old(log)@ + replace_events(
                n,
                lines@,
                fallback,
                leaf,
                leaf.len() as int,
            )
        }),
{
    let ghost n = tree@;
    let ghost was = log@;
    let hi: usize = tree.end_at(root);
    let mut leaf: Vec<usize> = Vec::new();
    let mut i: usize = root;
    while i < hi
        invariant
            tree.wf(),
            n == tree@,
            root <= i <= hi <= n.len() <= MAX_NODES,
            leaf@ == code_leaves(n, root as int, i as int),
            leaf@.len() <= i - root,
            forall|l: int| 0 <= l < leaf@.len() ==> (#[trigger] leaf@[l]) < n.len(),
        decreases hi - i,
    {
        if tree.code_leaf(i) {
            leaf.push(i);
        }
        i = i + 1;
    }
    let mut k: usize = 0;
    assert(log@ =~= was + replace_events(n, lines@, fallback, leaf@, 0));
    while k < leaf.len()
        invariant
            tree.wf(),
            lines@.wf(),
            n == tree@,
            k <= leaf@.len() <= MAX_NODES,
            forall|l: int| 0 <= l < leaf@.len() ==> (#[trigger] leaf@[l]) < n.len(),
            log@ == was + replace_events(n, lines@, fallback, leaf@, k as int),
        decreases leaf@.len() - k,
    {
        if k + 2 < leaf.len() && tree.trimmed_word(leaf[k]) == Word::Create && tree.trimmed_word(
            leaf[k + 1],
        ) == Word::Or && tree.trimmed_word(leaf[k + 2]) == Word::Replace {
            let span = match (
                segment_span(tree, lines, leaf[k]),
                segment_span(tree, lines, leaf[k + 2]),
            ) {
                (Some(x), Some(y)) => SourceSpan {
                    start_byte: x.start_byte,
                    end_byte: y.end_byte,
                    start_line: x.start_line,
                    end_line: y.end_line,
                },
                _ => fallback,
            };
            log.push(ObjectEvent { change: Change::CreateOrReplace, span });
        }
        k = k + 1;
        assert(log@ =~= was + replace_events(n, lines@, fallback, leaf@, k as int));
    }
}

/// The keywords with the given text in a subtree.
fn keyword_tokens(tree: &Tree, i: usize, w: Word) -> (r: Vec<usize>)
    requires
        tree.wf(),
        tree.holds(i),
    ensures
        r@ == keywords_in(tree@, i as int, w),
        forall|k: int| 0 <= k < r@.len() ==> (#[trigger] r@[k]) < tree@.len(),
{
    let ghost n = tree@;
    let all = tree.all_in(i, KindSet::Only(Kind::Keyword));
    proof {
        lemma_crawl(n, i as int, every(KindSet::Only(Kind::Keyword)));
        lemma_take_all(all@);
    }
    let mut out: Vec<usize> = Vec::new();
    let mut k: usize = 0;
    while k < all.len()
        invariant
            tree.wf(),
            n == tree@,
            k <= all@.len(),
            forall|l: int| 0 <= l < all@.len() ==> (#[trigger] all@[l]) < n.len(),
            forall|l: int| 0 <= l < out@.len() ==> (#[trigger] out@[l]) < n.len(),
            out@ == kept(all@.take(k as int), keyword_spelled(n, w)),
        decreases all@.len() - k,
    {
        proof {
            lemma_kept_step(all@, k as int, keyword_spelled(n, w));
        }
        if tree.word(all[k]) == w {
            out.push(all[k]);
        }
        k = k + 1;
    }
    out
}

/// Take down the result clauses.
fn push_returning(
    log: &mut Vec<ObjectEvent>,
    tree: &Tree,
    lines: &LineIndex,
    fallback: SourceSpan,
    s: &Vec<usize>,
    facts: &Vec<StatementFacts>,
)
    requires
        tree.wf(),
        lines@.wf(),
        s@.len() == facts@.len(),
        forall|k: int| 0 <= k < s@.len() ==> (#[trigger] s@[k]) < tree@.len(),
    ensures
        final(log)@ == old(log)@ + returning_events(
            tree@,
            lines@,
            fallback,
            s@,
            facts@,
            facts@.len() as int,
        ),
{
    let ghost n = tree@;
    let ghost was = log@;
    let p = Probe {
        set: KindSet::Dml,
        deep: true,
        stop: KindSet::Definitions,
        own: true,
    };
    let mut k: usize = 0;
    assert(log@ =~= was + returning_events(n, lines@, fallback, s@, facts@, 0));
    while k < facts.len()
        invariant
            tree.wf(),
            lines@.wf(),
            n == tree@,
            p == (Probe {
                set: KindSet::Dml,
                deep: true,
                stop: KindSet::Definitions,
                own: true,
            }),
            k <= facts@.len() == s@.len(),
            forall|l: int| 0 <= l < s@.len() ==> (#[trigger] s@[l]) < n.len(),
            log@ == was + returning_events(n, lines@, fallback, s@, facts@, k as int),
        decreases facts@.len() - k,
    {
        if facts[k].kind != StatementKind::Procedural {
            let stmt: usize = s[k];
            let dml = tree.crawl(stmt, p);
            proof {
                lemma_crawl(n, stmt as int, p);
            }
            let ghost before = log@;
            let mut d: usize = 0;
            assert(log@ =~= before + returning_in(n, lines@, fallback, dml@, 0));
            while d < dml.len()
                invariant
                    tree.wf(),
                    lines@.wf(),
                    n == tree@,
                    d <= dml@.len(),
                    forall|l: int| 0 <= l < dml@.len() ==> (#[trigger] dml@[l]) < n.len(),
                    log@ == before + returning_in(n, lines@, fallback, dml@, d as int),
                decreases dml@.len() - d,
            {
                let returning = keyword_tokens(tree, dml[d], Word::Returning);
                push_events(log, tree, lines, fallback, Change::Returning, &returning);
                let output = keyword_tokens(tree, dml[d], Word::Output);
                push_events(log, tree, lines, fallback, Change::Returning, &output);
                d = d + 1;
                assert(log@ =~= before + returning_in(n, lines@, fallback, dml@, d as int));
            }
        }
        k = k + 1;
        assert(log@ =~= was + returning_events(n, lines@, fallback, s@, facts@, k as int));
    }
}

// ── the file ───────────────────────────────────────────────────────────

/// How often a change occurs.
fn tally_of(log: &Vec<ObjectEvent>, change: Change) -> (r: u64)
    ensures
        r == tally(log@, change),
{
    let mut found: u64 = 0;
    let mut k: usize = 0;
    while k < log.len()
        invariant
            k <= log@.len(),
            found == tally(log@.take(k as int), change),
            found <= k,
        decreases log@.len() - k,
    {
        proof {
            assert(log@.take(k + 1).drop_last() =~= log@.take(k as int));
            assert(log@.take(k + 1).last() == log@[k as int]);
        }
        if log[k].change == change {
            found = found + 1;
        }
        k = k + 1;
    }
    assert(log@.take(k as int) =~= log@);
    found
}

/// The terms of the change-risk score.
pub fn collect_risks(log: &Vec<ObjectEvent>) -> (r: Vec<ChangeRiskEvidence>)
    ensures
        r@ == risks(log@),
{
    let mut out: Vec<ChangeRiskEvidence> = Vec::new();
    let mut k: usize = 0;
    while k < log.len()
        invariant
            k <= log@.len(),
            out@ == risks(log@.take(k as int)),
        decreases log@.len() - k,
    {
        proof {
            assert(log@.take(k + 1).drop_last() =~= log@.take(k as int));
            assert(log@.take(k + 1).last() == log@[k as int]);
        }
        match log[k].change.factor() {
            Some(factor) => {
                out.push(ChangeRiskEvidence { span: log[k].span, factor });
            },
            None => {},
        }
        k = k + 1;
    }
    assert(log@.take(k as int) =~= log@);
    out
}

/// What a file does to database objects: the facts, and every event.
pub fn extract_objects(
    tree: &Tree,
    lines: &LineIndex,
    root: usize,
    s: &Vec<usize>,
    facts: &Vec<StatementFacts>,
) -> (r: (ObjectFacts, Vec<ObjectEvent>))
    requires
        tree.wf(),
        lines@.wf(),
        tree.holds(root),
        s@.len() == facts@.len(),
        forall|k: int| 0 <= k < s@.len() ==> (#[trigger] s@[k]) < tree@.len(),
    ensures
        describes_objects(tree@, lines@, root as int, s@, facts@, r.0),
        r.1@ == object_log(tree@, lines@, root as int, s@, facts@),
{
    let ghost n = tree@;
    let fallback = or_span(segment_span(tree, lines, root), SourceSpan::empty());
    let mut log: Vec<ObjectEvent> = Vec::new();
    push_statements(&mut log, facts);
    let ghost first = log@;
    let mut k: usize = 0;
    assert(log@ =~= first + blocks_events(n, lines@, s@, facts@, 0));
    while k < facts.len()
        invariant
            tree.wf(),
            lines@.wf(),
            n == tree@,
            k <= facts@.len() == s@.len(),
            forall|l: int| 0 <= l < s@.len() ==> (#[trigger] s@[l]) < n.len(),
            log@ == first + blocks_events(n, lines@, s@, facts@, k as int),
        decreases facts@.len() - k,
    {
        if facts[k].kind == StatementKind::AnonymousBlock {
            scan_block_body_dml(&mut log, tree, lines, s[k]);
        }
        k = k + 1;
        assert(log@ =~= first + blocks_events(n, lines@, s@, facts@, k as int));
    }
    let t = collect_touched_objects(tree, lines, s, facts);
    push_objects(&mut log, Change::WriteObject, &t.write, fallback);
    push_objects(&mut log, Change::ReadObject, &t.read, fallback);
    push_unfiltered(&mut log, tree, lines, fallback, s, facts);
    push_replacements(&mut log, tree, lines, fallback, root);
    push_returning(&mut log, tree, lines, fallback, s, facts);
    assert(log@ =~= object_log(n, lines@, root as int, s@, facts@));
    let r = ObjectFacts {
        insert_count: tally_of(&log, Change::Insert),
        update_count: tally_of(&log, Change::Update),
        delete_count: tally_of(&log, Change::Delete),
        merge_count: tally_of(&log, Change::Merge),
        update_without_where_count: tally_of(&log, Change::UpdateWithoutWhere),
        delete_without_where_count: tally_of(&log, Change::DeleteWithoutWhere),
        create_count: tally_of(&log, Change::Create),
        alter_count: tally_of(&log, Change::Alter),
        drop_count: tally_of(&log, Change::Drop),
        truncate_count: tally_of(&log, Change::Truncate),
        create_or_replace_count: tally_of(&log, Change::CreateOrReplace),
        grant_revoke_count: tally_of(&log, Change::GrantRevoke),
        transaction_control_count: tally_of(&log, Change::TransactionControl),
        returning_count: tally_of(&log, Change::Returning),
        write_object_count: t.write.names.len() as u64,
        read_object_count: t.read.names.len() as u64,
        touch_count: count_touched(&t),
    };
    (r, log)
}

// ── how many objects are touched ───────────────────────────────────────

/// A table keeps its order.
pub proof fn lemma_noted(o: Objects, name: Seq<char>, span: Option<SourceSpan>)
    requires
        table_wf(o),
    ensures
        table_wf(o.noted(name, span)),
{
    lemma_with_text(o.names, name);
    lemma_rank(o.names, name);
    if o.names.contains(name) {
        let j = choose|j: int| 0 <= j < o.names.len() && o.names[j] == name;
        lemma_less_irreflexive(name);
        assert(rank(o.names, name) <= j);
    }
    assert(o.noted(name, span).names == with_text(o.names, name));
}

proof fn lemma_refs_wf(n: Seq<Node>, lines: Lines, stmt: int, ws: int, t: Touched, k: int)
    requires
        tables_wf(t),
    ensures
        tables_wf(after_refs(n, lines, stmt, ws, t, k)),
    decreases k,
{
    if k > 0 {
        lemma_refs_wf(n, lines, stmt, ws, t, k - 1);
        let t = after_refs(n, lines, stmt, ws, t, k - 1);
        let r = target_refs(n, ws)[k - 1] as int;
        lemma_noted(t.write, ref_name(n, r), placed_span(n, lines, r));
        lemma_noted(t.read, ref_name(n, r), placed_span(n, lines, r));
    }
}

proof fn lemma_writes_wf(n: Seq<Node>, lines: Lines, stmt: int, t: Touched, k: int)
    requires
        tables_wf(t),
    ensures
        tables_wf(after_writes(n, lines, stmt, t, k)),
    decreases k,
{
    if k > 0 {
        lemma_writes_wf(n, lines, stmt, t, k - 1);
        let ws = write_statements(n, stmt)[k - 1] as int;
        lemma_refs_wf(
            n,
            lines,
            stmt,
            ws,
            after_writes(n, lines, stmt, t, k - 1),
            target_refs(n, ws).len() as int,
        );
    }
}

proof fn lemma_reads_wf(n: Seq<Node>, lines: Lines, stmt: int, elem: int, t: Touched, k: int)
    requires
        tables_wf(t),
    ensures
        tables_wf(after_reads(n, lines, stmt, elem, t, k)),
    decreases k,
{
    if k > 0 {
        lemma_reads_wf(n, lines, stmt, elem, t, k - 1);
        let t = after_reads(n, lines, stmt, elem, t, k - 1);
        let r = all_in(n, elem, KindSet::TableReferences)[k - 1] as int;
        lemma_noted(t.read, ref_name(n, r), placed_span(n, lines, r));
    }
}

proof fn lemma_elements_wf(n: Seq<Node>, lines: Lines, stmt: int, t: Touched, k: int)
    requires
        tables_wf(t),
    ensures
        tables_wf(after_elements(n, lines, stmt, t, k)),
    decreases k,
{
    if k > 0 {
        lemma_elements_wf(n, lines, stmt, t, k - 1);
        let elem = from_elements(n, stmt)[k - 1] as int;
        lemma_reads_wf(
            n,
            lines,
            stmt,
            elem,
            after_elements(n, lines, stmt, t, k - 1),
            all_in(n, elem, KindSet::TableReferences).len() as int,
        );
    }
}

proof fn lemma_touched_wf(
    n: Seq<Node>,
    lines: Lines,
    s: Seq<usize>,
    facts: Seq<StatementFacts>,
    k: int,
)
    ensures
        tables_wf(touched(n, lines, s, facts, k)),
    decreases k,
{
    if k > 0 {
        lemma_touched_wf(n, lines, s, facts, k - 1);
        let t = touched(n, lines, s, facts, k - 1);
        let stmt = s[k - 1] as int;
        let fresh = Touched { targets: Seq::empty(), ..t };
        let written = after_writes(n, lines, stmt, fresh, write_statements(n, stmt).len() as int);
        lemma_writes_wf(n, lines, stmt, fresh, write_statements(n, stmt).len() as int);
        lemma_elements_wf(n, lines, stmt, written, from_elements(n, stmt).len() as int);
    }
}

proof fn lemma_distinct(s: Seq<Seq<char>>)
    requires
        ascending(s),
    ensures
        s.to_set().len() == s.len(),
        s.to_set().finite(),
{
    assert forall|i: int, j: int| 0 <= i < s.len() && 0 <= j < s.len() && i != j implies s[i]
        != s[j] by {
        lemma_less_irreflexive(s[i]);
    }
    s.unique_seq_to_set();
}

/// Every object that is read or written is touched, once: there are at least as
/// many touched objects as objects read and as objects written, and no more
/// than both together.
pub proof fn touched_objects_are_read_or_written(
    n: Seq<Node>,
    lines: Lines,
    root: int,
    s: Seq<usize>,
    facts: Seq<StatementFacts>,
    r: ObjectFacts,
)
    requires
        describes_objects(n, lines, root, s, facts, r),
    ensures
        r.read_object_count <= r.touch_count,
        r.write_object_count <= r.touch_count,
        r.touch_count <= r.read_object_count + r.write_object_count,
{
    let t = touched(n, lines, s, facts, facts.len() as int);
    lemma_touched_wf(n, lines, s, facts, facts.len() as int);
    lemma_distinct(t.read.names);
    lemma_distinct(t.write.names);
    let a = t.read.names.to_set();
    let b = t.write.names.to_set();
    vstd::set_lib::lemma_len_subset(a, a + b);
    vstd::set_lib::lemma_len_subset(b, a + b);
    vstd::set_lib::lemma_len_union(a, b);
}

} // verus!
