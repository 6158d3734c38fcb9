//! The shape of a query's output, and how its columns are named.

use vstd::prelude::*;

use crate::kind::{Kind, KindSet};
use crate::measure::{count_anywhere, count_direct, direct, level_in};
use crate::names::{collect_own_level, column_qualifier, own_level, qualifier_of};
use crate::subqueries::{select_depth, selects_in};
use crate::tree::{
    all_in, count, crawl, every, lemma_count_step, lemma_crawl, lemma_sum_step, lemma_take_all, sum,
    Node, Probe, Tree, MAX_NODES,
};

verus! {

/// Output shape and identifiers.
#[derive(Clone, Copy, Debug, PartialEq, Eq, Structural)]
pub struct OutputFacts {
    pub star_count: u64,
    /// Wildcards of an outermost query.
    pub outer_star_count: u64,
    pub expression_without_alias_count: u64,
    pub derived_expression_count: u64,
    pub aliased_derived_expression_count: u64,
    pub total_column_refs: u64,
    pub unqualified_column_refs: u64,
    pub multi_relation_column_refs: u64,
    pub multi_relation_unqualified_refs: u64,
    pub quoted_identifier_count: u64,
    pub table_alias_count: u64,
}

/// Whether a wildcard belongs to an outermost query.
pub open spec fn outer_star(n: Seq<Node>, root: int) -> spec_fn(usize) -> bool {
    |i: usize| select_depth(n, root)(i) <= 1
}

/// Whether a select element computes something.
pub open spec fn is_derived(n: Seq<Node>, i: int) -> bool {
    crawl(
        n,
        i,
        Probe { set: KindSet::Computed, deep: false, stop: KindSet::Empty, own: false },
    ).len() > 0
}

pub open spec fn derived(n: Seq<Node>) -> spec_fn(usize) -> bool {
    |i: usize| is_derived(n, i as int)
}

/// Whether an alias stands in a select element.
pub open spec fn has_alias(n: Seq<Node>, i: int) -> bool {
    all_in(n, i, KindSet::Only(Kind::AliasExpression)).len() > 0
}

pub open spec fn derived_aliased(n: Seq<Node>) -> spec_fn(usize) -> bool {
    |i: usize| is_derived(n, i as int) && has_alias(n, i as int)
}

pub open spec fn derived_unaliased(n: Seq<Node>) -> spec_fn(usize) -> bool {
    |i: usize| is_derived(n, i as int) && !has_alias(n, i as int)
}

/// The columns that a query itself refers to.
pub open spec fn own_columns(n: Seq<Node>, sel: int) -> Seq<usize> {
    own_level(n, sel, KindSet::Only(Kind::ColumnReference))
}

/// Whether a query itself reads more than one relation.
pub open spec fn joins_relations(n: Seq<Node>, sel: int) -> bool {
    own_level(n, sel, KindSet::Only(Kind::FromExpressionElement)).len() > 1
}

pub open spec fn unqualified(n: Seq<Node>) -> spec_fn(usize) -> bool {
    |i: usize| column_qualifier(n, i as int) is None
}

pub open spec fn columns_of(n: Seq<Node>) -> spec_fn(usize) -> int {
    |s: usize| own_columns(n, s as int).len() as int
}

pub open spec fn unqualified_of(n: Seq<Node>) -> spec_fn(usize) -> int {
    |s: usize| count(own_columns(n, s as int), unqualified(n))
}

pub open spec fn multi_columns_of(n: Seq<Node>) -> spec_fn(usize) -> int {
    |s: usize|
        if joins_relations(n, s as int) {
            own_columns(n, s as int).len() as int
        } else {
            0
        }
}

pub open spec fn multi_unqualified_of(n: Seq<Node>) -> spec_fn(usize) -> int {
    |s: usize|
        if joins_relations(n, s as int) {
            count(own_columns(n, s as int), unqualified(n))
        } else {
            0
        }
}

/// The aliases directly below a `FROM` element.
pub open spec fn table_aliases(n: Seq<Node>) -> spec_fn(usize) -> int {
    |i: usize| direct(n, i as int, Kind::AliasExpression)
}

/// Whether output facts are those of a subtree.
pub open spec fn describes_output(n: Seq<Node>, root: int, r: OutputFacts) -> bool {
    let stars = all_in(n, root, KindSet::Only(Kind::WildcardExpression));
    let elems = all_in(n, root, KindSet::Only(Kind::SelectClauseElement));
    let selects = selects_in(n, root);
    &&& r.star_count == stars.len()
    &&& r.outer_star_count == count(stars, outer_star(n, root))
    &&& r.derived_expression_count == count(elems, derived(n))
    &&& r.aliased_derived_expression_count == count(elems, derived_aliased(n))
    &&& r.expression_without_alias_count == count(elems, derived_unaliased(n))
    &&& r.total_column_refs == sum(selects, columns_of(n))
    &&& r.unqualified_column_refs == sum(selects, unqualified_of(n))
    &&& r.multi_relation_column_refs == sum(selects, multi_columns_of(n))
    &&& r.multi_relation_unqualified_refs == sum(selects, multi_unqualified_of(n))
    &&& r.quoted_identifier_count == all_in(n, root, KindSet::Only(Kind::QuotedIdentifier)).len()
    &&& r.table_alias_count == sum(
        all_in(n, root, KindSet::Only(Kind::FromExpressionElement)),
        table_aliases(n),
    )
}

/// How many columns lack a qualifier.
fn count_unqualified(tree: &Tree, cols: &Vec<usize>) -> (r: u64)
    requires
        tree.wf(),
        cols@.len() <= MAX_NODES,
        forall|k: int| 0 <= k < cols@.len() ==> (#[trigger] cols@[k]) < tree@.len(),
    ensures
        r == count(cols@, unqualified(tree@)),
        r <= cols@.len(),
{
    let ghost n = tree@;
    proof {
        lemma_take_all(cols@);
    }
    let mut found: u64 = 0;
    let mut k: usize = 0;
    while k < cols.len()
        invariant
            tree.wf(),
            n == tree@,
            k <= cols@.len() <= MAX_NODES,
            forall|l: int| 0 <= l < cols@.len() ==> (#[trigger] cols@[l]) < n.len(),
            found == count(cols@.take(k as int), unqualified(n)),
            found <= k,
        decreases cols@.len() - k,
    {
        proof {
            lemma_count_step(cols@, k as int, unqualified(n));
        }
        if qualifier_of(tree, cols[k]).is_none() {
            found = found + 1;
        }
        k = k + 1;
    }
    found
}

/// The wildcards: all of them, and those of an outermost query.
fn count_stars(tree: &Tree, root: usize, selects: &Vec<usize>) -> (r: (u64, u64))
    requires
        tree.wf(),
        tree.holds(root),
        selects@ == selects_in(tree@, root as int),
        selects@.len() <= MAX_NODES,
        forall|k: int| 0 <= k < selects@.len() ==> (#[trigger] selects@[k]) < tree@.len(),
    ensures
        r.0 == all_in(
            tree@,
            root as int,
            KindSet::Only(Kind::WildcardExpression),
        ).len(),
        r.1 == count(
            all_in(tree@, root as int, KindSet::Only(Kind::WildcardExpression)),
            outer_star(tree@, root as int),
        ),
{
    let ghost n = tree@;
    let stars = tree.all_in(root, KindSet::Only(Kind::WildcardExpression));
    proof {
        lemma_crawl(n, root as int, every(KindSet::Only(Kind::WildcardExpression)));
        lemma_take_all(stars@);
    }
    let mut outer: u64 = 0;
    let mut k: usize = 0;
    while k < stars.len()
        invariant
            tree.wf(),
            n == tree@,
            k <= stars@.len() <= MAX_NODES,
            selects@ == selects_in(n, root as int),
            selects@.len() <= MAX_NODES,
            forall|l: int| 0 <= l < selects@.len() ==> (#[trigger] selects@[l]) < n.len(),
            forall|l: int| 0 <= l < stars@.len() ==> (#[trigger] stars@[l]) < n.len(),
            outer == count(stars@.take(k as int), outer_star(n, root as int)),
            outer <= k,
        decreases stars@.len() - k,
    {
        proof {
            lemma_count_step(stars@, k as int, outer_star(n, root as int));
        }
        if level_in(tree, selects, stars[k]) <= 1 {
            outer = outer + 1;
        }
        k = k + 1;
    }
    (stars.len() as u64, outer)
}

/// The output facts of a subtree.
pub fn extract_output(tree: &Tree, root: usize) -> (r: OutputFacts)
    requires
        tree.wf(),
        tree.holds(root),
    ensures
        describes_output(tree@, root as int, r),
{
    let ghost n = tree@;
    let selects = tree.all_in(root, KindSet::Only(Kind::SelectStatement));
    let elems = tree.all_in(root, KindSet::Only(Kind::SelectClauseElement));
    let froms = tree.all_in(root, KindSet::Only(Kind::FromExpressionElement));
    proof {
        lemma_crawl(n, root as int, every(KindSet::Only(Kind::SelectStatement)));
        lemma_crawl(n, root as int, every(KindSet::Only(Kind::SelectClauseElement)));
        lemma_crawl(n, root as int, every(KindSet::Only(Kind::FromExpressionElement)));
        lemma_take_all(selects@);
        lemma_take_all(elems@);
        lemma_take_all(froms@);
    }
    let (stars, outer) = count_stars(tree, root, &selects);
    let mut computed: u64 = 0;
    let mut aliased: u64 = 0;
    let mut unaliased: u64 = 0;
    let mut k: usize = 0;
    while k < elems.len()
        invariant
            tree.wf(),
            n == tree@,
            k <= elems@.len() <= MAX_NODES,
            forall|l: int| 0 <= l < elems@.len() ==> (#[trigger] elems@[l]) < n.len(),
            computed == count(elems@.take(k as int), derived(n)),
            aliased == count(elems@.take(k as int), derived_aliased(n)),
            unaliased == count(elems@.take(k as int), derived_unaliased(n)),
            computed <= k,
            aliased <= k,
            unaliased <= k,
        decreases elems@.len() - k,
    {
        proof {
            lemma_count_step(elems@, k as int, derived(n));
            lemma_count_step(elems@, k as int, derived_aliased(n));
            lemma_count_step(elems@, k as int, derived_unaliased(n));
        }
        let parts = tree.crawl(
            elems[k],
            Probe {
                set: KindSet::Computed,
                deep: false,
                stop: KindSet::Empty,
                own: false,
            },
        );
        if parts.len() > 0 {
            computed = computed + 1;
            let aliases = tree.all_in(elems[k], KindSet::Only(Kind::AliasExpression));
            if aliases.len() > 0 {
                aliased = aliased + 1;
            } else {
                unaliased = unaliased + 1;
            }
        }
        k = k + 1;
    }
    let mut total: u64 = 0;
    let mut bare: u64 = 0;
    let mut multi: u64 = 0;
    let mut multi_bare: u64 = 0;
    let mut s: usize = 0;
    while s < selects.len()
        invariant
            tree.wf(),
            n == tree@,
            s <= selects@.len() <= MAX_NODES,
            forall|l: int| 0 <= l < selects@.len() ==> (#[trigger] selects@[l]) < n.len(),
            total == sum(selects@.take(s as int), columns_of(n)),
            bare == sum(selects@.take(s as int), unqualified_of(n)),
            multi == sum(selects@.take(s as int), multi_columns_of(n)),
            multi_bare == sum(selects@.take(s as int), multi_unqualified_of(n)),
            total <= s * MAX_NODES,
            bare <= s * MAX_NODES,
            multi <= s * MAX_NODES,
            multi_bare <= s * MAX_NODES,
        decreases selects@.len() - s,
    {
        proof {
            lemma_sum_step(selects@, s as int, columns_of(n));
            lemma_sum_step(selects@, s as int, unqualified_of(n));
            lemma_sum_step(selects@, s as int, multi_columns_of(n));
            lemma_sum_step(selects@, s as int, multi_unqualified_of(n));
        }
        let relations = collect_own_level(
            tree,
            selects[s],
            KindSet::Only(Kind::FromExpressionElement),
        );
        let cols = collect_own_level(tree, selects[s], KindSet::Only(Kind::ColumnReference));
        let lacking: u64 = count_unqualified(tree, &cols);
        let here: u64 = cols.len() as u64;
        total = total + here;
        bare = bare + lacking;
        if relations.len() > 1 {
            multi = multi + here;
            multi_bare = multi_bare + lacking;
        }
        s = s + 1;
    }
    let mut aliases: u64 = 0;
    let mut f: usize = 0;
    while f < froms.len()
        invariant
            tree.wf(),
            n == tree@,
            f <= froms@.len() <= MAX_NODES,
            forall|l: int| 0 <= l < froms@.len() ==> (#[trigger] froms@[l]) < n.len(),
            aliases == sum(froms@.take(f as int), table_aliases(n)),
            aliases <= f * MAX_NODES,
        decreases froms@.len() - f,
    {
        proof {
            lemma_sum_step(froms@, f as int, table_aliases(n));
        }
        aliases = aliases + count_direct(tree, froms[f], Kind::AliasExpression);
        f = f + 1;
    }
    OutputFacts {
        star_count: stars,
        outer_star_count: outer,
        expression_without_alias_count: unaliased,
        derived_expression_count: computed,
        aliased_derived_expression_count: aliased,
        total_column_refs: total,
        unqualified_column_refs: bare,
        multi_relation_column_refs: multi,
        multi_relation_unqualified_refs: multi_bare,
        quoted_identifier_count: count_anywhere(tree, root, Kind::QuotedIdentifier),
        table_alias_count: aliases,
    }
}

/// Every derived expression either has an alias or lacks one.
pub proof fn derived_expressions_split(n: Seq<Node>, root: int, r: OutputFacts)
    requires
        describes_output(n, root, r),
    ensures
        r.aliased_derived_expression_count + r.expression_without_alias_count
            == r.derived_expression_count,
{
    lemma_split(n, all_in(n, root, KindSet::Only(Kind::SelectClauseElement)));
}

proof fn lemma_split(n: Seq<Node>, s: Seq<usize>)
    ensures
        count(s, derived_aliased(n)) + count(s, derived_unaliased(n)) == count(s, derived(n)),
    decreases s.len(),
{
    if s.len() > 0 {
        lemma_split(n, s.drop_last());
    }
}

} // verus!
