//! The aggregator: fold the matched instance sequence against the recipe
//! table into total component quantities.
//!
//! Every instance identifier handed to the aggregator has a recipe — the
//! blueprint extractor only emits matched identifiers. Totals accumulate
//! with the same additive merge semantics as the table itself, so the result
//! is independent of the order of the instance sequence.

use vstd::prelude::*;
use vstd::seq_lib::{commutative_foldl, lemma_fold_left_permutation};

use crate::blueprint::{BlueprintScan, IdentifierSet};
use crate::table::{
    fold_entries, lemma_fold_entries_is_merge, lemma_qmap_merge_assoc, lemma_qmap_merge_comm,
    qmap_merge, recipe_or_empty, QMapV, QuantityMap, RecipeTable, TableV,
};

verus! {

/// The total component quantities that a sequence of block instances
/// requires, given a table of recipes: the pointwise merge of the recipe of
/// every instance, an absent recipe counting as empty.
pub open spec fn totals_spec(table: TableV, ids: Seq<Seq<char>>) -> QMapV {
    ids.fold_left(
        Map::empty(),
        |acc: QMapV, id: Seq<char>| qmap_merge(acc, recipe_or_empty(table, id)),
    )
}

/// The aggregation result is independent of the order of the instance
/// sequence: any two rearrangements of one and the same collection of
/// instances yield identical component totals.
pub proof fn lemma_totals_order_independent(table: TableV, a: Seq<Seq<char>>, b: Seq<Seq<char>>)
    requires
        a.to_multiset() == b.to_multiset(),
    ensures
        totals_spec(table, a) == totals_spec(table, b),
{
    let f = |acc: QMapV, id: Seq<char>| qmap_merge(acc, recipe_or_empty(table, id));
    assert(commutative_foldl(f)) by {
        assert forall|x: Seq<char>, y: Seq<char>, v: QMapV| #[trigger] f(f(v, x), y) == f(
            f(v, y),
            x,
        ) by {
            lemma_qmap_merge_assoc(v, recipe_or_empty(table, x), recipe_or_empty(table, y));
            lemma_qmap_merge_assoc(v, recipe_or_empty(table, y), recipe_or_empty(table, x));
            lemma_qmap_merge_comm(recipe_or_empty(table, x), recipe_or_empty(table, y));
        }
    }
    lemma_fold_left_permutation(a, b, f, Map::<Seq<char>, u64>::empty());
}

/// Fold the instance sequence against the table: for every instance, merge
/// its recipe's component quantities into the running totals.
///
/// Exactly [`totals_spec`]: the pointwise merge of the recipes of all
/// instances, in sequence order — which, by
/// [`lemma_totals_order_independent`], is the same map for any order.
pub fn aggregate(instances: &Vec<String>, table: &RecipeTable) -> (totals: QuantityMap)
    requires
        table.wf(),
        forall|j: int|
            0 <= j < instances@.len() ==> table@.contains_key((#[trigger] instances@[j])@),
    ensures
        totals.wf(),
        totals@ == totals_spec(table@, instances@.map_values(|s: String| s@)),
{
    let ghost ids = instances@.map_values(|s: String| s@);
    let mut totals = QuantityMap::new();
    let n = instances.len();
    let mut i: usize = 0;
    proof {
        reveal_with_fuel(Seq::fold_left, 2);
        assert(ids.take(0) =~= Seq::<Seq<char>>::empty());
    }
    while i < n
        invariant
            n == instances@.len(),
            i <= n,
            ids == instances@.map_values(|s: String| s@),
            table.wf(),
            totals.wf(),
            forall|j: int|
                0 <= j < instances@.len() ==> table@.contains_key((#[trigger] instances@[j])@),
            totals@ == totals_spec(table@, ids.take(i as int)),
        decreases n - i,
    {
        let ghost acc = totals@;
        let recipe = match table.lookup(&instances[i]) {
            Some(recipe) => recipe,
            None => {
                proof {
                    assert(table@.contains_key(ids[i as int]));
                }
                vstd::pervasive::unreached()
            },
        };
        let m = recipe.len();
        let mut j: usize = 0;
        proof {
            recipe.lemma_entries_denote_view();
            reveal_with_fuel(Seq::fold_left, 2);
            assert(recipe.seq_view().take(0) =~= Seq::<(Seq<char>, u64)>::empty());
        }
        while j < m
            invariant
                m == recipe.seq_view().len(),
                j <= m,
                totals.wf(),
                totals@ == fold_entries(acc, recipe.seq_view().take(j as int)),
            decreases m - j,
        {
            let entry = recipe.entry_at(j);
            totals.record(entry.0, entry.1);
            proof {
                reveal_with_fuel(Seq::fold_left, 2);
                assert(recipe.seq_view().take(j + 1).drop_last() =~= recipe.seq_view().take(
                    j as int,
                ));
                assert(recipe.seq_view().take(j + 1).last() == recipe.seq_view()[j as int]);
            }
            j = j + 1;
        }
        proof {
            assert(recipe.seq_view().take(m as int) =~= recipe.seq_view());
            lemma_fold_entries_is_merge(acc, recipe.seq_view());
            assert(totals@ == qmap_merge(acc, recipe_or_empty(table@, ids[i as int])));
            reveal_with_fuel(Seq::fold_left, 2);
            assert(ids.take(i + 1).drop_last() =~= ids.take(i as int));
            assert(ids.take(i + 1).last() == ids[i as int]);
        }
        i = i + 1;
    }
    proof {
        assert(ids.take(n as int) =~= ids);
    }
    totals
}

/// The terminal output of a run: total component quantities, the number of
/// matched instances, per-identifier occurrence counts, and the distinct
/// unmatched identifiers. Both the totals view and the diagnostic
/// matched/unmatched view are present at once; a presentation layer chooses
/// what to render.
pub struct AggregateReport {
    /// Total required quantity per component, across all matched instances.
    pub totals: QuantityMap,
    /// How many placed block instances had a recipe.
    pub matched_count: usize,
    /// Occurrence counts per matched identifier.
    pub hit_counts: QuantityMap,
    /// Distinct identifiers without a recipe.
    pub missed: IdentifierSet,
}

/// Assemble the aggregate report from a blueprint scan and the table.
pub fn build_report(scan: BlueprintScan, table: &RecipeTable) -> (r: AggregateReport)
    requires
        table.wf(),
        scan.hits.wf(),
        scan.missed.wf(),
        forall|j: int|
            0 <= j < scan.instances_view().len() ==> table@.contains_key(
                #[trigger] scan.instances_view()[j],
            ),
    ensures
        r.totals.wf(),
        r.totals@ == totals_spec(table@, scan.instances_view()),
        r.matched_count == scan.instances_view().len(),
        r.hit_counts.wf(),
        r.hit_counts@ == scan.hits@,
        r.missed.wf(),
        r.missed@ == scan.missed@,
{
    proof {
        assert forall|j: int| 0 <= j < scan.instances@.len() implies table@.contains_key(
            (#[trigger] scan.instances@[j])@,
        ) by {
            assert(scan.instances_view()[j] == scan.instances@[j]@);
        }
    }
    let totals = aggregate(&scan.instances, table);
    let matched_count = scan.instances.len();
    AggregateReport { totals, matched_count, hit_counts: scan.hits, missed: scan.missed }
}

} // verus!
