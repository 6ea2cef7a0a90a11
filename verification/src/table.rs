//! The recipe table and its merge semantics.
//!
//! A [`QuantityMap`] maps identifiers to non-negative quantities; a
//! [`RecipeTable`] maps block identifiers to recipes (themselves quantity
//! maps). Quantities accumulate additively, saturating at the top of the
//! quantity type, and the accumulation is commutative and associative:
//! committing a set of `(block, component, quantity)` triples in any order
//! yields an identical table.

use vstd::prelude::*;
use vstd::seq_lib::{commutative_foldl, lemma_fold_left_permutation};

verus! {

/// The mathematical value of a quantity map.
pub type QMapV = Map<Seq<char>, u64>;

/// The mathematical value of a recipe table.
pub type TableV = Map<Seq<char>, QMapV>;

/// One `(block identifier, component identifier, quantity)` triple.
pub type TripleV = (Seq<char>, Seq<char>, u64);

/// Additive merge of two quantities, saturating at `u64::MAX`.
pub open spec fn sat_add(a: u64, b: u64) -> u64 {
    if a + b > u64::MAX {
        u64::MAX
    } else {
        (a + b) as u64
    }
}

/// The quantity stored under `k`, or zero when `k` is absent.
pub open spec fn quantity_or_zero(m: QMapV, k: Seq<char>) -> u64 {
    if m.contains_key(k) {
        m[k]
    } else {
        0u64
    }
}

/// The recipe stored under `k`, or the empty recipe when `k` is absent.
pub open spec fn recipe_or_empty(t: TableV, k: Seq<char>) -> QMapV {
    if t.contains_key(k) {
        t[k]
    } else {
        Map::empty()
    }
}

/// One quantity merged into a quantity map: an absent key is inserted with
/// the quantity itself, a present key accumulates additively.
pub open spec fn qmap_record(m: QMapV, key: Seq<char>, q: u64) -> QMapV {
    m.insert(key, sat_add(quantity_or_zero(m, key), q))
}

/// One triple committed to a table: an absent block is inserted with an
/// empty recipe first, then the component quantity is merged into it.
pub open spec fn table_record(t: TableV, block: Seq<char>, comp: Seq<char>, q: u64) -> TableV {
    t.insert(block, qmap_record(recipe_or_empty(t, block), comp, q))
}

/// Pointwise additive merge of two quantity maps.
pub open spec fn qmap_merge(a: QMapV, b: QMapV) -> QMapV {
    Map::new(
        |k: Seq<char>| a.contains_key(k) || b.contains_key(k),
        |k: Seq<char>| sat_add(quantity_or_zero(a, k), quantity_or_zero(b, k)),
    )
}

/// Pointwise merge of two tables: recipes of a shared block are merged.
pub open spec fn table_merge(a: TableV, b: TableV) -> TableV {
    Map::new(
        |k: Seq<char>| a.contains_key(k) || b.contains_key(k),
        |k: Seq<char>| qmap_merge(recipe_or_empty(a, k), recipe_or_empty(b, k)),
    )
}

/// A table with no blocks.
pub open spec fn empty_table() -> TableV {
    Map::empty()
}

/// A whole sequence of triples committed to a table, left to right.
pub open spec fn fold_triples(t: TableV, trs: Seq<TripleV>) -> TableV {
    trs.fold_left(t, |acc: TableV, tr: TripleV| table_record(acc, tr.0, tr.1, tr.2))
}

/// Saturating addition is associative.
proof fn lemma_sat_add_assoc(a: u64, b: u64, c: u64)
    ensures
        sat_add(sat_add(a, b), c) == sat_add(a, sat_add(b, c)),
{
}

/// Saturating addition is commutative.
proof fn lemma_sat_add_comm(a: u64, b: u64)
    ensures
        sat_add(a, b) == sat_add(b, a),
{
}

/// Merging one quantity commutes with a pointwise map merge.
proof fn lemma_qmap_record_merge(a: QMapV, b: QMapV, key: Seq<char>, q: u64)
    ensures
        qmap_record(qmap_merge(a, b), key, q) == qmap_merge(a, qmap_record(b, key, q)),
{
    lemma_sat_add_assoc(quantity_or_zero(a, key), quantity_or_zero(b, key), q);
    assert(qmap_record(qmap_merge(a, b), key, q) =~= qmap_merge(a, qmap_record(b, key, q)));
}

/// Committing one triple commutes with a pointwise table merge.
proof fn lemma_table_record_merge(a: TableV, b: TableV, block: Seq<char>, comp: Seq<char>, q: u64)
    ensures
        table_record(table_merge(a, b), block, comp, q) == table_merge(
            a,
            table_record(b, block, comp, q),
        ),
{
    let lhs = table_record(table_merge(a, b), block, comp, q);
    let rhs = table_merge(a, table_record(b, block, comp, q));
    assert forall|k: Seq<char>| lhs.contains_key(k) implies rhs.contains_key(k) by {}
    assert forall|k: Seq<char>| rhs.contains_key(k) implies lhs.contains_key(k) by {}
    assert forall|k: Seq<char>| #[trigger] lhs.contains_key(k) implies lhs[k] == rhs[k] by {
        if k == block {
            lemma_qmap_record_merge(recipe_or_empty(a, block), recipe_or_empty(b, block), comp, q);
            assert(recipe_or_empty(table_merge(a, b), block) == qmap_merge(
                recipe_or_empty(a, block),
                recipe_or_empty(b, block),
            )) by {
                if !a.contains_key(block) && !b.contains_key(block) {
                    assert(qmap_merge(Map::empty(), Map::empty()) =~= Map::<Seq<char>, u64>::empty());
                }
            }
            assert(recipe_or_empty(table_record(b, block, comp, q), block) == qmap_record(
                recipe_or_empty(b, block),
                comp,
                q,
            ));
        } else {
            assert(recipe_or_empty(table_record(b, block, comp, q), k) == recipe_or_empty(b, k));
        }
    }
    assert(lhs =~= rhs);
}

/// Merging the empty table on the right changes nothing.
proof fn lemma_table_merge_empty(t: TableV)
    ensures
        table_merge(t, empty_table()) == t,
{
    assert forall|k: Seq<char>| t.contains_key(k) implies #[trigger] table_merge(
        t,
        empty_table(),
    )[k] == t[k] by {
        assert(qmap_merge(t[k], Map::empty()) =~= t[k]);
    }
    assert(table_merge(t, empty_table()) =~= t);
}

/// Two committed triples commute: the table does not depend on which of the
/// two was committed first.
pub proof fn lemma_record_commutes(t: TableV, x: TripleV, y: TripleV)
    ensures
        table_record(table_record(t, x.0, x.1, x.2), y.0, y.1, y.2) == table_record(
            table_record(t, y.0, y.1, y.2),
            x.0,
            x.1,
            x.2,
        ),
{
    let lhs = table_record(table_record(t, x.0, x.1, x.2), y.0, y.1, y.2);
    let rhs = table_record(table_record(t, y.0, y.1, y.2), x.0, x.1, x.2);
    if x.0 == y.0 {
        if x.1 == y.1 {
            lemma_sat_add_assoc(quantity_or_zero(recipe_or_empty(t, x.0), x.1), x.2, y.2);
            lemma_sat_add_assoc(quantity_or_zero(recipe_or_empty(t, x.0), x.1), y.2, x.2);
            lemma_sat_add_comm(x.2, y.2);
            assert(lhs[x.0] =~= rhs[x.0]);
        } else {
            assert(lhs[x.0] =~= rhs[x.0]);
        }
    } else {
        assert(lhs[x.0] =~= rhs[x.0]);
        assert(lhs[y.0] =~= rhs[y.0]);
    }
    assert(lhs =~= rhs);
}

/// Committing triples in any order yields an identical table: folding two
/// rearrangements of one and the same collection of triples from the same
/// starting table gives equal results.
pub proof fn lemma_fold_triples_order_independent(t0: TableV, a: Seq<TripleV>, b: Seq<TripleV>)
    requires
        a.to_multiset() == b.to_multiset(),
    ensures
        fold_triples(t0, a) == fold_triples(t0, b),
{
    let f = |acc: TableV, tr: TripleV| table_record(acc, tr.0, tr.1, tr.2);
    assert(commutative_foldl(f)) by {
        assert forall|x: TripleV, y: TripleV, v: TableV| #[trigger] f(f(v, x), y) == f(
            f(v, y),
            x,
        ) by {
            lemma_record_commutes(v, x, y);
        }
    }
    lemma_fold_left_permutation(a, b, f, t0);
}

/// Committing triples into an existing table equals committing them into an
/// empty table and merging the result in: accumulation is linear in the
/// starting table.
pub proof fn lemma_fold_triples_linear(t0: TableV, trs: Seq<TripleV>)
    ensures
        fold_triples(t0, trs) == table_merge(t0, fold_triples(empty_table(), trs)),
    decreases trs.len(),
{
    let f = |acc: TableV, tr: TripleV| table_record(acc, tr.0, tr.1, tr.2);
    if trs.len() == 0 {
        lemma_table_merge_empty(t0);
    } else {
        let dl = trs.drop_last();
        let last = trs.last();
        lemma_fold_triples_linear(t0, dl);
        lemma_table_record_merge(t0, fold_triples(empty_table(), dl), last.0, last.1, last.2);
    }
}

/// Feeding one and the same collection of triples twice — once into a fresh
/// table and then again into the resulting table — yields the pointwise merge
/// of two independent single-scan tables: every quantity is doubled
/// (saturating), never silently duplicated beyond that.
pub proof fn lemma_rescan_doubles(trs: Seq<TripleV>)
    ensures
        fold_triples(fold_triples(empty_table(), trs), trs) == table_merge(
            fold_triples(empty_table(), trs),
            fold_triples(empty_table(), trs),
        ),
{
    lemma_fold_triples_linear(fold_triples(empty_table(), trs), trs);
}

/// The plain sum of the quantities a triple sequence declares for one
/// `(block, component)` pair.
pub open spec fn triple_sum(trs: Seq<TripleV>, b: Seq<char>, c: Seq<char>) -> int
    decreases trs.len(),
{
    if trs.len() == 0 {
        0
    } else {
        triple_sum(trs.drop_last(), b, c) + if trs.last().0 == b && trs.last().1 == c {
            trs.last().2 as int
        } else {
            0
        }
    }
}

/// Declared quantities are non-negative, so their sum is.
proof fn lemma_triple_sum_nonneg(trs: Seq<TripleV>, b: Seq<char>, c: Seq<char>)
    ensures
        triple_sum(trs, b, c) >= 0,
    decreases trs.len(),
{
    if trs.len() > 0 {
        lemma_triple_sum_nonneg(trs.drop_last(), b, c);
    }
}

/// One scan contributes each declared quantity exactly once: for every
/// `(block, component)` pair, committing a triple sequence sets the stored
/// quantity to the prior quantity plus the plain sum of the quantities the
/// sequence declares for that pair, saturating at the top of the quantity
/// type and never duplicating or dropping a declaration.
pub proof fn lemma_fold_triples_sums(t0: TableV, trs: Seq<TripleV>, b: Seq<char>, c: Seq<char>)
    ensures
        ({
            let before = quantity_or_zero(recipe_or_empty(t0, b), c) as int;
            let total = before + triple_sum(trs, b, c);
            quantity_or_zero(recipe_or_empty(fold_triples(t0, trs), b), c) as int == if total
                > u64::MAX {
                u64::MAX as int
            } else {
                total
            }
        }),
    decreases trs.len(),
{
    reveal_with_fuel(Seq::fold_left, 2);
    if trs.len() == 0 {
    } else {
        let dl = trs.drop_last();
        let last = trs.last();
        lemma_fold_triples_sums(t0, dl, b, c);
        lemma_triple_sum_nonneg(dl, b, c);
        let t = fold_triples(t0, dl);
        let t2 = table_record(t, last.0, last.1, last.2);
        if last.0 == b && last.1 == c {
        } else if last.0 == b {
            assert(recipe_or_empty(t2, b) == qmap_record(recipe_or_empty(t, b), last.1, last.2));
        } else {
            assert(recipe_or_empty(t2, b) == recipe_or_empty(t, b));
        }
    }
}

/// Every triple carries non-empty identifiers on both sides.
pub open spec fn nonempty_triples(trs: Seq<TripleV>) -> bool {
    forall|i: int|
        0 <= i < trs.len() ==> (#[trigger] trs[i]).0.len() > 0 && trs[i].1.len() > 0
}

/// Every block key and every component key of the table is non-empty.
pub open spec fn table_ids_ok(t: TableV) -> bool {
    forall|b: Seq<char>| #[trigger] t.contains_key(b) ==> b.len() > 0 && (forall|c: Seq<char>|
        #[trigger] t[b].contains_key(c) ==> c.len() > 0)
}

/// Committing triples with non-empty identifiers keeps every key of the
/// table non-empty.
pub proof fn lemma_fold_triples_ids_ok(t0: TableV, trs: Seq<TripleV>)
    requires
        table_ids_ok(t0),
        nonempty_triples(trs),
    ensures
        table_ids_ok(fold_triples(t0, trs)),
    decreases trs.len(),
{
    reveal_with_fuel(Seq::fold_left, 2);
    if trs.len() > 0 {
        let dl = trs.drop_last();
        let last = trs.last();
        assert(nonempty_triples(dl)) by {
            assert(forall|i: int| 0 <= i < trs.len() - 1 ==> #[trigger] dl[i] == trs[i]);
        }
        lemma_fold_triples_ids_ok(t0, dl);
        let t = fold_triples(t0, dl);
        let t2 = table_record(t, last.0, last.1, last.2);
        assert(trs[trs.len() - 1] == last);
        assert forall|b: Seq<char>| #[trigger] t2.contains_key(b) implies b.len() > 0 && (
        forall|c: Seq<char>| #[trigger] t2[b].contains_key(c) ==> c.len() > 0) by {
            if b == last.0 {
                assert forall|c: Seq<char>| #[trigger] t2[b].contains_key(c) implies c.len()
                    > 0 by {
                    if c != last.1 {
                        assert(recipe_or_empty(t, b).contains_key(c));
                    }
                }
            } else {
                assert(t.contains_key(b));
            }
        }
    }
}

/// Pointwise merge is commutative.
pub proof fn lemma_qmap_merge_comm(a: QMapV, b: QMapV)
    ensures
        qmap_merge(a, b) == qmap_merge(b, a),
{
    assert(qmap_merge(a, b) =~= qmap_merge(b, a));
}

/// Pointwise merge is associative.
pub proof fn lemma_qmap_merge_assoc(a: QMapV, b: QMapV, c: QMapV)
    ensures
        qmap_merge(qmap_merge(a, b), c) == qmap_merge(a, qmap_merge(b, c)),
{
    assert forall|k: Seq<char>| #[trigger] qmap_merge(qmap_merge(a, b), c).contains_key(
        k,
    ) implies qmap_merge(qmap_merge(a, b), c)[k] == qmap_merge(a, qmap_merge(b, c))[k] by {
        lemma_sat_add_assoc(quantity_or_zero(a, k), quantity_or_zero(b, k), quantity_or_zero(c, k));
    }
    assert(qmap_merge(qmap_merge(a, b), c) =~= qmap_merge(a, qmap_merge(b, c)));
}

/// A whole sequence of entries merged into a quantity map, left to right.
pub open spec fn fold_entries(t: QMapV, s: Seq<(Seq<char>, u64)>) -> QMapV {
    s.fold_left(t, |acc: QMapV, e: (Seq<char>, u64)| qmap_record(acc, e.0, e.1))
}

/// Merging the entries of an association list with distinct keys, one at a
/// time, is the pointwise merge with the map it denotes.
pub proof fn lemma_fold_entries_is_merge(t: QMapV, s: Seq<(Seq<char>, u64)>)
    requires
        distinct_keys(s),
    ensures
        fold_entries(t, s) == qmap_merge(t, pairs_to_map(s)),
    decreases s.len(),
{
    reveal_with_fuel(Seq::fold_left, 2);
    if s.len() == 0 {
        assert(qmap_merge(t, pairs_to_map(s)) =~= t);
    } else {
        let dl = s.drop_last();
        let e = s.last();
        assert(distinct_keys(dl)) by {
            assert(forall|x: int, y: int|
                0 <= x < y < s.len() - 1 ==> dl[x] == s[x] && dl[y] == s[y]);
        }
        lemma_fold_entries_is_merge(t, dl);
        lemma_qmap_record_merge(t, pairs_to_map(dl), e.0, e.1);
        assert(!pairs_to_map(dl).contains_key(e.0)) by {
            lemma_pairs_to_map_contains(dl, e.0);
            assert(forall|x: int| 0 <= x < s.len() - 1 ==> dl[x] == s[x]);
        }
        assert(qmap_record(pairs_to_map(dl), e.0, e.1) == pairs_to_map(s));
    }
}

/// Committing a concatenation is committing the parts in turn.
pub proof fn lemma_fold_triples_concat(t: TableV, a: Seq<TripleV>, b: Seq<TripleV>)
    ensures
        fold_triples(t, a + b) == fold_triples(fold_triples(t, a), b),
    decreases b.len(),
{
    reveal_with_fuel(Seq::fold_left, 2);
    if b.len() == 0 {
        assert(a + b =~= a);
    } else {
        lemma_fold_triples_concat(t, a, b.drop_last());
        assert((a + b).drop_last() =~= a + b.drop_last());
        assert((a + b).last() == b.last());
    }
}

/// The map denoted by an association list: later entries override earlier
/// ones (with distinct keys the direction is immaterial).
pub open spec fn pairs_to_map<V>(s: Seq<(Seq<char>, V)>) -> Map<Seq<char>, V>
    decreases s.len(),
{
    if s.len() == 0 {
        Map::empty()
    } else {
        pairs_to_map(s.drop_last()).insert(s.last().0, s.last().1)
    }
}

/// No two entries of the association list share a key.
pub open spec fn distinct_keys<V>(s: Seq<(Seq<char>, V)>) -> bool {
    forall|i: int, j: int| 0 <= i < j < s.len() ==> s[i].0 != s[j].0
}

/// A key is in the denoted map exactly when some entry carries it.
pub proof fn lemma_pairs_to_map_contains<V>(s: Seq<(Seq<char>, V)>, k: Seq<char>)
    ensures
        pairs_to_map(s).contains_key(k) <==> exists|i: int| 0 <= i < s.len() && s[i].0 == k,
    decreases s.len(),
{
    if s.len() > 0 {
        lemma_pairs_to_map_contains(s.drop_last(), k);
        if s.last().0 == k {
            assert(s[s.len() - 1].0 == k);
        } else if pairs_to_map(s).contains_key(k) {
            let i = choose|i: int| 0 <= i < s.drop_last().len() && s.drop_last()[i].0 == k;
            assert(s[i].0 == k);
        } else if exists|i: int| 0 <= i < s.len() && s[i].0 == k {
            let i = choose|i: int| 0 <= i < s.len() && s[i].0 == k;
            assert(s.drop_last()[i].0 == k);
        }
    }
}

/// With distinct keys, the denoted map sends each entry's key to its value.
pub proof fn lemma_pairs_to_map_index<V>(s: Seq<(Seq<char>, V)>, i: int)
    requires
        distinct_keys(s),
        0 <= i < s.len(),
    ensures
        pairs_to_map(s).contains_key(s[i].0),
        pairs_to_map(s)[s[i].0] == s[i].1,
    decreases s.len(),
{
    if i == s.len() - 1 {
    } else {
        assert(distinct_keys(s.drop_last())) by {
            assert(forall|x: int, y: int|
                0 <= x < y < s.len() - 1 ==> s.drop_last()[x] == s[x] && s.drop_last()[y] == s[y]);
        }
        lemma_pairs_to_map_index(s.drop_last(), i);
        assert(s[i].0 != s.last().0);
    }
}

/// Updating the value of entry `i` (keeping its key) denotes an insert.
proof fn lemma_pairs_to_map_update<V>(s: Seq<(Seq<char>, V)>, i: int, v: V)
    requires
        distinct_keys(s),
        0 <= i < s.len(),
    ensures
        distinct_keys(s.update(i, (s[i].0, v))),
        pairs_to_map(s.update(i, (s[i].0, v))) == pairs_to_map(s).insert(s[i].0, v),
    decreases s.len(),
{
    let s2 = s.update(i, (s[i].0, v));
    assert(distinct_keys(s2)) by {
        assert(forall|x: int| 0 <= x < s.len() ==> s2[x].0 == s[x].0);
    }
    if i == s.len() - 1 {
        assert(s2.drop_last() =~= s.drop_last());
        assert(pairs_to_map(s2) =~= pairs_to_map(s).insert(s[i].0, v));
    } else {
        assert(distinct_keys(s.drop_last())) by {
            assert(forall|x: int, y: int|
                0 <= x < y < s.len() - 1 ==> s.drop_last()[x] == s[x] && s.drop_last()[y] == s[y]);
        }
        lemma_pairs_to_map_update(s.drop_last(), i, v);
        assert(s2.drop_last() =~= s.drop_last().update(i, (s[i].0, v)));
        assert(s[i].0 != s.last().0);
        assert(pairs_to_map(s2) =~= pairs_to_map(s).insert(s[i].0, v));
    }
}

/// A map from component identifiers (or block identifiers) to accumulated
/// non-negative quantities (or occurrence counts).
pub struct QuantityMap {
    entries: Vec<(String, u64)>,
}

impl View for QuantityMap {
    type V = QMapV;

    closed spec fn view(&self) -> QMapV {
        pairs_to_map(self.seq_view())
    }
}

impl QuantityMap {
    /// The entries in insertion order, as mathematical values.
    pub closed spec fn seq_view(&self) -> Seq<(Seq<char>, u64)> {
        self.entries@.map_values(|p: (String, u64)| (p.0@, p.1))
    }

    /// Well-formed: no key occurs twice.
    pub closed spec fn wf(&self) -> bool {
        distinct_keys(self.seq_view())
    }

    /// The denoted map is the association of the entry sequence, and its keys
    /// are exactly the entry keys.
    pub proof fn lemma_entries_denote_view(&self)
        requires
            self.wf(),
        ensures
            distinct_keys(self.seq_view()),
            self@ == pairs_to_map(self.seq_view()),
            forall|i: int|
                0 <= i < self.seq_view().len() ==> self@.contains_key(
                    #[trigger] self.seq_view()[i].0,
                ) && self@[self.seq_view()[i].0] == self.seq_view()[i].1,
    {
        assert forall|i: int| 0 <= i < self.seq_view().len() implies self@.contains_key(
            #[trigger] self.seq_view()[i].0,
        ) && self@[self.seq_view()[i].0] == self.seq_view()[i].1 by {
            lemma_pairs_to_map_index(self.seq_view(), i);
        }
    }

    /// An empty quantity map.
    pub fn new() -> (r: Self)
        ensures
            r.wf(),
            r@ == Map::<Seq<char>, u64>::empty(),
            r.seq_view() == Seq::<(Seq<char>, u64)>::empty(),
    {
        let r = QuantityMap { entries: Vec::new() };
        proof {
            assert(r.seq_view() =~= Seq::<(Seq<char>, u64)>::empty());
        }
        r
    }

    /// How many distinct keys the map holds.
    pub fn len(&self) -> (n: usize)
        ensures
            n == self.seq_view().len(),
    {
        self.entries.len()
    }

    /// The entry at position `i`, in insertion order.
    pub fn entry_at(&self, i: usize) -> (r: (&String, u64))
        requires
            i < self.seq_view().len(),
        ensures
            (r.0@, r.1) == self.seq_view()[i as int],
    {
        let e = &self.entries[i];
        (&e.0, e.1)
    }

    /// The quantity stored under `key`, if any.
    pub fn get(&self, key: &String) -> (r: Option<u64>)
        requires
            self.wf(),
        ensures
            match r {
                Some(v) => self@.contains_key(key@) && v == self@[key@],
                None => !self@.contains_key(key@),
            },
    {
        let n = self.entries.len();
        let mut i: usize = 0;
        while i < n
            invariant
                n == self.entries.len(),
                i <= n,
                self.wf(),
                forall|j: int| 0 <= j < i ==> self.seq_view()[j].0 != key@,
            decreases n - i,
        {
            let e = &self.entries[i];
            if e.0 == *key {
                proof {
                    lemma_pairs_to_map_index(self.seq_view(), i as int);
                }
                return Some(e.1);
            }
            i = i + 1;
        }
        proof {
            lemma_pairs_to_map_contains(self.seq_view(), key@);
        }
        None
    }

    /// Merge `quantity` under `key`: insert an absent key, accumulate
    /// additively (saturating) into a present one.
    pub fn record(&mut self, key: &String, quantity: u64)
        requires
            old(self).wf(),
        ensures
            final(self).wf(),
            final(self)@ == qmap_record(old(self)@, key@, quantity),
    {
        let n = self.entries.len();
        let mut i: usize = 0;
        while i < n
            invariant
                n == self.entries.len(),
                i <= n,
                self.wf(),
                self == old(self),
                forall|j: int| 0 <= j < i ==> self.seq_view()[j].0 != key@,
            decreases n - i,
        {
            let e = &self.entries[i];
            if e.0 == *key {
                proof {
                    lemma_pairs_to_map_index(self.seq_view(), i as int);
                }
                let updated = self.entries[i].1.saturating_add(quantity);
                let ghost s = self.seq_view();
                self.entries[i].1 = updated;
                proof {
                    assert(self.seq_view() =~= s.update(i as int, (key@, updated)));
                    lemma_pairs_to_map_update(s, i as int, updated);
                }
                return;
            }
            i = i + 1;
        }
        proof {
            lemma_pairs_to_map_contains(self.seq_view(), key@);
        }
        let ghost s = self.seq_view();
        self.entries.push((key.clone(), quantity));
        proof {
            assert(self.seq_view() =~= s.push((key@, quantity)));
            assert(self.seq_view().drop_last() =~= s);
            assert(distinct_keys(self.seq_view()));
            assert(self@ =~= qmap_record(old(self)@, key@, quantity));
        }
    }
}

/// The recipe table: block identifiers mapped to their component recipes.
///
/// Built once from all definition documents, then read-only. A lookup of an
/// absent block is a defined miss, not an error.
pub struct RecipeTable {
    entries: Vec<(String, QuantityMap)>,
}

impl View for RecipeTable {
    type V = TableV;

    closed spec fn view(&self) -> TableV {
        pairs_to_map(self.seq_view())
    }
}

impl RecipeTable {
    /// The block entries in insertion order, as mathematical values.
    pub closed spec fn seq_view(&self) -> Seq<(Seq<char>, QMapV)> {
        self.entries@.map_values(|p: (String, QuantityMap)| (p.0@, p.1@))
    }

    /// Well-formed: block keys are distinct and every recipe is well-formed.
    pub closed spec fn wf(&self) -> bool {
        &&& distinct_keys(self.seq_view())
        &&& forall|i: int| 0 <= i < self.entries@.len() ==> (#[trigger] self.entries@[i].1).wf()
    }

    /// An empty table.
    pub fn new() -> (r: Self)
        ensures
            r.wf(),
            r@ == empty_table(),
    {
        let r = RecipeTable { entries: Vec::new() };
        proof {
            assert(r.seq_view() =~= Seq::<(Seq<char>, QMapV)>::empty());
        }
        r
    }

    /// Commit one `(block, component, quantity)` triple: insert an absent
    /// block with an empty recipe first, then merge the quantity additively
    /// into the block's recipe.
    pub fn add_component(&mut self, block: &String, component: &String, quantity: u64)
        requires
            old(self).wf(),
        ensures
            final(self).wf(),
            final(self)@ == table_record(old(self)@, block@, component@, quantity),
    {
        let n = self.entries.len();
        let mut i: usize = 0;
        while i < n
            invariant
                n == self.entries.len(),
                i <= n,
                self.wf(),
                self == old(self),
                forall|j: int| 0 <= j < i ==> self.seq_view()[j].0 != block@,
            decreases n - i,
        {
            let e = &self.entries[i];
            if e.0 == *block {
                proof {
                    lemma_pairs_to_map_index(self.seq_view(), i as int);
                }
                let ghost s = self.seq_view();
                let ghost prior = self.entries@[i as int].1@;
                self.entries[i].1.record(component, quantity);
                proof {
                    assert(self.seq_view() =~= s.update(
                        i as int,
                        (block@, qmap_record(prior, component@, quantity)),
                    ));
                    lemma_pairs_to_map_update(s, i as int, qmap_record(prior, component@, quantity));
                }
                return;
            }
            i = i + 1;
        }
        proof {
            lemma_pairs_to_map_contains(self.seq_view(), block@);
        }
        let mut recipe = QuantityMap::new();
        recipe.record(component, quantity);
        let ghost s = self.seq_view();
        self.entries.push((block.clone(), recipe));
        proof {
            assert(self.seq_view() =~= s.push((block@, recipe@)));
            assert(self.seq_view().drop_last() =~= s);
            assert(distinct_keys(self.seq_view()));
            assert(self@ =~= table_record(old(self)@, block@, component@, quantity));
        }
    }

    /// The recipe of `block`, if the table knows one. Pure read.
    pub fn lookup(&self, block: &String) -> (r: Option<&QuantityMap>)
        requires
            self.wf(),
        ensures
            match r {
                Some(m) => self@.contains_key(block@) && m@ == self@[block@] && m.wf(),
                None => !self@.contains_key(block@),
            },
    {
        let n = self.entries.len();
        let mut i: usize = 0;
        while i < n
            invariant
                n == self.entries.len(),
                i <= n,
                self.wf(),
                forall|j: int| 0 <= j < i ==> self.seq_view()[j].0 != block@,
            decreases n - i,
        {
            let e = &self.entries[i];
            if e.0 == *block {
                proof {
                    lemma_pairs_to_map_index(self.seq_view(), i as int);
                }
                return Some(&e.1);
            }
            i = i + 1;
        }
        proof {
            lemma_pairs_to_map_contains(self.seq_view(), block@);
        }
        None
    }

    /// Whether the table knows a recipe for `block`. Pure read.
    pub fn contains_block(&self, block: &String) -> (r: bool)
        requires
            self.wf(),
        ensures
            r == self@.contains_key(block@),
    {
        match self.lookup(block) {
            Some(_) => true,
            None => false,
        }
    }
}

} // verus!
