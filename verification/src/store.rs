//! The UTXO store: a finite mapping from coin identifier to coin.
//!
//! The store holds exactly the coins currently unspent and owned by a
//! tracked address, as of the block the wallet believes is canonical.  It
//! is derived state, fully reconstructible by replay, and never the source
//! of truth.  The mathematical model of a store is a `Map<CoinId, Coin>`;
//! the entry order inside the backing vector is invisible at that level,
//! and the sum lemmas below show that balances depend on the map alone.

use vstd::prelude::*;

use crate::address::Address;
use crate::coin::Coin;
use crate::coin::CoinId;

verus! {

/// Whether the identifiers in an entry sequence are pairwise distinct.
pub open spec fn ids_distinct<K, V>(s: Seq<(K, V)>) -> bool {
    forall|i: int, j: int| 0 <= i < j < s.len() ==> s[i].0 != s[j].0
}

/// The mapping that an entry sequence denotes, later entries winning.
pub open spec fn map_of<K, V>(s: Seq<(K, V)>) -> Map<K, V>
    decreases s.len(),
{
    if s.len() == 0 {
        Map::empty()
    } else {
        map_of(s.drop_last()).insert(s.last().0, s.last().1)
    }
}

/// Looks a key up in a map, as an `Option`.
pub open spec fn map_get<K, V>(m: Map<K, V>, id: K) -> Option<V> {
    if m.contains_key(id) {
        Some(m[id])
    } else {
        None
    }
}

/// The total value of all entries.
pub open spec fn sum_all(s: Seq<(CoinId, Coin)>) -> int
    decreases s.len(),
{
    if s.len() == 0 {
        0
    } else {
        sum_all(s.drop_last()) + s.last().1.value
    }
}

/// The total value of the entries owned by `a`.
pub open spec fn sum_owned(s: Seq<(CoinId, Coin)>, a: Address) -> int
    decreases s.len(),
{
    if s.len() == 0 {
        0
    } else {
        sum_owned(s.drop_last(), a) + if s.last().1.owner == a {
            s.last().1.value as int
        } else {
            0
        }
    }
}

/// The coins owned by `a`, as `(identifier, value)` pairs in entry order.
pub open spec fn owned_pairs(s: Seq<(CoinId, Coin)>, a: Address) -> Seq<(CoinId, u64)>
    decreases s.len(),
{
    if s.len() == 0 {
        Seq::empty()
    } else if s.last().1.owner == a {
        owned_pairs(s.drop_last(), a).push((s.last().0, s.last().1.value))
    } else {
        owned_pairs(s.drop_last(), a)
    }
}

/// A key is in the denoted map exactly when some entry carries it.
pub proof fn lemma_map_of_contains<K, V>(s: Seq<(K, V)>, id: K)
    ensures
        map_of(s).contains_key(id) <==> exists|k: int| 0 <= k < s.len() && s[k].0 == id,
    decreases s.len(),
{
    if s.len() > 0 {
        lemma_map_of_contains::<K, V>(s.drop_last(), id);
        if s.last().0 == id {
            assert(s[s.len() - 1].0 == id);
        } else if map_of(s).contains_key(id) {
            let k = choose|k: int| 0 <= k < s.drop_last().len() && s.drop_last()[k].0 == id;
            assert(s[k].0 == id);
        } else if exists|k: int| 0 <= k < s.len() && s[k].0 == id {
            let k = choose|k: int| 0 <= k < s.len() && s[k].0 == id;
            assert(k < s.len() - 1 ==> s.drop_last()[k].0 == id);
        }
    }
}

/// The last entry carrying a key decides that key's value in the map,
/// whether or not earlier entries repeat the key.
pub proof fn lemma_map_of_last<K, V>(s: Seq<(K, V)>, i: int)
    requires
        0 <= i < s.len(),
        forall|k: int| i < k < s.len() ==> s[k].0 != s[i].0,
    ensures
        map_of(s).contains_key(s[i].0),
        map_of(s)[s[i].0] == s[i].1,
    decreases s.len(),
{
    if i == s.len() - 1 {
    } else {
        assert(s.drop_last()[i] == s[i]);
        assert(s[s.len() - 1].0 != s[i].0);
        lemma_map_of_last(s.drop_last(), i);
    }
}

/// Under distinctness, each entry is faithfully reflected in the map.
pub proof fn lemma_map_of_index<K, V>(s: Seq<(K, V)>, i: int)
    requires
        ids_distinct(s),
        0 <= i < s.len(),
    ensures
        map_of(s).contains_key(s[i].0),
        map_of(s)[s[i].0] == s[i].1,
    decreases s.len(),
{
    if i == s.len() - 1 {
    } else {
        assert(ids_distinct(s.drop_last()));
        assert(s.drop_last()[i] == s[i]);
        lemma_map_of_index(s.drop_last(), i);
        assert(s[i].0 != s.last().0);
    }
}

/// Removing the entry at index `i` removes exactly its key from the map.
pub proof fn lemma_map_of_remove<K, V>(s: Seq<(K, V)>, i: int)
    requires
        ids_distinct(s),
        0 <= i < s.len(),
    ensures
        ids_distinct(s.remove(i)),
        map_of(s.remove(i)) =~= map_of(s).remove(s[i].0),
    decreases s.len(),
{
    assert forall|p: int, q: int| 0 <= p < q < s.remove(i).len() implies s.remove(i)[p].0
        != s.remove(i)[q].0 by {
        assert(s.remove(i)[p] == if p < i { s[p] } else { s[p + 1] });
        assert(s.remove(i)[q] == if q < i { s[q] } else { s[q + 1] });
    }
    if i == s.len() - 1 {
        assert(s.remove(i) =~= s.drop_last());
        lemma_map_of_contains(s.drop_last(), s[i].0);
        assert(forall|k: int| 0 <= k < s.drop_last().len() ==> s.drop_last()[k] == s[k]);
        assert(!map_of(s.drop_last()).contains_key(s[i].0));
    } else {
        assert(ids_distinct(s.drop_last()));
        assert(s.drop_last()[i] == s[i]);
        lemma_map_of_remove(s.drop_last(), i);
        assert(s.remove(i).drop_last() =~= s.drop_last().remove(i));
        assert(s.remove(i).last() == s.last());
    }
}

/// Removing the entry at index `i` lowers the sums by its contribution.
pub proof fn lemma_sums_remove(s: Seq<(CoinId, Coin)>, i: int, a: Address)
    requires
        0 <= i < s.len(),
    ensures
        sum_all(s.remove(i)) == sum_all(s) - s[i].1.value,
        sum_owned(s.remove(i), a) == sum_owned(s, a) - if s[i].1.owner == a {
            s[i].1.value as int
        } else {
            0
        },
    decreases s.len(),
{
    if i == s.len() - 1 {
        assert(s.remove(i) =~= s.drop_last());
    } else {
        assert(s.remove(i).drop_last() =~= s.drop_last().remove(i));
        assert(s.remove(i).last() == s.last());
        assert(s.drop_last()[i] == s[i]);
        lemma_sums_remove(s.drop_last(), i, a);
    }
}

/// Two distinct-id entry sequences denoting the same map have the same
/// sums: balances are a function of the store's mathematical model alone.
pub proof fn lemma_sums_of_equal_maps(s1: Seq<(CoinId, Coin)>, s2: Seq<(CoinId, Coin)>, a: Address)
    requires
        ids_distinct(s1),
        ids_distinct(s2),
        map_of(s1) == map_of(s2),
    ensures
        sum_all(s1) == sum_all(s2),
        sum_owned(s1, a) == sum_owned(s2, a),
    decreases s1.len(),
{
    if s1.len() == 0 {
        if s2.len() > 0 {
            lemma_map_of_index(s2, 0);
        }
    } else {
        let p = s1.last();
        lemma_map_of_index(s1, s1.len() - 1);
        lemma_map_of_contains(s2, p.0);
        let j = choose|k: int| 0 <= k < s2.len() && s2[k].0 == p.0;
        lemma_map_of_index(s2, j);
        assert(s2[j].1 == p.1);
        lemma_map_of_remove(s2, j);
        assert(ids_distinct(s1.drop_last()));
        lemma_map_of_contains(s1.drop_last(), p.0);
        assert(forall|k: int| 0 <= k < s1.drop_last().len() ==> s1.drop_last()[k] == s1[k]);
        assert(!map_of(s1.drop_last()).contains_key(p.0));
        assert(map_of(s1.drop_last()) =~= map_of(s1).remove(p.0));
        lemma_sums_of_equal_maps(s1.drop_last(), s2.remove(j), a);
        lemma_sums_remove(s2, j, a);
    }
}

/// Sums are nonnegative, and the owned part never exceeds the whole.
pub proof fn lemma_sums_bounds(s: Seq<(CoinId, Coin)>, a: Address)
    ensures
        0 <= sum_owned(s, a) <= sum_all(s),
    decreases s.len(),
{
    if s.len() > 0 {
        lemma_sums_bounds(s.drop_last(), a);
    }
}

/// Prefix sums never exceed the sum of the whole sequence.
pub proof fn lemma_sums_prefix(s: Seq<(CoinId, Coin)>, i: int, a: Address)
    requires
        0 <= i <= s.len(),
    ensures
        sum_all(s.take(i)) <= sum_all(s),
        sum_owned(s.take(i), a) <= sum_owned(s, a),
    decreases s.len(),
{
    if i == s.len() {
        assert(s.take(i) =~= s);
    } else if s.len() > 0 {
        assert(s.drop_last().take(i) =~= s.take(i));
        lemma_sums_prefix(s.drop_last(), i, a);
    }
}

/// The UTXO store: coin identifier to coin, backed by a vector whose
/// entries carry pairwise distinct identifiers.
pub struct CoinStore {
    pub entries: Vec<(CoinId, Coin)>,
}

impl View for CoinStore {
    type V = Map<CoinId, Coin>;

    open spec fn view(&self) -> Map<CoinId, Coin> {
        map_of(self.entries@)
    }
}

impl CoinStore {
    /// Well-formedness: no two entries share an identifier.
    pub open spec fn wf(&self) -> bool {
        ids_distinct(self.entries@)
    }

    /// Creates an empty store.
    pub fn new() -> (r: CoinStore)
        ensures
            r.wf(),
            r@ == Map::<CoinId, Coin>::empty(),
            r.entries@.len() == 0,
    {
        CoinStore { entries: Vec::new() }
    }

    /// The number of coins held.
    pub fn len(&self) -> (r: usize)
        ensures
            r == self.entries@.len(),
    {
        self.entries.len()
    }

    /// Finds the index of the entry carrying `id`, if any.
    fn position(&self, id: CoinId) -> (r: Option<usize>)
        ensures
            match r {
                Some(i) => i < self.entries@.len() && self.entries@[i as int].0 == id,
                None => forall|k: int| 0 <= k < self.entries@.len() ==> self.entries@[k].0 != id,
            },
    {
        let mut i: usize = 0;
        while i < self.entries.len()
            invariant
                i <= self.entries@.len(),
                forall|k: int| 0 <= k < i ==> self.entries@[k].0 != id,
            decreases self.entries@.len() - i,
        {
            if self.entries[i].0.0 == id.0 {
                assert(self.entries@[i as int].0 == id);
                return Some(i);
            }
            i = i + 1;
        }
        None
    }

    /// Looks a coin up by its identifier.
    pub fn get(&self, id: CoinId) -> (r: Option<Coin>)
        requires
            self.wf(),
        ensures
            r == map_get(self@, id),
    {
        match self.position(id) {
            Some(i) => {
                proof {
                    lemma_map_of_index(self.entries@, i as int);
                }
                Some(self.entries[i].1)
            },
            None => {
                proof {
                    lemma_map_of_contains(self.entries@, id);
                }
                None
            },
        }
    }

    /// Inserts a coin under an identifier, replacing any previous entry.
    pub fn insert(&mut self, id: CoinId, coin: Coin)
        requires
            old(self).wf(),
        ensures
            final(self).wf(),
            final(self)@ == old(self)@.insert(id, coin),
    {
        let _ = self.remove(id);
        let ghost s = self.entries@;
        self.entries.push((id, coin));
        proof {
            assert(self.entries@.drop_last() =~= s);
            assert(self.entries@.last() == (id, coin));
            assert(forall|k: int| 0 <= k < s.len() ==> s[k].0 != id);
            assert(ids_distinct(self.entries@));
            assert(map_of(self.entries@) =~= old(self)@.insert(id, coin));
        }
    }

    /// Removes and returns the coin under an identifier, if present.
    pub fn remove(&mut self, id: CoinId) -> (r: Option<Coin>)
        requires
            old(self).wf(),
        ensures
            final(self).wf(),
            final(self)@ == old(self)@.remove(id),
            r == map_get(old(self)@, id),
            forall|k: int|
                0 <= k < final(self).entries@.len() ==> final(self).entries@[k].0 != id,
    {
        let ghost s = self.entries@;
        match self.position(id) {
            Some(i) => {
                proof {
                    lemma_map_of_index(s, i as int);
                    lemma_map_of_remove(s, i as int);
                }
                let p = self.entries.remove(i);
                assert(forall|k: int|
                    0 <= k < self.entries@.len() ==> self.entries@[k] == (if k < i {
                        s[k]
                    } else {
                        s[k + 1]
                    }));
                Some(p.1)
            },
            None => {
                proof {
                    lemma_map_of_contains(s, id);
                    assert(map_of(s) =~= map_of(s).remove(id));
                }
                None
            },
        }
    }

    /// Sums the values of the coins owned by `a`.
    pub fn sum_owned_of(&self, a: &Address) -> (r: u64)
        requires
            sum_owned(self.entries@, *a) <= u64::MAX,
        ensures
            r as int == sum_owned(self.entries@, *a),
    {
        let s = &self.entries;
        let mut acc: u64 = 0;
        let mut i: usize = 0;
        while i < s.len()
            invariant
                i <= s@.len(),
                acc as int == sum_owned(s@.take(i as int), *a),
                sum_owned(s@, *a) <= u64::MAX,
            decreases s@.len() - i,
        {
            assert(s@.take(i + 1).drop_last() =~= s@.take(i as int));
            assert(s@.take(i + 1).last() == s@[i as int]);
            proof {
                lemma_sums_prefix(s@, i + 1, *a);
                lemma_sums_bounds(s@.take(i as int), *a);
            }
            if s[i].1.owner == *a {
                acc = acc + s[i].1.value;
            }
            i = i + 1;
        }
        assert(s@.take(s@.len() as int) =~= s@);
        acc
    }

    /// Sums the values of all coins held, whoever owns them.
    pub fn sum_total(&self) -> (r: u64)
        requires
            sum_all(self.entries@) <= u64::MAX,
        ensures
            r as int == sum_all(self.entries@),
    {
        let s = &self.entries;
        let mut acc: u64 = 0;
        let mut i: usize = 0;
        while i < s.len()
            invariant
                i <= s@.len(),
                acc as int == sum_all(s@.take(i as int)),
                sum_all(s@) <= u64::MAX,
            decreases s@.len() - i,
        {
            assert(s@.take(i + 1).drop_last() =~= s@.take(i as int));
            assert(s@.take(i + 1).last() == s@[i as int]);
            proof {
                // Only the whole-sum part of these lemmas is used here.
                lemma_sums_prefix(s@, i + 1, Address::Alice);
                lemma_sums_bounds(s@.take(i as int), Address::Alice);
            }
            acc = acc + s[i].1.value;
            i = i + 1;
        }
        assert(s@.take(s@.len() as int) =~= s@);
        acc
    }

    /// Collects the coins owned by `a` as `(identifier, value)` pairs.
    pub fn collect_owned(&self, a: &Address) -> (r: Vec<(CoinId, u64)>)
        ensures
            r@ == owned_pairs(self.entries@, *a),
    {
        let s = &self.entries;
        let mut out: Vec<(CoinId, u64)> = Vec::new();
        let mut i: usize = 0;
        while i < s.len()
            invariant
                i <= s@.len(),
                out@ == owned_pairs(s@.take(i as int), *a),
            decreases s@.len() - i,
        {
            assert(s@.take(i + 1).drop_last() =~= s@.take(i as int));
            assert(s@.take(i + 1).last() == s@[i as int]);
            if s[i].1.owner == *a {
                out.push((s[i].0, s[i].1.value));
            }
            i = i + 1;
        }
        assert(s@.take(s@.len() as int) =~= s@);
        out
    }

    /// Computes the pairs of this store that `other` no longer maps the
    /// same way: the exact half-delta between the two stores.
    pub fn changed_from(&self, other: &CoinStore) -> (r: Vec<(CoinId, Coin)>)
        requires
            self.wf(),
            other.wf(),
        ensures
            ids_distinct(r@),
            forall|k: int|
                0 <= k < r@.len() ==> map_get(self@, (#[trigger] r@[k]).0) == Some(r@[k].1)
                    && map_get(other@, r@[k].0) != Some(r@[k].1),
            forall|id: CoinId|
                self@.contains_key(id) && map_get(other@, id) != Some(self@[id]) ==> exists|k: int|
                    0 <= k < r@.len() && (#[trigger] r@[k]).0 == id,
    {
        let mut out: Vec<(CoinId, Coin)> = Vec::new();
        let mut i: usize = 0;
        while i < self.entries.len()
            invariant
                self.wf(),
                other.wf(),
                i <= self.entries@.len(),
                forall|k: int|
                    0 <= k < out@.len() ==> exists|j: int|
                        0 <= j < i && (#[trigger] out@[k]).0 == self.entries@[j].0,
                forall|k: int|
                    0 <= k < out@.len() ==> map_get(self@, (#[trigger] out@[k]).0) == Some(
                        out@[k].1,
                    ) && map_get(other@, out@[k].0) != Some(out@[k].1),
                ids_distinct(out@),
                forall|j: int|
                    0 <= j < i && map_get(other@, (#[trigger] self.entries@[j]).0) != Some(
                        self.entries@[j].1,
                    ) ==> exists|k: int| 0 <= k < out@.len() && out@[k].0 == self.entries@[j].0,
            decreases self.entries@.len() - i,
        {
            let (id, c) = self.entries[i];
            proof {
                lemma_map_of_index(self.entries@, i as int);
                assert(map_get(self@, id) == Some(c));
            }
            let keep = match other.get(id) {
                Some(c2) => c2.value != c.value || c2.owner != c.owner,
                None => true,
            };
            if keep {
                proof {
                    assert(map_get(other@, id) != Some(c));
                }
                let ghost prev = out@;
                out.push((id, c));
                proof {
                    assert(out@.last() == (id, c));
                    assert forall|k1: int, k2: int|
                        0 <= k1 < k2 < out@.len() implies out@[k1].0 != out@[k2].0 by {
                        if k2 == out@.len() - 1 {
                            let j = choose|j: int|
                                0 <= j < i && (#[trigger] prev[k1]).0 == self.entries@[j].0;
                            assert(self.entries@[j].0 != self.entries@[i as int].0);
                        }
                    }
                    assert forall|j: int|
                        0 <= j <= i && map_get(other@, (#[trigger] self.entries@[j]).0) != Some(
                            self.entries@[j].1,
                        ) implies exists|k: int|
                        0 <= k < out@.len() && out@[k].0 == self.entries@[j].0 by {
                        if j < i {
                            let k = choose|k: int|
                                0 <= k < prev.len() && prev[k].0 == self.entries@[j].0;
                            assert(out@[k].0 == self.entries@[j].0);
                        } else {
                            assert(out@[out@.len() - 1].0 == self.entries@[j].0);
                        }
                    }
                }
            } else {
                proof {
                    assert(map_get(other@, id) == Some(c));
                }
            }
            i = i + 1;
        }
        proof {
            assert forall|id: CoinId|
                self@.contains_key(id) && map_get(other@, id) != Some(self@[id]) implies exists|
                k: int,
            |
                0 <= k < out@.len() && (#[trigger] out@[k]).0 == id by {
                lemma_map_of_contains(self.entries@, id);
                let j = choose|j: int|
                    0 <= j < self.entries@.len() && (#[trigger] self.entries@[j]).0 == id;
                lemma_map_of_index(self.entries@, j);
                assert(map_get(other@, self.entries@[j].0) != Some(self.entries@[j].1));
            }
        }
        out
    }

    /// Reverses one recorded block application: deletes every identifier
    /// the block inserted, then restores every pair it removed.
    pub fn apply_undo(&mut self, inserted: &Vec<(CoinId, Coin)>, removed: &Vec<(CoinId, Coin)>)
        requires
            old(self).wf(),
        ensures
            final(self).wf(),
            final(self)@ == crate::apply::undo_apply(old(self)@, inserted@, removed@),
    {
        let mut i: usize = 0;
        while i < inserted.len()
            invariant
                self.wf(),
                i <= inserted@.len(),
                self@ == crate::apply::remove_ids(old(self)@, inserted@.take(i as int)),
            decreases inserted@.len() - i,
        {
            assert(inserted@.take(i + 1).drop_last() =~= inserted@.take(i as int));
            assert(inserted@.take(i + 1).last() == inserted@[i as int]);
            let _ = self.remove(inserted[i].0);
            i = i + 1;
        }
        assert(inserted@.take(inserted@.len() as int) =~= inserted@);
        let ghost mid = self@;
        let mut j: usize = 0;
        while j < removed.len()
            invariant
                self.wf(),
                j <= removed@.len(),
                self@ == crate::apply::insert_pairs(mid, removed@.take(j as int)),
            decreases removed@.len() - j,
        {
            assert(removed@.take(j + 1).drop_last() =~= removed@.take(j as int));
            assert(removed@.take(j + 1).last() == removed@[j as int]);
            self.insert(removed[j].0, removed[j].1);
            j = j + 1;
        }
        assert(removed@.take(removed@.len() as int) =~= removed@);
    }

    /// Returns an identical copy of this store.
    pub fn duplicate(&self) -> (r: CoinStore)
        ensures
            r.entries@ == self.entries@,
    {
        let mut entries: Vec<(CoinId, Coin)> = Vec::new();
        let mut i: usize = 0;
        while i < self.entries.len()
            invariant
                i <= self.entries@.len(),
                entries@ =~= self.entries@.take(i as int),
            decreases self.entries@.len() - i,
        {
            entries.push(self.entries[i]);
            i = i + 1;
        }
        assert(entries@ =~= self.entries@);
        CoinStore { entries }
    }
}

} // verus!
