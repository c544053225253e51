//! A byte-weighted least-frequently-used cache of entities, the cache that
//! spans a deployment's run and is read through between blocks.
use vstd::prelude::*;
use crate::entity::{Entity, EntityKey, EntityView, KeyView, value_view, value_weight, weight_of};

verus! {

/// One cached value, with its weight, how often it was used and when it was
/// last used.
pub struct LfuEntry {
    pub key: EntityKey,
    pub value: Option<Entity>,
    pub weight: u64,
    pub frequency: u64,
    pub last_used: u64,
}

/// The sum of the weights of a sequence of entries.
pub open spec fn sum_weights(s: Seq<LfuEntry>) -> nat
    decreases s.len(),
{
    if s.len() == 0 {
        0
    } else {
        sum_weights(s.drop_last()) + s.last().weight as nat
    }
}

/// The sum of the weights of the values that `m` holds for `keys`.
pub open spec fn weight_sum(m: Map<KeyView, Option<EntityView>>, keys: Seq<KeyView>) -> nat
    decreases keys.len(),
{
    if keys.len() == 0 {
        0
    } else {
        weight_sum(m, keys.drop_last()) + value_weight(m[keys.last()])
    }
}

/// A use count after one more use; it stops at the largest `u64`.
pub open spec fn bumped(f: nat) -> nat {
    if f < u64::MAX { f + 1 } else { f }
}

/// Eviction order: `(f1, t1)` leaves no later than `(f2, t2)` when it was used
/// less often, or as often and less recently.
pub open spec fn evicts_before(f1: nat, t1: nat, f2: nat, t2: nat) -> bool {
    f1 < f2 || (f1 == f2 && t1 <= t2)
}

/// `after` is `before` evicted down to `max`: within the budget, holding
/// values of `before` with their use counts, having dropped only values used
/// no more than (and among equals, no later than) every value kept, and
/// having stopped as soon as the budget was met.
pub open spec fn evicted(before: EntityLfuCache, after: EntityLfuCache, max: u64) -> bool {
    &&& after.total_weight_spec() <= max
    &&& before.total_weight_spec() <= max ==> after@ == before@
    &&& after@.submap_of(before@)
    &&& forall|k: KeyView|
        #[trigger] after@.contains_key(k) ==> after.frequency(k) == before.frequency(k)
            && after.last_used(k) == before.last_used(k)
    &&& forall|k1: KeyView, k2: KeyView|
        before@.contains_key(k1) && !(#[trigger] after@.contains_key(k1))
            && #[trigger] after@.contains_key(k2) ==> evicts_before(
            before.frequency(k1),
            before.last_used(k1),
            before.frequency(k2),
            before.last_used(k2),
        )
    &&& before.total_weight_spec() > max ==> exists|k: KeyView|
        before@.contains_key(k) && !after@.contains_key(k) && #[trigger] before.weight(k)
            + after.total_weight_spec() > max
}

proof fn lemma_sum_remove(s: Seq<LfuEntry>, i: int)
    requires
        0 <= i < s.len(),
    ensures
        sum_weights(s.remove(i)) + s[i].weight == sum_weights(s),
    decreases s.len(),
{
    if i == s.len() - 1 {
        assert(s.remove(i) =~= s.drop_last());
    } else {
        lemma_sum_remove(s.drop_last(), i);
        assert(s.remove(i).drop_last() =~= s.drop_last().remove(i));
    }
}

proof fn lemma_sum_update(s: Seq<LfuEntry>, i: int, e: LfuEntry)
    requires
        0 <= i < s.len(),
    ensures
        sum_weights(s.update(i, e)) + s[i].weight == sum_weights(s) + e.weight,
    decreases s.len(),
{
    if i == s.len() - 1 {
        assert(s.update(i, e).drop_last() =~= s.drop_last());
    } else {
        lemma_sum_update(s.drop_last(), i, e);
        assert(s.update(i, e).drop_last() =~= s.drop_last().update(i, e));
    }
}

proof fn lemma_sum_bound(s: Seq<LfuEntry>)
    ensures
        sum_weights(s) <= s.len() * (u64::MAX as nat),
    decreases s.len(),
{
    if s.len() > 0 {
        lemma_sum_bound(s.drop_last());
        assert(sum_weights(s) <= s.len() * (u64::MAX as nat)) by (nonlinear_arith)
            requires
                sum_weights(s) == sum_weights(s.drop_last()) + s.last().weight,
                sum_weights(s.drop_last()) <= (s.len() - 1) * (u64::MAX as nat),
                s.last().weight <= u64::MAX,
        ;
    }
}

proof fn lemma_total_fits(s: Seq<LfuEntry>)
    requires
        s.len() <= usize::MAX,
    ensures
        sum_weights(s) + u64::MAX <= u128::MAX,
{
    lemma_sum_bound(s);
    assert(s.len() * (u64::MAX as nat) + u64::MAX <= u128::MAX) by (nonlinear_arith)
        requires
            s.len() <= usize::MAX,
            usize::MAX <= u64::MAX,
    ;
}

/// A byte-weighted LFU cache from entity keys to values, where `None` records
/// that an entity is known to be absent.
pub struct EntityLfuCache {
    entries: Vec<LfuEntry>,
    total: u128,
    clock: u64,
}

impl EntityLfuCache {
    /// Keys are unique, each entry's weight is that of its value, and the
    /// running total is the sum of the weights.
    pub closed spec fn wf(&self) -> bool {
        &&& forall|i: int, j: int|
            0 <= i < j < self.entries@.len() ==> (#[trigger] self.entries@[i]).key@
                != (#[trigger] self.entries@[j]).key@
        &&& forall|i: int|
            0 <= i < self.entries@.len() ==> (#[trigger] self.entries@[i]).weight as nat
                == value_weight(value_view(self.entries@[i].value))
        &&& self.total as nat == sum_weights(self.entries@)
    }

    /// Whether the cache holds a value for `k`.
    pub closed spec fn has(&self, k: KeyView) -> bool {
        exists|i: int| 0 <= i < self.entries@.len() && (#[trigger] self.entries@[i]).key@ == k
    }

    closed spec fn index_of(&self, k: KeyView) -> int {
        choose|i: int| 0 <= i < self.entries@.len() && (#[trigger] self.entries@[i]).key@ == k
    }

    /// How often the value for `k` has been used.
    pub closed spec fn frequency(&self, k: KeyView) -> nat {
        self.entries@[self.index_of(k)].frequency as nat
    }

    /// The weight of the value for `k`.
    pub closed spec fn weight(&self, k: KeyView) -> nat {
        self.entries@[self.index_of(k)].weight as nat
    }

    /// When the value for `k` was last used.
    pub closed spec fn last_used(&self, k: KeyView) -> nat {
        self.entries@[self.index_of(k)].last_used as nat
    }

    /// The total weight of the cached values.
    pub closed spec fn total_weight_spec(&self) -> nat {
        sum_weights(self.entries@)
    }

    /// The number of cached values.
    pub closed spec fn len_spec(&self) -> nat {
        self.entries@.len()
    }

    /// The cache as a map from keys to values.
    pub closed spec fn view(&self) -> Map<KeyView, Option<EntityView>> {
        Map::new(|k: KeyView| self.has(k), |k: KeyView| value_view(self.entries@[self.index_of(k)].value))
    }

    proof fn lemma_index_of(&self, i: int)
        requires
            self.wf(),
            0 <= i < self.entries@.len(),
        ensures
            self.has(self.entries@[i].key@),
            self.index_of(self.entries@[i].key@) == i,
    {
        let k = self.entries@[i].key@;
        assert(self.has(k));
        let j = self.index_of(k);
        if j != i {
            if j < i {
                assert(self.entries@[j].key@ != self.entries@[i].key@);
            } else {
                assert(self.entries@[i].key@ != self.entries@[j].key@);
            }
        }
    }

    /// An empty cache.
    pub fn new() -> (r: EntityLfuCache)
        ensures
            r.wf(),
            r@ == Map::<KeyView, Option<EntityView>>::empty(),
            r.total_weight_spec() == 0,
            r.len_spec() == 0,
    {
        let r = EntityLfuCache { entries: Vec::new(), total: 0, clock: 0 };
        assert(r@ =~= Map::<KeyView, Option<EntityView>>::empty());
        r
    }

    pub fn is_empty(&self) -> (r: bool)
        requires
            self.wf(),
        ensures
            r == (self@ == Map::<KeyView, Option<EntityView>>::empty()),
    {
        if self.entries.len() == 0 {
            assert(self@ =~= Map::<KeyView, Option<EntityView>>::empty());
            true
        } else {
            proof {
                self.lemma_index_of(0);
                assert(self@.contains_key(self.entries@[0].key@));
            }
            false
        }
    }

    pub fn len(&self) -> (r: usize)
        ensures
            r == self.len_spec(),
    {
        self.entries.len()
    }

    /// The total weight of the cached values.
    pub fn total_weight(&self) -> (r: u128)
        requires
            self.wf(),
        ensures
            r == self.total_weight_spec(),
    {
        self.total
    }

    fn find(&self, key: &EntityKey) -> (r: Option<usize>)
        requires
            self.wf(),
        ensures
            match r {
                Some(i) => i < self.entries@.len() && self.entries@[i as int].key@ == key@
                    && self.has(key@) && self.index_of(key@) == i,
                None => !self.has(key@),
            },
    {
        let mut i: usize = 0;
        while i < self.entries.len()
            invariant
                self.wf(),
                i <= self.entries.len(),
                forall|j: int| 0 <= j < i ==> (#[trigger] self.entries@[j]).key@ != key@,
            decreases self.entries.len() - i,
        {
            if self.entries[i].key.same(key) {
                proof { self.lemma_index_of(i as int); }
                return Some(i);
            }
            i = i + 1;
        }
        None
    }

    /// Looks `key` up. A hit counts as a use of the value. `None` means that
    /// the cache knows nothing of the key; `Some(None)` that the entity is
    /// known to be absent.
    pub fn get(&mut self, key: &EntityKey) -> (r: Option<Option<Entity>>)
        requires
            old(self).wf(),
        ensures
            final(self).wf(),
            final(self)@ == old(self)@,
            final(self).total_weight_spec() == old(self).total_weight_spec(),
            match r {
                Some(v) => old(self)@.contains_key(key@) && value_view(v) == old(self)@[key@],
                None => !old(self)@.contains_key(key@),
            },
            r is Some ==> final(self).frequency(key@) == bumped(old(self).frequency(key@)),
            forall|k: KeyView|
                #[trigger] final(self)@.contains_key(k) && k != key@ ==> final(self).frequency(k)
                    == old(self).frequency(k) && final(self).last_used(k) == old(self).last_used(k),
            r is None ==> *final(self) == *old(self),
    {
        match self.find(key) {
            None => None,
            Some(i) => {
                let ghost before = *self;
                let v = match &self.entries[i].value {
                    Some(e) => Some(e.duplicate()),
                    None => None,
                };
                let clock = self.clock;
                self.clock = self.clock.saturating_add(1);
                let e = LfuEntry {
                    key: self.entries[i].key.duplicate(),
                    value: match &self.entries[i].value {
                        Some(e) => Some(e.duplicate()),
                        None => None,
                    },
                    weight: self.entries[i].weight,
                    frequency: self.entries[i].frequency.saturating_add(1),
                    last_used: clock,
                };
                proof {
                    lemma_sum_update(self.entries@, i as int, e);
                }
                self.entries.set(i, e);
                proof {
                    assert forall|a: int, b: int|
                        0 <= a < b < self.entries@.len() implies (#[trigger] self.entries@[a]).key@
                        != (#[trigger] self.entries@[b]).key@ by {
                        assert(before.entries@[a].key@ != before.entries@[b].key@);
                    }
                    self.lemma_view_after_set(before, i as int);
                }
                Some(v)
            },
        }
    }

    proof fn lemma_view_after_set(&self, before: EntityLfuCache, i: int)
        requires
            before.wf(),
            self.wf(),
            0 <= i < before.entries@.len(),
            self.entries@ == before.entries@.update(i, self.entries@[i]),
            self.entries@[i].key@ == before.entries@[i].key@,
        ensures
            self@ == before@.insert(before.entries@[i].key@, value_view(self.entries@[i].value)),
            self.frequency(before.entries@[i].key@) == self.entries@[i].frequency,
            self.last_used(before.entries@[i].key@) == self.entries@[i].last_used,
            forall|k: KeyView|
                #[trigger] self.has(k) && k != before.entries@[i].key@ ==> self.frequency(k)
                    == before.frequency(k) && self.last_used(k) == before.last_used(k),
    {
        let k0 = before.entries@[i].key@;
        assert forall|k: KeyView| self.has(k) == (before.has(k) || k == k0) by {
            if self.has(k) {
                let j = self.index_of(k);
                if j != i {
                    assert(before.entries@[j].key@ == k);
                }
            }
            if before.has(k) {
                let j = before.index_of(k);
                assert(self.entries@[j].key@ == k);
            }
            if k == k0 {
                assert(self.entries@[i].key@ == k);
            }
        }
        assert forall|k: KeyView| #[trigger] self.has(k) implies self.index_of(k)
            == before.index_of(k) || k == k0 by {
            let j = self.index_of(k);
            self.lemma_index_of(j);
            if j != i {
                assert(before.entries@[j].key@ == k);
                before.lemma_index_of(j);
            }
        }
        self.lemma_index_of(i);
        assert(self@ =~= before@.insert(k0, value_view(self.entries@[i].value)));
        assert forall|k: KeyView| #[trigger] self.has(k) && k != k0 implies self.frequency(k)
            == before.frequency(k) && self.last_used(k) == before.last_used(k) by {
            let j = self.index_of(k);
            self.lemma_index_of(j);
            assert(j != i);
            assert(before.entries@[j].key@ == k);
            before.lemma_index_of(j);
        }
    }

    /// Records `value` for `key`, as a use of it.
    pub fn insert(&mut self, key: EntityKey, value: Option<Entity>)
        requires
            old(self).wf(),
        ensures
            final(self).wf(),
            final(self)@ == old(self)@.insert(key@, value_view(value)),
            old(self)@.contains_key(key@) ==> final(self).frequency(key@) == bumped(old(self).frequency(key@)),
            !old(self)@.contains_key(key@) ==> final(self).frequency(key@) == 1,
            forall|k: KeyView|
                #[trigger] final(self)@.contains_key(k) && k != key@ ==> final(self).frequency(k)
                    == old(self).frequency(k) && final(self).last_used(k) == old(self).last_used(k),
    {
        let ghost before = *self;
        let weight = weight_of(&value);
        let clock = self.clock;
        self.clock = self.clock.saturating_add(1);
        let _n = self.entries.len();
        match self.find(&key) {
            Some(i) => {
                let old_weight = self.entries[i].weight;
                let e = LfuEntry {
                    key,
                    value,
                    weight,
                    frequency: self.entries[i].frequency.saturating_add(1),
                    last_used: clock,
                };
                proof {
                    lemma_sum_update(self.entries@, i as int, e);
                    lemma_sum_remove(self.entries@, i as int);
                    lemma_total_fits(self.entries@);
                }
                self.total = self.total - old_weight as u128 + weight as u128;
                self.entries.set(i, e);
                proof {
                    assert forall|a: int, b: int|
                        0 <= a < b < self.entries@.len() implies (#[trigger] self.entries@[a]).key@
                        != (#[trigger] self.entries@[b]).key@ by {
                        assert(before.entries@[a].key@ != before.entries@[b].key@);
                    }
                    self.lemma_view_after_set(before, i as int);
                }
            },
            None => {
                proof {
                    lemma_total_fits(self.entries@);
                    assert(self.entries@.push(LfuEntry {
                        key,
                        value,
                        weight,
                        frequency: 1,
                        last_used: clock,
                    }).drop_last() =~= self.entries@);
                }
                self.total = self.total + weight as u128;
                let ghost k0 = key@;
                let ghost v0 = value_view(value);
                self.entries.push(LfuEntry { key, value, weight, frequency: 1, last_used: clock });
                proof {
                    let n = before.entries@.len() as int;
                    assert(self.entries@[n].key@ == k0);
                    assert forall|a: int, b: int|
                        0 <= a < b < self.entries@.len() implies (#[trigger] self.entries@[a]).key@
                        != (#[trigger] self.entries@[b]).key@ by {
                        if b < n {
                            assert(before.entries@[a].key@ != before.entries@[b].key@);
                        } else {
                            assert(before.entries@[a].key@ == self.entries@[a].key@);
                        }
                    }
                    assert forall|k: KeyView| self.has(k) == (before.has(k) || k == k0) by {
                        if self.has(k) {
                            let j = self.index_of(k);
                            if j != n {
                                assert(before.entries@[j].key@ == k);
                            }
                        }
                        if before.has(k) {
                            let j = before.index_of(k);
                            assert(self.entries@[j].key@ == k);
                        }
                        if k == k0 {
                            assert(self.entries@[n].key@ == k);
                        }
                    }
                    assert forall|k: KeyView| #[trigger] self.has(k) && k != k0 implies self.index_of(k)
                        == before.index_of(k) by {
                        let j = self.index_of(k);
                        self.lemma_index_of(j);
                        assert(before.entries@[j].key@ == k);
                        before.lemma_index_of(j);
                    }
                    self.lemma_index_of(n);
                    assert(self@ =~= before@.insert(k0, v0));
                    assert(!before.has(k0));
                }
            },
        }
    }
    proof fn lemma_after_remove(&self, before: EntityLfuCache, m: int)
        requires
            before.wf(),
            0 <= m < before.entries@.len(),
            self.entries@ == before.entries@.remove(m),
            self.total as nat == sum_weights(self.entries@),
        ensures
            self.wf(),
            forall|k: KeyView| #[trigger] self.has(k) == (before.has(k) && k != before.entries@[m].key@),
            forall|k: KeyView|
                #[trigger] self.has(k) ==> self@[k] == before@[k] && self.frequency(k)
                    == before.frequency(k) && self.last_used(k) == before.last_used(k)
                    && self.weight(k) == before.weight(k),
    {
        let km = before.entries@[m].key@;
        assert forall|a: int, b: int|
            0 <= a < b < self.entries@.len() implies (#[trigger] self.entries@[a]).key@
            != (#[trigger] self.entries@[b]).key@ by {
            let a0 = if a < m { a } else { a + 1 };
            let b0 = if b < m { b } else { b + 1 };
            assert(self.entries@[a] == before.entries@[a0]);
            assert(self.entries@[b] == before.entries@[b0]);
            assert(before.entries@[a0].key@ != before.entries@[b0].key@);
        }
        assert forall|i: int|
            0 <= i < self.entries@.len() implies (#[trigger] self.entries@[i]).weight as nat
            == value_weight(value_view(self.entries@[i].value)) by {
            let i0 = if i < m { i } else { i + 1 };
            assert(self.entries@[i] == before.entries@[i0]);
        }
        assert forall|k: KeyView| #[trigger] self.has(k) == (before.has(k) && k != km) by {
            if self.has(k) {
                let j = self.index_of(k);
                let j0 = if j < m { j } else { j + 1 };
                assert(self.entries@[j] == before.entries@[j0]);
                before.lemma_index_of(j0);
                if k == km {
                    before.lemma_index_of(m);
                }
            }
            if before.has(k) && k != km {
                let j0 = before.index_of(k);
                let j = if j0 < m { j0 } else { j0 - 1 };
                assert(self.entries@[j] == before.entries@[j0]);
            }
        }
        assert forall|k: KeyView| #[trigger] self.has(k) implies self@[k] == before@[k]
            && self.frequency(k) == before.frequency(k) && self.last_used(k) == before.last_used(
            k,
        ) && self.weight(k) == before.weight(k) by {
            let j = self.index_of(k);
            let j0 = if j < m { j } else { j + 1 };
            assert(self.entries@[j] == before.entries@[j0]);
            before.lemma_index_of(j0);
        }
    }

    fn min_index(&self) -> (r: usize)
        requires
            self.entries@.len() > 0,
        ensures
            r < self.entries@.len(),
            forall|j: int|
                0 <= j < self.entries@.len() ==> evicts_before(
                    self.entries@[r as int].frequency as nat,
                    self.entries@[r as int].last_used as nat,
                    (#[trigger] self.entries@[j]).frequency as nat,
                    self.entries@[j].last_used as nat,
                ),
    {
        let mut best: usize = 0;
        let mut i: usize = 1;
        while i < self.entries.len()
            invariant
                0 < i <= self.entries@.len(),
                best < i,
                forall|j: int|
                    0 <= j < i ==> evicts_before(
                        self.entries@[best as int].frequency as nat,
                        self.entries@[best as int].last_used as nat,
                        (#[trigger] self.entries@[j]).frequency as nat,
                        self.entries@[j].last_used as nat,
                    ),
            decreases self.entries.len() - i,
        {
            let e = &self.entries[i];
            let b = &self.entries[best];
            if e.frequency < b.frequency || (e.frequency == b.frequency && e.last_used
                < b.last_used) {
                best = i;
            }
            i = i + 1;
        }
        best
    }

    /// Removes values, the least frequently used first and among those the
    /// least recently used, until the total weight is at most `max_weight`.
    pub fn evict(&mut self, max_weight: u64)
        requires
            old(self).wf(),
        ensures
            final(self).wf(),
            evicted(*old(self), *final(self), max_weight),
    {
        let ghost start = *self;
        let ghost mut removed_any = false;
        let ghost mut last: KeyView = arbitrary();
        while self.total > max_weight as u128
            invariant
                self.wf(),
                !removed_any ==> self.total_weight_spec() == start.total_weight_spec(),
                removed_any ==> start@.contains_key(last) && !self@.contains_key(last)
                    && self.total_weight_spec() + start.weight(last) > max_weight,
                forall|k: KeyView|
                    #[trigger] self@.contains_key(k) ==> self.weight(k) == start.weight(k),
                self@.submap_of(start@),
                start.total_weight_spec() <= max_weight ==> self@ == start@,
                self.total_weight_spec() <= start.total_weight_spec(),
                forall|k: KeyView|
                    #[trigger] self@.contains_key(k) ==> self.frequency(k) == start.frequency(k)
                        && self.last_used(k) == start.last_used(k),
                forall|k1: KeyView, k2: KeyView|
                    start@.contains_key(k1) && !(#[trigger] self@.contains_key(k1))
                        && #[trigger] self@.contains_key(k2) ==> evicts_before(
                        start.frequency(k1),
                        start.last_used(k1),
                        start.frequency(k2),
                        start.last_used(k2),
                    ),
            decreases self.entries@.len(),
        {
            let ghost before = *self;
            assert(before@.submap_of(start@));
            if self.entries.len() == 0 {
                assert(false);
            }
            let m = self.min_index();
            proof {
                lemma_sum_remove(self.entries@, m as int);
                before.lemma_index_of(m as int);
            }
            self.total = self.total - self.entries[m].weight as u128;
            self.entries.remove(m);
            proof {
                let km = before.entries@[m as int].key@;
                self.lemma_after_remove(before, m as int);
                assert(!self.has(km));
                assert(before@.contains_key(km));
                assert(start@.contains_key(km));
                assert(before.weight(km) == before.entries@[m as int].weight);
                removed_any = true;
                last = km;
                assert(self@.submap_of(before@)) by {
                    assert forall|k: KeyView| #[trigger] self@.dom().contains(k) implies before@.dom().contains(k)
                        && self@[k] == before@[k] by {
                        assert(self.has(k));
                    }
                }
                vstd::map_lib::lemma_submap_of_trans(self@, before@, start@);
                assert forall|k: KeyView| #[trigger] self@.contains_key(k) implies self.frequency(k)
                    == start.frequency(k) && self.last_used(k) == start.last_used(k) && self.weight(k)
                    == start.weight(k) by {
                    assert(self.has(k));
                    assert(before@.contains_key(k));
                }
                assert(self@.submap_of(start@));
                assert forall|k1: KeyView, k2: KeyView|
                    start@.contains_key(k1) && !(#[trigger] self@.contains_key(k1))
                        && #[trigger] self@.contains_key(k2) implies evicts_before(
                        start.frequency(k1),
                        start.last_used(k1),
                        start.frequency(k2),
                        start.last_used(k2),
                    ) by {
                    assert(before@.contains_key(k2));
                    if !before@.contains_key(k1) {
                    } else {
                        assert(k1 == km);
                        let j = before.index_of(k2);
                        before.lemma_index_of(j);
                    }
                }
            }
        }
    }
    /// The cached values as (key, value) pairs, one for each key.
    pub fn into_pairs(self) -> (r: Vec<(EntityKey, Option<Entity>)>)
        requires
            self.wf(),
        ensures
            r@.len() == self.len_spec(),
            forall|i: int, j: int|
                0 <= i < j < r@.len() ==> (#[trigger] r@[i]).0@ != (#[trigger] r@[j]).0@,
            forall|i: int|
                0 <= i < r@.len() ==> self@.contains_key((#[trigger] r@[i]).0@) && self@[r@[i].0@]
                    == value_view(r@[i].1),
            forall|k: KeyView|
                #[trigger] self@.contains_key(k) ==> exists|i: int|
                    0 <= i < r@.len() && (#[trigger] r@[i]).0@ == k,
    {
        let ghost me = self;
        let entries = self.entries;
        let mut r: Vec<(EntityKey, Option<Entity>)> = Vec::new();
        let mut i: usize = 0;
        let n = entries.len();
        while i < n
            invariant
                n == me.entries@.len(),
                i <= n,
                entries@.len() == n,
                forall|j: int|
                    i <= j < n ==> (#[trigger] entries@[j]).key@ == me.entries@[j].key@
                        && value_view(entries@[j].value) == value_view(me.entries@[j].value),
                r@.len() == i,
                forall|j: int|
                    0 <= j < i ==> (#[trigger] r@[j]).0@ == me.entries@[j].key@ && value_view(
                        r@[j].1,
                    ) == value_view(me.entries@[j].value),
            decreases n - i,
        {
            let v = match &entries[i].value {
                Some(e) => Some(e.duplicate()),
                None => None,
            };
            let k = entries[i].key.duplicate();
            r.push((k, v));
            i = i + 1;
        }
        proof {
            assert forall|a: int, b: int| 0 <= a < b < r@.len() implies (#[trigger] r@[a]).0@
                != (#[trigger] r@[b]).0@ by {
                assert(me.entries@[a].key@ != me.entries@[b].key@);
            }
            assert forall|a: int| 0 <= a < r@.len() implies me@.contains_key((#[trigger] r@[a]).0@)
                && me@[r@[a].0@] == value_view(r@[a].1) by {
                me.lemma_index_of(a);
            }
            assert forall|k: KeyView| #[trigger] me@.contains_key(k) implies exists|a: int|
                0 <= a < r@.len() && (#[trigger] r@[a]).0@ == k by {
                let a = me.index_of(k);
                assert(r@[a].0@ == k);
            }
        }
        r
    }
    /// The keys of the cached values, in the cache's order.
    pub closed spec fn keys(&self) -> Seq<KeyView> {
        self.entries@.map_values(|e: LfuEntry| e.key@)
    }

    proof fn lemma_sum_prefix(&self, j: int)
        requires
            self.wf(),
            0 <= j <= self.entries@.len(),
        ensures
            sum_weights(self.entries@.subrange(0, j)) == weight_sum(self@, self.keys().subrange(0, j)),
        decreases j,
    {
        if j > 0 {
            self.lemma_sum_prefix(j - 1);
            assert(self.entries@.subrange(0, j).drop_last() =~= self.entries@.subrange(0, j - 1));
            assert(self.keys().subrange(0, j).drop_last() =~= self.keys().subrange(0, j - 1));
            self.lemma_index_of(j - 1);
            assert(self.keys().subrange(0, j).last() == self.entries@[j - 1].key@);
        }
    }

    /// The total weight is the sum of the weights of the cached values: the
    /// keys are listed once each, and they are exactly the cached keys.
    pub proof fn lemma_total_weight(&self)
        requires
            self.wf(),
        ensures
            self.total_weight_spec() == weight_sum(self@, self.keys()),
            self.keys().no_duplicates(),
            forall|k: KeyView| #[trigger] self@.contains_key(k) <==> self.keys().contains(k),
    {
        self.lemma_sum_prefix(self.entries@.len() as int);
        assert(self.entries@.subrange(0, self.entries@.len() as int) =~= self.entries@);
        assert(self.keys().subrange(0, self.entries@.len() as int) =~= self.keys());
        assert forall|a: int, b: int| 0 <= a < self.keys().len() && 0 <= b < self.keys().len() && a != b
            implies self.keys()[a] != self.keys()[b] by {
            if a < b {
                assert(self.entries@[a].key@ != self.entries@[b].key@);
            } else {
                assert(self.entries@[b].key@ != self.entries@[a].key@);
            }
        }
        assert forall|k: KeyView| #[trigger] self@.contains_key(k) <==> self.keys().contains(k) by {
            if self@.contains_key(k) {
                let i = self.index_of(k);
                assert(self.keys()[i] == k);
            }
            if self.keys().contains(k) {
                let i = choose|i: int| 0 <= i < self.keys().len() && self.keys()[i] == k;
                assert(self.entries@[i].key@ == k);
            }
        }
    }

    /// A cache that holds one value weighs what that value weighs.
    pub proof fn lemma_single_weight(&self, k: KeyView, v: Option<EntityView>)
        requires
            self.wf(),
            self@ == Map::<KeyView, Option<EntityView>>::empty().insert(k, v),
        ensures
            self.total_weight_spec() == value_weight(v),
    {
        self.lemma_total_weight();
        let ks = self.keys();
        assert(self@.contains_key(k));
        assert(ks.contains(k));
        assert forall|i: int| 0 <= i < ks.len() implies ks[i] == k by {
            assert(ks.contains(ks[i]));
            assert(self@.contains_key(ks[i]));
        }
        if ks.len() > 1 {
            assert(ks[0] == ks[1]);
        }
        assert(ks.len() == 1);
        assert(ks.drop_last().len() == 0);
        assert(weight_sum(self@, ks.drop_last()) == 0);
        assert(ks.last() == k);
        assert(self@[k] == v);
        assert(weight_sum(self@, ks) == value_weight(v));
    }
}

/// A cache that holds one value within the budget loses nothing to
/// eviction.
pub proof fn lemma_single_value_survives_eviction(
    before: EntityLfuCache,
    after: EntityLfuCache,
    max: u64,
    k: KeyView,
    v: Option<EntityView>,
)
    requires
        before.wf(),
        before@ == Map::<KeyView, Option<EntityView>>::empty().insert(k, v),
        value_weight(v) <= max,
        evicted(before, after, max),
    ensures
        after@ == before@,
{
    before.lemma_single_weight(k, v);
}

} // verus!
