//! The per-block write buffer over the entity LFU cache.
use vstd::prelude::*;
use crate::data_source::{DataSource, sources_view, SourceView};
use crate::entity::{Entity, EntityKey, EntityView, KeyView, value_view};
use crate::lfu::{EntityLfuCache, bumped};

verus! {

/// A change to the entity store.
pub enum EntityModification {
    Write(EntityKey, Entity),
    Remove(EntityKey),
}

impl EntityModification {
    /// The key that the change is about, and the value it leaves there.
    pub open spec fn view(&self) -> (KeyView, Option<EntityView>) {
        match self {
            EntityModification::Write(k, e) => (k@, Some(e@)),
            EntityModification::Remove(k) => (k@, None),
        }
    }
}

/// What a block leaves behind: the changes to store, the dynamic data sources
/// to persist, and the LFU cache to carry into the next block.
pub struct ModificationsAndCache {
    pub modifications: Vec<EntityModification>,
    pub data_sources: Vec<DataSource>,
    pub entity_lfu_cache: EntityLfuCache,
}

/// Whether one of the first `n` pairs has the key `k`.
spec fn among_first(pairs: Seq<(EntityKey, Option<Entity>)>, n: int, k: KeyView) -> bool {
    exists|a: int| 0 <= a < n && (#[trigger] pairs[a]).0@ == k
}

/// The use count of `k` in the cache a block leaves: a written key counts one
/// more use than the cache below had (one, where it had none); any other
/// key keeps its count.
pub open spec fn committed_frequency(
    lfu: EntityLfuCache,
    updates: Map<KeyView, Option<EntityView>>,
    k: KeyView,
) -> nat {
    if updates.contains_key(k) {
        if lfu@.contains_key(k) {
            bumped(lfu.frequency(k))
        } else {
            1
        }
    } else {
        lfu.frequency(k)
    }
}

/// The writes of one block, buffered above the run's LFU cache. Each key
/// holds the last value written to it (`None` for a removal).
pub struct EntityCache {
    current: EntityLfuCache,
    updates: EntityLfuCache,
    data_sources: Vec<DataSource>,
}

impl EntityCache {
    pub closed spec fn wf(&self) -> bool {
        self.current.wf() && self.updates.wf()
    }

    /// The LFU cache below the buffer.
    pub closed spec fn current_view(&self) -> Map<KeyView, Option<EntityView>> {
        self.current@
    }

    /// The LFU cache below the buffer, with its use counts.
    pub closed spec fn lfu(&self) -> EntityLfuCache {
        self.current
    }

    /// The buffered writes: each written key with its last value.
    pub closed spec fn updates_view(&self) -> Map<KeyView, Option<EntityView>> {
        self.updates@
    }

    /// The dynamic data sources to persist with the block.
    pub closed spec fn data_sources_view(&self) -> Seq<SourceView> {
        sources_view(self.data_sources@)
    }

    /// What the cache knows of every key: the buffered write, else the LFU's value.
    pub open spec fn known(&self) -> Map<KeyView, Option<EntityView>> {
        self.current_view().union_prefer_right(self.updates_view())
    }

    /// A buffer with no writes above `current`.
    pub fn new(current: EntityLfuCache) -> (r: EntityCache)
        requires
            current.wf(),
        ensures
            r.wf(),
            r.current_view() == current@,
            r.updates_view() == Map::<KeyView, Option<EntityView>>::empty(),
            r.data_sources_view() == Seq::<SourceView>::empty(),
    {
        let r = EntityCache { current, updates: EntityLfuCache::new(), data_sources: Vec::new() };
        assert(r.data_sources_view() =~= Seq::<SourceView>::empty());
        r
    }

    /// Reads `key`: the buffered write if there is one, else the LFU's value.
    /// `None` means that neither knows the key and the store must be read.
    pub fn get(&mut self, key: &EntityKey) -> (r: Option<Option<Entity>>)
        requires
            old(self).wf(),
        ensures
            final(self).wf(),
            final(self).current_view() == old(self).current_view(),
            final(self).updates_view() == old(self).updates_view(),
            final(self).data_sources_view() == old(self).data_sources_view(),
            match r {
                Some(v) => old(self).known().contains_key(key@) && value_view(v) == old(
                    self,
                ).known()[key@],
                None => !old(self).known().contains_key(key@),
            },
    {
        match self.updates.get(key) {
            Some(v) => Some(v),
            None => self.current.get(key),
        }
    }

    /// Records in the LFU cache what the store holds for `key`, after a read
    /// that missed both the buffer and the cache.
    pub fn note_store_read(&mut self, key: EntityKey, value: Option<Entity>)
        requires
            old(self).wf(),
        ensures
            final(self).wf(),
            final(self).current_view() == old(self).current_view().insert(key@, value_view(value)),
            final(self).updates_view() == old(self).updates_view(),
            final(self).data_sources_view() == old(self).data_sources_view(),
    {
        self.current.insert(key, value);
    }

    /// Buffers `entity` as the new value of `key`.
    pub fn set(&mut self, key: EntityKey, entity: Entity)
        requires
            old(self).wf(),
        ensures
            final(self).wf(),
            final(self).current_view() == old(self).current_view(),
            final(self).updates_view() == old(self).updates_view().insert(key@, Some(entity@)),
            final(self).data_sources_view() == old(self).data_sources_view(),
    {
        self.updates.insert(key, Some(entity));
    }

    /// Buffers the removal of `key`.
    pub fn remove(&mut self, key: EntityKey)
        requires
            old(self).wf(),
        ensures
            final(self).wf(),
            final(self).current_view() == old(self).current_view(),
            final(self).updates_view() == old(self).updates_view().insert(key@, None),
            final(self).data_sources_view() == old(self).data_sources_view(),
    {
        self.updates.insert(key, None);
    }

    /// Adds a dynamic data source to persist with the block.
    pub fn add_data_source(&mut self, ds: &DataSource)
        requires
            old(self).wf(),
        ensures
            final(self).wf(),
            final(self).current_view() == old(self).current_view(),
            final(self).updates_view() == old(self).updates_view(),
            final(self).data_sources_view() == old(self).data_sources_view().push(ds@),
    {
        let d = ds.duplicate();
        self.data_sources.push(d);
        assert(self.data_sources_view() =~= old(self).data_sources_view().push(ds@));
    }

    /// Turns the buffer into the changes to store, one for each written key
    /// with its last value, the data sources to persist, and the LFU cache
    /// that holds the value of every written key over the cache below.
    pub fn as_modifications(self) -> (r: ModificationsAndCache)
        requires
            self.wf(),
        ensures
            r.entity_lfu_cache.wf(),
            r.entity_lfu_cache@ == self.known(),
            forall|k: KeyView|
                #[trigger] r.entity_lfu_cache@.contains_key(k) ==> r.entity_lfu_cache.frequency(k)
                    == committed_frequency(self.lfu(), self.updates_view(), k),
            sources_view(r.data_sources@) == self.data_sources_view(),
            forall|i: int, j: int|
                0 <= i < j < r.modifications@.len() ==> (#[trigger] r.modifications@[i])@.0
                    != (#[trigger] r.modifications@[j])@.0,
            forall|i: int|
                0 <= i < r.modifications@.len() ==> self.updates_view().contains_key(
                    (#[trigger] r.modifications@[i])@.0,
                ) && self.updates_view()[r.modifications@[i]@.0] == r.modifications@[i]@.1,
            forall|k: KeyView|
                #[trigger] self.updates_view().contains_key(k) ==> exists|i: int|
                    0 <= i < r.modifications@.len() && (#[trigger] r.modifications@[i])@.0 == k,
    {
        let ghost me = self;
        let ghost upd = self.updates@;
        let pairs = self.updates.into_pairs();
        let mut cache = self.current;
        let mut mods: Vec<EntityModification> = Vec::new();
        let mut i: usize = 0;
        while i < pairs.len()
            invariant
                i <= pairs@.len(),
                cache.wf(),
                mods@.len() == i,
                forall|a: int, b: int|
                    0 <= a < b < pairs@.len() ==> (#[trigger] pairs@[a]).0@ != (#[trigger] pairs@[b]).0@,
                forall|a: int|
                    0 <= a < pairs@.len() ==> upd.contains_key((#[trigger] pairs@[a]).0@)
                        && upd[pairs@[a].0@] == value_view(pairs@[a].1),
                forall|a: int|
                    0 <= a < i ==> (#[trigger] mods@[a])@.0 == pairs@[a].0@ && mods@[a]@.1
                        == value_view(pairs@[a].1),
                forall|k: KeyView|
                    #[trigger] cache@.contains_key(k) <==> (me.current_view().contains_key(k)
                        || among_first(pairs@, i as int, k)),
                forall|k: KeyView|
                    #[trigger] cache@.contains_key(k) ==> cache.frequency(k) == if among_first(
                        pairs@,
                        i as int,
                        k,
                    ) {
                        if me.current_view().contains_key(k) {
                            bumped(me.lfu().frequency(k))
                        } else {
                            1
                        }
                    } else {
                        me.lfu().frequency(k)
                    },
                forall|k: KeyView|
                    #[trigger] cache@.contains_key(k) ==> cache@[k] == if among_first(pairs@, i as int, k) {
                        upd[k]
                    } else {
                        me.current_view()[k]
                    },
            decreases pairs@.len() - i,
        {
            let ghost before = cache@;
            let ghost before_c = cache;
            let ghost ki = pairs@[i as int].0@;
            proof {
                if among_first(pairs@, i as int, ki) {
                    let a = choose|a: int| 0 <= a < i && (#[trigger] pairs@[a]).0@ == ki;
                    assert(pairs@[a].0@ != pairs@[i as int].0@);
                }
            }
            let key = pairs[i].0.duplicate();
            let m = match &pairs[i].1 {
                Some(e) => {
                    cache.insert(key, Some(e.duplicate()));
                    EntityModification::Write(pairs[i].0.duplicate(), e.duplicate())
                },
                None => {
                    cache.insert(key, None);
                    EntityModification::Remove(pairs[i].0.duplicate())
                },
            };
            mods.push(m);
            proof {
                assert forall|k: KeyView| #[trigger] among_first(pairs@, i + 1, k) == (among_first(
                    pairs@,
                    i as int,
                    k,
                ) || k == ki) by {
                    if k == ki {
                        assert(pairs@[i as int].0@ == k);
                    }
                    if among_first(pairs@, i + 1, k) {
                        let a = choose|a: int| 0 <= a < i + 1 && (#[trigger] pairs@[a]).0@ == k;
                        if a < i {
                            assert(pairs@[a].0@ == k);
                        }
                    }
                    if among_first(pairs@, i as int, k) {
                        let a = choose|a: int| 0 <= a < i && (#[trigger] pairs@[a]).0@ == k;
                        assert(pairs@[a].0@ == k);
                    }
                }
                assert forall|k: KeyView| #[trigger] cache@.contains_key(k) implies cache@[k] == if among_first(pairs@, i + 1, k) {
                        upd[k]
                    } else {
                        me.current_view()[k]
                    } by {
                    if k != ki {
                        assert(before.contains_key(k));
                    }
                }
                assert forall|k: KeyView| #[trigger] cache@.contains_key(k) implies cache.frequency(k) == if among_first(
                        pairs@,
                        i + 1,
                        k,
                    ) {
                        if me.current_view().contains_key(k) {
                            bumped(me.lfu().frequency(k))
                        } else {
                            1
                        }
                    } else {
                        me.lfu().frequency(k)
                    } by {
                    if k != ki {
                        assert(before.contains_key(k));
                        assert(before_c@.contains_key(k));
                    } else {
                        assert(before_c@.contains_key(ki) == me.current_view().contains_key(ki));
                        if before_c@.contains_key(ki) {
                            assert(before_c.frequency(ki) == me.lfu().frequency(ki));
                        }
                    }
                }
            }
            i = i + 1;
        }
        proof {
            assert forall|k: KeyView| #[trigger] among_first(pairs@, pairs@.len() as int, k)
                == upd.contains_key(k) by {
                if among_first(pairs@, pairs@.len() as int, k) {
                    let a = choose|a: int| 0 <= a < pairs@.len() && (#[trigger] pairs@[a]).0@ == k;
                    assert(upd.contains_key(pairs@[a].0@));
                }
            }
            assert(cache@ =~= me.known());
            assert forall|k: KeyView| #[trigger] cache@.contains_key(k) implies cache.frequency(k)
                == committed_frequency(me.lfu(), me.updates_view(), k) by {
                assert(among_first(pairs@, pairs@.len() as int, k) == upd.contains_key(k));
            }
            assert(upd == me.updates_view());
            assert forall|k: KeyView| #[trigger] me.updates_view().contains_key(k) implies exists|a: int|
                0 <= a < mods@.len() && (#[trigger] mods@[a])@.0 == k by {
                assert(among_first(pairs@, pairs@.len() as int, k));
                let a = choose|a: int| 0 <= a < pairs@.len() && (#[trigger] pairs@[a]).0@ == k;
                assert(mods@[a]@.0 == k);
            }
        }
        let r = ModificationsAndCache {
            modifications: mods,
            data_sources: self.data_sources,
            entity_lfu_cache: cache,
        };
        assert(r.modifications@ == mods@);
        r
    }
}

} // verus!
