//! Proof of indexing: per causality region, the ordered writes of a block,
//! folded at commit into a digest entity seeded with the previous digest.
use vstd::prelude::*;
use crate::entity::{Entity, EntityKey, EntityView, KeyView, attr_value};
use crate::entity_cache::EntityCache;

verus! {

/// The entity type under which digests are stored.
pub open spec fn poi_object() -> Seq<char> {
    "Poi$"@
}

/// The attribute of a digest entity that holds the digest.
pub open spec fn digest_attr() -> Seq<char> {
    "digest"@
}

/// The attribute that holds an entity's id.
pub open spec fn id_attr() -> Seq<char> {
    "id"@
}

pub fn poi_object_name() -> (r: String)
    ensures
        r@ == poi_object(),
{
    proof { reveal_strlit("Poi$"); }
    "Poi$".to_owned()
}

pub fn digest_attr_name() -> (r: String)
    ensures
        r@ == digest_attr(),
{
    proof { reveal_strlit("digest"); }
    "digest".to_owned()
}

pub fn id_attr_name() -> (r: String)
    ensures
        r@ == id_attr(),
{
    proof { reveal_strlit("id"); }
    "id".to_owned()
}

/// The writes of one causality region during a block, in order.
pub struct PoiStream {
    pub region: String,
    pub writes: Vec<Vec<u8>>,
}

/// The view of a stream: its region and its writes.
pub type StreamView = (Seq<char>, Seq<Seq<u8>>);

impl View for PoiStream {
    type V = StreamView;

    open spec fn view(&self) -> StreamView {
        (self.region@, self.writes@.map_values(|w: Vec<u8>| w@))
    }
}

/// The proof-of-indexing streams of one block, one for each region touched.
pub struct ProofOfIndexing {
    pub block_number: u64,
    pub streams: Vec<PoiStream>,
}

impl ProofOfIndexing {
    pub open spec fn view(&self) -> Seq<StreamView> {
        self.streams@.map_values(|s: PoiStream| s@)
    }

    /// Regions are unique.
    pub open spec fn wf(&self) -> bool {
        forall|i: int, j: int|
            0 <= i < j < self.streams@.len() ==> (#[trigger] self.streams@[i]).region@
                != (#[trigger] self.streams@[j]).region@
    }

    /// The writes of `region` so far; empty for a region not touched.
    pub open spec fn writes_of(&self, region: Seq<char>) -> Seq<Seq<u8>> {
        if exists|i: int| 0 <= i < self.streams@.len() && (#[trigger] self.streams@[i]).region@ == region {
            let i = choose|i: int| 0 <= i < self.streams@.len() && (#[trigger] self.streams@[i]).region@ == region;
            self.streams@[i]@.1
        } else {
            Seq::empty()
        }
    }

    /// No writes yet, for the block `block_number`.
    pub fn new(block_number: u64) -> (r: ProofOfIndexing)
        ensures
            r.wf(),
            r.block_number == block_number,
            r@ == Seq::<StreamView>::empty(),
    {
        let r = ProofOfIndexing { block_number, streams: Vec::new() };
        assert(r@ =~= Seq::<StreamView>::empty());
        r
    }

    /// Appends `event` to the stream of `region`.
    pub fn write(&mut self, region: String, event: Vec<u8>)
        requires
            old(self).wf(),
        ensures
            final(self).wf(),
            final(self).block_number == old(self).block_number,
            final(self).writes_of(region@) == old(self).writes_of(region@).push(event@),
            forall|r: Seq<char>| r != region@ ==> #[trigger] final(self).writes_of(r) == old(self).writes_of(r),
    {
        let mut i: usize = 0;
        while i < self.streams.len()
            invariant
                self.wf(),
                self == old(self),
                i <= self.streams.len(),
                forall|j: int| 0 <= j < i ==> (#[trigger] self.streams@[j]).region@ != region@,
            decreases self.streams.len() - i,
        {
            if self.streams[i].region == region {
                let ghost ev = event@;
                let ghost before = *self;
                let mut s = self.streams.remove(i);
                s.writes.push(event);
                self.streams.insert(i, s);
                proof {
                    assert(self.streams@ == before.streams@.update(i as int, s));
                    assert(s@.1 =~= before.streams@[i as int]@.1.push(ev));
                    assert(self.streams@[i as int].region@ == region@);
                    assert forall|r: Seq<char>| #[trigger] self.writes_of(r) == if r == region@ {
                        before.writes_of(r).push(ev)
                    } else {
                        before.writes_of(r)
                    } by {
                        if exists|j: int| 0 <= j < self.streams@.len() && (#[trigger] self.streams@[j]).region@ == r {
                            let j = choose|j: int| 0 <= j < self.streams@.len() && (#[trigger] self.streams@[j]).region@ == r;
                            assert(before.streams@[j].region@ == r);
                            let j0 = choose|j: int| 0 <= j < before.streams@.len() && (#[trigger] before.streams@[j]).region@ == r;
                            assert(j == j0) by {
                                if j < j0 { assert(before.streams@[j].region@ != before.streams@[j0].region@); }
                                if j0 < j { assert(before.streams@[j0].region@ != before.streams@[j].region@); }
                            }
                            if r == region@ {
                                assert(j == i) by {
                                    if j < i { assert(before.streams@[j].region@ != before.streams@[i as int].region@); }
                                    if i < j { assert(before.streams@[i as int].region@ != before.streams@[j].region@); }
                                }
                            }
                        } else {
                            if exists|j: int| 0 <= j < before.streams@.len() && (#[trigger] before.streams@[j]).region@ == r {
                                let j0 = choose|j: int| 0 <= j < before.streams@.len() && (#[trigger] before.streams@[j]).region@ == r;
                                assert(self.streams@[j0].region@ == r);
                            }
                        }
                    }
                    assert forall|a: int, b: int| 0 <= a < b < self.streams@.len() implies (#[trigger] self.streams@[a]).region@
                        != (#[trigger] self.streams@[b]).region@ by {
                        assert(before.streams@[a].region@ != before.streams@[b].region@);
                    }
                }
                return;
            }
            i = i + 1;
        }
        let ghost before = *self;
        let ghost rv = region@;
        let ghost ev = event@;
        let mut writes: Vec<Vec<u8>> = Vec::new();
        writes.push(event);
        let s = PoiStream { region, writes };
        self.streams.push(s);
        proof {
            let n = before.streams@.len() as int;
            assert(self.streams@[n].region@ == rv);
            assert(s@.1 =~= Seq::<Seq<u8>>::empty().push(ev));
            assert forall|r: Seq<char>| #[trigger] self.writes_of(r) == if r == rv {
                before.writes_of(r).push(ev)
            } else {
                before.writes_of(r)
            } by {
                if exists|j: int| 0 <= j < self.streams@.len() && (#[trigger] self.streams@[j]).region@ == r {
                    let j = choose|j: int| 0 <= j < self.streams@.len() && (#[trigger] self.streams@[j]).region@ == r;
                    if j < n {
                        assert(before.streams@[j].region@ == r);
                        let j0 = choose|j: int| 0 <= j < before.streams@.len() && (#[trigger] before.streams@[j]).region@ == r;
                        assert(j == j0) by {
                            if j < j0 { assert(before.streams@[j].region@ != before.streams@[j0].region@); }
                            if j0 < j { assert(before.streams@[j0].region@ != before.streams@[j].region@); }
                        }
                    }
                } else {
                    if exists|j: int| 0 <= j < before.streams@.len() && (#[trigger] before.streams@[j]).region@ == r {
                        let j0 = choose|j: int| 0 <= j < before.streams@.len() && (#[trigger] before.streams@[j]).region@ == r;
                        assert(self.streams@[j0].region@ == r);
                    }
                }
            }
            assert forall|a: int, b: int| 0 <= a < b < self.streams@.len() implies (#[trigger] self.streams@[a]).region@
                != (#[trigger] self.streams@[b]).region@ by {
                if b < n {
                    assert(before.streams@[a].region@ != before.streams@[b].region@);
                }
            }
        }
    }
}

/// The key of the digest entity of `region`.
pub open spec fn poi_key_view(region: Seq<char>) -> KeyView {
    (poi_object(), region)
}

/// The digest entity of `region`: its id and its digest.
pub open spec fn poi_entity_view(region: Seq<char>, digest: Seq<char>) -> EntityView {
    seq![(id_attr(), region), (digest_attr(), digest)]
}

/// The digest that a cached value holds: `Some(None)` for a tombstone, and
/// `None` for an entity without a digest.
pub open spec fn stored_digest(v: Option<EntityView>) -> Option<Option<Seq<char>>> {
    match v {
        None => Some(None),
        Some(e) => match attr_value(e, digest_attr()) {
            Some(d) => Some(Some(d)),
            None => None,
        },
    }
}

pub open spec fn opt_string_view(s: Option<String>) -> Option<Seq<char>> {
    match s {
        Some(x) => Some(x@),
        None => None,
    }
}

/// Whether the cache knows the digest entity of `region` and, where the
/// entity exists, it holds a digest.
pub open spec fn digest_readable(known: Map<KeyView, Option<EntityView>>, region: Seq<char>) -> bool {
    known.contains_key(poi_key_view(region)) && stored_digest(known[poi_key_view(region)]) is Some
}

/// Why the previous digest of a region could not be read.
pub enum PoiReadError {
    /// Neither the buffer nor the LFU cache knows the digest entity: the
    /// store must be read and the result noted in the cache.
    NotCached,
    /// The digest entity has no digest.
    Malformed,
}

/// The key of the digest entity of `region`.
pub fn poi_key(region: &String) -> (r: EntityKey)
    ensures
        r@ == poi_key_view(region@),
{
    EntityKey::new(poi_object_name(), region.clone())
}

/// The digest that the cache holds for `region`: `None` where the region has
/// no digest entity yet.
pub fn previous_digest(cache: &mut EntityCache, region: &String) -> (r: Result<Option<String>, PoiReadError>)
    requires
        old(cache).wf(),
    ensures
        final(cache).wf(),
        final(cache).known() == old(cache).known(),
        final(cache).updates_view() == old(cache).updates_view(),
        final(cache).current_view() == old(cache).current_view(),
        final(cache).data_sources_view() == old(cache).data_sources_view(),
        match r {
            Err(PoiReadError::NotCached) => !old(cache).known().contains_key(poi_key_view(region@)),
            Err(PoiReadError::Malformed) => old(cache).known().contains_key(poi_key_view(region@))
                && stored_digest(old(cache).known()[poi_key_view(region@)]) is None,
            Ok(d) => old(cache).known().contains_key(poi_key_view(region@)) && stored_digest(
                old(cache).known()[poi_key_view(region@)],
            ) == Some(opt_string_view(d)),
        },
{
    let key = poi_key(region);
    match cache.get(&key) {
        None => Err(PoiReadError::NotCached),
        Some(None) => Ok(None),
        Some(Some(e)) => {
            let name = digest_attr_name();
            match e.get(&name) {
                Some(d) => Ok(Some(d.clone())),
                None => Err(PoiReadError::Malformed),
            }
        },
    }
}

/// Stores `digest` as the new digest of `region`.
pub fn set_digest(cache: &mut EntityCache, region: &String, digest: String)
    requires
        old(cache).wf(),
    ensures
        final(cache).wf(),
        final(cache).current_view() == old(cache).current_view(),
        final(cache).updates_view() == old(cache).updates_view().insert(
            poi_key_view(region@),
            Some(poi_entity_view(region@, digest@)),
        ),
        final(cache).data_sources_view() == old(cache).data_sources_view(),
{
    let mut attrs: Vec<(String, String)> = Vec::new();
    attrs.push((id_attr_name(), region.clone()));
    attrs.push((digest_attr_name(), digest));
    let e = Entity::new(attrs);
    assert(e@ =~= poi_entity_view(region@, digest@));
    cache.set(poi_key(region), e);
}

/// What folding the stream of one region needs: the region, the digest it
/// had after the previous block, and its writes during this block, in order.
pub struct PoiRequest {
    pub region: String,
    pub previous: Option<String>,
    pub writes: Vec<Vec<u8>>,
}

/// For each region touched during the block, the previous digest read from
/// the cache and the region's writes. Fails on the first region whose
/// digest entity the cache does not know or that holds no digest.
pub fn poi_requests(poi: ProofOfIndexing, cache: &mut EntityCache) -> (r: Result<Vec<PoiRequest>, PoiReadError>)
    requires
        old(cache).wf(),
    ensures
        final(cache).wf(),
        final(cache).known() == old(cache).known(),
        final(cache).updates_view() == old(cache).updates_view(),
        final(cache).current_view() == old(cache).current_view(),
        final(cache).data_sources_view() == old(cache).data_sources_view(),
        r is Ok <==> forall|i: int|
            0 <= i < poi.streams@.len() ==> digest_readable(old(cache).known(), (#[trigger] poi.streams@[i]).region@),
        r matches Err(e) ==> exists|i: int|
            0 <= i < poi.streams@.len() && !digest_readable(old(cache).known(), (#[trigger] poi.streams@[i]).region@)
                && (e is NotCached <==> !old(cache).known().contains_key(poi_key_view(poi.streams@[i].region@))),
        r matches Ok(v) ==> v@.len() == poi.streams@.len() && forall|i: int|
            0 <= i < v@.len() ==> {
                let q = #[trigger] v@[i];
                &&& q.region@ == poi.streams@[i].region@
                &&& q.writes@.map_values(|w: Vec<u8>| w@) == poi.streams@[i]@.1
                &&& old(cache).known().contains_key(poi_key_view(q.region@))
                &&& stored_digest(old(cache).known()[poi_key_view(q.region@)]) == Some(
                    opt_string_view(q.previous),
                )
            },
{
    let ghost streams = poi.streams@;
    let mut rest = poi.streams;
    let mut out: Vec<PoiRequest> = Vec::new();
    let mut reversed: Vec<PoiStream> = Vec::new();
    while rest.len() > 0
        invariant
            streams == poi.streams@,
            reversed@.len() + rest@.len() == streams.len(),
            rest@ == streams.subrange(0, rest@.len() as int),
            forall|j: int| 0 <= j < reversed@.len() ==> #[trigger] reversed@[j] == streams[streams.len() - 1 - j],
        decreases rest@.len(),
    {
        let s = rest.pop().unwrap();
        reversed.push(s);
    }
    while reversed.len() > 0
        invariant
            streams == poi.streams@,
            cache.wf(),
            cache.known() == old(cache).known(),
            cache.updates_view() == old(cache).updates_view(),
            cache.current_view() == old(cache).current_view(),
            cache.data_sources_view() == old(cache).data_sources_view(),
            reversed@.len() + out@.len() == streams.len(),
            forall|j: int| 0 <= j < reversed@.len() ==> #[trigger] reversed@[j] == streams[streams.len() - 1 - j],
            forall|i: int|
                0 <= i < out@.len() ==> {
                    let q = #[trigger] out@[i];
                    &&& q.region@ == streams[i].region@
                    &&& q.writes@.map_values(|w: Vec<u8>| w@) == streams[i]@.1
                    &&& old(cache).known().contains_key(poi_key_view(q.region@))
                    &&& stored_digest(old(cache).known()[poi_key_view(q.region@)]) == Some(
                        opt_string_view(q.previous),
                    )
                },
        decreases reversed@.len(),
    {
        let s = reversed.pop().unwrap();
        let ghost i = out@.len() as int;
        assert(s == streams[i]);
        let previous = match previous_digest(cache, &s.region) {
            Ok(d) => d,
            Err(e) => {
                proof {
                    assert(!digest_readable(old(cache).known(), streams[i].region@));
                    assert((e is NotCached) == !old(cache).known().contains_key(poi_key_view(streams[i].region@)));
                    assert(!digest_readable(old(cache).known(), poi.streams@[i].region@));
                }
                return Err(e);
            },
        };
        out.push(PoiRequest { region: s.region, previous, writes: s.writes });
        proof {
            assert(out@[i].region@ == streams[i].region@);
        }
    }
    proof {
        assert forall|i: int| 0 <= i < streams.len() implies digest_readable(old(cache).known(), (#[trigger] streams[i]).region@) by {
            assert(out@[i].region@ == streams[i].region@);
        }
    }
    Ok(out)
}

/// Stores, for each region, the digest computed for it: the digest entity
/// of `regions[i]` gets `digests[i]`.
pub fn update_proof_of_indexing(cache: &mut EntityCache, regions: &Vec<String>, digests: Vec<String>)
    requires
        old(cache).wf(),
        regions@.len() == digests@.len(),
    ensures
        final(cache).wf(),
        final(cache).current_view() == old(cache).current_view(),
        final(cache).data_sources_view() == old(cache).data_sources_view(),
        final(cache).updates_view() == digests_written(old(cache).updates_view(), regions@, digests@),
{
    let mut i: usize = 0;
    while i < regions.len()
        invariant
            i <= regions@.len(),
            regions@.len() == digests@.len(),
            cache.wf(),
            cache.current_view() == old(cache).current_view(),
            cache.data_sources_view() == old(cache).data_sources_view(),
            cache.updates_view() == digests_written(
                old(cache).updates_view(),
                regions@.subrange(0, i as int),
                digests@.subrange(0, i as int),
            ),
        decreases regions@.len() - i,
    {
        proof {
            assert(regions@.subrange(0, i as int + 1).drop_last() =~= regions@.subrange(0, i as int));
            assert(digests@.subrange(0, i as int + 1).drop_last() =~= digests@.subrange(0, i as int));
        }
        set_digest(cache, &regions[i], digests[i].clone());
        i = i + 1;
    }
    assert(regions@.subrange(0, i as int) =~= regions@);
    assert(digests@.subrange(0, i as int) =~= digests@);
}

/// `updates` after the digest entity of each region got its digest, in order.
pub open spec fn digests_written(
    updates: Map<KeyView, Option<EntityView>>,
    regions: Seq<String>,
    digests: Seq<String>,
) -> Map<KeyView, Option<EntityView>>
    decreases regions.len(),
{
    if regions.len() == 0 || digests.len() != regions.len() {
        updates
    } else {
        digests_written(updates, regions.drop_last(), digests.drop_last()).insert(
            poi_key_view(regions.last()@),
            Some(poi_entity_view(regions.last()@, digests.last()@)),
        )
    }
}

/// The digest entity of a region after the block is the one made from that
/// region's own digest: where the regions are distinct, the entity of
/// `regions[i]` holds `digests[i]`, and keys that are no digest key of these
/// regions keep their buffered value.
pub proof fn lemma_digest_entity_of_region(
    updates: Map<KeyView, Option<EntityView>>,
    regions: Seq<String>,
    digests: Seq<String>,
)
    requires
        regions.len() == digests.len(),
        forall|a: int, b: int| 0 <= a < b < regions.len() ==> (#[trigger] regions[a])@ != (#[trigger] regions[b])@,
    ensures
        forall|i: int|
            #![trigger regions[i]]
            0 <= i < regions.len() ==> digests_written(updates, regions, digests).contains_key(
                poi_key_view(regions[i]@),
            ) && digests_written(updates, regions, digests)[poi_key_view(regions[i]@)]
                == Some(poi_entity_view(regions[i]@, digests[i]@)),
        forall|k: KeyView|
            (forall|i: int| 0 <= i < regions.len() ==> k != poi_key_view(#[trigger] regions[i]@)) ==> (
            #[trigger] digests_written(updates, regions, digests).contains_key(k) == updates.contains_key(k)
                && (updates.contains_key(k) ==> digests_written(updates, regions, digests)[k] == updates[k])),
    decreases regions.len(),
{
    if regions.len() > 0 {
        let rs = regions.drop_last();
        let ds = digests.drop_last();
        assert forall|a: int, b: int| 0 <= a < b < rs.len() implies (#[trigger] rs[a])@ != (#[trigger] rs[b])@ by {
            assert(rs[a] == regions[a] && rs[b] == regions[b]);
        }
        lemma_digest_entity_of_region(updates, rs, ds);
        let n = regions.len() - 1;
        let inner = digests_written(updates, rs, ds);
        let w = digests_written(updates, regions, digests);
        assert(regions.last() == regions[n] && digests.last() == digests[n]);
        assert(w == inner.insert(poi_key_view(regions[n]@), Some(poi_entity_view(regions[n]@, digests[n]@))));
        assert forall|i: int|
            #![trigger regions[i]]
            0 <= i < regions.len() implies digests_written(updates, regions, digests).contains_key(
            poi_key_view(regions[i]@),
        ) && digests_written(updates, regions, digests)[poi_key_view(regions[i]@)]
            == Some(poi_entity_view(regions[i]@, digests[i]@)) by {
            if i < n {
                assert(rs[i] == regions[i] && ds[i] == digests[i]);
                assert(regions[i]@ != regions[n]@);
                assert(inner.contains_key(poi_key_view(rs[i]@)));
            }
        }
        assert forall|k: KeyView|
            (forall|i: int| 0 <= i < regions.len() ==> k != poi_key_view(#[trigger] regions[i]@)) implies (
            #[trigger] w.contains_key(k) == updates.contains_key(k) && (updates.contains_key(k) ==> w[k]
                == updates[k])) by {
            assert(k != poi_key_view(regions[n]@));
            assert forall|i: int| 0 <= i < rs.len() implies k != poi_key_view(#[trigger] rs[i]@) by {
                assert(rs[i] == regions[i]);
            }
        }
    }
}

} // verus!
