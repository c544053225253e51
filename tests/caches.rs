use subgraph_indexer::config::{check_chain_support, entity_cache_budget, StartError, DEFAULT_ENTITY_CACHE_SIZE_KB};
use subgraph_indexer::entity::{weight_of, Entity, EntityKey, ENTITY_BASE_WEIGHT, TOMBSTONE_WEIGHT};
use subgraph_indexer::entity_cache::EntityCache;
use subgraph_indexer::lfu::EntityLfuCache;
use subgraph_indexer::manager::SubgraphInstanceManager;
use subgraph_indexer::poi::{
    poi_requests, previous_digest, update_proof_of_indexing, PoiReadError, ProofOfIndexing,
};

fn key(id: &str) -> EntityKey {
    EntityKey::new("User".to_string(), id.to_string())
}

fn entity(name: &str) -> Entity {
    Entity::new(vec![("name".to_string(), name.to_string())])
}

#[test]
fn weights_count_attributes() {
    assert_eq!(weight_of(&None), TOMBSTONE_WEIGHT);
    // one attribute: 8 + 4 chars of "name" + 5 chars of "alice"
    assert_eq!(weight_of(&Some(entity("alice"))), ENTITY_BASE_WEIGHT + 8 + 4 + 5);
}

#[test]
fn evict_respects_budget() {
    let mut c = EntityLfuCache::new();
    for i in 0..10 {
        c.insert(key(&format!("u{}", i)), Some(entity("alice")));
    }
    assert_eq!(c.total_weight(), 10 * 33);
    c.evict(100);
    assert!(c.total_weight() <= 100);
    assert_eq!(c.len(), 3);
}

#[test]
fn evict_removes_least_frequently_used_first() {
    let mut c = EntityLfuCache::new();
    c.insert(key("a"), Some(entity("alice")));
    c.insert(key("b"), Some(entity("alice")));
    c.insert(key("c"), Some(entity("alice")));
    c.get(&key("a"));
    c.get(&key("a"));
    c.get(&key("c"));
    c.evict(33);
    assert_eq!(c.len(), 1);
    assert!(c.get(&key("a")).is_some());
    assert!(c.get(&key("b")).is_none());
}

#[test]
fn evict_ties_go_to_least_recently_used() {
    let mut c = EntityLfuCache::new();
    c.insert(key("a"), None);
    c.insert(key("b"), None);
    c.evict(TOMBSTONE_WEIGHT as u64);
    assert!(c.get(&key("a")).is_none());
    assert!(c.get(&key("b")).is_some());
}

#[test]
fn evict_within_budget_keeps_everything() {
    let mut c = EntityLfuCache::new();
    c.insert(key("a"), None);
    c.evict(1000);
    assert_eq!(c.len(), 1);
}

#[test]
fn entity_cache_reads_fall_through() {
    let mut lfu = EntityLfuCache::new();
    lfu.insert(key("a"), Some(entity("old")));
    let mut cache = EntityCache::new(lfu);
    let v = cache.get(&key("a")).unwrap().unwrap();
    assert_eq!(v.get(&"name".to_string()).unwrap(), "old");
    cache.set(key("a"), entity("new"));
    let v = cache.get(&key("a")).unwrap().unwrap();
    assert_eq!(v.get(&"name".to_string()).unwrap(), "new");
    assert!(cache.get(&key("zzz")).is_none());
    cache.note_store_read(key("zzz"), None);
    assert!(cache.get(&key("zzz")).unwrap().is_none());
}

#[test]
fn poi_digest_round() {
    let mut poi = ProofOfIndexing::new(100);
    poi.write("r1".to_string(), vec![1, 2]);
    poi.write("r2".to_string(), vec![9]);
    poi.write("r1".to_string(), vec![3]);
    assert_eq!(poi.streams.len(), 2);
    let mut cache = EntityCache::new(EntityLfuCache::new());
    assert!(matches!(poi_requests(poi, &mut cache), Err(PoiReadError::NotCached)));
    let mut poi = ProofOfIndexing::new(100);
    poi.write("r1".to_string(), vec![1, 2]);
    poi.write("r1".to_string(), vec![3]);
    let region = "r1".to_string();
    let key = subgraph_indexer::poi::poi_key(&region);
    assert_eq!(key.entity_type, "Poi$");
    cache.note_store_read(key, None);
    let reqs = match poi_requests(poi, &mut cache) {
        Ok(r) => r,
        Err(_) => panic!("requests failed"),
    };
    assert_eq!(reqs.len(), 1);
    assert_eq!(reqs[0].region, "r1");
    assert!(reqs[0].previous.is_none());
    assert_eq!(reqs[0].writes, vec![vec![1, 2], vec![3]]);
    update_proof_of_indexing(&mut cache, &vec![region.clone()], vec!["d1".to_string()]);
    match previous_digest(&mut cache, &region) {
        Ok(Some(d)) => assert_eq!(d, "d1"),
        _ => panic!("digest missing"),
    }
}

#[test]
fn poi_entity_without_digest_is_malformed() {
    let mut cache = EntityCache::new(EntityLfuCache::new());
    let region = "r".to_string();
    cache.note_store_read(subgraph_indexer::poi::poi_key(&region), Some(entity("x")));
    assert!(matches!(previous_digest(&mut cache, &region), Err(PoiReadError::Malformed)));
}

#[test]
fn stop_is_idempotent() {
    let mut m = SubgraphInstanceManager::new();
    m.on_started();
    m.install_guard("QmA".to_string(), 1);
    assert_eq!(m.install_guard("QmA".to_string(), 2), Some(1));
    assert_eq!(m.deployment_count(), 1);
    assert_eq!(m.stop_subgraph(&"QmA".to_string()), Some(2));
    assert_eq!(m.deployment_count(), 0);
    assert!(!m.is_registered(&"QmA".to_string()));
    assert_eq!(m.stop_subgraph(&"QmA".to_string()), None);
    assert_eq!(m.stop_subgraph(&"QmUnknown".to_string()), None);
    assert_eq!(m.deployment_count(), 0);
}

#[test]
fn cache_budget_and_start_checks() {
    assert_eq!(entity_cache_budget(DEFAULT_ENTITY_CACHE_SIZE_KB), Some(10_000_000));
    assert_eq!(entity_cache_budget(u64::MAX), None);
    assert!(matches!(
        check_chain_support("mainnet".to_string(), false, Ok(())),
        Err(StartError::NoChainStore(n)) if n == "mainnet"
    ));
    assert!(matches!(
        check_chain_support("mainnet".to_string(), true, Err("no traces".to_string())),
        Err(StartError::NoAdapter(_, _))
    ));
    assert!(check_chain_support("mainnet".to_string(), true, Ok(())).is_ok());
}
