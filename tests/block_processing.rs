use subgraph_indexer::block::{Block, BlockPtr, Trigger, TriggerKind, TriggerType};
use subgraph_indexer::data_source::{DataSource, DataSourceTemplateInfo};
use subgraph_indexer::entity::{Entity, EntityKey};
use subgraph_indexer::entity_cache::EntityModification;
use subgraph_indexer::error::{BlockProcessingError, MappingError, SubgraphError};
use subgraph_indexer::indexing_loop::{
    after_store_revert, apply_revert, revert_target, LoopAction, LoopState,
};
use subgraph_indexer::processor::{
    after_synced_check, after_transact, after_unassign, create_dynamic_data_sources,
    trigger_context, AfterTransact, BlockRun, IndexingState, MAX_DATA_SOURCES,
};

fn hash(b: u8) -> [u8; 32] {
    [b; 32]
}

fn ptr(n: u64, b: u8) -> BlockPtr {
    BlockPtr::new(n, hash(b))
}

fn static_source() -> DataSource {
    DataSource::new("Token".to_string(), Some("0xBEEF".to_string()), None)
}

fn context(non_fatal: bool) -> IndexingState {
    IndexingState::new(
        non_fatal,
        false,
        10_000_000,
        vec!["T".to_string()],
        vec![static_source()],
        None,
    )
}

fn user_key() -> EntityKey {
    EntityKey::new("User".to_string(), "u1".to_string())
}

fn alice() -> Entity {
    Entity::new(vec![
        ("id".to_string(), "u1".to_string()),
        ("name".to_string(), "alice".to_string()),
    ])
}

#[test]
fn empty_block_commits_no_mutation() {
    let mut ctx = context(false);
    let run = BlockRun::begin(&mut ctx, ptr(100, 0xAA), false);
    assert!(run.poi.is_none());
    let run = match run.gate(&ctx, false) {
        Ok(r) => r,
        Err(_) => panic!("gate failed"),
    };
    let t = match run.prepare_commit(&mut ctx) {
        Ok(t) => t,
        Err(_) => panic!("commit failed"),
    };
    assert_eq!(t.modifications.len(), 0);
    assert_eq!(t.block_ptr.number, 100);
    assert_eq!(t.block_ptr.hash, hash(0xAA));
    assert!(!t.needs_restart);
    match after_transact(&mut ctx, t.block_ptr, t.needs_restart, false, Ok(())) {
        Ok(AfterTransact::Done(false)) => {}
        _ => panic!("unexpected outcome"),
    }
    assert_eq!(ctx.block_ptr.unwrap().number, 100);
    let mut state = LoopState::new();
    let (action, unfail) = state.on_block_result(ptr(100, 0xAA), Ok(false));
    assert!(matches!(action, LoopAction::Continue));
    assert!(unfail);
    let (_, unfail_again) = state.on_block_result(ptr(101, 0xBB), Ok(false));
    assert!(!unfail_again);
}

#[test]
fn single_set_reaches_store_and_cache() {
    let mut ctx = context(false);
    let mut run = BlockRun::begin(&mut ctx, ptr(101, 0xBB), true);
    run.state.entity_cache.set(user_key(), alice());
    let run = match run.gate(&ctx, false) {
        Ok(r) => r,
        Err(_) => panic!("gate failed"),
    };
    let t = match run.prepare_commit(&mut ctx) {
        Ok(t) => t,
        Err(_) => panic!("commit failed"),
    };
    assert_eq!(t.modifications.len(), 1);
    match &t.modifications[0] {
        EntityModification::Write(k, e) => {
            assert_eq!(k.entity_type, "User");
            assert_eq!(k.entity_id, "u1");
            assert_eq!(e.get(&"name".to_string()).unwrap(), "alice");
        }
        EntityModification::Remove(_) => panic!("expected a write"),
    }
    let cached = ctx.entity_lfu_cache.get(&user_key()).unwrap().unwrap();
    assert_eq!(cached.get(&"name".to_string()).unwrap(), "alice");
}

#[test]
fn remove_after_set_keeps_last_write() {
    let mut ctx = context(false);
    let mut run = BlockRun::begin(&mut ctx, ptr(101, 0xBB), false);
    run.state.entity_cache.set(user_key(), alice());
    run.state.entity_cache.remove(user_key());
    let t = match run.prepare_commit(&mut ctx) {
        Ok(t) => t,
        Err(_) => panic!("commit failed"),
    };
    assert_eq!(t.modifications.len(), 1);
    assert!(matches!(t.modifications[0], EntityModification::Remove(_)));
    assert!(ctx.entity_lfu_cache.get(&user_key()).unwrap().is_none());
}

#[test]
fn dynamic_source_spawn_restarts_stream() {
    let mut ctx = context(false);
    let mut run = BlockRun::begin(&mut ctx, ptr(102, 0xCC), false);
    run.state.create_data_source(DataSourceTemplateInfo {
        template: "T".to_string(),
        address: Some("0xDEAD".to_string()),
    });
    assert!(run.state.has_created_data_sources());
    let new_sources = match run.expand(&mut ctx) {
        Ok(v) => v,
        Err(_) => panic!("expansion failed"),
    };
    assert_eq!(new_sources.len(), 1);
    assert_eq!(new_sources[0].name, "T");
    assert_eq!(new_sources[0].address.as_deref(), Some("0xDEAD"));
    assert_eq!(new_sources[0].created_at, Some(102));
    assert!(!run.state.has_created_data_sources());
    assert!(run.needs_restart);
    assert_eq!(ctx.instance.hosts.len(), 2);
    assert_eq!(ctx.filter.sources.len(), 2);
    assert_eq!(ctx.filter.sources[1].address.as_deref(), Some("0xDEAD"));
    let t = match run.prepare_commit(&mut ctx) {
        Ok(t) => t,
        Err(_) => panic!("commit failed"),
    };
    assert_eq!(t.data_sources.len(), 1);
    assert!(t.needs_restart);
    let mut state = LoopState::new();
    let (action, _) = state.on_block_result(ptr(102, 0xCC), Ok(t.needs_restart));
    assert!(matches!(action, LoopAction::Restart));
}

#[test]
fn duplicate_dynamic_source_is_skipped() {
    let mut ctx = context(false);
    let infos = vec![
        DataSourceTemplateInfo { template: "T".to_string(), address: Some("0xDEAD".to_string()) },
        DataSourceTemplateInfo { template: "T".to_string(), address: Some("0xDEAD".to_string()) },
        DataSourceTemplateInfo { template: "T".to_string(), address: None },
    ];
    let v = match create_dynamic_data_sources(&mut ctx.instance, &ctx.templates, &infos, 7) {
        Ok(v) => v,
        Err(_) => panic!("creation failed"),
    };
    assert_eq!(v.len(), 2);
    assert_eq!(ctx.instance.hosts.len(), 3);
}

#[test]
fn unknown_template_is_an_unknown_error() {
    let mut ctx = context(false);
    let infos = vec![DataSourceTemplateInfo { template: "Missing".to_string(), address: None }];
    let r = create_dynamic_data_sources(&mut ctx.instance, &ctx.templates, &infos, 7);
    assert!(matches!(r, Err(BlockProcessingError::Unknown(_))));
}

#[test]
fn too_many_dynamic_sources_fail_deterministically() {
    let mut ctx = context(false);
    let mut run = BlockRun::begin(&mut ctx, ptr(9, 1), false);
    for i in 0..(MAX_DATA_SOURCES + 1) {
        run.state.create_data_source(DataSourceTemplateInfo {
            template: "T".to_string(),
            address: Some(format!("0x{}", i)),
        });
    }
    let r = run.expand(&mut ctx);
    assert!(matches!(r, Err(BlockProcessingError::Deterministic(_))));
}

#[test]
fn possible_reorg_in_primary_dispatch_restarts_without_commit() {
    let mut ctx = context(false);
    let run = BlockRun::begin(&mut ctx, ptr(103, 0xDD), false);
    let log = Trigger { kind: TriggerKind::Log, transaction_hash: Some(hash(4)) };
    let r = BlockRun::on_primary_error(
        MappingError::PossibleReorg("reorg".to_string()),
        trigger_context(ptr(103, 0xDD), &log),
    );
    assert!(matches!(r, Ok(true)));
    drop(run);
    assert!(ctx.entity_lfu_cache.is_empty());
    assert!(ctx.block_ptr.is_none());
    let mut state = LoopState::new();
    let (action, _) = state.on_block_result(ptr(103, 0xDD), r);
    assert!(matches!(action, LoopAction::Restart));
}

#[test]
fn unknown_error_in_primary_dispatch_fails_block() {
    let log = Trigger { kind: TriggerKind::Log, transaction_hash: Some(hash(4)) };
    let r = BlockRun::on_primary_error(
        MappingError::Unknown("host".to_string()),
        trigger_context(ptr(77, 7), &log),
    );
    let e = match r {
        Err(e) => e,
        Ok(_) => panic!("expected failure"),
    };
    match &e {
        BlockProcessingError::Trigger(m, c) => {
            assert_eq!(m, "host");
            assert_eq!(c.block.number, 77);
            assert_eq!(c.transaction, Some(hash(4)));
        }
        _ => panic!("expected a trigger error"),
    }
    assert!(!e.is_deterministic());
    let mut state = LoopState::new();
    let (action, _) = state.on_block_result(ptr(77, 7), Err(e));
    match action {
        LoopAction::Fail(f) => {
            assert!(!f.deterministic);
            assert_eq!(f.message, "host");
            assert_eq!(f.block_ptr.unwrap().number, 77);
            assert_eq!(f.transaction, Some(hash(4)));
        }
        _ => panic!("expected failure"),
    }
}

#[test]
fn possible_reorg_during_expansion_is_unknown() {
    let e = BlockRun::on_expansion_error(MappingError::PossibleReorg("late".to_string()));
    assert!(matches!(e, BlockProcessingError::Unknown(m) if m == "late"));
}

#[test]
fn revert_drops_sources_and_cache() {
    let mut ctx = context(false);
    ctx.block_ptr = Some(ptr(103, 0xDD));
    ctx.instance.add_dynamic_data_source(DataSource::new(
        "T".to_string(),
        Some("0xDEAD".to_string()),
        Some(103),
    ));
    ctx.instance.add_dynamic_data_source(DataSource::new(
        "T".to_string(),
        Some("0xCAFE".to_string()),
        Some(102),
    ));
    ctx.entity_lfu_cache.insert(user_key(), Some(alice()));
    let loaded = vec![Block { ptr: ptr(103, 0xDD), parent: Some(ptr(102, 0xCC)), triggers: vec![] }];
    let parent = revert_target(Ok(loaded)).unwrap();
    assert_eq!(parent.number, 102);
    assert_eq!(parent.hash, hash(0xCC));
    let gauge = apply_revert(&mut ctx, ptr(103, 0xDD), parent);
    assert_eq!(gauge, 103);
    assert_eq!(ctx.block_ptr.unwrap().number, 102);
    assert!(ctx.entity_lfu_cache.is_empty());
    assert_eq!(ctx.instance.hosts.len(), 2);
    assert!(ctx.instance.hosts.iter().all(|d| d.created_at.map_or(true, |n| n <= 102)));
    assert_eq!(ctx.filter.sources.len(), 1);
}

#[test]
fn revert_target_rejects_other_answers() {
    assert!(revert_target(Ok(vec![])).is_err());
    let genesis = vec![Block { ptr: ptr(0, 1), parent: None, triggers: vec![] }];
    assert!(revert_target(Ok(genesis)).is_err());
    assert!(revert_target(Err("pruned".to_string())).is_err());
}

#[test]
fn deterministic_error_fails_without_non_fatal_errors() {
    let mut ctx = context(false);
    let mut run = BlockRun::begin(&mut ctx, ptr(104, 0xEE), false);
    run.state.entity_cache.set(user_key(), alice());
    run.state.push_error(SubgraphError::new("boom".to_string(), Some(ptr(104, 0xEE)), None, true));
    run.state.push_error(SubgraphError::new("second".to_string(), None, None, true));
    let r = run.gate(&ctx, false);
    let e = match r {
        Err(e) => e,
        Ok(_) => panic!("expected failure"),
    };
    assert!(e.is_deterministic());
    match &e {
        BlockProcessingError::Deterministic(se) => assert_eq!(se.message, "boom"),
        _ => panic!("expected deterministic"),
    }
    assert!(ctx.block_ptr.is_none());
    let mut state = LoopState::new();
    let (action, unfail) = state.on_block_result(ptr(104, 0xEE), Err(e));
    assert!(!unfail);
    match action {
        LoopAction::Fail(f) => {
            assert!(f.deterministic);
            assert_eq!(f.message, "boom");
            assert_eq!(f.block_ptr.unwrap().number, 104);
        }
        _ => panic!("expected failure"),
    }
}

#[test]
fn unknown_error_fails_non_deterministically() {
    let mut state = LoopState::new();
    let (action, _) =
        state.on_block_result(ptr(5, 5), Err(BlockProcessingError::Unknown("db".to_string())));
    match action {
        LoopAction::Fail(f) => assert!(!f.deterministic),
        _ => panic!("expected failure"),
    }
    let (action, _) = state.on_block_result(ptr(5, 5), Err(BlockProcessingError::Canceled));
    assert!(matches!(action, LoopAction::Exit));
}

#[test]
fn non_fatal_errors_commit_with_mutations() {
    let mut ctx = context(true);
    let mut run = BlockRun::begin(&mut ctx, ptr(104, 0xEE), false);
    run.state.entity_cache.set(user_key(), alice());
    run.state.push_error(SubgraphError::new("boom".to_string(), None, None, true));
    let run = match run.gate(&ctx, false) {
        Ok(r) => r,
        Err(_) => panic!("gate failed"),
    };
    let t = match run.prepare_commit(&mut ctx) {
        Ok(t) => t,
        Err(_) => panic!("commit failed"),
    };
    assert_eq!(t.modifications.len(), 1);
    assert_eq!(t.deterministic_errors.len(), 1);
    let next = after_transact(&mut ctx, t.block_ptr, t.needs_restart, true, Ok(()));
    assert!(matches!(next, Ok(AfterTransact::CheckSynced)));
    assert_eq!(ctx.block_ptr.unwrap().number, 104);
    assert!(matches!(after_synced_check(Ok(false)), Ok(true)));
    assert!(matches!(after_synced_check(Ok(true)), Ok(false)));
    assert!(matches!(after_unassign(Ok(())), BlockProcessingError::Canceled));
    assert!(matches!(after_unassign(Err("x".to_string())), BlockProcessingError::Unknown(_)));
}

#[test]
fn fail_fast_disabled_finishes_block() {
    let mut ctx = IndexingState::new(true, true, 1000, vec![], vec![], None);
    let next = after_transact(&mut ctx, ptr(1, 1), true, true, Ok(()));
    assert!(matches!(next, Ok(AfterTransact::Done(true))));
}

#[test]
fn canceled_stream_stops_before_commit() {
    let mut ctx = context(false);
    let run = BlockRun::begin(&mut ctx, ptr(7, 7), false);
    assert!(matches!(run.gate(&ctx, true), Err(BlockProcessingError::Canceled)));
}

#[test]
fn failed_transaction_keeps_pointer() {
    let mut ctx = context(false);
    let r = after_transact(&mut ctx, ptr(7, 7), false, false, Err("db down".to_string()));
    assert!(matches!(r, Err(BlockProcessingError::Unknown(_))));
    assert!(ctx.block_ptr.is_none());
}

#[test]
fn committed_pointers_must_advance() {
    let mut ctx = context(false);
    ctx.block_ptr = Some(ptr(50, 1));
    let run = BlockRun::begin(&mut ctx, ptr(50, 2), false);
    assert!(matches!(run.prepare_commit(&mut ctx), Err(BlockProcessingError::Unknown(_))));
    let mut ctx = context(false);
    ctx.block_ptr = Some(ptr(50, 1));
    let run = BlockRun::begin(&mut ctx, ptr(51, 2), false);
    assert!(run.prepare_commit(&mut ctx).is_ok());
}

#[test]
fn trigger_types_and_contexts() {
    let log = Trigger { kind: TriggerKind::Log, transaction_hash: Some(hash(3)) };
    let blk = Trigger { kind: TriggerKind::Block, transaction_hash: Some(hash(3)) };
    let call = Trigger { kind: TriggerKind::Call, transaction_hash: None };
    assert_eq!(TriggerType::of_trigger(&log).label_value(), "event");
    assert_eq!(TriggerType::of_trigger(&call).label_value(), "call");
    assert_eq!(TriggerType::of_trigger(&blk).label_value(), "block");
    assert_eq!(trigger_context(ptr(1, 1), &log).transaction, Some(hash(3)));
    assert_eq!(trigger_context(ptr(1, 1), &blk).transaction, None);
}

#[test]
fn revert_after_commit_restores_sources_and_pointer() {
    let mut ctx = context(false);
    ctx.block_ptr = Some(ptr(102, 0xCC));
    let mut run = BlockRun::begin(&mut ctx, ptr(103, 0xDD), false);
    run.state.entity_cache.set(user_key(), alice());
    run.state.create_data_source(DataSourceTemplateInfo {
        template: "T".to_string(),
        address: Some("0xDEAD".to_string()),
    });
    assert!(run.expand(&mut ctx).is_ok());
    let t = match run.prepare_commit(&mut ctx) {
        Ok(t) => t,
        Err(_) => panic!("commit failed"),
    };
    assert!(after_transact(&mut ctx, t.block_ptr, t.needs_restart, false, Ok(())).is_ok());
    assert_eq!(ctx.instance.hosts.len(), 2);
    assert!(!ctx.entity_lfu_cache.is_empty());
    apply_revert(&mut ctx, ptr(103, 0xDD), ptr(102, 0xCC));
    assert_eq!(ctx.instance.hosts.len(), 1);
    assert_eq!(ctx.instance.hosts[0].name, "Token");
    assert_eq!(ctx.block_ptr.unwrap().number, 102);
    assert!(ctx.entity_lfu_cache.is_empty());
}

#[test]
fn plain_errors_convert_to_unknown() {
    let e = BlockProcessingError::from("lost connection".to_string());
    assert!(matches!(&e, BlockProcessingError::Unknown(m) if m == "lost connection"));
    assert!(!e.is_deterministic());
    assert!(!BlockProcessingError::Canceled.is_deterministic());
}

#[test]
fn failed_creation_keeps_hosts_added_before() {
    let mut ctx = context(false);
    let infos = vec![
        DataSourceTemplateInfo { template: "T".to_string(), address: Some("0x1".to_string()) },
        DataSourceTemplateInfo { template: "Missing".to_string(), address: None },
        DataSourceTemplateInfo { template: "T".to_string(), address: Some("0x2".to_string()) },
    ];
    let r = create_dynamic_data_sources(&mut ctx.instance, &ctx.templates, &infos, 7);
    assert!(matches!(r, Err(BlockProcessingError::Unknown(_))));
    assert_eq!(ctx.instance.hosts.len(), 2);
    assert_eq!(ctx.instance.hosts[1].address.as_deref(), Some("0x1"));
}

#[test]
fn expansion_counts_created_sources() {
    let mut ctx = context(false);
    let mut run = BlockRun::begin(&mut ctx, ptr(8, 8), false);
    run.state.create_data_source(DataSourceTemplateInfo {
        template: "T".to_string(),
        address: Some("0x1".to_string()),
    });
    run.state.create_data_source(DataSourceTemplateInfo {
        template: "T".to_string(),
        address: Some("0x2".to_string()),
    });
    assert!(run.expand(&mut ctx).is_ok());
    assert_eq!(run.created_count, 2);
    run.state.create_data_source(DataSourceTemplateInfo { template: "Missing".to_string(), address: None });
    assert!(matches!(run.expand(&mut ctx), Err(BlockProcessingError::Unknown(_))));
    assert_eq!(run.created_count, 3);
}

#[test]
fn failed_store_revert_changes_nothing() {
    let mut ctx = context(false);
    ctx.block_ptr = Some(ptr(103, 0xDD));
    ctx.entity_lfu_cache.insert(user_key(), Some(alice()));
    let r = after_store_revert(&mut ctx, ptr(103, 0xDD), ptr(102, 0xCC), Err("pruned".to_string()));
    assert!(r.is_none());
    assert_eq!(ctx.block_ptr.unwrap().number, 103);
    assert!(!ctx.entity_lfu_cache.is_empty());
    let r = after_store_revert(&mut ctx, ptr(103, 0xDD), ptr(102, 0xCC), Ok(()));
    assert_eq!(r, Some(103));
    assert!(ctx.entity_lfu_cache.is_empty());
}
