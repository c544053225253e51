//! The decisions of the indexing loop: what to do with each event of the
//! block stream and with each outcome of the block processor. The caller
//! reads the stream, calls the store and the chain adapter, and performs
//! the action returned.
use vstd::prelude::*;
use crate::block::{Block, BlockPtr};
use crate::data_source::{SourceKey, SourceView, kept_after_revert, survives_revert};
use crate::entity::{EntityView, KeyView};
use crate::error::{BlockProcessingError, SubgraphError};
use crate::lfu::EntityLfuCache;
use crate::processor::{IndexingState, fresh_sources};

verus! {

/// What the loop does next.
pub enum LoopAction {
    /// Read the next event of the block stream.
    Continue,
    /// Drop the block stream's cancel guard and build a new stream.
    Restart,
    /// Stop cleanly.
    Exit,
    /// Record the error as the deployment's failure in the store, then stop.
    Fail(SubgraphError),
}

/// The loop's own state across events.
pub struct LoopState {
    /// No block has been processed successfully yet.
    pub first_run: bool,
}

impl LoopState {
    pub fn new() -> (r: LoopState)
        ensures
            r.first_run,
    {
        LoopState { first_run: true }
    }

    /// What follows the block processor's result for `block`. The second
    /// component asks to clear a failed status in the store: it is set on
    /// the first successful block only.
    pub fn on_block_result(&mut self, block: BlockPtr, res: Result<bool, BlockProcessingError>) -> (r: (
        LoopAction,
        bool,
    ))
        ensures
            res matches Ok(restart) ==> r.1 == old(self).first_run && !final(self).first_run && (if restart {
                r.0 is Restart
            } else {
                r.0 is Continue
            }),
            res is Err ==> !r.1 && final(self).first_run == old(self).first_run,
            res matches Err(BlockProcessingError::Canceled) ==> r.0 is Exit,
            res matches Err(BlockProcessingError::Deterministic(e)) ==> (r.0 matches LoopAction::Fail(f)
                && f.deterministic && f.message == e.message && f.block_ptr == Some(block)
                && f.handler is None),
            res matches Err(BlockProcessingError::Unknown(m)) ==> (r.0 matches LoopAction::Fail(f)
                && !f.deterministic && f.message == m && f.block_ptr == Some(block)
                && f.transaction is None && f.handler is None),
            res matches Err(BlockProcessingError::Trigger(m, c)) ==> (r.0 matches LoopAction::Fail(f)
                && !f.deterministic && f.message == m && f.block_ptr == Some(c.block)
                && f.transaction == c.transaction && f.handler is None),
    {
        match res {
            Ok(restart) => {
                let unfail = self.first_run;
                self.first_run = false;
                if restart {
                    (LoopAction::Restart, unfail)
                } else {
                    (LoopAction::Continue, unfail)
                }
            },
            Err(BlockProcessingError::Canceled) => (LoopAction::Exit, false),
            Err(BlockProcessingError::Deterministic(e)) => (
                LoopAction::Fail(SubgraphError::new(e.message, Some(block), None, true)),
                false,
            ),
            Err(BlockProcessingError::Unknown(m)) => (
                LoopAction::Fail(SubgraphError::new(m, Some(block), None, false)),
                false,
            ),
            Err(BlockProcessingError::Trigger(m, c)) => (
                LoopAction::Fail(
                    SubgraphError {
                        message: m,
                        block_ptr: Some(c.block),
                        transaction: c.transaction,
                        handler: None,
                        deterministic: false,
                    },
                ),
                false,
            ),
        }
    }
}

/// The block to revert to: the parent of the one block that the chain
/// adapter loaded for the reverted pointer. Any other answer is an error,
/// after which the loop goes on and the stream sends the revert again.
pub fn revert_target(loaded: Result<Vec<Block>, String>) -> (r: Result<BlockPtr, String>)
    ensures
        r is Ok <==> (loaded matches Ok(v) && v@.len() == 1 && v@[0].parent is Some),
        r matches Ok(p) ==> (loaded matches Ok(v) && v@[0].parent == Some(p)),
{
    match loaded {
        Err(m) => Err(m),
        Ok(blocks) => {
            if blocks.len() != 1 {
                return Err("expected exactly one block for the reverted pointer".to_owned());
            }
            match blocks[0].parent {
                Some(p) => Ok(p),
                None => Err("the genesis block cannot be reverted".to_owned()),
            }
        },
    }
}

proof fn lemma_kept_survive(s: Seq<SourceView>, parent_number: u64)
    ensures
        forall|i: int|
            0 <= i < kept_after_revert(s, parent_number).len() ==> survives_revert(
                #[trigger] kept_after_revert(s, parent_number)[i],
                parent_number,
            ),
    decreases s.len(),
{
    if s.len() > 0 {
        lemma_kept_survive(s.drop_last(), parent_number);
        let rest = kept_after_revert(s.drop_last(), parent_number);
        let k = kept_after_revert(s, parent_number);
        assert forall|i: int| 0 <= i < k.len() implies survives_revert(#[trigger] k[i], parent_number) by {
            if i < rest.len() {
                assert(k[i] == rest[i]);
            }
        }
    }
}

/// Reverts the in-memory state after the store reverted to `parent`: the
/// deployment points at `parent`, the dynamic data sources created after it
/// are gone and the LFU cache is empty. The filters are kept: triggers that
/// they let through and no data source matches are discarded later. Returns
/// the number of the reverted block, for the reverted-blocks gauge.
pub fn apply_revert(ctx: &mut IndexingState, reverted: BlockPtr, parent: BlockPtr) -> (r: u64)
    requires
        old(ctx).wf(),
    ensures
        r == reverted.number,
        final(ctx).wf(),
        final(ctx).block_ptr == Some(parent),
        final(ctx).instance@ == kept_after_revert(old(ctx).instance@, parent.number),
        forall|i: int|
            0 <= i < final(ctx).instance@.len() ==> survives_revert(
                #[trigger] final(ctx).instance@[i],
                parent.number,
            ),
        final(ctx).entity_lfu_cache@ == Map::<KeyView, Option<EntityView>>::empty(),
        final(ctx).settled(),
        final(ctx).filter == old(ctx).filter,
        final(ctx).non_fatal_errors == old(ctx).non_fatal_errors,
        final(ctx).disable_fail_fast == old(ctx).disable_fail_fast,
        final(ctx).cache_budget == old(ctx).cache_budget,
        final(ctx).templates == old(ctx).templates,
{
    ctx.instance.revert_data_sources(parent.number);
    proof { lemma_kept_survive(old(ctx).instance@, parent.number); }
    ctx.entity_lfu_cache = EntityLfuCache::new();
    ctx.block_ptr = Some(parent);
    assert forall|i: int| 0 <= i < ctx.instance@.len() implies match (#[trigger] ctx.instance@[i]).2 {
        None => true,
        Some(n) => ctx.block_ptr matches Some(p) && n <= p.number,
    } by {
        assert(survives_revert(ctx.instance@[i], parent.number));
    }
    reverted.number
}

/// The outcome of the store's revert to `parent`: where it failed (the block
/// may have been pruned by a deep reorg) nothing changes and the loop goes on
/// reading the stream, which sends the revert again; where it succeeded the
/// in-memory state is reverted as `apply_revert` does, and the number of the
/// reverted block is returned for the gauge.
pub fn after_store_revert(
    ctx: &mut IndexingState,
    reverted: BlockPtr,
    parent: BlockPtr,
    result: Result<(), String>,
) -> (r: Option<u64>)
    requires
        old(ctx).wf(),
    ensures
        final(ctx).wf(),
        result is Err ==> r is None && *final(ctx) == *old(ctx),
        result is Ok ==> r == Some(reverted.number) && final(ctx).block_ptr == Some(parent)
            && final(ctx).instance@ == kept_after_revert(old(ctx).instance@, parent.number)
            && final(ctx).entity_lfu_cache@ == Map::<KeyView, Option<EntityView>>::empty()
            && final(ctx).filter == old(ctx).filter,
{
    match result {
        Err(_) => None,
        Ok(()) => Some(apply_revert(ctx, reverted, parent)),
    }
}

proof fn lemma_kept_all(s: Seq<SourceView>, parent_number: u64)
    requires
        forall|i: int| 0 <= i < s.len() ==> survives_revert(#[trigger] s[i], parent_number),
    ensures
        kept_after_revert(s, parent_number) == s,
    decreases s.len(),
{
    if s.len() > 0 {
        lemma_kept_all(s.drop_last(), parent_number);
        assert(s.drop_last().push(s.last()) =~= s);
    }
}

proof fn lemma_kept_append_none(s: Seq<SourceView>, t: Seq<SourceView>, parent_number: u64)
    requires
        forall|i: int| 0 <= i < t.len() ==> !survives_revert(#[trigger] t[i], parent_number),
    ensures
        kept_after_revert(s + t, parent_number) == kept_after_revert(s, parent_number),
    decreases t.len(),
{
    if t.len() > 0 {
        lemma_kept_append_none(s, t.drop_last(), parent_number);
        assert((s + t).drop_last() =~= s + t.drop_last());
        assert((s + t).last() == t.last());
    }
}

proof fn lemma_fresh_created_at(hosts: Seq<SourceView>, infos: Seq<SourceKey>, n: u64)
    ensures
        forall|i: int|
            0 <= i < fresh_sources(hosts, infos, n).len() ==> (#[trigger] fresh_sources(hosts, infos, n)[i]).2
                == Some(n),
    decreases infos.len(),
{
    if infos.len() > 0 {
        lemma_fresh_created_at(hosts, infos.drop_last(), n);
    }
}

/// Reverting a block drops every data source that the block created, over
/// any number of expansion rounds: where all data sources before the block
/// survive a revert to `parent_number`, and those added since were all
/// created at a block after it, the data sources after the revert are those
/// before the block.
pub proof fn lemma_revert_drops_sources_of_block(
    hosts: Seq<SourceView>,
    added: Seq<SourceView>,
    block_number: u64,
    parent_number: u64,
)
    requires
        block_number > parent_number,
        forall|i: int| 0 <= i < hosts.len() ==> survives_revert(#[trigger] hosts[i], parent_number),
        forall|i: int| 0 <= i < added.len() ==> (#[trigger] added[i]).2 == Some(block_number),
    ensures
        kept_after_revert(hosts + added, parent_number) == hosts,
{
    assert forall|i: int| 0 <= i < added.len() implies !survives_revert(#[trigger] added[i], parent_number) by {
        assert(added[i].2 == Some(block_number));
    }
    lemma_kept_append_none(hosts, added, parent_number);
    lemma_kept_all(hosts, parent_number);
}

/// The data sources that one expansion round creates at a block are created
/// at that block, so a chain of rounds adds only such data sources.
pub proof fn lemma_fresh_sources_created_at(hosts: Seq<SourceView>, infos: Seq<SourceKey>, n: u64)
    ensures
        forall|i: int|
            0 <= i < fresh_sources(hosts, infos, n).len() ==> (#[trigger] fresh_sources(hosts, infos, n)[i]).2
                == Some(n),
{
    lemma_fresh_created_at(hosts, infos, n);
}

/// The one-round case: reverting a block drops the data sources that its
/// expansion created.
pub proof fn lemma_revert_drops_block_sources(
    hosts: Seq<SourceView>,
    infos: Seq<SourceKey>,
    block_number: u64,
    parent_number: u64,
)
    requires
        block_number > parent_number,
        forall|i: int| 0 <= i < hosts.len() ==> survives_revert(#[trigger] hosts[i], parent_number),
    ensures
        kept_after_revert(hosts + fresh_sources(hosts, infos, block_number), parent_number) == hosts,
{
    lemma_fresh_created_at(hosts, infos, block_number);
    lemma_revert_drops_sources_of_block(hosts, fresh_sources(hosts, infos, block_number), block_number, parent_number);
}

} // verus!
