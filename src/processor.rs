//! The block processor: the decisions taken while one block is dispatched,
//! expanded with new dynamic data sources, gated, and committed. The calls to
//! the mapping runtime, the chain and the store are made by the caller, which
//! hands each outcome back to the step it belongs to.
use vstd::prelude::*;
use crate::block::{BlockPtr, Trigger, TriggerKind};
use crate::data_source::{
    CompositeFilter, DataSource, DataSourceTemplateInfo, SourceKey, SourceView, SubgraphInstance,
    contains_key_of, has_template, instantiate, key_of, lemma_sources_push, sources_view,
    survives_revert,
};
use crate::entity::{EntityView, KeyView};
use crate::entity_cache::{EntityCache, EntityModification, committed_frequency};
use crate::error::{BlockProcessingError, MappingError, SubgraphError, TriggerContext};
use crate::lfu::{EntityLfuCache, evicted};
use crate::poi::ProofOfIndexing;

verus! {

/// The most dynamic data sources that one block may create.
pub const MAX_DATA_SOURCES: u64 = 1000;

/// The per-block scratch state: the entity write buffer, the deterministic
/// errors of the handlers, and the data sources they asked to create.
pub struct BlockState {
    pub entity_cache: EntityCache,
    pub deterministic_errors: Vec<SubgraphError>,
    pub created_data_sources: Vec<DataSourceTemplateInfo>,
}

impl BlockState {
    /// A fresh block state over the run's LFU cache.
    pub fn new(cache: EntityLfuCache) -> (r: BlockState)
        requires
            cache.wf(),
        ensures
            r.entity_cache.wf(),
            r.entity_cache.current_view() == cache@,
            r.entity_cache.updates_view() == Map::<KeyView, Option<EntityView>>::empty(),
            r.entity_cache.data_sources_view() == Seq::<SourceView>::empty(),
            r.deterministic_errors@.len() == 0,
            r.created_data_sources@.len() == 0,
    {
        BlockState {
            entity_cache: EntityCache::new(cache),
            deterministic_errors: Vec::new(),
            created_data_sources: Vec::new(),
        }
    }

    /// Records a deterministic error of a handler.
    pub fn push_error(&mut self, e: SubgraphError)
        ensures
            final(self).deterministic_errors@ == old(self).deterministic_errors@.push(e),
            final(self).entity_cache == old(self).entity_cache,
            final(self).created_data_sources == old(self).created_data_sources,
    {
        self.deterministic_errors.push(e);
    }

    /// Records a handler's request to create a data source from a template.
    pub fn create_data_source(&mut self, info: DataSourceTemplateInfo)
        ensures
            final(self).created_data_sources@ == old(self).created_data_sources@.push(info),
            final(self).entity_cache == old(self).entity_cache,
            final(self).deterministic_errors == old(self).deterministic_errors,
    {
        self.created_data_sources.push(info);
    }

    pub fn has_errors(&self) -> (r: bool)
        ensures
            r == (self.deterministic_errors@.len() > 0),
    {
        self.deterministic_errors.len() > 0
    }

    pub fn has_created_data_sources(&self) -> (r: bool)
        ensures
            r == (self.created_data_sources@.len() > 0),
    {
        self.created_data_sources.len() > 0
    }

    /// Takes the requests to create data sources, leaving none.
    pub fn drain_created_data_sources(&mut self) -> (r: Vec<DataSourceTemplateInfo>)
        ensures
            r@ == old(self).created_data_sources@,
            final(self).created_data_sources@.len() == 0,
            final(self).entity_cache == old(self).entity_cache,
            final(self).deterministic_errors == old(self).deterministic_errors,
    {
        let mut taken: Vec<DataSourceTemplateInfo> = Vec::new();
        std::mem::swap(&mut taken, &mut self.created_data_sources);
        taken
    }
}

/// The mutable state of a deployment's indexing: its live data sources, the
/// filters its block stream is built with, its LFU cache and the pointer of
/// the last block it committed.
pub struct IndexingState {
    pub non_fatal_errors: bool,
    pub disable_fail_fast: bool,
    /// The LFU cache's budget, in bytes.
    pub cache_budget: u64,
    pub templates: Vec<String>,
    pub instance: SubgraphInstance,
    pub filter: CompositeFilter,
    pub entity_lfu_cache: EntityLfuCache,
    pub block_ptr: Option<BlockPtr>,
}

impl IndexingState {
    pub open spec fn wf(&self) -> bool {
        self.entity_lfu_cache.wf()
    }

    /// Every data source was created at or before the block the deployment
    /// points at: a revert to that block keeps them all.
    pub open spec fn settled(&self) -> bool {
        forall|i: int|
            0 <= i < self.instance@.len() ==> match (#[trigger] self.instance@[i]).2 {
                None => true,
                Some(n) => self.block_ptr matches Some(p) && n <= p.number,
            }
    }

    /// A settled state that points at `p` keeps all its data sources through a
    /// revert to `p`; with `lemma_revert_drops_sources_of_block`, reverting a
    /// later block then restores the data sources it had before that block.
    pub proof fn lemma_settled_survives(&self)
        requires
            self.settled(),
            self.block_ptr is Some,
        ensures
            forall|i: int|
                0 <= i < self.instance@.len() ==> survives_revert(
                    #[trigger] self.instance@[i],
                    self.block_ptr.unwrap().number,
                ),
    {
        assert forall|i: int| 0 <= i < self.instance@.len() implies survives_revert(
            #[trigger] self.instance@[i],
            self.block_ptr.unwrap().number,
        ) by {
            assert(match self.instance@[i].2 {
                None => true,
                Some(n) => self.block_ptr matches Some(p) && n <= p.number,
            });
        }
    }

    pub fn new(
        non_fatal_errors: bool,
        disable_fail_fast: bool,
        cache_budget: u64,
        templates: Vec<String>,
        data_sources: Vec<DataSource>,
        block_ptr: Option<BlockPtr>,
    ) -> (r: IndexingState)
        ensures
            r.wf(),
            r.non_fatal_errors == non_fatal_errors,
            r.disable_fail_fast == disable_fail_fast,
            r.cache_budget == cache_budget,
            r.templates == templates,
            r.instance@ == sources_view(data_sources@),
            r.filter@ == sources_view(data_sources@),
            r.entity_lfu_cache@ == Map::<KeyView, Option<EntityView>>::empty(),
            r.block_ptr == block_ptr,
    {
        let filter = CompositeFilter::from_data_sources(&data_sources);
        IndexingState {
            non_fatal_errors,
            disable_fail_fast,
            cache_budget,
            templates,
            instance: SubgraphInstance::new(data_sources),
            filter,
            entity_lfu_cache: EntityLfuCache::new(),
            block_ptr,
        }
    }
}

/// The data sources that requests `infos` create at block `n`, in order:
/// each one whose name and address no host has, nor an earlier one of them.
pub open spec fn fresh_sources(hosts: Seq<SourceView>, infos: Seq<SourceKey>, n: u64) -> Seq<SourceView>
    decreases infos.len(),
{
    if infos.len() == 0 {
        Seq::empty()
    } else {
        let prev = fresh_sources(hosts, infos.drop_last(), n);
        let k = infos.last();
        if contains_key_of(hosts + prev, k) {
            prev
        } else {
            prev.push((k.0, k.1, Some(n)))
        }
    }
}

/// Whether one of `templates` is named `name`.
pub open spec fn template_known(templates: Seq<String>, name: Seq<char>) -> bool {
    has_template(templates.map_values(|t: String| t@), name)
}

/// Whether every request names a known template.
pub open spec fn all_templates_known(templates: Seq<String>, infos: Seq<SourceKey>) -> bool {
    forall|i: int| 0 <= i < infos.len() ==> template_known(templates, (#[trigger] infos[i]).0)
}

/// The number of leading requests that name known templates: the index of
/// the first request whose template is unknown, or the number of requests.
pub open spec fn known_prefix(templates: Seq<String>, infos: Seq<SourceKey>) -> int
    decreases infos.len(),
{
    if infos.len() == 0 {
        0
    } else {
        let p = known_prefix(templates, infos.drop_last());
        if p < infos.len() - 1 {
            p
        } else if template_known(templates, infos.last().0) {
            infos.len() as int
        } else {
            infos.len() - 1
        }
    }
}

proof fn lemma_known_prefix_all(templates: Seq<String>, infos: Seq<SourceKey>)
    requires
        all_templates_known(templates, infos),
    ensures
        known_prefix(templates, infos) == infos.len(),
    decreases infos.len(),
{
    if infos.len() > 0 {
        let d = infos.drop_last();
        assert forall|i: int| 0 <= i < d.len() implies template_known(templates, (#[trigger] d[i]).0) by {
            assert(d[i] == infos[i]);
        }
        lemma_known_prefix_all(templates, d);
        assert(template_known(templates, infos[infos.len() - 1].0));
    }
}

proof fn lemma_known_prefix_stop(templates: Seq<String>, infos: Seq<SourceKey>, k: int)
    requires
        0 <= k < infos.len(),
        all_templates_known(templates, infos.subrange(0, k)),
        !template_known(templates, infos[k].0),
    ensures
        known_prefix(templates, infos) == k,
    decreases infos.len(),
{
    let d = infos.drop_last();
    if infos.len() == k + 1 {
        assert(d =~= infos.subrange(0, k));
        lemma_known_prefix_all(templates, d);
    } else {
        assert(d.subrange(0, k) =~= infos.subrange(0, k));
        assert(d[k] == infos[k]);
        lemma_known_prefix_stop(templates, d, k);
    }
}

pub open spec fn infos_view(infos: Seq<DataSourceTemplateInfo>) -> Seq<SourceKey> {
    infos.map_values(|i: DataSourceTemplateInfo| i@)
}

/// Instantiates the requested data sources at block `block_number` and adds
/// a host for each that no host runs yet. Returns the new data sources; fails
/// where a request names no template.
pub fn create_dynamic_data_sources(
    instance: &mut SubgraphInstance,
    templates: &Vec<String>,
    created: &Vec<DataSourceTemplateInfo>,
    block_number: u64,
) -> (r: Result<Vec<DataSource>, BlockProcessingError>)
    ensures
        r is Ok <==> all_templates_known(templates@, infos_view(created@)),
        r matches Ok(v) ==> sources_view(v@) == fresh_sources(old(instance)@, infos_view(created@), block_number)
            && final(instance)@ == old(instance)@ + sources_view(v@),
        r matches Err(e) ==> e is Unknown,
        r is Err ==> final(instance)@ == old(instance)@ + fresh_sources(
            old(instance)@,
            infos_view(created@).subrange(0, known_prefix(templates@, infos_view(created@))),
            block_number,
        ),
{
    let ghost hosts0 = instance@;
    let ghost iv = infos_view(created@);
    let mut out: Vec<DataSource> = Vec::new();
    let mut i: usize = 0;
    while i < created.len()
        invariant
            i <= created.len(),
            iv == infos_view(created@),
            hosts0 == old(instance)@,
            sources_view(out@) == fresh_sources(hosts0, iv.subrange(0, i as int), block_number),
            instance@ == hosts0 + sources_view(out@),
            all_templates_known(templates@, iv.subrange(0, i as int)),
        decreases created.len() - i,
    {
        proof {
            assert(iv.subrange(0, i as int + 1).drop_last() =~= iv.subrange(0, i as int));
            assert(iv.subrange(0, i as int + 1).last() == created@[i as int]@);
        }
        match instantiate(&created[i], templates, block_number) {
            None => {
                proof {
                    assert(iv[i as int] == created@[i as int]@);
                    lemma_known_prefix_stop(templates@, iv, i as int);
                    assert(known_prefix(templates@, infos_view(created@)) == i);
                    assert(instance@ == old(instance)@ + fresh_sources(
                        old(instance)@,
                        iv.subrange(0, i as int),
                        block_number,
                    ));
                }
                return Err(BlockProcessingError::Unknown("data source template not found".to_owned()));
            },
            Some(ds) => {
                let copy = ds.duplicate();
                let ghost dv = ds@;
                assert(key_of(dv) == iv[i as int]);
                if instance.add_dynamic_data_source(ds) {
                    proof { lemma_sources_push(out@, copy); }
                    out.push(copy);
                    proof {
                        assert(instance@ =~= hosts0 + sources_view(out@));
                    }
                }
                proof {
                    assert(all_templates_known(templates@, iv.subrange(0, i as int + 1))) by {
                        assert forall|j: int| 0 <= j < i + 1 implies template_known(
                            templates@,
                            (#[trigger] iv.subrange(0, i as int + 1)[j]).0,
                        ) by {
                            if j < i {
                                assert(iv.subrange(0, i as int + 1)[j] == iv.subrange(0, i as int)[j]);
                            }
                        }
                    }
                }
            },
        }
        i = i + 1;
    }
    assert(iv.subrange(0, iv.len() as int) =~= iv);
    Ok(out)
}

/// Persists the new data sources with the block and extends the composite
/// filters with theirs.
pub fn persist_dynamic_data_sources(
    filter: &mut CompositeFilter,
    entity_cache: &mut EntityCache,
    data_sources: &Vec<DataSource>,
)
    requires
        old(entity_cache).wf(),
    ensures
        final(entity_cache).wf(),
        final(entity_cache).current_view() == old(entity_cache).current_view(),
        final(entity_cache).updates_view() == old(entity_cache).updates_view(),
        final(entity_cache).data_sources_view() == old(entity_cache).data_sources_view()
            + sources_view(data_sources@),
        final(filter)@ == old(filter)@ + sources_view(data_sources@),
{
    let mut i: usize = 0;
    while i < data_sources.len()
        invariant
            i <= data_sources.len(),
            entity_cache.wf(),
            entity_cache.current_view() == old(entity_cache).current_view(),
            entity_cache.updates_view() == old(entity_cache).updates_view(),
            entity_cache.data_sources_view() == old(entity_cache).data_sources_view()
                + sources_view(data_sources@).subrange(0, i as int),
        decreases data_sources.len() - i,
    {
        entity_cache.add_data_source(&data_sources[i]);
        proof {
            assert(entity_cache.data_sources_view() =~= old(entity_cache).data_sources_view()
                + sources_view(data_sources@).subrange(0, i as int + 1));
        }
        i = i + 1;
    }
    assert(sources_view(data_sources@).subrange(0, data_sources@.len() as int) =~= sources_view(data_sources@));
    filter.extend(data_sources);
}

/// What a committed block hands to the store.
pub struct Transaction {
    pub block_ptr: BlockPtr,
    pub modifications: Vec<EntityModification>,
    pub data_sources: Vec<DataSource>,
    pub deterministic_errors: Vec<SubgraphError>,
    /// Whether the block stream must be rebuilt after this block.
    pub needs_restart: bool,
    /// The LFU cache as the block left it, before eviction.
    pub committed_cache: Ghost<EntityLfuCache>,
}

/// What to do after the store answered a transaction.
pub enum AfterTransact {
    /// The block is done; restart the block stream where the flag is set.
    Done(bool),
    /// Errors were committed under fail-fast: ask the store whether the
    /// deployment is synced.
    CheckSynced,
}

/// One block in progress.
pub struct BlockRun {
    pub block: BlockPtr,
    pub state: BlockState,
    pub poi: Option<ProofOfIndexing>,
    pub needs_restart: bool,
    /// How many dynamic data sources this block has created.
    pub created_count: u64,
}

impl BlockRun {
    /// Starts the block: the run's LFU cache moves into the block state and an
    /// empty cache holds its place; proof of indexing is kept where the store
    /// supports it.
    pub fn begin(ctx: &mut IndexingState, block: BlockPtr, supports_poi: bool) -> (r: BlockRun)
        requires
            old(ctx).wf(),
        ensures
            final(ctx).wf(),
            final(ctx).entity_lfu_cache@ == Map::<KeyView, Option<EntityView>>::empty(),
            final(ctx).instance == old(ctx).instance,
            final(ctx).filter == old(ctx).filter,
            final(ctx).block_ptr == old(ctx).block_ptr,
            final(ctx).non_fatal_errors == old(ctx).non_fatal_errors,
            final(ctx).disable_fail_fast == old(ctx).disable_fail_fast,
            final(ctx).cache_budget == old(ctx).cache_budget,
            final(ctx).templates == old(ctx).templates,
            r.block == block,
            r.state.entity_cache.wf(),
            r.state.entity_cache.current_view() == old(ctx).entity_lfu_cache@,
            r.state.entity_cache.updates_view() == Map::<KeyView, Option<EntityView>>::empty(),
            r.state.entity_cache.data_sources_view() == Seq::<SourceView>::empty(),
            r.state.deterministic_errors@.len() == 0,
            r.state.created_data_sources@.len() == 0,
            r.poi is Some <==> supports_poi,
            r.poi matches Some(p) ==> p.wf() && p.block_number == block.number && p@.len() == 0,
            !r.needs_restart,
            r.created_count == 0,
    {
        let mut cache = EntityLfuCache::new();
        std::mem::swap(&mut cache, &mut ctx.entity_lfu_cache);
        let poi = if supports_poi {
            Some(ProofOfIndexing::new(block.number))
        } else {
            None
        };
        BlockRun { block, state: BlockState::new(cache), poi, needs_restart: false, created_count: 0 }
    }

    /// The outcome of a handler failure during the dispatch of the block's
    /// own triggers, on the trigger that `context` describes: a possible
    /// reorg asks for a restart of the block stream with nothing committed
    /// (`Ok(true)`); any other failure is an unknown error that names the
    /// trigger's block and transaction.
    pub fn on_primary_error(e: MappingError, context: TriggerContext) -> (r: Result<bool, BlockProcessingError>)
        ensures
            match e {
                MappingError::PossibleReorg(_) => r == Ok::<bool, BlockProcessingError>(true),
                MappingError::Unknown(m) => r matches Err(BlockProcessingError::Trigger(m2, c)) && m2 == m
                    && c == context,
            },
    {
        match e {
            MappingError::PossibleReorg(_) => Ok(true),
            MappingError::Unknown(m) => Err(BlockProcessingError::Trigger(m, context)),
        }
    }

    /// The outcome of a handler failure while the triggers of new data
    /// sources are dispatched: the context already holds the new hosts, so
    /// even a possible reorg is an unknown error.
    pub fn on_expansion_error(e: MappingError) -> (r: BlockProcessingError)
        ensures
            r matches BlockProcessingError::Unknown(m) && m == (match e {
                MappingError::PossibleReorg(m) => m,
                MappingError::Unknown(m) => m,
            }),
    {
        match e {
            MappingError::PossibleReorg(m) => BlockProcessingError::Unknown(m),
            MappingError::Unknown(m) => BlockProcessingError::Unknown(m),
        }
    }

    /// One round of the breadth-first expansion: takes every data source
    /// created so far, adds hosts for the new ones, persists them with the
    /// block and extends the filters with theirs. Returns the new data
    /// sources, whose triggers in this block the caller fetches and
    /// dispatches next. Fails, deterministically, where the block would
    /// create more than `MAX_DATA_SOURCES` data sources.
    pub fn expand(&mut self, ctx: &mut IndexingState) -> (r: Result<Vec<DataSource>, BlockProcessingError>)
        requires
            old(self).state.entity_cache.wf(),
        ensures
            final(self).state.entity_cache.wf(),
            final(self).block == old(self).block,
            final(self).state.entity_cache.current_view() == old(self).state.entity_cache.current_view(),
            final(self).state.entity_cache.updates_view() == old(self).state.entity_cache.updates_view(),
            final(ctx).entity_lfu_cache == old(ctx).entity_lfu_cache,
            final(ctx).block_ptr == old(ctx).block_ptr,
            final(ctx).non_fatal_errors == old(ctx).non_fatal_errors,
            final(ctx).disable_fail_fast == old(ctx).disable_fail_fast,
            final(ctx).cache_budget == old(ctx).cache_budget,
            final(ctx).templates == old(ctx).templates,
            final(self).state.created_data_sources@.len() == 0,
            old(self).created_count + old(self).state.created_data_sources@.len() > MAX_DATA_SOURCES
                ==> (r matches Err(e) && e is Deterministic),
            old(self).created_count + old(self).state.created_data_sources@.len() <= MAX_DATA_SOURCES
                ==> final(self).created_count == old(self).created_count
                + old(self).state.created_data_sources@.len(),
            old(self).created_count + old(self).state.created_data_sources@.len() <= MAX_DATA_SOURCES
                ==> (r matches Err(e) ==> e is Unknown),
            old(self).created_count + old(self).state.created_data_sources@.len() <= MAX_DATA_SOURCES
                ==> (r is Ok <==> all_templates_known(
                old(ctx).templates@,
                infos_view(old(self).state.created_data_sources@),
            )),
            r matches Ok(v) ==> {
                &&& sources_view(v@) == fresh_sources(
                    old(ctx).instance@,
                    infos_view(old(self).state.created_data_sources@),
                    old(self).block.number,
                )
                &&& final(ctx).instance@ == old(ctx).instance@ + sources_view(v@)
                &&& final(ctx).filter@ == old(ctx).filter@ + sources_view(v@)
                &&& final(self).state.entity_cache.data_sources_view()
                    == old(self).state.entity_cache.data_sources_view() + sources_view(v@)
                &&& final(self).needs_restart
                &&& final(self).state.deterministic_errors == old(self).state.deterministic_errors
            },
    {
        let created = self.state.drain_created_data_sources();
        let n = created.len();
        if n as u64 > MAX_DATA_SOURCES || self.created_count > MAX_DATA_SOURCES - n as u64 {
            let e = SubgraphError::new(
                "too many dynamic data sources in one block".to_owned(),
                Some(self.block),
                None,
                true,
            );
            return Err(BlockProcessingError::Deterministic(e));
        }
        self.created_count = self.created_count + n as u64;
        let data_sources = match create_dynamic_data_sources(
            &mut ctx.instance,
            &ctx.templates,
            &created,
            self.block.number,
        ) {
            Ok(v) => v,
            Err(e) => return Err(e),
        };
        persist_dynamic_data_sources(&mut ctx.filter, &mut self.state.entity_cache, &data_sources);
        self.needs_restart = true;
        Ok(data_sources)
    }

    /// The check before commit: deterministic errors fail the block unless the
    /// deployment declares non-fatal errors, with the first error reported;
    /// then a canceled block stream stops the block before anything is
    /// committed.
    pub fn gate(self, ctx: &IndexingState, canceled: bool) -> (r: Result<BlockRun, BlockProcessingError>)
        ensures
            self.state.deterministic_errors@.len() > 0 && !ctx.non_fatal_errors ==> (r matches Err(
                BlockProcessingError::Deterministic(e),
            ) && e == self.state.deterministic_errors@[0]),
            !(self.state.deterministic_errors@.len() > 0 && !ctx.non_fatal_errors) && canceled ==> r matches Err(
                BlockProcessingError::Canceled,
            ),
            !(self.state.deterministic_errors@.len() > 0 && !ctx.non_fatal_errors) && !canceled ==> r == Ok::<BlockRun, BlockProcessingError>(self),
    {
        if self.state.has_errors() && !ctx.non_fatal_errors {
            let mut errors = self.state.deterministic_errors;
            let first = errors.remove(0);
            return Err(BlockProcessingError::Deterministic(first));
        }
        if canceled {
            return Err(BlockProcessingError::Canceled);
        }
        Ok(self)
    }

    /// Turns the block into its transaction and installs the next LFU cache,
    /// evicted down to the budget. The block must come after the last
    /// committed one.
    pub fn prepare_commit(self, ctx: &mut IndexingState) -> (r: Result<Transaction, BlockProcessingError>)
        requires
            old(ctx).wf(),
            old(ctx).entity_lfu_cache@ == Map::<KeyView, Option<EntityView>>::empty(),
            self.state.entity_cache.wf(),
        ensures
            final(ctx).wf(),
            final(ctx).instance == old(ctx).instance,
            final(ctx).filter == old(ctx).filter,
            final(ctx).block_ptr == old(ctx).block_ptr,
            final(ctx).non_fatal_errors == old(ctx).non_fatal_errors,
            final(ctx).disable_fail_fast == old(ctx).disable_fail_fast,
            final(ctx).cache_budget == old(ctx).cache_budget,
            final(ctx).templates == old(ctx).templates,
            r is Err <==> (old(ctx).block_ptr matches Some(p) && p.number >= self.block.number),
            r matches Err(e) ==> e is Unknown,
            r matches Ok(t) ==> {
                &&& t.block_ptr == self.block
                &&& t.needs_restart == self.needs_restart
                &&& t.deterministic_errors == self.state.deterministic_errors
                &&& sources_view(t.data_sources@) == self.state.entity_cache.data_sources_view()
                &&& modifications_match(t.modifications@, self.state.entity_cache.updates_view())
                &&& final(ctx).entity_lfu_cache.total_weight_spec() <= old(ctx).cache_budget
                &&& t.committed_cache@.wf()
                &&& t.committed_cache@@ == self.state.entity_cache.known()
                &&& forall|k: KeyView|
                    #[trigger] t.committed_cache@@.contains_key(k) ==> t.committed_cache@.frequency(k)
                        == committed_frequency(
                        self.state.entity_cache.lfu(),
                        self.state.entity_cache.updates_view(),
                        k,
                    )
                &&& evicted(t.committed_cache@, final(ctx).entity_lfu_cache, old(ctx).cache_budget)
            },
    {
        if let Some(p) = &ctx.block_ptr {
            if p.number >= self.block.number {
                return Err(BlockProcessingError::Unknown("block pointer does not advance".to_owned()));
            }
        }
        let m = self.state.entity_cache.as_modifications();
        let mut cache = m.entity_lfu_cache;
        let ghost before_eviction = cache;
        cache.evict(ctx.cache_budget);
        assert(evicted(before_eviction, cache, ctx.cache_budget));
        ctx.entity_lfu_cache = cache;
        Ok(
            Transaction {
                block_ptr: self.block,
                modifications: m.modifications,
                data_sources: m.data_sources,
                deterministic_errors: self.state.deterministic_errors,
                needs_restart: self.needs_restart,
                committed_cache: Ghost(before_eviction),
            },
        )
    }
}

/// The modifications hold, once each, every written key with its last value.
pub open spec fn modifications_match(mods: Seq<EntityModification>, updates: Map<KeyView, Option<EntityView>>) -> bool {
    &&& forall|i: int, j: int| 0 <= i < j < mods.len() ==> (#[trigger] mods[i])@.0 != (#[trigger] mods[j])@.0
    &&& forall|i: int| 0 <= i < mods.len() ==> updates.contains_key((#[trigger] mods[i])@.0)
        && updates[mods[i]@.0] == mods[i]@.1
    &&& forall|k: KeyView| #[trigger] updates.contains_key(k) ==> exists|i: int| 0 <= i < mods.len() && (#[trigger] mods[i])@.0 == k
}

/// The outcome of the store's answer to the transaction of `block`. On
/// success the deployment points at the block; errors committed under
/// fail-fast lead to a check of whether the deployment is synced.
pub fn after_transact(
    ctx: &mut IndexingState,
    block: BlockPtr,
    needs_restart: bool,
    has_errors: bool,
    result: Result<(), String>,
) -> (r: Result<AfterTransact, BlockProcessingError>)
    ensures
        final(ctx).entity_lfu_cache == old(ctx).entity_lfu_cache,
        final(ctx).instance == old(ctx).instance,
        final(ctx).filter == old(ctx).filter,
        final(ctx).non_fatal_errors == old(ctx).non_fatal_errors,
        final(ctx).disable_fail_fast == old(ctx).disable_fail_fast,
        final(ctx).cache_budget == old(ctx).cache_budget,
        final(ctx).templates == old(ctx).templates,
        result is Err ==> (r matches Err(e) && e is Unknown) && final(ctx).block_ptr == old(ctx).block_ptr,
        result is Ok ==> final(ctx).block_ptr == Some(block) && r is Ok,
        result is Ok && (forall|i: int|
            0 <= i < old(ctx).instance@.len() ==> survives_revert(
                #[trigger] old(ctx).instance@[i],
                block.number,
            )) ==> final(ctx).settled(),
        result is Ok && has_errors && !old(ctx).disable_fail_fast ==> r matches Ok(AfterTransact::CheckSynced),
        result is Ok && !(has_errors && !old(ctx).disable_fail_fast) ==> (r matches Ok(AfterTransact::Done(b)) && b == needs_restart),
{
    match result {
        Err(m) => Err(BlockProcessingError::Unknown(m)),
        Ok(()) => {
            ctx.block_ptr = Some(block);
            if has_errors && !ctx.disable_fail_fast {
                Ok(AfterTransact::CheckSynced)
            } else {
                Ok(AfterTransact::Done(needs_restart))
            }
        },
    }
}

/// The outcome of the check whether the deployment is synced, after errors
/// were committed under fail-fast: `Ok(true)` asks to unassign the
/// deployment; `Ok(false)`, a synced deployment, keeps running.
pub fn after_synced_check(synced: Result<bool, String>) -> (r: Result<bool, BlockProcessingError>)
    ensures
        synced matches Ok(s) ==> r == Ok::<bool, BlockProcessingError>(!s),
        synced is Err ==> (r matches Err(e) && e is Unknown),
{
    match synced {
        Ok(s) => Ok(!s),
        Err(m) => Err(BlockProcessingError::Unknown(m)),
    }
}

/// The outcome of unassigning the deployment: the block ends as canceled,
/// so that the loop stops without marking the deployment failed, as the
/// committed errors already made it unhealthy.
pub fn after_unassign(result: Result<(), String>) -> (r: BlockProcessingError)
    ensures
        result is Ok ==> r is Canceled,
        result is Err ==> r is Unknown,
{
    match result {
        Ok(()) => BlockProcessingError::Canceled,
        Err(m) => BlockProcessingError::Unknown(m),
    }
}

/// The context given to the failure of `trigger` in `block`.
pub fn trigger_context(block: BlockPtr, trigger: &Trigger) -> (r: TriggerContext)
    ensures
        r.block == block,
        r.transaction == (match trigger.kind {
            TriggerKind::Block => None,
            _ => trigger.transaction_hash,
        }),
{
    TriggerContext { block, transaction: trigger.error_transaction() }
}

} // verus!
