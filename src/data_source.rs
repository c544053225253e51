//! Data sources, the templates they are made from, the set of live runtime
//! hosts and the composite filters that the block stream is built with.
use vstd::prelude::*;

verus! {

/// A binding of chain filters to handlers. Static data sources come from the
/// manifest (`created_at` is `None`); dynamic ones are made from a template by
/// a handler, at the block `created_at`.
pub struct DataSource {
    pub name: String,
    pub address: Option<String>,
    pub created_at: Option<u64>,
}

/// A request, made by a handler, to create a data source from a template.
pub struct DataSourceTemplateInfo {
    pub template: String,
    pub address: Option<String>,
}

/// What tells two data sources apart: the name and the address.
pub type SourceKey = (Seq<char>, Option<Seq<char>>);

/// The view of a data source: name, address and creation block.
pub type SourceView = (Seq<char>, Option<Seq<char>>, Option<u64>);

pub open spec fn opt_str_view(a: Option<String>) -> Option<Seq<char>> {
    match a {
        Some(s) => Some(s@),
        None => None,
    }
}

impl View for DataSource {
    type V = SourceView;

    open spec fn view(&self) -> SourceView {
        (self.name@, opt_str_view(self.address), self.created_at)
    }
}

impl View for DataSourceTemplateInfo {
    type V = SourceKey;

    open spec fn view(&self) -> SourceKey {
        (self.template@, opt_str_view(self.address))
    }
}

pub open spec fn key_of(v: SourceView) -> SourceKey {
    (v.0, v.1)
}

/// The views of a sequence of data sources.
pub open spec fn sources_view(s: Seq<DataSource>) -> Seq<SourceView> {
    s.map_values(|d: DataSource| d@)
}

pub proof fn lemma_sources_push(s: Seq<DataSource>, d: DataSource)
    ensures
        sources_view(s.push(d)) == sources_view(s).push(d@),
{
    assert(sources_view(s.push(d)) =~= sources_view(s).push(d@));
}

fn copy_address(a: &Option<String>) -> (r: Option<String>)
    ensures
        opt_str_view(r) == opt_str_view(*a),
{
    match a {
        Some(s) => Some(s.clone()),
        None => None,
    }
}

fn same_address(a: &Option<String>, b: &Option<String>) -> (r: bool)
    ensures
        r == (opt_str_view(*a) == opt_str_view(*b)),
{
    match (a, b) {
        (Some(x), Some(y)) => *x == *y,
        (None, None) => true,
        _ => false,
    }
}

impl DataSource {
    pub fn new(name: String, address: Option<String>, created_at: Option<u64>) -> (r: DataSource)
        ensures
            r@ == (name@, opt_str_view(address), created_at),
    {
        DataSource { name, address, created_at }
    }

    /// A copy of the data source.
    pub fn duplicate(&self) -> (r: DataSource)
        ensures
            r@ == self@,
    {
        DataSource {
            name: self.name.clone(),
            address: copy_address(&self.address),
            created_at: self.created_at,
        }
    }

    /// Whether the two data sources have the same name and address.
    pub fn same_source(&self, other: &DataSource) -> (r: bool)
        ensures
            r == (key_of(self@) == key_of(other@)),
    {
        self.name == other.name && same_address(&self.address, &other.address)
    }
}

/// Whether `name` is the name of one of `templates`.
pub open spec fn has_template(templates: Seq<Seq<char>>, name: Seq<char>) -> bool {
    exists|i: int| 0 <= i < templates.len() && templates[i] == name
}

/// Instantiates the template that `info` names, at block `block_number`. The
/// data source takes the template's name; `None` where no template has that
/// name.
pub fn instantiate(info: &DataSourceTemplateInfo, templates: &Vec<String>, block_number: u64) -> (r:
    Option<DataSource>)
    ensures
        r.is_some() == has_template(templates@.map_values(|t: String| t@), info.template@),
        r.is_some() ==> r.unwrap()@ == (info.template@, opt_str_view(info.address), Some(
            block_number,
        )),
{
    let ghost names = templates@.map_values(|t: String| t@);
    let mut i: usize = 0;
    while i < templates.len()
        invariant
            i <= templates.len(),
            names == templates@.map_values(|t: String| t@),
            forall|j: int| 0 <= j < i ==> names[j] != info.template@,
        decreases templates.len() - i,
    {
        if templates[i] == info.template {
            assert(names[i as int] == info.template@);
            return Some(
                DataSource {
                    name: info.template.clone(),
                    address: copy_address(&info.address),
                    created_at: Some(block_number),
                },
            );
        }
        i = i + 1;
    }
    None
}

/// The live data sources of a deployment, each with its runtime host.
pub struct SubgraphInstance {
    pub hosts: Vec<DataSource>,
}

/// Whether `k` is the key of one of `s`.
pub open spec fn contains_key_of(s: Seq<SourceView>, k: SourceKey) -> bool {
    exists|i: int| 0 <= i < s.len() && key_of(s[i]) == k
}

/// What a revert to the block `parent_number` keeps: the static data sources
/// and the dynamic ones created at or before that block.
pub open spec fn survives_revert(v: SourceView, parent_number: u64) -> bool {
    match v.2 {
        None => true,
        Some(n) => n <= parent_number,
    }
}

/// The data sources of `s`, in order, that a revert to `parent_number` keeps.
pub open spec fn kept_after_revert(s: Seq<SourceView>, parent_number: u64) -> Seq<SourceView>
    decreases s.len(),
{
    if s.len() == 0 {
        s
    } else {
        let rest = kept_after_revert(s.drop_last(), parent_number);
        if survives_revert(s.last(), parent_number) {
            rest.push(s.last())
        } else {
            rest
        }
    }
}

impl SubgraphInstance {
    pub open spec fn view(&self) -> Seq<SourceView> {
        sources_view(self.hosts@)
    }

    pub fn new(hosts: Vec<DataSource>) -> (r: SubgraphInstance)
        ensures
            r@ == sources_view(hosts@),
    {
        SubgraphInstance { hosts }
    }

    /// Whether a host runs a data source with the name and address of `ds`.
    pub fn has_host(&self, ds: &DataSource) -> (r: bool)
        ensures
            r == contains_key_of(self@, key_of(ds@)),
    {
        let mut i: usize = 0;
        while i < self.hosts.len()
            invariant
                i <= self.hosts.len(),
                forall|j: int| 0 <= j < i ==> key_of(self@[j]) != key_of(ds@),
            decreases self.hosts.len() - i,
        {
            if self.hosts[i].same_source(ds) {
                assert(key_of(self@[i as int]) == key_of(ds@));
                return true;
            }
            i = i + 1;
        }
        false
    }

    /// Adds a host for `ds`, unless one with the same name and address runs
    /// already. Returns whether it was added.
    pub fn add_dynamic_data_source(&mut self, ds: DataSource) -> (r: bool)
        ensures
            r == !contains_key_of(old(self)@, key_of(ds@)),
            final(self)@ == if r {
                old(self)@.push(ds@)
            } else {
                old(self)@
            },
    {
        if self.has_host(&ds) {
            false
        } else {
            let ghost v = ds@;
            self.hosts.push(ds);
            assert(self@ =~= old(self)@.push(v));
            true
        }
    }

    /// Removes the dynamic data sources created after the block `parent_number`.
    pub fn revert_data_sources(&mut self, parent_number: u64)
        ensures
            final(self)@ == kept_after_revert(old(self)@, parent_number),
    {
        let ghost start = self@;
        let mut kept: Vec<DataSource> = Vec::new();
        let mut i: usize = 0;
        while i < self.hosts.len()
            invariant
                start == self@,
                i <= self.hosts.len(),
                sources_view(kept@) == kept_after_revert(start.subrange(0, i as int), parent_number),
            decreases self.hosts.len() - i,
        {
            let d = self.hosts[i].duplicate();
            proof {
                assert(start.subrange(0, i as int + 1).drop_last() =~= start.subrange(0, i as int));
                assert(d@ == start[i as int]);
            }
            let keep = match d.created_at {
                None => true,
                Some(n) => n <= parent_number,
            };
            if keep {
                proof { lemma_sources_push(kept@, d); }
                kept.push(d);
            }
            proof {
                assert(start.subrange(0, i as int + 1).last() == start[i as int]);
                assert(sources_view(kept@) == kept_after_revert(
                    start.subrange(0, i as int + 1),
                    parent_number,
                ));
            }
            i = i + 1;
        }
        assert(start.subrange(0, start.len() as int) =~= start);
        self.hosts = kept;
    }
}

/// The union of the filters of all data sources, kept as the keys of the
/// sources whose triggers the block stream must deliver. It is only ever
/// extended.
pub struct CompositeFilter {
    pub sources: Vec<DataSource>,
}

impl CompositeFilter {
    pub open spec fn view(&self) -> Seq<SourceView> {
        sources_view(self.sources@)
    }

    /// The filter of the data sources `sources`.
    pub fn from_data_sources(sources: &Vec<DataSource>) -> (r: CompositeFilter)
        ensures
            r@ == sources_view(sources@),
    {
        let mut out: Vec<DataSource> = Vec::new();
        let mut i: usize = 0;
        while i < sources.len()
            invariant
                i <= sources.len(),
                sources_view(out@) == sources_view(sources@).subrange(0, i as int),
            decreases sources.len() - i,
        {
            let d = sources[i].duplicate();
            proof { lemma_sources_push(out@, d); }
            out.push(d);
            proof {
                assert(sources_view(out@) =~= sources_view(sources@).subrange(0, i as int + 1));
            }
            i = i + 1;
        }
        assert(sources_view(sources@).subrange(0, sources@.len() as int) =~= sources_view(sources@));
        CompositeFilter { sources: out }
    }

    /// Adds the filters of `sources`.
    pub fn extend(&mut self, sources: &Vec<DataSource>)
        ensures
            final(self)@ == old(self)@ + sources_view(sources@),
    {
        let mut i: usize = 0;
        while i < sources.len()
            invariant
                i <= sources.len(),
                self@ == old(self)@ + sources_view(sources@).subrange(0, i as int),
            decreases sources.len() - i,
        {
            let d = sources[i].duplicate();
            proof { lemma_sources_push(self.sources@, d); }
            self.sources.push(d);
            proof {
                assert(self@ =~= old(self)@ + sources_view(sources@).subrange(0, i as int + 1));
            }
            i = i + 1;
        }
        assert(sources_view(sources@).subrange(0, sources@.len() as int) =~= sources_view(sources@));
    }
}

} // verus!
