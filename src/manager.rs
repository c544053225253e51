//! The fleet-level registry of running deployments: for each deployment the
//! cancel guard of its block stream, and the count of deployments indexed.
use vstd::prelude::*;

verus! {

/// The view of the registry: (deployment id, cancel guard) pairs.
pub type RegistryView = Seq<(Seq<char>, u64)>;

/// `s` without the entries of `id`.
pub open spec fn without(s: RegistryView, id: Seq<char>) -> RegistryView
    decreases s.len(),
{
    if s.len() == 0 {
        s
    } else {
        let rest = without(s.drop_last(), id);
        if s.last().0 == id {
            rest
        } else {
            rest.push(s.last())
        }
    }
}

/// Whether `s` has an entry for `id`.
pub open spec fn registered(s: RegistryView, id: Seq<char>) -> bool {
    exists|i: int| 0 <= i < s.len() && (#[trigger] s[i]).0 == id
}

proof fn lemma_without_absent(s: RegistryView, id: Seq<char>)
    requires
        !registered(s, id),
    ensures
        without(s, id) == s,
    decreases s.len(),
{
    if s.len() > 0 {
        assert(s.last() == s[s.len() - 1]);
        assert forall|i: int| 0 <= i < s.drop_last().len() implies (#[trigger] s.drop_last()[i]).0 != id by {
            assert(s.drop_last()[i] == s[i]);
        }
        lemma_without_absent(s.drop_last(), id);
        assert(s.drop_last().push(s.last()) =~= s);
    }
}

/// The deployments being indexed, each with the cancel guard of its block
/// stream; dropping a guard shuts the stream down.
pub struct SubgraphInstanceManager {
    instances: Vec<(String, u64)>,
    deployment_count: u64,
}

impl SubgraphInstanceManager {
    pub closed spec fn view(&self) -> RegistryView {
        self.instances@.map_values(|e: (String, u64)| (e.0@, e.1))
    }

    /// The `deployment_count` gauge.
    pub closed spec fn count(&self) -> nat {
        self.deployment_count as nat
    }

    /// No deployment is registered.
    pub fn new() -> (r: SubgraphInstanceManager)
        ensures
            r@ == RegistryView::empty(),
            r.count() == 0,
    {
        let r = SubgraphInstanceManager { instances: Vec::new(), deployment_count: 0 };
        assert(r@ =~= RegistryView::empty());
        r
    }

    pub fn deployment_count(&self) -> (r: u64)
        ensures
            r == self.count(),
    {
        self.deployment_count
    }

    /// Whether `id` has a cancel guard registered.
    pub fn is_registered(&self, id: &String) -> (r: bool)
        ensures
            r == registered(self@, id@),
    {
        let mut i: usize = 0;
        while i < self.instances.len()
            invariant
                i <= self.instances.len(),
                forall|j: int| 0 <= j < i ==> (#[trigger] self@[j]).0 != id@,
            decreases self.instances.len() - i,
        {
            if self.instances[i].0 == *id {
                assert(self@[i as int].0 == id@);
                return true;
            }
            i = i + 1;
        }
        false
    }

    /// Removes the cancel guard of `id`, which shuts its block stream down.
    /// Returns the guard where there was one.
    pub fn remove_guard(&mut self, id: &String) -> (r: Option<u64>)
        ensures
            final(self)@ == without(old(self)@, id@),
            r is Some <==> registered(old(self)@, id@),
            final(self).count() == old(self).count(),
    {
        let ghost start = self@;
        let mut kept: Vec<(String, u64)> = Vec::new();
        let mut removed: Option<u64> = None;
        let mut i: usize = 0;
        while i < self.instances.len()
            invariant
                start == self@,
                i <= self.instances.len(),
                kept@.map_values(|e: (String, u64)| (e.0@, e.1)) == without(start.subrange(0, i as int), id@),
                removed is Some <==> exists|j: int| 0 <= j < i && (#[trigger] start[j]).0 == id@,
            decreases self.instances.len() - i,
        {
            proof {
                assert(start.subrange(0, i as int + 1).drop_last() =~= start.subrange(0, i as int));
                assert(start.subrange(0, i as int + 1).last() == start[i as int]);
            }
            if self.instances[i].0 == *id {
                removed = Some(self.instances[i].1);
                assert(start[i as int].0 == id@);
            } else {
                let ghost before = kept@;
                kept.push((self.instances[i].0.clone(), self.instances[i].1));
                proof {
                    assert(kept@.map_values(|e: (String, u64)| (e.0@, e.1)) =~= before.map_values(
                        |e: (String, u64)| (e.0@, e.1),
                    ).push(start[i as int]));
                }
            }
            proof {
                assert((exists|j: int| 0 <= j < i + 1 && (#[trigger] start[j]).0 == id@) == ((exists|j: int|
                    0 <= j < i && (#[trigger] start[j]).0 == id@) || start[i as int].0 == id@));
            }
            i = i + 1;
        }
        assert(start.subrange(0, start.len() as int) =~= start);
        self.instances = kept;
        removed
    }

    /// Registers `guard` as the cancel guard of `id`, in place of any guard it
    /// had, which is returned so that the caller drops it.
    pub fn install_guard(&mut self, id: String, guard: u64) -> (r: Option<u64>)
        ensures
            final(self)@ == without(old(self)@, id@).push((id@, guard)),
            r is Some <==> registered(old(self)@, id@),
            final(self).count() == old(self).count(),
    {
        let r = self.remove_guard(&id);
        let ghost before = self.instances@;
        let ghost e = (id@, guard);
        self.instances.push((id, guard));
        assert(self@ =~= before.map_values(|e: (String, u64)| (e.0@, e.1)).push(e));
        r
    }

    /// Counts a deployment whose start succeeded.
    pub fn on_started(&mut self)
        ensures
            final(self)@ == old(self)@,
            final(self).count() == if old(self).count() < u64::MAX {
                old(self).count() + 1
            } else {
                old(self).count()
            },
    {
        self.deployment_count = self.deployment_count.saturating_add(1);
    }

    /// Stops the deployment `id`: its cancel guard is dropped, which shuts
    /// its block stream and its loop down, and the count goes down by one.
    /// Stopping a deployment that is not registered changes nothing.
    pub fn stop_subgraph(&mut self, id: &String) -> (r: Option<u64>)
        ensures
            final(self)@ == without(old(self)@, id@),
            !registered(final(self)@, id@),
            registered(old(self)@, id@) ==> r is Some && final(self).count() == if old(self).count() > 0 {
                old(self).count() - 1
            } else {
                0
            },
            !registered(old(self)@, id@) ==> r is None && final(self)@ == old(self)@ && final(self).count()
                == old(self).count(),
    {
        let r = self.remove_guard(id);
        proof {
            lemma_without_drops(old(self)@, id@);
            if !registered(old(self)@, id@) {
                lemma_without_absent(old(self)@, id@);
            }
        }
        if r.is_some() {
            self.deployment_count = self.deployment_count.saturating_sub(1);
        }
        r
    }
}

proof fn lemma_without_drops(s: RegistryView, id: Seq<char>)
    ensures
        !registered(without(s, id), id),
    decreases s.len(),
{
    if s.len() > 0 {
        lemma_without_drops(s.drop_last(), id);
        let rest = without(s.drop_last(), id);
        let w = without(s, id);
        if registered(w, id) {
            let i = choose|i: int| 0 <= i < w.len() && (#[trigger] w[i]).0 == id;
            if i < rest.len() {
                assert(w[i] == rest[i]);
            }
        }
    }
}

/// Stopping is idempotent: stopping a deployment a second time changes
/// neither the registry nor the count.
pub proof fn lemma_stop_idempotent(s: RegistryView, id: Seq<char>)
    ensures
        !registered(without(s, id), id),
        without(without(s, id), id) == without(s, id),
{
    lemma_without_drops(s, id);
    lemma_without_absent(without(s, id), id);
}

} // verus!
