//! What the daemon knows: executables, maps, how they belong together, and the rules by which
//! stale entries are pruned.

pub mod active_set;
pub mod exe_map_index;
pub mod exe_store;
pub mod laws;
pub mod map_store;
pub mod markov_graph;
pub mod model;
pub mod oldest;
pub mod outcomes;
pub mod policy;
pub mod prune;

pub use active_set::ActiveSet;
pub use exe_map_index::ExeMapIndex;
pub use exe_store::ExeStore;
pub use map_store::MapStore;
pub use markov_graph::{EdgeKey, MarkovEdge, MarkovGraph};
pub use policy::{PrunePolicy, PruneReport};

use crate::domain::{ExeId, ExeKey, MapId, MapKey, MapSegment, MarkovState};
use crate::paths::canonical;
use rustc_hash::FxHashSet;
use vstd::prelude::*;

verus! {

/// Everything the daemon knows.
#[derive(Debug)]
pub struct Stores {
    pub exes: ExeStore,
    pub maps: MapStore,
    pub exe_maps: ExeMapIndex,
    pub markov: MarkovGraph,
    pub active: ActiveSet,
    pub model_time: u64,
    pub last_accounting_time: u64,
}

impl View for Stores {
    type V = model::StoresView;

    open spec fn view(&self) -> model::StoresView {
        model::StoresView {
            exes: self.exes@,
            maps: self.maps@,
            exe_maps: self.exe_maps@,
            markov: self.markov@,
            active: self.active@,
            model_time: self.model_time,
            last_accounting_time: self.last_accounting_time,
            next_exe: self.exes.next_id(),
            next_map: self.maps.next_id(),
        }
    }
}

impl Default for Stores {
    fn default() -> (stores: Stores)
        ensures
            stores.wf(),
            stores@ == (model::StoresView {
                exes: Map::empty(),
                maps: Map::empty(),
                exe_maps: Set::empty(),
                markov: Map::empty(),
                active: Set::empty(),
                model_time: 0,
                last_accounting_time: 0,
                next_exe: 0,
                next_map: 0,
            }),
    {
        Stores {
            exes: ExeStore::new(),
            maps: MapStore::new(),
            exe_maps: ExeMapIndex::new(),
            markov: MarkovGraph::new(),
            active: ActiveSet::new(),
            model_time: 0,
            last_accounting_time: 0,
        }
    }
}

impl Stores {
    /// What holds of all stores.
    pub open spec fn wf(&self) -> bool {
        &&& self.exes.wf()
        &&& self.maps.wf()
        &&& self.exe_maps.wf()
        &&& self.markov.wf()
        &&& self.active.wf()
    }

    /// The contents of all stores are valid.
    pub proof fn contents_are_valid(&self)
        requires
            self.wf(),
        ensures
            self@.valid(),
    {
        self.exes.keys_are_unique();
        self.maps.keys_are_unique();
        self.markov.is_finite();
    }

    /// The identifier of the executable with the key `key`, which is added where it is not known.
    pub fn ensure_exe(&mut self, key: ExeKey) -> (id: ExeId)
        requires
            old(self).wf(),
            exe_store::has_exe(old(self)@.exes, canonical(key@)) || old(self)@.next_exe < u64::MAX,
        ensures
            final(self).wf(),
            old(self)@.exe_ensured(final(self)@, key@, id),
    {
        self.exes.ensure(key)
    }

    /// The identifier of the map with the key of `segment`. A map that is not known is added; one
    /// that is known counts as observed again at the time of `segment`.
    pub fn ensure_map(&mut self, segment: MapSegment) -> (id: MapId)
        requires
            old(self).wf(),
            map_store::has_map(old(self)@.maps, segment@.key()) || old(self)@.next_map < u64::MAX,
        ensures
            final(self).wf(),
            old(self)@.map_ensured(final(self)@, segment@, id),
    {
        self.maps.ensure(segment)
    }

    /// Does what [`Stores::ensure_map`] does, and tells whether the map is new.
    pub fn ensure_map_with_flag(&mut self, segment: MapSegment) -> (ensured: (MapId, bool))
        requires
            old(self).wf(),
            map_store::has_map(old(self)@.maps, segment@.key()) || old(self)@.next_map < u64::MAX,
        ensures
            final(self).wf(),
            old(self)@.map_ensured(final(self)@, segment@, ensured.0),
            ensured.1 == !map_store::has_map(old(self)@.maps, segment@.key()),
    {
        self.maps.ensure_with_flag(segment)
    }

    /// Records that `exe_id` maps `map_id`.
    pub fn attach_map(&mut self, exe_id: ExeId, map_id: MapId)
        requires
            old(self).wf(),
        ensures
            final(self).wf(),
            final(self)@ == (model::StoresView {
                exe_maps: old(self)@.exe_maps.insert((exe_id, map_id)),
                ..old(self)@
            }),
    {
        self.exe_maps.attach(exe_id, map_id);
    }

    /// Joins `a` and `b` by an edge, in the state `state` since `now`, unless they are joined
    /// already. Returns whether the edge is new.
    pub fn ensure_markov_edge(&mut self, a: ExeId, b: ExeId, now: u64, state: MarkovState) -> (new:
        bool)
        requires
            old(self).wf(),
        ensures
            final(self).wf(),
            new == !old(self)@.markov.contains_key(EdgeKey::between(a, b)),
            final(self)@ == (model::StoresView {
                markov: if new {
                    old(self)@.markov.insert(
                        EdgeKey::between(a, b),
                        markov_graph::edge_between(a, b, now, state),
                    )
                } else {
                    old(self)@.markov
                },
                ..old(self)@
            }),
    {
        self.markov.ensure_edge(a, b, now, state)
    }

    /// Forgets the map with the key `key`, and who maps it.
    pub fn remove_map_by_key(&mut self, key: &MapKey)
        requires
            old(self).wf(),
        ensures
            final(self).wf(),
            final(self)@ == old(self)@.without_maps(old(self)@.maps_with_key(key@.identity())),
    {
        proof {
            self.maps.keys_are_unique();
        }
        if let Some(id) = self.maps.id_by_key(key) {
            self.remove_map(id);
            assert(old(self)@.maps_with_key(key@.identity()) =~= set![id]);
        } else {
            assert(old(self)@.maps_with_key(key@.identity()) =~= Set::empty());
            assert(self@ =~= old(self)@.without_maps(Set::empty()));
        }
    }

    /// Forgets the executable `exe_id`: itself, that it is active, and what it maps. Its edges
    /// stay until the next prune.
    pub fn remove_exe(&mut self, exe_id: ExeId)
        requires
            old(self).wf(),
        ensures
            final(self).wf(),
            final(self)@ == old(self)@.without_exes(set![exe_id]),
    {
        self.active.remove(exe_id);
        self.exe_maps.remove_exe(exe_id);
        self.exes.remove(exe_id);
        assert(self@ =~= old(self)@.without_exes(set![exe_id]));
    }

    /// Forgets the map `map_id`, and who maps it.
    pub fn remove_map(&mut self, map_id: MapId)
        requires
            old(self).wf(),
        ensures
            final(self).wf(),
            final(self)@ == old(self)@.without_maps(set![map_id]),
    {
        self.exe_maps.detach_map(map_id);
        self.maps.remove(map_id);
        assert(self@ =~= old(self)@.without_maps(set![map_id]));
    }

    /// The active executables.
    pub fn active_exes(&self) -> (exes: FxHashSet<ExeId>)
        ensures
            exes@ == self@.active,
    {
        self.active.exes()
    }
}

} // verus!
