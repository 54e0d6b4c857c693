//! What the stores hold, and what pruning leaves of it.

use crate::domain::{Exe, ExeId, MapId, MapKeyView, MapSegmentView};
use crate::paths::canonical;
use crate::stores::exe_store::{has_exe, ExeView};
use crate::stores::map_store::has_map;
use crate::stores::markov_graph::{EdgeKey, MarkovEdge};
use crate::stores::oldest::oldest;
use crate::stores::policy::PrunePolicy;
use vstd::prelude::*;

verus! {

/// The contents of [`Stores`](crate::stores::Stores).
#[verifier::ext_equal]
pub struct StoresView {
    pub exes: Map<ExeId, ExeView>,
    pub maps: Map<MapId, MapSegmentView>,
    pub exe_maps: Set<(ExeId, MapId)>,
    pub markov: Map<EdgeKey, MarkovEdge>,
    pub active: Set<ExeId>,
    pub model_time: u64,
    pub last_accounting_time: u64,
    pub next_exe: ExeId,
    pub next_map: MapId,
}

/// Whether an idle executable has not been seen for more than `max_age` at `now`, or never.
pub open spec fn is_stale(exe: Exe, max_age: u64, now: u64) -> bool {
    !exe.running && match exe.last_seen_time {
        None => true,
        Some(last) => now - last > max_age,
    }
}

/// The idle executables, each with the time it was last seen, or zero for one never seen.
pub open spec fn idle_times(exes: Map<ExeId, ExeView>) -> Map<ExeId, u64> {
    Map::new(
        |id: ExeId| exes.contains_key(id) && !exes[id].exe.running,
        |id: ExeId|
            match exes[id].exe.last_seen_time {
                Some(last) => last,
                None => 0,
            },
    )
}

impl StoresView {
    /// What holds of the contents of all stores: they are finite, no two executables and no two
    /// maps have the same key, and every identifier in use has been given out.
    pub open spec fn valid(self) -> bool {
        &&& self.exes.dom().finite()
        &&& self.maps.dom().finite()
        &&& self.markov.dom().finite()
        &&& forall|id: ExeId| #[trigger] self.exes.contains_key(id) ==> id < self.next_exe
        &&& forall|id: MapId| #[trigger] self.maps.contains_key(id) ==> id < self.next_map
        &&& forall|a: ExeId, b: ExeId| #[trigger]
            self.exes.contains_key(a) && #[trigger] self.exes.contains_key(b) && self.exes[a].key()
                == self.exes[b].key() ==> a == b
        &&& forall|a: MapId, b: MapId| #[trigger]
            self.maps.contains_key(a) && #[trigger] self.maps.contains_key(b)
                && self.maps[a].key() == self.maps[b].key() ==> a == b
    }

    /// Whether ensuring the executable at `path` gives the identifier `id` and leads to the stores
    /// `after`.
    pub open spec fn exe_ensured(self, after: StoresView, path: Seq<u8>, id: ExeId) -> bool {
        if has_exe(self.exes, canonical(path)) {
            &&& self.exes.contains_key(id)
            &&& self.exes[id].key() == canonical(path)
            &&& after == self
        } else {
            &&& id == self.next_exe
            &&& !self.exes.contains_key(id)
            &&& after == (StoresView {
                exes: self.exes.insert(id, ExeView { path, exe: Exe::unseen() }),
                next_exe: (id + 1) as u64,
                ..self
            })
        }
    }

    /// Whether ensuring `segment` gives the identifier `id` and leads to the stores `after`.
    pub open spec fn map_ensured(
        self,
        after: StoresView,
        segment: MapSegmentView,
        id: MapId,
    ) -> bool {
        if has_map(self.maps, segment.key()) {
            &&& self.maps.contains_key(id)
            &&& self.maps[id].key() == segment.key()
            &&& after == (StoresView {
                maps: self.maps.insert(
                    id,
                    MapSegmentView { update_time: segment.update_time, ..self.maps[id] },
                ),
                ..self
            })
        } else {
            &&& id == self.next_map
            &&& !self.maps.contains_key(id)
            &&& after == (StoresView {
                maps: self.maps.insert(id, segment),
                next_map: (id + 1) as u64,
                ..self
            })
        }
    }

    /// The stores without the executables `dropped`.
    pub open spec fn without_exes(self, dropped: Set<ExeId>) -> StoresView {
        StoresView {
            exes: self.exes.remove_keys(dropped),
            active: self.active.difference(dropped),
            exe_maps: self.exe_maps.filter(|pair: (ExeId, MapId)| !dropped.contains(pair.0)),
            ..self
        }
    }

    /// The stores without the maps `dropped`.
    pub open spec fn without_maps(self, dropped: Set<MapId>) -> StoresView {
        StoresView {
            maps: self.maps.remove_keys(dropped),
            exe_maps: self.exe_maps.filter(|pair: (ExeId, MapId)| !dropped.contains(pair.1)),
            ..self
        }
    }

    /// The stores without the edges of executables that are not known.
    pub open spec fn without_loose_edges(self) -> StoresView {
        StoresView {
            markov: self.markov.filter_keys(|key: EdgeKey| key.within(self.exes.dom())),
            ..self
        }
    }

    /// The maps that `key` identifies.
    pub open spec fn maps_with_key(self, key: MapKeyView) -> Set<MapId> {
        self.maps.dom().filter(|id: MapId| self.maps[id].key() == key)
    }

    /// Whether some executable maps `id`.
    pub open spec fn is_attached(self, id: MapId) -> bool {
        exists|exe: ExeId| #[trigger] self.exe_maps.contains((exe, id))
    }

    /// Whether `exe` is known and running.
    pub open spec fn is_running(self, exe: ExeId) -> bool {
        self.exes.contains_key(exe) && self.exes[exe].exe.running
    }

    /// Whether some running executable maps `id`.
    pub open spec fn is_in_use(self, id: MapId) -> bool {
        exists|exe: ExeId| #[trigger] self.exe_maps.contains((exe, id)) && self.is_running(exe)
    }

    /// The executables that are dropped for their age.
    pub open spec fn stale_exes(self, policy: PrunePolicy, now: u64) -> Set<ExeId> {
        if policy.exe_max_age.secs > 0 {
            self.exes.dom().filter(
                |id: ExeId| is_stale(self.exes[id].exe, policy.exe_max_age.secs, now),
            )
        } else {
            Set::empty()
        }
    }

    /// The executables that are dropped because there are too many.
    pub open spec fn excess_exes(self, policy: PrunePolicy) -> Set<ExeId> {
        if policy.max_exes > 0 && self.exes.len() > policy.max_exes {
            oldest(idle_times(self.exes), (self.exes.len() - policy.max_exes) as nat)
        } else {
            Set::empty()
        }
    }

    /// The maps that are dropped because no executable maps them, for their age, or because
    /// their file is one of those `missing`.
    pub open spec fn dead_maps(self, policy: PrunePolicy, now: u64, missing: Set<MapId>) -> Set<
        MapId,
    > {
        self.maps.dom().filter(
            |id: MapId|
                {
                    ||| !self.is_attached(id)
                    ||| policy.map_max_age.secs > 0 && now - self.maps[id].update_time
                        > policy.map_max_age.secs
                    ||| policy.drop_missing_files && missing.contains(id)
                },
        )
    }

    /// The maps that no running executable maps, each with the time it was last observed.
    pub open spec fn unused_times(self) -> Map<MapId, u64> {
        Map::new(
            |id: MapId| self.maps.contains_key(id) && !self.is_in_use(id),
            |id: MapId| self.maps[id].update_time,
        )
    }

    /// The maps that are dropped because there are too many.
    pub open spec fn excess_maps(self, policy: PrunePolicy) -> Set<MapId> {
        if policy.max_maps > 0 && self.maps.len() > policy.max_maps {
            oldest(self.unused_times(), (self.maps.len() - policy.max_maps) as nat)
        } else {
            Set::empty()
        }
    }

    /// The stores after the executables have been pruned.
    pub open spec fn exes_pruned(self, policy: PrunePolicy, now: u64) -> StoresView {
        let aged = self.without_exes(self.stale_exes(policy, now));
        aged.without_exes(aged.excess_exes(policy))
    }

    /// The stores after the maps have been pruned.
    pub open spec fn maps_pruned(
        self,
        policy: PrunePolicy,
        now: u64,
        missing: Set<MapId>,
    ) -> StoresView {
        let live = self.without_maps(self.dead_maps(policy, now, missing));
        live.without_maps(live.excess_maps(policy))
    }

    /// The stores after a prune by `policy` at `now`, where the files of the maps `missing` are
    /// gone: executables first, then the edges of those that went, then maps.
    pub open spec fn pruned(
        self,
        policy: PrunePolicy,
        now: u64,
        missing: Set<MapId>,
    ) -> StoresView {
        self.exes_pruned(policy, now).without_loose_edges().maps_pruned(policy, now, missing)
    }
}

} // verus!
