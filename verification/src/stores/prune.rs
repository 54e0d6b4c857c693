//! Pruning stale executables and maps.

use crate::domain::{ExeId, MapId};
use crate::fx::{collect_set, set_contains};
use crate::keyed::{distinct_keys, keyed, lemma_same_pairs};
use crate::lists::{lemma_push_contains, lemma_take_one_more};
use crate::stores::model::{idle_times, is_stale, StoresView};
use crate::stores::oldest::pick_oldest;
use crate::stores::{PrunePolicy, PruneReport, Stores};
use rustc_hash::FxHashSet;
use vstd::prelude::*;

verus! {

/// The pairs in `pairs` are those of `times` whose identifier is among the first `count` of
/// `ids`.
spec fn lists_times(
    pairs: Seq<(u64, u64)>,
    times: Map<u64, u64>,
    ids: Seq<u64>,
    count: int,
) -> bool {
    &&& distinct_keys(pairs)
    &&& forall|i: int|
        0 <= i < pairs.len() ==> times.contains_key((#[trigger] pairs[i]).0)
            && times[pairs[i].0] == pairs[i].1 && ids.take(count).contains(pairs[i].0)
    &&& forall|id: u64|
        times.contains_key(id) && #[trigger] ids.take(count).contains(id) ==> exists|i: int|
            0 <= i < pairs.len() && (#[trigger] pairs[i]).0 == id
}

proof fn lemma_lists_times_step(
    before: Seq<(u64, u64)>,
    times: Map<u64, u64>,
    ids: Seq<u64>,
    at: int,
    listed: bool,
)
    requires
        ids.no_duplicates(),
        0 <= at < ids.len(),
        lists_times(before, times, ids, at),
        listed == times.contains_key(ids[at]),
    ensures
        lists_times(
            if listed {
                before.push((ids[at], times[ids[at]]))
            } else {
                before
            },
            times,
            ids,
            at + 1,
        ),
{
    let id = ids[at];
    lemma_take_one_more(ids, at);
    let after = if listed {
        before.push((id, times[id]))
    } else {
        before
    };
    assert forall|i: int, j: int| 0 <= i < j < after.len() implies (#[trigger] after[i]).0 != (
    #[trigger] after[j]).0 by {
        assert(after[i] == before[i]);
        if j < before.len() {
            assert(after[j] == before[j]);
        }
    }
    assert forall|i: int| 0 <= i < after.len() implies times.contains_key((#[trigger] after[i]).0)
        && times[after[i].0] == after[i].1 && ids.take(at + 1).contains(after[i].0) by {
        if i < before.len() {
            assert(after[i] == before[i]);
        }
    }
    assert forall|other: u64|
        times.contains_key(other) && #[trigger] ids.take(at + 1).contains(
            other,
        ) implies exists|i: int| 0 <= i < after.len() && (#[trigger] after[i]).0 == other by {
        if other == id {
            assert(after[before.len() as int].0 == id);
        } else {
            assert(ids.take(at).contains(other));
            let i = choose|i: int| 0 <= i < before.len() && (#[trigger] before[i]).0 == other;
            assert(after[i].0 == other);
        }
    }
}

proof fn lemma_lists_times_all(pairs: Seq<(u64, u64)>, times: Map<u64, u64>, ids: Seq<u64>)
    requires
        lists_times(pairs, times, ids, ids.len() as int),
        forall|id: u64| #[trigger] times.contains_key(id) ==> ids.contains(id),
    ensures
        keyed(pairs) == times,
{
    assert(ids.take(ids.len() as int) =~= ids);
    assert forall|id: u64| #[trigger] times.contains_key(id) implies exists|i: int|
        0 <= i < pairs.len() && (#[trigger] pairs[i]).0 == id by {
        assert(ids.take(ids.len() as int).contains(id));
    }
    lemma_same_pairs(pairs, times);
}

proof fn lemma_ascending(ids: Seq<u64>)
    requires
        forall|i: int, j: int| 0 <= i < j < ids.len() ==> ids[i] < ids[j],
    ensures
        ids.no_duplicates(),
{
}

impl StoresView {
    proof fn lemma_without_exes_twice(self, first: Set<ExeId>, second: Set<ExeId>)
        ensures
            self.without_exes(first).without_exes(second) == self.without_exes(
                first.union(second),
            ),
    {
        assert(self.without_exes(first).without_exes(second) =~= self.without_exes(
            first.union(second),
        ));
    }

    proof fn lemma_without_maps_twice(self, first: Set<MapId>, second: Set<MapId>)
        ensures
            self.without_maps(first).without_maps(second) == self.without_maps(
                first.union(second),
            ),
    {
        assert(self.without_maps(first).without_maps(second) =~= self.without_maps(
            first.union(second),
        ));
    }
}

impl Stores {
    fn stale_exe_ids(&self, max_age: u64, now: u64) -> (stale: Vec<ExeId>)
        requires
            self.wf(),
        ensures
            stale@.to_set() == self@.exes.dom().filter(
                |id: ExeId| is_stale(self@.exes[id].exe, max_age, now),
            ),
    {
        let ids = self.exes.ids();
        let ghost drops = |id: ExeId| is_stale(self@.exes[id].exe, max_age, now);
        let mut stale: Vec<ExeId> = Vec::new();
        let mut i: usize = 0;
        while i < ids.len()
            invariant
                self.wf(),
                i <= ids.len(),
                drops == (|id: ExeId| is_stale(self@.exes[id].exe, max_age, now)),
                ids@.to_set() == self@.exes.dom(),
                forall|id: ExeId|
                    stale@.contains(id) <==> ids@.take(i as int).contains(id) && drops(id),
            decreases ids.len() - i,
        {
            let id = ids[i];
            let ghost before = stale@;
            proof {
                lemma_take_one_more(ids@, i as int);
                assert(ids@.contains(ids@[i as int]));
                assert(ids@.to_set().contains(id));
            }
            if let Some(exe) = self.exes.get(id) {
                let drop = !exe.running && match exe.last_seen_time {
                    None => true,
                    Some(last) => now.saturating_sub(last) > max_age,
                };
                assert(drop == drops(id));
                if drop {
                    stale.push(id);
                    proof {
                        lemma_push_contains(before, id);
                    }
                }
            }
            i += 1;
        }
        proof {
            assert(ids@.take(i as int) =~= ids@);
            assert forall|id: ExeId| ids@.contains(id) == self@.exes.contains_key(id) by {
                assert(ids@.to_set().contains(id) == ids@.contains(id));
            }
            assert(stale@.to_set() =~= self@.exes.dom().filter(drops));
        }
        stale
    }

    fn drop_exes(&mut self, ids: &Vec<ExeId>)
        requires
            old(self).wf(),
        ensures
            final(self).wf(),
            final(self)@ == old(self)@.without_exes(ids@.to_set()),
    {
        let mut i: usize = 0;
        proof {
            assert(ids@.take(0).to_set() =~= Set::empty());
            assert(self@ =~= old(self)@.without_exes(Set::empty()));
        }
        while i < ids.len()
            invariant
                i <= ids.len(),
                self.wf(),
                self@ == old(self)@.without_exes(ids@.take(i as int).to_set()),
            decreases ids.len() - i,
        {
            let id = ids[i];
            self.remove_exe(id);
            proof {
                old(self)@.lemma_without_exes_twice(ids@.take(i as int).to_set(), set![id]);
                lemma_take_one_more(ids@, i as int);
                assert(ids@.take(i as int).to_set().union(set![id]) =~= ids@.take(i + 1).to_set());
            }
            i += 1;
        }
        assert(ids@.take(i as int) =~= ids@);
    }

    fn drop_maps(&mut self, ids: &Vec<MapId>)
        requires
            old(self).wf(),
        ensures
            final(self).wf(),
            final(self)@ == old(self)@.without_maps(ids@.to_set()),
    {
        let mut i: usize = 0;
        proof {
            assert(ids@.take(0).to_set() =~= Set::empty());
            assert(self@ =~= old(self)@.without_maps(Set::empty()));
        }
        while i < ids.len()
            invariant
                i <= ids.len(),
                self.wf(),
                self@ == old(self)@.without_maps(ids@.take(i as int).to_set()),
            decreases ids.len() - i,
        {
            let id = ids[i];
            self.remove_map(id);
            proof {
                old(self)@.lemma_without_maps_twice(ids@.take(i as int).to_set(), set![id]);
                lemma_take_one_more(ids@, i as int);
                assert(ids@.take(i as int).to_set().union(set![id]) =~= ids@.take(i + 1).to_set());
            }
            i += 1;
        }
        assert(ids@.take(i as int) =~= ids@);
    }

    fn list_idle_times(&self) -> (times: Vec<(ExeId, u64)>)
        requires
            self.wf(),
        ensures
            distinct_keys(times@),
            keyed(times@) == idle_times(self@.exes),
    {
        let ids = self.exes.ids();
        let ghost idle = idle_times(self@.exes);
        let mut times: Vec<(ExeId, u64)> = Vec::new();
        let mut i: usize = 0;
        proof {
            lemma_ascending(ids@);
        }
        while i < ids.len()
            invariant
                self.wf(),
                i <= ids.len(),
                idle == idle_times(self@.exes),
                ids@.no_duplicates(),
                ids@.to_set() == self@.exes.dom(),
                lists_times(times@, idle, ids@, i as int),
            decreases ids.len() - i,
        {
            let id = ids[i];
            let ghost before = times@;
            proof {
                assert(ids@.contains(ids@[i as int]));
                assert(ids@.to_set().contains(id));
                lemma_lists_times_step(before, idle, ids@, i as int, idle.contains_key(id));
            }
            if let Some(exe) = self.exes.get(id) {
                if !exe.running {
                    let last = match exe.last_seen_time {
                        Some(last) => last,
                        None => 0,
                    };
                    times.push((id, last));
                }
            }
            i += 1;
        }
        proof {
            assert forall|id: ExeId| #[trigger] idle.contains_key(id) implies ids@.contains(id) by {
                assert(ids@.to_set().contains(id));
            }
            lemma_lists_times_all(times@, idle, ids@);
        }
        times
    }

    fn running_exes(&self) -> (running: FxHashSet<ExeId>)
        requires
            self.wf(),
        ensures
            forall|id: ExeId| running@.contains(id) <==> self@.is_running(id),
    {
        let ids = self.exes.ids();
        let mut running: Vec<ExeId> = Vec::new();
        let mut i: usize = 0;
        while i < ids.len()
            invariant
                self.wf(),
                i <= ids.len(),
                ids@.to_set() == self@.exes.dom(),
                forall|id: ExeId|
                    running@.contains(id) <==> ids@.take(i as int).contains(id)
                        && self@.is_running(id),
            decreases ids.len() - i,
        {
            let id = ids[i];
            let ghost before = running@;
            proof {
                lemma_take_one_more(ids@, i as int);
                assert(ids@.contains(ids@[i as int]));
                assert(ids@.to_set().contains(id));
            }
            if let Some(exe) = self.exes.get(id) {
                if exe.running {
                    running.push(id);
                    proof {
                        lemma_push_contains(before, id);
                    }
                }
            }
            i += 1;
        }
        proof {
            assert(ids@.take(i as int) =~= ids@);
            assert forall|id: ExeId| self@.is_running(id) implies ids@.contains(id) by {
                assert(ids@.to_set().contains(id));
            }
        }
        collect_set(&running)
    }

    fn dead_map_ids(&self, policy: &PrunePolicy, now: u64, missing: &FxHashSet<MapId>) -> (dead:
        Vec<MapId>)
        requires
            self.wf(),
        ensures
            dead@.to_set() == self@.dead_maps(*policy, now, missing@),
    {
        let max_age = policy.map_max_age.as_secs();
        let attached = self.exe_maps.attached_maps();
        let ids = self.maps.ids();
        let ghost all_dead = self@.dead_maps(*policy, now, missing@);
        let mut dead: Vec<MapId> = Vec::new();
        let mut i: usize = 0;
        proof {
            assert forall|id: MapId| attached@.contains(id) == self@.is_attached(id) by {
                if attached@.contains(id) {
                    let exe = choose|exe: ExeId| self.exe_maps@.contains((exe, id));
                    assert(self@.exe_maps.contains((exe, id)));
                }
                if self@.is_attached(id) {
                    let exe = choose|exe: ExeId| #[trigger] self@.exe_maps.contains((exe, id));
                    assert(self.exe_maps@.contains((exe, id)));
                }
            }
        }
        while i < ids.len()
            invariant
                self.wf(),
                i <= ids.len(),
                max_age == policy.map_max_age.secs,
                all_dead == self@.dead_maps(*policy, now, missing@),
                ids@.to_set() == self@.maps.dom(),
                forall|id: MapId| attached@.contains(id) == self@.is_attached(id),
                forall|id: MapId| #[trigger]
                    dead@.contains(id) <==> ids@.take(i as int).contains(id) && all_dead.contains(
                        id,
                    ),
            decreases ids.len() - i,
        {
            let id = ids[i];
            let ghost before = dead@;
            proof {
                lemma_take_one_more(ids@, i as int);
                assert(ids@.contains(ids@[i as int]));
                assert(ids@.to_set().contains(id));
            }
            if let Some(map) = self.maps.get(id) {
                let orphan = !set_contains(&attached, id);
                let aged = max_age > 0 && now.saturating_sub(map.update_time) > max_age;
                let gone = policy.drop_missing_files && set_contains(missing, id);
                assert((orphan || aged || gone) == all_dead.contains(id));
                if orphan || aged || gone {
                    dead.push(id);
                    proof {
                        lemma_push_contains(before, id);
                    }
                }
            }
            i += 1;
        }
        proof {
            assert(ids@.take(i as int) =~= ids@);
            assert forall|id: MapId| all_dead.contains(id) implies ids@.contains(id) by {
                assert(ids@.to_set().contains(id));
            }
            assert(dead@.to_set() =~= all_dead);
        }
        dead
    }

    fn list_unused_times(&self) -> (times: Vec<(MapId, u64)>)
        requires
            self.wf(),
        ensures
            distinct_keys(times@),
            keyed(times@) == self@.unused_times(),
    {
        let running = self.running_exes();
        let in_use = self.exe_maps.maps_of(&running);
        let ids = self.maps.ids();
        let ghost unused = self@.unused_times();
        let mut times: Vec<(MapId, u64)> = Vec::new();
        let mut i: usize = 0;
        proof {
            lemma_ascending(ids@);
            assert forall|id: MapId| in_use@.contains(id) == self@.is_in_use(id) by {
                if in_use@.contains(id) {
                    let exe = choose|exe: ExeId|
                        running@.contains(exe) && self.exe_maps@.contains((exe, id));
                    assert(self@.exe_maps.contains((exe, id)));
                }
                if self@.is_in_use(id) {
                    let exe = choose|exe: ExeId| #[trigger]
                        self@.exe_maps.contains((exe, id)) && self@.is_running(exe);
                    assert(running@.contains(exe) && self.exe_maps@.contains((exe, id)));
                }
            }
        }
        while i < ids.len()
            invariant
                self.wf(),
                i <= ids.len(),
                unused == self@.unused_times(),
                ids@.no_duplicates(),
                ids@.to_set() == self@.maps.dom(),
                forall|id: MapId| in_use@.contains(id) == self@.is_in_use(id),
                lists_times(times@, unused, ids@, i as int),
            decreases ids.len() - i,
        {
            let id = ids[i];
            let ghost before = times@;
            proof {
                assert(ids@.contains(ids@[i as int]));
                assert(ids@.to_set().contains(id));
                lemma_lists_times_step(before, unused, ids@, i as int, unused.contains_key(id));
            }
            if let Some(map) = self.maps.get(id) {
                if !set_contains(&in_use, id) {
                    times.push((id, map.update_time));
                }
            }
            i += 1;
        }
        proof {
            assert forall|id: MapId| #[trigger] unused.contains_key(id) implies ids@.contains(
                id,
            ) by {
                assert(ids@.to_set().contains(id));
            }
            lemma_lists_times_all(times@, unused, ids@);
        }
        times
    }

    fn prune_exes(&mut self, policy: &PrunePolicy, now: u64)
        requires
            old(self).wf(),
        ensures
            final(self).wf(),
            final(self)@ == old(self)@.exes_pruned(*policy, now),
    {
        let max_age = policy.exe_max_age.as_secs();
        let stale: Vec<ExeId> = if max_age > 0 {
            self.stale_exe_ids(max_age, now)
        } else {
            Vec::new()
        };
        assert(stale@.to_set() =~= self@.stale_exes(*policy, now));
        self.drop_exes(&stale);

        let count = self.exes.len();
        let excess: Vec<ExeId> = if policy.max_exes > 0 && count > policy.max_exes {
            pick_oldest(self.list_idle_times(), count - policy.max_exes)
        } else {
            Vec::new()
        };
        assert(excess@.to_set() =~= self@.excess_exes(*policy));
        self.drop_exes(&excess);
    }

    fn prune_edges(&mut self)
        requires
            old(self).wf(),
        ensures
            final(self).wf(),
            final(self)@ == old(self)@.without_loose_edges(),
    {
        let remaining = collect_set(&self.exes.ids());
        self.markov.prune_inactive(&remaining);
    }

    fn prune_maps(&mut self, policy: &PrunePolicy, now: u64, missing: &Vec<MapId>)
        requires
            old(self).wf(),
        ensures
            final(self).wf(),
            final(self)@ == old(self)@.maps_pruned(*policy, now, missing@.to_set()),
    {
        let dead = self.dead_map_ids(policy, now, &collect_set(missing));
        self.drop_maps(&dead);

        let count = self.maps.len();
        let excess: Vec<MapId> = if policy.max_maps > 0 && count > policy.max_maps {
            pick_oldest(self.list_unused_times(), count - policy.max_maps)
        } else {
            Vec::new()
        };
        assert(excess@.to_set() =~= self@.excess_maps(*policy));
        self.drop_maps(&excess);
    }

    /// Prunes stale executables and maps according to `policy`, and the edges of executables that
    /// are not known.
    ///
    /// `now` is the current model time, and `missing` lists the maps whose file is gone from disk,
    /// which matters only where the policy drops such maps. A running executable is never dropped,
    /// and a map of a running executable is not dropped for the number of maps.
    pub fn prune(&mut self, policy: &PrunePolicy, now: u64, missing: &Vec<MapId>) -> (report:
        PruneReport)
        requires
            old(self).wf(),
        ensures
            final(self).wf(),
            final(self)@ == old(self)@.pruned(*policy, now, missing@.to_set()),
            report.exes_removed == old(self)@.exes.len() - final(self)@.exes.len(),
            report.edges_removed == old(self)@.markov.len() - final(self)@.markov.len(),
            report.maps_removed == old(self)@.maps.len() - final(self)@.maps.len(),
    {
        let exes_before = self.exes.len();
        let edges_before = self.markov.len();
        let maps_before = self.maps.len();
        proof {
            self.exes.keys_are_unique();
            self.maps.keys_are_unique();
            self.markov.is_finite();
        }
        self.prune_exes(policy, now);
        self.prune_edges();
        self.prune_maps(policy, now, missing);
        proof {
            vstd::set_lib::lemma_len_subset(self@.exes.dom(), old(self)@.exes.dom());
            vstd::set_lib::lemma_len_subset(self@.markov.dom(), old(self)@.markov.dom());
            vstd::set_lib::lemma_len_subset(self@.maps.dom(), old(self)@.maps.dom());
        }
        PruneReport {
            exes_removed: exes_before - self.exes.len(),
            maps_removed: maps_before - self.maps.len(),
            edges_removed: edges_before - self.markov.len(),
        }
    }
}

} // verus!
