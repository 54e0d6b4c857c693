//! What holds of the stores as a whole.

use crate::config::Persistence;
use crate::domain::{ExeId, MapId, MapKeyView, MapSegmentView, MarkovState};
use crate::paths::canonical;
use crate::stores::exe_store::has_exe;
use crate::stores::map_store::has_map;
use crate::stores::markov_graph::{edge_between, EdgeKey};
use crate::stores::model::{idle_times, is_stale, StoresView};
use crate::stores::oldest::{oldest, oldest_are_as_many_as_asked, oldest_come_first};
use crate::stores::policy::PrunePolicy;
use vstd::prelude::*;

verus! {

/// A prune only removes: what it leaves is as it was, and the times and the identifiers to come
/// do not change.
pub proof fn pruning_only_removes(s: StoresView, policy: PrunePolicy, now: u64, missing: Set<MapId>)
    ensures
        s.pruned(policy, now, missing).exes.submap_of(s.exes),
        s.pruned(policy, now, missing).maps.submap_of(s.maps),
        s.pruned(policy, now, missing).markov.submap_of(s.markov),
        s.pruned(policy, now, missing).exe_maps.subset_of(s.exe_maps),
        s.pruned(policy, now, missing).active.subset_of(s.active),
        s.pruned(policy, now, missing).model_time == s.model_time,
        s.pruned(policy, now, missing).last_accounting_time == s.last_accounting_time,
        s.pruned(policy, now, missing).next_exe == s.next_exe,
        s.pruned(policy, now, missing).next_map == s.next_map,
{
}

/// Pruning valid stores leaves valid stores.
pub proof fn pruning_keeps_stores_valid(
    s: StoresView,
    policy: PrunePolicy,
    now: u64,
    missing: Set<MapId>,
)
    requires
        s.valid(),
    ensures
        s.pruned(policy, now, missing).valid(),
{
    let p = s.pruned(policy, now, missing);
    pruning_only_removes(s, policy, now, missing);
    vstd::set_lib::lemma_len_subset(p.exes.dom(), s.exes.dom());
    vstd::set_lib::lemma_len_subset(p.maps.dom(), s.maps.dom());
    vstd::set_lib::lemma_len_subset(p.markov.dom(), s.markov.dom());
}

/// A running executable is never pruned.
pub proof fn running_exes_survive(
    s: StoresView,
    policy: PrunePolicy,
    now: u64,
    missing: Set<MapId>,
    id: ExeId,
)
    requires
        s.is_running(id),
    ensures
        s.pruned(policy, now, missing).exes.contains_key(id),
        s.pruned(policy, now, missing).exes[id] == s.exes[id],
        s.active.contains(id) ==> s.pruned(policy, now, missing).active.contains(id),
{
}

/// With a limit on age, no stale executable is left.
pub proof fn no_stale_exe_is_left(
    s: StoresView,
    policy: PrunePolicy,
    now: u64,
    missing: Set<MapId>,
    id: ExeId,
)
    requires
        policy.exe_max_age.secs > 0,
        s.pruned(policy, now, missing).exes.contains_key(id),
    ensures
        !is_stale(s.exes[id].exe, policy.exe_max_age.secs, now),
{
}

/// With no limits on executables, none is pruned.
pub proof fn zero_limits_keep_all_exes(
    s: StoresView,
    policy: PrunePolicy,
    now: u64,
    missing: Set<MapId>,
)
    requires
        policy.exe_max_age.secs == 0,
        policy.max_exes == 0,
    ensures
        s.pruned(policy, now, missing).exes == s.exes,
        s.pruned(policy, now, missing).active == s.active,
{
    assert(s.pruned(policy, now, missing).exes =~= s.exes);
    assert(s.pruned(policy, now, missing).active =~= s.active);
}

/// With no limits on executables and maps, only maps that no executable maps are pruned.
pub proof fn zero_limits_keep_attached_maps(
    s: StoresView,
    policy: PrunePolicy,
    now: u64,
    missing: Set<MapId>,
    id: MapId,
)
    requires
        policy.exe_max_age.secs == 0,
        policy.max_exes == 0,
        policy.map_max_age.secs == 0,
        policy.max_maps == 0,
        !policy.drop_missing_files,
        s.maps.contains_key(id),
    ensures
        s.pruned(policy, now, missing).maps.contains_key(id) == s.is_attached(id),
{
    let t = s.exes_pruned(policy, now).without_loose_edges();
    assert(t.exe_maps =~= s.exe_maps);
}

/// The files that are gone do not matter where the policy does not drop their maps.
pub proof fn missing_files_matter_only_where_dropped(
    s: StoresView,
    policy: PrunePolicy,
    now: u64,
    missing: Set<MapId>,
)
    requires
        !policy.drop_missing_files,
    ensures
        s.pruned(policy, now, missing) == s.pruned(policy, now, Set::empty()),
{
    let t = s.exes_pruned(policy, now).without_loose_edges();
    assert(t.dead_maps(policy, now, missing) =~= t.dead_maps(policy, now, Set::empty()));
}

/// Of the executables that are not stale, those that are dropped for their number are idle, and
/// were seen no later than the idle ones that are kept.
pub proof fn oldest_idle_exes_go_first(
    s: StoresView,
    policy: PrunePolicy,
    now: u64,
    missing: Set<MapId>,
    gone: ExeId,
    kept: ExeId,
)
    requires
        s.valid(),
        s.exes.contains_key(gone),
        !s.stale_exes(policy, now).contains(gone),
        !s.pruned(policy, now, missing).exes.contains_key(gone),
        s.pruned(policy, now, missing).exes.contains_key(kept),
        !s.exes[kept].exe.running,
    ensures
        !s.exes[gone].exe.running,
        idle_times(s.exes)[gone] <= idle_times(s.exes)[kept],
{
    let aged = s.without_exes(s.stale_exes(policy, now));
    vstd::set_lib::lemma_len_subset(aged.exes.dom(), s.exes.dom());
    lemma_idle_finite(aged);
    oldest_come_first(
        idle_times(aged.exes),
        (aged.exes.len() - policy.max_exes) as nat,
        gone,
        kept,
    );
}

/// An executable that is not stale is dropped only where as many as the limit allows are left.
pub proof fn no_more_exes_go_than_needed(
    s: StoresView,
    policy: PrunePolicy,
    now: u64,
    missing: Set<MapId>,
    gone: ExeId,
)
    requires
        s.valid(),
        s.exes.contains_key(gone),
        !s.stale_exes(policy, now).contains(gone),
        !s.pruned(policy, now, missing).exes.contains_key(gone),
    ensures
        0 < policy.max_exes <= s.pruned(policy, now, missing).exes.len(),
{
    let aged = s.without_exes(s.stale_exes(policy, now));
    vstd::set_lib::lemma_len_subset(aged.exes.dom(), s.exes.dom());
    lemma_idle_finite(aged);
    let count = (aged.exes.len() - policy.max_exes) as nat;
    let dropped = oldest(idle_times(aged.exes), count);
    let left = s.pruned(policy, now, missing).exes.dom();
    assert(dropped.contains(gone));
    oldest_are_as_many_as_asked(idle_times(aged.exes), count);
    vstd::set_lib::lemma_len_subset(left, aged.exes.dom());
    vstd::set_lib::lemma_set_disjoint_lens(dropped, left);
    assert(dropped.union(left) =~= aged.exes.dom());
}

proof fn lemma_idle_finite(s: StoresView)
    requires
        s.exes.dom().finite(),
    ensures
        idle_times(s.exes).dom().finite(),
        idle_times(s.exes).dom().subset_of(s.exes.dom()),
        idle_times(s.exes).len() <= s.exes.len(),
{
    vstd::set_lib::lemma_len_subset(idle_times(s.exes).dom(), s.exes.dom());
}

proof fn lemma_unused_finite(s: StoresView)
    requires
        s.maps.dom().finite(),
    ensures
        s.unused_times().dom().finite(),
        s.unused_times().dom().subset_of(s.maps.dom()),
        s.unused_times().len() <= s.maps.len(),
{
    vstd::set_lib::lemma_len_subset(s.unused_times().dom(), s.maps.dom());
}

/// The maps that a prune considers for their number: those of the executables that are left,
/// without the dead ones.
pub open spec fn live_stores(
    s: StoresView,
    policy: PrunePolicy,
    now: u64,
    missing: Set<MapId>,
) -> StoresView {
    let t = s.exes_pruned(policy, now).without_loose_edges();
    t.without_maps(t.dead_maps(policy, now, missing))
}

/// Of the maps that are not dead, those that are dropped for their number are unused, and were
/// observed no later than the unused ones that are kept.
pub proof fn oldest_unused_maps_go_first(
    s: StoresView,
    policy: PrunePolicy,
    now: u64,
    missing: Set<MapId>,
    gone: MapId,
    kept: MapId,
)
    requires
        s.valid(),
        live_stores(s, policy, now, missing).maps.contains_key(gone),
        !s.pruned(policy, now, missing).maps.contains_key(gone),
        s.pruned(policy, now, missing).maps.contains_key(kept),
        !s.pruned(policy, now, missing).is_in_use(kept),
    ensures
        !live_stores(s, policy, now, missing).is_in_use(gone),
        s.maps[gone].update_time <= s.maps[kept].update_time,
{
    let live = live_stores(s, policy, now, missing);
    let p = s.pruned(policy, now, missing);
    vstd::set_lib::lemma_len_subset(live.maps.dom(), s.maps.dom());
    lemma_unused_finite(live);
    if live.is_in_use(kept) {
        let exe = choose|exe: ExeId| #[trigger]
            live.exe_maps.contains((exe, kept)) && live.is_running(exe);
        assert(p.exe_maps.contains((exe, kept)) && p.is_running(exe));
    }
    oldest_come_first(
        live.unused_times(),
        (live.maps.len() - policy.max_maps) as nat,
        gone,
        kept,
    );
}

/// A map that is not dead is dropped only where as many as the limit allows are left.
pub proof fn no_more_maps_go_than_needed(
    s: StoresView,
    policy: PrunePolicy,
    now: u64,
    missing: Set<MapId>,
    gone: MapId,
)
    requires
        s.valid(),
        live_stores(s, policy, now, missing).maps.contains_key(gone),
        !s.pruned(policy, now, missing).maps.contains_key(gone),
    ensures
        0 < policy.max_maps <= s.pruned(policy, now, missing).maps.len(),
{
    let live = live_stores(s, policy, now, missing);
    vstd::set_lib::lemma_len_subset(live.maps.dom(), s.maps.dom());
    lemma_unused_finite(live);
    let count = (live.maps.len() - policy.max_maps) as nat;
    let dropped = oldest(live.unused_times(), count);
    let left = s.pruned(policy, now, missing).maps.dom();
    assert(dropped.contains(gone));
    oldest_are_as_many_as_asked(live.unused_times(), count);
    vstd::set_lib::lemma_len_subset(left, live.maps.dom());
    vstd::set_lib::lemma_set_disjoint_lens(dropped, left);
    assert(dropped.union(left) =~= live.maps.dom());
}

/// A map of a running executable is not dropped for the number of maps, nor as one that nothing
/// maps: it stays unless it is too old or its file is gone.
pub proof fn maps_in_use_survive(
    s: StoresView,
    policy: PrunePolicy,
    now: u64,
    missing: Set<MapId>,
    id: MapId,
)
    requires
        s.maps.contains_key(id),
        s.is_in_use(id),
        !(policy.map_max_age.secs > 0 && now - s.maps[id].update_time > policy.map_max_age.secs),
        !(policy.drop_missing_files && missing.contains(id)),
    ensures
        s.pruned(policy, now, missing).maps.contains_key(id),
        s.pruned(policy, now, missing).is_in_use(id),
{
    let exe = choose|exe: ExeId| #[trigger] s.exe_maps.contains((exe, id)) && s.is_running(exe);
    let t = s.exes_pruned(policy, now).without_loose_edges();
    assert(t.exe_maps.contains((exe, id)) && t.is_running(exe));
    let live = t.without_maps(t.dead_maps(policy, now, missing));
    assert(live.exe_maps.contains((exe, id)) && live.is_running(exe));
    let p = s.pruned(policy, now, missing);
    assert(!live.unused_times().contains_key(id));
    assert(p.exe_maps.contains((exe, id)) && p.is_running(exe));
}

/// After a prune every edge joins two executables that are known, and an edge between two that
/// stayed has stayed.
pub proof fn edges_join_known_exes(
    s: StoresView,
    policy: PrunePolicy,
    now: u64,
    missing: Set<MapId>,
    key: EdgeKey,
)
    ensures
        s.pruned(policy, now, missing).markov.contains_key(key) <==> s.markov.contains_key(key)
            && key.within(s.pruned(policy, now, missing).exes.dom()),
{
}

/// After a prune every map is mapped by some executable.
pub proof fn no_orphan_map_is_left(
    s: StoresView,
    policy: PrunePolicy,
    now: u64,
    missing: Set<MapId>,
    id: MapId,
)
    requires
        s.pruned(policy, now, missing).maps.contains_key(id),
    ensures
        s.pruned(policy, now, missing).is_attached(id),
{
    let t = s.exes_pruned(policy, now).without_loose_edges();
    assert(t.is_attached(id));
    let exe = choose|exe: ExeId| #[trigger] t.exe_maps.contains((exe, id));
    assert(s.pruned(policy, now, missing).exe_maps.contains((exe, id)));
}

/// After a prune no map is too old, and none has lost its file where such maps are dropped.
pub proof fn no_dead_map_is_left(
    s: StoresView,
    policy: PrunePolicy,
    now: u64,
    missing: Set<MapId>,
    id: MapId,
)
    requires
        s.pruned(policy, now, missing).maps.contains_key(id),
    ensures
        policy.map_max_age.secs > 0 ==> now - s.maps[id].update_time <= policy.map_max_age.secs,
        policy.drop_missing_files ==> !missing.contains(id),
{
}

/// After a prune there are no more executables than the limit allows, unless all that are left
/// are running.
pub proof fn exe_limit_holds(
    s: StoresView,
    policy: PrunePolicy,
    now: u64,
    missing: Set<MapId>,
)
    requires
        s.valid(),
        policy.max_exes > 0,
    ensures
        s.pruned(policy, now, missing).exes.len() <= policy.max_exes || forall|id: ExeId| #[trigger]
            s.pruned(policy, now, missing).exes.contains_key(id) ==> s.exes[id].exe.running,
{
    let aged = s.without_exes(s.stale_exes(policy, now));
    let p = s.pruned(policy, now, missing);
    vstd::set_lib::lemma_len_subset(aged.exes.dom(), s.exes.dom());
    lemma_exe_cap(aged, policy);
    let capped = aged.without_exes(aged.excess_exes(policy));
    assert(p.exes == capped.exes);
    if capped.exes.len() > policy.max_exes {
        assert forall|id: ExeId| #[trigger] p.exes.contains_key(id) implies s.exes[id].exe.running by {
            if !s.exes[id].exe.running {
                assert(idle_times(capped.exes).dom().contains(id));
            }
        }
    }
}

proof fn lemma_exe_cap(aged: StoresView, policy: PrunePolicy)
    requires
        aged.exes.dom().finite(),
        policy.max_exes > 0,
    ensures
        ({
            let capped = aged.without_exes(aged.excess_exes(policy));
            capped.exes.len() <= policy.max_exes || idle_times(capped.exes).dom() == Set::<
                ExeId,
            >::empty()
        }),
{
    let capped = aged.without_exes(aged.excess_exes(policy));
    if aged.exes.len() > policy.max_exes {
        let count = (aged.exes.len() - policy.max_exes) as nat;
        let times = idle_times(aged.exes);
        lemma_idle_finite(aged);
        oldest_are_as_many_as_asked(times, count);
        let gone = oldest(times, count);
        assert(capped.exes.dom() =~= aged.exes.dom().difference(gone));
        if count < times.len() {
            vstd::set_lib::lemma_set_difference_len(aged.exes.dom(), gone);
            assert(aged.exes.dom().intersect(gone) =~= gone);
            vstd::set_lib::lemma_set_disjoint_lens(gone, capped.exes.dom());
            assert(gone.union(capped.exes.dom()) =~= aged.exes.dom());
        } else {
            vstd::set_lib::lemma_subset_equality(gone, times.dom());
            assert(idle_times(capped.exes).dom() =~= Set::<ExeId>::empty());
        }
    } else {
        assert(capped.exes =~= aged.exes);
    }
}

/// After a prune there are no more maps than the limit allows, unless all that are left are maps
/// of running executables.
pub proof fn map_limit_holds(
    s: StoresView,
    policy: PrunePolicy,
    now: u64,
    missing: Set<MapId>,
)
    requires
        s.valid(),
        policy.max_maps > 0,
    ensures
        s.pruned(policy, now, missing).maps.len() <= policy.max_maps || forall|id: MapId| #[trigger]
            s.pruned(policy, now, missing).maps.contains_key(id) ==> s.pruned(
                policy,
                now,
                missing,
            ).is_in_use(id),
{
    let t = s.exes_pruned(policy, now).without_loose_edges();
    let live = t.without_maps(t.dead_maps(policy, now, missing));
    let p = s.pruned(policy, now, missing);
    vstd::set_lib::lemma_len_subset(live.maps.dom(), s.maps.dom());
    lemma_map_cap(live, policy);
    if p.maps.len() > policy.max_maps {
        assert forall|id: MapId| #[trigger] p.maps.contains_key(id) implies p.is_in_use(id) by {
            if !p.is_in_use(id) {
                assert(p.unused_times().dom().contains(id));
            }
        }
    }
}

proof fn lemma_map_cap(live: StoresView, policy: PrunePolicy)
    requires
        live.maps.dom().finite(),
        policy.max_maps > 0,
    ensures
        ({
            let capped = live.without_maps(live.excess_maps(policy));
            capped.maps.len() <= policy.max_maps || capped.unused_times().dom() == Set::<
                MapId,
            >::empty()
        }),
{
    let capped = live.without_maps(live.excess_maps(policy));
    if live.maps.len() > policy.max_maps {
        let count = (live.maps.len() - policy.max_maps) as nat;
        let times = live.unused_times();
        lemma_unused_finite(live);
        oldest_are_as_many_as_asked(times, count);
        let gone = oldest(times, count);
        assert(capped.maps.dom() =~= live.maps.dom().difference(gone));
        if count < times.len() {
            vstd::set_lib::lemma_set_disjoint_lens(gone, capped.maps.dom());
            assert(gone.union(capped.maps.dom()) =~= live.maps.dom());
        } else {
            vstd::set_lib::lemma_subset_equality(gone, times.dom());
            assert forall|id: MapId| !capped.unused_times().dom().contains(id) by {
                if capped.unused_times().dom().contains(id) {
                    assert(live.maps.contains_key(id) && !gone.contains(id));
                    assert(live.is_in_use(id));
                    let exe = choose|exe: ExeId| #[trigger]
                        live.exe_maps.contains((exe, id)) && live.is_running(exe);
                    assert(capped.exe_maps.contains((exe, id)) && capped.is_running(exe));
                }
            }
            assert(capped.unused_times().dom() =~= Set::<MapId>::empty());
        }
    } else {
        assert(capped.maps =~= live.maps);
    }
}

/// A second prune by the same policy at the same time removes nothing more.
pub proof fn pruning_again_changes_nothing(
    s: StoresView,
    policy: PrunePolicy,
    now: u64,
    missing: Set<MapId>,
)
    requires
        s.valid(),
    ensures
        s.pruned(policy, now, missing).pruned(policy, now, missing) == s.pruned(
            policy,
            now,
            missing,
        ),
{
    let p = s.pruned(policy, now, missing);
    let aged = s.without_exes(s.stale_exes(policy, now));
    let t = s.exes_pruned(policy, now).without_loose_edges();
    let live = t.without_maps(t.dead_maps(policy, now, missing));
    vstd::set_lib::lemma_len_subset(aged.exes.dom(), s.exes.dom());
    vstd::set_lib::lemma_len_subset(live.maps.dom(), s.maps.dom());
    pruning_keeps_stores_valid(s, policy, now, missing);

    assert(p.stale_exes(policy, now) =~= Set::empty());
    assert(p.without_exes(Set::empty()) =~= p);
    if policy.max_exes > 0 {
        lemma_exe_cap(aged, policy);
        lemma_idle_finite(p);
        if p.exes.len() > policy.max_exes {
            assert(idle_times(p.exes).dom() =~= Set::empty());
        }
    }
    assert(p.excess_exes(policy) =~= Set::empty());
    assert(p.exes_pruned(policy, now) == p);

    assert(p.without_loose_edges() =~= p);

    assert forall|id: MapId| p.maps.contains_key(id) implies p.is_attached(id) by {
        no_orphan_map_is_left(s, policy, now, missing, id);
    }
    assert(p.dead_maps(policy, now, missing) =~= Set::empty());
    assert(p.without_maps(Set::empty()) =~= p);
    if policy.max_maps > 0 {
        lemma_map_cap(live, policy);
        if p.maps.len() > policy.max_maps {
            assert(p.unused_times().dom() =~= Set::empty());
        }
    }
    assert(p.excess_maps(policy) =~= Set::empty());
}

/// Where a prune leaves as many executables, edges and maps as there were, it changed nothing.
pub proof fn nothing_removed_means_nothing_changed(
    s: StoresView,
    policy: PrunePolicy,
    now: u64,
    missing: Set<MapId>,
)
    requires
        s.valid(),
        s.pruned(policy, now, missing).exes.len() == s.exes.len(),
        s.pruned(policy, now, missing).markov.len() == s.markov.len(),
        s.pruned(policy, now, missing).maps.len() == s.maps.len(),
    ensures
        s.pruned(policy, now, missing) == s,
{
    let p = s.pruned(policy, now, missing);
    pruning_keeps_stores_valid(s, policy, now, missing);
    vstd::set_lib::lemma_subset_equality(p.exes.dom(), s.exes.dom());
    vstd::set_lib::lemma_subset_equality(p.markov.dom(), s.markov.dom());
    vstd::set_lib::lemma_subset_equality(p.maps.dom(), s.maps.dom());
    let stale = s.stale_exes(policy, now);
    let aged = s.without_exes(stale);
    let excess = aged.excess_exes(policy);
    assert forall|id: ExeId| !stale.contains(id) by {
        if stale.contains(id) {
            assert(s.exes.dom().contains(id) && !p.exes.dom().contains(id));
        }
    }
    assert(aged =~= s);
    assert forall|id: ExeId| !excess.contains(id) by {
        if excess.contains(id) {
            assert(s.exes.dom().contains(id) && !p.exes.dom().contains(id));
        }
    }
    assert(s.exes_pruned(policy, now) =~= s);
    assert forall|key: EdgeKey| s.markov.contains_key(key) implies key.within(s.exes.dom()) by {
        assert(p.markov.dom().contains(key));
    }
    assert(s.without_loose_edges() =~= s);
    let dead = s.dead_maps(policy, now, missing);
    let live = s.without_maps(dead);
    let surplus = live.excess_maps(policy);
    assert forall|id: MapId| !dead.contains(id) by {
        if dead.contains(id) {
            assert(s.maps.dom().contains(id) && !p.maps.dom().contains(id));
        }
    }
    assert(live =~= s);
    assert forall|id: MapId| !surplus.contains(id) by {
        if surplus.contains(id) {
            assert(s.maps.dom().contains(id) && !p.maps.dom().contains(id));
        }
    }
    assert(p =~= s);
}

/// Ensuring an executable twice gives the same identifier, and the second time changes nothing.
pub proof fn ensuring_an_exe_twice_is_once(
    s: StoresView,
    once: StoresView,
    twice: StoresView,
    path: Seq<u8>,
    first: ExeId,
    second: ExeId,
)
    requires
        s.valid(),
        s.exe_ensured(once, path, first),
        once.exe_ensured(twice, path, second),
    ensures
        second == first,
        twice == once,
{
    assert(once.exes.contains_key(first) && once.exes[first].key() == canonical(path));
    assert(has_exe(once.exes, canonical(path)));
    if !has_exe(s.exes, canonical(path)) && second != first {
        assert(s.exes.contains_key(second));
    }
}

/// Ensuring an executable keeps stores valid, as long as there are identifiers to give.
pub proof fn ensuring_an_exe_keeps_stores_valid(
    s: StoresView,
    after: StoresView,
    path: Seq<u8>,
    id: ExeId,
)
    requires
        s.valid(),
        s.exe_ensured(after, path, id),
        s.next_exe < u64::MAX,
    ensures
        after.valid(),
        has_exe(after.exes, canonical(path)),
{
    assert(after.exes.contains_key(id) && after.exes[id].key() == canonical(path));
}

/// Ensuring a map keeps stores valid, as long as there are identifiers to give.
pub proof fn ensuring_a_map_keeps_stores_valid(
    s: StoresView,
    after: StoresView,
    segment: MapSegmentView,
    id: MapId,
)
    requires
        s.valid(),
        s.map_ensured(after, segment, id),
        s.next_map < u64::MAX,
    ensures
        after.valid(),
        has_map(after.maps, segment.key()),
{
    assert(after.maps.contains_key(id) && after.maps[id].key() == segment.key());
}

/// Ensuring a map records its time, whether it is new or observed again, and leaves every other
/// map, the executables, the edges and who maps what alone.
pub proof fn ensuring_a_map_refreshes_it(
    s: StoresView,
    after: StoresView,
    segment: MapSegmentView,
    id: MapId,
)
    requires
        s.map_ensured(after, segment, id),
    ensures
        after.maps.contains_key(id),
        after.maps[id].key() == segment.key(),
        after.maps[id].update_time == segment.update_time,
        forall|other: MapId| other != id ==> #[trigger] after.maps.contains_key(other)
            == s.maps.contains_key(other) && after.maps[other] == s.maps[other],
        after.exes == s.exes,
        after.exe_maps == s.exe_maps,
        after.markov == s.markov,
        after.active == s.active,
        after.model_time == s.model_time,
        after.last_accounting_time == s.last_accounting_time,
        after.next_exe == s.next_exe,
{
}

/// Ensuring a map has one outcome: the identifier and the stores afterwards are determined. So
/// both ways to ensure a map agree, and the identifier is the one known by the key afterwards.
pub proof fn ensuring_a_map_has_one_outcome(
    s: StoresView,
    segment: MapSegmentView,
    after: StoresView,
    id: MapId,
    other_after: StoresView,
    other_id: MapId,
)
    requires
        s.valid(),
        s.map_ensured(after, segment, id),
        s.map_ensured(other_after, segment, other_id),
    ensures
        other_id == id,
        other_after == after,
        after.maps_with_key(segment.key()) == set![id],
{
    assert forall|known: MapId| after.maps_with_key(segment.key()).contains(
        known,
    ) implies known == id by {
        if known != id {
            assert(s.maps.contains_key(known) && s.maps[known].key() == segment.key());
        }
    }
    assert(after.maps_with_key(segment.key()) =~= set![id]);
}

/// Ensuring an executable has one outcome: the identifier and the stores afterwards are
/// determined.
pub proof fn ensuring_an_exe_has_one_outcome(
    s: StoresView,
    path: Seq<u8>,
    after: StoresView,
    id: ExeId,
    other_after: StoresView,
    other_id: ExeId,
)
    requires
        s.valid(),
        s.exe_ensured(after, path, id),
        s.exe_ensured(other_after, path, other_id),
    ensures
        other_id == id,
        other_after == after,
{
}

/// Ensuring an executable gives the identifier of one that is known exactly where the two have
/// the same path, and is the only one known by it afterwards. The number of executables grows by
/// one where it was not known, and nothing but the executables changes.
pub proof fn exe_identifiers_tell_paths_apart(
    s: StoresView,
    after: StoresView,
    known: ExeId,
    path: Seq<u8>,
    id: ExeId,
)
    requires
        s.valid(),
        s.exes.contains_key(known),
        s.exe_ensured(after, path, id),
    ensures
        known == id <==> s.exes[known].key() == canonical(path),
        after.exes.contains_key(known) && after.exes[known] == s.exes[known],
        forall|other: ExeId| #[trigger]
            after.exes.contains_key(other) && after.exes[other].key() == canonical(path) <==> other
                == id,
        after.exes.len() == s.exes.len() + if has_exe(s.exes, canonical(path)) {
            0int
        } else {
            1
        },
        after == (StoresView { exes: after.exes, next_exe: after.next_exe, ..s }),
{
    assert(after.exes.contains_key(id) && after.exes[id].key() == canonical(path));
    assert forall|other: ExeId| #[trigger]
        after.exes.contains_key(other) && after.exes[other].key() == canonical(
            path,
        ) implies other == id by {
        if other != id {
            assert(s.exes.contains_key(other) && s.exes[other].key() == canonical(path));
        }
    }
}

/// Ensuring a map twice gives the same identifier.
pub proof fn ensuring_a_map_twice_is_once(
    s: StoresView,
    once: StoresView,
    twice: StoresView,
    a: MapSegmentView,
    b: MapSegmentView,
    first: MapId,
    second: MapId,
)
    requires
        s.valid(),
        a.key() == b.key(),
        s.map_ensured(once, a, first),
        once.map_ensured(twice, b, second),
    ensures
        second == first,
        twice == (StoresView {
            maps: once.maps.insert(
                first,
                MapSegmentView { update_time: b.update_time, ..once.maps[first] },
            ),
            ..once
        }),
{
    assert(once.maps.contains_key(first) && once.maps[first].key() == a.key());
    assert(has_map(once.maps, b.key()));
    if second != first {
        assert(s.maps.contains_key(second));
        assert(once.maps[second] == s.maps[second]);
        if has_map(s.maps, a.key()) {
            assert(s.maps.contains_key(first));
        }
    }
}

/// An executable that was removed and is ensured again gets an identifier that was not in use
/// before.
pub proof fn exe_identifiers_are_not_reused(
    s: StoresView,
    after: StoresView,
    gone: ExeId,
    id: ExeId,
)
    requires
        s.valid(),
        s.exes.contains_key(gone),
        s.without_exes(set![gone]).exe_ensured(after, s.exes[gone].path, id),
    ensures
        forall|used: ExeId| #[trigger] s.exes.contains_key(used) ==> used < id,
{
    let t = s.without_exes(set![gone]);
    if has_exe(t.exes, s.exes[gone].key()) {
        let other = choose|other: ExeId| #[trigger]
            t.exes.contains_key(other) && t.exes[other].key() == s.exes[gone].key();
        assert(s.exes.contains_key(other));
    }
}

/// A map that was removed and is ensured again gets an identifier that was not in use before.
pub proof fn map_identifiers_are_not_reused(
    s: StoresView,
    after: StoresView,
    gone: MapId,
    id: MapId,
)
    requires
        s.valid(),
        s.maps.contains_key(gone),
        s.without_maps(set![gone]).map_ensured(after, s.maps[gone], id),
    ensures
        forall|used: MapId| #[trigger] s.maps.contains_key(used) ==> used < id,
{
    let t = s.without_maps(set![gone]);
    if has_map(t.maps, s.maps[gone].key()) {
        let other = choose|other: MapId| #[trigger]
            t.maps.contains_key(other) && t.maps[other].key() == s.maps[gone].key();
        assert(s.maps.contains_key(other));
    }
}

/// Removing a map by its key leaves no map with that key, and nothing maps it.
pub proof fn removing_by_key_leaves_no_such_map(s: StoresView, key: MapKeyView)
    ensures
        ({
            let after = s.without_maps(s.maps_with_key(key));
            &&& !has_map(after.maps, key)
            &&& forall|exe: ExeId, id: MapId|
                s.maps.contains_key(id) && s.maps[id].key() == key
                    ==> !#[trigger] after.exe_maps.contains((exe, id))
        }),
{
    let after = s.without_maps(s.maps_with_key(key));
    if has_map(after.maps, key) {
        let id = choose|id: MapId| #[trigger]
            after.maps.contains_key(id) && after.maps[id].key() == key;
        assert(s.maps_with_key(key).contains(id));
    }
}

/// Removing a new map by its key undoes ensuring it, except that its identifier stays given out.
pub proof fn removing_by_key_undoes_ensuring(
    s: StoresView,
    once: StoresView,
    segment: MapSegmentView,
    id: MapId,
)
    requires
        !has_map(s.maps, segment.key()),
        s.map_ensured(once, segment, id),
        forall|exe: ExeId| !#[trigger] s.exe_maps.contains((exe, id)),
    ensures
        once.without_maps(once.maps_with_key(segment.key())) == (StoresView {
            next_map: once.next_map,
            ..s
        }),
{
    let undone = once.without_maps(once.maps_with_key(segment.key()));
    assert(once.maps_with_key(segment.key()) =~= set![id]) by {
        assert forall|other: MapId| once.maps_with_key(segment.key()).contains(
            other,
        ) implies other == id by {
            if other != id {
                assert(s.maps.contains_key(other));
            }
        }
    }
    assert(undone.maps =~= s.maps);
    assert forall|pair: (ExeId, MapId)| s.exe_maps.contains(pair) implies pair.1 != id by {
        assert(pair == (pair.0, pair.1));
    }
    assert(undone.exe_maps =~= s.exe_maps);
}

/// The stores after each of `maps` has been attached to `exe`.
pub open spec fn all_attached(s: StoresView, exe: ExeId, maps: Seq<MapId>) -> StoresView
    decreases maps.len(),
{
    if maps.len() == 0 {
        s
    } else {
        let before = all_attached(s, exe, maps.drop_last());
        StoresView { exe_maps: before.exe_maps.insert((exe, maps.last())), ..before }
    }
}

proof fn lemma_all_attached(s: StoresView, exe: ExeId, maps: Seq<MapId>)
    ensures
        all_attached(s, exe, maps) == (StoresView {
            exe_maps: all_attached(s, exe, maps).exe_maps,
            ..s
        }),
        s.exe_maps.subset_of(all_attached(s, exe, maps).exe_maps),
        forall|pair: (ExeId, MapId)| #[trigger]
            all_attached(s, exe, maps).exe_maps.contains(pair) && pair.0 != exe
                ==> s.exe_maps.contains(pair),
    decreases maps.len(),
{
    if maps.len() > 0 {
        lemma_all_attached(s, exe, maps.drop_last());
    }
}

/// Removing a new executable undoes ensuring it and attaching any maps to it: the executables and
/// who maps what are as they were, and so is all else where it was not active, except that its
/// identifier stays given out. Removing it once more changes nothing.
pub proof fn removing_an_exe_undoes_ensuring(
    s: StoresView,
    once: StoresView,
    path: Seq<u8>,
    id: ExeId,
    maps: Seq<MapId>,
)
    requires
        !has_exe(s.exes, canonical(path)),
        s.exe_ensured(once, path, id),
        forall|map: MapId| !#[trigger] s.exe_maps.contains((id, map)),
    ensures
        ({
            let undone = all_attached(once, id, maps).without_exes(set![id]);
            &&& !has_exe(undone.exes, canonical(path))
            &&& undone.exes == s.exes
            &&& undone.exe_maps == s.exe_maps
            &&& !s.active.contains(id) ==> undone == (StoresView { next_exe: once.next_exe, ..s })
            &&& undone.without_exes(set![id]) == undone
        }),
{
    let attached = all_attached(once, id, maps);
    let undone = attached.without_exes(set![id]);
    lemma_all_attached(once, id, maps);
    assert(undone.exes =~= s.exes);
    assert forall|pair: (ExeId, MapId)| undone.exe_maps.contains(pair) == s.exe_maps.contains(
        pair,
    ) by {
        assert(pair == (pair.0, pair.1));
        if s.exe_maps.contains(pair) {
            assert(attached.exe_maps.contains(pair));
        }
    }
    assert(undone.exe_maps =~= s.exe_maps);
    if !s.active.contains(id) {
        assert(undone.active =~= s.active);
    }
    assert(undone.without_exes(set![id]) =~= undone);
}

/// A removed executable is neither known, nor active, nor does it map anything; its edges stay.
pub proof fn removed_exe_leaves_only_edges(s: StoresView, id: ExeId)
    ensures
        !s.without_exes(set![id]).exes.contains_key(id),
        !s.without_exes(set![id]).active.contains(id),
        forall|map: MapId| !#[trigger] s.without_exes(set![id]).exe_maps.contains((id, map)),
        s.without_exes(set![id]).markov == s.markov,
        s.without_exes(set![id]).maps == s.maps,
{
}

/// An edge has no direction: seen from the other side it is the same edge, with the state of the
/// two executables exchanged.
pub proof fn edges_have_no_direction(a: ExeId, b: ExeId, now: u64, state: MarkovState)
    requires
        a != b,
    ensures
        EdgeKey::between(a, b) == EdgeKey::between(b, a),
        edge_between(a, b, now, state) == edge_between(b, a, now, state.spec_exchanged()),
{
}

/// The policy of the standard settings is the standard policy.
pub proof fn standard_settings_give_the_standard_policy()
    ensures
        PrunePolicy::of(Persistence::standard()) == PrunePolicy::standard(),
{
}

} // verus!
