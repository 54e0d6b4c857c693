//! What the operations on the stores do to each single record.

use crate::domain::{Exe, ExeId, MapId, MapKeyView, MapSegmentView, MarkovState};
use crate::paths::{canonical, canonical_decides_same_path, same_path};
use crate::stores::exe_store::{has_exe, ExeView};
use crate::stores::laws::{exe_limit_holds, map_limit_holds};
use crate::stores::map_store::has_map;
use crate::stores::markov_graph::{edge_between, EdgeKey};
use crate::stores::model::{idle_times, StoresView};
use crate::stores::oldest::{oldest, oldest_are_as_many_as_asked, oldest_come_first};
use crate::stores::policy::PrunePolicy;
use crate::stores::Stores;
use vstd::prelude::*;

verus! {

/// The view of the stores has what each store holds.
pub proof fn stores_are_seen_whole(stores: Stores)
    ensures
        stores@.exes == stores.exes@,
        stores@.maps == stores.maps@,
        stores@.exe_maps == stores.exe_maps@,
        stores@.markov == stores.markov@,
        stores@.active == stores.active@,
        stores@.model_time == stores.model_time,
        stores@.last_accounting_time == stores.last_accounting_time,
        stores@.next_exe == stores.exes.next_id(),
        stores@.next_map == stores.maps.next_id(),
{
}

/// Where executables have a limit on age, an idle one that was last seen longer ago than that, or
/// was never seen, is gone after a prune.
pub proof fn exes_unseen_for_too_long_go(
    s: StoresView,
    policy: PrunePolicy,
    now: u64,
    missing: Set<MapId>,
    id: ExeId,
)
    requires
        policy.exe_max_age.secs > 0,
        s.exes.contains_key(id),
        !s.exes[id].exe.running,
        match s.exes[id].exe.last_seen_time {
            None => true,
            Some(last) => now - last > policy.exe_max_age.secs,
        },
    ensures
        !s.pruned(policy, now, missing).exes.contains_key(id),
{
}

/// Where executables have no limit on their number, one goes in a prune only if they have a limit
/// on age, it is idle, and it was last seen longer ago than that or never.
pub proof fn other_exes_stay_without_a_limit(
    s: StoresView,
    policy: PrunePolicy,
    now: u64,
    missing: Set<MapId>,
    id: ExeId,
)
    requires
        policy.max_exes == 0,
        s.exes.contains_key(id),
        !s.pruned(policy, now, missing).exes.contains_key(id),
    ensures
        policy.exe_max_age.secs > 0,
        !s.exes[id].exe.running,
        match s.exes[id].exe.last_seen_time {
            None => true,
            Some(last) => now - last > policy.exe_max_age.secs,
        },
{
}

/// A running executable stays in a prune, whatever the policy, with its whole record.
pub proof fn running_exes_stay(
    s: StoresView,
    policy: PrunePolicy,
    now: u64,
    missing: Set<MapId>,
    id: ExeId,
)
    requires
        s.exes.contains_key(id),
        s.exes[id].exe.running,
    ensures
        s.pruned(policy, now, missing).exes.contains_key(id),
        s.pruned(policy, now, missing).exes[id] == s.exes[id],
{
}

/// An executable that a prune drops though it is not too old is idle, goes for a limit on the
/// number, and leaves as many as the limit allows. Of the idle ones that stay, none was last seen
/// before it, where one never seen counts as seen at zero; of those seen at the same time, none
/// was known before it.
pub proof fn exes_seen_longest_ago_go_first(
    s: StoresView,
    policy: PrunePolicy,
    now: u64,
    missing: Set<MapId>,
    gone: ExeId,
    kept: ExeId,
)
    requires
        s.valid(),
        s.exes.contains_key(gone),
        policy.exe_max_age.secs > 0 ==> s.exes[gone].exe.running
            || (s.exes[gone].exe.last_seen_time matches Some(last) && now - last
            <= policy.exe_max_age.secs),
        !s.pruned(policy, now, missing).exes.contains_key(gone),
    ensures
        !s.exes[gone].exe.running,
        0 < policy.max_exes <= s.pruned(policy, now, missing).exes.len(),
        s.pruned(policy, now, missing).exes.contains_key(kept) && !s.exes[kept].exe.running ==> {
            let left = match s.exes[gone].exe.last_seen_time {
                Some(last) => last,
                None => 0,
            };
            let stays = match s.exes[kept].exe.last_seen_time {
                Some(last) => last,
                None => 0,
            };
            left < stays || (left == stays && gone < kept)
        },
{
    let aged = s.without_exes(s.stale_exes(policy, now));
    vstd::set_lib::lemma_len_subset(aged.exes.dom(), s.exes.dom());
    vstd::set_lib::lemma_len_subset(idle_times(aged.exes).dom(), aged.exes.dom());
    let times = idle_times(aged.exes);
    let count = (aged.exes.len() - policy.max_exes) as nat;
    let dropped = oldest(times, count);
    let left = s.pruned(policy, now, missing).exes.dom();
    assert(!s.stale_exes(policy, now).contains(gone));
    assert(dropped.contains(gone));
    oldest_are_as_many_as_asked(times, count);
    vstd::set_lib::lemma_len_subset(left, aged.exes.dom());
    vstd::set_lib::lemma_set_disjoint_lens(dropped, left);
    assert(dropped.union(left) =~= aged.exes.dom());
    if s.pruned(policy, now, missing).exes.contains_key(kept) && !s.exes[kept].exe.running {
        oldest_come_first(times, count, gone, kept);
    }
}

/// After a prune by a policy with a limit on the number of executables, there are no more of them
/// than that, or all of them are running.
pub proof fn exes_keep_to_their_limit(
    s: StoresView,
    policy: PrunePolicy,
    now: u64,
    missing: Set<MapId>,
    id: ExeId,
)
    requires
        s.valid(),
        0 < policy.max_exes < s.pruned(policy, now, missing).exes.len(),
        s.pruned(policy, now, missing).exes.contains_key(id),
    ensures
        s.exes[id].exe.running,
{
    exe_limit_holds(s, policy, now, missing);
}

/// A prune takes an executable out of the active ones exactly if it drops it.
pub proof fn pruning_keeps_others_active(
    s: StoresView,
    policy: PrunePolicy,
    now: u64,
    missing: Set<MapId>,
    id: ExeId,
)
    ensures
        s.pruned(policy, now, missing).active.contains(id) <==> s.active.contains(id) && (
        s.exes.contains_key(id) ==> s.pruned(policy, now, missing).exes.contains_key(id)),
{
}

/// A prune forgets that an executable maps a map exactly if it drops one of the two.
pub proof fn pruning_detaches_what_it_drops(
    s: StoresView,
    policy: PrunePolicy,
    now: u64,
    missing: Set<MapId>,
    exe: ExeId,
    map: MapId,
)
    ensures
        s.pruned(policy, now, missing).exe_maps.contains((exe, map)) <==> s.exe_maps.contains(
            (exe, map),
        ) && (s.exes.contains_key(exe) ==> s.pruned(policy, now, missing).exes.contains_key(exe))
            && (s.maps.contains_key(map) ==> s.pruned(policy, now, missing).maps.contains_key(map)),
{
}

/// An edge stays in a prune exactly if both of its executables are known afterwards, and stays as
/// it was.
pub proof fn pruning_keeps_edges_between_those_left(
    s: StoresView,
    policy: PrunePolicy,
    now: u64,
    missing: Set<MapId>,
    edge: EdgeKey,
)
    ensures
        s.pruned(policy, now, missing).markov.contains_key(edge) <==> s.markov.contains_key(edge)
            && s.pruned(policy, now, missing).exes.contains_key(edge.first) && s.pruned(
            policy,
            now,
            missing,
        ).exes.contains_key(edge.second),
        s.pruned(policy, now, missing).markov.contains_key(edge) ==> s.pruned(
            policy,
            now,
            missing,
        ).markov[edge] == s.markov[edge],
{
}

/// A map is gone after a prune where every executable that maps it was dropped, where it was last
/// observed longer ago than maps may be, or where its file is missing and such maps are dropped.
pub proof fn dead_maps_go(
    s: StoresView,
    policy: PrunePolicy,
    now: u64,
    missing: Set<MapId>,
    id: MapId,
)
    requires
        s.maps.contains_key(id),
        ({
            ||| forall|exe: ExeId| #[trigger]
                s.exe_maps.contains((exe, id)) ==> s.exes.contains_key(exe) && !s.pruned(
                    policy,
                    now,
                    missing,
                ).exes.contains_key(exe)
            ||| policy.map_max_age.secs > 0 && now - s.maps[id].update_time
                > policy.map_max_age.secs
            ||| policy.drop_missing_files && missing.contains(id)
        }),
    ensures
        !s.pruned(policy, now, missing).maps.contains_key(id),
{
    let p = s.pruned(policy, now, missing);
    let t = s.exes_pruned(policy, now).without_loose_edges();
    assert(p.exes == t.exes);
    if t.is_attached(id) {
        let exe = choose|exe: ExeId| #[trigger] t.exe_maps.contains((exe, id));
        assert(s.exe_maps.contains((exe, id)));
        assert(!(s.exes.contains_key(exe) && !p.exes.contains_key(exe)));
    }
}

/// Where maps have no limit on their number, only those go in a prune that are too old, whose
/// file is missing and counts, or whose executables were all dropped.
pub proof fn live_maps_stay_without_a_limit(
    s: StoresView,
    policy: PrunePolicy,
    now: u64,
    missing: Set<MapId>,
    id: MapId,
    exe: ExeId,
)
    requires
        policy.max_maps == 0,
        s.maps.contains_key(id),
        policy.map_max_age.secs > 0 ==> now - s.maps[id].update_time <= policy.map_max_age.secs,
        policy.drop_missing_files ==> !missing.contains(id),
        s.exe_maps.contains((exe, id)),
        s.exes.contains_key(exe) ==> s.pruned(policy, now, missing).exes.contains_key(exe),
    ensures
        s.pruned(policy, now, missing).maps.contains_key(id),
        s.pruned(policy, now, missing).maps[id] == s.maps[id],
        s.pruned(policy, now, missing).exe_maps.contains((exe, id)),
{
    let t = s.exes_pruned(policy, now).without_loose_edges();
    assert(s.pruned(policy, now, missing).exes == t.exes);
    assert(t.exe_maps.contains((exe, id)));
}

/// A map that a prune drops though it is not too old, has its file as far as that counts, and is
/// mapped by an executable that stays, is mapped by no running one, goes for a limit on the
/// number, and leaves as many as the limit allows. Of the maps that stay though no running
/// executable maps them, none was last observed before it; of those observed at the same time,
/// none was known before it.
pub proof fn maps_observed_longest_ago_go_first(
    s: StoresView,
    policy: PrunePolicy,
    now: u64,
    missing: Set<MapId>,
    gone: MapId,
    user: ExeId,
    kept: MapId,
)
    requires
        s.valid(),
        s.maps.contains_key(gone),
        policy.map_max_age.secs > 0 ==> now - s.maps[gone].update_time <= policy.map_max_age.secs,
        policy.drop_missing_files ==> !missing.contains(gone),
        s.exe_maps.contains((user, gone)),
        s.exes.contains_key(user) ==> s.pruned(policy, now, missing).exes.contains_key(user),
        !s.pruned(policy, now, missing).maps.contains_key(gone),
    ensures
        forall|exe: ExeId| #[trigger]
            s.exe_maps.contains((exe, gone)) && s.exes.contains_key(exe)
                ==> !s.exes[exe].exe.running,
        0 < policy.max_maps <= s.pruned(policy, now, missing).maps.len(),
        s.pruned(policy, now, missing).maps.contains_key(kept) && (forall|exe: ExeId| #[trigger]
            s.exe_maps.contains((exe, kept)) && s.exes.contains_key(exe)
                ==> !s.exes[exe].exe.running) ==> s.maps[gone].update_time
            < s.maps[kept].update_time || (s.maps[gone].update_time == s.maps[kept].update_time
            && gone < kept),
{
    let p = s.pruned(policy, now, missing);
    let t = s.exes_pruned(policy, now).without_loose_edges();
    let live = t.without_maps(t.dead_maps(policy, now, missing));
    assert(p.exes == t.exes);
    assert(t.exe_maps.contains((user, gone)));
    assert(live.maps.contains_key(gone));
    vstd::set_lib::lemma_len_subset(live.maps.dom(), s.maps.dom());
    vstd::set_lib::lemma_len_subset(live.unused_times().dom(), live.maps.dom());
    let times = live.unused_times();
    let count = (live.maps.len() - policy.max_maps) as nat;
    let dropped = oldest(times, count);
    let left = p.maps.dom();
    assert(dropped.contains(gone));
    assert forall|exe: ExeId| #[trigger]
        s.exe_maps.contains((exe, gone)) && s.exes.contains_key(
            exe,
        ) implies !s.exes[exe].exe.running by {
        if s.exes[exe].exe.running {
            running_exes_stay(s, policy, now, missing, exe);
            assert(live.exe_maps.contains((exe, gone)) && live.is_running(exe));
        }
    }
    oldest_are_as_many_as_asked(times, count);
    vstd::set_lib::lemma_len_subset(left, live.maps.dom());
    vstd::set_lib::lemma_set_disjoint_lens(dropped, left);
    assert(dropped.union(left) =~= live.maps.dom());
    if p.maps.contains_key(kept) && (forall|exe: ExeId| #[trigger]
        s.exe_maps.contains((exe, kept)) && s.exes.contains_key(exe)
            ==> !s.exes[exe].exe.running) {
        if live.is_in_use(kept) {
            let exe = choose|exe: ExeId| #[trigger]
                live.exe_maps.contains((exe, kept)) && live.is_running(exe);
            assert(s.exe_maps.contains((exe, kept)));
        }
        oldest_come_first(times, count, gone, kept);
    }
}

/// After a prune by a policy with a limit on the number of maps, there are no more of them than
/// that, or each is mapped by a running executable.
pub proof fn maps_keep_to_their_limit(
    s: StoresView,
    policy: PrunePolicy,
    now: u64,
    missing: Set<MapId>,
    id: MapId,
)
    requires
        s.valid(),
        0 < policy.max_maps < s.pruned(policy, now, missing).maps.len(),
        s.pruned(policy, now, missing).maps.contains_key(id),
    ensures
        exists|exe: ExeId| #[trigger]
            s.exe_maps.contains((exe, id)) && s.exes.contains_key(exe)
                && s.exes[exe].exe.running,
{
    map_limit_holds(s, policy, now, missing);
    let p = s.pruned(policy, now, missing);
    assert(p.is_in_use(id));
    let exe = choose|exe: ExeId| #[trigger] p.exe_maps.contains((exe, id)) && p.is_running(exe);
    assert(s.exe_maps.contains((exe, id)));
}

/// Removing an executable takes it from the known and the active ones, forgets what it maps, and
/// leaves all else.
pub proof fn removing_an_exe_takes_only_that(s: StoresView, id: ExeId)
    ensures
        ({
            let after = s.without_exes(set![id]);
            &&& after.exes == s.exes.remove(id)
            &&& after.active == s.active.remove(id)
            &&& forall|exe: ExeId, map: MapId| #[trigger]
                after.exe_maps.contains((exe, map)) <==> s.exe_maps.contains((exe, map)) && exe
                    != id
            &&& after.maps == s.maps
            &&& after.markov == s.markov
            &&& after.model_time == s.model_time
            &&& after.last_accounting_time == s.last_accounting_time
            &&& after.next_exe == s.next_exe
            &&& after.next_map == s.next_map
        }),
{
    let after = s.without_exes(set![id]);
    assert(after.exes =~= s.exes.remove(id));
    assert(after.active =~= s.active.remove(id));
}

/// Removing a map takes it from the known ones, forgets who maps it, and leaves all else.
pub proof fn removing_a_map_takes_only_that(s: StoresView, id: MapId)
    ensures
        ({
            let after = s.without_maps(set![id]);
            &&& after.maps == s.maps.remove(id)
            &&& forall|exe: ExeId, map: MapId| #[trigger]
                after.exe_maps.contains((exe, map)) <==> s.exe_maps.contains((exe, map)) && map
                    != id
            &&& after.exes == s.exes
            &&& after.active == s.active
            &&& after.markov == s.markov
            &&& after.model_time == s.model_time
            &&& after.last_accounting_time == s.last_accounting_time
            &&& after.next_exe == s.next_exe
            &&& after.next_map == s.next_map
        }),
{
    let after = s.without_maps(set![id]);
    assert(after.maps =~= s.maps.remove(id));
}

/// Removing a map by its key takes exactly the maps of the same range of the same file, however
/// the path is spelled, with who maps them, and leaves all else.
pub proof fn removing_by_key_takes_that_range_of_that_file(s: StoresView, key: MapKeyView)
    ensures
        ({
            let after = s.without_maps(s.maps_with_key(key.identity()));
            let has_key = |id: MapId|
                s.maps.contains_key(id) && same_path(s.maps[id].path, key.path)
                    && s.maps[id].offset == key.offset && s.maps[id].length == key.length;
            &&& forall|id: MapId| #[trigger]
                after.maps.contains_key(id) <==> s.maps.contains_key(id) && !has_key(id)
            &&& forall|id: MapId| #[trigger]
                after.maps.contains_key(id) ==> after.maps[id] == s.maps[id]
            &&& forall|exe: ExeId, id: MapId| #[trigger]
                after.exe_maps.contains((exe, id)) <==> s.exe_maps.contains((exe, id)) && !has_key(
                    id,
                )
            &&& after.exes == s.exes
            &&& after.active == s.active
            &&& after.markov == s.markov
            &&& after.model_time == s.model_time
            &&& after.last_accounting_time == s.last_accounting_time
            &&& after.next_exe == s.next_exe
            &&& after.next_map == s.next_map
        }),
{
    assert forall|id: MapId| s.maps.contains_key(id) implies #[trigger] s.maps_with_key(
        key.identity(),
    ).contains(id) == (same_path(s.maps[id].path, key.path) && s.maps[id].offset == key.offset
        && s.maps[id].length == key.length) by {
        canonical_decides_same_path(s.maps[id].path, key.path);
    }
    let has_key = |id: MapId|
        s.maps.contains_key(id) && same_path(s.maps[id].path, key.path) && s.maps[id].offset
            == key.offset && s.maps[id].length == key.length;
    assert forall|id: MapId| s.maps_with_key(key.identity()).contains(id) == #[trigger] has_key(
        id,
    ) by {}
}

/// Two maps are the same exactly where they are the same range of the same file, however the paths
/// are spelled; and so for a map and a key.
pub proof fn maps_are_the_same_by_range_of_file(
    a: MapSegmentView,
    b: MapSegmentView,
    key: MapKeyView,
)
    ensures
        a.key() == b.key() <==> same_path(a.path, b.path) && a.offset == b.offset && a.length
            == b.length,
        a.key() == key.identity() <==> same_path(a.path, key.path) && a.offset == key.offset
            && a.length == key.length,
{
    canonical_decides_same_path(a.path, b.path);
    canonical_decides_same_path(a.path, key.path);
}

/// Two executables are the same exactly where their paths are, however the paths are spelled.
pub proof fn exes_are_the_same_by_path(a: ExeView, b: ExeView, path: Seq<u8>)
    ensures
        a.key() == b.key() <==> same_path(a.path, b.path),
        a.key() == canonical(path) <==> same_path(a.path, path),
{
    canonical_decides_same_path(a.path, b.path);
    canonical_decides_same_path(a.path, path);
}

/// Ensuring an executable whose path is known, however spelled, gives its identifier and changes
/// nothing.
pub proof fn ensuring_a_known_exe_changes_nothing(
    s: StoresView,
    after: StoresView,
    path: Seq<u8>,
    id: ExeId,
    known: ExeId,
)
    requires
        s.valid(),
        s.exe_ensured(after, path, id),
        s.exes.contains_key(known),
        same_path(s.exes[known].path, path),
    ensures
        id == known,
        after == s,
{
    canonical_decides_same_path(s.exes[known].path, path);
    assert(s.exes[known].key() == canonical(path));
    assert(has_exe(s.exes, canonical(path)));
}

/// Ensuring an executable whose path is not known adds it as spelled, as one that does not run,
/// was never seen and has not run, under an identifier larger than all before, and changes nothing
/// else.
pub proof fn ensuring_a_new_exe_adds_it_unseen(
    s: StoresView,
    after: StoresView,
    path: Seq<u8>,
    id: ExeId,
)
    requires
        s.valid(),
        s.exe_ensured(after, path, id),
        s.next_exe < u64::MAX,
        forall|known: ExeId| #[trigger]
            s.exes.contains_key(known) ==> !same_path(s.exes[known].path, path),
    ensures
        id == s.next_exe,
        forall|known: ExeId| #[trigger] s.exes.contains_key(known) ==> known < id,
        after == (StoresView {
            exes: s.exes.insert(
                id,
                ExeView {
                    path,
                    exe: Exe { running: false, last_seen_time: None, total_running_time: 0 },
                },
            ),
            next_exe: (s.next_exe + 1) as u64,
            ..s
        }),
{
    if has_exe(s.exes, canonical(path)) {
        let known = choose|known: ExeId| #[trigger]
            s.exes.contains_key(known) && s.exes[known].key() == canonical(path);
        canonical_decides_same_path(s.exes[known].path, path);
    }
}

/// Ensuring a map whose range of its file is known gives its identifier, and changes only the time
/// it was last observed.
pub proof fn ensuring_a_known_map_changes_its_time(
    s: StoresView,
    after: StoresView,
    segment: MapSegmentView,
    id: MapId,
    known: MapId,
)
    requires
        s.valid(),
        s.map_ensured(after, segment, id),
        s.maps.contains_key(known),
        same_path(s.maps[known].path, segment.path),
        s.maps[known].offset == segment.offset,
        s.maps[known].length == segment.length,
    ensures
        id == known,
        after == (StoresView {
            maps: s.maps.insert(
                known,
                MapSegmentView {
                    path: s.maps[known].path,
                    offset: s.maps[known].offset,
                    length: s.maps[known].length,
                    update_time: segment.update_time,
                    device: s.maps[known].device,
                    inode: s.maps[known].inode,
                },
            ),
            ..s
        }),
{
    canonical_decides_same_path(s.maps[known].path, segment.path);
    assert(s.maps[known].key() == segment.key());
    assert(has_map(s.maps, segment.key()));
}

/// Ensuring a map whose range of its file is not known adds it as it is, under an identifier larger
/// than all before, and changes nothing else.
pub proof fn ensuring_a_new_map_adds_it_as_it_is(
    s: StoresView,
    after: StoresView,
    segment: MapSegmentView,
    id: MapId,
)
    requires
        s.valid(),
        s.map_ensured(after, segment, id),
        s.next_map < u64::MAX,
        forall|known: MapId| #[trigger]
            s.maps.contains_key(known) ==> !(same_path(s.maps[known].path, segment.path)
                && s.maps[known].offset == segment.offset && s.maps[known].length
                == segment.length),
    ensures
        id == s.next_map,
        forall|known: MapId| #[trigger] s.maps.contains_key(known) ==> known < id,
        after == (StoresView {
            maps: s.maps.insert(id, segment),
            next_map: (s.next_map + 1) as u64,
            ..s
        }),
{
    if has_map(s.maps, segment.key()) {
        let known = choose|known: MapId| #[trigger]
            s.maps.contains_key(known) && s.maps[known].key() == segment.key();
        canonical_decides_same_path(s.maps[known].path, segment.path);
    }
}

/// A map is told to be new exactly where no known one is the same range of the same file, and an
/// executable is known exactly where one with the same path is.
pub proof fn known_means_the_same_file(s: StoresView, segment: MapSegmentView, path: Seq<u8>)
    ensures
        has_map(s.maps, segment.key()) <==> exists|known: MapId| #[trigger]
            s.maps.contains_key(known) && same_path(s.maps[known].path, segment.path)
                && s.maps[known].offset == segment.offset && s.maps[known].length
                == segment.length,
        has_exe(s.exes, canonical(path)) <==> exists|known: ExeId| #[trigger]
            s.exes.contains_key(known) && same_path(s.exes[known].path, path),
{
    assert forall|known: MapId| #[trigger] s.maps.contains_key(known) implies (
    s.maps[known].key() == segment.key()) == (same_path(s.maps[known].path, segment.path)
        && s.maps[known].offset == segment.offset && s.maps[known].length == segment.length) by {
        canonical_decides_same_path(s.maps[known].path, segment.path);
    }
    assert forall|known: ExeId| #[trigger] s.exes.contains_key(known) implies (s.exes[known].key()
        == canonical(path)) == same_path(s.exes[known].path, path) by {
        canonical_decides_same_path(s.exes[known].path, path);
    }
}

/// The key of an edge has its two executables, the smaller identifier first, and the edge has the
/// time it was joined at and the state of the executables in that order.
pub proof fn edges_record_both_ends(a: ExeId, b: ExeId, now: u64, state: MarkovState)
    ensures
        EdgeKey::between(a, b).first <= EdgeKey::between(a, b).second,
        (EdgeKey::between(a, b).first == a && EdgeKey::between(a, b).second == b) || (
        EdgeKey::between(a, b).first == b && EdgeKey::between(a, b).second == a),
        edge_between(a, b, now, state).since == now,
        a <= b || state == MarkovState::Neither || state == MarkovState::Both ==> edge_between(
            a,
            b,
            now,
            state,
        ).state == state,
        a > b && state == MarkovState::FirstOnly ==> edge_between(a, b, now, state).state
            == MarkovState::SecondOnly,
        a > b && state == MarkovState::SecondOnly ==> edge_between(a, b, now, state).state
            == MarkovState::FirstOnly,
{
}

/// Different pairs of executables have different edges.
pub proof fn edges_of_different_pairs_differ(a: ExeId, b: ExeId, c: ExeId, d: ExeId)
    ensures
        EdgeKey::between(a, b) == EdgeKey::between(c, d) <==> (a == c && b == d) || (a == d && b
            == c),
{
}

/// An edge is within a set of executables exactly if both of its ends are.
pub proof fn edges_are_within_by_both_ends(edge: EdgeKey, exes: Set<ExeId>)
    ensures
        edge.within(exes) <==> exes.contains(edge.first) && exes.contains(edge.second),
{
}

/// Exchanging the executables of a state exchanges which of them runs, and undoes itself.
pub proof fn exchanging_swaps_who_runs(state: MarkovState)
    ensures
        state.spec_exchanged() == MarkovState::Neither <==> state == MarkovState::Neither,
        state.spec_exchanged() == MarkovState::FirstOnly <==> state == MarkovState::SecondOnly,
        state.spec_exchanged() == MarkovState::SecondOnly <==> state == MarkovState::FirstOnly,
        state.spec_exchanged() == MarkovState::Both <==> state == MarkovState::Both,
{
}

} // verus!
