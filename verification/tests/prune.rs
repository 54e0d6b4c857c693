use preload_stores::domain::{Duration, ExeId, ExeKey, MapId, MapKey, MapSegment, MarkovState};
use preload_stores::paths::FilePath;
use preload_stores::stores::{PrunePolicy, PruneReport, Stores};
use tempfile::NamedTempFile;

fn make_exe(stores: &mut Stores, path: &str, last_seen: Option<u64>, running: bool) -> ExeId {
    let id = stores.ensure_exe(ExeKey::new(path.as_bytes()));
    if let Some(exe) = stores.exes.get_mut(id) {
        exe.last_seen_time = last_seen;
        exe.running = running;
    }
    id
}

fn make_map(stores: &mut Stores, path: &str, update_time: u64) -> MapId {
    stores.ensure_map(MapSegment::new(path.as_bytes(), 0, 4096, update_time))
}

fn exe_id(stores: &Stores, path: &str) -> Option<ExeId> {
    stores.exes.id_by_key(&ExeKey::new(path.as_bytes()))
}

fn map_id(stores: &Stores, path: &str) -> Option<MapId> {
    stores.maps.id_by_key(&MapKey::new(path.as_bytes(), 0, 4096))
}

fn is_missing(stores: &Stores, id: MapId) -> bool {
    let text = match stores.maps.get(id) {
        Some(map) => String::from_utf8(map.path.as_bytes().to_vec()).unwrap(),
        None => return false,
    };
    !std::path::Path::new(&text).exists()
}

fn missing_maps(stores: &Stores) -> Vec<MapId> {
    stores.maps.ids().into_iter().filter(|id| is_missing(stores, *id)).collect()
}

fn no_limits() -> PrunePolicy {
    PrunePolicy {
        exe_max_age: Duration::from_secs(0),
        map_max_age: Duration::from_secs(0),
        max_exes: 0,
        max_maps: 0,
        drop_missing_files: false,
    }
}

#[test]
fn drops_stale_exe_keeps_running() {
    let mut stores = Stores { model_time: 1000, ..Default::default() };
    make_exe(&mut stores, "/bin/old", Some(1), false);
    make_exe(&mut stores, "/bin/run", Some(1), true);
    make_exe(&mut stores, "/bin/recent", Some(900), false);

    let policy = PrunePolicy {
        exe_max_age: Duration::from_secs(100),
        map_max_age: Duration::from_secs(0),
        max_exes: 0,
        max_maps: 0,
        drop_missing_files: false,
    };
    let report = stores.prune(&policy, 1000, &missing_maps(&stores));

    assert_eq!(report.exes_removed, 1);
    assert_eq!(stores.exes.len(), 2);
    assert!(exe_id(&stores, "/bin/run").is_some());
    assert!(exe_id(&stores, "/bin/recent").is_some());
    assert!(exe_id(&stores, "/bin/old").is_none());
}

#[test]
fn drops_exe_with_no_last_seen() {
    let mut stores = Stores { model_time: 100, ..Default::default() };
    make_exe(&mut stores, "/bin/never", None, false);

    let policy = PrunePolicy {
        exe_max_age: Duration::from_secs(1),
        map_max_age: Duration::from_secs(0),
        max_exes: 0,
        max_maps: 0,
        drop_missing_files: false,
    };
    let report = stores.prune(&policy, 100, &missing_maps(&stores));
    assert_eq!(report.exes_removed, 1);
    assert_eq!(stores.exes.len(), 0);
}

#[test]
fn zero_age_disables_exe_prune() {
    let mut stores = Stores { model_time: 1_000_000, ..Default::default() };
    make_exe(&mut stores, "/bin/old", Some(1), false);

    let policy = PrunePolicy {
        exe_max_age: Duration::from_secs(0),
        map_max_age: Duration::from_secs(0),
        max_exes: 0,
        max_maps: 0,
        drop_missing_files: false,
    };
    let report = stores.prune(&policy, 1_000_000, &missing_maps(&stores));
    assert_eq!(report.exes_removed, 0);
    assert_eq!(stores.exes.len(), 1);
}

#[test]
fn drops_orphan_maps_after_exe_prune() {
    let mut stores = Stores { model_time: 1000, ..Default::default() };
    let exe = make_exe(&mut stores, "/bin/old", Some(1), false);
    let map = make_map(&mut stores, "/lib/old.so", 500);
    stores.attach_map(exe, map);

    let policy = PrunePolicy {
        exe_max_age: Duration::from_secs(100),
        map_max_age: Duration::from_secs(0),
        max_exes: 0,
        max_maps: 0,
        drop_missing_files: false,
    };
    let report = stores.prune(&policy, 1000, &missing_maps(&stores));
    assert_eq!(report.exes_removed, 1);
    assert_eq!(report.maps_removed, 1);
    assert_eq!(stores.maps.len(), 0);
}

#[test]
fn drops_aged_maps() {
    let mut stores = Stores { model_time: 1000, ..Default::default() };
    let exe = make_exe(&mut stores, "/bin/app", Some(900), false);
    let old_map = make_map(&mut stores, "/lib/old.so", 1);
    let new_map = make_map(&mut stores, "/lib/new.so", 950);
    stores.attach_map(exe, old_map);
    stores.attach_map(exe, new_map);

    let policy = PrunePolicy {
        exe_max_age: Duration::from_secs(0),
        map_max_age: Duration::from_secs(100),
        max_exes: 0,
        max_maps: 0,
        drop_missing_files: false,
    };
    let report = stores.prune(&policy, 1000, &missing_maps(&stores));
    assert_eq!(report.maps_removed, 1);
    assert_eq!(stores.maps.len(), 1);
    assert!(stores.maps.id_by_key(&MapKey::new(b"/lib/new.so", 0, 4096)).is_some());
}

#[test]
fn drops_missing_files_when_enabled() {
    let tmp = NamedTempFile::new().unwrap();
    let existing = tmp.path().to_str().unwrap();
    let missing = "/tmp/preload-ng-definitely-missing-map-xyz";

    let mut stores = Stores::default();
    let exe = make_exe(&mut stores, "/bin/app", Some(0), false);
    let keep = stores.ensure_map(MapSegment::from_path(
        FilePath::new(existing.as_bytes()),
        0,
        4096,
        0,
    ));
    let drop_id = stores.ensure_map(MapSegment::from_path(
        FilePath::new(missing.as_bytes()),
        0,
        4096,
        0,
    ));
    stores.attach_map(exe, keep);
    stores.attach_map(exe, drop_id);

    let policy = PrunePolicy {
        exe_max_age: Duration::from_secs(0),
        map_max_age: Duration::from_secs(0),
        max_exes: 0,
        max_maps: 0,
        drop_missing_files: true,
    };
    let report = stores.prune(&policy, 0, &missing_maps(&stores));
    assert_eq!(report.maps_removed, 1);
    assert_eq!(stores.maps.len(), 1);
    assert!(stores.maps.get(keep).is_some());
}

#[test]
fn count_cap_drops_oldest_idle_exes() {
    let mut stores = Stores { model_time: 100, ..Default::default() };
    make_exe(&mut stores, "/bin/a", Some(10), false);
    make_exe(&mut stores, "/bin/b", Some(20), false);
    make_exe(&mut stores, "/bin/c", Some(30), false);
    make_exe(&mut stores, "/bin/run", Some(5), true);

    let policy = PrunePolicy {
        exe_max_age: Duration::from_secs(0),
        map_max_age: Duration::from_secs(0),
        max_exes: 2,
        max_maps: 0,
        drop_missing_files: false,
    };
    let report = stores.prune(&policy, 100, &missing_maps(&stores));
    // Four executables and a limit of two: the two oldest idle ones go, a running one stays.
    assert_eq!(report.exes_removed, 2);
    assert_eq!(stores.exes.len(), 2);
    assert!(exe_id(&stores, "/bin/run").is_some());
    assert!(exe_id(&stores, "/bin/c").is_some());
}

#[test]
fn prunes_markov_edges_for_removed_exes() {
    let mut stores = Stores { model_time: 1000, ..Default::default() };
    let a = make_exe(&mut stores, "/bin/a", Some(1), false);
    let b = make_exe(&mut stores, "/bin/b", Some(900), false);
    stores.ensure_markov_edge(a, b, 0, MarkovState::Neither);
    assert_eq!(stores.markov.len(), 1);

    let policy = PrunePolicy {
        exe_max_age: Duration::from_secs(100),
        map_max_age: Duration::from_secs(0),
        max_exes: 0,
        max_maps: 0,
        drop_missing_files: false,
    };
    let report = stores.prune(&policy, 1000, &missing_maps(&stores));
    assert_eq!(report.exes_removed, 1);
    assert_eq!(report.edges_removed, 1);
    assert_eq!(stores.markov.len(), 0);
}

#[test]
fn pruned_entries_of_every_store_are_gone() {
    let mut stores = Stores {
        model_time: 10_000,
        last_accounting_time: 10_000,
        ..Default::default()
    };
    let keep = stores.ensure_exe(ExeKey::new(b"/usr/bin/keep"));
    if let Some(exe) = stores.exes.get_mut(keep) {
        exe.last_seen_time = Some(9_900);
    }
    let drop_exe = stores.ensure_exe(ExeKey::new(b"/usr/bin/stale"));
    if let Some(exe) = stores.exes.get_mut(drop_exe) {
        exe.last_seen_time = Some(1);
    }
    let keep_map = stores.ensure_map(MapSegment::new(b"/usr/lib/keep.so", 0, 4096, 9_900));
    let drop_map = stores.ensure_map(MapSegment::new(b"/usr/lib/stale.so", 0, 4096, 1));
    stores.attach_map(keep, keep_map);
    stores.attach_map(drop_exe, drop_map);
    stores.ensure_markov_edge(keep, drop_exe, 0, MarkovState::Neither);

    let policy = PrunePolicy {
        exe_max_age: Duration::from_secs(100),
        map_max_age: Duration::from_secs(100),
        max_exes: 0,
        max_maps: 0,
        drop_missing_files: false,
    };
    let now = stores.model_time;
    let report = stores.prune(&policy, now, &Vec::new());
    assert_eq!(
        report,
        PruneReport { exes_removed: 1, maps_removed: 1, edges_removed: 1 }
    );
    assert!(report.any_removed());

    assert_eq!(stores.exes.ids(), vec![keep]);
    assert_eq!(stores.exes.key_of(keep).unwrap().path().as_bytes(), b"/usr/bin/keep");
    assert_eq!(stores.maps.ids(), vec![keep_map]);
    assert_eq!(stores.maps.get(keep_map).unwrap().path.as_bytes(), b"/usr/lib/keep.so");
    assert_eq!(stores.exe_maps.maps_for_exe(keep), vec![keep_map]);
    assert!(stores.exe_maps.maps_for_exe(drop_exe).is_empty());
    assert!(stores.markov.get(keep, drop_exe).is_none());
    assert_eq!(stores.model_time, 10_000);
    assert_eq!(stores.last_accounting_time, 10_000);
}

#[test]
fn an_age_at_the_limit_is_not_stale() {
    let mut stores = Stores::default();
    let at_limit = make_exe(&mut stores, "/bin/limit", Some(900), false);
    let past_limit = make_exe(&mut stores, "/bin/past", Some(899), false);
    let ahead = make_exe(&mut stores, "/bin/ahead", Some(5000), false);
    let fresh = make_map(&mut stores, "/lib/limit.so", 900);
    let old = make_map(&mut stores, "/lib/past.so", 899);
    stores.attach_map(at_limit, fresh);
    stores.attach_map(at_limit, old);

    let policy = PrunePolicy {
        exe_max_age: Duration { secs: 100, nanos: 999_999_999 },
        map_max_age: Duration::from_secs(100),
        ..no_limits()
    };
    let report = stores.prune(&policy, 1000, &Vec::new());
    assert_eq!(
        report,
        PruneReport { exes_removed: 1, maps_removed: 1, edges_removed: 0 }
    );
    assert!(stores.exes.get(at_limit).is_some());
    assert!(stores.exes.get(past_limit).is_none());
    assert!(stores.exes.get(ahead).is_some());
    assert!(stores.maps.get(fresh).is_some());
    assert!(stores.maps.get(old).is_none());
}

#[test]
fn an_age_under_a_second_disables_its_rule() {
    let mut stores = Stores::default();
    make_exe(&mut stores, "/bin/never", None, false);
    let policy = PrunePolicy {
        exe_max_age: Duration { secs: 0, nanos: 500_000_000 },
        ..no_limits()
    };
    let report = stores.prune(&policy, 1000, &Vec::new());
    assert!(!report.any_removed());
    assert_eq!(stores.exes.len(), 1);
}

#[test]
fn running_exes_exceed_the_limit() {
    let mut stores = Stores::default();
    for path in ["/bin/a", "/bin/b", "/bin/c"] {
        make_exe(&mut stores, path, Some(1), true);
    }
    make_exe(&mut stores, "/bin/idle", Some(900), false);
    let policy = PrunePolicy { max_exes: 1, ..no_limits() };
    let report = stores.prune(&policy, 1000, &Vec::new());
    assert_eq!(report.exes_removed, 1);
    assert_eq!(stores.exes.len(), 3);
    assert!(exe_id(&stores, "/bin/idle").is_none());
}

#[test]
fn exes_never_seen_go_before_those_seen() {
    let mut stores = Stores::default();
    make_exe(&mut stores, "/bin/seen", Some(1), false);
    make_exe(&mut stores, "/bin/never", None, false);
    let policy = PrunePolicy { max_exes: 1, ..no_limits() };
    stores.prune(&policy, 1000, &Vec::new());
    assert!(exe_id(&stores, "/bin/seen").is_some());
    assert!(exe_id(&stores, "/bin/never").is_none());
}

#[test]
fn of_exes_seen_together_the_first_known_goes_first() {
    let mut stores = Stores::default();
    for path in ["/bin/a", "/bin/b", "/bin/c", "/bin/d", "/bin/e"] {
        make_exe(&mut stores, path, Some(7), false);
    }
    let policy = PrunePolicy { max_exes: 2, ..no_limits() };
    stores.prune(&policy, 1000, &Vec::new());
    assert_eq!(stores.exes.ids(), vec![3, 4]);
}

#[test]
fn map_cap_drops_oldest_maps_that_no_running_exe_maps() {
    let mut stores = Stores::default();
    let run = make_exe(&mut stores, "/bin/run", Some(1), true);
    let idle = make_exe(&mut stores, "/bin/idle", Some(1), false);
    let used = make_map(&mut stores, "/lib/used.so", 1);
    let shared = make_map(&mut stores, "/lib/shared.so", 2);
    let old = make_map(&mut stores, "/lib/old.so", 3);
    let new = make_map(&mut stores, "/lib/new.so", 4);
    stores.attach_map(run, used);
    stores.attach_map(run, shared);
    stores.attach_map(idle, shared);
    stores.attach_map(idle, old);
    stores.attach_map(idle, new);

    let policy = PrunePolicy { max_maps: 3, ..no_limits() };
    let report = stores.prune(&policy, 10, &Vec::new());
    assert_eq!(report.maps_removed, 1);
    assert_eq!(stores.maps.ids(), vec![used, shared, new]);
    assert_eq!(stores.exe_maps.maps_for_exe(idle), vec![shared, new]);

    let tighter = PrunePolicy { max_maps: 1, ..no_limits() };
    let report = stores.prune(&tighter, 10, &Vec::new());
    assert_eq!(report.maps_removed, 1);
    assert_eq!(stores.maps.ids(), vec![used, shared]);
}

#[test]
fn maps_of_running_exes_still_age() {
    let mut stores = Stores::default();
    let run = make_exe(&mut stores, "/bin/run", Some(1), true);
    let old = make_map(&mut stores, "/lib/old.so", 1);
    stores.attach_map(run, old);
    let policy = PrunePolicy { map_max_age: Duration::from_secs(10), ..no_limits() };
    let report = stores.prune(&policy, 1000, &Vec::new());
    assert_eq!(report.maps_removed, 1);
    assert_eq!(stores.exes.len(), 1);
    assert!(map_id(&stores, "/lib/old.so").is_none());
}

#[test]
fn missing_files_are_kept_where_disabled() {
    let mut stores = Stores::default();
    let exe = make_exe(&mut stores, "/bin/app", Some(1), false);
    let map = make_map(&mut stores, "/tmp/preload-no-such-file", 1);
    stores.attach_map(exe, map);
    let missing = missing_maps(&stores);
    assert_eq!(missing, vec![map]);
    let report = stores.prune(&no_limits(), 10, &missing);
    assert!(!report.any_removed());
    assert_eq!(stores.maps.len(), 1);
}

#[test]
fn orphan_maps_go_without_any_limit() {
    let mut stores = Stores::default();
    let exe = make_exe(&mut stores, "/bin/app", Some(1), false);
    let attached = make_map(&mut stores, "/lib/a.so", 1);
    make_map(&mut stores, "/lib/b.so", 1);
    stores.attach_map(exe, attached);
    let report = stores.prune(&no_limits(), 10, &Vec::new());
    assert_eq!(
        report,
        PruneReport { exes_removed: 0, maps_removed: 1, edges_removed: 0 }
    );
    assert_eq!(stores.maps.ids(), vec![attached]);
}

#[test]
fn a_second_prune_removes_nothing() {
    let mut stores = Stores::default();
    let mut exes = Vec::new();
    for (path, seen, running) in [
        ("/bin/a", Some(1), false),
        ("/bin/b", None, false),
        ("/bin/c", Some(990), false),
        ("/bin/d", Some(980), false),
        ("/bin/e", Some(5), true),
    ] {
        exes.push(make_exe(&mut stores, path, seen, running));
    }
    for (path, time, exe) in [
        ("/lib/a.so", 990, exes[0]),
        ("/lib/b.so", 1, exes[2]),
        ("/lib/c.so", 985, exes[2]),
        ("/lib/d.so", 970, exes[4]),
        ("/lib/e.so", 999, exes[4]),
    ] {
        let map = make_map(&mut stores, path, time);
        stores.attach_map(exe, map);
    }
    stores.ensure_markov_edge(exes[0], exes[2], 0, MarkovState::Both);
    stores.ensure_markov_edge(exes[2], exes[4], 0, MarkovState::Both);
    let policy = PrunePolicy {
        exe_max_age: Duration::from_secs(100),
        map_max_age: Duration::from_secs(100),
        max_exes: 2,
        max_maps: 2,
        drop_missing_files: false,
    };
    let first = stores.prune(&policy, 1000, &Vec::new());
    assert_eq!(
        first,
        PruneReport { exes_removed: 3, maps_removed: 3, edges_removed: 1 }
    );
    let exe_ids = stores.exes.ids();
    let map_ids = stores.maps.ids();
    let second = stores.prune(&policy, 1000, &Vec::new());
    assert!(!second.any_removed());
    assert_eq!(stores.exes.ids(), exe_ids);
    assert_eq!(stores.maps.ids(), map_ids);
}

#[test]
fn pruned_exes_are_not_active() {
    let mut stores = Stores::default();
    let old = make_exe(&mut stores, "/bin/old", Some(1), false);
    let run = make_exe(&mut stores, "/bin/run", Some(1), true);
    stores.active.insert(old);
    stores.active.insert(run);
    let policy = PrunePolicy { exe_max_age: Duration::from_secs(10), ..no_limits() };
    stores.prune(&policy, 1000, &Vec::new());
    let active = stores.active_exes();
    assert_eq!(active.len(), 1);
    assert!(active.contains(&run));
}
