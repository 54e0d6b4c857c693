use preload_stores::domain::{ExeKey, MapKey, MapSegment, MarkovState};
use preload_stores::observation::event::ObservationEvent;
use preload_stores::paths::FilePath;
use preload_stores::stores::{MarkovEdge, Stores};

const MIN_SIZE: u64 = 2_000_000;

/// What applying observations added.
#[derive(Debug, Default)]
struct Delta {
    new_exes: Vec<u64>,
    new_maps: Vec<u64>,
}

/// Brings what was observed into the stores.
fn apply(stores: &mut Stores, events: &[ObservationEvent]) -> Delta {
    let mut delta = Delta::default();
    for event in events {
        match event {
            ObservationEvent::ObsBegin { .. } | ObservationEvent::ObsEnd { .. } => {}
            ObservationEvent::ExeSeen { path, .. } => {
                let key = ExeKey::new(path.as_bytes());
                let known = stores.exes.id_by_key(&key).is_some();
                let id = stores.ensure_exe(key);
                if !known {
                    delta.new_exes.push(id);
                }
            }
            ObservationEvent::MapSeen { exe_path, map } => {
                let exe = stores.ensure_exe(ExeKey::new(exe_path.as_bytes()));
                let (id, new) = stores.ensure_map_with_flag(MapSegment::new(
                    map.path.as_bytes(),
                    map.offset,
                    map.length,
                    map.update_time,
                ));
                if new {
                    delta.new_maps.push(id);
                }
                stores.attach_map(exe, id);
            }
        }
    }
    delta
}

fn scan(time: u64, scan_id: u64) -> Vec<ObservationEvent> {
    let exe_path = FilePath::new(b"/usr/bin/app");
    vec![
        ObservationEvent::ObsBegin { time, scan_id },
        ObservationEvent::ExeSeen { path: exe_path.duplicate(), pid: 1 },
        ObservationEvent::MapSeen {
            exe_path,
            map: MapSegment::from_path(FilePath::new(b"/usr/lib/libfoo.so"), 0, MIN_SIZE, time),
        },
        ObservationEvent::ObsEnd { time, scan_id, warnings: Vec::new() },
    ]
}

#[test]
fn admits_exe_and_maps() {
    let mut stores = Stores::default();
    let delta = apply(&mut stores, &scan(0, 1));

    assert_eq!(delta.new_exes.len(), 1, "delta: {:?}", delta);
    assert_eq!(delta.new_maps.len(), 1, "delta: {:?}", delta);
    assert_eq!(stores.exes.ids().len(), 1);
    assert_eq!(stores.maps.ids().len(), 1);
}

#[test]
fn refreshes_map_update_time_on_reobserve() {
    let mut stores = Stores::default();
    apply(&mut stores, &scan(10, 1));

    let map_id = stores.maps.ids()[0];
    assert_eq!(stores.maps.get(map_id).unwrap().update_time, 10);

    let delta = apply(&mut stores, &scan(500, 2));
    assert!(delta.new_maps.is_empty());
    assert_eq!(stores.maps.get(map_id).unwrap().update_time, 500);
}

#[test]
fn an_exe_is_known_by_its_path_once() {
    let mut stores = Stores::default();
    let a = stores.ensure_exe(ExeKey::new(b"/usr/bin/app"));
    let b = stores.ensure_exe(ExeKey::new(b"/usr//bin/./app/"));
    let c = stores.ensure_exe(ExeKey::new(b"/usr/bin/../bin/app"));
    assert_eq!(a, b);
    assert_ne!(a, c);
    assert_eq!(stores.exes.len(), 2);
    assert_eq!(stores.exes.key_of(a).unwrap().path().as_bytes(), b"/usr/bin/app");
    let exe = stores.exes.get(a).unwrap();
    assert!(!exe.running);
    assert_eq!(exe.last_seen_time, None);
    assert_eq!(exe.total_running_time, 0);
    assert!(stores.exes.get(99).is_none());
    assert!(stores.exes.key_of(99).is_none());
    assert!(stores.exes.get_mut(99).is_none());
}

#[test]
fn identifiers_are_not_given_twice() {
    let mut stores = Stores::default();
    let a = stores.ensure_exe(ExeKey::new(b"/bin/a"));
    stores.remove_exe(a);
    assert!(stores.exes.get(a).is_none());
    let again = stores.ensure_exe(ExeKey::new(b"/bin/a"));
    assert_ne!(a, again);

    let m = stores.ensure_map(MapSegment::new(b"/lib/a.so", 0, 1, 1));
    stores.remove_map(m);
    let again = stores.ensure_map(MapSegment::new(b"/lib/a.so", 0, 1, 1));
    assert_ne!(m, again);
    assert!(!stores.exes.is_full());
    assert!(!stores.maps.is_full());
}

#[test]
fn a_map_is_known_by_path_offset_and_length() {
    let mut stores = Stores::default();
    let (a, new) = stores.ensure_map_with_flag(MapSegment::new(b"/lib/a.so", 0, 4096, 5));
    assert!(new);
    let (again, new) = stores.ensure_map_with_flag(MapSegment::new(b"/lib//a.so", 0, 4096, 9));
    assert_eq!(a, again);
    assert!(!new);
    assert_eq!(stores.maps.get(a).unwrap().update_time, 9);
    let (offset, new) = stores.ensure_map_with_flag(MapSegment::new(b"/lib/a.so", 1, 4096, 5));
    assert!(new);
    let (length, new) = stores.ensure_map_with_flag(MapSegment::new(b"/lib/a.so", 0, 4097, 5));
    assert!(new);
    assert_eq!(stores.maps.ids(), vec![a, offset, length]);
    assert_eq!(stores.maps.id_by_key(&MapKey::new(b"/lib/a.so", 1, 4096)), Some(offset));
    let segment = stores.maps.get(a).unwrap();
    assert!(segment.has_key(&segment.key()));
    assert!(!segment.has_key(&MapKey::new(b"/lib/a.so", 1, 4096)));
    assert_eq!(segment.key().path().as_bytes(), b"/lib/a.so");
    assert_eq!((segment.device, segment.inode), (0, 0));
}

#[test]
fn a_map_removed_by_key_is_detached() {
    let mut stores = Stores::default();
    let exe = stores.ensure_exe(ExeKey::new(b"/bin/app"));
    let keep = stores.ensure_map(MapSegment::new(b"/lib/keep.so", 0, 1, 1));
    let gone = stores.ensure_map(MapSegment::new(b"/lib/gone.so", 0, 1, 1));
    stores.attach_map(exe, keep);
    stores.attach_map(exe, gone);
    stores.attach_map(exe, gone);
    assert_eq!(stores.exe_maps.exes_for_map(gone), vec![exe]);

    stores.remove_map_by_key(&MapKey::new(b"/lib/other.so", 0, 1));
    assert_eq!(stores.maps.len(), 2);
    stores.remove_map_by_key(&MapKey::new(b"/lib/gone.so", 0, 1));
    assert_eq!(stores.maps.ids(), vec![keep]);
    assert!(stores.exe_maps.exes_for_map(gone).is_empty());
    assert_eq!(stores.exe_maps.maps_for_exe(exe), vec![keep]);
    assert!(stores.exe_maps.is_attached(exe, keep));
    assert!(!stores.exe_maps.is_attached(exe, gone));
}

#[test]
fn a_removed_exe_leaves_its_edges() {
    let mut stores = Stores::default();
    let a = stores.ensure_exe(ExeKey::new(b"/bin/a"));
    let b = stores.ensure_exe(ExeKey::new(b"/bin/b"));
    let map = stores.ensure_map(MapSegment::new(b"/lib/a.so", 0, 1, 1));
    stores.attach_map(a, map);
    stores.attach_map(b, map);
    stores.active.insert(a);
    stores.active.insert(b);
    stores.ensure_markov_edge(a, b, 3, MarkovState::FirstOnly);

    stores.remove_exe(a);
    assert_eq!(stores.exes.ids(), vec![b]);
    assert!(!stores.active.contains(a));
    assert!(stores.active.contains(b));
    assert_eq!(stores.exe_maps.exes_for_map(map), vec![b]);
    assert_eq!(stores.markov.len(), 1);
    assert_eq!(stores.maps.len(), 1);
}

#[test]
fn an_edge_is_the_same_from_both_sides() {
    let mut stores = Stores::default();
    let a = stores.ensure_exe(ExeKey::new(b"/bin/a"));
    let b = stores.ensure_exe(ExeKey::new(b"/bin/b"));
    assert!(stores.ensure_markov_edge(b, a, 3, MarkovState::FirstOnly));
    assert!(!stores.ensure_markov_edge(a, b, 9, MarkovState::Both));
    let edge = MarkovEdge { state: MarkovState::SecondOnly, since: 3 };
    assert_eq!(stores.markov.get(a, b), Some(edge));
    assert_eq!(stores.markov.get(b, a), Some(edge));
    assert_eq!(stores.markov.get(a, a), None);
    assert_eq!(stores.markov.len(), 1);
    assert_eq!(MarkovState::FirstOnly.exchanged(), MarkovState::SecondOnly);
    assert_eq!(MarkovState::Both.exchanged(), MarkovState::Both);
}

#[test]
fn active_exes_are_listed_once() {
    let mut stores = Stores::default();
    stores.active.insert(4);
    stores.active.insert(2);
    stores.active.insert(4);
    let active = stores.active_exes();
    assert_eq!(active.len(), 2);
    assert!(active.contains(&2) && active.contains(&4));
    stores.active.remove(4);
    assert!(!stores.active_exes().contains(&4));
}

#[test]
fn changing_an_exe_changes_only_that() {
    let mut stores = Stores::default();
    let a = stores.ensure_exe(ExeKey::new(b"/bin/a"));
    let b = stores.ensure_exe(ExeKey::new(b"/bin/b"));
    if let Some(exe) = stores.exes.get_mut(a) {
        exe.total_running_time = 42;
    }
    assert_eq!(stores.exes.get(a).unwrap().total_running_time, 42);
    assert_eq!(stores.exes.get(b).unwrap().total_running_time, 0);
    assert_eq!(stores.exes.id_by_key(&ExeKey::new(b"/bin/a")), Some(a));
}

#[test]
fn paths_are_kept_as_spelled_first() {
    let mut stores = Stores::default();
    let exe = stores.ensure_exe(ExeKey::new(b"/usr//bin/app"));
    assert_eq!(stores.ensure_exe(ExeKey::new(b"/usr/bin/app")), exe);
    assert_eq!(stores.exes.key_of(exe).unwrap().path().as_bytes(), b"/usr//bin/app");
    let map = stores.ensure_map(MapSegment::new(b"/lib/x.so/", 0, 1, 1));
    assert_eq!(stores.ensure_map(MapSegment::new(b"/lib/x.so", 0, 1, 2)), map);
    let segment = stores.maps.get(map).unwrap();
    assert_eq!(segment.path.as_bytes(), b"/lib/x.so/");
    assert_eq!(segment.key().path().as_bytes(), b"/lib/x.so/");
    assert_eq!(segment.update_time, 2);
    assert_eq!(stores.maps.id_by_key(&MapKey::new(b"/lib//x.so", 0, 1)), Some(map));
}

#[test]
fn removing_a_new_exe_undoes_adding_it() {
    let mut stores = Stores::default();
    let other = stores.ensure_exe(ExeKey::new(b"/bin/other"));
    let map = stores.ensure_map(MapSegment::new(b"/lib/a.so", 0, 1, 1));
    stores.attach_map(other, map);
    let id = stores.ensure_exe(ExeKey::new(b"/bin/new"));
    stores.attach_map(id, map);
    stores.attach_map(id, 77);
    for _ in 0..2 {
        stores.remove_exe(id);
        assert_eq!(stores.exes.id_by_key(&ExeKey::new(b"/bin/new")), None);
        assert_eq!(stores.exes.ids(), vec![other]);
        assert_eq!(stores.exe_maps.exes_for_map(map), vec![other]);
        assert!(stores.exe_maps.exes_for_map(77).is_empty());
    }
}

#[test]
fn both_ways_to_ensure_a_map_agree() {
    let mut a = Stores::default();
    let mut b = Stores::default();
    for (path, time) in [("/lib/a.so", 1), ("/lib/b.so", 2), ("/lib/a.so", 3)] {
        let id = a.ensure_map(MapSegment::new(path.as_bytes(), 0, 1, time));
        assert_eq!(b.ensure_map_with_flag(MapSegment::new(path.as_bytes(), 0, 1, time)).0, id);
        assert_eq!(a.maps.ids(), b.maps.ids());
        assert_eq!(a.maps.get(id).unwrap().update_time, b.maps.get(id).unwrap().update_time);
        assert_eq!(a.maps.id_by_key(&MapKey::new(path.as_bytes(), 0, 1)), Some(id));
    }
}
