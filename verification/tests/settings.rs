use preload_stores::config::Persistence;
use preload_stores::domain::Duration;
use preload_stores::paths::FilePath;
use preload_stores::stores::{PrunePolicy, PruneReport};

#[test]
fn the_standard_settings() {
    let settings = Persistence::default();
    assert_eq!(settings.state_path, None);
    assert_eq!(settings.autosave_interval, None);
    assert!(settings.save_on_shutdown);
    assert_eq!(settings.exe_max_age, Duration::from_secs(30 * 24 * 60 * 60));
    assert_eq!(settings.map_max_age, Duration::from_secs(14 * 24 * 60 * 60));
    assert_eq!(settings.max_exes, 8192);
    assert_eq!(settings.max_maps, 65536);
    assert!(settings.drop_missing_files);
    assert!(settings.vacuum_after_prune);
    assert_eq!(settings.clone(), settings);
}

#[test]
fn the_standard_policy_is_that_of_the_standard_settings() {
    let policy = PrunePolicy::default();
    assert_eq!(
        policy,
        PrunePolicy {
            exe_max_age: Duration::from_secs(2_592_000),
            map_max_age: Duration::from_secs(1_209_600),
            max_exes: 8192,
            max_maps: 65536,
            drop_missing_files: true,
        }
    );
    assert_eq!(PrunePolicy::from(&Persistence::default()), policy);
}

#[test]
fn a_policy_takes_its_limits_from_the_settings() {
    let settings = Persistence {
        exe_max_age: Duration::from_secs(1),
        map_max_age: Duration { secs: 2, nanos: 3 },
        max_exes: 4,
        max_maps: 5,
        drop_missing_files: false,
        ..Default::default()
    };
    assert_eq!(
        PrunePolicy::from(&settings),
        PrunePolicy {
            exe_max_age: Duration { secs: 1, nanos: 0 },
            map_max_age: Duration { secs: 2, nanos: 3 },
            max_exes: 4,
            max_maps: 5,
            drop_missing_files: false,
        }
    );
}

#[test]
fn a_report_of_any_removal() {
    assert!(!PruneReport::default().any_removed());
    for report in [
        PruneReport { exes_removed: 1, maps_removed: 0, edges_removed: 0 },
        PruneReport { exes_removed: 0, maps_removed: 1, edges_removed: 0 },
        PruneReport { exes_removed: 0, maps_removed: 0, edges_removed: 1 },
    ] {
        assert!(report.any_removed());
    }
}

#[test]
fn a_span_counts_whole_seconds() {
    assert_eq!(Duration { secs: 7, nanos: 999 }.as_secs(), 7);
    assert_eq!(Duration::from_secs(7).as_secs(), 7);
}

#[test]
fn settings_compare_their_path_by_components() {
    let with_path = |path: &str| Persistence {
        state_path: Some(FilePath::new(path.as_bytes())),
        ..Default::default()
    };
    assert_eq!(with_path("a/b"), with_path("a//b"));
    assert_eq!(with_path("/a/b"), with_path("/a/./b/"));
    assert_ne!(with_path("/a/b"), with_path("a/b"));
    assert_ne!(with_path("a/b"), Persistence::default());
    assert_eq!(with_path("a//b").clone().state_path.unwrap().as_bytes(), b"a//b");
}

#[test]
fn settings_that_differ_anywhere_differ() {
    let standard = Persistence::default();
    for other in [
        Persistence { autosave_interval: Some(Duration::from_secs(1)), ..Default::default() },
        Persistence { save_on_shutdown: false, ..Default::default() },
        Persistence { exe_max_age: Duration::from_secs(1), ..Default::default() },
        Persistence { map_max_age: Duration { secs: 1_209_600, nanos: 1 }, ..Default::default() },
        Persistence { max_exes: 1, ..Default::default() },
        Persistence { max_maps: 1, ..Default::default() },
        Persistence { drop_missing_files: false, ..Default::default() },
        Persistence { vacuum_after_prune: false, ..Default::default() },
    ] {
        assert_ne!(other, standard);
        assert_eq!(other, other.clone());
    }
}
