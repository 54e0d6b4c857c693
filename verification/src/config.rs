//! Settings of the daemon.

use crate::domain::Duration;
use crate::paths::{same_path, FilePath};
use vstd::prelude::*;
use vstd::std_specs::cmp::PartialEqSpec;

verus! {

/// How long what the daemon learned is kept, and where.
///
/// Ages are in model time: the seconds that the daemon has been running, not wall-clock time.
/// A limit of zero disables its rule.
#[derive(Debug, Clone)]
pub struct Persistence {
    /// The path of the state database, where one is set.
    pub state_path: Option<FilePath>,
    /// How often to save, where it differs from the general interval.
    pub autosave_interval: Option<Duration>,
    /// Whether to save on shutdown.
    pub save_on_shutdown: bool,
    /// Drop an executable that has not been seen for this long.
    pub exe_max_age: Duration,
    /// Drop a map that has not been observed again for this long.
    pub map_max_age: Duration,
    /// With more executables than this left, drop the oldest idle ones.
    pub max_exes: usize,
    /// With more maps than this left, drop the oldest.
    pub max_maps: usize,
    /// Whether to drop maps whose file is gone.
    pub drop_missing_files: bool,
    /// Whether to compact the database on a save that follows a prune which removed something.
    pub vacuum_after_prune: bool,
}

/// Thirty days, in seconds.
pub const DEFAULT_EXE_MAX_AGE: u64 = 2_592_000;

/// Fourteen days, in seconds.
pub const DEFAULT_MAP_MAX_AGE: u64 = 1_209_600;

/// The default for the number of executables.
pub const DEFAULT_MAX_EXES: usize = 8192;

/// The default for the number of maps.
pub const DEFAULT_MAX_MAPS: usize = 65536;

impl Persistence {
    /// The settings where nothing is set.
    pub open spec fn standard() -> Persistence {
        Persistence {
            state_path: None,
            autosave_interval: None,
            save_on_shutdown: true,
            exe_max_age: Duration { secs: DEFAULT_EXE_MAX_AGE, nanos: 0 },
            map_max_age: Duration { secs: DEFAULT_MAP_MAX_AGE, nanos: 0 },
            max_exes: DEFAULT_MAX_EXES,
            max_maps: DEFAULT_MAX_MAPS,
            drop_missing_files: true,
            vacuum_after_prune: true,
        }
    }
}

impl Default for Persistence {
    fn default() -> (settings: Persistence)
        ensures
            settings == Persistence::standard(),
    {
        Persistence {
            state_path: None,
            autosave_interval: None,
            save_on_shutdown: true,
            exe_max_age: Duration::from_secs(DEFAULT_EXE_MAX_AGE),
            map_max_age: Duration::from_secs(DEFAULT_MAP_MAX_AGE),
            max_exes: DEFAULT_MAX_EXES,
            max_maps: DEFAULT_MAX_MAPS,
            drop_missing_files: true,
            vacuum_after_prune: true,
        }
    }
}

/// Whether two optional paths are both absent, or name the same path.
pub open spec fn same_optional_path(a: Option<FilePath>, b: Option<FilePath>) -> bool {
    match (a, b) {
        (Some(a), Some(b)) => same_path(a@, b@),
        (None, None) => true,
        _ => false,
    }
}

impl PartialEq for Persistence {
    fn eq(&self, other: &Persistence) -> (same: bool) {
        let same_state_path = match (&self.state_path, &other.state_path) {
            (Some(a), Some(b)) => a.same(b),
            (None, None) => true,
            _ => false,
        };
        let same_interval = match (self.autosave_interval, other.autosave_interval) {
            (Some(a), Some(b)) => a == b,
            (None, None) => true,
            _ => false,
        };
        same_state_path && same_interval && self.save_on_shutdown == other.save_on_shutdown
            && self.exe_max_age == other.exe_max_age && self.map_max_age == other.map_max_age
            && self.max_exes == other.max_exes && self.max_maps == other.max_maps
            && self.drop_missing_files == other.drop_missing_files && self.vacuum_after_prune
            == other.vacuum_after_prune
    }
}

impl vstd::std_specs::cmp::PartialEqSpecImpl for Persistence {
    open spec fn obeys_eq_spec() -> bool {
        true
    }

    open spec fn eq_spec(&self, other: &Persistence) -> bool {
        &&& same_optional_path(self.state_path, other.state_path)
        &&& *self == (Persistence { state_path: self.state_path, ..*other })
    }
}

/// The standard settings: no path and no interval of their own, a save on shutdown, thirty days
/// for executables and fourteen for maps, 8192 of the former and 65536 of the latter, and both
/// clean-ups.
pub proof fn the_standard_settings()
    ensures
        Persistence::standard().state_path is None,
        Persistence::standard().autosave_interval is None,
        Persistence::standard().save_on_shutdown,
        Persistence::standard().exe_max_age == (Duration { secs: 2_592_000, nanos: 0 }),
        Persistence::standard().map_max_age == (Duration { secs: 1_209_600, nanos: 0 }),
        Persistence::standard().max_exes == 8192,
        Persistence::standard().max_maps == 65536,
        Persistence::standard().drop_missing_files,
        Persistence::standard().vacuum_after_prune,
{
}

/// `==` on settings tells whether all of them are equal, where a path is equal to the same path
/// spelled otherwise.
pub proof fn equal_settings_are_equal_in_each(a: Persistence, b: Persistence)
    ensures
        Persistence::obeys_eq_spec(),
        a.eq_spec(&b) <==> {
            &&& a.state_path is Some <==> b.state_path is Some
            &&& a.state_path is Some && b.state_path is Some ==> same_path(
                a.state_path->0@,
                b.state_path->0@,
            )
            &&& a.autosave_interval == b.autosave_interval
            &&& a.save_on_shutdown == b.save_on_shutdown
            &&& a.exe_max_age == b.exe_max_age
            &&& a.map_max_age == b.map_max_age
            &&& a.max_exes == b.max_exes
            &&& a.max_maps == b.max_maps
            &&& a.drop_missing_files == b.drop_missing_files
            &&& a.vacuum_after_prune == b.vacuum_after_prune
        },
{
}

} // verus!
