//! What to prune, and what was pruned.

use crate::config::{
    Persistence, DEFAULT_EXE_MAX_AGE, DEFAULT_MAP_MAX_AGE, DEFAULT_MAX_EXES, DEFAULT_MAX_MAPS,
};
use crate::domain::Duration;
use vstd::prelude::*;
use vstd::std_specs::convert::FromSpec;

verus! {

/// The limits beyond which executables and maps are pruned.
///
/// Ages are in model time, and count whole seconds. A limit of zero disables its rule.
#[derive(Debug, Clone, Copy, PartialEq, Eq, Structural)]
pub struct PrunePolicy {
    pub exe_max_age: Duration,
    pub map_max_age: Duration,
    pub max_exes: usize,
    pub max_maps: usize,
    pub drop_missing_files: bool,
}

impl PrunePolicy {
    /// The policy where nothing is set.
    pub open spec fn standard() -> PrunePolicy {
        PrunePolicy {
            exe_max_age: Duration { secs: DEFAULT_EXE_MAX_AGE, nanos: 0 },
            map_max_age: Duration { secs: DEFAULT_MAP_MAX_AGE, nanos: 0 },
            max_exes: DEFAULT_MAX_EXES,
            max_maps: DEFAULT_MAX_MAPS,
            drop_missing_files: true,
        }
    }

    /// The policy that `settings` ask for.
    pub open spec fn of(settings: Persistence) -> PrunePolicy {
        PrunePolicy {
            exe_max_age: settings.exe_max_age,
            map_max_age: settings.map_max_age,
            max_exes: settings.max_exes,
            max_maps: settings.max_maps,
            drop_missing_files: settings.drop_missing_files,
        }
    }
}

impl Default for PrunePolicy {
    fn default() -> (policy: PrunePolicy)
        ensures
            policy == PrunePolicy::standard(),
    {
        PrunePolicy {
            exe_max_age: Duration::from_secs(DEFAULT_EXE_MAX_AGE),
            map_max_age: Duration::from_secs(DEFAULT_MAP_MAX_AGE),
            max_exes: DEFAULT_MAX_EXES,
            max_maps: DEFAULT_MAX_MAPS,
            drop_missing_files: true,
        }
    }
}

impl<'a> From<&'a Persistence> for PrunePolicy {
    fn from(settings: &'a Persistence) -> (policy: PrunePolicy) {
        PrunePolicy {
            exe_max_age: settings.exe_max_age,
            map_max_age: settings.map_max_age,
            max_exes: settings.max_exes,
            max_maps: settings.max_maps,
            drop_missing_files: settings.drop_missing_files,
        }
    }
}

impl<'a> vstd::std_specs::convert::FromSpecImpl<&'a Persistence> for PrunePolicy {
    open spec fn obeys_from_spec() -> bool {
        true
    }

    open spec fn from_spec(settings: &'a Persistence) -> PrunePolicy {
        PrunePolicy::of(*settings)
    }
}

/// How many entries a prune removed.
#[derive(Debug, Clone, Copy, PartialEq, Eq, Structural)]
pub struct PruneReport {
    pub exes_removed: usize,
    pub maps_removed: usize,
    pub edges_removed: usize,
}

impl Default for PruneReport {
    fn default() -> (report: PruneReport)
        ensures
            report == (PruneReport { exes_removed: 0, maps_removed: 0, edges_removed: 0 }),
    {
        PruneReport { exes_removed: 0, maps_removed: 0, edges_removed: 0 }
    }
}

impl PruneReport {
    /// Whether anything was removed.
    pub fn any_removed(&self) -> (any: bool)
        ensures
            any == (self.exes_removed > 0 || self.maps_removed > 0 || self.edges_removed > 0),
    {
        self.exes_removed > 0 || self.maps_removed > 0 || self.edges_removed > 0
    }
}

/// The standard policy drops executables after thirty days and maps after fourteen, keeps at most
/// 8192 of the former and 65536 of the latter, and drops maps whose file is gone.
pub proof fn the_standard_policy()
    ensures
        PrunePolicy::standard().exe_max_age == (Duration { secs: 2_592_000, nanos: 0 }),
        PrunePolicy::standard().exe_max_age.secs == 30 * 24 * 60 * 60,
        PrunePolicy::standard().map_max_age == (Duration { secs: 1_209_600, nanos: 0 }),
        PrunePolicy::standard().map_max_age.secs == 14 * 24 * 60 * 60,
        PrunePolicy::standard().max_exes == 8192,
        PrunePolicy::standard().max_maps == 65536,
        PrunePolicy::standard().drop_missing_files,
{
}

/// A policy made from settings has each of its limits from the setting of the same name.
pub proof fn policies_take_their_limits_from_settings(settings: &Persistence)
    ensures
        <PrunePolicy as FromSpec<&Persistence>>::obeys_from_spec(),
        <PrunePolicy as FromSpec<&Persistence>>::from_spec(settings) == PrunePolicy::of(*settings),
        PrunePolicy::of(*settings).exe_max_age == settings.exe_max_age,
        PrunePolicy::of(*settings).map_max_age == settings.map_max_age,
        PrunePolicy::of(*settings).max_exes == settings.max_exes,
        PrunePolicy::of(*settings).max_maps == settings.max_maps,
        PrunePolicy::of(*settings).drop_missing_files == settings.drop_missing_files,
{
}

} // verus!
