//! What is reported of the running system.

use crate::domain::{MapSegment, MapSegmentView};
use crate::paths::FilePath;
use vstd::prelude::*;

verus! {

/// One observation. A scan is reported between a beginning and an end.
#[derive(Debug)]
pub enum ObservationEvent {
    /// A scan begins.
    ObsBegin { time: u64, scan_id: u64 },
    /// A process of the executable at `path` was seen.
    ExeSeen { path: FilePath, pid: u32 },
    /// A map of the executable at `exe_path` was seen.
    MapSeen { exe_path: FilePath, map: MapSegment },
    /// A scan ends, with what went wrong in it.
    ObsEnd { time: u64, scan_id: u64, warnings: Vec<String> },
}

/// The view of an [`ObservationEvent`].
#[verifier::ext_equal]
pub enum EventView {
    ObsBegin { time: u64, scan_id: u64 },
    ExeSeen { path: Seq<u8>, pid: u32 },
    MapSeen { exe_path: Seq<u8>, map: MapSegmentView },
    ObsEnd { time: u64, scan_id: u64, warnings: Seq<String> },
}

impl View for ObservationEvent {
    type V = EventView;

    open spec fn view(&self) -> EventView {
        match self {
            ObservationEvent::ObsBegin { time, scan_id } => EventView::ObsBegin {
                time: *time,
                scan_id: *scan_id,
            },
            ObservationEvent::ExeSeen { path, pid } => EventView::ExeSeen {
                path: path@,
                pid: *pid,
            },
            ObservationEvent::MapSeen { exe_path, map } => EventView::MapSeen {
                exe_path: exe_path@,
                map: map@,
            },
            ObservationEvent::ObsEnd { time, scan_id, warnings } => EventView::ObsEnd {
                time: *time,
                scan_id: *scan_id,
                warnings: warnings@,
            },
        }
    }
}

/// The views of a list of events.
pub open spec fn event_views(events: Seq<ObservationEvent>) -> Seq<EventView> {
    events.map_values(|event: ObservationEvent| event@)
}

} // verus!
