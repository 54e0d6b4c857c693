//! What comes out of the buffer of what went in.

use crate::domain::{MapSegment, MapSegmentView};
use crate::observation::buffer::{events_for, BufferView};
use crate::observation::event::{event_views, EventView, ObservationEvent};
use crate::observation::opening::OpeningView;
use crate::observation::tables::{exe_pairs, file_pairs, ExeEntry, FileEntry, FileMeta};
use crate::paths::{canonical, canonical_decides_same_path, same_path};
use vstd::prelude::*;

verus! {

/// A segment is seen with each of its fields as it is.
pub proof fn segments_are_seen_as_they_are(map: MapSegment)
    ensures
        map@.path == map.path@,
        map@.offset == map.offset,
        map@.length == map.length,
        map@.update_time == map.update_time,
        map@.device == map.device,
        map@.inode == map.inode,
{
}

/// An event is seen with each of its fields as it is.
pub proof fn events_are_seen_as_they_are(event: ObservationEvent)
    ensures
        match event {
            ObservationEvent::ObsBegin { time, scan_id } => event@ == (EventView::ObsBegin {
                time,
                scan_id,
            }),
            ObservationEvent::ExeSeen { path, pid } => event@ == (EventView::ExeSeen {
                path: path@,
                pid,
            }),
            ObservationEvent::MapSeen { exe_path, map } => event@ == (EventView::MapSeen {
                exe_path: exe_path@,
                map: MapSegmentView {
                    path: map.path@,
                    offset: map.offset,
                    length: map.length,
                    update_time: map.update_time,
                    device: map.device,
                    inode: map.inode,
                },
            }),
            ObservationEvent::ObsEnd { time, scan_id, warnings } => event@ == (EventView::ObsEnd {
                time,
                scan_id,
                warnings: warnings@,
            }),
        },
{
}

/// Lists are seen entry by entry.
pub proof fn lists_are_seen_entry_by_entry(
    events: Seq<ObservationEvent>,
    exes: Seq<ExeEntry>,
    files: Seq<FileEntry>,
    i: int,
)
    ensures
        event_views(events).len() == events.len(),
        0 <= i < events.len() ==> event_views(events)[i] == events[i]@,
        exe_pairs(exes).len() == exes.len(),
        0 <= i < exes.len() ==> exe_pairs(exes)[i] == (
            exes[i].0@,
            (exes[i].1.0@, exes[i].1.1),
        ),
        file_pairs(files).len() == files.len(),
        0 <= i < files.len() ==> file_pairs(files)[i] == (
            (files[i].0.0@, files[i].0.1@),
            (files[i].1.0@, files[i].1.1@, files[i].1.2),
        ),
{
}

/// A report of given lists has an event for each executable, with its path and process, and then
/// one for each file, with the path of the executable and all of the file, in their order.
pub proof fn reports_have_each_entry_in_order(
    exes: Seq<(Seq<u8>, (Seq<u8>, u32))>,
    files: Seq<((Seq<u8>, Seq<u8>), (Seq<u8>, Seq<u8>, FileMeta))>,
    time: u64,
    i: int,
)
    ensures
        events_for(exes, files, time).len() == exes.len() + files.len(),
        0 <= i < exes.len() ==> events_for(exes, files, time)[i] == (EventView::ExeSeen {
            path: exes[i].1.0,
            pid: exes[i].1.1,
        }),
        0 <= i < files.len() ==> events_for(exes, files, time)[exes.len() + i] == (
        EventView::MapSeen {
            exe_path: files[i].1.0,
            map: MapSegmentView {
                path: files[i].1.1,
                offset: 0,
                length: files[i].1.2.size,
                update_time: time,
                device: files[i].1.2.device,
                inode: files[i].1.2.inode,
            },
        }),
{
}

/// A file that was not in the buffer and is recorded is reported whole: from its start, in its
/// size, at the time of the report, with its device and inode, and under the paths as spelled.
pub proof fn a_new_file_is_reported_whole(
    buffer: BufferView,
    exe: Seq<u8>,
    file: Seq<u8>,
    pid: u32,
    meta: FileMeta,
    events: Seq<EventView>,
    time: u64,
)
    requires
        !buffer.files.contains_key((canonical(exe), canonical(file))),
        buffer.recorded(exe, file, pid, meta).reported_by(events, time),
    ensures
        events.contains(
            EventView::MapSeen {
                exe_path: exe,
                map: MapSegmentView {
                    path: file,
                    offset: 0,
                    length: meta.size,
                    update_time: time,
                    device: meta.device,
                    inode: meta.inode,
                },
            },
        ),
{
    let after = buffer.recorded(exe, file, pid, meta);
    let keys = (canonical(exe), canonical(file));
    let count = after.exes.len() as int;
    assert(after.files.contains_key(keys));
    let i = choose|i: int|
        0 <= i < events.skip(count).len() && events.skip(count)[i] == after.file_event(keys, time);
    assert(events[i + count] == after.file_event(keys, time));
}

/// What an empty buffer holds after `openings` have been recorded in their order.
pub open spec fn all_recorded(openings: Seq<OpeningView>) -> BufferView
    decreases openings.len(),
{
    if openings.len() == 0 {
        BufferView::empty()
    } else {
        let last = openings.last();
        all_recorded(openings.drop_last()).recorded(last.exe, last.file, last.pid, last.meta)
    }
}

/// Whether none of the openings before `at` was by the same executable.
pub open spec fn is_first_of_exe(openings: Seq<OpeningView>, at: int) -> bool {
    &&& 0 <= at < openings.len()
    &&& forall|j: int|
        0 <= j < at ==> !same_path((#[trigger] openings[j]).exe, openings[at].exe)
}

/// Whether none of the openings before `at` was of the same file by the same executable.
pub open spec fn is_first_of_file(openings: Seq<OpeningView>, at: int) -> bool {
    &&& 0 <= at < openings.len()
    &&& forall|j: int|
        0 <= j < at ==> !(same_path((#[trigger] openings[j]).exe, openings[at].exe) && same_path(
            openings[j].file,
            openings[at].file,
        ))
}

proof fn lemma_same(openings: Seq<OpeningView>)
    ensures
        forall|i: int, j: int|
            #![trigger openings[i], openings[j]]
            same_path(openings[i].exe, openings[j].exe) == (canonical(openings[i].exe) == canonical(
                openings[j].exe,
            )) && same_path(openings[i].file, openings[j].file) == (canonical(openings[i].file)
                == canonical(openings[j].file)),
{
    assert forall|i: int, j: int|
        #![trigger openings[i], openings[j]]
        same_path(openings[i].exe, openings[j].exe) == (canonical(openings[i].exe) == canonical(
            openings[j].exe,
        )) && same_path(openings[i].file, openings[j].file) == (canonical(openings[i].file)
            == canonical(openings[j].file)) by {
        canonical_decides_same_path(openings[i].exe, openings[j].exe);
        canonical_decides_same_path(openings[i].file, openings[j].file);
    }
}

spec fn exe_key(opening: OpeningView) -> Seq<u8> {
    canonical(opening.exe)
}

spec fn file_key(opening: OpeningView) -> (Seq<u8>, Seq<u8>) {
    (canonical(opening.exe), canonical(opening.file))
}

proof fn lemma_all_recorded(openings: Seq<OpeningView>)
    ensures
        forall|k: int|
            0 <= k < openings.len() ==> all_recorded(openings).exes.contains_key(
                exe_key(#[trigger] openings[k]),
            ) && all_recorded(openings).files.contains_key(file_key(openings[k])),
        forall|k: int| #[trigger]
            is_first_of_exe(openings, k) ==> all_recorded(openings).exes[exe_key(openings[k])] == (
                openings[k].exe,
                openings[k].pid,
            ),
        forall|k: int| #[trigger]
            is_first_of_file(openings, k) ==> all_recorded(openings).files[file_key(openings[k])]
                == (openings[k].exe, openings[k].file, openings[k].meta),
        forall|key: Seq<u8>| #[trigger]
            all_recorded(openings).exes.contains_key(key) ==> exists|k: int| #[trigger]
                is_first_of_exe(openings, k) && exe_key(openings[k]) == key,
        forall|keys: (Seq<u8>, Seq<u8>)| #[trigger]
            all_recorded(openings).files.contains_key(keys) ==> exists|k: int| #[trigger]
                is_first_of_file(openings, k) && file_key(openings[k]) == keys,
    decreases openings.len(),
{
    if openings.len() > 0 {
        let front = openings.drop_last();
        let last = openings.last();
        let at = openings.len() - 1;
        let before = all_recorded(front);
        let after = all_recorded(openings);
        lemma_all_recorded(front);
        lemma_same(openings);
        assert(openings[at] == last);
        assert forall|k: int| 0 <= k < front.len() implies #[trigger] openings[k] == front[k] by {}
        assert forall|k: int| 0 <= k < front.len() implies #[trigger] is_first_of_exe(front, k)
            == is_first_of_exe(openings, k) by {
            assert(forall|j: int| 0 <= j < k ==> #[trigger] openings[j] == front[j]);
        }
        assert forall|k: int| 0 <= k < front.len() implies #[trigger] is_first_of_file(front, k)
            == is_first_of_file(openings, k) by {
            assert(forall|j: int| 0 <= j < k ==> #[trigger] openings[j] == front[j]);
        }
        assert(is_first_of_exe(openings, at) == !before.exes.contains_key(exe_key(last))) by {
            if before.exes.contains_key(exe_key(last)) {
                let k = choose|k: int| #[trigger]
                    is_first_of_exe(front, k) && exe_key(front[k]) == exe_key(last);
                assert(openings[k] == front[k]);
            } else {
                assert forall|j: int| 0 <= j < at implies !same_path(
                    (#[trigger] openings[j]).exe,
                    last.exe,
                ) by {
                    assert(before.exes.contains_key(exe_key(front[j])));
                }
            }
        }
        assert(is_first_of_file(openings, at) == !before.files.contains_key(file_key(last))) by {
            if before.files.contains_key(file_key(last)) {
                let k = choose|k: int| #[trigger]
                    is_first_of_file(front, k) && file_key(front[k]) == file_key(last);
                assert(openings[k] == front[k]);
            } else {
                assert forall|j: int| 0 <= j < at implies !(same_path(
                    (#[trigger] openings[j]).exe,
                    last.exe,
                ) && same_path(openings[j].file, last.file)) by {
                    assert(before.files.contains_key(file_key(front[j])));
                }
            }
        }
        assert forall|k: int| 0 <= k < openings.len() implies after.exes.contains_key(
            exe_key(#[trigger] openings[k]),
        ) && after.files.contains_key(file_key(openings[k])) by {
            if k < front.len() {
                assert(before.exes.contains_key(exe_key(front[k])));
            }
        }
        assert forall|k: int| #[trigger] is_first_of_exe(openings, k) implies after.exes[exe_key(
            openings[k],
        )] == (openings[k].exe, openings[k].pid) by {
            if k < front.len() {
                assert(is_first_of_exe(front, k));
                assert(before.exes.contains_key(exe_key(front[k])));
            }
        }
        assert forall|k: int| #[trigger] is_first_of_file(openings, k) implies after.files[file_key(
            openings[k],
        )] == (openings[k].exe, openings[k].file, openings[k].meta) by {
            if k < front.len() {
                assert(is_first_of_file(front, k));
                assert(before.files.contains_key(file_key(front[k])));
            }
        }
        assert forall|key: Seq<u8>| #[trigger] after.exes.contains_key(key) implies exists|k: int|
            #[trigger] is_first_of_exe(openings, k) && exe_key(openings[k]) == key by {
            if before.exes.contains_key(key) {
                let k = choose|k: int| #[trigger]
                    is_first_of_exe(front, k) && exe_key(front[k]) == key;
                assert(is_first_of_exe(openings, k));
            } else {
                assert(is_first_of_exe(openings, at));
            }
        }
        assert forall|keys: (Seq<u8>, Seq<u8>)| #[trigger]
            after.files.contains_key(keys) implies exists|k: int| #[trigger]
            is_first_of_file(openings, k) && file_key(openings[k]) == keys by {
            if before.files.contains_key(keys) {
                let k = choose|k: int| #[trigger]
                    is_first_of_file(front, k) && file_key(front[k]) == keys;
                assert(is_first_of_file(openings, k));
            } else {
                assert(is_first_of_file(openings, at));
            }
        }
    }
}

/// Whatever openings were recorded since the buffer was empty, a report of it has, each once: for
/// every opening that is the first by its executable, the executable with its path and process;
/// then, for every opening that is the first of its file by its executable, the whole file, with
/// both paths, its device and its inode, at the time of the report; and nothing else.
pub proof fn reports_have_the_first_openings(
    openings: Seq<OpeningView>,
    events: Seq<EventView>,
    time: u64,
)
    requires
        all_recorded(openings).reported_by(events, time),
    ensures
        forall|k: int| #[trigger]
            is_first_of_exe(openings, k) ==> events.contains(
                EventView::ExeSeen { path: openings[k].exe, pid: openings[k].pid },
            ),
        forall|k: int| #[trigger]
            is_first_of_file(openings, k) ==> events.contains(
                EventView::MapSeen {
                    exe_path: openings[k].exe,
                    map: MapSegmentView {
                        path: openings[k].file,
                        offset: 0,
                        length: openings[k].meta.size,
                        update_time: time,
                        device: openings[k].meta.device,
                        inode: openings[k].meta.inode,
                    },
                },
            ),
        forall|i: int|
            0 <= i < events.len() && (#[trigger] events[i]) is ExeSeen ==> exists|k: int| #[trigger]
                is_first_of_exe(openings, k) && events[i]->ExeSeen_path == openings[k].exe
                    && events[i]->pid == openings[k].pid,
        forall|i: int|
            0 <= i < events.len() && !((#[trigger] events[i]) is ExeSeen) ==> exists|k: int|
                #[trigger]
                is_first_of_file(openings, k) && events[i] == (EventView::MapSeen {
                    exe_path: openings[k].exe,
                    map: MapSegmentView {
                        path: openings[k].file,
                        offset: 0,
                        length: openings[k].meta.size,
                        update_time: time,
                        device: openings[k].meta.device,
                        inode: openings[k].meta.inode,
                    },
                }),
        forall|i: int, j: int|
            0 <= i < j < events.len() && (#[trigger] events[j]) is ExeSeen ==> (
            #[trigger] events[i]) is ExeSeen,
        events.no_duplicates(),
{
    let buffer = all_recorded(openings);
    let count = buffer.exes.len() as int;
    lemma_all_recorded(openings);
    assert forall|k: int| #[trigger] is_first_of_exe(openings, k) implies events.contains(
        EventView::ExeSeen { path: openings[k].exe, pid: openings[k].pid },
    ) by {
        let key = exe_key(openings[k]);
        assert(buffer.exes.contains_key(key));
        let i = choose|i: int|
            0 <= i < events.take(count).len() && events.take(count)[i] == buffer.exe_event(key);
        assert(events[i] == buffer.exe_event(key));
    }
    assert forall|k: int| #[trigger] is_first_of_file(openings, k) implies events.contains(
        EventView::MapSeen {
            exe_path: openings[k].exe,
            map: MapSegmentView {
                path: openings[k].file,
                offset: 0,
                length: openings[k].meta.size,
                update_time: time,
                device: openings[k].meta.device,
                inode: openings[k].meta.inode,
            },
        },
    ) by {
        let keys = file_key(openings[k]);
        assert(buffer.files.contains_key(keys));
        let i = choose|i: int|
            0 <= i < events.skip(count).len() && events.skip(count)[i] == buffer.file_event(
                keys,
                time,
            );
        assert(events[i + count] == buffer.file_event(keys, time));
    }
    assert forall|i: int| 0 <= i < events.len() implies (#[trigger] events[i]) is ExeSeen == (i
        < count) by {}
    assert forall|i: int|
        0 <= i < events.len() && (#[trigger] events[i]) is ExeSeen implies exists|k: int| #[trigger]
        is_first_of_exe(openings, k) && events[i]->ExeSeen_path == openings[k].exe && events[i]->pid
            == openings[k].pid by {
        let key = choose|key: Seq<u8>| #[trigger]
            buffer.exes.contains_key(key) && events[i] == buffer.exe_event(key);
        let k = choose|k: int| #[trigger]
            is_first_of_exe(openings, k) && exe_key(openings[k]) == key;
        assert(is_first_of_exe(openings, k));
    }
    assert forall|i: int|
        0 <= i < events.len() && !((#[trigger] events[i]) is ExeSeen) implies exists|k: int|
        #[trigger]
        is_first_of_file(openings, k) && events[i] == (EventView::MapSeen {
            exe_path: openings[k].exe,
            map: MapSegmentView {
                path: openings[k].file,
                offset: 0,
                length: openings[k].meta.size,
                update_time: time,
                device: openings[k].meta.device,
                inode: openings[k].meta.inode,
            },
        }) by {
        let keys = choose|keys: (Seq<u8>, Seq<u8>)| #[trigger]
            buffer.files.contains_key(keys) && events[i] == buffer.file_event(keys, time);
        let k = choose|k: int| #[trigger]
            is_first_of_file(openings, k) && file_key(openings[k]) == keys;
        assert(is_first_of_file(openings, k));
    }
}

} // verus!
