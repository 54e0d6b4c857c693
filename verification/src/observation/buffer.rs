//! What was observed since it was last asked for.

use crate::bytes::copy_bytes;
use crate::domain::{MapSegment, MapSegmentView};
use crate::keyed::{distinct_keys, keyed, lemma_keyed};
use crate::observation::event::{event_views, EventView, ObservationEvent};
use crate::observation::tables::{
    exe_count, exe_entries, exe_or_insert, exe_pairs, file_count, file_entries, file_or_insert,
    file_pairs, list_exes, list_files, new_exe_table, new_file_table, ExeEntry,
    ExeTable, FileEntry, FileMeta, FileTable,
};
use crate::paths::{
    canonical, canonical_decides_same_path, canonical_path, same_path, FilePath,
};
use vstd::prelude::*;

verus! {

/// The event that reports an executable, given its path and a process.
pub open spec fn exe_event(seen: (Seq<u8>, u32)) -> EventView {
    EventView::ExeSeen { path: seen.0, pid: seen.1 }
}

/// The event that reports a file at `time`, given the path of the executable, its own path and
/// what is kept of it: all of it is mapped.
pub open spec fn file_event(seen: (Seq<u8>, Seq<u8>, FileMeta), time: u64) -> EventView {
    EventView::MapSeen {
        exe_path: seen.0,
        map: MapSegmentView {
            path: seen.1,
            offset: 0,
            length: seen.2.size,
            update_time: time,
            device: seen.2.device,
            inode: seen.2.inode,
        },
    }
}

/// The view of an [`EventBuffer`].
#[verifier::ext_equal]
pub struct BufferView {
    /// The executables, by the canonical spelling of their path, each with the path and the
    /// process that were seen first.
    pub exes: Map<Seq<u8>, (Seq<u8>, u32)>,
    /// The files that each executable opened, by the canonical spellings of both paths, each with
    /// the path of the executable, its own path and what the file was when seen first.
    pub files: Map<(Seq<u8>, Seq<u8>), (Seq<u8>, Seq<u8>, FileMeta)>,
}

impl BufferView {
    /// Nothing observed.
    pub open spec fn empty() -> BufferView {
        BufferView { exes: Map::empty(), files: Map::empty() }
    }

    /// The buffer after the process `pid` of the executable at `exe` has opened `file`. What was
    /// there before stays: the first observation counts.
    pub open spec fn recorded(
        self,
        exe: Seq<u8>,
        file: Seq<u8>,
        pid: u32,
        meta: FileMeta,
    ) -> BufferView {
        let keys = (canonical(exe), canonical(file));
        BufferView {
            exes: if self.exes.contains_key(keys.0) {
                self.exes
            } else {
                self.exes.insert(keys.0, (exe, pid))
            },
            files: if self.files.contains_key(keys) {
                self.files
            } else {
                self.files.insert(keys, (exe, file, meta))
            },
        }
    }

    /// What holds of every buffer: entries stand under the canonical spelling of their paths, and
    /// the executables are exactly those of the files.
    pub open spec fn valid(self) -> bool {
        &&& forall|key: Seq<u8>| #[trigger]
            self.exes.contains_key(key) ==> canonical(self.exes[key].0) == key
        &&& forall|keys: (Seq<u8>, Seq<u8>)| #[trigger]
            self.files.contains_key(keys) ==> canonical(self.files[keys].0) == keys.0 && canonical(
                self.files[keys].1,
            ) == keys.1
        &&& forall|keys: (Seq<u8>, Seq<u8>)| #[trigger]
            self.files.contains_key(keys) ==> self.exes.contains_key(keys.0)
        &&& forall|key: Seq<u8>| #[trigger]
            self.exes.contains_key(key) ==> exists|file: Seq<u8>| #[trigger]
                self.files.contains_key((key, file))
    }

    /// The event that reports the executable `key`.
    pub open spec fn exe_event(self, key: Seq<u8>) -> EventView {
        exe_event(self.exes[key])
    }

    /// The event that reports the file `keys` of an executable, at `time`.
    pub open spec fn file_event(self, keys: (Seq<u8>, Seq<u8>), time: u64) -> EventView {
        file_event(self.files[keys], time)
    }

    /// Whether `events` report the buffer at `time`: first each executable once, then each file
    /// once, in any order.
    pub open spec fn reported_by(self, events: Seq<EventView>, time: u64) -> bool {
        let exes = self.exes.len() as int;
        &&& events.len() == self.exes.len() + self.files.len()
        &&& events.no_duplicates()
        &&& forall|i: int|
            #![trigger events[i]]
            0 <= i < exes ==> exists|key: Seq<u8>| #[trigger]
                self.exes.contains_key(key) && events[i] == self.exe_event(key)
        &&& forall|path: Seq<u8>| #[trigger]
            self.exes.contains_key(path) ==> events.take(exes).contains(self.exe_event(path))
        &&& forall|i: int|
            #![trigger events[i]]
            exes <= i < events.len() ==> exists|paths: (Seq<u8>, Seq<u8>)| #[trigger]
                self.files.contains_key(paths) && events[i] == self.file_event(
                    paths,
                    time,
                )
        &&& forall|paths: (Seq<u8>, Seq<u8>)| #[trigger]
            self.files.contains_key(paths) ==> events.skip(exes).contains(
                self.file_event(paths, time),
            )
    }
}

/// Executables and the files that they opened.
pub struct EventBuffer {
    exes: ExeTable,
    files: FileTable,
}

impl View for EventBuffer {
    type V = BufferView;

    closed spec fn view(&self) -> BufferView {
        BufferView { exes: exe_entries(self.exes), files: file_entries(self.files) }
    }
}

/// The events that report the given executables and then the given files, in their order.
pub open spec fn events_for(
    exes: Seq<(Seq<u8>, (Seq<u8>, u32))>,
    files: Seq<((Seq<u8>, Seq<u8>), (Seq<u8>, Seq<u8>, FileMeta))>,
    time: u64,
) -> Seq<EventView> {
    Seq::new(
        exes.len() + files.len(),
        |i: int|
            if i < exes.len() {
                exe_event(exes[i].1)
            } else {
                file_event(files[i - exes.len()].1, time)
            },
    )
}

/// Reports executables and the files that they opened, in the order in which they are given.
pub fn report(
    exes: &Vec<ExeEntry>,
    files: &Vec<FileEntry>,
    time: u64,
) -> (events: Vec<ObservationEvent>)
    ensures
        event_views(events@) == events_for(exe_pairs(exes@), file_pairs(files@), time),
{
    let mut events: Vec<ObservationEvent> = Vec::new();
    let ghost wanted = events_for(exe_pairs(exes@), file_pairs(files@), time);
    let mut i: usize = 0;
    while i < exes.len()
        invariant
            i <= exes.len(),
            events.len() == i,
            wanted == events_for(exe_pairs(exes@), file_pairs(files@), time),
            forall|k: int| 0 <= k < i ==> (#[trigger] events@[k])@ == wanted[k],
        decreases exes.len() - i,
    {
        let path = FilePath::new(exes[i].1.0.as_slice());
        events.push(ObservationEvent::ExeSeen { path, pid: exes[i].1.1 });
        assert(exe_pairs(exes@)[i as int].1 == (exes@[i as int].1.0@, exes@[i as int].1.1));
        i += 1;
    }
    let mut j: usize = 0;
    while j < files.len()
        invariant
            j <= files.len(),
            events.len() == exes.len() + j,
            wanted == events_for(exe_pairs(exes@), file_pairs(files@), time),
            forall|k: int| 0 <= k < exes.len() + j ==> (#[trigger] events@[k])@ == wanted[k],
        decreases files.len() - j,
    {
        let meta = files[j].1.2;
        let exe_path = FilePath::new(files[j].1.0.as_slice());
        let path = FilePath::new(files[j].1.1.as_slice());
        let mut map = MapSegment::from_path(path, 0, meta.size, time);
        map.device = meta.device;
        map.inode = meta.inode;
        events.push(ObservationEvent::MapSeen { exe_path, map });
        assert(file_pairs(files@)[j as int].1 == (
            files@[j as int].1.0@,
            files@[j as int].1.1@,
            files@[j as int].1.2,
        ));
        j += 1;
    }
    assert(event_views(events@) =~= wanted);
    events
}

impl EventBuffer {
    /// What holds of every buffer.
    pub open spec fn wf(&self) -> bool {
        self@.valid()
    }

    /// A buffer without anything observed.
    pub fn new() -> (buffer: EventBuffer)
        ensures
            buffer.wf(),
            buffer@ == BufferView::empty(),
    {
        let buffer = EventBuffer { exes: new_exe_table(), files: new_file_table() };
        assert(buffer@.exes =~= Map::empty());
        assert(buffer@.files =~= Map::empty());
        buffer
    }

    /// Records that the process `pid` of the executable at `exe_path` opened the file at
    /// `file_path`.
    pub fn record(&mut self, exe_path: &[u8], file_path: &[u8], pid: u32, meta: FileMeta)
        requires
            old(self).wf(),
        ensures
            final(self).wf(),
            final(self)@ == old(self)@.recorded(exe_path@, file_path@, pid, meta),
    {
        exe_or_insert(
            &mut self.exes,
            canonical_path(exe_path),
            copy_bytes(exe_path),
            pid,
        );
        file_or_insert(
            &mut self.files,
            canonical_path(exe_path),
            canonical_path(file_path),
            copy_bytes(exe_path),
            copy_bytes(file_path),
            meta,
        );
        proof {
            recording_keeps_buffers_valid(old(self)@, exe_path@, file_path@, pid, meta);
        }
    }

    /// How many executables wait to be reported.
    pub fn exe_count(&self) -> (count: usize)
        ensures
            count == self@.exes.len(),
    {
        exe_count(&self.exes)
    }

    /// How many files wait to be reported.
    pub fn file_count(&self) -> (count: usize)
        ensures
            count == self@.files.len(),
    {
        file_count(&self.files)
    }

    /// Reports what was observed, at `time`, and forgets it.
    pub fn drain(&mut self, time: u64) -> (events: Vec<ObservationEvent>)
        requires
            old(self).wf(),
        ensures
            final(self).wf(),
            final(self)@ == BufferView::empty(),
            old(self)@.reported_by(event_views(events@), time),
    {
        let ghost before = self@;
        let mut taken = EventBuffer::new();
        core::mem::swap(self, &mut taken);
        let exes = list_exes(taken.exes);
        let files = list_files(taken.files);
        let events = report(&exes, &files, time);
        proof {
            lemma_listed(before, exe_pairs(exes@), file_pairs(files@), time);
        }
        events
    }
}

/// Lists of all entries of a buffer give events that report it.
proof fn lemma_listed(
    buffer: BufferView,
    exes: Seq<(Seq<u8>, (Seq<u8>, u32))>,
    files: Seq<((Seq<u8>, Seq<u8>), (Seq<u8>, Seq<u8>, FileMeta))>,
    time: u64,
)
    requires
        distinct_keys(exes),
        distinct_keys(files),
        keyed(exes) == buffer.exes,
        keyed(files) == buffer.files,
        buffer.valid(),
    ensures
        buffer.reported_by(events_for(exes, files, time), time),
{
    lemma_keyed(exes);
    lemma_keyed(files);
    let events = events_for(exes, files, time);
    let count = exes.len() as int;
    assert forall|i: int, j: int|
        0 <= i < events.len() && 0 <= j < events.len() && i != j implies events[i] != events[j] by {
        let (a, b) = if i < j {
            (i, j)
        } else {
            (j, i)
        };
        if b < count {
            assert(exes[a].0 != exes[b].0);
            assert(buffer.exes.contains_key(exes[a].0) && buffer.exes.contains_key(exes[b].0));
        } else if a >= count {
            let (p, q) = (files[a - count], files[b - count]);
            assert(p.0 != q.0);
            assert(buffer.files.contains_key(p.0) && buffer.files.contains_key(q.0));
            assert(p.0 == (p.0.0, p.0.1) && q.0 == (q.0.0, q.0.1));
        }
    }
    assert forall|i: int|
        #![trigger events[i]]
        0 <= i < count implies exists|path: Seq<u8>| #[trigger]
        buffer.exes.contains_key(path) && events[i] == buffer.exe_event(path) by {
        assert(buffer.exes.contains_key(exes[i].0));
        assert(events[i] == buffer.exe_event(exes[i].0));
    }
    assert forall|path: Seq<u8>| #[trigger] buffer.exes.contains_key(path) implies events.take(
        count,
    ).contains(buffer.exe_event(path)) by {
        let i = choose|i: int| 0 <= i < exes.len() && (#[trigger] exes[i]).0 == path;
        assert(events.take(count)[i] == buffer.exe_event(path));
    }
    assert forall|i: int|
        #![trigger events[i]]
        count <= i < events.len() implies exists|paths: (Seq<u8>, Seq<u8>)|
        #[trigger]
        buffer.files.contains_key(paths) && events[i] == buffer.file_event(
            paths,
            time,
        ) by {
        let entry = files[i - count];
        assert(buffer.files.contains_key(entry.0));
        assert(events[i] == buffer.file_event(entry.0, time));
    }
    assert forall|paths: (Seq<u8>, Seq<u8>)| #[trigger]
        buffer.files.contains_key(paths) implies events.skip(count).contains(
        buffer.file_event(paths, time),
    ) by {
        let i = choose|i: int| 0 <= i < files.len() && (#[trigger] files[i]).0 == paths;
        assert(events.skip(count)[i] == buffer.file_event(paths, time));
    }
}

/// The first observation counts: seeing the same again, however the paths are spelled and
/// whatever the process and the file are by then, changes nothing.
pub proof fn first_observation_counts(
    buffer: BufferView,
    exe: Seq<u8>,
    file: Seq<u8>,
    pid: u32,
    meta: FileMeta,
    later_exe: Seq<u8>,
    later_file: Seq<u8>,
    later_pid: u32,
    later_meta: FileMeta,
)
    requires
        canonical(later_exe) == canonical(exe),
        canonical(later_file) == canonical(file),
    ensures
        buffer.recorded(exe, file, pid, meta).recorded(
            later_exe,
            later_file,
            later_pid,
            later_meta,
        ) == buffer.recorded(exe, file, pid, meta),
{
}

/// Nothing that was observed is lost or changed by a further observation, and what is observed
/// is there afterwards.
pub proof fn observations_stay(
    buffer: BufferView,
    exe: Seq<u8>,
    file: Seq<u8>,
    pid: u32,
    meta: FileMeta,
)
    ensures
        buffer.exes.submap_of(buffer.recorded(exe, file, pid, meta).exes),
        buffer.files.submap_of(buffer.recorded(exe, file, pid, meta).files),
        buffer.recorded(exe, file, pid, meta).exes.dom() == buffer.exes.dom().insert(
            canonical(exe),
        ),
        buffer.recorded(exe, file, pid, meta).files.dom() == buffer.files.dom().insert(
            (canonical(exe), canonical(file)),
        ),
{
}

/// Recording keeps buffers valid: the executables stay exactly those of the files.
pub proof fn recording_keeps_buffers_valid(
    buffer: BufferView,
    exe: Seq<u8>,
    file: Seq<u8>,
    pid: u32,
    meta: FileMeta,
)
    requires
        buffer.valid(),
    ensures
        buffer.recorded(exe, file, pid, meta).valid(),
{
    let after = buffer.recorded(exe, file, pid, meta);
    assert forall|key: Seq<u8>| #[trigger] after.exes.contains_key(key) implies exists|f: Seq<u8>|
        #[trigger] after.files.contains_key((key, f)) by {
        if buffer.exes.contains_key(key) {
            let f = choose|f: Seq<u8>| #[trigger] buffer.files.contains_key((key, f));
            assert(after.files.contains_key((key, f)));
        } else {
            assert(after.files.contains_key((key, canonical(file))));
        }
    }
}

/// Each map that a valid buffer reports follows an event for its executable.
pub proof fn maps_follow_their_executable(
    buffer: BufferView,
    events: Seq<EventView>,
    time: u64,
    at: int,
)
    requires
        buffer.valid(),
        buffer.reported_by(events, time),
        0 <= at < events.len(),
        events[at] is MapSeen,
    ensures
        exists|i: int|
            0 <= i < at && (#[trigger] events[i]) is ExeSeen && same_path(
                events[i]->ExeSeen_path,
                events[at]->exe_path,
            ),
{
    let count = buffer.exes.len() as int;
    assert(at >= count) by {
        if at < count {
            let key = choose|key: Seq<u8>| #[trigger]
                buffer.exes.contains_key(key) && events[at] == buffer.exe_event(key);
            assert(events[at] is ExeSeen);
        }
    }
    let keys = choose|keys: (Seq<u8>, Seq<u8>)| #[trigger]
        buffer.files.contains_key(keys) && events[at] == buffer.file_event(keys, time);
    assert(buffer.exes.contains_key(keys.0));
    let i = choose|i: int| 0 <= i < count && events.take(count)[i] == buffer.exe_event(keys.0);
    assert(events[i] == buffer.exe_event(keys.0));
    canonical_decides_same_path(buffer.exes[keys.0].0, buffer.files[keys].0);
}

/// A buffer that was just drained reports nothing.
pub proof fn empty_buffer_reports_nothing(events: Seq<EventView>, time: u64)
    requires
        BufferView::empty().reported_by(events, time),
    ensures
        events.len() == 0,
{
}

/// Each executable and each file is reported by exactly one event.
pub proof fn each_is_reported_once(buffer: BufferView, events: Seq<EventView>, time: u64)
    requires
        buffer.reported_by(events, time),
    ensures
        forall|path: Seq<u8>| #[trigger]
            buffer.exes.contains_key(path) ==> exists|i: int|
                0 <= i < events.len() && events[i] == buffer.exe_event(path) && forall|j: int|
                    0 <= j < events.len() && #[trigger] events[j] == buffer.exe_event(path)
                        ==> j == i,
        forall|paths: (Seq<u8>, Seq<u8>)| #[trigger]
            buffer.files.contains_key(paths) ==> exists|i: int|
                0 <= i < events.len() && events[i] == buffer.file_event(paths, time) && forall|
                    j: int,
                |
                    0 <= j < events.len() && #[trigger] events[j] == buffer.file_event(paths, time)
                        ==> j == i,
{
    let count = buffer.exes.len() as int;
    assert forall|path: Seq<u8>| #[trigger] buffer.exes.contains_key(path) implies exists|i: int|
        0 <= i < events.len() && events[i] == buffer.exe_event(path) && forall|j: int|
            0 <= j < events.len() && #[trigger] events[j] == buffer.exe_event(path) ==> j == i by {
        let i = choose|i: int|
            0 <= i < count && events.take(count)[i] == buffer.exe_event(path);
        assert(events[i] == buffer.exe_event(path));
    }
    assert forall|paths: (Seq<u8>, Seq<u8>)| #[trigger]
        buffer.files.contains_key(paths) implies exists|i: int|
        0 <= i < events.len() && events[i] == buffer.file_event(paths, time) && forall|j: int|
            0 <= j < events.len() && #[trigger] events[j] == buffer.file_event(paths, time)
                ==> j == i by {
        let i = choose|i: int|
            0 <= i < events.len() - count && events.skip(count)[i] == buffer.file_event(
                paths,
                time,
            );
        assert(events[i + count] == buffer.file_event(paths, time));
    }
}

} // verus!
