//! The values that the stores hold.

use crate::paths::{canonical, FilePath};
use vstd::prelude::*;

verus! {

/// Identifies an executable in an [`ExeStore`](crate::stores::exe_store::ExeStore).
pub type ExeId = u64;

/// Identifies a map in a [`MapStore`](crate::stores::map_store::MapStore).
pub type MapId = u64;

/// A span of time.
#[derive(Debug, Clone, Copy, PartialEq, Eq, Structural)]
pub struct Duration {
    /// Whole seconds.
    pub secs: u64,
    /// Nanoseconds on top of the whole seconds.
    pub nanos: u32,
}

impl Duration {
    /// A span of whole seconds.
    pub fn from_secs(secs: u64) -> (span: Duration)
        ensures
            span == (Duration { secs, nanos: 0 }),
    {
        Duration { secs, nanos: 0 }
    }

    /// The whole seconds of the span.
    pub fn as_secs(&self) -> (secs: u64)
        ensures
            secs == self.secs,
    {
        self.secs
    }
}

/// What identifies an executable from outside: its path.
#[derive(Debug)]
pub struct ExeKey {
    path: FilePath,
}

impl View for ExeKey {
    type V = Seq<u8>;

    closed spec fn view(&self) -> Seq<u8> {
        self.path@
    }
}

impl ExeKey {
    /// The key of the executable at `path`.
    pub fn new(path: &[u8]) -> (key: ExeKey)
        ensures
            key@ == path@,
    {
        ExeKey { path: FilePath::new(path) }
    }

    /// The path of the executable.
    pub fn path(&self) -> (path: &FilePath)
        ensures
            path@ == self@,
    {
        &self.path
    }

    /// Whether two keys name the same executable.
    pub fn same(&self, other: &ExeKey) -> (same: bool)
        ensures
            same == (canonical(self@) == canonical(other@)),
    {
        self.path.same(&other.path)
    }
}

/// What is recorded of an executable.
#[derive(Debug, Clone, Copy, PartialEq, Eq, Structural)]
pub struct Exe {
    /// Whether a process of it runs now.
    pub running: bool,
    /// When it was last seen, in model time, if ever.
    pub last_seen_time: Option<u64>,
    /// For how long it has run in all, in model time.
    pub total_running_time: u64,
}

impl Exe {
    /// An executable that has not been seen yet.
    pub open spec fn unseen() -> Exe {
        Exe { running: false, last_seen_time: None, total_running_time: 0 }
    }
}

/// The view of a [`MapKey`].
#[verifier::ext_equal]
pub struct MapKeyView {
    pub path: Seq<u8>,
    pub offset: u64,
    pub length: u64,
}

impl MapKeyView {
    /// What the key stands for, however its path is spelled.
    pub open spec fn identity(self) -> MapKeyView {
        MapKeyView { path: canonical(self.path), ..self }
    }
}

/// What identifies a map from outside: a range of a file.
#[derive(Debug)]
pub struct MapKey {
    path: FilePath,
    offset: u64,
    length: u64,
}

impl View for MapKey {
    type V = MapKeyView;

    closed spec fn view(&self) -> MapKeyView {
        MapKeyView { path: self.path@, offset: self.offset, length: self.length }
    }
}

impl MapKey {
    /// The key of `length` bytes at `offset` in the file at `path`.
    pub fn new(path: &[u8], offset: u64, length: u64) -> (key: MapKey)
        ensures
            key@ == (MapKeyView { path: path@, offset, length }),
    {
        MapKey { path: FilePath::new(path), offset, length }
    }

    /// The path of the file.
    pub fn path(&self) -> (path: &FilePath)
        ensures
            path@ == self@.path,
    {
        &self.path
    }
}

/// The view of a [`MapSegment`].
#[verifier::ext_equal]
pub struct MapSegmentView {
    pub path: Seq<u8>,
    pub offset: u64,
    pub length: u64,
    pub update_time: u64,
    pub device: u64,
    pub inode: u64,
}

impl MapSegmentView {
    /// What identifies the segment: the range of the file, however its path is spelled.
    pub open spec fn key(self) -> MapKeyView {
        MapKeyView { path: canonical(self.path), offset: self.offset, length: self.length }
    }
}

/// A range of a file that an executable maps.
#[derive(Debug)]
pub struct MapSegment {
    pub path: FilePath,
    pub offset: u64,
    pub length: u64,
    /// When the map was last observed, in model time.
    pub update_time: u64,
    /// The device that holds the file, or zero where it is not known.
    pub device: u64,
    /// The inode of the file, or zero where it is not known.
    pub inode: u64,
}

impl View for MapSegment {
    type V = MapSegmentView;

    open spec fn view(&self) -> MapSegmentView {
        MapSegmentView {
            path: self.path@,
            offset: self.offset,
            length: self.length,
            update_time: self.update_time,
            device: self.device,
            inode: self.inode,
        }
    }
}

impl MapSegment {
    /// `length` bytes at `offset` in the file that `path` spells, observed at `update_time`.
    pub fn new(path: &[u8], offset: u64, length: u64, update_time: u64) -> (segment: MapSegment)
        ensures
            segment@ == (MapSegmentView {
                path: path@,
                offset,
                length,
                update_time,
                device: 0,
                inode: 0,
            }),
    {
        MapSegment::from_path(FilePath::new(path), offset, length, update_time)
    }

    /// `length` bytes at `offset` in the file at `path`, observed at `update_time`.
    pub fn from_path(path: FilePath, offset: u64, length: u64, update_time: u64) -> (segment:
        MapSegment)
        ensures
            segment@ == (MapSegmentView {
                path: path@,
                offset,
                length,
                update_time,
                device: 0,
                inode: 0,
            }),
    {
        MapSegment { path, offset, length, update_time, device: 0, inode: 0 }
    }

    /// The key of the segment.
    pub fn key(&self) -> (key: MapKey)
        ensures
            key@ == (MapKeyView {
                path: self@.path,
                offset: self@.offset,
                length: self@.length,
            }),
            key@.identity() == self@.key(),
    {
        MapKey { path: self.path.duplicate(), offset: self.offset, length: self.length }
    }

    /// Whether the segment has the key `key`.
    pub fn has_key(&self, key: &MapKey) -> (same: bool)
        ensures
            same == (self@.key() == key@.identity()),
    {
        self.offset == key.offset && self.length == key.length && self.path.same(&key.path)
    }
}

/// Which of the two executables of an edge are running.
#[derive(Debug, Clone, Copy, PartialEq, Eq, Structural)]
pub enum MarkovState {
    Neither,
    FirstOnly,
    SecondOnly,
    Both,
}

impl MarkovState {
    /// The same state with the two executables exchanged.
    pub open spec fn spec_exchanged(self) -> MarkovState {
        match self {
            MarkovState::FirstOnly => MarkovState::SecondOnly,
            MarkovState::SecondOnly => MarkovState::FirstOnly,
            other => other,
        }
    }

    /// The same state with the two executables exchanged.
    pub fn exchanged(self) -> (state: MarkovState)
        ensures
            state == self.spec_exchanged(),
    {
        match self {
            MarkovState::FirstOnly => MarkovState::SecondOnly,
            MarkovState::SecondOnly => MarkovState::FirstOnly,
            other => other,
        }
    }
}

} // verus!
