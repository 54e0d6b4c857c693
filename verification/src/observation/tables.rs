//! The hash tables of the event buffer, each an `FxHashMap` of `rustc_hash`.

use crate::keyed::{distinct_keys, keyed};
use rustc_hash::FxHashMap;
use vstd::prelude::*;

verus! {

/// What is kept of a file: its size, its device and its inode.
#[derive(Debug, Clone, Copy, PartialEq, Eq, Structural)]
pub struct FileMeta {
    pub size: u64,
    pub device: u64,
    pub inode: u64,
}

/// Executables by key, each with its path and the identifier of a process.
pub type ExeTable = FxHashMap<Vec<u8>, (Vec<u8>, u32)>;

/// An entry of an [`ExeTable`].
pub type ExeEntry = (Vec<u8>, (Vec<u8>, u32));

/// Files by the key of an executable and their own, each with the path of the executable, its own
/// path and what is kept of it.
pub type FileTable = FxHashMap<(Vec<u8>, Vec<u8>), (Vec<u8>, Vec<u8>, FileMeta)>;

/// An entry of a [`FileTable`].
pub type FileEntry = ((Vec<u8>, Vec<u8>), (Vec<u8>, Vec<u8>, FileMeta));

/// What an [`ExeTable`] holds.
pub uninterp spec fn exe_entries(table: FxHashMap<Vec<u8>, (Vec<u8>, u32)>) -> Map<
    Seq<u8>,
    (Seq<u8>, u32),
>;

/// What a [`FileTable`] holds.
pub uninterp spec fn file_entries(
    table: FxHashMap<(Vec<u8>, Vec<u8>), (Vec<u8>, Vec<u8>, FileMeta)>,
) -> Map<(Seq<u8>, Seq<u8>), (Seq<u8>, Seq<u8>, FileMeta)>;

/// The pairs that a list of executables stands for.
pub open spec fn exe_pairs(list: Seq<ExeEntry>) -> Seq<(Seq<u8>, (Seq<u8>, u32))> {
    list.map_values(|entry: ExeEntry| (entry.0@, (entry.1.0@, entry.1.1)))
}

/// The pairs that a list of files stands for.
pub open spec fn file_pairs(list: Seq<FileEntry>) -> Seq<
    ((Seq<u8>, Seq<u8>), (Seq<u8>, Seq<u8>, FileMeta)),
> {
    list.map_values(
        |entry: FileEntry|
            ((entry.0.0@, entry.0.1@), (entry.1.0@, entry.1.1@, entry.1.2)),
    )
}

/// Calls `FxHashMap::default`: the table is empty.
#[verifier::external_body]
pub(crate) fn new_exe_table() -> (table: ExeTable)
    ensures
        exe_entries(table).dom() == Set::<Seq<u8>>::empty(),
{
    ExeTable::default()
}

/// Calls `HashMap::entry` and `Entry::or_insert`: an entry for `key` stays as it is, and where
/// there is none, one with `path` and `pid` is added.
#[verifier::external_body]
pub(crate) fn exe_or_insert(table: &mut ExeTable, key: Vec<u8>, path: Vec<u8>, pid: u32)
    ensures
        exe_entries(*final(table)) == if exe_entries(*old(table)).contains_key(key@) {
            exe_entries(*old(table))
        } else {
            exe_entries(*old(table)).insert(key@, (path@, pid))
        },
{
    table.entry(key).or_insert((path, pid));
}

/// Calls `HashMap::len`: the result is the number of entries.
#[verifier::external_body]
pub(crate) fn exe_count(table: &ExeTable) -> (count: usize)
    ensures
        count == exe_entries(*table).len(),
{
    table.len()
}

/// Calls `Vec::from_iter` on the table: the list has each entry once. Their order is not known.
#[verifier::external_body]
pub(crate) fn list_exes(table: ExeTable) -> (list: Vec<ExeEntry>)
    ensures
        distinct_keys(exe_pairs(list@)),
        keyed(exe_pairs(list@)) == exe_entries(table),
{
    Vec::from_iter(table)
}

/// Calls `FxHashMap::default`: the table is empty.
#[verifier::external_body]
pub(crate) fn new_file_table() -> (table: FileTable)
    ensures
        file_entries(table).dom() == Set::<(Seq<u8>, Seq<u8>)>::empty(),
{
    FileTable::default()
}

/// Calls `HashMap::entry` and `Entry::or_insert`: an entry for the two keys stays as it is, and
/// where there is none, one with the two paths and `meta` is added.
#[verifier::external_body]
pub(crate) fn file_or_insert(
    table: &mut FileTable,
    exe_key: Vec<u8>,
    file_key: Vec<u8>,
    exe_path: Vec<u8>,
    file_path: Vec<u8>,
    meta: FileMeta,
)
    ensures
        file_entries(*final(table)) == if file_entries(*old(table)).contains_key(
            (exe_key@, file_key@),
        ) {
            file_entries(*old(table))
        } else {
            file_entries(*old(table)).insert(
                (exe_key@, file_key@),
                (exe_path@, file_path@, meta),
            )
        },
{
    table.entry((exe_key, file_key)).or_insert((exe_path, file_path, meta));
}

/// Calls `HashMap::len`: the result is the number of entries.
#[verifier::external_body]
pub(crate) fn file_count(table: &FileTable) -> (count: usize)
    ensures
        count == file_entries(*table).len(),
{
    table.len()
}

/// Calls `Vec::from_iter` on the table: the list has each entry once. Their order is not known.
#[verifier::external_body]
pub(crate) fn list_files(table: FileTable) -> (list: Vec<FileEntry>)
    ensures
        distinct_keys(file_pairs(list@)),
        keyed(file_pairs(list@)) == file_entries(table),
{
    Vec::from_iter(table)
}

} // verus!
