//! From the notice that a file was opened to what is recorded of it.
//!
//! Between two steps something is looked up in the system: first the path of the file, then what
//! the file is, then the path of the executable. Each step takes what was found, and either gives
//! the next lookup to make or drops the notice.

use crate::bytes::{append_range, copy_bytes, has_prefix};
use crate::observation::buffer::{recording_keeps_buffers_valid, BufferView, EventBuffer};
use crate::observation::decimal::{
    append_decimal, append_digits, decimal, decimals_read_back, digits, digits_read_back,
    number_written,
};
use crate::observation::tables::FileMeta;
use crate::text::is_utf8;
use vstd::prelude::*;
use vstd::utf8::{encode_utf8, valid_utf8};

verus! {

/// Where files lie that are not of interest.
pub open spec fn skip_prefixes() -> Seq<Seq<char>> {
    seq![
        "/proc/"@,
        "/sys/"@,
        "/dev/"@,
        "/tmp/"@,
        "/run/user/"@,
        "/run/lock/"@,
        "/run/credentials/"@,
        "/var/run/"@,
        "/var/lock/"@,
    ]
}

/// Whether `path` begins with one of [`skip_prefixes`].
pub open spec fn is_skipped(path: Seq<u8>) -> bool {
    exists|k: int|
        0 <= k < skip_prefixes().len() && encode_utf8(
            #[trigger] skip_prefixes()[k],
        ).is_prefix_of(path)
}

/// Whether a file at `path` is of interest: the path is text, and is not skipped.
pub open spec fn is_of_interest(path: Seq<u8>) -> bool {
    valid_utf8(path) && !is_skipped(path)
}

/// Whether a file at `path` is of interest.
pub fn of_interest(path: &[u8]) -> (wanted: bool)
    ensures
        wanted == is_of_interest(path@),
{
    if !is_utf8(path) {
        return false;
    }
    let prefixes = [
        "/proc/",
        "/sys/",
        "/dev/",
        "/tmp/",
        "/run/user/",
        "/run/lock/",
        "/run/credentials/",
        "/var/run/",
        "/var/lock/",
    ];
    let mut i: usize = 0;
    assert(forall|k: int|
        0 <= k < prefixes@.len() ==> #[trigger] prefixes@[k]@ == skip_prefixes()[k]);
    while i < prefixes.len()
        invariant
            i <= prefixes@.len(),
            prefixes@.len() == skip_prefixes().len(),
            forall|k: int|
                0 <= k < prefixes@.len() ==> #[trigger] prefixes@[k]@ == skip_prefixes()[k],
            forall|k: int|
                0 <= k < i ==> !encode_utf8(#[trigger] skip_prefixes()[k]).is_prefix_of(path@),
        decreases prefixes@.len() - i,
    {
        if has_prefix(path, prefixes[i].as_bytes()) {
            assert(encode_utf8(skip_prefixes()[i as int]).is_prefix_of(path@));
            return false;
        }
        i += 1;
    }
    true
}

/// The link that names the file open as `fd`.
pub open spec fn file_link(fd: i32) -> Seq<u8> {
    encode_utf8("/proc/self/fd/"@) + decimal(fd as int)
}

/// The link that names the executable of the process `pid`.
pub open spec fn exe_link(pid: u32) -> Seq<u8> {
    encode_utf8("/proc/"@) + digits(pid as nat) + encode_utf8("/exe"@)
}

/// What the system tells of a file.
#[derive(Debug, Clone, Copy, PartialEq, Eq, Structural)]
pub struct FileStat {
    /// Whether it is a regular file.
    pub is_file: bool,
    pub size: u64,
    pub device: u64,
    pub inode: u64,
}

/// What [`FileLookup::of`] makes of a notice: the process and the link to read, if any.
pub open spec fn file_lookup(fd: Option<i32>, pid: i32, self_pid: i32) -> Option<(u32, Seq<u8>)> {
    match fd {
        Some(fd) if pid != self_pid && pid > 0 => Some((pid as u32, file_link(fd))),
        _ => None,
    }
}

/// What [`FileLookup::found`] makes of the path that was found.
pub open spec fn file_check(pid: u32, path: Option<Seq<u8>>) -> Option<(u32, Seq<u8>)> {
    match path {
        Some(path) if is_of_interest(path) => Some((pid, path)),
        _ => None,
    }
}

/// What [`FileCheck::found`] makes of what the system tells of the file.
pub open spec fn exe_lookup(pid: u32, file: Seq<u8>, stat: Option<FileStat>) -> Option<
    (u32, Seq<u8>, FileMeta, Seq<u8>),
> {
    match stat {
        Some(stat) if stat.is_file && stat.size > 0 => Some(
            (
                pid,
                file,
                FileMeta { size: stat.size, device: stat.device, inode: stat.inode },
                exe_link(pid),
            ),
        ),
        _ => None,
    }
}

/// What [`ExeLookup::found`] makes of the path of the executable.
pub open spec fn opening(
    pid: u32,
    file: Seq<u8>,
    meta: FileMeta,
    exe: Option<Seq<u8>>,
) -> Option<OpeningView> {
    match exe {
        Some(exe) => Some(OpeningView { exe, file, pid, meta }),
        None => None,
    }
}

/// The path of the file is to be looked up.
#[derive(Debug)]
pub struct FileLookup {
    /// The process that opened the file.
    pub pid: u32,
    /// The link to read.
    pub link: Vec<u8>,
}

/// What the file is is to be looked up.
#[derive(Debug)]
pub struct FileCheck {
    /// The process that opened the file.
    pub pid: u32,
    /// The path of the file.
    pub file: Vec<u8>,
}

/// The path of the executable is to be looked up.
#[derive(Debug)]
pub struct ExeLookup {
    /// The process that opened the file.
    pub pid: u32,
    /// The path of the file.
    pub file: Vec<u8>,
    /// What is kept of the file.
    pub meta: FileMeta,
    /// The link to read.
    pub link: Vec<u8>,
}

/// That a process of an executable opened a file.
#[derive(Debug)]
pub struct Opening {
    /// The path of the executable.
    pub exe: Vec<u8>,
    /// The path of the file.
    pub file: Vec<u8>,
    /// The process.
    pub pid: u32,
    /// What is kept of the file.
    pub meta: FileMeta,
}

/// The view of an [`Opening`].
#[verifier::ext_equal]
pub struct OpeningView {
    pub exe: Seq<u8>,
    pub file: Seq<u8>,
    pub pid: u32,
    pub meta: FileMeta,
}

impl View for FileLookup {
    type V = (u32, Seq<u8>);

    open spec fn view(&self) -> (u32, Seq<u8>) {
        (self.pid, self.link@)
    }
}

impl View for FileCheck {
    type V = (u32, Seq<u8>);

    open spec fn view(&self) -> (u32, Seq<u8>) {
        (self.pid, self.file@)
    }
}

impl View for ExeLookup {
    type V = (u32, Seq<u8>, FileMeta, Seq<u8>);

    open spec fn view(&self) -> (u32, Seq<u8>, FileMeta, Seq<u8>) {
        (self.pid, self.file@, self.meta, self.link@)
    }
}

impl View for Opening {
    type V = OpeningView;

    open spec fn view(&self) -> OpeningView {
        OpeningView { exe: self.exe@, file: self.file@, pid: self.pid, meta: self.meta }
    }
}

/// The view of what may be there.
pub open spec fn option_view<T: View>(option: Option<T>) -> Option<T::V> {
    match option {
        Some(value) => Some(value@),
        None => None,
    }
}

impl FileLookup {
    /// Takes the notice that the process `pid` opened a file, which is open here as `fd`. A
    /// notice without a file tells that some were lost, and openings of this process itself are
    /// not of interest.
    pub fn of(fd: Option<i32>, pid: i32, self_pid: i32) -> (lookup: Option<FileLookup>)
        ensures
            option_view(lookup) == file_lookup(fd, pid, self_pid),
    {
        match fd {
            None => None,
            Some(fd) => {
                if pid == self_pid || pid <= 0 {
                    return None;
                }
                let mut link = copy_bytes("/proc/self/fd/".as_bytes());
                append_decimal(&mut link, fd);
                Some(FileLookup { pid: pid as u32, link })
            },
        }
    }

    /// Takes the path that the link gave, if it could be read.
    pub fn found(self, path: Option<Vec<u8>>) -> (check: Option<FileCheck>)
        ensures
            option_view(check) == file_check(self.pid, option_view(path)),
    {
        match path {
            None => None,
            Some(path) => {
                if of_interest(path.as_slice()) {
                    Some(FileCheck { pid: self.pid, file: path })
                } else {
                    None
                }
            },
        }
    }
}

impl FileCheck {
    /// Takes what the system tells of the file, if it does: only regular files that are not
    /// empty are of interest.
    pub fn found(self, stat: Option<FileStat>) -> (lookup: Option<ExeLookup>)
        ensures
            option_view(lookup) == exe_lookup(self.pid, self.file@, stat),
    {
        match stat {
            None => None,
            Some(stat) => {
                if !stat.is_file || stat.size == 0 {
                    return None;
                }
                let mut link = copy_bytes("/proc/".as_bytes());
                append_digits(&mut link, self.pid);
                let ending = "/exe".as_bytes();
                append_range(&mut link, ending, 0, ending.len());
                assert(link@ =~= exe_link(self.pid));
                let meta = FileMeta { size: stat.size, device: stat.device, inode: stat.inode };
                Some(ExeLookup { pid: self.pid, file: self.file, meta, link })
            },
        }
    }
}

impl ExeLookup {
    /// Takes the path that the link gave, if it could be read.
    pub fn found(self, path: Option<Vec<u8>>) -> (seen: Option<Opening>)
        ensures
            option_view(seen) == opening(self.pid, self.file@, self.meta, option_view(path)),
    {
        match path {
            None => None,
            Some(exe) => Some(
                Opening { exe, file: self.file, pid: self.pid, meta: self.meta },
            ),
        }
    }
}

impl Opening {
    /// Records the opening.
    pub fn record_in(&self, buffer: &mut EventBuffer)
        requires
            old(buffer).wf(),
        ensures
            final(buffer).wf(),
            final(buffer)@ == old(buffer)@.recorded(self.exe@, self.file@, self.pid, self.meta),
    {
        buffer.record(self.exe.as_slice(), self.file.as_slice(), self.pid, self.meta);
    }
}

/// What is recorded of a notice in the end, where `path`, `stat` and `exe` are what the lookups
/// give.
pub open spec fn outcome(
    fd: Option<i32>,
    pid: i32,
    self_pid: i32,
    path: Option<Seq<u8>>,
    stat: Option<FileStat>,
    exe: Option<Seq<u8>>,
) -> Option<OpeningView> {
    match file_lookup(fd, pid, self_pid) {
        None => None,
        Some((pid, _)) => match file_check(pid, path) {
            None => None,
            Some((pid, file)) => match exe_lookup(pid, file, stat) {
                None => None,
                Some((pid, file, meta, _)) => opening(pid, file, meta, exe),
            },
        },
    }
}

/// An opening is recorded if and only if it comes with a file, another process made it, the path
/// of the file is text outside the places that are skipped, the file is a regular one that is
/// not empty, and the executable is known. It is recorded as it was found.
pub proof fn what_is_recorded(
    fd: Option<i32>,
    pid: i32,
    self_pid: i32,
    path: Option<Seq<u8>>,
    stat: Option<FileStat>,
    exe: Option<Seq<u8>>,
)
    ensures
        outcome(fd, pid, self_pid, path, stat, exe) is Some <==> {
            &&& fd is Some
            &&& pid != self_pid && pid > 0
            &&& path is Some && valid_utf8(path->0) && !is_skipped(path->0)
            &&& stat is Some && stat->0.is_file && stat->0.size > 0
            &&& exe is Some
        },
        outcome(fd, pid, self_pid, path, stat, exe) matches Some(found) ==> found == (OpeningView {
            exe: exe->0,
            file: path->0,
            pid: pid as u32,
            meta: FileMeta {
                size: stat->0.size,
                device: stat->0.device,
                inode: stat->0.inode,
            },
        }),
{
}

/// A notice, with what the lookups for it give.
pub struct Notice {
    pub fd: Option<i32>,
    pub pid: i32,
    pub path: Option<Seq<u8>>,
    pub stat: Option<FileStat>,
    pub exe: Option<Seq<u8>>,
}

/// What the buffer holds after `notices`, starting from an empty one.
pub open spec fn observed(notices: Seq<Notice>, self_pid: i32) -> BufferView
    decreases notices.len(),
{
    if notices.len() == 0 {
        BufferView::empty()
    } else {
        let before = observed(notices.drop_last(), self_pid);
        let last = notices.last();
        match outcome(last.fd, last.pid, self_pid, last.path, last.stat, last.exe) {
            Some(found) => before.recorded(found.exe, found.file, found.pid, found.meta),
            None => before,
        }
    }
}

/// Whatever the notices, the executables in the buffer are exactly those of its files, none was
/// seen through this process or one without an identifier, and every file is of interest and not
/// empty.
pub proof fn only_openings_of_interest_are_buffered(notices: Seq<Notice>, self_pid: i32)
    ensures
        observed(notices, self_pid).valid(),
        forall|key: Seq<u8>| #[trigger]
            observed(notices, self_pid).exes.contains_key(key) ==> {
                let pid = observed(notices, self_pid).exes[key].1;
                pid > 0 && pid != self_pid
            },
        forall|keys: (Seq<u8>, Seq<u8>)| #[trigger]
            observed(notices, self_pid).files.contains_key(keys) ==> {
                let (_, file, meta) = observed(notices, self_pid).files[keys];
                is_of_interest(file) && meta.size > 0
            },
    decreases notices.len(),
{
    if notices.len() > 0 {
        let before = observed(notices.drop_last(), self_pid);
        let last = notices.last();
        only_openings_of_interest_are_buffered(notices.drop_last(), self_pid);
        match outcome(last.fd, last.pid, self_pid, last.path, last.stat, last.exe) {
            Some(found) => {
                recording_keeps_buffers_valid(
                    before,
                    found.exe,
                    found.file,
                    found.pid,
                    found.meta,
                );
            },
            None => {},
        }
    }
}

/// A path is skipped exactly if it begins with one of these.
pub proof fn skipped_paths_begin_with_these(path: Seq<u8>)
    ensures
        is_skipped(path) <==> {
            ||| encode_utf8("/proc/"@).is_prefix_of(path)
            ||| encode_utf8("/sys/"@).is_prefix_of(path)
            ||| encode_utf8("/dev/"@).is_prefix_of(path)
            ||| encode_utf8("/tmp/"@).is_prefix_of(path)
            ||| encode_utf8("/run/user/"@).is_prefix_of(path)
            ||| encode_utf8("/run/lock/"@).is_prefix_of(path)
            ||| encode_utf8("/run/credentials/"@).is_prefix_of(path)
            ||| encode_utf8("/var/run/"@).is_prefix_of(path)
            ||| encode_utf8("/var/lock/"@).is_prefix_of(path)
        },
        is_of_interest(path) <==> valid_utf8(path) && !is_skipped(path),
{
    assert(skip_prefixes()[0] == "/proc/"@);
    assert(skip_prefixes()[1] == "/sys/"@);
    assert(skip_prefixes()[2] == "/dev/"@);
    assert(skip_prefixes()[3] == "/tmp/"@);
    assert(skip_prefixes()[4] == "/run/user/"@);
    assert(skip_prefixes()[5] == "/run/lock/"@);
    assert(skip_prefixes()[6] == "/run/credentials/"@);
    assert(skip_prefixes()[7] == "/var/run/"@);
    assert(skip_prefixes()[8] == "/var/lock/"@);
}

/// The steps are seen as they are, and what may be there is seen where it is there.
pub proof fn steps_are_seen_as_they_are(
    file: FileLookup,
    check: FileCheck,
    exe: ExeLookup,
    seen: Opening,
    bytes: Vec<u8>,
)
    ensures
        file@ == (file.pid, file.link@),
        check@ == (check.pid, check.file@),
        exe@ == (exe.pid, exe.file@, exe.meta, exe.link@),
        seen@.exe == seen.exe@,
        seen@.file == seen.file@,
        seen@.pid == seen.pid,
        seen@.meta == seen.meta,
        option_view(Some(file)) == Some(file@),
        option_view(None::<FileLookup>) is None,
        option_view(Some(check)) == Some(check@),
        option_view(None::<FileCheck>) is None,
        option_view(Some(exe)) == Some(exe@),
        option_view(None::<ExeLookup>) is None,
        option_view(Some(seen)) == Some(seen@),
        option_view(None::<Opening>) is None,
        option_view(Some(bytes)) == Some(bytes@),
        option_view(None::<Vec<u8>>) is None,
{
}

/// The link to a file ends in the number of its descriptor, behind the directory of this process'
/// descriptors.
pub proof fn file_links_name_the_descriptor(fd: i32, other: i32)
    ensures
        ({
            let directory = encode_utf8("/proc/self/fd/"@);
            let name = file_link(fd).skip(directory.len() as int);
            &&& directory.is_prefix_of(file_link(fd))
            &&& fd >= 0 ==> number_written(name) == fd
            &&& fd >= 0 ==> forall|i: int| 0 <= i < name.len() ==> 48 <= #[trigger] name[i] <= 57
            &&& fd >= 0 && name.len() > 1 ==> name[0] != 48
            &&& fd < 0 ==> name.len() > 1 && name[0] == 45 && number_written(name.skip(1)) == -fd
        }),
        file_link(fd) == file_link(other) ==> fd == other,
{
    let directory = encode_utf8("/proc/self/fd/"@);
    assert(file_link(fd).skip(directory.len() as int) =~= decimal(fd as int));
    assert(file_link(other).skip(directory.len() as int) =~= decimal(other as int));
    assert(file_link(fd).subrange(0, directory.len() as int) =~= directory);
    decimals_read_back(fd as int, other as int);
}

/// The link to an executable has the number of the process between the directory of all processes
/// and the name of the link.
pub proof fn exe_links_name_the_process(pid: u32, other: u32)
    ensures
        ({
            let directory = encode_utf8("/proc/"@);
            let ending = encode_utf8("/exe"@);
            let name = exe_link(pid).subrange(
                directory.len() as int,
                exe_link(pid).len() - ending.len(),
            );
            &&& directory.len() + ending.len() < exe_link(pid).len()
            &&& exe_link(pid) == directory + name + ending
            &&& number_written(name) == pid
            &&& forall|i: int| 0 <= i < name.len() ==> 48 <= #[trigger] name[i] <= 57
            &&& name.len() > 1 ==> name[0] != 48
        }),
        exe_link(pid) == exe_link(other) ==> pid == other,
{
    let directory = encode_utf8("/proc/"@);
    let ending = encode_utf8("/exe"@);
    let from = directory.len() as int;
    assert(exe_link(pid).subrange(from, exe_link(pid).len() - ending.len()) =~= digits(pid as nat));
    assert(exe_link(other).subrange(from, exe_link(other).len() - ending.len()) =~= digits(
        other as nat,
    ));
    digits_read_back(pid as nat);
    digits_read_back(other as nat);
}

/// What each step takes on and hands on: the process as the notice has it, the link to the file
/// that is open, the path as it was found, what the system tells of the file, and the link to the
/// executable of the process. Each drops what is not of interest, and nothing else.
pub proof fn each_step_hands_on_what_was_found(
    fd: Option<i32>,
    notice_pid: i32,
    self_pid: i32,
    pid: u32,
    path: Option<Seq<u8>>,
    file: Seq<u8>,
    stat: Option<FileStat>,
    meta: FileMeta,
    exe: Option<Seq<u8>>,
)
    ensures
        file_lookup(fd, notice_pid, self_pid) is Some <==> fd is Some && notice_pid > 0
            && notice_pid != self_pid,
        file_lookup(fd, notice_pid, self_pid) matches Some(lookup) ==> lookup.0 == notice_pid
            && lookup.1 == file_link(fd->0),
        file_check(pid, path) is Some <==> path is Some && valid_utf8(path->0) && !is_skipped(
            path->0,
        ),
        file_check(pid, path) matches Some(check) ==> check.0 == pid && check.1 == path->0,
        exe_lookup(pid, file, stat) is Some <==> stat is Some && stat->0.is_file && stat->0.size
            > 0,
        exe_lookup(pid, file, stat) matches Some(lookup) ==> {
            &&& lookup.0 == pid
            &&& lookup.1 == file
            &&& lookup.2.size == stat->0.size
            &&& lookup.2.device == stat->0.device
            &&& lookup.2.inode == stat->0.inode
            &&& lookup.3 == exe_link(pid)
        },
        opening(pid, file, meta, exe) is Some <==> exe is Some,
        opening(pid, file, meta, exe) matches Some(found) ==> {
            &&& found.exe == exe->0
            &&& found.file == file
            &&& found.pid == pid
            &&& found.meta == meta
        },
{
}

} // verus!
