//! Going through the mounted filesystems, marking each once.

use crate::bytes::same_bytes;
use crate::lists::lemma_push_contains;
use crate::observation::mounts::{
    decode_mount_path, is_virtual_filesystem, mount_path, virtual_filesystems,
};
use crate::paths::{
    canonical, canonical_decides_same_path, canonical_path, same_path,
    shortest_spellings_are_canonical, SEPARATOR,
};
use crate::text::same_text;
use vstd::prelude::*;

verus! {

/// The view of a [`Mount`].
#[verifier::ext_equal]
pub struct MountView {
    pub device: Seq<char>,
    pub mount_point: Seq<u8>,
    pub fs_type: Seq<char>,
}

/// A line of the mount table.
#[derive(Debug)]
pub struct Mount {
    /// The major and minor number of the device.
    pub device: String,
    /// The mount point as the table writes it.
    pub mount_point: Vec<u8>,
    /// The type of the filesystem.
    pub fs_type: String,
}

impl View for Mount {
    type V = MountView;

    open spec fn view(&self) -> MountView {
        MountView {
            device: self.device@,
            mount_point: self.mount_point@,
            fs_type: self.fs_type@,
        }
    }
}

impl MountView {
    /// Whether the filesystem holds no files of a disk.
    pub open spec fn is_virtual(self) -> bool {
        virtual_filesystems().contains(self.fs_type)
    }

    /// Whether the mount point is the root directory.
    pub open spec fn is_root(self) -> bool {
        canonical(mount_path(self.mount_point)) == seq![SEPARATOR]
    }
}

/// The path to mark for `mount`, if any, where `devices` are covered already.
pub open spec fn path_to_mark(devices: Set<Seq<char>>, mount: MountView) -> Option<Seq<u8>> {
    if mount.is_virtual() || mount.is_root() || devices.contains(mount.device) {
        None
    } else {
        Some(mount_path(mount.mount_point))
    }
}

/// The devices that are covered once `mount` has been considered: the root directory is marked
/// from the start, so its device is.
pub open spec fn covered_after(devices: Set<Seq<char>>, mount: MountView) -> Set<Seq<char>> {
    if !mount.is_virtual() && mount.is_root() {
        devices.insert(mount.device)
    } else {
        devices
    }
}

/// The view of [`FilesystemMarks`].
#[verifier::ext_equal]
pub struct MarksView {
    /// The devices whose filesystem is covered by a mark.
    pub devices: Set<Seq<char>>,
    /// How many marks were added besides that of the root directory.
    pub marked: nat,
}

/// Which filesystems are covered by a mark.
#[derive(Debug)]
pub struct FilesystemMarks {
    devices: Vec<String>,
    marked: usize,
}

spec fn texts(devices: Seq<String>) -> Seq<Seq<char>> {
    devices.map_values(|device: String| device@)
}

impl View for FilesystemMarks {
    type V = MarksView;

    closed spec fn view(&self) -> MarksView {
        MarksView { devices: texts(self.devices@).to_set(), marked: self.marked as nat }
    }
}

impl FilesystemMarks {
    /// What holds of all marks: there are no more of them than devices.
    pub closed spec fn wf(&self) -> bool {
        self.marked <= self.devices@.len()
    }

    /// No device covered yet.
    pub fn new() -> (marks: FilesystemMarks)
        ensures
            marks.wf(),
            marks@ == (MarksView { devices: Set::empty(), marked: 0 }),
    {
        let marks = FilesystemMarks { devices: Vec::new(), marked: 0 };
        assert(marks@.devices =~= Set::empty());
        marks
    }

    /// How many marks were added.
    pub fn marked(&self) -> (count: usize)
        ensures
            count == self@.marked,
    {
        self.marked
    }

    /// Whether the device is covered.
    pub fn covers(&self, device: &str) -> (covered: bool)
        ensures
            covered == self@.devices.contains(device@),
    {
        let mut i: usize = 0;
        while i < self.devices.len()
            invariant
                i <= self.devices.len(),
                forall|k: int| 0 <= k < i ==> texts(self.devices@)[k] != device@,
            decreases self.devices.len() - i,
        {
            if same_text(self.devices[i].as_str(), device) {
                assert(texts(self.devices@)[i as int] == device@);
                assert(texts(self.devices@).contains(device@));
                return true;
            }
            i += 1;
        }
        false
    }

    fn cover(&mut self, device: &str)
        requires
            old(self).wf(),
        ensures
            final(self).wf(),
            final(self)@ == (MarksView {
                devices: old(self)@.devices.insert(device@),
                ..old(self)@
            }),
            final(self).devices@.len() == old(self).devices@.len() + 1,
    {
        let ghost before = self.devices@;
        self.devices.push(device.to_owned());
        proof {
            assert(texts(self.devices@) =~= texts(before).push(device@));
            lemma_push_contains(texts(before), device@);
            assert(self@.devices =~= old(self)@.devices.insert(device@));
        }
    }

    /// The path to mark for `mount`, if it is to be marked.
    pub fn consider(&mut self, mount: &Mount) -> (path: Option<Vec<u8>>)
        requires
            old(self).wf(),
        ensures
            final(self).wf(),
            final(self)@ == (MarksView {
                devices: covered_after(old(self)@.devices, mount@),
                ..old(self)@
            }),
            match path {
                Some(path) => path_to_mark(old(self)@.devices, mount@) == Some(path@),
                None => path_to_mark(old(self)@.devices, mount@) is None,
            },
    {
        if is_virtual_filesystem(mount.fs_type.as_str()) {
            return None;
        }
        let path = decode_mount_path(mount.mount_point.as_slice());
        let root: [u8; 1] = [SEPARATOR];
        assert(root@ =~= seq![SEPARATOR]);
        if same_bytes(canonical_path(path.as_slice()).as_slice(), &root) {
            self.cover(mount.device.as_str());
            return None;
        }
        if self.covers(mount.device.as_str()) {
            return None;
        }
        Some(path)
    }

    /// Notes that a mark for the filesystem of `device` was added.
    pub fn note_marked(&mut self, device: &str)
        requires
            old(self).wf(),
        ensures
            final(self).wf(),
            final(self)@ == (MarksView {
                devices: old(self)@.devices.insert(device@),
                marked: old(self)@.marked + 1,
            }),
    {
        self.cover(device);
        proof {
            assert(self.devices.len() <= usize::MAX);
        }
        self.marked += 1;
    }
}

/// The marks that going through `mounts` adds, each a device with the path marked for it, where
/// `devices` are covered from the start and the flag of each mount tells whether the kernel
/// accepts a mark for it.
pub open spec fn marks_added(devices: Set<Seq<char>>, mounts: Seq<(MountView, bool)>) -> Seq<
    (Seq<char>, Seq<u8>),
>
    decreases mounts.len(),
{
    if mounts.len() == 0 {
        Seq::empty()
    } else {
        let (mount, accepted) = mounts[0];
        let rest = mounts.skip(1);
        match path_to_mark(devices, mount) {
            Some(path) if accepted => seq![(mount.device, path)] + marks_added(
                devices.insert(mount.device),
                rest,
            ),
            _ => marks_added(covered_after(devices, mount), rest),
        }
    }
}

/// The devices that are covered once all of `mounts` have been gone through.
pub open spec fn covered_in_the_end(
    devices: Set<Seq<char>>,
    mounts: Seq<(MountView, bool)>,
) -> Set<Seq<char>>
    decreases mounts.len(),
{
    if mounts.len() == 0 {
        devices
    } else {
        let (mount, accepted) = mounts[0];
        let rest = mounts.skip(1);
        if path_to_mark(devices, mount) is Some && accepted {
            covered_in_the_end(devices.insert(mount.device), rest)
        } else {
            covered_in_the_end(covered_after(devices, mount), rest)
        }
    }
}

/// The device of every filesystem that holds files of a disk is covered in the end, where the
/// kernel accepts a mark for it, or it is that of the root directory.
pub proof fn every_disk_filesystem_is_covered(
    devices: Set<Seq<char>>,
    mounts: Seq<(MountView, bool)>,
)
    ensures
        devices.subset_of(covered_in_the_end(devices, mounts)),
        forall|k: int|
            0 <= k < mounts.len() && !(#[trigger] mounts[k]).0.is_virtual() && (mounts[k].1
                || mounts[k].0.is_root()) ==> covered_in_the_end(devices, mounts).contains(
                mounts[k].0.device,
            ),
    decreases mounts.len(),
{
    if mounts.len() > 0 {
        let (mount, accepted) = mounts[0];
        let rest = mounts.skip(1);
        let next = if path_to_mark(devices, mount) is Some && accepted {
            devices.insert(mount.device)
        } else {
            covered_after(devices, mount)
        };
        every_disk_filesystem_is_covered(next, rest);
        let all = covered_in_the_end(devices, mounts);
        assert(all == covered_in_the_end(next, rest));
        assert(next.subset_of(all));
        assert forall|k: int|
            0 <= k < mounts.len() && !(#[trigger] mounts[k]).0.is_virtual() && (mounts[k].1
                || mounts[k].0.is_root()) implies all.contains(mounts[k].0.device) by {
            if k > 0 {
                assert(rest[k - 1] == mounts[k]);
            } else {
                assert(next.contains(mount.device));
            }
        }
    }
}

/// A device is covered in the end only if it was from the start, was marked, or is that of the
/// root directory.
pub proof fn covered_devices_are_marked(
    devices: Set<Seq<char>>,
    mounts: Seq<(MountView, bool)>,
    device: Seq<char>,
)
    requires
        covered_in_the_end(devices, mounts).contains(device),
    ensures
        devices.contains(device) || (exists|i: int|
            0 <= i < marks_added(devices, mounts).len() && (#[trigger] marks_added(
                devices,
                mounts,
            )[i]).0 == device) || (exists|k: int|
            0 <= k < mounts.len() && (#[trigger] mounts[k]).0.is_root() && !mounts[k].0.is_virtual()
                && mounts[k].0.device == device),
    decreases mounts.len(),
{
    if mounts.len() > 0 && !devices.contains(device) {
        let (mount, accepted) = mounts[0];
        let rest = mounts.skip(1);
        let all = marks_added(devices, mounts);
        let marks = path_to_mark(devices, mount) is Some && accepted;
        let next = if marks {
            devices.insert(mount.device)
        } else {
            covered_after(devices, mount)
        };
        let tail = marks_added(next, rest);
        covered_devices_are_marked(next, rest, device);
        if next.contains(device) {
            if marks {
                assert(all[0].0 == device);
            } else {
                assert(mounts[0].0.is_root());
            }
        } else if exists|i: int| 0 <= i < tail.len() && (#[trigger] tail[i]).0 == device {
            let i = choose|i: int| 0 <= i < tail.len() && (#[trigger] tail[i]).0 == device;
            if marks {
                assert(all[i + 1] == tail[i]);
            } else {
                assert(all[i] == tail[i]);
            }
        } else {
            let k = choose|k: int|
                0 <= k < rest.len() && (#[trigger] rest[k]).0.is_root() && !rest[k].0.is_virtual()
                    && rest[k].0.device == device;
            assert(mounts[k + 1] == rest[k]);
        }
    }
}

/// No device is marked that was covered from the start, and none is marked twice.
pub proof fn devices_are_marked_once(devices: Set<Seq<char>>, mounts: Seq<(MountView, bool)>)
    ensures
        forall|i: int|
            0 <= i < marks_added(devices, mounts).len() ==> !devices.contains(
                (#[trigger] marks_added(devices, mounts)[i]).0,
            ),
        forall|i: int, j: int|
            0 <= i < j < marks_added(devices, mounts).len() ==> (#[trigger] marks_added(
                devices,
                mounts,
            )[i]).0 != (#[trigger] marks_added(devices, mounts)[j]).0,
    decreases mounts.len(),
{
    if mounts.len() > 0 {
        let (mount, accepted) = mounts[0];
        let rest = mounts.skip(1);
        let all = marks_added(devices, mounts);
        if path_to_mark(devices, mount) is Some && accepted {
            let wider = devices.insert(mount.device);
            let tail = marks_added(wider, rest);
            devices_are_marked_once(wider, rest);
            assert(all[0].0 == mount.device);
            assert forall|i: int| 0 < i < all.len() implies #[trigger] all[i] == tail[i - 1] by {}
            assert forall|i: int| 0 <= i < all.len() implies !devices.contains(
                (#[trigger] all[i]).0,
            ) by {
                if i > 0 {
                    assert(!wider.contains(tail[i - 1].0));
                }
            }
            assert forall|i: int, j: int| 0 <= i < j < all.len() implies (#[trigger] all[i]).0 != (
            #[trigger] all[j]).0 by {
                assert(all[j] == tail[j - 1]);
                if i > 0 {
                    assert(all[i] == tail[i - 1]);
                } else {
                    assert(!wider.contains(tail[j - 1].0));
                }
            }
        } else {
            let covered = covered_after(devices, mount);
            devices_are_marked_once(covered, rest);
            assert(all == marks_added(covered, rest));
            assert forall|i: int| 0 <= i < all.len() implies !devices.contains(
                (#[trigger] all[i]).0,
            ) by {
                assert(!covered.contains(marks_added(covered, rest)[i].0));
            }
        }
    }
}

/// Only filesystems that hold files of a disk are marked, each at the mount point of a mount of
/// its device.
pub proof fn only_disk_filesystems_are_marked(
    devices: Set<Seq<char>>,
    mounts: Seq<(MountView, bool)>,
    at: int,
)
    requires
        0 <= at < marks_added(devices, mounts).len(),
    ensures
        exists|k: int|
            0 <= k < mounts.len() && (#[trigger] mounts[k]).1 && !mounts[k].0.is_virtual()
                && !mounts[k].0.is_root() && marks_added(devices, mounts)[at] == (
                mounts[k].0.device,
                mount_path(mounts[k].0.mount_point),
            ),
    decreases mounts.len(),
{
    let (mount, accepted) = mounts[0];
    let rest = mounts.skip(1);
    let all = marks_added(devices, mounts);
    match path_to_mark(devices, mount) {
        Some(path) if accepted => {
            let tail = marks_added(devices.insert(mount.device), rest);
            assert(all == seq![(mount.device, path)] + tail);
            if at == 0 {
                assert(mounts[0].1);
            } else {
                only_disk_filesystems_are_marked(devices.insert(mount.device), rest, at - 1);
                let k = choose|k: int|
                    0 <= k < rest.len() && (#[trigger] rest[k]).1 && !rest[k].0.is_virtual()
                        && !rest[k].0.is_root() && tail[at - 1] == (
                        rest[k].0.device,
                        mount_path(rest[k].0.mount_point),
                    );
                assert(mounts[k + 1] == rest[k]);
            }
        },
        _ => {
            let covered = covered_after(devices, mount);
            only_disk_filesystems_are_marked(covered, rest, at);
            let k = choose|k: int|
                0 <= k < rest.len() && (#[trigger] rest[k]).1 && !rest[k].0.is_virtual()
                    && !rest[k].0.is_root() && all[at] == (
                    rest[k].0.device,
                    mount_path(rest[k].0.mount_point),
                );
            assert(mounts[k + 1] == rest[k]);
        },
    }
}

/// A mount is seen with its device, its mount point and its type, each as it is.
pub proof fn mounts_are_seen_as_they_are(mount: Mount)
    ensures
        mount@.device == mount.device@,
        mount@.mount_point == mount.mount_point@,
        mount@.fs_type == mount.fs_type@,
{
}

/// A path is the root directory exactly if it is the same path as a separator alone.
pub proof fn only_the_root_directory_is_the_root(mount: MountView)
    ensures
        mount.is_root() <==> same_path(mount_path(mount.mount_point), seq![47u8]),
{
    canonical_decides_same_path(mount_path(mount.mount_point), seq![47u8]);
    shortest_spellings_are_canonical(seq![47u8]);
}

/// A mount is given its decoded path to mark exactly if its type is not one of the virtual ones,
/// it is not the root directory, and its device is not covered.
pub proof fn every_other_mount_is_to_be_marked(devices: Set<Seq<char>>, mount: MountView)
    ensures
        path_to_mark(devices, mount) == (if virtual_filesystems().contains(mount.fs_type)
            || same_path(mount_path(mount.mount_point), seq![47u8]) || devices.contains(
            mount.device,
        ) {
            None
        } else {
            Some(mount_path(mount.mount_point))
        }),
{
    only_the_root_directory_is_the_root(mount);
}

/// Only a mount at the root directory that is not virtual counts as covered without a mark: its
/// device is covered from then on, and no other.
pub proof fn only_the_root_is_covered_unmarked(devices: Set<Seq<char>>, mount: MountView)
    ensures
        covered_after(devices, mount) == (if !virtual_filesystems().contains(mount.fs_type)
            && same_path(mount_path(mount.mount_point), seq![47u8]) {
            devices.insert(mount.device)
        } else {
            devices
        }),
{
    only_the_root_directory_is_the_root(mount);
}

} // verus!
