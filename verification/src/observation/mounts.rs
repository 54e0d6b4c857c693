//! Which of the mounted filesystems to watch.

use crate::bytes::copy_bytes;
use crate::text::{is_utf8, lossy_text, same_text, to_text};
use vstd::prelude::*;
use vstd::utf8::{
    decode_utf8_encode_utf8, encode_utf8, is_leading_byte_width_1,
    length_of_first_scalar, pop_first_scalar, take_first_scalar, valid_first_scalar, valid_utf8,
    valid_utf8_concat,
};

verus! {

/// The types of filesystems that hold no files of a disk.
pub open spec fn virtual_filesystems() -> Seq<Seq<char>> {
    seq![
        "autofs"@,
        "bdev"@,
        "binfmt_misc"@,
        "bpf"@,
        "cgroup"@,
        "cgroup2"@,
        "configfs"@,
        "debugfs"@,
        "devpts"@,
        "devtmpfs"@,
        "efivarfs"@,
        "fuse.portal"@,
        "fusectl"@,
        "hugetlbfs"@,
        "mqueue"@,
        "nsfs"@,
        "pstore"@,
        "proc"@,
        "ramfs"@,
        "securityfs"@,
        "sysfs"@,
        "tmpfs"@,
        "tracefs"@,
    ]
}

/// Whether a filesystem of the type `fs_type` holds no files of a disk.
pub fn is_virtual_filesystem(fs_type: &str) -> (is_virtual: bool)
    ensures
        is_virtual == virtual_filesystems().contains(fs_type@),
{
    let names = [
        "autofs",
        "bdev",
        "binfmt_misc",
        "bpf",
        "cgroup",
        "cgroup2",
        "configfs",
        "debugfs",
        "devpts",
        "devtmpfs",
        "efivarfs",
        "fuse.portal",
        "fusectl",
        "hugetlbfs",
        "mqueue",
        "nsfs",
        "pstore",
        "proc",
        "ramfs",
        "securityfs",
        "sysfs",
        "tmpfs",
        "tracefs",
    ];
    let mut i: usize = 0;
    assert(forall|k: int| 0 <= k < names@.len() ==> #[trigger] names@[k]@ == virtual_filesystems()[k]);
    while i < names.len()
        invariant
            i <= names@.len(),
            names@.len() == virtual_filesystems().len(),
            forall|k: int|
                0 <= k < names@.len() ==> #[trigger] names@[k]@ == virtual_filesystems()[k],
            forall|k: int| 0 <= k < i ==> virtual_filesystems()[k] != fs_type@,
        decreases names@.len() - i,
    {
        if same_text(names[i], fs_type) {
            assert(virtual_filesystems()[i as int] == fs_type@);
            return true;
        }
        i += 1;
    }
    false
}

/// The byte that opens an escape.
pub const BACKSLASH: u8 = 92;

/// Whether `byte` is one of the digits `0` to `7`.
pub open spec fn is_octal_digit(byte: u8) -> bool {
    48 <= byte <= 55
}

/// Whether `text` opens with a backslash and three octal digits.
pub open spec fn opens_with_escape(text: Seq<u8>) -> bool {
    text.len() >= 4 && text[0] == BACKSLASH && is_octal_digit(text[1]) && is_octal_digit(text[2])
        && is_octal_digit(text[3])
}

/// The byte that the three octal digits `a`, `b` and `c` write, as far as it fits in one.
pub open spec fn octal_byte(a: u8, b: u8, c: u8) -> u8 {
    (((a - 48) * 64 + (b - 48) * 8 + (c - 48)) % 256) as u8
}

/// `text` with each escape replaced by the byte that it writes.
pub open spec fn unescaped(text: Seq<u8>) -> Seq<u8>
    decreases text.len(),
{
    if text.len() == 0 {
        Seq::empty()
    } else if opens_with_escape(text) {
        seq![octal_byte(text[1], text[2], text[3])] + unescaped(text.skip(4))
    } else {
        seq![text[0]] + unescaped(text.skip(1))
    }
}

fn octal_digit(byte: u8) -> (digit: bool)
    ensures
        digit == is_octal_digit(byte),
{
    48 <= byte && byte <= 55
}

/// Replaces each escape in `text` by the byte that it writes.
pub fn unescape(text: &[u8]) -> (decoded: Vec<u8>)
    ensures
        decoded@ == unescaped(text@),
{
    let mut decoded: Vec<u8> = Vec::new();
    let mut i: usize = 0;
    assert(text@.skip(0) =~= text@);
    assert(decoded@ + unescaped(text@) =~= unescaped(text@));
    while i < text.len()
        invariant
            i <= text.len(),
            decoded@ + unescaped(text@.skip(i as int)) == unescaped(text@),
        decreases text.len() - i,
    {
        let ghost rest = text@.skip(i as int);
        let ghost before = decoded@;
        if text[i] == BACKSLASH && text.len() - i >= 4 && octal_digit(text[i + 1]) && octal_digit(
            text[i + 2],
        ) && octal_digit(text[i + 3]) {
            let high: u16 = (text[i + 1] - 48) as u16;
            let middle: u16 = (text[i + 2] - 48) as u16;
            let low: u16 = (text[i + 3] - 48) as u16;
            let value: u16 = high * 64 + middle * 8 + low;
            decoded.push((value % 256) as u8);
            proof {
                assert(opens_with_escape(rest));
                assert(decoded@.last() == octal_byte(rest[1], rest[2], rest[3]));
                assert(rest.skip(4) =~= text@.skip(i + 4));
                assert(decoded@ + unescaped(rest.skip(4)) =~= before + unescaped(rest));
            }
            i += 4;
        } else {
            decoded.push(text[i]);
            proof {
                assert(!opens_with_escape(rest));
                assert(rest.skip(1) =~= text@.skip(i + 1));
                assert(decoded@ + unescaped(rest.skip(1)) =~= before + unescaped(rest));
            }
            i += 1;
        }
    }
    assert(unescaped(text@.skip(i as int)) =~= Seq::<u8>::empty());
    assert(decoded@ =~= unescaped(text@));
    decoded
}

/// The path of the mount point that a mount table writes as `written`. A path that is not UTF-8
/// is taken as it is written.
pub open spec fn mount_path(written: Seq<u8>) -> Seq<u8> {
    if !valid_utf8(written) {
        written
    } else if valid_utf8(unescaped(written)) {
        unescaped(written)
    } else {
        encode_utf8(lossy_text(unescaped(written)))
    }
}

/// Decodes the octal escapes that a mount table uses for whitespace and backslashes.
pub fn decode_mount_path(written: &[u8]) -> (path: Vec<u8>)
    ensures
        path@ == mount_path(written@),
{
    if !is_utf8(written) {
        return copy_bytes(written);
    }
    let decoded = unescape(written);
    let text = to_text(decoded.as_slice());
    proof {
        if valid_utf8(decoded@) {
            decode_utf8_encode_utf8(decoded@);
        }
    }
    copy_bytes(text.as_str().as_bytes())
}

/// Whether a mount table writes `byte` as an escape: whitespace and the backslash itself.
pub open spec fn needs_escape(byte: u8) -> bool {
    byte == 32 || byte == 9 || byte == 10 || byte == BACKSLASH
}

/// The escape that writes `byte`.
pub open spec fn escape_of(byte: u8) -> Seq<u8> {
    seq![
        BACKSLASH,
        (48 + byte / 64) as u8,
        (48 + (byte / 8) % 8) as u8,
        (48 + byte % 8) as u8,
    ]
}

/// How a mount table writes `path`.
pub open spec fn escaped(path: Seq<u8>) -> Seq<u8>
    decreases path.len(),
{
    if path.len() == 0 {
        Seq::empty()
    } else if needs_escape(path[0]) {
        escape_of(path[0]) + escaped(path.skip(1))
    } else {
        seq![path[0]] + escaped(path.skip(1))
    }
}

/// Decoding the escapes undoes writing them.
pub proof fn unescaping_undoes_escaping(path: Seq<u8>)
    ensures
        unescaped(escaped(path)) == path,
    decreases path.len(),
{
    if path.len() > 0 {
        let first = path[0];
        let rest = escaped(path.skip(1));
        unescaping_undoes_escaping(path.skip(1));
        let written = escaped(path);
        if needs_escape(first) {
            assert(opens_with_escape(written));
            assert(octal_byte(written[1], written[2], written[3]) == first);
            assert(written.skip(4) =~= rest);
        } else {
            assert(written[0] == first);
            assert(written.skip(1) =~= rest);
        }
        assert(seq![first] + path.skip(1) =~= path);
    }
}

/// A text without backslashes is left as it is.
pub proof fn text_without_backslash_is_kept(text: Seq<u8>)
    requires
        !text.contains(BACKSLASH),
    ensures
        unescaped(text) == text,
    decreases text.len(),
{
    if text.len() > 0 {
        let rest = text.skip(1);
        assert(!rest.contains(BACKSLASH)) by {
            if rest.contains(BACKSLASH) {
                let k = choose|k: int| 0 <= k < rest.len() && rest[k] == BACKSLASH;
                assert(text[k + 1] == BACKSLASH);
            }
        }
        assert(text.contains(text[0]));
        text_without_backslash_is_kept(rest);
        assert(seq![text[0]] + rest =~= text);
    }
}

proof fn lemma_escaped_plain(path: Seq<u8>, count: int)
    requires
        0 <= count <= path.len(),
        forall|i: int| 0 <= i < count ==> !needs_escape(#[trigger] path[i]),
    ensures
        escaped(path) == path.take(count) + escaped(path.skip(count)),
    decreases count,
{
    if count == 0 {
        assert(path.skip(0) =~= path);
        assert(path.take(0) + escaped(path) =~= escaped(path));
    } else {
        let rest = path.skip(1);
        assert forall|i: int| 0 <= i < count - 1 implies !needs_escape(#[trigger] rest[i]) by {
            assert(rest[i] == path[i + 1]);
        }
        lemma_escaped_plain(rest, count - 1);
        assert(!needs_escape(path[0]));
        assert(rest.skip(count - 1) =~= path.skip(count));
        assert(seq![path[0]] + (rest.take(count - 1) + escaped(path.skip(count))) =~= path.take(
            count,
        ) + escaped(path.skip(count)));
    }
}

proof fn lemma_ascii_is_utf8(text: Seq<u8>)
    requires
        forall|i: int| 0 <= i < text.len() ==> #[trigger] text[i] < 128,
    ensures
        valid_utf8(text),
    decreases text.len(),
{
    if text.len() > 0 {
        let first = text[0];
        assert(is_leading_byte_width_1(first));
        assert(first & 0x7f == first) by (bit_vector)
            requires
                first < 128,
        ;
        assert(valid_first_scalar(text));
        let rest = pop_first_scalar(text);
        assert forall|i: int| 0 <= i < rest.len() implies #[trigger] rest[i] < 128 by {
            assert(rest[i] == text[i + 1]);
        }
        lemma_ascii_is_utf8(rest);
    }
}

/// Text in UTF-8 is in UTF-8 still when its escapes are written.
proof fn lemma_escaped_is_utf8(path: Seq<u8>)
    requires
        valid_utf8(path),
    ensures
        valid_utf8(escaped(path)),
    decreases path.len(),
{
    if path.len() > 0 {
        let width = length_of_first_scalar(path);
        let rest = pop_first_scalar(path);
        assert(valid_first_scalar(path));
        assert(rest =~= path.skip(width));
        lemma_escaped_is_utf8(rest);
        if needs_escape(path[0]) {
            assert(width == 1);
            lemma_ascii_is_utf8(escape_of(path[0]));
            valid_utf8_concat(escape_of(path[0]), escaped(rest));
        } else {
            assert forall|i: int| 0 <= i < width implies !needs_escape(#[trigger] path[i]) by {}
            lemma_escaped_plain(path, width);
            let head = take_first_scalar(path);
            assert(head =~= path.take(width));
            assert(valid_utf8(head)) by {
                reveal_with_fuel(valid_utf8, 2);
            }
            valid_utf8_concat(head, escaped(rest));
        }
    }
}

/// The path of a mount point comes back as it was before a mount table wrote it with escapes.
pub proof fn mount_path_comes_back(path: Seq<u8>)
    requires
        valid_utf8(path),
    ensures
        mount_path(escaped(path)) == path,
{
    lemma_escaped_is_utf8(path);
    unescaping_undoes_escaping(path);
}

/// A type of filesystem is virtual exactly if it has one of these names.
pub proof fn virtual_filesystems_have_these_names(name: Seq<char>)
    ensures
        virtual_filesystems().contains(name) <==> {
            ||| name == "autofs"@
            ||| name == "bdev"@
            ||| name == "binfmt_misc"@
            ||| name == "bpf"@
            ||| name == "cgroup"@
            ||| name == "cgroup2"@
            ||| name == "configfs"@
            ||| name == "debugfs"@
            ||| name == "devpts"@
            ||| name == "devtmpfs"@
            ||| name == "efivarfs"@
            ||| name == "fuse.portal"@
            ||| name == "fusectl"@
            ||| name == "hugetlbfs"@
            ||| name == "mqueue"@
            ||| name == "nsfs"@
            ||| name == "pstore"@
            ||| name == "proc"@
            ||| name == "ramfs"@
            ||| name == "securityfs"@
            ||| name == "sysfs"@
            ||| name == "tmpfs"@
            ||| name == "tracefs"@
        },
{
    assert(virtual_filesystems()[0] == "autofs"@);
    assert(virtual_filesystems()[1] == "bdev"@);
    assert(virtual_filesystems()[2] == "binfmt_misc"@);
    assert(virtual_filesystems()[3] == "bpf"@);
    assert(virtual_filesystems()[4] == "cgroup"@);
    assert(virtual_filesystems()[5] == "cgroup2"@);
    assert(virtual_filesystems()[6] == "configfs"@);
    assert(virtual_filesystems()[7] == "debugfs"@);
    assert(virtual_filesystems()[8] == "devpts"@);
    assert(virtual_filesystems()[9] == "devtmpfs"@);
    assert(virtual_filesystems()[10] == "efivarfs"@);
    assert(virtual_filesystems()[11] == "fuse.portal"@);
    assert(virtual_filesystems()[12] == "fusectl"@);
    assert(virtual_filesystems()[13] == "hugetlbfs"@);
    assert(virtual_filesystems()[14] == "mqueue"@);
    assert(virtual_filesystems()[15] == "nsfs"@);
    assert(virtual_filesystems()[16] == "pstore"@);
    assert(virtual_filesystems()[17] == "proc"@);
    assert(virtual_filesystems()[18] == "ramfs"@);
    assert(virtual_filesystems()[19] == "securityfs"@);
    assert(virtual_filesystems()[20] == "sysfs"@);
    assert(virtual_filesystems()[21] == "tmpfs"@);
    assert(virtual_filesystems()[22] == "tracefs"@);
}

/// Text without a backslash stays as it is, in front of whatever follows.
pub proof fn plain_text_stays_in_front(plain: Seq<u8>, rest: Seq<u8>)
    requires
        forall|i: int| 0 <= i < plain.len() ==> #[trigger] plain[i] != 92,
    ensures
        unescaped(plain + rest) == plain + unescaped(rest),
    decreases plain.len(),
{
    if plain.len() == 0 {
        assert(plain + rest =~= rest);
        assert(plain + unescaped(rest) =~= unescaped(rest));
    } else {
        let tail = plain.skip(1);
        assert forall|i: int| 0 <= i < tail.len() implies #[trigger] tail[i] != 92 by {
            assert(tail[i] == plain[i + 1]);
        }
        plain_text_stays_in_front(tail, rest);
        assert(plain[0] != 92);
        assert((plain + rest)[0] == plain[0]);
        assert((plain + rest).skip(1) =~= tail + rest);
        assert(seq![plain[0]] + (tail + unescaped(rest)) =~= plain + unescaped(rest));
    }
}

/// A backslash and three octal digits stand for the byte that the digits write in base eight,
/// without what does not fit in a byte, in front of whatever follows.
pub proof fn an_escape_stands_for_its_byte(a: u8, b: u8, c: u8, byte: u8, rest: Seq<u8>)
    requires
        48 <= a <= 55,
        48 <= b <= 55,
        48 <= c <= 55,
        byte == (64 * (a - 48) + 8 * (b - 48) + (c - 48)) % 256,
    ensures
        unescaped(seq![92u8, a, b, c] + rest) == seq![byte] + unescaped(rest),
{
    let text = seq![92u8, a, b, c] + rest;
    assert(opens_with_escape(text));
    assert(text.skip(4) =~= rest);
    assert(octal_byte(a, b, c) == byte);
}

/// A backslash that three octal digits do not follow stays as it is, in front of whatever follows.
pub proof fn a_backslash_alone_stays(rest: Seq<u8>)
    requires
        rest.len() < 3 || !(48 <= rest[0] <= 55) || !(48 <= rest[1] <= 55) || !(48 <= rest[2]
            <= 55),
    ensures
        unescaped(seq![92u8] + rest) == seq![92u8] + unescaped(rest),
{
    let text = seq![92u8] + rest;
    if rest.len() >= 3 {
        assert(text[1] == rest[0] && text[2] == rest[1] && text[3] == rest[2]);
    }
    assert(text.skip(1) =~= rest);
}

/// A mount point that is not written in UTF-8 is taken as it is written. Otherwise its escapes are
/// replaced, and what they leave is taken as it is where it is UTF-8, and as the text made of it
/// where it is not.
pub proof fn mount_paths_are_unescaped_text(written: Seq<u8>)
    ensures
        !valid_utf8(written) ==> mount_path(written) == written,
        valid_utf8(written) && valid_utf8(unescaped(written)) ==> mount_path(written) == unescaped(
            written,
        ),
        valid_utf8(written) && !valid_utf8(unescaped(written)) ==> mount_path(written)
            == encode_utf8(lossy_text(unescaped(written))),
        unescaped(Seq::empty()) == Seq::<u8>::empty(),
{
}

} // verus!
