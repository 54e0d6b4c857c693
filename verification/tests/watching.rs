use preload_stores::observation::buffer::{report, EventBuffer};
use preload_stores::observation::event::ObservationEvent;
use preload_stores::observation::marks::{FilesystemMarks, Mount};
use preload_stores::observation::mounts::{decode_mount_path, is_virtual_filesystem, unescape};
use preload_stores::observation::opening::{of_interest, FileLookup, FileStat, Opening};
use preload_stores::observation::reader::{ReadOutcome, ReaderStep};
use preload_stores::observation::tables::FileMeta;

#[test]
fn virtual_filesystems_are_not_marked() {
    assert!(is_virtual_filesystem("proc"));
    assert!(is_virtual_filesystem("tmpfs"));
    assert!(is_virtual_filesystem("fuse.portal"));
    assert!(!is_virtual_filesystem("btrfs"));
    assert!(!is_virtual_filesystem("ext4"));
    assert!(!is_virtual_filesystem("fuseblk"));
}

#[test]
fn mountinfo_path_escapes_are_decoded() {
    assert_eq!(
        decode_mount_path(b"/run/media/andy/My\\040Games"),
        b"/run/media/andy/My Games"
    );
    assert_eq!(
        decode_mount_path(b"/mnt/Steam\\134Library"),
        b"/mnt/Steam\\Library"
    );
}

#[test]
fn what_is_no_escape_is_kept() {
    for path in ["/mnt/a\\04", "/mnt/a\\048b", "/mnt/a\\", "/mnt/a\\x40", "/mnt/plain", ""] {
        assert_eq!(decode_mount_path(path.as_bytes()), path.as_bytes());
    }
    assert_eq!(decode_mount_path(b"\\\\040"), b"\\ ");
    assert_eq!(decode_mount_path(b"a\\011\\012b"), b"a\t\nb");
}

#[test]
fn escapes_write_one_byte_each() {
    assert_eq!(unescape(b"\\303\\244"), vec![0o303, 0o244]);
    assert_eq!(unescape(b"\\400\\777"), vec![0, 255]);
    assert_eq!(decode_mount_path(b"/mnt/\\303\\244"), "/mnt/\u{e4}".as_bytes());
}

#[test]
fn escaped_bytes_that_are_no_text_are_replaced() {
    assert_eq!(decode_mount_path(b"/mnt/\\377x"), "/mnt/\u{fffd}x".as_bytes());
}

#[test]
fn a_written_path_that_is_no_text_is_kept() {
    assert_eq!(decode_mount_path(b"/mnt/\xff\\040"), b"/mnt/\xff\\040");
}

fn mount(device: &str, mount_point: &str, fs_type: &str) -> Mount {
    Mount {
        device: device.to_string(),
        mount_point: mount_point.as_bytes().to_vec(),
        fs_type: fs_type.to_string(),
    }
}

#[test]
fn each_filesystem_is_marked_once() {
    let mut marks = FilesystemMarks::new();
    assert_eq!(marks.consider(&mount("0:5", "/proc", "proc")), None);
    assert!(!marks.covers("0:5"));
    assert_eq!(marks.consider(&mount("8:1", "/", "ext4")), None);
    assert!(marks.covers("8:1"));
    assert_eq!(marks.consider(&mount("8:1", "/home", "ext4")), None);

    let games = mount("8:2", "/mnt/My\\040Games", "btrfs");
    assert_eq!(marks.consider(&games), Some(b"/mnt/My Games".to_vec()));
    assert_eq!(marks.consider(&games), Some(b"/mnt/My Games".to_vec()));
    marks.note_marked("8:2");
    assert_eq!(marks.consider(&games), None);
    assert_eq!(marks.consider(&mount("8:2", "/srv", "btrfs")), None);
    assert_eq!(marks.consider(&mount("8:3", "/srv", "xfs")), Some(b"/srv".to_vec()));
    assert_eq!(marks.marked(), 1);
}

#[test]
fn a_virtual_root_covers_nothing() {
    let mut marks = FilesystemMarks::new();
    assert_eq!(marks.consider(&mount("0:1", "/", "tmpfs")), None);
    assert!(!marks.covers("0:1"));
    assert_eq!(marks.consider(&mount("8:9", "//.", "ext4")), None);
    assert!(marks.covers("8:9"));
}

#[test]
fn paths_of_no_interest() {
    for path in [
        "/proc/1/maps",
        "/sys/x",
        "/dev/null",
        "/tmp/x",
        "/run/user/1000/x",
        "/run/lock/x",
        "/run/credentials/x",
        "/var/run/x",
        "/var/lock/x",
    ] {
        assert!(!of_interest(path.as_bytes()), "{}", path);
    }
    for path in ["/usr/lib/libfoo.so", "/proc", "/tmpx/a", "/run/x", "/var/lib/x", "/home/tmp/x"] {
        assert!(of_interest(path.as_bytes()), "{}", path);
    }
    assert!(!of_interest(b"/usr/lib/\xff.so"));
}

#[test]
fn notices_that_are_dropped_at_once() {
    assert!(FileLookup::of(None, 7, 1).is_none());
    assert!(FileLookup::of(Some(3), 1, 1).is_none());
    assert!(FileLookup::of(Some(3), 0, 1).is_none());
    assert!(FileLookup::of(Some(3), -5, 1).is_none());
    assert!(FileLookup::of(Some(3), 7, 1).is_some());
}

#[test]
fn links_name_files_and_processes() {
    for (fd, link) in [
        (0, "/proc/self/fd/0"),
        (9, "/proc/self/fd/9"),
        (10, "/proc/self/fd/10"),
        (2_147_483_647, "/proc/self/fd/2147483647"),
        (-1, "/proc/self/fd/-1"),
        (i32::MIN, "/proc/self/fd/-2147483648"),
    ] {
        assert_eq!(FileLookup::of(Some(fd), 7, 1).unwrap().link, link.as_bytes());
    }
    let stat = FileStat { is_file: true, size: 1, device: 2, inode: 3 };
    for (pid, link) in [(1, "/proc/1/exe"), (4_194_304, "/proc/4194304/exe")] {
        let lookup = FileLookup::of(Some(3), pid, 99).unwrap();
        let check = lookup.found(Some(b"/usr/lib/a.so".to_vec())).unwrap();
        assert_eq!(check.file, b"/usr/lib/a.so");
        assert_eq!(check.found(Some(stat)).unwrap().link, link.as_bytes());
    }
}

fn observe(
    pid: i32,
    path: Option<&str>,
    stat: Option<FileStat>,
    exe: Option<&str>,
) -> Option<Opening> {
    let bytes = |text: &str| text.as_bytes().to_vec();
    FileLookup::of(Some(5), pid, 1)?.found(path.map(bytes))?.found(stat)?.found(exe.map(bytes))
}

#[test]
fn only_openings_of_interest_are_recorded() {
    let stat = FileStat { is_file: true, size: 4096, device: 2, inode: 3 };
    let file = Some("/usr/lib/a.so");
    let exe = Some("/usr/bin/app");
    let opening = observe(7, file, Some(stat), exe).unwrap();
    assert_eq!(opening.exe, b"/usr/bin/app");
    assert_eq!(opening.file, b"/usr/lib/a.so");
    assert_eq!(opening.pid, 7);
    assert_eq!(opening.meta, FileMeta { size: 4096, device: 2, inode: 3 });

    assert!(observe(1, file, Some(stat), exe).is_none());
    assert!(observe(7, None, Some(stat), exe).is_none());
    assert!(observe(7, Some("/tmp/a.so"), Some(stat), exe).is_none());
    assert!(observe(7, file, None, exe).is_none());
    assert!(observe(7, file, Some(FileStat { is_file: false, ..stat }), exe).is_none());
    assert!(observe(7, file, Some(FileStat { size: 0, ..stat }), exe).is_none());
    assert!(observe(7, file, Some(stat), None).is_none());
}

/// An event in a form that can be compared and sorted.
fn shown(event: &ObservationEvent) -> String {
    match event {
        ObservationEvent::ExeSeen { path, pid } => {
            format!("exe {} {}", String::from_utf8_lossy(path.as_bytes()), pid)
        }
        ObservationEvent::MapSeen { exe_path, map } => format!(
            "map {} {} {} {} {} {} {}",
            String::from_utf8_lossy(exe_path.as_bytes()),
            String::from_utf8_lossy(map.path.as_bytes()),
            map.offset,
            map.length,
            map.update_time,
            map.device,
            map.inode
        ),
        other => format!("{:?}", other),
    }
}

#[test]
fn a_drained_buffer_reports_each_thing_once() {
    let meta = FileMeta { size: 10, device: 20, inode: 30 };
    let mut buffer = EventBuffer::new();
    buffer.record(b"/bin/a", b"/lib/x.so", 1, meta);
    buffer.record(b"/bin/a", b"/lib/y.so", 2, FileMeta { size: 11, ..meta });
    buffer.record(b"/bin//a", b"/lib/./x.so", 3, FileMeta { size: 12, ..meta });
    buffer.record(b"/bin/b", b"/lib/x.so", 4, FileMeta { size: 13, ..meta });
    assert_eq!(buffer.exe_count(), 2);
    assert_eq!(buffer.file_count(), 3);

    let events = buffer.drain(77);
    let mut exes: Vec<String> = events[..2].iter().map(shown).collect();
    let mut maps: Vec<String> = events[2..].iter().map(shown).collect();
    exes.sort();
    maps.sort();
    assert_eq!(exes, vec!["exe /bin/a 1", "exe /bin/b 4"]);
    assert_eq!(
        maps,
        vec![
            "map /bin/a /lib/x.so 0 10 77 20 30",
            "map /bin/a /lib/y.so 0 11 77 20 30",
            "map /bin/b /lib/x.so 0 13 77 20 30",
        ]
    );

    assert_eq!(buffer.exe_count(), 0);
    assert_eq!(buffer.file_count(), 0);
    assert!(buffer.drain(78).is_empty());
    buffer.record(b"/bin/a", b"/lib/x.so", 9, meta);
    assert_eq!(buffer.drain(79).iter().map(shown).next().unwrap(), "exe /bin/a 9");
}

#[test]
fn an_opening_is_recorded_as_found() {
    let stat = FileStat { is_file: true, size: 4096, device: 2, inode: 3 };
    let opening = observe(7, Some("/usr/lib/a.so"), Some(stat), Some("/usr/bin/app")).unwrap();
    let mut buffer = EventBuffer::new();
    opening.record_in(&mut buffer);
    let events: Vec<String> = buffer.drain(5).iter().map(shown).collect();
    assert_eq!(events, vec!["exe /usr/bin/app 7", "map /usr/bin/app /usr/lib/a.so 0 4096 5 2 3"]);
}

#[test]
fn a_report_keeps_the_order() {
    let meta = FileMeta { size: 1, device: 2, inode: 3 };
    let exes = vec![
        (b"/bin/b".to_vec(), (b"/bin/./b".to_vec(), 2)),
        (b"/bin/a".to_vec(), (b"/bin/a".to_vec(), 1)),
    ];
    let files = vec![(
        (b"/bin/b".to_vec(), b"/lib/x.so".to_vec()),
        (b"/bin/b/".to_vec(), b"/lib//x.so".to_vec(), meta),
    )];
    let events: Vec<String> = report(&exes, &files, 9).iter().map(shown).collect();
    assert_eq!(events, vec!["exe /bin/./b 2", "exe /bin/a 1", "map /bin/b/ /lib//x.so 0 1 9 2 3"]);
}

#[test]
fn paths_are_reported_as_spelled_first() {
    let meta = FileMeta { size: 10, device: 20, inode: 30 };
    let mut buffer = EventBuffer::new();
    buffer.record(b"/bin//a", b"/lib/x.so/", 1, meta);
    buffer.record(b"/bin/a", b"/lib/x.so", 2, meta);
    buffer.record(b"/bin/a/", b"/lib/y.so", 3, meta);
    let events: Vec<String> = buffer.drain(5).iter().map(shown).collect();
    assert_eq!(events[0], "exe /bin//a 1");
    let mut maps = events[1..].to_vec();
    maps.sort();
    assert_eq!(
        maps,
        vec!["map /bin//a /lib/x.so/ 0 10 5 20 30", "map /bin/a/ /lib/y.so 0 10 5 20 30"]
    );
}

#[test]
fn the_reader_loop() {
    assert_eq!(ReaderStep::after_check(true), ReaderStep::Finish);
    assert_eq!(ReaderStep::after_check(false), ReaderStep::Read);
    assert_eq!(ReaderStep::after_read(ReadOutcome::Notices), ReaderStep::Process);
    assert_eq!(
        ReaderStep::after_read(ReadOutcome::WouldBlock),
        ReaderStep::Wait { millis: 100 }
    );
    assert_eq!(ReaderStep::after_read(ReadOutcome::Interrupted), ReaderStep::CheckStop);
    assert_eq!(ReaderStep::after_read(ReadOutcome::Failed), ReaderStep::Finish);
    assert_eq!(ReaderStep::after_process(), ReaderStep::CheckStop);
    assert_eq!(ReaderStep::after_wait(), ReaderStep::CheckStop);
}
