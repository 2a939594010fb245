use canoe_storage::directory::{has_file_types, DirRecord};
use canoe_storage::engine::{Call, FatItem, InodeFacts, Kind, Layout, Reply};
use canoe_storage::guard::{Cursor, Guarded, Refusal, Whence};
use canoe_storage::journal::{inspect, mount, Journal, MountMode, Volume};
use canoe_storage::lifecycle::{
    check_capacity, check_write_length, OpenRun, Summary, MAX_EXACT_INTEGER,
};
use canoe_storage::list::{ListRun, Listing};
use canoe_storage::mutate::{MutateRun, MutateStep};
use canoe_storage::path::{holder_of, name_of, names_root, path, relative_of};
use canoe_storage::probe::ProbeRun;
use canoe_storage::read::ReadRun;
use canoe_storage::session::{Entry, Session, Step, MAX_FILE_CHUNK};
use canoe_storage::stat::{either_is, item_goes_by, StatRun};
use canoe_storage::text::{is_white_space, trimmed, utf8_width};

const SIZE: u64 = 1 << 20;

fn mounted(kind: &str, writable: bool) -> Session {
    let (mut s, step) = Session::open(kind, writable, true, SIZE).unwrap();
    let mut step = step;
    loop {
        match step {
            Step::Call(Call::InspectExt4, run) => {
                step = s.resume_open(run, Reply::Superblocks(volume()))
            }
            Step::Call(_, run) => step = s.resume_open(run, Reply::Done),
            Step::Done(r) => {
                r.unwrap();
                return s;
            }
        }
    }
}

fn plain_journal() -> Journal {
    Journal {
        block_type: 4,
        block_size: 4096,
        max_len: 1024,
        first: 1,
        sequence: 9,
        start: 0,
        errno: 0,
        feature_compat: 0,
        feature_incompat: 0,
        feature_ro_compat: 0,
        nr_users: 1,
    }
}

fn volume() -> Volume {
    Volume {
        block_size: 4096,
        blocks_count: 8192,
        free_blocks_count: 7000,
        r_blocks_count: 400,
        free_inodes_count: 77,
        uuid: [3; 16],
        feature_compat: 4,
        feature_incompat: 0x46,
        feature_ro_compat: 1,
        state: 1,
        last_orphan: 12,
        journal: Some(plain_journal()),
    }
}

fn item(name: &str, short: &str, directory: bool, size: u64) -> FatItem {
    FatItem {
        name: name.to_string(),
        short_name: short.to_string(),
        directory,
        size,
    }
}

fn inode(number: u32, mode: u16, size: u64) -> InodeFacts {
    InodeFacts {
        number,
        mode,
        size,
        links_count: 1,
        flags: 0,
        generation: 5,
    }
}

fn layout(block_size: u32) -> Layout {
    Layout {
        block_size,
        file_types: true,
        checksum_seed: 0,
        checksums: false,
    }
}

fn failure<R, T>(step: Step<R, T>) -> String {
    match step {
        Step::Done(Err(e)) => e,
        _ => panic!("expected a failure"),
    }
}

#[test]
fn paths_are_absolute_and_plain() {
    for good in ["/", "/a", "/a/b.c", "/évidence.txt", "/...a", "/ a", "/a b/c"] {
        assert!(path(good).is_ok(), "{good}");
    }
    for bad in ["", "a", "../escape", "/a/", "//"] {
        assert_eq!(path(bad).unwrap_err(), "invalid filesystem path", "{bad}");
    }
    for bad in [
        "/../escape",
        "/a/./b",
        "/a//b",
        "/a.",
        "/a ",
        "/a /b",
        "/.",
        "/a\\b",
        "/a:b",
        "/a*",
        "/what?",
        "/\"q\"",
        "/a<b",
        "/a>b",
        "/a|b",
        "/a\tb",
        "/a\u{7f}",
        "/a\u{85}b",
    ] {
        assert_eq!(
            path(bad).unwrap_err(),
            "invalid filesystem path component",
            "{bad}"
        );
    }
}

#[test]
fn path_lengths_are_counted_in_bytes() {
    let fits = format!("/{}", "a".repeat(255));
    assert!(path(&fits).is_ok());
    assert!(path(&format!("/{}", "a".repeat(256))).is_err());
    // 127 characters of two bytes each, and one more.
    assert!(path(&format!("/{}b", "é".repeat(127))).is_ok());
    assert!(path(&format!("/{}", "é".repeat(128))).is_err());
    let long = "/abcdefg".repeat(512);
    assert_eq!(long.len(), 4096);
    assert!(path(&long).is_ok());
    assert_eq!(
        path(&format!("{long}h")).unwrap_err(),
        "invalid filesystem path"
    );
    for c in ['a', 'é', '€', '😀'] {
        assert_eq!(utf8_width(c), c.len_utf8());
    }
}

#[test]
fn white_space_is_trimmed_from_both_ends() {
    for c in '\0'..=char::MAX {
        assert_eq!(is_white_space(c), c.is_whitespace(), "{c:?}");
    }
    for s in ["", " ", "\t a b\u{3000}\n", "x", " x", "x ", "\u{a0}é\u{2003}é\u{85}", "\0 \0"] {
        assert_eq!(trimmed(s), s.trim(), "{s:?}");
    }
}

#[test]
fn file_types_are_a_feature() {
    for (features, yes) in [(0, false), (2, true), (5, false), (0x46, true), (u32::MAX, true)] {
        assert_eq!(has_file_types(features), yes);
    }
}

#[test]
fn paths_split_at_their_last_slash() {
    assert_eq!(name_of("/a/b/c.txt"), "c.txt");
    assert_eq!(holder_of("/a/b/c.txt"), "a/b");
    assert_eq!(relative_of("/a/b/c.txt"), "a/b/c.txt");
    assert_eq!(name_of("/é"), "é");
    assert_eq!(holder_of("/é"), "");
    assert_eq!(name_of("/"), "");
    assert!(names_root("/") && !names_root("/a"));
}

#[test]
fn guard_refuses_what_it_must() {
    let mut g = Guarded::new(100, false);
    assert_eq!(g.check(90, 10), Ok(()));
    assert_eq!(g.check(91, 10), Err(Refusal::OutOfBounds));
    assert_eq!(g.check(u64::MAX, 1), Err(Refusal::OutOfBounds));
    assert_eq!(g.admit_write(0, 1), Err(Refusal::ReadOnly));
    assert_eq!(Guarded::new(100, true).admit_write(0, 1), Ok(()));
    assert_eq!(g.complete::<u8>(Ok(())), Ok(()));
    assert!(!g.is_retired());
    assert_eq!(g.complete(Err(7)), Err(7));
    assert_eq!(g.check(0, 0), Err(Refusal::Retired));
    assert_eq!(g.admit_write(0, 0), Err(Refusal::Retired));
}

#[test]
fn cursors_stay_on_the_device() {
    let mut c = Cursor::new();
    assert_eq!(c.seek(100, Whence::End(-10)), Ok(90));
    assert_eq!(c.readable(100, 64), 10);
    c.advance(10);
    assert_eq!(c.readable(100, 64), 0);
    assert_eq!(c.seek(100, Whence::Current(-1)), Ok(99));
    assert!(c.seek(100, Whence::Current(2)).is_err());
    assert!(c.seek(100, Whence::Current(-100)).is_err());
    assert!(c.seek(100, Whence::Start(101)).is_err());
    assert_eq!(c.position(), 99);
    assert_eq!(c.seek(100, Whence::Start(100)), Ok(100));
}

#[test]
fn opening_is_refused_before_any_call() {
    let why = |r: Result<(Session, Step<OpenRun, ()>), String>| match r {
        Err(e) => e,
        Ok(_) => panic!("expected a refusal"),
    };
    assert_eq!(
        why(Session::open("fat", true, false, SIZE)),
        "underlying storage is read-only"
    );
    assert_eq!(
        why(Session::open("ntfs", false, true, SIZE)),
        "filesystem must be fat or ext4"
    );
    assert!(Session::open("fat", false, false, SIZE).is_ok());
}

#[test]
fn writable_ext4_is_inspected_before_recovery() {
    let (mut s, step) = Session::open("ext4", true, true, SIZE).unwrap();
    let Step::Call(Call::InspectExt4, run) = step else {
        panic!("expected an inspection");
    };
    let mut bad = volume();
    bad.state = 3;
    assert_eq!(
        failure(s.resume_open(run, Reply::Superblocks(bad))),
        "corrupt: filesystem or journal records an outstanding error"
    );
    assert!(!s.usable());
    let (mut s, step) = Session::open("ext4", true, true, SIZE).unwrap();
    let Step::Call(Call::InspectExt4, run) = step else {
        panic!("expected an inspection");
    };
    let Step::Call(Call::MountExt4 { recovering: true }, run) =
        s.resume_open(run, Reply::Superblocks(volume()))
    else {
        panic!("expected recovery");
    };
    assert!(matches!(
        s.resume_open(run, Reply::Done),
        Step::Done(Ok(()))
    ));
    assert!(s.usable());
    let (_, step) = Session::open("ext4", false, true, SIZE).unwrap();
    assert!(matches!(
        step,
        Step::Call(Call::MountExt4 { recovering: false }, _)
    ));
}

/// The reply that mounts a FAT volume, and the opening that awaits it.
fn late_opening() -> OpenRun {
    match Session::open("fat", false, true, SIZE).unwrap().1 {
        Step::Call(Call::MountFat, run) => run,
        _ => panic!("expected a mount"),
    }
}

#[test]
fn a_session_is_opened_at_most_once() {
    let late = "engine reply does not answer its call";
    // Finished.
    let mut s = mounted("fat", false);
    assert!(matches!(s.finish(), Step::Done(Ok(()))));
    assert_eq!(failure(s.resume_open(late_opening(), Reply::Done)), late);
    assert!(!s.usable());
    // Given up while it was being opened.
    let (mut s, step) = Session::open("fat", true, true, SIZE).unwrap();
    let Step::Call(Call::MountFat, run) = step else {
        panic!("expected a mount");
    };
    s.abort();
    assert_eq!(failure(s.resume_open(run, Reply::Done)), late);
    assert!(!s.usable());
    // An opening that failed.
    let (mut s, step) = Session::open("fat", true, true, SIZE).unwrap();
    let Step::Call(Call::MountFat, run) = step else {
        panic!("expected a mount");
    };
    assert_eq!(
        failure(s.resume_open(run, Reply::Failed("lost".to_string()))),
        "lost"
    );
    assert_eq!(failure(s.resume_open(late_opening(), Reply::Done)), late);
    assert!(!s.usable());
    // One that is mounted stays mounted.
    let mut s = mounted("fat", false);
    assert_eq!(failure(s.resume_open(late_opening(), Reply::Done)), late);
    assert!(s.usable());
}

#[test]
fn journals_are_judged_by_their_format() {
    let i = inspect(&volume());
    assert!(i.write_blocker.is_none());
    assert!(i.needs_recovery);
    assert_eq!(i.orphan_head, 12);
    assert_eq!((i.journal_start, i.journal_error), (Some(0), Some(0)));
    let unsupported = Some("checked writes require a supported plain internal JBD2 journal");
    let with = |f: fn(&mut Journal)| {
        let mut v = volume();
        let mut j = plain_journal();
        f(&mut j);
        v.journal = Some(j);
        inspect(&v).write_blocker
    };
    assert_eq!(with(|j| j.feature_incompat = 3), None);
    assert_eq!(with(|j| j.start = 1023), None);
    for change in [
        (|j: &mut Journal| j.feature_incompat = 4) as fn(&mut Journal),
        |j| j.feature_compat = 1,
        |j| j.feature_ro_compat = 1,
        |j| j.block_type = 3,
        |j| j.block_size = 1024,
        |j| j.first = 2,
        |j| j.max_len = 1,
        |j| j.max_len = 8193,
        |j| j.start = 1024,
        |j| j.nr_users = 2,
    ] {
        assert_eq!(with(change), unsupported);
    }
    assert_eq!(
        with(|j| j.errno = 5),
        Some("filesystem or journal records an outstanding error")
    );
    assert_eq!(mount(Some(inspect(&volume()))), Ok(MountMode::Recovering));
    assert_eq!(mount(None), Ok(MountMode::Plain));
    let mut none = volume();
    none.journal = None;
    none.feature_incompat = 2;
    let i = inspect(&none);
    assert_eq!(i.write_blocker, unsupported);
    assert_eq!(mount(Some(i)), Err(unsupported.unwrap()));
    assert!(!i.needs_recovery && i.journal_start.is_none());
}

#[test]
fn summaries_count_in_bytes() {
    let s = mounted("ext4", true);
    let Step::Call(Call::ReadVolume, run) = s.inspect() else {
        panic!("expected a call");
    };
    let Step::Done(Ok(Summary::Ext4(e))) = s.resume_inspection(run, Reply::Superblocks(volume()))
    else {
        panic!("expected a summary");
    };
    assert_eq!(e.free_bytes, 7000 * 4096);
    assert_eq!(e.reserved_bytes, 400 * 4096);
    assert!(e.writable && e.needs_recovery && e.checked_write_format_supported);
    assert_eq!((e.device_bytes, e.write_blocker), (SIZE, None));
    assert_eq!(e.volume.free_inodes_count, 77);

    let s = mounted("fat", false);
    let Step::Call(Call::Statistics, run) = s.inspect() else {
        panic!("expected a call");
    };
    let Step::Call(Call::StatusFlags, run) = s.resume_inspection(
        run,
        Reply::Clusters {
            cluster_size: 2048,
            total: 500,
            free: 300,
        },
    ) else {
        panic!("expected a call");
    };
    let Step::Done(Ok(Summary::Fat(f))) = s.resume_inspection(run, Reply::Dirty(true)) else {
        panic!("expected a summary");
    };
    assert_eq!(f.free_bytes, 300 * 2048);
    assert_eq!((f.allocation_unit, f.total_units), (2048, 500));
    assert!(!f.writable && f.dirty);
    let Step::Call(Call::Statistics, run) = s.inspect() else {
        panic!("expected a call");
    };
    assert_eq!(
        failure(s.resume_inspection(run, Reply::Failed("gone".to_string()))),
        "gone"
    );
}

#[test]
fn fat_names_are_compared_in_uppercase() {
    let s = mounted("fat", false);
    let Step::Call(Call::OpenDirectory(dir), run) = s.stat("/Dir/Straße.txt") else {
        panic!("expected a directory");
    };
    assert_eq!(dir, "Dir");
    let Step::Call(Call::NextEntry, run) = run.resume(Reply::Done) else {
        panic!("expected a walk");
    };
    let Step::Call(Call::NextEntry, run) =
        run.resume(Reply::Entry(Some(item("strase.txt", "STRASE.TXT", false, 1))))
    else {
        panic!("expected another entry");
    };
    let Step::Done(Ok(found)) =
        run.resume(Reply::Entry(Some(item("STRASSE.TXT", "STRASS~1.TXT", false, 7))))
    else {
        panic!("expected the entry");
    };
    assert_eq!(
        (found.name.as_str(), found.kind, found.size),
        ("STRASSE.TXT", "file", 7)
    );
    assert_eq!((found.inode, found.generation), (None, None));
    // The short name serves as well.
    let wanted = "LONGNA~1.BIN".to_string();
    assert!(item_goes_by(
        &item("long name.bin", "longna~1.bin", false, 0),
        &wanted
    ));
    assert!(!item_goes_by(&item("other", "OTHER", false, 0), &wanted));
    assert!(either_is(&"A".to_string(), &"B".to_string(), &"B".to_string()));
    assert!(!either_is(
        &"A".to_string(),
        &"B".to_string(),
        &"C".to_string()
    ));
}

#[test]
fn lookups_end_at_the_entry_limit() {
    let s = mounted("fat", false);
    let scan = || -> StatRun {
        let Step::Call(_, run) = s.stat("/wanted") else {
            panic!("expected a directory");
        };
        let Step::Call(_, run) = run.resume(Reply::Done) else {
            panic!("expected a walk");
        };
        run
    };
    assert_eq!(failure(scan().resume(Reply::Entry(None))), "not found");
    let mut run = scan();
    for n in 0..4096 {
        match run.resume(Reply::Entry(Some(item(&format!("f{n}"), "F", false, 0)))) {
            Step::Call(_, next) => run = next,
            Step::Done(_) => panic!("ended after {n}"),
        }
    }
    assert_eq!(
        failure(run.resume(Reply::Entry(Some(item("wanted", "WANTED", false, 0))))),
        "directory entry limit exceeded"
    );
    assert_eq!(
        failure(scan().resume(Reply::Failed("No such file".to_string()))),
        "No such file"
    );
    assert_eq!(
        failure(scan().resume(Reply::Dirty(true))),
        "engine reply does not answer its call"
    );
    assert!(matches!(
        s.stat("/"),
        Step::Done(Ok(Entry {
            kind: "directory",
            size: 0,
            ..
        }))
    ));
}

fn listed(step: Step<ListRun, Listing>) -> Vec<Entry> {
    match step {
        Step::Done(Ok(l)) => l.entries,
        _ => panic!("expected a listing"),
    }
}

#[test]
fn fat_listings_leave_dots_out_and_are_bounded() {
    let s = mounted("fat", false);
    let Step::Call(Call::OpenDirectory(dir), run) = s.list("/a/b") else {
        panic!("expected a directory");
    };
    assert_eq!(dir, "a/b");
    let Step::Call(_, mut run) = run.resume(Reply::Done) else {
        panic!("expected a walk");
    };
    for name in [".", "..", "x", "sub"] {
        match run.resume(Reply::Entry(Some(item(name, name, name == "sub", 3)))) {
            Step::Call(Call::NextEntry, next) => run = next,
            _ => panic!("expected another entry"),
        }
    }
    let entries = listed(run.resume(Reply::Entry(None)));
    assert_eq!(
        entries
            .iter()
            .map(|e| (e.name.as_str(), e.kind))
            .collect::<Vec<_>>(),
        vec![("x", "file"), ("sub", "directory")]
    );
    let Step::Call(_, run) = s.list("/") else {
        panic!("expected a directory");
    };
    let Step::Call(_, mut run) = run.resume(Reply::Done) else {
        panic!("expected a walk");
    };
    for n in 0..4096 {
        match run.resume(Reply::Entry(Some(item(&format!("f{n}"), "F", false, 0)))) {
            Step::Call(_, next) => run = next,
            Step::Done(_) => panic!("ended after {n}"),
        }
    }
    assert_eq!(
        failure(run.resume(Reply::Entry(Some(item("more", "MORE", false, 0))))),
        "directory entry limit exceeded"
    );
}

/// A directory block that holds these records.
fn block(records: &[(u32, &[u8])], size: usize) -> Vec<u8> {
    let mut out = Vec::new();
    for (at, (number, name)) in records.iter().enumerate() {
        let length = if at + 1 == records.len() {
            size - out.len()
        } else {
            8 + name.len().div_ceil(4) * 4
        };
        out.extend_from_slice(&number.to_le_bytes());
        out.extend_from_slice(&(length as u16).to_le_bytes());
        out.push(name.len() as u8);
        out.push(1);
        out.extend_from_slice(name);
        let end = out.len() - 8 - name.len() + length;
        out.resize(end, 0);
    }
    out
}

#[test]
fn ext4_directories_are_walked_block_by_block() {
    let s = mounted("ext4", false);
    let Step::Call(Call::Resolve(p), run) = s.list("/d") else {
        panic!("expected a resolution");
    };
    assert_eq!(p, "/d");
    let Step::Call(Call::MapBlock(0), run) =
        run.resume(Reply::Resolved(inode(20, 0x41ed, 2500), layout(1024)))
    else {
        panic!("expected the first block");
    };
    // The first block is a hole, the second holds two names, the third dots.
    let Step::Call(Call::MapBlock(1), run) = run.resume(Reply::Mapped(None)) else {
        panic!("expected the second block");
    };
    let Step::Call(Call::ReadBlock(99), run) = run.resume(Reply::Mapped(Some(99))) else {
        panic!("expected its bytes");
    };
    let Step::Call(Call::ReadInode(31), run) = run.resume(Reply::Bytes(block(
        &[
            (20, b"."),
            (31, b"file"),
            (2, b".."),
            (0, b"gone"),
            (32, b"l\xc3\xafnk"),
        ],
        1024,
    ))) else {
        panic!("expected the first inode");
    };
    let Step::Call(Call::ReadInode(32), run) = run.resume(Reply::Inode(inode(31, 0x81a4, 700)))
    else {
        panic!("expected the second inode");
    };
    let Step::Call(Call::MapBlock(2), run) = run.resume(Reply::Inode(inode(32, 0xa1ff, 4))) else {
        panic!("expected the third block");
    };
    let Step::Call(Call::ReadBlock(7), run) = run.resume(Reply::Mapped(Some(7))) else {
        panic!("expected its bytes");
    };
    let entries = listed(run.resume(Reply::Bytes(block(&[(20, b"."), (2, b"..")], 1024))));
    assert_eq!(
        entries
            .iter()
            .map(|e| (e.name.as_str(), e.kind, e.size, e.inode, e.generation))
            .collect::<Vec<_>>(),
        vec![
            ("file", "file", 700, Some(31), Some(5)),
            ("l\u{ef}nk", "symlink", 4, Some(32), Some(5))
        ]
    );
}

fn loading(s: &Session, dir: Layout) -> ListRun {
    let Step::Call(_, run) = s.list("/d") else {
        panic!("expected a resolution");
    };
    let Step::Call(_, run) = run.resume(Reply::Resolved(inode(20, 0x41ed, 1024), dir)) else {
        panic!("expected a block");
    };
    let Step::Call(_, run) = run.resume(Reply::Mapped(Some(7))) else {
        panic!("expected its bytes");
    };
    run
}

#[test]
fn ext4_records_are_shown_up_to_the_limit() {
    let s = mounted("ext4", false);
    let records = |n: u32| {
        (0..n)
            .map(|i| DirRecord {
                inode: 100 + i,
                name: format!("f{i}").into_bytes(),
            })
            .collect::<Vec<_>>()
    };
    let walk = |n: u32| {
        let mut step = loading(&s, layout(1024)).take_records(Ok(records(n)));
        loop {
            match step {
                Step::Call(Call::ReadInode(i), run) => {
                    step = run.resume(Reply::Inode(inode(i, 0x81a4, 1)))
                }
                other => return other,
            }
        }
    };
    let entries = listed(walk(4096));
    assert_eq!(entries.len(), 4096);
    assert_eq!(entries[4095].name, "f4095");
    assert_eq!(entries[4095].inode, Some(4195));
    assert_eq!(failure(walk(4097)), "directory entry limit exceeded");
    assert_eq!(
        failure(loading(&s, layout(1024)).take_records(Err("broken".to_string()))),
        "broken"
    );
    let Step::Call(_, resolving) = s.list("/d") else {
        panic!("expected a resolution");
    };
    assert_eq!(
        failure(resolving.take_records(Ok(vec![]))),
        "engine reply does not answer its call"
    );
}

#[test]
fn ext4_directories_that_are_not_in_order_are_refused() {
    let s = mounted("ext4", false);
    let resolved = |i: InodeFacts| {
        let Step::Call(_, run) = s.list("/d") else {
            panic!("expected a resolution");
        };
        failure(run.resume(Reply::Resolved(i, layout(1024))))
    };
    assert_eq!(resolved(inode(20, 0x81a4, 5)), "not a directory");
    assert_eq!(
        resolved(inode(20, 0xa1ff, 5)),
        "unsupported: symbolic links are not followed"
    );
    assert_eq!(
        resolved(inode(20, 0x41ed, 16 * 1024 * 1024 + 1)),
        "unsupported or oversized directory layout"
    );
    let mut inline = inode(20, 0x41ed, 60);
    inline.flags = 0x1000_0000;
    assert_eq!(
        resolved(inline),
        "unsupported or oversized directory layout"
    );
    // A record that claims to be shorter than its header.
    let mut broken = block(&[(31, b"file")], 1024);
    broken[4] = 4;
    broken[5] = 0;
    assert_eq!(
        failure(loading(&s, layout(1024)).resume(Reply::Bytes(broken))),
        "corrupt directory entry: bad rec_len"
    );
    // A checksummed volume, and a tail whose checksum does not hold.
    let mut tailed = block(&[(31, b"file")], 1012);
    tailed.extend_from_slice(&[0, 0, 0, 0, 12, 0, 0, 0xde, 1, 2, 3, 4]);
    let mut checked = layout(1024);
    checked.checksums = true;
    assert_eq!(
        failure(loading(&s, checked).resume(Reply::Bytes(tailed.clone()))),
        "directory block checksum mismatch"
    );
    assert!(matches!(
        loading(&s, layout(1024)).resume(Reply::Bytes(tailed)),
        Step::Call(Call::ReadInode(31), _)
    ));
    // A name that is no text.
    let Step::Call(_, run) =
        loading(&s, layout(1024)).resume(Reply::Bytes(block(&[(31, b"\xff\xfe")], 1024)))
    else {
        panic!("expected an inode");
    };
    assert_eq!(
        failure(run.resume(Reply::Inode(inode(31, 0x81a4, 1)))),
        "invalid utf-8 sequence of 1 bytes from index 0"
    );
}

#[test]
fn ext4_lookups_tell_what_is_there() {
    let s = mounted("ext4", false);
    let look = |p: &str, reply: Reply| {
        let Step::Call(Call::Resolve(_), run) = s.stat(p) else {
            panic!("expected a resolution");
        };
        run.resume(reply)
    };
    let Step::Done(Ok(e)) = look(
        "/a/b",
        Reply::Resolved(inode(40, 0x81a4, 9), layout(1024)),
    ) else {
        panic!("expected an entry");
    };
    assert_eq!((e.name.as_str(), e.kind, e.size), ("b", "file", 9));
    assert_eq!((e.inode, e.generation), (Some(40), Some(5)));
    let Step::Done(Ok(e)) = look("/", Reply::Resolved(inode(2, 0x41ed, 9), layout(1024))) else {
        panic!("expected an entry");
    };
    assert_eq!((e.name.as_str(), e.kind), ("", "directory"));
    let Step::Done(Ok(e)) = look("/p", Reply::Resolved(inode(3, 0x11a4, 0), layout(1024))) else {
        panic!("expected an entry");
    };
    assert_eq!(e.kind, "other");
    assert_eq!(
        failure(look("/x", Reply::Failed("not found".to_string()))),
        "not found"
    );
}

#[test]
fn reads_collect_until_the_end() {
    let s = mounted("fat", false);
    let reading = |length: usize| -> Step<ReadRun, Vec<u8>> {
        let Step::Call(Call::OpenFile(p), run) = s.read("/d/f", 7, length) else {
            panic!("expected an open");
        };
        assert_eq!(p, "d/f");
        let Step::Call(Call::Seek(7), run) = run.resume(Reply::Done) else {
            panic!("expected a seek");
        };
        run.resume(Reply::Done)
    };
    let Step::Call(Call::ReadSome(10), run) = reading(10) else {
        panic!("expected a read");
    };
    let Step::Call(Call::ReadSome(6), run) = run.resume(Reply::Bytes(vec![1; 4])) else {
        panic!("expected another");
    };
    assert!(
        matches!(run.resume(Reply::Bytes(vec![2; 6])), Step::Done(Ok(b)) if b == [1, 1, 1, 1, 2, 2, 2, 2, 2, 2])
    );
    let Step::Call(_, run) = reading(10) else {
        panic!("expected a read");
    };
    let Step::Call(_, run) = run.resume(Reply::Bytes(vec![1; 4])) else {
        panic!("expected another");
    };
    assert!(matches!(run.resume(Reply::Bytes(vec![])), Step::Done(Ok(b)) if b == [1; 4]));
    let Step::Call(_, run) = reading(10) else {
        panic!("expected a read");
    };
    assert_eq!(
        failure(run.resume(Reply::Bytes(vec![0; 11]))),
        "engine reply does not answer its call"
    );
    assert!(matches!(reading(0), Step::Done(Ok(b)) if b.is_empty()));
    assert_eq!(
        failure(s.read("/f", 0, MAX_FILE_CHUNK + 1)),
        "file read exceeds4MiB"
    );
    let s = mounted("ext4", false);
    let Step::Call(_, run) = s.read("/d", 0, 8) else {
        panic!("expected a resolution");
    };
    assert_eq!(
        failure(run.resume(Reply::Resolved(inode(20, 0x41ed, 5), layout(1024)))),
        "not a regular file"
    );
    let Step::Call(_, run) = s.read("/f", 3, 8) else {
        panic!("expected a resolution");
    };
    let Step::Call(
        Call::ReadFile {
            offset: 3,
            wanted: 8,
        },
        run,
    ) = run.resume(Reply::Resolved(inode(21, 0x81a4, 5), layout(1024)))
    else {
        panic!("expected a read");
    };
    assert!(matches!(run.resume(Reply::Bytes(vec![9, 9])), Step::Done(Ok(b)) if b == [9, 9]));
}

/// Answers the lookup of a change on ext4 and gives its next step.
fn looked_up(s: &mut Session, step: MutateStep, reply: Reply) -> MutateStep {
    let Step::Call(Call::Resolve(_), run) = step else {
        panic!("expected a lookup");
    };
    s.resume_mutation(run, reply)
}

fn missing() -> Reply {
    Reply::Failed("not found".to_string())
}

fn file(size: u64) -> Reply {
    Reply::Resolved(inode(50, 0x81a4, size), layout(4096))
}

fn directory() -> Reply {
    Reply::Resolved(inode(51, 0x41ed, 4096), layout(4096))
}

fn committed(s: &mut Session, step: MutateStep) -> bool {
    let Step::Call(_, run) = step else {
        panic!("expected a call");
    };
    matches!(s.resume_mutation(run, Reply::Done), Step::Done(Ok(())))
}

#[test]
fn changes_look_before_they_act() {
    let mut s = mounted("ext4", true);
    let step = s.create_file("/new");
    let step = looked_up(&mut s, step, missing());
    assert!(matches!(&step, Step::Call(Call::CreateInode(p), _) if p == "/new"));
    assert!(committed(&mut s, step));
    let step = s.create_file("/old");
    assert_eq!(failure(looked_up(&mut s, step, file(1))), "already exists");
    let step = s.create_file("/x");
    let other = Reply::Failed("I/O error: gone".to_string());
    assert_eq!(failure(looked_up(&mut s, step, other)), "I/O error: gone");

    let step = s.mkdir("/dir");
    let step = looked_up(&mut s, step, missing());
    assert!(matches!(&step, Step::Call(Call::MakeDirectory(p), _) if p == "/dir"));
    let step = s.mkdir("/");
    assert_eq!(
        failure(looked_up(&mut s, step, directory())),
        "already exists"
    );

    let step = s.remove("/f");
    let step = looked_up(&mut s, step, file(1));
    assert!(matches!(&step, Step::Call(Call::Unlink(p), _) if p == "/f"));
    let step = s.remove("/d");
    let step = looked_up(&mut s, step, directory());
    assert!(matches!(&step, Step::Call(Call::RemoveDirectory(p), _) if p == "/d"));
    let step = s.remove("/f");
    assert_eq!(failure(looked_up(&mut s, step, missing())), "not found");

    let step = s.rename("/a", "/b");
    let step = looked_up(&mut s, step, file(1));
    let step = looked_up(&mut s, step, missing());
    assert!(
        matches!(&step, Step::Call(Call::RenameInode(p, q), _) if p == "/a" && q == "/b")
    );
    let step = s.rename("/a", "/b");
    let step = looked_up(&mut s, step, file(1));
    assert_eq!(failure(looked_up(&mut s, step, file(1))), "already exists");
    let step = s.rename("/a", "/b");
    assert_eq!(failure(looked_up(&mut s, step, missing())), "not found");

    assert_eq!(failure(s.create_file("/")), "cannot replace root");
    assert_eq!(failure(s.remove("/")), "cannot remove root");
    assert_eq!(failure(s.rename("/a", "/")), "cannot rename root");
    assert_eq!(failure(s.rename("/a", "b")), "invalid filesystem path");
    assert!(s.usable());
}

#[test]
fn ext4_files_with_one_name_are_written_and_cut() {
    let mut s = mounted("ext4", true);
    let step = s.write("/f", 4, b"data");
    let step = looked_up(&mut s, step, file(4));
    let step = looked_up(&mut s, step, file(4));
    assert!(matches!(
        &step,
        Step::Call(Call::WriteInode { path, offset: 4, data }, _) if path == "/f" && data == b"data"
    ));
    assert!(committed(&mut s, step));

    let step = s.write("/f", 5, b"data");
    assert_eq!(
        failure(looked_up(&mut s, step, file(4))),
        "file write cannot leave a gap"
    );
    let step = s.write("/d", 0, b"data");
    assert_eq!(
        failure(looked_up(&mut s, step, directory())),
        "not a regular file"
    );
    assert_eq!(
        failure(s.write("/f", SIZE - 3, b"data")),
        "invalid file write range"
    );
    assert_eq!(
        failure(s.write("/f", u64::MAX, b"data")),
        "invalid file write range"
    );

    let step = s.truncate("/f", 3);
    let step = looked_up(&mut s, step, file(4));
    let step = looked_up(&mut s, step, file(4));
    assert!(matches!(
        &step,
        Step::Call(
            Call::ShrinkInode {
                number: 50,
                length: 3
            },
            _
        )
    ));
    let step = s.truncate("/f", 4);
    let step = looked_up(&mut s, step, file(4));
    assert!(matches!(
        looked_up(&mut s, step, file(4)),
        Step::Done(Ok(()))
    ));
    let step = s.truncate("/f", 5);
    assert_eq!(
        failure(looked_up(&mut s, step, file(4))),
        "truncate only shrinks existing regular files"
    );
    assert!(s.usable());

    for cut in [false, true] {
        let mut s = mounted("ext4", true);
        let mut linked = inode(50, 0x81a4, 4);
        linked.links_count = 2;
        let step = if cut {
            s.truncate("/f", 0)
        } else {
            s.write("/f", 0, b"x")
        };
        let step = looked_up(&mut s, step, file(4));
        let why = failure(looked_up(
            &mut s,
            step,
            Reply::Resolved(linked, layout(4096)),
        ));
        assert_eq!(
            why,
            if cut {
                "truncating multiply linked files is refused"
            } else {
                "writing multiply linked files is refused"
            }
        );
        assert!(!s.usable());
    }
}

/// Answers the calls of a change on FAT in turn.
fn answer(s: &mut Session, step: MutateStep, replies: Vec<Reply>) -> (Vec<Call>, MutateStep) {
    let mut step = step;
    let mut calls = Vec::new();
    for reply in replies {
        let (call, run): (Call, MutateRun) = match step {
            Step::Call(call, run) => (call, run),
            Step::Done(_) => panic!("ended early"),
        };
        calls.push(call);
        step = s.resume_mutation(run, reply);
    }
    (calls, step)
}

fn found(size: u64) -> Vec<Reply> {
    vec![
        Reply::Done,
        Reply::Entry(Some(item("f", "F", false, size))),
    ]
}

#[test]
fn fat_files_are_written_and_cut_in_order() {
    let mut s = mounted("fat", true);
    let step = s.write("/f", 2, b"data");
    let mut replies = found(2);
    replies.extend([Reply::Done, Reply::Done, Reply::Done, Reply::Done]);
    let (calls, end) = answer(&mut s, step, replies);
    assert!(matches!(&calls[0], Call::OpenDirectory(p) if p.is_empty()));
    assert!(matches!(&calls[1], Call::NextEntry));
    assert!(matches!(&calls[2], Call::OpenFile(p) if p == "f"));
    assert!(matches!(&calls[3], Call::Seek(2)));
    assert!(matches!(&calls[4], Call::WriteAll(b) if b == b"data"));
    assert!(matches!(&calls[5], Call::FlushFile));
    assert!(matches!(end, Step::Done(Ok(()))));

    let step = s.truncate("/f", 1);
    let mut replies = found(2);
    replies.extend([Reply::Done, Reply::Done, Reply::Done]);
    let (calls, end) = answer(&mut s, step, replies);
    assert!(matches!(&calls[3], Call::Seek(1)));
    assert!(matches!(&calls[4], Call::TruncateFile));
    assert!(matches!(end, Step::Done(Ok(()))));

    // A file of that length already is left alone.
    let step = s.truncate("/f", 2);
    let (_, end) = answer(&mut s, step, found(2));
    assert!(matches!(end, Step::Done(Ok(()))));
    assert!(s.usable());

    let step = s.create_file("/dir/F");
    let (_, end) = answer(&mut s, step, found(0));
    assert_eq!(failure(end), "already exists");
    let step = s.rename("/a", "/b");
    let (calls, _) = answer(
        &mut s,
        step,
        vec![
            Reply::Done,
            Reply::Entry(Some(item("A", "A", false, 0))),
            Reply::Done,
            Reply::Entry(None),
            Reply::Done,
        ],
    );
    assert!(matches!(&calls[4], Call::RenameEntry(p, q) if p == "a" && q == "b"));
}

#[test]
fn a_failed_change_retires_the_session() {
    for failing in 2..6 {
        let mut s = mounted("fat", true);
        let step = s.write("/f", 0, b"data");
        let mut replies = found(2);
        for n in 2..=failing {
            replies.push(if n == failing {
                Reply::Failed("lost".to_string())
            } else {
                Reply::Done
            });
        }
        let (_, end) = answer(&mut s, step, replies);
        assert_eq!(failure(end), "lost");
        assert!(!s.usable());
        assert_eq!(
            failure(s.write("/f", 0, b"again")),
            "filesystem session is closed or retired"
        );
        assert_eq!(
            failure(s.finish()),
            "filesystem session is closed or retired"
        );
        assert_eq!(s.admit_read(0, 1), Err(Refusal::Retired));
    }
}

#[test]
fn a_device_failure_stops_a_change_before_it_acts() {
    let mut s = mounted("ext4", true);
    let step = s.create_file("/new");
    let _ = s.complete(Err(()));
    assert_eq!(
        failure(looked_up(&mut s, step, missing())),
        "filesystem session is closed or retired"
    );
}

#[test]
fn read_only_sessions_refuse_every_change() {
    for kind in ["fat", "ext4"] {
        let mut s = mounted(kind, false);
        let why = "filesystem was opened read-only";
        assert_eq!(failure(s.create_file("/f")), why);
        assert_eq!(failure(s.write("/f", 0, b"x")), why);
        assert_eq!(failure(s.truncate("/f", 0)), why);
        assert_eq!(failure(s.mkdir("/d")), why);
        assert_eq!(failure(s.remove("/f")), why);
        assert_eq!(failure(s.rename("/f", "/g")), why);
        assert_eq!(s.admit_write(0, 1), Err(Refusal::ReadOnly));
        assert!(matches!(s.flush(), Step::Done(Ok(()))));
        assert!(matches!(
            s.fresh_read(),
            Step::Call(Call::Refresh, _)
        ));
        assert!(matches!(s.finish(), Step::Done(Ok(()))));
        assert!(!s.usable());
    }
}

#[test]
fn finishing_unmounts_and_flushes() {
    let mut s = mounted("fat", true);
    let Step::Call(Call::Unmount, run) = s.finish() else {
        panic!("expected an unmount");
    };
    assert!(!s.usable());
    let Step::Call(Call::FlushDevice, run) = s.resume_finish(run, Reply::Done) else {
        panic!("expected a flush");
    };
    assert_eq!(
        failure(s.resume_finish(run, Reply::Failed("lost".to_string()))),
        "lost"
    );
    let mut s = mounted("fat", true);
    let Step::Call(Call::Unmount, run) = s.finish() else {
        panic!("expected an unmount");
    };
    assert_eq!(
        failure(s.resume_finish(run, Reply::Failed("lost".to_string()))),
        "lost"
    );
    assert_eq!(s.admit_read(0, 1), Err(Refusal::Retired));

    let mut s = mounted("ext4", true);
    let Step::Call(Call::FlushEngine, run) = s.fresh_read() else {
        panic!("expected a flush");
    };
    let Step::Call(Call::Refresh, run) = s.resume_live(run, Reply::Done) else {
        panic!("expected a refresh");
    };
    assert_eq!(
        failure(s.resume_live(run, Reply::Failed("lost".to_string()))),
        "lost"
    );
    assert!(!s.usable());
}

#[test]
fn capacities_are_exact_integers() {
    assert!(check_capacity(1).is_ok());
    assert!(check_capacity(MAX_EXACT_INTEGER).is_ok());
    for bad in [0, MAX_EXACT_INTEGER + 1, u64::MAX] {
        assert_eq!(
            check_capacity(bad).unwrap_err(),
            "filesystem capacity is not exactly representable"
        );
    }
    assert_eq!(MAX_EXACT_INTEGER, (1 << 53) - 1);
    assert!(check_write_length(MAX_FILE_CHUNK).is_ok());
    assert_eq!(
        check_write_length(MAX_FILE_CHUNK + 1).unwrap_err(),
        "file write exceeds4MiB"
    );
}

fn probed(kind: Kind, replies: Vec<Reply>) -> (Vec<Call>, Result<(), String>) {
    let mut step = ProbeRun::start(kind, b"payload");
    let mut calls = Vec::new();
    let mut replies = replies.into_iter();
    loop {
        match step {
            Step::Call(call, run) => {
                calls.push(call);
                step = run.resume(replies.next().unwrap_or(Reply::Done));
            }
            Step::Done(r) => return (calls, r),
        }
    }
}

#[test]
fn probes_pass_only_on_equal_readback() {
    let fat = |read: Vec<Reply>| {
        let mut replies = vec![
            Reply::Done,
            Reply::Done,
            Reply::Done,
            Reply::Done,
            Reply::Done,
        ];
        replies.extend(read);
        probed(Kind::Fat, replies)
    };
    let (calls, r) = fat(vec![
        Reply::Bytes(b"pay".to_vec()),
        Reply::Bytes(b"load".to_vec()),
    ]);
    assert_eq!(r, Ok(()));
    assert_eq!(calls.len(), 11);
    assert!(matches!(calls[10], Call::FlushDevice));
    assert_eq!(
        fat(vec![Reply::Bytes(b"PAYLOAD".to_vec())]).1,
        Err("FAT readback differs".to_string())
    );
    assert_eq!(
        fat(vec![Reply::Bytes(b"pay".to_vec()), Reply::Bytes(vec![])]).1,
        Err("failed to fill whole buffer".to_string())
    );
    let ext4 = |size: u64, read: &[u8]| {
        probed(
            Kind::Ext4,
            vec![
                Reply::Created(12),
                Reply::Done,
                Reply::Done,
                file(size),
                Reply::Bytes(read.to_vec()),
            ],
        )
        .1
    };
    assert_eq!(
        probed(Kind::Ext4, vec![Reply::Done]).1,
        Err("engine reply does not answer its call".to_string())
    );
    assert_eq!(ext4(7, b"payload"), Ok(()));
    assert_eq!(
        ext4(7, b"payloae"),
        Err("ext4 readback differs".to_string())
    );
    // What is compared is what was read, whatever length the inode gives.
    assert_eq!(ext4(8, b"payload"), Ok(()));
    for differing in [b"payloadx".as_slice(), b"payloa".as_slice(), b"".as_slice()] {
        assert_eq!(
            ext4(7, differing),
            Err("ext4 readback differs".to_string())
        );
    }
    // A read that fails is reported as such.
    let (calls, r) = probed(
        Kind::Ext4,
        vec![
            Reply::Created(12),
            Reply::Done,
            Reply::Done,
            file(9000),
            Reply::Failed("checksum mismatch".to_string()),
        ],
    );
    assert!(matches!(calls[3], Call::OpenInode(12)));
    assert!(matches!(calls[4], Call::ReadWhole));
    assert_eq!(r, Err("checksum mismatch".to_string()));
}
