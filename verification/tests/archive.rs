use arena_common::archive::{
    create_zip_package, distinct_target_dirs, zip_directory, zip_directory_with_options,
    ArchiveError, ArchiveSession, EntryContent, FsRequest, WalkEntry, ZipStruct,
};
use arena_common::paths::{entry_name, PathPart};
use arena_common::zip_writer::{ArchiveOptions, Compression};
use std::collections::BTreeMap;
use std::io::{Cursor, Read};

/// A file system held in memory: directories with their entries, files with their bytes.
struct Disk {
    directories: BTreeMap<String, Vec<String>>,
    files: BTreeMap<String, Vec<u8>>,
}

impl Disk {
    fn new() -> Disk {
        Disk { directories: BTreeMap::new(), files: BTreeMap::new() }
    }

    fn dir(&mut self, path: &str) {
        self.directories.entry(path.to_string()).or_default();
        if let Some((parent, _)) = path.rsplit_once('/') {
            if !parent.is_empty() {
                let siblings = self.directories.entry(parent.to_string()).or_default();
                if !siblings.contains(&path.to_string()) {
                    siblings.push(path.to_string());
                }
            }
        }
    }

    fn file(&mut self, path: &str, bytes: &[u8]) {
        self.files.insert(path.to_string(), bytes.to_vec());
        let (parent, _) = path.rsplit_once('/').unwrap();
        self.directories.entry(parent.to_string()).or_default().push(path.to_string());
    }

    fn listing(&self, directory: &str) -> Vec<WalkEntry> {
        let mut listing = Vec::new();
        for path in &self.directories[directory] {
            let content = if let Some(bytes) = self.files.get(path) {
                EntryContent::File(bytes.clone())
            } else {
                EntryContent::Directory
            };
            listing.push(WalkEntry { path: parts(path), content });
        }
        listing
    }
}

fn parts(path: &str) -> Vec<PathPart> {
    let mut parts = Vec::new();
    if path.starts_with('/') {
        parts.push(PathPart::RootDir);
    }
    for name in path.split('/').filter(|name| !name.is_empty()) {
        parts.push(PathPart::Normal(name.to_string()));
    }
    parts
}

fn text(path: &[PathPart]) -> String {
    let mut out = String::new();
    for part in path {
        match part {
            PathPart::RootDir => {}
            PathPart::Normal(name) => {
                out.push('/');
                out.push_str(name);
            }
            _ => unreachable!(),
        }
    }
    out
}

/// Serves a session from `disk` until it asks for nothing more, and returns
/// the directories in the order in which they were read.
fn serve(session: &mut ArchiveSession, disk: &Disk) -> Vec<String> {
    let mut visited = Vec::new();
    loop {
        assert!(session.is_well_formed());
        match session.request() {
            FsRequest::Done => return visited,
            FsRequest::ReadFile(path) => {
                session.supply_file(&disk.files[&text(&path)]).unwrap();
            }
            FsRequest::ReadDirectory(path) => {
                visited.push(text(&path));
                session.supply_listing(&disk.listing(&text(&path))).unwrap();
            }
        }
    }
}

struct Unpacked {
    name: String,
    is_dir: bool,
    data: Vec<u8>,
    mode: Option<u32>,
    stored: bool,
}

fn unpack(bytes: Vec<u8>) -> Vec<Unpacked> {
    let mut archive = zip::ZipArchive::new(Cursor::new(bytes)).unwrap();
    let mut entries = Vec::new();
    for index in 0..archive.len() {
        let mut file = archive.by_index(index).unwrap();
        let mut data = Vec::new();
        file.read_to_end(&mut data).unwrap();
        entries.push(Unpacked {
            name: file.name().to_string(),
            is_dir: file.is_dir(),
            data,
            mode: file.unix_mode(),
            stored: file.compression() == zip::CompressionMethod::Stored,
        });
    }
    entries
}

fn names(entries: &[Unpacked]) -> Vec<&str> {
    entries.iter().map(|entry| entry.name.as_str()).collect()
}

fn sample_tree() -> Disk {
    let mut disk = Disk::new();
    disk.dir("/src/bot");
    disk.file("/src/bot/run.sh", b"#!/bin/sh\necho run\n");
    disk.dir("/src/bot/data");
    disk.dir("/src/bot/empty");
    disk.file("/src/bot/readme.txt", b"read me");
    disk.file("/src/bot/data/weights.bin", &[0u8, 1, 2, 3, 255]);
    disk.dir("/src/bot/data/deep");
    disk.file("/src/bot/data/deep/leaf.txt", b"");
    disk
}

#[test]
fn directory_round_trip_keeps_paths_contents_and_empty_directories() {
    let disk = sample_tree();
    let mut session = zip_directory(&parts("/src/bot"));
    serve(&mut session, &disk);
    let entries = unpack(session.finish().unwrap());
    assert_eq!(
        names(&entries),
        vec![
            "run.sh",
            "data/",
            "empty/",
            "readme.txt",
            "data/weights.bin",
            "data/deep/",
            "data/deep/leaf.txt",
        ]
    );
    for entry in &entries {
        if entry.is_dir {
            assert!(entry.data.is_empty());
            continue;
        }
        let on_disk = &disk.files[&format!("/src/bot/{}", entry.name)];
        assert_eq!(&entry.data, on_disk);
        assert!(!entry.stored);
    }
    let empty = entries.iter().find(|entry| entry.name == "empty/").unwrap();
    assert!(empty.is_dir);
    assert_eq!(entries.iter().filter(|entry| entry.is_dir).count(), 3);
}

#[test]
fn directories_are_read_breadth_first() {
    let disk = sample_tree();
    let mut session = zip_directory(&parts("/src/bot"));
    let visited = serve(&mut session, &disk);
    assert_eq!(
        visited,
        vec!["/src/bot", "/src/bot/data", "/src/bot/empty", "/src/bot/data/deep"]
    );
}

#[test]
fn directory_archive_uses_the_default_permissions() {
    let disk = sample_tree();
    let mut session = zip_directory(&parts("/src/bot"));
    serve(&mut session, &disk);
    let entries = unpack(session.finish().unwrap());
    for entry in &entries {
        let bits = entry.mode.unwrap() & 0o777;
        assert_eq!(bits, if entry.is_dir { 0o755 } else { 0o644 });
    }
}

#[test]
fn directory_archive_takes_the_callers_options() {
    let disk = sample_tree();
    let options = ArchiveOptions { compression: Compression::Stored, unix_mode: Some(0o700) };
    let mut session = zip_directory_with_options(&parts("/src/bot"), options);
    serve(&mut session, &disk);
    let entries = unpack(session.finish().unwrap());
    assert_eq!(entries.len(), 7);
    for entry in &entries {
        assert!(entry.stored);
        assert_eq!(entry.mode.unwrap() & 0o777, 0o700);
    }
}

#[test]
fn other_entries_are_left_out() {
    let mut session = zip_directory(&parts("/src"));
    let listing = vec![
        WalkEntry { path: parts("/src/socket"), content: EntryContent::Other },
        WalkEntry { path: parts("/src/a.txt"), content: EntryContent::File(b"a".to_vec()) },
    ];
    session.supply_listing(&listing).unwrap();
    assert!(matches!(session.request(), FsRequest::Done));
    let entries = unpack(session.finish().unwrap());
    assert_eq!(names(&entries), vec!["a.txt"]);
}

#[test]
fn empty_directory_gives_an_empty_archive() {
    let mut session = zip_directory(&parts("/src"));
    session.supply_listing(&Vec::new()).unwrap();
    let entries = unpack(session.finish().unwrap());
    assert!(entries.is_empty());
}

#[test]
fn test_zip_file_size_is_smaller() {
    let mut disk = Disk::new();
    disk.dir("/tmp/unpacked");
    disk.dir("/tmp/unpacked/maps");
    disk.file("/tmp/unpacked/notes.txt", "all work and no play ".repeat(400).as_bytes());
    disk.file("/tmp/unpacked/maps/flat.map", &vec![7u8; 20_000]);
    let dir_size: usize = disk.files.values().map(|bytes| bytes.len()).sum();

    let mut session = zip_directory(&parts("/tmp/unpacked"));
    serve(&mut session, &disk);
    let zipped_archive_size = session.finish().expect("Could not zip file").len();
    assert!(zipped_archive_size < dir_size)
}

#[test]
fn replies_out_of_turn_are_refused() {
    let mut session = zip_directory(&parts("/src"));
    assert!(matches!(session.supply_file(&b"x".to_vec()), Err(ArchiveError::OutOfTurn)));
    match session.request() {
        FsRequest::ReadDirectory(path) => assert_eq!(text(&path), "/src"),
        _ => panic!("the root is still to be read"),
    }
    assert!(matches!(session.finish(), Err(ArchiveError::OutOfTurn)));

    let file = ZipStruct {
        is_dir: false,
        target_dir: "bin".to_string(),
        target_name: "bot".to_string(),
        path: parts("/build/bot"),
    };
    let mut session = create_zip_package(&vec![file]).unwrap();
    assert!(matches!(session.supply_listing(&Vec::new()), Err(ArchiveError::OutOfTurn)));
    match session.request() {
        FsRequest::ReadFile(path) => assert_eq!(text(&path), "/build/bot"),
        _ => panic!("the file is still to be read"),
    }
    session.supply_file(&b"x".to_vec()).unwrap();
    assert!(matches!(session.supply_file(&b"x".to_vec()), Err(ArchiveError::OutOfTurn)));
    assert!(matches!(session.supply_listing(&Vec::new()), Err(ArchiveError::OutOfTurn)));
    assert!(session.finish().is_ok());
}

fn two_bots() -> (Disk, Vec<ZipStruct>) {
    let mut disk = Disk::new();
    disk.dir("/home/one");
    disk.file("/home/one/bot.py", b"print(1)");
    disk.dir("/home/one/lib");
    disk.file("/home/one/lib/util.py", b"pass");
    disk.dir("/opt/two");
    disk.file("/opt/two/bot.exe", &[77, 90, 0, 1]);
    disk.dir("/opt/two/cache");
    let entries = vec![
        ZipStruct {
            is_dir: true,
            target_dir: "bot1".to_string(),
            target_name: String::new(),
            path: parts("/home/one"),
        },
        ZipStruct {
            is_dir: true,
            target_dir: "bot2".to_string(),
            target_name: String::new(),
            path: parts("/opt/two"),
        },
    ];
    (disk, entries)
}

#[test]
fn composite_archive_keeps_sources_apart() {
    let (disk, entries) = two_bots();
    let mut session = create_zip_package(&entries).unwrap();
    serve(&mut session, &disk);
    let unpacked = unpack(session.finish().unwrap());
    assert_eq!(
        names(&unpacked),
        vec![
            "bot1/",
            "bot2/",
            "bot1/bot.py",
            "bot1/lib/",
            "bot1/lib/util.py",
            "bot2/bot.exe",
            "bot2/cache/",
        ]
    );
    for entry in &unpacked {
        let (home, rest) = entry.name.split_once('/').unwrap();
        if rest.is_empty() || entry.is_dir {
            continue;
        }
        let source = if home == "bot1" { "/home/one" } else { "/opt/two" };
        assert_eq!(entry.data, disk.files[&format!("{source}/{rest}")]);
    }
    let top: Vec<&str> = unpacked
        .iter()
        .map(|entry| entry.name.split('/').next().unwrap())
        .collect();
    assert!(top.iter().all(|name| *name == "bot1" || *name == "bot2"));
}

#[test]
fn composite_archive_stores_files_as_executables() {
    let (disk, entries) = two_bots();
    let mut session = create_zip_package(&entries).unwrap();
    serve(&mut session, &disk);
    let unpacked = unpack(session.finish().unwrap());
    for entry in unpacked.iter().skip(2) {
        assert!(entry.stored);
        assert_eq!(entry.mode.unwrap() & 0o777, 0o755);
    }
}

#[test]
fn composite_archive_places_single_files() {
    let mut disk = Disk::new();
    disk.dir("/build");
    disk.file("/build/out.bin", b"binary");
    disk.dir("/data");
    disk.file("/data/a.txt", b"a");
    let entries = vec![
        ZipStruct {
            is_dir: false,
            target_dir: "bin".to_string(),
            target_name: "bot".to_string(),
            path: parts("/build/out.bin"),
        },
        ZipStruct {
            is_dir: true,
            target_dir: "data".to_string(),
            target_name: String::new(),
            path: parts("/data"),
        },
        ZipStruct {
            is_dir: false,
            target_dir: "bin".to_string(),
            target_name: "copy".to_string(),
            path: parts("/build/out.bin"),
        },
    ];
    let mut session = create_zip_package(&entries).unwrap();
    serve(&mut session, &disk);
    let unpacked = unpack(session.finish().unwrap());
    assert_eq!(names(&unpacked), vec!["bin/", "data/", "bin/bot", "data/a.txt", "bin/copy"]);
    assert_eq!(unpacked[2].data, b"binary");
    assert_eq!(unpacked[4].data, b"binary");
    assert!(unpacked[0].is_dir && unpacked[1].is_dir);
}

#[test]
fn composite_archive_without_sources_is_empty() {
    let session = create_zip_package(&Vec::new()).unwrap();
    assert!(matches!(session.request(), FsRequest::Done));
    assert!(unpack(session.finish().unwrap()).is_empty());
}

#[test]
fn destination_directories_are_collected_once() {
    let make = |dir: &str| ZipStruct {
        is_dir: true,
        target_dir: dir.to_string(),
        target_name: String::new(),
        path: Vec::new(),
    };
    let entries = vec![make("b"), make("a"), make("b"), make("c"), make("a")];
    assert_eq!(distinct_target_dirs(&entries), vec!["b", "a", "c"]);
    assert!(distinct_target_dirs(&Vec::new()).is_empty());
}

#[test]
fn entry_names_follow_the_walk() {
    let root = parts("/src/bot");
    assert_eq!(entry_name(&arena_common::paths::make_relative_path(&root, &parts("/src/bot/a/b"))), "a/b");
}

#[test]
fn options_resolve_their_permission_bits() {
    let plain = ArchiveOptions::deflated();
    assert_eq!(plain, ArchiveOptions { compression: Compression::Deflated, unix_mode: None });
    assert_eq!(plain.file_mode(), 0o644);
    assert_eq!(plain.directory_mode(), 0o755);
    let package = ArchiveOptions::executable();
    assert_eq!(package, ArchiveOptions { compression: Compression::Stored, unix_mode: Some(0o755) });
    assert_eq!(package.file_mode(), 0o755);
    assert_eq!(package.directory_mode(), 0o755);
}

#[test]
fn sources_can_be_copied() {
    let source = ZipStruct {
        is_dir: true,
        target_dir: "bots".to_string(),
        target_name: "one".to_string(),
        path: parts("/home/one"),
    };
    let copy = source.clone();
    assert_eq!(copy.is_dir, source.is_dir);
    assert_eq!(copy.target_dir, source.target_dir);
    assert_eq!(copy.target_name, source.target_name);
    assert_eq!(text(&copy.path), "/home/one");
}

#[test]
fn only_the_permission_bits_of_a_mode_count() {
    let options = ArchiveOptions { compression: Compression::Stored, unix_mode: Some(0o1755) };
    assert_eq!(options.file_mode(), 0o755);
    assert_eq!(options.directory_mode(), 0o755);
    let odd = ArchiveOptions { compression: Compression::Stored, unix_mode: Some(0o170644) };
    assert_eq!(odd.file_mode(), 0o644);
    let disk = sample_tree();
    let mut session = zip_directory_with_options(&parts("/src/bot"), options);
    serve(&mut session, &disk);
    for entry in unpack(session.finish().unwrap()) {
        assert_eq!(entry.mode.unwrap() & 0o7777, 0o755);
    }
}

#[test]
fn directories_are_always_stored() {
    let disk = sample_tree();
    let mut session = zip_directory(&parts("/src/bot"));
    serve(&mut session, &disk);
    for entry in unpack(session.finish().unwrap()) {
        assert_eq!(entry.stored, entry.is_dir);
    }
    let (disk, entries) = two_bots();
    let mut session = create_zip_package(&entries).unwrap();
    serve(&mut session, &disk);
    assert!(unpack(session.finish().unwrap()).iter().all(|entry| entry.stored));
}

#[test]
fn destination_is_read_part_by_part() {
    let mut disk = Disk::new();
    disk.dir("/data");
    disk.file("/data/a.txt", b"a");
    disk.dir("/data/sub");
    let entries = vec![ZipStruct {
        is_dir: true,
        target_dir: "bots/one/".to_string(),
        target_name: String::new(),
        path: parts("/data"),
    }];
    let mut session = create_zip_package(&entries).unwrap();
    serve(&mut session, &disk);
    let unpacked = unpack(session.finish().unwrap());
    assert_eq!(names(&unpacked), vec!["bots/one/", "bots/one/a.txt", "bots/one/sub/"]);
}

#[test]
fn file_sources_are_always_taken_in() {
    let make = |name: &str| ZipStruct {
        is_dir: false,
        target_dir: "bin".to_string(),
        target_name: name.to_string(),
        path: parts("/build/out.bin"),
    };
    let mut session = create_zip_package(&vec![make("a"), make("b"), make("empty")]).unwrap();
    assert!(session.supply_file(&b"first".to_vec()).is_ok());
    assert!(session.supply_file(&vec![9u8; 100_000]).is_ok());
    assert!(session.supply_file(&Vec::new()).is_ok());
    let unpacked = unpack(session.finish().unwrap());
    assert_eq!(names(&unpacked), vec!["bin/", "bin/a", "bin/b", "bin/empty"]);
    assert_eq!(unpacked[1].data, b"first");
    assert_eq!(unpacked[2].data, vec![9u8; 100_000]);
    assert!(unpacked[3].data.is_empty());
    for entry in unpacked.iter().skip(1) {
        assert!(entry.stored);
        assert_eq!(entry.mode.unwrap() & 0o777, 0o755);
    }
}

#[test]
fn listing_with_nothing_to_write_is_always_taken_in() {
    let mut session = zip_directory(&parts("/src"));
    let listing = vec![
        WalkEntry { path: parts("/src/socket"), content: EntryContent::Other },
        WalkEntry { path: parts("/src/pipe"), content: EntryContent::Other },
    ];
    assert!(session.supply_listing(&listing).is_ok());
    assert!(matches!(session.request(), FsRequest::Done));
    assert!(unpack(session.finish().unwrap()).is_empty());
}
