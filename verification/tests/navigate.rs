//! The navigator and the walk, over archives built here.

use std::io::{Cursor, Write};

use hajizip::walk::{walk, WalkOptions};
use hajizip::{
    Archive, Browse, BuiltinRegistry, Capabilities, EntryMeta, EntryPath, Error, Location,
    Navigator, Node, NodeKind, OpenOptions, OpenedArchive, Result, Source,
};

const A_TXT: &[u8] = b"Hello, hajizip!\n";
const B_TXT: &[u8] = b"nested content\n";

fn zip_of(files: &[(&str, Option<&[u8]>)]) -> Vec<u8> {
    let mut w = zip::ZipWriter::new(Cursor::new(Vec::new()));
    let opts = zip::write::SimpleFileOptions::default();
    for (name, content) in files {
        match content {
            Some(bytes) => {
                w.start_file(*name, opts).unwrap();
                w.write_all(bytes).unwrap();
            }
            None => w.add_directory(*name, opts).unwrap(),
        }
    }
    w.finish().unwrap().into_inner()
}

fn tar_of(files: &[(&str, Option<&[u8]>)]) -> Vec<u8> {
    let mut b = tar::Builder::new(Vec::new());
    for (name, content) in files {
        let mut h = tar::Header::new_gnu();
        h.set_mode(0o644);
        h.set_mtime(1_700_000_000);
        match content {
            Some(bytes) => {
                h.set_size(bytes.len() as u64);
                b.append_data(&mut h, name, *bytes).unwrap();
            }
            None => {
                h.set_entry_type(tar::EntryType::Directory);
                h.set_size(0);
                b.append_data(&mut h, name, &b""[..]).unwrap();
            }
        }
    }
    b.into_inner().unwrap()
}

fn sevenz_of(files: &[(&str, Option<&[u8]>)], method: sevenz_rust2::EncoderMethod) -> Vec<u8> {
    let mut w = sevenz_rust2::ArchiveWriter::new(Cursor::new(Vec::new())).unwrap();
    w.set_content_methods(vec![method.into()]);
    for (name, content) in files {
        match content {
            Some(bytes) => {
                let e = sevenz_rust2::ArchiveEntry::new_file(name);
                w.push_archive_entry(e, Some(*bytes)).unwrap();
            }
            None => {
                let e = sevenz_rust2::ArchiveEntry::new_directory(name);
                w.push_archive_entry::<&[u8]>(e, None).unwrap();
            }
        }
    }
    w.finish().unwrap().into_inner()
}

fn gzip(bytes: &[u8]) -> Vec<u8> {
    let mut w = flate2::write::GzEncoder::new(Vec::new(), flate2::Compression::default());
    w.write_all(bytes).unwrap();
    w.finish().unwrap()
}

fn xz(bytes: &[u8]) -> Vec<u8> {
    let mut w =
        lzma_rust2::XzWriter::new(Vec::new(), lzma_rust2::XzOptions::with_preset(1)).unwrap();
    w.write_all(bytes).unwrap();
    w.finish().unwrap()
}

/// `a.txt`, `dir` and `dir/b.txt`.
fn basic() -> [(&'static str, Option<&'static [u8]>); 3] {
    [
        ("a.txt", Some(A_TXT)),
        ("dir/", None),
        ("dir/b.txt", Some(B_TXT)),
    ]
}

fn basic_zip() -> Vec<u8> {
    zip_of(&basic())
}

fn nested_zip() -> Vec<u8> {
    zip_of(&[
        ("inner.zip", Some(&basic_zip())),
        ("top.txt", Some(b"top\n")),
    ])
}

fn nested_tar() -> Vec<u8> {
    tar_of(&[("inner.tar.gz", Some(&gzip(&tar_of(&basic()))))])
}

fn file(name: &str, bytes: Vec<u8>) -> Source {
    Source::Path {
        path: name.to_string(),
        bytes,
    }
}

fn open_root(name: &str, bytes: Vec<u8>) -> Navigator<OpenedArchive> {
    Navigator::open_root(
        &BuiltinRegistry::with_all_formats(),
        file(name, bytes),
        &OpenOptions::default(),
    )
    .expect("opens")
}

fn entry_by_path<'a>(entries: &'a [EntryMeta], path: &str) -> &'a EntryMeta {
    entries
        .iter()
        .find(|e| e.path.as_str() == path)
        .expect("entry present")
}

fn entry_paths<A: Archive>(archive: &A) -> Vec<String> {
    let mut v: Vec<String> = archive
        .entries()
        .expect("entries")
        .into_iter()
        .map(|e| e.path.as_str().to_owned())
        .collect();
    v.sort();
    v
}

fn walk_locations<A: Archive>(archive: &A, opts: WalkOptions) -> Vec<String> {
    walk(archive, opts)
        .collect()
        .into_iter()
        .map(|item| item.expect("walk item").location.0)
        .collect()
}

/// A fake archive whose only entry looks like a nested archive but fails to
/// open; `walk` must surface the failure rather than silently dropping it.
struct BrokenNested;

impl Archive for BrokenNested {
    type Model = ();

    fn entries(&self) -> Result<Vec<EntryMeta>> {
        Ok(vec![EntryMeta {
            path: EntryPath::new("inner.zip").unwrap(),
            raw_name: b"inner.zip".to_vec(),
            kind: NodeKind::Archive,
            uncompressed_size: Some(1),
            compressed_size: None,
            mtime: None,
            mode: None,
            crc: None,
            encrypted: false,
            comment: None,
        }])
    }

    fn find(&self, _p: &EntryPath) -> Result<EntryMeta> {
        Err(Error::UnsupportedFeature("fake".into()))
    }

    fn reader(&self, _e: &EntryMeta) -> Result<Vec<u8>> {
        Err(Error::UnsupportedFeature("fake".into()))
    }

    fn open_nested(&self, _e: &EntryMeta, _o: &OpenOptions) -> Result<Self> {
        Err(Error::CorruptArchive("broken inner archive".into()))
    }

    fn capabilities(&self) -> Capabilities {
        Capabilities {
            random_access: true,
            encrypted: false,
            needs_password: false,
            can_write: false,
        }
    }
}

#[test]
fn open_root_lists_zip() {
    let nav = open_root("basic.zip", basic_zip());
    assert_eq!(nav.breadcrumb().len(), 1);
    assert_eq!(nav.breadcrumb()[0].focus, None);
    let archive = nav.current().expect("current");
    assert_eq!(entry_paths(archive), ["a.txt", "dir", "dir/b.txt"]);
}

#[test]
fn open_root_opens_tar_gz_via_builtin_registry() {
    let nav = open_root("basic.tar.gz", gzip(&tar_of(&basic())));
    let archive = nav.current().expect("current");
    assert_eq!(entry_paths(archive), ["a.txt", "dir", "dir/b.txt"]);
}

#[test]
fn open_root_opens_tar_xz_via_builtin_registry() {
    let nav = open_root("basic.tar.xz", xz(&tar_of(&basic())));
    let archive = nav.current().expect("current");
    assert_eq!(entry_paths(archive), ["a.txt", "dir", "dir/b.txt"]);
}

#[test]
fn open_root_opens_7z() {
    let nav = open_root(
        "basic.7z",
        sevenz_of(&basic(), sevenz_rust2::EncoderMethod::LZMA2),
    );
    let archive = nav.current().expect("current");
    assert_eq!(entry_paths(archive), ["a.txt", "dir", "dir/b.txt"]);
}

#[test]
fn open_root_opens_zstd_7z() {
    let nav = open_root(
        "zstd.7z",
        sevenz_of(&basic(), sevenz_rust2::EncoderMethod::ZSTD),
    );
    let archive = nav.current().expect("current");
    assert_eq!(entry_paths(archive), ["a.txt", "dir", "dir/b.txt"]);
    let a = archive.find(&EntryPath::new("a.txt").unwrap()).unwrap();
    assert_eq!(archive.reader(&a).unwrap(), A_TXT);
}

#[test]
fn open_root_rejects_unknown_format() {
    match Navigator::open_root(
        &BuiltinRegistry::with_all_formats(),
        file("corrupt.zip", b"this is no zip archive".to_vec()),
        &Default::default(),
    ) {
        Err(Error::UnsupportedFormat(_) | Error::CorruptArchive(_)) => {}
        Ok(_) => panic!("expected open failure"),
        Err(e) => panic!("expected format/corrupt error, got {}", e.message()),
    }
}

#[test]
fn enter_dir_moves_focus_and_back_clears_it() {
    let mut nav = open_root("basic.zip", basic_zip());
    let entries = nav.current().expect("current").entries().expect("entries");
    let dir = entry_by_path(&entries, "dir");
    assert_eq!(dir.kind, NodeKind::Dir);
    nav.enter(dir).expect("enter dir");
    assert_eq!(nav.breadcrumb().len(), 1);
    assert_eq!(
        nav.breadcrumb()[0].focus.as_ref().expect("focus").as_str(),
        "dir"
    );
    nav.back().expect("back");
    assert_eq!(nav.breadcrumb()[0].focus, None);
}

#[test]
fn enter_nested_archive_pushes_level_and_back_pops() {
    let mut nav = open_root("nested.zip", nested_zip());
    let entries = nav.current().expect("current").entries().expect("entries");
    let inner = entry_by_path(&entries, "inner.zip");
    assert_eq!(inner.kind, NodeKind::Archive, "nested zip must be marked");

    nav.enter(inner).expect("enter nested zip");
    assert_eq!(nav.breadcrumb().len(), 2);
    let nested = nav.current().expect("current");
    assert_eq!(entry_paths(nested), ["a.txt", "dir", "dir/b.txt"]);

    nav.back().expect("back");
    assert_eq!(nav.breadcrumb().len(), 1);
    assert_eq!(
        entry_paths(nav.current().expect("current")),
        ["inner.zip", "top.txt"]
    );
}

#[test]
fn enter_nested_7z_pushes_level_and_back_pops() {
    // nested.7z holds four nested archives; entering one shows its contents.
    let bytes = sevenz_of(
        &[
            ("inner.zip", Some(&basic_zip())),
            ("inner.tar", Some(&tar_of(&basic()))),
            ("inner.tar.gz", Some(&gzip(&tar_of(&basic())))),
            ("inner.tar.xz", Some(&xz(&tar_of(&basic())))),
        ],
        sevenz_rust2::EncoderMethod::LZMA2,
    );
    let mut nav = open_root("nested.7z", bytes);
    let entries = nav.current().expect("current").entries().expect("entries");
    let inner = entry_by_path(&entries, "inner.tar.xz");
    assert_eq!(
        inner.kind,
        NodeKind::Archive,
        "nested tar.xz must be marked"
    );

    nav.enter(inner).expect("enter nested tar.xz");
    assert_eq!(nav.breadcrumb().len(), 2);
    assert_eq!(
        entry_paths(nav.current().expect("current")),
        ["a.txt", "dir", "dir/b.txt"]
    );
    nav.back().expect("back");
    assert_eq!(nav.breadcrumb().len(), 1);
}

#[test]
fn breadcrumb_spans_three_levels() {
    // nested.tar -> inner.tar.gz (a basic tar) -> enter dir -> breadcrumbs.
    let mut nav = open_root("nested.tar", nested_tar());
    let entries = nav.current().expect("current").entries().expect("entries");
    let inner = entry_by_path(&entries, "inner.tar.gz");
    assert_eq!(
        inner.kind,
        NodeKind::Archive,
        "nested tar.gz must be marked"
    );
    nav.enter(inner).expect("enter tar.gz");

    let entries = nav.current().expect("current").entries().expect("entries");
    let dir = entry_by_path(&entries, "dir");
    assert_eq!(dir.kind, NodeKind::Dir);
    nav.enter(dir).expect("enter dir");

    // 3 frames: outer tar, inner tar.gz (focus None), dir focus.
    assert_eq!(nav.breadcrumb().len(), 2);
    assert_eq!(
        nav.breadcrumb()[1].focus.as_ref().expect("focus").as_str(),
        "dir"
    );
    // The "current view" is the focused directory's children (`entries()`
    // itself always returns the full flat listing by contract).
    let current = nav.current().expect("current");
    let node = current
        .node(&EntryPath::new("dir").expect("valid"))
        .expect("dir node");
    let children = node.children().expect("children");
    assert_eq!(children.len(), 1);
    assert_eq!(children[0].meta().path.as_str(), "dir/b.txt");

    nav.back().expect("back");
    assert_eq!(nav.breadcrumb()[1].focus, None);
    nav.back().expect("back");
    assert_eq!(nav.breadcrumb().len(), 1);
}

#[test]
fn enter_plain_file_fails() {
    let mut nav = open_root("nested.zip", nested_zip());
    let entries = nav.current().expect("current").entries().expect("entries");
    let file = entry_by_path(&entries, "top.txt");
    assert_eq!(file.kind, NodeKind::File);
    assert!(nav.enter(file).is_err());
    assert_eq!(nav.breadcrumb().len(), 1);
}

#[test]
fn enter_symlink_fails() {
    let mut b = tar::Builder::new(Vec::new());
    let mut h = tar::Header::new_gnu();
    h.set_entry_type(tar::EntryType::Symlink);
    h.set_size(0);
    h.set_mode(0o777);
    b.append_link(&mut h, "link", "a.txt").unwrap();
    let mut nav = open_root("sym.tar", b.into_inner().unwrap());
    let entries = nav.current().expect("current").entries().expect("entries");
    let link = entry_by_path(&entries, "link");
    assert_eq!(link.kind, NodeKind::Symlink);
    let e = nav.enter(link).unwrap_err();
    assert_eq!(e.message(), "corrupt archive: cannot enter a symlink: link");
}

#[test]
fn back_at_top_level_fails() {
    let mut nav = open_root("basic.zip", basic_zip());
    assert!(nav.back().is_err());
    assert_eq!(nav.breadcrumb().len(), 1);
}

#[test]
fn current_on_empty_stack_fails() {
    // An empty navigator is not constructible: `open_root` always leaves one frame.
    let nav = open_root("basic.zip", basic_zip());
    assert!(nav.current().is_ok());
}

#[test]
fn walk_flat_lists_all_entries() {
    let archive = open_root("basic.zip", basic_zip());
    let locations = walk_locations(archive.current().expect("current"), WalkOptions::default());
    assert_eq!(locations, ["a.txt", "dir", "dir/b.txt"]);
}

#[test]
fn walk_recurse_descends_into_nested_archives() {
    let archive = open_root("nested.zip", nested_zip());
    let opts = WalkOptions {
        recurse_nested_archives: true,
        ..Default::default()
    };
    let mut locations = walk_locations(archive.current().expect("current"), opts);
    // DFS pre-order: inner.zip first (with its subtree), then top.txt.
    assert_eq!(
        locations,
        [
            "inner.zip",
            "inner.zip/a.txt",
            "inner.zip/dir",
            "inner.zip/dir/b.txt",
            "top.txt",
        ]
    );
    locations.sort();
    assert_eq!(
        locations,
        [
            "inner.zip",
            "inner.zip/a.txt",
            "inner.zip/dir",
            "inner.zip/dir/b.txt",
            "top.txt",
        ]
    );
}

#[test]
fn walk_reports_nested_open_failures() {
    let opts = WalkOptions {
        recurse_nested_archives: true,
        ..Default::default()
    };
    let mut items = walk(&BrokenNested, opts);
    // The nested entry itself is yielded first...
    let first = items.next().expect("first item").expect("ok");
    assert_eq!(first.meta.path.as_str(), "inner.zip");
    // ...then the open failure is reported instead of being swallowed.
    match items.next() {
        Some(Err(Error::CorruptArchive(_))) => {}
        other => panic!("expected a reported nested-open error, got {other:?}"),
    }
    assert!(items.next().is_none(), "no further items");
    assert!(items.next().is_none(), "the end is the end");
}

#[test]
fn walk_no_recurse_stays_flat() {
    let archive = open_root("nested.zip", nested_zip());
    let locations = walk_locations(archive.current().expect("current"), WalkOptions::default());
    assert_eq!(locations, ["inner.zip", "top.txt"]);
}

#[test]
fn walk_max_depth_limits_nesting() {
    // deep.zip -> level1.zip -> level2.zip (basic content).
    let level1 = zip_of(&[("level2.zip", Some(&basic_zip()))]);
    let archive = open_root("deep.zip", zip_of(&[("level1.zip", Some(&level1))]));
    let shallow = WalkOptions {
        recurse_nested_archives: true,
        max_depth: 1,
        ..Default::default()
    };
    let locations = walk_locations(archive.current().expect("current"), shallow);
    assert!(locations.contains(&"level1.zip".to_string()));
    assert!(locations.contains(&"level1.zip/level2.zip".to_string()));
    assert!(
        !locations
            .iter()
            .any(|l| l.contains("level1.zip/level2.zip/")),
        "depth 2 must not be reached: {locations:?}"
    );

    let deep = WalkOptions {
        recurse_nested_archives: true,
        max_depth: 4,
        ..Default::default()
    };
    let locations = walk_locations(archive.current().expect("current"), deep);
    assert!(locations.contains(&"level1.zip/level2.zip/a.txt".to_string()));
}

#[test]
fn walk_item_kinds_and_nested_marks() {
    let archive = open_root("nested.tar", nested_tar());
    let items: Vec<_> = walk(
        archive.current().expect("current"),
        WalkOptions {
            recurse_nested_archives: true,
            ..Default::default()
        },
    )
    .collect()
    .into_iter()
    .map(|i| i.expect("item"))
    .collect();
    // inner.tar.gz is an Archive entry; its contents are prefixed.
    assert!(items
        .iter()
        .any(|i| i.meta.kind == NodeKind::Archive && i.meta.path.as_str() == "inner.tar.gz"));
    assert!(items.iter().any(|i| i.location.0 == "inner.tar.gz/a.txt"));
    let location = items
        .iter()
        .find(|i| i.location.0 == "inner.tar.gz/a.txt")
        .expect("nested file");
    assert_eq!(location.meta.kind, NodeKind::File);
}

#[test]
fn walk_max_total_entries_stops_with_limit_error() {
    let names: Vec<String> = (0..150).map(|i| format!("f{i}.txt")).collect();
    let files: Vec<(&str, Option<&[u8]>)> = names
        .iter()
        .map(|n| (n.as_str(), Some(&b"x"[..])))
        .collect();
    let archive = open_root("many.zip", zip_of(&files));
    let opts = WalkOptions {
        max_total_entries: 100,
        ..Default::default()
    };
    let results: Vec<Result<_>> = walk(archive.current().expect("current"), opts).collect();
    assert_eq!(results.len(), 101);
    assert!(results[..100].iter().all(|r| r.is_ok()));
    assert!(matches!(results[100], Err(Error::LimitExceeded(_))));
    match &results[100] {
        Err(e) => assert_eq!(
            e.message(),
            "safety limit exceeded: SafetyLimits { max_total_bytes: 17179869184, max_entries: 100, max_depth: 8 }"
        ),
        Ok(_) => unreachable!(),
    }
}

#[test]
fn walk_items_are_clone_and_debug() {
    let archive = open_root("basic.zip", basic_zip());
    let item = walk(archive.current().expect("current"), WalkOptions::default())
        .next()
        .expect("first item")
        .expect("ok");
    let _ = item.clone();
    let _ = format!("{item:?}");
    let _ = Location("x".into());
}

#[test]
fn nodes_read_and_open_what_they_stand_for() {
    let nav = open_root("nested.zip", nested_zip());
    let archive = nav.current().unwrap();
    let root = archive.root();
    assert_eq!(root.kind(), NodeKind::Dir);
    let top = root.children().unwrap();
    let names: Vec<&str> = top.iter().map(|n| n.meta().path.as_str()).collect();
    assert_eq!(names, ["inner.zip", "top.txt"]);
    assert_eq!(top[1].reader().unwrap(), b"top\n");
    assert!(top[1].children().unwrap().is_empty());
    let inner = top[0].open_archive(&OpenOptions::default()).unwrap();
    assert_eq!(entry_paths(&inner), ["a.txt", "dir", "dir/b.txt"]);
    let missing = archive.node(&EntryPath::new("nope").unwrap());
    assert_eq!(
        missing.err().unwrap().message(),
        "corrupt archive: no such entry in zip: nope"
    );
    let dir = inner.node(&EntryPath::new("dir").unwrap()).unwrap();
    assert_eq!(dir.reader().unwrap(), b"");
    assert_eq!(
        dir.open_archive(&OpenOptions::default()).err().unwrap().message(),
        "corrupt archive: directory is not an archive"
    );
}

#[test]
fn every_format_reads_what_was_written() {
    let b = EntryPath::new("dir/b.txt").unwrap();
    for (name, bytes) in [
        ("basic.zip", basic_zip()),
        ("basic.tar", tar_of(&basic())),
        (
            "basic.7z",
            sevenz_of(&basic(), sevenz_rust2::EncoderMethod::LZMA2),
        ),
    ] {
        let nav = open_root(name, bytes);
        let archive = nav.current().unwrap();
        let entry = archive.find(&b).unwrap();
        assert_eq!(entry.kind, NodeKind::File);
        assert_eq!(entry.uncompressed_size, Some(B_TXT.len() as u64));
        assert_eq!(entry.raw_name, b"dir/b.txt");
        assert_eq!(archive.reader(&entry).unwrap(), B_TXT, "{name}");
        let mut sink = b"> ".to_vec();
        assert_eq!(archive.extract_to(&entry, &mut sink).unwrap(), 15);
        assert_eq!(sink, b"> nested content\n");
        let dir = archive.find(&EntryPath::new("dir").unwrap()).unwrap();
        assert_eq!(dir.kind, NodeKind::Dir);
        assert_eq!(archive.reader(&dir).unwrap(), b"");
        assert!(!archive.capabilities().encrypted);
        assert!(!archive.capabilities().can_write);
        // What is no archive cannot be opened as one.
        let e = archive.open_nested(&entry, &OpenOptions::default()).err().unwrap();
        assert_eq!(
            e.message(),
            "unsupported format: nested entry is not a recognized archive format"
        );
    }
}

#[test]
fn tar_headers_carry_times_and_modes() {
    let nav = open_root("basic.tar", tar_of(&basic()));
    let a = nav
        .current()
        .unwrap()
        .find(&EntryPath::new("a.txt").unwrap())
        .unwrap();
    assert_eq!(a.mtime.unwrap().secs, 1_700_000_000);
    assert_eq!(a.mode, Some(0o644));
    assert_eq!(a.crc, None);
}

#[test]
fn zip_records_carry_checksums_and_times() {
    let mut w = zip::ZipWriter::new(Cursor::new(Vec::new()));
    let at = zip::DateTime::from_date_and_time(2024, 2, 29, 12, 34, 56).unwrap();
    let opts = zip::write::SimpleFileOptions::default()
        .last_modified_time(at)
        .unix_permissions(0o600);
    w.start_file("../evil.txt", opts).unwrap();
    w.write_all(b"evil").unwrap();
    w.start_file("a.txt", opts).unwrap();
    w.write_all(b"Hello").unwrap();
    let nav = open_root("times.zip", w.finish().unwrap().into_inner());
    let archive = nav.current().unwrap();
    // The unsafe path is not listed, and does not shift what is read.
    assert_eq!(entry_paths(archive), ["a.txt"]);
    let a = archive.find(&EntryPath::new("a.txt").unwrap()).unwrap();
    assert_eq!(archive.reader(&a).unwrap(), b"Hello");
    assert_eq!(a.crc, Some(0xf7d1_8982));
    assert_eq!(a.mtime.unwrap().secs, 19_782 * 86_400 + 45_296);
    assert_eq!(a.mode.unwrap() & 0o777, 0o600);
}

#[test]
fn legacy_zip_names_are_detected_together() {
    // Two Shift-JIS names, one too short to tell by itself, and a UTF-8 one.
    let names: [&[u8]; 3] = [
        b"\x96\x7b.txt",
        b"\x83\x45\x83\x89\x83\x8c\x83\x5e\x83\x45\x83\x93.exe",
        "日本.txt".as_bytes(),
    ];
    let stand_ins = ["XX.txt", "YYYYYYYYYYYY.exe", "ZZZZZZ.txt"];
    let files: Vec<(&str, Option<&[u8]>)> =
        stand_ins.iter().map(|n| (*n, Some(&b"x"[..]))).collect();
    let mut bytes = zip_of(&files);
    for (from, to) in stand_ins.iter().zip(names) {
        assert_eq!(from.len(), to.len());
        let mut i = 0;
        while i + to.len() <= bytes.len() {
            if &bytes[i..i + to.len()] == from.as_bytes() {
                bytes[i..i + to.len()].copy_from_slice(to);
            }
            i += 1;
        }
    }
    let nav = open_root("legacy.zip", bytes);
    assert_eq!(
        entry_paths(nav.current().unwrap()),
        ["ウラレタウン.exe", "日本.txt", "本.txt"]
    );
}

#[test]
fn walking_a_listing_gives_each_entry_at_its_path() {
    let nav = open_root("nested.zip", nested_zip());
    let archive = nav.current().unwrap();
    let flat = walk_locations(archive, WalkOptions::default());
    let listed: Vec<String> = archive
        .entries()
        .unwrap()
        .iter()
        .map(|e| e.path.as_str().to_string())
        .collect();
    assert_eq!(flat, listed);
    // Exactly as many entries as allowed still end with the limit.
    let two = WalkOptions {
        max_total_entries: 2,
        ..Default::default()
    };
    let steps = walk(archive, two).collect();
    assert_eq!(steps.len(), 3);
    assert!(steps[2].is_err());
}
