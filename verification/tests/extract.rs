//! Extraction runs, driven over a disk in memory.

use std::collections::{BTreeMap, BTreeSet};
use std::io::{Cursor, Write};

use hajizip::extract::{Action, Reply};
use hajizip::{
    Archive, BuiltinRegistry, CancellationToken, EntryMeta, EntryPath, Error, ExtractEngine,
    ExtractOptions, ExtractReport, NodeKind, OpenOptions, OpenedArchive, OverwriteDecision,
    OverwritePolicy, ProgressSink, Result, SafetyLimits, Source, Timestamp,
};

fn zip_of(files: &[(&str, Option<&[u8]>)]) -> Vec<u8> {
    let mut w = zip::ZipWriter::new(Cursor::new(Vec::new()));
    let at = zip::DateTime::from_date_and_time(2024, 2, 29, 12, 34, 56).unwrap();
    let opts = zip::write::SimpleFileOptions::default().last_modified_time(at);
    for (name, content) in files {
        match content {
            Some(bytes) => {
                w.start_file(*name, opts).unwrap();
                w.write_all(bytes).unwrap();
            }
            None => w.add_directory(*name, opts).unwrap(),
        }
    }
    w.finish().unwrap().into_inner()
}

fn open(bytes: Vec<u8>) -> OpenedArchive {
    BuiltinRegistry::with_all_formats()
        .open_archive(Source::Memory(bytes), &OpenOptions::default())
        .expect("opens")
}

fn basic() -> OpenedArchive {
    open(zip_of(&[
        ("a.txt", Some(b"Hello, hajizip!\n")),
        ("dir/", None),
        ("dir/b.txt", Some(b"nested content\n")),
    ]))
}

/// A disk in memory, under the destination directory.
#[derive(Default)]
struct Disk {
    made: bool,
    dirs: BTreeSet<String>,
    files: BTreeMap<String, Vec<u8>>,
    times: BTreeMap<String, Timestamp>,
    /// Directories whose time was restored, in order.
    restored: Vec<String>,
    /// Writing this file fails.
    broken: Option<String>,
}

impl Disk {
    fn with(name: &str, bytes: &[u8]) -> Self {
        let mut d = Disk::default();
        d.files.insert(name.to_string(), bytes.to_vec());
        d
    }

    /// Perform one action, as far as it concerns the disk.
    fn perform(&mut self, action: &Action) -> Reply {
        match action {
            Action::CreateDestination => {
                self.made = true;
                Reply::Done
            }
            Action::CreateDir(p) => {
                self.dirs.insert(p.as_str().to_string());
                Reply::Done
            }
            Action::CreateParent(p) => {
                if let Some(parent) = p.parent() {
                    self.dirs.insert(parent.as_str().to_string());
                }
                Reply::Done
            }
            Action::Probe(p) => Reply::Answer(self.files.contains_key(p.as_str())),
            Action::QueryModified(p) => Reply::Modified(self.times.get(p.as_str()).copied()),
            Action::CreateFile(p) => {
                self.files.insert(p.as_str().to_string(), Vec::new());
                Reply::Done
            }
            Action::Write(p, bytes) => {
                if self.broken.as_deref() == Some(p.as_str()) {
                    return Reply::Failed("disk full".to_string());
                }
                self.files
                    .get_mut(p.as_str())
                    .expect("open file")
                    .extend_from_slice(bytes);
                Reply::Done
            }
            Action::SetModified(p, t) => {
                self.times.insert(p.as_str().to_string(), *t);
                Reply::Done
            }
            Action::RestoreDirTime(p, t) => {
                self.times.insert(p.as_str().to_string(), *t);
                self.restored.push(p.as_str().to_string());
                Reply::Done
            }
            _ => Reply::Done,
        }
    }
}

/// Extract onto a disk, telling a progress sink and asking a token.
fn run<A: Archive, P: ProgressSink>(
    archive: &A,
    selection: &[&str],
    opts: ExtractOptions,
    disk: &mut Disk,
    progress: &mut P,
    cancel: &CancellationToken,
) -> Result<ExtractReport> {
    let selection: Vec<EntryPath> = selection
        .iter()
        .map(|s| EntryPath::new(s).expect("valid selection path"))
        .collect();
    let mut run = ExtractEngine::begin(archive, &selection, &opts)?;
    let mut reply = Reply::Done;
    loop {
        let action = run.next(reply);
        reply = match &action {
            Action::PollCancel => Reply::Answer(cancel.is_cancelled()),
            Action::EntryStarted(p, size) => {
                progress.on_entry_start(p, *size);
                Reply::Done
            }
            Action::EntryDone(p) => {
                progress.on_entry_done(p);
                Reply::Done
            }
            Action::AskOverwrite(p) => {
                let dest = format!("{}/{}", opts.dest_dir, p.as_str());
                Reply::Decision(progress.on_ask_overwrite(p, &dest))
            }
            Action::Write(_, bytes) => {
                let reply = disk.perform(&action);
                if matches!(reply, Reply::Done) {
                    progress.on_bytes(bytes.len() as u64);
                }
                reply
            }
            Action::Finish(_) => break match action {
                Action::Finish(outcome) => outcome,
                _ => unreachable!(),
            },
            _ => disk.perform(&action),
        };
    }
}

/// A progress sink recording events for assertions.
#[derive(Default)]
struct Recorder {
    events: Vec<String>,
    bytes: u64,
    overwrite: bool,
}

impl ProgressSink for Recorder {
    fn on_entry_start(&mut self, path: &EntryPath, size: Option<u64>) {
        self.events
            .push(format!("start:{}:{size:?}", path.as_str()));
    }
    fn on_bytes(&mut self, delta: u64) {
        self.bytes += delta;
        self.events.push(format!("bytes:{delta}"));
    }
    fn on_entry_done(&mut self, path: &EntryPath) {
        self.events.push(format!("done:{}", path.as_str()));
    }
    fn on_ask_overwrite(&mut self, path: &EntryPath, dest: &str) -> OverwriteDecision {
        self.events.push(format!("ask:{}:{dest}", path.as_str()));
        if self.overwrite {
            OverwriteDecision::Overwrite
        } else {
            OverwriteDecision::Skip
        }
    }
}

/// A sink that cancels the run after the first entry completes, and leaves asking to the default.
struct CancelAfterFirst {
    cancel: CancellationToken,
    done: u64,
}

impl ProgressSink for CancelAfterFirst {
    fn on_entry_start(&mut self, _path: &EntryPath, _size: Option<u64>) {}
    fn on_bytes(&mut self, _delta: u64) {}
    fn on_entry_done(&mut self, _path: &EntryPath) {
        self.done += 1;
        if self.done == 1 {
            self.cancel.cancel();
        }
    }
}

fn options() -> ExtractOptions {
    ExtractOptions {
        dest_dir: "/out".to_string(),
        ..Default::default()
    }
}

#[test]
fn cancellation_token_roundtrip() {
    let token = CancellationToken::new();
    assert!(!token.is_cancelled());
    let clone = token.clone();
    clone.cancel();
    assert!(token.is_cancelled());
}

#[test]
fn default_limits_are_sane() {
    let limits = SafetyLimits::default();
    assert!(limits.max_total_bytes > 0);
    assert!(limits.max_entries > 0);
    assert!(limits.max_depth > 0);
}

#[test]
fn extract_all_from_zip() {
    let archive = basic();
    let mut disk = Disk::default();
    let mut rec = Recorder::default();
    let report = run(
        &archive,
        &[],
        options(),
        &mut disk,
        &mut rec,
        &CancellationToken::new(),
    )
    .expect("extracts");
    assert_eq!(report.extracted, 3); // a.txt + dir/ + dir/b.txt
    assert_eq!(report.skipped, 0);
    assert!(report.failed.is_empty());
    assert_eq!(report.total_bytes, 31);
    assert!(disk.made);
    assert_eq!(disk.files["a.txt"], b"Hello, hajizip!\n");
    assert_eq!(disk.files["dir/b.txt"], b"nested content\n");
    assert!(disk.dirs.contains("dir"));
    // Progress events are ordered per entry and the byte total is correct.
    let bytes: u64 = rec
        .events
        .iter()
        .filter_map(|e| e.strip_prefix("bytes:").map(|s| s.parse::<u64>().unwrap()))
        .sum();
    assert_eq!(bytes, 31);
    assert_eq!(rec.bytes, 31);
    assert_eq!(
        rec.events,
        [
            "start:a.txt:Some(16)",
            "bytes:16",
            "done:a.txt",
            "start:dir:Some(0)",
            "done:dir",
            "start:dir/b.txt:Some(15)",
            "bytes:15",
            "done:dir/b.txt",
        ]
    );
}

#[test]
fn extract_all_from_tar_gz() {
    let mut b = tar::Builder::new(Vec::new());
    for (name, bytes) in [("a.txt", &b"Hello, hajizip!\n"[..]), ("dir/b.txt", b"nested content\n")] {
        let mut h = tar::Header::new_gnu();
        h.set_size(bytes.len() as u64);
        h.set_mode(0o644);
        b.append_data(&mut h, name, bytes).unwrap();
    }
    let mut h = tar::Header::new_gnu();
    h.set_entry_type(tar::EntryType::Directory);
    h.set_size(0);
    b.append_data(&mut h, "dir", &b""[..]).unwrap();
    let mut w = flate2::write::GzEncoder::new(Vec::new(), flate2::Compression::default());
    w.write_all(&b.into_inner().unwrap()).unwrap();
    let archive = open(w.finish().unwrap());
    let mut disk = Disk::default();
    let report = run(
        &archive,
        &[],
        options(),
        &mut disk,
        &mut Recorder::default(),
        &CancellationToken::new(),
    )
    .expect("extracts");
    assert_eq!(report.extracted, 3);
    assert_eq!(disk.files["a.txt"], b"Hello, hajizip!\n");
}

#[test]
fn extract_selection_only() {
    let archive = basic();
    let mut disk = Disk::default();
    let report = run(
        &archive,
        &["a.txt"],
        options(),
        &mut disk,
        &mut Recorder::default(),
        &CancellationToken::new(),
    )
    .expect("extracts");
    assert_eq!(report.extracted, 1);
    assert!(disk.files.contains_key("a.txt"));
    assert!(!disk.files.contains_key("dir/b.txt"));
}

#[test]
fn unknown_selection_entry_fails_run() {
    let archive = basic();
    let mut disk = Disk::default();
    let err = run(
        &archive,
        &["nope.txt"],
        options(),
        &mut disk,
        &mut Recorder::default(),
        &CancellationToken::new(),
    )
    .expect_err("must fail");
    assert!(matches!(err, Error::CorruptArchive(_)));
    assert_eq!(
        err.message(),
        "corrupt archive: no such entry in archive: nope.txt"
    );
    assert!(!disk.made);
}

#[test]
fn overwrite_never_and_ask_skip_existing() {
    for policy in [OverwritePolicy::Never, OverwritePolicy::Ask] {
        let archive = basic();
        let mut disk = Disk::with("a.txt", b"stale");
        let report = run(
            &archive,
            &[],
            ExtractOptions {
                overwrite: policy,
                ..options()
            },
            &mut disk,
            &mut Recorder::default(),
            &CancellationToken::new(),
        )
        .expect("extracts");
        assert_eq!(report.skipped, 1, "a.txt must be skipped ({policy:?})");
        assert_eq!(disk.files["a.txt"], b"stale");
        // Other entries are still extracted.
        assert_eq!(disk.files["dir/b.txt"], b"nested content\n");
    }
}

#[test]
fn a_sink_that_is_not_asked_skips() {
    let mut sink = CancelAfterFirst {
        cancel: CancellationToken::new(),
        done: 0,
    };
    let path = EntryPath::new("a.txt").unwrap();
    assert_eq!(
        sink.on_ask_overwrite(&path, "/out/a.txt"),
        OverwriteDecision::Skip
    );
    assert!(!sink.cancel.is_cancelled());
    assert_eq!(sink.done, 0);
}

#[test]
fn asking_can_overwrite() {
    let archive = basic();
    let mut disk = Disk::with("a.txt", b"stale");
    let mut rec = Recorder {
        overwrite: true,
        ..Default::default()
    };
    let report = run(
        &archive,
        &[],
        options(),
        &mut disk,
        &mut rec,
        &CancellationToken::new(),
    )
    .expect("extracts");
    assert_eq!(report.skipped, 0);
    assert_eq!(disk.files["a.txt"], b"Hello, hajizip!\n");
    assert!(rec.events.contains(&"ask:a.txt:/out/a.txt".to_string()));
}

#[test]
fn overwrite_always_overwrites() {
    let archive = basic();
    let mut disk = Disk::with("a.txt", b"stale");
    let report = run(
        &archive,
        &[],
        ExtractOptions {
            overwrite: OverwritePolicy::Always,
            ..options()
        },
        &mut disk,
        &mut Recorder::default(),
        &CancellationToken::new(),
    )
    .expect("extracts");
    assert_eq!(report.skipped, 0);
    assert_eq!(disk.files["a.txt"], b"Hello, hajizip!\n");
}

#[test]
fn overwrite_newer_compares_mtimes() {
    let archive = basic();
    let mtime = archive
        .entries()
        .expect("entries")
        .iter()
        .find(|e| e.path.as_str() == "a.txt")
        .and_then(|e| e.mtime)
        .expect("zip mtime");
    let newer = |disk: &mut Disk| {
        run(
            &archive,
            &[],
            ExtractOptions {
                overwrite: OverwritePolicy::Newer,
                ..options()
            },
            disk,
            &mut Recorder::default(),
            &CancellationToken::new(),
        )
        .expect("extracts")
    };

    // Destination newer than the source, or as old: skip.
    for later in [60, 0] {
        let mut disk = Disk::with("a.txt", b"newer");
        disk.times.insert(
            "a.txt".to_string(),
            Timestamp {
                secs: mtime.secs + later,
                nanos: 0,
            },
        );
        assert_eq!(newer(&mut disk).skipped, 1);
        assert_eq!(disk.files["a.txt"], b"newer");
    }

    // Destination older than the source: overwrite.
    let mut disk = Disk::with("a.txt", b"older");
    disk.times.insert(
        "a.txt".to_string(),
        Timestamp {
            secs: mtime.secs - 60,
            nanos: 0,
        },
    );
    assert_eq!(newer(&mut disk).skipped, 0);
    assert_eq!(disk.files["a.txt"], b"Hello, hajizip!\n");

    // Destination whose time cannot be read: overwrite.
    let mut disk = Disk::with("a.txt", b"unknown");
    assert_eq!(newer(&mut disk).skipped, 0);
    assert_eq!(disk.files["a.txt"], b"Hello, hajizip!\n");
}

#[test]
fn preserve_mtime_sets_file_times() {
    let archive = basic();
    let mut disk = Disk::default();
    run(
        &archive,
        &[],
        ExtractOptions {
            preserve_mtime: true,
            ..options()
        },
        &mut disk,
        &mut Recorder::default(),
        &CancellationToken::new(),
    )
    .expect("extracts");
    let entries = archive.entries().expect("entries");
    for e in &entries {
        if e.kind == NodeKind::Dir {
            continue; // dir mtimes are best-effort
        }
        let on_disk = disk.times[e.path.as_str()];
        assert_eq!(on_disk, e.mtime.expect("source mtime"), "{}", e.path.as_str());
    }
}

#[test]
fn directory_times_are_restored_deepest_first() {
    let archive = open(zip_of(&[
        ("a/", None),
        ("b/", None),
        ("a/b/", None),
        ("a/b/c/", None),
        ("b/c/", None),
    ]));
    let mut disk = Disk::default();
    run(
        &archive,
        &[],
        ExtractOptions {
            preserve_mtime: true,
            ..options()
        },
        &mut disk,
        &mut Recorder::default(),
        &CancellationToken::new(),
    )
    .expect("extracts");
    assert_eq!(disk.restored, ["a/b/c", "a/b", "b/c", "a", "b"]);
}

#[test]
fn create_top_folder_is_a_contract_gap() {
    let archive = basic();
    let err = run(
        &archive,
        &[],
        ExtractOptions {
            create_top_folder: true,
            ..options()
        },
        &mut Disk::default(),
        &mut Recorder::default(),
        &CancellationToken::new(),
    )
    .expect_err("must fail");
    assert!(matches!(err, Error::UnsupportedFeature(_)));
}

#[test]
fn cancel_mid_run_returns_cancelled() {
    let names: Vec<String> = (0..300).map(|i| format!("f{i}.txt")).collect();
    let files: Vec<(&str, Option<&[u8]>)> = names
        .iter()
        .map(|n| (n.as_str(), Some(&b"x"[..])))
        .collect();
    let archive = open(zip_of(&files));
    let cancel = CancellationToken::new();
    let mut sink = CancelAfterFirst {
        cancel: cancel.clone(),
        done: 0,
    };
    let mut disk = Disk::default();
    let err = run(&archive, &[], options(), &mut disk, &mut sink, &cancel)
        .expect_err("must cancel");
    assert!(matches!(err, Error::Cancelled));
    assert_eq!(disk.files.len(), 1);
}

#[test]
fn byte_limit_exceeded_aborts() {
    let archive = basic();
    let limits = SafetyLimits {
        max_total_bytes: 10, // a.txt alone is 16 bytes
        ..SafetyLimits::default()
    };
    let mut rec = Recorder::default();
    let err = run(
        &archive,
        &[],
        ExtractOptions {
            limits,
            ..options()
        },
        &mut Disk::default(),
        &mut rec,
        &CancellationToken::new(),
    )
    .expect_err("must abort");
    assert!(matches!(err, Error::LimitExceeded(_)));
    // A run that ends does not report its entry as done.
    assert_eq!(rec.events, ["start:a.txt:Some(16)"]);
}

#[test]
fn entry_limit_exceeded_aborts() {
    let archive = basic();
    let limits = SafetyLimits {
        max_entries: 2,
        ..SafetyLimits::default()
    };
    let err = run(
        &archive,
        &[],
        ExtractOptions {
            limits,
            ..options()
        },
        &mut Disk::default(),
        &mut Recorder::default(),
        &CancellationToken::new(),
    )
    .expect_err("must abort");
    assert!(matches!(err, Error::LimitExceeded(_)));
}

/// A zip archive whose records say that they are encrypted.
fn locked_zip() -> Vec<u8> {
    let mut bytes = zip_of(&[("a.txt", Some(b"Hello, hajizip!\n"))]);
    let mut i = 0;
    while i + 4 <= bytes.len() {
        if bytes[i..i + 4] == *b"PK\x03\x04" {
            bytes[i + 6] |= 1;
        } else if bytes[i..i + 4] == *b"PK\x01\x02" {
            bytes[i + 8] |= 1;
        }
        i += 1;
    }
    bytes
}

#[test]
fn failing_entry_is_recorded_not_aborting() {
    // The only entry is encrypted; reading it fails with
    // UnsupportedFeature, which must land in the report's `failed` list.
    let archive = open(locked_zip());
    assert!(archive.capabilities().encrypted);
    assert!(!archive.capabilities().needs_password);
    let report = run(
        &archive,
        &[],
        options(),
        &mut Disk::default(),
        &mut Recorder::default(),
        &CancellationToken::new(),
    )
    .expect("run completes");
    assert_eq!(report.extracted, 0);
    assert_eq!(report.failed.len(), 1);
    assert_eq!(report.failed[0].0.as_str(), "a.txt");
    assert!(matches!(report.failed[0].1, Error::UnsupportedFeature(_)));
}

#[test]
fn failing_disk_is_recorded_not_aborting() {
    let archive = basic();
    let mut disk = Disk {
        broken: Some("a.txt".to_string()),
        ..Default::default()
    };
    let mut rec = Recorder::default();
    let report = run(
        &archive,
        &[],
        options(),
        &mut disk,
        &mut rec,
        &CancellationToken::new(),
    )
    .expect("run completes");
    assert_eq!(report.extracted, 2);
    assert_eq!(report.failed.len(), 1);
    assert_eq!(report.failed[0].1.message(), "i/o error: disk full");
    assert!(rec.events.contains(&"done:a.txt".to_string()));
}

#[test]
fn symlink_entries_are_skipped() {
    let mut b = tar::Builder::new(Vec::new());
    let mut h = tar::Header::new_gnu();
    h.set_entry_type(tar::EntryType::Symlink);
    h.set_size(0);
    b.append_link(&mut h, "link", "/etc/passwd").unwrap();
    let archive = open(b.into_inner().unwrap());
    let mut disk = Disk::default();
    let report = run(
        &archive,
        &[],
        options(),
        &mut disk,
        &mut Recorder::default(),
        &CancellationToken::new(),
    )
    .expect("extracts");
    assert_eq!(report.skipped, 1);
    assert_eq!(report.extracted, 0);
    // No symlink is materialized (it pointed at /etc/passwd).
    assert!(disk.files.is_empty());
}

#[test]
fn zipslip_entries_never_reach_disk() {
    let archive = open(zip_of(&[
        ("../evil.txt", Some(b"evil")),
        ("ok.txt", Some(b"ok")),
    ]));
    let mut disk = Disk::default();
    let report = run(
        &archive,
        &[],
        options(),
        &mut disk,
        &mut Recorder::default(),
        &CancellationToken::new(),
    )
    .expect("extracts");
    // Only the legit entry is listed/extracted; the traversal entry was
    // dropped at listing time.
    assert_eq!(report.extracted, 1);
    assert_eq!(disk.files["ok.txt"], b"ok");
    assert!(!disk.files.keys().any(|k| k.contains("evil")));
}

#[test]
fn engine_and_report_are_send() {
    fn assert_send<T: Send>() {}
    assert_send::<ExtractEngine>();
    assert_send::<ExtractReport>();
    assert_send::<CancellationToken>();
    assert_send::<SafetyLimits>();
}

/// An archive with one large entry.
struct Large(usize);

impl Archive for Large {
    type Model = ();

    fn entries(&self) -> Result<Vec<EntryMeta>> {
        Ok(vec![EntryMeta {
            path: EntryPath::new("big").unwrap(),
            raw_name: b"big".to_vec(),
            kind: NodeKind::File,
            uncompressed_size: None,
            compressed_size: None,
            mtime: None,
            mode: None,
            crc: None,
            encrypted: false,
            comment: None,
        }])
    }
    fn find(&self, _path: &EntryPath) -> Result<EntryMeta> {
        Err(Error::UnsupportedFeature("fake".into()))
    }
    fn reader(&self, _entry: &EntryMeta) -> Result<Vec<u8>> {
        Ok((0..self.0).map(|i| i as u8).collect())
    }
    fn open_nested(&self, _entry: &EntryMeta, _opts: &OpenOptions) -> Result<Self> {
        Err(Error::UnsupportedFeature("fake".into()))
    }
    fn capabilities(&self) -> hajizip::Capabilities {
        hajizip::Capabilities {
            random_access: true,
            encrypted: false,
            needs_password: false,
            can_write: false,
        }
    }
}

#[test]
fn large_files_come_in_chunks() {
    let archive = Large(150_000);
    let mut disk = Disk::default();
    let mut rec = Recorder::default();
    let report = run(
        &archive,
        &[],
        options(),
        &mut disk,
        &mut rec,
        &CancellationToken::new(),
    )
    .expect("extracts");
    assert_eq!(report.total_bytes, 150_000);
    assert_eq!(disk.files["big"], archive.reader(&archive.entries().unwrap()[0]).unwrap());
    assert_eq!(
        rec.events,
        ["start:big:None", "bytes:65536", "bytes:65536", "bytes:18928", "done:big"]
    );
    // Exactly the limit is allowed, one byte less is not.
    for (limit, ok) in [(150_000, true), (149_999, false)] {
        let limits = SafetyLimits {
            max_total_bytes: limit,
            ..SafetyLimits::default()
        };
        let outcome = run(
            &archive,
            &[],
            ExtractOptions {
                limits,
                ..options()
            },
            &mut Disk::default(),
            &mut Recorder::default(),
            &CancellationToken::new(),
        );
        assert_eq!(outcome.is_ok(), ok);
    }
}

#[test]
fn a_run_that_is_over_stays_over() {
    let archive = Large(0);
    let mut run = ExtractEngine::begin(&archive, &[], &options()).unwrap();
    assert!(matches!(run.next(Reply::Done), Action::CreateDestination));
    let end = run.next(Reply::Failed("read-only".to_string()));
    match end {
        Action::Finish(Err(e)) => assert_eq!(e.message(), "i/o error: read-only"),
        _ => panic!("the run must end"),
    }
    assert!(matches!(run.next(Reply::Done), Action::Nothing));
}
