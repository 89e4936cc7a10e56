//! The controller, driven over files in memory.

use std::collections::{BTreeMap, BTreeSet};
use std::io::{Cursor, Write};
use std::sync::{Arc, Mutex};

use hajizip::config::AppConfig;
use hajizip::controller::{
    BreadcrumbSegment, ControllerCore, Event, ExtractProgress, Intent, Outcome, Request,
};
use hajizip::extract::{Action, Reply};
use hajizip::registry::{compose_registry, BuiltinCodecFormat, BuiltinFormat};
use hajizip::{
    decode_filename, Archive, ArchiveFormat, CancellationToken, Capabilities, Codepage,
    CodecFormat, EntryMeta, EntryPath, Error, ExtractEngine, ExtractReport, FilenameEncoding,
    GzipFormat, NodeKind, OpenOptions, OverwriteDecision, OverwritePolicy, Registry, Result,
    Source, Utf8Flag,
};

/// Files and directories in memory, and how the user decides.
#[derive(Default)]
struct World {
    archives: BTreeMap<String, Vec<u8>>,
    files: BTreeMap<String, Vec<u8>>,
    dirs: BTreeSet<String>,
    decision: Option<OverwriteDecision>,
    /// Cancelled together with the decision.
    cancel_on_ask: bool,
    /// Cancelled when this many progress events have been told.
    cancel_after: Option<usize>,
    cancel: CancelFlag,
}

struct CancelFlag(CancellationToken);

impl Default for CancelFlag {
    fn default() -> Self {
        CancelFlag(CancellationToken::new())
    }
}

impl World {
    fn with(path: &str, bytes: Vec<u8>) -> Self {
        let mut w = World::default();
        w.archives.insert(path.to_string(), bytes);
        w
    }

    /// Extract from the archive in view.
    fn extract<F: ArchiveFormat, C: CodecFormat>(
        &mut self,
        core: &ControllerCore<F, C>,
        selection: &[EntryPath],
        opts: &hajizip::ExtractOptions,
        total: u64,
        events: &mut Vec<Event>,
    ) -> Result<ExtractReport> {
        let archive = core.current().expect("an archive is open");
        let mut run = ExtractEngine::begin(archive, selection, opts)?;
        let mut progress = ExtractProgress::new(total);
        let at = |p: &EntryPath| format!("{}/{}", opts.dest_dir, p.as_str());
        let mut reply = Reply::Done;
        loop {
            reply = match run.next(reply) {
                Action::PollCancel => Reply::Answer(self.cancel.0.is_cancelled()),
                Action::EntryStarted(p, _) => {
                    events.push(Event::Progress(progress.entry_started(&p)));
                    let told = events.iter().filter(|e| matches!(e, Event::Progress(_))).count();
                    if self.cancel_after == Some(told) {
                        self.cancel.0.cancel();
                    }
                    Reply::Done
                }
                Action::EntryDone(_) => {
                    progress.entry_done();
                    Reply::Done
                }
                Action::AskOverwrite(p) => {
                    let dest = at(&p);
                    events.push(Event::AskOverwrite { path: p, dest });
                    if self.cancel_on_ask {
                        self.cancel.0.cancel();
                    }
                    Reply::Decision(self.decision.unwrap_or(OverwriteDecision::Skip))
                }
                Action::CreateDir(p) => {
                    self.dirs.insert(at(&p));
                    Reply::Done
                }
                Action::Probe(p) => Reply::Answer(self.files.contains_key(&at(&p))),
                Action::CreateFile(p) => {
                    self.files.insert(at(&p), Vec::new());
                    Reply::Done
                }
                Action::Write(p, bytes) => {
                    self.files.get_mut(&at(&p)).unwrap().extend_from_slice(&bytes);
                    progress.bytes_written(bytes.len() as u64);
                    Reply::Done
                }
                Action::Finish(outcome) => return outcome,
                Action::Nothing => unreachable!(),
                _ => Reply::Done,
            };
        }
    }

    /// Run an intent to its end, collecting emitted events.
    fn run<F: ArchiveFormat, C: CodecFormat>(
        &mut self,
        core: &mut ControllerCore<F, C>,
        intent: Intent,
    ) -> Vec<Event> {
        let mut events = Vec::new();
        let mut step = core.handle(intent);
        loop {
            for dir in &step.discard {
                self.dirs.remove(dir);
                self.files.retain(|p, _| !p.starts_with(&format!("{dir}/")));
            }
            events.extend(step.events);
            let outcome = match step.request {
                Request::Nothing => return events,
                Request::Cancel => {
                    self.cancel.0.cancel();
                    return events;
                }
                Request::ReadFile { path } => match self.archives.get(&path) {
                    Some(bytes) => Outcome::Loaded(bytes.clone()),
                    None => Outcome::Failed("No such file or directory (os error 2)".to_string()),
                },
                Request::MakePreviewDir => {
                    self.dirs.insert("/tmp/preview".to_string());
                    Outcome::PreviewDir("/tmp/preview".to_string())
                }
                Request::WritePreview { dir, name, bytes } => {
                    let path = format!("{dir}/{name}");
                    self.files.insert(path.clone(), bytes);
                    Outcome::PreviewFile(path)
                }
                Request::Extract {
                    selection,
                    opts,
                    total_bytes,
                } => Outcome::Extracted(self.extract(
                    core,
                    &selection,
                    &opts,
                    total_bytes,
                    &mut events,
                )),
            };
            step = core.resume(outcome);
        }
    }
}

/// Build a minimal file entry for tests.
fn meta(path: &str) -> EntryMeta {
    EntryMeta {
        path: EntryPath::new(path).unwrap(),
        raw_name: path.as_bytes().to_vec(),
        kind: NodeKind::File,
        uncompressed_size: Some(0),
        compressed_size: None,
        mtime: None,
        mode: None,
        crc: None,
        encrypted: false,
        comment: None,
    }
}

fn path(s: &str) -> EntryPath {
    EntryPath::new(s).unwrap()
}

/// A fake archive that simply returns a fixed entry list and synthetic bytes.
struct FakeArchive {
    entries: Vec<EntryMeta>,
}

impl Archive for FakeArchive {
    type Model = ();

    fn entries(&self) -> Result<Vec<EntryMeta>> {
        Ok(self.entries.clone())
    }
    fn find(&self, _path: &EntryPath) -> Result<EntryMeta> {
        Err(Error::UnsupportedFeature("fake".into()))
    }
    fn reader(&self, entry: &EntryMeta) -> Result<Vec<u8>> {
        Ok(vec![b'x'; entry.uncompressed_size.unwrap_or(0) as usize])
    }
    fn open_nested(&self, _entry: &EntryMeta, _opts: &OpenOptions) -> Result<Self> {
        Err(Error::UnsupportedFeature("fake".into()))
    }
    fn capabilities(&self) -> Capabilities {
        Capabilities {
            random_access: true,
            encrypted: false,
            needs_password: false,
            can_write: false,
        }
    }
}

/// A format that always matches and opens what it is told to.
enum FakeFormat {
    /// Opens a [`FakeArchive`].
    Listing(Vec<EntryMeta>),
    /// Decodes names with the requested encoding, so a refresh is observable.
    Encoding(Vec<Vec<u8>>, Arc<Mutex<Option<FilenameEncoding>>>),
    /// Demands a password.
    Locked,
}

impl ArchiveFormat for FakeFormat {
    type Opened = FakeArchive;

    fn id(&self) -> &'static str {
        "fake"
    }
    fn display_name(&self) -> &'static str {
        "Fake"
    }
    fn extensions(&self) -> &'static [&'static str] {
        &["fake"]
    }
    fn matches(&self, _head: &[u8], _ext: Option<&str>) -> bool {
        true
    }
    fn open(&self, _src: Source, opts: &OpenOptions) -> Result<FakeArchive> {
        match self {
            FakeFormat::Listing(entries) => Ok(FakeArchive {
                entries: entries.clone(),
            }),
            FakeFormat::Encoding(raw, last) => {
                *last.lock().unwrap() = Some(opts.encoding);
                let mut entries = Vec::new();
                for name in raw {
                    let mut e = meta(&decode_filename(name, opts.encoding, Utf8Flag(false))?);
                    e.raw_name = name.clone();
                    entries.push(e);
                }
                Ok(FakeArchive { entries })
            }
            FakeFormat::Locked => Err(Error::PasswordRequired),
        }
    }
}

type FakeCore = ControllerCore<FakeFormat, GzipFormat>;

fn core_with(format: FakeFormat) -> FakeCore {
    ControllerCore::new(
        Registry::new().register_archive(format),
        AppConfig::default(),
    )
}

fn empty_core() -> FakeCore {
    ControllerCore::new(Registry::new(), AppConfig::default())
}

fn open(p: &str) -> Intent {
    Intent::Open {
        path: p.to_string(),
        password: None,
    }
}

fn open_with(p: &str, password: &str) -> Intent {
    Intent::Open {
        path: p.to_string(),
        password: Some(password.to_string()),
    }
}

fn enter(p: &str) -> Intent {
    Intent::Enter { path: path(p) }
}

fn preview(p: &str) -> Intent {
    Intent::Preview { path: path(p) }
}

fn extract(selection: &[&str], dest: &str) -> Intent {
    Intent::Extract {
        selection: selection.iter().map(|s| path(s)).collect(),
        dest_dir: dest.to_string(),
    }
}

/// A world with one fake archive, and a core that has opened it.
fn opened(entries: Vec<EntryMeta>) -> (World, FakeCore) {
    let mut world = World::with("/in/a.fake", b"some archive bytes".to_vec());
    let mut core = core_with(FakeFormat::Listing(entries));
    world.run(&mut core, open("/in/a.fake"));
    (world, core)
}

#[test]
fn open_with_registered_format_emits_opened() {
    let mut world = World::with("/in/ok.fake", b"some archive bytes".to_vec());
    let mut core = core_with(FakeFormat::Listing(vec![meta("a.txt"), meta("dir/b.txt")]));
    let events = world.run(&mut core, open("/in/ok.fake"));
    match &events[..] {
        [Event::ConfigChanged(_), Event::Opened { name, entries }] => {
            assert_eq!(name, "ok.fake");
            assert_eq!(entries.len(), 2);
        }
        other => panic!("expected ConfigChanged + Opened, got {other:?}"),
    }
}

#[test]
fn open_records_recent_file_in_config() {
    let mut world = World::with("/in/recent1.fake", vec![0]);
    world.archives.insert("/in/recent2.fake".to_string(), vec![0]);
    let mut core = core_with(FakeFormat::Listing(vec![meta("a.txt")]));
    world.run(&mut core, open("/in/recent1.fake"));
    world.run(&mut core, open("/in/recent2.fake"));

    // Most recent first; duplicates are not recorded twice.
    assert_eq!(
        core.config().recent_files,
        ["/in/recent2.fake", "/in/recent1.fake"]
    );

    // Re-opening the same path moves it back to the front.
    world.run(&mut core, open("/in/recent1.fake"));
    assert_eq!(
        core.config().recent_files,
        ["/in/recent1.fake", "/in/recent2.fake"]
    );
}

#[test]
fn preview_extracts_file_to_temp_and_emits_ready() {
    let mut f = meta("photo.png");
    f.uncompressed_size = Some(5);
    let (mut world, mut core) = opened(vec![f]);
    let events = world.run(&mut core, preview("photo.png"));
    match &events[..] {
        [Event::PreviewReady { temp_path }] => {
            // The fake archive's reader yields `x` bytes.
            assert_eq!(world.files[temp_path], vec![b'x'; 5]);
        }
        other => panic!("expected PreviewReady, got {other:?}"),
    }
    // Opening another archive drops the preview.
    world.run(&mut core, open("/in/a.fake"));
    assert!(world.files.is_empty());
}

#[test]
fn preview_non_file_entry_errors() {
    let (mut world, mut core) = opened(vec![meta("dir/b.txt")]);
    // "dir" is an implied directory, not a file entry.
    let events = world.run(&mut core, preview("dir"));
    assert!(
        matches!(&events[..], [Event::Error(_)]),
        "expected Error, got {events:?}"
    );
}

#[test]
fn preview_unknown_entry_errors() {
    let (mut world, mut core) = opened(vec![meta("a.txt")]);
    let events = world.run(&mut core, preview("nope.txt"));
    assert!(
        matches!(&events[..], [Event::Error(_)]),
        "expected Error, got {events:?}"
    );
}

#[test]
fn open_with_empty_registry_emits_error() {
    let mut world = World::default();
    let mut core = empty_core();
    let events = world.run(&mut core, open("/nonexistent/definitely-missing.zip"));
    match &events[..] {
        [Event::Error(m)] => {
            assert_eq!(m, "i/o error: No such file or directory (os error 2)")
        }
        other => panic!("expected Error, got {other:?}"),
    }
    world.archives.insert("/in/x.zip".to_string(), vec![1]);
    let events = world.run(&mut core, open("/in/x.zip"));
    match &events[..] {
        [Event::Error(m)] => {
            assert_eq!(m, "unsupported format: no registered format matched")
        }
        other => panic!("expected Error, got {other:?}"),
    }
}

#[test]
fn open_encrypted_without_password_emits_password_required() {
    let mut world = World::with("/in/locked.fake", vec![0]);
    let mut core = core_with(FakeFormat::Locked);
    let events = world.run(&mut core, open("/in/locked.fake"));
    assert!(
        matches!(&events[..], [Event::PasswordRequired { .. }]),
        "expected PasswordRequired, got {events:?}"
    );
}

#[test]
fn enter_dir_emits_navigated_with_breadcrumb() {
    let (mut world, mut core) = opened(vec![meta("a.txt"), meta("dir/b.txt")]);
    let events = world.run(&mut core, enter("dir"));
    match &events[..] {
        [Event::Navigated {
            breadcrumb,
            focus,
            entries,
        }] => {
            assert_eq!(focus.as_ref().unwrap().as_str(), "dir");
            assert_eq!(breadcrumb.len(), 2); // archive name + "dir"
            assert_eq!(breadcrumb[0].label, "a.fake");
            assert_eq!(breadcrumb[1].label, "dir");
            assert_eq!(entries.len(), 2);
        }
        other => panic!("expected Navigated, got {other:?}"),
    }
}

#[test]
fn back_returns_to_root_then_is_noop() {
    let (mut world, mut core) = opened(vec![meta("a.txt"), meta("dir/sub/b.txt")]);
    // dir → dir/sub
    world.run(&mut core, enter("dir"));
    world.run(&mut core, enter("dir/sub"));
    // back → dir
    let events = world.run(&mut core, Intent::Back);
    match &events[..] {
        [Event::Navigated { focus, .. }] => {
            assert_eq!(focus.as_ref().unwrap().as_str(), "dir");
        }
        other => panic!("expected Navigated, got {other:?}"),
    }
    // back → root
    world.run(&mut core, Intent::Back);
    // back at root → no event
    let events = world.run(&mut core, Intent::Back);
    assert!(events.is_empty(), "expected no events, got {events:?}");
}

#[test]
fn enter_nested_archive_pushes_frame() {
    // The fake cannot open_nested; instead verify the error path surfaces
    // cleanly, and that a dir-implied path entry still works.
    let (mut world, mut core) = opened(vec![meta("a.txt")]);
    // Enter a file: unsupported, not a crash.
    let events = world.run(&mut core, enter("a.txt"));
    match &events[..] {
        [Event::Unsupported(m)] => assert_eq!(m, "opening 'a.txt' is not implemented yet"),
        other => panic!("expected Unsupported, got {other:?}"),
    }
    let events = world.run(&mut core, enter("nope"));
    assert!(matches!(&events[..], [Event::Error(_)]));
}

#[test]
fn jumping_cuts_the_breadcrumb() {
    let (mut world, mut core) = opened(vec![meta("dir/sub/deep/b.txt")]);
    let crumbs = |events: &[Event]| -> Vec<BreadcrumbSegment> {
        match events {
            [Event::Navigated { breadcrumb, .. }] => breadcrumb.clone(),
            other => panic!("expected Navigated, got {other:?}"),
        }
    };
    let all = crumbs(&world.run(&mut core, enter("dir/sub/deep")));
    let labels: Vec<&str> = all.iter().map(|c| c.label.as_str()).collect();
    assert_eq!(labels, ["a.fake", "dir", "sub", "deep"]);
    assert_eq!(all[2].focus.as_ref().unwrap().as_str(), "dir/sub");
    let cut = crumbs(&world.run(&mut core, Intent::JumpTo { depth: 2 }));
    assert_eq!(cut, all[..3]);
    let root = crumbs(&world.run(&mut core, Intent::JumpTo { depth: 0 }));
    assert_eq!(root, all[..1]);
    let events = world.run(&mut core, Intent::JumpTo { depth: 1 });
    assert!(matches!(&events[..], [Event::Error(_)]));
}

#[test]
fn extract_emits_progress_then_done() {
    let (mut world, mut core) = opened(vec![meta("a.txt"), meta("b.txt"), meta("c.txt")]);
    let events = world.run(&mut core, extract(&[], "/out"));
    let progress = events
        .iter()
        .filter(|e| matches!(e, Event::Progress(_)))
        .count();
    assert_eq!(progress, 3, "one progress per entry, got {events:?}");
    match events.last() {
        Some(Event::Done(report)) => {
            assert_eq!(report.extracted, 3);
            assert_eq!(report.skipped, 0);
            assert!(report.failed.is_empty());
        }
        other => panic!("expected Done, got {other:?}"),
    }
    assert!(world.files.contains_key("/out/a.txt"));
}

#[test]
fn progress_counts_bytes_and_entries() {
    let mut a = meta("a.txt");
    a.uncompressed_size = Some(5);
    let mut b = meta("b.txt");
    b.uncompressed_size = Some(7);
    let (mut world, mut core) = opened(vec![a, b]);
    let events = world.run(&mut core, extract(&[], "/out"));
    match &events[..] {
        [Event::Progress(p), Event::Progress(q), Event::Done(_)] => {
            assert_eq!((p.bytes_done, p.bytes_total, p.entries_done), (0, Some(12), 0));
            assert_eq!((q.bytes_done, q.bytes_total, q.entries_done), (5, Some(12), 1));
            assert_eq!(q.current.as_ref().unwrap().as_str(), "b.txt");
        }
        other => panic!("unexpected {other:?}"),
    }
}

#[test]
fn extract_honours_overwrite_policy() {
    let (mut world, mut core) = opened(vec![meta("a.txt")]);
    // Default policy is Ask → without a decision, existing files
    // are skipped (safe default).
    world.files.insert("/out/a.txt".to_string(), b"existing".to_vec());
    let events = world.run(&mut core, extract(&[], "/out"));
    match events.last() {
        Some(Event::Done(report)) => {
            assert_eq!(report.skipped, 1);
            assert_eq!(report.extracted, 0);
        }
        other => panic!("expected Done, got {other:?}"),
    }
    // Existing content preserved.
    assert_eq!(world.files["/out/a.txt"], b"existing");
}

#[test]
fn ask_policy_prompts_and_overwrites_on_yes() {
    let (mut world, mut core) = opened(vec![meta("a.txt")]);
    world.files.insert("/out/a.txt".to_string(), b"existing".to_vec());
    world.decision = Some(OverwriteDecision::Overwrite);
    let events = world.run(&mut core, extract(&[], "/out"));
    assert!(
        events
            .iter()
            .any(|e| matches!(e, Event::AskOverwrite { .. })),
        "expected an AskOverwrite event, got {events:?}"
    );
    match events.last() {
        Some(Event::Done(report)) => {
            assert_eq!(report.extracted, 1);
            assert_eq!(report.skipped, 0);
        }
        other => panic!("expected Done, got {other:?}"),
    }
    // The existing file was replaced by the archive entry (empty content:
    // the fake entry's uncompressed size is 0).
    assert_eq!(world.files["/out/a.txt"], b"");
}

#[test]
fn ask_policy_prompts_and_skips_on_no() {
    let (mut world, mut core) = opened(vec![meta("a.txt")]);
    world.files.insert("/out/a.txt".to_string(), b"existing".to_vec());
    world.decision = Some(OverwriteDecision::Skip);
    let events = world.run(&mut core, extract(&[], "/out"));
    assert!(
        events
            .iter()
            .any(|e| matches!(e, Event::AskOverwrite { .. })),
        "expected an AskOverwrite event, got {events:?}"
    );
    match events.last() {
        Some(Event::Done(report)) => {
            assert_eq!(report.extracted, 0);
            assert_eq!(report.skipped, 1);
        }
        other => panic!("expected Done, got {other:?}"),
    }
    // Existing content preserved.
    assert_eq!(world.files["/out/a.txt"], b"existing");
}

#[test]
fn ask_policy_cancel_aborts_the_run() {
    // The UI's behaviour on "Cancel" in the ask dialog: cancel the token
    // first, then answer with a Skip. The run must
    // abort with Cancelled instead of continuing.
    let (mut world, mut core) = opened(vec![meta("a.txt"), meta("b.txt")]);
    world.files.insert("/out/a.txt".to_string(), b"existing".to_vec());
    world.decision = Some(OverwriteDecision::Skip);
    world.cancel_on_ask = true;
    let events = world.run(&mut core, extract(&[], "/out"));
    assert!(
        events
            .iter()
            .any(|e| matches!(e, Event::AskOverwrite { .. })),
        "expected an AskOverwrite event, got {events:?}"
    );
    assert!(
        matches!(events.last(), Some(Event::Cancelled)),
        "expected Cancelled, got {events:?}"
    );
}

#[test]
fn cancel_before_extract_emits_cancelled() {
    let (mut world, mut core) = opened(vec![meta("a.txt"), meta("b.txt")]);
    // A token that was cancelled before: extraction must
    // notice it before the first entry and emit Cancelled.
    let events = world.run(&mut core, Intent::Cancel);
    assert!(matches!(&events[..], [Event::Cancelled]));
    let events = world.run(&mut core, extract(&[], "/out"));
    assert!(
        matches!(events.last(), Some(Event::Cancelled)),
        "expected Cancelled, got {events:?}"
    );
    assert!(world.files.is_empty());
}

#[test]
fn cancel_mid_extract_emits_cancelled() {
    let (mut world, mut core) = opened(vec![meta("a.txt"), meta("b.txt"), meta("c.txt")]);
    // Cancel after the first entry.
    world.cancel_after = Some(1);
    let events = world.run(&mut core, extract(&[], "/out"));
    assert!(
        matches!(events.last(), Some(Event::Cancelled)),
        "expected Cancelled, got {events:?}"
    );
}

#[test]
fn extract_selection_extracts_only_selected_files() {
    // A non-empty selection extracts exactly the chosen files, not the
    // whole archive ("extract partial files").
    let (mut world, mut core) = opened(vec![meta("a.txt"), meta("b.txt"), meta("c.txt")]);
    let events = world.run(&mut core, extract(&["a.txt", "c.txt"], "/out"));
    match events.last() {
        Some(Event::Done(report)) => {
            assert_eq!(report.extracted, 2, "only a.txt + c.txt");
            assert_eq!(report.skipped, 0);
            assert!(report.failed.is_empty());
        }
        other => panic!("expected Done, got {other:?}"),
    }
    assert!(world.files.contains_key("/out/a.txt"), "a.txt extracted");
    assert!(world.files.contains_key("/out/c.txt"), "c.txt extracted");
    assert!(!world.files.contains_key("/out/b.txt"), "b.txt must NOT be extracted");
}

#[test]
fn extract_selection_expands_directory_subtree() {
    // Selecting a directory extracts its whole subtree (GUI semantics:
    // `is_under`), while siblings outside the selection stay behind.
    let (mut world, mut core) = opened(vec![meta("a.txt"), meta("dir/b.txt"), meta("dir/sub/c.txt")]);
    let events = world.run(&mut core, extract(&["dir"], "/out"));
    match events.last() {
        Some(Event::Done(report)) => {
            assert_eq!(report.extracted, 2, "dir/b.txt + dir/sub/c.txt");
            assert!(report.failed.is_empty());
        }
        other => panic!("expected Done, got {other:?}"),
    }
    assert!(world.files.contains_key("/out/dir/b.txt"));
    assert!(world.files.contains_key("/out/dir/sub/c.txt"));
    assert!(
        !world.files.contains_key("/out/a.txt"),
        "a.txt is outside the selection"
    );
}

#[test]
fn unmatched_selection_extracts_nothing() {
    // Only an empty selection means the whole archive.
    let (mut world, mut core) = opened(vec![meta("a.txt"), meta("b.txt")]);
    let events = world.run(&mut core, extract(&["zzz"], "/out"));
    match &events[..] {
        [Event::Done(report)] => {
            assert_eq!((report.extracted, report.skipped, report.total_bytes), (0, 0, 0));
            assert!(report.failed.is_empty());
        }
        other => panic!("expected Done, got {other:?}"),
    }
    assert!(world.files.is_empty() && world.dirs.is_empty());
}

#[test]
fn the_same_file_by_another_path_is_one_recent_file() {
    let mut world = World::with("/in/a.fake", vec![0]);
    world.archives.insert("/in//a.fake".to_string(), vec![0]);
    world.archives.insert("/in/./a.fake".to_string(), vec![0]);
    let mut core = core_with(FakeFormat::Listing(vec![meta("a.txt")]));
    for path in ["/in/a.fake", "/in//a.fake", "/in/./a.fake"] {
        let events = world.run(&mut core, open(path));
        assert!(matches!(&events[1], Event::Opened { name, .. } if name == "a.fake"));
        assert_eq!(core.config().recent_files, [path]);
    }
}

#[test]
fn set_encoding_updates_config() {
    let mut world = World::default();
    let mut core = empty_core();
    assert_eq!(core.config().filename_encoding, FilenameEncoding::Auto);
    let events = world.run(
        &mut core,
        Intent::SetEncoding(FilenameEncoding::Forced(Codepage::Gbk)),
    );
    assert_eq!(
        core.config().filename_encoding,
        FilenameEncoding::Forced(Codepage::Gbk)
    );
    assert!(
        matches!(&events[..], [Event::ConfigChanged(_)]),
        "expected ConfigChanged, got {events:?}"
    );
}

#[test]
fn set_encoding_refreshes_open_archive() {
    let last_encoding = Arc::new(Mutex::new(None));
    let mut world = World::with("/in/enc.fake", vec![0]);
    let mut core = core_with(FakeFormat::Encoding(
        vec![b"hello.txt".to_vec()],
        last_encoding.clone(),
    ));
    world.run(&mut core, open("/in/enc.fake"));
    assert_eq!(*last_encoding.lock().unwrap(), Some(FilenameEncoding::Auto));

    let events = world.run(
        &mut core,
        Intent::SetEncoding(FilenameEncoding::Forced(Codepage::Utf8)),
    );
    // ConfigChanged then a fresh Opened from the re-open.
    assert_eq!(
        *last_encoding.lock().unwrap(),
        Some(FilenameEncoding::Forced(Codepage::Utf8))
    );
    assert!(
        matches!(
            &events[..],
            [
                Event::ConfigChanged(_),
                Event::ConfigChanged(_),
                Event::Opened { .. }
            ]
        ),
        "expected ConfigChanged + ConfigChanged + Opened, got {events:?}"
    );
}

#[test]
fn config_intents_emit_config_changed() {
    let mut world = World::default();
    let mut core = empty_core();
    let events = world.run(&mut core, Intent::SetOverwrite(OverwritePolicy::Always));
    assert!(matches!(&events[..], [Event::ConfigChanged(_)]));
    assert_eq!(core.config().overwrite_policy, OverwritePolicy::Always);

    let events = world.run(&mut core, Intent::SetPreserveMtime(false));
    assert!(matches!(&events[..], [Event::ConfigChanged(_)]));
    assert!(!core.config().preserve_mtime);
}

#[test]
fn nothing_works_without_an_archive() {
    let mut world = World::default();
    let mut core = empty_core();
    for intent in [
        enter("a"),
        Intent::Back,
        preview("a"),
        extract(&[], "/out"),
    ] {
        match &world.run(&mut core, intent)[..] {
            [Event::Error(m)] => assert_eq!(m, "no archive open"),
            other => panic!("expected Error, got {other:?}"),
        }
    }
    assert!(core.current().is_none());
}

// ---- End-to-end with real formats ----

type RealCore = ControllerCore<BuiltinFormat, BuiltinCodecFormat>;

fn real_core() -> RealCore {
    ControllerCore::new(compose_registry(), AppConfig::default())
}

const A_TXT: &[u8] = b"Hello, hajizip!\n";
const B_TXT: &[u8] = b"nested content\n";

fn zip_of(files: &[(&str, Option<&[u8]>)]) -> Vec<u8> {
    let mut w = zip::ZipWriter::new(Cursor::new(Vec::new()));
    let opts = zip::write::SimpleFileOptions::default();
    for (name, content) in files {
        match content {
            Some(bytes) => {
                w.start_file(*name, opts).unwrap();
                w.write_all(bytes).unwrap();
            }
            None => w.add_directory(*name, opts).unwrap(),
        }
    }
    w.finish().unwrap().into_inner()
}

fn basic_zip() -> Vec<u8> {
    zip_of(&[
        ("a.txt", Some(A_TXT)),
        ("dir/", None),
        ("dir/b.txt", Some(B_TXT)),
    ])
}

fn basic_tar() -> Vec<u8> {
    let mut b = tar::Builder::new(Vec::new());
    for (name, bytes) in [("a.txt", A_TXT), ("dir/b.txt", B_TXT)] {
        let mut h = tar::Header::new_gnu();
        h.set_size(bytes.len() as u64);
        b.append_data(&mut h, name, bytes).unwrap();
    }
    let mut h = tar::Header::new_gnu();
    h.set_entry_type(tar::EntryType::Directory);
    h.set_size(0);
    b.append_data(&mut h, "dir", &b""[..]).unwrap();
    b.into_inner().unwrap()
}

fn gzip(bytes: &[u8]) -> Vec<u8> {
    let mut w = flate2::write::GzEncoder::new(Vec::new(), flate2::Compression::default());
    w.write_all(bytes).unwrap();
    w.finish().unwrap()
}

fn xz(bytes: &[u8]) -> Vec<u8> {
    let mut w =
        lzma_rust2::XzWriter::new(Vec::new(), lzma_rust2::XzOptions::with_preset(1)).unwrap();
    w.write_all(bytes).unwrap();
    w.finish().unwrap()
}

fn basic_7z(password: Option<&str>) -> Vec<u8> {
    let mut w = sevenz_rust2::ArchiveWriter::new(Cursor::new(Vec::new())).unwrap();
    if let Some(p) = password {
        let aes =
            sevenz_rust2::encoder_options::AesEncoderOptions::new(sevenz_rust2::Password::new(p));
        w.set_content_methods(vec![aes.into(), sevenz_rust2::EncoderMethod::LZMA2.into()]);
        w.set_encrypt_header(true);
    }
    for (name, bytes) in [("a.txt", A_TXT), ("dir/b.txt", B_TXT)] {
        let e = sevenz_rust2::ArchiveEntry::new_file(name);
        w.push_archive_entry(e, Some(bytes)).unwrap();
    }
    let e = sevenz_rust2::ArchiveEntry::new_directory("dir");
    w.push_archive_entry::<&[u8]>(e, None).unwrap();
    w.finish().unwrap().into_inner()
}

/// A RAR archive whose members are encrypted, under a plain header.
fn encrypted_rar() -> Vec<u8> {
    let mut b = rars::Builder::new(rars::ArchiveVersion::Rar50).password(Some(b"test".to_vec()));
    b.add_bytes(b"photo.jpg".to_vec(), vec![7; 3000], None, None).unwrap();
    b.add_bytes(b"text.txt".to_vec(), vec![b't'; 2118], None, None).unwrap();
    let resources =
        rars::WriterResources::default().with_temp_dir(std::path::Path::new("/tmp"));
    b.to_bytes_with_resources(&resources, None).unwrap()
}

fn listed(events: &[Event]) -> Vec<EntryMeta> {
    match events {
        [Event::ConfigChanged(_), Event::Opened { entries, .. }] => entries.clone(),
        other => panic!("expected ConfigChanged + Opened, got {other:?}"),
    }
}

fn done(events: &[Event]) -> &ExtractReport {
    match events.last() {
        Some(Event::Done(report)) => report,
        other => panic!("expected Done, got {other:?}"),
    }
}

#[test]
fn real_zip_extract_selection_only_writes_chosen_files() {
    // Partial extraction against a real archive: selecting only a.txt must
    // not materialize dir/b.txt.
    let mut world = World::with("basic.zip", basic_zip());
    let mut core = real_core();
    world.run(&mut core, open("basic.zip"));
    let events = world.run(&mut core, extract(&["a.txt"], "/out"));
    let report = done(&events);
    assert_eq!(report.extracted, 1, "only a.txt");
    assert!(report.failed.is_empty());
    assert!(world.files.contains_key("/out/a.txt"));
    assert!(
        !world.files.contains_key("/out/dir/b.txt"),
        "dir/b.txt is not in the selection"
    );
}

#[test]
fn real_zip_opens_navigates_and_extracts() {
    let mut world = World::with("basic.zip", basic_zip());
    let mut core = real_core();
    let entries = listed(&world.run(&mut core, open("basic.zip")));
    assert_eq!(entries.len(), 3, "a.txt + dir/ + dir/b.txt");

    // Enter the dir/ directory → Navigated with a breadcrumb.
    let events = world.run(&mut core, enter("dir"));
    match &events[..] {
        [Event::Navigated {
            breadcrumb, focus, ..
        }] => {
            assert_eq!(focus.as_ref().unwrap().as_str(), "dir");
            assert_eq!(breadcrumb.len(), 2, "archive name + dir");
        }
        other => panic!("expected Navigated, got {other:?}"),
    }

    // Back to the root, then extract everything.
    world.run(&mut core, Intent::Back);
    let events = world.run(&mut core, extract(&[], "/out"));
    let report = done(&events);
    assert_eq!(report.extracted, 3, "2 files + 1 dir");
    assert_eq!(report.skipped, 0);
    assert!(report.failed.is_empty(), "failed: {:?}", report.failed);
    assert_eq!(world.files["/out/a.txt"].len(), 16);
    assert_eq!(world.files["/out/dir/b.txt"].len(), 15);
    assert!(world.dirs.contains("/out/dir"));
}

#[test]
fn real_tar_gz_opens_through_the_codec_chain() {
    let mut core = real_core();
    for name in ["basic.tar.gz", "hello.tgz"] {
        let mut world = World::with(name, gzip(&basic_tar()));
        let entries = listed(&world.run(&mut core, open(name)));
        assert_eq!(entries.len(), 3, "{name} should list a.txt/dir/dir-b.txt");
    }
}

#[test]
fn real_bare_gzip_is_rejected_gracefully() {
    let mut world = World::with("hello.txt.gz", gzip(A_TXT));
    let events = world.run(&mut real_core(), open("hello.txt.gz"));
    assert!(
        matches!(&events[..], [Event::Error(_)]),
        "expected a graceful Error, got {events:?}"
    );
}

#[test]
fn real_encrypted_zip_lists_but_extraction_fails_gracefully() {
    let mut bytes = zip_of(&[("a.txt", Some(A_TXT))]);
    for i in 0..bytes.len() - 8 {
        if bytes[i..i + 4] == *b"PK\x03\x04" {
            bytes[i + 6] |= 1;
        } else if bytes[i..i + 4] == *b"PK\x01\x02" {
            bytes[i + 8] |= 1;
        }
    }
    let mut world = World::with("enc.zip", bytes);
    let mut core = real_core();
    let entries = listed(&world.run(&mut core, open("enc.zip")));
    assert_eq!(entries.len(), 1);
    assert!(entries[0].encrypted);

    // Encrypted entries cannot be read; the run must finish with the
    // failure recorded, not crash.
    let events = world.run(&mut core, extract(&[], "/out"));
    let report = done(&events);
    assert_eq!(report.failed.len(), 1);
    assert_eq!(report.extracted, 0);
}

#[test]
fn real_sevenz_opens_navigates_and_extracts() {
    let mut world = World::with("basic.7z", basic_7z(None));
    let mut core = real_core();
    let entries = listed(&world.run(&mut core, open("basic.7z")));
    assert_eq!(entries.len(), 3, "a.txt + dir/ + dir/b.txt");

    // Enter dir/ → Navigated with a breadcrumb, then back to the root.
    let events = world.run(&mut core, enter("dir"));
    match &events[..] {
        [Event::Navigated {
            focus, breadcrumb, ..
        }] => {
            assert_eq!(focus.as_ref().unwrap().as_str(), "dir");
            assert_eq!(breadcrumb.len(), 2, "archive name + dir");
        }
        other => panic!("expected Navigated, got {other:?}"),
    }
    world.run(&mut core, Intent::Back);

    // Extract everything and verify the bytes on disk.
    let events = world.run(&mut core, extract(&[], "/out"));
    let report = done(&events);
    assert_eq!(report.extracted, 3, "2 files + 1 dir");
    assert!(report.failed.is_empty(), "failed: {:?}", report.failed);
    assert_eq!(world.files["/out/a.txt"].len(), 16);
    assert_eq!(world.files["/out/dir/b.txt"].len(), 15);
}

#[test]
fn real_tar_xz_opens_through_the_codec_chain() {
    let mut world = World::with("basic.tar.xz", xz(&basic_tar()));
    let entries = listed(&world.run(&mut real_core(), open("basic.tar.xz")));
    assert_eq!(entries.len(), 3, "tar.xz should list a.txt/dir/dir-b.txt");
}

#[test]
fn real_bare_xz_is_rejected_gracefully() {
    let mut world = World::with("hello.txt.xz", xz(A_TXT));
    let events = world.run(&mut real_core(), open("hello.txt.xz"));
    assert!(
        matches!(&events[..], [Event::Error(_)]),
        "expected a graceful Error, got {events:?}"
    );
}

#[test]
fn real_encrypted_7z_password_flow() {
    let mut world = World::with("enc.7z", basic_7z(Some("secret")));
    let mut core = real_core();

    // enc.7z encrypts its header: opening without a password asks for one.
    let events = world.run(&mut core, open("enc.7z"));
    assert!(
        matches!(&events[..], [Event::PasswordRequired { .. }]),
        "expected PasswordRequired, got {events:?}"
    );

    // The right password opens it fully…
    let entries = listed(&world.run(&mut core, open_with("enc.7z", "secret")));
    assert_eq!(entries.len(), 3);

    // …and extraction decodes the encrypted content.
    let events = world.run(&mut core, extract(&[], "/out"));
    let report = done(&events);
    assert_eq!(report.extracted, 3);
    assert!(report.failed.is_empty(), "failed: {:?}", report.failed);
    assert_eq!(world.files["/out/a.txt"].len(), 16);
}

#[test]
fn real_content_encrypted_rar_prompts_for_password_on_open() {
    // Only the member data is encrypted: it opens and lists without a password, but the
    // controller must still prompt so preview/extraction don't fail per read.
    let mut world = World::with("rar5-enc.rar", encrypted_rar());
    let events = world.run(&mut real_core(), open("rar5-enc.rar"));
    assert!(
        matches!(
            &events[..],
            [
                Event::ConfigChanged(_),
                Event::Opened { .. },
                Event::PasswordRequired { .. }
            ]
        ),
        "expected ConfigChanged + Opened + PasswordRequired, got {events:?}"
    );
}

#[test]
fn real_content_encrypted_rar_preview_prompts_then_retries_with_password() {
    let mut world = World::with("rar5-enc.rar", encrypted_rar());
    let mut core = real_core();
    // Open without a password: the archive lists fine (plain header).
    world.run(&mut core, open("rar5-enc.rar"));
    // Preview without a password → PasswordRequired, not a dead-end
    // Error, and no temp file is left behind.
    let events = world.run(&mut core, preview("text.txt"));
    assert!(
        matches!(&events[..], [Event::PasswordRequired { .. }]),
        "expected PasswordRequired, got {events:?}"
    );
    assert!(
        world.dirs.is_empty() && world.files.is_empty(),
        "failed preview must not leave temp files"
    );

    // Submitting the password re-opens the archive and automatically
    // retries the pending preview.
    let events = world.run(&mut core, open_with("rar5-enc.rar", "test"));
    match &events[..] {
        [Event::ConfigChanged(_), Event::Opened { .. }, Event::PreviewReady { temp_path }] => {
            assert_eq!(world.files[temp_path].len(), 2118);
        }
        other => panic!("expected ConfigChanged + Opened + PreviewReady, got {other:?}"),
    }
}

#[test]
fn real_content_encrypted_rar_wrong_password_keeps_pending_preview() {
    let mut world = World::with("rar5-enc.rar", encrypted_rar());
    let mut core = real_core();
    world.run(&mut core, open("rar5-enc.rar"));
    // Preview triggers a password prompt…
    world.run(&mut core, preview("text.txt"));
    // …a wrong password is rejected (dialog stays up)…
    let events = world.run(&mut core, open_with("rar5-enc.rar", "nope"));
    assert!(
        matches!(&events[..], [Event::WrongPassword { .. }]),
        "expected WrongPassword, got {events:?}"
    );
    // …and the right one afterwards retries the pending preview.
    let events = world.run(&mut core, open_with("rar5-enc.rar", "test"));
    match &events[..] {
        [Event::ConfigChanged(_), Event::Opened { .. }, Event::PreviewReady { .. }] => {}
        other => panic!("expected ConfigChanged + Opened + PreviewReady, got {other:?}"),
    }
}

#[test]
fn real_content_encrypted_rar_extract_prompts_then_retries_with_password() {
    let mut world = World::with("rar5-enc.rar", encrypted_rar());
    let mut core = real_core();
    // Open without a password (the archive lists fine; the open prompt
    // is dismissed by the test).
    world.run(&mut core, open("rar5-enc.rar"));
    // Extracting encrypted entries without a password defers the run and
    // asks for a password instead of failing per entry.
    let events = world.run(&mut core, extract(&[], "/out"));
    assert!(
        matches!(&events[..], [Event::PasswordRequired { .. }]),
        "expected PasswordRequired, got {events:?}"
    );
    assert!(world.files.is_empty(), "deferred run must not extract");

    // Submitting the password re-opens the archive and retries the run.
    let events = world.run(&mut core, open_with("rar5-enc.rar", "test"));
    let report = done(&events);
    assert_eq!(report.extracted, 2);
    assert!(report.failed.is_empty(), "failed: {:?}", report.failed);
    assert_eq!(world.files["/out/text.txt"].len(), 2118);
}

#[test]
fn real_nested_encrypted_rar_preview_retries_through_chain() {
    let outer = zip_of(&[("rar5-enc.rar", Some(&encrypted_rar()))]);
    let mut world = World::with("nested-enc-rar.zip", outer);
    let mut core = real_core();
    // Open the outer (plain) zip and enter the nested content-encrypted
    // rar; previewing a member without a password must prompt and
    // remember the nested chain.
    world.run(&mut core, open("nested-enc-rar.zip"));
    world.run(&mut core, enter("rar5-enc.rar"));
    let events = world.run(&mut core, preview("text.txt"));
    assert!(
        matches!(&events[..], [Event::PasswordRequired { .. }]),
        "expected PasswordRequired, got {events:?}"
    );

    // Opening the OUTER archive with the password re-enters the chain
    // (Navigated) and retries the preview automatically.
    let events = world.run(&mut core, open_with("nested-enc-rar.zip", "test"));
    match &events[..] {
        [Event::ConfigChanged(_), Event::Opened { .. }, Event::Navigated { .. }, Event::PreviewReady { temp_path }] => {
            assert_eq!(world.files[temp_path].len(), 2118);
        }
        other => {
            panic!("expected ConfigChanged + Opened + Navigated + PreviewReady, got {other:?}")
        }
    }
}
