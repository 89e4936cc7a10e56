//! Extraction engine: which entries are written where, in which order and under which limits.
//!
//! The engine itself touches no disk. A run is a state machine: it names the next [`Action`], its
//! driver performs it and hands back the [`Reply`], until the run has finished.

use std::sync::atomic::{AtomicBool, Ordering};
use std::sync::Arc;

use vstd::prelude::*;
use vstd::slice::{slice_subrange, slice_to_vec};
use vstd::string::*;

use crate::archive::Archive;
use crate::error::{Error, ErrorView, Result};
use crate::model::{is_normal, views, EntryMeta, EntryPath, EntryView, NodeKind, Timestamp};
use crate::text::{chars_of, concat2};

verus! {

/// Chunk size for progress-reporting copies.
pub const COPY_CHUNK: usize = 65_536;

/// How to handle existing files at the destination.
#[derive(Debug, Clone, Copy, PartialEq, Eq, Structural)]
pub enum OverwritePolicy {
    /// Ask the user per conflict.
    Ask,
    /// Always overwrite.
    Always,
    /// Never overwrite.
    Never,
    /// Overwrite only if the source is newer.
    Newer,
}

impl Default for OverwritePolicy {
    fn default() -> (r: Self)
        ensures
            r == OverwritePolicy::Ask,
    {
        OverwritePolicy::Ask
    }
}

/// The user's decision for an existing destination file when the overwrite policy is
/// [`OverwritePolicy::Ask`].
#[derive(Debug, Clone, Copy, PartialEq, Eq, Structural)]
pub enum OverwriteDecision {
    /// Replace the existing file with the archive entry.
    Overwrite,
    /// Leave the existing file untouched (counted as skipped).
    Skip,
}

/// Safety limits guarding against zip-bombs and runaway recursion.
#[derive(Debug, Clone, Copy, PartialEq, Eq, Structural)]
pub struct SafetyLimits {
    /// Maximum total uncompressed bytes across the whole run.
    pub max_total_bytes: u64,
    /// Maximum number of entries processed.
    pub max_entries: u64,
    /// Maximum nested-archive depth.
    pub max_depth: usize,
}

/// The limits that apply where none are given.
pub open spec fn default_limits() -> SafetyLimits {
    SafetyLimits { max_total_bytes: 17_179_869_184, max_entries: 1_000_000, max_depth: 8 }
}

impl Default for SafetyLimits {
    fn default() -> (r: Self)
        ensures
            r == default_limits(),
    {
        SafetyLimits { max_total_bytes: 17_179_869_184, max_entries: 1_000_000, max_depth: 8 }
    }
}

/// Options controlling an extraction run.
#[derive(Debug)]
pub struct ExtractOptions {
    /// Destination directory.
    pub dest_dir: String,
    /// Conflict resolution policy.
    pub overwrite: OverwritePolicy,
    /// Whether to preserve modification times.
    pub preserve_mtime: bool,
    /// Whether to create a top-level folder named after the archive.
    pub create_top_folder: bool,
    /// Safety limits.
    pub limits: SafetyLimits,
}

/// [`ExtractOptions`] as mathematical values.
pub struct ExtractOptionsView {
    pub dest_dir: Seq<char>,
    pub overwrite: OverwritePolicy,
    pub preserve_mtime: bool,
    pub create_top_folder: bool,
    pub limits: SafetyLimits,
}

impl View for ExtractOptions {
    type V = ExtractOptionsView;

    open spec fn view(&self) -> ExtractOptionsView {
        ExtractOptionsView {
            dest_dir: self.dest_dir@,
            overwrite: self.overwrite,
            preserve_mtime: self.preserve_mtime,
            create_top_folder: self.create_top_folder,
            limits: self.limits,
        }
    }
}

impl Clone for ExtractOptions {
    fn clone(&self) -> (r: Self)
        ensures
            r@ == self@,
    {
        ExtractOptions {
            dest_dir: self.dest_dir.clone(),
            overwrite: self.overwrite,
            preserve_mtime: self.preserve_mtime,
            create_top_folder: self.create_top_folder,
            limits: self.limits,
        }
    }
}

impl Default for ExtractOptions {
    fn default() -> (r: Self)
        ensures
            r@ == (ExtractOptionsView {
                dest_dir: Seq::empty(),
                overwrite: OverwritePolicy::Ask,
                preserve_mtime: false,
                create_top_folder: false,
                limits: default_limits(),
            }),
    {
        ExtractOptions {
            dest_dir: String::new(),
            overwrite: OverwritePolicy::Ask,
            preserve_mtime: false,
            create_top_folder: false,
            limits: SafetyLimits::default(),
        }
    }
}

/// A summary of a completed extraction run.
#[derive(Debug)]
pub struct ExtractReport {
    /// Number of entries successfully extracted.
    pub extracted: u64,
    /// Number of entries skipped (e.g. due to policy).
    pub skipped: u64,
    /// Entries that failed, with their errors.
    pub failed: Vec<(EntryPath, Error)>,
    /// Total bytes written.
    pub total_bytes: u64,
}

/// An [`ExtractReport`] as a mathematical value.
pub struct ReportView {
    pub extracted: int,
    pub skipped: int,
    pub failed: Seq<(Seq<char>, ErrorView)>,
    pub total_bytes: int,
}

/// The failures as mathematical values.
pub open spec fn failure_views(fs: Seq<(EntryPath, Error)>) -> Seq<(Seq<char>, ErrorView)> {
    fs.map_values(|f: (EntryPath, Error)| (f.0@, f.1@))
}

impl View for ExtractReport {
    type V = ReportView;

    open spec fn view(&self) -> ReportView {
        ReportView {
            extracted: self.extracted as int,
            skipped: self.skipped as int,
            failed: failure_views(self.failed@),
            total_bytes: self.total_bytes as int,
        }
    }
}

/// The report of a run in which nothing has happened yet.
pub open spec fn empty_report() -> ReportView {
    ReportView { extracted: 0, skipped: 0, failed: Seq::empty(), total_bytes: 0 }
}

impl Default for ExtractReport {
    fn default() -> (r: Self)
        ensures
            r@ == empty_report(),
    {
        let r = ExtractReport { extracted: 0, skipped: 0, failed: Vec::new(), total_bytes: 0 };
        assert(failure_views(r.failed@) =~= Seq::empty());
        r
    }
}

/// Receives progress callbacks during extraction.
pub trait ProgressSink {
    /// Called when an entry begins.
    fn on_entry_start(&mut self, path: &EntryPath, size: Option<u64>);

    /// Called as bytes are written, with the incremental byte count.
    fn on_bytes(&mut self, delta: u64);

    /// Called when an entry finishes.
    fn on_entry_done(&mut self, path: &EntryPath);

    /// Called when the policy is [`OverwritePolicy::Ask`] and the destination file already exists.
    /// The sink decides whether to replace it. The default is [`OverwriteDecision::Skip`].
    fn on_ask_overwrite(&mut self, _path: &EntryPath, _dest: &str) -> (r: OverwriteDecision)
        default_ensures
            r == OverwriteDecision::Skip,
            &*final(self) == &*old(self),
    {
        OverwriteDecision::Skip
    }
}

/// A thread-safe cancellation token.
///
/// What it says may change at any time from another thread, so nothing is promised of its answer
/// here, nor of the flag that a new token starts with; whoever extracts asks it before each entry
/// and each chunk.
pub struct CancellationToken {
    flag: Arc<AtomicBool>,
}

impl CancellationToken {
    /// Create a new, uncancelled token.
    pub fn new() -> (r: Self) {
        CancellationToken { flag: Arc::new(AtomicBool::new(false)) }
    }

    /// Request cancellation.
    pub fn cancel(&self) {
        self.flag.store(true, Ordering::Relaxed);
    }

    /// Whether cancellation has been requested.
    pub fn is_cancelled(&self) -> (r: bool) {
        self.flag.load(Ordering::Relaxed)
    }
}

impl Clone for CancellationToken {
    /// Another handle to the same token.
    fn clone(&self) -> (r: Self)
        ensures
            r == self,
    {
        CancellationToken { flag: self.flag.clone() }
    }
}

/// What a run asks its driver to do. Paths are relative to the destination directory.
pub enum Action {
    /// Create the destination directory with its parents.
    CreateDestination,
    /// Ask whether the run has been cancelled.
    PollCancel,
    /// Tell that an entry begins.
    EntryStarted(EntryPath, Option<u64>),
    /// Create a directory with its parents.
    CreateDir(EntryPath),
    /// Look whether there is a file.
    Probe(EntryPath),
    /// Ask whether an existing file is to be overwritten.
    AskOverwrite(EntryPath),
    /// Read the modification time of an existing file.
    QueryModified(EntryPath),
    /// Create the directory that a file lies in, with its parents.
    CreateParent(EntryPath),
    /// Create a file, or empty an existing one, and keep it open for writing.
    CreateFile(EntryPath),
    /// Write bytes to the open file and tell how many.
    Write(EntryPath, Vec<u8>),
    /// Set the modification time of a file.
    SetModified(EntryPath, Timestamp),
    /// Tell that an entry is done.
    EntryDone(EntryPath),
    /// Set the modification time of a directory, as far as that is possible.
    RestoreDirTime(EntryPath, Timestamp),
    /// The run is over, with this outcome.
    Finish(Result<ExtractReport>),
    /// The run was over before.
    Nothing,
}

/// An [`Action`] as a mathematical value.
pub enum ActionView {
    CreateDestination,
    PollCancel,
    EntryStarted(Seq<char>, Option<u64>),
    CreateDir(Seq<char>),
    Probe(Seq<char>),
    AskOverwrite(Seq<char>),
    QueryModified(Seq<char>),
    CreateParent(Seq<char>),
    CreateFile(Seq<char>),
    Write(Seq<char>, Seq<u8>),
    SetModified(Seq<char>, Timestamp),
    EntryDone(Seq<char>),
    RestoreDirTime(Seq<char>, Timestamp),
    Finish(std::result::Result<ReportView, ErrorView>),
    Nothing,
}

impl View for Action {
    type V = ActionView;

    open spec fn view(&self) -> ActionView {
        match self {
            Action::CreateDestination => ActionView::CreateDestination,
            Action::PollCancel => ActionView::PollCancel,
            Action::EntryStarted(p, size) => ActionView::EntryStarted(p@, *size),
            Action::CreateDir(p) => ActionView::CreateDir(p@),
            Action::Probe(p) => ActionView::Probe(p@),
            Action::AskOverwrite(p) => ActionView::AskOverwrite(p@),
            Action::QueryModified(p) => ActionView::QueryModified(p@),
            Action::CreateParent(p) => ActionView::CreateParent(p@),
            Action::CreateFile(p) => ActionView::CreateFile(p@),
            Action::Write(p, b) => ActionView::Write(p@, b@),
            Action::SetModified(p, t) => ActionView::SetModified(p@, *t),
            Action::EntryDone(p) => ActionView::EntryDone(p@),
            Action::RestoreDirTime(p, t) => ActionView::RestoreDirTime(p@, *t),
            Action::Finish(Ok(r)) => ActionView::Finish(Ok(r@)),
            Action::Finish(Err(e)) => ActionView::Finish(Err(e@)),
            Action::Nothing => ActionView::Nothing,
        }
    }
}

/// What came of an action.
pub enum Reply {
    /// It was done; there is nothing to tell.
    Done,
    /// It failed, with the text of the error.
    Failed(String),
    /// The answer is yes or no.
    Answer(bool),
    /// The user's decision.
    Decision(OverwriteDecision),
    /// A modification time, if it could be read.
    Modified(Option<Timestamp>),
}

impl Reply {
    /// The text of the error, where the action failed.
    pub open spec fn failure(self) -> Option<Seq<char>> {
        match self {
            Reply::Failed(m) => Some(m@),
            _ => None,
        }
    }

    /// Whether the answer is yes.
    pub open spec fn yes(self) -> bool {
        self == Reply::Answer(true)
    }

    /// Whether the user decided to overwrite.
    pub open spec fn overwrites(self) -> bool {
        self == Reply::Decision(OverwriteDecision::Overwrite)
    }

    /// The modification time, where one could be read.
    pub open spec fn time(self) -> Option<Timestamp> {
        match self {
            Reply::Modified(t) => t,
            _ => None,
        }
    }

    /// The text of the error, where the action failed.
    fn take_failure(self) -> (r: Option<String>)
        ensures
            match r {
                Some(m) => self.failure() == Some(m@),
                None => self.failure() is None,
            },
    {
        match self {
            Reply::Failed(m) => Some(m),
            _ => None,
        }
    }

    /// Whether the answer is yes.
    fn is_yes(&self) -> (r: bool)
        ensures
            r == self.yes(),
    {
        match self {
            Reply::Answer(b) => *b,
            _ => false,
        }
    }

    /// Whether the user decided to overwrite.
    fn is_overwrite(&self) -> (r: bool)
        ensures
            r == self.overwrites(),
    {
        match self {
            Reply::Decision(d) => *d == OverwriteDecision::Overwrite,
            _ => false,
        }
    }

    /// The modification time, where one could be read.
    fn modified(&self) -> (r: Option<Timestamp>)
        ensures
            r == self.time(),
    {
        match self {
            Reply::Modified(t) => *t,
            _ => None,
        }
    }
}

/// What a run waits for.
#[derive(Debug, Clone, Copy, PartialEq, Eq, Structural)]
pub enum Phase {
    /// The run has not begun.
    Ready,
    /// The destination directory.
    Destination,
    /// Whether the run is cancelled, before an entry.
    BeforeEntry,
    /// The notice that an entry begins.
    Started,
    /// A directory.
    Dir,
    /// Whether a file exists.
    Probing,
    /// The user's decision about an existing file.
    Deciding,
    /// The modification time of an existing file.
    Comparing,
    /// The directory that a file lies in.
    Parent,
    /// A file.
    File,
    /// Whether the run is cancelled, before a chunk.
    BeforeChunk,
    /// A chunk.
    Chunk,
    /// The modification time of a file.
    Time,
    /// The notice that an entry is done.
    Done,
    /// Whether the run is cancelled, after an entry.
    AfterEntry,
    /// The modification times of directories.
    Restoring,
    /// Nothing more.
    Over,
}

/// The number of separators in a path: how deep it lies.
pub open spec fn depth_of(path: Seq<char>) -> nat
    decreases path.len(),
{
    if path.len() == 0 {
        0
    } else {
        depth_of(path.drop_last()) + if path.last() == '/' {
            1nat
        } else {
            0
        }
    }
}

/// A directory whose modification time is to be restored.
pub type DirTime = (Seq<char>, Timestamp);

/// The directories with one more, behind all that lie as deep or deeper.
pub open spec fn insert_dir(dirs: Seq<DirTime>, d: DirTime) -> Seq<DirTime>
    decreases dirs.len(),
{
    if dirs.len() == 0 || depth_of(dirs.last().0) >= depth_of(d.0) {
        dirs.push(d)
    } else {
        insert_dir(dirs.drop_last(), d).push(dirs.last())
    }
}

/// A run as a mathematical value.
pub struct RunView<M> {
    pub archive: M,
    pub opts: ExtractOptionsView,
    pub entries: Seq<EntryView>,
    /// The entry that is being extracted.
    pub at: int,
    pub phase: Phase,
    pub report: ReportView,
    /// Directories whose time is to be restored, the deepest first.
    pub dirs: Seq<DirTime>,
    /// What the current file is to hold, and how much of it has been written.
    pub content: Seq<u8>,
    pub offset: int,
}

/// A state and what is to be done.
pub type Turn<M> = (RunView<M>, ActionView);

/// Whether an error ends the whole run.
pub open spec fn is_fatal(e: ErrorView) -> bool {
    e is Cancelled || e is LimitExceeded
}

impl<M> RunView<M> {
    /// The entry that is being extracted.
    pub open spec fn entry(self) -> EntryView {
        self.entries[self.at]
    }

    /// Waiting in a phase for what an action brings.
    pub open spec fn wait(self, phase: Phase, action: ActionView) -> Turn<M> {
        (RunView { phase, ..self }, action)
    }

    /// The run ends.
    pub open spec fn finish(
        self,
        outcome: std::result::Result<ReportView, ErrorView>,
    ) -> Turn<M> {
        (
            RunView { phase: Phase::Over, report: empty_report(), ..self },
            ActionView::Finish(outcome),
        )
    }

    /// The current entry is done.
    pub open spec fn done(self) -> Turn<M> {
        self.wait(Phase::Done, ActionView::EntryDone(self.entry().path))
    }

    /// The current entry was extracted.
    pub open spec fn extracted(self) -> Turn<M> {
        RunView {
            report: ReportView { extracted: self.report.extracted + 1, ..self.report },
            ..self
        }.done()
    }

    /// The current entry was skipped.
    pub open spec fn skipped(self) -> Turn<M> {
        RunView {
            report: ReportView { skipped: self.report.skipped + 1, ..self.report },
            ..self
        }.done()
    }

    /// The current entry failed: the failure is recorded, unless it ends the run.
    pub open spec fn failed(self, e: ErrorView) -> Turn<M> {
        if is_fatal(e) {
            self.finish(Err(e))
        } else {
            RunView {
                report: ReportView {
                    failed: self.report.failed.push((self.entry().path, e)),
                    ..self.report
                },
                ..self
            }.done()
        }
    }

    /// The next entry, or the end of the run.
    pub open spec fn begin(self) -> Turn<M> {
        if self.at < self.entries.len() {
            self.wait(Phase::BeforeEntry, ActionView::PollCancel)
        } else {
            self.restore()
        }
    }

    /// The next directory whose time is to be restored, or the end of the run.
    pub open spec fn restore(self) -> Turn<M> {
        if self.dirs.len() > 0 {
            RunView { dirs: self.dirs.drop_first(), ..self }.wait(
                Phase::Restoring,
                ActionView::RestoreDirTime(self.dirs[0].0, self.dirs[0].1),
            )
        } else {
            self.finish(Ok(self.report))
        }
    }

    /// The current entry has been announced: what it is decides what is done.
    pub open spec fn started(self) -> Turn<M> {
        match self.entry().kind {
            NodeKind::Dir => self.wait(Phase::Dir, ActionView::CreateDir(self.entry().path)),
            // A symbolic link could point outside the destination.
            NodeKind::Symlink => self.skipped(),
            NodeKind::File | NodeKind::Archive => self.wait(
                Phase::Probing,
                ActionView::Probe(self.entry().path),
            ),
        }
    }

    /// The current directory exists; its time is to be restored at the end.
    pub open spec fn dir_created(self) -> Turn<M> {
        match (self.opts.preserve_mtime, self.entry().mtime) {
            (true, Some(t)) => RunView {
                dirs: insert_dir(self.dirs, (self.entry().path, t)),
                ..self
            }.extracted(),
            _ => self.extracted(),
        }
    }

    /// The current file is to be written.
    pub open spec fn accept(self) -> Turn<M> {
        self.wait(Phase::Parent, ActionView::CreateParent(self.entry().path))
    }

    /// The current file exists: the policy decides.
    pub open spec fn conflict(self) -> Turn<M> {
        match self.opts.overwrite {
            OverwritePolicy::Always => self.accept(),
            OverwritePolicy::Never => self.skipped(),
            OverwritePolicy::Ask => self.wait(
                Phase::Deciding,
                ActionView::AskOverwrite(self.entry().path),
            ),
            OverwritePolicy::Newer => if self.entry().mtime is Some {
                self.wait(Phase::Comparing, ActionView::QueryModified(self.entry().path))
            } else {
                self.accept()
            },
        }
    }

    /// The time of the existing file is known, if at all: it stays unless the entry is newer.
    pub open spec fn compared(self, existing: Option<Timestamp>) -> Turn<M> {
        match (self.entry().mtime, existing) {
            (Some(src), Some(dst)) => if !is_before(dst, src) {
                self.skipped()
            } else {
                self.accept()
            },
            _ => self.accept(),
        }
    }

    /// The current file is open: its content is needed.
    pub open spec fn opened(self, content: std::result::Result<Seq<u8>, ErrorView>) -> Turn<M> {
        match content {
            Err(e) => self.failed(e),
            Ok(content) => RunView { content, offset: 0, ..self }.wait(
                Phase::BeforeChunk,
                ActionView::PollCancel,
            ),
        }
    }

    /// The size of the next chunk.
    pub open spec fn chunk_size(self) -> int {
        if self.content.len() - self.offset < COPY_CHUNK {
            self.content.len() - self.offset
        } else {
            COPY_CHUNK as int
        }
    }

    /// The next chunk of the current file, or its end. The limit on bytes ends the run.
    pub open spec fn chunk(self) -> Turn<M> {
        if self.offset == self.content.len() {
            match (self.opts.preserve_mtime, self.entry().mtime) {
                (true, Some(t)) => self.wait(
                    Phase::Time,
                    ActionView::SetModified(self.entry().path, t),
                ),
                _ => self.extracted(),
            }
        } else {
            let total = self.report.total_bytes + self.chunk_size();
            if total > self.opts.limits.max_total_bytes {
                self.finish(Err(ErrorView::LimitExceeded(self.opts.limits)))
            } else {
                RunView {
                    report: ReportView { total_bytes: total, ..self.report },
                    offset: self.offset + self.chunk_size(),
                    ..self
                }.wait(
                    Phase::Chunk,
                    ActionView::Write(
                        self.entry().path,
                        self.content.subrange(self.offset, self.offset + self.chunk_size()),
                    ),
                )
            }
        }
    }

    /// What happens on a reply, where `content` is what the current entry holds.
    pub open spec fn turn(
        self,
        reply: Reply,
        content: std::result::Result<Seq<u8>, ErrorView>,
    ) -> Turn<M> {
        match self.phase {
            Phase::Ready => self.wait(Phase::Destination, ActionView::CreateDestination),
            Phase::Destination => match reply.failure() {
                Some(m) => self.finish(Err(ErrorView::Io(m))),
                None => self.begin(),
            },
            Phase::BeforeEntry => if reply.yes() {
                self.finish(Err(ErrorView::Cancelled))
            } else {
                self.wait(
                    Phase::Started,
                    ActionView::EntryStarted(self.entry().path, self.entry().uncompressed_size),
                )
            },
            Phase::Started => self.started(),
            Phase::Dir => match reply.failure() {
                Some(m) => self.failed(ErrorView::Io(m)),
                None => self.dir_created(),
            },
            Phase::Probing => if reply.yes() {
                self.conflict()
            } else {
                self.accept()
            },
            Phase::Deciding => if reply.overwrites() {
                self.accept()
            } else {
                self.skipped()
            },
            Phase::Comparing => self.compared(reply.time()),
            Phase::Parent => match reply.failure() {
                Some(m) => self.failed(ErrorView::Io(m)),
                None => self.wait(Phase::File, ActionView::CreateFile(self.entry().path)),
            },
            Phase::File => match reply.failure() {
                Some(m) => self.failed(ErrorView::Io(m)),
                None => self.opened(content),
            },
            Phase::BeforeChunk => if reply.yes() {
                self.finish(Err(ErrorView::Cancelled))
            } else {
                self.chunk()
            },
            Phase::Chunk => match reply.failure() {
                Some(m) => self.failed(ErrorView::Io(m)),
                None => self.wait(Phase::BeforeChunk, ActionView::PollCancel),
            },
            Phase::Time => match reply.failure() {
                Some(m) => self.failed(ErrorView::Io(m)),
                None => self.extracted(),
            },
            Phase::Done => self.wait(Phase::AfterEntry, ActionView::PollCancel),
            Phase::AfterEntry => if reply.yes() {
                self.finish(Err(ErrorView::Cancelled))
            } else {
                RunView { at: self.at + 1, ..self }.begin()
            },
            Phase::Restoring => self.restore(),
            Phase::Over => (self, ActionView::Nothing),
        }
    }

    /// Whether an entry is being extracted.
    pub open spec fn in_entry(self) -> bool {
        match self.phase {
            Phase::Ready | Phase::Destination | Phase::Restoring | Phase::Over => false,
            _ => true,
        }
    }

    /// Whether the outcome of the current entry has been counted.
    pub open spec fn counted(self) -> bool {
        self.phase == Phase::Done || self.phase == Phase::AfterEntry
    }

    /// The entry that is being extracted is one of the entries, and all of them have normal paths.
    pub open spec fn placed(self) -> bool {
        &&& 0 <= self.at <= self.entries.len()
        &&& self.in_entry() ==> self.at < self.entries.len()
        &&& forall|i: int|
            0 <= i < self.entries.len() ==> is_normal((#[trigger] self.entries[i]).path)
    }

    /// The directories to restore are entries, the deepest first.
    pub open spec fn dirs_ordered(self) -> bool {
        &&& forall|i: int|
            0 <= i < self.dirs.len() ==> has_dir(self.entries, (#[trigger] self.dirs[i]).0)
        &&& forall|i: int, j: int|
            0 <= i < j < self.dirs.len() ==> depth_of(self.dirs[i].0) >= depth_of(self.dirs[j].0)
    }

    /// Every entry so far has been counted once, no failure that ends a run is among the recorded
    /// ones, and the bytes are within their limit.
    pub open spec fn balanced(self) -> bool {
        self.phase != Phase::Over ==> {
            &&& self.report.extracted >= 0
            &&& self.report.skipped >= 0
            &&& 0 <= self.report.total_bytes <= self.opts.limits.max_total_bytes
            &&& forall|i: int|
                0 <= i < self.report.failed.len() ==> !is_fatal((#[trigger] self.report.failed[i]).1)
            &&& self.report.extracted + self.report.skipped + self.report.failed.len() == self.at
                + if self.counted() {
                1int
            } else {
                0
            }
        }
    }

    /// The current entry is of the kind that the phase is for.
    pub open spec fn fits_phase(self) -> bool {
        match self.phase {
            Phase::Ready | Phase::Destination => self.at == 0,
            Phase::Restoring => self.at == self.entries.len(),
            Phase::Dir => self.entry().kind == NodeKind::Dir,
            Phase::Probing | Phase::Deciding | Phase::Parent | Phase::File => self.writes_file(),
            Phase::Time => self.writes_file() && self.offset == self.content.len(),
            Phase::Comparing => self.writes_file() && self.entry().mtime is Some,
            Phase::BeforeChunk | Phase::Chunk => self.writes_file() && 0 <= self.offset
                <= self.content.len(),
            _ => true,
        }
    }

    /// What holds of every state that a run comes to.
    pub open spec fn wf(self) -> bool {
        self.placed() && self.dirs_ordered() && self.balanced() && self.fits_phase()
    }

    /// Whether the current entry is one whose content is written.
    pub open spec fn writes_file(self) -> bool {
        self.entry().kind == NodeKind::File || self.entry().kind == NodeKind::Archive
    }
}

/// Whether a directory with the path is among the entries.
pub open spec fn has_dir(es: Seq<EntryView>, path: Seq<char>) -> bool {
    exists|k: int|
        0 <= k < es.len() && (#[trigger] es[k]).kind == NodeKind::Dir && es[k].path == path
}

/// Whether a time comes before another.
pub open spec fn is_before(a: Timestamp, b: Timestamp) -> bool {
    a.secs < b.secs || (a.secs == b.secs && a.nanos < b.nanos)
}

/// The path that an action concerns.
pub open spec fn action_path(a: ActionView) -> Option<Seq<char>> {
    match a {
        ActionView::EntryStarted(p, _) => Some(p),
        ActionView::CreateDir(p) => Some(p),
        ActionView::Probe(p) => Some(p),
        ActionView::AskOverwrite(p) => Some(p),
        ActionView::QueryModified(p) => Some(p),
        ActionView::CreateParent(p) => Some(p),
        ActionView::CreateFile(p) => Some(p),
        ActionView::Write(p, _) => Some(p),
        ActionView::SetModified(p, _) => Some(p),
        ActionView::EntryDone(p) => Some(p),
        ActionView::RestoreDirTime(p, _) => Some(p),
        _ => None,
    }
}

/// Inserting a directory keeps the deepest first, and adds nothing else.
proof fn insert_dir_keeps_order(dirs: Seq<DirTime>, d: DirTime)
    requires
        forall|i: int, j: int|
            0 <= i < j < dirs.len() ==> depth_of(dirs[i].0) >= depth_of(dirs[j].0),
    ensures
        insert_dir(dirs, d).len() == dirs.len() + 1,
        forall|i: int, j: int|
            0 <= i < j < insert_dir(dirs, d).len() ==> depth_of(insert_dir(dirs, d)[i].0)
                >= depth_of(insert_dir(dirs, d)[j].0),
        forall|i: int|
            0 <= i < insert_dir(dirs, d).len() ==> #[trigger] insert_dir(dirs, d)[i] == d
                || dirs.contains(insert_dir(dirs, d)[i]),
    decreases dirs.len(),
{
    let new = insert_dir(dirs, d);
    if dirs.len() == 0 || depth_of(dirs.last().0) >= depth_of(d.0) {
        assert forall|i: int, j: int| 0 <= i < j < new.len() implies depth_of(new[i].0) >= depth_of(
            new[j].0,
        ) by {
            if j == dirs.len() && i < dirs.len() - 1 {
                assert(depth_of(dirs[i].0) >= depth_of(dirs[dirs.len() - 1].0));
            }
        }
        assert forall|i: int| 0 <= i < new.len() implies #[trigger] new[i] == d || dirs.contains(
            new[i],
        ) by {
            if i < dirs.len() {
                assert(new[i] == dirs[i]);
            }
        }
    } else {
        let front = dirs.drop_last();
        let inner = insert_dir(front, d);
        insert_dir_keeps_order(front, d);
        assert forall|i: int| 0 <= i < inner.len() implies depth_of((#[trigger] inner[i]).0)
            >= depth_of(dirs.last().0) by {
            if inner[i] != d {
                assert(front.contains(inner[i]));
                let k = choose|k: int| 0 <= k < front.len() && front[k] == inner[i];
                assert(depth_of(dirs[k].0) >= depth_of(dirs[dirs.len() - 1].0));
            }
        }
        assert forall|i: int| 0 <= i < new.len() implies #[trigger] new[i] == d || dirs.contains(
            new[i],
        ) by {
            if i < inner.len() {
                assert(new[i] == inner[i]);
                if inner[i] != d {
                    assert(front.contains(inner[i]));
                    let k = choose|k: int| 0 <= k < front.len() && front[k] == inner[i];
                    assert(dirs[k] == new[i]);
                }
            } else {
                assert(dirs[dirs.len() - 1] == new[i]);
            }
        }
        assert forall|i: int, j: int| 0 <= i < j < new.len() implies depth_of(new[i].0) >= depth_of(
            new[j].0,
        ) by {
            assert(new[i] == inner[i]);
            if j < inner.len() {
                assert(new[j] == inner[j]);
            }
        }
    }
}

/// Every turn keeps the directories in order.
proof fn turn_keeps_dirs<M>(
    v: RunView<M>,
    reply: Reply,
    content: std::result::Result<Seq<u8>, ErrorView>,
)
    requires
        v.placed(),
        v.fits_phase(),
        v.dirs_ordered(),
    ensures
        v.turn(reply, content).0.dirs_ordered(),
{
    let w = v.turn(reply, content).0;
    assert(w.entries == v.entries);
    if w.dirs == v.dirs {
    } else if v.phase == Phase::Dir {
        let d = (v.entry().path, v.entry().mtime->0);
        let new = insert_dir(v.dirs, d);
        assert(w.dirs == new);
        insert_dir_keeps_order(v.dirs, d);
        assert forall|i: int| 0 <= i < new.len() implies has_dir(
            v.entries,
            (#[trigger] new[i]).0,
        ) by {
            if new[i] == d {
                assert(v.entries[v.at].kind == NodeKind::Dir);
            } else {
                assert(v.dirs.contains(new[i]));
                let j = choose|j: int| 0 <= j < v.dirs.len() && v.dirs[j] == new[i];
                assert(has_dir(v.entries, v.dirs[j].0));
            }
        }
    } else {
        let rest = v.dirs.drop_first();
        assert(w.dirs == rest);
        assert forall|i: int| 0 <= i < rest.len() implies has_dir(
            v.entries,
            (#[trigger] rest[i]).0,
        ) by {
            assert(rest[i] == v.dirs[i + 1]);
        }
        assert forall|i: int, j: int| 0 <= i < j < rest.len() implies depth_of(rest[i].0)
            >= depth_of(rest[j].0) by {
            assert(rest[i] == v.dirs[i + 1] && rest[j] == v.dirs[j + 1]);
        }
    }
}

/// Every turn keeps the books.
proof fn turn_keeps_balance<M>(
    v: RunView<M>,
    reply: Reply,
    content: std::result::Result<Seq<u8>, ErrorView>,
)
    requires
        v.placed(),
        v.fits_phase(),
        v.balanced(),
    ensures
        v.turn(reply, content).0.balanced(),
        v.turn(reply, content).0.fits_phase(),
        v.turn(reply, content).0.placed(),
{
}

/// Every turn leads from a state that a run comes to, to another such state, and changes neither
/// the archive nor the options nor the list of entries.
pub proof fn turn_keeps_wf<M>(
    v: RunView<M>,
    reply: Reply,
    content: std::result::Result<Seq<u8>, ErrorView>,
)
    requires
        v.wf(),
    ensures
        v.turn(reply, content).0.wf(),
        v.turn(reply, content).0.entries == v.entries,
        v.turn(reply, content).0.opts == v.opts,
        v.turn(reply, content).0.archive == v.archive,
{
    turn_keeps_dirs(v, reply, content);
    turn_keeps_balance(v, reply, content);
}

/// Nothing is done outside the destination: every path that a run acts on is the path of one of
/// its entries, a normal path, and so a relative one without `..`.
pub proof fn actions_stay_inside<M>(
    v: RunView<M>,
    reply: Reply,
    content: std::result::Result<Seq<u8>, ErrorView>,
)
    requires
        v.wf(),
    ensures
        match action_path(v.turn(reply, content).1) {
            Some(p) => is_normal(p) && exists|k: int|
                0 <= k < v.entries.len() && (#[trigger] v.entries[k]).path == p,
            None => true,
        },
{
    turn_keeps_wf(v, reply, content);
    match action_path(v.turn(reply, content).1) {
        Some(p) => {
            if v.in_entry() && v.turn(reply, content).0.in_entry() && v.phase
                != Phase::AfterEntry {
                assert(p == v.entries[v.at].path);
            } else {
                let d = v.dirs[0];
                assert(p == d.0);
                assert(has_dir(v.entries, d.0));
                let k = choose|k: int|
                    0 <= k < v.entries.len() && (#[trigger] v.entries[k]).kind == NodeKind::Dir
                        && v.entries[k].path == d.0;
                assert(v.entries[k].path == p);
            }
        },
        None => {},
    }
}

/// Only files are written and only directories are created: in particular a symbolic link is never
/// materialized.
pub proof fn only_files_and_dirs_are_made<M>(
    v: RunView<M>,
    reply: Reply,
    content: std::result::Result<Seq<u8>, ErrorView>,
)
    requires
        v.wf(),
    ensures
        ({
            let (w, action) = v.turn(reply, content);
            match action {
                ActionView::CreateParent(p)
                | ActionView::CreateFile(p)
                | ActionView::Write(p, _)
                | ActionView::SetModified(p, _) => w.writes_file() && p == w.entry().path,
                ActionView::CreateDir(p) => w.entry().kind == NodeKind::Dir && p == w.entry().path,
                _ => true,
            }
        }),
{
}

/// A symbolic link is skipped: it is announced, counted, and nothing else.
pub proof fn symlinks_are_skipped<M>(
    v: RunView<M>,
    reply: Reply,
    content: std::result::Result<Seq<u8>, ErrorView>,
)
    requires
        v.wf(),
        v.phase == Phase::Started,
        v.entry().kind == NodeKind::Symlink,
    ensures
        v.turn(reply, content).1 == ActionView::EntryDone(v.entry().path),
        v.turn(reply, content).0.report.skipped == v.report.skipped + 1,
{
}

/// The limit on bytes holds at every moment: a chunk is only written if all that has been written
/// with it stays within the limit.
pub proof fn byte_limit_holds<M>(
    v: RunView<M>,
    reply: Reply,
    content: std::result::Result<Seq<u8>, ErrorView>,
)
    requires
        v.wf(),
    ensures
        match v.turn(reply, content).1 {
            ActionView::Write(_, bytes) => {
                let w = v.turn(reply, content).0;
                &&& w.report.total_bytes == v.report.total_bytes + bytes.len()
                &&& w.report.total_bytes <= v.opts.limits.max_total_bytes
            },
            ActionView::Finish(Ok(report)) => report.total_bytes <= v.opts.limits.max_total_bytes,
            _ => v.turn(reply, content).0.phase == Phase::Over || v.turn(
                reply,
                content,
            ).0.report.total_bytes == v.report.total_bytes,
        },
{
}

/// Whenever a run asks whether it has been cancelled and the answer is yes, it ends at once.
pub proof fn cancelling_ends_the_run<M>(
    v: RunView<M>,
    reply: Reply,
    content: std::result::Result<Seq<u8>, ErrorView>,
)
    requires
        v.wf(),
        reply.yes(),
        v.phase == Phase::BeforeEntry || v.phase == Phase::BeforeChunk || v.phase
            == Phase::AfterEntry,
    ensures
        v.turn(reply, content).1 == ActionView::Finish(Err(ErrorView::Cancelled)),
        v.turn(reply, content).0.phase == Phase::Over,
{
}

/// A run asks whether it has been cancelled before every entry and before every chunk.
pub proof fn cancellation_is_polled<M>(
    v: RunView<M>,
    reply: Reply,
    content: std::result::Result<Seq<u8>, ErrorView>,
)
    requires
        v.wf(),
    ensures
        v.turn(reply, content).1 is EntryStarted ==> v.phase == Phase::BeforeEntry && !reply.yes(),
        v.turn(reply, content).1 is Write ==> v.phase == Phase::BeforeChunk && !reply.yes(),
        v.turn(reply, content).1 is PollCancel <==> {
            let phase = v.turn(reply, content).0.phase;
            phase == Phase::BeforeEntry || phase == Phase::BeforeChunk || phase
                == Phase::AfterEntry
        },
{
}

/// A run that comes to its end has accounted for every entry: extracted, skipped or failed.
pub proof fn every_entry_is_accounted_for<M>(
    v: RunView<M>,
    reply: Reply,
    content: std::result::Result<Seq<u8>, ErrorView>,
)
    requires
        v.wf(),
    ensures
        match v.turn(reply, content).1 {
            ActionView::Finish(Ok(report)) => report.extracted + report.skipped
                + report.failed.len() == v.entries.len(),
            _ => true,
        },
{
}

/// An error that ends the run is never recorded as the failure of an entry: it is the outcome.
pub proof fn fatal_errors_are_outcomes<M>(
    v: RunView<M>,
    reply: Reply,
    content: std::result::Result<Seq<u8>, ErrorView>,
)
    requires
        v.wf(),
    ensures
        match v.turn(reply, content).1 {
            ActionView::Finish(Ok(report)) => forall|i: int|
                0 <= i < report.failed.len() ==> !is_fatal((#[trigger] report.failed[i]).1),
            _ => true,
        },
{
}

/// Under the policy `Never`, an existing file is left alone and counted as skipped.
pub proof fn never_overwrites<M>(
    v: RunView<M>,
    reply: Reply,
    content: std::result::Result<Seq<u8>, ErrorView>,
)
    requires
        v.wf(),
        v.opts.overwrite == OverwritePolicy::Never,
        v.phase == Phase::Probing,
        reply.yes(),
    ensures
        v.turn(reply, content).1 == ActionView::EntryDone(v.entry().path),
        v.turn(reply, content).0.report.skipped == v.report.skipped + 1,
{
}

/// An entry that has been announced is reported as done before the run goes on to another one: the
/// next entry is only begun after the notice, and errors that do not end the run do not lose it.
pub proof fn entries_begin_and_end<M>(
    v: RunView<M>,
    reply: Reply,
    content: std::result::Result<Seq<u8>, ErrorView>,
)
    requires
        v.wf(),
    ensures
        ({
            let (w, action) = v.turn(reply, content);
            &&& w.at != v.at ==> v.phase == Phase::AfterEntry && w.at == v.at + 1
            &&& w.phase == Phase::AfterEntry ==> v.phase == Phase::Done && w.at == v.at
            &&& w.phase == Phase::Done <==> action == ActionView::EntryDone(v.entry().path)
                && w.at == v.at
            &&& w.phase == Phase::Started <==> action == ActionView::EntryStarted(
                v.entry().path,
                v.entry().uncompressed_size,
            ) && w.at == v.at
        }),
{
}

/// A file counts as extracted only when all of its content has been written.
pub proof fn extracted_means_complete<M>(
    v: RunView<M>,
    reply: Reply,
    content: std::result::Result<Seq<u8>, ErrorView>,
)
    requires
        v.wf(),
        v.in_entry(),
        v.writes_file(),
        v.turn(reply, content).0.phase == Phase::Done,
        v.turn(reply, content).0.report.extracted == v.report.extracted + 1,
    ensures
        v.offset == v.content.len(),
{
}

/// The chunks of a file follow one another: each begins where the last one ended.
pub proof fn chunks_follow_one_another<M>(
    v: RunView<M>,
    reply: Reply,
    content: std::result::Result<Seq<u8>, ErrorView>,
)
    requires
        v.wf(),
        v.turn(reply, content).1 is Write,
    ensures
        ({
            let (w, action) = v.turn(reply, content);
            &&& action->Write_1.len() > 0
            &&& v.content.take(v.offset) + action->Write_1 == v.content.take(w.offset)
        }),
{
    let w = v.turn(reply, content).0;
    assert(v.content.take(v.offset) + v.content.subrange(v.offset, w.offset)
        =~= v.content.take(w.offset));
}

/// A file is only written where there was none, or where the policy lets the existing one be
/// replaced: always, on the user's word, or if the entry is newer or one of the times is unknown.
pub proof fn overwriting_follows_the_policy<M>(
    v: RunView<M>,
    reply: Reply,
    content: std::result::Result<Seq<u8>, ErrorView>,
)
    requires
        v.wf(),
    ensures
        ({
            let (w, action) = v.turn(reply, content);
            &&& action is CreateFile ==> v.phase == Phase::Parent
            &&& action is AskOverwrite ==> v.opts.overwrite == OverwritePolicy::Ask
            &&& action is QueryModified ==> v.opts.overwrite == OverwritePolicy::Newer
            &&& action is CreateParent ==> match v.phase {
                Phase::Probing => !reply.yes() || v.opts.overwrite == OverwritePolicy::Always || (
                v.opts.overwrite == OverwritePolicy::Newer && v.entry().mtime is None),
                Phase::Deciding => reply.overwrites(),
                Phase::Comparing => reply.time() is None || is_before(
                    reply.time()->0,
                    v.entry().mtime->0,
                ),
                _ => false,
            }
        }),
{
}

/// What the files under the destination hold after an action, where it succeeds.
pub open spec fn performed(disk: Map<Seq<char>, Seq<u8>>, action: ActionView) -> Map<
    Seq<char>,
    Seq<u8>,
> {
    match action {
        ActionView::CreateFile(p) => disk.insert(p, Seq::empty()),
        ActionView::Write(p, bytes) => disk.insert(p, disk[p] + bytes),
        _ => disk,
    }
}

/// Whether the file that is being written holds the part of its entry's content that it should
/// hold by now, where `held` is the content of each entry.
pub open spec fn faithful<M>(
    v: RunView<M>,
    disk: Map<Seq<char>, Seq<u8>>,
    held: spec_fn(EntryView) -> std::result::Result<Seq<u8>, ErrorView>,
) -> bool {
    let path = v.entry().path;
    match v.phase {
        Phase::File => disk.contains_key(path) && disk[path] == Seq::<u8>::empty(),
        Phase::BeforeChunk | Phase::Chunk | Phase::Time => {
            &&& held(v.entry()) == Ok::<Seq<u8>, ErrorView>(v.content)
            &&& disk.contains_key(path)
            &&& disk[path] == v.content.take(v.offset)
        },
        _ => true,
    }
}

/// Extraction gives back what the archive holds: as long as the actions succeed, the file that is
/// being written holds a prefix of its entry's content at every moment, and all of it when the
/// entry is counted as extracted.
pub proof fn extracted_files_hold_their_content<M>(
    v: RunView<M>,
    reply: Reply,
    disk: Map<Seq<char>, Seq<u8>>,
    held: spec_fn(EntryView) -> std::result::Result<Seq<u8>, ErrorView>,
)
    requires
        v.wf(),
        faithful(v, disk, held),
    ensures
        ({
            let (w, action) = v.turn(reply, held(v.entry()));
            let after = performed(disk, action);
            &&& faithful(w, after, held)
            &&& v.in_entry() && v.writes_file() && w.phase == Phase::Done && w.report.extracted
                == v.report.extracted + 1 ==> held(v.entry()) == Ok::<Seq<u8>, ErrorView>(
                after[v.entry().path],
            )
        }),
{
    let (w, action) = v.turn(reply, held(v.entry()));
    if action is Write {
        chunks_follow_one_another(v, reply, held(v.entry()));
    }
    assert(w.content.take(0) =~= Seq::<u8>::empty());
    assert(v.content.take(v.content.len() as int) =~= v.content);
}

/// What lies before a run: the entries left, how far the current one has come, and what is left of
/// the current file or of the directories to restore.
pub open spec fn ahead<M>(v: RunView<M>) -> (int, int, int) {
    let entries = v.entries.len() - v.at;
    let bytes = v.content.len() - v.offset;
    match v.phase {
        Phase::Ready => (entries, 15, 0),
        Phase::Destination => (entries, 14, 0),
        Phase::BeforeEntry => (entries, 13, 0),
        Phase::Started => (entries, 12, 0),
        Phase::Dir | Phase::Probing => (entries, 11, 0),
        Phase::Deciding | Phase::Comparing => (entries, 10, 0),
        Phase::Parent => (entries, 9, 0),
        Phase::File => (entries, 8, 0),
        Phase::BeforeChunk => (entries, 7, 2 * bytes),
        Phase::Chunk => (entries, 7, 2 * bytes + 1),
        Phase::Time => (entries, 6, 0),
        Phase::Done => (entries, 5, 0),
        Phase::AfterEntry => (entries, 4, 0),
        Phase::Restoring => (entries, 3, v.dirs.len() as int),
        Phase::Over => (0, 0, 0),
    }
}

/// Whether less lies ahead: the first number that differs is smaller.
pub open spec fn less_ahead(a: (int, int, int), b: (int, int, int)) -> bool {
    a.0 < b.0 || (a.0 == b.0 && (a.1 < b.1 || (a.1 == b.1 && a.2 < b.2)))
}

/// Every run comes to an end, whatever its replies: each turn leaves less ahead, counted in numbers
/// that are never negative, until the run is over; and it is over when it has told its outcome, not
/// sooner.
pub proof fn runs_come_to_an_end<M>(
    v: RunView<M>,
    reply: Reply,
    content: std::result::Result<Seq<u8>, ErrorView>,
)
    requires
        v.wf(),
    ensures
        ahead(v).0 >= 0 && ahead(v).1 >= 0 && ahead(v).2 >= 0,
        ({
            let (w, action) = v.turn(reply, content);
            &&& v.phase != Phase::Over ==> less_ahead(ahead(w), ahead(v))
            &&& action is Finish <==> v.phase != Phase::Over && w.phase == Phase::Over
            &&& v.phase == Phase::Over ==> w == v && action is Nothing
        }),
{
}

/// The entries to extract: all of them where nothing is selected, else for each selected path the
/// first entry with that path.
pub open spec fn selected(es: Seq<EntryView>, paths: Seq<Seq<char>>) -> std::result::Result<
    Seq<EntryView>,
    ErrorView,
> {
    if paths.len() == 0 {
        Ok(es)
    } else {
        picked(es, paths)
    }
}

/// For each path the first entry with that path.
pub open spec fn picked(es: Seq<EntryView>, paths: Seq<Seq<char>>) -> std::result::Result<
    Seq<EntryView>,
    ErrorView,
>
    decreases paths.len(),
{
    if paths.len() == 0 {
        Ok(Seq::empty())
    } else {
        match picked(es, paths.drop_last()) {
            Err(e) => Err(e),
            Ok(found) => match first_index(es, paths.last()) {
                Some(i) => Ok(found.push(es[i])),
                None => Err(
                    ErrorView::CorruptArchive("no such entry in archive: "@ + paths.last()),
                ),
            },
        }
    }
}

/// The first entry with a path has that path.
proof fn first_index_found(es: Seq<EntryView>, path: Seq<char>)
    ensures
        first_index(es, path) is Some ==> 0 <= first_index(es, path)->0 < es.len()
            && es[first_index(es, path)->0].path == path,
    decreases es.len(),
{
    if es.len() > 0 {
        first_index_found(es.drop_last(), path);
    }
}

/// Every entry that is picked has one of the paths.
pub proof fn picked_entries_have_their_paths(es: Seq<EntryView>, paths: Seq<Seq<char>>)
    requires
        picked(es, paths) is Ok,
    ensures
        picked(es, paths)->Ok_0.len() == paths.len(),
        forall|i: int|
            0 <= i < paths.len() ==> (#[trigger] picked(es, paths)->Ok_0[i]).path == paths[i],
    decreases paths.len(),
{
    if paths.len() > 0 {
        picked_entries_have_their_paths(es, paths.drop_last());
        first_index_found(es, paths.last());
    }
}

/// The position of the first entry with a path.
pub open spec fn first_index(es: Seq<EntryView>, path: Seq<char>) -> Option<int>
    decreases es.len(),
{
    if es.len() == 0 {
        None
    } else {
        match first_index(es.drop_last(), path) {
            Some(i) => Some(i),
            None => if es.last().path == path {
                Some(es.len() - 1)
            } else {
                None
            },
        }
    }
}

/// Paths as text.
pub open spec fn path_texts(ps: Seq<EntryPath>) -> Seq<Seq<char>> {
    ps.map_values(|p: EntryPath| p@)
}

/// The state in which a run begins, or why it does not begin.
pub open spec fn run_start<A: Archive>(
    m: A::Model,
    selection: Seq<Seq<char>>,
    opts: ExtractOptionsView,
) -> std::result::Result<RunView<A::Model>, ErrorView> {
    if opts.create_top_folder {
        Err(ErrorView::UnsupportedFeature(top_folder_text()))
    } else {
        match A::listing(m) {
            Err(e) => Err(e),
            Ok(es) => match selected(es, selection) {
                Err(e) => Err(e),
                Ok(entries) => if entries.len() > opts.limits.max_entries {
                    Err(ErrorView::LimitExceeded(opts.limits))
                } else {
                    Ok(
                        RunView {
                            archive: m,
                            opts,
                            entries,
                            at: 0,
                            phase: Phase::Ready,
                            report: empty_report(),
                            dirs: Seq::empty(),
                            content: Seq::empty(),
                            offset: 0,
                        },
                    )
                },
            },
        }
    }
}

/// What is said where a top-level folder is asked for.
pub open spec fn top_folder_text() -> Seq<char> {
    "create_top_folder: the archive name is not available in the frozen ExtractEngine::run API"@
}

/// An extraction in progress.
pub struct ExtractRun<'a, A: Archive> {
    archive: &'a A,
    opts: ExtractOptions,
    entries: Vec<EntryMeta>,
    at: usize,
    phase: Phase,
    report: ExtractReport,
    dirs: Vec<(EntryPath, Timestamp)>,
    content: Vec<u8>,
    offset: usize,
}

/// The directories to restore as mathematical values.
pub open spec fn dir_views(ds: Seq<(EntryPath, Timestamp)>) -> Seq<DirTime> {
    ds.map_values(|d: (EntryPath, Timestamp)| (d.0@, d.1))
}

impl<'a, A: Archive> View for ExtractRun<'a, A> {
    type V = RunView<A::Model>;

    closed spec fn view(&self) -> RunView<A::Model> {
        RunView {
            archive: self.archive.model(),
            opts: self.opts@,
            entries: views(self.entries@),
            at: self.at as int,
            phase: self.phase,
            report: self.report@,
            dirs: dir_views(self.dirs@),
            content: self.content@,
            offset: self.offset as int,
        }
    }
}

/// How deep a path lies.
fn path_depth(path: &EntryPath) -> (r: usize)
    ensures
        r == depth_of(path@),
        r <= path@.len(),
{
    let chars = chars_of(path.as_str());
    let mut n: usize = 0;
    let mut i: usize = 0;
    while i < chars.len()
        invariant
            i <= chars@.len(),
            n == depth_of(chars@.take(i as int)),
            n <= i,
        decreases chars@.len() - i,
    {
        assert(chars@.take(i + 1).drop_last() =~= chars@.take(i as int));
        if chars[i] == '/' {
            n += 1;
        }
        i += 1;
    }
    assert(chars@.take(i as int) =~= path@);
    n
}

/// Where `insert_dir` puts a directory.
proof fn insert_dir_at(dirs: Seq<DirTime>, d: DirTime, at: int)
    requires
        0 <= at <= dirs.len(),
        at > 0 ==> depth_of(dirs[at - 1].0) >= depth_of(d.0),
        forall|i: int| at <= i < dirs.len() ==> depth_of((#[trigger] dirs[i]).0) < depth_of(d.0),
    ensures
        insert_dir(dirs, d) == dirs.insert(at, d),
    decreases dirs.len(),
{
    if at == dirs.len() {
        assert(dirs.insert(at, d) =~= dirs.push(d));
    } else {
        let front = dirs.drop_last();
        assert forall|i: int| at <= i < front.len() implies depth_of((#[trigger] front[i]).0)
            < depth_of(d.0) by {
            assert(front[i] == dirs[i]);
        }
        insert_dir_at(front, d, at);
        assert(dirs[dirs.len() - 1] == dirs.last());
        assert(dirs.insert(at, d) =~= front.insert(at, d).push(dirs.last()));
    }
}

/// Whether a time comes before another.
pub(crate) fn comes_before(a: Timestamp, b: Timestamp) -> (r: bool)
    ensures
        r == is_before(a, b),
{
    a.secs < b.secs || (a.secs == b.secs && a.nanos < b.nanos)
}

/// Whether an error ends the whole run rather than being recorded for its entry.
fn ends_run(e: &Error) -> (r: bool)
    ensures
        r == is_fatal(e@),
{
    match e {
        Error::Cancelled => true,
        Error::LimitExceeded(_) => true,
        _ => false,
    }
}

impl<'a, A: Archive> ExtractRun<'a, A> {
    /// Wait in a phase for what an action brings.
    fn wait(&mut self, phase: Phase, action: Action) -> (r: Action)
        ensures
            (final(self)@, r@) == old(self)@.wait(phase, action@),
    {
        self.phase = phase;
        action
    }

    /// End the run with an error.
    fn abort(&mut self, e: Error) -> (r: Action)
        ensures
            (final(self)@, r@) == old(self)@.finish(Err(e@)),
    {
        self.phase = Phase::Over;
        self.report = ExtractReport::default();
        Action::Finish(Err(e))
    }

    /// End the run with its report.
    fn complete(&mut self) -> (r: Action)
        ensures
            (final(self)@, r@) == old(self)@.finish(Ok(old(self)@.report)),
    {
        let mut report = ExtractReport::default();
        core::mem::swap(&mut report, &mut self.report);
        self.phase = Phase::Over;
        Action::Finish(Ok(report))
    }

    /// A copy of the current entry's path.
    fn path(&self) -> (r: EntryPath)
        requires
            self@.at < self@.entries.len(),
        ensures
            r@ == self@.entry().path,
    {
        self.entries[self.at].path.clone()
    }

    /// The current entry's modification time, where it is to be preserved.
    fn wanted_time(&self) -> (r: Option<Timestamp>)
        requires
            self@.at < self@.entries.len(),
        ensures
            r == if self@.opts.preserve_mtime {
                self@.entry().mtime
            } else {
                None
            },
    {
        if self.opts.preserve_mtime {
            self.entries[self.at].mtime
        } else {
            None
        }
    }

    /// The current entry is done.
    fn done(&mut self) -> (r: Action)
        requires
            old(self)@.at < old(self)@.entries.len(),
        ensures
            (final(self)@, r@) == old(self)@.done(),
    {
        let path = self.path();
        self.wait(Phase::Done, Action::EntryDone(path))
    }

    /// The current entry was extracted.
    fn extracted(&mut self) -> (r: Action)
        requires
            old(self)@.placed(),
            old(self)@.balanced(),
            old(self)@.in_entry(),
            !old(self)@.counted(),
        ensures
            (final(self)@, r@) == old(self)@.extracted(),
    {
        let count: usize = self.entries.len();
        assert(self.report.extracted < count);
        self.report.extracted = self.report.extracted + 1;
        self.done()
    }

    /// The current entry was skipped.
    fn skipped(&mut self) -> (r: Action)
        requires
            old(self)@.placed(),
            old(self)@.balanced(),
            old(self)@.in_entry(),
            !old(self)@.counted(),
        ensures
            (final(self)@, r@) == old(self)@.skipped(),
    {
        let count: usize = self.entries.len();
        assert(self.report.skipped < count);
        self.report.skipped = self.report.skipped + 1;
        self.done()
    }

    /// The current entry failed.
    fn failed(&mut self, e: Error) -> (r: Action)
        requires
            old(self)@.at < old(self)@.entries.len(),
        ensures
            (final(self)@, r@) == old(self)@.failed(e@),
    {
        if ends_run(&e) {
            return self.abort(e);
        }
        let path = self.path();
        let ghost before = self.report.failed@;
        self.report.failed.push((path, e));
        assert(failure_views(self.report.failed@) =~= failure_views(before).push((path@, e@)));
        self.done()
    }

    /// The next entry, or the end of the run.
    fn begin(&mut self) -> (r: Action)
        ensures
            (final(self)@, r@) == old(self)@.begin(),
    {
        if self.at < self.entries.len() {
            self.wait(Phase::BeforeEntry, Action::PollCancel)
        } else {
            self.restore()
        }
    }

    /// The next directory whose time is to be restored, or the end of the run.
    fn restore(&mut self) -> (r: Action)
        ensures
            (final(self)@, r@) == old(self)@.restore(),
    {
        if self.dirs.len() > 0 {
            let ghost before = self.dirs@;
            let (path, time) = self.dirs.remove(0);
            assert(dir_views(self.dirs@) =~= dir_views(before).drop_first());
            self.wait(Phase::Restoring, Action::RestoreDirTime(path, time))
        } else {
            self.complete()
        }
    }

    /// The current entry has been announced.
    fn started(&mut self) -> (r: Action)
        requires
            old(self)@.wf(),
            old(self)@.phase == Phase::Started,
        ensures
            (final(self)@, r@) == old(self)@.started(),
    {
        let path = self.path();
        match self.entries[self.at].kind {
            NodeKind::Dir => self.wait(Phase::Dir, Action::CreateDir(path)),
            NodeKind::Symlink => self.skipped(),
            NodeKind::File | NodeKind::Archive => self.wait(Phase::Probing, Action::Probe(path)),
        }
    }

    /// Remember a directory whose time is to be restored.
    fn remember_dir(&mut self, time: Timestamp)
        requires
            old(self)@.at < old(self)@.entries.len(),
        ensures
            final(self)@ == (RunView {
                dirs: insert_dir(old(self)@.dirs, (old(self)@.entry().path, time)),
                ..old(self)@
            }),
    {
        let path = self.path();
        let depth = path_depth(&path);
        let ghost ds = dir_views(self.dirs@);
        let mut at: usize = self.dirs.len();
        while at > 0 && path_depth(&self.dirs[at - 1].0) < depth
            invariant
                at <= self.dirs@.len(),
                depth == depth_of(path@),
                ds == dir_views(self.dirs@),
                forall|i: int|
                    at <= i < ds.len() ==> depth_of((#[trigger] ds[i]).0) < depth_of(path@),
            decreases at,
        {
            at -= 1;
            assert(ds[at as int].0 == self.dirs@[at as int].0@);
        }
        proof {
            if at > 0 {
                assert(ds[at - 1].0 == self.dirs@[at - 1].0@);
            }
            insert_dir_at(ds, (path@, time), at as int);
        }
        self.dirs.insert(at, (path, time));
        assert(dir_views(self.dirs@) =~= ds.insert(at as int, (path@, time)));
    }

    /// The current directory exists.
    fn dir_created(&mut self) -> (r: Action)
        requires
            old(self)@.wf(),
            old(self)@.phase == Phase::Dir,
        ensures
            (final(self)@, r@) == old(self)@.dir_created(),
    {
        if let Some(time) = self.wanted_time() {
            self.remember_dir(time);
        }
        self.extracted()
    }

    /// The current file is to be written.
    fn accept(&mut self) -> (r: Action)
        requires
            old(self)@.at < old(self)@.entries.len(),
        ensures
            (final(self)@, r@) == old(self)@.accept(),
    {
        let path = self.path();
        self.wait(Phase::Parent, Action::CreateParent(path))
    }

    /// The current file exists: the policy decides.
    fn conflict(&mut self) -> (r: Action)
        requires
            old(self)@.wf(),
            old(self)@.phase == Phase::Probing,
        ensures
            (final(self)@, r@) == old(self)@.conflict(),
    {
        match self.opts.overwrite {
            OverwritePolicy::Always => self.accept(),
            OverwritePolicy::Never => self.skipped(),
            OverwritePolicy::Ask => {
                let path = self.path();
                self.wait(Phase::Deciding, Action::AskOverwrite(path))
            },
            OverwritePolicy::Newer => {
                if self.entries[self.at].mtime.is_some() {
                    let path = self.path();
                    self.wait(Phase::Comparing, Action::QueryModified(path))
                } else {
                    self.accept()
                }
            },
        }
    }

    /// The time of the existing file is known, if at all.
    fn compared(&mut self, existing: Option<Timestamp>) -> (r: Action)
        requires
            old(self)@.wf(),
            old(self)@.phase == Phase::Comparing,
        ensures
            (final(self)@, r@) == old(self)@.compared(existing),
    {
        match (self.entries[self.at].mtime, existing) {
            (Some(src), Some(dst)) => {
                if !comes_before(dst, src) {
                    self.skipped()
                } else {
                    self.accept()
                }
            },
            // No source mtime or unreadable destination: overwrite.
            _ => self.accept(),
        }
    }

    /// The current file is open: its content is needed.
    fn opened(&mut self) -> (r: Action)
        requires
            old(self)@.at < old(self)@.entries.len(),
        ensures
            (final(self)@, r@) == old(self)@.opened(
                A::content(old(self)@.archive, old(self)@.entry()),
            ),
    {
        match self.archive.reader(&self.entries[self.at]) {
            Ok(content) => {
                self.content = content;
                self.offset = 0;
                self.wait(Phase::BeforeChunk, Action::PollCancel)
            },
            Err(e) => self.failed(e),
        }
    }

    /// The next chunk of the current file, or its end.
    fn chunk(&mut self) -> (r: Action)
        requires
            old(self)@.wf(),
            old(self)@.phase == Phase::BeforeChunk,
        ensures
            (final(self)@, r@) == old(self)@.chunk(),
    {
        let path = self.path();
        if self.offset == self.content.len() {
            return match self.wanted_time() {
                Some(time) => self.wait(Phase::Time, Action::SetModified(path, time)),
                None => self.extracted(),
            };
        }
        let left: usize = self.content.len() - self.offset;
        let n: usize = if left < COPY_CHUNK {
            left
        } else {
            COPY_CHUNK
        };
        let limits = self.opts.limits;
        if n as u64 > limits.max_total_bytes - self.report.total_bytes {
            return self.abort(Error::LimitExceeded(limits));
        }
        let bytes = slice_to_vec(
            slice_subrange(self.content.as_slice(), self.offset, self.offset + n),
        );
        self.report.total_bytes = self.report.total_bytes + n as u64;
        self.offset = self.offset + n;
        self.wait(Phase::Chunk, Action::Write(path, bytes))
    }

    /// What to do next, now that `reply` has come of what was done last.
    ///
    /// The first call begins the run, whatever reply it is given. After [`Action::Finish`] there is
    /// nothing more to do.
    pub fn next(&mut self, reply: Reply) -> (r: Action)
        requires
            old(self)@.wf(),
        ensures
            final(self)@.wf(),
            (final(self)@, r@) == old(self)@.turn(
                reply,
                A::content(old(self)@.archive, old(self)@.entry()),
            ),
    {
        proof {
            turn_keeps_wf(self@, reply, A::content(self@.archive, self@.entry()));
        }
        match self.phase {
            Phase::Ready => self.wait(Phase::Destination, Action::CreateDestination),
            Phase::Destination => match reply.take_failure() {
                Some(m) => self.abort(Error::Io(m)),
                None => self.begin(),
            },
            Phase::BeforeEntry => {
                if reply.is_yes() {
                    return self.abort(Error::Cancelled);
                }
                let path = self.path();
                let size = self.entries[self.at].uncompressed_size;
                self.wait(Phase::Started, Action::EntryStarted(path, size))
            },
            Phase::Started => self.started(),
            Phase::Dir => match reply.take_failure() {
                Some(m) => self.failed(Error::Io(m)),
                None => self.dir_created(),
            },
            Phase::Probing => {
                if reply.is_yes() {
                    self.conflict()
                } else {
                    self.accept()
                }
            },
            Phase::Deciding => {
                if reply.is_overwrite() {
                    self.accept()
                } else {
                    self.skipped()
                }
            },
            Phase::Comparing => self.compared(reply.modified()),
            Phase::Parent => match reply.take_failure() {
                Some(m) => self.failed(Error::Io(m)),
                None => {
                    let path = self.path();
                    self.wait(Phase::File, Action::CreateFile(path))
                },
            },
            Phase::File => match reply.take_failure() {
                Some(m) => self.failed(Error::Io(m)),
                None => self.opened(),
            },
            Phase::BeforeChunk => {
                if reply.is_yes() {
                    return self.abort(Error::Cancelled);
                }
                self.chunk()
            },
            Phase::Chunk => match reply.take_failure() {
                Some(m) => self.failed(Error::Io(m)),
                None => self.wait(Phase::BeforeChunk, Action::PollCancel),
            },
            Phase::Time => match reply.take_failure() {
                Some(m) => self.failed(Error::Io(m)),
                None => self.extracted(),
            },
            Phase::Done => self.wait(Phase::AfterEntry, Action::PollCancel),
            Phase::AfterEntry => {
                if reply.is_yes() {
                    return self.abort(Error::Cancelled);
                }
                let count: usize = self.entries.len();
                assert(self.at < count);
                self.at = self.at + 1;
                self.begin()
            },
            Phase::Restoring => self.restore(),
            Phase::Over => Action::Nothing,
        }
    }
}

/// The first entry with a path.
pub(crate) fn find_first(es: &Vec<EntryMeta>, path: &EntryPath) -> (r: Option<usize>)
    ensures
        match r {
            Some(i) => i < es@.len() && first_index(views(es@), path@) == Some(i as int),
            None => first_index(views(es@), path@) is None,
        },
{
    let ghost vs = views(es@);
    let mut i: usize = 0;
    while i < es.len()
        invariant
            i <= es@.len(),
            vs == views(es@),
            first_index(vs.take(i as int), path@) is None,
        decreases es@.len() - i,
    {
        assert(vs.take(i + 1).drop_last() =~= vs.take(i as int));
        assert(vs.take(i + 1).last() == es@[i as int]@);
        if es[i].path.same(path) {
            proof {
                first_index_stays(vs, path@, i + 1, vs.len() as int);
                assert(vs.take(vs.len() as int) =~= vs);
            }
            return Some(i);
        }
        i += 1;
    }
    assert(vs.take(i as int) =~= vs);
    None
}

/// Once a path has been found, it stays found.
proof fn first_index_stays(es: Seq<EntryView>, path: Seq<char>, i: int, n: int)
    requires
        0 <= i <= n <= es.len(),
        first_index(es.take(i), path) is Some,
    ensures
        first_index(es.take(n), path) == first_index(es.take(i), path),
    decreases n - i,
{
    if i < n {
        first_index_stays(es, path, i, n - 1);
        assert(es.take(n).drop_last() =~= es.take(n - 1));
    }
}

/// Once a path is missing, the error stays.
proof fn picked_stuck(es: Seq<EntryView>, paths: Seq<Seq<char>>, i: int, n: int)
    requires
        0 <= i <= n <= paths.len(),
        picked(es, paths.take(i)) is Err,
    ensures
        picked(es, paths.take(n)) == picked(es, paths.take(i)),
    decreases n - i,
{
    if i < n {
        picked_stuck(es, paths, i, n - 1);
        assert(paths.take(n).drop_last() =~= paths.take(n - 1));
    }
}

/// Resolve `selection` to entry metadata (empty selection = all entries).
pub fn resolve_selection<A: Archive>(archive: &A, selection: &[EntryPath]) -> (r: Result<
    Vec<EntryMeta>,
>)
    ensures
        ({
            let want = match A::listing(archive.model()) {
                Err(e) => Err(e),
                Ok(es) => selected(es, path_texts(selection@)),
            };
            match r {
                Ok(es) => want == Ok::<Seq<EntryView>, ErrorView>(views(es@)),
                Err(e) => want == Err::<Seq<EntryView>, ErrorView>(e@),
            }
        }),
{
    let entries = match archive.entries() {
        Ok(entries) => entries,
        Err(e) => return Err(e),
    };
    if selection.len() == 0 {
        return Ok(entries);
    }
    let ghost (es, ps) = (views(entries@), path_texts(selection@));
    let mut out: Vec<EntryMeta> = Vec::new();
    let mut i: usize = 0;
    assert(views(out@) =~= Seq::<EntryView>::empty());
    while i < selection.len()
        invariant
            i <= selection@.len(),
            es == views(entries@),
            ps == path_texts(selection@),
            A::listing(archive.model()) == Ok::<Seq<EntryView>, ErrorView>(es),
            selection@.len() > 0,
            picked(es, ps.take(i as int)) == Ok::<Seq<EntryView>, ErrorView>(views(out@)),
        decreases selection@.len() - i,
    {
        let path = &selection[i];
        assert(ps.take(i + 1).drop_last() =~= ps.take(i as int));
        assert(ps.take(i + 1).last() == path@);
        match find_first(&entries, path) {
            Some(k) => {
                let ghost before = out@;
                let found = entries[k].clone();
                assert(es[k as int] == found@);
                out.push(found);
                assert(views(out@) =~= views(before).push(found@));
            },
            None => {
                proof {
                    picked_stuck(es, ps, i + 1, ps.len() as int);
                    assert(ps.take(ps.len() as int) =~= ps);
                }
                return Err(
                    Error::CorruptArchive(concat2("no such entry in archive: ", path.as_str())),
                );
            },
        }
        i += 1;
    }
    assert(ps.take(i as int) =~= ps);
    Ok(out)
}

/// The extraction engine.
pub struct ExtractEngine;

impl ExtractEngine {
    /// Begin to extract `selection` (empty means all entries) from `archive`.
    ///
    /// - Every destination is the path of an entry, a normal path, and so stays inside the
    ///   destination directory.
    /// - Symbolic links are never materialized (counted as skipped).
    /// - Too many entries are refused here, too many bytes end the run, both with
    ///   [`Error::LimitExceeded`].
    /// - Cancellation is asked for before each entry and each chunk.
    ///
    /// Failures of single entries are collected in the report and do not end the run, except for
    /// [`Error::Cancelled`] and [`Error::LimitExceeded`].
    pub fn begin<'a, A: Archive>(
        archive: &'a A,
        selection: &[EntryPath],
        opts: &ExtractOptions,
    ) -> (r: Result<ExtractRun<'a, A>>)
        ensures
            match r {
                Ok(run) => run@.wf() && run_start::<A>(
                    archive.model(),
                    path_texts(selection@),
                    opts@,
                ) == Ok::<RunView<A::Model>, ErrorView>(run@),
                Err(e) => run_start::<A>(archive.model(), path_texts(selection@), opts@) == Err::<
                    RunView<A::Model>,
                    ErrorView,
                >(e@),
            },
    {
        if opts.create_top_folder {
            return Err(
                Error::no_feature(
                    "create_top_folder: the archive name is not available in the frozen ExtractEngine::run API",
                ),
            );
        }
        let entries = match resolve_selection(archive, selection) {
            Ok(entries) => entries,
            Err(e) => return Err(e),
        };
        if entries.len() as u64 > opts.limits.max_entries {
            return Err(Error::LimitExceeded(opts.limits));
        }
        check_normal(&entries);
        let run = ExtractRun {
            archive,
            opts: opts.clone(),
            entries,
            at: 0,
            phase: Phase::Ready,
            report: ExtractReport::default(),
            dirs: Vec::new(),
            content: Vec::new(),
            offset: 0,
        };
        assert(dir_views(run.dirs@) =~= Seq::<DirTime>::empty());
        assert(run.content@ =~= Seq::<u8>::empty());
        Ok(run)
    }
}

/// Every entry has a normal path.
fn check_normal(entries: &Vec<EntryMeta>)
    ensures
        forall|i: int|
            0 <= i < views(entries@).len() ==> is_normal((#[trigger] views(entries@)[i]).path),
{
    let mut i: usize = 0;
    while i < entries.len()
        invariant
            i <= entries@.len(),
            forall|j: int| 0 <= j < i ==> is_normal((#[trigger] views(entries@)[j]).path),
        decreases entries@.len() - i,
    {
        let _ = entries[i].path.as_str();
        assert(views(entries@)[i as int] == entries@[i as int]@);
        i += 1;
    }
}

} // verus!
