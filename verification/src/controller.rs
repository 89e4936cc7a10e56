//! Controller: the state machine between the user's intentions and the archives.
//!
//! The controller reads no files and writes none. It turns an [`Intent`] into a [`Step`]: the events
//! to show, the directories to discard and, where something has to be done outside, a [`Request`].
//! Whoever drives it performs the request and hands the [`Outcome`] back.

use vstd::prelude::*;
use vstd::string::*;

use crate::archive::{Archive, OpenOptions, OptionsView};
use crate::config::{with_recent, AppConfig, ConfigView};
use crate::encoding::FilenameEncoding;
use crate::error::{Error, ErrorView, Result};
use crate::extract::{
    empty_report, find_first, first_index, path_texts, picked, picked_entries_have_their_paths,
    run_start, ExtractOptions, ExtractOptionsView, ExtractReport, OverwritePolicy, ReportView,
};
use crate::file_path::{display_file_name, is_same_path, same_path, shown_file_name};
use crate::format::{ArchiveFormat, CodecFormat};
use crate::model::{
    clone_entries, is_at_or_below, is_normal, joined, normal_path_cut, opt_text, parent_of, pieces,
    views, EntryMeta, EntryPath, EntryView, NodeKind, Secret,
};
use crate::navigate::opt_path;
use crate::registry::{Registry, RegistryView};
use crate::source::{file_source, Source};
use crate::text::{after_last, chars_of, concat2, concat3, tail_after, text_of};

verus! {

/// A user intention submitted to the controller.
#[derive(Debug)]
pub enum Intent {
    /// Open a top-level archive from disk, optionally with a password.
    Open { path: String, password: Option<String> },
    /// Enter a child directory or a nested archive (relative to the current archive).
    Enter { path: EntryPath },
    /// Go back up one level (parent directory or outer archive).
    Back,
    /// Jump to a breadcrumb segment, by its index in the last `Navigated` event.
    JumpTo { depth: usize },
    /// Extract a selection of entries (empty means all) to a directory.
    Extract { selection: Vec<EntryPath>, dest_dir: String },
    /// Extract a single file entry to a temporary location for previewing.
    Preview { path: EntryPath },
    /// Cancel the in-flight operation (extraction).
    Cancel,
    /// Change the filename decoding strategy and refresh the view.
    SetEncoding(FilenameEncoding),
    /// Change the overwrite policy used by extraction.
    SetOverwrite(OverwritePolicy),
    /// Change whether extraction preserves entry modification times.
    SetPreserveMtime(bool),
}

/// A progress snapshot emitted during a long-running operation.
#[derive(Debug, PartialEq, Eq)]
pub struct ProgressUpdate {
    /// Path of the entry currently being processed, if any.
    pub current: Option<EntryPath>,
    /// Bytes processed so far.
    pub bytes_done: u64,
    /// Total bytes expected, if known.
    pub bytes_total: Option<u64>,
    /// Entries completed so far.
    pub entries_done: u64,
}

/// A [`ProgressUpdate`] as a mathematical value.
pub struct ProgressView {
    pub current: Option<Seq<char>>,
    pub bytes_done: u64,
    pub bytes_total: Option<u64>,
    pub entries_done: u64,
}

impl View for ProgressUpdate {
    type V = ProgressView;

    open spec fn view(&self) -> ProgressView {
        ProgressView {
            current: opt_path(self.current),
            bytes_done: self.bytes_done,
            bytes_total: self.bytes_total,
            entries_done: self.entries_done,
        }
    }
}

impl Clone for ProgressUpdate {
    fn clone(&self) -> (r: Self)
        ensures
            r@ == self@,
    {
        ProgressUpdate {
            current: clone_path(&self.current),
            bytes_done: self.bytes_done,
            bytes_total: self.bytes_total,
            entries_done: self.entries_done,
        }
    }
}

impl Default for ProgressUpdate {
    fn default() -> (r: Self)
        ensures
            r@ == (ProgressView {
                current: None,
                bytes_done: 0,
                bytes_total: None,
                entries_done: 0,
            }),
    {
        ProgressUpdate { current: None, bytes_done: 0, bytes_total: None, entries_done: 0 }
    }
}

/// A clickable breadcrumb segment emitted in `Navigated` events.
#[derive(Debug, PartialEq, Eq)]
pub struct BreadcrumbSegment {
    /// Display label (archive file name, nested-archive entry name, or a directory component).
    pub label: String,
    /// Frame index in the navigation stack this segment points into.
    pub frame: usize,
    /// Directory within that frame (`None` = frame root).
    pub focus: Option<EntryPath>,
}

/// A [`BreadcrumbSegment`] as a mathematical value.
pub struct CrumbView {
    pub label: Seq<char>,
    pub frame: int,
    pub focus: Option<Seq<char>>,
}

impl View for BreadcrumbSegment {
    type V = CrumbView;

    open spec fn view(&self) -> CrumbView {
        CrumbView {
            label: self.label@,
            frame: self.frame as int,
            focus: opt_path(self.focus),
        }
    }
}

impl Clone for BreadcrumbSegment {
    fn clone(&self) -> (r: Self)
        ensures
            r@ == self@,
    {
        BreadcrumbSegment {
            label: self.label.clone(),
            frame: self.frame,
            focus: clone_path(&self.focus),
        }
    }
}

/// The segments as mathematical values.
pub open spec fn crumb_views(cs: Seq<BreadcrumbSegment>) -> Seq<CrumbView> {
    cs.map_values(|c: BreadcrumbSegment| c@)
}

/// An event produced by the controller for the UI to render.
#[derive(Debug)]
pub enum Event {
    /// A top-level archive was opened successfully: its name and its flat listing.
    Opened { name: String, entries: Vec<EntryMeta> },
    /// The view changed: clickable segments, the directory in focus (`None` = root) and the flat
    /// listing of the archive at the top of the navigation stack.
    Navigated {
        breadcrumb: Vec<BreadcrumbSegment>,
        focus: Option<EntryPath>,
        entries: Vec<EntryMeta>,
    },
    /// The archive needs a password: either to be opened, or for its members to be read.
    PasswordRequired { path: String },
    /// The supplied password was rejected.
    WrongPassword { path: String },
    /// Progress of an in-flight extraction.
    Progress(ProgressUpdate),
    /// An existing destination file conflicts with an entry while the overwrite policy is
    /// [`OverwritePolicy::Ask`].
    AskOverwrite { path: EntryPath, dest: String },
    /// A single file entry was extracted for previewing.
    PreviewReady { temp_path: String },
    /// An extraction run completed.
    Done(ExtractReport),
    /// The in-flight operation was cancelled.
    Cancelled,
    /// The requested capability is not available.
    Unsupported(String),
    /// A generic, user-presentable error.
    Error(String),
    /// The configuration changed (settings UI should refresh and persist).
    ConfigChanged(AppConfig),
}

/// An [`Event`] as a mathematical value.
pub enum EventView {
    Opened { name: Seq<char>, entries: Seq<EntryView> },
    Navigated {
        breadcrumb: Seq<CrumbView>,
        focus: Option<Seq<char>>,
        entries: Seq<EntryView>,
    },
    PasswordRequired { path: Seq<char> },
    WrongPassword { path: Seq<char> },
    Progress(ProgressView),
    AskOverwrite { path: Seq<char>, dest: Seq<char> },
    PreviewReady { temp_path: Seq<char> },
    Done(ReportView),
    Cancelled,
    Unsupported(Seq<char>),
    Error(Seq<char>),
    ConfigChanged(ConfigView),
}

impl View for Event {
    type V = EventView;

    open spec fn view(&self) -> EventView {
        match self {
            Event::Opened { name, entries } => EventView::Opened {
                name: name@,
                entries: views(entries@),
            },
            Event::Navigated { breadcrumb, focus, entries } => EventView::Navigated {
                breadcrumb: crumb_views(breadcrumb@),
                focus: opt_path(*focus),
                entries: views(entries@),
            },
            Event::PasswordRequired { path } => EventView::PasswordRequired { path: path@ },
            Event::WrongPassword { path } => EventView::WrongPassword { path: path@ },
            Event::Progress(p) => EventView::Progress(p@),
            Event::AskOverwrite { path, dest } => EventView::AskOverwrite {
                path: path@,
                dest: dest@,
            },
            Event::PreviewReady { temp_path } => EventView::PreviewReady { temp_path: temp_path@ },
            Event::Done(r) => EventView::Done(r@),
            Event::Cancelled => EventView::Cancelled,
            Event::Unsupported(m) => EventView::Unsupported(m@),
            Event::Error(m) => EventView::Error(m@),
            Event::ConfigChanged(c) => EventView::ConfigChanged(c@),
        }
    }
}

/// The events as mathematical values.
pub open spec fn event_views(es: Seq<Event>) -> Seq<EventView> {
    es.map_values(|e: Event| e@)
}

/// Something that has to be done outside.
#[derive(Debug)]
pub enum Request {
    /// Nothing has to be done.
    Nothing,
    /// Cancel the extraction that runs, if one does. There is no outcome to hand back.
    Cancel,
    /// Read a file.
    ReadFile { path: String },
    /// Create a fresh temporary directory for a preview.
    MakePreviewDir,
    /// Write a preview file into its directory.
    WritePreview { dir: String, name: String, bytes: Vec<u8> },
    /// Extract from the archive in view, reporting against a total of bytes.
    Extract { selection: Vec<EntryPath>, opts: ExtractOptions, total_bytes: u64 },
}

/// A [`Request`] as a mathematical value.
pub enum RequestView {
    Nothing,
    Cancel,
    ReadFile { path: Seq<char> },
    MakePreviewDir,
    WritePreview { dir: Seq<char>, name: Seq<char>, bytes: Seq<u8> },
    Extract { selection: Seq<Seq<char>>, opts: ExtractOptionsView, total_bytes: u64 },
}

impl View for Request {
    type V = RequestView;

    open spec fn view(&self) -> RequestView {
        match self {
            Request::Nothing => RequestView::Nothing,
            Request::Cancel => RequestView::Cancel,
            Request::ReadFile { path } => RequestView::ReadFile { path: path@ },
            Request::MakePreviewDir => RequestView::MakePreviewDir,
            Request::WritePreview { dir, name, bytes } => RequestView::WritePreview {
                dir: dir@,
                name: name@,
                bytes: bytes@,
            },
            Request::Extract { selection, opts, total_bytes } => RequestView::Extract {
                selection: path_texts(selection@),
                opts: opts@,
                total_bytes: *total_bytes,
            },
        }
    }
}

/// What came of a request.
pub enum Outcome {
    /// A file was read, and holds these bytes.
    Loaded(Vec<u8>),
    /// The directory for a preview was created.
    PreviewDir(String),
    /// The preview file was written, at this path.
    PreviewFile(String),
    /// An extraction has ended.
    Extracted(Result<ExtractReport>),
    /// The request failed, with the text of the I/O error.
    Failed(String),
}

/// An [`Outcome`] as a mathematical value.
pub enum OutcomeView {
    Loaded(Seq<u8>),
    PreviewDir(Seq<char>),
    PreviewFile(Seq<char>),
    Extracted(std::result::Result<ReportView, ErrorView>),
    Failed(Seq<char>),
}

impl View for Outcome {
    type V = OutcomeView;

    open spec fn view(&self) -> OutcomeView {
        match self {
            Outcome::Loaded(bytes) => OutcomeView::Loaded(bytes@),
            Outcome::PreviewDir(dir) => OutcomeView::PreviewDir(dir@),
            Outcome::PreviewFile(path) => OutcomeView::PreviewFile(path@),
            Outcome::Extracted(Ok(r)) => OutcomeView::Extracted(Ok(r@)),
            Outcome::Extracted(Err(e)) => OutcomeView::Extracted(Err(e@)),
            Outcome::Failed(m) => OutcomeView::Failed(m@),
        }
    }
}

/// What the controller has to say after an intent or an outcome. The directories are discarded
/// first, as far as that is possible, then the events are shown, then the request is performed.
pub struct Step {
    pub discard: Vec<String>,
    pub events: Vec<Event>,
    pub request: Request,
}

/// A [`Step`] as a mathematical value.
pub struct StepView {
    pub discard: Seq<Seq<char>>,
    pub events: Seq<EventView>,
    pub request: RequestView,
}

impl View for Step {
    type V = StepView;

    open spec fn view(&self) -> StepView {
        StepView {
            discard: crate::config::texts(self.discard@),
            events: event_views(self.events@),
            request: self.request@,
        }
    }
}

/// A step in which nothing happens.
pub open spec fn quiet() -> StepView {
    StepView { discard: Seq::empty(), events: Seq::empty(), request: RequestView::Nothing }
}

impl StepView {
    /// With one more event.
    pub open spec fn tells(self, e: EventView) -> StepView {
        StepView { events: self.events.push(e), ..self }
    }

    /// With a directory to discard, if there is one.
    pub open spec fn drops(self, dir: Option<Seq<char>>) -> StepView {
        match dir {
            Some(d) => StepView { discard: self.discard.push(d), ..self },
            None => self,
        }
    }

    /// With a request.
    pub open spec fn asks(self, request: RequestView) -> StepView {
        StepView { request, ..self }
    }
}

impl Step {
    /// A step in which nothing happens.
    fn quiet() -> (r: Self)
        ensures
            r@ == quiet(),
    {
        let r = Step { discard: Vec::new(), events: Vec::new(), request: Request::Nothing };
        assert(r@.discard =~= quiet().discard);
        assert(r@.events =~= quiet().events);
        r
    }

    /// Tell one more event.
    fn tell(&mut self, e: Event)
        ensures
            final(self)@ == old(self)@.tells(e@),
    {
        let ghost before = self.events@;
        self.events.push(e);
        assert(event_views(self.events@) =~= event_views(before).push(e@));
    }

    /// Tell of an error.
    fn tell_error(&mut self, m: &str)
        ensures
            final(self)@ == old(self)@.tells(EventView::Error(m@)),
    {
        self.tell(Event::Error(m.to_string()));
    }

    /// Discard a directory, if there is one.
    fn drop_dir(&mut self, dir: Option<String>)
        ensures
            final(self)@ == old(self)@.drops(opt_text(dir)),
    {
        if let Some(d) = dir {
            let ghost before = self.discard@;
            self.discard.push(d);
            assert(crate::config::texts(self.discard@) =~= crate::config::texts(before).push(d@));
        }
    }
}

/// A copy of an optional path.
pub(crate) fn clone_path(p: &Option<EntryPath>) -> (r: Option<EntryPath>)
    ensures
        opt_path(r) == opt_path(*p),
{
    match p {
        Some(p) => Some(p.clone()),
        None => None,
    }
}

/// A copy of an optional text.
fn clone_text(s: &Option<String>) -> (r: Option<String>)
    ensures
        opt_text(r) == opt_text(*s),
{
    match s {
        Some(s) => Some(s.clone()),
        None => None,
    }
}

/// The archives that a format opens, as mathematical values.
pub type ModelOf<F> = <<F as ArchiveFormat>::Opened as Archive>::Model;

/// One level of the navigation stack as a mathematical value.
pub struct LevelView<M> {
    /// The archive open at this level.
    pub model: M,
    /// Display name (file name for the first level, entry name for nested ones).
    pub name: Seq<char>,
    /// The entry that opened this level; none for the first.
    pub entry_path: Option<Seq<char>>,
    /// Directory currently in focus within this archive (`None` = root).
    pub focus: Option<Seq<char>>,
    /// The flat listing.
    pub entries: Seq<EntryView>,
}

/// Where an operation was deferred: the top-level archive, and the entries through which its nested
/// archives were entered.
pub struct ContextView {
    pub archive: Seq<char>,
    pub nested_chain: Seq<Seq<char>>,
}

/// A deferred preview as a mathematical value.
pub struct PendingPreviewView {
    pub context: ContextView,
    pub entry: Seq<char>,
}

/// A deferred extraction as a mathematical value.
pub struct PendingExtractView {
    pub context: ContextView,
    pub selection: Seq<Seq<char>>,
    pub dest_dir: Seq<char>,
}

/// What the controller waits for. `then` is the archive for which deferred operations are being
/// retried.
pub enum WaitingView {
    Idle,
    Opening { path: Seq<char>, password: Option<Seq<char>> },
    PreviewDir { entry: Seq<char>, then: Option<Seq<char>> },
    PreviewFile { dir: Seq<char>, then: Option<Seq<char>> },
    Extracting,
}

/// The controller as a mathematical value.
#[verifier::reject_recursive_types(F)]
#[verifier::reject_recursive_types(C)]
pub struct CoreView<F: ArchiveFormat, C: CodecFormat> {
    pub registry: RegistryView<F, C>,
    pub config: ConfigView,
    pub stack: Seq<LevelView<ModelOf<F>>>,
    /// The last archive that was opened, and its password.
    pub last_open: Option<(Seq<char>, Option<Seq<char>>)>,
    pub preview_dir: Option<Seq<char>>,
    pub pending_preview: Option<PendingPreviewView>,
    pub pending_extract: Option<PendingExtractView>,
    pub waiting: WaitingView,
}

/// The segments for the directories that lead to `focus`: one for each of its components.
pub open spec fn dir_crumbs(ps: Seq<Seq<char>>, frame: int, n: int) -> Seq<CrumbView>
    decreases n,
{
    if n <= 0 {
        Seq::empty()
    } else {
        dir_crumbs(ps, frame, n - 1).push(
            CrumbView { label: ps[n - 1], frame, focus: Some(joined(ps.take(n))) },
        )
    }
}

/// The segments for one level: its archive, then the directories down to its focus.
pub open spec fn level_crumbs<M>(l: LevelView<M>, frame: int) -> Seq<CrumbView> {
    let here = seq![CrumbView { label: l.name, frame, focus: None }];
    match l.focus {
        Some(f) => here + dir_crumbs(pieces(f), frame, pieces(f).len() as int),
        None => here,
    }
}

/// The segments for the whole stack.
pub open spec fn crumbs<M>(ls: Seq<LevelView<M>>) -> Seq<CrumbView>
    decreases ls.len(),
{
    if ls.len() == 0 {
        Seq::empty()
    } else {
        crumbs(ls.drop_last()) + level_crumbs(ls.last(), ls.len() - 1)
    }
}

/// Whether a listing has an entry below a path.
pub open spec fn has_below(es: Seq<EntryView>, path: Seq<char>) -> bool {
    exists|i: int|
        0 <= i < es.len() && is_at_or_below((#[trigger] es[i]).path, path) && es[i].path != path
}

/// What a path is in a listing: the kind of its first entry, or a directory where only deeper
/// paths name it.
pub open spec fn kind_at(es: Seq<EntryView>, path: Seq<char>) -> Option<NodeKind> {
    match first_index(es, path) {
        Some(i) => Some(es[i].kind),
        None => if has_below(es, path) {
            Some(NodeKind::Dir)
        } else {
            None
        },
    }
}

/// Whether an entry is selected: it is one of the selected paths or lies below one.
pub open spec fn is_selected(e: EntryView, selection: Seq<Seq<char>>) -> bool {
    exists|i: int| 0 <= i < selection.len() && is_at_or_below(e.path, #[trigger] selection[i])
}

/// The selected entries in listing order; all of them where nothing is selected.
pub open spec fn expanded(es: Seq<EntryView>, selection: Seq<Seq<char>>) -> Seq<EntryView>
    decreases es.len(),
{
    if selection.len() == 0 {
        es
    } else if es.len() == 0 {
        Seq::empty()
    } else if is_selected(es.last(), selection) {
        expanded(es.drop_last(), selection).push(es.last())
    } else {
        expanded(es.drop_last(), selection)
    }
}

/// The paths of some entries.
pub open spec fn paths_of(es: Seq<EntryView>) -> Seq<Seq<char>> {
    es.map_values(|e: EntryView| e.path)
}

/// The sum of the known sizes, as far as it can be represented.
pub open spec fn total_size(es: Seq<EntryView>) -> u64
    decreases es.len(),
{
    if es.len() == 0 {
        0
    } else {
        let front = total_size(es.drop_last());
        match es.last().uncompressed_size {
            Some(size) => if front + size > u64::MAX {
                u64::MAX
            } else {
                (front + size) as u64
            },
            None => front,
        }
    }
}

/// Whether one of the entries is encrypted.
pub open spec fn some_encrypted(es: Seq<EntryView>) -> bool {
    exists|i: int| 0 <= i < es.len() && (#[trigger] es[i]).encrypted
}

/// The entries through which the levels above the first were entered.
pub open spec fn chain_of<M>(ls: Seq<LevelView<M>>) -> Seq<Seq<char>>
    decreases ls.len(),
{
    if ls.len() <= 1 {
        Seq::empty()
    } else {
        match ls.last().entry_path {
            Some(p) => chain_of(ls.drop_last()).push(p),
            None => chain_of(ls.drop_last()),
        }
    }
}

/// A password as bytes.
pub open spec fn secret_of(password: Option<Seq<char>>) -> Option<Seq<u8>> {
    match password {
        Some(s) => Some(vstd::utf8::encode_utf8(s)),
        None => None,
    }
}

/// What the controller comes to be, and what it says.
pub type Out<F, C> = (CoreView<F, C>, StepView);

impl<F: ArchiveFormat, C: CodecFormat> CoreView<F, C> {
    /// The level in view.
    pub open spec fn top(self) -> LevelView<ModelOf<F>> {
        self.stack.last()
    }

    /// Nothing more is to be done.
    pub open spec fn rest(self, s: StepView) -> Out<F, C> {
        (CoreView { waiting: WaitingView::Idle, ..self }, s)
    }

    /// The event that shows the current view.
    pub open spec fn shown(self) -> EventView {
        EventView::Navigated {
            breadcrumb: crumbs(self.stack),
            focus: self.top().focus,
            entries: self.top().entries,
        }
    }

    /// With another focus in the level in view.
    pub open spec fn refocused(self, focus: Option<Seq<char>>) -> Self {
        CoreView {
            stack: self.stack.drop_last().push(LevelView { focus, ..self.top() }),
            ..self
        }
    }

    /// The options with which archives are opened.
    pub open spec fn open_options(self, password: Option<Seq<char>>) -> OptionsView {
        OptionsView { password: secret_of(password), encoding: self.config.filename_encoding }
    }

    /// The password of the archive that is open.
    pub open spec fn password(self) -> Option<Seq<char>> {
        match self.last_open {
            Some((_, p)) => p,
            None => None,
        }
    }

    /// Enter a path: a directory is focused, an archive is opened as a new level.
    pub open spec fn enter(self, path: Seq<char>, s: StepView) -> (Self, StepView) {
        if self.stack.len() == 0 {
            (self, s.tells(EventView::Error("no archive open"@)))
        } else {
            match kind_at(self.top().entries, path) {
                None => (self, s.tells(EventView::Error("entry not found: "@ + path))),
                Some(NodeKind::Dir) => {
                    let next = self.refocused(Some(path));
                    (next, s.tells(next.shown()))
                },
                Some(NodeKind::Archive) => self.descend(path, s),
                Some(_) => (
                    self,
                    s.tells(
                        EventView::Unsupported(
                            "opening '"@ + path + "' is not implemented yet"@,
                        ),
                    ),
                ),
            }
        }
    }

    /// Open the archive at a path as a new level.
    pub open spec fn descend(self, path: Seq<char>, s: StepView) -> (Self, StepView) {
        let e = self.top().entries[first_index(self.top().entries, path)->0];
        match F::Opened::nested(self.top().model, e, self.open_options(self.password())) {
            Err(e) => (self, s.tells(EventView::Error(e.message()))),
            Ok(m) => match F::Opened::listing(m) {
                Err(e) => (self, s.tells(EventView::Error(e.message()))),
                Ok(entries) => {
                    let next = CoreView {
                        stack: self.stack.push(
                            LevelView {
                                model: m,
                                name: after_last(path, '/'),
                                entry_path: Some(path),
                                focus: None,
                                entries,
                            },
                        ),
                        ..self
                    };
                    (next, s.tells(next.shown()))
                },
            },
        }
    }

    /// Enter several paths, one after the other.
    pub open spec fn reenter(self, chain: Seq<Seq<char>>, s: StepView) -> (Self, StepView)
        decreases chain.len(),
    {
        if chain.len() == 0 {
            (self, s)
        } else {
            let (next, t) = self.reenter(chain.drop_last(), s);
            next.enter(chain.last(), t)
        }
    }

    /// Go back up one level: to the parent directory, or to the outer archive. At the top, stay.
    pub open spec fn back(self, s: StepView) -> (Self, StepView) {
        if self.stack.len() == 0 {
            (self, s.tells(EventView::Error("no archive open"@)))
        } else if self.top().focus is None && self.stack.len() == 1 {
            (self, s)
        } else {
            let next = match self.top().focus {
                Some(f) => self.refocused(parent_of(f)),
                None => CoreView { stack: self.stack.drop_last(), ..self },
            };
            (next, s.tells(next.shown()))
        }
    }

    /// Jump to a breadcrumb segment.
    pub open spec fn jump_to(self, depth: int, s: StepView) -> (Self, StepView) {
        let cs = crumbs(self.stack);
        if 0 <= depth < cs.len() {
            let next = CoreView {
                stack: self.stack.take(cs[depth].frame + 1),
                ..self
            }.refocused(cs[depth].focus);
            (next, s.tells(next.shown()))
        } else {
            (self, s.tells(EventView::Error("invalid breadcrumb depth"@)))
        }
    }

    /// Begin to open an archive: the last preview is dropped and the file is to be read.
    pub open spec fn open(
        self,
        path: Seq<char>,
        password: Option<Seq<char>>,
        s: StepView,
    ) -> Out<F, C> {
        (
            CoreView {
                preview_dir: None,
                waiting: WaitingView::Opening { path, password },
                ..self
            },
            s.drops(self.preview_dir).asks(RequestView::ReadFile { path }),
        )
    }

    /// The file of an archive has been read, or not.
    pub open spec fn loaded(
        self,
        path: Seq<char>,
        password: Option<Seq<char>>,
        outcome: OutcomeView,
        s: StepView,
    ) -> Out<F, C> {
        match outcome {
            OutcomeView::Loaded(bytes) => match self.registry.opened(
                file_source(path, bytes),
                self.open_options(password),
            ) {
                Err(ErrorView::PasswordRequired) => self.rest(
                    s.tells(EventView::PasswordRequired { path }),
                ),
                Err(ErrorView::WrongPassword) => self.rest(
                    s.tells(EventView::WrongPassword { path }),
                ),
                Err(e) => self.rest(s.tells(EventView::Error(e.message()))),
                Ok(m) => match F::Opened::listing(m) {
                    Err(e) => self.rest(s.tells(EventView::Error(e.message()))),
                    Ok(entries) => self.opened(
                        path,
                        password,
                        shown_file_name(path),
                        m,
                        entries,
                        s,
                    ),
                },
            },
            _ => self.rest(s.tells(EventView::Error(io_failure(outcome)))),
        }
    }

    /// With an archive open at its root, and remembered as recent.
    pub open spec fn at_root(
        self,
        path: Seq<char>,
        password: Option<Seq<char>>,
        name: Seq<char>,
        m: ModelOf<F>,
        entries: Seq<EntryView>,
    ) -> Self {
        CoreView {
            stack: seq![LevelView { model: m, name, entry_path: None, focus: None, entries }],
            last_open: Some((path, password)),
            config: ConfigView {
                recent_files: with_recent(self.config.recent_files, path),
                ..self.config
            },
            ..self
        }
    }

    /// An archive is open: it is shown from its root, and remembered as recent. Where its members
    /// are encrypted and no password was given, one is asked for at once. Where one was given, the
    /// operations that were deferred for lack of it are retried.
    pub open spec fn opened(
        self,
        path: Seq<char>,
        password: Option<Seq<char>>,
        name: Seq<char>,
        m: ModelOf<F>,
        entries: Seq<EntryView>,
        s: StepView,
    ) -> Out<F, C> {
        let next = self.at_root(path, password, name, m, entries);
        let t = s.tells(EventView::ConfigChanged(next.config)).tells(
            EventView::Opened { name, entries },
        );
        if password is Some {
            next.retry_preview(path, t)
        } else if F::Opened::abilities(m).needs_password {
            next.rest(t.tells(EventView::PasswordRequired { path }))
        } else {
            next.rest(t)
        }
    }

    /// Where an operation is deferred.
    pub open spec fn context(self) -> ContextView {
        ContextView {
            archive: match self.last_open {
                Some((p, _)) => p,
                None => "archive"@,
            },
            nested_chain: chain_of(self.stack),
        }
    }

    /// Retry the preview that was deferred for this archive, then the extraction. What was deferred
    /// for another archive is forgotten.
    pub open spec fn retry_preview(self, path: Seq<char>, s: StepView) -> Out<F, C> {
        let next = CoreView { pending_preview: None, ..self };
        match self.pending_preview {
            Some(p) => if is_same_path(p.context.archive, path) {
                let (there, t) = next.reenter(p.context.nested_chain, s);
                there.preview(p.entry, Some(path), t)
            } else {
                next.retry_extract(path, s)
            },
            None => self.retry_extract(path, s),
        }
    }

    /// Retry the extraction that was deferred for this archive.
    pub open spec fn retry_extract(self, path: Seq<char>, s: StepView) -> Out<F, C> {
        let next = CoreView { pending_extract: None, ..self };
        match self.pending_extract {
            Some(p) => if is_same_path(p.context.archive, path) {
                let (there, t) = next.reenter(p.context.nested_chain, s);
                there.extract(p.selection, p.dest_dir, t)
            } else {
                next.rest(s)
            },
            None => self.rest(s),
        }
    }

    /// A preview has come to its end; what else was deferred is retried.
    pub open spec fn preview_over(self, then: Option<Seq<char>>, s: StepView) -> Out<F, C> {
        match then {
            Some(path) => self.retry_extract(path, s),
            None => self.rest(s),
        }
    }

    /// Begin to preview a file: the last preview is dropped and a directory is needed.
    pub open spec fn preview(
        self,
        path: Seq<char>,
        then: Option<Seq<char>>,
        s: StepView,
    ) -> Out<F, C> {
        if self.stack.len() == 0 {
            self.preview_over(then, s.tells(EventView::Error("no archive open"@)))
        } else {
            match first_index(self.top().entries, path) {
                None => self.preview_over(
                    then,
                    s.tells(EventView::Error("entry not found: "@ + path)),
                ),
                Some(i) => if self.top().entries[i].kind != NodeKind::File {
                    self.preview_over(
                        then,
                        s.tells(
                            EventView::Error("cannot preview '"@ + path + "' (not a file)"@),
                        ),
                    )
                } else {
                    (
                        CoreView {
                            preview_dir: None,
                            waiting: WaitingView::PreviewDir { entry: path, then },
                            ..self
                        },
                        s.drops(self.preview_dir).asks(RequestView::MakePreviewDir),
                    )
                },
            }
        }
    }

    /// The directory for a preview exists, or not: the file's content is read. Where that needs a
    /// password, the preview is deferred and a password is asked for.
    pub open spec fn preview_dir_made(
        self,
        path: Seq<char>,
        then: Option<Seq<char>>,
        outcome: OutcomeView,
        s: StepView,
    ) -> Out<F, C> {
        match outcome {
            OutcomeView::PreviewDir(dir) => if self.stack.len() == 0 {
                self.preview_over(then, s.tells(EventView::Error("no archive open"@)))
            } else {
                match first_index(self.top().entries, path) {
                    None => self.preview_over(
                        then,
                        s.tells(EventView::Error("entry not found: "@ + path)),
                    ),
                    Some(i) => match F::Opened::content(
                        self.top().model,
                        self.top().entries[i],
                    ) {
                        Ok(bytes) => (
                            CoreView {
                                waiting: WaitingView::PreviewFile { dir, then },
                                ..self
                            },
                            s.asks(
                                RequestView::WritePreview {
                                    dir,
                                    name: after_last(path, '/'),
                                    bytes,
                                },
                            ),
                        ),
                        Err(ErrorView::PasswordRequired) => CoreView {
                            pending_preview: Some(
                                PendingPreviewView { context: self.context(), entry: path },
                            ),
                            ..self
                        }.preview_over(
                            then,
                            s.drops(Some(dir)).tells(
                                EventView::PasswordRequired { path: self.context().archive },
                            ),
                        ),
                        Err(e) => self.preview_over(then, s.tells(EventView::Error(e.message()))),
                    },
                }
            },
            _ => self.preview_over(then, s.tells(EventView::Error(io_failure(outcome)))),
        }
    }

    /// The preview file is written, or not.
    pub open spec fn preview_written(
        self,
        dir: Seq<char>,
        then: Option<Seq<char>>,
        outcome: OutcomeView,
        s: StepView,
    ) -> Out<F, C> {
        match outcome {
            OutcomeView::PreviewFile(temp_path) => CoreView {
                preview_dir: Some(dir),
                ..self
            }.preview_over(then, s.tells(EventView::PreviewReady { temp_path })),
            _ => self.preview_over(then, s.tells(EventView::Error(io_failure(outcome)))),
        }
    }

    /// Begin an extraction. A selected directory stands for everything below it. A selection that
    /// covers no entry is done at once. Where a password is needed and was not given, the extraction
    /// is deferred and a password is asked for.
    pub open spec fn extract(
        self,
        selection: Seq<Seq<char>>,
        dest_dir: Seq<char>,
        s: StepView,
    ) -> Out<F, C> {
        if self.stack.len() == 0 {
            self.rest(s.tells(EventView::Error("no archive open"@)))
        } else {
            let chosen = expanded(self.top().entries, selection);
            if selection.len() > 0 && chosen.len() == 0 {
                self.rest(s.tells(EventView::Done(empty_report())))
            } else if F::Opened::abilities(self.top().model).needs_password && some_encrypted(chosen) {
                CoreView {
                    pending_extract: Some(
                        PendingExtractView {
                            context: self.context(),
                            selection: paths_of(chosen),
                            dest_dir,
                        },
                    ),
                    ..self
                }.rest(s.tells(EventView::PasswordRequired { path: self.context().archive }))
            } else {
                (
                    CoreView { waiting: WaitingView::Extracting, ..self },
                    s.asks(
                        RequestView::Extract {
                            selection: paths_of(chosen),
                            opts: ExtractOptionsView {
                                dest_dir,
                                overwrite: self.config.overwrite_policy,
                                preserve_mtime: self.config.preserve_mtime,
                                create_top_folder: false,
                                limits: self.config.safety_limits,
                            },
                            total_bytes: total_size(chosen),
                        },
                    ),
                )
            }
        }
    }

    /// An extraction has ended.
    pub open spec fn extracted(self, outcome: OutcomeView, s: StepView) -> Out<F, C> {
        match outcome {
            OutcomeView::Extracted(Ok(r)) => self.rest(s.tells(EventView::Done(r))),
            OutcomeView::Extracted(Err(ErrorView::Cancelled)) => self.rest(
                s.tells(EventView::Cancelled),
            ),
            OutcomeView::Extracted(Err(e)) => self.rest(s.tells(EventView::Error(e.message()))),
            _ => self.rest(s.tells(EventView::Error(io_failure(outcome)))),
        }
    }

    /// Other settings, which are told.
    pub open spec fn configured(self, config: ConfigView, s: StepView) -> (Self, StepView) {
        (CoreView { config, ..self }, s.tells(EventView::ConfigChanged(config)))
    }

    /// What happens on an intent.
    pub open spec fn on_intent(self, intent: Intent) -> Out<F, C> {
        match intent {
            Intent::Open { path, password } => self.open(path@, opt_text(password), quiet()),
            Intent::Enter { path } => {
                let (next, s) = self.enter(path@, quiet());
                next.rest(s)
            },
            Intent::Back => {
                let (next, s) = self.back(quiet());
                next.rest(s)
            },
            Intent::JumpTo { depth } => {
                let (next, s) = self.jump_to(depth as int, quiet());
                next.rest(s)
            },
            Intent::Extract { selection, dest_dir } => self.extract(
                path_texts(selection@),
                dest_dir@,
                quiet(),
            ),
            Intent::Preview { path } => self.preview(path@, None, quiet()),
            Intent::Cancel => self.rest(
                quiet().tells(EventView::Cancelled).asks(RequestView::Cancel),
            ),
            Intent::SetEncoding(encoding) => {
                let (next, s) = self.configured(
                    ConfigView { filename_encoding: encoding, ..self.config },
                    quiet(),
                );
                match self.last_open {
                    Some((path, password)) => next.open(path, password, s),
                    None => next.rest(s),
                }
            },
            Intent::SetOverwrite(policy) => {
                let (next, s) = self.configured(
                    ConfigView { overwrite_policy: policy, ..self.config },
                    quiet(),
                );
                next.rest(s)
            },
            Intent::SetPreserveMtime(value) => {
                let (next, s) = self.configured(
                    ConfigView { preserve_mtime: value, ..self.config },
                    quiet(),
                );
                next.rest(s)
            },
        }
    }

    /// What happens on the outcome of a request.
    pub open spec fn on_outcome(self, outcome: OutcomeView) -> Out<F, C> {
        let now = CoreView { waiting: WaitingView::Idle, ..self };
        match self.waiting {
            WaitingView::Idle => now.rest(quiet()),
            WaitingView::Opening { path, password } => now.loaded(
                path,
                password,
                outcome,
                quiet(),
            ),
            WaitingView::PreviewDir { entry, then } => now.preview_dir_made(
                entry,
                then,
                outcome,
                quiet(),
            ),
            WaitingView::PreviewFile { dir, then } => now.preview_written(
                dir,
                then,
                outcome,
                quiet(),
            ),
            WaitingView::Extracting => now.extracted(outcome, quiet()),
        }
    }
}

/// The message for a request that failed.
pub open spec fn io_failure(outcome: OutcomeView) -> Seq<char> {
    match outcome {
        OutcomeView::Failed(m) => "i/o error: "@ + m,
        _ => "i/o error: "@,
    }
}

/// What an extraction tells of its progress, entry by entry.
pub struct ExtractProgress {
    total_bytes: u64,
    done_bytes: u64,
    entries_done: u64,
}

/// An [`ExtractProgress`] as a mathematical value.
pub struct ExtractProgressView {
    pub total_bytes: u64,
    pub done_bytes: u64,
    pub entries_done: u64,
}

impl View for ExtractProgress {
    type V = ExtractProgressView;

    closed spec fn view(&self) -> ExtractProgressView {
        ExtractProgressView {
            total_bytes: self.total_bytes,
            done_bytes: self.done_bytes,
            entries_done: self.entries_done,
        }
    }
}

/// The sum of two numbers, as far as it can be represented.
pub open spec fn capped_sum(a: u64, b: u64) -> u64 {
    if a + b > u64::MAX {
        u64::MAX
    } else {
        (a + b) as u64
    }
}

impl ExtractProgress {
    /// Nothing has been done yet of a total of bytes.
    pub fn new(total_bytes: u64) -> (r: Self)
        ensures
            r@ == (ExtractProgressView { total_bytes, done_bytes: 0, entries_done: 0 }),
    {
        ExtractProgress { total_bytes, done_bytes: 0, entries_done: 0 }
    }

    /// What to tell when an entry begins.
    pub fn entry_started(&self, path: &EntryPath) -> (r: ProgressUpdate)
        ensures
            r@ == (ProgressView {
                current: Some(path@),
                bytes_done: self@.done_bytes,
                bytes_total: Some(self@.total_bytes),
                entries_done: self@.entries_done,
            }),
    {
        ProgressUpdate {
            current: Some(path.clone()),
            bytes_done: self.done_bytes,
            bytes_total: Some(self.total_bytes),
            entries_done: self.entries_done,
        }
    }

    /// More bytes have been written.
    pub fn bytes_written(&mut self, delta: u64)
        ensures
            final(self)@ == (ExtractProgressView {
                done_bytes: capped_sum(old(self)@.done_bytes, delta),
                ..old(self)@
            }),
    {
        self.done_bytes = if delta > u64::MAX - self.done_bytes {
            u64::MAX
        } else {
            self.done_bytes + delta
        };
    }

    /// One more entry is done.
    pub fn entry_done(&mut self)
        ensures
            final(self)@ == (ExtractProgressView {
                entries_done: capped_sum(old(self)@.entries_done, 1),
                ..old(self)@
            }),
    {
        self.entries_done = if self.entries_done == u64::MAX {
            u64::MAX
        } else {
            self.entries_done + 1
        };
    }
}

/// All segments of a level point into it, and there are as many as components.
proof fn dir_crumbs_frames(ps: Seq<Seq<char>>, frame: int, n: int)
    requires
        0 <= n,
    ensures
        dir_crumbs(ps, frame, n).len() == n,
        forall|k: int|
            0 <= k < n ==> #[trigger] dir_crumbs(ps, frame, n)[k] == (CrumbView {
                label: ps[k],
                frame,
                focus: Some(joined(ps.take(k + 1))),
            }),
    decreases n,
{
    if n > 0 {
        dir_crumbs_frames(ps, frame, n - 1);
    }
}

/// Every segment points into a level of the stack.
pub proof fn crumb_frames<M>(ls: Seq<LevelView<M>>, depth: int)
    requires
        0 <= depth < crumbs(ls).len(),
    ensures
        0 <= crumbs(ls)[depth].frame < ls.len(),
    decreases ls.len(),
{
    if ls.len() > 0 {
        let front = crumbs(ls.drop_last());
        if depth < front.len() {
            crumb_frames(ls.drop_last(), depth);
        } else {
            match ls.last().focus {
                Some(f) => {
                    dir_crumbs_frames(pieces(f), ls.len() - 1, pieces(f).len() as int);
                    if depth > front.len() {
                        assert(level_crumbs(ls.last(), ls.len() - 1)[depth - front.len()]
                            == dir_crumbs(pieces(f), ls.len() - 1, pieces(f).len() as int)[depth
                            - front.len() - 1]);
                    }
                },
                None => {},
            }
        }
    }
}

/// Whether all the paths are normal.
pub open spec fn all_normal(ps: Seq<Seq<char>>) -> bool {
    forall|i: int| 0 <= i < ps.len() ==> is_normal(#[trigger] ps[i])
}

impl<F: ArchiveFormat, C: CodecFormat> CoreView<F, C> {
    /// Every level shows the listing of its archive; the first was opened from a file and the
    /// others from entries; what is in focus is a normal path.
    pub open spec fn levels_ok(self) -> bool {
        forall|i: int|
            0 <= i < self.stack.len() ==> {
                let l = #[trigger] self.stack[i];
                &&& F::Opened::listing(l.model) == Ok::<Seq<EntryView>, ErrorView>(l.entries)
                &&& (l.entry_path is None <==> i == 0)
                &&& l.entry_path is Some ==> is_normal(l.entry_path->0)
                &&& l.focus is Some ==> is_normal(l.focus->0)
            }
    }

    /// What was deferred is named by normal paths.
    pub open spec fn pending_ok(self) -> bool {
        &&& self.pending_preview is Some ==> is_normal(self.pending_preview->0.entry) && all_normal(
            self.pending_preview->0.context.nested_chain,
        )
        &&& self.pending_extract is Some ==> all_normal(
            self.pending_extract->0.context.nested_chain,
        )
        &&& match self.waiting {
            WaitingView::PreviewDir { entry, then: _ } => is_normal(entry),
            _ => true,
        }
    }

    /// What holds of every state that the controller comes to.
    pub open spec fn wf(self) -> bool {
        self.levels_ok() && self.pending_ok()
    }
}

/// The entries through which the levels were entered are normal paths.
proof fn chain_normal<F: ArchiveFormat, C: CodecFormat>(v: CoreView<F, C>, n: int)
    requires
        v.levels_ok(),
        0 <= n <= v.stack.len(),
    ensures
        all_normal(chain_of(v.stack.take(n))),
    decreases n,
{
    if n > 1 {
        chain_normal(v, n - 1);
        assert(v.stack.take(n).drop_last() =~= v.stack.take(n - 1));
        assert(v.stack.take(n).last() == v.stack[n - 1]);
    }
}

/// Another focus, if it is a normal path, leaves the levels in order.
proof fn refocused_ok<F: ArchiveFormat, C: CodecFormat>(
    v: CoreView<F, C>,
    focus: Option<Seq<char>>,
)
    requires
        v.levels_ok(),
        v.stack.len() > 0,
        focus is Some ==> is_normal(focus->0),
    ensures
        v.refocused(focus).levels_ok(),
        v.refocused(focus).stack.len() == v.stack.len(),
{
    let w = v.refocused(focus);
    assert forall|i: int| 0 <= i < w.stack.len() implies {
        let l = #[trigger] w.stack[i];
        &&& F::Opened::listing(l.model) == Ok::<Seq<EntryView>, ErrorView>(l.entries)
        &&& (l.entry_path is None <==> i == 0)
        &&& l.entry_path is Some ==> is_normal(l.entry_path->0)
        &&& l.focus is Some ==> is_normal(l.focus->0)
    } by {
        if i < v.stack.len() - 1 {
            assert(w.stack[i] == v.stack[i]);
        } else {
            assert(v.stack[v.stack.len() - 1] == v.top());
        }
    }
}

/// The parent of a normal path is a normal path.
proof fn parent_normal(f: Seq<char>)
    requires
        is_normal(f),
    ensures
        parent_of(f) is Some ==> is_normal(parent_of(f)->0),
{
    crate::model::parent_splits(f);
    match parent_of(f) {
        Some(p) => normal_path_cut(p, f.skip(p.len() as int + 1)),
        None => {},
    }
}

/// Entering keeps the levels in order and changes nothing else.
proof fn enter_ok<F: ArchiveFormat, C: CodecFormat>(
    v: CoreView<F, C>,
    path: Seq<char>,
    s: StepView,
)
    requires
        v.levels_ok(),
        is_normal(path),
    ensures
        v.enter(path, s).0.levels_ok(),
        v.enter(path, s).0 == (CoreView { stack: v.enter(path, s).0.stack, ..v }),
{
    if v.stack.len() > 0 {
        match kind_at(v.top().entries, path) {
            Some(NodeKind::Dir) => refocused_ok(v, Some(path)),
            Some(NodeKind::Archive) => {
                let w = v.enter(path, s).0;
                assert forall|i: int| 0 <= i < w.stack.len() implies {
                    let l = #[trigger] w.stack[i];
                    &&& F::Opened::listing(l.model) == Ok::<Seq<EntryView>, ErrorView>(l.entries)
                    &&& (l.entry_path is None <==> i == 0)
                    &&& l.entry_path is Some ==> is_normal(l.entry_path->0)
                    &&& l.focus is Some ==> is_normal(l.focus->0)
                } by {
                    if i < v.stack.len() {
                        assert(w.stack[i] == v.stack[i]);
                    }
                }
            },
            _ => {},
        }
    }
}

/// Entering several paths keeps the levels in order and changes nothing else.
proof fn reenter_ok<F: ArchiveFormat, C: CodecFormat>(
    v: CoreView<F, C>,
    chain: Seq<Seq<char>>,
    s: StepView,
)
    requires
        v.levels_ok(),
        all_normal(chain),
    ensures
        v.reenter(chain, s).0.levels_ok(),
        v.reenter(chain, s).0 == (CoreView { stack: v.reenter(chain, s).0.stack, ..v }),
    decreases chain.len(),
{
    if chain.len() > 0 {
        let front = chain.drop_last();
        assert forall|i: int| 0 <= i < front.len() implies is_normal(#[trigger] front[i]) by {
            assert(front[i] == chain[i]);
        }
        reenter_ok(v, front, s);
        let (w, t) = v.reenter(front, s);
        assert(is_normal(chain[chain.len() - 1]));
        enter_ok(w, chain.last(), t);
    } else {
        assert(v.reenter(chain, s).0 == v);
    }
}

/// Beginning an extraction keeps the controller in order.
proof fn extract_ok<F: ArchiveFormat, C: CodecFormat>(
    v: CoreView<F, C>,
    selection: Seq<Seq<char>>,
    dest_dir: Seq<char>,
    s: StepView,
)
    requires
        v.wf(),
    ensures
        v.extract(selection, dest_dir, s).0.wf(),
{
    chain_normal(v, v.stack.len() as int);
    assert(v.stack.take(v.stack.len() as int) =~= v.stack);
}

/// Retrying an extraction keeps the controller in order.
proof fn retry_extract_ok<F: ArchiveFormat, C: CodecFormat>(
    v: CoreView<F, C>,
    path: Seq<char>,
    s: StepView,
)
    requires
        v.wf(),
    ensures
        v.retry_extract(path, s).0.wf(),
{
    match v.pending_extract {
        Some(p) => {
            let next = CoreView { pending_extract: None, ..v };
            assert(next.levels_ok());
            if is_same_path(p.context.archive, path) {
                reenter_ok(next, p.context.nested_chain, s);
                let (w, t) = next.reenter(p.context.nested_chain, s);
                assert(w.wf());
                extract_ok(w, p.selection, p.dest_dir, t);
            }
        },
        None => {},
    }
}

/// The end of a preview keeps the controller in order.
proof fn preview_over_ok<F: ArchiveFormat, C: CodecFormat>(
    v: CoreView<F, C>,
    then: Option<Seq<char>>,
    s: StepView,
)
    requires
        v.wf(),
    ensures
        v.preview_over(then, s).0.wf(),
{
    match then {
        Some(path) => retry_extract_ok(v, path, s),
        None => {},
    }
}

/// Beginning a preview keeps the controller in order.
proof fn preview_ok<F: ArchiveFormat, C: CodecFormat>(
    v: CoreView<F, C>,
    path: Seq<char>,
    then: Option<Seq<char>>,
    s: StepView,
)
    requires
        v.wf(),
        is_normal(path),
    ensures
        v.preview(path, then, s).0.wf(),
{
    if v.stack.len() == 0 {
        preview_over_ok(v, then, s.tells(EventView::Error("no archive open"@)));
    } else {
        match first_index(v.top().entries, path) {
            None => preview_over_ok(
                v,
                then,
                s.tells(EventView::Error("entry not found: "@ + path)),
            ),
            Some(i) => if v.top().entries[i].kind != NodeKind::File {
                preview_over_ok(
                    v,
                    then,
                    s.tells(EventView::Error("cannot preview '"@ + path + "' (not a file)"@)),
                );
            } else {
                assert(v.preview(path, then, s).0.levels_ok());
            },
        }
    }
}

/// Retrying a preview keeps the controller in order.
proof fn retry_preview_ok<F: ArchiveFormat, C: CodecFormat>(
    v: CoreView<F, C>,
    path: Seq<char>,
    s: StepView,
)
    requires
        v.wf(),
    ensures
        v.retry_preview(path, s).0.wf(),
{
    match v.pending_preview {
        Some(p) => {
            let next = CoreView { pending_preview: None, ..v };
            assert(next.levels_ok());
            if is_same_path(p.context.archive, path) {
                reenter_ok(next, p.context.nested_chain, s);
                let (w, t) = next.reenter(p.context.nested_chain, s);
                assert(w.wf());
                preview_ok(w, p.entry, Some(path), t);
            } else {
                retry_extract_ok(next, path, s);
            }
        },
        None => retry_extract_ok(v, path, s),
    }
}

/// Opening an archive keeps the controller in order.
proof fn opened_ok<F: ArchiveFormat, C: CodecFormat>(
    v: CoreView<F, C>,
    path: Seq<char>,
    password: Option<Seq<char>>,
    name: Seq<char>,
    m: ModelOf<F>,
    entries: Seq<EntryView>,
    s: StepView,
)
    requires
        v.wf(),
        F::Opened::listing(m) == Ok::<Seq<EntryView>, ErrorView>(entries),
    ensures
        v.opened(path, password, name, m, entries, s).0.wf(),
{
    let next = v.at_root(path, password, name, m, entries);
    assert(next.levels_ok());
    let t = s.tells(EventView::ConfigChanged(next.config)).tells(
        EventView::Opened { name, entries },
    );
    retry_preview_ok(next, path, t);
}

/// Whatever the user intends, the controller stays in order: every level shows the listing of its
/// archive. The paths of an intent are paths of entries, and so normal.
pub proof fn intents_keep_order<F: ArchiveFormat, C: CodecFormat>(v: CoreView<F, C>, intent: Intent)
    requires
        v.wf(),
        match intent {
            Intent::Enter { path } => is_normal(path@),
            Intent::Preview { path } => is_normal(path@),
            _ => true,
        },
    ensures
        v.on_intent(intent).0.wf(),
{
    match intent {
        Intent::Enter { path } => enter_ok(v, path@, quiet()),
        Intent::Back => {
            if v.stack.len() > 0 && !(v.top().focus is None && v.stack.len() == 1) {
                assert(v.stack[v.stack.len() - 1] == v.top());
                match v.top().focus {
                    Some(f) => {
                        parent_normal(f);
                        refocused_ok(v, parent_of(f));
                    },
                    None => {
                        let w = v.back(quiet()).0;
                        assert forall|i: int| 0 <= i < w.stack.len() implies w.stack[i]
                            == v.stack[i] by {}
                        assert(w.levels_ok());
                    },
                }
            }
        },
        Intent::JumpTo { depth } => {
            let cs = crumbs(v.stack);
            if depth < cs.len() {
                crumb_frames(v.stack, depth as int);
                assert(v.stack.take(v.stack.len() as int) =~= v.stack);
                crumb_focus_normal(v, v.stack.len() as int, depth as int);
                let cut = CoreView { stack: v.stack.take(cs[depth as int].frame + 1), ..v };
                assert forall|i: int| 0 <= i < cut.stack.len() implies cut.stack[i]
                    == v.stack[i] by {}
                assert(cut.levels_ok());
                refocused_ok(cut, cs[depth as int].focus);
            }
        },
        Intent::Extract { selection, dest_dir } => extract_ok(
            v,
            path_texts(selection@),
            dest_dir@,
            quiet(),
        ),
        Intent::Preview { path } => preview_ok(v, path@, None, quiet()),
        _ => {
            assert(v.on_intent(intent).0.levels_ok());
        },
    }
}

/// The first pieces of a normal path make a normal path.
proof fn front_of_normal(f: Seq<char>, k: int)
    requires
        is_normal(f),
        1 <= k <= pieces(f).len(),
    ensures
        is_normal(joined(pieces(f).take(k))),
        pieces(joined(pieces(f).take(k))) == pieces(f).take(k),
{
    let ps = pieces(f).take(k);
    crate::model::pieces_hold_no_separator(f);
    assert forall|i: int, j: int| 0 <= i < ps.len() && 0 <= j < ps[i].len() implies !crate::model::is_separator(
        #[trigger] ps[i][j],
    ) by {
        assert(ps[i] == pieces(f)[i]);
        assert(!crate::model::is_separator(pieces(f)[i][j]));
    }
    crate::model::pieces_of_joined(ps);
    assert forall|i: int| 0 <= i < ps.len() implies crate::model::is_component(#[trigger] ps[i]) by {
        assert(ps[i] == pieces(f)[i]);
    }
}

/// The directory that a segment points to is a normal path.
proof fn crumb_focus_normal<F: ArchiveFormat, C: CodecFormat>(v: CoreView<F, C>, n: int, depth: int)
    requires
        v.levels_ok(),
        0 <= n <= v.stack.len(),
        0 <= depth < crumbs(v.stack.take(n)).len(),
    ensures
        crumbs(v.stack.take(n))[depth].focus is Some ==> is_normal(
            crumbs(v.stack.take(n))[depth].focus->0,
        ),
    decreases n,
{
    if n > 0 {
        let ls = v.stack.take(n);
        assert(ls.drop_last() =~= v.stack.take(n - 1));
        assert(ls.last() == v.stack[n - 1]);
        let front = crumbs(ls.drop_last());
        if depth < front.len() {
            crumb_focus_normal(v, n - 1, depth);
        } else {
            match ls.last().focus {
                Some(f) => {
                    let k = depth - front.len();
                    dir_crumbs_frames(pieces(f), n - 1, pieces(f).len() as int);
                    if k > 0 {
                        assert(level_crumbs(ls.last(), n - 1)[k] == dir_crumbs(
                            pieces(f),
                            n - 1,
                            pieces(f).len() as int,
                        )[k - 1]);
                        front_of_normal(f, k);
                    }
                },
                None => {},
            }
        }
    }
}

/// Whatever comes of a request, the controller stays in order.
pub proof fn outcomes_keep_order<F: ArchiveFormat, C: CodecFormat>(
    v: CoreView<F, C>,
    outcome: OutcomeView,
)
    requires
        v.wf(),
    ensures
        v.on_outcome(outcome).0.wf(),
{
    let now = CoreView { waiting: WaitingView::Idle, ..v };
    assert(now.levels_ok());
    match v.waiting {
        WaitingView::Opening { path, password } => match outcome {
            OutcomeView::Loaded(bytes) => match now.registry.opened(
                file_source(path, bytes),
                now.open_options(password),
            ) {
                Ok(m) => match F::Opened::listing(m) {
                    Ok(entries) => opened_ok(
                        now,
                        path,
                        password,
                        shown_file_name(path),
                        m,
                        entries,
                        quiet(),
                    ),
                    Err(_) => {},
                },
                Err(_) => {},
            },
            _ => {},
        },
        WaitingView::PreviewDir { entry, then } => preview_dir_ok(now, entry, then, outcome),
        WaitingView::PreviewFile { dir, then } => {
            let with_dir = CoreView { preview_dir: Some(dir), ..now };
            assert(with_dir.levels_ok());
            match outcome {
                OutcomeView::PreviewFile(temp_path) => preview_over_ok(
                    with_dir,
                    then,
                    quiet().tells(EventView::PreviewReady { temp_path }),
                ),
                _ => preview_over_ok(
                    now,
                    then,
                    quiet().tells(EventView::Error(io_failure(outcome))),
                ),
            }
        },
        _ => {},
    }
}

/// The directory for a preview, or its lack, keeps the controller in order.
proof fn preview_dir_ok<F: ArchiveFormat, C: CodecFormat>(
    v: CoreView<F, C>,
    path: Seq<char>,
    then: Option<Seq<char>>,
    outcome: OutcomeView,
)
    requires
        v.wf(),
        is_normal(path),
    ensures
        v.preview_dir_made(path, then, outcome, quiet()).0.wf(),
{
    let s = quiet();
    match outcome {
        OutcomeView::PreviewDir(dir) => if v.stack.len() == 0 {
            preview_over_ok(v, then, s.tells(EventView::Error("no archive open"@)));
        } else {
            match first_index(v.top().entries, path) {
                None => preview_over_ok(
                    v,
                    then,
                    s.tells(EventView::Error("entry not found: "@ + path)),
                ),
                Some(i) => match F::Opened::content(v.top().model, v.top().entries[i]) {
                    Ok(bytes) => {
                        assert(v.preview_dir_made(path, then, outcome, s).0.levels_ok());
                    },
                    Err(e) => {
                        if e is PasswordRequired {
                            chain_normal(v, v.stack.len() as int);
                            assert(v.stack.take(v.stack.len() as int) =~= v.stack);
                            let next = CoreView {
                                pending_preview: Some(
                                    PendingPreviewView { context: v.context(), entry: path },
                                ),
                                ..v
                            };
                            assert(next.levels_ok());
                            preview_over_ok(
                                next,
                                then,
                                s.drops(Some(dir)).tells(
                                    EventView::PasswordRequired { path: v.context().archive },
                                ),
                            );
                        } else {
                            preview_over_ok(v, then, s.tells(EventView::Error(e.message())));
                        }
                    },
                },
            }
        },
        _ => preview_over_ok(v, then, s.tells(EventView::Error(io_failure(outcome)))),
    }
}

/// Jumping to a breadcrumb segment leaves exactly the segments up to it.
pub proof fn jumping_cuts_the_breadcrumb<F: ArchiveFormat, C: CodecFormat>(
    v: CoreView<F, C>,
    depth: int,
    s: StepView,
)
    requires
        v.wf(),
        0 <= depth < crumbs(v.stack).len(),
    ensures
        crumbs(v.jump_to(depth, s).0.stack) == crumbs(v.stack).take(depth + 1),
{
    assert(v.stack.take(v.stack.len() as int) =~= v.stack);
    cut_breadcrumb(v, v.stack.len() as int, depth);
}

/// The breadcrumb of the levels up to the one that a segment points into, focused on what it points
/// to.
proof fn cut_breadcrumb<F: ArchiveFormat, C: CodecFormat>(v: CoreView<F, C>, n: int, depth: int)
    requires
        v.levels_ok(),
        0 <= n <= v.stack.len(),
        0 <= depth < crumbs(v.stack.take(n)).len(),
    ensures
        ({
            let c = crumbs(v.stack.take(n))[depth];
            let cut = CoreView { stack: v.stack.take(c.frame + 1), ..v }.refocused(c.focus);
            crumbs(cut.stack) == crumbs(v.stack.take(n)).take(depth + 1)
        }),
    decreases n,
{
    let ls = v.stack.take(n);
    if n > 0 {
        assert(ls.drop_last() =~= v.stack.take(n - 1));
        assert(ls.last() == v.stack[n - 1]);
        let front = crumbs(ls.drop_last());
        let here = level_crumbs(ls.last(), n - 1);
        if depth < front.len() {
            cut_breadcrumb(v, n - 1, depth);
            assert(crumbs(ls)[depth] == front[depth]);
            assert(crumbs(ls).take(depth + 1) =~= front.take(depth + 1));
        } else {
            let k = depth - front.len();
            let c = here[k];
            match ls.last().focus {
                Some(f) => dir_crumbs_frames(pieces(f), n - 1, pieces(f).len() as int),
                None => {},
            }
            assert(c.frame == n - 1);
            let level = LevelView { focus: c.focus, ..v.stack[n - 1] };
            let cut = CoreView { stack: v.stack.take(n), ..v }.refocused(c.focus);
            assert(cut.stack.drop_last() =~= ls.drop_last());
            assert(cut.stack.last() == level);
            if k == 0 {
                assert(level_crumbs(level, n - 1) =~= here.take(1));
            } else {
                let f = ls.last().focus->0;
                let ps = pieces(f);
                front_of_normal(f, k);
                assert(c.focus == Some(joined(ps.take(k))));
                dir_crumbs_frames(ps.take(k), n - 1, k);
                let a = dir_crumbs(ps.take(k), n - 1, k);
                let b = dir_crumbs(ps, n - 1, ps.len() as int);
                assert forall|i: int| 0 <= i < k implies a[i] == b[i] by {
                    assert(ps.take(k).take(i + 1) =~= ps.take(i + 1));
                    assert(ps.take(k)[i] == ps[i]);
                }
                assert(a =~= b.take(k));
                assert(level_crumbs(level, n - 1) =~= here.take(k + 1));
            }
            assert(crumbs(ls).take(depth + 1) =~= front + here.take(k + 1));
        }
    }
}

/// Going back from a directory that was entered leads to its parent directory.
pub proof fn back_leads_to_the_parent<F: ArchiveFormat, C: CodecFormat>(
    v: CoreView<F, C>,
    path: Seq<char>,
    s: StepView,
    t: StepView,
)
    requires
        v.wf(),
        v.stack.len() > 0,
        kind_at(v.top().entries, path) == Some(NodeKind::Dir),
    ensures
        v.enter(path, s).0.back(t).0 == v.refocused(parent_of(path)),
{
    let w = v.enter(path, s).0;
    assert(w.stack.drop_last() =~= v.stack.drop_last());
}

/// Going back from a nested archive that was entered leads to where it was entered from.
pub proof fn back_leaves_a_nested_archive<F: ArchiveFormat, C: CodecFormat>(
    v: CoreView<F, C>,
    path: Seq<char>,
    s: StepView,
    t: StepView,
)
    requires
        v.wf(),
        v.stack.len() > 0,
        v.enter(path, s).0.stack.len() == v.stack.len() + 1,
    ensures
        v.enter(path, s).0.back(t).0 == v,
{
    let w = v.enter(path, s).0;
    assert(w.stack.drop_last() =~= v.stack);
}

/// A selected directory stands for everything below it: a selection covers an entry exactly if the
/// entry is one of the selected paths or lies below one, or if nothing is selected.
pub proof fn selection_covers_subtrees(es: Seq<EntryView>, selection: Seq<Seq<char>>, e: EntryView)
    ensures
        expanded(es, selection).contains(e) <==> es.contains(e) && (selection.len() == 0
            || is_selected(e, selection)),
    decreases es.len(),
{
    if selection.len() > 0 && es.len() > 0 {
        let front = es.drop_last();
        selection_covers_subtrees(front, selection, e);
        let (some, all) = (expanded(front, selection), expanded(es, selection));
        if es.contains(e) {
            let i = choose|i: int| 0 <= i < es.len() && es[i] == e;
            if i < front.len() {
                assert(front[i] == e);
            }
        }
        if front.contains(e) {
            let i = choose|i: int| 0 <= i < front.len() && front[i] == e;
            assert(es[i] == e);
        }
        if some.contains(e) {
            let i = choose|i: int| 0 <= i < some.len() && some[i] == e;
            assert(all[i] == e);
        }
        if all.contains(e) {
            let i = choose|i: int| 0 <= i < all.len() && all[i] == e;
            if i < some.len() {
                assert(some[i] == e);
            } else {
                assert(es[es.len() - 1] == e);
            }
        }
        if is_selected(es.last(), selection) {
            assert(all[all.len() - 1] == es.last());
        }
    }
}

/// Only what is selected is extracted: where something is selected and an extraction is asked for,
/// it has paths, they are paths of selected entries, and the run that begins on them holds selected
/// entries only.
pub proof fn only_selected_entries_are_extracted<F: ArchiveFormat, C: CodecFormat>(
    v: CoreView<F, C>,
    selection: Seq<Seq<char>>,
    dest_dir: Seq<char>,
    s: StepView,
)
    requires
        v.wf(),
        selection.len() > 0,
        s.request is Nothing,
    ensures
        match v.extract(selection, dest_dir, s).1.request {
            RequestView::Extract { selection: got, opts, .. } => {
                &&& got.len() > 0
                &&& forall|e: EntryView| #[trigger]
                    got.contains(e.path) ==> is_selected(e, selection)
                &&& match run_start::<F::Opened>(v.top().model, got, opts) {
                    Ok(run) => forall|i: int|
                        0 <= i < run.entries.len() ==> is_selected(
                            #[trigger] run.entries[i],
                            selection,
                        ),
                    Err(_) => true,
                }
            },
            _ => true,
        },
{
    if v.stack.len() > 0 {
        let es = v.top().entries;
        let chosen = expanded(es, selection);
        let got = paths_of(chosen);
        assert forall|e: EntryView| #[trigger] got.contains(e.path) implies is_selected(
            e,
            selection,
        ) by {
            let k = choose|k: int| 0 <= k < got.len() && got[k] == e.path;
            selection_covers_subtrees(es, selection, chosen[k]);
            assert(chosen.contains(chosen[k]));
            let i = choose|i: int|
                0 <= i < selection.len() && is_at_or_below(chosen[k].path, #[trigger] selection[i]);
            assert(is_at_or_below(e.path, selection[i]));
        }
        if chosen.len() > 0 {
            assert(v.stack[v.stack.len() - 1] == v.top());
            match picked(es, got) {
                Ok(found) => {
                    picked_entries_have_their_paths(es, got);
                    assert forall|i: int| 0 <= i < found.len() implies is_selected(
                        #[trigger] found[i],
                        selection,
                    ) by {
                        assert(got.contains(found[i].path));
                    }
                },
                Err(_) => {},
            }
        }
    }
}

/// A selection that covers no entry extracts nothing: no extraction is asked for, and the report
/// that is told is empty.
pub proof fn unmatched_selection_extracts_nothing<F: ArchiveFormat, C: CodecFormat>(
    v: CoreView<F, C>,
    selection: Seq<Seq<char>>,
    dest_dir: Seq<char>,
    s: StepView,
)
    requires
        v.stack.len() > 0,
        selection.len() > 0,
        forall|e: EntryView| #[trigger]
            v.top().entries.contains(e) ==> !is_selected(e, selection),
    ensures
        v.extract(selection, dest_dir, s) == v.rest(s.tells(EventView::Done(empty_report()))),
{
    let chosen = expanded(v.top().entries, selection);
    if chosen.len() > 0 {
        assert(chosen.contains(chosen[0]));
        selection_covers_subtrees(v.top().entries, selection, chosen[0]);
    }
}

/// Entering paths one after the other never closes the archive that is open.
proof fn reentering_keeps_an_archive<F: ArchiveFormat, C: CodecFormat>(
    v: CoreView<F, C>,
    chain: Seq<Seq<char>>,
    s: StepView,
)
    requires
        v.stack.len() > 0,
    ensures
        v.reenter(chain, s).0.stack.len() > 0,
        v.reenter(chain, s).0.pending_preview == v.pending_preview,
        v.reenter(chain, s).0.pending_extract == v.pending_extract,
    decreases chain.len(),
{
    if chain.len() > 0 {
        reentering_keeps_an_archive(v, chain.drop_last(), s);
    }
}

/// An extraction that was deferred for lack of a password begins as soon as the archive has been
/// opened with one that is enough: back in the nested archive it was asked for in, with what it was
/// asked for, as far as that is still there.
pub proof fn deferred_extraction_is_retried<F: ArchiveFormat, C: CodecFormat>(
    v: CoreView<F, C>,
    path: Seq<char>,
    password: Seq<char>,
    name: Seq<char>,
    m: ModelOf<F>,
    entries: Seq<EntryView>,
    s: StepView,
)
    requires
        v.pending_preview is None,
        v.pending_extract is Some,
        is_same_path(v.pending_extract->0.context.archive, path),
    ensures
        ({
            let p = v.pending_extract->0;
            let root = v.at_root(path, Some(password), name, m, entries);
            let (there, told) = CoreView { pending_extract: None, ..root }.reenter(
                p.context.nested_chain,
                s.tells(EventView::ConfigChanged(root.config)).tells(
                    EventView::Opened { name, entries },
                ),
            );
            let (w, t) = v.opened(path, Some(password), name, m, entries, s);
            let chosen = expanded(there.top().entries, p.selection);
            &&& there.stack.len() > 0
            &&& (w, t) == there.extract(p.selection, p.dest_dir, told)
            &&& !F::Opened::abilities(there.top().model).needs_password && chosen.len() > 0 ==> {
                &&& w.waiting is Extracting
                &&& w.pending_extract is None
                &&& t.request is Extract
                &&& t.request->Extract_selection == paths_of(chosen)
                &&& t.request->Extract_opts.dest_dir == p.dest_dir
            }
        }),
{
    let root = v.at_root(path, Some(password), name, m, entries);
    reentering_keeps_an_archive(
        CoreView { pending_extract: None, ..root },
        v.pending_extract->0.context.nested_chain,
        s.tells(EventView::ConfigChanged(root.config)).tells(EventView::Opened { name, entries }),
    );
}

/// A preview that was deferred for lack of a password is taken up as soon as the archive has been
/// opened with one, back in the nested archive it was asked for in.
pub proof fn deferred_preview_is_retried<F: ArchiveFormat, C: CodecFormat>(
    v: CoreView<F, C>,
    path: Seq<char>,
    password: Seq<char>,
    name: Seq<char>,
    m: ModelOf<F>,
    entries: Seq<EntryView>,
    s: StepView,
)
    requires
        v.pending_preview is Some,
        is_same_path(v.pending_preview->0.context.archive, path),
    ensures
        ({
            let p = v.pending_preview->0;
            let root = v.at_root(path, Some(password), name, m, entries);
            let (there, told) = CoreView { pending_preview: None, ..root }.reenter(
                p.context.nested_chain,
                s.tells(EventView::ConfigChanged(root.config)).tells(
                    EventView::Opened { name, entries },
                ),
            );
            let (w, t) = v.opened(path, Some(password), name, m, entries, s);
            let at = first_index(there.top().entries, p.entry);
            &&& there.stack.len() > 0
            &&& (w, t) == there.preview(p.entry, Some(path), told)
            &&& at is Some && there.top().entries[at->0].kind == NodeKind::File ==> {
                &&& w.waiting == (WaitingView::PreviewDir { entry: p.entry, then: Some(path) })
                &&& w.pending_preview is None
                &&& t.request is MakePreviewDir
            }
        }),
{
    let root = v.at_root(path, Some(password), name, m, entries);
    reentering_keeps_an_archive(
        CoreView { pending_preview: None, ..root },
        v.pending_preview->0.context.nested_chain,
        s.tells(EventView::ConfigChanged(root.config)).tells(EventView::Opened { name, entries }),
    );
}

/// A preview that needs a password is deferred: the directory made for it is discarded, a password
/// is asked for, and the entry is remembered with the archive it was asked for in.
pub proof fn locked_preview_is_deferred<F: ArchiveFormat, C: CodecFormat>(
    v: CoreView<F, C>,
    path: Seq<char>,
    dir: Seq<char>,
    s: StepView,
)
    requires
        v.stack.len() > 0,
        first_index(v.top().entries, path) is Some,
        F::Opened::content(
            v.top().model,
            v.top().entries[first_index(v.top().entries, path)->0],
        ) == Err::<Seq<u8>, ErrorView>(ErrorView::PasswordRequired),
    ensures
        ({
            let (w, t) = v.preview_dir_made(path, None, OutcomeView::PreviewDir(dir), s);
            &&& w.pending_preview == Some(
                PendingPreviewView { context: v.context(), entry: path },
            )
            &&& w.stack == v.stack
            &&& t == s.drops(Some(dir)).tells(
                EventView::PasswordRequired { path: v.context().archive },
            )
        }),
{
}

/// An archive that cannot be opened, for a wrong password or for any other reason, changes nothing:
/// what is shown stays, and what is deferred stays deferred.
pub proof fn refused_opening_changes_nothing<F: ArchiveFormat, C: CodecFormat>(
    v: CoreView<F, C>,
    path: Seq<char>,
    password: Option<Seq<char>>,
    bytes: Seq<u8>,
    s: StepView,
)
    requires
        v.registry.opened(file_source(path, bytes), v.open_options(password)) is Err,
    ensures
        ({
            let (w, t) = v.loaded(path, password, OutcomeView::Loaded(bytes), s);
            &&& w == CoreView { waiting: WaitingView::Idle, ..v }
            &&& t == s.tells(
                match v.registry.opened(
                    file_source(path, bytes),
                    v.open_options(password),
                )->Err_0 {
                    ErrorView::PasswordRequired => EventView::PasswordRequired { path },
                    ErrorView::WrongPassword => EventView::WrongPassword { path },
                    e => EventView::Error(e.message()),
                },
            )
        }),
{
}

/// Without a password, an extraction of encrypted entries is never begun: a password is asked for.
pub proof fn encrypted_entries_need_a_password<F: ArchiveFormat, C: CodecFormat>(
    v: CoreView<F, C>,
    selection: Seq<Seq<char>>,
    dest_dir: Seq<char>,
    s: StepView,
)
    requires
        v.stack.len() > 0,
        F::Opened::abilities(v.top().model).needs_password,
        some_encrypted(expanded(v.top().entries, selection)),
    ensures
        v.extract(selection, dest_dir, s).1 == s.tells(
            EventView::PasswordRequired { path: v.context().archive },
        ),
        v.extract(selection, dest_dir, s).0.pending_extract is Some,
{
}

/// One level of the navigation stack.
struct NavFrame<A: Archive> {
    archive: A,
    name: String,
    entry_path: Option<EntryPath>,
    focus: Option<EntryPath>,
    entries: Vec<EntryMeta>,
}

impl<A: Archive> View for NavFrame<A> {
    type V = LevelView<A::Model>;

    closed spec fn view(&self) -> LevelView<A::Model> {
        LevelView {
            model: self.archive.model(),
            name: self.name@,
            entry_path: opt_path(self.entry_path),
            focus: opt_path(self.focus),
            entries: views(self.entries@),
        }
    }
}

/// The levels as mathematical values.
spec fn level_views<A: Archive>(fs: Seq<NavFrame<A>>) -> Seq<LevelView<A::Model>> {
    fs.map_values(|f: NavFrame<A>| f@)
}

/// Where an operation was deferred.
struct PendingContext {
    archive: String,
    nested_chain: Vec<EntryPath>,
}

impl View for PendingContext {
    type V = ContextView;

    closed spec fn view(&self) -> ContextView {
        ContextView { archive: self.archive@, nested_chain: path_texts(self.nested_chain@) }
    }
}

/// A preview deferred for lack of a password.
struct PendingPreview {
    context: PendingContext,
    entry: EntryPath,
}

/// An extraction deferred for lack of a password.
struct PendingExtract {
    context: PendingContext,
    selection: Vec<EntryPath>,
    dest_dir: String,
}

/// What the controller waits for.
enum Waiting {
    Idle,
    Opening { path: String, password: Option<String> },
    PreviewDir { entry: EntryPath, then: Option<String> },
    PreviewFile { dir: String, then: Option<String> },
    Extracting,
}

impl View for Waiting {
    type V = WaitingView;

    closed spec fn view(&self) -> WaitingView {
        match self {
            Waiting::Idle => WaitingView::Idle,
            Waiting::Opening { path, password } => WaitingView::Opening {
                path: path@,
                password: opt_text(*password),
            },
            Waiting::PreviewDir { entry, then } => WaitingView::PreviewDir {
                entry: entry@,
                then: opt_text(*then),
            },
            Waiting::PreviewFile { dir, then } => WaitingView::PreviewFile {
                dir: dir@,
                then: opt_text(*then),
            },
            Waiting::Extracting => WaitingView::Extracting,
        }
    }
}

/// The synchronous, UI-independent controller.
#[verifier::reject_recursive_types(F)]
#[verifier::reject_recursive_types(C)]
pub struct ControllerCore<F: ArchiveFormat, C: CodecFormat> {
    registry: Registry<F, C>,
    config: AppConfig,
    stack: Vec<NavFrame<F::Opened>>,
    last_open: Option<(String, Option<String>)>,
    preview_dir: Option<String>,
    pending_preview: Option<PendingPreview>,
    pending_extract: Option<PendingExtract>,
    waiting: Waiting,
}

/// The last archive that was opened, as mathematical values.
spec fn open_view(o: Option<(String, Option<String>)>) -> Option<(Seq<char>, Option<Seq<char>>)> {
    match o {
        Some((p, w)) => Some((p@, opt_text(w))),
        None => None,
    }
}

/// A deferred preview as a mathematical value.
spec fn preview_view(p: Option<PendingPreview>) -> Option<PendingPreviewView> {
    match p {
        Some(p) => Some(PendingPreviewView { context: p.context@, entry: p.entry@ }),
        None => None,
    }
}

/// A deferred extraction as a mathematical value.
spec fn extract_view(p: Option<PendingExtract>) -> Option<PendingExtractView> {
    match p {
        Some(p) => Some(
            PendingExtractView {
                context: p.context@,
                selection: path_texts(p.selection@),
                dest_dir: p.dest_dir@,
            },
        ),
        None => None,
    }
}

impl<F: ArchiveFormat, C: CodecFormat> View for ControllerCore<F, C> {
    type V = CoreView<F, C>;

    closed spec fn view(&self) -> CoreView<F, C> {
        CoreView {
            registry: self.registry@,
            config: self.config@,
            stack: level_views(self.stack@),
            last_open: open_view(self.last_open),
            preview_dir: opt_text(self.preview_dir),
            pending_preview: preview_view(self.pending_preview),
            pending_extract: extract_view(self.pending_extract),
            waiting: self.waiting@,
        }
    }
}

/// The pieces of a normal path, cut at a `/`.
proof fn pieces_at_cut(f: Seq<char>, i: int)
    requires
        0 <= i < f.len(),
        f[i] == '/',
    ensures
        pieces(f) == pieces(f.take(i)) + pieces(f.skip(i + 1)),
{
    assert(f =~= f.take(i) + seq!['/'] + f.skip(i + 1));
    crate::model::pieces_across_slash(f.take(i), f.skip(i + 1));
}

/// The piece of a normal path that ends at `i`, where it begins at `from` and `k` pieces come
/// before it.
proof fn next_piece(f: Seq<char>, from: int, i: int, k: int)
    requires
        is_normal(f),
        0 <= from <= i <= f.len(),
        0 <= k,
        from == 0 ==> k == 0,
        from > 0 ==> k <= pieces(f).len() && f[from - 1] == '/' && pieces(f.take(from - 1))
            == pieces(f).take(k),
        forall|j: int| from <= j < i ==> f[j] != '/',
        i < f.len() ==> f[i] == '/',
    ensures
        k < pieces(f).len(),
        pieces(f)[k] == f.subrange(from, i),
        joined(pieces(f).take(k + 1)) == f.take(i),
        pieces(f.take(i)) == pieces(f).take(k + 1),
        is_normal(f.take(i)),
        i < f.len() ==> k + 1 < pieces(f).len(),
        i == f.len() ==> k + 1 == pieces(f).len(),
{
    let ps = pieces(f);
    let name = f.subrange(from, i);
    let prefix = f.take(i);
    assert forall|j: int| 0 <= j < name.len() implies !crate::model::is_separator(
        #[trigger] name[j],
    ) by {
        assert(name[j] == f[from + j]);
        assert(f.contains(f[from + j]));
    }
    crate::model::pieces_of_one(name);
    // The pieces up to here are the ones before and this name.
    if from == 0 {
        assert(prefix =~= name);
        assert(pieces(prefix) =~= ps.take(0).push(name));
    } else {
        assert(prefix =~= f.take(from - 1) + seq!['/'] + name);
        crate::model::pieces_across_slash(f.take(from - 1), name);
        assert(pieces(prefix) =~= ps.take(k).push(name));
    }
    if i < f.len() {
        pieces_at_cut(f, i);
        crate::model::pieces_nonempty(f.skip(i + 1));
        assert(f =~= prefix + seq!['/'] + f.skip(i + 1));
        normal_path_cut(prefix, f.skip(i + 1));
    } else {
        assert(prefix =~= f);
    }
    assert(ps.take(k + 1) =~= pieces(prefix));
    assert(ps[k] == ps.take(k + 1)[k]);
    crate::model::joined_of_pieces(prefix);
}

/// Append the segments for the directories that lead to `focus`.
fn push_dir_crumbs(out: &mut Vec<BreadcrumbSegment>, focus: &EntryPath, frame: usize)
    ensures
        crumb_views(final(out)@) == crumb_views(old(out)@) + dir_crumbs(
            pieces(focus@),
            frame as int,
            pieces(focus@).len() as int,
        ),
{
    let text = focus.as_str();
    let f = chars_of(text);
    let ghost ps = pieces(f@);
    let ghost before = crumb_views(out@);
    let ghost mut k: int = 0;
    let mut from: usize = 0;
    let mut i: usize = 0;
    assert(crumb_views(out@) =~= before + dir_crumbs(ps, frame as int, 0));
    let mut done = false;
    while !done
        invariant
            f@ == focus@,
            is_normal(f@),
            ps == pieces(f@),
            from <= i <= f@.len(),
            0 <= k <= ps.len(),
            !done && from == 0 ==> k == 0,
            !done && from > 0 ==> f@[from - 1] == '/' && pieces(f@.take(from - 1)) == ps.take(k),
            forall|j: int| from <= j < i ==> f@[j] != '/',
            done ==> k == ps.len(),
            crumb_views(out@) == before + dir_crumbs(ps, frame as int, k),
        decreases f@.len() - i + if done {
            0int
        } else {
            1
        },
    {
        if i < f.len() && f[i] != '/' {
            i += 1;
        } else {
            let name = vstd::slice::slice_subrange(f.as_slice(), from, i);
            let prefix = vstd::slice::slice_subrange(f.as_slice(), 0, i);
            proof {
                assert(prefix@ =~= f@.take(i as int));
                next_piece(f@, from as int, i as int, k);
                crate::model::normal_path_idempotent(prefix@);
            }
            let label = text_of(name);
            match EntryPath::new(text_of(prefix).as_str()) {
                Ok(path) => {
                    let ghost was = out@;
                    let segment = BreadcrumbSegment { label, frame, focus: Some(path) };
                    out.push(segment);
                    proof {
                        assert(crumb_views(out@) =~= crumb_views(was).push(segment@));
                        assert(crumb_views(out@) =~= before + dir_crumbs(
                            ps,
                            frame as int,
                            k + 1,
                        ));
                        k = k + 1;
                    }
                },
                Err(_) => {
                    proof {
                        assert(false);
                    }
                },
            }
            if i < f.len() {
                assert(f@.take((i + 1) - 1) =~= prefix@);
                i += 1;
                from = i;
            } else {
                done = true;
            }
        }
    }
}

/// Whether a listing has an entry below a path.
fn any_below(es: &Vec<EntryMeta>, path: &EntryPath) -> (r: bool)
    ensures
        r == has_below(views(es@), path@),
{
    let ghost vs = views(es@);
    let mut i: usize = 0;
    while i < es.len()
        invariant
            i <= es@.len(),
            vs == views(es@),
            forall|j: int|
                0 <= j < i ==> !is_at_or_below((#[trigger] vs[j]).path, path@) || vs[j].path
                    == path@,
        decreases es@.len() - i,
    {
        assert(vs[i as int] == es@[i as int]@);
        if es[i].path.is_under(path) && !es[i].path.same(path) {
            return true;
        }
        i += 1;
    }
    false
}

/// Whether an entry is selected.
fn in_selection(e: &EntryMeta, selection: &Vec<EntryPath>) -> (r: bool)
    ensures
        r == is_selected(e@, path_texts(selection@)),
{
    let ghost ps = path_texts(selection@);
    let mut i: usize = 0;
    while i < selection.len()
        invariant
            i <= selection@.len(),
            ps == path_texts(selection@),
            forall|j: int| 0 <= j < i ==> !is_at_or_below(e@.path, #[trigger] ps[j]),
        decreases selection@.len() - i,
    {
        assert(ps[i as int] == selection@[i as int]@);
        if e.path.is_under(&selection[i]) {
            return true;
        }
        i += 1;
    }
    false
}

/// The selected entries in listing order; all of them where nothing is selected.
fn expand_selection(es: &Vec<EntryMeta>, selection: &Vec<EntryPath>) -> (r: Vec<EntryMeta>)
    ensures
        views(r@) == expanded(views(es@), path_texts(selection@)),
{
    if selection.len() == 0 {
        return clone_entries(es.as_slice());
    }
    let ghost (vs, ps) = (views(es@), path_texts(selection@));
    let mut out: Vec<EntryMeta> = Vec::new();
    let mut i: usize = 0;
    assert(views(out@) =~= expanded(vs.take(0), ps));
    while i < es.len()
        invariant
            i <= es@.len(),
            vs == views(es@),
            ps == path_texts(selection@),
            ps.len() > 0,
            views(out@) == expanded(vs.take(i as int), ps),
        decreases es@.len() - i,
    {
        assert(vs.take(i + 1).drop_last() =~= vs.take(i as int));
        assert(vs.take(i + 1).last() == es@[i as int]@);
        if in_selection(&es[i], selection) {
            let ghost before = out@;
            let e = es[i].clone();
            out.push(e);
            assert(views(out@) =~= views(before).push(e@));
        }
        i += 1;
    }
    assert(vs.take(i as int) =~= vs);
    out
}

/// The paths of some entries.
fn collect_paths(es: &Vec<EntryMeta>) -> (r: Vec<EntryPath>)
    ensures
        path_texts(r@) == paths_of(views(es@)),
{
    let ghost want = paths_of(views(es@));
    let mut out: Vec<EntryPath> = Vec::new();
    let mut i: usize = 0;
    assert(path_texts(out@) =~= want.take(0));
    while i < es.len()
        invariant
            i <= es@.len(),
            want == paths_of(views(es@)),
            path_texts(out@) == want.take(i as int),
        decreases es@.len() - i,
    {
        let ghost before = out@;
        let p = es[i].path.clone();
        out.push(p);
        assert(path_texts(out@) =~= path_texts(before).push(p@));
        assert(want.take(i + 1) =~= want.take(i as int).push(es@[i as int]@.path));
        i += 1;
    }
    assert(want.take(i as int) =~= want);
    out
}

/// The sum of the known sizes, as far as it can be represented.
fn sum_sizes(es: &Vec<EntryMeta>) -> (r: u64)
    ensures
        r == total_size(views(es@)),
{
    let ghost vs = views(es@);
    let mut sum: u64 = 0;
    let mut i: usize = 0;
    while i < es.len()
        invariant
            i <= es@.len(),
            vs == views(es@),
            sum == total_size(vs.take(i as int)),
        decreases es@.len() - i,
    {
        assert(vs.take(i + 1).drop_last() =~= vs.take(i as int));
        assert(vs.take(i + 1).last() == es@[i as int]@);
        if let Some(size) = es[i].uncompressed_size {
            if size > u64::MAX - sum {
                sum = u64::MAX;
            } else {
                sum = sum + size;
            }
        }
        i += 1;
    }
    assert(vs.take(i as int) =~= vs);
    sum
}

/// Whether one of the entries is encrypted.
fn any_encrypted(es: &Vec<EntryMeta>) -> (r: bool)
    ensures
        r == some_encrypted(views(es@)),
{
    let ghost vs = views(es@);
    let mut i: usize = 0;
    while i < es.len()
        invariant
            i <= es@.len(),
            vs == views(es@),
            forall|j: int| 0 <= j < i ==> !(#[trigger] vs[j]).encrypted,
        decreases es@.len() - i,
    {
        assert(vs[i as int] == es@[i as int]@);
        if es[i].encrypted {
            return true;
        }
        i += 1;
    }
    false
}

/// The message for a request that failed.
fn failure_message(outcome: &Outcome) -> (r: String)
    ensures
        r@ == io_failure(outcome@),
{
    match outcome {
        Outcome::Failed(m) => concat2("i/o error: ", m.as_str()),
        _ => "i/o error: ".to_string(),
    }
}

/// A password as a secret.
fn secret(password: &Option<String>) -> (r: Option<Secret>)
    ensures
        crate::archive::opt_secret(r) == secret_of(opt_text(*password)),
{
    match password {
        Some(p) => Some(Secret::new(p.as_str())),
        None => None,
    }
}

impl<F: ArchiveFormat, C: CodecFormat> ControllerCore<F, C> {
    /// Create a controller composing the given format registry and config.
    pub fn new(registry: Registry<F, C>, config: AppConfig) -> (r: Self)
        ensures
            r@ == (CoreView {
                registry: registry@,
                config: config@,
                stack: Seq::empty(),
                last_open: None,
                preview_dir: None,
                pending_preview: None,
                pending_extract: None,
                waiting: WaitingView::Idle,
            }),
    {
        let r = ControllerCore {
            registry,
            config,
            stack: Vec::new(),
            last_open: None,
            preview_dir: None,
            pending_preview: None,
            pending_extract: None,
            waiting: Waiting::Idle,
        };
        assert(r@.stack =~= Seq::empty());
        r
    }

    /// The active configuration.
    pub fn config(&self) -> (r: &AppConfig)
        ensures
            r@ == self@.config,
    {
        &self.config
    }

    /// The archive in view, from which extractions are made.
    pub fn current(&self) -> (r: Option<&F::Opened>)
        ensures
            match r {
                Some(a) => self@.stack.len() > 0 && a.model() == self@.top().model,
                None => self@.stack.len() == 0,
            },
    {
        if self.stack.len() == 0 {
            None
        } else {
            Some(&self.stack[self.stack.len() - 1].archive)
        }
    }

    /// Flatten the navigation stack into breadcrumb segments.
    fn breadcrumb(&self) -> (r: Vec<BreadcrumbSegment>)
        ensures
            crumb_views(r@) == crumbs(self@.stack),
    {
        let ghost ls = level_views(self.stack@);
        let mut out: Vec<BreadcrumbSegment> = Vec::new();
        let mut i: usize = 0;
        assert(crumb_views(out@) =~= crumbs(ls.take(0)));
        while i < self.stack.len()
            invariant
                i <= self.stack@.len(),
                ls == level_views(self.stack@),
                crumb_views(out@) == crumbs(ls.take(i as int)),
            decreases self.stack@.len() - i,
        {
            let frame = &self.stack[i];
            let ghost before = crumb_views(out@);
            proof {
                assert(ls.take(i + 1).drop_last() =~= ls.take(i as int));
                assert(ls.take(i + 1).last() == frame@);
            }
            let segment = BreadcrumbSegment { label: frame.name.clone(), frame: i, focus: None };
            let ghost was = out@;
            out.push(segment);
            assert(crumb_views(out@) =~= crumb_views(was).push(segment@));
            if let Some(focus) = &frame.focus {
                push_dir_crumbs(&mut out, focus, i);
            }
            assert(crumb_views(out@) =~= before + level_crumbs(frame@, i as int));
            i += 1;
        }
        assert(ls.take(i as int) =~= ls);
        out
    }

    /// Show the current view.
    fn show(&self, step: &mut Step)
        requires
            self@.stack.len() > 0,
        ensures
            final(step)@ == old(step)@.tells(self@.shown()),
    {
        let breadcrumb = self.breadcrumb();
        let top = &self.stack[self.stack.len() - 1];
        assert(self@.top() == top@);
        step.tell(
            Event::Navigated {
                breadcrumb,
                focus: clone_path(&top.focus),
                entries: clone_entries(top.entries.as_slice()),
            },
        );
    }

    /// Change the focus in the level in view.
    fn refocus(&mut self, focus: Option<EntryPath>)
        requires
            old(self)@.stack.len() > 0,
        ensures
            final(self)@ == old(self)@.refocused(opt_path(focus)),
    {
        let ghost before = self.stack@;
        let last: usize = self.stack.len() - 1;
        self.stack[last].focus = focus;
        proof {
            let ls = level_views(before);
            assert(level_views(self.stack@) =~= ls.drop_last().push(
                LevelView { focus: opt_path(focus), ..ls.last() },
            ));
        }
    }

    /// The options with which archives are opened.
    fn open_options(&self, password: &Option<String>) -> (r: OpenOptions)
        ensures
            r@ == self@.open_options(opt_text(*password)),
    {
        OpenOptions { password: secret(password), encoding: self.config.filename_encoding }
    }

    /// Enter a child directory or a nested archive.
    fn enter(&mut self, path: &EntryPath, step: &mut Step)
        ensures
            (final(self)@, final(step)@) == old(self)@.enter(path@, old(step)@),
    {
        if self.stack.len() == 0 {
            step.tell_error("no archive open");
            return;
        }
        let last: usize = self.stack.len() - 1;
        assert(self@.top() == self.stack@[last as int]@);
        let found = find_first(&self.stack[last].entries, path);
        let kind = match found {
            Some(i) => {
                assert(self@.top().entries[i as int] == self.stack@[last as int].entries@[i as int]@);
                self.stack[last].entries[i].kind
            },
            // A directory implied by path prefixes (e.g. "a/b.txt" implies "a").
            None => {
                if any_below(&self.stack[last].entries, path) {
                    NodeKind::Dir
                } else {
                    step.tell(Event::Error(concat2("entry not found: ", path.as_str())));
                    return;
                }
            },
        };
        match kind {
            NodeKind::Dir => {
                self.refocus(Some(path.clone()));
                self.show(step);
            },
            NodeKind::Archive => match found {
                Some(i) => self.descend(path, i, step),
                None => {
                    proof {
                        assert(false);
                    }
                },
            },
            _ => {
                step.tell(
                    Event::Unsupported(
                        concat3("opening '", path.as_str(), "' is not implemented yet"),
                    ),
                );
            },
        }
    }

    /// Open the archive at a path as a new level.
    fn descend(&mut self, path: &EntryPath, i: usize, step: &mut Step)
        requires
            old(self)@.stack.len() > 0,
            i < old(self)@.top().entries.len(),
            first_index(old(self)@.top().entries, path@) == Some(i as int),
        ensures
            (final(self)@, final(step)@) == old(self)@.descend(path@, old(step)@),
    {
        let last: usize = self.stack.len() - 1;
        let ghost before = self.stack@;
        assert(self@.top() == self.stack@[last as int]@);
        assert(self@.top().entries[i as int] == self.stack@[last as int].entries@[i as int]@);
        let password = match &self.last_open {
            Some((_, p)) => clone_text(p),
            None => None,
        };
        let opts = self.open_options(&password);
        let nested = match self.stack[last].archive.open_nested(
            &self.stack[last].entries[i],
            &opts,
        ) {
            Ok(nested) => nested,
            Err(e) => {
                step.tell(Event::Error(e.message()));
                return;
            },
        };
        let entries = match nested.entries() {
            Ok(entries) => entries,
            Err(e) => {
                step.tell(Event::Error(e.message()));
                return;
            },
        };
        let frame = NavFrame {
            archive: nested,
            name: tail_after(path.as_str(), '/'),
            entry_path: Some(path.clone()),
            focus: None,
            entries,
        };
        self.stack.push(frame);
        assert(level_views(self.stack@) =~= level_views(before).push(frame@));
        self.show(step);
    }

    /// Enter several paths, one after the other. Failures surface as ordinary errors.
    fn reenter_chain(&mut self, chain: &Vec<EntryPath>, step: &mut Step)
        ensures
            (final(self)@, final(step)@) == old(self)@.reenter(path_texts(chain@), old(step)@),
    {
        let ghost ps = path_texts(chain@);
        let ghost (v, s) = (self@, step@);
        let mut i: usize = 0;
        while i < chain.len()
            invariant
                i <= chain@.len(),
                ps == path_texts(chain@),
                (self@, step@) == v.reenter(ps.take(i as int), s),
            decreases chain@.len() - i,
        {
            assert(ps.take(i + 1).drop_last() =~= ps.take(i as int));
            assert(ps.take(i + 1).last() == chain@[i as int]@);
            self.enter(&chain[i], step);
            i += 1;
        }
        assert(ps.take(i as int) =~= ps);
    }

    /// Go back up one level: parent directory, or the outer archive.
    fn back(&mut self, step: &mut Step)
        ensures
            (final(self)@, final(step)@) == old(self)@.back(old(step)@),
    {
        if self.stack.len() == 0 {
            step.tell_error("no archive open");
            return;
        }
        let last: usize = self.stack.len() - 1;
        assert(self@.top() == self.stack@[last as int]@);
        let ghost before = self.stack@;
        let parent = match &self.stack[last].focus {
            Some(focus) => focus.parent(),
            None => {
                if self.stack.len() == 1 {
                    return; // Already at the top; stay put.
                }
                self.stack.pop();
                assert(level_views(self.stack@) =~= level_views(before).drop_last());
                self.show(step);
                return;
            },
        };
        self.refocus(parent);
        self.show(step);
    }

    /// Jump to a breadcrumb segment (truncating the stack).
    fn jump_to(&mut self, depth: usize, step: &mut Step)
        ensures
            (final(self)@, final(step)@) == old(self)@.jump_to(depth as int, old(step)@),
    {
        let segments = self.breadcrumb();
        if depth >= segments.len() {
            step.tell_error("invalid breadcrumb depth");
            return;
        }
        let ghost before = self.stack@;
        let ghost cs = crumbs(self@.stack);
        proof {
            assert(cs[depth as int] == segments@[depth as int]@);
            crumb_frames(self@.stack, depth as int);
        }
        let frame: usize = segments[depth].frame;
        let focus = clone_path(&segments[depth].focus);
        let mut keep: usize = self.stack.len();
        assert(before.take(keep as int) =~= before);
        assert(level_views(before).take(keep as int) =~= level_views(before));
        while keep > frame + 1
            invariant
                frame + 1 <= keep <= before.len(),
                keep == self.stack@.len(),
                self.stack@ == before.take(keep as int),
                self@ == (CoreView { stack: level_views(before).take(keep as int), ..old(self)@ }),
                level_views(before) == old(self)@.stack,
            decreases keep,
        {
            self.stack.pop();
            keep -= 1;
            assert(self.stack@ =~= before.take(keep as int));
            assert(level_views(self.stack@) =~= level_views(before).take(keep as int));
        }
        self.refocus(focus);
        self.show(step);
    }

    /// Nothing more is to be done.
    fn rest(&mut self)
        ensures
            final(self)@ == (CoreView { waiting: WaitingView::Idle, ..old(self)@ }),
    {
        self.waiting = Waiting::Idle;
    }

    /// Begin to open an archive.
    fn open(&mut self, path: String, password: Option<String>, step: &mut Step)
        ensures
            (final(self)@, final(step)@) == old(self)@.open(path@, opt_text(password), old(step)@),
    {
        // A previous preview lives in the system temp dir; drop it when the user opens a
        // different archive (best effort).
        step.drop_dir(self.preview_dir.take());
        step.request = Request::ReadFile { path: path.clone() };
        self.waiting = Waiting::Opening { path, password };
    }

    /// The file of an archive has been read, or not.
    fn loaded(&mut self, path: String, password: Option<String>, outcome: Outcome, step: &mut Step)
        ensures
            (final(self)@, final(step)@) == old(self)@.loaded(
                path@,
                opt_text(password),
                outcome@,
                old(step)@,
            ),
    {
        match outcome {
            Outcome::Loaded(bytes) => {
                let opts = self.open_options(&password);
                let name = display_file_name(path.as_str());
                let source = Source::Path { path: path.clone(), bytes };
                let archive = match self.registry.open_archive(source, &opts) {
                    Ok(archive) => archive,
                    Err(e) => {
                        match &e {
                            Error::PasswordRequired => step.tell(Event::PasswordRequired { path }),
                            Error::WrongPassword => step.tell(Event::WrongPassword { path }),
                            _ => step.tell(Event::Error(e.message())),
                        }
                        self.rest();
                        return;
                    },
                };
                match archive.entries() {
                    Ok(entries) => self.opened(path, password, name, archive, entries, step),
                    Err(e) => {
                        step.tell(Event::Error(e.message()));
                        self.rest();
                    },
                }
            },
            other => {
                step.tell(Event::Error(failure_message(&other)));
                self.rest();
            },
        }
    }

    /// An archive is open.
    fn opened(
        &mut self,
        path: String,
        password: Option<String>,
        name: String,
        archive: F::Opened,
        entries: Vec<EntryMeta>,
        step: &mut Step,
    )
        ensures
            (final(self)@, final(step)@) == old(self)@.opened(
                path@,
                opt_text(password),
                name@,
                archive.model(),
                views(entries@),
                old(step)@,
            ),
    {
        let needs_password = archive.capabilities().needs_password;
        let frame = NavFrame {
            archive,
            name: name.clone(),
            entry_path: None,
            focus: None,
            entries: clone_entries(entries.as_slice()),
        };
        let mut stack: Vec<NavFrame<F::Opened>> = Vec::new();
        stack.push(frame);
        assert(level_views(stack@) =~= seq![frame@]);
        self.stack = stack;
        let given = password.is_some();
        self.last_open = Some((path.clone(), password));
        // Remember the archive for the recent-files list.
        self.config.record_recent(path.clone());
        step.tell(Event::ConfigChanged(self.config.clone()));
        step.tell(Event::Opened { name, entries });
        if given {
            // Retry any operation deferred for lack of a password, now that this archive is open
            // with one.
            self.retry_preview(path, step);
        } else {
            if needs_password {
                step.tell(Event::PasswordRequired { path });
            }
            self.rest();
        }
    }

    /// Where an operation is deferred: the top-level archive path and the nested-archive entry
    /// chain below it.
    fn pending_context(&self) -> (r: PendingContext)
        ensures
            r@ == self@.context(),
    {
        let archive = match &self.last_open {
            Some((p, _)) => p.clone(),
            None => "archive".to_string(),
        };
        let ghost ls = level_views(self.stack@);
        let mut nested_chain: Vec<EntryPath> = Vec::new();
        let mut i: usize = 1;
        assert(path_texts(nested_chain@) =~= Seq::<Seq<char>>::empty());
        if self.stack.len() > 1 {
            assert(chain_of(ls.take(1)) =~= Seq::<Seq<char>>::empty());
            while i < self.stack.len()
                invariant
                    1 <= i <= self.stack@.len(),
                    ls == level_views(self.stack@),
                    path_texts(nested_chain@) == chain_of(ls.take(i as int)),
                decreases self.stack@.len() - i,
            {
                assert(ls.take(i + 1).drop_last() =~= ls.take(i as int));
                assert(ls.take(i + 1).last() == self.stack@[i as int]@);
                if let Some(p) = &self.stack[i].entry_path {
                    let ghost before = nested_chain@;
                    let copy = p.clone();
                    nested_chain.push(copy);
                    assert(path_texts(nested_chain@) =~= path_texts(before).push(copy@));
                }
                i += 1;
            }
            assert(ls.take(i as int) =~= ls);
        } else {
            assert(chain_of(ls) =~= Seq::<Seq<char>>::empty());
        }
        PendingContext { archive, nested_chain }
    }

    /// Retry the preview that was deferred for this archive, then the extraction.
    fn retry_preview(&mut self, path: String, step: &mut Step)
        ensures
            (final(self)@, final(step)@) == old(self)@.retry_preview(path@, old(step)@),
    {
        match self.pending_preview.take() {
            Some(pending) => {
                if same_path(pending.context.archive.as_str(), path.as_str()) {
                    self.reenter_chain(&pending.context.nested_chain, step);
                    self.preview(pending.entry, Some(path), step);
                } else {
                    self.retry_extract(path, step);
                }
            },
            None => self.retry_extract(path, step),
        }
    }

    /// Retry the extraction that was deferred for this archive.
    fn retry_extract(&mut self, path: String, step: &mut Step)
        ensures
            (final(self)@, final(step)@) == old(self)@.retry_extract(path@, old(step)@),
    {
        match self.pending_extract.take() {
            Some(pending) => {
                if same_path(pending.context.archive.as_str(), path.as_str()) {
                    self.reenter_chain(&pending.context.nested_chain, step);
                    self.extract(&pending.selection, pending.dest_dir, step);
                } else {
                    self.rest();
                }
            },
            None => self.rest(),
        }
    }

    /// A preview has come to its end; what else was deferred is retried.
    fn preview_over(&mut self, then: Option<String>, step: &mut Step)
        ensures
            (final(self)@, final(step)@) == old(self)@.preview_over(opt_text(then), old(step)@),
    {
        match then {
            Some(path) => self.retry_extract(path, step),
            None => self.rest(),
        }
    }

    /// Begin to preview a file.
    fn preview(&mut self, path: EntryPath, then: Option<String>, step: &mut Step)
        ensures
            (final(self)@, final(step)@) == old(self)@.preview(
                path@,
                opt_text(then),
                old(step)@,
            ),
    {
        if self.stack.len() == 0 {
            step.tell_error("no archive open");
            self.preview_over(then, step);
            return;
        }
        let last: usize = self.stack.len() - 1;
        assert(self@.top() == self.stack@[last as int]@);
        let i = match find_first(&self.stack[last].entries, &path) {
            Some(i) => i,
            None => {
                step.tell(Event::Error(concat2("entry not found: ", path.as_str())));
                self.preview_over(then, step);
                return;
            },
        };
        assert(self@.top().entries[i as int] == self.stack@[last as int].entries@[i as int]@);
        if self.stack[last].entries[i].kind != NodeKind::File {
            step.tell(
                Event::Error(concat3("cannot preview '", path.as_str(), "' (not a file)")),
            );
            self.preview_over(then, step);
            return;
        }
        // Drop the previous preview dir (best effort; the OS may still hold the file open until
        // the external app is done with it).
        step.drop_dir(self.preview_dir.take());
        step.request = Request::MakePreviewDir;
        self.waiting = Waiting::PreviewDir { entry: path, then };
    }

    /// The directory for a preview exists, or not.
    fn preview_dir_made(
        &mut self,
        path: EntryPath,
        then: Option<String>,
        outcome: Outcome,
        step: &mut Step,
    )
        ensures
            (final(self)@, final(step)@) == old(self)@.preview_dir_made(
                path@,
                opt_text(then),
                outcome@,
                old(step)@,
            ),
    {
        let dir = match outcome {
            Outcome::PreviewDir(dir) => dir,
            other => {
                step.tell(Event::Error(failure_message(&other)));
                self.preview_over(then, step);
                return;
            },
        };
        if self.stack.len() == 0 {
            step.tell_error("no archive open");
            self.preview_over(then, step);
            return;
        }
        let last: usize = self.stack.len() - 1;
        assert(self@.top() == self.stack@[last as int]@);
        let i = match find_first(&self.stack[last].entries, &path) {
            Some(i) => i,
            None => {
                step.tell(Event::Error(concat2("entry not found: ", path.as_str())));
                self.preview_over(then, step);
                return;
            },
        };
        assert(self@.top().entries[i as int] == self.stack@[last as int].entries@[i as int]@);
        match self.stack[last].archive.reader(&self.stack[last].entries[i]) {
            Ok(bytes) => {
                step.request = Request::WritePreview {
                    dir: dir.clone(),
                    name: tail_after(path.as_str(), '/'),
                    bytes,
                };
                self.waiting = Waiting::PreviewFile { dir, then };
            },
            Err(e) => {
                match &e {
                    Error::PasswordRequired => {
                        // Remember the entry and ask for a password; the retry picks the preview
                        // back up once the archive has been opened with one.
                        let context = self.pending_context();
                        let archive = context.archive.clone();
                        step.drop_dir(Some(dir));
                        self.pending_preview = Some(PendingPreview { context, entry: path });
                        step.tell(Event::PasswordRequired { path: archive });
                    },
                    _ => step.tell(Event::Error(e.message())),
                }
                self.preview_over(then, step);
            },
        }
    }

    /// The preview file is written, or not.
    fn preview_written(
        &mut self,
        dir: String,
        then: Option<String>,
        outcome: Outcome,
        step: &mut Step,
    )
        ensures
            (final(self)@, final(step)@) == old(self)@.preview_written(
                dir@,
                opt_text(then),
                outcome@,
                old(step)@,
            ),
    {
        match outcome {
            Outcome::PreviewFile(temp_path) => {
                self.preview_dir = Some(dir);
                step.tell(Event::PreviewReady { temp_path });
            },
            other => step.tell(Event::Error(failure_message(&other))),
        }
        self.preview_over(then, step);
    }

    /// Begin an extraction.
    fn extract(&mut self, selection: &Vec<EntryPath>, dest_dir: String, step: &mut Step)
        ensures
            (final(self)@, final(step)@) == old(self)@.extract(
                path_texts(selection@),
                dest_dir@,
                old(step)@,
            ),
    {
        if self.stack.len() == 0 {
            step.tell_error("no archive open");
            self.rest();
            return;
        }
        let last: usize = self.stack.len() - 1;
        assert(self@.top() == self.stack@[last as int]@);
        let chosen = expand_selection(&self.stack[last].entries, selection);
        // Without paths, a run would extract the whole archive.
        if selection.len() > 0 && chosen.len() == 0 {
            step.tell(Event::Done(ExtractReport::default()));
            self.rest();
            return;
        }
        let exact = collect_paths(&chosen);
        // Content-encrypted entries cannot be read without a password; ask for one up front
        // instead of failing per entry.
        if self.stack[last].archive.capabilities().needs_password && any_encrypted(&chosen) {
            let context = self.pending_context();
            let archive = context.archive.clone();
            self.pending_extract = Some(PendingExtract { context, selection: exact, dest_dir });
            step.tell(Event::PasswordRequired { path: archive });
            self.rest();
            return;
        }
        let opts = ExtractOptions {
            dest_dir,
            overwrite: self.config.overwrite_policy,
            preserve_mtime: self.config.preserve_mtime,
            create_top_folder: false,
            limits: self.config.safety_limits,
        };
        step.request = Request::Extract {
            selection: exact,
            opts,
            total_bytes: sum_sizes(&chosen),
        };
        self.waiting = Waiting::Extracting;
    }

    /// An extraction has ended.
    fn extracted(&mut self, outcome: Outcome, step: &mut Step)
        ensures
            (final(self)@, final(step)@) == old(self)@.extracted(outcome@, old(step)@),
    {
        match outcome {
            Outcome::Extracted(Ok(report)) => step.tell(Event::Done(report)),
            Outcome::Extracted(Err(e)) => match &e {
                Error::Cancelled => step.tell(Event::Cancelled),
                _ => step.tell(Event::Error(e.message())),
            },
            other => step.tell(Event::Error(failure_message(&other))),
        }
        self.rest();
    }

    /// Process a single intent.
    ///
    /// Intents are handed in one at a time, after the request that the last one led to has been
    /// performed and its outcome handed back; a request whose outcome is still open is forgotten.
    pub fn handle(&mut self, intent: Intent) -> (r: Step)
        ensures
            (final(self)@, r@) == old(self)@.on_intent(intent),
    {
        let mut step = Step::quiet();
        match intent {
            Intent::Open { path, password } => self.open(path, password, &mut step),
            Intent::Enter { path } => {
                self.enter(&path, &mut step);
                self.rest();
            },
            Intent::Back => {
                self.back(&mut step);
                self.rest();
            },
            Intent::JumpTo { depth } => {
                self.jump_to(depth, &mut step);
                self.rest();
            },
            Intent::Extract { selection, dest_dir } => {
                self.extract(&selection, dest_dir, &mut step);
            },
            Intent::Preview { path } => self.preview(path, None, &mut step),
            Intent::Cancel => {
                step.tell(Event::Cancelled);
                step.request = Request::Cancel;
                self.rest();
            },
            Intent::SetEncoding(encoding) => {
                self.config.filename_encoding = encoding;
                step.tell(Event::ConfigChanged(self.config.clone()));
                let last = match &self.last_open {
                    Some((path, password)) => Some((path.clone(), clone_text(password))),
                    None => None,
                };
                match last {
                    Some((path, password)) => self.open(path, password, &mut step),
                    None => self.rest(),
                }
            },
            Intent::SetOverwrite(policy) => {
                self.config.overwrite_policy = policy;
                step.tell(Event::ConfigChanged(self.config.clone()));
                self.rest();
            },
            Intent::SetPreserveMtime(value) => {
                self.config.preserve_mtime = value;
                step.tell(Event::ConfigChanged(self.config.clone()));
                self.rest();
            },
        }
        step
    }

    /// Go on with the outcome of the last request.
    pub fn resume(&mut self, outcome: Outcome) -> (r: Step)
        ensures
            (final(self)@, r@) == old(self)@.on_outcome(outcome@),
    {
        let mut step = Step::quiet();
        let mut waiting = Waiting::Idle;
        core::mem::swap(&mut waiting, &mut self.waiting);
        match waiting {
            Waiting::Idle => {},
            Waiting::Opening { path, password } => {
                self.loaded(path, password, outcome, &mut step);
            },
            Waiting::PreviewDir { entry, then } => {
                self.preview_dir_made(entry, then, outcome, &mut step);
            },
            Waiting::PreviewFile { dir, then } => {
                self.preview_written(dir, then, outcome, &mut step);
            },
            Waiting::Extracting => self.extracted(outcome, &mut step),
        }
        step
    }
}

} // verus!
