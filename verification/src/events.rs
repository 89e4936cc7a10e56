//! Folding controller events into the state that the view shows.

use vstd::prelude::*;
use vstd::string::*;

use crate::config::{AppConfig, ConfigView};
use crate::controller::{
    crumb_views, BreadcrumbSegment, CrumbView, Event, EventView, ProgressUpdate, ProgressView,
};

use crate::extract::{path_texts, ReportView};
use crate::model::{opt_text, views, EntryMeta, EntryPath, EntryView};
use crate::navigate::opt_path;
use crate::text::{concat2, decimal, decimal_text};

verus! {

/// State backing the password prompt dialog.
#[derive(Debug)]
pub struct PasswordPrompt {
    /// Archive path the password unlocks.
    pub path: String,
    /// Error to display (e.g. wrong password), if any.
    pub error: Option<String>,
}

/// A [`PasswordPrompt`] as a mathematical value.
pub struct PromptView {
    pub path: Seq<char>,
    pub error: Option<Seq<char>>,
}

/// An optional prompt as a mathematical value.
pub open spec fn opt_prompt(p: Option<PasswordPrompt>) -> Option<PromptView> {
    match p {
        Some(p) => Some(PromptView { path: p.path@, error: opt_text(p.error) }),
        None => None,
    }
}

/// Optional progress as a mathematical value.
pub open spec fn opt_progress(p: Option<ProgressUpdate>) -> Option<ProgressView> {
    match p {
        Some(p) => Some(p@),
        None => None,
    }
}

/// Everything that the view shows.
#[derive(Debug)]
pub struct ViewState {
    /// Transient status-bar feedback.
    pub status: String,
    /// Display name of the archive (shown in the window title).
    pub archive_name: String,
    /// Breadcrumb trail for the current navigation view.
    pub breadcrumb: Vec<BreadcrumbSegment>,
    /// Directory currently in focus (the file list shows its children).
    pub focus: Option<EntryPath>,
    /// Flat listing of the current archive's entries.
    pub entries: Vec<EntryMeta>,
    /// Currently selected entry paths (multi-select).
    pub selection: Vec<EntryPath>,
    /// Directories expanded in the left tree panel.
    pub expanded: Vec<EntryPath>,
    /// Whether an archive is open (drives the browser / empty-state switch).
    pub has_archive: bool,
    /// Live file-list search query.
    pub search_query: String,
    /// Whether a drag & drop is hovering the window (empty-state highlight).
    pub drag_over: bool,
    /// Whether the garbled-name encoding banner was dismissed.
    pub banner_dismissed: bool,
    /// Password prompt dialog state.
    pub password_prompt: Option<PasswordPrompt>,
    /// Extraction progress popup state.
    pub progress: Option<ProgressUpdate>,
    /// Settings modal open state.
    pub settings_open: bool,
    /// About modal open state.
    pub about_open: bool,
    /// Current application config.
    pub config: AppConfig,
}

/// A [`ViewState`] as a mathematical value.
pub struct StateView {
    pub status: Seq<char>,
    pub archive_name: Seq<char>,
    pub breadcrumb: Seq<CrumbView>,
    pub focus: Option<Seq<char>>,
    pub entries: Seq<EntryView>,
    pub selection: Seq<Seq<char>>,
    pub expanded: Seq<Seq<char>>,
    pub has_archive: bool,
    pub search_query: Seq<char>,
    pub drag_over: bool,
    pub banner_dismissed: bool,
    pub password_prompt: Option<PromptView>,
    pub progress: Option<ProgressView>,
    pub settings_open: bool,
    pub about_open: bool,
    pub config: ConfigView,
}

impl View for ViewState {
    type V = StateView;

    open spec fn view(&self) -> StateView {
        StateView {
            status: self.status@,
            archive_name: self.archive_name@,
            breadcrumb: crumb_views(self.breadcrumb@),
            focus: opt_path(self.focus),
            entries: views(self.entries@),
            selection: path_texts(self.selection@),
            expanded: path_texts(self.expanded@),
            has_archive: self.has_archive,
            search_query: self.search_query@,
            drag_over: self.drag_over,
            banner_dismissed: self.banner_dismissed,
            password_prompt: opt_prompt(self.password_prompt),
            progress: opt_progress(self.progress),
            settings_open: self.settings_open,
            about_open: self.about_open,
            config: self.config@,
        }
    }
}

/// The state before any archive has been opened.
pub open spec fn initial_state(config: ConfigView) -> StateView {
    StateView {
        status: "No archive open."@,
        archive_name: Seq::empty(),
        breadcrumb: Seq::empty(),
        focus: None,
        entries: Seq::empty(),
        selection: Seq::empty(),
        expanded: Seq::empty(),
        has_archive: false,
        search_query: Seq::empty(),
        drag_over: false,
        banner_dismissed: false,
        password_prompt: None,
        progress: None,
        settings_open: false,
        about_open: false,
        config,
    }
}

/// What is to be done outside when an event has been folded in.
#[derive(Debug)]
pub enum Effect {
    /// Nothing.
    Nothing,
    /// Set the window title.
    SetTitle(String),
    /// Ask the user about an existing file.
    AskOverwrite { path: EntryPath, dest: String },
    /// Open a preview file with the system's default application, then tell
    /// [`ViewState::preview_opened`].
    OpenPreview { temp_path: String },
    /// Save the settings.
    SaveConfig,
}

/// An [`Effect`] as a mathematical value.
pub enum EffectView {
    Nothing,
    SetTitle(Seq<char>),
    AskOverwrite { path: Seq<char>, dest: Seq<char> },
    OpenPreview { temp_path: Seq<char> },
    SaveConfig,
}

impl View for Effect {
    type V = EffectView;

    open spec fn view(&self) -> EffectView {
        match self {
            Effect::Nothing => EffectView::Nothing,
            Effect::SetTitle(t) => EffectView::SetTitle(t@),
            Effect::AskOverwrite { path, dest } => EffectView::AskOverwrite {
                path: path@,
                dest: dest@,
            },
            Effect::OpenPreview { temp_path } => EffectView::OpenPreview { temp_path: temp_path@ },
            Effect::SaveConfig => EffectView::SaveConfig,
        }
    }
}

/// What is said of an extraction that has ended.
pub open spec fn report_text(r: ReportView) -> Seq<char> {
    "Extracted "@ + decimal(r.extracted as nat) + " entries ("@ + decimal(r.total_bytes as nat)
        + " bytes), skipped "@ + decimal(r.skipped as nat) + ", failed "@ + decimal(
        r.failed.len(),
    ) + "."@
}

impl StateView {
    /// With another status text.
    pub open spec fn saying(self, status: Seq<char>) -> StateView {
        StateView { status, ..self }
    }

    /// The state after an event, and what is to be done outside.
    pub open spec fn after(self, event: EventView) -> (StateView, EffectView) {
        match event {
            EventView::Opened { name, entries } => (
                StateView {
                    archive_name: name,
                    entries,
                    breadcrumb: Seq::empty(),
                    focus: None,
                    selection: Seq::empty(),
                    expanded: Seq::empty(),
                    has_archive: true,
                    password_prompt: None,
                    search_query: Seq::empty(),
                    banner_dismissed: false,
                    status: "Archive opened."@,
                    ..self
                },
                EffectView::SetTitle(name + " — hajizip"@),
            ),
            EventView::Navigated { breadcrumb, focus, entries } => (
                StateView { breadcrumb, focus, entries, status: Seq::empty(), ..self },
                EffectView::Nothing,
            ),
            EventView::PasswordRequired { path } => (
                StateView {
                    password_prompt: Some(PromptView { path, error: None }),
                    ..self
                },
                EffectView::Nothing,
            ),
            EventView::WrongPassword { path } => (
                StateView {
                    password_prompt: Some(
                        PromptView { path, error: Some("Wrong password, try again."@) },
                    ),
                    ..self
                },
                EffectView::Nothing,
            ),
            EventView::Progress(update) => (
                StateView { progress: Some(update), ..self },
                EffectView::Nothing,
            ),
            EventView::AskOverwrite { path, dest } => (
                self,
                EffectView::AskOverwrite { path, dest },
            ),
            EventView::PreviewReady { temp_path } => (
                self,
                EffectView::OpenPreview { temp_path },
            ),
            EventView::Done(report) => (
                StateView { progress: None, status: report_text(report), ..self },
                EffectView::Nothing,
            ),
            EventView::Cancelled => (
                StateView { progress: None, status: "Operation cancelled."@, ..self },
                EffectView::Nothing,
            ),
            EventView::Unsupported(m) => (
                self.saying("Not supported yet: "@ + m),
                EffectView::Nothing,
            ),
            EventView::Error(m) => (self.saying("Error: "@ + m), EffectView::Nothing),
            EventView::ConfigChanged(config) => (
                StateView { config, ..self },
                EffectView::SaveConfig,
            ),
        }
    }
}

/// Whatever was shown before, opening an archive shows it from its root, with nothing selected,
/// expanded or searched for, and with no password asked.
pub proof fn opening_resets_the_view(s: StateView, name: Seq<char>, entries: Seq<EntryView>)
    ensures
        ({
            let t = s.after(EventView::Opened { name, entries }).0;
            &&& t.entries == entries
            &&& t.focus is None
            &&& t.selection.len() == 0
            &&& t.expanded.len() == 0
            &&& t.search_query.len() == 0
            &&& t.password_prompt is None
            &&& t.has_archive
            &&& t.config == s.config
        }),
{
}

/// An extraction that has ended, however it has, leaves no progress behind.
pub proof fn ended_extraction_shows_no_progress(s: StateView, r: ReportView)
    ensures
        s.after(EventView::Done(r)).0.progress is None,
        s.after(EventView::Cancelled).0.progress is None,
{
}

impl ViewState {
    /// The state before any archive has been opened.
    pub fn new(config: AppConfig) -> (r: Self)
        ensures
            r@ == initial_state(config@),
    {
        let r = ViewState {
            status: "No archive open.".to_string(),
            archive_name: String::new(),
            breadcrumb: Vec::new(),
            focus: None,
            entries: Vec::new(),
            selection: Vec::new(),
            expanded: Vec::new(),
            has_archive: false,
            search_query: String::new(),
            drag_over: false,
            banner_dismissed: false,
            password_prompt: None,
            progress: None,
            settings_open: false,
            about_open: false,
            config,
        };
        assert(r@.breadcrumb =~= Seq::<CrumbView>::empty());
        assert(r@.entries =~= Seq::<EntryView>::empty());
        assert(r@.selection =~= Seq::<Seq<char>>::empty());
        assert(r@.expanded =~= Seq::<Seq<char>>::empty());
        r
    }

    /// Fold one controller event into the state.
    pub fn apply_event(&mut self, event: Event) -> (r: Effect)
        ensures
            (final(self)@, r@) == old(self)@.after(event@),
    {
        match event {
            Event::Opened { name, entries } => {
                // The archive name lives in the window title; the in-window chrome shows only the
                // breadcrumb trail.
                let title = concat2(name.as_str(), " — hajizip");
                self.archive_name = name;
                self.entries = entries;
                self.breadcrumb = Vec::new();
                self.focus = None;
                self.selection = Vec::new();
                self.expanded = Vec::new();
                self.has_archive = true;
                self.password_prompt = None;
                self.search_query = String::new();
                self.banner_dismissed = false;
                self.status = "Archive opened.".to_string();
                assert(self@.breadcrumb =~= Seq::<CrumbView>::empty());
                assert(self@.selection =~= Seq::<Seq<char>>::empty());
                assert(self@.expanded =~= Seq::<Seq<char>>::empty());
                Effect::SetTitle(title)
            },
            Event::Navigated { breadcrumb, focus, entries } => {
                self.breadcrumb = breadcrumb;
                self.focus = focus;
                self.entries = entries;
                self.status = String::new();
                Effect::Nothing
            },
            Event::PasswordRequired { path } => {
                self.password_prompt = Some(PasswordPrompt { path, error: None });
                Effect::Nothing
            },
            Event::WrongPassword { path } => {
                self.password_prompt = Some(
                    PasswordPrompt {
                        path,
                        error: Some("Wrong password, try again.".to_string()),
                    },
                );
                Effect::Nothing
            },
            Event::Progress(update) => {
                self.progress = Some(update);
                Effect::Nothing
            },
            Event::AskOverwrite { path, dest } => Effect::AskOverwrite { path, dest },
            Event::PreviewReady { temp_path } => Effect::OpenPreview { temp_path },
            Event::Done(report) => {
                self.progress = None;
                let mut m = concat2("Extracted ", decimal_text(report.extracted).as_str());
                m.append(" entries (");
                m.append(decimal_text(report.total_bytes).as_str());
                m.append(" bytes), skipped ");
                m.append(decimal_text(report.skipped).as_str());
                m.append(", failed ");
                m.append(decimal_text(report.failed.len() as u64).as_str());
                m.append(".");
                self.status = m;
                Effect::Nothing
            },
            Event::Cancelled => {
                self.progress = None;
                self.status = "Operation cancelled.".to_string();
                Effect::Nothing
            },
            Event::Unsupported(m) => {
                self.status = concat2("Not supported yet: ", m.as_str());
                Effect::Nothing
            },
            Event::Error(m) => {
                self.status = concat2("Error: ", m.as_str());
                Effect::Nothing
            },
            Event::ConfigChanged(config) => {
                self.config = config;
                Effect::SaveConfig
            },
        }
    }

    /// Tell what came of opening a preview: where it lies, or why it could not be opened.
    pub fn preview_opened(&mut self, outcome: std::result::Result<String, String>)
        ensures
            final(self)@ == match outcome {
                Ok(path) => old(self)@.saying("Opened preview: "@ + path@),
                Err(m) => old(self)@.saying("Error opening preview: "@ + m@),
            },
    {
        self.status = match outcome {
            Ok(path) => concat2("Opened preview: ", path.as_str()),
            Err(m) => concat2("Error opening preview: ", m.as_str()),
        };
    }

    /// Close whatever modal dialog is open (Esc).
    pub fn close_modals(&mut self)
        ensures
            final(self)@ == (StateView {
                settings_open: false,
                about_open: false,
                password_prompt: None,
                ..old(self)@
            }),
    {
        self.settings_open = false;
        self.about_open = false;
        self.password_prompt = None;
    }
}

} // verus!
