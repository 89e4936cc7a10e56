//! What the controller makes of the user's intentions and settings.

use vstd::prelude::*;
use vstd::utf8::*;

use crate::archive::{Archive, OptionsView};
use crate::config::ConfigView;
use crate::controller::{
    crumbs, expanded, paths_of, selection_covers_subtrees, total_size, CoreView, CrumbView,
    EventView, Intent, ModelOf, OutcomeView, RequestView, StepView, WaitingView,
};
use crate::error::ErrorView;
use crate::extract::{first_index, path_texts, OverwritePolicy};
use crate::file_path::shown_file_name;
use crate::format::{ArchiveFormat, CodecFormat};
use crate::model::{opt_text, EntryView, NodeKind};
use crate::source::file_source;

verus! {

/// Whether two configurations agree in all that is set by hand.
pub open spec fn same_settings(a: ConfigView, b: ConfigView) -> bool {
    &&& a.overwrite_policy == b.overwrite_policy
    &&& a.preserve_mtime == b.preserve_mtime
    &&& a.safety_limits == b.safety_limits
    &&& a.filename_encoding == b.filename_encoding
    &&& a.default_extract_dir == b.default_extract_dir
    &&& a.nested_buffer_threshold == b.nested_buffer_threshold
}

/// Going into paths one after the other changes no setting.
proof fn reentering_keeps_settings<F: ArchiveFormat, C: CodecFormat>(
    v: CoreView<F, C>,
    chain: Seq<Seq<char>>,
    s: StepView,
)
    ensures
        v.reenter(chain, s).0.config == v.config,
        v.reenter(chain, s).0.registry == v.registry,
        v.reenter(chain, s).0.pending_extract == v.pending_extract,
        v.reenter(chain, s).0.pending_preview == v.pending_preview,
        v.reenter(chain, s).1.request == s.request,
    decreases chain.len(),
{
    if chain.len() > 0 {
        reentering_keeps_settings(v, chain.drop_last(), s);
    }
}

/// Whether an extraction that is asked for carries the settings in force.
pub open spec fn carries_settings(request: RequestView, config: ConfigView) -> bool {
    match request {
        RequestView::Extract { selection, opts, total_bytes } => {
            &&& opts.overwrite == config.overwrite_policy
            &&& opts.preserve_mtime == config.preserve_mtime
            &&& opts.limits == config.safety_limits
            &&& !opts.create_top_folder
        },
        _ => true,
    }
}

/// An extraction that is retried carries the settings in force.
proof fn retried_extraction_carries_settings<F: ArchiveFormat, C: CodecFormat>(
    v: CoreView<F, C>,
    path: Seq<char>,
    s: StepView,
)
    requires
        s.request is Nothing,
    ensures
        carries_settings(v.retry_extract(path, s).1.request, v.config),
        v.retry_extract(path, s).0.config == v.config,
{
    if v.pending_extract is Some {
        let next = CoreView { pending_extract: None, ..v };
        reentering_keeps_settings(next, v.pending_extract->0.context.nested_chain, s);
    }
}

/// What is retried carries the settings in force.
proof fn retries_carry_settings<F: ArchiveFormat, C: CodecFormat>(
    v: CoreView<F, C>,
    path: Seq<char>,
    s: StepView,
)
    requires
        s.request is Nothing,
    ensures
        carries_settings(v.retry_preview(path, s).1.request, v.config),
        v.retry_preview(path, s).0.config == v.config,
{
    let next = CoreView { pending_preview: None, ..v };
    if v.pending_preview is Some {
        let p = v.pending_preview->0;
        reentering_keeps_settings(next, p.context.nested_chain, s);
        let (there, t) = next.reenter(p.context.nested_chain, s);
        preview_carries_settings(there, p.entry, Some(path), t);
        retried_extraction_carries_settings(next, path, s);
    } else {
        retried_extraction_carries_settings(v, path, s);
    }
}

/// What comes behind a preview carries the settings in force.
proof fn preview_carries_settings<F: ArchiveFormat, C: CodecFormat>(
    v: CoreView<F, C>,
    path: Seq<char>,
    then: Option<Seq<char>>,
    s: StepView,
)
    requires
        s.request is Nothing,
    ensures
        carries_settings(v.preview(path, then, s).1.request, v.config),
        v.preview(path, then, s).0.config == v.config,
{
    over_carries_settings(v, then, s.tells(EventView::Error("no archive open"@)));
    over_carries_settings(v, then, s.tells(EventView::Error("entry not found: "@ + path)));
    over_carries_settings(
        v,
        then,
        s.tells(EventView::Error("cannot preview '"@ + path + "' (not a file)"@)),
    );
}

/// What comes behind a preview carries the settings in force.
proof fn over_carries_settings<F: ArchiveFormat, C: CodecFormat>(
    v: CoreView<F, C>,
    then: Option<Seq<char>>,
    s: StepView,
)
    requires
        s.request is Nothing,
    ensures
        carries_settings(v.preview_over(then, s).1.request, v.config),
        v.preview_over(then, s).0.config == v.config,
{
    if then is Some {
        retried_extraction_carries_settings(v, then->0, s);
    }
}

/// Whenever an extraction is asked for, on whatever intention, its options carry the settings in
/// force: what becomes of existing files, whether times are preserved, and the limits. It goes
/// where it was asked to go.
pub proof fn extractions_follow_the_settings<F: ArchiveFormat, C: CodecFormat>(
    v: CoreView<F, C>,
    intent: Intent,
)
    ensures
        match v.on_intent(intent).1.request {
            RequestView::Extract { selection, opts, total_bytes } => {
                &&& opts.overwrite == v.config.overwrite_policy
                &&& opts.preserve_mtime == v.config.preserve_mtime
                &&& opts.limits == v.config.safety_limits
                &&& !opts.create_top_folder
                &&& intent is Extract
                &&& opts.dest_dir == intent->Extract_dest_dir@
            },
            _ => true,
        },
{
}

/// Extractions that are taken up again, once the archive has been opened with a password, carry the
/// settings in force as well, and go where they were first asked to go.
pub proof fn retried_extractions_follow_the_settings<F: ArchiveFormat, C: CodecFormat>(
    v: CoreView<F, C>,
    outcome: OutcomeView,
)
    ensures
        match v.on_outcome(outcome).1.request {
            RequestView::Extract { selection, opts, total_bytes } => {
                &&& opts.overwrite == v.config.overwrite_policy
                &&& opts.preserve_mtime == v.config.preserve_mtime
                &&& opts.limits == v.config.safety_limits
                &&& !opts.create_top_folder
                &&& v.pending_extract is Some
                &&& opts.dest_dir == v.pending_extract->0.dest_dir
            },
            _ => true,
        },
        same_settings(v.on_outcome(outcome).0.config, v.config),
{
    let now = CoreView { waiting: WaitingView::Idle, ..v };
    let quiet = crate::controller::quiet();
    match v.waiting {
        WaitingView::Opening { path, password } => match outcome {
            OutcomeView::Loaded(bytes) => match now.registry.opened(
                file_source(path, bytes),
                now.open_options(password),
            ) {
                Ok(m) => match F::Opened::listing(m) {
                    Ok(entries) => {
                        let name = shown_file_name(path);
                        let root = now.at_root(path, password, name, m, entries);
                        let t = quiet.tells(EventView::ConfigChanged(root.config)).tells(
                            EventView::Opened { name, entries },
                        );
                        retries_carry_settings(root, path, t);
                        retries_go_where_asked(root, path, t);
                    },
                    Err(_) => {},
                },
                Err(_) => {},
            },
            _ => {},
        },
        WaitingView::PreviewDir { entry, then } => {
            preview_dir_carries_settings(now, entry, then, outcome, quiet);
        },
        WaitingView::PreviewFile { dir, then } => {
            let with_dir = CoreView { preview_dir: Some(dir), ..now };
            match outcome {
                OutcomeView::PreviewFile(temp_path) => {
                    let t = quiet.tells(EventView::PreviewReady { temp_path });
                    over_carries_settings(with_dir, then, t);
                    over_goes_where_asked(with_dir, then, t);
                },
                _ => {
                    let t = quiet.tells(EventView::Error(crate::controller::io_failure(outcome)));
                    over_carries_settings(now, then, t);
                    over_goes_where_asked(now, then, t);
                },
            }
        },
        _ => {},
    }
}

/// Whether an extraction that is asked for goes where the deferred one was to go.
spec fn goes_where_asked<F: ArchiveFormat, C: CodecFormat>(
    v: CoreView<F, C>,
    request: RequestView,
) -> bool {
    match request {
        RequestView::Extract { selection, opts, total_bytes } => v.pending_extract is Some
            && opts.dest_dir == v.pending_extract->0.dest_dir,
        _ => true,
    }
}

/// A deferred extraction goes where it was to go.
proof fn retry_goes_where_asked<F: ArchiveFormat, C: CodecFormat>(
    v: CoreView<F, C>,
    path: Seq<char>,
    s: StepView,
)
    requires
        s.request is Nothing,
    ensures
        goes_where_asked(v, v.retry_extract(path, s).1.request),
{
    if v.pending_extract is Some {
        let next = CoreView { pending_extract: None, ..v };
        reentering_keeps_settings(next, v.pending_extract->0.context.nested_chain, s);
    }
}

/// A deferred extraction goes where it was to go.
proof fn over_goes_where_asked<F: ArchiveFormat, C: CodecFormat>(
    v: CoreView<F, C>,
    then: Option<Seq<char>>,
    s: StepView,
)
    requires
        s.request is Nothing,
    ensures
        goes_where_asked(v, v.preview_over(then, s).1.request),
{
    if then is Some {
        retry_goes_where_asked(v, then->0, s);
    }
}

/// A deferred extraction goes where it was to go.
proof fn retries_go_where_asked<F: ArchiveFormat, C: CodecFormat>(
    v: CoreView<F, C>,
    path: Seq<char>,
    s: StepView,
)
    requires
        s.request is Nothing,
    ensures
        goes_where_asked(v, v.retry_preview(path, s).1.request),
{
    let next = CoreView { pending_preview: None, ..v };
    if v.pending_preview is Some {
        let p = v.pending_preview->0;
        reentering_keeps_settings(next, p.context.nested_chain, s);
        let (there, t) = next.reenter(p.context.nested_chain, s);
        let entry = p.entry;
        over_goes_where_asked(there, Some(path), t.tells(EventView::Error("no archive open"@)));
        over_goes_where_asked(
            there,
            Some(path),
            t.tells(EventView::Error("entry not found: "@ + entry)),
        );
        over_goes_where_asked(
            there,
            Some(path),
            t.tells(EventView::Error("cannot preview '"@ + entry + "' (not a file)"@)),
        );
        retry_goes_where_asked(next, path, s);
    } else {
        retry_goes_where_asked(v, path, s);
    }
}

/// What comes behind the directory of a preview carries the settings in force.
proof fn preview_dir_carries_settings<F: ArchiveFormat, C: CodecFormat>(
    v: CoreView<F, C>,
    path: Seq<char>,
    then: Option<Seq<char>>,
    outcome: OutcomeView,
    s: StepView,
)
    requires
        s.request is Nothing,
    ensures
        carries_settings(v.preview_dir_made(path, then, outcome, s).1.request, v.config),
        goes_where_asked(v, v.preview_dir_made(path, then, outcome, s).1.request),
        v.preview_dir_made(path, then, outcome, s).0.config == v.config,
{
    let failed = s.tells(EventView::Error(crate::controller::io_failure(outcome)));
    over_carries_settings(v, then, failed);
    over_goes_where_asked(v, then, failed);
    match outcome {
        OutcomeView::PreviewDir(dir) => {
            let none = s.tells(EventView::Error("no archive open"@));
            over_carries_settings(v, then, none);
            over_goes_where_asked(v, then, none);
            let missing = s.tells(EventView::Error("entry not found: "@ + path));
            over_carries_settings(v, then, missing);
            over_goes_where_asked(v, then, missing);
            if v.stack.len() > 0 && first_index(v.top().entries, path) is Some {
                let i = first_index(v.top().entries, path)->0;
                match F::Opened::content(v.top().model, v.top().entries[i]) {
                    Ok(_) => {},
                    Err(ErrorView::PasswordRequired) => {
                        let w = CoreView {
                            pending_preview: Some(
                                crate::controller::PendingPreviewView {
                                    context: v.context(),
                                    entry: path,
                                },
                            ),
                            ..v
                        };
                        let t = s.drops(Some(dir)).tells(
                            EventView::PasswordRequired { path: v.context().archive },
                        );
                        over_carries_settings(w, then, t);
                        over_goes_where_asked(w, then, t);
                    },
                    Err(e) => {
                        let t = s.tells(EventView::Error(e.message()));
                        over_carries_settings(v, then, t);
                        over_goes_where_asked(v, then, t);
                    },
                }
            }
        },
        _ => {},
    }
}

/// A setting that has been made is in force from then on: after the policy, the handling of times or
/// the encoding has been set, the configuration holds it, nothing else in it has changed, and it is
/// told.
pub proof fn settings_take_effect<F: ArchiveFormat, C: CodecFormat>(v: CoreView<F, C>, intent: Intent)
    ensures
        ({
            let (w, s) = v.on_intent(intent);
            match intent {
                Intent::SetOverwrite(p) => {
                    &&& w.config == ConfigView { overwrite_policy: p, ..v.config }
                    &&& s.events.len() == 1 && s.events[0] == EventView::ConfigChanged(w.config)
                    &&& s.request is Nothing
                },
                Intent::SetPreserveMtime(b) => {
                    &&& w.config == ConfigView { preserve_mtime: b, ..v.config }
                    &&& s.events.len() == 1 && s.events[0] == EventView::ConfigChanged(w.config)
                    &&& s.request is Nothing
                },
                Intent::SetEncoding(e) => {
                    &&& w.config == ConfigView { filename_encoding: e, ..v.config }
                    &&& s.events.len() == 1 && s.events[0] == EventView::ConfigChanged(w.config)
                    // The archive in view is opened again, with the password it was opened with.
                    &&& (v.last_open is None ==> s.request is Nothing)
                    &&& match v.last_open {
                        Some((path, password)) => s.request == (RequestView::ReadFile { path })
                            && w.waiting == (WaitingView::Opening { path, password }),
                        None => true,
                    }
                },
                _ => w.config == v.config,
            }
        }),
{
}

/// What the user sets decides what the next extraction does: whatever was set before, it runs with
/// the policy and the handling of times that were set last.
pub proof fn the_last_setting_counts<F: ArchiveFormat, C: CodecFormat>(
    v: CoreView<F, C>,
    policy: OverwritePolicy,
    times: bool,
    extract: Intent,
)
    requires
        extract is Extract,
    ensures
        ({
            let (w, _) = v.on_intent(Intent::SetOverwrite(policy));
            let (x, _) = w.on_intent(Intent::SetPreserveMtime(times));
            match x.on_intent(extract).1.request {
                RequestView::Extract { selection, opts, total_bytes } => opts.overwrite == policy
                    && opts.preserve_mtime == times && opts.dest_dir
                    == extract->Extract_dest_dir@,
                _ => true,
            }
        }),
{
}

/// An extraction is asked for whenever something of the archive in view is selected and no password
/// is missing: for exactly the entries that are selected, in listing order, and with the sum of
/// their sizes.
pub proof fn extractions_are_asked_for<F: ArchiveFormat, C: CodecFormat>(
    v: CoreView<F, C>,
    intent: Intent,
)
    requires
        intent is Extract,
        v.stack.len() > 0,
        !F::Opened::abilities(v.stack.last().model).needs_password,
        intent->Extract_selection@.len() == 0 || exists|e: EntryView| #[trigger]
            v.stack.last().entries.contains(e) && crate::controller::is_selected(
                e,
                path_texts(intent->Extract_selection@),
            ),
    ensures
        ({
            let chosen = expanded(
                v.stack.last().entries,
                path_texts(intent->Extract_selection@),
            );
            let (w, s) = v.on_intent(intent);
            &&& w.waiting is Extracting
            &&& s.events.len() == 0
            &&& s.request is Extract
            &&& s.request->Extract_selection == chosen.map_values(|e: EntryView| e.path)
            &&& s.request->Extract_total_bytes == total_size(chosen)
        }),
{
    let es = v.stack.last().entries;
    let selection = path_texts(intent->Extract_selection@);
    let chosen = expanded(es, selection);
    if selection.len() > 0 {
        let e = choose|e: EntryView| #[trigger]
            es.contains(e) && crate::controller::is_selected(e, selection);
        selection_covers_subtrees(es, selection, e);
        assert(chosen.contains(e));
    }
    assert(paths_of(chosen) =~= chosen.map_values(|e: EntryView| e.path));
}

/// Sizes add up, as far as they are known and the sum can be represented.
pub proof fn sizes_add_up(es: Seq<EntryView>, e: EntryView)
    ensures
        total_size(Seq::<EntryView>::empty()) == 0,
        e.uncompressed_size is None ==> total_size(es.push(e)) == total_size(es),
        e.uncompressed_size is Some && total_size(es) + e.uncompressed_size->0 <= u64::MAX
            ==> total_size(es.push(e)) == total_size(es) + e.uncompressed_size->0,
        e.uncompressed_size is Some && total_size(es) + e.uncompressed_size->0 > u64::MAX
            ==> total_size(es.push(e)) == u64::MAX,
{
    assert(es.push(e).drop_last() =~= es);
}

/// Opening an archive asks for its file, and once that has been read, opens what it holds with the
/// password that was given and the encoding that is set. It is then shown from its root, told, and
/// remembered as the most recent file; a password is asked for where one is needed and none was
/// given.
pub proof fn archives_are_opened_as_set<F: ArchiveFormat, C: CodecFormat>(
    v: CoreView<F, C>,
    path: Seq<char>,
    password: Option<Seq<char>>,
    bytes: Seq<u8>,
    m: ModelOf<F>,
    entries: Seq<EntryView>,
)
    requires
        v.waiting == (WaitingView::Opening { path, password }),
        v.pending_preview is None,
        v.pending_extract is None,
        v.registry.opened(
            file_source(path, bytes),
            OptionsView {
                password: if password is Some {
                    Some(encode_utf8(password->0))
                } else {
                    None
                },
                encoding: v.config.filename_encoding,
            },
        ) == Ok::<ModelOf<F>, ErrorView>(m),
        F::Opened::listing(m) == Ok::<Seq<EntryView>, ErrorView>(entries),
    ensures
        ({
            let (w, s) = v.on_outcome(OutcomeView::Loaded(bytes));
            let locked = F::Opened::abilities(m).needs_password && password is None;
            &&& w.stack.len() == 1
            &&& w.stack[0].model == m
            &&& w.stack[0].entries == entries
            &&& w.stack[0].focus is None
            &&& w.stack[0].name == shown_file_name(path)
            &&& w.last_open == Some((path, password))
            &&& w.config.recent_files.len() > 0
            &&& w.config.recent_files[0] == path
            &&& w.waiting is Idle
            &&& s.request is Nothing
            &&& s.events.len() == if locked {
                3int
            } else {
                2
            }
            &&& s.events[0] == EventView::ConfigChanged(w.config)
            &&& s.events[1] == (EventView::Opened { name: shown_file_name(path), entries })
            &&& (locked ==> s.events[2] == (EventView::PasswordRequired { path }))
        }),
{
}

/// An intention to open asks for the file at that path, and drops the last preview.
pub proof fn opening_asks_for_the_file<F: ArchiveFormat, C: CodecFormat>(
    v: CoreView<F, C>,
    intent: Intent,
)
    requires
        intent is Open,
    ensures
        ({
            let (w, s) = v.on_intent(intent);
            &&& s.request == (RequestView::ReadFile { path: intent->Open_path@ })
            &&& w.waiting == (WaitingView::Opening {
                path: intent->Open_path@,
                password: opt_text(intent->Open_password),
            })
            &&& s.events.len() == 0
            &&& w.stack == v.stack
            &&& w.preview_dir is None
            &&& (v.preview_dir is Some ==> s.discard.len() == 1 && s.discard[0]
                == v.preview_dir->0)
            &&& (v.preview_dir is None ==> s.discard.len() == 0)
        }),
{
}

/// Entering a directory shows it; entering an archive opens it with the password of the archive that
/// is open and the encoding that is set, and shows its root; nothing else can be entered.
pub proof fn entering_opens_what_is_there<F: ArchiveFormat, C: CodecFormat>(
    v: CoreView<F, C>,
    path: Seq<char>,
    s: StepView,
    k: int,
)
    requires
        v.stack.len() > 0,
        // The first entry with the path.
        0 <= k < v.stack.last().entries.len(),
        v.stack.last().entries[k].path == path,
        forall|j: int| 0 <= j < k ==> (#[trigger] v.stack.last().entries[j]).path != path,
    ensures
        ({
            let top = v.stack.last();
            let e = top.entries[k];
            let (w, t) = v.enter(path, s);
            let password = match v.last_open {
                Some((_, password)) => password,
                None => None,
            };
            let inner = F::Opened::nested(
                top.model,
                e,
                OptionsView {
                    password: if password is Some {
                        Some(encode_utf8(password->0))
                    } else {
                        None
                    },
                    encoding: v.config.filename_encoding,
                },
            );
            &&& t.events.len() == s.events.len() + 1
            &&& t.events.drop_last() == s.events
            &&& (e.kind == NodeKind::Dir ==> {
                &&& w.stack.len() == v.stack.len()
                &&& w.stack.last().focus == Some(path)
                &&& w.stack.last().entries == top.entries
                &&& w.stack.last().model == top.model
                &&& t.events.last() is Navigated
                &&& t.events.last()->Navigated_focus == Some(path)
                &&& t.events.last()->Navigated_entries == top.entries
            })
            &&& (e.kind == NodeKind::Archive && inner is Ok && F::Opened::listing(inner->Ok_0) is Ok
                ==> {
                &&& w.stack.len() == v.stack.len() + 1
                &&& w.stack.drop_last() == v.stack
                &&& w.stack.last().model == inner->Ok_0
                &&& w.stack.last().entries == F::Opened::listing(inner->Ok_0)->Ok_0
                &&& w.stack.last().focus is None
                &&& w.stack.last().entry_path == Some(path)
                &&& t.events.last() is Navigated
                &&& t.events.last()->Navigated_focus is None
                &&& t.events.last()->Navigated_entries == F::Opened::listing(inner->Ok_0)->Ok_0
            })
            &&& (e.kind == NodeKind::Archive && inner is Err ==> w == v && t.events.last()
                == EventView::Error(inner->Err_0.message()))
            &&& (e.kind == NodeKind::File || e.kind == NodeKind::Symlink ==> w == v
                && t.events.last() is Unsupported)
        }),
{
    let es = v.stack.last().entries;
    first_position(es, path, k);
    assert(s.events.push(v.enter(path, s).1.events.last()).drop_last() =~= s.events);
    if v.enter(path, s).0.stack.len() == v.stack.len() + 1 {
        assert(v.enter(path, s).0.stack.drop_last() =~= v.stack);
    }
}

/// The first position with a path is found.
proof fn first_position(es: Seq<EntryView>, path: Seq<char>, k: int)
    requires
        0 <= k < es.len(),
        es[k].path == path,
        forall|j: int| 0 <= j < k ==> (#[trigger] es[j]).path != path,
    ensures
        first_index(es, path) == Some(k),
    decreases es.len(),
{
    let front = es.drop_last();
    if k < front.len() {
        assert forall|j: int| 0 <= j < k implies (#[trigger] front[j]).path != path by {
            assert(front[j] == es[j]);
        }
        first_position(front, path, k);
    } else {
        no_position(front, path);
    }
}

/// A path that is not there has no position.
proof fn no_position(es: Seq<EntryView>, path: Seq<char>)
    requires
        forall|j: int| 0 <= j < es.len() ==> (#[trigger] es[j]).path != path,
    ensures
        first_index(es, path) is None,
    decreases es.len(),
{
    if es.len() > 0 {
        let front = es.drop_last();
        assert forall|j: int| 0 <= j < front.len() implies (#[trigger] front[j]).path != path by {
            assert(front[j] == es[j]);
        }
        no_position(front, path);
        assert(es[es.len() - 1].path != path);
    }
}

/// A preview shows the whole content of the file that was asked for, under its own name.
pub proof fn previews_show_the_file<F: ArchiveFormat, C: CodecFormat>(
    v: CoreView<F, C>,
    path: Seq<char>,
    dir: Seq<char>,
    k: int,
)
    requires
        v.waiting == (WaitingView::PreviewDir { entry: path, then: None }),
        v.stack.len() > 0,
        0 <= k < v.stack.last().entries.len(),
        v.stack.last().entries[k].path == path,
        forall|j: int| 0 <= j < k ==> (#[trigger] v.stack.last().entries[j]).path != path,
        F::Opened::content(v.stack.last().model, v.stack.last().entries[k]) is Ok,
    ensures
        ({
            let (w, s) = v.on_outcome(OutcomeView::PreviewDir(dir));
            &&& s.request is WritePreview
            &&& s.request->WritePreview_dir == dir
            &&& s.request->WritePreview_bytes == F::Opened::content(
                v.stack.last().model,
                v.stack.last().entries[k],
            )->Ok_0
            &&& s.request->WritePreview_name.is_suffix_of(path)
            &&& !s.request->WritePreview_name.contains('/')
            &&& (s.request->WritePreview_name.len() < path.len() ==> path[path.len()
                - s.request->WritePreview_name.len() - 1] == '/')
            &&& s.events.len() == 0
            &&& w.stack == v.stack
        }),
{
    first_position(v.stack.last().entries, path, k);
    last_component(path);
}

/// What follows the last slash.
proof fn last_component(s: Seq<char>)
    ensures
        ({
            let tail = crate::text::after_last(s, '/');
            &&& tail.len() <= s.len()
            &&& tail == s.skip(s.len() - tail.len())
            &&& tail.is_suffix_of(s)
            &&& !tail.contains('/')
            &&& (tail.len() < s.len() ==> s[s.len() - tail.len() - 1] == '/')
        }),
    decreases s.len(),
{
    let tail = crate::text::after_last(s, '/');
    if s.len() > 0 && s.last() != '/' {
        last_component(s.drop_last());
        let front = crate::text::after_last(s.drop_last(), '/');
        assert(tail =~= s.skip(s.len() - tail.len()));
        assert forall|i: int| 0 <= i < tail.len() implies tail[i] != '/' by {
            if i < front.len() {
                assert(front.contains(front[i]));
            }
        }
    } else {
        assert(tail =~= s.skip(s.len() as int));
    }
    assert(tail =~= s.subrange(s.len() - tail.len(), s.len() as int));
}

/// The end of an extraction is told as what it was: the report, that it was cancelled, or the error.
pub proof fn ends_are_told<F: ArchiveFormat, C: CodecFormat>(
    v: CoreView<F, C>,
    outcome: OutcomeView,
)
    requires
        v.waiting is Extracting,
        outcome is Extracted,
    ensures
        ({
            let (w, s) = v.on_outcome(outcome);
            &&& s.request is Nothing
            &&& s.events.len() == 1
            &&& w == CoreView { waiting: WaitingView::Idle, ..v }
            &&& match outcome->Extracted_0 {
                Ok(report) => s.events[0] == EventView::Done(report),
                Err(e) => if e is Cancelled {
                    s.events[0] is Cancelled
                } else {
                    s.events[0] == EventView::Error(e.message())
                },
            }
        }),
{
}

/// The breadcrumb of the archive at its root is its name; of a directory in it, the name and the
/// components of its path, each of which leads to the directory up to there.
pub proof fn breadcrumbs_show_the_way<F: ArchiveFormat, C: CodecFormat>(
    v: CoreView<F, C>,
    n: int,
    i: int,
)
    requires
        0 <= n < v.stack.len(),
        v.stack[n].focus is Some ==> 0 <= i <= crate::model::pieces(v.stack[n].focus->0).len(),
        v.stack[n].focus is None ==> i == 0,
    ensures
        ({
            let at = crumbs(v.stack.take(n)).len() + i;
            let c = crumbs(v.stack)[at as int];
            &&& at < crumbs(v.stack).len()
            &&& c.frame == n
            &&& (i == 0 ==> c.label == v.stack[n].name && c.focus is None)
            &&& (i > 0 ==> c.label == crate::model::pieces(v.stack[n].focus->0)[i - 1] && c.focus
                == Some(
                crate::model::joined(crate::model::pieces(v.stack[n].focus->0).take(i)),
            ))
        }),
    decreases v.stack.len(),
{
    let ls = v.stack;
    let front = ls.drop_last();
    if n < front.len() {
        let w = CoreView { stack: front, ..v };
        assert(front[n] == ls[n]);
        breadcrumbs_show_the_way(w, n, i);
        assert(front.take(n) =~= ls.take(n));
    } else {
        assert(ls.take(n) =~= front);
        match ls.last().focus {
            Some(f) => directory_crumbs(crate::model::pieces(f), n, crate::model::pieces(f).len() as int),
            None => {},
        }
    }
}

/// The crumbs of directories, one for each component.
proof fn directory_crumbs(ps: Seq<Seq<char>>, frame: int, n: int)
    requires
        0 <= n <= ps.len(),
    ensures
        crate::controller::dir_crumbs(ps, frame, n).len() == n,
        forall|i: int|
            0 <= i < n ==> #[trigger] crate::controller::dir_crumbs(ps, frame, n)[i] == (CrumbView {
                label: ps[i],
                frame,
                focus: Some(crate::model::joined(ps.take(i + 1))),
            }),
    decreases n,
{
    if n > 0 {
        directory_crumbs(ps, frame, n - 1);
    }
}

/// A preview of a file asks for a directory, and drops the last preview. What is no file, or is not
/// there, is told and changes nothing.
pub proof fn previews_need_a_file<F: ArchiveFormat, C: CodecFormat>(
    v: CoreView<F, C>,
    intent: Intent,
    k: int,
)
    requires
        intent is Preview,
        v.stack.len() > 0,
    ensures
        ({
            let (w, s) = v.on_intent(intent);
            let es = v.stack.last().entries;
            let path = intent->Preview_path@;
            let first = 0 <= k < es.len() && es[k].path == path && forall|j: int|
                0 <= j < k ==> (#[trigger] es[j]).path != path;
            &&& (first && es[k].kind == NodeKind::File ==> {
                &&& s.request is MakePreviewDir
                &&& s.events.len() == 0
                &&& w.waiting == (WaitingView::PreviewDir { entry: path, then: None })
                &&& w.preview_dir is None
                &&& (v.preview_dir is Some ==> s.discard.len() == 1 && s.discard[0]
                    == v.preview_dir->0)
            })
            &&& (first && es[k].kind != NodeKind::File ==> s.request is Nothing && s.events.len()
                == 1 && s.events[0] is Error && w.stack == v.stack && w.preview_dir
                == v.preview_dir)
            &&& ((forall|j: int| 0 <= j < es.len() ==> (#[trigger] es[j]).path != path)
                ==> s.request is Nothing && s.events.len() == 1 && s.events[0] is Error && w.stack
                == v.stack)
        }),
{
    let es = v.stack.last().entries;
    let path = intent->Preview_path@;
    if 0 <= k < es.len() && es[k].path == path && forall|j: int|
        0 <= j < k ==> (#[trigger] es[j]).path != path {
        first_position(es, path, k);
    }
    if forall|j: int| 0 <= j < es.len() ==> (#[trigger] es[j]).path != path {
        no_position(es, path);
    }
}

/// A preview that has been written is told, and remembered until it is dropped.
pub proof fn written_previews_are_told<F: ArchiveFormat, C: CodecFormat>(
    v: CoreView<F, C>,
    dir: Seq<char>,
    path: Seq<char>,
)
    requires
        v.waiting == (WaitingView::PreviewFile { dir, then: None }),
    ensures
        ({
            let (w, s) = v.on_outcome(OutcomeView::PreviewFile(path));
            &&& s.request is Nothing
            &&& s.events.len() == 1
            &&& s.events[0] == (EventView::PreviewReady { temp_path: path })
            &&& w.preview_dir == Some(dir)
            &&& w.stack == v.stack
        }),
{
}

/// Without an archive nothing can be entered, extracted or previewed: that is told, and nothing is
/// asked for.
pub proof fn nothing_happens_without_an_archive<F: ArchiveFormat, C: CodecFormat>(
    v: CoreView<F, C>,
    intent: Intent,
)
    requires
        v.stack.len() == 0,
        intent is Enter || intent is Back || intent is JumpTo || intent is Extract
            || intent is Preview,
    ensures
        v.on_intent(intent).1.request is Nothing,
        v.on_intent(intent).1.events.len() == 1,
        v.on_intent(intent).1.events[0] is Error,
        v.on_intent(intent).0.stack.len() == 0,
{
}

/// Selecting goes through the listing in order.
pub proof fn selections_keep_listing_order(
    es: Seq<EntryView>,
    e: EntryView,
    selection: Seq<Seq<char>>,
)
    ensures
        selection.len() == 0 ==> expanded(es, selection) == es,
        selection.len() > 0 && crate::controller::is_selected(e, selection) ==> expanded(
            es.push(e),
            selection,
        ) == expanded(es, selection).push(e),
        selection.len() > 0 && !crate::controller::is_selected(e, selection) ==> expanded(
            es.push(e),
            selection,
        ) == expanded(es, selection),
{
    assert(es.push(e).drop_last() =~= es);
}

/// Going back leads from a directory to its parent, from the top of a nested archive to where it was
/// entered, and from the top of the first one nowhere; what is then in view is told.
pub proof fn back_shows_what_is_around<F: ArchiveFormat, C: CodecFormat>(v: CoreView<F, C>)
    requires
        v.stack.len() > 0,
    ensures
        ({
            let (w, s) = v.on_intent(Intent::Back);
            let top = v.stack.last();
            &&& (top.focus is Some ==> w.stack.len() == v.stack.len() && w.stack.last().focus
                == crate::model::parent_of(top.focus->0) && w.stack.last().model == top.model
                && w.stack.last().entries == top.entries)
            &&& (top.focus is None && v.stack.len() > 1 ==> w.stack == v.stack.drop_last())
            &&& (top.focus is None && v.stack.len() == 1 ==> w.stack == v.stack && s.events.len()
                == 0)
            &&& (top.focus is Some || v.stack.len() > 1 ==> {
                &&& s.events.len() == 1
                &&& s.events[0] is Navigated
                &&& s.events[0]->Navigated_entries == w.stack.last().entries
                &&& s.events[0]->Navigated_focus == w.stack.last().focus
                &&& s.events[0]->Navigated_breadcrumb == crumbs(w.stack)
            })
        }),
{
}

/// What is remembered of an operation that is deferred leads back to where it was asked for: the
/// archive that was opened, and the entries through which its nested archives were entered, in
/// order.
pub proof fn deferred_operations_know_their_place<F: ArchiveFormat, C: CodecFormat>(
    v: CoreView<F, C>,
    i: int,
)
    requires
        v.wf(),
        v.stack.len() > 0,
        1 <= i < v.stack.len(),
    ensures
        v.context().nested_chain.len() == v.stack.len() - 1,
        v.stack[i].entry_path == Some(v.context().nested_chain[i - 1]),
        match v.last_open {
            Some((path, _)) => v.context().archive == path,
            None => true,
        },
{
    chain_lists_entries(v, v.stack.len() as int, i);
    assert(v.stack.take(v.stack.len() as int) =~= v.stack);
}

/// The chain of the first levels lists the entries that they were entered through.
proof fn chain_lists_entries<F: ArchiveFormat, C: CodecFormat>(v: CoreView<F, C>, n: int, i: int)
    requires
        v.levels_ok(),
        1 <= n <= v.stack.len(),
    ensures
        crate::controller::chain_of(v.stack.take(n)).len() == n - 1,
        1 <= i < n ==> v.stack[i].entry_path == Some(
            crate::controller::chain_of(v.stack.take(n))[i - 1],
        ),
    decreases n,
{
    let ls = v.stack.take(n);
    if n > 1 {
        chain_lists_entries(v, n - 1, i);
        assert(ls.drop_last() =~= v.stack.take(n - 1));
        assert(ls.last() == v.stack[n - 1]);
        assert(v.stack[n - 1].entry_path is Some);
    }
}

/// An extraction that needs a password is deferred as it was asked for: what was selected, where it
/// was to go, and in which archive. A password for that archive is asked for.
pub proof fn locked_extractions_are_deferred<F: ArchiveFormat, C: CodecFormat>(
    v: CoreView<F, C>,
    intent: Intent,
)
    requires
        intent is Extract,
        v.stack.len() > 0,
        F::Opened::abilities(v.stack.last().model).needs_password,
        exists|e: EntryView| #[trigger]
            expanded(v.stack.last().entries, path_texts(intent->Extract_selection@)).contains(e)
                && e.encrypted,
    ensures
        ({
            let (w, s) = v.on_intent(intent);
            let chosen = expanded(
                v.stack.last().entries,
                path_texts(intent->Extract_selection@),
            );
            &&& s.request is Nothing
            &&& s.events.len() == 1
            &&& s.events[0] is PasswordRequired
            &&& w.pending_extract is Some
            &&& w.pending_extract->0.dest_dir == intent->Extract_dest_dir@
            &&& w.pending_extract->0.selection == chosen.map_values(|e: EntryView| e.path)
            &&& w.pending_extract->0.context == v.context()
            &&& w.stack == v.stack
            &&& match v.last_open {
                Some((path, _)) => s.events[0]->PasswordRequired_path == path,
                None => true,
            }
        }),
{
    let chosen = expanded(v.stack.last().entries, path_texts(intent->Extract_selection@));
    let e = choose|e: EntryView| #[trigger] chosen.contains(e) && e.encrypted;
    let k = choose|k: int| 0 <= k < chosen.len() && chosen[k] == e;
    assert(chosen[k].encrypted);
    assert(paths_of(chosen) =~= chosen.map_values(|e: EntryView| e.path));
}

/// A file that cannot be read, and a preview that cannot be written, are told with what went wrong,
/// and what is in view stays.
pub proof fn failed_requests_are_told<F: ArchiveFormat, C: CodecFormat>(
    v: CoreView<F, C>,
    m: Seq<char>,
)
    requires
        match v.waiting {
            WaitingView::Opening { path, password } => true,
            WaitingView::PreviewDir { entry, then } => then is None,
            WaitingView::PreviewFile { dir, then } => then is None,
            WaitingView::Extracting => true,
            WaitingView::Idle => false,
        },
    ensures
        ({
            let (w, s) = v.on_outcome(OutcomeView::Failed(m));
            &&& w == CoreView { waiting: WaitingView::Idle, ..v }
            &&& s.request is Nothing
            &&& s.events.len() == 1
            &&& s.events[0] is Error
            &&& m.is_suffix_of(s.events[0]->Error_0)
        }),
{
    crate::laws::naming::suffix_of_sum("i/o error: "@, m);
}

} // verus!
