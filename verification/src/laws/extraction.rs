//! What an extraction leaves on the disk, and what it reports.

use vstd::prelude::*;

use crate::archive::Archive;
use crate::error::ErrorView;
use crate::extract::{
    chunks_follow_one_another, first_index, insert_dir, picked, run_start, turn_keeps_wf,
    ActionView, DirTime, ExtractOptionsView, OverwriteDecision, OverwritePolicy, Phase, Reply,
    RunView,
};
use crate::model::{EntryView, NodeKind, Timestamp};

verus! {

/// An entry that begins is dealt with by its kind: a file or an archive is looked for at its
/// destination, a directory is made, and only a symbolic link is skipped at once.
pub proof fn entries_are_dealt_with_by_kind<M>(
    v: RunView<M>,
    reply: Reply,
    content: std::result::Result<Seq<u8>, ErrorView>,
)
    requires
        v.wf(),
        v.phase == Phase::Started,
    ensures
        ({
            let (w, action) = v.turn(reply, content);
            let e = v.entries[v.at];
            &&& (e.kind == NodeKind::File || e.kind == NodeKind::Archive ==> action
                == ActionView::Probe(e.path) && w.phase == Phase::Probing && w.report == v.report)
            &&& (e.kind == NodeKind::Dir ==> action == ActionView::CreateDir(e.path) && w.phase
                == Phase::Dir && w.report == v.report)
            &&& (e.kind == NodeKind::Symlink ==> action == ActionView::EntryDone(e.path)
                && w.report.skipped == v.report.skipped + 1 && w.report.extracted
                == v.report.extracted)
        }),
{
}

/// An entry is skipped only if it is a symbolic link, or if there is a file at its destination and
/// the policy keeps that: always, on the user's word, or because it is not older than the entry.
pub proof fn skipping_has_a_reason<M>(
    v: RunView<M>,
    reply: Reply,
    content: std::result::Result<Seq<u8>, ErrorView>,
)
    requires
        v.wf(),
        v.phase != Phase::Over,
        v.turn(reply, content).0.phase != Phase::Over,
    ensures
        ({
            let w = v.turn(reply, content).0;
            let e = v.entries[v.at];
            w.report.skipped != v.report.skipped <==> {
                ||| v.phase == Phase::Started && e.kind == NodeKind::Symlink
                ||| v.phase == Phase::Probing && reply == Reply::Answer(true) && v.opts.overwrite
                    == OverwritePolicy::Never
                ||| v.phase == Phase::Deciding && reply != Reply::Decision(
                    OverwriteDecision::Overwrite,
                )
                ||| v.phase == Phase::Comparing && reply is Modified && reply->Modified_0 is Some
                    && e.mtime is Some && !(reply->Modified_0->0.secs < e.mtime->0.secs || (
                reply->Modified_0->0.secs == e.mtime->0.secs && reply->Modified_0->0.nanos
                    < e.mtime->0.nanos))
            }
        }),
{
}

/// What fails is recorded with the entry's path, and the run goes on with the next entry: an action
/// that fails as an I/O error, content that cannot be read with its own error. Only what has been
/// cancelled, and a limit that is exceeded, end the run.
pub proof fn failures_are_recorded<M>(
    v: RunView<M>,
    reply: Reply,
    content: std::result::Result<Seq<u8>, ErrorView>,
    m: Seq<char>,
)
    requires
        v.wf(),
        reply is Failed ==> reply->Failed_0@ == m,
    ensures
        ({
            let (w, action) = v.turn(reply, content);
            let e = v.entries[v.at];
            let acts = v.phase == Phase::Dir || v.phase == Phase::Parent || v.phase == Phase::File
                || v.phase == Phase::Chunk || v.phase == Phase::Time;
            &&& (acts && reply is Failed ==> action == ActionView::EntryDone(e.path)
                && w.report.failed == v.report.failed.push((e.path, ErrorView::Io(m)))
                && w.report.extracted == v.report.extracted && w.report.skipped
                == v.report.skipped)
            &&& (v.phase == Phase::File && !(reply is Failed) && content is Err ==> {
                let error = content->Err_0;
                if error is Cancelled || error is LimitExceeded {
                    action == ActionView::Finish(Err(error))
                } else {
                    action == ActionView::EntryDone(e.path) && w.report.failed
                        == v.report.failed.push((e.path, error)) && w.report.extracted
                        == v.report.extracted && w.report.skipped == v.report.skipped
                }
            })
            &&& (v.phase == Phase::Destination && reply is Failed ==> action == ActionView::Finish(
                Err(ErrorView::Io(m)),
            ))
            &&& (w.phase != Phase::Over && w.report.failed != v.report.failed ==> (acts
                && reply is Failed) || (v.phase == Phase::File && content is Err))
        }),
{
}

/// Times are set only where they are to be preserved, and then to the time of the entry.
pub proof fn times_are_those_of_the_entries<M>(
    v: RunView<M>,
    reply: Reply,
    content: std::result::Result<Seq<u8>, ErrorView>,
)
    requires
        v.wf(),
    ensures
        ({
            let (w, action) = v.turn(reply, content);
            let e = v.entries[v.at];
            &&& (action is SetModified ==> v.opts.preserve_mtime && e.mtime is Some && action
                == ActionView::SetModified(e.path, e.mtime->0))
            &&& (!v.opts.preserve_mtime && v.dirs.len() == 0 ==> w.dirs.len() == 0
                && !(action is RestoreDirTime))
            &&& (v.phase == Phase::BeforeChunk && reply != Reply::Answer(true) && v.offset
                == v.content.len() && v.opts.preserve_mtime && e.mtime is Some
                ==> action is SetModified)
        }),
{
}

/// A run begins with the selected entries: with the whole listing where nothing is selected, else
/// with the first entry at each selected path, in the order of the selection. It does not begin
/// where the archive cannot be listed, where a selected path is not there, where there are more
/// entries than allowed, or where a folder for the archive is asked for.
pub proof fn runs_begin_with_the_selection<A: Archive>(
    m: A::Model,
    selection: Seq<Seq<char>>,
    opts: ExtractOptionsView,
    es: Seq<EntryView>,
)
    requires
        A::listing(m) == Ok::<Seq<EntryView>, ErrorView>(es),
    ensures
        ({
            let start = run_start::<A>(m, selection, opts);
            let run = start->Ok_0;
            let all_there = forall|i: int|
                0 <= i < selection.len() ==> path_is_listed(es, #[trigger] selection[i]);
            let count = if selection.len() == 0 {
                es.len()
            } else {
                selection.len()
            };
            &&& (start is Ok <==> !opts.create_top_folder && all_there && count
                <= opts.limits.max_entries)
            &&& (!opts.create_top_folder && all_there && count > opts.limits.max_entries ==> start
                == Err::<RunView<A::Model>, ErrorView>(ErrorView::LimitExceeded(opts.limits)))
            &&& (opts.create_top_folder ==> start->Err_0 is UnsupportedFeature)
            &&& (!opts.create_top_folder && !all_there ==> start->Err_0 is CorruptArchive)
            &&& (start is Ok ==> run.archive == m && run.opts == opts && run.phase == Phase::Ready
                && run.at == 0)
            &&& (start is Ok && selection.len() == 0 ==> run.entries == es)
            &&& (start is Ok && selection.len() > 0 ==> run.entries.len() == selection.len()
                && forall|i: int|
                0 <= i < selection.len() ==> is_first_at(
                    es,
                    #[trigger] run.entries[i],
                    selection[i],
                ))
        }),
{
    if selection.len() > 0 {
        selection_is_picked(es, selection);
    }
}

/// Whether a path is listed.
pub open spec fn path_is_listed(es: Seq<EntryView>, path: Seq<char>) -> bool {
    exists|j: int| 0 <= j < es.len() && (#[trigger] es[j]).path == path
}

/// Whether an entry is the first with a path.
pub open spec fn is_first_at(es: Seq<EntryView>, e: EntryView, path: Seq<char>) -> bool {
    e.path == path && exists|j: int|
        0 <= j < es.len() && #[trigger] es[j] == e && forall|i: int|
            0 <= i < j ==> (#[trigger] es[i]).path != path
}

/// The first position with a path is the first.
proof fn first_index_is_first(es: Seq<EntryView>, path: Seq<char>)
    ensures
        match first_index(es, path) {
            Some(j) => 0 <= j < es.len() && es[j].path == path && forall|i: int|
                0 <= i < j ==> (#[trigger] es[i]).path != path,
            None => forall|i: int| 0 <= i < es.len() ==> (#[trigger] es[i]).path != path,
        },
    decreases es.len(),
{
    if es.len() > 0 {
        let front = es.drop_last();
        first_index_is_first(front, path);
        assert forall|i: int| 0 <= i < front.len() implies front[i] == #[trigger] es[i] by {}
    }
}

/// Picking succeeds where all paths are listed, and gives the first entry of each.
proof fn selection_is_picked(es: Seq<EntryView>, paths: Seq<Seq<char>>)
    ensures
        picked(es, paths) is Ok <==> forall|i: int|
            0 <= i < paths.len() ==> path_is_listed(es, #[trigger] paths[i]),
        picked(es, paths) is Err ==> picked(es, paths)->Err_0 is CorruptArchive,
        picked(es, paths) is Ok ==> picked(es, paths)->Ok_0.len() == paths.len() && forall|i: int|
            0 <= i < paths.len() ==> is_first_at(
                es,
                #[trigger] picked(es, paths)->Ok_0[i],
                paths[i],
            ),
    decreases paths.len(),
{
    if paths.len() > 0 {
        let front = paths.drop_last();
        selection_is_picked(es, front);
        first_index_is_first(es, paths.last());
        let found = first_index(es, paths.last());
        if found is Some {
            assert(path_is_listed(es, paths.last())) by {
                assert(es[found->0].path == paths.last());
            }
            assert(is_first_at(es, es[found->0], paths.last())) by {
                assert(es[found->0] == es[found->0]);
            }
        }
        assert forall|i: int| 0 <= i < front.len() implies front[i] == #[trigger] paths[i] by {}
        if picked(es, front) is Err {
            let k = choose|k: int| 0 <= k < front.len() && !path_is_listed(es, #[trigger] front[k]);
            assert(!path_is_listed(es, paths[k]));
        } else if found is None {
            assert(!path_is_listed(es, paths[paths.len() - 1]));
        }
    }
}

/// What is under the destination.
pub struct DiskView {
    /// The content of each file.
    pub files: Map<Seq<char>, Seq<u8>>,
    /// The directories that were made.
    pub dirs: Set<Seq<char>>,
    /// The modification time of each file or directory that has been given one.
    pub times: Map<Seq<char>, Timestamp>,
}

impl DiskView {
    /// What is there after an action.
    pub open spec fn after(self, action: ActionView) -> DiskView {
        match action {
            ActionView::CreateDir(p) => DiskView { dirs: self.dirs.insert(p), ..self },
            ActionView::CreateFile(p) => DiskView {
                files: self.files.insert(p, Seq::empty()),
                ..self
            },
            ActionView::Write(p, bytes) => DiskView {
                files: self.files.insert(p, self.files[p] + bytes),
                ..self
            },
            ActionView::SetModified(p, t) => DiskView { times: self.times.insert(p, t), ..self },
            ActionView::RestoreDirTime(p, t) => DiskView { times: self.times.insert(p, t), ..self },
            _ => self,
        }
    }

    /// What an action brings, where nothing fails and nobody cancels. The user wants the files in
    /// `yes` to be overwritten.
    pub open spec fn reply(self, action: ActionView, yes: Set<Seq<char>>) -> Reply {
        match action {
            ActionView::PollCancel => Reply::Answer(false),
            ActionView::Probe(p) => Reply::Answer(self.files.contains_key(p)),
            ActionView::AskOverwrite(p) => Reply::Decision(
                if yes.contains(p) {
                    OverwriteDecision::Overwrite
                } else {
                    OverwriteDecision::Skip
                },
            ),
            ActionView::QueryModified(p) => Reply::Modified(
                if self.times.contains_key(p) {
                    Some(self.times[p])
                } else {
                    None
                },
            ),
            _ => Reply::Done,
        }
    }
}

/// A run, the action that it asks for, and what is on the disk.
pub struct Scene<M> {
    pub run: RunView<M>,
    pub action: ActionView,
    pub disk: DiskView,
}

/// Where a run takes place: what each entry holds, and which files the user wants overwritten.
pub struct Setting {
    pub held: spec_fn(EntryView) -> std::result::Result<Seq<u8>, ErrorView>,
    pub yes: Set<Seq<char>>,
}

/// The scene after the action has been performed.
pub open spec fn performed<M>(s: Scene<M>, set: Setting) -> Scene<M> {
    let (run, action) = s.run.turn(
        s.disk.reply(s.action, set.yes),
        (set.held)(s.run.entries[s.run.at]),
    );
    Scene { run, action, disk: s.disk.after(s.action) }
}

/// The scene after several actions.
pub open spec fn played<M>(s: Scene<M>, set: Setting, n: nat) -> Scene<M>
    decreases n,
{
    if n == 0 {
        s
    } else {
        played(performed(s, set), set, (n - 1) as nat)
    }
}

/// Playing on from where a scene has come to.
proof fn played_on<M>(s: Scene<M>, set: Setting, a: nat, b: nat)
    ensures
        played(s, set, a + b) == played(played(s, set, a), set, b),
    decreases a,
{
    if a > 0 {
        played_on(performed(s, set), set, (a - 1) as nat, b);
    }
}

/// Whether content is written for an entry.
pub open spec fn has_content(e: EntryView) -> bool {
    e.kind == NodeKind::File || e.kind == NodeKind::Archive
}

/// Whether there is a file at the entry's destination and it stays.
pub open spec fn stays(
    policy: OverwritePolicy,
    e: EntryView,
    disk: DiskView,
    yes: Set<Seq<char>>,
) -> bool {
    disk.files.contains_key(e.path) && match policy {
        OverwritePolicy::Never => true,
        OverwritePolicy::Always => false,
        OverwritePolicy::Ask => !yes.contains(e.path),
        OverwritePolicy::Newer => match e.mtime {
            Some(t) => disk.times.contains_key(e.path) && {
                let there = disk.times[e.path];
                there.secs > t.secs || (there.secs == t.secs && there.nanos >= t.nanos)
            },
            None => false,
        },
    }
}

/// Whether an entry is skipped.
pub open spec fn is_skipped(
    policy: OverwritePolicy,
    e: EntryView,
    disk: DiskView,
    yes: Set<Seq<char>>,
) -> bool {
    e.kind == NodeKind::Symlink || (has_content(e) && stays(policy, e, disk, yes))
}

/// The number of bytes in the entries that are written.
pub open spec fn bytes_written(
    es: Seq<EntryView>,
    policy: OverwritePolicy,
    disk: DiskView,
    set: Setting,
) -> nat
    decreases es.len(),
{
    if es.len() == 0 {
        0
    } else {
        bytes_written(es.drop_last(), policy, disk, set) + if has_content(es.last())
            && !stays(policy, es.last(), disk, set.yes) {
            (set.held)(es.last())->Ok_0.len()
        } else {
            0
        }
    }
}

/// The number of entries that are skipped.
pub open spec fn count_skipped(
    es: Seq<EntryView>,
    policy: OverwritePolicy,
    disk: DiskView,
    yes: Set<Seq<char>>,
) -> nat
    decreases es.len(),
{
    if es.len() == 0 {
        0
    } else {
        count_skipped(es.drop_last(), policy, disk, yes) + if is_skipped(
            policy,
            es.last(),
            disk,
            yes,
        ) {
            1nat
        } else {
            0
        }
    }
}

/// More entries hold no fewer bytes.
proof fn bytes_written_grows(
    es: Seq<EntryView>,
    policy: OverwritePolicy,
    disk: DiskView,
    set: Setting,
    i: int,
    n: int,
)
    requires
        0 <= i <= n <= es.len(),
    ensures
        bytes_written(es.take(i), policy, disk, set) <= bytes_written(es.take(n), policy, disk, set),
    decreases n,
{
    if i < n {
        bytes_written_grows(es, policy, disk, set, i, n - 1);
        assert(es.take(n).drop_last() =~= es.take(n - 1));
    }
}

/// Writing a file chunk by chunk comes to its end, with all of its content on the disk.
proof fn chunks_are_written<M>(s: Scene<M>, set: Setting) -> (n: nat)
    requires
        s.run.wf(),
        s.run.phase == Phase::BeforeChunk,
        s.action is PollCancel,
        s.disk.files.contains_key(s.run.entries[s.run.at].path),
        s.disk.files[s.run.entries[s.run.at].path] == s.run.content.take(s.run.offset),
        s.run.report.total_bytes + s.run.content.len() - s.run.offset
            <= s.run.opts.limits.max_total_bytes,
    ensures
        ({
            let t = played(s, set, n);
            let p = s.run.entries[s.run.at].path;
            &&& t.run.wf()
            &&& t.action is PollCancel
            &&& t.run.offset == t.run.content.len()
            &&& t.run.report.total_bytes == s.run.report.total_bytes + s.run.content.len()
                - s.run.offset
            &&& t.run == RunView {
                offset: t.run.offset,
                report: crate::extract::ReportView {
                    total_bytes: t.run.report.total_bytes,
                    ..s.run.report
                },
                ..s.run
            }
            &&& t.disk == DiskView { files: s.disk.files.insert(p, s.run.content), ..s.disk }
        }),
    decreases s.run.content.len() - s.run.offset,
{
    let v = s.run;
    let p = v.entries[v.at].path;
    if v.offset == v.content.len() {
        assert(v.content.take(v.offset) =~= v.content);
        assert(s.disk.files =~= s.disk.files.insert(p, v.content));
        0
    } else {
        let held = (set.held)(v.entries[v.at]);
        let a = performed(s, set);
        turn_keeps_wf(v, Reply::Answer(false), held);
        assert(a.action is Write);
        chunks_follow_one_another(v, Reply::Answer(false), held);
        let b = performed(a, set);
        turn_keeps_wf(a.run, Reply::Done, held);
        assert(b.action is PollCancel);
        assert(b.disk.files[p] == v.content.take(b.run.offset));
        let n = chunks_are_written(b, set);
        assert(b.disk.files.insert(p, v.content) =~= s.disk.files.insert(p, v.content));
        played_on(s, set, 2, n);
        assert(played(s, set, 2) == b) by {
            reveal_with_fuel(played, 3);
        }
        2 + n
    }
}

/// What has been done to an entry when the run asks again whether it has been cancelled.
pub open spec fn entry_is_done<M>(s: Scene<M>, t: Scene<M>, set: Setting) -> bool {
    let e = s.run.entries[s.run.at];
    let policy = s.run.opts.overwrite;
    let skipped = is_skipped(policy, e, s.disk, set.yes);
    let written = has_content(e) && !skipped;
    let timed = s.run.opts.preserve_mtime && e.mtime is Some;
    &&& t.run.wf()
    &&& t.run.phase == Phase::AfterEntry
    &&& t.action is PollCancel
    &&& t.run.at == s.run.at
    &&& t.run.entries == s.run.entries
    &&& t.run.opts == s.run.opts
    &&& t.run.archive == s.run.archive
    &&& t.run.report.failed == s.run.report.failed
    &&& t.run.report.skipped == s.run.report.skipped + if skipped {
        1int
    } else {
        0
    }
    &&& t.run.report.extracted == s.run.report.extracted + if skipped {
        0int
    } else {
        1
    }
    &&& t.run.report.total_bytes == s.run.report.total_bytes + if written {
        (set.held)(e)->Ok_0.len() as int
    } else {
        0
    }
    &&& t.run.dirs == if e.kind == NodeKind::Dir && timed {
        insert_dir(s.run.dirs, (e.path, e.mtime->0))
    } else {
        s.run.dirs
    }
    &&& t.disk.files == if written {
        s.disk.files.insert(e.path, (set.held)(e)->Ok_0)
    } else {
        s.disk.files
    }
    &&& t.disk.dirs == if e.kind == NodeKind::Dir {
        s.disk.dirs.insert(e.path)
    } else {
        s.disk.dirs
    }
    &&& t.disk.times == if written && timed {
        s.disk.times.insert(e.path, e.mtime->0)
    } else {
        s.disk.times
    }
}

/// A file that is to be written is written.
proof fn accepted_file_is_written<M>(s: Scene<M>, set: Setting) -> (n: nat)
    requires
        s.run.wf(),
        s.run.phase == Phase::Parent,
        s.action == ActionView::CreateParent(s.run.entries[s.run.at].path),
        has_content(s.run.entries[s.run.at]),
        (set.held)(s.run.entries[s.run.at]) is Ok,
        s.run.report.total_bytes + (set.held)(s.run.entries[s.run.at])->Ok_0.len()
            <= s.run.opts.limits.max_total_bytes,
    ensures
        ({
            let t = played(s, set, n);
            let e = s.run.entries[s.run.at];
            let content = (set.held)(e)->Ok_0;
            let timed = s.run.opts.preserve_mtime && e.mtime is Some;
            &&& t.run.wf()
            &&& t.run.phase == Phase::AfterEntry
            &&& t.action is PollCancel
            &&& t.run.at == s.run.at
            &&& t.run.entries == s.run.entries
            &&& t.run.opts == s.run.opts
            &&& t.run.archive == s.run.archive
            &&& t.run.dirs == s.run.dirs
            &&& t.run.report.failed == s.run.report.failed
            &&& t.run.report.skipped == s.run.report.skipped
            &&& t.run.report.extracted == s.run.report.extracted + 1
            &&& t.run.report.total_bytes == s.run.report.total_bytes + content.len()
            &&& t.disk.files == s.disk.files.insert(e.path, content)
            &&& t.disk.dirs == s.disk.dirs
            &&& t.disk.times == if timed {
                s.disk.times.insert(e.path, e.mtime->0)
            } else {
                s.disk.times
            }
        }),
{
    let e = s.run.entries[s.run.at];
    let held = (set.held)(e);
    let content = held->Ok_0;
    turn_keeps_wf(s.run, Reply::Done, held);
    let a = performed(s, set);
    assert(a.action == ActionView::CreateFile(e.path));
    turn_keeps_wf(a.run, Reply::Done, held);
    let b = performed(a, set);
    assert(b.action is PollCancel);
    assert(b.run.content == content && b.run.offset == 0);
    assert(content.take(0) =~= Seq::<u8>::empty());
    let k = chunks_are_written(b, set);
    let c = played(b, set, k);
    turn_keeps_wf(c.run, Reply::Answer(false), held);
    let d = performed(c, set);
    assert(b.disk.files.insert(e.path, content) =~= s.disk.files.insert(e.path, content));
    turn_keeps_wf(d.run, Reply::Done, held);
    let f = performed(d, set);
    turn_keeps_wf(f.run, Reply::Done, held);
    let g = performed(f, set);
    assert(played(s, set, 2) == b) by {
        reveal_with_fuel(played, 3);
    }
    played_on(s, set, 2, k);
    if s.run.opts.preserve_mtime && e.mtime is Some {
        assert(d.action == ActionView::SetModified(e.path, e.mtime->0));
        assert(f.action == ActionView::EntryDone(e.path));
        assert(g.run.phase == Phase::AfterEntry);
        played_on(s, set, 2 + k, 3);
        assert(played(c, set, 3) == g) by {
            reveal_with_fuel(played, 4);
        }
        2 + k + 3
    } else {
        assert(d.action == ActionView::EntryDone(e.path));
        assert(f.run.phase == Phase::AfterEntry);
        played_on(s, set, 2 + k, 2);
        assert(played(c, set, 2) == f) by {
            reveal_with_fuel(played, 3);
        }
        2 + k + 2
    }
}

/// From the moment that an entry is to begin, where nothing fails and nobody cancels: a directory is
/// made, a file or an archive is written whole unless there is one that stays, and a symbolic link
/// is skipped. That is counted, and nothing else on the disk changes.
pub proof fn every_entry_is_dealt_with<M>(s: Scene<M>, set: Setting) -> (n: nat)
    requires
        s.run.wf(),
        s.run.phase == Phase::BeforeEntry,
        s.action is PollCancel,
        has_content(s.run.entries[s.run.at]) ==> (set.held)(s.run.entries[s.run.at]) is Ok,
        has_content(s.run.entries[s.run.at]) && !stays(
            s.run.opts.overwrite,
            s.run.entries[s.run.at],
            s.disk,
            set.yes,
        ) ==> s.run.report.total_bytes + (set.held)(s.run.entries[s.run.at])->Ok_0.len()
            <= s.run.opts.limits.max_total_bytes,
    ensures
        entry_is_done(s, played(s, set, n), set),
{
    let e = s.run.entries[s.run.at];
    let held = (set.held)(e);
    turn_keeps_wf(s.run, Reply::Answer(false), held);
    let a = performed(s, set);
    assert(a.action is EntryStarted);
    turn_keeps_wf(a.run, Reply::Done, held);
    let b = performed(a, set);
    assert(played(s, set, 2) == b) by {
        reveal_with_fuel(played, 3);
    }
    if e.kind == NodeKind::Symlink {
        turn_keeps_wf(b.run, Reply::Done, held);
        let c = performed(b, set);
        assert(played(s, set, 3) == c) by {
            reveal_with_fuel(played, 4);
        }
        3
    } else if e.kind == NodeKind::Dir {
        assert(b.action == ActionView::CreateDir(e.path));
        turn_keeps_wf(b.run, Reply::Done, held);
        let c = performed(b, set);
        assert(c.action == ActionView::EntryDone(e.path));
        turn_keeps_wf(c.run, Reply::Done, held);
        let d = performed(c, set);
        assert(played(s, set, 4) == d) by {
            reveal_with_fuel(played, 5);
        }
        4
    } else {
        assert(b.action == ActionView::Probe(e.path));
        let there = s.disk.files.contains_key(e.path);
        let r = Reply::Answer(there);
        turn_keeps_wf(b.run, r, held);
        let c = performed(b, set);
        assert(played(s, set, 3) == c) by {
            reveal_with_fuel(played, 4);
        }
        if c.action is CreateParent {
            let k = accepted_file_is_written(c, set);
            played_on(s, set, 3, k);
            3 + k
        } else if c.action is EntryDone {
            turn_keeps_wf(c.run, Reply::Done, held);
            let d = performed(c, set);
            assert(played(s, set, 4) == d) by {
                reveal_with_fuel(played, 5);
            }
            4
        } else {
            let r2 = c.disk.reply(c.action, set.yes);
            turn_keeps_wf(c.run, r2, held);
            let d = performed(c, set);
            assert(played(s, set, 4) == d) by {
                reveal_with_fuel(played, 5);
            }
            if d.action is CreateParent {
                let k = accepted_file_is_written(d, set);
                played_on(s, set, 4, k);
                4 + k
            } else {
                turn_keeps_wf(d.run, Reply::Done, held);
                let f = performed(d, set);
                assert(played(s, set, 5) == f) by {
                    reveal_with_fuel(played, 6);
                }
                5
            }
        }
    }
}

/// Whether no path has two times among the directories.
spec fn one_time_each(dirs: Seq<DirTime>) -> bool {
    forall|i: int, j: int|
        0 <= i < dirs.len() && 0 <= j < dirs.len() && dirs[i].0 == dirs[j].0 ==> (
        #[trigger] dirs[i]).1 == (#[trigger] dirs[j]).1
}

/// Whether a path has a time among the directories.
spec fn has_time(dirs: Seq<DirTime>, p: Seq<char>) -> bool {
    exists|k: int| 0 <= k < dirs.len() && (#[trigger] dirs[k]).0 == p
}

/// Whether a path has the same time, or none.
spec fn same_time(before: DiskView, now: DiskView, p: Seq<char>) -> bool {
    &&& (now.times.contains_key(p) <==> before.times.contains_key(p))
    &&& (before.times.contains_key(p) ==> now.times[p] == before.times[p])
}

/// When all entries are done, the times of the directories are restored, and the report is told.
proof fn times_are_restored<M>(v: RunView<M>, disk: DiskView, set: Setting) -> (n: nat)
    requires
        v.wf(),
        v.phase != Phase::Over,
        v.at == v.entries.len(),
        one_time_each(v.dirs),
    ensures
        ({
            let (run, action) = v.restore();
            let t = played(Scene { run, action, disk }, set, n);
            &&& t.action == ActionView::Finish(Ok(v.report))
            &&& t.disk.files == disk.files
            &&& t.disk.dirs == disk.dirs
            &&& forall|k: int|
                0 <= k < v.dirs.len() ==> t.disk.times.contains_key((#[trigger] v.dirs[k]).0)
                    && t.disk.times[v.dirs[k].0] == v.dirs[k].1
            &&& forall|p: Seq<char>|
                !has_time(v.dirs, p) ==> #[trigger] same_time(disk, t.disk, p)
        }),
    decreases v.dirs.len(),
{
    let (run, action) = v.restore();
    let s = Scene { run, action, disk };
    if v.dirs.len() == 0 {
        assert(played(s, set, 0) == s);
        0
    } else {
        let d = v.dirs[0];
        let rest = v.dirs.drop_first();
        assert forall|i: int, j: int|
            0 <= i < rest.len() && 0 <= j < rest.len() && rest[i].0 == rest[j].0 implies (
        #[trigger] rest[i]).1 == (#[trigger] rest[j]).1 by {
            assert(rest[i] == v.dirs[i + 1] && rest[j] == v.dirs[j + 1]);
        }
        let after = disk.after(action);
        let w = run;
        assert(w.wf()) by {
            assert forall|i: int| 0 <= i < rest.len() implies crate::extract::has_dir(
                v.entries,
                (#[trigger] rest[i]).0,
            ) by {
                assert(rest[i] == v.dirs[i + 1]);
            }
            assert forall|i: int, j: int| 0 <= i < j < rest.len() implies crate::extract::depth_of(
                rest[i].0,
            ) >= crate::extract::depth_of(rest[j].0) by {
                assert(rest[i] == v.dirs[i + 1] && rest[j] == v.dirs[j + 1]);
            }
        }
        let n = times_are_restored(w, after, set);
        let a = performed(s, set);
        assert(a == Scene { run: w.restore().0, action: w.restore().1, disk: after });
        let t = played(a, set, n);
        assert(played(s, set, n + 1) == t);
        assert(after.times == disk.times.insert(d.0, d.1));
        assert(t.disk.times.contains_key(d.0) && t.disk.times[d.0] == d.1) by {
            if has_time(rest, d.0) {
                let j = choose|j: int| 0 <= j < rest.len() && (#[trigger] rest[j]).0 == d.0;
                assert(rest[j] == v.dirs[j + 1]);
                assert(v.dirs[0].0 == v.dirs[j + 1].0);
                assert(v.dirs[j + 1].1 == v.dirs[0].1);
                assert(t.disk.times[rest[j].0] == rest[j].1);
            } else {
                assert(same_time(after, t.disk, d.0));
            }
        }
        assert forall|k: int| 0 <= k < v.dirs.len() implies t.disk.times.contains_key(
            (#[trigger] v.dirs[k]).0,
        ) && t.disk.times[v.dirs[k].0] == v.dirs[k].1 by {
            if k > 0 {
                assert(rest[k - 1] == v.dirs[k]);
                assert(t.disk.times[rest[k - 1].0] == rest[k - 1].1);
            }
        }
        assert forall|p: Seq<char>| !has_time(v.dirs, p) implies #[trigger] same_time(
            disk,
            t.disk,
            p,
        ) by {
            assert(v.dirs[0].0 != p);
            if has_time(rest, p) {
                let k = choose|k: int| 0 <= k < rest.len() && (#[trigger] rest[k]).0 == p;
                assert(v.dirs[k + 1].0 == p);
            }
            assert(same_time(after, t.disk, p));
        }
        n + 1
    }
}

/// Whether an entry's content is written.
pub open spec fn is_written(
    policy: OverwritePolicy,
    e: EntryView,
    disk: DiskView,
    yes: Set<Seq<char>>,
) -> bool {
    has_content(e) && !stays(policy, e, disk, yes)
}

/// Whether one of the first `n` entries is written at a path.
pub open spec fn overwritten(
    es: Seq<EntryView>,
    opts: ExtractOptionsView,
    set: Setting,
    before: DiskView,
    n: int,
    p: Seq<char>,
) -> bool {
    exists|k: int|
        0 <= k < n && (#[trigger] es[k]).path == p && is_written(
            opts.overwrite,
            es[k],
            before,
            set.yes,
        )
}

/// Whether one of the first `n` entries has a path.
spec fn named(es: Seq<EntryView>, n: int, p: Seq<char>) -> bool {
    exists|k: int| 0 <= k < n && (#[trigger] es[k]).path == p
}

/// Whether one of the first `n` entries is a directory with that path and time.
spec fn is_timed_dir(es: Seq<EntryView>, n: int, d: DirTime) -> bool {
    exists|k: int|
        0 <= k < n && (#[trigger] es[k]).kind == NodeKind::Dir && es[k].mtime is Some && d == (
            es[k].path,
            es[k].mtime->0,
        )
}

/// Whether the first `n` entries have been dealt with, as far as files and directories go.
pub open spec fn dealt_with(
    es: Seq<EntryView>,
    opts: ExtractOptionsView,
    set: Setting,
    before: DiskView,
    now: DiskView,
    n: int,
) -> bool {
    &&& forall|k: int|
        0 <= k < n && is_written(opts.overwrite, #[trigger] es[k], before, set.yes) ==> {
            &&& now.files.contains_key(es[k].path)
            &&& now.files[es[k].path] == (set.held)(es[k])->Ok_0
            &&& opts.preserve_mtime && es[k].mtime is Some ==> now.times.contains_key(es[k].path)
                && now.times[es[k].path] == es[k].mtime->0
        }
    &&& forall|p: Seq<char>|
        !overwritten(es, opts, set, before, n, p) ==> (#[trigger] now.files.contains_key(p)
            <==> before.files.contains_key(p)) && (before.files.contains_key(p) ==> now.files[p]
            == before.files[p])
    &&& forall|k: int|
        0 <= k < n && (#[trigger] es[k]).kind == NodeKind::Dir ==> now.dirs.contains(es[k].path)
    &&& forall|p: Seq<char>|
        #[trigger] now.dirs.contains(p) ==> before.dirs.contains(p) || exists|k: int|
            0 <= k < n && (#[trigger] es[k]).kind == NodeKind::Dir && es[k].path == p
}

/// Whether a time that is not set by the first `n` entries is as it was.
spec fn times_kept(es: Seq<EntryView>, before: DiskView, now: DiskView, n: int) -> bool {
    forall|p: Seq<char>|
        !named(es, n, p) ==> (#[trigger] now.times.contains_key(p) <==> before.times.contains_key(
            p,
        )) && (before.times.contains_key(p) ==> now.times[p] == before.times[p])
}

/// Whether the directories whose time is to be restored are those among the first `n` entries that
/// have one.
spec fn dirs_recorded(
    es: Seq<EntryView>,
    opts: ExtractOptionsView,
    dirs: Seq<DirTime>,
    n: int,
) -> bool {
    &&& forall|k: int|
        0 <= k < n && (#[trigger] es[k]).kind == NodeKind::Dir && opts.preserve_mtime
            && es[k].mtime is Some ==> dirs.contains((es[k].path, es[k].mtime->0))
    &&& forall|i: int| 0 <= i < dirs.len() ==> is_timed_dir(es, n, #[trigger] dirs[i])
}

/// No two entries have the same path.
pub open spec fn distinct_paths(es: Seq<EntryView>) -> bool {
    forall|i: int, j: int| 0 <= i < j < es.len() ==> (#[trigger] es[i]).path != (#[trigger] es[j]).path
}

/// Inserting a directory keeps the others and adds it.
proof fn insert_dir_members(dirs: Seq<DirTime>, d: DirTime)
    ensures
        insert_dir(dirs, d).contains(d),
        forall|x: DirTime| #[trigger]
            insert_dir(dirs, d).contains(x) <==> x == d || dirs.contains(x),
    decreases dirs.len(),
{
    let new = insert_dir(dirs, d);
    if dirs.len() == 0 || crate::extract::depth_of(dirs.last().0) >= crate::extract::depth_of(d.0) {
        assert(new[dirs.len() as int] == d);
        assert forall|x: DirTime| #[trigger] new.contains(x) <==> x == d || dirs.contains(x) by {
            if dirs.contains(x) {
                let i = choose|i: int| 0 <= i < dirs.len() && dirs[i] == x;
                assert(new[i] == x);
            }
        }
    } else {
        let front = dirs.drop_last();
        let inner = insert_dir(front, d);
        insert_dir_members(front, d);
        assert forall|x: DirTime| #[trigger] new.contains(x) <==> x == d || dirs.contains(x) by {
            if inner.contains(x) {
                let i = choose|i: int| 0 <= i < inner.len() && inner[i] == x;
                assert(new[i] == x);
                if x != d {
                    let j = choose|j: int| 0 <= j < front.len() && front[j] == x;
                    assert(dirs[j] == x);
                }
            }
            if dirs.contains(x) {
                let i = choose|i: int| 0 <= i < dirs.len() && dirs[i] == x;
                if i < front.len() {
                    assert(front[i] == x);
                    assert(inner.contains(x));
                } else {
                    assert(new[inner.len() as int] == x);
                }
            }
            if new.contains(x) {
                let i = choose|i: int| 0 <= i < new.len() && new[i] == x;
                if i < inner.len() {
                    assert(inner[i] == x);
                    assert(inner.contains(x));
                } else {
                    assert(dirs[dirs.len() - 1] == x);
                }
            }
        }
    }
}

/// One more entry has been dealt with.
proof fn one_more_entry<M>(s: Scene<M>, t: Scene<M>, set: Setting, before: DiskView)
    requires
        s.run.wf(),
        s.run.phase == Phase::BeforeEntry,
        distinct_paths(s.run.entries),
        entry_is_done(s, t, set),
        dealt_with(s.run.entries, s.run.opts, set, before, s.disk, s.run.at),
        times_kept(s.run.entries, before, s.disk, s.run.at),
        dirs_recorded(s.run.entries, s.run.opts, s.run.dirs, s.run.at),
    ensures
        stays(s.run.opts.overwrite, s.run.entries[s.run.at], s.disk, set.yes) == stays(
            s.run.opts.overwrite,
            s.run.entries[s.run.at],
            before,
            set.yes,
        ),
        dealt_with(s.run.entries, s.run.opts, set, before, t.disk, s.run.at + 1),
        times_kept(s.run.entries, before, t.disk, s.run.at + 1),
        dirs_recorded(s.run.entries, s.run.opts, t.run.dirs, s.run.at + 1),
{
    let es = s.run.entries;
    let i = s.run.at;
    let e = es[i];
    let opts = s.run.opts;
    assert(!named(es, i, e.path)) by {
        if named(es, i, e.path) {
            let k = choose|k: int| 0 <= k < i && (#[trigger] es[k]).path == e.path;
            assert(es[k].path != es[i].path);
        }
    }
    assert(!overwritten(es, opts, set, before, i, e.path)) by {
        if overwritten(es, opts, set, before, i, e.path) {
            let k = choose|k: int|
                0 <= k < i && (#[trigger] es[k]).path == e.path && is_written(
                    opts.overwrite,
                    es[k],
                    before,
                    set.yes,
                );
            assert(es[k].path != es[i].path);
        }
    }
    assert(s.disk.files.contains_key(e.path) <==> before.files.contains_key(e.path));
    assert(s.disk.times.contains_key(e.path) <==> before.times.contains_key(e.path));
    let written = is_written(opts.overwrite, e, before, set.yes);
    assert(written == is_written(opts.overwrite, e, s.disk, set.yes));
    assert forall|k: int|
        0 <= k < i + 1 && is_written(opts.overwrite, #[trigger] es[k], before, set.yes) implies {
        &&& t.disk.files.contains_key(es[k].path)
        &&& t.disk.files[es[k].path] == (set.held)(es[k])->Ok_0
        &&& opts.preserve_mtime && es[k].mtime is Some ==> t.disk.times.contains_key(es[k].path)
            && t.disk.times[es[k].path] == es[k].mtime->0
    } by {
        if k < i {
            assert(es[k].path != es[i].path);
        }
    }
    assert forall|p: Seq<char>| !overwritten(es, opts, set, before, i + 1, p) implies (
    #[trigger] t.disk.files.contains_key(p) <==> before.files.contains_key(p)) && (
    before.files.contains_key(p) ==> t.disk.files[p] == before.files[p]) by {
        if overwritten(es, opts, set, before, i, p) {
            let k = choose|k: int|
                0 <= k < i && (#[trigger] es[k]).path == p && is_written(
                    opts.overwrite,
                    es[k],
                    before,
                    set.yes,
                );
            assert(es[k].path == p);
        }
        if written {
            assert(es[i].path != p);
        }
        assert(s.disk.files.contains_key(p) <==> before.files.contains_key(p));
    }
    assert forall|p: Seq<char>| #[trigger] t.disk.dirs.contains(p) implies before.dirs.contains(p)
        || exists|k: int|
        0 <= k < i + 1 && (#[trigger] es[k]).kind == NodeKind::Dir && es[k].path == p by {
        if s.disk.dirs.contains(p) {
            if !before.dirs.contains(p) {
                let k = choose|k: int|
                    0 <= k < i && (#[trigger] es[k]).kind == NodeKind::Dir && es[k].path == p;
                assert(es[k].path == p);
            }
        } else {
            assert(es[i].path == p);
        }
    }
    assert forall|p: Seq<char>| !named(es, i + 1, p) implies (#[trigger] t.disk.times.contains_key(p)
        <==> before.times.contains_key(p)) && (before.times.contains_key(p) ==> t.disk.times[p]
        == before.times[p]) by {
        assert(es[i].path != p);
        if named(es, i, p) {
            let k = choose|k: int| 0 <= k < i && (#[trigger] es[k]).path == p;
            assert(es[k].path == p);
        }
        assert(s.disk.times.contains_key(p) <==> before.times.contains_key(p));
    }
    let (old_dirs, new) = (s.run.dirs, t.run.dirs);
    if e.kind == NodeKind::Dir && opts.preserve_mtime && e.mtime is Some {
        insert_dir_members(old_dirs, (e.path, e.mtime->0));
    }
    assert forall|j: int| 0 <= j < new.len() implies is_timed_dir(es, i + 1, #[trigger] new[j]) by {
        assert(new.contains(new[j]));
        if old_dirs.contains(new[j]) {
            let l = choose|l: int| 0 <= l < old_dirs.len() && old_dirs[l] == new[j];
            assert(is_timed_dir(es, i, old_dirs[l]));
            let k = choose|k: int|
                0 <= k < i && (#[trigger] es[k]).kind == NodeKind::Dir && es[k].mtime is Some
                    && new[j] == (es[k].path, es[k].mtime->0);
            assert(es[k].kind == NodeKind::Dir);
        } else {
            assert(es[i].kind == NodeKind::Dir);
        }
    }
    assert forall|k: int|
        0 <= k < i + 1 && (#[trigger] es[k]).kind == NodeKind::Dir && opts.preserve_mtime
            && es[k].mtime is Some implies new.contains((es[k].path, es[k].mtime->0)) by {
        if k < i {
            assert(old_dirs.contains((es[k].path, es[k].mtime->0)));
        }
    }
}

/// What is on the disk and in the report when a run has ended.
spec fn run_is_done<M>(s: Scene<M>, t: Scene<M>, set: Setting, before: DiskView) -> bool {
    let es = s.run.entries;
    let policy = s.run.opts.overwrite;
    &&& t.action is Finish
    &&& t.action->Finish_0 is Ok
    &&& t.action->Finish_0->Ok_0.failed == s.run.report.failed
    &&& t.action->Finish_0->Ok_0.skipped == count_skipped(es, policy, before, set.yes)
    &&& t.action->Finish_0->Ok_0.extracted == es.len() - count_skipped(es, policy, before, set.yes)
    &&& t.action->Finish_0->Ok_0.total_bytes == bytes_written(es, policy, before, set)
    &&& dealt_with(es, s.run.opts, set, before, t.disk, es.len() as int)
    &&& forall|k: int|
        0 <= k < es.len() && (#[trigger] es[k]).kind == NodeKind::Dir && s.run.opts.preserve_mtime
            && es[k].mtime is Some ==> t.disk.times.contains_key(es[k].path)
            && t.disk.times[es[k].path] == es[k].mtime->0
}

/// The run goes on to its end from the moment that an entry is to begin.
proof fn run_goes_on<M>(s: Scene<M>, set: Setting, before: DiskView) -> (n: nat)
    requires
        s.run.wf(),
        s.run.phase == Phase::BeforeEntry,
        s.action is PollCancel,
        distinct_paths(s.run.entries),
        forall|k: int|
            0 <= k < s.run.entries.len() && has_content(#[trigger] s.run.entries[k]) ==> (set.held)(
                s.run.entries[k],
            ) is Ok,
        bytes_written(s.run.entries, s.run.opts.overwrite, before, set)
            <= s.run.opts.limits.max_total_bytes,
        dealt_with(s.run.entries, s.run.opts, set, before, s.disk, s.run.at),
        times_kept(s.run.entries, before, s.disk, s.run.at),
        dirs_recorded(s.run.entries, s.run.opts, s.run.dirs, s.run.at),
        s.run.report.failed.len() == 0,
        s.run.report.skipped == count_skipped(
            s.run.entries.take(s.run.at),
            s.run.opts.overwrite,
            before,
            set.yes,
        ),
        s.run.report.total_bytes == bytes_written(
            s.run.entries.take(s.run.at),
            s.run.opts.overwrite,
            before,
            set,
        ),
    ensures
        run_is_done(s, played(s, set, n), set, before),
    decreases s.run.entries.len() - s.run.at,
{
    let es = s.run.entries;
    let i = s.run.at;
    let e = es[i];
    let policy = s.run.opts.overwrite;
    entry_finds_the_first_disk(s, set, before);
    assert(es.take(i + 1).drop_last() =~= es.take(i));
    assert(es.take(i + 1).last() == e);
    bytes_written_grows(es, policy, before, set, i + 1, es.len() as int);
    assert(es.take(es.len() as int) =~= es);
    let a = every_entry_is_dealt_with(s, set);
    let t = played(s, set, a);
    one_more_entry(s, t, set, before);
    let held = (set.held)(e);
    turn_keeps_wf(t.run, Reply::Answer(false), held);
    let u = performed(t, set);
    assert(u.disk == t.disk);
    played_on(s, set, a, 1);
    assert(played(t, set, 1) == u) by {
        reveal_with_fuel(played, 2);
    }
    if i + 1 < es.len() {
        assert(u.action is PollCancel && u.run.phase == Phase::BeforeEntry);
        let b = run_goes_on(u, set, before);
        played_on(s, set, a + 1, b);
        a + 1 + b
    } else {
        let b = run_ends(t, set, before);
        played_on(s, set, a, b);
        a + b
    }
}

/// An entry that is to begin finds at its path what was there before the run.
proof fn entry_finds_the_first_disk<M>(s: Scene<M>, set: Setting, before: DiskView)
    requires
        s.run.wf(),
        s.run.phase == Phase::BeforeEntry,
        distinct_paths(s.run.entries),
        dealt_with(s.run.entries, s.run.opts, set, before, s.disk, s.run.at),
        times_kept(s.run.entries, before, s.disk, s.run.at),
    ensures
        stays(s.run.opts.overwrite, s.run.entries[s.run.at], s.disk, set.yes) == stays(
            s.run.opts.overwrite,
            s.run.entries[s.run.at],
            before,
            set.yes,
        ),
{
    let es = s.run.entries;
    let i = s.run.at;
    let e = es[i];
    if named(es, i, e.path) {
        let k = choose|k: int| 0 <= k < i && (#[trigger] es[k]).path == e.path;
        assert(es[k].path != es[i].path);
    }
    if overwritten(es, s.run.opts, set, before, i, e.path) {
        let k = choose|k: int|
            0 <= k < i && (#[trigger] es[k]).path == e.path && is_written(
                s.run.opts.overwrite,
                es[k],
                before,
                set.yes,
            );
        assert(es[k].path != es[i].path);
    }
    assert(s.disk.files.contains_key(e.path) <==> before.files.contains_key(e.path));
    assert(s.disk.times.contains_key(e.path) <==> before.times.contains_key(e.path));
}

/// Behind the last entry, the run only has directories to restore.
proof fn run_ends<M>(t: Scene<M>, set: Setting, before: DiskView) -> (n: nat)
    requires
        t.run.wf(),
        t.run.phase == Phase::AfterEntry,
        t.action is PollCancel,
        t.run.at + 1 == t.run.entries.len(),
        distinct_paths(t.run.entries),
        dealt_with(t.run.entries, t.run.opts, set, before, t.disk, t.run.entries.len() as int),
        dirs_recorded(t.run.entries, t.run.opts, t.run.dirs, t.run.entries.len() as int),
        t.run.report.failed.len() == 0,
        t.run.report.skipped == count_skipped(
            t.run.entries,
            t.run.opts.overwrite,
            before,
            set.yes,
        ),
        t.run.report.total_bytes == bytes_written(
            t.run.entries,
            t.run.opts.overwrite,
            before,
            set,
        ),
    ensures
        run_is_done(t, played(t, set, n), set, before),
{
    let es = t.run.entries;
    let opts = t.run.opts;
    let u = performed(t, set);
    assert(u.disk == t.disk);
    let w = RunView { at: t.run.at + 1, phase: Phase::Restoring, ..t.run };
    assert(w.wf());
    assert(one_time_each(w.dirs)) by {
        assert forall|x: int, y: int|
            0 <= x < w.dirs.len() && 0 <= y < w.dirs.len() && w.dirs[x].0 == w.dirs[y].0 implies (
        #[trigger] w.dirs[x]).1 == (#[trigger] w.dirs[y]).1 by {
            let (a, b) = (w.dirs[x], w.dirs[y]);
            assert(is_timed_dir(es, es.len() as int, a));
            assert(is_timed_dir(es, es.len() as int, b));
            let k = choose|k: int|
                0 <= k < es.len() && (#[trigger] es[k]).kind == NodeKind::Dir && es[k].mtime is Some
                    && a == (es[k].path, es[k].mtime->0);
            let l = choose|l: int|
                0 <= l < es.len() && (#[trigger] es[l]).kind == NodeKind::Dir && es[l].mtime is Some
                    && b == (es[l].path, es[l].mtime->0);
            if k < l {
                assert(es[k].path != es[l].path);
            } else if l < k {
                assert(es[l].path != es[k].path);
            }
        }
    }
    let b = times_are_restored(w, t.disk, set);
    let r = Scene { run: w.restore().0, action: w.restore().1, disk: t.disk };
    assert(u.action == r.action);
    assert(u.run == r.run || u.action is Finish);
    assert(played(t, set, 1) == u) by {
        reveal_with_fuel(played, 2);
    }
    if u.action is Finish {
        assert(w.dirs.len() == 0);
        assert(run_is_done(t, u, set, before));
        1
    } else {
        let z = played(r, set, b);
        assert forall|k: int|
            0 <= k < es.len() && is_written(opts.overwrite, #[trigger] es[k], before, set.yes) implies {
            &&& z.disk.files.contains_key(es[k].path)
            &&& z.disk.files[es[k].path] == (set.held)(es[k])->Ok_0
            &&& opts.preserve_mtime && es[k].mtime is Some ==> z.disk.times.contains_key(es[k].path)
                && z.disk.times[es[k].path] == es[k].mtime->0
        } by {
            if has_time(w.dirs, es[k].path) {
                let j = choose|j: int|
                    0 <= j < w.dirs.len() && (#[trigger] w.dirs[j]).0 == es[k].path;
                assert(is_timed_dir(es, es.len() as int, w.dirs[j]));
                let l = choose|l: int|
                    0 <= l < es.len() && (#[trigger] es[l]).kind == NodeKind::Dir
                        && es[l].mtime is Some && w.dirs[j] == (es[l].path, es[l].mtime->0);
                if k < l {
                    assert(es[k].path != es[l].path);
                } else if l < k {
                    assert(es[l].path != es[k].path);
                }
            }
            assert(same_time(t.disk, z.disk, es[k].path));
        }
        assert forall|k: int|
            0 <= k < es.len() && (#[trigger] es[k]).kind == NodeKind::Dir && opts.preserve_mtime
                && es[k].mtime is Some implies z.disk.times.contains_key(es[k].path)
            && z.disk.times[es[k].path] == es[k].mtime->0 by {
            let d = (es[k].path, es[k].mtime->0);
            assert(w.dirs.contains(d));
            let j = choose|j: int| 0 <= j < w.dirs.len() && w.dirs[j] == d;
            assert(w.dirs[j].0 == es[k].path);
        }
        assert(run_is_done(t, z, set, before));
        played_on(t, set, 1, b);
        1 + b
    }
}

/// Whether there is the same file at a path, or none.
pub open spec fn same_file(before: DiskView, now: DiskView, p: Seq<char>) -> bool {
    &&& (now.files.contains_key(p) <==> before.files.contains_key(p))
    &&& (before.files.contains_key(p) ==> now.files[p] == before.files[p])
}

/// A run that begins, over a disk.
pub open spec fn first_scene<M>(run: RunView<M>, disk: DiskView) -> Scene<M> {
    let (next, action) = run.turn(Reply::Done, Ok(Seq::empty()));
    Scene { run: next, action, disk }
}

/// Whether one of the entries has content to be written at a path.
pub open spec fn is_destination(es: Seq<EntryView>, p: Seq<char>) -> bool {
    exists|k: int| 0 <= k < es.len() && (#[trigger] es[k]).path == p && has_content(es[k])
}

/// Extraction does what it is for. Where nothing fails, nobody cancels, all content can be read and
/// the bytes stay within their limit, a run comes to its end, and then:
///
/// - every file and every archive among the entries is on the disk with its whole content, unless
///   there was a file that stays;
/// - every directory is there, and with `preserve_mtime` everything has the time of its entry;
/// - no other file has changed;
/// - the report counts as skipped the symbolic links and the files that stayed, as extracted all
///   others, and no failure.
///
/// That is said of entries with different paths; of several with one path, the later ones find the
/// file of the earlier ones.
pub proof fn extraction_writes_the_entries<A: Archive>(
    m: A::Model,
    selection: Seq<Seq<char>>,
    opts: ExtractOptionsView,
    run: RunView<A::Model>,
    set: Setting,
    before: DiskView,
) -> (n: nat)
    requires
        run_start::<A>(m, selection, opts) == Ok::<RunView<A::Model>, ErrorView>(run),
        run.wf(),
        distinct_paths(run.entries),
        forall|k: int|
            0 <= k < run.entries.len() && has_content(#[trigger] run.entries[k]) ==> (set.held)(
                run.entries[k],
            ) is Ok,
        bytes_written(run.entries, opts.overwrite, before, set) <= opts.limits.max_total_bytes,
    ensures
        first_scene(run, before).action is CreateDestination,
        played(first_scene(run, before), set, n).action is Finish,
        played(first_scene(run, before), set, n).action->Finish_0 is Ok,
        ({
            let report = played(first_scene(run, before), set, n).action->Finish_0->Ok_0;
            &&& report.failed.len() == 0
            &&& report.skipped == count_skipped(run.entries, opts.overwrite, before, set.yes)
            &&& report.extracted + report.skipped == run.entries.len()
            &&& report.total_bytes == bytes_written(run.entries, opts.overwrite, before, set)
        }),
        forall|k: int|
            0 <= k < run.entries.len() && has_content(#[trigger] run.entries[k]) ==> {
                let e = run.entries[k];
                let now = played(first_scene(run, before), set, n).disk;
                let kept = stays(opts.overwrite, e, before, set.yes);
                &&& now.files.contains_key(e.path)
                &&& (kept ==> now.files[e.path] == before.files[e.path])
                &&& (!kept ==> now.files[e.path] == (set.held)(e)->Ok_0)
                &&& (!kept && opts.preserve_mtime && e.mtime is Some ==> now.times.contains_key(
                    e.path,
                ) && now.times[e.path] == e.mtime->0)
            },
        forall|k: int|
            0 <= k < run.entries.len() && (#[trigger] run.entries[k]).kind == NodeKind::Dir ==> {
                let e = run.entries[k];
                let now = played(first_scene(run, before), set, n).disk;
                &&& now.dirs.contains(e.path)
                &&& (opts.preserve_mtime && e.mtime is Some ==> now.times.contains_key(e.path)
                    && now.times[e.path] == e.mtime->0)
            },
        forall|p: Seq<char>|
            !is_destination(run.entries, p) ==> #[trigger] same_file(
                before,
                played(first_scene(run, before), set, n).disk,
                p,
            ),
{
    let es = run.entries;
    let policy = opts.overwrite;
    turn_keeps_wf(run, Reply::Done, Ok(Seq::empty()));
    let s = first_scene(run, before);
    let held = (set.held)(s.run.entries[s.run.at]);
    turn_keeps_wf(s.run, Reply::Done, held);
    let a = performed(s, set);
    assert(a.disk == before);
    assert(es.take(0) =~= Seq::<EntryView>::empty());
    assert(count_skipped(es.take(0), policy, before, set.yes) == 0);
    assert(bytes_written(es.take(0), policy, before, set) == 0);
    let n = if es.len() == 0 {
        assert(a.action is Finish);
        assert(played(s, set, 1) == a) by {
            reveal_with_fuel(played, 2);
        }
        assert(es =~= es.take(0));
        1nat
    } else {
        assert(a.run.phase == Phase::BeforeEntry && a.run.at == 0);
        assert(dealt_with(es, opts, set, before, a.disk, 0));
        let b = run_goes_on(a, set, before);
        played_on(s, set, 1, b);
        assert(played(s, set, 1) == a) by {
            reveal_with_fuel(played, 2);
        }
        1 + b
    };
    let t = played(s, set, n);
    assert(dealt_with(es, opts, set, before, t.disk, es.len() as int));
    assert forall|k: int| 0 <= k < es.len() && has_content(#[trigger] es[k]) implies {
        let kept = stays(policy, es[k], before, set.yes);
        let p = es[k].path;
        &&& t.disk.files.contains_key(p)
        &&& (kept ==> t.disk.files[p] == before.files[p])
        &&& (!kept ==> t.disk.files[p] == (set.held)(es[k])->Ok_0)
        &&& (!kept && opts.preserve_mtime && es[k].mtime is Some ==> t.disk.times.contains_key(p)
            && t.disk.times[p] == es[k].mtime->0)
    } by {
        let p = es[k].path;
        if stays(policy, es[k], before, set.yes) {
            if overwritten(es, opts, set, before, es.len() as int, p) {
                let j = choose|j: int|
                    0 <= j < es.len() && (#[trigger] es[j]).path == p && is_written(
                        policy,
                        es[j],
                        before,
                        set.yes,
                    );
                if j < k {
                    assert(es[j].path != es[k].path);
                } else if k < j {
                    assert(es[k].path != es[j].path);
                }
            }
            assert(t.disk.files.contains_key(p) <==> before.files.contains_key(p));
        } else {
            assert(is_written(policy, es[k], before, set.yes));
        }
    }
    assert forall|p: Seq<char>| !is_destination(es, p) implies #[trigger] same_file(
        before,
        t.disk,
        p,
    ) by {
        if overwritten(es, opts, set, before, es.len() as int, p) {
            let j = choose|j: int|
                0 <= j < es.len() && (#[trigger] es[j]).path == p && is_written(
                    policy,
                    es[j],
                    before,
                    set.yes,
                );
            assert(es[j].path == p && has_content(es[j]));
        }
        assert(t.disk.files.contains_key(p) <==> before.files.contains_key(p));
    }
    let report = t.action->Finish_0->Ok_0;
    assert(t.action is Finish && t.action->Finish_0 is Ok);
    assert(report.failed.len() == 0);
    assert(report.skipped == count_skipped(es, policy, before, set.yes));
    assert(report.total_bytes == bytes_written(es, policy, before, set));
    assert(report.extracted == es.len() - count_skipped(es, policy, before, set.yes));
    assert forall|k: int| 0 <= k < es.len() && (#[trigger] es[k]).kind == NodeKind::Dir implies {
        &&& t.disk.dirs.contains(es[k].path)
        &&& (opts.preserve_mtime && es[k].mtime is Some ==> t.disk.times.contains_key(es[k].path)
            && t.disk.times[es[k].path] == es[k].mtime->0)
    } by {}
    n
}

/// Content is written in chunks of 64 KiB, only the last of which may be shorter.
pub proof fn chunks_are_full_but_for_the_last<M>(
    v: RunView<M>,
    reply: Reply,
    content: std::result::Result<Seq<u8>, ErrorView>,
)
    requires
        v.wf(),
        v.turn(reply, content).1 is Write,
    ensures
        ({
            let (w, action) = v.turn(reply, content);
            let bytes = action->Write_1;
            &&& action->Write_0 == v.entries[v.at].path
            &&& 0 < bytes.len() <= 65536
            &&& (bytes.len() < 65536 ==> w.offset == v.content.len())
            &&& w.content == v.content
            &&& w.offset == v.offset + bytes.len()
        }),
{
}

/// A limit is told only where it would be exceeded, and as it was set.
pub proof fn limits_are_told_as_set<M>(
    v: RunView<M>,
    reply: Reply,
    content: std::result::Result<Seq<u8>, ErrorView>,
)
    requires
        v.wf(),
        content is Err ==> !(content->Err_0 is LimitExceeded),
        v.turn(reply, content).1 is Finish,
        v.turn(reply, content).1->Finish_0 is Err,
        v.turn(reply, content).1->Finish_0->Err_0 is LimitExceeded,
    ensures
        v.turn(reply, content).1->Finish_0->Err_0->LimitExceeded_0 == v.opts.limits,
        v.phase == Phase::BeforeChunk,
        v.offset < v.content.len(),
        v.report.total_bytes + 65536 > v.opts.limits.max_total_bytes,
        v.report.total_bytes + v.content.len() - v.offset > v.opts.limits.max_total_bytes,
{
}

/// Nobody but the user cancels a run: it ends as cancelled only where the answer to its question was
/// yes, or the content itself could not be read for that reason.
pub proof fn only_users_cancel<M>(
    v: RunView<M>,
    reply: Reply,
    content: std::result::Result<Seq<u8>, ErrorView>,
)
    requires
        v.wf(),
        content is Err ==> !(content->Err_0 is Cancelled),
        v.turn(reply, content).1 is Finish,
        v.turn(reply, content).1->Finish_0 is Err,
        v.turn(reply, content).1->Finish_0->Err_0 is Cancelled,
    ensures
        reply == Reply::Answer(true),
        v.phase == Phase::BeforeEntry || v.phase == Phase::BeforeChunk || v.phase
            == Phase::AfterEntry,
{
}

} // verus!
