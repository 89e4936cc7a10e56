//! Navigation over an archive tree, including nested archives.

use vstd::prelude::*;
use vstd::string::*;

use crate::archive::{Archive, OpenOptions, OptionsView};

use crate::error::{Error, ErrorView, Result};

use crate::format::{ArchiveFormat, CodecFormat};
use crate::model::{EntryMeta, EntryPath, EntryView, NodeKind};
use crate::registry::Registry;
use crate::source::Source;
use crate::text::concat2;

verus! {

/// One frame of the navigation stack: an open archive plus the focused path.
pub struct Frame<A: Archive> {
    /// The archive open at this level.
    pub archive: A,
    /// The path currently in focus within that archive, if any.
    pub focus: Option<EntryPath>,
}

/// A [`Frame`] as a mathematical value.
pub struct FrameView<M> {
    pub model: M,
    pub focus: Option<Seq<char>>,
}

/// An optional path as text.
pub open spec fn opt_path(p: Option<EntryPath>) -> Option<Seq<char>> {
    match p {
        Some(p) => Some(p@),
        None => None,
    }
}

impl<A: Archive> View for Frame<A> {
    type V = FrameView<A::Model>;

    open spec fn view(&self) -> FrameView<A::Model> {
        FrameView { model: self.archive.model(), focus: opt_path(self.focus) }
    }
}

/// The frames as mathematical values.
pub open spec fn frame_views<A: Archive>(fs: Seq<Frame<A>>) -> Seq<FrameView<A::Model>> {
    fs.map_values(|f: Frame<A>| f@)
}

/// Navigates a single open archive, including descending into nested archives.
///
/// Only one archive is open at a time. Opening a new top-level archive replaces the whole
/// navigator. There is always at least one frame.
pub struct Navigator<A: Archive> {
    stack: Vec<Frame<A>>,
    /// Options used when opening nested archives (password / encoding).
    opts: OpenOptions,
}

/// A [`Navigator`] as a mathematical value.
pub struct NavigatorView<M> {
    pub frames: Seq<FrameView<M>>,
    pub opts: OptionsView,
}

impl<A: Archive> View for Navigator<A> {
    type V = NavigatorView<A::Model>;

    closed spec fn view(&self) -> NavigatorView<A::Model> {
        NavigatorView { frames: frame_views(self.stack@), opts: self.opts@ }
    }
}

/// Where entering an entry leads: a directory moves the focus; an archive, or a file that turns out
/// to be one, opens a new level; a symbolic link is refused.
pub open spec fn entered<A: Archive>(
    v: NavigatorView<A::Model>,
    e: EntryView,
) -> std::result::Result<NavigatorView<A::Model>, ErrorView> {
    match e.kind {
        NodeKind::Dir => Ok(
            NavigatorView {
                frames: v.frames.drop_last().push(
                    FrameView { focus: Some(e.path), ..v.frames.last() },
                ),
                ..v
            },
        ),
        NodeKind::Symlink => Err(
            ErrorView::CorruptArchive("cannot enter a symlink: "@ + e.path),
        ),
        NodeKind::Archive | NodeKind::File => match A::nested(v.frames.last().model, e, v.opts) {
            Ok(m) => Ok(
                NavigatorView { frames: v.frames.push(FrameView { model: m, focus: None }), ..v },
            ),
            Err(e) => Err(e),
        },
    }
}

/// Where going back leads: from a subdirectory to the current archive's root, or from a nested
/// archive to the enclosing level. There is no way back from the root of the top level.
pub open spec fn left<M>(v: NavigatorView<M>) -> std::result::Result<
    NavigatorView<M>,
    ErrorView,
> {
    if v.frames.last().focus is Some {
        Ok(
            NavigatorView {
                frames: v.frames.drop_last().push(FrameView { focus: None, ..v.frames.last() }),
                ..v
            },
        )
    } else if v.frames.len() > 1 {
        Ok(NavigatorView { frames: v.frames.drop_last(), ..v })
    } else {
        Err(ErrorView::CorruptArchive("already at the top level"@))
    }
}

/// Going back undoes entering: always after a nested archive was opened, and after a directory was
/// entered from the root of its archive.
pub proof fn back_undoes_enter<A: Archive>(v: NavigatorView<A::Model>, e: EntryView)
    requires
        v.frames.len() >= 1,
        entered::<A>(v, e) is Ok,
        e.kind == NodeKind::Dir ==> v.frames.last().focus is None,
    ensures
        left(entered::<A>(v, e)->Ok_0) == Ok::<NavigatorView<A::Model>, ErrorView>(v),
{
    let w = entered::<A>(v, e)->Ok_0;
    if e.kind == NodeKind::Dir {
        assert(w.frames.drop_last() =~= v.frames.drop_last());
        assert(left(w)->Ok_0.frames =~= v.frames);
    } else {
        assert(w.frames.drop_last() =~= v.frames);
    }
}

/// Whoever goes back often enough comes to the top: every way back shortens the stack or clears a
/// focus, so at most two steps a level are needed.
pub proof fn back_comes_to_an_end<M>(v: NavigatorView<M>)
    requires
        v.frames.len() >= 1,
    ensures
        left(v) is Ok ==> steps_to_top(left(v)->Ok_0) < steps_to_top(v),
        left(v) is Ok ==> left(v)->Ok_0.frames.len() >= 1,
        left(v) is Err ==> v.frames.len() == 1 && v.frames.last().focus is None,
    decreases v.frames.len(),
{
    focused_of_front(v.frames);
    if v.frames.last().focus is Some {
        let w = left(v)->Ok_0;
        assert(w.frames.drop_last() =~= v.frames.drop_last());
        focused_of_front(w.frames);
    }
}

/// The number of frames with a focus.
pub open spec fn focused<M>(fs: Seq<FrameView<M>>) -> nat
    decreases fs.len(),
{
    if fs.len() == 0 {
        0
    } else {
        focused(fs.drop_last()) + if fs.last().focus is Some {
            1nat
        } else {
            0
        }
    }
}

/// A bound on the steps back to the top.
pub open spec fn steps_to_top<M>(v: NavigatorView<M>) -> nat {
    v.frames.len() + focused(v.frames)
}

/// What the last frame adds to the number of frames with a focus.
proof fn focused_of_front<M>(fs: Seq<FrameView<M>>)
    requires
        fs.len() >= 1,
    ensures
        focused(fs) == focused(fs.drop_last()) + if fs.last().focus is Some {
            1nat
        } else {
            0
        },
{
}

impl<A: Archive> Navigator<A> {
    /// There is at least one frame.
    pub open spec fn wf(&self) -> bool {
        self@.frames.len() >= 1
    }

    /// Open a top-level archive with the formats of `registry` and create a navigator for it.
    pub fn open_root<F: ArchiveFormat<Opened = A>, C: CodecFormat>(
        registry: &Registry<F, C>,
        src: Source,
        opts: &OpenOptions,
    ) -> (r: Result<Self>)
        ensures
            match r {
                Ok(n) => {
                    &&& n.wf()
                    &&& n@.frames.len() == 1
                    &&& n@.frames[0].focus is None
                    &&& n@.opts == opts@
                    &&& registry@.opened(src@, opts@) == Ok::<A::Model, ErrorView>(
                        n@.frames[0].model,
                    )
                },
                Err(e) => registry@.opened(src@, opts@) == Err::<A::Model, ErrorView>(e@),
            },
    {
        match registry.open_archive(src, opts) {
            Ok(archive) => {
                let mut stack: Vec<Frame<A>> = Vec::new();
                stack.push(Frame { archive, focus: None });
                Ok(Navigator { stack, opts: opts.clone() })
            },
            Err(e) => Err(e),
        }
    }

    /// The archive at the top of the stack.
    pub fn current(&self) -> (r: Result<&A>)
        requires
            self.wf(),
        ensures
            r is Ok,
            r->Ok_0.model() == self@.frames.last().model,
    {
        Ok(&self.stack[self.stack.len() - 1].archive)
    }

    /// Enter a child directory or nested archive.
    ///
    /// Marking by leading bytes may not catch every archive, so plain files are tried too.
    pub fn enter(&mut self, entry: &EntryMeta) -> (r: Result<()>)
        requires
            old(self).wf(),
        ensures
            final(self).wf(),
            match r {
                Ok(_) => entered::<A>(old(self)@, entry@) == Ok::<
                    NavigatorView<A::Model>,
                    ErrorView,
                >(final(self)@),
                Err(e) => {
                    &&& final(self)@ == old(self)@
                    &&& entered::<A>(old(self)@, entry@) == Err::<
                        NavigatorView<A::Model>,
                        ErrorView,
                    >(e@)
                },
            },
    {
        let ghost before = self.stack@;
        let last: usize = self.stack.len() - 1;
        match entry.kind {
            NodeKind::Dir => {
                self.stack[last].focus = Some(entry.path.clone());
                proof {
                    let v = frame_views(before);
                    assert(frame_views(self.stack@) =~= v.drop_last().push(
                        FrameView { focus: Some(entry@.path), ..v.last() },
                    ));
                }
                Ok(())
            },
            NodeKind::Archive | NodeKind::File => {
                match self.stack[last].archive.open_nested(entry, &self.opts) {
                    Ok(nested) => {
                        self.stack.push(Frame { archive: nested, focus: None });
                        proof {
                            assert(frame_views(self.stack@) =~= frame_views(before).push(
                                FrameView { model: nested.model(), focus: None },
                            ));
                        }
                        Ok(())
                    },
                    Err(e) => Err(e),
                }
            },
            NodeKind::Symlink => Err(
                Error::CorruptArchive(concat2("cannot enter a symlink: ", entry.path.as_str())),
            ),
        }
    }

    /// Go back one level: from a subdirectory to the current archive's root, or from a nested
    /// archive to the enclosing level. Fails at the top.
    pub fn back(&mut self) -> (r: Result<()>)
        requires
            old(self).wf(),
        ensures
            final(self).wf(),
            match r {
                Ok(_) => left(old(self)@) == Ok::<NavigatorView<A::Model>, ErrorView>(final(self)@),
                Err(e) => {
                    &&& final(self)@ == old(self)@
                    &&& left(old(self)@) == Err::<NavigatorView<A::Model>, ErrorView>(e@)
                },
            },
    {
        let ghost before = self.stack@;
        let last: usize = self.stack.len() - 1;
        if self.stack[last].focus.is_some() {
            self.stack[last].focus = None;
            proof {
                let v = frame_views(before);
                assert(frame_views(self.stack@) =~= v.drop_last().push(
                    FrameView { focus: None, ..v.last() },
                ));
            }
            return Ok(());
        }
        if self.stack.len() > 1 {
            self.stack.pop();
            assert(frame_views(self.stack@) =~= frame_views(before).drop_last());
            Ok(())
        } else {
            Err(Error::corrupt("already at the top level"))
        }
    }

    /// The navigation stack, for breadcrumb display.
    pub fn breadcrumb(&self) -> (r: &[Frame<A>])
        ensures
            frame_views(r@) == self@.frames,
    {
        self.stack.as_slice()
    }
}

} // verus!
