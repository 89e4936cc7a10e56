//! Recursive traversal of an archive and the archives nested in it.

use vstd::prelude::*;
use vstd::string::*;

use crate::archive::{clone_secret, opt_secret, Archive, OpenOptions, OptionsView};
use crate::encoding::FilenameEncoding;
use crate::error::{Error, ErrorView, Result};
use crate::extract::{default_limits, SafetyLimits};
use crate::model::{views, EntryMeta, EntryView, Location, NodeKind, Secret};
use crate::text::{concat2, concat3};

verus! {

/// Options for recursive traversal.
pub struct WalkOptions {
    /// Whether to descend into nested archives.
    pub recurse_nested_archives: bool,
    /// Maximum nesting depth of nested archives.
    pub max_depth: usize,
    /// Maximum total number of entries to yield.
    pub max_total_entries: usize,
    /// Password used to open encrypted nested archives.
    pub password: Option<Secret>,
}

/// [`WalkOptions`] as mathematical values.
pub struct WalkOptionsView {
    pub recurse: bool,
    pub max_depth: usize,
    pub max_total_entries: usize,
    pub password: Option<Seq<u8>>,
}

impl View for WalkOptions {
    type V = WalkOptionsView;

    open spec fn view(&self) -> WalkOptionsView {
        WalkOptionsView {
            recurse: self.recurse_nested_archives,
            max_depth: self.max_depth,
            max_total_entries: self.max_total_entries,
            password: opt_secret(self.password),
        }
    }
}

impl Default for WalkOptions {
    fn default() -> (r: Self)
        ensures
            r@ == (WalkOptionsView {
                recurse: false,
                max_depth: 8,
                max_total_entries: 1_000_000,
                password: None,
            }),
    {
        WalkOptions {
            recurse_nested_archives: false,
            max_depth: 8,
            max_total_entries: 1_000_000,
            password: None,
        }
    }
}

impl Clone for WalkOptions {
    fn clone(&self) -> (r: Self)
        ensures
            r@ == self@,
    {
        WalkOptions {
            recurse_nested_archives: self.recurse_nested_archives,
            max_depth: self.max_depth,
            max_total_entries: self.max_total_entries,
            password: clone_secret(&self.password),
        }
    }
}

/// A single item yielded by [`walk`].
#[derive(Debug)]
pub struct WalkItem {
    /// Fully-qualified location across nested archives.
    pub location: Location,
    /// The entry metadata.
    pub meta: EntryMeta,
}

/// A [`WalkItem`] as a mathematical value.
pub struct WalkItemView {
    pub location: Seq<char>,
    pub meta: EntryView,
}

impl View for WalkItem {
    type V = WalkItemView;

    open spec fn view(&self) -> WalkItemView {
        WalkItemView { location: self.location.0@, meta: self.meta@ }
    }
}

impl Clone for WalkItem {
    fn clone(&self) -> (r: Self)
        ensures
            r@ == self@,
    {
        WalkItem { location: self.location.clone(), meta: self.meta.clone() }
    }
}

/// What a walk yields: an entry, or what went wrong.
pub type Step = std::result::Result<WalkItemView, ErrorView>;

/// An item that was yielded, as a mathematical value.
pub open spec fn step_view(r: Result<WalkItem>) -> Step {
    match r {
        Ok(item) => Ok(item@),
        Err(e) => Err(e@),
    }
}

/// The items that were yielded, as mathematical values.
pub open spec fn step_views(rs: Seq<Result<WalkItem>>) -> Seq<Step> {
    rs.map_values(|r: Result<WalkItem>| step_view(r))
}

/// The options with which nested archives are opened: names are decoded by the default strategy.
pub open spec fn nested_options(o: WalkOptionsView) -> OptionsView {
    OptionsView { password: o.password, encoding: FilenameEncoding::Auto }
}

/// Whether the walk goes into an entry.
pub open spec fn descends(o: WalkOptionsView, e: EntryView, depth: nat) -> bool {
    o.recurse && e.kind == NodeKind::Archive && depth < o.max_depth
}

/// Everything below the entries `es` of an archive: depth-first, each entry before what is nested
/// in it. A nested archive that cannot be opened gives its error in place of its contents; one
/// that cannot be listed gives nothing.
pub open spec fn items<A: Archive>(
    o: WalkOptionsView,
    m: A::Model,
    es: Seq<EntryView>,
    prefix: Seq<char>,
    depth: nat,
) -> Seq<Step>
    decreases
            (if depth <= o.max_depth {
                o.max_depth - depth
            } else {
                0
            }),
            es.len(),
{
    if es.len() == 0 {
        Seq::empty()
    } else {
        let e = es[0];
        let here: Step = Ok(WalkItemView { location: prefix + e.path, meta: e });
        let rest = items::<A>(o, m, es.drop_first(), prefix, depth);
        let inside = if descends(o, e, depth) {
            match A::nested(m, e, nested_options(o)) {
                Err(error) => seq![Err::<WalkItemView, ErrorView>(error)],
                Ok(nested) => match A::listing(nested) {
                    Ok(nested_entries) => items::<A>(
                        o,
                        nested,
                        nested_entries,
                        prefix + e.path + "/"@,
                        depth + 1,
                    ),
                    Err(_) => Seq::empty(),
                },
            }
        } else {
            Seq::empty()
        };
        seq![here] + inside + rest
    }
}

/// The error that ends a walk which has yielded as many entries as it may.
pub open spec fn limit_error(o: WalkOptionsView) -> ErrorView {
    ErrorView::LimitExceeded(
        SafetyLimits { max_entries: o.max_total_entries as u64, ..default_limits() },
    )
}

/// The items up to the limit on entries, which is reported as an error; errors do not count.
pub open spec fn limited(o: WalkOptionsView, steps: Seq<Step>, budget: nat) -> Seq<Step>
    decreases steps.len(),
{
    if steps.len() > 0 && steps[0] is Err {
        seq![steps[0]] + limited(o, steps.drop_first(), budget)
    } else if budget == 0 {
        seq![Err::<WalkItemView, ErrorView>(limit_error(o))]
    } else if steps.len() == 0 {
        Seq::empty()
    } else {
        seq![steps[0]] + limited(o, steps.drop_first(), (budget - 1) as nat)
    }
}

/// Everything that a walk over an archive yields.
pub open spec fn walk_steps<A: Archive>(o: WalkOptionsView, m: A::Model) -> Seq<Step> {
    match A::listing(m) {
        Ok(es) => limited(o, items::<A>(o, m, es, Seq::empty(), 0), o.max_total_entries as nat),
        Err(e) => limited(o, seq![Err::<WalkItemView, ErrorView>(e)], o.max_total_entries as nat),
    }
}

/// The number of entries among the items.
pub open spec fn count_entries(steps: Seq<Step>) -> nat
    decreases steps.len(),
{
    if steps.len() == 0 {
        0
    } else {
        count_entries(steps.drop_first()) + if steps[0] is Ok {
            1nat
        } else {
            0
        }
    }
}

/// A walk never yields more entries than its limit.
pub proof fn limited_respects_budget(o: WalkOptionsView, steps: Seq<Step>, budget: nat)
    ensures
        count_entries(limited(o, steps, budget)) <= budget,
    decreases steps.len(),
{
    let all = limited(o, steps, budget);
    if steps.len() > 0 && steps[0] is Err {
        limited_respects_budget(o, steps.drop_first(), budget);
        assert(all.drop_first() =~= limited(o, steps.drop_first(), budget));
    } else if budget == 0 {
        assert(all.drop_first() =~= Seq::<Step>::empty());
        assert(count_entries(all.drop_first()) == 0);
    } else if steps.len() > 0 {
        limited_respects_budget(o, steps.drop_first(), (budget - 1) as nat);
        assert(all.drop_first() =~= limited(o, steps.drop_first(), (budget - 1) as nat));
    }
}

/// A walk that stays below its limit yields everything there is.
pub proof fn limited_is_complete(o: WalkOptionsView, steps: Seq<Step>, budget: nat)
    requires
        count_entries(steps) < budget,
    ensures
        limited(o, steps, budget) == steps,
    decreases steps.len(),
{
    if steps.len() > 0 {
        let rest = steps.drop_first();
        assert(steps =~= seq![steps[0]] + rest);
        if steps[0] is Err {
            limited_is_complete(o, rest, budget);
        } else {
            limited_is_complete(o, rest, (budget - 1) as nat);
        }
    } else {
        assert(steps =~= Seq::<Step>::empty());
    }
}

/// Where a walk does not recurse, or may not go deeper, it yields the listing, each entry at its
/// own path.
pub proof fn flat_walk_is_the_listing<A: Archive>(
    o: WalkOptionsView,
    m: A::Model,
    es: Seq<EntryView>,
    depth: nat,
)
    requires
        !o.recurse || depth >= o.max_depth,
    ensures
        items::<A>(o, m, es, Seq::empty(), depth) == es.map_values(
            |e: EntryView| Ok::<WalkItemView, ErrorView>(WalkItemView { location: e.path, meta: e }),
        ),
    decreases es.len(),
{
    let want = es.map_values(
        |e: EntryView| Ok::<WalkItemView, ErrorView>(WalkItemView { location: e.path, meta: e }),
    );
    if es.len() > 0 {
        flat_walk_is_the_listing::<A>(o, m, es.drop_first(), depth);
        assert(Seq::<char>::empty() + es[0].path =~= es[0].path);
        assert(items::<A>(o, m, es, Seq::empty(), depth) =~= want);
    } else {
        assert(want =~= Seq::<Step>::empty());
    }
}

/// Owns an archive at a walk level: the borrowed top-level archive or an owned nested archive.
enum Owner<'a, A: Archive> {
    Borrowed(&'a A),
    Owned(A),
}

impl<'a, A: Archive> Owner<'a, A> {
    /// What the archive is.
    spec fn model(self) -> A::Model {
        match self {
            Owner::Borrowed(a) => a.model(),
            Owner::Owned(a) => a.model(),
        }
    }

    fn open_nested(&self, entry: &EntryMeta, opts: &OpenOptions) -> (r: Result<A>)
        ensures
            match r {
                Ok(a) => A::nested(self.model(), entry@, opts@) == Ok::<A::Model, ErrorView>(
                    a.model(),
                ),
                Err(e) => A::nested(self.model(), entry@, opts@) == Err::<A::Model, ErrorView>(e@),
            },
    {
        match self {
            Owner::Borrowed(a) => a.open_nested(entry, opts),
            Owner::Owned(a) => a.open_nested(entry, opts),
        }
    }
}

/// One level of the walk: an archive plus its flat listing.
struct WalkLevel<'a, A: Archive> {
    owner: Owner<'a, A>,
    entries: Vec<EntryMeta>,
    pos: usize,
    /// Accumulated nested-archive path prefix, e.g. `"outer.zip/inner/"`.
    prefix: String,
    /// Nested-archive depth (0 = top level).
    depth: usize,
}

impl<'a, A: Archive> WalkLevel<'a, A> {
    /// What is still to come from this level.
    spec fn steps(self, o: WalkOptionsView) -> Seq<Step> {
        items::<A>(
            o,
            self.owner.model(),
            views(self.entries@).skip(self.pos as int),
            self.prefix@,
            self.depth as nat,
        )
    }
}

/// A walk over archive entries, optionally descending into nested archives (depth-first,
/// pre-order; directories are not expanded separately because the flat listing already contains
/// them).
pub struct Walk<'a, A: Archive> {
    opts: WalkOptions,
    stack: Vec<WalkLevel<'a, A>>,
    yielded: usize,
    limit_hit: bool,
    pending_error: Option<Error>,
}

/// The error that is to be reported next, if any.
spec fn pending_steps(pending: Option<Error>) -> Seq<Step> {
    match pending {
        Some(e) => seq![Err::<WalkItemView, ErrorView>(e@)],
        None => Seq::empty(),
    }
}

/// What is still to come from a stack of levels, the last one first.
spec fn stack_steps<'a, A: Archive>(o: WalkOptionsView, ls: Seq<WalkLevel<'a, A>>) -> Seq<Step>
    decreases ls.len(),
{
    if ls.len() == 0 {
        Seq::empty()
    } else {
        ls.last().steps(o) + stack_steps(o, ls.drop_last())
    }
}

impl<'a, A: Archive> Walk<'a, A> {
    /// Everything that is still to come.
    pub closed spec fn remaining(&self) -> Seq<Step> {
        let o = self.opts@;
        let steps = stack_steps(o, self.stack@);
        let pending = pending_steps(self.pending_error);
        if self.limit_hit {
            Seq::empty()
        } else {
            limited(o, pending + steps, (o.max_total_entries - self.yielded) as nat)
        }
    }

    /// The walk is in a state that it can come to.
    pub closed spec fn wf(&self) -> bool {
        &&& self.yielded <= self.opts.max_total_entries
        &&& self.limit_hit ==> self.pending_error is None
        &&& forall|i: int|
            0 <= i < self.stack@.len() ==> (#[trigger] self.stack@[i]).pos
                <= self.stack@[i].entries@.len()
    }

    /// Go into the entry at the top of the stack, if it is an archive and may be gone into.
    fn descend(&mut self, entry: &EntryMeta, prefix: &str, depth: usize)
        requires
            old(self).stack@.len() >= 1,
            old(self).pending_error is None,
            forall|i: int|
                0 <= i < old(self).stack@.len() ==> (#[trigger] old(self).stack@[i]).pos <= old(self).stack@[i].entries@.len(),
        ensures
            final(self).opts@ == old(self).opts@,
            final(self).yielded == old(self).yielded,
            final(self).limit_hit == old(self).limit_hit,
            final(self).opts.max_total_entries == old(self).opts.max_total_entries,
            forall|i: int|
                0 <= i < final(self).stack@.len() ==> (#[trigger] final(self).stack@[i]).pos
                    <= final(self).stack@[i].entries@.len(),
            ({
                let o = old(self).opts@;
                let m = old(self).stack@.last().owner.model();
                let inside = if descends(o, entry@, depth as nat) {
                    match A::nested(m, entry@, nested_options(o)) {
                        Err(error) => seq![Err::<WalkItemView, ErrorView>(error)],
                        Ok(nested) => match A::listing(nested) {
                            Ok(nested_entries) => items::<A>(
                                o,
                                nested,
                                nested_entries,
                                prefix@ + entry@.path + "/"@,
                                (depth + 1) as nat,
                            ),
                            Err(_) => Seq::empty(),
                        },
                    }
                } else {
                    Seq::empty()
                };
                let pending = pending_steps(final(self).pending_error);
                pending + stack_steps(o, final(self).stack@) == inside + stack_steps(
                    o,
                    old(self).stack@,
                )
            }),
    {
        let ghost o = self.opts@;
        let ghost before = self.stack@;
        let ghost below = stack_steps(o, before);
        assert(Seq::<Step>::empty() + below =~= below);
        if !(self.opts.recurse_nested_archives && entry.kind == NodeKind::Archive && depth
            < self.opts.max_depth) {
            return;
        }
        let nested_opts = OpenOptions {
            password: clone_secret(&self.opts.password),
            encoding: FilenameEncoding::Auto,
        };
        let top: usize = self.stack.len() - 1;
        match self.stack[top].owner.open_nested(entry, &nested_opts) {
            Ok(nested) => {
                let ghost m = nested.model();
                match nested.entries() {
                    Ok(entries) => {
                        let level = WalkLevel {
                            owner: Owner::Owned(nested),
                            entries,
                            pos: 0,
                            prefix: concat3(prefix, entry.path.as_str(), "/"),
                            depth: depth + 1,
                        };
                        proof {
                            assert(views(entries@).skip(0) =~= views(entries@));
                        }
                        let ghost steps = level.steps(o);
                        self.stack.push(level);
                        proof {
                            assert(self.stack@.drop_last() =~= before);
                            assert(Seq::<Step>::empty() + stack_steps(o, self.stack@) =~= steps
                                + below);
                        }
                    },
                    Err(_) => {},
                }
            },
            Err(e) => {
                self.pending_error = Some(e);
            },
        }
    }

    /// The next item, or `None` at the end.
    pub fn next(&mut self) -> (r: Option<Result<WalkItem>>)
        requires
            old(self).wf(),
        ensures
            final(self).wf(),
            match r {
                Some(step) => old(self).remaining() == seq![step_view(step)] + final(self).remaining(),
                None => old(self).remaining().len() == 0 && final(self).remaining().len() == 0,
            },
    {
        let ghost o = self.opts@;
        let ghost all = stack_steps(o, self.stack@);
        let ghost budget = (o.max_total_entries - self.yielded) as nat;
        if let Some(e) = self.pending_error.take() {
            proof {
                let steps = seq![Err::<WalkItemView, ErrorView>(e@)] + all;
                assert(steps.drop_first() =~= all);
                assert(Seq::<Step>::empty() + all =~= all);
            }
            return Some(Err(e));
        }
        assert(Seq::<Step>::empty() + all =~= all);
        if self.limit_hit {
            return None;
        }
        if self.yielded >= self.opts.max_total_entries {
            self.limit_hit = true;
            let limits = SafetyLimits {
                max_entries: self.opts.max_total_entries as u64,
                ..SafetyLimits::default()
            };
            proof {
                stack_begins_with_entry(o, self.stack@);
                assert(limited(o, all, 0) =~= seq![Err::<WalkItemView, ErrorView>(limit_error(o))]
                    + Seq::<Step>::empty());
            }
            return Some(Err(Error::LimitExceeded(limits)));
        }
        // Drop exhausted levels.
        while self.stack.len() > 0 && self.stack[self.stack.len() - 1].pos
            >= self.stack[self.stack.len() - 1].entries.len()
            invariant
                self.opts@ == o,
                self.yielded < self.opts.max_total_entries,
                budget == (o.max_total_entries - self.yielded) as nat,
                !self.limit_hit,
                self.pending_error is None,
                stack_steps(o, self.stack@) == all,
                forall|i: int|
                    0 <= i < self.stack@.len() ==> (#[trigger] self.stack@[i]).pos
                        <= self.stack@[i].entries@.len(),
            decreases self.stack@.len(),
        {
            let ghost before = self.stack@;
            proof {
                let top = before.last();
                assert(views(top.entries@).skip(top.pos as int).len() == 0);
                assert(top.steps(o) =~= Seq::<Step>::empty());
                assert(stack_steps(o, before) =~= stack_steps(o, before.drop_last()));
            }
            self.stack.pop();
            assert(self.stack@ =~= before.drop_last());
        }
        if self.stack.len() == 0 {
            return None;
        }
        let top: usize = self.stack.len() - 1;
        let pos: usize = self.stack[top].pos;
        let depth: usize = self.stack[top].depth;
        let prefix = self.stack[top].prefix.clone();
        let entry = self.stack[top].entries[pos].clone();
        let ghost before = self.stack@;
        self.stack[top].pos = pos + 1;
        self.yielded = self.yielded + 1;
        proof {
            let l = before.last();
            let es = views(l.entries@).skip(pos as int);
            assert(es[0] == entry@);
            assert(es.drop_first() =~= views(l.entries@).skip(pos + 1));
            assert(self.stack@.drop_last() =~= before.drop_last());
            assert(self.stack@.last().steps(o) == items::<A>(
                o,
                l.owner.model(),
                es.drop_first(),
                l.prefix@,
                l.depth as nat,
            ));
        }
        let ghost after = self.stack@;
        let location = Location(concat2(prefix.as_str(), entry.path.as_str()));
        // Descend into nested archives (the entry itself is still yielded).
        self.descend(&entry, prefix.as_str(), depth);
        proof {
            let l = before.last();
            let es = views(l.entries@).skip(pos as int);
            let here: Step = Ok(WalkItemView { location: location.0@, meta: entry@ });
            let pending = pending_steps(self.pending_error);
            let now = pending + stack_steps(o, self.stack@);
            // What was to come is this entry, what is inside it, and what comes after it.
            assert(all =~= seq![here] + now);
            assert(all.drop_first() =~= now);
        }
        Some(Ok(WalkItem { location, meta: entry }))
    }

    /// All the remaining items.
    pub fn collect(&mut self) -> (r: Vec<Result<WalkItem>>)
        requires
            old(self).wf(),
        ensures
            final(self).wf(),
            step_views(r@) == old(self).remaining(),
            final(self).remaining().len() == 0,
    {
        let ghost all = self.remaining();
        let mut out: Vec<Result<WalkItem>> = Vec::new();
        assert(step_views(out@) + self.remaining() =~= all);
        loop
            invariant
                self.wf(),
                step_views(out@) + self.remaining() == all,
            ensures
                self.wf(),
                step_views(out@) == all,
                self.remaining().len() == 0,
            decreases self.remaining().len(),
        {
            let ghost rest = self.remaining();
            match self.next() {
                Some(step) => {
                    let ghost before = out@;
                    out.push(step);
                    assert(step_views(out@) =~= step_views(before).push(step_view(step)));
                    assert(step_views(out@) + self.remaining() =~= all);
                },
                None => {
                    assert(step_views(out@) =~= all);
                    break;
                },
            }
        }
        out
    }
}

/// What is to come from a stack begins with an entry, if anything is to come.
proof fn stack_begins_with_entry<'a, A: Archive>(o: WalkOptionsView, ls: Seq<WalkLevel<'a, A>>)
    ensures
        stack_steps(o, ls).len() > 0 ==> stack_steps(o, ls)[0] is Ok,
    decreases ls.len(),
{
    if ls.len() > 0 {
        stack_begins_with_entry(o, ls.drop_last());
    }
}

/// Begin a recursive walk over `archive`.
///
/// Locations are relative to the archive (e.g. `inner.zip/docs/readme.txt` for a nested archive
/// `inner.zip` at the top level).
pub fn walk<'a, A: Archive>(archive: &'a A, opts: WalkOptions) -> (r: Walk<'a, A>)
    ensures
        r.wf(),
        r.remaining() == walk_steps::<A>(opts@, archive.model()),
{
    let ghost o = opts@;
    match archive.entries() {
        Ok(entries) => {
            let mut stack: Vec<WalkLevel<'a, A>> = Vec::new();
            let level = WalkLevel {
                owner: Owner::Borrowed(archive),
                entries,
                pos: 0,
                prefix: String::new(),
                depth: 0,
            };
            proof {
                assert(views(entries@).skip(0) =~= views(entries@));
            }
            let ghost steps = level.steps(o);
            stack.push(level);
            proof {
                assert(stack@.drop_last() =~= Seq::<WalkLevel<'a, A>>::empty());
                assert(stack_steps(o, stack@.drop_last()) =~= Seq::<Step>::empty());
                assert(Seq::<Step>::empty() + stack_steps(o, stack@) =~= steps);
            }
            Walk { opts, stack, yielded: 0, limit_hit: false, pending_error: None }
        },
        Err(e) => {
            proof {
                let steps = seq![Err::<WalkItemView, ErrorView>(e@)];
                assert(steps + Seq::<Step>::empty() =~= steps);
            }
            Walk {
                opts,
                stack: Vec::new(),
                yielded: 0,
                limit_hit: false,
                pending_error: Some(e),
            }
        },
    }
}

} // verus!
