//! What a walk over an archive and the archives nested in it yields.

use vstd::prelude::*;

use crate::archive::{Archive, OptionsView};
use crate::encoding::FilenameEncoding;
use crate::error::ErrorView;
use crate::model::{EntryView, NodeKind};
use crate::walk::{
    count_entries, items, limited, limited_is_complete, limited_respects_budget, walk_steps, Step,
    WalkItemView, WalkOptionsView,
};

verus! {

/// What comes of some entries is what comes of the first ones, then of the others.
pub proof fn walking_goes_entry_by_entry<A: Archive>(
    o: WalkOptionsView,
    m: A::Model,
    es: Seq<EntryView>,
    prefix: Seq<char>,
    depth: nat,
    k: int,
)
    requires
        0 <= k <= es.len(),
    ensures
        items::<A>(o, m, es, prefix, depth) == items::<A>(o, m, es.take(k), prefix, depth) + items::<
            A,
        >(o, m, es.skip(k), prefix, depth),
    decreases k,
{
    let all = items::<A>(o, m, es, prefix, depth);
    if k == 0 {
        assert(es.skip(0) =~= es);
        assert(items::<A>(o, m, es.take(0), prefix, depth) =~= Seq::<Step>::empty());
        assert(all =~= items::<A>(o, m, es.take(0), prefix, depth) + items::<A>(
            o,
            m,
            es.skip(0),
            prefix,
            depth,
        ));
    } else {
        let rest = es.drop_first();
        walking_goes_entry_by_entry::<A>(o, m, rest, prefix, depth, k - 1);
        assert(es.take(k).drop_first() =~= rest.take(k - 1));
        assert(es.skip(k) =~= rest.skip(k - 1));
        assert(es.take(k)[0] == es[0]);
        assert(all =~= items::<A>(o, m, es.take(k), prefix, depth) + items::<A>(
            o,
            m,
            es.skip(k),
            prefix,
            depth,
        ));
    }
}

/// Every entry is yielded with its location, and what comes of it comes right behind it: nothing
/// where it is not gone into; else the entries of the archive that it opens to with the walk's own
/// password, names decoded by default, each behind the path of the entry; or the error where it
/// cannot be opened. It is gone into if the walk recurses, the entry is an archive, and it does not
/// lie too deep.
pub proof fn nested_archives_follow_their_entry<A: Archive>(
    o: WalkOptionsView,
    m: A::Model,
    e: EntryView,
    prefix: Seq<char>,
    depth: nat,
)
    ensures
        ({
            let steps = items::<A>(o, m, seq![e], prefix, depth);
            let inside = steps.skip(1);
            let opened = A::nested(
                m,
                e,
                OptionsView { password: o.password, encoding: FilenameEncoding::Auto },
            );
            &&& steps.len() > 0
            &&& steps[0] is Ok
            &&& steps[0]->Ok_0.meta == e
            &&& steps[0]->Ok_0.location == prefix + e.path
            &&& (!o.recurse || e.kind != NodeKind::Archive || depth >= o.max_depth ==> inside.len()
                == 0)
            &&& (o.recurse && e.kind == NodeKind::Archive && depth < o.max_depth ==> {
                &&& (opened is Err ==> inside.len() == 1 && inside[0] is Err && inside[0]->Err_0
                    == opened->Err_0)
                &&& (opened is Ok && A::listing(opened->Ok_0) is Err ==> inside.len() == 0)
                &&& (opened is Ok && A::listing(opened->Ok_0) is Ok ==> inside == items::<A>(
                    o,
                    opened->Ok_0,
                    A::listing(opened->Ok_0)->Ok_0,
                    (prefix + e.path).push('/'),
                    depth + 1,
                ))
            })
        }),
{
    let es = seq![e];
    let steps = items::<A>(o, m, es, prefix, depth);
    assert(es.drop_first() =~= Seq::<EntryView>::empty());
    assert(items::<A>(o, m, es.drop_first(), prefix, depth) =~= Seq::<Step>::empty());
    reveal_strlit("/");
    assert(prefix + e.path + "/"@ =~= (prefix + e.path).push('/'));
    let opened = A::nested(
        m,
        e,
        OptionsView { password: o.password, encoding: FilenameEncoding::Auto },
    );
    if o.recurse && e.kind == NodeKind::Archive && depth < o.max_depth {
        if opened is Ok && A::listing(opened->Ok_0) is Ok {
            assert(steps.skip(1) =~= items::<A>(
                o,
                opened->Ok_0,
                A::listing(opened->Ok_0)->Ok_0,
                (prefix + e.path).push('/'),
                depth + 1,
            ));
        }
    }
}

/// A walk that stays below its limit begins at the root of the archive, and yields what comes of
/// every entry of its listing. One that does not yields the first entries, as many as it may, and
/// then the error that says so.
pub proof fn walks_begin_at_the_root<A: Archive>(
    o: WalkOptionsView,
    m: A::Model,
    es: Seq<EntryView>,
)
    requires
        A::listing(m) == Ok::<Seq<EntryView>, ErrorView>(es),
    ensures
        ({
            let all = items::<A>(o, m, es, Seq::empty(), 0);
            let steps = walk_steps::<A>(o, m);
            &&& (count_entries(all) < o.max_total_entries ==> steps == all)
            &&& (count_entries(all) >= o.max_total_entries ==> {
                &&& count_entries(steps) == o.max_total_entries
                &&& steps.len() > 0
                &&& steps.last() is Err
                &&& steps.last()->Err_0 is LimitExceeded
                &&& steps.last()->Err_0->LimitExceeded_0.max_entries == o.max_total_entries as u64
                &&& steps.drop_last() == all.take(steps.len() - 1)
            })
        }),
{
    let all = items::<A>(o, m, es, Seq::empty(), 0);
    if count_entries(all) < o.max_total_entries {
        limited_is_complete(o, all, o.max_total_entries as nat);
    } else {
        limit_is_told(o, all, o.max_total_entries as nat);
    }
}

/// What is cut off at a limit.
proof fn limit_is_told(o: WalkOptionsView, steps: Seq<Step>, budget: nat)
    requires
        count_entries(steps) >= budget,
    ensures
        ({
            let some = limited(o, steps, budget);
            &&& count_entries(some) == budget
            &&& 0 < some.len() <= steps.len() + 1
            &&& some.last() == Err::<WalkItemView, ErrorView>(crate::walk::limit_error(o))
            &&& some.drop_last() == steps.take(some.len() - 1)
        }),
    decreases steps.len(),
{
    let some = limited(o, steps, budget);
    if steps.len() > 0 && (steps[0] is Err || budget > 0) {
        let left = if steps[0] is Err {
            budget
        } else {
            (budget - 1) as nat
        };
        let rest = steps.drop_first();
        limit_is_told(o, rest, left);
        let inner = limited(o, rest, left);
        assert(some.drop_first() =~= inner);
        assert(some =~= seq![steps[0]] + inner);
        assert(some.drop_last() =~= seq![steps[0]] + inner.drop_last());
        assert(steps.take(some.len() - 1) =~= seq![steps[0]] + rest.take(inner.len() - 1));
    } else {
        assert(some =~= seq![Err::<WalkItemView, ErrorView>(crate::walk::limit_error(o))]);
        assert(some.drop_first() =~= Seq::<Step>::empty());
        assert(count_entries(some.drop_first()) == 0);
        assert(some.drop_last() =~= steps.take(0));
    }
}

/// An archive that cannot be listed gives its error first.
pub proof fn unlisted_archives_give_their_error<A: Archive>(o: WalkOptionsView, m: A::Model)
    requires
        A::listing(m) is Err,
    ensures
        walk_steps::<A>(o, m).len() > 0,
        walk_steps::<A>(o, m)[0] is Err,
        walk_steps::<A>(o, m)[0]->Err_0 == A::listing(m)->Err_0,
        o.max_total_entries > 0 ==> walk_steps::<A>(o, m).len() == 1,
{
    let steps = seq![Err::<WalkItemView, ErrorView>(A::listing(m)->Err_0)];
    assert(steps.drop_first() =~= Seq::<Step>::empty());
    reveal_with_fuel(limited, 2);
}

/// Every entry inside a nested archive is found: where an archive lists an entry that opens, with
/// the walk's password, to an archive with another entry, a walk that recurses yields that one too,
/// behind the path of the first.
pub proof fn entries_of_nested_archives_are_found<A: Archive>(
    o: WalkOptionsView,
    m: A::Model,
    es: Seq<EntryView>,
    prefix: Seq<char>,
    depth: nat,
    k: int,
    n: A::Model,
    inner: Seq<EntryView>,
    j: int,
)
    requires
        o.recurse,
        depth < o.max_depth,
        0 <= k < es.len(),
        es[k].kind == NodeKind::Archive,
        A::nested(
            m,
            es[k],
            OptionsView { password: o.password, encoding: FilenameEncoding::Auto },
        ) == Ok::<A::Model, ErrorView>(n),
        A::listing(n) == Ok::<Seq<EntryView>, ErrorView>(inner),
        0 <= j < inner.len(),
    ensures
        items::<A>(o, m, es, prefix, depth).contains(
            Ok::<WalkItemView, ErrorView>(
                WalkItemView {
                    location: (prefix + es[k].path).push('/') + inner[j].path,
                    meta: inner[j],
                },
            ),
        ),
{
    let e = es[k];
    let all = items::<A>(o, m, es, prefix, depth);
    let own = items::<A>(o, m, seq![e], prefix, depth);
    let deep = (prefix + e.path).push('/');
    let inside = items::<A>(o, n, inner, deep, depth + 1);
    let before = entry_stands_behind::<A>(o, m, es, prefix, depth, k);
    let at = entry_stands_behind::<A>(o, n, inner, deep, depth + 1, j);
    nested_archives_follow_their_entry::<A>(o, m, e, prefix, depth);
    nested_archives_follow_their_entry::<A>(o, n, inner[j], deep, depth + 1);
    let here = items::<A>(o, n, seq![inner[j]], deep, depth + 1);
    assert(inside[at + 0] == here[0]);
    assert(own.skip(1) == inside);
    assert(own.skip(1)[at] == own[1 + at]);
    assert(all[before + (1 + at)] == own[1 + at]);
}

/// What comes of an entry stands together, behind what comes of the entries before it.
proof fn entry_stands_behind<A: Archive>(
    o: WalkOptionsView,
    m: A::Model,
    es: Seq<EntryView>,
    prefix: Seq<char>,
    depth: nat,
    k: int,
) -> (at: int)
    requires
        0 <= k < es.len(),
    ensures
        ({
            let own = items::<A>(o, m, seq![es[k]], prefix, depth);
            let all = items::<A>(o, m, es, prefix, depth);
            &&& 0 <= at
            &&& at + own.len() <= all.len()
            &&& forall|i: int| 0 <= i < own.len() ==> all[at + i] == #[trigger] own[i]
        }),
{
    walking_goes_entry_by_entry::<A>(o, m, es, prefix, depth, k);
    let tail = es.skip(k);
    walking_goes_entry_by_entry::<A>(o, m, tail, prefix, depth, 1);
    assert(tail.take(1) =~= seq![es[k]]);
    items::<A>(o, m, es.take(k), prefix, depth).len() as int
}

/// A walk is never longer than its limit on entries allows.
pub proof fn walks_respect_their_limit<A: Archive>(o: WalkOptionsView, m: A::Model)
    ensures
        count_entries(walk_steps::<A>(o, m)) <= o.max_total_entries,
{
    match A::listing(m) {
        Ok(es) => limited_respects_budget(
            o,
            items::<A>(o, m, es, Seq::empty(), 0),
            o.max_total_entries as nat,
        ),
        Err(e) => limited_respects_budget(
            o,
            seq![Err::<WalkItemView, ErrorView>(e)],
            o.max_total_entries as nat,
        ),
    }
}

} // verus!
