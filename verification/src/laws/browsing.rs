//! How the tree of an archive is shown and moved through.

use vstd::prelude::*;

use crate::archive::children::{
    child_listing_exists, dir_entry, is_child_listing, is_listed, prefix_of,
};
use crate::archive::Archive;
use crate::model::{EntryView, NodeKind};
use crate::navigate::{entered, left, FrameView, NavigatorView};
use crate::text::{find_char, find_char_least};
use crate::viewmodel::{row_of, rows_of, rows_under};

verus! {

/// Whether a path is made of a directory's, a slash and a name; at the root, of a name alone.
pub open spec fn lies_in(path: Seq<char>, dir: Option<Seq<char>>, name: Seq<char>) -> bool {
    match dir {
        Some(d) => path == d.push('/') + name,
        None => path == name,
    }
}

/// What is left of a path in a directory is its name.
proof fn name_is_rest(path: Seq<char>, dir: Option<Seq<char>>, name: Seq<char>)
    requires
        lies_in(path, dir, name),
    ensures
        crate::archive::children::is_under(path, dir),
        crate::archive::children::rest_under(path, dir) == name,
        prefix_of(dir) + name == path,
{
    let p = prefix_of(dir);
    assert(p + name =~= path);
    assert(path.subrange(0, p.len() as int) =~= p);
    assert(path.skip(p.len() as int) =~= name);
}

/// Every entry that lies in a directory is one of its children: of several with the same path, the
/// last one.
pub proof fn entries_are_children_of_their_directory(
    es: Seq<EntryView>,
    dir: Option<Seq<char>>,
    out: Seq<EntryView>,
    k: int,
    name: Seq<char>,
)
    requires
        is_child_listing(es, dir, out),
        0 <= k < es.len(),
        lies_in(es[k].path, dir, name),
        name.len() > 0,
        !name.contains('/'),
        forall|j: int| k < j < es.len() ==> (#[trigger] es[j]).path != es[k].path,
    ensures
        out.contains(es[k]),
{
    name_is_rest(es[k].path, dir, name);
    assert(crate::archive::children::explicit_child(es, dir, es.len() as int, k));
    assert(is_listed(es, dir, es[k]));
}

/// A directory that no entry names, but that an entry lies in, is a child too, as a directory.
pub proof fn implied_directories_are_children(
    es: Seq<EntryView>,
    dir: Option<Seq<char>>,
    out: Seq<EntryView>,
    k: int,
    name: Seq<char>,
    rest: Seq<char>,
)
    requires
        is_child_listing(es, dir, out),
        0 <= k < es.len(),
        lies_in(es[k].path, dir, name.push('/') + rest),
        !name.contains('/'),
        forall|j: int| 0 <= j < es.len() ==> !lies_in((#[trigger] es[j]).path, dir, name),
    ensures
        exists|e: EntryView| #[trigger]
            out.contains(e) && e.kind == NodeKind::Dir && lies_in(e.path, dir, name)
                && e.uncompressed_size is None && !e.encrypted && e.mtime is None,
{
    let tail = name.push('/') + rest;
    name_is_rest(es[k].path, dir, tail);
    find_char_least(tail, '/');
    assert(tail[name.len() as int] == '/');
    assert(tail.contains('/'));
    let at = find_char(tail, '/');
    assert(at == name.len()) by {
        if at < name.len() {
            assert(tail[at] == name[at]);
            assert(name.contains(name[at]));
        }
    }
    assert(tail.take(at) =~= name);
    let path = prefix_of(dir) + name;
    assert(lies_in(path, dir, name)) by {
        assert(prefix_of(dir) + name =~= path);
        if dir is None {
            assert(path =~= name);
        }
    }
    assert(crate::archive::children::implied_dir(es[k].path, dir) == Some(path));
    assert forall|j: int| 0 <= j < es.len() implies (#[trigger] es[j]).path != path by {
        assert(!lies_in(es[j].path, dir, name));
    }
    let e = dir_entry(path, dir);
    assert(is_listed(es, dir, e));
    assert(out.contains(e));
}

/// A directory has no other children than what lies directly in it, and those are in order:
/// directories first, then by path. No two have the same path.
pub proof fn children_lie_in_their_directory(
    es: Seq<EntryView>,
    dir: Option<Seq<char>>,
    out: Seq<EntryView>,
    i: int,
)
    requires
        is_child_listing(es, dir, out),
        0 <= i < out.len(),
    ensures
        exists|name: Seq<char>| #[trigger] lies_in(out[i].path, dir, name) && !name.contains('/'),
        es.contains(out[i]) || (out[i].kind == NodeKind::Dir && exists|k: int|
            0 <= k < es.len() && crate::model::is_at_or_below(
                (#[trigger] es[k]).path,
                out[i].path,
            )),
        forall|j: int|
            i < j < out.len() ==> out[i].path != (#[trigger] out[j]).path && (out[j].kind
                == NodeKind::Dir ==> out[i].kind == NodeKind::Dir),
{
    let e = out[i];
    assert(out.contains(e));
    assert(is_listed(es, dir, e));
    let p = prefix_of(dir);
    if exists|k: int|
        crate::archive::children::explicit_child(es, dir, es.len() as int, k) && e
            == #[trigger] es[k] {
        let k = choose|k: int|
            crate::archive::children::explicit_child(es, dir, es.len() as int, k) && e
                == #[trigger] es[k];
        assert(es[k] == e);
        let name = crate::archive::children::rest_under(e.path, dir);
        assert(p + name =~= e.path) by {
            assert(e.path.subrange(0, p.len() as int) == p);
        }
        assert(lies_in(e.path, dir, name)) by {
            if dir is None {
                assert(e.path =~= name);
            }
        }
    } else {
        let k = choose|k: int|
            0 <= k < es.len() && crate::archive::children::implied_dir(
                (#[trigger] es[k]).path,
                dir,
            ) == Some(e.path);
        let rest = crate::archive::children::rest_under(es[k].path, dir);
        find_char_least(rest, '/');
        let at = find_char(rest, '/');
        let name = rest.take(at);
        assert(e.path == p + name);
        assert(lies_in(e.path, dir, name)) by {
            if dir is None {
                assert(e.path =~= name);
            }
        }
        assert(!name.contains('/')) by {
            if name.contains('/') {
                let j = choose|j: int| 0 <= j < name.len() && name[j] == '/';
                assert(rest[j] == '/');
            }
        }
        let path = es[k].path;
        assert(path.subrange(0, p.len() as int) == p);
        assert(e.path.push('/').is_prefix_of(path)) by {
            let q = e.path.push('/');
            assert(path.skip(p.len() as int)[at] == '/');
            assert forall|j: int| 0 <= j < q.len() implies q[j] == path[j] by {
                if j < p.len() {
                    assert(path.subrange(0, p.len() as int)[j] == p[j]);
                } else if j < e.path.len() {
                    assert(rest[j - p.len()] == path[j]);
                }
            }
            assert(path.subrange(0, q.len() as int) =~= q);
        }
        assert(crate::model::is_at_or_below(es[k].path, e.path));
    }
    assert forall|j: int| i < j < out.len() implies out[i].path != (#[trigger] out[j]).path && (
    out[j].kind == NodeKind::Dir ==> out[i].kind == NodeKind::Dir) by {
        assert(crate::archive::children::listed_before(out[i], out[j]));
        crate::text::text_before_irreflexive(out[i].path);
        if out[i].path == out[j].path {
            assert(out.contains(out[j]));
            assert(is_listed(es, dir, out[j]));
            same_path_same_child(es, dir, out[i], out[j]);
        }
    }
}

/// Two children with the same path are the same.
proof fn same_path_same_child(
    es: Seq<EntryView>,
    dir: Option<Seq<char>>,
    a: EntryView,
    b: EntryView,
)
    requires
        is_listed(es, dir, a),
        is_listed(es, dir, b),
        a.path == b.path,
    ensures
        a == b,
{
    let n = es.len() as int;
    if exists|k: int|
        crate::archive::children::explicit_child(es, dir, n, k) && a == #[trigger] es[k] {
        let k = choose|k: int|
            crate::archive::children::explicit_child(es, dir, n, k) && a == #[trigger] es[k];
        if exists|l: int|
            crate::archive::children::explicit_child(es, dir, n, l) && b == #[trigger] es[l] {
            let l = choose|l: int|
                crate::archive::children::explicit_child(es, dir, n, l) && b == #[trigger] es[l];
            if k < l {
                assert(es[l].path != es[k].path);
            } else if l < k {
                assert(es[k].path != es[l].path);
            }
        } else {
            assert(es[k].path != b.path);
        }
    } else if exists|l: int|
        crate::archive::children::explicit_child(es, dir, n, l) && b == #[trigger] es[l] {
        let l = choose|l: int|
            crate::archive::children::explicit_child(es, dir, n, l) && b == #[trigger] es[l];
        assert(es[l].path != a.path);
    }
}

/// Entering a directory puts it in focus; entering an archive, or a file, opens it with the
/// navigator's own options and shows its root; a symbolic link cannot be entered. What is below
/// stays.
pub proof fn entering_leads_into_the_entry<A: Archive>(v: NavigatorView<A::Model>, e: EntryView)
    requires
        v.frames.len() >= 1,
    ensures
        ({
            let w = entered::<A>(v, e);
            let top = v.frames.last();
            let inner = A::nested(top.model, e, v.opts);
            &&& (e.kind == NodeKind::Dir ==> w is Ok && w->Ok_0.frames.len() == v.frames.len()
                && w->Ok_0.frames.last().focus == Some(e.path) && w->Ok_0.frames.last().model
                == top.model && w->Ok_0.frames.drop_last() == v.frames.drop_last())
            &&& (e.kind == NodeKind::Symlink ==> w is Err)
            &&& (e.kind == NodeKind::Archive || e.kind == NodeKind::File ==> {
                &&& (w is Ok <==> inner is Ok)
                &&& (inner is Err ==> w->Err_0 == inner->Err_0)
                &&& (inner is Ok ==> w->Ok_0.frames.len() == v.frames.len() + 1
                    && w->Ok_0.frames.drop_last() == v.frames && w->Ok_0.frames.last().model
                    == inner->Ok_0 && w->Ok_0.frames.last().focus is None)
            })
            &&& (w is Ok ==> w->Ok_0.opts == v.opts)
        }),
{
    let w = entered::<A>(v, e);
    if w is Ok {
        if e.kind == NodeKind::Dir {
            assert(w->Ok_0.frames.drop_last() =~= v.frames.drop_last());
        } else {
            assert(w->Ok_0.frames.drop_last() =~= v.frames);
        }
    }
}

/// Going back leads from a directory to the root of its archive, from the root of a nested archive
/// to the one around it, and from the root of the first nowhere.
pub proof fn going_back_leads_out<M>(v: NavigatorView<M>)
    requires
        v.frames.len() >= 1,
    ensures
        ({
            let w = left(v);
            let top = v.frames.last();
            &&& (top.focus is Some ==> w is Ok && w->Ok_0.frames.len() == v.frames.len()
                && w->Ok_0.frames.last() == (FrameView { model: top.model, focus: None })
                && w->Ok_0.frames.drop_last() == v.frames.drop_last())
            &&& (top.focus is None && v.frames.len() > 1 ==> w is Ok && w->Ok_0.frames
                == v.frames.drop_last())
            &&& (top.focus is None && v.frames.len() == 1 ==> w is Err)
            &&& (w is Ok ==> w->Ok_0.opts == v.opts)
        }),
{
    if v.frames.last().focus is Some {
        assert(left(v)->Ok_0.frames.drop_last() =~= v.frames.drop_last());
    }
}

/// Every row of the tree says of its entry whether it is a directory.
pub proof fn rows_tell_directories(
    es: Seq<EntryView>,
    expanded: Set<Seq<char>>,
    depth: nat,
    focus: Option<Seq<char>>,
)
    ensures
        forall|i: int|
            0 <= i < rows_under(es, expanded, depth, focus).len() ==> ((
            #[trigger] rows_under(es, expanded, depth, focus)[i]).is_dir <==> rows_under(
                es,
                expanded,
                depth,
                focus,
            )[i].entry.kind == NodeKind::Dir),
    decreases
            crate::viewmodel::longest(es) - crate::viewmodel::focus_len(focus),
            1nat,
            0nat,
{
    some_rows_tell_directories(
        es,
        expanded,
        depth,
        focus,
        crate::viewmodel::children(es, focus),
    );
}

/// The rows of some children tell directories.
proof fn some_rows_tell_directories(
    es: Seq<EntryView>,
    expanded: Set<Seq<char>>,
    depth: nat,
    focus: Option<Seq<char>>,
    cs: Seq<EntryView>,
)
    ensures
        forall|i: int|
            0 <= i < rows_of(es, expanded, depth, focus, cs).len() ==> ((
            #[trigger] rows_of(es, expanded, depth, focus, cs)[i]).is_dir <==> rows_of(
                es,
                expanded,
                depth,
                focus,
                cs,
            )[i].entry.kind == NodeKind::Dir),
    decreases
            crate::viewmodel::longest(es) - crate::viewmodel::focus_len(focus),
            0nat,
            cs.len(),
{
    if cs.len() > 0 {
        let c = cs[0];
        let rest = rows_of(es, expanded, depth, focus, cs.drop_first());
        let rows = rows_of(es, expanded, depth, focus, cs);
        some_rows_tell_directories(es, expanded, depth, focus, cs.drop_first());
        let opened = crate::viewmodel::is_open(c, expanded) && crate::viewmodel::focus_len(focus)
            < c.path.len() <= crate::viewmodel::longest(es);
        let below = if opened {
            rows_under(es, expanded, depth + 1, Some(c.path))
        } else {
            Seq::empty()
        };
        if opened {
            rows_tell_directories(es, expanded, depth + 1, Some(c.path));
        }
        assert(rows =~= seq![row_of(c, depth)] + below + rest);
        assert forall|i: int| 0 <= i < rows.len() implies ((#[trigger] rows[i]).is_dir
            <==> rows[i].entry.kind == NodeKind::Dir) by {
            if 0 < i <= below.len() {
                assert(rows[i] == below[i - 1]);
            } else if i > below.len() {
                assert(rows[i] == rest[i - 1 - below.len()]);
            }
        }
    }
}

/// Where nothing is expanded, the tree shows the children of the root, in listing order and at the
/// top.
pub proof fn collapsed_trees_show_the_root(es: Seq<EntryView>, i: int)
    ensures
        ({
            let cs = crate::viewmodel::children(es, None);
            let rows = rows_under(es, Set::empty(), 0, None);
            &&& is_child_listing(es, None, cs)
            &&& rows.len() == cs.len()
            &&& (0 <= i < rows.len() ==> rows[i].entry == cs[i] && rows[i].depth == 0)
        }),
{
    child_listing_exists(es, None);
    collapsed_rows(es, crate::viewmodel::children(es, None));
}

/// Rows where nothing is expanded.
proof fn collapsed_rows(es: Seq<EntryView>, cs: Seq<EntryView>)
    ensures
        rows_of(es, Set::empty(), 0, None, cs).len() == cs.len(),
        forall|i: int|
            0 <= i < cs.len() ==> (#[trigger] rows_of(es, Set::empty(), 0, None, cs)[i]).entry
                == cs[i] && rows_of(es, Set::empty(), 0, None, cs)[i].depth == 0,
    decreases cs.len(),
{
    if cs.len() > 0 {
        collapsed_rows(es, cs.drop_first());
        let rows = rows_of(es, Set::empty(), 0, None, cs);
        let rest = rows_of(es, Set::empty(), 0, None, cs.drop_first());
        assert(rows =~= seq![row_of(cs[0], 0)] + rest);
        assert forall|i: int| 0 <= i < cs.len() implies (#[trigger] rows[i]).entry == cs[i]
            && rows[i].depth == 0 by {
            if i > 0 {
                assert(rows[i] == rest[i - 1]);
            }
        }
    }
}

/// Among the children of a directory, those of the same sort stand in the order of their paths.
pub proof fn children_stand_in_order(
    es: Seq<EntryView>,
    dir: Option<Seq<char>>,
    out: Seq<EntryView>,
    i: int,
    j: int,
)
    requires
        is_child_listing(es, dir, out),
        0 <= i < j < out.len(),
    ensures
        (out[i].kind == NodeKind::Dir) == (out[j].kind == NodeKind::Dir) ==> crate::text::text_before(
            out[i].path,
            out[j].path,
        ),
{
    assert(crate::archive::children::listed_before(out[i], out[j]));
}

} // verus!
