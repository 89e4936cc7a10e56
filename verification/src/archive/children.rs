//! The tree that a flat listing stands for: the direct children of a directory.

use vstd::prelude::*;
use vstd::slice::slice_subrange;
use vstd::string::*;
use vstd::utf8::*;

use crate::model::{
    is_normal, normal_path_cut, normal_path_idempotent, views, EntryMeta, EntryPath, EntryView,
    NodeKind,
};
use crate::text::{
    chars_of, find_char, find_char_least, position_of, text_before, text_before_irreflexive,
    text_before_total, text_before_transitive, text_is_before, text_of,
};

verus! {

/// A directory, or the root where there is none, as text.
pub open spec fn focus_text(focus: Option<&EntryPath>) -> Option<Seq<char>> {
    match focus {
        Some(p) => Some(p@),
        None => None,
    }
}

/// What the paths inside a directory begin with.
pub open spec fn prefix_of(focus: Option<Seq<char>>) -> Seq<char> {
    match focus {
        Some(f) => f.push('/'),
        None => Seq::empty(),
    }
}

/// Whether the path lies inside the directory, at any depth.
pub open spec fn is_under(path: Seq<char>, focus: Option<Seq<char>>) -> bool {
    prefix_of(focus).is_prefix_of(path)
}

/// The path as seen from the directory.
pub open spec fn rest_under(path: Seq<char>, focus: Option<Seq<char>>) -> Seq<char> {
    path.skip(prefix_of(focus).len() as int)
}

/// Whether the path is a direct child of the directory.
pub open spec fn is_child(path: Seq<char>, focus: Option<Seq<char>>) -> bool {
    &&& is_under(path, focus)
    &&& rest_under(path, focus).len() > 0
    &&& !rest_under(path, focus).contains('/')
}

/// The direct child of the directory through which a deeper path leads.
pub open spec fn implied_dir(path: Seq<char>, focus: Option<Seq<char>>) -> Option<Seq<char>> {
    let rest = rest_under(path, focus);
    if is_under(path, focus) && rest.contains('/') {
        Some(prefix_of(focus) + rest.take(find_char(rest, '/')))
    } else {
        None
    }
}

/// The entry that stands for a directory which the archive does not list.
pub open spec fn dir_entry(dir: Seq<char>, focus: Option<Seq<char>>) -> EntryView {
    EntryView {
        path: dir,
        raw_name: encode_utf8(rest_under(dir, focus)),
        kind: NodeKind::Dir,
        uncompressed_size: None,
        compressed_size: None,
        mtime: None,
        mode: None,
        crc: None,
        encrypted: false,
        comment: None,
    }
}

/// Whether entry `k` is a direct child, and the last of the first `n` entries with its path.
pub open spec fn explicit_child(
    es: Seq<EntryView>,
    focus: Option<Seq<char>>,
    n: int,
    k: int,
) -> bool {
    &&& 0 <= k < n
    &&& is_child(es[k].path, focus)
    &&& forall|j: int| k < j < n ==> (#[trigger] es[j]).path != es[k].path
}

/// Whether one of the first `n` entries lies inside `dir`, a direct child that no entry names.
pub open spec fn implied_child(
    es: Seq<EntryView>,
    focus: Option<Seq<char>>,
    n: int,
    dir: Seq<char>,
) -> bool {
    &&& exists|k: int| 0 <= k < n && implied_dir((#[trigger] es[k]).path, focus) == Some(dir)
    &&& forall|k: int| 0 <= k < es.len() ==> (#[trigger] es[k]).path != dir
}

/// Whether `e` is one of the directory's children: an entry of the listing (the last where several
/// share a path), or a directory that deeper paths lead through and that is not listed itself.
pub open spec fn is_listed(es: Seq<EntryView>, focus: Option<Seq<char>>, e: EntryView) -> bool {
    ||| exists|k: int| explicit_child(es, focus, es.len() as int, k) && e == #[trigger] es[k]
    ||| e == dir_entry(e.path, focus) && implied_child(es, focus, es.len() as int, e.path)
}

/// The order of a listing: directories first, then by path.
pub open spec fn listed_before(a: EntryView, b: EntryView) -> bool {
    if (a.kind == NodeKind::Dir) == (b.kind == NodeKind::Dir) {
        text_before(a.path, b.path)
    } else {
        a.kind == NodeKind::Dir
    }
}

/// Whether `out` holds exactly the directory's children, each once and in order.
pub open spec fn is_child_listing(
    es: Seq<EntryView>,
    focus: Option<Seq<char>>,
    out: Seq<EntryView>,
) -> bool {
    &&& forall|e: EntryView| #[trigger] out.contains(e) <==> is_listed(es, focus, e)
    &&& forall|i: int, j: int| 0 <= i < j < out.len() ==> listed_before(out[i], out[j])
}

/// The order of a listing is a strict order.
proof fn listed_before_strict(a: EntryView, b: EntryView, c: EntryView)
    ensures
        !listed_before(a, a),
        listed_before(a, b) && listed_before(b, c) ==> listed_before(a, c),
{
    text_before_irreflexive(a.path);
    if text_before(a.path, b.path) && text_before(b.path, c.path) {
        text_before_transitive(a.path, b.path, c.path);
    }
}

/// A listing has exactly one listing of a directory's children: what it holds fixes its order.
pub proof fn child_listing_unique(
    es: Seq<EntryView>,
    focus: Option<Seq<char>>,
    a: Seq<EntryView>,
    b: Seq<EntryView>,
)
    requires
        is_child_listing(es, focus, a),
        is_child_listing(es, focus, b),
    ensures
        a == b,
{
    assert forall|e: EntryView| #[trigger] a.contains(e) <==> b.contains(e) by {
        assert(is_listed(es, focus, e) == a.contains(e));
    }
    ordered_same_members(a, b);
}

/// Two ordered listings with the same members are the same.
proof fn ordered_same_members(a: Seq<EntryView>, b: Seq<EntryView>)
    requires
        forall|e: EntryView| #[trigger] a.contains(e) <==> b.contains(e),
        forall|i: int, j: int| 0 <= i < j < a.len() ==> listed_before(a[i], a[j]),
        forall|i: int, j: int| 0 <= i < j < b.len() ==> listed_before(b[i], b[j]),
    ensures
        a == b,
    decreases a.len(),
{
    if a.len() == 0 {
        if b.len() > 0 {
            assert(b.contains(b[0]));
            assert(a.contains(b[0]));
        }
        assert(a =~= b);
    } else {
        assert(a.contains(a[0]));
        assert(b.contains(a[0]));
        let k = choose|k: int| 0 <= k < b.len() && b[k] == a[0];
        assert(b.contains(b[0]));
        assert(a.contains(b[0]));
        let l = choose|l: int| 0 <= l < a.len() && a[l] == b[0];
        if k > 0 {
            listed_before_strict(b[0], a[0], b[0]);
            assert(listed_before(b[0], b[k]));
            if l > 0 {
                assert(listed_before(a[0], a[l]));
            }
        }
        assert(a[0] == b[0]);
        let (x, y) = (a.drop_first(), b.drop_first());
        assert forall|e: EntryView| #[trigger] x.contains(e) <==> y.contains(e) by {
            if x.contains(e) {
                let i = choose|i: int| 0 <= i < x.len() && x[i] == e;
                assert(a[i + 1] == e);
                listed_before_strict(a[0], a[0], a[0]);
                assert(listed_before(a[0], a[i + 1]));
                assert(a.contains(e));
                assert(b.contains(e));
                let j = choose|j: int| 0 <= j < b.len() && b[j] == e;
                assert(y[j - 1] == e);
            }
            if y.contains(e) {
                let i = choose|i: int| 0 <= i < y.len() && y[i] == e;
                assert(b[i + 1] == e);
                listed_before_strict(b[0], b[0], b[0]);
                assert(listed_before(b[0], b[i + 1]));
                assert(b.contains(e));
                assert(a.contains(e));
                let j = choose|j: int| 0 <= j < a.len() && a[j] == e;
                assert(x[j - 1] == e);
            }
        }
        ordered_same_members(x, y);
        assert(a =~= seq![a[0]] + x);
        assert(b =~= seq![b[0]] + y);
    }
}

/// Whether a listing is in order.
spec fn in_order(out: Seq<EntryView>) -> bool {
    forall|i: int, j: int| 0 <= i < j < out.len() ==> listed_before(out[i], out[j])
}

/// A listing in order with one more entry at its place.
spec fn placed(out: Seq<EntryView>, e: EntryView) -> Seq<EntryView>
    decreases out.len(),
{
    if out.len() == 0 || listed_before(out.last(), e) {
        out.push(e)
    } else {
        placed(out.drop_last(), e).push(out.last())
    }
}

/// Putting an entry at its place keeps the order, and adds nothing else.
proof fn placed_keeps_order(out: Seq<EntryView>, e: EntryView)
    requires
        in_order(out),
        forall|i: int|
            0 <= i < out.len() ==> listed_before(#[trigger] out[i], e) || listed_before(e, out[i]),
    ensures
        in_order(placed(out, e)),
        forall|x: EntryView| #[trigger] placed(out, e).contains(x) <==> out.contains(x) || x == e,
    decreases out.len(),
{
    let new = placed(out, e);
    if out.len() == 0 || listed_before(out.last(), e) {
        assert forall|i: int, j: int| 0 <= i < j < new.len() implies listed_before(new[i], new[j]) by {
            if j == out.len() && i < out.len() - 1 {
                assert(listed_before(out[i], out[out.len() - 1]));
                listed_before_strict(out[i], out.last(), e);
            }
        }
        assert forall|x: EntryView| #[trigger] new.contains(x) <==> out.contains(x) || x == e by {
            if out.contains(x) {
                let i = choose|i: int| 0 <= i < out.len() && out[i] == x;
                assert(new[i] == x);
            }
            assert(new[out.len() as int] == e);
        }
    } else {
        let front = out.drop_last();
        let inner = placed(front, e);
        assert forall|i: int| 0 <= i < front.len() implies listed_before(#[trigger] front[i], e)
            || listed_before(e, front[i]) by {
            assert(front[i] == out[i]);
        }
        placed_keeps_order(front, e);
        assert(out[out.len() - 1] == out.last());
        assert forall|i: int, j: int| 0 <= i < j < new.len() implies listed_before(new[i], new[j]) by {
            if j == inner.len() {
                assert(inner.contains(inner[i]));
                if inner[i] != e {
                    assert(front.contains(inner[i]));
                    let k = choose|k: int| 0 <= k < front.len() && front[k] == inner[i];
                    assert(listed_before(out[k], out[out.len() - 1]));
                }
            } else {
                assert(new[i] == inner[i] && new[j] == inner[j]);
            }
        }
        assert forall|x: EntryView| #[trigger] new.contains(x) <==> out.contains(x) || x == e by {
            if new.contains(x) {
                let i = choose|i: int| 0 <= i < new.len() && new[i] == x;
                if i < inner.len() {
                    assert(inner.contains(inner[i]));
                    if x != e {
                        let k = choose|k: int| 0 <= k < front.len() && front[k] == x;
                        assert(out[k] == x);
                    }
                } else {
                    assert(out[out.len() - 1] == x);
                }
            }
            if out.contains(x) {
                let i = choose|i: int| 0 <= i < out.len() && out[i] == x;
                if i < front.len() {
                    assert(front[i] == x);
                    assert(inner.contains(x));
                    let k = choose|k: int| 0 <= k < inner.len() && inner[k] == x;
                    assert(new[k] == x);
                } else {
                    assert(new[inner.len() as int] == x);
                }
            }
            if x == e {
                assert(inner.contains(x));
                let k = choose|k: int| 0 <= k < inner.len() && inner[k] == x;
                assert(new[k] == x);
            }
        }
    }
}

/// Two children are the same, or one comes before the other.
proof fn children_comparable(
    es: Seq<EntryView>,
    focus: Option<Seq<char>>,
    a: EntryView,
    b: EntryView,
)
    requires
        is_listed(es, focus, a),
        is_listed(es, focus, b),
    ensures
        a == b || listed_before(a, b) || listed_before(b, a),
{
    text_before_total(a.path, b.path);
    if a.path == b.path && a != b {
        let n = es.len() as int;
        if exists|k: int| explicit_child(es, focus, n, k) && a == #[trigger] es[k] {
            let k = choose|k: int| explicit_child(es, focus, n, k) && a == #[trigger] es[k];
            if exists|l: int| explicit_child(es, focus, n, l) && b == #[trigger] es[l] {
                let l = choose|l: int| explicit_child(es, focus, n, l) && b == #[trigger] es[l];
                if k < l {
                    assert(es[l].path != es[k].path);
                } else if l < k {
                    assert(es[k].path != es[l].path);
                }
            } else {
                assert(es[k].path != b.path);
            }
        } else if exists|l: int| explicit_child(es, focus, n, l) && b == #[trigger] es[l] {
            let l = choose|l: int| explicit_child(es, focus, n, l) && b == #[trigger] es[l];
            assert(es[l].path != a.path);
        }
    }
}

/// Whether `e` is one of the directory's children that the first `n` entries lead to.
spec fn listed_by(es: Seq<EntryView>, focus: Option<Seq<char>>, n: int, e: EntryView) -> bool {
    ||| exists|k: int|
        0 <= k < n && explicit_child(es, focus, es.len() as int, k) && e == #[trigger] es[k]
    ||| e == dir_entry(e.path, focus) && implied_child(es, focus, n, e.path)
}

/// The children that the first `n` entries lead to have a listing.
proof fn children_so_far(es: Seq<EntryView>, focus: Option<Seq<char>>, n: int) -> (out: Seq<
    EntryView,
>)
    requires
        0 <= n <= es.len(),
    ensures
        in_order(out),
        forall|e: EntryView| #[trigger] out.contains(e) <==> listed_by(es, focus, n, e),
    decreases n,
{
    if n == 0 {
        let out = Seq::<EntryView>::empty();
        assert forall|e: EntryView| #[trigger] out.contains(e) <==> listed_by(es, focus, n, e) by {}
        out
    } else {
        let front = children_so_far(es, focus, n - 1);
        let k = n - 1;
        let here = es[k];
        let lead = implied_dir(here.path, focus);
        let named = explicit_child(es, focus, es.len() as int, k);
        let implied = lead is Some && implied_child(es, focus, n, lead->0);
        let first = if named {
            added(es, focus, n, front, here)
        } else {
            front
        };
        let out = if implied {
            added(es, focus, n, first, dir_entry(lead->0, focus))
        } else {
            first
        };
        assert forall|e: EntryView| #[trigger] out.contains(e) <==> listed_by(es, focus, n, e) by {
            if listed_by(es, focus, n, e) && !listed_by(es, focus, k, e) {
                if exists|j: int|
                    0 <= j < n && explicit_child(es, focus, es.len() as int, j) && e
                        == #[trigger] es[j] {
                    let j = choose|j: int|
                        0 <= j < n && explicit_child(es, focus, es.len() as int, j) && e
                            == #[trigger] es[j];
                    assert(j == k);
                } else {
                    let j = choose|j: int|
                        0 <= j < n && implied_dir((#[trigger] es[j]).path, focus) == Some(e.path);
                    assert(j == k);
                }
            }
        }
        out
    }
}

/// A listing in order of some children with one more child, if it is not there already.
proof fn added(
    es: Seq<EntryView>,
    focus: Option<Seq<char>>,
    n: int,
    out: Seq<EntryView>,
    e: EntryView,
) -> (r: Seq<EntryView>)
    requires
        0 <= n <= es.len(),
        in_order(out),
        listed_by(es, focus, n, e),
        forall|x: EntryView| #[trigger] out.contains(x) ==> listed_by(es, focus, n, x),
    ensures
        in_order(r),
        forall|x: EntryView| #[trigger] r.contains(x) <==> out.contains(x) || x == e,
{
    if out.contains(e) {
        out
    } else {
        listed_by_all(es, focus, n, e);
        assert forall|i: int| 0 <= i < out.len() implies listed_before(#[trigger] out[i], e)
            || listed_before(e, out[i]) by {
            assert(out.contains(out[i]));
            listed_by_all(es, focus, n, out[i]);
            children_comparable(es, focus, out[i], e);
        }
        placed_keeps_order(out, e);
        placed(out, e)
    }
}

/// What some entries lead to is one of the directory's children.
proof fn listed_by_all(es: Seq<EntryView>, focus: Option<Seq<char>>, n: int, e: EntryView)
    requires
        0 <= n <= es.len(),
        listed_by(es, focus, n, e),
    ensures
        is_listed(es, focus, e),
{
    if exists|k: int|
        0 <= k < n && explicit_child(es, focus, es.len() as int, k) && e == #[trigger] es[k] {
        let k = choose|k: int|
            0 <= k < n && explicit_child(es, focus, es.len() as int, k) && e == #[trigger] es[k];
        assert(explicit_child(es, focus, es.len() as int, k) && e == es[k]);
    } else {
        let k = choose|k: int|
            0 <= k < n && implied_dir((#[trigger] es[k]).path, focus) == Some(e.path);
        assert(implied_dir(es[k].path, focus) == Some(e.path));
    }
}

/// Every directory of every listing has a listing of its children.
pub proof fn child_listing_exists(es: Seq<EntryView>, focus: Option<Seq<char>>)
    ensures
        exists|out: Seq<EntryView>| is_child_listing(es, focus, out),
{
    let n = es.len() as int;
    let out = children_so_far(es, focus, n);
    assert forall|e: EntryView| #[trigger] out.contains(e) <==> is_listed(es, focus, e) by {
        if listed_by(es, focus, n, e) {
            listed_by_all(es, focus, n, e);
        }
    }
    assert(is_child_listing(es, focus, out));
}

/// Whether the table is sorted by path, without repetitions.
spec fn sorted_by_path(t: Seq<EntryMeta>) -> bool {
    forall|i: int, j: int|
        0 <= i < j < t.len() ==> text_before(#[trigger] t[i]@.path, #[trigger] t[j]@.path)
}

/// Whether an entry with the path is in the table.
spec fn has_path(t: Seq<EntryMeta>, path: Seq<char>) -> bool {
    exists|i: int| 0 <= i < t.len() && (#[trigger] t[i])@.path == path
}

/// The first position in a sorted table whose path is not before `path`.
fn lower_bound(t: &Vec<EntryMeta>, path: &EntryPath) -> (r: usize)
    requires
        sorted_by_path(t@),
    ensures
        r <= t@.len(),
        forall|i: int| 0 <= i < r ==> text_before((#[trigger] t@[i])@.path, path@),
        forall|i: int| r <= i < t@.len() ==> !text_before((#[trigger] t@[i])@.path, path@),
{
    let mut lo: usize = 0;
    let mut hi: usize = t.len();
    while lo < hi
        invariant
            lo <= hi <= t@.len(),
            sorted_by_path(t@),
            forall|i: int| 0 <= i < lo ==> text_before((#[trigger] t@[i])@.path, path@),
            forall|i: int| hi <= i < t@.len() ==> !text_before((#[trigger] t@[i])@.path, path@),
        decreases hi - lo,
    {
        let mid: usize = lo + (hi - lo) / 2;
        if text_is_before(t[mid].path.as_str(), path.as_str()) {
            assert forall|i: int| 0 <= i < mid + 1 implies text_before(
                (#[trigger] t@[i])@.path,
                path@,
            ) by {
                if i < mid {
                    text_before_transitive(t@[i]@.path, t@[mid as int]@.path, path@);
                }
            }
            lo = mid + 1;
        } else {
            assert forall|i: int| mid <= i < t@.len() implies !text_before(
                (#[trigger] t@[i])@.path,
                path@,
            ) by {
                if i > mid && text_before(t@[i]@.path, path@) {
                    text_before_transitive(t@[mid as int]@.path, t@[i]@.path, path@);
                }
            }
            hi = mid;
        }
    }
    lo
}

/// Put an entry into a sorted table; where its path is taken, it replaces what is there if
/// `replace` is set and is dropped otherwise.
fn put(t: &mut Vec<EntryMeta>, e: EntryMeta, replace: bool)
    requires
        sorted_by_path(old(t)@),
    ensures
        sorted_by_path(final(t)@),
        !replace && has_path(old(t)@, e@.path) ==> final(t)@ == old(t)@,
        replace || !has_path(old(t)@, e@.path) ==> forall|x: EntryView| #[trigger]
            views(final(t)@).contains(x) <==> x == e@ || (views(old(t)@).contains(x) && x.path
                != e@.path),
{
    let at = lower_bound(t, &e.path);
    let ghost before = t@;
    let ghost (b, key) = (views(t@), e@.path);
    proof {
        text_before_irreflexive(key);
        if at < before.len() {
            text_before_total(before[at as int]@.path, key);
        }
    }
    if at < t.len() && t[at].path.same(&e.path) {
        assert(before[at as int]@.path == key);
        if replace {
            t[at] = e;
            assert(views(t@) =~= b.update(at as int, e@));
            assert forall|x: EntryView| #[trigger] views(t@).contains(x) <==> x == e@ || (
            b.contains(x) && x.path != key) by {
                if views(t@).contains(x) {
                    let i = choose|i: int| 0 <= i < t@.len() && views(t@)[i] == x;
                    if i != at {
                        assert(b[i] == x);
                        assert(before[i]@ == x);
                    }
                }
                if x == e@ {
                    assert(views(t@)[at as int] == x);
                }
                if b.contains(x) && x.path != key {
                    let i = choose|i: int| 0 <= i < b.len() && b[i] == x;
                    assert(views(t@)[i] == x);
                }
            }
        }
    } else {
        assert(!has_path(before, key)) by {
            if has_path(before, key) {
                let i = choose|i: int| 0 <= i < before.len() && (#[trigger] before[i])@.path == key;
                if i > at {
                    assert(text_before(before[at as int]@.path, before[i]@.path));
                }
            }
        }
        t.insert(at, e);
        assert(views(t@) =~= b.insert(at as int, e@));
        assert(sorted_by_path(t@)) by {
            assert forall|i: int, j: int| 0 <= i < j < t@.len() implies text_before(
                #[trigger] t@[i]@.path,
                #[trigger] t@[j]@.path,
            ) by {
                if i == at {
                    assert(t@[j] == before[j - 1]);
                    if j - 1 > at {
                        text_before_transitive(key, before[at as int]@.path, before[j - 1]@.path);
                    }
                } else if j == at {
                    assert(t@[i] == before[i]);
                } else {
                    let x = if i < at {
                        i
                    } else {
                        i - 1
                    };
                    let y = if j < at {
                        j
                    } else {
                        j - 1
                    };
                    assert(t@[i] == before[x] && t@[j] == before[y]);
                }
            }
        }
        assert forall|x: EntryView| #[trigger] views(t@).contains(x) <==> x == e@ || (b.contains(x)
            && x.path != key) by {
            if views(t@).contains(x) {
                let i = choose|i: int| 0 <= i < t@.len() && views(t@)[i] == x;
                if i < at {
                    assert(b[i] == x);
                    assert(before[i]@ == x);
                } else if i > at {
                    assert(b[i - 1] == x);
                    assert(before[i - 1]@ == x);
                }
            }
            if x == e@ {
                assert(views(t@)[at as int] == x);
            }
            if b.contains(x) {
                let i = choose|i: int| 0 <= i < b.len() && b[i] == x;
                let j = if i < at {
                    i
                } else {
                    i + 1
                };
                assert(views(t@)[j] == x);
            }
        }
    }
}

/// Whether `chars` begins with `prefix`.
fn chars_start_with(chars: &[char], prefix: &[char]) -> (r: bool)
    ensures
        r == prefix@.is_prefix_of(chars@),
{
    if chars.len() < prefix.len() {
        return false;
    }
    let mut i: usize = 0;
    while i < prefix.len()
        invariant
            prefix@.len() <= chars@.len(),
            i <= prefix@.len(),
            forall|j: int| 0 <= j < i ==> prefix@[j] == chars@[j],
        decreases prefix@.len() - i,
    {
        if prefix[i] != chars[i] {
            assert(prefix@[i as int] != chars@.subrange(0, prefix@.len() as int)[i as int]);
            return false;
        }
        i += 1;
    }
    assert(prefix@ =~= chars@.subrange(0, prefix@.len() as int));
    true
}

/// A directory through which a normal path leads is a normal path, and a direct child.
proof fn implied_dir_normal(path: Seq<char>, focus: Option<Seq<char>>)
    requires
        is_normal(path),
        implied_dir(path, focus) is Some,
    ensures
        is_normal(implied_dir(path, focus)->0),
        is_child(implied_dir(path, focus)->0, focus),
        rest_under(implied_dir(path, focus)->0, focus) == rest_under(path, focus).take(
            find_char(rest_under(path, focus), '/'),
        ),
{
    let rest = rest_under(path, focus);
    let at = find_char(rest, '/');
    let prefix = prefix_of(focus);
    let dir = prefix + rest.take(at);
    find_char_least(rest, '/');
    let more = rest.skip(at + 1);
    assert(prefix =~= path.subrange(0, prefix.len() as int));
    assert(path =~= dir + seq!['/'] + more);
    normal_path_cut(dir, more);
    assert(prefix =~= dir.subrange(0, prefix.len() as int));
    assert(rest_under(dir, focus) =~= rest.take(at));
    assert(!rest.take(at).contains('/')) by {
        if rest.take(at).contains('/') {
            let j = choose|j: int| 0 <= j < at && rest.take(at)[j] == '/';
            assert(rest[j] == '/');
        }
    }
    if at == 0 {
        // A name that ends with `/` would have an empty component.
        assert(dir =~= prefix);
        crate::model::normal_path_is_relative(dir);
        match focus {
            Some(f) => {
                assert(dir.last() == '/');
            },
            None => {},
        }
    }
}

/// Among the first `n` entries, one with a given path has a last one with that path.
proof fn last_with_path(es: Seq<EntryView>, path: Seq<char>, n: int) -> (k: int)
    requires
        0 <= n <= es.len(),
        exists|i: int| 0 <= i < n && (#[trigger] es[i]).path == path,
    ensures
        0 <= k < n,
        es[k].path == path,
        forall|j: int| k < j < n ==> (#[trigger] es[j]).path != path,
    decreases n,
{
    if es[n - 1].path == path {
        n - 1
    } else {
        last_with_path(es, path, n - 1)
    }
}

/// The table after the first `n` entries: what [`child_entries`] has gathered of explicit children.
spec fn gathered(es: Seq<EntryView>, focus: Option<Seq<char>>, n: int, e: EntryView) -> bool {
    exists|k: int| explicit_child(es, focus, n, k) && e == #[trigger] es[k]
}

/// One more entry, and what it does to the explicit children.
proof fn gathered_step(es: Seq<EntryView>, focus: Option<Seq<char>>, n: int, e: EntryView)
    requires
        0 <= n < es.len(),
    ensures
        is_child(es[n].path, focus) ==> (gathered(es, focus, n + 1, e) <==> e == es[n] || (gathered(
            es,
            focus,
            n,
            e,
        ) && e.path != es[n].path)),
        !is_child(es[n].path, focus) ==> (gathered(es, focus, n + 1, e) <==> gathered(
            es,
            focus,
            n,
            e,
        )),
{
    if gathered(es, focus, n + 1, e) {
        let k = choose|k: int| explicit_child(es, focus, n + 1, k) && e == #[trigger] es[k];
        if k < n {
            assert(es[n].path != es[k].path);
            assert(explicit_child(es, focus, n, k));
        }
    }
    if gathered(es, focus, n, e) && e.path != es[n].path {
        let k = choose|k: int| explicit_child(es, focus, n, k) && e == #[trigger] es[k];
        assert(explicit_child(es, focus, n + 1, k));
    }
    if is_child(es[n].path, focus) {
        assert(explicit_child(es, focus, n + 1, n));
    }
}

/// One more entry, and what it does to the implied directories.
proof fn implied_step(es: Seq<EntryView>, focus: Option<Seq<char>>, n: int, dir: Seq<char>)
    requires
        0 <= n < es.len(),
    ensures
        implied_child(es, focus, n + 1, dir) <==> implied_child(es, focus, n, dir) || (implied_dir(
            es[n].path,
            focus,
        ) == Some(dir) && forall|k: int| 0 <= k < es.len() ==> (#[trigger] es[k]).path != dir),
{
    if implied_child(es, focus, n + 1, dir) {
        let k = choose|k: int|
            0 <= k < n + 1 && implied_dir((#[trigger] es[k]).path, focus) == Some(dir);
        if k < n {
            assert(implied_child(es, focus, n, dir));
        }
    }
    if implied_child(es, focus, n, dir) {
        let k = choose|k: int|
            0 <= k < n && implied_dir((#[trigger] es[k]).path, focus) == Some(dir);
        assert(0 <= k < n + 1 && implied_dir(es[k].path, focus) == Some(dir));
    }
}

/// Whether the table holds exactly the explicit children and the directories that the first `n`
/// entries imply.
spec fn table_holds(
    t: Seq<EntryMeta>,
    es: Seq<EntryView>,
    focus: Option<Seq<char>>,
    n: int,
) -> bool {
    forall|e: EntryView| #[trigger]
        views(t).contains(e) <==> gathered(es, focus, es.len() as int, e) || (e == dir_entry(
            e.path,
            focus,
        ) && implied_child(es, focus, n, e.path))
}

/// The table with the explicit children of the directory.
fn explicit_table(entries: &[EntryMeta], focus: Ghost<Option<Seq<char>>>, prefix: &Vec<char>) -> (t:
    Vec<EntryMeta>)
    requires
        prefix@ == prefix_of(focus@),
    ensures
        sorted_by_path(t@),
        forall|e: EntryView| #[trigger]
            views(t@).contains(e) <==> gathered(
                views(entries@),
                focus@,
                entries@.len() as int,
                e,
            ),
{
    let ghost es = views(entries@);
    let mut t: Vec<EntryMeta> = Vec::new();
    let mut i: usize = 0;
    while i < entries.len()
        invariant
            i <= entries@.len(),
            es == views(entries@),
            prefix@ == prefix_of(focus@),
            sorted_by_path(t@),
            forall|e: EntryView| #[trigger]
                views(t@).contains(e) <==> gathered(es, focus@, i as int, e),
        decreases entries@.len() - i,
    {
        let entry = &entries[i];
        let p = chars_of(entry.path.as_str());
        let mut child = false;
        if chars_start_with(p.as_slice(), prefix.as_slice()) {
            let rest = slice_subrange(p.as_slice(), prefix.len(), p.len());
            assert(rest@ =~= rest_under(es[i as int].path, focus@));
            proof {
                find_char_least(rest@, '/');
            }
            child = rest.len() > 0 && position_of(rest, '/') == rest.len();
        }
        assert(child == is_child(es[i as int].path, focus@));
        let ghost before = views(t@);
        if child {
            put(&mut t, entry.clone(), true);
        }
        assert forall|e: EntryView| #[trigger] views(t@).contains(e) <==> gathered(
            es,
            focus@,
            i + 1,
            e,
        ) by {
            gathered_step(es, focus@, i as int, e);
            assert(before.contains(e) <==> gathered(es, focus@, i as int, e));
        }
        i += 1;
    }
    t
}

/// The entry for a directory that deeper paths imply.
fn implied_entry(prefix: &Vec<char>, first: &[char], focus: Ghost<Option<Seq<char>>>) -> (r:
    EntryMeta)
    requires
        prefix@ == prefix_of(focus@),
        is_normal(prefix@ + first@),
    ensures
        r@ == dir_entry(prefix@ + first@, focus@),
{
    let mut full: Vec<char> = prefix.clone();
    assert(full@ =~= prefix@);
    let mut i: usize = 0;
    while i < first.len()
        invariant
            i <= first@.len(),
            full@ == prefix@ + first@.take(i as int),
        decreases first@.len() - i,
    {
        full.push(first[i]);
        i += 1;
        assert(prefix@ + first@.take(i as int) =~= (prefix@ + first@.take(i - 1)).push(
            first@[i - 1],
        ));
    }
    assert(first@.take(i as int) =~= first@);
    let text = text_of(full.as_slice());
    proof {
        normal_path_idempotent(full@);
        assert(rest_under(full@, focus@) =~= first@);
    }
    let name = text_of(first);
    match EntryPath::new(text.as_str()) {
        Ok(path) => EntryMeta {
            path,
            raw_name: name.as_str().as_bytes_vec(),
            kind: NodeKind::Dir,
            uncompressed_size: None,
            compressed_size: None,
            mtime: None,
            mode: None,
            crc: None,
            encrypted: false,
            comment: None,
        },
        Err(_) => {
            assert(false);
            vstd::pervasive::unreached()
        },
    }
}

/// Direct children of `focus` (`None` = root) within the flat listing.
///
/// Directories implied by path prefixes (e.g. `a/b.txt` implies dir `a`) are synthesized when the
/// archive does not list them explicitly. Dirs come first, then alphabetical.
pub fn child_entries(entries: &[EntryMeta], focus: Option<&EntryPath>) -> (out: Vec<EntryMeta>)
    ensures
        is_child_listing(views(entries@), focus_text(focus), views(out@)),
{
    let ghost es = views(entries@);
    let ghost at = focus_text(focus);
    let mut prefix: Vec<char> = Vec::new();
    if let Some(f) = focus {
        prefix = chars_of(f.as_str());
        prefix.push('/');
    }
    assert(prefix@ =~= prefix_of(at));
    let mut t = explicit_table(entries, Ghost(at), &prefix);
    let mut i: usize = 0;
    while i < entries.len()
        invariant
            i <= entries@.len(),
            es == views(entries@),
            prefix@ == prefix_of(at),
            sorted_by_path(t@),
            table_holds(t@, es, at, i as int),
        decreases entries@.len() - i,
    {
        let path = entries[i].path.as_str();
        let p = chars_of(path);
        let ghost before = t@;
        let ghost implied = implied_dir(es[i as int].path, at);
        if chars_start_with(p.as_slice(), prefix.as_slice()) {
            let rest = slice_subrange(p.as_slice(), prefix.len(), p.len());
            assert(rest@ =~= rest_under(es[i as int].path, at));
            let cut = position_of(rest, '/');
            proof {
                find_char_least(rest@, '/');
            }
            if cut < rest.len() {
                let first = slice_subrange(rest, 0, cut);
                assert(first@ =~= rest@.take(cut as int));
                proof {
                    implied_dir_normal(es[i as int].path, at);
                }
                let entry = implied_entry(&prefix, first, Ghost(at));
                let ghost dir = entry@.path;
                put(&mut t, entry, false);
                proof {
                    step_table(before, t@, es, at, i as int, dir);
                }
            } else {
                proof {
                    assert(implied is None);
                }
            }
        }
        proof {
            if implied is None {
                assert forall|e: EntryView| #[trigger] views(t@).contains(e) <==> gathered(
                    es,
                    at,
                    es.len() as int,
                    e,
                ) || (e == dir_entry(e.path, at) && implied_child(es, at, i + 1, e.path)) by {
                    implied_step(es, at, i as int, e.path);
                    assert(views(before).contains(e) == views(t@).contains(e));
                }
            }
        }
        i += 1;
    }
    dirs_first(t, Ghost(es), Ghost(at))
}

/// Adding an implied directory keeps the table what it is to be.
proof fn step_table(
    before: Seq<EntryMeta>,
    after: Seq<EntryMeta>,
    es: Seq<EntryView>,
    focus: Option<Seq<char>>,
    n: int,
    dir: Seq<char>,
)
    requires
        0 <= n < es.len(),
        table_holds(before, es, focus, n),
        implied_dir(es[n].path, focus) == Some(dir),
        is_child(dir, focus),
        has_path(before, dir) ==> after == before,
        !has_path(before, dir) ==> forall|x: EntryView| #[trigger]
            views(after).contains(x) <==> x == dir_entry(dir, focus) || (views(before).contains(x)
                && x.path != dir),
    ensures
        table_holds(after, es, focus, n + 1),
{
    let named = exists|k: int| 0 <= k < es.len() && (#[trigger] es[k]).path == dir;
    if has_path(before, dir) {
        let m = choose|m: int| 0 <= m < before.len() && (#[trigger] before[m])@.path == dir;
        assert(views(before)[m] == before[m]@);
        assert(views(before).contains(before[m]@));
    } else {
        if named {
            let k = last_with_path(es, dir, es.len() as int);
            assert(explicit_child(es, focus, es.len() as int, k));
            assert(gathered(es, focus, es.len() as int, es[k]));
            assert(views(before).contains(es[k]));
            let m = choose|m: int| 0 <= m < views(before).len() && views(before)[m] == es[k];
            assert(before[m]@.path == dir);
        }
    }
    assert forall|e: EntryView| #[trigger] views(after).contains(e) <==> gathered(
        es,
        focus,
        es.len() as int,
        e,
    ) || (e == dir_entry(e.path, focus) && implied_child(es, focus, n + 1, e.path)) by {
        implied_step(es, focus, n, e.path);
        if views(before).contains(e) && e.path == dir {
            let m = choose|m: int| 0 <= m < views(before).len() && views(before)[m] == e;
            assert(before[m]@.path == dir);
            assert(has_path(before, dir));
        }
    }
}

/// The directories of a listing, or everything else in it.
spec fn select(vs: Seq<EntryView>, dirs: bool) -> Seq<EntryView>
    decreases vs.len(),
{
    if vs.len() == 0 {
        Seq::empty()
    } else if (vs.last().kind == NodeKind::Dir) == dirs {
        select(vs.drop_last(), dirs).push(vs.last())
    } else {
        select(vs.drop_last(), dirs)
    }
}

/// Selecting keeps what it is asked for, in order.
proof fn select_keeps(vs: Seq<EntryView>, dirs: bool)
    requires
        forall|i: int, j: int| 0 <= i < j < vs.len() ==> text_before(vs[i].path, vs[j].path),
    ensures
        forall|e: EntryView| #[trigger]
            select(vs, dirs).contains(e) <==> vs.contains(e) && (e.kind == NodeKind::Dir) == dirs,
        forall|i: int, j: int|
            0 <= i < j < select(vs, dirs).len() ==> text_before(
                select(vs, dirs)[i].path,
                select(vs, dirs)[j].path,
            ),
    decreases vs.len(),
{
    if vs.len() > 0 {
        let front = vs.drop_last();
        let (some, all) = (select(front, dirs), select(vs, dirs));
        select_keeps(front, dirs);
        assert forall|e: EntryView| #[trigger] all.contains(e) <==> vs.contains(e) && (e.kind
            == NodeKind::Dir) == dirs by {
            assert(some.contains(e) <==> front.contains(e) && (e.kind == NodeKind::Dir) == dirs);
            if vs.contains(e) {
                let i = choose|i: int| 0 <= i < vs.len() && vs[i] == e;
                assert(i < front.len() ==> front[i] == e);
            }
            if front.contains(e) {
                let i = choose|i: int| 0 <= i < front.len() && front[i] == e;
                assert(vs[i] == e);
            }
            if some.contains(e) {
                let i = choose|i: int| 0 <= i < some.len() && some[i] == e;
                assert(all[i] == e);
            }
            if all.contains(e) {
                let i = choose|i: int| 0 <= i < all.len() && all[i] == e;
                assert(i < some.len() ==> some[i] == e);
            }
            assert(vs[vs.len() - 1] == vs.last());
            if (vs.last().kind == NodeKind::Dir) == dirs {
                assert(all[all.len() - 1] == vs.last());
            }
        }
        assert forall|i: int, j: int| 0 <= i < j < all.len() implies text_before(
            all[i].path,
            all[j].path,
        ) by {
            if j >= some.len() {
                assert(some.contains(some[i]));
                let k = choose|k: int| 0 <= k < front.len() && front[k] == some[i];
                assert(text_before(vs[k].path, vs[vs.len() - 1].path));
            }
        }
    }
}

/// Append the directories of the table, or everything else in it, to `out`.
fn push_selected(out: &mut Vec<EntryMeta>, t: &Vec<EntryMeta>, dirs: bool)
    ensures
        views(final(out)@) == views(old(out)@) + select(views(t@), dirs),
{
    let ghost vs = views(t@);
    let ghost before = views(out@);
    let mut i: usize = 0;
    assert(views(out@) =~= before + select(vs.take(0), dirs));
    while i < t.len()
        invariant
            i <= t@.len(),
            vs == views(t@),
            views(out@) == before + select(vs.take(i as int), dirs),
        decreases t@.len() - i,
    {
        assert(vs.take(i + 1).drop_last() =~= vs.take(i as int));
        if (t[i].kind == NodeKind::Dir) == dirs {
            let ghost was = views(out@);
            out.push(t[i].clone());
            assert(views(out@) =~= was.push(vs[i as int]));
            assert(views(out@) =~= before + select(vs.take(i + 1), dirs));
        }
        i += 1;
    }
    assert(vs.take(i as int) =~= vs);
}

/// The table in listing order: its directories, then the rest.
fn dirs_first(t: Vec<EntryMeta>, es: Ghost<Seq<EntryView>>, focus: Ghost<Option<Seq<char>>>) -> (out:
    Vec<EntryMeta>)
    requires
        sorted_by_path(t@),
        table_holds(t@, es@, focus@, es@.len() as int),
    ensures
        is_child_listing(es@, focus@, views(out@)),
{
    let mut out: Vec<EntryMeta> = Vec::new();
    push_selected(&mut out, &t, true);
    push_selected(&mut out, &t, false);
    proof {
        let (ts, vs) = (views(t@), views(out@));
        let (x, y) = (select(ts, true), select(ts, false));
        assert forall|i: int, j: int| 0 <= i < j < ts.len() implies text_before(
            ts[i].path,
            ts[j].path,
        ) by {
            assert(ts[i] == t@[i]@ && ts[j] == t@[j]@);
        }
        select_keeps(ts, true);
        select_keeps(ts, false);
        assert(vs =~= x + y);
        assert forall|i: int, j: int| 0 <= i < j < vs.len() implies listed_before(vs[i], vs[j]) by {
            if i < x.len() {
                assert(x.contains(x[i]));
            } else {
                assert(y.contains(y[i - x.len()]));
            }
            if j < x.len() {
                assert(x.contains(x[j]));
            } else {
                assert(y.contains(y[j - x.len()]));
            }
        }
        assert forall|e: EntryView| #[trigger] vs.contains(e) <==> is_listed(es@, focus@, e) by {
            if vs.contains(e) {
                let i = choose|i: int| 0 <= i < vs.len() && vs[i] == e;
                if i < x.len() {
                    assert(x.contains(x[i]));
                } else {
                    assert(y.contains(y[i - x.len()]));
                }
                assert(ts.contains(e));
            }
            if ts.contains(e) {
                if e.kind == NodeKind::Dir {
                    assert(x.contains(e));
                    let i = choose|i: int| 0 <= i < x.len() && x[i] == e;
                    assert(vs[i] == e);
                } else {
                    assert(y.contains(e));
                    let i = choose|i: int| 0 <= i < y.len() && y[i] == e;
                    assert(vs[i + x.len()] == e);
                }
            }
            assert(ts.contains(e) <==> is_listed(es@, focus@, e));
        }
    }
    out
}

} // verus!
