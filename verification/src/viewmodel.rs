//! View-model helpers: rows of the tree panel and labels.

use vstd::prelude::*;
use vstd::string::*;

use crate::archive::children::{
    child_entries, child_listing_exists, child_listing_unique, focus_text, implied_dir,
    is_child_listing, prefix_of, rest_under,
};
use crate::icons::Icon;
use crate::model::{
    is_normal, normal_path_is_relative, views, EntryMeta, EntryPath, EntryView, NodeKind, Timestamp,
};
use crate::extract::{comes_before, is_before};
use crate::text::{
    after_last, ascii_lower, chars_of, concat3, decimal, decimal_text, find_char_least, same_text,
    tail_after, text_before, text_before_irreflexive, text_before_total, text_before_transitive,
    text_is_before, to_ascii_lower,
};
use crate::timestamp::{civil, Civil};

verus! {

/// A row of the (left) tree panel: the entry plus its indentation depth.
#[derive(Debug)]
pub struct TreeRow {
    /// Indentation depth (0 = top level).
    pub depth: usize,
    /// The entry displayed on this row.
    pub entry: EntryMeta,
    /// Whether this row is a directory that can be expanded.
    pub is_dir: bool,
}

/// A [`TreeRow`] as a mathematical value.
pub struct TreeRowView {
    pub depth: nat,
    pub entry: EntryView,
    pub is_dir: bool,
}

impl View for TreeRow {
    type V = TreeRowView;

    open spec fn view(&self) -> TreeRowView {
        TreeRowView { depth: self.depth as nat, entry: self.entry@, is_dir: self.is_dir }
    }
}

impl Clone for TreeRow {
    fn clone(&self) -> (r: Self)
        ensures
            r@ == self@,
    {
        TreeRow { depth: self.depth, entry: self.entry.clone(), is_dir: self.is_dir }
    }
}

/// The rows as mathematical values.
pub open spec fn row_views(rows: Seq<TreeRow>) -> Seq<TreeRowView> {
    rows.map_values(|r: TreeRow| r@)
}

/// Direct children of `focus` within `entries` (`None` = archive root).
pub fn children_of(entries: &[EntryMeta], focus: Option<&EntryPath>) -> (r: Vec<EntryMeta>)
    ensures
        is_child_listing(views(entries@), focus_text(focus), views(r@)),
{
    child_entries(entries, focus)
}

/// The children of a directory: the only listing that is one.
pub open spec fn children(es: Seq<EntryView>, focus: Option<Seq<char>>) -> Seq<EntryView> {
    choose|out: Seq<EntryView>| is_child_listing(es, focus, out)
}

/// The children of a directory are its child listing.
pub proof fn children_are_listed(es: Seq<EntryView>, focus: Option<Seq<char>>)
    ensures
        is_child_listing(es, focus, children(es, focus)),
{
    child_listing_exists(es, focus);
}

/// The length of the longest path.
pub open spec fn longest(es: Seq<EntryView>) -> nat
    decreases es.len(),
{
    if es.len() == 0 {
        0
    } else {
        let front = longest(es.drop_last());
        if es.last().path.len() > front {
            es.last().path.len()
        } else {
            front
        }
    }
}

/// The length of a directory's path; the root has none.
pub open spec fn focus_len(focus: Option<Seq<char>>) -> int {
    match focus {
        Some(f) => f.len() as int,
        None => -1,
    }
}

/// The row of an entry.
pub open spec fn row_of(e: EntryView, depth: nat) -> TreeRowView {
    TreeRowView { depth, entry: e, is_dir: e.kind == NodeKind::Dir }
}

/// Whether a child is a directory that has been expanded.
pub open spec fn is_open(c: EntryView, expanded: Set<Seq<char>>) -> bool {
    c.kind == NodeKind::Dir && expanded.contains(c.path)
}

/// The rows of a directory: its children in listing order, each expanded directory followed at once
/// by its own rows.
pub open spec fn rows_under(
    es: Seq<EntryView>,
    expanded: Set<Seq<char>>,
    depth: nat,
    focus: Option<Seq<char>>,
) -> Seq<TreeRowView>
    decreases longest(es) - focus_len(focus), 1nat, 0nat,
{
    rows_of(es, expanded, depth, focus, children(es, focus))
}

/// The rows of some of the children of `focus`, in order.
pub open spec fn rows_of(
    es: Seq<EntryView>,
    expanded: Set<Seq<char>>,
    depth: nat,
    focus: Option<Seq<char>>,
    cs: Seq<EntryView>,
) -> Seq<TreeRowView>
    decreases longest(es) - focus_len(focus), 0nat, cs.len(),
{
    if cs.len() == 0 {
        Seq::empty()
    } else {
        let rest = rows_of(es, expanded, depth, focus, cs.drop_first());
        let c = cs[0];
        let here = seq![row_of(c, depth)];
        if is_open(c, expanded) && focus_len(focus) < c.path.len() <= longest(es) {
            here + rows_under(es, expanded, depth + 1, Some(c.path)) + rest
        } else {
            here + rest
        }
    }
}

/// No path is longer than the longest.
proof fn longest_bounds(es: Seq<EntryView>, i: int)
    requires
        0 <= i < es.len(),
    ensures
        es[i].path.len() <= longest(es),
    decreases es.len(),
{
    if i < es.len() - 1 {
        longest_bounds(es.drop_last(), i);
    }
}

/// The path of a child is longer than that of its directory and no longer than the longest.
proof fn child_length(
    es: Seq<EntryView>,
    focus: Option<Seq<char>>,
    cs: Seq<EntryView>,
    i: int,
)
    requires
        is_child_listing(es, focus, cs),
        0 <= i < cs.len(),
    ensures
        focus_len(focus) < cs[i].path.len() <= longest(es),
        prefix_of(focus).is_prefix_of(cs[i].path),
{
    let c = cs[i];
    assert(cs.contains(c));
    if exists|k: int|
        crate::archive::children::explicit_child(es, focus, es.len() as int, k) && c
            == #[trigger] es[k] {
        let k = choose|k: int|
            crate::archive::children::explicit_child(es, focus, es.len() as int, k) && c
                == #[trigger] es[k];
        longest_bounds(es, k);
    } else {
        let k = choose|k: int|
            0 <= k < es.len() && implied_dir((#[trigger] es[k]).path, focus) == Some(c.path);
        longest_bounds(es, k);
        find_char_least(rest_under(es[k].path, focus), '/');
        assert(c.path.subrange(0, prefix_of(focus).len() as int) =~= prefix_of(focus));
    }
}

/// An entry that waits to be shown.
struct Pending {
    depth: usize,
    entry: EntryMeta,
}

/// The row of an entry, and those below it where it is expanded.
spec fn tree_of(es: Seq<EntryView>, expanded: Set<Seq<char>>, p: Pending) -> Seq<TreeRowView> {
    let here = seq![row_of(p.entry@, p.depth as nat)];
    if is_open(p.entry@, expanded) {
        here + rows_under(es, expanded, (p.depth + 1) as nat, Some(p.entry@.path))
    } else {
        here
    }
}

/// The rows of the entries on a stack, the last one first.
spec fn stack_rows(es: Seq<EntryView>, expanded: Set<Seq<char>>, stack: Seq<Pending>) -> Seq<
    TreeRowView,
>
    decreases stack.len(),
{
    if stack.len() == 0 {
        Seq::empty()
    } else {
        tree_of(es, expanded, stack.last()) + stack_rows(es, expanded, stack.drop_last())
    }
}

/// Whether every entry on the stack has a path longer than its depth.
spec fn shallow(stack: Seq<Pending>) -> bool {
    forall|i: int| 0 <= i < stack.len() ==> (#[trigger] stack[i]).depth < stack[i].entry@.path.len()
}

/// The paths in a list.
pub open spec fn path_set(paths: Seq<EntryPath>) -> Set<Seq<char>> {
    Set::new(|p: Seq<char>| exists|i: int| 0 <= i < paths.len() && (#[trigger] paths[i])@ == p)
}

/// Whether a path is in a list.
pub(crate) fn has_path(paths: &[EntryPath], path: &EntryPath) -> (r: bool)
    ensures
        r == path_set(paths@).contains(path@),
{
    let mut i: usize = 0;
    while i < paths.len()
        invariant
            i <= paths@.len(),
            forall|j: int| 0 <= j < i ==> (#[trigger] paths@[j])@ != path@,
        decreases paths@.len() - i,
    {
        if paths[i].same(path) {
            return true;
        }
        i += 1;
    }
    false
}

/// Whether a row shows a child of an expanded directory.
pub open spec fn shown_below(
    row: TreeRowView,
    es: Seq<EntryView>,
    expanded: Set<Seq<char>>,
) -> bool {
    exists|d: Seq<char>| #[trigger] expanded.contains(d) && children(es, Some(d)).contains(row.entry)
}

/// Only expanded directories show their children: every row shows a child of the directory itself,
/// at its depth, or lies deeper and shows a child of a directory that has been expanded.
pub proof fn only_expanded_dirs_show_children(
    es: Seq<EntryView>,
    expanded: Set<Seq<char>>,
    depth: nat,
    focus: Option<Seq<char>>,
)
    ensures
        forall|i: int|
            0 <= i < rows_under(es, expanded, depth, focus).len() ==> {
                let row = #[trigger] rows_under(es, expanded, depth, focus)[i];
                ||| row.depth == depth && children(es, focus).contains(row.entry)
                ||| row.depth > depth && shown_below(row, es, expanded)
            },
    decreases longest(es) - focus_len(focus), 1nat, 0nat,
{
    rows_of_show_children(es, expanded, depth, focus, children(es, focus));
}

/// The rows of some children show them, or lie deeper and show children of expanded directories.
proof fn rows_of_show_children(
    es: Seq<EntryView>,
    expanded: Set<Seq<char>>,
    depth: nat,
    focus: Option<Seq<char>>,
    cs: Seq<EntryView>,
)
    ensures
        forall|i: int|
            0 <= i < rows_of(es, expanded, depth, focus, cs).len() ==> {
                let row = #[trigger] rows_of(es, expanded, depth, focus, cs)[i];
                ||| row.depth == depth && cs.contains(row.entry)
                ||| row.depth > depth && shown_below(row, es, expanded)
            },
    decreases longest(es) - focus_len(focus), 0nat, cs.len(),
{
    if cs.len() > 0 {
        let c = cs[0];
        let tail = cs.drop_first();
        let rest = rows_of(es, expanded, depth, focus, tail);
        let rows = rows_of(es, expanded, depth, focus, cs);
        let opened = is_open(c, expanded) && focus_len(focus) < c.path.len() <= longest(es);
        let below = if opened {
            rows_under(es, expanded, depth + 1, Some(c.path))
        } else {
            Seq::empty()
        };
        rows_of_show_children(es, expanded, depth, focus, tail);
        if opened {
            only_expanded_dirs_show_children(es, expanded, depth + 1, Some(c.path));
        }
        assert(rows =~= seq![row_of(c, depth)] + below + rest);
        assert forall|i: int| 0 <= i < rows.len() implies {
            let row = #[trigger] rows[i];
            ||| row.depth == depth && cs.contains(row.entry)
            ||| row.depth > depth && shown_below(row, es, expanded)
        } by {
            if i == 0 {
                assert(cs.contains(c));
            } else if i <= below.len() {
                assert(rows[i] == below[i - 1]);
                assert(expanded.contains(c.path));
            } else {
                let row = rest[i - 1 - below.len()];
                assert(rows[i] == row);
                if tail.contains(row.entry) {
                    let k = choose|k: int| 0 <= k < tail.len() && tail[k] == row.entry;
                    assert(cs[k + 1] == row.entry);
                }
            }
        }
    }
}

/// An expanded directory is followed at once by its own rows, before the rows of what is listed
/// after it.
pub proof fn children_follow_their_directory(
    es: Seq<EntryView>,
    expanded: Set<Seq<char>>,
    depth: nat,
    focus: Option<Seq<char>>,
    k: int,
)
    requires
        0 <= k < children(es, focus).len(),
        is_open(children(es, focus)[k], expanded),
    ensures
        ({
            let cs = children(es, focus);
            rows_under(es, expanded, depth, focus) == rows_of(
                es,
                expanded,
                depth,
                focus,
                cs.take(k),
            ) + seq![row_of(cs[k], depth)] + rows_under(es, expanded, depth + 1, Some(cs[k].path))
                + rows_of(es, expanded, depth, focus, cs.skip(k + 1))
        }),
{
    let cs = children(es, focus);
    children_are_listed(es, focus);
    child_length(es, focus, cs, k);
    rows_of_split(es, expanded, depth, focus, cs, k);
    let tail = cs.skip(k);
    assert(tail[0] == cs[k]);
    assert(tail.drop_first() =~= cs.skip(k + 1));
    assert(rows_under(es, expanded, depth, focus) =~= rows_of(
        es,
        expanded,
        depth,
        focus,
        cs.take(k),
    ) + seq![row_of(cs[k], depth)] + rows_under(es, expanded, depth + 1, Some(cs[k].path))
        + rows_of(es, expanded, depth, focus, cs.skip(k + 1)));
}

/// The rows of some children are those of the first ones, then those of the others.
proof fn rows_of_split(
    es: Seq<EntryView>,
    expanded: Set<Seq<char>>,
    depth: nat,
    focus: Option<Seq<char>>,
    cs: Seq<EntryView>,
    k: int,
)
    requires
        0 <= k <= cs.len(),
    ensures
        rows_of(es, expanded, depth, focus, cs) == rows_of(es, expanded, depth, focus, cs.take(k))
            + rows_of(es, expanded, depth, focus, cs.skip(k)),
    decreases k,
{
    let (left, right) = (cs.take(k), cs.skip(k));
    if k == 0 {
        assert(right =~= cs);
        assert(rows_of(es, expanded, depth, focus, cs) =~= rows_of(
            es,
            expanded,
            depth,
            focus,
            left,
        ) + rows_of(es, expanded, depth, focus, right));
    } else {
        let tail = cs.drop_first();
        rows_of_split(es, expanded, depth, focus, tail, k - 1);
        assert(left.drop_first() =~= tail.take(k - 1));
        assert(right =~= tail.skip(k - 1));
        assert(left[0] == cs[0]);
        assert(rows_of(es, expanded, depth, focus, cs) =~= rows_of(
            es,
            expanded,
            depth,
            focus,
            left,
        ) + rows_of(es, expanded, depth, focus, right));
    }
}

/// Put the children of a directory on the stack, the first of them on top.
fn push_children(
    entries: &[EntryMeta],
    focus: Option<&EntryPath>,
    depth: usize,
    stack: &mut Vec<Pending>,
    Ghost(open): Ghost<Set<Seq<char>>>,
)
    requires
        shallow(old(stack)@),
        match focus {
            Some(f) => depth <= f@.len(),
            None => depth == 0,
        },
    ensures
        shallow(final(stack)@),
        stack_rows(views(entries@), open, final(stack)@) == rows_under(
            views(entries@),
            open,
            depth as nat,
            focus_text(focus),
        ) + stack_rows(views(entries@), open, old(stack)@),
{
    let ghost es = views(entries@);
    let ghost at = focus_text(focus);
    let ghost below = stack@;
    let listed = children_of(entries, focus);
    let ghost cs = views(listed@);
    proof {
        let chosen = children(es, at);
        assert(is_child_listing(es, at, chosen));
        child_listing_unique(es, at, cs, chosen);
    }
    let mut i: usize = listed.len();
    assert(cs.skip(i as int) =~= Seq::<EntryView>::empty());
    assert(stack_rows(es, open, stack@) =~= rows_of(es, open, depth as nat, at, cs.skip(i as int))
        + stack_rows(es, open, below));
    while i > 0
        invariant
            i <= listed@.len(),
            cs == views(listed@),
            is_child_listing(es, at, cs),
            at == focus_text(focus),
            match focus {
                Some(f) => depth <= f@.len(),
                None => depth == 0,
            },
            shallow(stack@),
            stack_rows(es, open, stack@) == rows_of(
                es,
                open,
                depth as nat,
                at,
                cs.skip(i as int),
            ) + stack_rows(es, open, below),
        decreases i,
    {
        i -= 1;
        let child = listed[i].clone();
        let ghost before = stack@;
        let _ = path_length(&child.path);
        let ghost pending = Pending { depth, entry: child };
        stack.push(Pending { depth, entry: child });
        proof {
            normal_path_is_relative(child.path@);
            child_length(es, at, cs, i as int);
            let tail = cs.skip(i as int);
            assert(tail[0] == child@);
            assert(tail.drop_first() =~= cs.skip(i + 1));
            assert(stack@.drop_last() =~= before);
            assert(stack@.last() == pending);
            assert(stack_rows(es, open, stack@) =~= rows_of(es, open, depth as nat, at, tail)
                + stack_rows(es, open, below));
        }
    }
    assert(cs.skip(0) =~= cs);
}

/// Flatten the archive tree into indented rows, expanding only the dirs in `expanded`. An explicit
/// stack keeps the walk iterative (no recursion depth worries for deep archives).
pub fn tree_rows(entries: &[EntryMeta], expanded: &[EntryPath]) -> (r: Vec<TreeRow>)
    ensures
        row_views(r@) == rows_under(views(entries@), path_set(expanded@), 0, None),
{
    let ghost es = views(entries@);
    let ghost open = path_set(expanded@);
    let ghost all = rows_under(es, open, 0, None);
    let mut rows: Vec<TreeRow> = Vec::new();
    let mut stack: Vec<Pending> = Vec::new();
    push_children(entries, None, 0, &mut stack, Ghost(open));
    assert(row_views(rows@) + stack_rows(es, open, stack@) =~= all);
    while stack.len() > 0
        invariant
            es == views(entries@),
            open == path_set(expanded@),
            shallow(stack@),
            row_views(rows@) + stack_rows(es, open, stack@) == all,
        decreases stack_rows(es, open, stack@).len(),
    {
        let ghost before = stack@;
        let ghost done = row_views(rows@);
        let Pending { depth, entry } = stack.remove(stack.len() - 1);
        let ghost below = stack@;
        proof {
            assert(below =~= before.drop_last());
            assert(before.last().depth < before.last().entry@.path.len());
        }
        let is_dir = entry.kind == NodeKind::Dir;
        if is_dir && has_path(expanded, &entry.path) {
            // The text of a path is no longer than memory, so the depth cannot overflow.
            let room: usize = path_length(&entry.path);
            assert(depth < room);
            push_children(entries, Some(&entry.path), depth + 1, &mut stack, Ghost(open));
        }
        let ghost row = row_of(entry@, depth as nat);
        rows.push(TreeRow { depth, entry, is_dir });
        proof {
            assert(row_views(rows@) =~= done.push(row));
            assert(stack_rows(es, open, before) =~= seq![row] + stack_rows(es, open, stack@));
            assert(row_views(rows@) + stack_rows(es, open, stack@) =~= done + stack_rows(
                es,
                open,
                before,
            ));
        }
    }
    assert(row_views(rows@) =~= all);
    rows
}

/// The number of characters of a path.
fn path_length(path: &EntryPath) -> (r: usize)
    ensures
        r == path@.len(),
        is_normal(path@),
{
    path.as_str().unicode_len()
}

/// The quotient rounded to the nearest integer, to the even one where two are as near.
pub open spec fn half_even(a: nat, b: nat) -> nat {
    let q = a / b;
    let r = a % b;
    if 2 * r > b || (2 * r == b && q % 2 == 1) {
        q + 1
    } else {
        q
    }
}

/// The number nearest to `n` with at most 53 significant binary digits, where `step` is a power of
/// two and smaller steps have been ruled out; halfway cases go to the even multiple.
pub open spec fn nearest_double(n: nat, step: nat) -> nat
    decreases
            (if step <= n {
                n - step
            } else {
                0
            }),
{
    if step == 0 || n < 9_007_199_254_740_992 * step {
        half_even(n, step) * step
    } else {
        nearest_double(n, 2 * step)
    }
}

/// The names of the units, each 1024 times the one before.
pub open spec fn unit_name(unit: nat) -> Seq<char> {
    if unit == 0 {
        "B"@
    } else if unit == 1 {
        "KB"@
    } else if unit == 2 {
        "MB"@
    } else if unit == 3 {
        "GB"@
    } else {
        "TB"@
    }
}

/// The size of a unit in bytes.
pub open spec fn unit_size(unit: nat) -> nat
    decreases unit,
{
    if unit == 0 {
        1
    } else {
        1024 * unit_size((unit - 1) as nat)
    }
}

/// The largest unit that a value fills, from `unit` on.
pub open spec fn unit_for(value: nat, unit: nat) -> nat
    decreases 4 - unit,
{
    if unit < 4 && value >= unit_size(unit + 1) {
        unit_for(value, unit + 1)
    } else {
        unit
    }
}

/// A byte count with its unit: whole bytes, and one decimal in every larger unit. The count is
/// first rounded to double precision, which only shows from 2^53 bytes on.
pub open spec fn bytes_label(bytes: nat) -> Seq<char> {
    let value = nearest_double(bytes, 1);
    let unit = unit_for(value, 0);
    if unit == 0 {
        decimal(value) + " "@ + unit_name(unit)
    } else {
        let tenths = half_even(10 * value, unit_size(unit));
        decimal(tenths / 10) + "."@ + decimal(tenths % 10) + " "@ + unit_name(unit)
    }
}

/// The quotient rounded to the nearest integer, to the even one where two are as near.
fn round_half_even(a: u128, b: u128) -> (r: u128)
    requires
        0 < b < 0x8000_0000_0000_0000_0000_0000_0000_0000,
        a < 0x8000_0000_0000_0000_0000_0000_0000_0000,
    ensures
        r == half_even(a as nat, b as nat),
        r <= a / b + 1,
{
    let q = a / b;
    let r = a % b;
    if 2 * r > b || (2 * r == b && q % 2 == 1) {
        q + 1
    } else {
        q
    }
}

/// Dividing by a step and multiplying again exceeds the number by less than a step.
proof fn rounded_multiple_bound(n: int, step: int)
    requires
        step > 0,
        n >= 0,
    ensures
        (n / step + 1) * step <= n + step,
        n / step >= 0,
{
    assert((n / step) * step <= n) by (nonlinear_arith)
        requires
            step > 0,
            n >= 0,
    ;
    assert((n / step + 1) * step == (n / step) * step + step) by (nonlinear_arith);
    assert(n / step >= 0) by (nonlinear_arith)
        requires
            step > 0,
            n >= 0,
    ;
}

/// The number nearest to `n` with at most 53 significant binary digits.
fn to_double(n: u64) -> (r: u128)
    ensures
        r == nearest_double(n as nat, 1),
        r <= 0x2_0000_0000_0000_0000,
{
    let wide: u128 = n as u128;
    let mut step: u128 = 1;
    while wide >= 9_007_199_254_740_992 * step
        invariant
            wide == n,
            1 <= step <= 4096,
            nearest_double(n as nat, step as nat) == nearest_double(n as nat, 1),
        decreases 4097 - step,
    {
        assert(step < 4096) by {
            assert(9_007_199_254_740_992 * 2048 == 0x1_0000_0000_0000_0000);
        }
        assert(step <= 2047 || step >= 2048);
        step = 2 * step;
    }
    let q = round_half_even(wide, step);
    proof {
        rounded_multiple_bound(wide as int, step as int);
        assert(q * step <= (wide / step + 1) * step) by (nonlinear_arith)
            requires
                q <= wide / step + 1,
                step >= 1,
        ;
        assert(0 <= q * step) by (nonlinear_arith)
            requires
                q >= 0,
                step >= 1,
        ;
    }
    q * step
}

/// The size of a unit in bytes.
fn size_of_unit(unit: u8) -> (r: u128)
    requires
        unit <= 5,
    ensures
        r == unit_size(unit as nat),
        1 <= r <= 1_125_899_906_842_624,
{
    proof {
        reveal_with_fuel(unit_size, 6);
    }
    if unit == 0 {
        1
    } else if unit == 1 {
        1024
    } else if unit == 2 {
        1_048_576
    } else if unit == 3 {
        1_073_741_824
    } else if unit == 4 {
        1_099_511_627_776
    } else {
        1_125_899_906_842_624
    }
}

/// Format a byte count as B / KB / MB / GB / TB.
pub fn format_bytes(bytes: u64) -> (r: String)
    ensures
        r@ == bytes_label(bytes as nat),
{
    let value = to_double(bytes);
    let mut unit: u8 = 0;
    while unit < 4 && value >= size_of_unit(unit + 1)
        invariant
            unit <= 4,
            unit_for(value as nat, unit as nat) == unit_for(value as nat, 0),
            unit > 0 ==> value >= unit_size(unit as nat),
        decreases 4 - unit,
    {
        unit += 1;
    }
    let name = if unit == 0 {
        "B"
    } else if unit == 1 {
        "KB"
    } else if unit == 2 {
        "MB"
    } else if unit == 3 {
        "GB"
    } else {
        "TB"
    };
    if unit == 0 {
        // What does not fill a kilobyte is far below the range in which rounding shows.
        proof {
            reveal_with_fuel(unit_size, 2);
            assert(value < 1024);
        }
        return concat3(decimal_text(value as u64).as_str(), " ", name);
    }
    let size = size_of_unit(unit);
    let tenths = round_half_even(10 * value, size);
    proof {
        let a = 10 * value as int;
        assert(a / size as int <= a) by (nonlinear_arith)
            requires
                size >= 1,
                a >= 0,
        ;
        assert(size >= 1024) by {
            reveal_with_fuel(unit_size, 5);
        }
        assert(a / size as int <= a / 1024) by (nonlinear_arith)
            requires
                size >= 1024,
                a >= 0,
        ;
        assert(tenths / 10 <= 0xffff_ffff_ffff_ffff);
    }
    let mut out = concat3(
        decimal_text((tenths / 10) as u64).as_str(),
        ".",
        decimal_text((tenths % 10) as u64).as_str(),
    );
    out.append(" ");
    out.append(name);
    out
}

/// Human-readable byte size of an entry; a dash where it is not known.
pub fn size_label(entry: &EntryMeta) -> (r: String)
    ensures
        r@ == match entry@.uncompressed_size {
            Some(bytes) => bytes_label(bytes as nat),
            None => "—"@,
        },
{
    match entry.uncompressed_size {
        Some(bytes) => format_bytes(bytes),
        None => "—".to_string(),
    }
}

/// The name of a node kind.
pub open spec fn kind_name(kind: NodeKind) -> Seq<char> {
    match kind {
        NodeKind::File => "File"@,
        NodeKind::Dir => "Folder"@,
        NodeKind::Archive => "Archive"@,
        NodeKind::Symlink => "Symlink"@,
    }
}

/// Human-readable node kind.
pub fn kind_label(kind: NodeKind) -> (r: &'static str)
    ensures
        r@ == kind_name(kind),
{
    match kind {
        NodeKind::File => "File",
        NodeKind::Dir => "Folder",
        NodeKind::Archive => "Archive",
        NodeKind::Symlink => "Symlink",
    }
}

/// Extensions of archives, which may be listed as plain files.
pub open spec fn archive_extensions() -> Seq<&'static str> {
    seq!["zip", "tar", "gz", "tgz", "xz", "txz", "7z", "rar"]
}

/// Extensions of programs and their sources.
pub open spec fn code_extensions() -> Seq<&'static str> {
    seq![
        "exe", "msi", "bat", "cmd", "sh", "bash", "ps1", "app", "dll", "so", "dylib", "rs", "py", "js",
        "ts", "c", "h", "cpp", "java", "go", "html", "css", "json", "xml", "yml", "yaml", "toml", "ini",
        "conf", "sql"
    ]
}

/// Extensions of images.
pub open spec fn image_extensions() -> Seq<&'static str> {
    seq!["png", "jpg", "jpeg", "gif", "webp", "bmp", "svg", "ico", "avif", "heic", "tiff", "tif"]
}

/// Extensions of texts.
pub open spec fn text_extensions() -> Seq<&'static str> {
    seq![
        "txt", "md", "markdown", "log", "rtf", "csv", "tsv", "pdf", "doc", "docx", "xls", "xlsx", "ppt",
        "pptx", "odt", "epub"
    ]
}

/// Whether a text is in a list.
pub open spec fn lists(list: Seq<&'static str>, s: Seq<char>) -> bool {
    exists|i: int| 0 <= i < list.len() && (#[trigger] list[i])@ == s
}

/// Whether a text is in a list.
fn is_listed(list: &[&'static str], s: &str) -> (r: bool)
    ensures
        r == lists(list@, s@),
{
    let mut i: usize = 0;
    while i < list.len()
        invariant
            i <= list@.len(),
            forall|j: int| 0 <= j < i ==> (#[trigger] list@[j])@ != s@,
        decreases list@.len() - i,
    {
        if same_text(list[i], s) {
            return true;
        }
        i += 1;
    }
    false
}

/// The icon of a plain file and the class that tints it, by its extension in lower case.
pub open spec fn icon_by_extension(ext: Seq<char>) -> (Icon, Seq<char>) {
    if lists(archive_extensions(), ext) {
        (Icon::FileArchive, "icon-type-archive"@)
    } else if lists(code_extensions(), ext) {
        (Icon::FileCode, "icon-type-code"@)
    } else if lists(image_extensions(), ext) {
        (Icon::FileImage, "icon-type-image"@)
    } else if lists(text_extensions(), ext) {
        (Icon::FileText, "icon-type-text"@)
    } else {
        (Icon::File, "icon-type-default"@)
    }
}

/// The icon of an entry and the class that tints it.
pub open spec fn icon_of(e: EntryView) -> (Icon, Seq<char>) {
    match e.kind {
        NodeKind::Dir => (Icon::Folder, "icon-type-dir"@),
        NodeKind::Archive => (Icon::FileArchive, "icon-type-archive"@),
        NodeKind::Symlink => (Icon::File, "icon-type-default"@),
        NodeKind::File => icon_by_extension(ascii_lower(after_last(e.path, '.'))),
    }
}

/// Icon for a plain file, chosen by its extension in lower case.
fn file_icon_by_ext(ext: &str) -> (r: (Icon, &'static str))
    ensures
        (r.0, r.1@) == icon_by_extension(ext@),
{
    if is_listed(&["zip", "tar", "gz", "tgz", "xz", "txz", "7z", "rar"], ext) {
        (Icon::FileArchive, "icon-type-archive")
    } else if is_listed(
        &[
        "exe", "msi", "bat", "cmd", "sh", "bash", "ps1", "app", "dll", "so", "dylib", "rs", "py", "js",
        "ts", "c", "h", "cpp", "java", "go", "html", "css", "json", "xml", "yml", "yaml", "toml", "ini",
        "conf", "sql"
        ],
        ext,
    ) {
        (Icon::FileCode, "icon-type-code")
    } else if is_listed(
        &["png", "jpg", "jpeg", "gif", "webp", "bmp", "svg", "ico", "avif", "heic", "tiff", "tif"],
        ext,
    ) {
        (Icon::FileImage, "icon-type-image")
    } else if is_listed(
        &[
        "txt", "md", "markdown", "log", "rtf", "csv", "tsv", "pdf", "doc", "docx", "xls", "xlsx", "ppt",
        "pptx", "odt", "epub"
        ],
        ext,
    ) {
        (Icon::FileText, "icon-type-text")
    } else {
        (Icon::File, "icon-type-default")
    }
}

/// Type icon for a file-list row, chosen by entry kind and file extension, with the CSS class that
/// tints it.
pub fn file_icon(entry: &EntryMeta) -> (r: (Icon, &'static str))
    ensures
        (r.0, r.1@) == icon_of(entry@),
{
    match entry.kind {
        NodeKind::Dir => (Icon::Folder, "icon-type-dir"),
        NodeKind::Archive => (Icon::FileArchive, "icon-type-archive"),
        NodeKind::Symlink => (Icon::File, "icon-type-default"),
        NodeKind::File => {
            let ext = tail_after(entry.path.as_str(), '.');
            file_icon_by_ext(to_ascii_lower(ext.as_str()).as_str())
        },
    }
}

/// A number in at least `width` digits.
pub open spec fn padded(n: nat, width: nat) -> Seq<char>
    decreases width,
{
    if decimal(n).len() >= width {
        decimal(n)
    } else {
        zeros((width - decimal(n).len()) as nat) + decimal(n)
    }
}

/// A number of zeros.
pub open spec fn zeros(n: nat) -> Seq<char>
    decreases n,
{
    if n == 0 {
        Seq::empty()
    } else {
        zeros((n - 1) as nat).push('0')
    }
}

/// A number in at least `width` digits.
fn padded_text(n: u64, width: usize) -> (r: String)
    ensures
        r@ == padded(n as nat, width as nat),
{
    let digits = decimal_text(n);
    let have: usize = digits.as_str().unicode_len();
    if have >= width {
        return digits;
    }
    let mut out = String::new();
    let mut i: usize = 0;
    while i < width - have
        invariant
            have < width,
            i <= width - have,
            out@ == zeros(i as nat),
        decreases width - have - i,
    {
        out.push('0');
        i += 1;
    }
    out.append(digits.as_str());
    out
}

/// A date and time as `YYYY-MM-DD HH:MM`. The sign of a year before the common era counts as one of
/// its four places.
pub open spec fn civil_label(at: Civil) -> Seq<char> {
    let year = if at.year < 0 {
        "-"@ + padded((-at.year) as nat, 3)
    } else {
        padded(at.year as nat, 4)
    };
    year + "-"@ + padded(at.month as nat, 2) + "-"@ + padded(at.day as nat, 2) + " "@ + padded(
        at.hour as nat,
        2,
    ) + ":"@ + padded(at.minute as nat, 2)
}

/// Format a date and time as `YYYY-MM-DD HH:MM` (no seconds).
pub fn format_civil(year: i32, month: u8, day: u8, hour: u8, minute: u8) -> (r: String)
    ensures
        r@ == civil_label(civil(year, month, day, hour, minute, 0)),
{
    let mut out = if year < 0 {
        let y: i64 = -(year as i64);
        let mut s = "-".to_string();
        s.append(padded_text(y as u64, 3).as_str());
        s
    } else {
        padded_text(year as u64, 4)
    };
    out.append("-");
    out.append(padded_text(month as u64, 2).as_str());
    out.append("-");
    out.append(padded_text(day as u64, 2).as_str());
    out.append(" ");
    out.append(padded_text(hour as u64, 2).as_str());
    out.append(":");
    out.append(padded_text(minute as u64, 2).as_str());
    out
}

/// Whether a number of seconds after 1970 falls in the years -9999 to 9999, both in UTC and
/// `offset` seconds ahead of it.
pub open spec fn on_calendar(secs: i64, offset: i32) -> bool {
    &&& -377_705_116_800 <= secs <= 253_402_300_799
    &&& -377_705_116_800 <= secs + offset <= 253_402_300_799
}

/// Whether an offset from UTC is one that can occur: less than 26 hours either way.
pub open spec fn is_utc_offset(offset: i32) -> bool {
    -93_600 < offset < 93_600
}

/// The date and time at a number of seconds after 1970, seen with an offset from UTC.
///
/// Trusted: `time::OffsetDateTime::from_unix_timestamp` and `to_offset` give the date and time of
/// the calendar that is that many seconds, and the offset, after the epoch.
#[verifier::external_body]
fn civil_at(secs: i64, offset: i32) -> (r: (i32, u8, u8, u8, u8, u8))
    requires
        on_calendar(secs, offset),
        is_utc_offset(offset),
    ensures
        civil(r.0, r.1, r.2, r.3, r.4, r.5).exists_in_calendar(),
        civil(r.0, r.1, r.2, r.3, r.4, r.5).unix_seconds() == secs + offset,
{
    let offset = time::UtcOffset::from_whole_seconds(offset).expect("offset in range");
    let at = time::OffsetDateTime::from_unix_timestamp(secs).expect("time in range").to_offset(offset);
    (at.year(), at.month().into(), at.day(), at.hour(), at.minute(), at.second())
}

/// Whether `label` is the label of a time: the date and time of the calendar that is `offset`
/// seconds ahead of the time, or a dash where there is no time.
pub open spec fn labels_time(label: Seq<char>, mtime: Option<Timestamp>, offset: i32) -> bool {
    match mtime {
        None => label == "—"@,
        Some(t) => exists|at: Civil|
            at.exists_in_calendar() && #[trigger] at.unix_seconds() == t.secs + offset && label
                == civil_label(at),
    }
}

/// Format an optional timestamp as `YYYY-MM-DD HH:MM`, `offset` seconds ahead of UTC.
pub fn time_label(mtime: Option<Timestamp>, offset: i32) -> (r: String)
    requires
        mtime is Some ==> on_calendar(mtime->0.secs, offset),
        is_utc_offset(offset),
    ensures
        labels_time(r@, mtime, offset),
{
    match mtime {
        None => "—".to_string(),
        Some(t) => {
            let (year, month, day, hour, minute, second) = civil_at(t.secs, offset);
            let r = format_civil(year, month, day, hour, minute);
            proof {
                let at = civil(year, month, day, hour, minute, second);
                assert(at.unix_seconds() == t.secs + offset);
                assert(r@ == civil_label(at));
            }
            r
        },
    }
}

/// Whether a text occurs in another.
pub open spec fn occurs_in(needle: Seq<char>, s: Seq<char>) -> bool {
    exists|i: int| occurs_at(needle, s, i)
}

/// Whether a text occurs in another at a position.
pub open spec fn occurs_at(needle: Seq<char>, s: Seq<char>, i: int) -> bool {
    0 <= i && i + needle.len() <= s.len() && s.subrange(i, i + needle.len()) == needle
}

/// Whether a text occurs in another.
fn is_in(needle: &str, s: &str) -> (r: bool)
    ensures
        r == occurs_in(needle@, s@),
{
    let n = chars_of(needle);
    let h = chars_of(s);
    if n.len() > h.len() {
        return false;
    }
    let mut i: usize = 0;
    while i <= h.len() - n.len()
        invariant
            n@ == needle@,
            h@ == s@,
            n@.len() <= h@.len(),
            i <= h@.len() - n@.len() + 1,
            forall|j: int| 0 <= j < i ==> !occurs_at(n@, h@, j),
        decreases h@.len() - n@.len() + 1 - i,
    {
        let mut k: usize = 0;
        let room: usize = h.len() - n.len();
        while k < n.len() && h[i + k] == n[k]
            invariant
                n@.len() <= h@.len(),
                room == h.len() - n.len(),
                i <= room,
                k <= n@.len(),
                forall|j: int| 0 <= j < k ==> h@[i + j] == n@[j],
            decreases n@.len() - k,
        {
            k += 1;
        }
        if k == n.len() {
            proof {
                assert(h@.subrange(i as int, i + n@.len()) =~= n@);
                assert(occurs_at(n@, h@, i as int));
            }
            return true;
        }
        proof {
            if occurs_at(n@, h@, i as int) {
                assert(h@.subrange(i as int, i + n@.len())[k as int] == h@[i + k]);
            }
        }
        i += 1;
    }
    false
}

/// Whether an entry's name matches a search: it holds the query, in whatever case of ASCII letters.
pub open spec fn name_matches(path: Seq<char>, query: Seq<char>) -> bool {
    occurs_in(ascii_lower(query), ascii_lower(after_last(path, '/')))
}

/// The entries whose name matches a search, in order.
pub open spec fn matching(cs: Seq<EntryView>, query: Seq<char>) -> Seq<EntryView>
    decreases cs.len(),
{
    if cs.len() == 0 {
        Seq::empty()
    } else if name_matches(cs.last().path, query) {
        matching(cs.drop_last(), query).push(cs.last())
    } else {
        matching(cs.drop_last(), query)
    }
}

/// The children of a directory whose name matches the search (every name matches an empty query).
pub fn filter_children(entries: &[EntryMeta], focus: Option<&EntryPath>, query: &str) -> (r: Vec<
    EntryMeta,
>)
    ensures
        views(r@) == matching(children(views(entries@), focus_text(focus)), query@),
{
    let listed = children_of(entries, focus);
    let ghost cs = views(listed@);
    proof {
        let chosen = children(views(entries@), focus_text(focus));
        child_listing_unique(views(entries@), focus_text(focus), cs, chosen);
    }
    let wanted = to_ascii_lower(query);
    let mut out: Vec<EntryMeta> = Vec::new();
    let mut i: usize = 0;
    assert(views(out@) =~= matching(cs.take(0), query@));
    while i < listed.len()
        invariant
            i <= listed@.len(),
            cs == views(listed@),
            wanted@ == ascii_lower(query@),
            views(out@) == matching(cs.take(i as int), query@),
        decreases listed@.len() - i,
    {
        assert(cs.take(i + 1).drop_last() =~= cs.take(i as int));
        assert(cs.take(i + 1).last() == listed@[i as int]@);
        let name = to_ascii_lower(tail_after(listed[i].path.as_str(), '/').as_str());
        if is_in(wanted.as_str(), name.as_str()) {
            let ghost before = out@;
            let e = listed[i].clone();
            out.push(e);
            assert(views(out@) =~= views(before).push(e@));
        }
        i += 1;
    }
    assert(cs.take(i as int) =~= cs);
    out
}

/// A column by which the file list can be sorted.
#[derive(Debug, Clone, Copy, PartialEq, Eq, Structural)]
pub enum SortField {
    Name,
    Size,
    Type,
    Modified,
}

/// A direction of sorting.
#[derive(Debug, Clone, Copy, PartialEq, Eq, Structural)]
pub enum SortDir {
    Asc,
    Desc,
}

/// The sorting after a click on a column: ascending, then descending, then off; another column
/// begins anew.
pub open spec fn next_sort(
    sort: Option<(SortField, SortDir)>,
    field: SortField,
) -> Option<(SortField, SortDir)> {
    match sort {
        Some((f, dir)) => if f != field {
            Some((field, SortDir::Asc))
        } else if dir == SortDir::Asc {
            Some((field, SortDir::Desc))
        } else {
            None
        },
        None => Some((field, SortDir::Asc)),
    }
}

/// The sorting after a click on a column.
pub fn cycle_sort(sort: Option<(SortField, SortDir)>, field: SortField) -> (r: Option<
    (SortField, SortDir),
>)
    ensures
        r == next_sort(sort, field),
{
    match sort {
        Some((f, dir)) => {
            if f != field {
                Some((field, SortDir::Asc))
            } else if dir == SortDir::Asc {
                Some((field, SortDir::Desc))
            } else {
                None
            }
        },
        None => Some((field, SortDir::Asc)),
    }
}

/// Three clicks on a column lead back to where nothing is sorted.
pub proof fn three_clicks_turn_sorting_off(field: SortField)
    ensures
        next_sort(next_sort(next_sort(None, field), field), field) is None,
{
}

/// Whether an entry comes before another in a column. What is not known comes first.
pub open spec fn lower_in(field: SortField, a: EntryView, b: EntryView) -> bool {
    match field {
        SortField::Name => text_before(a.path, b.path),
        SortField::Size => match (a.uncompressed_size, b.uncompressed_size) {
            (None, Some(_)) => true,
            (Some(x), Some(y)) => x < y,
            _ => false,
        },
        SortField::Type => text_before(kind_name(a.kind), kind_name(b.kind)),
        SortField::Modified => match (a.mtime, b.mtime) {
            (None, Some(_)) => true,
            (Some(x), Some(y)) => is_before(x, y),
            _ => false,
        },
    }
}

/// Whether an entry is to stand before another.
pub open spec fn sorts_before(field: SortField, dir: SortDir, a: EntryView, b: EntryView) -> bool {
    match dir {
        SortDir::Asc => lower_in(field, a, b),
        SortDir::Desc => lower_in(field, b, a),
    }
}

/// The sorted entries with one more, behind all that it is not to stand before.
pub open spec fn insert_sorted(
    field: SortField,
    dir: SortDir,
    cs: Seq<EntryView>,
    e: EntryView,
) -> Seq<EntryView>
    decreases cs.len(),
{
    if cs.len() == 0 || !sorts_before(field, dir, e, cs.last()) {
        cs.push(e)
    } else {
        insert_sorted(field, dir, cs.drop_last(), e).push(cs.last())
    }
}

/// The entries in the order of a column; entries that are equal in it stay as they stand.
pub open spec fn sorted(field: SortField, dir: SortDir, cs: Seq<EntryView>) -> Seq<EntryView>
    decreases cs.len(),
{
    if cs.len() == 0 {
        Seq::empty()
    } else {
        insert_sorted(field, dir, sorted(field, dir, cs.drop_last()), cs.last())
    }
}

/// The order in a column is transitive, and so is its negation.
pub proof fn lower_in_weak_order(field: SortField, a: EntryView, b: EntryView, c: EntryView)
    ensures
        lower_in(field, a, b) && lower_in(field, b, c) ==> lower_in(field, a, c),
        !lower_in(field, a, b) && !lower_in(field, b, c) ==> !lower_in(field, a, c),
        lower_in(field, a, b) ==> !lower_in(field, b, a),
{
    match field {
        SortField::Name => weak_text_order(a.path, b.path, c.path),
        SortField::Type => weak_text_order(kind_name(a.kind), kind_name(b.kind), kind_name(c.kind)),
        _ => {},
    }
}

/// The order on text is transitive, and so is its negation.
proof fn weak_text_order(a: Seq<char>, b: Seq<char>, c: Seq<char>)
    ensures
        text_before(a, b) && text_before(b, c) ==> text_before(a, c),
        !text_before(a, b) && !text_before(b, c) ==> !text_before(a, c),
        text_before(a, b) ==> !text_before(b, a),
{
    text_before_total(a, b);
    text_before_total(b, c);
    text_before_irreflexive(a);
    text_before_irreflexive(c);
    if text_before(a, b) && text_before(b, c) {
        text_before_transitive(a, b, c);
    }
    if text_before(a, b) && text_before(b, a) {
        text_before_transitive(a, b, a);
    }
    if text_before(c, b) && text_before(b, a) {
        text_before_transitive(c, b, a);
    }
    if text_before(a, c) && text_before(c, a) {
        text_before_transitive(a, c, a);
    }
}

/// Inserting into sorted entries leaves them sorted, and adds nothing else.
proof fn insert_sorted_keeps(field: SortField, dir: SortDir, cs: Seq<EntryView>, e: EntryView)
    requires
        forall|i: int, j: int| 0 <= i < j < cs.len() ==> !sorts_before(field, dir, cs[j], cs[i]),
    ensures
        ({
            let new = insert_sorted(field, dir, cs, e);
            &&& new.to_multiset() == cs.to_multiset().insert(e)
            &&& forall|i: int, j: int|
                0 <= i < j < new.len() ==> !sorts_before(field, dir, new[j], new[i])
        }),
    decreases cs.len(),
{
    broadcast use vstd::seq_lib::group_to_multiset_ensures;

    let new = insert_sorted(field, dir, cs, e);
    if cs.len() == 0 || !sorts_before(field, dir, e, cs.last()) {
        assert forall|i: int, j: int| 0 <= i < j < new.len() implies !sorts_before(
            field,
            dir,
            new[j],
            new[i],
        ) by {
            if j == cs.len() && i < cs.len() - 1 {
                assert(!sorts_before(field, dir, cs[cs.len() - 1], cs[i]));
                lower_in_weak_order(field, e, cs.last(), cs[i]);
                lower_in_weak_order(field, cs[i], cs.last(), e);
            }
        }
    } else {
        let front = cs.drop_last();
        let last = cs.last();
        let inner = insert_sorted(field, dir, front, e);
        insert_sorted_keeps(field, dir, front, e);
        assert(cs =~= front.push(last));
        assert(new.to_multiset() =~= cs.to_multiset().insert(e));
        assert forall|i: int| 0 <= i < inner.len() implies !sorts_before(
            field,
            dir,
            last,
            #[trigger] inner[i],
        ) by {
            assert(inner.contains(inner[i]));
            assert(inner.to_multiset().contains(inner[i]));
            if inner[i] == e {
                lower_in_weak_order(field, e, last, e);
                lower_in_weak_order(field, last, e, last);
            } else {
                assert(front.to_multiset().contains(inner[i]));
                assert(front.contains(inner[i]));
                let k = choose|k: int| 0 <= k < front.len() && front[k] == inner[i];
                assert(!sorts_before(field, dir, cs[cs.len() - 1], cs[k]));
            }
        }
        assert forall|i: int, j: int| 0 <= i < j < new.len() implies !sorts_before(
            field,
            dir,
            new[j],
            new[i],
        ) by {
            assert(new[i] == inner[i]);
            if j < inner.len() {
                assert(new[j] == inner[j]);
            }
        }
    }
}

/// Sorting keeps every entry as often as it was there, and no entry stands behind one that it is to
/// stand before.
pub proof fn sorting_orders_and_keeps(field: SortField, dir: SortDir, cs: Seq<EntryView>)
    ensures
        sorted(field, dir, cs).to_multiset() == cs.to_multiset(),
        forall|i: int, j: int|
            0 <= i < j < sorted(field, dir, cs).len() ==> !sorts_before(
                field,
                dir,
                sorted(field, dir, cs)[j],
                sorted(field, dir, cs)[i],
            ),
    decreases cs.len(),
{
    broadcast use vstd::seq_lib::group_to_multiset_ensures;

    if cs.len() > 0 {
        let front = cs.drop_last();
        sorting_orders_and_keeps(field, dir, front);
        insert_sorted_keeps(field, dir, sorted(field, dir, front), cs.last());
        assert(cs =~= front.push(cs.last()));
    } else {
        assert(cs =~= Seq::<EntryView>::empty());
    }
}

/// Whether an entry comes before another in a column.
fn is_lower(field: SortField, a: &EntryMeta, b: &EntryMeta) -> (r: bool)
    ensures
        r == lower_in(field, a@, b@),
{
    match field {
        SortField::Name => text_is_before(a.path.as_str(), b.path.as_str()),
        SortField::Size => match (a.uncompressed_size, b.uncompressed_size) {
            (None, Some(_)) => true,
            (Some(x), Some(y)) => x < y,
            _ => false,
        },
        SortField::Type => text_is_before(kind_label(a.kind), kind_label(b.kind)),
        SortField::Modified => match (a.mtime, b.mtime) {
            (None, Some(_)) => true,
            (Some(x), Some(y)) => comes_before(x, y),
            _ => false,
        },
    }
}

/// Where `insert_sorted` puts an entry.
proof fn insert_sorted_at(
    field: SortField,
    dir: SortDir,
    cs: Seq<EntryView>,
    e: EntryView,
    at: int,
)
    requires
        0 <= at <= cs.len(),
        at > 0 ==> !sorts_before(field, dir, e, cs[at - 1]),
        forall|i: int| at <= i < cs.len() ==> sorts_before(field, dir, e, #[trigger] cs[i]),
    ensures
        insert_sorted(field, dir, cs, e) == cs.insert(at, e),
    decreases cs.len(),
{
    if at == cs.len() {
        assert(cs.insert(at, e) =~= cs.push(e));
    } else {
        let front = cs.drop_last();
        assert forall|i: int| at <= i < front.len() implies sorts_before(
            field,
            dir,
            e,
            #[trigger] front[i],
        ) by {
            assert(front[i] == cs[i]);
        }
        insert_sorted_at(field, dir, front, e, at);
        assert(sorts_before(field, dir, e, cs[cs.len() - 1]));
        assert(cs.insert(at, e) =~= front.insert(at, e).push(cs.last()));
    }
}

/// Sort entries by a column, keeping the order of those that are equal in it.
pub fn sort_children(entries: &[EntryMeta], field: SortField, dir: SortDir) -> (r: Vec<EntryMeta>)
    ensures
        views(r@) == sorted(field, dir, views(entries@)),
{
    let ghost cs = views(entries@);
    let mut out: Vec<EntryMeta> = Vec::new();
    let mut i: usize = 0;
    assert(views(out@) =~= sorted(field, dir, cs.take(0)));
    while i < entries.len()
        invariant
            i <= entries@.len(),
            cs == views(entries@),
            views(out@) == sorted(field, dir, cs.take(i as int)),
        decreases entries@.len() - i,
    {
        assert(cs.take(i + 1).drop_last() =~= cs.take(i as int));
        assert(cs.take(i + 1).last() == entries@[i as int]@);
        let e = entries[i].clone();
        let ghost vs = views(out@);
        let mut at: usize = out.len();
        let mut searching = true;
        while searching && at > 0
            invariant
                at <= out@.len(),
                vs == views(out@),
                forall|j: int| at <= j < vs.len() ==> sorts_before(field, dir, e@, #[trigger] vs[j]),
                !searching ==> at > 0 && !sorts_before(field, dir, e@, vs[at - 1]),
            decreases at + if searching {
                1int
            } else {
                0
            },
        {
            assert(vs[at - 1] == out@[at - 1]@);
            let before = match dir {
                SortDir::Asc => is_lower(field, &e, &out[at - 1]),
                SortDir::Desc => is_lower(field, &out[at - 1], &e),
            };
            if before {
                at -= 1;
            } else {
                searching = false;
            }
        }
        proof {
            insert_sorted_at(field, dir, vs, e@, at as int);
        }
        out.insert(at, e);
        assert(views(out@) =~= vs.insert(at as int, e@));
        i += 1;
    }
    assert(cs.take(i as int) =~= cs);
    out
}

} // verus!
