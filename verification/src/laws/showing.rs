//! What the window shows, and which settings are remembered.

use vstd::prelude::*;

use crate::config::{
    default_config, overwrite_tagged, encoding_tagged, restored, with_recent, ConfigView,
    PersistedView,
};
use crate::controller::{total_size, EventView, ProgressView};
use crate::encoding::FilenameEncoding;
use crate::events::{EffectView, StateView};
use crate::extract::{default_limits, OverwritePolicy};
use crate::file_path::is_same_path;
use crate::icons::Icon;
use crate::laws::naming::{number_in, suffix_of_sum, decimals_stand_for_their_number};
use crate::model::{EntryView, NodeKind, Timestamp};
use crate::text::{after_last, ascii_lower, decimal, text_before};
use crate::timestamp::Civil;
use crate::view::{chosen, compressed_size, percent, summary};
use crate::viewmodel::{
    bytes_label, civil_label, half_even, icon_of, matching, name_matches, nearest_double, next_sort,
    padded, sorted, sorting_orders_and_keeps, unit_for, unit_name, unit_size, zeros, SortDir,
    SortField,
};

verus! {

/// What an event changes in the view, and what it leaves.
pub proof fn events_change_what_they_are_about(s: StateView, event: EventView)
    ensures
        ({
            let (t, effect) = s.after(event);
            // What the user has open and has set by hand only changes with an archive or a setting.
            &&& (!(event is Opened) ==> t.selection == s.selection && t.expanded == s.expanded
                && t.search_query == s.search_query && t.has_archive == s.has_archive
                && t.archive_name == s.archive_name && t.banner_dismissed == s.banner_dismissed)
            &&& (!(event is Opened) && !(event is Navigated) ==> t.entries == s.entries && t.focus
                == s.focus && t.breadcrumb == s.breadcrumb)
            &&& (!(event is ConfigChanged) ==> t.config == s.config)
            &&& (!(event is Opened) && !(event is PasswordRequired) && !(event is WrongPassword)
                ==> t.password_prompt == s.password_prompt)
            &&& (!(event is Progress) && !(event is Done) && !(event is Cancelled) ==> t.progress
                == s.progress)
            &&& t.settings_open == s.settings_open
            &&& t.about_open == s.about_open
            &&& t.drag_over == s.drag_over
            // What is to be done outside goes with these events alone.
            &&& (effect is SetTitle <==> event is Opened)
            &&& (effect is AskOverwrite <==> event is AskOverwrite)
            &&& (effect is OpenPreview <==> event is PreviewReady)
            &&& (effect is SaveConfig <==> event is ConfigChanged)
        }),
{
}

/// Every event shows what it tells.
pub proof fn events_show_what_they_tell(s: StateView, event: EventView)
    ensures
        ({
            let (t, effect) = s.after(event);
            match event {
                EventView::Opened { name, entries } => t.archive_name == name && t.entries == entries
                    && t.has_archive && name.is_prefix_of(effect->SetTitle_0),
                EventView::Navigated { breadcrumb, focus, entries } => t.breadcrumb == breadcrumb
                    && t.focus == focus && t.entries == entries && t.status.len() == 0,
                EventView::PasswordRequired { path } => t.password_prompt is Some
                    && t.password_prompt->0.path == path && t.password_prompt->0.error is None,
                EventView::WrongPassword { path } => t.password_prompt is Some
                    && t.password_prompt->0.path == path && t.password_prompt->0.error is Some,
                EventView::Progress(p) => t.progress == Some(p) && t.status == s.status,
                EventView::AskOverwrite { path, dest } => effect == (EffectView::AskOverwrite {
                    path,
                    dest,
                }),
                EventView::PreviewReady { temp_path } => effect == (EffectView::OpenPreview {
                    temp_path,
                }),
                EventView::Done(_) => t.progress is None,
                EventView::Cancelled => t.progress is None,
                EventView::Unsupported(m) => m.is_suffix_of(t.status),
                EventView::Error(m) => m.is_suffix_of(t.status),
                EventView::ConfigChanged(c) => t.config == c,
            }
        }),
{
    match event {
        EventView::Opened { name, entries } => {
            let title = name + " — hajizip"@;
            assert(title.subrange(0, name.len() as int) =~= name);
        },
        EventView::Unsupported(m) => suffix_of_sum("Not supported yet: "@, m),
        EventView::Error(m) => suffix_of_sum("Error: "@, m),
        _ => {},
    }
}

/// Stored settings are restored as they are; an unknown policy is taken as asking, an unknown
/// encoding as automatic, and an empty path as none.
pub proof fn stored_settings_are_restored(p: PersistedView)
    ensures
        ({
            let c = restored(p);
            &&& c.preserve_mtime == p.preserve_mtime
            &&& c.safety_limits == p.safety_limits
            &&& c.nested_buffer_threshold == p.nested_buffer_threshold
            &&& (overwrite_tagged(p.overwrite_policy) is Some ==> c.overwrite_policy
                == overwrite_tagged(p.overwrite_policy)->0)
            &&& (overwrite_tagged(p.overwrite_policy) is None ==> c.overwrite_policy
                == OverwritePolicy::Ask)
            &&& (encoding_tagged(p.filename_encoding) is Some ==> c.filename_encoding
                == encoding_tagged(p.filename_encoding)->0)
            &&& (encoding_tagged(p.filename_encoding) is None ==> c.filename_encoding
                == FilenameEncoding::Auto)
            &&& (c.default_extract_dir is Some <==> p.default_extract_dir is Some
                && p.default_extract_dir->0.len() > 0)
            &&& (c.default_extract_dir is Some ==> c.default_extract_dir == p.default_extract_dir)
            &&& forall|s: Seq<char>| #[trigger]
                c.recent_files.contains(s) <==> s.len() > 0 && p.recent_files.contains(s)
        }),
{
    nonempty_members(p.recent_files);
}

/// What is not empty is kept.
proof fn nonempty_members(ss: Seq<Seq<char>>)
    ensures
        forall|s: Seq<char>| #[trigger]
            crate::config::nonempty(ss).contains(s) <==> s.len() > 0 && ss.contains(s),
    decreases ss.len(),
{
    if ss.len() > 0 {
        let front = ss.drop_last();
        nonempty_members(front);
        let (some, all) = (crate::config::nonempty(front), crate::config::nonempty(ss));
        assert forall|s: Seq<char>| #[trigger] all.contains(s) <==> s.len() > 0 && ss.contains(
            s,
        ) by {
            if all.contains(s) {
                let i = choose|i: int| 0 <= i < all.len() && all[i] == s;
                if i < some.len() {
                    assert(some[i] == s);
                    assert(some.contains(s));
                    let j = choose|j: int| 0 <= j < front.len() && front[j] == s;
                    assert(ss[j] == s);
                } else {
                    assert(ss[ss.len() - 1] == s);
                }
            }
            if s.len() > 0 && ss.contains(s) {
                let j = choose|j: int| 0 <= j < ss.len() && ss[j] == s;
                if j < front.len() {
                    assert(front[j] == s);
                    assert(some.contains(s));
                    let i = choose|i: int| 0 <= i < some.len() && some[i] == s;
                    assert(all[i] == s);
                } else {
                    assert(all[all.len() - 1] == s);
                }
            }
        }
    } else {
        assert(crate::config::nonempty(ss).len() == 0);
    }
}

/// Without stored settings: existing files are asked about, times are preserved, names are decoded
/// automatically, at most 16 GiB and a million entries are extracted, archives are entered eight
/// deep, and there are no recent files.
pub proof fn default_settings_are_safe()
    ensures
        ({
            let c = default_config();
            &&& c.overwrite_policy == OverwritePolicy::Ask
            &&& c.preserve_mtime
            &&& c.filename_encoding == FilenameEncoding::Auto
            &&& c.safety_limits.max_total_bytes == 16 * 1024 * 1024 * 1024
            &&& c.safety_limits.max_entries == 1_000_000
            &&& c.safety_limits.max_depth == 8
            &&& c.safety_limits == default_limits()
            &&& c.nested_buffer_threshold == 64 * 1024 * 1024
            &&& c.default_extract_dir is None
            &&& c.recent_files.len() == 0
        }),
{
}

/// A file that is opened comes first among the recent ones, and the others follow in their order,
/// up to ten in all: all of them where it is new, all but itself where it was there.
pub proof fn recent_files_keep_their_order(ss: Seq<Seq<char>>, path: Seq<char>, k: int)
    requires
        ss.len() <= 10,
        0 <= k <= ss.len(),
        forall|i: int| 0 <= i < ss.len() && i != k ==> !is_same_path(#[trigger] ss[i], path),
        k < ss.len() ==> is_same_path(ss[k], path),
    ensures
        k < ss.len() ==> with_recent(ss, path) == seq![path] + ss.take(k) + ss.skip(k + 1),
        k == ss.len() && ss.len() < 10 ==> with_recent(ss, path) == seq![path] + ss,
        k == ss.len() && ss.len() == 10 ==> with_recent(ss, path) == seq![path] + ss.take(9),
{
    if k < ss.len() {
        without_one(ss, path, k);
        assert(seq![path] + (ss.take(k) + ss.skip(k + 1)) =~= seq![path] + ss.take(k) + ss.skip(
            k + 1,
        ));
    } else {
        without_other(ss, path);
        let all = seq![path] + ss;
        if ss.len() == 10 {
            assert(all.take(10) =~= seq![path] + ss.take(9));
        }
    }
}

/// Leaving out what is not there.
proof fn without_other(ss: Seq<Seq<char>>, path: Seq<char>)
    requires
        forall|i: int| 0 <= i < ss.len() ==> !is_same_path(#[trigger] ss[i], path),
    ensures
        crate::config::without(ss, path) == ss,
    decreases ss.len(),
{
    if ss.len() > 0 {
        let front = ss.drop_last();
        assert forall|i: int| 0 <= i < front.len() implies !is_same_path(#[trigger] front[i], path) by {
            assert(front[i] == ss[i]);
        }
        without_other(front, path);
        assert(!is_same_path(ss[ss.len() - 1], path));
        assert(front.push(ss.last()) =~= ss);
    } else {
        assert(ss =~= Seq::<Seq<char>>::empty());
    }
}

/// Leaving out one.
proof fn without_one(ss: Seq<Seq<char>>, path: Seq<char>, k: int)
    requires
        0 <= k < ss.len(),
        forall|i: int| 0 <= i < ss.len() && i != k ==> !is_same_path(#[trigger] ss[i], path),
        is_same_path(ss[k], path),
    ensures
        crate::config::without(ss, path) == ss.take(k) + ss.skip(k + 1),
    decreases ss.len(),
{
    let front = ss.drop_last();
    assert forall|i: int| 0 <= i < front.len() implies front[i] == #[trigger] ss[i] by {}
    if k == ss.len() - 1 {
        assert forall|i: int| 0 <= i < front.len() implies !is_same_path(#[trigger] front[i], path) by {
            assert(front[i] == ss[i]);
        }
        without_other(front, path);
        assert(ss.take(k) + ss.skip(k + 1) =~= front);
    } else {
        assert forall|i: int| 0 <= i < front.len() && i != k implies !is_same_path(
            #[trigger] front[i],
            path,
        ) by {
            assert(front[i] == ss[i]);
        }
        without_one(front, path, k);
        assert(!is_same_path(ss[ss.len() - 1], path));
        assert((front.take(k) + front.skip(k + 1)).push(ss.last()) =~= ss.take(k) + ss.skip(k + 1));
    }
}

/// What is counted as selected are the entries at the selected paths, each once and in order.
pub proof fn selected_entries_are_counted(a: Seq<EntryView>, e: EntryView, selection: Set<Seq<char>>)
    ensures
        chosen(Seq::<EntryView>::empty(), selection).len() == 0,
        selection.contains(e.path) ==> chosen(a.push(e), selection) == chosen(a, selection).push(e),
        !selection.contains(e.path) ==> chosen(a.push(e), selection) == chosen(a, selection),
{
    assert(a.push(e).drop_last() =~= a);
}

/// Compressed sizes add up, as far as they are known and the sum can be represented.
pub proof fn compressed_sizes_add_up(es: Seq<EntryView>, e: EntryView)
    ensures
        compressed_size(Seq::<EntryView>::empty()) == 0,
        e.compressed_size is None ==> compressed_size(es.push(e)) == compressed_size(es),
        e.compressed_size is Some && compressed_size(es) + e.compressed_size->0 <= u64::MAX
            ==> compressed_size(es.push(e)) == compressed_size(es) + e.compressed_size->0,
        e.compressed_size is Some && compressed_size(es) + e.compressed_size->0 > u64::MAX
            ==> compressed_size(es.push(e)) == u64::MAX,
{
    assert(es.push(e).drop_last() =~= es);
}

/// The summary of an archive begins with the number of its entries; without an archive there is
/// none.
pub proof fn summaries_count_entries(es: Seq<EntryView>)
    ensures
        summary(false, es).len() == 0,
        decimal(es.len()).is_prefix_of(summary(true, es)),
{
    let d = decimal(es.len());
    let s = summary(true, es);
    assert(s.subrange(0, d.len() as int) =~= d);
}

/// Progress is the share of the bytes that have been written, in whole percent: it is all when all
/// are, and nothing while their number is not known or none.
pub proof fn progress_is_the_share_done(p: ProgressView)
    ensures
        p.bytes_total is None ==> percent(p) == 0,
        p.bytes_total is Some && p.bytes_total->0 == 0 ==> percent(p) == 0,
        p.bytes_total is Some && p.bytes_total->0 > 0 && p.bytes_done >= p.bytes_total->0 ==> percent(
            p,
        ) == 100,
        p.bytes_total is Some && p.bytes_done < p.bytes_total->0 ==> percent(p) * p.bytes_total->0
            <= p.bytes_done * 100 < (percent(p) + 1) * p.bytes_total->0,
{
    if p.bytes_total is Some && p.bytes_done < p.bytes_total->0 {
        let (a, b) = (p.bytes_done as int * 100, p.bytes_total->0 as int);
        assert((a / b) * b <= a < (a / b + 1) * b) by (nonlinear_arith)
            requires
                b > 0,
                a >= 0,
        ;
    }
}

/// A search finds a name if somewhere in it the characters are those of the query, whatever the case
/// of the letters from A to Z. Only the last component of a path is searched.
pub proof fn searching_looks_into_names(path: Seq<char>, query: Seq<char>)
    ensures
        name_matches(path, query) <==> exists|i: int|
            0 <= i && i + query.len() <= after_last(path, '/').len() && #[trigger] agrees_at(
                after_last(path, '/'),
                query,
                i,
            ),
        query.len() == 0 ==> name_matches(path, query),
{
    let name = after_last(path, '/');
    let (low, want) = (ascii_lower(name), ascii_lower(query));
    if name_matches(path, query) {
        let i = choose|i: int| crate::viewmodel::occurs_at(want, low, i);
        assert(agrees_at(name, query, i)) by {
            assert forall|k: int| 0 <= k < query.len() implies crate::text::ascii_lower_char(
                #[trigger] name[i + k],
            ) == crate::text::ascii_lower_char(query[k]) by {
                assert(low.subrange(i, i + want.len())[k] == want[k]);
            }
        }
    }
    if exists|i: int|
        0 <= i && i + query.len() <= name.len() && #[trigger] agrees_at(name, query, i) {
        let i = choose|i: int|
            0 <= i && i + query.len() <= name.len() && #[trigger] agrees_at(name, query, i);
        assert(low.subrange(i, i + want.len()) =~= want) by {
            assert forall|k: int| 0 <= k < query.len() implies low[i + k] == want[k] by {
                assert(crate::text::ascii_lower_char(name[i + k])
                    == crate::text::ascii_lower_char(query[k]));
            }
        }
        assert(crate::viewmodel::occurs_at(want, low, i));
    }
    if query.len() == 0 {
        assert(low.subrange(0, 0) =~= want);
        assert(crate::viewmodel::occurs_at(want, low, 0));
    }
}

/// Whether a text agrees with another from a position on, but for case.
pub open spec fn agrees_at(name: Seq<char>, query: Seq<char>, i: int) -> bool {
    forall|k: int|
        0 <= k < query.len() ==> crate::text::ascii_lower_char(#[trigger] name[i + k])
            == crate::text::ascii_lower_char(query[k])
}

/// A search shows the entries whose name it finds, in their order, and no others.
pub proof fn searches_show_what_they_find(cs: Seq<EntryView>, e: EntryView, query: Seq<char>)
    ensures
        matching(Seq::<EntryView>::empty(), query).len() == 0,
        name_matches(e.path, query) ==> matching(cs.push(e), query) == matching(cs, query).push(e),
        !name_matches(e.path, query) ==> matching(cs.push(e), query) == matching(cs, query),
        query.len() == 0 ==> matching(cs, query) == cs,
    decreases cs.len(),
{
    assert(cs.push(e).drop_last() =~= cs);
    if query.len() == 0 {
        if cs.len() > 0 {
            searches_show_what_they_find(cs.drop_last(), e, query);
            searching_looks_into_names(cs.last().path, query);
            assert(cs.drop_last().push(cs.last()) =~= cs);
        } else {
            assert(cs =~= Seq::<EntryView>::empty());
        }
    }
}

/// A click on a column sorts by it, upwards; a second one downwards; a third one not at all. A click
/// on another column begins with that one.
pub proof fn clicks_sort_by_their_column(f: SortField, g: SortField, dir: SortDir)
    ensures
        next_sort(None, f) == Some((f, SortDir::Asc)),
        next_sort(Some((f, SortDir::Asc)), f) == Some((f, SortDir::Desc)),
        next_sort(Some((f, SortDir::Desc)), f) is None,
        f != g ==> next_sort(Some((f, dir)), g) == Some((g, SortDir::Asc)),
{
}

/// Whether a time is not after another.
pub open spec fn not_after(a: Timestamp, b: Timestamp) -> bool {
    a.secs < b.secs || (a.secs == b.secs && a.nanos <= b.nanos)
}

/// A sorted list is ordered by its column: sizes and times upwards or downwards, what is not known
/// before everything that is, or behind it; names and kinds in the order of their text. Nothing is
/// lost and nothing is added.
pub proof fn sorted_lists_are_in_order(
    field: SortField,
    dir: SortDir,
    cs: Seq<EntryView>,
    i: int,
    j: int,
)
    requires
        0 <= i < j < sorted(field, dir, cs).len(),
    ensures
        sorted(field, dir, cs).to_multiset() == cs.to_multiset(),
        ({
            // Upwards, the earlier one is the lower one; downwards, the later one.
            let (a, b) = if dir == SortDir::Asc {
                (sorted(field, dir, cs)[i], sorted(field, dir, cs)[j])
            } else {
                (sorted(field, dir, cs)[j], sorted(field, dir, cs)[i])
            };
            match field {
                SortField::Name => a.path == b.path || text_before(a.path, b.path),
                SortField::Size => a.uncompressed_size is None || (b.uncompressed_size is Some
                    && a.uncompressed_size->0 <= b.uncompressed_size->0),
                SortField::Modified => a.mtime is None || (b.mtime is Some && not_after(
                    a.mtime->0,
                    b.mtime->0,
                )),
                SortField::Type => a.kind == b.kind || text_before(
                    crate::viewmodel::kind_name(a.kind),
                    crate::viewmodel::kind_name(b.kind),
                ),
            }
        }),
{
    sorting_orders_and_keeps(field, dir, cs);
    let (x, y) = (sorted(field, dir, cs)[i], sorted(field, dir, cs)[j]);
    assert(!crate::viewmodel::sorts_before(field, dir, y, x));
    crate::text::text_before_total(x.path, y.path);
    crate::text::text_before_total(
        crate::viewmodel::kind_name(x.kind),
        crate::viewmodel::kind_name(y.kind),
    );
    kinds_have_names(x.kind, y.kind);
}

/// Different kinds have different names.
pub proof fn kinds_have_names(a: NodeKind, b: NodeKind)
    ensures
        crate::viewmodel::kind_name(a) == crate::viewmodel::kind_name(b) ==> a == b,
{
    reveal_strlit("File");
    reveal_strlit("Folder");
    reveal_strlit("Archive");
    reveal_strlit("Symlink");
    assert("File"@.len() == 4 && "Folder"@.len() == 6 && "Archive"@.len() == 7 && "Symlink"@.len()
        == 7);
    assert("Archive"@[0] == 'A' && "Symlink"@[0] == 'S');
}

/// The icon of an entry goes by its kind, and that of a plain file by its extension, in whatever
/// case it is written.
pub proof fn icons_go_by_kind_and_extension(e: EntryView, f: EntryView)
    ensures
        e.kind == NodeKind::Dir ==> icon_of(e).0 == Icon::Folder,
        e.kind == NodeKind::Archive ==> icon_of(e).0 == Icon::FileArchive,
        e.kind == NodeKind::Symlink ==> icon_of(e).0 == Icon::File,
        e.kind == NodeKind::File && f.kind == NodeKind::File && ascii_lower(
            after_last(e.path, '.'),
        ) == ascii_lower(after_last(f.path, '.')) ==> icon_of(e) == icon_of(f),
        e.kind == NodeKind::File ==> icon_of(e).0 != Icon::Folder,
{
}

/// The size of each unit is 1024 times that of the one before.
pub proof fn units_grow_by_1024()
    ensures
        unit_size(0) == 1,
        unit_size(1) == 1024,
        unit_size(2) == 1024 * 1024,
        unit_size(3) == 1024 * 1024 * 1024,
        unit_size(4) == 1024 * 1024 * 1024 * 1024,
{
    reveal_with_fuel(unit_size, 5);
}

/// The unit of a byte count is the largest that it fills, up to the fifth.
proof fn unit_is_largest(value: nat, from: nat)
    requires
        from <= 4,
        from == 0 || value >= unit_size(from),
    ensures
        ({
            let u = unit_for(value, from);
            &&& from <= u <= 4
            &&& (u > 0 ==> value >= unit_size(u))
            &&& (u < 4 ==> value < unit_size(u + 1))
        }),
    decreases 4 - from,
{
    if from < 4 && value >= unit_size(from + 1) {
        unit_is_largest(value, from + 1);
    }
}

/// A byte count below 2^53 is shown in the largest unit that it fills, in whole bytes or rounded to
/// the nearest tenth of the unit.
pub proof fn byte_labels_are_near(bytes: nat) -> (r: (nat, nat))
    requires
        bytes < 9_007_199_254_740_992,
    ensures
        ({
            let (unit, tenths) = r;
            &&& unit <= 4
            &&& (unit > 0 ==> bytes >= unit_size(unit))
            &&& (unit < 4 ==> bytes < unit_size(unit + 1))
            &&& (unit == 0 ==> bytes_label(bytes) == decimal(bytes) + " B"@)
            &&& (unit > 0 ==> bytes_label(bytes) == decimal(tenths / 10) + "."@ + decimal(
                tenths % 10,
            ) + " "@ + unit_name(unit))
            &&& (unit > 0 ==> 2 * (tenths * unit_size(unit) - 10 * bytes) <= unit_size(unit))
            &&& (unit > 0 ==> 2 * (10 * bytes - tenths * unit_size(unit)) <= unit_size(unit))
        }),
{
    let value = nearest_double(bytes, 1);
    assert(half_even(bytes, 1) == bytes) by {
        assert(bytes / 1 == bytes && bytes % 1 == 0);
    }
    assert(value == bytes);
    unit_is_largest(bytes, 0);
    units_grow_by_1024();
    let unit = unit_for(bytes, 0);
    let size = unit_size(unit);
    let tenths = half_even(10 * bytes, size);
    if unit == 0 {
        reveal_strlit(" ");
        reveal_strlit("B");
        reveal_strlit(" B");
        assert(" "@ + "B"@ =~= " B"@);
        assert(decimal(bytes) + " "@ + "B"@ =~= decimal(bytes) + " B"@);
    } else {
        assert(size > 0);
        let a = 10 * bytes;
        let q = a / size;
        let rest = a % size;
        assert(a == q * size + rest && 0 <= rest < size) by (nonlinear_arith)
            requires
                size > 0,
                q == a / size,
                rest == a % size,
        ;
        assert((q + 1) * size == q * size + size) by (nonlinear_arith);
    }
    (unit, tenths)
}

/// Zeros before a number do not change it.
proof fn zeros_add_nothing(n: nat, s: Seq<char>)
    ensures
        zeros(n).len() == n,
        number_in(zeros(n) + s) == number_in(s),
        forall|i: int| 0 <= i < n ==> #[trigger] zeros(n)[i] == '0',
    decreases n, s.len(),
{
    if s.len() > 0 {
        zeros_add_nothing(n, s.drop_last());
        assert((zeros(n) + s).drop_last() =~= zeros(n) + s.drop_last());
    } else if n > 0 {
        let less = (n - 1) as nat;
        zeros_add_nothing(less, s);
        assert(zeros(n) + s =~= zeros(n));
        assert(zeros(less) + s =~= zeros(less));
        assert(zeros(n).drop_last() =~= zeros(less));
    } else {
        assert(zeros(n) + s =~= s);
    }
}

/// A number below a power of ten has no more digits than that has zeros.
proof fn small_numbers_are_short(n: nat)
    ensures
        n < 10 ==> decimal(n).len() == 1,
        n < 100 ==> decimal(n).len() <= 2,
        n < 1000 ==> decimal(n).len() <= 3,
        n < 10_000 ==> decimal(n).len() <= 4,
{
    reveal_with_fuel(decimal, 5);
}

/// A padded number has the asked number of digits, and is that number.
proof fn padded_numbers_stand_for_themselves(n: nat, width: nat)
    requires
        decimal(n).len() <= width,
    ensures
        padded(n, width).len() == width,
        number_in(padded(n, width)) == n,
{
    decimals_stand_for_their_number(n);
    let gap = (width - decimal(n).len()) as nat;
    zeros_add_nothing(gap, decimal(n));
}

/// A time is shown as year, month, day, hour and minute, with four digits for the year and two for
/// each of the others, in this order and with these signs between them: `2026-01-08 11:04`.
pub proof fn time_labels_show_the_time(at: Civil)
    requires
        at.exists_in_calendar(),
        0 <= at.year <= 9999,
    ensures
        ({
            let s = civil_label(at);
            &&& s.len() == 16
            &&& number_in(s.subrange(0, 4)) == at.year
            &&& s[4] == '-'
            &&& number_in(s.subrange(5, 7)) == at.month
            &&& s[7] == '-'
            &&& number_in(s.subrange(8, 10)) == at.day
            &&& s[10] == ' '
            &&& number_in(s.subrange(11, 13)) == at.hour
            &&& s[13] == ':'
            &&& number_in(s.subrange(14, 16)) == at.minute
        }),
{
    small_numbers_are_short(at.year as nat);
    small_numbers_are_short(at.month as nat);
    small_numbers_are_short(at.day as nat);
    small_numbers_are_short(at.hour as nat);
    small_numbers_are_short(at.minute as nat);
    padded_numbers_stand_for_themselves(at.year as nat, 4);
    padded_numbers_stand_for_themselves(at.month as nat, 2);
    padded_numbers_stand_for_themselves(at.day as nat, 2);
    padded_numbers_stand_for_themselves(at.hour as nat, 2);
    padded_numbers_stand_for_themselves(at.minute as nat, 2);
    reveal_strlit("-");
    reveal_strlit(" ");
    reveal_strlit(":");
    let s = civil_label(at);
    assert(s.subrange(0, 4) =~= padded(at.year as nat, 4));
    assert(s.subrange(5, 7) =~= padded(at.month as nat, 2));
    assert(s.subrange(8, 10) =~= padded(at.day as nat, 2));
    assert(s.subrange(11, 13) =~= padded(at.hour as nat, 2));
    assert(s.subrange(14, 16) =~= padded(at.minute as nat, 2));
}

/// Settings are stored under the words that they are known by.
pub proof fn settings_are_stored_by_name(p: OverwritePolicy, e: FilenameEncoding)
    ensures
        crate::config::overwrite_tag(p) == match p {
            OverwritePolicy::Ask => "ask"@,
            OverwritePolicy::Always => "always"@,
            OverwritePolicy::Never => "never"@,
            OverwritePolicy::Newer => "newer"@,
        },
        crate::config::encoding_tag(e) == match e {
            FilenameEncoding::Auto => "auto"@,
            FilenameEncoding::Forced(crate::encoding::Codepage::Utf8) => "utf8"@,
            FilenameEncoding::Forced(crate::encoding::Codepage::Gbk) => "gbk"@,
            FilenameEncoding::Forced(crate::encoding::Codepage::ShiftJis) => "shift-jis"@,
            FilenameEncoding::Forced(crate::encoding::Codepage::Big5) => "big5"@,
            FilenameEncoding::Forced(crate::encoding::Codepage::Cp437) => "cp437"@,
        },
        overwrite_tagged(crate::config::overwrite_tag(p)) == Some(p),
        encoding_tagged(crate::config::encoding_tag(e)) == Some(e),
{
    crate::config::overwrite_tags_round_trip(p);
    crate::config::encoding_tags_round_trip(e);
}

/// The end of an extraction is told with its numbers: extracted entries, bytes, skipped and failed
/// entries, in this order.
pub proof fn reports_are_told_with_their_numbers(
    s: StateView,
    r: crate::extract::ReportView,
    a: Seq<char>,
    b: Seq<char>,
    c: Seq<char>,
    d: Seq<char>,
)
    requires
        r.extracted >= 0,
        r.total_bytes >= 0,
        r.skipped >= 0,
        a == decimal(r.extracted as nat),
        b == decimal(r.total_bytes as nat),
        c == decimal(r.skipped as nat),
        d == decimal(r.failed.len()),
    ensures
        s.after(EventView::Done(r)).0.status == "Extracted "@ + a + " entries ("@ + b
            + " bytes), skipped "@ + c + ", failed "@ + d + "."@,
{
}

/// The summary of a selection is empty where nothing is selected, and else begins with the number of
/// selected entries and ends with their size.
pub proof fn selections_are_summed_up(es: Seq<EntryView>, selection: Set<Seq<char>>)
    ensures
        ({
            let picked = chosen(es, selection);
            let text = crate::view::selection_text_of(es, selection);
            &&& (picked.len() == 0 ==> text.len() == 0)
            &&& (picked.len() > 0 ==> decimal(picked.len()).is_prefix_of(text) && bytes_label(
                total_size(picked) as nat,
            ).is_suffix_of(text))
        }),
{
    let picked = chosen(es, selection);
    if picked.len() > 0 {
        let d = decimal(picked.len());
        let mid = d + " selected · "@;
        let end = bytes_label(total_size(picked) as nat);
        assert((mid + end).subrange(0, d.len() as int) =~= d);
        suffix_of_sum(mid, end);
    }
}

/// The button that extracts says whether everything is extracted, or how many entries.
pub proof fn buttons_say_what_they_extract(n: nat)
    ensures
        crate::view::extract_text(0) == "Extract all"@,
        n > 0 ==> crate::view::extract_text(n) == "Extract ("@ + decimal(n) + " selected)"@,
{
}

/// Whether two entries are equal in a column.
pub open spec fn equal_in(field: SortField, a: EntryView, b: EntryView) -> bool {
    match field {
        SortField::Name => a.path == b.path,
        SortField::Size => a.uncompressed_size == b.uncompressed_size,
        SortField::Modified => a.mtime == b.mtime,
        SortField::Type => a.kind == b.kind,
    }
}

/// The entries that are equal to one in a column, in order.
pub open spec fn equals_among(field: SortField, cs: Seq<EntryView>, x: EntryView) -> Seq<EntryView>
    decreases cs.len(),
{
    if cs.len() == 0 {
        Seq::empty()
    } else if equal_in(field, cs.last(), x) {
        equals_among(field, cs.drop_last(), x).push(cs.last())
    } else {
        equals_among(field, cs.drop_last(), x)
    }
}

/// Entries are equal in a column exactly if neither comes before the other.
proof fn equal_means_neither_before(field: SortField, a: EntryView, b: EntryView)
    ensures
        equal_in(field, a, b) <==> !crate::viewmodel::lower_in(field, a, b)
            && !crate::viewmodel::lower_in(field, b, a),
{
    crate::text::text_before_total(a.path, b.path);
    crate::text::text_before_irreflexive(a.path);
    crate::text::text_before_total(
        crate::viewmodel::kind_name(a.kind),
        crate::viewmodel::kind_name(b.kind),
    );
    crate::text::text_before_irreflexive(crate::viewmodel::kind_name(a.kind));
    kinds_have_names(a.kind, b.kind);
}

/// Sorting leaves entries that are equal in the column in the order in which they stood.
pub proof fn sorting_keeps_equals_in_order(
    field: SortField,
    dir: SortDir,
    cs: Seq<EntryView>,
    x: EntryView,
)
    ensures
        equals_among(field, sorted(field, dir, cs), x) == equals_among(field, cs, x),
    decreases cs.len(),
{
    if cs.len() > 0 {
        let front = cs.drop_last();
        sorting_keeps_equals_in_order(field, dir, front, x);
        inserting_keeps_equals(field, dir, sorted(field, dir, front), cs.last(), x);
    }
}

/// Inserting an entry puts it behind its equals.
proof fn inserting_keeps_equals(
    field: SortField,
    dir: SortDir,
    cs: Seq<EntryView>,
    e: EntryView,
    x: EntryView,
)
    ensures
        equals_among(field, crate::viewmodel::insert_sorted(field, dir, cs, e), x) == if equal_in(
            field,
            e,
            x,
        ) {
            equals_among(field, cs, x).push(e)
        } else {
            equals_among(field, cs, x)
        },
    decreases cs.len(),
{
    let new = crate::viewmodel::insert_sorted(field, dir, cs, e);
    if cs.len() == 0 || !crate::viewmodel::sorts_before(field, dir, e, cs.last()) {
        assert(new.drop_last() =~= cs);
    } else {
        let front = cs.drop_last();
        inserting_keeps_equals(field, dir, front, e, x);
        assert(new.drop_last() =~= crate::viewmodel::insert_sorted(field, dir, front, e));
        equal_means_neither_before(field, e, cs.last());
    }
}

/// Before anything has been opened, nothing is shown, selected, asked or under way.
pub proof fn first_views_are_empty(c: ConfigView)
    ensures
        ({
            let s = crate::events::initial_state(c);
            &&& s.config == c
            &&& !s.has_archive
            &&& s.entries.len() == 0
            &&& s.selection.len() == 0
            &&& s.expanded.len() == 0
            &&& s.breadcrumb.len() == 0
            &&& s.focus is None
            &&& s.progress is None
            &&& s.password_prompt is None
            &&& s.search_query.len() == 0
            &&& !s.settings_open
            &&& !s.about_open
            &&& !s.drag_over
            &&& !s.banner_dismissed
        }),
{
}

/// Plain files of a known sort have the icon of that sort: archives, programs and sources, images,
/// texts, looked up in this order. Any other has a neutral one.
pub proof fn icons_go_by_sort(e: EntryView, ext: Seq<char>)
    requires
        e.kind == NodeKind::File,
        ext == ascii_lower(after_last(e.path, '.')),
    ensures
        ({
            let a = crate::viewmodel::lists(crate::viewmodel::archive_extensions(), ext);
            let c = crate::viewmodel::lists(crate::viewmodel::code_extensions(), ext);
            let i = crate::viewmodel::lists(crate::viewmodel::image_extensions(), ext);
            let t = crate::viewmodel::lists(crate::viewmodel::text_extensions(), ext);
            &&& (icon_of(e).0 == Icon::FileArchive <==> a)
            &&& (icon_of(e).0 == Icon::FileCode <==> !a && c)
            &&& (icon_of(e).0 == Icon::FileImage <==> !a && !c && i)
            &&& (icon_of(e).0 == Icon::FileText <==> !a && !c && !i && t)
            &&& (icon_of(e).0 == Icon::File <==> !a && !c && !i && !t)
        }),
{
}

/// A row of the file list is marked as selected exactly if it is, and as a directory exactly if it is
/// one.
pub proof fn row_classes_tell_rows_apart(selected: bool, is_dir: bool)
    ensures
        ({
            let class = crate::view::file_row_class(selected, is_dir);
            let base = "file-row"@;
            &&& class == base + (if selected {
                " file-row-selected"@
            } else {
                Seq::empty()
            }) + (if is_dir {
                " file-row-dir"@
            } else {
                Seq::empty()
            })
        }),
{
    reveal_strlit("file-row");
    reveal_strlit("file-row file-row-selected");
    reveal_strlit("file-row file-row-dir");
    reveal_strlit("file-row file-row-selected file-row-dir");
    reveal_strlit(" file-row-selected");
    reveal_strlit(" file-row-dir");
    let none = Seq::<char>::empty();
    assert("file-row"@ + none + none =~= "file-row"@);
    assert("file-row"@ + " file-row-selected"@ + none =~= "file-row file-row-selected"@);
    assert("file-row"@ + none + " file-row-dir"@ =~= "file-row file-row-dir"@);
    assert("file-row"@ + " file-row-selected"@ + " file-row-dir"@
        =~= "file-row file-row-selected file-row-dir"@);
}

/// What is said of a policy is what it does: it asks, replaces, skips, or replaces what is older.
pub proof fn hints_say_what_policies_do(p: OverwritePolicy)
    ensures
        ({
            let hint = crate::view::overwrite_hint_text(p);
            &&& ("Ask before"@.is_prefix_of(hint) <==> p == OverwritePolicy::Ask)
            &&& ("Replace existing"@.is_prefix_of(hint) <==> p == OverwritePolicy::Always)
            &&& ("Skip existing"@.is_prefix_of(hint) <==> p == OverwritePolicy::Never)
            &&& ("Replace only"@.is_prefix_of(hint) <==> p == OverwritePolicy::Newer)
        }),
{
    let hint = crate::view::overwrite_hint_text(p);
    reveal_strlit("Ask before");
    reveal_strlit("Replace existing");
    reveal_strlit("Skip existing");
    reveal_strlit("Replace only");
    reveal_strlit("Ask before replacing each existing file.");
    reveal_strlit("Replace existing files without asking.");
    reveal_strlit("Skip existing files and leave them untouched.");
    reveal_strlit("Replace only when the file in the archive is newer.");
    assert("Ask before"@.len() == 10 && "Replace existing"@.len() == 16 && "Skip existing"@.len()
        == 13 && "Replace only"@.len() == 12);
    assert("Ask before"@[0] == 'A' && "Replace existing"@[8] == 'e' && "Skip existing"@[0] == 'S'
        && "Replace only"@[8] == 'o' && "Replace existing"@[0] == 'R' && "Replace only"@[0] == 'R');
    prefix_at("Ask before"@, hint, 0);
    prefix_at("Replace existing"@, hint, 0);
    prefix_at("Replace existing"@, hint, 8);
    prefix_at("Skip existing"@, hint, 0);
    prefix_at("Replace only"@, hint, 0);
    prefix_at("Replace only"@, hint, 8);
    match p {
        OverwritePolicy::Ask => {
            assert(hint.subrange(0, 10) =~= "Ask before"@);
        },
        OverwritePolicy::Always => {
            assert(hint.subrange(0, 16) =~= "Replace existing"@);
        },
        OverwritePolicy::Never => {
            assert(hint.subrange(0, 13) =~= "Skip existing"@);
        },
        OverwritePolicy::Newer => {
            assert(hint.subrange(0, 12) =~= "Replace only"@);
        },
    }
}

/// A prefix agrees with the text at each of its places.
proof fn prefix_at(p: Seq<char>, s: Seq<char>, i: int)
    requires
        0 <= i < p.len(),
    ensures
        p.is_prefix_of(s) ==> i < s.len() && s[i] == p[i],
{
    if p.is_prefix_of(s) {
        assert(s.subrange(0, p.len() as int)[i] == s[i]);
    }
}

/// The five units by name.
pub proof fn units_have_names()
    ensures
        unit_name(0) == "B"@,
        unit_name(1) == "KB"@,
        unit_name(2) == "MB"@,
        unit_name(3) == "GB"@,
        unit_name(4) == "TB"@,
{
}

} // verus!
