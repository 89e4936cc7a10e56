//! What the rows, labels and summaries of the view say.

use vstd::prelude::*;
use vstd::string::*;

use crate::archive::children::is_child_listing;
use crate::controller::{total_size, Intent, ProgressUpdate, ProgressView};
use crate::encoding::{Codepage, FilenameEncoding};
use crate::extract::{path_texts, OverwritePolicy};
use crate::icons::Icon;
use crate::model::{views, EntryMeta, EntryPath, EntryView, NodeKind};
use crate::text::{after_last, chars_of, concat3, decimal, decimal_text, tail_after};
use crate::viewmodel::{
    bytes_label, children, children_of, file_icon, format_bytes, has_path, icon_of, kind_label,
    kind_name, path_set, size_label, TreeRow,
};

verus! {

/// Whether a path is in a list.
pub open spec fn contains_path(ps: Seq<Seq<char>>, path: Seq<char>) -> bool {
    exists|i: int| 0 <= i < ps.len() && #[trigger] ps[i] == path
}

/// The paths other than `path`, in order.
pub open spec fn without_path(ps: Seq<Seq<char>>, path: Seq<char>) -> Seq<Seq<char>>
    decreases ps.len(),
{
    if ps.len() == 0 {
        Seq::empty()
    } else if ps.last() == path {
        without_path(ps.drop_last(), path)
    } else {
        without_path(ps.drop_last(), path).push(ps.last())
    }
}

/// The list with `path` taken out where it is in it, and put in where it is not.
pub open spec fn toggled(ps: Seq<Seq<char>>, path: Seq<char>) -> Seq<Seq<char>> {
    if contains_path(ps, path) {
        without_path(ps, path)
    } else {
        ps.push(path)
    }
}

/// Toggling a path changes whether it is in the list, and nothing else.
pub proof fn toggling_flips_one_path(ps: Seq<Seq<char>>, path: Seq<char>, other: Seq<char>)
    ensures
        contains_path(toggled(ps, path), path) == !contains_path(ps, path),
        other != path ==> contains_path(toggled(ps, path), other) == contains_path(ps, other),
{
    without_path_members(ps, path, path);
    without_path_members(ps, path, other);
    let all = ps.push(path);
    if !contains_path(ps, path) {
        assert(all[ps.len() as int] == path);
        if contains_path(ps, other) {
            let i = choose|i: int| 0 <= i < ps.len() && #[trigger] ps[i] == other;
            assert(all[i] == other);
        }
        if contains_path(all, other) && other != path {
            let i = choose|i: int| 0 <= i < all.len() && #[trigger] all[i] == other;
            assert(ps[i] == other);
        }
    }
}

/// What is in a list without a path.
proof fn without_path_members(ps: Seq<Seq<char>>, path: Seq<char>, other: Seq<char>)
    ensures
        contains_path(without_path(ps, path), other) <==> contains_path(ps, other) && other != path,
    decreases ps.len(),
{
    if ps.len() > 0 {
        let front = ps.drop_last();
        without_path_members(front, path, other);
        let (some, all) = (without_path(front, path), without_path(ps, path));
        if contains_path(ps, other) {
            let i = choose|i: int| 0 <= i < ps.len() && #[trigger] ps[i] == other;
            if i < front.len() {
                assert(front[i] == other);
            }
        }
        if contains_path(front, other) {
            let i = choose|i: int| 0 <= i < front.len() && #[trigger] front[i] == other;
            assert(ps[i] == other);
        }
        if contains_path(some, other) {
            let i = choose|i: int| 0 <= i < some.len() && #[trigger] some[i] == other;
            assert(all[i] == other);
        }
        if contains_path(all, other) {
            let i = choose|i: int| 0 <= i < all.len() && #[trigger] all[i] == other;
            if i < some.len() {
                assert(some[i] == other);
            } else {
                assert(ps[ps.len() - 1] == other);
            }
        }
        if ps.last() != path {
            assert(all[all.len() - 1] == ps.last());
        }
    }
}

/// Take a path out of a list where it is in it, and put it in where it is not (a click on a row).
pub fn toggle(paths: &mut Vec<EntryPath>, path: &EntryPath)
    ensures
        path_texts(final(paths)@) == toggled(path_texts(old(paths)@), path@),
{
    let ghost ps = path_texts(paths@);
    let mut kept: Vec<EntryPath> = Vec::new();
    let mut found = false;
    let mut i: usize = 0;
    assert(path_texts(kept@) =~= without_path(ps.take(0), path@));
    while i < paths.len()
        invariant
            i <= paths@.len(),
            ps == path_texts(paths@),
            found == contains_path(ps.take(i as int), path@),
            path_texts(kept@) == without_path(ps.take(i as int), path@),
        decreases paths@.len() - i,
    {
        proof {
            let (a, b) = (ps.take(i as int), ps.take(i + 1));
            assert(b.drop_last() =~= a);
            assert(b.last() == paths@[i as int]@);
            if contains_path(a, path@) {
                let j = choose|j: int| 0 <= j < a.len() && #[trigger] a[j] == path@;
                assert(b[j] == path@);
            }
            if contains_path(b, path@) && b.last() != path@ {
                let j = choose|j: int| 0 <= j < b.len() && #[trigger] b[j] == path@;
                assert(a[j] == path@);
            }
            if b.last() == path@ {
                assert(b[i as int] == path@);
            }
        }
        if paths[i].same(path) {
            found = true;
        } else {
            let ghost before = kept@;
            let p = paths[i].clone();
            kept.push(p);
            assert(path_texts(kept@) =~= path_texts(before).push(p@));
        }
        i += 1;
    }
    assert(ps.take(i as int) =~= ps);
    if found {
        *paths = kept;
    } else {
        let ghost before = paths@;
        let p = path.clone();
        paths.push(p);
        assert(path_texts(paths@) =~= path_texts(before).push(p@));
    }
}

/// Display data for one tree row.
#[derive(Debug)]
pub struct RowView {
    pub path: EntryPath,
    pub is_dir: bool,
    /// Indentation in pixels.
    pub indent: usize,
    /// The arrow of a directory: down where it is expanded.
    pub arrow: Option<Icon>,
    pub icon: Icon,
    /// The last component of the path.
    pub name: String,
    pub row_class: &'static str,
}

/// Display data for one tree row: directories are indented and have an arrow.
pub fn tree_row_view(row: &TreeRow, expanded: &[EntryPath]) -> (r: RowView)
    ensures
        r.path@ == row@.entry.path,
        r.is_dir == row.is_dir,
        r.indent == if row.depth * 18 <= usize::MAX {
            row.depth * 18
        } else {
            usize::MAX as int
        },
        r.arrow == if !row.is_dir {
            None
        } else if path_set(expanded@).contains(row@.entry.path) {
            Some(Icon::ChevronDown)
        } else {
            Some(Icon::ChevronRight)
        },
        r.icon == if row.is_dir {
            Icon::Folder
        } else {
            Icon::File
        },
        r.name@ == after_last(row@.entry.path, '/'),
        r.row_class@ == if row.is_dir {
            "tree-row tree-row-dir"@
        } else {
            "tree-row tree-row-file"@
        },
{
    let arrow = if !row.is_dir {
        None
    } else if has_path(expanded, &row.entry.path) {
        Some(Icon::ChevronDown)
    } else {
        Some(Icon::ChevronRight)
    };
    RowView {
        path: row.entry.path.clone(),
        is_dir: row.is_dir,
        indent: if row.depth <= usize::MAX / 18 {
            row.depth * 18
        } else {
            usize::MAX
        },
        arrow,
        icon: if row.is_dir {
            Icon::Folder
        } else {
            Icon::File
        },
        name: tail_after(row.entry.path.as_str(), '/'),
        row_class: if row.is_dir {
            "tree-row tree-row-dir"
        } else {
            "tree-row tree-row-file"
        },
    }
}

/// Display data for one file-list row.
#[derive(Debug)]
pub struct FileRowView {
    pub path: EntryPath,
    /// The last component of the path.
    pub name: String,
    /// Whether the entry is encrypted.
    pub locked: bool,
    pub size: String,
    pub kind: &'static str,
    /// Whether this row is a plain file (double-click previews it).
    pub is_file: bool,
    /// Type icon for the name column plus its tint class.
    pub type_icon: Icon,
    pub type_class: &'static str,
    pub row_class: &'static str,
}

/// The class of a file-list row: selected rows are marked, and directories are set off from files.
pub open spec fn file_row_class(selected: bool, is_dir: bool) -> Seq<char> {
    if selected {
        if is_dir {
            "file-row file-row-selected file-row-dir"@
        } else {
            "file-row file-row-selected"@
        }
    } else if is_dir {
        "file-row file-row-dir"@
    } else {
        "file-row"@
    }
}

/// Display data for one file-list row.
pub fn file_row_view(entry: &EntryMeta, selected: &[EntryPath]) -> (r: FileRowView)
    ensures
        r.path@ == entry@.path,
        r.name@ == after_last(entry@.path, '/'),
        r.locked == entry@.encrypted,
        r.size@ == match entry@.uncompressed_size {
            Some(bytes) => bytes_label(bytes as nat),
            None => "—"@,
        },
        r.kind@ == kind_name(entry@.kind),
        r.is_file == (entry@.kind == NodeKind::File),
        (r.type_icon, r.type_class@) == icon_of(entry@),
        r.row_class@ == file_row_class(
            path_set(selected@).contains(entry@.path),
            entry@.kind == NodeKind::Dir,
        ),
{
    let (type_icon, type_class) = file_icon(entry);
    let is_dir = entry.kind == NodeKind::Dir;
    let row_class = if has_path(selected, &entry.path) {
        if is_dir {
            "file-row file-row-selected file-row-dir"
        } else {
            "file-row file-row-selected"
        }
    } else if is_dir {
        "file-row file-row-dir"
    } else {
        "file-row"
    };
    FileRowView {
        path: entry.path.clone(),
        name: tail_after(entry.path.as_str(), '/'),
        locked: entry.encrypted,
        size: size_label(entry),
        kind: kind_label(entry.kind),
        is_file: entry.kind == NodeKind::File,
        type_icon,
        type_class,
        row_class,
    }
}

/// What a double-click on a file-list row intends: a plain file is previewed, anything else is
/// entered.
pub fn double_click(entry: &EntryMeta) -> (r: Intent)
    ensures
        match r {
            Intent::Preview { path } => entry@.kind == NodeKind::File && path@ == entry@.path,
            Intent::Enter { path } => entry@.kind != NodeKind::File && path@ == entry@.path,
            _ => false,
        },
{
    let path = entry.path.clone();
    if entry.kind == NodeKind::File {
        Intent::Preview { path }
    } else {
        Intent::Enter { path }
    }
}

/// Whether there is a directory at the root of an archive, listed or implied. Flat archives get no
/// tree panel.
pub fn has_sidebar(entries: &[EntryMeta]) -> (r: bool)
    ensures
        r == exists|e: EntryView|
            crate::archive::children::is_listed(views(entries@), None, e) && e.kind
                == NodeKind::Dir,
{
    let top = children_of(entries, None);
    let ghost es = views(entries@);
    let mut i: usize = 0;
    while i < top.len()
        invariant
            i <= top@.len(),
            es == views(entries@),
            is_child_listing(es, None, views(top@)),
            forall|j: int| 0 <= j < i ==> (#[trigger] views(top@)[j]).kind != NodeKind::Dir,
        decreases top@.len() - i,
    {
        assert(views(top@)[i as int] == top@[i as int]@);
        if top[i].kind == NodeKind::Dir {
            proof {
                assert(views(top@).contains(top@[i as int]@));
            }
            return true;
        }
        i += 1;
    }
    proof {
        assert forall|e: EntryView|
            crate::archive::children::is_listed(es, None, e) implies e.kind != NodeKind::Dir by {
            assert(views(top@).contains(e));
            let j = choose|j: int| 0 <= j < views(top@).len() && views(top@)[j] == e;
        }
    }
    false
}

/// The label of the extract button.
pub open spec fn extract_text(count: nat) -> Seq<char> {
    if count == 0 {
        "Extract all"@
    } else {
        "Extract ("@ + decimal(count) + " selected)"@
    }
}

/// The label of the extract button: the selection is extracted, or the whole archive where nothing
/// is selected.
pub fn extract_label(count: usize) -> (r: String)
    ensures
        r@ == extract_text(count as nat),
{
    if count == 0 {
        "Extract all".to_string()
    } else {
        concat3("Extract (", decimal_text(count as u64).as_str(), " selected)")
    }
}

/// The sum of the known compressed sizes, as far as it can be represented.
pub open spec fn compressed_size(es: Seq<EntryView>) -> u64
    decreases es.len(),
{
    if es.len() == 0 {
        0
    } else {
        let front = compressed_size(es.drop_last());
        match es.last().compressed_size {
            Some(size) => if front + size > u64::MAX {
                u64::MAX
            } else {
                (front + size) as u64
            },
            None => front,
        }
    }
}

/// The number of entries, their total size and their total compressed size, as far as these are
/// known.
pub fn archive_summary(entries: &[EntryMeta]) -> (r: (usize, u64, u64))
    ensures
        r.0 == entries@.len(),
        r.1 == total_size(views(entries@)),
        r.2 == compressed_size(views(entries@)),
{
    let ghost vs = views(entries@);
    let mut size: u64 = 0;
    let mut packed: u64 = 0;
    let mut i: usize = 0;
    while i < entries.len()
        invariant
            i <= entries@.len(),
            vs == views(entries@),
            size == total_size(vs.take(i as int)),
            packed == compressed_size(vs.take(i as int)),
        decreases entries@.len() - i,
    {
        assert(vs.take(i + 1).drop_last() =~= vs.take(i as int));
        assert(vs.take(i + 1).last() == entries@[i as int]@);
        if let Some(n) = entries[i].uncompressed_size {
            size = if n > u64::MAX - size {
                u64::MAX
            } else {
                size + n
            };
        }
        if let Some(n) = entries[i].compressed_size {
            packed = if n > u64::MAX - packed {
                u64::MAX
            } else {
                packed + n
            };
        }
        i += 1;
    }
    assert(vs.take(i as int) =~= vs);
    (entries.len(), size, packed)
}

/// The summary of an archive: its items and their size, with the compressed size where the format
/// records it; nothing where no archive is open.
pub open spec fn summary(has_archive: bool, es: Seq<EntryView>) -> Seq<char> {
    if !has_archive {
        Seq::empty()
    } else if compressed_size(es) > 0 {
        decimal(es.len()) + " items · "@ + bytes_label(total_size(es) as nat) + " (compressed "@
            + bytes_label(compressed_size(es) as nat) + ")"@
    } else {
        decimal(es.len()) + " items · "@ + bytes_label(total_size(es) as nat)
    }
}

/// The summary of an archive, for the left end of the status bar.
pub fn summary_text(has_archive: bool, entries: &[EntryMeta]) -> (r: String)
    ensures
        r@ == summary(has_archive, views(entries@)),
{
    if !has_archive {
        return String::new();
    }
    let (count, size, packed) = archive_summary(entries);
    let mut out = concat3(
        decimal_text(count as u64).as_str(),
        " items · ",
        format_bytes(size).as_str(),
    );
    if packed > 0 {
        out.append(" (compressed ");
        out.append(format_bytes(packed).as_str());
        out.append(")");
    }
    out
}

/// The entries whose paths are selected, in listing order.
pub open spec fn chosen(es: Seq<EntryView>, selection: Set<Seq<char>>) -> Seq<EntryView>
    decreases es.len(),
{
    if es.len() == 0 {
        Seq::empty()
    } else if selection.contains(es.last().path) {
        chosen(es.drop_last(), selection).push(es.last())
    } else {
        chosen(es.drop_last(), selection)
    }
}

/// The number of selected entries and their total size.
pub fn selection_summary(entries: &[EntryMeta], selection: &[EntryPath]) -> (r: (usize, u64))
    ensures
        r.0 == chosen(views(entries@), path_set(selection@)).len(),
        r.1 == total_size(chosen(views(entries@), path_set(selection@))),
{
    let ghost vs = views(entries@);
    let ghost set = path_set(selection@);
    let mut count: usize = 0;
    let mut size: u64 = 0;
    let mut i: usize = 0;
    while i < entries.len()
        invariant
            i <= entries@.len(),
            vs == views(entries@),
            set == path_set(selection@),
            count == chosen(vs.take(i as int), set).len(),
            count <= i,
            size == total_size(chosen(vs.take(i as int), set)),
        decreases entries@.len() - i,
    {
        assert(vs.take(i + 1).drop_last() =~= vs.take(i as int));
        assert(vs.take(i + 1).last() == entries@[i as int]@);
        if has_path(selection, &entries[i].path) {
            proof {
                let c = chosen(vs.take(i + 1), set);
                assert(c.drop_last() =~= chosen(vs.take(i as int), set));
            }
            count += 1;
            if let Some(n) = entries[i].uncompressed_size {
                size = if n > u64::MAX - size {
                    u64::MAX
                } else {
                    size + n
                };
            }
        }
        i += 1;
    }
    assert(vs.take(i as int) =~= vs);
    (count, size)
}

/// The summary of the selection; nothing where nothing is selected.
pub open spec fn selection_text_of(es: Seq<EntryView>, selection: Set<Seq<char>>) -> Seq<char> {
    let picked = chosen(es, selection);
    if picked.len() > 0 {
        decimal(picked.len()) + " selected · "@ + bytes_label(total_size(picked) as nat)
    } else {
        Seq::empty()
    }
}

/// The summary of the selection, for the middle of the status bar.
pub fn selection_text(entries: &[EntryMeta], selection: &[EntryPath]) -> (r: String)
    ensures
        r@ == selection_text_of(views(entries@), path_set(selection@)),
{
    let (count, size) = selection_summary(entries, selection);
    if count > 0 {
        concat3(
            decimal_text(count as u64).as_str(),
            " selected · ",
            format_bytes(size).as_str(),
        )
    } else {
        String::new()
    }
}

/// How much of an extraction is done, in percent: nothing where the total is not known or empty,
/// and never more than all.
pub open spec fn percent(p: ProgressView) -> int {
    match p.bytes_total {
        Some(total) => if total == 0 {
            0
        } else if p.bytes_done >= total {
            100
        } else {
            p.bytes_done as int * 100 / total as int
        },
        None => 0,
    }
}

/// How much of an extraction is done, in percent.
pub fn progress_percent(update: &ProgressUpdate) -> (r: u64)
    ensures
        r == percent(update@),
        r <= 100,
{
    match update.bytes_total {
        Some(total) => {
            if total == 0 {
                0
            } else if update.bytes_done >= total {
                100
            } else {
                let done: u128 = update.bytes_done as u128 * 100;
                let whole: u128 = total as u128;
                proof {
                    assert(done / whole <= 100) by (nonlinear_arith)
                        requires
                            done == update.bytes_done * 100,
                            update.bytes_done < whole,
                            whole > 0,
                    ;
                }
                (done / whole) as u64
            }
        },
        None => 0,
    }
}

/// Whether a name shows that it was decoded with the wrong encoding.
pub open spec fn is_mangled(path: Seq<char>) -> bool {
    path.contains('\u{fffd}')
}

/// Whether some name holds U+FFFD, which means that the current encoding is wrong for the archive.
pub fn has_mangled_names(entries: &[EntryMeta]) -> (r: bool)
    ensures
        r == exists|i: int| 0 <= i < entries@.len() && is_mangled((#[trigger] entries@[i])@.path),
{
    let mut i: usize = 0;
    while i < entries.len()
        invariant
            i <= entries@.len(),
            forall|j: int| 0 <= j < i ==> !is_mangled((#[trigger] entries@[j])@.path),
        decreases entries@.len() - i,
    {
        let chars = chars_of(entries[i].path.as_str());
        proof {
            crate::text::find_char_least(chars@, '\u{fffd}');
        }
        if crate::text::position_of(chars.as_slice(), '\u{fffd}') < chars.len() {
            return true;
        }
        i += 1;
    }
    false
}

/// The explanation of a filename encoding.
pub open spec fn encoding_hint_text(e: FilenameEncoding) -> Seq<char> {
    match e {
        FilenameEncoding::Auto => {
            "Detect: UTF-8 when flagged, otherwise sniff GBK / Shift-JIS / Big5 from the entry names."@
        },
        FilenameEncoding::Forced(Codepage::Utf8) => "Treat every entry name as UTF-8."@,
        FilenameEncoding::Forced(Codepage::Gbk) => {
            "Decode legacy Chinese names (GBK) — the usual fix for garbled mainland-China archives."@
        },
        FilenameEncoding::Forced(Codepage::ShiftJis) => {
            "Decode legacy Japanese names (Shift-JIS) — the usual fix for garbled Japanese archives."@
        },
        FilenameEncoding::Forced(Codepage::Big5) => {
            "Decode legacy Traditional-Chinese names (Big5)."@
        },
        FilenameEncoding::Forced(Codepage::Cp437) => {
            "Decode MS-DOS code page 437 names (rare)."@
        },
    }
}

/// One-line explanation for the current filename encoding option.
pub fn encoding_hint(e: FilenameEncoding) -> (r: &'static str)
    ensures
        r@ == encoding_hint_text(e),
{
    match e {
        FilenameEncoding::Auto => {
            "Detect: UTF-8 when flagged, otherwise sniff GBK / Shift-JIS / Big5 from the entry names."
        },
        FilenameEncoding::Forced(Codepage::Utf8) => "Treat every entry name as UTF-8.",
        FilenameEncoding::Forced(Codepage::Gbk) => {
            "Decode legacy Chinese names (GBK) — the usual fix for garbled mainland-China archives."
        },
        FilenameEncoding::Forced(Codepage::ShiftJis) => {
            "Decode legacy Japanese names (Shift-JIS) — the usual fix for garbled Japanese archives."
        },
        FilenameEncoding::Forced(Codepage::Big5) => {
            "Decode legacy Traditional-Chinese names (Big5)."
        },
        FilenameEncoding::Forced(Codepage::Cp437) => "Decode MS-DOS code page 437 names (rare).",
    }
}

/// The explanation of an overwrite policy.
pub open spec fn overwrite_hint_text(p: OverwritePolicy) -> Seq<char> {
    match p {
        OverwritePolicy::Ask => "Ask before replacing each existing file."@,
        OverwritePolicy::Always => "Replace existing files without asking."@,
        OverwritePolicy::Never => "Skip existing files and leave them untouched."@,
        OverwritePolicy::Newer => "Replace only when the file in the archive is newer."@,
    }
}

/// One-line explanation for the current overwrite policy.
pub fn overwrite_hint(p: OverwritePolicy) -> (r: &'static str)
    ensures
        r@ == overwrite_hint_text(p),
{
    match p {
        OverwritePolicy::Ask => "Ask before replacing each existing file.",
        OverwritePolicy::Always => "Replace existing files without asking.",
        OverwritePolicy::Never => "Skip existing files and leave them untouched.",
        OverwritePolicy::Newer => "Replace only when the file in the archive is newer.",
    }
}

/// The intents that restore all settings to their defaults.
pub fn restore_defaults() -> (r: Vec<Intent>)
    ensures
        r@ == seq![
            Intent::SetEncoding(FilenameEncoding::Auto),
            Intent::SetOverwrite(OverwritePolicy::Ask),
            Intent::SetPreserveMtime(true),
        ],
{
    let mut r: Vec<Intent> = Vec::new();
    r.push(Intent::SetEncoding(FilenameEncoding::Auto));
    r.push(Intent::SetOverwrite(OverwritePolicy::default()));
    r.push(Intent::SetPreserveMtime(true));
    assert(r@ =~= seq![
        Intent::SetEncoding(FilenameEncoding::Auto),
        Intent::SetOverwrite(OverwritePolicy::Ask),
        Intent::SetPreserveMtime(true),
    ]);
    r
}

} // verus!
