//! What calls of the library's functions give, from what they are given.

use vstd::prelude::*;
use vstd::utf8::*;

use crate::archive::sevenz::{sevenz_files, SevenZipArchive};
use crate::archive::tar::{tar_index, TarArchive};
use crate::archive::zip::{zip_count, zip_record, OpenZip};
use crate::archive::rar::{rar_members, RarArchive};
use crate::archive::{Archive, OpenOptions, OptionsView};
use crate::controller::{ExtractProgress, Intent, ProgressUpdate};
use crate::encoding::{
    big5_text, decodable, gbk_text, shift_jis_text, Codepage, FilenameEncoding, Utf8Flag,
};
use crate::error::{Error, ErrorView, Result};
use crate::extract::{ExtractEngine, ExtractOptions, ExtractRun};
use crate::icons::Icon;
use crate::laws::extraction::{
    bytes_written, distinct_paths, extraction_writes_the_entries, first_scene, has_content, played,
    same_file, stays, DiskView, Setting,
};
use crate::laws::sevenz::sevenz_lists_its_files;
use crate::laws::walking::{entries_of_nested_archives_are_found, walks_begin_at_the_root};
use crate::laws::zip::{forced_encoding_decodes_zip_names, zip_lists_its_records};
use crate::model::{normal_path, EntryMeta, EntryPath, EntryView, NodeKind, Timestamp};
use crate::text::lossy_utf8;
use crate::viewmodel::{path_set, TreeRow};
use crate::walk::{count_entries, items, Walk, WalkItemView, WalkOptions};

verus! {

/// A zip archive that is opened with a forced codepage lists every record whose name, decoded in
/// that codepage, is a path, under that path.
pub proof fn opening_a_zip_decodes_its_names(
    bytes: &[u8],
    opts: &OpenOptions,
    a: OpenZip,
    cp: Codepage,
    i: int,
)
    requires
        call_ensures(OpenZip::new, (bytes, opts), Ok::<OpenZip, Error>(a)),
        opts.encoding == FilenameEncoding::Forced(cp),
        0 <= i < zip_count(bytes@),
        decodable(zip_record(bytes@, i)->Ok_0.name),
    ensures
        ({
            let raw = zip_record(bytes@, i)->Ok_0.name;
            let path = normal_path(
                match cp {
                    Codepage::Gbk => gbk_text(raw),
                    Codepage::ShiftJis => shift_jis_text(raw),
                    Codepage::Big5 => big5_text(raw),
                    Codepage::Utf8 => if valid_utf8(raw) {
                        decode_utf8(raw)
                    } else {
                        lossy_utf8(raw)
                    },
                    Codepage::Cp437 => lossy_utf8(raw),
                },
            );
            path is Ok ==> exists|k: int|
                0 <= k < a@.entries.len() && (#[trigger] a@.entries[k]).path == path->Ok_0
                    && a@.entries[k].raw_name == raw
        }),
{
    forced_encoding_decodes_zip_names(bytes@, opts@, cp, a@, i);
    zip_lists_its_records(bytes@, opts@, a@);
    if a@.slots.contains(i) {
        let k = choose|k: int| 0 <= k < a@.slots.len() && a@.slots[k] == i;
        assert(a@.slots[k] == i);
        assert(a@.entries[k].raw_name == zip_record(bytes@, i)->Ok_0.name);
    }
}

/// A 7z archive that is opened lists every file whose name is a path, with the time that its header
/// records, counted from 1601 on in steps of 100 nanoseconds.
pub proof fn opening_a_7z_tells_its_times(
    bytes: Vec<u8>,
    opts: &OpenOptions,
    a: SevenZipArchive,
    i: int,
)
    requires
        call_ensures(SevenZipArchive::open, (bytes, opts), Ok::<SevenZipArchive, Error>(a)),
        0 <= i < sevenz_files(bytes@, a@.password).len(),
        normal_path(sevenz_files(bytes@, a@.password)[i].name) is Ok,
    ensures
        exists|k: int|
            0 <= k < a@.entries.len() && {
                let e = #[trigger] a@.entries[k];
                let f = sevenz_files(bytes@, a@.password)[i];
                &&& normal_path(f.name) == Ok::<Seq<char>, ErrorView>(e.path)
                &&& (e.mtime is Some <==> f.modified is Some)
                &&& (f.modified is Some ==> (e.mtime->0.secs + 11_644_473_600) * 10_000_000
                    + e.mtime->0.nanos / 100 == f.modified->0)
                &&& (!f.is_directory ==> e.uncompressed_size == Some(f.size))
                &&& (f.is_directory <==> e.kind == NodeKind::Dir)
            },
{
    let slots = sevenz_lists_its_files(bytes@, opts@, a@);
    assert(slots.contains(i));
    let k = choose|k: int| 0 <= k < slots.len() && slots[k] == i;
    assert(slots[k] == i);
    let f = sevenz_files(bytes@, a@.password)[i];
    let e = a@.entries[k];
    if f.modified is Some {
        let t = f.modified->0 as int;
        assert(t == t / 10_000_000 * 10_000_000 + t % 10_000_000);
        assert(e.mtime->0.nanos / 100 == t % 10_000_000);
    }
    assert(normal_path(f.name) == Ok::<Seq<char>, ErrorView>(a@.entries[k].path));
}

/// A walk that recurses and is not cut off yields the entries of every archive that an entry opens
/// to with the walk's password.
pub proof fn walking_uses_the_password<A: Archive>(
    archive: &A,
    opts: WalkOptions,
    w: Walk<A>,
    es: Seq<EntryView>,
    k: int,
    n: A::Model,
    inner: Seq<EntryView>,
    j: int,
)
    requires
        call_ensures(crate::walk::walk::<A>, (archive, opts), w),
        opts.recurse_nested_archives,
        opts.max_depth > 0,
        A::listing(archive.model()) == Ok::<Seq<EntryView>, ErrorView>(es),
        count_entries(items::<A>(opts@, archive.model(), es, Seq::empty(), 0))
            < opts.max_total_entries,
        0 <= k < es.len(),
        es[k].kind == NodeKind::Archive,
        A::nested(
            archive.model(),
            es[k],
            OptionsView {
                password: match opts.password {
                    Some(secret) => Some(secret@),
                    None => None,
                },
                encoding: FilenameEncoding::Auto,
            },
        ) == Ok::<A::Model, ErrorView>(n),
        A::listing(n) == Ok::<Seq<EntryView>, ErrorView>(inner),
        0 <= j < inner.len(),
    ensures
        w.remaining().contains(
            Ok::<WalkItemView, ErrorView>(
                WalkItemView {
                    location: es[k].path.push('/') + inner[j].path,
                    meta: inner[j],
                },
            ),
        ),
{
    walks_begin_at_the_root::<A>(opts@, archive.model(), es);
    entries_of_nested_archives_are_found::<A>(
        opts@,
        archive.model(),
        es,
        Seq::empty(),
        0,
        k,
        n,
        inner,
        j,
    );
    assert((Seq::<char>::empty() + es[k].path) =~= es[k].path);
}

/// A run that has begun on an archive, over a disk on which nothing fails and while nobody cancels,
/// ends with every file and every archive among its entries on the disk, whole, unless there was a
/// file that stays.
pub proof fn beginning_a_run_leads_to_files<A: Archive>(
    archive: &A,
    selection: &[EntryPath],
    opts: &ExtractOptions,
    run: ExtractRun<A>,
    yes: Set<Seq<char>>,
    before: DiskView,
    k: int,
    p: Seq<char>,
) -> (n: nat)
    requires
        call_ensures(
            ExtractEngine::begin::<A>,
            (archive, selection, opts),
            Ok::<ExtractRun<A>, Error>(run),
        ),
        distinct_paths(run@.entries),
        forall|i: int|
            0 <= i < run@.entries.len() && has_content(#[trigger] run@.entries[i]) ==> A::content(
                archive.model(),
                run@.entries[i],
            ) is Ok,
        bytes_written(
            run@.entries,
            opts.overwrite,
            before,
            Setting { held: |e: EntryView| A::content(archive.model(), e), yes },
        ) <= opts.limits.max_total_bytes,
        0 <= k < run@.entries.len(),
    ensures
        ({
            let set = Setting { held: |e: EntryView| A::content(archive.model(), e), yes };
            let end = played(first_scene(run@, before), set, n);
            let e = run@.entries[k];
            let kept = stays(opts.overwrite, e, before, yes);
            &&& end.action is Finish && end.action->Finish_0 is Ok
            &&& end.action->Finish_0->Ok_0.failed.len() == 0
            &&& (has_content(e) && !kept ==> end.disk.files.contains_key(e.path)
                && end.disk.files[e.path] == A::content(archive.model(), e)->Ok_0)
            &&& (has_content(e) && kept ==> end.disk.files[e.path] == before.files[e.path])
            &&& (e.kind == NodeKind::Dir ==> end.disk.dirs.contains(e.path))
            &&& (!crate::laws::extraction::is_destination(run@.entries, p) ==> same_file(
                before,
                end.disk,
                p,
            ))
        }),
{
    let set = Setting { held: |e: EntryView| A::content(archive.model(), e), yes };
    let n = extraction_writes_the_entries::<A>(
        archive.model(),
        crate::extract::path_texts(selection@),
        opts@,
        run@,
        set,
        before,
    );
    assert(run@.entries[k] == run@.entries[k]);
    n
}

/// What is told when an entry begins: its path, the bytes written so far, all bytes, and the entries
/// done so far.
pub proof fn progress_tells_what_is_done(
    p: ExtractProgress,
    path: &EntryPath,
    r: ProgressUpdate,
)
    requires
        call_ensures(ExtractProgress::entry_started, (&p, path), r),
    ensures
        r@.current == Some(path@),
        r@.bytes_done == p@.done_bytes,
        r@.bytes_total == Some(p@.total_bytes),
        r@.entries_done == p@.entries_done,
{
}

/// Progress begins with nothing done.
pub proof fn progress_begins_with_nothing(total: u64, p: ExtractProgress)
    requires
        call_ensures(ExtractProgress::new, (total,), p),
    ensures
        p@.total_bytes == total,
        p@.done_bytes == 0,
        p@.entries_done == 0,
{
}

/// A double click on a file previews it; on anything else it enters it.
pub proof fn double_clicks_open_the_entry(entry: &EntryMeta, r: Intent)
    requires
        call_ensures(crate::view::double_click, (entry,), r),
    ensures
        entry@.kind == NodeKind::File ==> r is Preview && r->Preview_path@ == entry@.path,
        entry@.kind != NodeKind::File ==> r is Enter && r->Enter_path@ == entry@.path,
{
}

/// A row of the tree shows its entry: indented by its depth, with an arrow that says whether a
/// directory is expanded, and with the last component of the path as its name.
pub proof fn tree_rows_show_their_entry(
    row: &TreeRow,
    expanded: &[EntryPath],
    r: crate::view::RowView,
)
    requires
        call_ensures(crate::view::tree_row_view, (row, expanded), r),
        row.depth <= 1_000_000,
    ensures
        r.path@ == row@.entry.path,
        r.is_dir == row.is_dir,
        r.indent == 18 * row.depth,
        !row.is_dir <==> r.arrow is None,
        row.is_dir && path_set(expanded@).contains(row@.entry.path) ==> r.arrow == Some(
            Icon::ChevronDown,
        ),
        row.is_dir && !path_set(expanded@).contains(row@.entry.path) ==> r.arrow == Some(
            Icon::ChevronRight,
        ),
        r.name@ == crate::text::after_last(row@.entry.path, '/'),
{
}

/// A row of the file list shows its entry: name, size, kind, icon, and whether it is encrypted.
pub proof fn file_rows_show_their_entry(
    entry: &EntryMeta,
    selected: &[EntryPath],
    r: crate::view::FileRowView,
)
    requires
        call_ensures(crate::view::file_row_view, (entry, selected), r),
    ensures
        r.path@ == entry@.path,
        r.name@ == crate::text::after_last(entry@.path, '/'),
        r.locked == entry@.encrypted,
        r.is_file <==> entry@.kind == NodeKind::File,
        r.kind@ == crate::viewmodel::kind_name(entry@.kind),
        r.type_icon == crate::viewmodel::icon_of(entry@).0,
        entry@.uncompressed_size is Some ==> r.size@ == crate::viewmodel::bytes_label(
            entry@.uncompressed_size->0 as nat,
        ),
{
}

/// The label of a time shows the date and time that is as many seconds after 1970 as the time says,
/// and the offset more.
pub proof fn labels_show_local_time(
    t: Timestamp,
    offset: i32,
    label: String,
    at: crate::timestamp::Civil,
)
    requires
        call_ensures(crate::viewmodel::time_label, (Some(t), offset), label),
        at.exists_in_calendar(),
        at.unix_seconds() == t.secs + offset,
    ensures
        label@ == crate::viewmodel::civil_label(at),
{
    let found = choose|found: crate::timestamp::Civil|
        found.exists_in_calendar() && #[trigger] found.unix_seconds() == t.secs + offset && label@
            == crate::viewmodel::civil_label(found);
    crate::timestamp::calendar_times_are_distinct(found, at);
}

/// A name that is decoded, or refused, as the strategy and what the format says of it ask.
pub proof fn decoding_follows_the_strategy(
    raw: &[u8],
    enc: FilenameEncoding,
    says_utf8: bool,
    r: Result<String>,
)
    requires
        call_ensures(crate::encoding::decode_filename, (raw, enc, Utf8Flag(says_utf8)), r),
    ensures
        match enc {
            FilenameEncoding::Auto => {
                &&& (valid_utf8(raw@) ==> r is Ok && r->Ok_0@ == decode_utf8(raw@))
                &&& (!valid_utf8(raw@) && says_utf8 ==> r is Err && r->Err_0 is CorruptArchive)
                &&& (!valid_utf8(raw@) && !says_utf8 ==> r is Ok && r->Ok_0@ == gbk_text(raw@))
            },
            FilenameEncoding::Forced(Codepage::Utf8) => {
                &&& (valid_utf8(raw@) ==> r is Ok && r->Ok_0@ == decode_utf8(raw@))
                &&& (!valid_utf8(raw@) ==> r is Err && r->Err_0 is CorruptArchive)
            },
            FilenameEncoding::Forced(Codepage::Gbk) => r is Ok && r->Ok_0@ == gbk_text(raw@),
            FilenameEncoding::Forced(Codepage::ShiftJis) => r is Ok && r->Ok_0@ == shift_jis_text(
                raw@,
            ),
            FilenameEncoding::Forced(Codepage::Big5) => r is Ok && r->Ok_0@ == big5_text(raw@),
            FilenameEncoding::Forced(Codepage::Cp437) => r is Err
                && r->Err_0 is UnsupportedFeature,
        },
{
    crate::laws::naming::names_are_decoded_as_asked(raw@, enc, says_utf8);
}

/// A tar archive or a RAR archive that is opened is the one that the bytes are.
pub proof fn opening_tells_what_the_bytes_are(
    bytes: Vec<u8>,
    opts: &OpenOptions,
    t: TarArchive,
    r: RarArchive,
)
    ensures
        call_ensures(TarArchive::open, (bytes, opts), Ok::<TarArchive, Error>(t)) ==> t@.bytes
            == bytes@ && tar_index(bytes@) is Ok,
        call_ensures(RarArchive::open, (bytes, opts), Ok::<RarArchive, Error>(r)) ==> r@.bytes
            == bytes@ && r@.members == rar_members(
            bytes@,
            match opts.password {
                Some(secret) => Some(secret@),
                None => None,
            },
        ),
{
    if call_ensures(TarArchive::open, (bytes, opts), Ok::<TarArchive, Error>(t)) {
        let slots = crate::laws::tar::tar_lists_its_headers(bytes@, opts@, t@);
    }
    if call_ensures(RarArchive::open, (bytes, opts), Ok::<RarArchive, Error>(r)) {
        crate::laws::rar::rar_lists_its_members(bytes@, opts@, r@);
    }
}

} // verus!
