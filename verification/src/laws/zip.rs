//! What a zip archive is listed as, and what its entries hold.

use vstd::prelude::*;
use vstd::utf8::*;

use crate::archive::zip::{
    legacy_names, zip_content, zip_count, zip_head, zip_listing, zip_marked, zip_model, zip_read,
    zip_record, zip_records, ZipListing, ZipModel, ZipRecordView,
};
use crate::archive::{is_nested_archive, last_index_greatest, OptionsView};
use crate::encoding::{
    big5_text, decodable, gbk_text, guessed_encoding, shift_jis_text, Codepage, FilenameEncoding,
};
use crate::error::ErrorView;
use crate::model::{normal_path, EntryView, NodeKind};
use crate::text::lossy_utf8;
use crate::timestamp::dos_civil;

verus! {

/// The records are those of the central directory, in order.
proof fn records_are_read(bytes: Seq<u8>, n: nat)
    requires
        zip_records(bytes, n) is Ok,
    ensures
        zip_records(bytes, n)->Ok_0.len() == n,
        forall|i: int|
            0 <= i < n ==> #[trigger] zip_record(bytes, i) == Ok::<
                ZipRecordView,
                zip::result::ZipError,
            >(zip_records(bytes, n)->Ok_0[i]),
    decreases n,
{
    if n > 0 {
        records_are_read(bytes, (n - 1) as nat);
    }
}

/// What the listing of records holds.
proof fn listing_holds_records(
    rs: Seq<ZipRecordView>,
    enc: FilenameEncoding,
    detected: Option<Codepage>,
)
    ensures
        ({
            let l = zip_listing(rs, enc, detected);
            &&& l.entries.len() == l.slots.len()
            &&& forall|k: int|
                0 <= k < l.slots.len() ==> {
                    let i = #[trigger] l.slots[k];
                    let e = l.entries[k];
                    let r = rs[i];
                    &&& 0 <= i < rs.len()
                    &&& normal_path(crate::archive::zip::zip_name(r.name, enc, detected)) == Ok::<
                        Seq<char>,
                        ErrorView,
                    >(e.path)
                    &&& e == crate::archive::zip::zip_entry(r, e.path)
                }
            &&& forall|k: int, j: int| 0 <= k < j < l.slots.len() ==> l.slots[k] < l.slots[j]
            &&& forall|i: int|
                0 <= i < rs.len() && normal_path(
                    crate::archive::zip::zip_name((#[trigger] rs[i]).name, enc, detected),
                ) is Ok ==> l.slots.contains(i)
        }),
    decreases rs.len(),
{
    if rs.len() > 0 {
        let front = rs.drop_last();
        listing_holds_records(front, enc, detected);
        let (f, l) = (zip_listing(front, enc, detected), zip_listing(rs, enc, detected));
        assert forall|i: int| 0 <= i < rs.len() && normal_path(
            crate::archive::zip::zip_name((#[trigger] rs[i]).name, enc, detected),
        ) is Ok implies l.slots.contains(i) by {
            if i < front.len() {
                assert(front[i] == rs[i]);
                let k = choose|k: int| 0 <= k < f.slots.len() && f.slots[k] == i;
                assert(l.slots[k] == i);
            } else {
                assert(l.slots[l.slots.len() - 1] == i);
            }
        }
        assert forall|k: int| 0 <= k < l.slots.len() implies {
            let i = #[trigger] l.slots[k];
            let e = l.entries[k];
            let r = rs[i];
            &&& 0 <= i < rs.len()
            &&& normal_path(crate::archive::zip::zip_name(r.name, enc, detected)) == Ok::<
                Seq<char>,
                ErrorView,
            >(e.path)
            &&& e == crate::archive::zip::zip_entry(r, e.path)
        } by {
            if k < f.slots.len() {
                assert(l.slots[k] == f.slots[k]);
                assert(front[f.slots[k]] == rs[l.slots[k]]);
            }
        }
        assert forall|k: int, j: int| 0 <= k < j < l.slots.len() implies l.slots[k] < l.slots[j] by {
            assert(l.slots[k] == f.slots[k]);
            assert(0 <= f.slots[k] < front.len());
        }
    }
}

/// What marking does to each entry.
proof fn marking_changes_kinds(bytes: Seq<u8>, l: ZipListing, n: int)
    requires
        0 <= n <= l.entries.len(),
        l.entries.len() == l.slots.len(),
        zip_marked(bytes, l, n) is Ok,
    ensures
        zip_marked(bytes, l, n)->Ok_0.len() == n,
        forall|k: int|
            0 <= k < n ==> {
                let e = l.entries[k];
                let out = #[trigger] zip_marked(bytes, l, n)->Ok_0[k];
                let looked_at = e.kind == NodeKind::File && !e.encrypted;
                let head = zip_head(bytes, l.slots[k], 512);
                &&& looked_at ==> head is Ok
                &&& out == EntryView {
                    kind: if looked_at && is_nested_archive(head->Ok_0) {
                        NodeKind::Archive
                    } else {
                        e.kind
                    },
                    ..e
                }
            },
    decreases n,
{
    if n > 0 {
        marking_changes_kinds(bytes, l, n - 1);
    }
}

/// A zip archive lists the records of its central directory, in order and without gaps but for
/// those whose path is refused, each with what its record says of it.
pub proof fn zip_lists_its_records(bytes: Seq<u8>, o: OptionsView, m: ZipModel)
    requires
        zip_model(bytes, o) == Ok::<ZipModel, ErrorView>(m),
    ensures
        m.bytes == bytes,
        m.entries.len() == m.slots.len(),
        forall|k: int, j: int| 0 <= k < j < m.slots.len() ==> m.slots[k] < m.slots[j],
        forall|i: int| 0 <= i < zip_count(bytes) ==> #[trigger] zip_record(bytes, i) is Ok,
        forall|k: int|
            0 <= k < m.slots.len() ==> {
                let i = #[trigger] m.slots[k];
                let e = m.entries[k];
                let r = zip_record(bytes, i)->Ok_0;
                &&& 0 <= i < zip_count(bytes)
                &&& e.raw_name == r.name
                &&& e.uncompressed_size == Some(r.size)
                &&& e.compressed_size == Some(r.compressed_size)
                &&& e.mode == r.mode
                &&& e.crc == Some(r.crc)
                &&& e.encrypted == r.encrypted
                &&& e.comment is None
                &&& e.kind == NodeKind::Dir <==> r.is_dir
                &&& e.kind == NodeKind::Symlink <==> !r.is_dir && r.is_symlink
                &&& e.kind == NodeKind::Archive <==> !r.is_dir && !r.is_symlink && !r.encrypted
                    && is_nested_archive(zip_head(bytes, i, 512)->Ok_0)
            },
        forall|k: int|
            0 <= k < m.slots.len() ==> {
                let r = zip_record(bytes, #[trigger] m.slots[k])->Ok_0;
                let (date, time) = r.modified->0;
                let at = dos_civil(date, time);
                match m.entries[k].mtime {
                    Some(t) => r.modified is Some && at.exists_in_calendar() && t.nanos == 0
                        && t.secs as int == at.unix_seconds() as i64,
                    None => r.modified is None || !at.exists_in_calendar(),
                }
            },
{
    let rs = zip_records(bytes, zip_count(bytes))->Ok_0;
    records_are_read(bytes, zip_count(bytes));
    let cp = crate::archive::zip::zip_codepage(rs, o.encoding);
    let l = zip_listing(rs, o.encoding, cp);
    listing_holds_records(rs, o.encoding, cp);
    marking_changes_kinds(bytes, l, l.entries.len() as int);
    assert forall|k: int| 0 <= k < m.slots.len() implies {
        let i = #[trigger] m.slots[k];
        &&& 0 <= i < rs.len()
        &&& zip_record(bytes, i) == Ok::<ZipRecordView, zip::result::ZipError>(rs[i])
        &&& l.entries[k] == crate::archive::zip::zip_entry(rs[i], l.entries[k].path)
    } by {
        assert(l.slots[k] == m.slots[k]);
    }
    assert forall|k: int| 0 <= k < m.entries.len() implies zip_marked(
        bytes,
        l,
        l.entries.len() as int,
    )->Ok_0[k] == #[trigger] m.entries[k] by {}
}

/// Under a forced encoding, every name of a zip archive is decoded in that codepage, and as lossy
/// UTF-8 only where that fails. A record is listed exactly if what its name decodes to is a path.
pub proof fn forced_encoding_decodes_zip_names(
    bytes: Seq<u8>,
    o: OptionsView,
    cp: Codepage,
    m: ZipModel,
    i: int,
)
    requires
        zip_model(bytes, o) == Ok::<ZipModel, ErrorView>(m),
        o.encoding == FilenameEncoding::Forced(cp),
        0 <= i < zip_count(bytes),
        decodable(zip_record(bytes, i)->Ok_0.name),
    ensures
        ({
            let raw = zip_record(bytes, i)->Ok_0.name;
            let path = normal_path(
                match cp {
                    Codepage::Gbk => gbk_text(raw),
                    Codepage::ShiftJis => shift_jis_text(raw),
                    Codepage::Big5 => big5_text(raw),
                    Codepage::Utf8 => if valid_utf8(raw) {
                        decode_utf8(raw)
                    } else {
                        lossy_utf8(raw)
                    },
                    Codepage::Cp437 => lossy_utf8(raw),
                },
            );
            &&& path is Ok <==> m.slots.contains(i)
            &&& forall|k: int|
                0 <= k < m.slots.len() && #[trigger] m.slots[k] == i ==> path == Ok::<
                    Seq<char>,
                    ErrorView,
                >(m.entries[k].path)
        }),
{
    let rs = zip_records(bytes, zip_count(bytes))->Ok_0;
    records_are_read(bytes, zip_count(bytes));
    let l = zip_listing(rs, o.encoding, None);
    listing_holds_records(rs, o.encoding, None);
    marking_changes_kinds(bytes, l, l.entries.len() as int);
    assert(zip_record(bytes, i) == Ok::<ZipRecordView, zip::result::ZipError>(rs[i]));
    assert forall|k: int| 0 <= k < m.slots.len() implies l.slots[k] == #[trigger] m.slots[k] by {}
    assert forall|k: int| 0 <= k < m.entries.len() implies zip_marked(
        bytes,
        l,
        l.entries.len() as int,
    )->Ok_0[k] == #[trigger] m.entries[k] by {}
}

/// By default a name of a zip archive that is UTF-8 is listed as it is, and all others are decoded
/// in one codepage: the one that is guessed from all of them together, or GBK where none of the
/// supported ones is guessed.
pub proof fn automatic_encoding_decodes_zip_names(
    bytes: Seq<u8>,
    o: OptionsView,
    m: ZipModel,
    rs: Seq<ZipRecordView>,
    i: int,
)
    requires
        zip_model(bytes, o) == Ok::<ZipModel, ErrorView>(m),
        o.encoding == FilenameEncoding::Auto,
        rs.len() == zip_count(bytes),
        forall|j: int| 0 <= j < rs.len() ==> #[trigger] rs[j] == zip_record(bytes, j)->Ok_0,
        0 <= i < rs.len(),
        decodable(rs[i].name),
    ensures
        ({
            let raw = rs[i].name;
            let guess = guessed_encoding(legacy_names(rs));
            let path = normal_path(
                if valid_utf8(raw) {
                    decode_utf8(raw)
                } else if guess == "Shift_JIS"@ {
                    shift_jis_text(raw)
                } else if guess == "Big5"@ {
                    big5_text(raw)
                } else {
                    gbk_text(raw)
                },
            );
            &&& path is Ok <==> m.slots.contains(i)
            &&& forall|k: int|
                0 <= k < m.slots.len() && #[trigger] m.slots[k] == i ==> path == Ok::<
                    Seq<char>,
                    ErrorView,
                >(m.entries[k].path)
        }),
{
    let all = zip_records(bytes, zip_count(bytes))->Ok_0;
    records_are_read(bytes, zip_count(bytes));
    assert forall|j: int| 0 <= j < rs.len() implies rs[j] == all[j] by {
        assert(zip_record(bytes, j) == Ok::<ZipRecordView, zip::result::ZipError>(all[j]));
    }
    assert(rs =~= all);
    let cp = crate::archive::zip::zip_codepage(rs, o.encoding);
    let l = zip_listing(rs, o.encoding, cp);
    listing_holds_records(rs, o.encoding, cp);
    marking_changes_kinds(bytes, l, l.entries.len() as int);
    if !valid_utf8(rs[i].name) {
        legacy_name_is_there(rs, i);
    }
    reveal_strlit("Shift_JIS");
    reveal_strlit("Big5");
    reveal_strlit("GBK");
    let raw = rs[i].name;
    let guess = guessed_encoding(legacy_names(rs));
    assert("GBK"@.len() == 3 && "Shift_JIS"@.len() == 9 && "Big5"@.len() == 4);
    assert(crate::archive::zip::zip_name(raw, o.encoding, cp) == if valid_utf8(raw) {
        decode_utf8(raw)
    } else if guess == "Shift_JIS"@ {
        shift_jis_text(raw)
    } else if guess == "Big5"@ {
        big5_text(raw)
    } else {
        gbk_text(raw)
    });
    assert forall|k: int| 0 <= k < m.slots.len() implies l.slots[k] == #[trigger] m.slots[k] by {}
    assert forall|k: int| 0 <= k < m.entries.len() implies zip_marked(
        bytes,
        l,
        l.entries.len() as int,
    )->Ok_0[k] == #[trigger] m.entries[k] by {}
}

/// Where a name is not UTF-8, there are bytes to guess from.
proof fn legacy_name_is_there(rs: Seq<ZipRecordView>, i: int)
    requires
        0 <= i < rs.len(),
        !valid_utf8(rs[i].name),
    ensures
        legacy_names(rs).len() > 0,
    decreases rs.len(),
{
    if i < rs.len() - 1 {
        legacy_name_is_there(rs.drop_last(), i);
    } else if rs[i].name.len() == 0 {
        assert(rs[i].name =~= Seq::<u8>::empty());
        encode_utf8_valid_utf8(Seq::<char>::empty());
        assert(encode_utf8(Seq::<char>::empty()) =~= Seq::<u8>::empty());
    }
}

/// The bytes that a codepage is guessed from are those of the names that are not UTF-8, one behind
/// the other, and no others.
pub proof fn guessing_takes_legacy_names(a: Seq<ZipRecordView>, b: Seq<ZipRecordView>)
    ensures
        legacy_names(a + b) == legacy_names(a) + legacy_names(b),
        b.len() == 1 && valid_utf8(b[0].name) ==> legacy_names(b) == Seq::<u8>::empty(),
        b.len() == 1 && !valid_utf8(b[0].name) ==> legacy_names(b) == b[0].name,
    decreases b.len(),
{
    if b.len() == 0 {
        assert(a + b =~= a);
        assert(legacy_names(a) + legacy_names(b) =~= legacy_names(a));
    } else {
        let front = b.drop_last();
        guessing_takes_legacy_names(a, front);
        assert((a + b).drop_last() =~= a + front);
        assert(legacy_names(a + b) =~= legacy_names(a) + legacy_names(b));
        if b.len() == 1 {
            assert(front =~= Seq::<ZipRecordView>::empty());
            assert(legacy_names(front) =~= Seq::<u8>::empty());
            assert(legacy_names(b) =~= if valid_utf8(b[0].name) {
                Seq::<u8>::empty()
            } else {
                b[0].name
            });
        }
    }
}

/// Reading an entry of a zip archive gives the content of its own record: of the last one, where
/// several have its path. What is encrypted cannot be read.
pub proof fn zip_entries_hold_their_content(m: ZipModel, k: int)
    requires
        0 <= k < m.entries.len(),
        m.entries.len() == m.slots.len(),
        m.entries[k].kind != NodeKind::Dir,
        forall|j: int| k < j < m.entries.len() ==> (#[trigger] m.entries[j]).path != m.entries[k].path,
    ensures
        m.entries[k].encrypted ==> zip_read(m, m.entries[k]) is Err,
        !m.entries[k].encrypted && zip_content(m.bytes, m.slots[k]) is Ok ==> zip_read(
            m,
            m.entries[k],
        ) == Ok::<Seq<u8>, ErrorView>(zip_content(m.bytes, m.slots[k])->Ok_0),
        zip_content(m.bytes, m.slots[k]) is Err ==> zip_read(m, m.entries[k]) is Err,
{
    last_index_greatest(m.entries, m.entries[k].path);
}

/// A zip archive opens exactly if its central directory can be read, all its records can, and so can
/// the beginning of every plain file that is listed and not encrypted. A wrong password is told as
/// one. It says that it is encrypted if an entry is, and never needs a password, since encrypted
/// entries cannot be read.
pub proof fn readable_zip_archives_open(bytes: Seq<u8>, o: OptionsView)
    ensures
        crate::archive::zip::zip_refusal(bytes) is Some ==> zip_model(bytes, o) is Err,
        crate::archive::zip::zip_refusal(bytes) is None && (forall|i: int|
            0 <= i < zip_count(bytes) ==> #[trigger] zip_record(bytes, i) is Ok && zip_head(
                bytes,
                i,
                512,
            ) is Ok) ==> zip_model(bytes, o) is Ok,
        crate::archive::zip::zip_refusal(bytes) is Some ==> {
            let fault = crate::archive::zip::zip_fault(crate::archive::zip::zip_refusal(bytes)->0);
            let error = zip_model(bytes, o)->Err_0;
            &&& (error is WrongPassword <==> fault is InvalidPassword)
            &&& (error is Io <==> fault is Io)
            &&& (fault is Io ==> error->Io_0 == fault->Io_0)
            &&& (error is UnsupportedFeature <==> fault is UnsupportedArchive)
            &&& (fault is UnsupportedArchive ==> error->UnsupportedFeature_0
                == fault->UnsupportedArchive_0)
            &&& (fault is InvalidArchive ==> error == ErrorView::CorruptArchive(
                fault->InvalidArchive_0,
            ))
            &&& !(error is PasswordRequired)
        },
        zip_model(bytes, o) is Ok ==> {
            let m = zip_model(bytes, o)->Ok_0;
            let can = crate::archive::zip::zip_abilities(m);
            &&& (can.encrypted <==> exists|k: int|
                0 <= k < m.entries.len() && (#[trigger] m.entries[k]).encrypted)
            &&& !can.needs_password
            &&& can.random_access
            &&& !can.can_write
        },
{
    if forall|i: int|
        0 <= i < zip_count(bytes) ==> #[trigger] zip_record(bytes, i) is Ok && zip_head(
            bytes,
            i,
            512,
        ) is Ok {
        readable_records(bytes, zip_count(bytes));
        let rs = zip_records(bytes, zip_count(bytes))->Ok_0;
        records_are_read(bytes, zip_count(bytes));
        let cp = crate::archive::zip::zip_codepage(rs, o.encoding);
        let l = zip_listing(rs, o.encoding, cp);
        listing_holds_records(rs, o.encoding, cp);
        assert forall|k: int| 0 <= k < l.slots.len() implies zip_head(
            bytes,
            #[trigger] l.slots[k],
            512,
        ) is Ok by {
            assert(zip_record(bytes, l.slots[k]) is Ok);
        }
        readable_heads(bytes, l, l.entries.len() as int);
    }
}

/// Where every record can be read, all can.
proof fn readable_records(bytes: Seq<u8>, n: nat)
    requires
        forall|i: int| 0 <= i < n ==> #[trigger] zip_record(bytes, i) is Ok,
    ensures
        zip_records(bytes, n) is Ok,
    decreases n,
{
    if n > 0 {
        readable_records(bytes, (n - 1) as nat);
        assert(zip_record(bytes, n - 1) is Ok);
    }
}

/// Where every beginning can be read, all entries can be marked.
proof fn readable_heads(bytes: Seq<u8>, l: ZipListing, n: int)
    requires
        0 <= n <= l.entries.len(),
        l.entries.len() == l.slots.len(),
        forall|k: int| 0 <= k < l.slots.len() ==> zip_head(bytes, #[trigger] l.slots[k], 512) is Ok,
    ensures
        zip_marked(bytes, l, n) is Ok,
    decreases n,
{
    if n > 0 {
        readable_heads(bytes, l, n - 1);
        assert(zip_head(bytes, l.slots[n - 1], 512) is Ok);
    }
}

} // verus!
