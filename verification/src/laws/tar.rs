//! What a tar archive is listed as, and what its entries hold.

use vstd::prelude::*;
use vstd::utf8::*;

use crate::archive::tar::{
    overruns, tar_abilities, tar_index, tar_listing, tar_model, tar_read, TarModel, TarRecordView,
};
use crate::archive::{is_nested_archive, last_index_greatest, OptionsView};
use crate::encoding::{
    big5_text, decodable, gbk_text, listed_name, shift_jis_text, Codepage, FilenameEncoding,
};
use crate::error::ErrorView;
use crate::model::{normal_path, NodeKind};
use crate::text::lossy_utf8;

verus! {

/// What the listing of headers holds.
proof fn listing_holds_records(
    bytes: Seq<u8>,
    rs: Seq<TarRecordView>,
    enc: FilenameEncoding,
) -> (slots: Seq<int>)
    ensures
        ({
            let l = tar_listing(bytes, rs, enc);
            &&& l.bytes == bytes
            &&& l.entries.len() == slots.len()
            &&& l.places.len() == slots.len()
            &&& forall|k: int|
                0 <= k < slots.len() ==> {
                    let i = #[trigger] slots[k];
                    &&& 0 <= i < rs.len()
                    &&& normal_path(listed_name(rs[i].name, enc)) == Ok::<Seq<char>, ErrorView>(
                        l.entries[k].path,
                    )
                    &&& l.entries[k] == crate::archive::tar::tar_entry(
                        bytes,
                        rs[i],
                        l.entries[k].path,
                    )
                    &&& l.places[k] == (rs[i].position, rs[i].size)
                }
            &&& forall|k: int, j: int| 0 <= k < j < slots.len() ==> slots[k] < slots[j]
            &&& forall|i: int|
                0 <= i < rs.len() && normal_path(listed_name((#[trigger] rs[i]).name, enc)) is Ok
                    ==> slots.contains(i)
        }),
    decreases rs.len(),
{
    if rs.len() == 0 {
        Seq::empty()
    } else {
        let front = rs.drop_last();
        let before = listing_holds_records(bytes, front, enc);
        let (f, l) = (tar_listing(bytes, front, enc), tar_listing(bytes, rs, enc));
        let taken = normal_path(listed_name(rs.last().name, enc)) is Ok;
        let slots = if taken {
            before.push(rs.len() - 1)
        } else {
            before
        };
        assert forall|i: int| 0 <= i < rs.len() && normal_path(
            listed_name((#[trigger] rs[i]).name, enc),
        ) is Ok implies slots.contains(i) by {
            if i < front.len() {
                assert(front[i] == rs[i]);
                let k = choose|k: int| 0 <= k < before.len() && before[k] == i;
                assert(slots[k] == i);
            } else {
                assert(slots[slots.len() - 1] == i);
            }
        }
        assert forall|k: int| 0 <= k < slots.len() implies {
            let i = #[trigger] slots[k];
            &&& 0 <= i < rs.len()
            &&& normal_path(listed_name(rs[i].name, enc)) == Ok::<Seq<char>, ErrorView>(
                l.entries[k].path,
            )
            &&& l.entries[k] == crate::archive::tar::tar_entry(bytes, rs[i], l.entries[k].path)
            &&& l.places[k] == (rs[i].position, rs[i].size)
        } by {
            if k < before.len() {
                assert(slots[k] == before[k]);
                assert(front[before[k]] == rs[slots[k]]);
            }
        }
        assert forall|k: int, j: int| 0 <= k < j < slots.len() implies slots[k] < slots[j] by {
            assert(slots[k] == before[k]);
            assert(0 <= before[k] < front.len());
        }
        slots
    }
}

/// A tar archive opens exactly if its headers can be scanned, and lists them in order and without
/// gaps but for those whose path is refused, each with what its header says. `slots` says which
/// header each entry stands for. An entry holds the bytes behind its header, and is an archive if
/// those begin as one does.
pub proof fn tar_lists_its_headers(bytes: Seq<u8>, o: OptionsView, m: TarModel) -> (slots: Seq<int>)
    requires
        tar_model(bytes, o) == Ok::<TarModel, ErrorView>(m),
    ensures
        tar_index(bytes) is Ok,
        m.bytes == bytes,
        m.entries.len() == slots.len(),
        forall|k: int, j: int| 0 <= k < j < slots.len() ==> slots[k] < slots[j],
        forall|k: int|
            0 <= k < slots.len() ==> {
                let i = #[trigger] slots[k];
                let e = m.entries[k];
                let r = tar_index(bytes)->Ok_0[i];
                &&& 0 <= i < tar_index(bytes)->Ok_0.len()
                &&& normal_path(listed_name(r.name, o.encoding)) == Ok::<Seq<char>, ErrorView>(
                    e.path,
                )
                &&& e.raw_name == r.name
                &&& e.uncompressed_size == Some(r.size)
                &&& e.compressed_size is None
                &&& e.mode == r.mode
                &&& e.crc is None
                &&& !e.encrypted
                &&& e.comment is None
                &&& match e.mtime {
                    Some(t) => r.mtime is Some && t.secs == r.mtime->0 && t.nanos == 0,
                    None => r.mtime is None || r.mtime->0 > i64::MAX,
                }
                &&& e.kind == NodeKind::Dir <==> r.is_dir
                &&& e.kind == NodeKind::Symlink <==> !r.is_dir && r.is_symlink
            },
        forall|i: int|
            0 <= i < tar_index(bytes)->Ok_0.len() && normal_path(
                listed_name((#[trigger] tar_index(bytes)->Ok_0[i]).name, o.encoding),
            ) is Ok ==> slots.contains(i),
{
    listing_holds_records(bytes, tar_index(bytes)->Ok_0, o.encoding)
}

/// Reading an entry of a tar archive gives the bytes that lie where its header says: of the last
/// header, where several have its path. It is an archive exactly if its first 512 bytes begin as
/// one does.
pub proof fn tar_entries_hold_their_bytes(bytes: Seq<u8>, o: OptionsView, m: TarModel, k: int) -> (i:
    int)
    requires
        tar_model(bytes, o) == Ok::<TarModel, ErrorView>(m),
        0 <= k < m.entries.len(),
        forall|j: int| k < j < m.entries.len() ==> (#[trigger] m.entries[j]).path != m.entries[k].path,
    ensures
        0 <= i < tar_index(bytes)->Ok_0.len(),
        m.entries[k].raw_name == tar_index(bytes)->Ok_0[i].name,
        ({
            let r = tar_index(bytes)->Ok_0[i];
            let read = tar_read(m, m.entries[k]);
            let held = read->Ok_0;
            &&& read is Ok
            &&& r.is_dir ==> held.len() == 0
            &&& !r.is_dir && r.position + r.size <= bytes.len() ==> held == bytes.subrange(
                r.position as int,
                r.position + r.size,
            )
            &&& !r.is_dir && r.position <= bytes.len() < r.position + r.size ==> held
                == bytes.subrange(r.position as int, bytes.len() as int)
            &&& !r.is_dir && !r.is_symlink ==> (m.entries[k].kind == NodeKind::Archive
                <==> is_nested_archive(
                if held.len() <= 512 {
                    held
                } else {
                    held.subrange(0, 512)
                },
            ))
        }),
{
    let rs = tar_index(bytes)->Ok_0;
    let slots = listing_holds_records(bytes, rs, o.encoding);
    last_index_greatest(m.entries, m.entries[k].path);
    let i = slots[k];
    let r = rs[i];
    let held = crate::archive::tar::tar_slice(bytes, r.position as int, r.size as int);
    assert(m.places[k] == (r.position, r.size));
    if r.position + r.size <= bytes.len() {
        assert(held =~= bytes.subrange(r.position as int, r.position + r.size));
    } else if r.position <= bytes.len() {
        assert(held =~= bytes.subrange(r.position as int, bytes.len() as int));
    }
    if held.len() > 512 {
        assert(held.take(512) =~= held.subrange(0, 512));
    }
    i
}

/// A tar archive whose headers can be scanned is opened, and no other. Nothing in it needs a
/// password.
pub proof fn scannable_tars_open(bytes: Seq<u8>, o: OptionsView)
    ensures
        tar_model(bytes, o) is Ok <==> tar_index(bytes) is Ok && !overruns(bytes, 0, None),
        tar_index(bytes) is Err && !overruns(bytes, 0, None) ==> tar_model(bytes, o) == Err::<
            TarModel,
            ErrorView,
        >(ErrorView::Io(tar_index(bytes)->Err_0)),
        tar_model(bytes, o) is Ok ==> {
            let can = tar_abilities(tar_model(bytes, o)->Ok_0);
            can.random_access && !can.encrypted && !can.needs_password && !can.can_write
        },
{
}

/// The name of an entry that says nothing of its encoding is decoded in the codepage that is
/// forced, and as lossy UTF-8 only where that fails; by default it is decoded as UTF-8, or as GBK
/// where it is not UTF-8.
pub proof fn listed_names_are_decoded(raw: Seq<u8>, enc: FilenameEncoding)
    requires
        decodable(raw),
    ensures
        match enc {
            FilenameEncoding::Forced(Codepage::Gbk) => listed_name(raw, enc) == gbk_text(raw),
            FilenameEncoding::Forced(Codepage::ShiftJis) => listed_name(raw, enc) == shift_jis_text(
                raw,
            ),
            FilenameEncoding::Forced(Codepage::Big5) => listed_name(raw, enc) == big5_text(raw),
            FilenameEncoding::Forced(Codepage::Cp437) => listed_name(raw, enc) == lossy_utf8(raw),
            FilenameEncoding::Forced(Codepage::Utf8) => {
                &&& valid_utf8(raw) ==> listed_name(raw, enc) == decode_utf8(raw)
                &&& !valid_utf8(raw) ==> listed_name(raw, enc) == lossy_utf8(raw)
            },
            FilenameEncoding::Auto => {
                &&& valid_utf8(raw) ==> listed_name(raw, enc) == decode_utf8(raw)
                &&& !valid_utf8(raw) ==> listed_name(raw, enc) == gbk_text(raw)
            },
        },
{
}

/// What is refused before its headers are scanned has, where a header can stand, that of a sparse
/// file whose size leaves no room for the archive behind it: no archive that can be scanned is like
/// that.
pub proof fn only_impossible_sizes_are_refused(bytes: Seq<u8>, at: int, pax: Option<Seq<u8>>) -> (r: (
    int,
    Option<Seq<u8>>,
))
    requires
        overruns(bytes, at, pax),
    ensures
        ({
            let (i, data) = r;
            let h = crate::archive::tar::tar_head(bytes.subrange(i, i + 512));
            let size = crate::archive::tar::data_size(h, data);
            &&& 0 <= i && i + 512 <= bytes.len()
            &&& h.kind == 0x53 && h.is_gnu && h.is_extended
            &&& size is Some
            &&& size->0 + 511 + bytes.len() > u64::MAX
            // The size is the header's own, or one that an extended header sets.
            &&& (size == h.size || (data is Some && size == crate::archive::tar::size_among(
                crate::archive::tar::pax_records(data->0),
            )))
        }),
    decreases bytes.len() - at,
{
    let block = bytes.subrange(at, at + 512);
    let h = crate::archive::tar::tar_head(block);
    let size = crate::archive::tar::data_size(h, pax)->0;
    let next = at + 512 + crate::archive::tar::whole_blocks(size);
    let known = h.is_gnu || h.is_ustar;
    if known && h.kind == 0x78 {
        only_impossible_sizes_are_refused(
            bytes,
            next,
            Some(crate::archive::tar::tar_slice(bytes, at + 512, size as int)),
        )
    } else if known && (h.kind == 0x4c || h.kind == 0x4b) {
        only_impossible_sizes_are_refused(bytes, next, pax)
    } else if h.kind != 0x53 || (h.is_gnu && !h.is_extended) {
        only_impossible_sizes_are_refused(bytes, next, None)
    } else if crate::archive::tar::whole_blocks(size) + bytes.len() > u64::MAX {
        (at, pax)
    } else {
        let k = crate::archive::tar::further_blocks(bytes, at + 512)->0;
        only_impossible_sizes_are_refused(bytes, next + 512 * k, None)
    }
}

} // verus!
