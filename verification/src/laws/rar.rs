//! What a RAR archive is listed as, and what its entries hold.

use vstd::prelude::*;
use vstd::utf8::*;

use crate::archive::rar::{
    first_payload, last_payload, rar_abilities, rar_chain, rar_content, rar_fault, rar_listing,
    rar_marked, rar_members, rar_model, rar_read, rar_refusal, rar_solid, RarListing, RarMemberView,
    RarModel,
};
use crate::archive::{is_nested_archive, last_index_greatest, OptionsView};
use crate::encoding::{
    big5_text, decodable, gbk_text, shift_jis_text, shown_name, Codepage, FilenameEncoding,
    Utf8Flag,
};
use crate::error::ErrorView;
use crate::model::{normal_path, EntryView, NodeKind};
use crate::text::lossy_utf8;
use crate::timestamp::dos_civil;

verus! {

/// What the listing of members holds.
proof fn listing_holds_members(ms: Seq<RarMemberView>, enc: FilenameEncoding)
    ensures
        ({
            let l = rar_listing(ms, enc);
            &&& l.entries.len() == l.slots.len()
            &&& forall|k: int|
                0 <= k < l.slots.len() ==> {
                    let i = #[trigger] l.slots[k];
                    &&& 0 <= i < ms.len()
                    &&& normal_path(shown_name(ms[i].name, enc, Utf8Flag(ms[i].is_rar5))) == Ok::<
                        Seq<char>,
                        ErrorView,
                    >(l.entries[k].path)
                    &&& l.entries[k] == crate::archive::rar::rar_entry(ms[i], l.entries[k].path)
                }
            &&& forall|k: int, j: int| 0 <= k < j < l.slots.len() ==> l.slots[k] < l.slots[j]
            &&& forall|i: int|
                0 <= i < ms.len() && normal_path(
                    shown_name((#[trigger] ms[i]).name, enc, Utf8Flag(ms[i].is_rar5)),
                ) is Ok ==> l.slots.contains(i)
        }),
    decreases ms.len(),
{
    if ms.len() > 0 {
        let front = ms.drop_last();
        listing_holds_members(front, enc);
        let (f, l) = (rar_listing(front, enc), rar_listing(ms, enc));
        assert forall|i: int| 0 <= i < ms.len() && normal_path(
            shown_name((#[trigger] ms[i]).name, enc, Utf8Flag(ms[i].is_rar5)),
        ) is Ok implies l.slots.contains(i) by {
            if i < front.len() {
                assert(front[i] == ms[i]);
                let k = choose|k: int| 0 <= k < f.slots.len() && f.slots[k] == i;
                assert(l.slots[k] == i);
            } else {
                assert(l.slots[l.slots.len() - 1] == i);
            }
        }
        assert forall|k: int| 0 <= k < l.slots.len() implies {
            let i = #[trigger] l.slots[k];
            &&& 0 <= i < ms.len()
            &&& normal_path(shown_name(ms[i].name, enc, Utf8Flag(ms[i].is_rar5))) == Ok::<
                Seq<char>,
                ErrorView,
            >(l.entries[k].path)
            &&& l.entries[k] == crate::archive::rar::rar_entry(ms[i], l.entries[k].path)
        } by {
            if k < f.slots.len() {
                assert(l.slots[k] == f.slots[k]);
                assert(front[f.slots[k]] == ms[l.slots[k]]);
            }
        }
        assert forall|k: int, j: int| 0 <= k < j < l.slots.len() implies l.slots[k] < l.slots[j] by {
            assert(l.slots[k] == f.slots[k]);
            assert(0 <= f.slots[k] < front.len());
        }
    }
}

/// Marking changes nothing but kinds, and those only from file to archive.
proof fn marking_changes_kinds(
    bytes: Seq<u8>,
    password: Option<Seq<u8>>,
    ms: Seq<RarMemberView>,
    l: RarListing,
)
    ensures
        rar_marked(bytes, password, ms, l).len() == l.entries.len(),
        forall|k: int|
            0 <= k < l.entries.len() ==> {
                let out = #[trigger] rar_marked(bytes, password, ms, l)[k];
                out == l.entries[k] || (l.entries[k].kind == NodeKind::File
                    && !l.entries[k].encrypted && out == EntryView {
                    kind: NodeKind::Archive,
                    ..l.entries[k]
                })
            },
{
}

/// A RAR archive lists its members, in order and without gaps but for those whose path is refused,
/// each with what its header says of it.
pub proof fn rar_lists_its_members(bytes: Seq<u8>, o: OptionsView, m: RarModel)
    requires
        rar_model(bytes, o) == Ok::<RarModel, ErrorView>(m),
    ensures
        m.bytes == bytes,
        m.password == o.password,
        m.members == rar_members(bytes, o.password),
        m.solid == rar_solid(bytes, o.password),
        m.entries.len() == m.slots.len(),
        forall|k: int, j: int| 0 <= k < j < m.slots.len() ==> m.slots[k] < m.slots[j],
        forall|k: int|
            0 <= k < m.slots.len() ==> {
                let i = #[trigger] m.slots[k];
                let e = m.entries[k];
                let r = rar_members(bytes, o.password)[i];
                &&& 0 <= i < rar_members(bytes, o.password).len()
                &&& e.raw_name == r.name
                &&& (e.kind == NodeKind::Dir <==> r.is_directory)
                &&& (e.kind == NodeKind::Symlink <==> !r.is_directory && r.is_redirection)
                &&& (e.uncompressed_size is None <==> r.is_directory)
                &&& (e.compressed_size is None <==> r.is_directory)
                &&& (!r.is_directory ==> e.uncompressed_size == Some(r.unpacked_size))
                &&& (!r.is_directory ==> e.compressed_size == Some(r.packed_size))
                &&& e.mode is None
                &&& e.comment is None
                &&& e.crc == r.crc
                &&& e.encrypted == r.is_encrypted
            },
        forall|k: int|
            0 <= k < m.slots.len() ==> {
                let r = rar_members(bytes, o.password)[#[trigger] m.slots[k]];
                let at = dos_civil((r.file_time->0 / 65536) as u16, (r.file_time->0 % 65536) as u16);
                match m.entries[k].mtime {
                    Some(t) => r.file_time is Some && at.exists_in_calendar() && t.nanos == 0
                        && t.secs == at.unix_seconds() as i64,
                    None => r.file_time is None || !at.exists_in_calendar(),
                }
            },
{
    let ms = rar_members(bytes, o.password);
    let l = rar_listing(ms, o.encoding);
    listing_holds_members(ms, o.encoding);
    marking_changes_kinds(bytes, o.password, ms, l);
    assert forall|k: int| 0 <= k < m.slots.len() implies l.slots[k] == #[trigger] m.slots[k] by {}
    assert forall|k: int| 0 <= k < m.entries.len() implies rar_marked(
        bytes,
        o.password,
        ms,
        l,
    )[k] == #[trigger] m.entries[k] by {}
}

/// Names in a RAR archive are UTF-8 from RAR 5 on, whatever they hold; before, they are decoded as
/// UTF-8, or as GBK where they are not UTF-8. A forced codepage overrules that. What cannot be
/// decoded is listed as lossy UTF-8. A member is listed exactly if its name is a path.
pub proof fn rar_names_are_decoded(bytes: Seq<u8>, o: OptionsView, m: RarModel, i: int)
    requires
        rar_model(bytes, o) == Ok::<RarModel, ErrorView>(m),
        0 <= i < rar_members(bytes, o.password).len(),
        decodable(rar_members(bytes, o.password)[i].name),
    ensures
        ({
            let r = rar_members(bytes, o.password)[i];
            let raw = r.name;
            let path = normal_path(
                match o.encoding {
                    FilenameEncoding::Forced(Codepage::Gbk) => gbk_text(raw),
                    FilenameEncoding::Forced(Codepage::ShiftJis) => shift_jis_text(raw),
                    FilenameEncoding::Forced(Codepage::Big5) => big5_text(raw),
                    FilenameEncoding::Forced(Codepage::Cp437) => lossy_utf8(raw),
                    FilenameEncoding::Forced(Codepage::Utf8) => if valid_utf8(raw) {
                        decode_utf8(raw)
                    } else {
                        lossy_utf8(raw)
                    },
                    FilenameEncoding::Auto => if valid_utf8(raw) {
                        decode_utf8(raw)
                    } else if r.is_rar5 {
                        lossy_utf8(raw)
                    } else {
                        gbk_text(raw)
                    },
                },
            );
            &&& (path is Ok <==> m.slots.contains(i))
            &&& forall|k: int|
                0 <= k < m.slots.len() && #[trigger] m.slots[k] == i ==> path == Ok::<
                    Seq<char>,
                    ErrorView,
                >(m.entries[k].path)
        }),
{
    let ms = rar_members(bytes, o.password);
    let l = rar_listing(ms, o.encoding);
    listing_holds_members(ms, o.encoding);
    marking_changes_kinds(bytes, o.password, ms, l);
    assert forall|k: int| 0 <= k < m.slots.len() implies l.slots[k] == #[trigger] m.slots[k] by {}
    assert forall|k: int| 0 <= k < m.entries.len() implies rar_marked(
        bytes,
        o.password,
        ms,
        l,
    )[k] == #[trigger] m.entries[k] by {}
    assert(ms[i].name == rar_members(bytes, o.password)[i].name);
}

/// Reading an entry of a RAR archive that is not solid gives the content of its own member: of the
/// last one, where several have its path. One that lies across volumes cannot be read.
pub proof fn rar_entries_hold_their_content(bytes: Seq<u8>, o: OptionsView, m: RarModel, k: int)
    requires
        rar_model(bytes, o) == Ok::<RarModel, ErrorView>(m),
        !rar_solid(bytes, o.password),
        0 <= k < m.entries.len(),
        forall|j: int| k < j < m.entries.len() ==> (#[trigger] m.entries[j]).path != m.entries[k].path,
    ensures
        ({
            let i = m.slots[k];
            let r = rar_members(bytes, o.password)[i];
            let read = rar_read(m, m.entries[k]);
            let held = rar_content(bytes, o.password, i);
            let split = r.is_split.0 || r.is_split.1;
            &&& (r.is_directory ==> read is Ok && read->Ok_0.len() == 0)
            &&& (!r.is_directory && split ==> read is Err && read->Err_0 is UnsupportedFeature)
            &&& (!r.is_directory && !split && held is Ok && held->Ok_0 is Some ==> read == Ok::<
                Seq<u8>,
                ErrorView,
            >(held->Ok_0->0))
            &&& (!r.is_directory && !split && held is Err ==> read is Err)
        }),
{
    rar_lists_its_members(bytes, o, m);
    last_index_greatest(m.entries, m.entries[k].path);
    let i = m.slots[k];
}

/// Where a member with content has a name, the first one is found.
proof fn first_payload_is_first(ms: Seq<RarMemberView>, name: Seq<u8>)
    requires
        ms.len() <= usize::MAX,
    ensures
        match first_payload(ms, name) {
            Some(i) => 0 <= i < ms.len() && ms[i as int].name == name && !ms[i as int].is_directory
                && !ms[i as int].is_redirection && forall|j: int|
                0 <= j < i ==> (#[trigger] ms[j]).name != name || ms[j].is_directory
                    || ms[j].is_redirection,
            None => forall|j: int|
                0 <= j < ms.len() ==> (#[trigger] ms[j]).name != name || ms[j].is_directory
                    || ms[j].is_redirection,
        },
    decreases ms.len(),
{
    if ms.len() > 0 {
        let front = ms.drop_last();
        first_payload_is_first(front, name);
        assert forall|j: int| 0 <= j < front.len() implies front[j] == #[trigger] ms[j] by {}
    }
}

/// Where a member has content, the last one is found.
proof fn last_payload_is_last(ms: Seq<RarMemberView>)
    requires
        ms.len() <= usize::MAX,
    ensures
        match last_payload(ms) {
            Some(i) => 0 <= i < ms.len() && !ms[i as int].is_directory
                && !ms[i as int].is_redirection && forall|j: int|
                i < j < ms.len() ==> (#[trigger] ms[j]).is_directory || ms[j].is_redirection,
            None => forall|j: int|
                0 <= j < ms.len() ==> (#[trigger] ms[j]).is_directory || ms[j].is_redirection,
        },
    decreases ms.len(),
{
    if ms.len() > 0 {
        let front = ms.drop_last();
        last_payload_is_last(front);
        assert forall|j: int| 0 <= j < front.len() implies front[j] == #[trigger] ms[j] by {}
    }
}

/// Reading an entry of a solid RAR archive decodes the whole chain of members with content, up to
/// the last one, and gives the content of the first member that has the entry's stored name.
pub proof fn solid_rar_entries_hold_their_content(
    bytes: Seq<u8>,
    o: OptionsView,
    m: RarModel,
    k: int,
    first: usize,
    last: usize,
)
    requires
        rar_model(bytes, o) == Ok::<RarModel, ErrorView>(m),
        rar_solid(bytes, o.password),
        m.members.len() <= usize::MAX,
        0 <= k < m.entries.len(),
        m.entries[k].kind != NodeKind::Dir,
        forall|j: int| k < j < m.entries.len() ==> (#[trigger] m.entries[j]).path != m.entries[k].path,
        // The first member with content under that name.
        first < m.members.len(),
        m.members[first as int].name == m.entries[k].raw_name,
        !m.members[first as int].is_directory,
        !m.members[first as int].is_redirection,
        forall|j: int|
            0 <= j < first ==> (#[trigger] m.members[j]).name != m.entries[k].raw_name
                || m.members[j].is_directory || m.members[j].is_redirection,
        // The last member with content.
        first <= last < m.members.len(),
        !m.members[last as int].is_directory,
        !m.members[last as int].is_redirection,
        forall|j: int|
            last < j < m.members.len() ==> (#[trigger] m.members[j]).is_directory
                || m.members[j].is_redirection,
    ensures
        ({
            let chain = rar_chain(bytes, o.password, seq![first, last]);
            let read = rar_read(m, m.entries[k]);
            &&& (chain is Err ==> read is Err)
            &&& (chain is Ok && chain->Ok_0[0] is Some ==> read == Ok::<Seq<u8>, ErrorView>(
                chain->Ok_0[0]->0,
            ))
        }),
{
    rar_lists_its_members(bytes, o, m);
    last_index_greatest(m.entries, m.entries[k].path);
    first_payload_is_first(m.members, m.entries[k].raw_name);
    last_payload_is_last(m.members);
    let f = first_payload(m.members, m.entries[k].raw_name);
    let l = last_payload(m.members);
    assert(f == Some(first)) by {
        if f is Some && f->0 < first {
            assert(m.members[f->0 as int].name == m.entries[k].raw_name);
        }
        assert(m.members[first as int].name == m.entries[k].raw_name);
    }
    assert(l == Some(last)) by {
        assert(!m.members[last as int].is_directory);
        if l is Some && l->0 > last {
            assert(!m.members[l->0 as int].is_directory);
        }
    }
}

/// An entry of a RAR archive that is not solid is an archive exactly if it is a plain file of at
/// most a mebibyte that is not encrypted, can be read, and begins as an archive does.
pub proof fn rar_marks_nested_archives(bytes: Seq<u8>, o: OptionsView, m: RarModel, k: int)
    requires
        rar_model(bytes, o) == Ok::<RarModel, ErrorView>(m),
        !rar_solid(bytes, o.password),
        0 <= k < m.entries.len(),
    ensures
        ({
            let r = rar_members(bytes, o.password)[m.slots[k]];
            let held = rar_content(bytes, o.password, m.slots[k]);
            m.entries[k].kind == NodeKind::Archive <==> {
                &&& !r.is_directory && !r.is_redirection && !r.is_encrypted
                &&& r.unpacked_size <= 1_048_576
                &&& !r.is_split.0 && !r.is_split.1
                &&& held is Ok && held->Ok_0 is Some
                &&& is_nested_archive(
                    if held->Ok_0->0.len() <= 512 {
                        held->Ok_0->0
                    } else {
                        held->Ok_0->0.subrange(0, 512)
                    },
                )
            }
        }),
{
    let ms = rar_members(bytes, o.password);
    let l = rar_listing(ms, o.encoding);
    listing_holds_members(ms, o.encoding);
    assert(l.slots[k] == m.slots[k]);
    let held = rar_content(bytes, o.password, m.slots[k]);
    if held is Ok && held->Ok_0 is Some && held->Ok_0->0.len() > 512 {
        assert(held->Ok_0->0.take(512) =~= held->Ok_0->0.subrange(0, 512));
    }
}

/// A RAR archive opens exactly if its members can be read with the password. It is asked for one
/// where that fails for lack of one, or where an entry is encrypted and none was given.
pub proof fn readable_rar_archives_open(bytes: Seq<u8>, o: OptionsView)
    ensures
        rar_model(bytes, o) is Ok <==> rar_refusal(bytes, o.password) is None,
        rar_refusal(bytes, o.password) is Some ==> {
            let fault = rar_fault(rar_refusal(bytes, o.password)->0);
            let error = rar_model(bytes, o)->Err_0;
            &&& (error is PasswordRequired <==> fault is NeedPassword)
            &&& (error is WrongPassword <==> fault is WrongPasswordOrCorruptData
                || fault is BadPassword)
            &&& (error is Io <==> fault is Io)
            &&& (error is Cancelled <==> fault is Cancelled)
        },
        rar_refusal(bytes, o.password) is None ==> {
            let m = rar_model(bytes, o)->Ok_0;
            let can = rar_abilities(m);
            &&& (can.encrypted <==> exists|k: int|
                0 <= k < m.entries.len() && (#[trigger] m.entries[k]).encrypted)
            &&& (can.needs_password <==> can.encrypted && o.password is None)
            &&& (can.random_access <==> !rar_solid(bytes, o.password))
            &&& !can.can_write
        },
{
}

/// The members that are looked at hold those of the entries that are, each at its own place.
proof fn looked_at_in_order(l: RarListing, n: int, k: int)
    requires
        0 <= k < n <= l.entries.len(),
        l.entries.len() == l.slots.len(),
        crate::archive::rar::rar_sniffed(l.entries[k]),
    ensures
        ({
            let at = crate::archive::rar::sniffed_slots(l, k).len() as int;
            let all = crate::archive::rar::sniffed_slots(l, n);
            0 <= at < all.len() && all[at] == l.slots[k] as usize
        }),
    decreases n,
{
    if k < n - 1 {
        looked_at_in_order(l, n - 1, k);
    }
}

/// In a solid RAR archive of at most eight mebibytes, one pass over the chain tells which entries
/// are archives: each plain file of at most a mebibyte that is not encrypted is decoded under the
/// number of its own member, and is an archive exactly if what it holds begins as one does. Where
/// the chain cannot be decoded, and in larger archives, no entry is marked.
pub proof fn solid_rar_marks_nested_archives(
    bytes: Seq<u8>,
    o: OptionsView,
    m: RarModel,
    k: int,
) -> (r: (Seq<usize>, int))
    requires
        rar_model(bytes, o) == Ok::<RarModel, ErrorView>(m),
        rar_solid(bytes, o.password),
        0 <= k < m.entries.len(),
        m.members.len() <= usize::MAX,
    ensures
        ({
            let (wanted, at) = r;
            let member = rar_members(bytes, o.password)[m.slots[k]];
            let chain = rar_chain(bytes, o.password, wanted);
            let plain = !member.is_directory && !member.is_redirection && !member.is_encrypted
                && member.unpacked_size <= 1_048_576;
            let held = chain->Ok_0[at];
            &&& (m.entries[k].kind == NodeKind::Archive ==> plain && bytes.len() <= 8_388_608
                && chain is Ok)
            &&& (plain && bytes.len() <= 8_388_608 && chain is Ok ==> {
                &&& 0 <= at < wanted.len()
                &&& wanted[at] == m.slots[k]
                &&& (m.entries[k].kind == NodeKind::Archive <==> held is Some && is_nested_archive(
                    if held->0.len() <= 512 {
                        held->0
                    } else {
                        held->0.subrange(0, 512)
                    },
                ))
            })
        }),
{
    let ms = rar_members(bytes, o.password);
    let l = rar_listing(ms, o.encoding);
    let n = l.entries.len() as int;
    listing_holds_members(ms, o.encoding);
    assert(l.slots[k] == m.slots[k]);
    let wanted = crate::archive::rar::sniffed_chain(ms, l);
    let at = crate::archive::rar::sniffed_slots(l, k).len() as int;
    if crate::archive::rar::rar_sniffed(l.entries[k]) {
        looked_at_in_order(l, n, k);
        assert(wanted[at] == crate::archive::rar::sniffed_slots(l, n)[at]);
        let chain = rar_chain(bytes, o.password, wanted);
        if chain is Ok && chain->Ok_0[at] is Some && chain->Ok_0[at]->0.len() > 512 {
            assert(chain->Ok_0[at]->0.take(512) =~= chain->Ok_0[at]->0.subrange(0, 512));
        }
    }
    (wanted, at)
}

} // verus!
