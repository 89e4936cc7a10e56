//! What a 7z archive is listed as, and what its entries hold.

use vstd::prelude::*;
use vstd::utf8::*;

use crate::archive::sevenz::{
    sevenz_abilities, sevenz_blocks, sevenz_content, sevenz_error, sevenz_fault, sevenz_files,
    sevenz_listing, sevenz_model, sevenz_read, sevenz_refusal, sevenz_solid, SevenZipFaultView,
    SevenZipFileView, SevenZipModel,
};
use crate::archive::{is_nested_archive, last_index_greatest, OptionsView};
use crate::error::ErrorView;
use crate::model::{normal_path, NodeKind};
use crate::text::lossy_utf8;

verus! {

/// What the listing of files holds.
proof fn listing_holds_files(
    bytes: Seq<u8>,
    password: Option<Seq<char>>,
    fs: Seq<SevenZipFileView>,
) -> (slots: Seq<int>)
    ensures
        ({
            let l = sevenz_listing(bytes, password, fs);
            &&& l.bytes == bytes
            &&& l.password == password
            &&& l.solid == sevenz_solid(bytes, password)
            &&& l.encrypted == crate::archive::sevenz::any_block_encrypts(
                sevenz_blocks(bytes, password),
            )
            &&& l.entries.len() == slots.len()
            &&& l.names.len() == slots.len()
            &&& forall|k: int|
                0 <= k < slots.len() ==> {
                    let i = #[trigger] slots[k];
                    &&& 0 <= i < fs.len()
                    &&& normal_path(fs[i].name) == Ok::<Seq<char>, ErrorView>(l.entries[k].path)
                    &&& l.names[k] == fs[i].name
                    &&& l.entries[k] == crate::archive::sevenz::sevenz_entry(
                        bytes,
                        password,
                        fs[i],
                        l.entries[k].path,
                    )
                }
            &&& forall|k: int, j: int| 0 <= k < j < slots.len() ==> slots[k] < slots[j]
            &&& forall|i: int|
                0 <= i < fs.len() && normal_path((#[trigger] fs[i]).name) is Ok ==> slots.contains(i)
        }),
    decreases fs.len(),
{
    if fs.len() == 0 {
        Seq::empty()
    } else {
        let front = fs.drop_last();
        let before = listing_holds_files(bytes, password, front);
        let l = sevenz_listing(bytes, password, fs);
        let slots = if normal_path(fs.last().name) is Ok {
            before.push(fs.len() - 1)
        } else {
            before
        };
        assert forall|i: int| 0 <= i < fs.len() && normal_path(
            (#[trigger] fs[i]).name,
        ) is Ok implies slots.contains(i) by {
            if i < front.len() {
                assert(front[i] == fs[i]);
                let k = choose|k: int| 0 <= k < before.len() && before[k] == i;
                assert(slots[k] == i);
            } else {
                assert(slots[slots.len() - 1] == i);
            }
        }
        assert forall|k: int| 0 <= k < slots.len() implies {
            let i = #[trigger] slots[k];
            &&& 0 <= i < fs.len()
            &&& normal_path(fs[i].name) == Ok::<Seq<char>, ErrorView>(l.entries[k].path)
            &&& l.names[k] == fs[i].name
            &&& l.entries[k] == crate::archive::sevenz::sevenz_entry(
                bytes,
                password,
                fs[i],
                l.entries[k].path,
            )
        } by {
            if k < before.len() {
                assert(slots[k] == before[k]);
                assert(front[before[k]] == fs[slots[k]]);
            }
        }
        assert forall|k: int, j: int| 0 <= k < j < slots.len() implies slots[k] < slots[j] by {
            assert(slots[k] == before[k]);
            assert(0 <= before[k] < front.len());
        }
        slots
    }
}

/// Whether a block of a 7z archive is encrypted: one of its coders has the method that encrypts.
pub open spec fn block_is_locked(blocks: Seq<Seq<Seq<u8>>>, b: int) -> bool {
    0 <= b < blocks.len() && exists|c: int|
        0 <= c < blocks[b].len() && (#[trigger] blocks[b][c]).len() == 4 && blocks[b][c][0] == 0x06
            && blocks[b][c][1] == 0xf1 && blocks[b][c][2] == 0x07 && blocks[b][c][3] == 0x01
}

/// The coder that encrypts is known by its four bytes.
proof fn aes_by_bytes(id: Seq<u8>)
    ensures
        id == crate::archive::sevenz::aes_method() <==> id.len() == 4 && id[0] == 0x06 && id[1]
            == 0xf1 && id[2] == 0x07 && id[3] == 0x01,
{
    if id.len() == 4 && id[0] == 0x06 && id[1] == 0xf1 && id[2] == 0x07 && id[3] == 0x01 {
        assert(id =~= crate::archive::sevenz::aes_method());
    }
}

/// A block is encrypted exactly if one of its coders encrypts.
proof fn locked_blocks(blocks: Seq<Seq<Seq<u8>>>, b: int)
    requires
        0 <= b < blocks.len(),
    ensures
        crate::archive::sevenz::encrypts(blocks[b]) == block_is_locked(blocks, b),
{
    assert forall|c: int| 0 <= c < blocks[b].len() implies (#[trigger] blocks[b][c]
        == crate::archive::sevenz::aes_method() <==> blocks[b][c].len() == 4 && blocks[b][c][0]
        == 0x06 && blocks[b][c][1] == 0xf1 && blocks[b][c][2] == 0x07 && blocks[b][c][3] == 0x01) by {
        aes_by_bytes(blocks[b][c]);
    }
    if crate::archive::sevenz::encrypts(blocks[b]) {
        let c = choose|c: int|
            0 <= c < blocks[b].len() && #[trigger] blocks[b][c]
                == crate::archive::sevenz::aes_method();
        assert(blocks[b][c].len() == 4);
    }
    if block_is_locked(blocks, b) {
        let c = choose|c: int|
            0 <= c < blocks[b].len() && (#[trigger] blocks[b][c]).len() == 4 && blocks[b][c][0]
                == 0x06 && blocks[b][c][1] == 0xf1 && blocks[b][c][2] == 0x07 && blocks[b][c][3]
                == 0x01;
        assert(blocks[b][c] == crate::archive::sevenz::aes_method());
    }
}

/// A 7z archive lists the files of its header, in order and without gaps but for those whose path
/// is refused, each with what the header says of it. `slots` says which file each entry stands for.
/// The password is handed on as text. A recorded time counts steps of 100 nanoseconds from 1601 on.
pub proof fn sevenz_lists_its_files(bytes: Seq<u8>, o: OptionsView, m: SevenZipModel) -> (slots: Seq<
    int,
>)
    requires
        sevenz_model(bytes, o) == Ok::<SevenZipModel, ErrorView>(m),
    ensures
        m.bytes == bytes,
        o.password is None ==> m.password is None,
        o.password is Some ==> m.password == Some(lossy_utf8(o.password->0)),
        m.solid == sevenz_solid(bytes, m.password),
        m.entries.len() == slots.len(),
        m.names.len() == slots.len(),
        forall|k: int, j: int| 0 <= k < j < slots.len() ==> slots[k] < slots[j],
        forall|k: int|
            0 <= k < slots.len() ==> {
                let i = #[trigger] slots[k];
                let e = m.entries[k];
                let f = sevenz_files(bytes, m.password)[i];
                &&& 0 <= i < sevenz_files(bytes, m.password).len()
                &&& normal_path(f.name) == Ok::<Seq<char>, ErrorView>(e.path)
                &&& m.names[k] == f.name
                &&& e.raw_name == encode_utf8(f.name)
                &&& e.kind == NodeKind::Dir <==> f.is_directory
                &&& e.kind != NodeKind::Symlink
                &&& e.uncompressed_size is None <==> f.is_directory
                &&& e.compressed_size is None <==> f.is_directory
                &&& !f.is_directory ==> e.uncompressed_size == Some(f.size)
                &&& !f.is_directory ==> e.compressed_size == Some(f.compressed_size)
                &&& e.mode is None
                &&& e.comment is None
                &&& e.crc is Some <==> f.crc is Some
                &&& f.crc is Some ==> e.crc->0 == f.crc->0 as u32
                &&& e.mtime is Some <==> f.modified is Some
                &&& f.modified is Some ==> e.mtime->0.nanos == f.modified->0 % 10_000_000 * 100
                &&& f.modified is Some ==> e.mtime->0.secs + 11_644_473_600 == f.modified->0
                    / 10_000_000
                &&& e.encrypted <==> f.block is Some && block_is_locked(
                    sevenz_blocks(bytes, m.password),
                    f.block->0 as int,
                )
            },
        forall|i: int|
            0 <= i < sevenz_files(bytes, m.password).len() && normal_path(
                (#[trigger] sevenz_files(bytes, m.password)[i]).name,
            ) is Ok ==> slots.contains(i),
{
    let key = crate::archive::sevenz::sevenz_password_text(o);
    let slots = listing_holds_files(bytes, key, sevenz_files(bytes, key));
    let blocks = sevenz_blocks(bytes, m.password);
    assert forall|k: int| 0 <= k < slots.len() implies (m.entries[k].encrypted <==> {
        let f = sevenz_files(bytes, m.password)[#[trigger] slots[k]];
        f.block is Some && block_is_locked(blocks, f.block->0 as int)
    }) by {
        let f = sevenz_files(bytes, m.password)[slots[k]];
        if f.block is Some && f.block->0 < blocks.len() {
            locked_blocks(blocks, f.block->0 as int);
        }
    }
    slots
}

/// Files with different recorded times are listed with different times.
pub proof fn sevenz_times_are_told_apart(
    bytes: Seq<u8>,
    o: OptionsView,
    m: SevenZipModel,
    k: int,
    j: int,
) -> (slots: Seq<int>)
    requires
        sevenz_model(bytes, o) == Ok::<SevenZipModel, ErrorView>(m),
        0 <= k < m.entries.len(),
        0 <= j < m.entries.len(),
        m.entries[k].mtime == m.entries[j].mtime,
    ensures
        slots.len() == m.entries.len(),
        sevenz_files(bytes, m.password)[slots[k]].modified == sevenz_files(
            bytes,
            m.password,
        )[slots[j]].modified,
{
    let slots = sevenz_lists_its_files(bytes, o, m);
    let fs = sevenz_files(bytes, m.password);
    let (a, b) = (fs[slots[k]].modified, fs[slots[j]].modified);
    if a is Some {
        assert(a->0 / 10_000_000 == b->0 / 10_000_000);
        assert(a->0 % 10_000_000 == b->0 % 10_000_000);
    }
    slots
}

/// An entry is an archive exactly if it was looked at and begins as one does. It is looked at if it
/// is a plain file of at most a mebibyte that is not encrypted, and the archive is not solid or not
/// larger than eight mebibytes. What cannot be read stays a file.
pub proof fn sevenz_marks_nested_archives(bytes: Seq<u8>, o: OptionsView, m: SevenZipModel, k: int)
    requires
        sevenz_model(bytes, o) == Ok::<SevenZipModel, ErrorView>(m),
        0 <= k < m.entries.len(),
    ensures
        ({
            let e = m.entries[k];
            let held = sevenz_content(bytes, m.password, m.names[k]);
            e.kind == NodeKind::Archive <==> {
                &&& e.kind != NodeKind::Dir
                &&& !e.encrypted
                &&& e.uncompressed_size->0 <= 1_048_576
                &&& !m.solid || bytes.len() <= 8_388_608
                &&& held is Ok
                &&& is_nested_archive(
                    if held->Ok_0.len() <= 512 {
                        held->Ok_0
                    } else {
                        held->Ok_0.subrange(0, 512)
                    },
                )
            }
        }),
{
    let key = crate::archive::sevenz::sevenz_password_text(o);
    let slots = listing_holds_files(bytes, key, sevenz_files(bytes, key));
    let i = slots[k];
    let held = sevenz_content(bytes, m.password, m.names[k]);
    if held is Ok && held->Ok_0.len() > 512 {
        assert(held->Ok_0.take(512) =~= held->Ok_0.subrange(0, 512));
    }
}

/// Reading an entry of a 7z archive gives the content of the file with its stored name: of the last
/// one, where several have its path. A directory is empty.
pub proof fn sevenz_entries_hold_their_content(m: SevenZipModel, k: int)
    requires
        0 <= k < m.entries.len(),
        m.entries.len() == m.names.len(),
        forall|j: int| k < j < m.entries.len() ==> (#[trigger] m.entries[j]).path != m.entries[k].path,
    ensures
        ({
            let read = sevenz_read(m, m.entries[k]);
            let held = sevenz_content(m.bytes, m.password, m.names[k]);
            &&& m.entries[k].kind == NodeKind::Dir ==> read is Ok && read->Ok_0.len() == 0
            &&& m.entries[k].kind != NodeKind::Dir && held is Ok ==> read == Ok::<
                Seq<u8>,
                ErrorView,
            >(held->Ok_0)
            &&& m.entries[k].kind != NodeKind::Dir && held is Err ==> read is Err
        }),
{
    last_index_greatest(m.entries, m.entries[k].path);
}

/// A 7z archive opens exactly if its header can be read with the password. It is asked for one where
/// the header cannot be read for lack of one, or where a block is encrypted and none was given.
pub proof fn readable_7z_archives_open(bytes: Seq<u8>, o: OptionsView, password: Option<Seq<char>>)
    requires
        match o.password {
            Some(secret) => password == Some(lossy_utf8(secret)),
            None => password is None,
        },
    ensures
        sevenz_model(bytes, o) is Ok <==> sevenz_refusal(bytes, password) is None,
        sevenz_refusal(bytes, password) is Some ==> {
            let fault = sevenz_fault(sevenz_refusal(bytes, password)->0);
            let error = sevenz_model(bytes, o)->Err_0;
            &&& (error is PasswordRequired <==> fault is PasswordRequired)
            &&& (error is WrongPassword <==> fault is MaybeBadPassword)
            &&& (error is UnsupportedFormat <==> fault is BadSignature)
            &&& (error is Io <==> fault is Io)
            &&& (error is CorruptArchive <==> fault is Other || fault is Damaged)
        },
        sevenz_refusal(bytes, password) is None ==> {
            let blocks = sevenz_blocks(bytes, password);
            let can = sevenz_abilities(sevenz_model(bytes, o)->Ok_0);
            &&& (can.encrypted <==> exists|b: int| #[trigger] block_is_locked(blocks, b))
            &&& (can.needs_password <==> can.encrypted && o.password is None)
            &&& (can.random_access <==> !sevenz_solid(bytes, password))
            &&& !can.can_write
        },
{
    assert(password == crate::archive::sevenz::sevenz_password_text(o));
    let blocks = sevenz_blocks(bytes, password);
    if sevenz_refusal(bytes, password) is None {
        let slots = listing_holds_files(bytes, password, sevenz_files(bytes, password));
        let can = sevenz_abilities(sevenz_model(bytes, o)->Ok_0);
        assert(can.encrypted == crate::archive::sevenz::any_block_encrypts(blocks));
        assert(can.needs_password == (can.encrypted && o.password is None));
        assert(can.random_access == !sevenz_solid(bytes, password));
        assert forall|b: int| 0 <= b < blocks.len() implies crate::archive::sevenz::encrypts(
            #[trigger] blocks[b],
        ) == block_is_locked(blocks, b) by {
            locked_blocks(blocks, b);
        }
        if crate::archive::sevenz::any_block_encrypts(blocks) {
            let b = choose|b: int|
                0 <= b < blocks.len() && crate::archive::sevenz::encrypts(#[trigger] blocks[b]);
            assert(block_is_locked(blocks, b));
        }
        if exists|b: int| #[trigger] block_is_locked(blocks, b) {
            let b = choose|b: int| #[trigger] block_is_locked(blocks, b);
            assert(crate::archive::sevenz::encrypts(blocks[b]));
        }
        assert(can.encrypted <==> exists|b: int| #[trigger] block_is_locked(blocks, b));
    } else {
        let fault = sevenz_fault(sevenz_refusal(bytes, password)->0);
        let error = sevenz_model(bytes, o)->Err_0;
        assert(error == sevenz_error(fault));
        assert(error is PasswordRequired <==> fault is PasswordRequired);
        assert(error is WrongPassword <==> fault is MaybeBadPassword);
        assert(error is CorruptArchive <==> fault is Other || fault is Damaged);
    }
}

/// What an error of a 7z archive says is kept: the text that comes with a fault is in the error.
pub proof fn sevenz_errors_keep_their_text(m: Seq<char>)
    ensures
        sevenz_error(SevenZipFaultView::Io(m)) == ErrorView::Io(m),
        sevenz_error(SevenZipFaultView::Other(m)) == ErrorView::CorruptArchive(m),
        sevenz_error(SevenZipFaultView::Unsupported(m)) == ErrorView::UnsupportedFeature(m),
        m.is_suffix_of(
            sevenz_error(
                SevenZipFaultView::UnsupportedCompressionMethod(m),
            )->UnsupportedFeature_0,
        ),
        m.is_suffix_of(sevenz_error(SevenZipFaultView::Damaged(m))->CorruptArchive_0),
{
    let a = "7z compression method: "@;
    let b = "7z: "@;
    assert((a + m).skip(a.len() as int) =~= m);
    assert((b + m).skip(b.len() as int) =~= m);
    assert((a + m).subrange((a + m).len() - m.len(), (a + m).len() as int) =~= m);
    assert((b + m).subrange((b + m).len() - m.len(), (b + m).len() as int) =~= m);
}

} // verus!
