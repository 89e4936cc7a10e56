//! How formats are told apart, and what is opened as what.

use vstd::prelude::*;

use crate::archive::opened::{nested_model, OpenedArchive, OpenedModel};
use crate::archive::rar::{rar_abilities, rar_model, rar_read};
use crate::archive::sevenz::{sevenz_abilities, sevenz_model, sevenz_read};
use crate::archive::tar::{tar_abilities, tar_model, tar_read};
use crate::archive::zip::{zip_abilities, zip_model, zip_read};
use crate::archive::{is_nested_archive, last_index_greatest, Archive, OptionsView};
use crate::codec::gzip::gzip_decoded;
use crate::codec::xz::xz_decoded;
use crate::error::ErrorView;
use crate::format::{ArchiveFormat, CodecFormat};
use crate::model::{EntryView, NodeKind};
use crate::registry::{all_formats, first_codec_least, first_format_least};
use crate::source::SourceView;

verus! {

/// Whether bytes begin with four others.
pub open spec fn begins_with_4(b: Seq<u8>, w: u8, x: u8, y: u8, z: u8) -> bool {
    b.len() >= 4 && b[0] == w && b[1] == x && b[2] == y && b[3] == z
}

/// Whether bytes begin as a zip archive does, be it empty or not: `PK` and two more bytes.
pub open spec fn begins_zip(b: Seq<u8>) -> bool {
    begins_with_4(b, 0x50, 0x4b, 0x03, 0x04) || begins_with_4(b, 0x50, 0x4b, 0x05, 0x06)
}

/// Whether bytes begin as a 7z archive does: `7z` and four more bytes.
pub open spec fn begins_7z(b: Seq<u8>) -> bool {
    begins_with_4(b, 0x37, 0x7a, 0xbc, 0xaf) && b.len() >= 6 && b[4] == 0x27 && b[5] == 0x1c
}

/// Whether bytes begin as a RAR archive does: `Rar!`, two more bytes, then 0 for the older versions
/// or 1 and 0 for the newer ones.
pub open spec fn begins_rar(b: Seq<u8>) -> bool {
    begins_with_4(b, 0x52, 0x61, 0x72, 0x21) && b.len() >= 7 && b[4] == 0x1a && b[5] == 0x07 && (
    b[6] == 0 || (b.len() >= 8 && b[6] == 1 && b[7] == 0))
}

/// Whether bytes begin as a gzip stream does.
pub open spec fn begins_gzip(b: Seq<u8>) -> bool {
    b.len() >= 2 && b[0] == 0x1f && b[1] == 0x8b
}

/// Whether bytes begin as an xz stream does.
pub open spec fn begins_xz(b: Seq<u8>) -> bool {
    begins_with_4(b, 0xfd, 0x37, 0x7a, 0x58) && b.len() >= 6 && b[4] == 0x5a && b[5] == 0
}

/// Whether bytes have `ustar` where a tar archive has it.
pub open spec fn marks_tar(b: Seq<u8>) -> bool {
    b.len() >= 262 && b[257] == 0x75 && b[258] == 0x73 && b[259] == 0x74 && b[260] == 0x61 && b[261]
        == 0x72
}

/// A short prefix, byte by byte.
proof fn prefix_by_bytes(p: Seq<u8>, b: Seq<u8>)
    ensures
        p.is_prefix_of(b) <==> p.len() <= b.len() && forall|i: int|
            0 <= i < p.len() ==> #[trigger] p[i] == b[i],
{
    if p.len() <= b.len() && forall|i: int| 0 <= i < p.len() ==> #[trigger] p[i] == b[i] {
        assert(p =~= b.subrange(0, p.len() as int));
    }
    if p.is_prefix_of(b) {
        assert forall|i: int| 0 <= i < p.len() implies #[trigger] p[i] == b[i] by {
            assert(b.subrange(0, p.len() as int)[i] == b[i]);
        }
    }
}

/// Each format is known by the bytes it begins with.
pub proof fn formats_are_known_by_their_bytes(b: Seq<u8>)
    ensures
        crate::archive::is_zip(b) == begins_zip(b),
        crate::archive::sevenz_magic().is_prefix_of(b) == begins_7z(b),
        crate::archive::is_rar(b) == begins_rar(b),
        crate::archive::is_tar(b) == marks_tar(b),
        crate::archive::gzip_magic().is_prefix_of(b) == begins_gzip(b),
        crate::archive::xz_magic().is_prefix_of(b) == begins_xz(b),
        is_nested_archive(b) <==> begins_zip(b) || begins_7z(b) || begins_rar(b) || marks_tar(b)
            || begins_gzip(b) || begins_xz(b),
{
    let zip = crate::archive::zip_magic();
    let empty = crate::archive::empty_zip_magic();
    let seven = crate::archive::sevenz_magic();
    let old_rar = crate::archive::rar4_magic();
    let new_rar = crate::archive::rar5_magic();
    let gzip = crate::archive::gzip_magic();
    let xz = crate::archive::xz_magic();
    prefix_by_bytes(zip, b);
    prefix_by_bytes(empty, b);
    prefix_by_bytes(seven, b);
    prefix_by_bytes(old_rar, b);
    prefix_by_bytes(new_rar, b);
    prefix_by_bytes(gzip, b);
    prefix_by_bytes(xz, b);
    assert(zip[0] == 0x50 && zip[1] == 0x4b && zip[2] == 0x03 && zip[3] == 0x04);
    assert(empty[0] == 0x50 && empty[1] == 0x4b && empty[2] == 0x05 && empty[3] == 0x06);
    assert(seven[0] == 0x37 && seven[1] == 0x7a && seven[2] == 0xbc && seven[3] == 0xaf && seven[4]
        == 0x27 && seven[5] == 0x1c);
    assert(old_rar[0] == 0x52 && old_rar[1] == 0x61 && old_rar[2] == 0x72 && old_rar[3] == 0x21
        && old_rar[4] == 0x1a && old_rar[5] == 0x07 && old_rar[6] == 0);
    assert(new_rar[0] == 0x52 && new_rar[1] == 0x61 && new_rar[2] == 0x72 && new_rar[3] == 0x21
        && new_rar[4] == 0x1a && new_rar[5] == 0x07 && new_rar[6] == 1 && new_rar[7] == 0);
    assert(gzip[0] == 0x1f && gzip[1] == 0x8b);
    assert(xz[0] == 0xfd && xz[1] == 0x37 && xz[2] == 0x7a && xz[3] == 0x58 && xz[4] == 0x5a
        && xz[5] == 0);
    if b.len() >= 262 {
        let word = b.subrange(257, 262);
        let want = crate::archive::tar_magic();
        assert(word[0] == b[257] && word[1] == b[258] && word[2] == b[259] && word[3] == b[260]
            && word[4] == b[261]);
        if marks_tar(b) {
            assert(word =~= want);
        }
    }
}

/// The first 512 bytes tell as much as all of them.
proof fn heads_tell(b: Seq<u8>)
    ensures
        ({
            let head = crate::archive::tar::head_of(b);
            &&& begins_zip(head) == begins_zip(b)
            &&& begins_7z(head) == begins_7z(b)
            &&& begins_rar(head) == begins_rar(b)
            &&& marks_tar(head) == marks_tar(b)
            &&& begins_gzip(head) == begins_gzip(b)
            &&& begins_xz(head) == begins_xz(b)
        }),
{
}

/// Without an extension, the formats recognize the bytes of their archives and no others.
proof fn formats_accept_bytes(head: Seq<u8>)
    ensures
        ({
            let r = all_formats();
            &&& r.formats.len() == 4
            &&& r.codecs.len() == 2
            &&& r.formats[0].accepts(head, None) == begins_zip(head)
            &&& r.formats[1].accepts(head, None) == marks_tar(head)
            &&& r.formats[2].accepts(head, None) == begins_7z(head)
            &&& r.formats[3].accepts(head, None) == begins_rar(head)
            &&& r.codecs[0].accepts(head, None) == begins_gzip(head)
            &&& r.codecs[1].accepts(head, None) == begins_xz(head)
        }),
{
    formats_are_known_by_their_bytes(head);
}

/// With an extension, the formats also recognize what is named as theirs.
proof fn formats_accept_names(head: Seq<u8>, ext: Seq<char>)
    ensures
        ({
            let r = all_formats();
            let e = Some(ext);
            &&& (r.formats[0].accepts(head, e) <==> begins_zip(head) || ext == "zip"@)
            &&& (r.formats[1].accepts(head, e) <==> marks_tar(head) || ext == "tar"@ || ext
                == "tgz"@)
            &&& (r.formats[2].accepts(head, e) <==> begins_7z(head) || ext == "7z"@)
            &&& (r.formats[3].accepts(head, e) <==> begins_rar(head) || ext == "rar"@)
            &&& (r.codecs[0].accepts(head, e) <==> begins_gzip(head) || ext == "gz"@ || ext
                == "gzip"@)
            &&& (r.codecs[1].accepts(head, e) <==> begins_xz(head) || ext == "xz"@ || ext
                == "txz"@)
        }),
{
    formats_are_known_by_their_bytes(head);
}

/// What opens as a zip archive, as a value.
pub open spec fn as_zip(bytes: Seq<u8>, o: OptionsView) -> std::result::Result<
    OpenedModel,
    ErrorView,
> {
    if zip_model(bytes, o) is Ok {
        Ok(OpenedModel::Zip(zip_model(bytes, o)->Ok_0))
    } else {
        Err(zip_model(bytes, o)->Err_0)
    }
}

/// What opens as a tar archive, as a value.
pub open spec fn as_tar(bytes: Seq<u8>, o: OptionsView) -> std::result::Result<
    OpenedModel,
    ErrorView,
> {
    if tar_model(bytes, o) is Ok {
        Ok(OpenedModel::Tar(tar_model(bytes, o)->Ok_0))
    } else {
        Err(tar_model(bytes, o)->Err_0)
    }
}

/// What opens as a 7z archive, as a value.
pub open spec fn as_7z(bytes: Seq<u8>, o: OptionsView) -> std::result::Result<
    OpenedModel,
    ErrorView,
> {
    if sevenz_model(bytes, o) is Ok {
        Ok(OpenedModel::SevenZip(sevenz_model(bytes, o)->Ok_0))
    } else {
        Err(sevenz_model(bytes, o)->Err_0)
    }
}

/// What opens as a RAR archive, as a value.
pub open spec fn as_rar(bytes: Seq<u8>, o: OptionsView) -> std::result::Result<
    OpenedModel,
    ErrorView,
> {
    if rar_model(bytes, o) is Ok {
        Ok(OpenedModel::Rar(rar_model(bytes, o)->Ok_0))
    } else {
        Err(rar_model(bytes, o)->Err_0)
    }
}

/// A source whose bytes say what it is, is opened as that, with the given options, whatever it is
/// called: zip, tar, 7z and RAR, in this order.
pub proof fn archives_open_by_their_bytes(src: SourceView, o: OptionsView)
    ensures
        ({
            let b = src.bytes;
            let opened = all_formats().opened(src, o);
            &&& (begins_zip(b) ==> opened == as_zip(b, o))
            &&& (!begins_zip(b) && marks_tar(b) ==> opened == as_tar(b, o))
            &&& (!marks_tar(b) && begins_7z(b) ==> opened == as_7z(b, o))
            &&& (!marks_tar(b) && begins_rar(b) ==> opened == as_rar(b, o))
        }),
{
    let r = all_formats();
    let head = crate::archive::tar::head_of(src.bytes);
    heads_tell(src.bytes);
    formats_accept_bytes(head);
    first_format_least(r.formats, head, None);
    assert(r.formats[0] is Zip && r.formats[1] is Tar && r.formats[2] is SevenZip && r.formats[3] is Rar);
}

/// A source whose bytes do not say what it is, is opened as what its name says.
pub proof fn archives_open_by_their_name(src: SourceView, o: OptionsView)
    requires
        !is_nested_archive(src.bytes),
        src.extension is Some,
    ensures
        ({
            let b = src.bytes;
            let ext = src.extension->0;
            let opened = all_formats().opened(src, o);
            &&& (ext == "zip"@ ==> opened == as_zip(b, o))
            &&& (ext == "tar"@ || ext == "tgz"@ ==> opened == as_tar(b, o))
            &&& (ext == "7z"@ ==> opened == as_7z(b, o))
            &&& (ext == "rar"@ ==> opened == as_rar(b, o))
        }),
{
    let r = all_formats();
    let ext = src.extension->0;
    let head = crate::archive::tar::head_of(src.bytes);
    heads_tell(src.bytes);
    formats_are_known_by_their_bytes(src.bytes);
    formats_accept_bytes(head);
    formats_accept_names(head, ext);
    first_format_least(r.formats, head, None);
    first_format_least(r.formats, head, Some(ext));
    first_codec_least(r.codecs, head, None);
    assert(r.formats[0] is Zip && r.formats[1] is Tar && r.formats[2] is SevenZip && r.formats[3] is Rar);
    reveal_strlit("zip");
    reveal_strlit("tar");
    reveal_strlit("tgz");
    reveal_strlit("7z");
    reveal_strlit("rar");
    assert("zip"@[0] == 'z' && "tar"@[1] == 'a' && "tgz"@[1] == 'g' && "rar"@[0] == 'r' && "tar"@[0]
        == 't' && "tgz"@[0] == 't' && "7z"@.len() == 2);
}

/// Whether bytes begin as an archive does, compressed streams aside.
pub open spec fn begins_archive(b: Seq<u8>) -> bool {
    begins_zip(b) || marks_tar(b) || begins_7z(b) || begins_rar(b)
}

/// What is opened inside a compressed stream: the archive that the decoded bytes begin as. More than
/// half a gibibyte is refused, and so is what is no archive.
pub open spec fn inside_is(
    decoded: std::result::Result<Seq<u8>, Seq<char>>,
    o: OptionsView,
    opened: std::result::Result<OpenedModel, ErrorView>,
) -> bool {
    match decoded {
        Err(m) => opened == Err::<OpenedModel, ErrorView>(ErrorView::Io(m)),
        Ok(b) => {
            &&& (b.len() > 536_870_912 ==> opened is Err && opened->Err_0 is UnsupportedFeature)
            &&& (b.len() <= 536_870_912 ==> {
                &&& (begins_zip(b) ==> opened == as_zip(b, o))
                &&& (!begins_zip(b) && marks_tar(b) ==> opened == as_tar(b, o))
                &&& (!marks_tar(b) && begins_7z(b) ==> opened == as_7z(b, o))
                &&& (!marks_tar(b) && begins_rar(b) ==> opened == as_rar(b, o))
                &&& (!begins_archive(b) ==> opened is Err && opened->Err_0 is UnsupportedFormat)
            })
        },
    }
}

/// What is found inside decoded bytes.
proof fn inside_is_opened(
    decoded: std::result::Result<Seq<u8>, Seq<char>>,
    o: OptionsView,
    opened: std::result::Result<OpenedModel, ErrorView>,
)
    requires
        match decoded {
            Ok(b) => opened == all_formats().opened_inside(Ok(b), o),
            Err(m) => opened == all_formats().opened_inside(Err(ErrorView::Io(m)), o),
        },
    ensures
        inside_is(decoded, o, opened),
{
    if decoded is Ok {
        let r = all_formats();
        let b = decoded->Ok_0;
        let head = crate::archive::tar::head_of(b);
        heads_tell(b);
        formats_accept_bytes(head);
        first_format_least(r.formats, head, None);
        assert(r.formats[0] is Zip && r.formats[1] is Tar && r.formats[2] is SevenZip && r.formats[3] is Rar);
    }
}

/// A compressed source is decoded, by gzip or by xz as its bytes say, and the archive inside is
/// opened by its own bytes. No more is decoded than one byte beyond what may be opened. (An xz
/// stream that is named as gzip is taken for gzip.)
pub proof fn compressed_archives_open(src: SourceView, o: OptionsView)
    requires
        !begins_archive(src.bytes),
    ensures
        begins_gzip(src.bytes) ==> inside_is(
            gzip_decoded(src.bytes, 536_870_913),
            o,
            all_formats().opened(src, o),
        ),
        begins_xz(src.bytes) && src.extension != Some("gz"@) && src.extension != Some("gzip"@)
            ==> inside_is(
            xz_decoded(src.bytes, 536_870_913),
            o,
            all_formats().opened(src, o),
        ),
{
    let r = all_formats();
    let b = src.bytes;
    let head = crate::archive::tar::head_of(b);
    heads_tell(b);
    formats_accept_bytes(head);
    first_format_least(r.formats, head, None);
    first_codec_least(r.codecs, head, None);
    if src.extension is Some {
        formats_accept_names(head, src.extension->0);
        first_format_least(r.formats, head, src.extension);
    }
    first_codec_least(r.codecs, head, src.extension);
    assert(r.codecs[0] is Gzip && r.codecs[1] is Xz);
    if begins_gzip(b) {
        assert(crate::registry::first_codec(r.codecs, head, src.extension) == Some(0int));
        inside_is_opened(gzip_decoded(b, 536_870_913), o, r.opened(src, o));
    }
    if begins_xz(b) && src.extension != Some("gz"@) && src.extension != Some("gzip"@) {
        inside_is_opened(xz_decoded(b, 536_870_913), o, r.opened(src, o));
    }
}

/// What neither its bytes nor its name make an archive is refused as a format that is not supported.
pub proof fn unknown_sources_are_refused(src: SourceView, o: OptionsView)
    requires
        !is_nested_archive(src.bytes),
        src.extension is None,
    ensures
        all_formats().opened(src, o) is Err,
        all_formats().opened(src, o)->Err_0 is UnsupportedFormat,
{
    let r = all_formats();
    let head = crate::archive::tar::head_of(src.bytes);
    heads_tell(src.bytes);
    formats_are_known_by_their_bytes(src.bytes);
    formats_accept_bytes(head);
    first_format_least(r.formats, head, None);
    first_codec_least(r.codecs, head, None);
}

/// An entry that holds an archive is opened by the bytes it begins with, with the options that are
/// given. In a compressed stream there has to be a tar archive.
pub proof fn nested_archives_open_by_their_bytes(b: Seq<u8>, o: OptionsView)
    requires
        b.len() <= 536_870_912,
    ensures
        ({
            let opened = nested_model(b, o);
            let plain = !begins_gzip(b) && !begins_xz(b);
            let tar_inside = |decoded: std::result::Result<Seq<u8>, Seq<char>>|
                match decoded {
                    Err(m) => opened == Err::<OpenedModel, ErrorView>(ErrorView::Io(m)),
                    Ok(c) => {
                        &&& (c.len() > 536_870_912 ==> opened is Err
                            && opened->Err_0 is UnsupportedFeature)
                        &&& (c.len() <= 536_870_912 && marks_tar(c) ==> opened == as_tar(c, o))
                        &&& (c.len() <= 536_870_912 && !marks_tar(c) ==> opened is Err
                            && opened->Err_0 is UnsupportedFormat)
                    },
                };
            &&& (begins_gzip(b) ==> tar_inside(gzip_decoded(b, 536_870_913)))
            &&& (begins_xz(b) ==> tar_inside(xz_decoded(b, 536_870_913)))
            &&& (plain && marks_tar(b) ==> opened == as_tar(b, o))
            &&& (!marks_tar(b) && begins_zip(b) ==> opened == as_zip(b, o))
            &&& (!marks_tar(b) && begins_7z(b) ==> opened == as_7z(b, o))
            &&& (!marks_tar(b) && begins_rar(b) ==> opened == as_rar(b, o))
            &&& (!is_nested_archive(b) ==> opened is Err && opened->Err_0 is UnsupportedFormat)
        }),
{
    formats_are_known_by_their_bytes(b);
    if gzip_decoded(b, 536_870_913) is Ok {
        formats_are_known_by_their_bytes(gzip_decoded(b, 536_870_913)->Ok_0);
    }
    if xz_decoded(b, 536_870_913) is Ok {
        formats_are_known_by_their_bytes(xz_decoded(b, 536_870_913)->Ok_0);
    }
}

/// What is too large to be held in memory is not opened.
pub proof fn large_nested_archives_are_refused(b: Seq<u8>, o: OptionsView)
    requires
        b.len() > 536_870_912,
    ensures
        nested_model(b, o) is Err,
        nested_model(b, o)->Err_0 is UnsupportedFeature,
{
}

/// An opened archive lists, reads and opens what its format does: the entry at a path is the last
/// one listed with it, a directory is empty, and an archive inside is opened from what reading its
/// entry gives.
pub proof fn opened_archives_act_as_their_format(
    m: OpenedModel,
    e: EntryView,
    o: OptionsView,
    k: int,
)
    requires
        0 <= k < m.entries().len(),
        forall|j: int| k < j < m.entries().len() ==> (#[trigger] m.entries()[j]).path
            != m.entries()[k].path,
    ensures
        OpenedArchive::listing(m) == Ok::<Seq<EntryView>, ErrorView>(
            match m {
                OpenedModel::Zip(z) => z.entries,
                OpenedModel::Tar(z) => z.entries,
                OpenedModel::SevenZip(z) => z.entries,
                OpenedModel::Rar(z) => z.entries,
            },
        ),
        OpenedArchive::lookup(m, m.entries()[k].path) == Ok::<EntryView, ErrorView>(m.entries()[k]),
        e.kind == NodeKind::Dir ==> OpenedArchive::content(m, e) is Ok && OpenedArchive::content(
            m,
            e,
        )->Ok_0.len() == 0,
        ({
            let read = match m {
                OpenedModel::Zip(z) => zip_read(z, e),
                OpenedModel::Tar(z) => tar_read(z, e),
                OpenedModel::SevenZip(z) => sevenz_read(z, e),
                OpenedModel::Rar(z) => rar_read(z, e),
            };
            &&& (e.kind != NodeKind::Dir ==> OpenedArchive::content(m, e) == read)
            &&& (read is Ok ==> OpenedArchive::nested(m, e, o) == nested_model(read->Ok_0, o))
            &&& (read is Err ==> OpenedArchive::nested(m, e, o) == Err::<OpenedModel, ErrorView>(
                read->Err_0,
            ))
        }),
        OpenedArchive::abilities(m) == match m {
            OpenedModel::Zip(z) => zip_abilities(z),
            OpenedModel::Tar(z) => tar_abilities(z),
            OpenedModel::SevenZip(z) => sevenz_abilities(z),
            OpenedModel::Rar(z) => rar_abilities(z),
        },
{
    last_index_greatest(m.entries(), m.entries()[k].path);
}

} // verus!
