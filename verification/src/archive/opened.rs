//! The archives of the built-in formats, and how a nested one is told apart and opened.

use vstd::prelude::*;

use crate::archive::rar::{rar_abilities, rar_model, rar_read, RarArchive, RarModel};
use crate::archive::sevenz::{
    sevenz_abilities, sevenz_model, sevenz_read, SevenZipArchive, SevenZipModel,
};
use crate::archive::tar::{tar_abilities, tar_model, tar_read, TarArchive, TarModel};
use crate::archive::zip::{zip_abilities, zip_model, zip_read, OpenZip, ZipModel};
use crate::archive::{
    find_entry, gzip_magic, index_of, is_rar, is_tar, is_zip, looks_like_gzip, looks_like_rar,
    looks_like_sevenz, looks_like_tar, looks_like_xz, looks_like_zip, missing_entry, sevenz_magic,
    xz_magic, Archive, Capabilities, OpenOptions, OptionsView, IN_MEMORY_OPEN_CAP,
};
use crate::codec::gzip::{gzip_outcome, GzipCodec};
use crate::codec::xz::{xz_outcome, XzCodec};
use crate::codec::Codec;
use crate::error::{Error, ErrorView, Result};
use crate::model::{clone_entries, views, EntryMeta, EntryPath, EntryView, NodeKind};

verus! {

/// An open archive of one of the built-in formats.
pub enum OpenedArchive {
    Zip(OpenZip),
    Tar(TarArchive),
    SevenZip(SevenZipArchive),
    Rar(RarArchive),
}

/// An [`OpenedArchive`] as a mathematical value.
pub enum OpenedModel {
    Zip(ZipModel),
    Tar(TarModel),
    SevenZip(SevenZipModel),
    Rar(RarModel),
}

impl View for OpenedArchive {
    type V = OpenedModel;

    open spec fn view(&self) -> OpenedModel {
        match self {
            OpenedArchive::Zip(a) => OpenedModel::Zip(a@),
            OpenedArchive::Tar(a) => OpenedModel::Tar(a@),
            OpenedArchive::SevenZip(a) => OpenedModel::SevenZip(a@),
            OpenedArchive::Rar(a) => OpenedModel::Rar(a@),
        }
    }
}

impl OpenedModel {
    /// The listing.
    pub open spec fn entries(self) -> Seq<EntryView> {
        match self {
            OpenedModel::Zip(m) => m.entries,
            OpenedModel::Tar(m) => m.entries,
            OpenedModel::SevenZip(m) => m.entries,
            OpenedModel::Rar(m) => m.entries,
        }
    }

    /// What the format is called in messages.
    pub open spec fn label(self) -> Seq<char> {
        match self {
            OpenedModel::Zip(_) => "zip"@,
            OpenedModel::Tar(_) => "tar"@,
            OpenedModel::SevenZip(_) => "7z"@,
            OpenedModel::Rar(_) => "rar"@,
        }
    }

    /// The bytes of an entry, as the format reads it.
    pub open spec fn read(self, e: EntryView) -> std::result::Result<Seq<u8>, ErrorView> {
        match self {
            OpenedModel::Zip(m) => zip_read(m, e),
            OpenedModel::Tar(m) => tar_read(m, e),
            OpenedModel::SevenZip(m) => sevenz_read(m, e),
            OpenedModel::Rar(m) => rar_read(m, e),
        }
    }
}

/// The outcome of opening a zip archive.
pub open spec fn opened_zip(bytes: Seq<u8>, o: OptionsView) -> std::result::Result<
    OpenedModel,
    ErrorView,
> {
    match zip_model(bytes, o) {
        Ok(m) => Ok(OpenedModel::Zip(m)),
        Err(e) => Err(e),
    }
}

/// The outcome of opening a tar archive.
pub open spec fn opened_tar(bytes: Seq<u8>, o: OptionsView) -> std::result::Result<
    OpenedModel,
    ErrorView,
> {
    match tar_model(bytes, o) {
        Ok(m) => Ok(OpenedModel::Tar(m)),
        Err(e) => Err(e),
    }
}

/// The outcome of opening a 7z archive.
pub open spec fn opened_sevenz(bytes: Seq<u8>, o: OptionsView) -> std::result::Result<
    OpenedModel,
    ErrorView,
> {
    match sevenz_model(bytes, o) {
        Ok(m) => Ok(OpenedModel::SevenZip(m)),
        Err(e) => Err(e),
    }
}

/// The outcome of opening a RAR archive.
pub open spec fn opened_rar(bytes: Seq<u8>, o: OptionsView) -> std::result::Result<
    OpenedModel,
    ErrorView,
> {
    match rar_model(bytes, o) {
        Ok(m) => Ok(OpenedModel::Rar(m)),
        Err(e) => Err(e),
    }
}

/// The archive inside a compressed stream, which has to be a tar archive.
pub open spec fn opened_compressed(
    decoded: std::result::Result<Seq<u8>, ErrorView>,
    o: OptionsView,
) -> std::result::Result<OpenedModel, ErrorView> {
    match decoded {
        Err(e) => Err(e),
        Ok(inner) => if inner.len() > IN_MEMORY_OPEN_CAP {
            Err(ErrorView::UnsupportedFeature("nested archive exceeds in-memory open cap"@))
        } else if is_tar(inner) {
            opened_tar(inner, o)
        } else {
            Err(
                ErrorView::UnsupportedFormat(
                    "decompressed nested entry is not a recognized archive"@,
                ),
            )
        },
    }
}

/// The archive that an entry's bytes are, told by how they begin.
pub open spec fn nested_model(bytes: Seq<u8>, o: OptionsView) -> std::result::Result<
    OpenedModel,
    ErrorView,
> {
    let limit = (IN_MEMORY_OPEN_CAP + 1) as u64;
    if bytes.len() > IN_MEMORY_OPEN_CAP {
        Err(ErrorView::UnsupportedFeature("nested archive exceeds in-memory open cap"@))
    } else if gzip_magic().is_prefix_of(bytes) {
        opened_compressed(gzip_outcome(bytes, limit), o)
    } else if xz_magic().is_prefix_of(bytes) {
        opened_compressed(xz_outcome(bytes, limit), o)
    } else if is_tar(bytes) {
        opened_tar(bytes, o)
    } else if is_zip(bytes) {
        opened_zip(bytes, o)
    } else if sevenz_magic().is_prefix_of(bytes) {
        opened_sevenz(bytes, o)
    } else if is_rar(bytes) {
        opened_rar(bytes, o)
    } else {
        Err(ErrorView::UnsupportedFormat("nested entry is not a recognized archive format"@))
    }
}

/// Whether `r` is the archive or the error that `want` says.
pub open spec fn opens_as(
    r: Result<OpenedArchive>,
    want: std::result::Result<OpenedModel, ErrorView>,
) -> bool {
    match r {
        Ok(a) => want == Ok::<OpenedModel, ErrorView>(a@),
        Err(e) => want == Err::<OpenedModel, ErrorView>(e@),
    }
}

/// Open a zip archive.
pub fn open_zip(bytes: &[u8], opts: &OpenOptions) -> (r: Result<OpenedArchive>)
    ensures
        opens_as(r, opened_zip(bytes@, opts@)),
{
    match OpenZip::new(bytes, opts) {
        Ok(a) => Ok(OpenedArchive::Zip(a)),
        Err(e) => Err(e),
    }
}

/// Open a tar archive.
pub fn open_tar(bytes: Vec<u8>, opts: &OpenOptions) -> (r: Result<OpenedArchive>)
    ensures
        opens_as(r, opened_tar(bytes@, opts@)),
{
    match TarArchive::open(bytes, opts) {
        Ok(a) => Ok(OpenedArchive::Tar(a)),
        Err(e) => Err(e),
    }
}

/// Open a 7z archive.
pub fn open_sevenz(bytes: Vec<u8>, opts: &OpenOptions) -> (r: Result<OpenedArchive>)
    ensures
        opens_as(r, opened_sevenz(bytes@, opts@)),
{
    match SevenZipArchive::open(bytes, opts) {
        Ok(a) => Ok(OpenedArchive::SevenZip(a)),
        Err(e) => Err(e),
    }
}

/// Open a RAR archive.
pub fn open_rar(bytes: Vec<u8>, opts: &OpenOptions) -> (r: Result<OpenedArchive>)
    ensures
        opens_as(r, opened_rar(bytes@, opts@)),
{
    match RarArchive::open(bytes, opts) {
        Ok(a) => Ok(OpenedArchive::Rar(a)),
        Err(e) => Err(e),
    }
}

/// Open the tar archive inside a stream that has been decompressed.
fn open_compressed(decoded: Result<Vec<u8>>, opts: &OpenOptions) -> (r: Result<OpenedArchive>)
    ensures
        opens_as(
            r,
            opened_compressed(
                match decoded {
                    Ok(b) => Ok(b@),
                    Err(e) => Err(e@),
                },
                opts@,
            ),
        ),
{
    match decoded {
        Err(e) => Err(e),
        Ok(inner) => {
            if inner.len() as u64 > IN_MEMORY_OPEN_CAP {
                return Err(Error::no_feature("nested archive exceeds in-memory open cap"));
            }
            if looks_like_tar(inner.as_slice()) {
                return open_tar(inner, opts);
            }
            Err(Error::no_format("decompressed nested entry is not a recognized archive"))
        },
    }
}

/// Open a nested archive from raw entry bytes, self-detecting the format (zip-in-zip,
/// tar.gz-in-zip, zip-in-tar, ...).
pub fn open_nested_bytes(bytes: Vec<u8>, opts: &OpenOptions) -> (r: Result<OpenedArchive>)
    ensures
        opens_as(r, nested_model(bytes@, opts@)),
{
    if bytes.len() as u64 > IN_MEMORY_OPEN_CAP {
        return Err(Error::no_feature("nested archive exceeds in-memory open cap"));
    }
    // Compressed single-stream: decompress and expect tar inside (e.g. tar.gz / tar.xz).
    if looks_like_gzip(bytes.as_slice()) {
        return open_compressed(
            GzipCodec.decompress(bytes.as_slice(), IN_MEMORY_OPEN_CAP + 1),
            opts,
        );
    }
    if looks_like_xz(bytes.as_slice()) {
        return open_compressed(
            XzCodec.decompress(bytes.as_slice(), IN_MEMORY_OPEN_CAP + 1),
            opts,
        );
    }
    if looks_like_tar(bytes.as_slice()) {
        return open_tar(bytes, opts);
    }
    if looks_like_zip(bytes.as_slice()) {
        return open_zip(bytes.as_slice(), opts);
    }
    if looks_like_sevenz(bytes.as_slice()) {
        return open_sevenz(bytes, opts);
    }
    if looks_like_rar(bytes.as_slice()) {
        return open_rar(bytes, opts);
    }
    Err(Error::no_format("nested entry is not a recognized archive format"))
}

impl OpenedArchive {
    /// The listing.
    pub fn list(&self) -> (r: &Vec<EntryMeta>)
        ensures
            views(r@) == self@.entries(),
    {
        match self {
            OpenedArchive::Zip(a) => a.entries(),
            OpenedArchive::Tar(a) => a.entries(),
            OpenedArchive::SevenZip(a) => a.entries(),
            OpenedArchive::Rar(a) => a.entries(),
        }
    }

    /// What the format is called in messages.
    pub fn label(&self) -> (r: &'static str)
        ensures
            r@ == self@.label(),
    {
        match self {
            OpenedArchive::Zip(_) => "zip",
            OpenedArchive::Tar(_) => "tar",
            OpenedArchive::SevenZip(_) => "7z",
            OpenedArchive::Rar(_) => "rar",
        }
    }

    /// Read an entry fully into memory, as the format reads it.
    pub fn read_entry_bytes(&self, meta: &EntryMeta) -> (r: Result<Vec<u8>>)
        ensures
            match r {
                Ok(b) => self@.read(meta@) == Ok::<Seq<u8>, ErrorView>(b@),
                Err(e) => self@.read(meta@) == Err::<Seq<u8>, ErrorView>(e@),
            },
    {
        match self {
            OpenedArchive::Zip(a) => a.read_entry_bytes(meta),
            OpenedArchive::Tar(a) => a.read_entry_bytes(meta),
            OpenedArchive::SevenZip(a) => a.read_entry_bytes(meta),
            OpenedArchive::Rar(a) => a.read_entry_bytes(meta),
        }
    }
}

impl Archive for OpenedArchive {
    type Model = OpenedModel;

    open spec fn model(&self) -> OpenedModel {
        self@
    }

    open spec fn listing(m: OpenedModel) -> std::result::Result<Seq<EntryView>, ErrorView> {
        Ok(m.entries())
    }

    open spec fn lookup(m: OpenedModel, path: Seq<char>) -> std::result::Result<
        EntryView,
        ErrorView,
    > {
        find_entry(m.entries(), m.label(), path)
    }

    open spec fn content(m: OpenedModel, e: EntryView) -> std::result::Result<
        Seq<u8>,
        ErrorView,
    > {
        if e.kind == NodeKind::Dir {
            Ok(Seq::empty())
        } else {
            m.read(e)
        }
    }

    open spec fn nested(m: OpenedModel, e: EntryView, o: OptionsView) -> std::result::Result<
        OpenedModel,
        ErrorView,
    > {
        match m.read(e) {
            Ok(bytes) => nested_model(bytes, o),
            Err(e) => Err(e),
        }
    }

    open spec fn abilities(m: OpenedModel) -> Capabilities {
        match m {
            OpenedModel::Zip(m) => zip_abilities(m),
            OpenedModel::Tar(m) => tar_abilities(m),
            OpenedModel::SevenZip(m) => sevenz_abilities(m),
            OpenedModel::Rar(m) => rar_abilities(m),
        }
    }

    fn entries(&self) -> (r: Result<Vec<EntryMeta>>) {
        Ok(clone_entries(self.list().as_slice()))
    }

    fn find(&self, path: &EntryPath) -> (r: Result<EntryMeta>) {
        let es = self.list();
        match index_of(es, path) {
            Some(i) => {
                assert(views(es@)[i as int] == es@[i as int]@);
                Ok(es[i].clone())
            },
            None => Err(missing_entry(self.label(), path)),
        }
    }

    fn reader(&self, entry: &EntryMeta) -> (r: Result<Vec<u8>>) {
        if entry.kind == NodeKind::Dir {
            return Ok(Vec::new());
        }
        self.read_entry_bytes(entry)
    }

    fn open_nested(&self, entry: &EntryMeta, opts: &OpenOptions) -> (r: Result<Self>) {
        match self.read_entry_bytes(entry) {
            Ok(bytes) => open_nested_bytes(bytes, opts),
            Err(e) => Err(e),
        }
    }

    fn capabilities(&self) -> (r: Capabilities) {
        match self {
            OpenedArchive::Zip(a) => a.capabilities(),
            OpenedArchive::Tar(a) => a.capabilities(),
            OpenedArchive::SevenZip(a) => a.capabilities(),
            OpenedArchive::Rar(a) => a.capabilities(),
        }
    }
}

} // verus!
