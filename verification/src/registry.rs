//! Format registry: composes concrete formats into an opener.

use vstd::prelude::*;
use vstd::string::*;

use crate::archive::formats::{RarFormat, SevenZipFormat, TarFormat, ZipFormat};
use crate::archive::opened::{OpenedArchive, OpenedModel};
use crate::archive::tar::{head_of, head_slice};
use crate::archive::{Archive, OpenOptions, OptionsView, IN_MEMORY_OPEN_CAP};
use crate::codec::gzip::{GzipCodec, GzipFormat};
use crate::codec::xz::{XzCodec, XzFormat};
use crate::codec::Codec;
use crate::error::{Error, ErrorView, Result};
use crate::format::{opt_str, ArchiveFormat, CodecFormat};
use crate::model::Level;
use crate::source::{Source, SourceView};

verus! {

/// Composes concrete formats and opens archives by auto-detection.
///
/// The registry holds no built-in format list; the application registers the concrete formats it
/// supports. Formats are asked in the order in which they were registered.
pub struct Registry<F: ArchiveFormat, C: CodecFormat> {
    archive_formats: Vec<F>,
    codecs: Vec<C>,
}

/// A [`Registry`] as a mathematical value.
pub struct RegistryView<F, C> {
    pub formats: Seq<F>,
    pub codecs: Seq<C>,
}

/// The first format that accepts the input.
pub open spec fn first_format<F: ArchiveFormat>(
    fs: Seq<F>,
    head: Seq<u8>,
    ext: Option<Seq<char>>,
) -> Option<int>
    decreases fs.len(),
{
    if fs.len() == 0 {
        None
    } else {
        match first_format(fs.drop_last(), head, ext) {
            Some(i) => Some(i),
            None => if fs.last().accepts(head, ext) {
                Some(fs.len() - 1)
            } else {
                None
            },
        }
    }
}

/// The first codec that accepts the input.
pub open spec fn first_codec<C: CodecFormat>(
    cs: Seq<C>,
    head: Seq<u8>,
    ext: Option<Seq<char>>,
) -> Option<int>
    decreases cs.len(),
{
    if cs.len() == 0 {
        None
    } else {
        match first_codec(cs.drop_last(), head, ext) {
            Some(i) => Some(i),
            None => if cs.last().accepts(head, ext) {
                Some(cs.len() - 1)
            } else {
                None
            },
        }
    }
}

/// `first_format` gives the least position of a format that accepts.
pub proof fn first_format_least<F: ArchiveFormat>(
    fs: Seq<F>,
    head: Seq<u8>,
    ext: Option<Seq<char>>,
)
    ensures
        match first_format(fs, head, ext) {
            Some(i) => 0 <= i < fs.len() && fs[i].accepts(head, ext) && forall|j: int|
                0 <= j < i ==> !(#[trigger] fs[j]).accepts(head, ext),
            None => forall|j: int| 0 <= j < fs.len() ==> !(#[trigger] fs[j]).accepts(head, ext),
        },
    decreases fs.len(),
{
    if fs.len() > 0 {
        let front = fs.drop_last();
        first_format_least(front, head, ext);
        assert forall|j: int| 0 <= j < front.len() implies front[j] == #[trigger] fs[j] by {}
    }
}

/// `first_codec` gives the least position of a codec that accepts.
pub proof fn first_codec_least<C: CodecFormat>(cs: Seq<C>, head: Seq<u8>, ext: Option<Seq<char>>)
    ensures
        match first_codec(cs, head, ext) {
            Some(i) => 0 <= i < cs.len() && cs[i].accepts(head, ext) && forall|j: int|
                0 <= j < i ==> !(#[trigger] cs[j]).accepts(head, ext),
            None => forall|j: int| 0 <= j < cs.len() ==> !(#[trigger] cs[j]).accepts(head, ext),
        },
    decreases cs.len(),
{
    if cs.len() > 0 {
        let front = cs.drop_last();
        first_codec_least(front, head, ext);
        assert forall|j: int| 0 <= j < front.len() implies front[j] == #[trigger] cs[j] by {}
    }
}

/// The position is the first where the format accepts, or there is none.
proof fn first_format_is<F: ArchiveFormat>(
    fs: Seq<F>,
    head: Seq<u8>,
    ext: Option<Seq<char>>,
    i: int,
)
    requires
        0 <= i <= fs.len(),
        forall|j: int| 0 <= j < i ==> !(#[trigger] fs[j]).accepts(head, ext),
        i < fs.len() ==> fs[i].accepts(head, ext),
    ensures
        first_format(fs, head, ext) == if i < fs.len() {
            Some(i)
        } else {
            None
        },
{
    first_format_least(fs, head, ext);
}

/// The position is the first where the codec accepts, or there is none.
proof fn first_codec_is<C: CodecFormat>(
    cs: Seq<C>,
    head: Seq<u8>,
    ext: Option<Seq<char>>,
    i: int,
)
    requires
        0 <= i <= cs.len(),
        forall|j: int| 0 <= j < i ==> !(#[trigger] cs[j]).accepts(head, ext),
        i < cs.len() ==> cs[i].accepts(head, ext),
    ensures
        first_codec(cs, head, ext) == if i < cs.len() {
            Some(i)
        } else {
            None
        },
{
    first_codec_least(cs, head, ext);
}

impl<F: ArchiveFormat, C: CodecFormat> RegistryView<F, C> {
    /// The format that is detected. Magic bytes are preferred over the extension, and the
    /// extension is only consulted where no codec recognizes the bytes: what is compressed is not
    /// a direct archive (a `.tgz` is gzip, not tar).
    pub open spec fn detected(self, head: Seq<u8>, ext: Option<Seq<char>>) -> Option<int> {
        match first_format(self.formats, head, None) {
            Some(i) => Some(i),
            None => if ext is Some && first_codec(self.codecs, head, None) is None {
                first_format(self.formats, head, ext)
            } else {
                None
            },
        }
    }

    /// The archive that a source is, or why it cannot be opened.
    pub open spec fn opened(self, src: SourceView, o: OptionsView) -> std::result::Result<
        <F::Opened as Archive>::Model,
        ErrorView,
    > {
        let head = head_of(src.bytes);
        match self.detected(head, src.extension) {
            Some(i) => self.formats[i].opens(src.bytes, o),
            None => match first_codec(self.codecs, head, src.extension) {
                Some(j) => self.opened_inside(
                    self.codecs[j].builds().decoded(
                        src.bytes,
                        (IN_MEMORY_OPEN_CAP + 1) as u64,
                    ),
                    o,
                ),
                None => Err(ErrorView::UnsupportedFormat("no registered format matched"@)),
            },
        }
    }

    /// The archive inside a compressed stream: its format is detected on the decompressed content.
    pub open spec fn opened_inside(
        self,
        decoded: std::result::Result<Seq<u8>, ErrorView>,
        o: OptionsView,
    ) -> std::result::Result<<F::Opened as Archive>::Model, ErrorView> {
        match decoded {
            Err(e) => Err(e),
            Ok(buf) => if buf.len() > IN_MEMORY_OPEN_CAP {
                Err(
                    ErrorView::UnsupportedFeature(
                        "decompressed archive exceeds in-memory open cap"@,
                    ),
                )
            } else {
                match self.detected(head_of(buf), None) {
                    Some(i) => self.formats[i].opens(buf, o),
                    None => Err(
                        ErrorView::UnsupportedFormat(
                            "decompressed content is not a recognized archive"@,
                        ),
                    ),
                }
            },
        }
    }
}

/// Magic bytes win: where a format recognizes the leading bytes, the extension does not matter.
pub proof fn magic_wins_over_extension<F: ArchiveFormat, C: CodecFormat>(
    r: RegistryView<F, C>,
    head: Seq<u8>,
    ext: Option<Seq<char>>,
    k: int,
)
    requires
        0 <= k < r.formats.len(),
        r.formats[k].accepts(head, None),
    ensures
        r.detected(head, ext) is Some,
        r.detected(head, ext) == r.detected(head, None),
        r.detected(head, ext)->0 <= k,
{
    first_format_least(r.formats, head, None);
}

/// What a codec recognizes by its leading bytes is no direct archive, whatever its extension says.
pub proof fn compressed_is_not_direct<F: ArchiveFormat, C: CodecFormat>(
    r: RegistryView<F, C>,
    head: Seq<u8>,
    ext: Option<Seq<char>>,
    k: int,
)
    requires
        0 <= k < r.codecs.len(),
        r.codecs[k].accepts(head, None),
        forall|j: int| 0 <= j < r.formats.len() ==> !(#[trigger] r.formats[j]).accepts(head, None),
    ensures
        r.detected(head, ext) is None,
{
    first_format_least(r.formats, head, None);
    first_codec_least(r.codecs, head, None);
}

/// Without formats and codecs nothing is recognized.
pub proof fn empty_registry_opens_nothing<F: ArchiveFormat, C: CodecFormat>(
    r: RegistryView<F, C>,
    src: SourceView,
    o: OptionsView,
)
    requires
        r.formats.len() == 0,
        r.codecs.len() == 0,
    ensures
        r.opened(src, o) == Err::<<F::Opened as Archive>::Model, ErrorView>(
            ErrorView::UnsupportedFormat("no registered format matched"@),
        ),
{
}

impl<F: ArchiveFormat, C: CodecFormat> View for Registry<F, C> {
    type V = RegistryView<F, C>;

    closed spec fn view(&self) -> RegistryView<F, C> {
        RegistryView { formats: self.archive_formats@, codecs: self.codecs@ }
    }
}

impl<F: ArchiveFormat, C: CodecFormat> Registry<F, C> {
    /// Create an empty registry.
    pub fn new() -> (r: Self)
        ensures
            r@ == (RegistryView { formats: Seq::<F>::empty(), codecs: Seq::<C>::empty() }),
    {
        Registry { archive_formats: Vec::new(), codecs: Vec::new() }
    }

    /// Register an archive format (builder-style).
    pub fn register_archive(self, format: F) -> (r: Self)
        ensures
            r@ == (RegistryView { formats: self@.formats.push(format), ..self@ }),
    {
        let mut archive_formats = self.archive_formats;
        archive_formats.push(format);
        Registry { archive_formats, codecs: self.codecs }
    }

    /// Register a codec format (builder-style).
    pub fn register_codec(self, format: C) -> (r: Self)
        ensures
            r@ == (RegistryView { codecs: self@.codecs.push(format), ..self@ }),
    {
        let mut codecs = self.codecs;
        codecs.push(format);
        Registry { archive_formats: self.archive_formats, codecs }
    }

    /// Registered archive formats (e.g. to build menus and file-dialog filters).
    pub fn archive_formats(&self) -> (r: &[F])
        ensures
            r@ == self@.formats,
    {
        self.archive_formats.as_slice()
    }

    /// Registered codec formats.
    pub fn codecs(&self) -> (r: &[C])
        ensures
            r@ == self@.codecs,
    {
        self.codecs.as_slice()
    }

    /// The first format that accepts the input.
    fn find_format(&self, head: &[u8], ext: Option<&str>) -> (r: Option<usize>)
        ensures
            match r {
                Some(i) => i < self@.formats.len() && first_format(
                    self@.formats,
                    head@,
                    opt_str(ext),
                ) == Some(i as int),
                None => first_format(self@.formats, head@, opt_str(ext)) is None,
            },
    {
        let mut i: usize = 0;
        while i < self.archive_formats.len()
            invariant
                i <= self.archive_formats@.len(),
                forall|j: int|
                    0 <= j < i ==> !(#[trigger] self.archive_formats@[j]).accepts(
                        head@,
                        opt_str(ext),
                    ),
            decreases self.archive_formats@.len() - i,
        {
            if self.archive_formats[i].matches(head, ext) {
                proof {
                    first_format_is(self.archive_formats@, head@, opt_str(ext), i as int);
                }
                return Some(i);
            }
            i += 1;
        }
        proof {
            first_format_is(self.archive_formats@, head@, opt_str(ext), i as int);
        }
        None
    }

    /// The first codec that accepts the input.
    fn find_codec(&self, head: &[u8], ext: Option<&str>) -> (r: Option<usize>)
        ensures
            match r {
                Some(i) => i < self@.codecs.len() && first_codec(self@.codecs, head@, opt_str(ext))
                    == Some(i as int),
                None => first_codec(self@.codecs, head@, opt_str(ext)) is None,
            },
    {
        let mut i: usize = 0;
        while i < self.codecs.len()
            invariant
                i <= self.codecs@.len(),
                forall|j: int|
                    0 <= j < i ==> !(#[trigger] self.codecs@[j]).accepts(head@, opt_str(ext)),
            decreases self.codecs@.len() - i,
        {
            if self.codecs[i].matches(head, ext) {
                proof {
                    first_codec_is(self.codecs@, head@, opt_str(ext), i as int);
                }
                return Some(i);
            }
            i += 1;
        }
        proof {
            first_codec_is(self.codecs@, head@, opt_str(ext), i as int);
        }
        None
    }

    /// Detect the archive format matching the given leading bytes / extension.
    pub fn detect_archive(&self, head: &[u8], ext: Option<&str>) -> (r: Option<&F>)
        ensures
            match r {
                Some(f) => self@.detected(head@, opt_str(ext)) is Some && *f
                    == self@.formats[self@.detected(head@, opt_str(ext))->0],
                None => self@.detected(head@, opt_str(ext)) is None,
            },
    {
        if let Some(i) = self.find_format(head, None) {
            return Some(&self.archive_formats[i]);
        }
        if ext.is_some() && self.find_codec(head, None).is_none() {
            if let Some(i) = self.find_format(head, ext) {
                return Some(&self.archive_formats[i]);
            }
        }
        None
    }

    /// Detect the codec matching the given leading bytes / extension.
    pub fn detect_codec(&self, head: &[u8], ext: Option<&str>) -> (r: Option<&C>)
        ensures
            match r {
                Some(c) => first_codec(self@.codecs, head@, opt_str(ext)) is Some && *c
                    == self@.codecs[first_codec(self@.codecs, head@, opt_str(ext))->0],
                None => first_codec(self@.codecs, head@, opt_str(ext)) is None,
            },
    {
        match self.find_codec(head, ext) {
            Some(i) => Some(&self.codecs[i]),
            None => None,
        }
    }

    /// Open an archive from `src`, auto-detecting its format.
    ///
    /// Direct archive formats (zip, tar) are opened as-is. If no archive format matches but a
    /// registered codec does (e.g. `.tar.gz`), the stream is decompressed into a bounded in-memory
    /// buffer and the inner format is detected on the decompressed content.
    pub fn open_archive(&self, src: Source, opts: &OpenOptions) -> (r: Result<F::Opened>)
        ensures
            match r {
                Ok(a) => self@.opened(src@, opts@) == Ok::<
                    <F::Opened as Archive>::Model,
                    ErrorView,
                >(a.model()),
                Err(e) => self@.opened(src@, opts@) == Err::<
                    <F::Opened as Archive>::Model,
                    ErrorView,
                >(e@),
            },
    {
        let extension = src.extension();
        let ext: Option<&str> = match &extension {
            Some(e) => Some(e.as_str()),
            None => None,
        };
        assert(opt_str(ext) == src@.extension);
        let head = head_slice(src.open());
        if let Some(format) = self.detect_archive(head, ext) {
            return format.open(src, opts);
        }
        // Not a direct archive: try a registered codec and re-detect inside.
        let codec = match self.detect_codec(head, ext) {
            Some(c) => c.build(),
            None => return Err(Error::no_format("no registered format matched")),
        };
        let buf = match codec.decompress(src.open(), IN_MEMORY_OPEN_CAP + 1) {
            Ok(buf) => buf,
            Err(e) => return Err(e),
        };
        if buf.len() as u64 > IN_MEMORY_OPEN_CAP {
            return Err(Error::no_feature("decompressed archive exceeds in-memory open cap"));
        }
        if let Some(format) = self.detect_archive(head_slice(buf.as_slice()), None) {
            return format.open(Source::Memory(buf), opts);
        }
        Err(Error::no_format("decompressed content is not a recognized archive"))
    }
}

impl<F: ArchiveFormat, C: CodecFormat> Default for Registry<F, C> {
    fn default() -> (r: Self)
        ensures
            r@ == (RegistryView { formats: Seq::<F>::empty(), codecs: Seq::<C>::empty() }),
    {
        Registry::new()
    }
}

/// One of the built-in archive formats.
pub enum BuiltinFormat {
    Zip(ZipFormat),
    Tar(TarFormat),
    SevenZip(SevenZipFormat),
    Rar(RarFormat),
}

impl ArchiveFormat for BuiltinFormat {
    type Opened = OpenedArchive;

    open spec fn accepts(&self, head: Seq<u8>, ext: Option<Seq<char>>) -> bool {
        match self {
            BuiltinFormat::Zip(f) => f.accepts(head, ext),
            BuiltinFormat::Tar(f) => f.accepts(head, ext),
            BuiltinFormat::SevenZip(f) => f.accepts(head, ext),
            BuiltinFormat::Rar(f) => f.accepts(head, ext),
        }
    }

    open spec fn opens(&self, bytes: Seq<u8>, o: OptionsView) -> std::result::Result<
        OpenedModel,
        ErrorView,
    > {
        match self {
            BuiltinFormat::Zip(f) => f.opens(bytes, o),
            BuiltinFormat::Tar(f) => f.opens(bytes, o),
            BuiltinFormat::SevenZip(f) => f.opens(bytes, o),
            BuiltinFormat::Rar(f) => f.opens(bytes, o),
        }
    }

    fn id(&self) -> (r: &'static str)
        ensures
            r@ == match self {
                BuiltinFormat::Zip(_) => "zip"@,
                BuiltinFormat::Tar(_) => "tar"@,
                BuiltinFormat::SevenZip(_) => "7z"@,
                BuiltinFormat::Rar(_) => "rar"@,
            },
    {
        match self {
            BuiltinFormat::Zip(f) => f.id(),
            BuiltinFormat::Tar(f) => f.id(),
            BuiltinFormat::SevenZip(f) => f.id(),
            BuiltinFormat::Rar(f) => f.id(),
        }
    }

    fn display_name(&self) -> (r: &'static str)
        ensures
            r@ == match self {
                BuiltinFormat::Zip(_) => "Zip"@,
                BuiltinFormat::Tar(_) => "Tar"@,
                BuiltinFormat::SevenZip(_) => "7-Zip"@,
                BuiltinFormat::Rar(_) => "RAR"@,
            },
    {
        match self {
            BuiltinFormat::Zip(f) => f.display_name(),
            BuiltinFormat::Tar(f) => f.display_name(),
            BuiltinFormat::SevenZip(f) => f.display_name(),
            BuiltinFormat::Rar(f) => f.display_name(),
        }
    }

    fn extensions(&self) -> (r: &'static [&'static str])
        ensures
            r@ == match self {
                BuiltinFormat::Zip(_) => seq!["zip"],
                BuiltinFormat::Tar(_) => seq!["tar", "tgz"],
                BuiltinFormat::SevenZip(_) => seq!["7z"],
                BuiltinFormat::Rar(_) => seq!["rar"],
            },
    {
        match self {
            BuiltinFormat::Zip(f) => f.extensions(),
            BuiltinFormat::Tar(f) => f.extensions(),
            BuiltinFormat::SevenZip(f) => f.extensions(),
            BuiltinFormat::Rar(f) => f.extensions(),
        }
    }

    fn matches(&self, head: &[u8], ext: Option<&str>) -> (r: bool) {
        match self {
            BuiltinFormat::Zip(f) => f.matches(head, ext),
            BuiltinFormat::Tar(f) => f.matches(head, ext),
            BuiltinFormat::SevenZip(f) => f.matches(head, ext),
            BuiltinFormat::Rar(f) => f.matches(head, ext),
        }
    }

    fn open(&self, src: Source, opts: &OpenOptions) -> (r: Result<OpenedArchive>) {
        match self {
            BuiltinFormat::Zip(f) => f.open(src, opts),
            BuiltinFormat::Tar(f) => f.open(src, opts),
            BuiltinFormat::SevenZip(f) => f.open(src, opts),
            BuiltinFormat::Rar(f) => f.open(src, opts),
        }
    }
}

/// One of the built-in codecs.
pub enum BuiltinCodec {
    Gzip(GzipCodec),
    Xz(XzCodec),
}

impl Codec for BuiltinCodec {
    open spec fn decoded(&self, input: Seq<u8>, limit: u64) -> std::result::Result<
        Seq<u8>,
        ErrorView,
    > {
        match self {
            BuiltinCodec::Gzip(c) => c.decoded(input, limit),
            BuiltinCodec::Xz(c) => c.decoded(input, limit),
        }
    }

    fn decompress(&self, input: &[u8], limit: u64) -> (r: Result<Vec<u8>>) {
        match self {
            BuiltinCodec::Gzip(c) => c.decompress(input, limit),
            BuiltinCodec::Xz(c) => c.decompress(input, limit),
        }
    }

    fn compress(&self, input: &[u8], level: Level) -> (r: Result<Vec<u8>>)
        ensures
            r is Err,
            r->Err_0@ == ErrorView::UnsupportedFeature(
                match self {
                    BuiltinCodec::Gzip(_) => "gzip compression"@,
                    BuiltinCodec::Xz(_) => "xz compression"@,
                },
            ),
    {
        match self {
            BuiltinCodec::Gzip(c) => c.compress(input, level),
            BuiltinCodec::Xz(c) => c.compress(input, level),
        }
    }
}

/// One of the built-in codec formats.
pub enum BuiltinCodecFormat {
    Gzip(GzipFormat),
    Xz(XzFormat),
}

impl CodecFormat for BuiltinCodecFormat {
    type Built = BuiltinCodec;

    open spec fn accepts(&self, head: Seq<u8>, ext: Option<Seq<char>>) -> bool {
        match self {
            BuiltinCodecFormat::Gzip(f) => f.accepts(head, ext),
            BuiltinCodecFormat::Xz(f) => f.accepts(head, ext),
        }
    }

    open spec fn builds(&self) -> BuiltinCodec {
        match self {
            BuiltinCodecFormat::Gzip(f) => BuiltinCodec::Gzip(f.builds()),
            BuiltinCodecFormat::Xz(f) => BuiltinCodec::Xz(f.builds()),
        }
    }

    fn id(&self) -> (r: &'static str)
        ensures
            r@ == match self {
                BuiltinCodecFormat::Gzip(_) => "gzip"@,
                BuiltinCodecFormat::Xz(_) => "xz"@,
            },
    {
        match self {
            BuiltinCodecFormat::Gzip(f) => f.id(),
            BuiltinCodecFormat::Xz(f) => f.id(),
        }
    }

    fn display_name(&self) -> (r: &'static str)
        ensures
            r@ == match self {
                BuiltinCodecFormat::Gzip(_) => "Gzip"@,
                BuiltinCodecFormat::Xz(_) => "XZ"@,
            },
    {
        match self {
            BuiltinCodecFormat::Gzip(f) => f.display_name(),
            BuiltinCodecFormat::Xz(f) => f.display_name(),
        }
    }

    fn extensions(&self) -> (r: &'static [&'static str])
        ensures
            r@ == match self {
                BuiltinCodecFormat::Gzip(_) => seq!["gz", "gzip"],
                BuiltinCodecFormat::Xz(_) => seq!["xz", "txz"],
            },
    {
        match self {
            BuiltinCodecFormat::Gzip(f) => f.extensions(),
            BuiltinCodecFormat::Xz(f) => f.extensions(),
        }
    }

    fn matches(&self, head: &[u8], ext: Option<&str>) -> (r: bool) {
        match self {
            BuiltinCodecFormat::Gzip(f) => f.matches(head, ext),
            BuiltinCodecFormat::Xz(f) => f.matches(head, ext),
        }
    }

    fn build(&self) -> (r: BuiltinCodec) {
        match self {
            BuiltinCodecFormat::Gzip(f) => BuiltinCodec::Gzip(f.build()),
            BuiltinCodecFormat::Xz(f) => BuiltinCodec::Xz(f.build()),
        }
    }
}

/// A registry of the built-in formats.
pub type BuiltinRegistry = Registry<BuiltinFormat, BuiltinCodecFormat>;

/// All built-in formats: zip, tar, 7z and RAR, and the gzip and xz codecs.
pub open spec fn all_formats() -> RegistryView<BuiltinFormat, BuiltinCodecFormat> {
    RegistryView {
        formats: seq![
            BuiltinFormat::Zip(ZipFormat),
            BuiltinFormat::Tar(TarFormat),
            BuiltinFormat::SevenZip(SevenZipFormat),
            BuiltinFormat::Rar(RarFormat),
        ],
        codecs: seq![BuiltinCodecFormat::Gzip(GzipFormat), BuiltinCodecFormat::Xz(XzFormat)],
    }
}

impl Registry<BuiltinFormat, BuiltinCodecFormat> {
    /// A registry with all built-in formats.
    pub fn with_all_formats() -> (r: Self)
        ensures
            r@ == all_formats(),
    {
        let r = Registry::new()
            .register_archive(BuiltinFormat::Zip(ZipFormat))
            .register_archive(BuiltinFormat::Tar(TarFormat))
            .register_archive(BuiltinFormat::SevenZip(SevenZipFormat))
            .register_archive(BuiltinFormat::Rar(RarFormat))
            .register_codec(BuiltinCodecFormat::Gzip(GzipFormat))
            .register_codec(BuiltinCodecFormat::Xz(XzFormat));
        assert(r@.formats =~= all_formats().formats);
        assert(r@.codecs =~= all_formats().codecs);
        r
    }
}

/// The registry of all formats that the application supports.
pub fn compose_registry() -> (r: BuiltinRegistry)
    ensures
        r@ == all_formats(),
{
    Registry::with_all_formats()
}

} // verus!
