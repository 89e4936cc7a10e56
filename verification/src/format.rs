//! Format-handler abstraction: concrete formats plug in here.
//!
//! Each format is an implementation of [`ArchiveFormat`] / [`CodecFormat`], carrying its own
//! identity (id / display name / extensions) and detection logic. Adding a format means adding an
//! implementation. Applications compose the formats they support into a
//! [`crate::registry::Registry`].

use vstd::prelude::*;

use crate::archive::{Archive, OpenOptions, OptionsView};
use crate::codec::Codec;
use crate::error::{ErrorView, Result};
use crate::source::Source;
use crate::text::same_text;

verus! {

/// An optional text as a character sequence.
pub open spec fn opt_str(s: Option<&str>) -> Option<Seq<char>> {
    match s {
        Some(s) => Some(s@),
        None => None,
    }
}

/// Whether there is an extension and it is the given one.
pub fn ext_is(ext: Option<&str>, want: &str) -> (r: bool)
    ensures
        r == (opt_str(ext) == Some(want@)),
{
    match ext {
        Some(e) => same_text(e, want),
        None => false,
    }
}

/// A concrete archive format (e.g. zip, 7z, tar) that can detect and open archives of its kind.
pub trait ArchiveFormat {
    /// The archives that this format opens.
    type Opened: Archive;

    /// Whether the format takes an input with these leading bytes and this lowercased extension.
    open spec fn accepts(&self, head: Seq<u8>, ext: Option<Seq<char>>) -> bool {
        arbitrary()
    }

    /// The archive that bytes are, or why they cannot be opened.
    open spec fn opens(&self, bytes: Seq<u8>, o: OptionsView) -> std::result::Result<
        <Self::Opened as Archive>::Model,
        ErrorView,
    > {
        arbitrary()
    }

    /// Canonical short identifier, e.g. `"zip"`, `"7z"`, `"tar"`.
    fn id(&self) -> &'static str;

    /// Human-readable display name, e.g. `"Zip"`, `"7-Zip"`.
    fn display_name(&self) -> &'static str;

    /// Typical file extensions without a leading dot, e.g. `["zip"]`.
    fn extensions(&self) -> &'static [&'static str];

    /// Whether this format can open the input, given leading bytes and an optional (lowercased)
    /// file extension.
    fn matches(&self, head: &[u8], ext: Option<&str>) -> (r: bool)
        ensures
            r == self.accepts(head@, opt_str(ext)),
    ;

    /// Open an archive from the source.
    fn open(&self, src: Source, opts: &OpenOptions) -> (r: Result<Self::Opened>)
        ensures
            match r {
                Ok(a) => self.opens(src@.bytes, opts@) == Ok::<
                    <Self::Opened as Archive>::Model,
                    ErrorView,
                >(a.model()),
                Err(e) => self.opens(src@.bytes, opts@) == Err::<
                    <Self::Opened as Archive>::Model,
                    ErrorView,
                >(e@),
            },
    ;
}

/// A concrete single-stream codec (e.g. gzip, xz) that can detect and build itself.
pub trait CodecFormat {
    /// The codec that this format builds.
    type Built: Codec;

    /// Whether the codec applies to an input with these leading bytes and this lowercased
    /// extension.
    open spec fn accepts(&self, head: Seq<u8>, ext: Option<Seq<char>>) -> bool {
        arbitrary()
    }

    /// The codec.
    open spec fn builds(&self) -> Self::Built {
        arbitrary()
    }

    /// Canonical short identifier, e.g. `"gzip"`, `"xz"`.
    fn id(&self) -> &'static str;

    /// Human-readable display name.
    fn display_name(&self) -> &'static str;

    /// Typical file extensions without a leading dot.
    fn extensions(&self) -> &'static [&'static str];

    /// Whether this codec applies to the input, given leading bytes and an optional (lowercased)
    /// file extension.
    fn matches(&self, head: &[u8], ext: Option<&str>) -> (r: bool)
        ensures
            r == self.accepts(head@, opt_str(ext)),
    ;

    /// Build the codec.
    fn build(&self) -> (r: Self::Built)
        ensures
            r == self.builds(),
    ;
}

} // verus!
