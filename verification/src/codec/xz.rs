//! XZ (`.xz`) codec, decoded by the `lzma-rust2` crate.

use std::io::Read;

use vstd::prelude::*;

use crate::archive::{xz_magic, looks_like_xz};
use crate::codec::Codec;
use crate::error::{Error, ErrorView, Result};
use crate::format::{ext_is, CodecFormat};
use crate::model::Level;

verus! {

/// The first bytes of what an xz stream decodes to, or the text of the error that comes first.
pub uninterp spec fn xz_decoded(input: Seq<u8>, limit: u64) -> std::result::Result<
    Seq<u8>,
    Seq<char>,
>;

/// Decode an xz stream up to a limit.
///
/// Trusted: names what reading from `lzma_rust2::XzReader` over the input gives, with concatenated
/// streams allowed, cut off by `take` after `limit` bytes, so never more than these.
#[verifier::external_body]
fn unxz(input: &[u8], limit: u64) -> (r: std::result::Result<Vec<u8>, String>)
    ensures
        match r {
            Ok(b) => b@.len() <= limit && xz_decoded(input@, limit) == Ok::<
                Seq<u8>,
                Seq<char>,
            >(b@),
            Err(m) => xz_decoded(input@, limit) == Err::<Seq<u8>, Seq<char>>(m@),
        },
{
    let mut out = Vec::new();
    let decoder = lzma_rust2::XzReader::new(input, true);
    decoder.take(limit).read_to_end(&mut out).map(|_| out).map_err(|e| e.to_string())
}

/// The library's outcome of decoding: a decoding error is an I/O error.
pub open spec fn xz_outcome(input: Seq<u8>, limit: u64) -> std::result::Result<
    Seq<u8>,
    ErrorView,
> {
    match xz_decoded(input, limit) {
        Ok(b) => Ok(b),
        Err(m) => Err(ErrorView::Io(m)),
    }
}

/// The xz codec. Stateless; identity and detection live in [`XzFormat`].
pub struct XzCodec;

impl Codec for XzCodec {
    open spec fn decoded(&self, input: Seq<u8>, limit: u64) -> std::result::Result<
        Seq<u8>,
        ErrorView,
    > {
        xz_outcome(input, limit)
    }

    fn decompress(&self, input: &[u8], limit: u64) -> (r: Result<Vec<u8>>)
        ensures
            r is Ok ==> r->Ok_0@.len() <= limit,
    {
        match unxz(input, limit) {
            Ok(b) => Ok(b),
            Err(m) => Err(Error::Io(m)),
        }
    }

    /// Compression is not available.
    fn compress(&self, _input: &[u8], _level: Level) -> (r: Result<Vec<u8>>)
        ensures
            r is Err,
            r->Err_0@ == ErrorView::UnsupportedFeature("xz compression"@),
    {
        Err(Error::no_feature("xz compression"))
    }
}

/// Format identity and detection for xz.
pub struct XzFormat;

impl CodecFormat for XzFormat {
    type Built = XzCodec;

    open spec fn accepts(&self, head: Seq<u8>, ext: Option<Seq<char>>) -> bool {
        xz_magic().is_prefix_of(head) || ext == Some("xz"@) || ext == Some("txz"@)
    }

    open spec fn builds(&self) -> XzCodec {
        XzCodec
    }

    fn id(&self) -> (r: &'static str)
        ensures
            r@ == "xz"@,
    {
        "xz"
    }

    fn display_name(&self) -> (r: &'static str)
        ensures
            r@ == "XZ"@,
    {
        "XZ"
    }

    fn extensions(&self) -> (r: &'static [&'static str])
        ensures
            r@ == seq!["xz", "txz"],
    {
        &["xz", "txz"]
    }

    fn matches(&self, head: &[u8], ext: Option<&str>) -> (r: bool) {
        looks_like_xz(head) || ext_is(ext, "xz") || ext_is(ext, "txz")
    }

    fn build(&self) -> (r: XzCodec) {
        XzCodec
    }
}

} // verus!
