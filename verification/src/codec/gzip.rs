//! Gzip (RFC 1952) codec, decoded by the `flate2` crate.

use std::io::Read;

use vstd::prelude::*;

use crate::archive::{gzip_magic, looks_like_gzip};
use crate::codec::Codec;
use crate::error::{Error, ErrorView, Result};
use crate::format::{ext_is, CodecFormat};
use crate::model::Level;

verus! {

/// The first bytes of what a gzip stream decodes to, or the text of the error that comes first.
pub uninterp spec fn gzip_decoded(input: Seq<u8>, limit: u64) -> std::result::Result<
    Seq<u8>,
    Seq<char>,
>;

/// Decode a gzip stream up to a limit.
///
/// Trusted: names what reading from `flate2::read::MultiGzDecoder` over the input gives, cut off by
/// `take` after `limit` bytes, so never more than these. Concatenated members are all decoded, and
/// a wrong checksum is an error.
#[verifier::external_body]
fn gunzip(input: &[u8], limit: u64) -> (r: std::result::Result<Vec<u8>, String>)
    ensures
        match r {
            Ok(b) => b@.len() <= limit && gzip_decoded(input@, limit) == Ok::<
                Seq<u8>,
                Seq<char>,
            >(b@),
            Err(m) => gzip_decoded(input@, limit) == Err::<Seq<u8>, Seq<char>>(m@),
        },
{
    let mut out = Vec::new();
    let decoder = flate2::read::MultiGzDecoder::new(input);
    decoder.take(limit).read_to_end(&mut out).map(|_| out).map_err(|e| e.to_string())
}

/// The library's outcome of decoding: a decoding error is an I/O error.
pub open spec fn gzip_outcome(input: Seq<u8>, limit: u64) -> std::result::Result<
    Seq<u8>,
    ErrorView,
> {
    match gzip_decoded(input, limit) {
        Ok(b) => Ok(b),
        Err(m) => Err(ErrorView::Io(m)),
    }
}

/// The gzip codec. Stateless; identity and detection live in [`GzipFormat`].
pub struct GzipCodec;

impl Codec for GzipCodec {
    open spec fn decoded(&self, input: Seq<u8>, limit: u64) -> std::result::Result<
        Seq<u8>,
        ErrorView,
    > {
        gzip_outcome(input, limit)
    }

    fn decompress(&self, input: &[u8], limit: u64) -> (r: Result<Vec<u8>>)
        ensures
            r is Ok ==> r->Ok_0@.len() <= limit,
    {
        match gunzip(input, limit) {
            Ok(b) => Ok(b),
            Err(m) => Err(Error::Io(m)),
        }
    }

    /// Compression is not available.
    fn compress(&self, _input: &[u8], _level: Level) -> (r: Result<Vec<u8>>)
        ensures
            r is Err,
            r->Err_0@ == ErrorView::UnsupportedFeature("gzip compression"@),
    {
        Err(Error::no_feature("gzip compression"))
    }
}

/// Format identity and detection for gzip.
pub struct GzipFormat;

impl CodecFormat for GzipFormat {
    type Built = GzipCodec;

    open spec fn accepts(&self, head: Seq<u8>, ext: Option<Seq<char>>) -> bool {
        gzip_magic().is_prefix_of(head) || ext == Some("gz"@) || ext == Some("gzip"@)
    }

    open spec fn builds(&self) -> GzipCodec {
        GzipCodec
    }

    fn id(&self) -> (r: &'static str)
        ensures
            r@ == "gzip"@,
    {
        "gzip"
    }

    fn display_name(&self) -> (r: &'static str)
        ensures
            r@ == "Gzip"@,
    {
        "Gzip"
    }

    fn extensions(&self) -> (r: &'static [&'static str])
        ensures
            r@ == seq!["gz", "gzip"],
    {
        &["gz", "gzip"]
    }

    fn matches(&self, head: &[u8], ext: Option<&str>) -> (r: bool) {
        looks_like_gzip(head) || ext_is(ext, "gz") || ext_is(ext, "gzip")
    }

    fn build(&self) -> (r: GzipCodec) {
        GzipCodec
    }
}

} // verus!
