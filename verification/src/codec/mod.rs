//! Codec abstraction for single-stream compression formats.

pub mod gzip;
pub mod xz;

use vstd::prelude::*;

use crate::error::{Error, ErrorView, Result};
use crate::model::Level;

verus! {

/// A compression codec operating on a single byte stream (e.g. gzip, xz).
///
/// A codec carries no format identity of its own; identity and detection live with the concrete
/// implementation of [`crate::format::CodecFormat`].
pub trait Codec {
    /// The first `limit` bytes that the input decodes to (all of them where there are fewer), or
    /// the error that comes before them.
    open spec fn decoded(&self, input: Seq<u8>, limit: u64) -> std::result::Result<Seq<u8>, ErrorView> {
        arbitrary()
    }

    /// Decompress `input`, stopping after `limit` bytes.
    fn decompress(&self, input: &[u8], limit: u64) -> (r: Result<Vec<u8>>)
        ensures
            match r {
                Ok(b) => self.decoded(input@, limit) == Ok::<Seq<u8>, ErrorView>(b@),
                Err(e) => self.decoded(input@, limit) == Err::<Seq<u8>, ErrorView>(e@),
            },
    ;

    /// Compress `input`. Reserved for future write support; defaults to unsupported.
    fn compress(&self, _input: &[u8], _level: Level) -> (r: Result<Vec<u8>>)
        default_ensures
            r is Err,
            r->Err_0@ == ErrorView::UnsupportedFeature("compression"@),
    {
        Err(Error::no_feature("compression"))
    }
}

} // verus!
