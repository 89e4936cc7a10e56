//! Where archive bytes come from.

use vstd::prelude::*;

use crate::file_path::{extension_of, path_extension};
use crate::model::opt_text;
use crate::text::{ascii_lower, to_ascii_lower};

verus! {

/// The origin of archive bytes.
#[derive(Debug)]
pub enum Source {
    /// A file on disk: where it lies, and what it holds.
    Path { path: String, bytes: Vec<u8> },
    /// An in-memory buffer.
    Memory(Vec<u8>),
}

/// What a source holds and what its name hints at.
pub struct SourceView {
    /// The bytes.
    pub bytes: Seq<u8>,
    /// The lowercased extension, if the source is a file whose name has one.
    pub extension: Option<Seq<char>>,
}

/// What a file holds and what its path hints at: the last extension of its name, lowercased.
pub open spec fn file_source(path: Seq<char>, bytes: Seq<u8>) -> SourceView {
    SourceView {
        bytes,
        extension: match path_extension(path) {
            Some(e) => Some(ascii_lower(e)),
            None => None,
        },
    }
}

impl View for Source {
    type V = SourceView;

    open spec fn view(&self) -> SourceView {
        match self {
            Source::Path { path, bytes } => file_source(path@, bytes@),
            Source::Memory(bytes) => SourceView { bytes: bytes@, extension: None },
        }
    }
}

impl Source {
    /// The bytes of the source.
    pub fn open(&self) -> (r: &[u8])
        ensures
            r@ == self@.bytes,
    {
        match self {
            Source::Path { path: _, bytes } => bytes.as_slice(),
            Source::Memory(bytes) => bytes.as_slice(),
        }
    }

    /// The bytes of the source, taken out of it.
    pub fn into_bytes(self) -> (r: Vec<u8>)
        ensures
            r@ == self@.bytes,
    {
        match self {
            Source::Path { path: _, bytes } => bytes,
            Source::Memory(bytes) => bytes,
        }
    }

    /// The lowercased file extension, if this is a path source that has one.
    ///
    /// Used as a fallback hint for format detection.
    pub fn extension(&self) -> (r: Option<String>)
        ensures
            opt_text(r) == self@.extension,
    {
        match self {
            Source::Path { path, bytes: _ } => match extension_of(path.as_str()) {
                Some(e) => Some(to_ascii_lower(e.as_str())),
                None => None,
            },
            Source::Memory(_) => None,
        }
    }
}

} // verus!
