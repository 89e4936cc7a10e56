//! The core of an archive tool: one interface to zip, tar, 7z and RAR archives and to gzip and xz
//! streams, with recursive access to files, folders and nested archives; extraction; and the logic
//! behind the windows of its desktop application.
//!
//! What a function does is stated in its contract and proved. The exceptions are the methods of
//! [`CancellationToken`], whose flag other threads may change at any time. The decoders are those of
//! outside crates, which are called through small wrappers; nothing here reads or writes a file.
//! Where files are needed, the library says what is to be done, and takes back what came of it.

pub mod archive;
pub mod codec;
pub mod config;
pub mod controller;
pub mod encoding;
pub mod error;
pub mod events;
pub mod extract;
pub mod file_path;
pub mod format;
pub mod icons;
pub mod laws;
pub mod model;
pub mod navigate;
pub mod registry;
pub mod source;
pub mod text;
pub mod timestamp;
pub mod view;
pub mod viewmodel;
pub mod walk;

pub use archive::children::child_entries;
pub use archive::formats::{RarFormat, SevenZipFormat, TarFormat, ZipFormat};
pub use archive::node::{Browse, Node, NodeRef};
pub use archive::opened::OpenedArchive;
pub use archive::{Archive, Capabilities, OpenOptions};
pub use codec::gzip::{GzipCodec, GzipFormat};
pub use codec::xz::{XzCodec, XzFormat};
pub use codec::Codec;
pub use encoding::{decode_filename, Codepage, FilenameEncoding, Utf8Flag};
pub use error::{Error, Result};
pub use extract::{
    CancellationToken, ExtractEngine, ExtractOptions, ExtractReport, OverwriteDecision,
    OverwritePolicy, ProgressSink, SafetyLimits,
};
pub use format::{ArchiveFormat, CodecFormat};
pub use model::{
    CodecId, EntryMeta, EntryPath, FormatKind, Level, Location, NodeKind, Secret, Timestamp,
};
pub use navigate::{Frame, Navigator};
pub use registry::{BuiltinRegistry, Registry};
pub use source::Source;
pub use walk::{walk, Walk, WalkItem, WalkOptions};
