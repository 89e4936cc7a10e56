//! The built-in archive formats: identity and detection.

use vstd::prelude::*;

use crate::archive::opened::{
    open_rar, open_sevenz, open_tar, open_zip, opened_rar, opened_sevenz, opened_tar, opened_zip,
    OpenedArchive, OpenedModel,
};
use crate::archive::{
    is_rar, is_tar, is_zip, looks_like_rar, looks_like_sevenz, looks_like_tar, looks_like_zip,
    sevenz_magic, OpenOptions, OptionsView,
};
use crate::error::{ErrorView, Result};
use crate::format::{ext_is, ArchiveFormat};
use crate::source::Source;

verus! {

/// Format identity and detection for ZIP archives.
pub struct ZipFormat;

impl ArchiveFormat for ZipFormat {
    type Opened = OpenedArchive;

    open spec fn accepts(&self, head: Seq<u8>, ext: Option<Seq<char>>) -> bool {
        is_zip(head) || ext == Some("zip"@)
    }

    open spec fn opens(&self, bytes: Seq<u8>, o: OptionsView) -> std::result::Result<
        OpenedModel,
        ErrorView,
    > {
        opened_zip(bytes, o)
    }

    fn id(&self) -> (r: &'static str)
        ensures
            r@ == "zip"@,
    {
        "zip"
    }

    fn display_name(&self) -> (r: &'static str)
        ensures
            r@ == "Zip"@,
    {
        "Zip"
    }

    fn extensions(&self) -> (r: &'static [&'static str])
        ensures
            r@ == seq!["zip"],
    {
        &["zip"]
    }

    fn matches(&self, head: &[u8], ext: Option<&str>) -> (r: bool) {
        looks_like_zip(head) || ext_is(ext, "zip")
    }

    fn open(&self, src: Source, opts: &OpenOptions) -> (r: Result<OpenedArchive>) {
        open_zip(src.open(), opts)
    }
}

/// Format identity and detection for TAR archives.
pub struct TarFormat;

impl ArchiveFormat for TarFormat {
    type Opened = OpenedArchive;

    open spec fn accepts(&self, head: Seq<u8>, ext: Option<Seq<char>>) -> bool {
        is_tar(head) || ext == Some("tar"@) || ext == Some("tgz"@)
    }

    open spec fn opens(&self, bytes: Seq<u8>, o: OptionsView) -> std::result::Result<
        OpenedModel,
        ErrorView,
    > {
        opened_tar(bytes, o)
    }

    fn id(&self) -> (r: &'static str)
        ensures
            r@ == "tar"@,
    {
        "tar"
    }

    fn display_name(&self) -> (r: &'static str)
        ensures
            r@ == "Tar"@,
    {
        "Tar"
    }

    fn extensions(&self) -> (r: &'static [&'static str])
        ensures
            r@ == seq!["tar", "tgz"],
    {
        &["tar", "tgz"]
    }

    fn matches(&self, head: &[u8], ext: Option<&str>) -> (r: bool) {
        looks_like_tar(head) || ext_is(ext, "tar") || ext_is(ext, "tgz")
    }

    fn open(&self, src: Source, opts: &OpenOptions) -> (r: Result<OpenedArchive>) {
        open_tar(src.into_bytes(), opts)
    }
}

/// Format identity and detection for 7z archives.
pub struct SevenZipFormat;

impl ArchiveFormat for SevenZipFormat {
    type Opened = OpenedArchive;

    open spec fn accepts(&self, head: Seq<u8>, ext: Option<Seq<char>>) -> bool {
        sevenz_magic().is_prefix_of(head) || ext == Some("7z"@)
    }

    open spec fn opens(&self, bytes: Seq<u8>, o: OptionsView) -> std::result::Result<
        OpenedModel,
        ErrorView,
    > {
        opened_sevenz(bytes, o)
    }

    fn id(&self) -> (r: &'static str)
        ensures
            r@ == "7z"@,
    {
        "7z"
    }

    fn display_name(&self) -> (r: &'static str)
        ensures
            r@ == "7-Zip"@,
    {
        "7-Zip"
    }

    fn extensions(&self) -> (r: &'static [&'static str])
        ensures
            r@ == seq!["7z"],
    {
        &["7z"]
    }

    fn matches(&self, head: &[u8], ext: Option<&str>) -> (r: bool) {
        looks_like_sevenz(head) || ext_is(ext, "7z")
    }

    fn open(&self, src: Source, opts: &OpenOptions) -> (r: Result<OpenedArchive>) {
        open_sevenz(src.into_bytes(), opts)
    }
}

/// Format identity and detection for RAR archives.
pub struct RarFormat;

impl ArchiveFormat for RarFormat {
    type Opened = OpenedArchive;

    open spec fn accepts(&self, head: Seq<u8>, ext: Option<Seq<char>>) -> bool {
        is_rar(head) || ext == Some("rar"@)
    }

    open spec fn opens(&self, bytes: Seq<u8>, o: OptionsView) -> std::result::Result<
        OpenedModel,
        ErrorView,
    > {
        opened_rar(bytes, o)
    }

    fn id(&self) -> (r: &'static str)
        ensures
            r@ == "rar"@,
    {
        "rar"
    }

    fn display_name(&self) -> (r: &'static str)
        ensures
            r@ == "RAR"@,
    {
        "RAR"
    }

    fn extensions(&self) -> (r: &'static [&'static str])
        ensures
            r@ == seq!["rar"],
    {
        &["rar"]
    }

    fn matches(&self, head: &[u8], ext: Option<&str>) -> (r: bool) {
        looks_like_rar(head) || ext_is(ext, "rar")
    }

    fn open(&self, src: Source, opts: &OpenOptions) -> (r: Result<OpenedArchive>) {
        open_rar(src.into_bytes(), opts)
    }
}

} // verus!
