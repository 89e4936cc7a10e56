//! Archive abstraction for container formats that hold a file tree.

pub mod children;
pub mod formats;
pub mod node;
pub mod opened;
pub mod rar;
pub mod sevenz;
pub mod tar;
pub mod zip;

use vstd::prelude::*;
use vstd::string::*;

use crate::encoding::FilenameEncoding;
use crate::error::{Error, ErrorView, Result};
use crate::model::{views, EntryMeta, EntryPath, EntryView, Secret};
use crate::text::{bytes_start_with, concat2};

pub use node::{Browse, Node, NodeRef};
pub use children::{child_entries, is_child_listing};

verus! {

/// Cap on bytes materialized in memory when opening a nested archive entry or a decompressed codec
/// stream (zip-bomb guard). Entries beyond this are rejected.
pub const IN_MEMORY_OPEN_CAP: u64 = 536_870_912;

/// Number of leading bytes sniffed to detect a format. Large enough for tar's `ustar` magic at
/// offset 257.
pub const SNIFF_BYTES: usize = 512;

/// Entries larger than this are never sniffed for nested-archive marking (they are practically
/// never archives themselves).
pub const SNIFF_ENTRY_CAP: u64 = 1_048_576;

/// Solid archives larger than this are not sniffed at open time: reading any member of a solid
/// chain decodes the whole chain.
pub const SOLID_SNIFF_ARCHIVE_CAP: u64 = 8_388_608;

/// The bytes a zip archive begins with.
pub open spec fn zip_magic() -> Seq<u8> {
    seq![0x50u8, 0x4b, 0x03, 0x04]
}

/// The bytes an empty zip archive begins with.
pub open spec fn empty_zip_magic() -> Seq<u8> {
    seq![0x50u8, 0x4b, 0x05, 0x06]
}

/// The bytes a 7z archive begins with.
pub open spec fn sevenz_magic() -> Seq<u8> {
    seq![0x37u8, 0x7a, 0xbc, 0xaf, 0x27, 0x1c]
}

/// The bytes a gzip stream begins with.
pub open spec fn gzip_magic() -> Seq<u8> {
    seq![0x1fu8, 0x8b]
}

/// The bytes an xz stream begins with.
pub open spec fn xz_magic() -> Seq<u8> {
    seq![0xfdu8, 0x37, 0x7a, 0x58, 0x5a, 0x00]
}

/// The bytes a RAR 1.5 to 4.x archive begins with.
pub open spec fn rar4_magic() -> Seq<u8> {
    seq![0x52u8, 0x61, 0x72, 0x21, 0x1a, 0x07, 0x00]
}

/// The bytes a RAR 5 or later archive begins with.
pub open spec fn rar5_magic() -> Seq<u8> {
    seq![0x52u8, 0x61, 0x72, 0x21, 0x1a, 0x07, 0x01, 0x00]
}

/// The word `ustar`, which a tar archive holds at offset 257.
pub open spec fn tar_magic() -> Seq<u8> {
    seq![0x75u8, 0x73, 0x74, 0x61, 0x72]
}

/// Whether the bytes begin as a zip archive does.
pub open spec fn is_zip(head: Seq<u8>) -> bool {
    zip_magic().is_prefix_of(head) || empty_zip_magic().is_prefix_of(head)
}

/// Whether the bytes begin as a RAR archive does.
pub open spec fn is_rar(head: Seq<u8>) -> bool {
    rar4_magic().is_prefix_of(head) || rar5_magic().is_prefix_of(head)
}

/// Whether the bytes hold tar's magic word where a tar archive has it.
pub open spec fn is_tar(head: Seq<u8>) -> bool {
    head.len() >= 262 && head.subrange(257, 262) == tar_magic()
}

/// Whether the bytes begin as one of the known formats does.
pub open spec fn is_nested_archive(head: Seq<u8>) -> bool {
    ||| is_zip(head)
    ||| sevenz_magic().is_prefix_of(head)
    ||| is_tar(head)
    ||| gzip_magic().is_prefix_of(head)
    ||| xz_magic().is_prefix_of(head)
    ||| is_rar(head)
}

/// Whether the head bytes begin a zip archive.
pub fn looks_like_zip(head: &[u8]) -> (r: bool)
    ensures
        r == is_zip(head@),
{
    bytes_start_with(head, &[0x50, 0x4b, 0x03, 0x04]) || bytes_start_with(
        head,
        &[0x50, 0x4b, 0x05, 0x06],
    )
}

/// Whether the head bytes begin a 7z archive.
pub fn looks_like_sevenz(head: &[u8]) -> (r: bool)
    ensures
        r == sevenz_magic().is_prefix_of(head@),
{
    bytes_start_with(head, &[0x37, 0x7a, 0xbc, 0xaf, 0x27, 0x1c])
}

/// Whether the head bytes begin a gzip stream.
pub fn looks_like_gzip(head: &[u8]) -> (r: bool)
    ensures
        r == gzip_magic().is_prefix_of(head@),
{
    bytes_start_with(head, &[0x1f, 0x8b])
}

/// Whether the head bytes begin an xz stream.
pub fn looks_like_xz(head: &[u8]) -> (r: bool)
    ensures
        r == xz_magic().is_prefix_of(head@),
{
    bytes_start_with(head, &[0xfd, 0x37, 0x7a, 0x58, 0x5a, 0x00])
}

/// Whether the head bytes begin a RAR archive: RAR 1.5-4.x (7 bytes) or RAR 5+ (8 bytes).
pub fn looks_like_rar(head: &[u8]) -> (r: bool)
    ensures
        r == is_rar(head@),
{
    bytes_start_with(head, &[0x52, 0x61, 0x72, 0x21, 0x1a, 0x07, 0x00]) || bytes_start_with(
        head,
        &[0x52, 0x61, 0x72, 0x21, 0x1a, 0x07, 0x01, 0x00],
    )
}

/// Whether the head bytes look like a (POSIX/GNU) tar archive: `ustar` magic at offset 257.
pub fn looks_like_tar(head: &[u8]) -> (r: bool)
    ensures
        r == is_tar(head@),
{
    if head.len() < 262 {
        return false;
    }
    let r = head[257] == 0x75 && head[258] == 0x73 && head[259] == 0x74 && head[260] == 0x61
        && head[261] == 0x72;
    proof {
        let word = head@.subrange(257, 262);
        if r {
            assert(word =~= tar_magic());
        } else {
            assert(word[0] == head@[257] && word[1] == head@[258] && word[2] == head@[259]
                && word[3] == head@[260] && word[4] == head@[261]);
        }
    }
    r
}

/// Whether the head bytes look like a nested archive (zip, 7z, tar, gzip, xz or rar). Used to mark
/// entries as [`NodeKind::Archive`] so that a walk can recurse into them.
pub fn looks_like_nested_archive(head: &[u8]) -> (r: bool)
    ensures
        r == is_nested_archive(head@),
{
    looks_like_zip(head) || looks_like_sevenz(head) || looks_like_tar(head) || looks_like_gzip(head)
        || looks_like_xz(head) || looks_like_rar(head)
}

/// Options controlling how an archive is opened.
pub struct OpenOptions {
    /// Password for encrypted archives, if any.
    pub password: Option<Secret>,
    /// Filename decoding strategy.
    pub encoding: FilenameEncoding,
}

/// [`OpenOptions`] as mathematical values.
pub struct OptionsView {
    pub password: Option<Seq<u8>>,
    pub encoding: FilenameEncoding,
}

/// An optional secret as bytes.
pub open spec fn opt_secret(s: Option<Secret>) -> Option<Seq<u8>> {
    match s {
        Some(s) => Some(s@),
        None => None,
    }
}

impl View for OpenOptions {
    type V = OptionsView;

    open spec fn view(&self) -> OptionsView {
        OptionsView { password: opt_secret(self.password), encoding: self.encoding }
    }
}

/// A copy of an optional secret.
pub fn clone_secret(s: &Option<Secret>) -> (r: Option<Secret>)
    ensures
        opt_secret(r) == opt_secret(*s),
{
    match s {
        Some(s) => Some(s.clone()),
        None => None,
    }
}

impl Clone for OpenOptions {
    fn clone(&self) -> (r: Self)
        ensures
            r@ == self@,
    {
        OpenOptions { password: clone_secret(&self.password), encoding: self.encoding }
    }
}

impl Default for OpenOptions {
    fn default() -> (r: Self)
        ensures
            r@ == (OptionsView { password: None, encoding: FilenameEncoding::Auto }),
    {
        OpenOptions { password: None, encoding: FilenameEncoding::Auto }
    }
}

/// Describes what an archive implementation can do.
#[derive(Debug, Clone, Copy, PartialEq, Eq, Structural)]
pub struct Capabilities {
    /// Whether entries can be accessed randomly (vs. sequential-only).
    pub random_access: bool,
    /// Whether the archive contains any encrypted entries.
    pub encrypted: bool,
    /// Whether a password is required to proceed.
    pub needs_password: bool,
    /// Whether writing/creation is supported.
    pub can_write: bool,
}

/// A readable archive container (zip / 7z / tar / ...).
///
/// `Model` is what an archive is, as a mathematical value; what its methods return depends on that
/// value and their arguments alone. An implementation states how; of one that states nothing,
/// nothing is known.
pub trait Archive: Sized {
    /// What an archive of this type is.
    type Model;

    /// What this archive is.
    open spec fn model(&self) -> Self::Model {
        arbitrary()
    }

    /// The flat listing.
    open spec fn listing(m: Self::Model) -> std::result::Result<Seq<EntryView>, ErrorView> {
        arbitrary()
    }

    /// The entry at a path.
    open spec fn lookup(m: Self::Model, path: Seq<char>) -> std::result::Result<EntryView, ErrorView> {
        arbitrary()
    }

    /// The decompressed bytes of an entry.
    open spec fn content(m: Self::Model, e: EntryView) -> std::result::Result<Seq<u8>, ErrorView> {
        arbitrary()
    }

    /// The archive that an entry holds.
    open spec fn nested(m: Self::Model, e: EntryView, o: OptionsView) -> std::result::Result<
        Self::Model,
        ErrorView,
    > {
        arbitrary()
    }

    /// What can be done with the archive.
    open spec fn abilities(m: Self::Model) -> Capabilities {
        arbitrary()
    }

    /// Flat listing of all entry metadata (no content).
    fn entries(&self) -> (r: Result<Vec<EntryMeta>>)
        ensures
            match r {
                Ok(es) => Self::listing(self.model()) == Ok::<Seq<EntryView>, ErrorView>(
                    views(es@),
                ),
                Err(e) => Self::listing(self.model()) == Err::<Seq<EntryView>, ErrorView>(e@),
            },
    ;

    /// Metadata of the entry at `path`.
    fn find(&self, path: &EntryPath) -> (r: Result<EntryMeta>)
        ensures
            match r {
                Ok(e) => Self::lookup(self.model(), path@) == Ok::<EntryView, ErrorView>(e@),
                Err(e) => Self::lookup(self.model(), path@) == Err::<EntryView, ErrorView>(e@),
            },
    ;

    /// An entry's decompressed bytes.
    fn reader(&self, entry: &EntryMeta) -> (r: Result<Vec<u8>>)
        ensures
            match r {
                Ok(b) => Self::content(self.model(), entry@) == Ok::<Seq<u8>, ErrorView>(b@),
                Err(e) => Self::content(self.model(), entry@) == Err::<Seq<u8>, ErrorView>(e@),
            },
    ;

    /// Open an entry that is itself an archive, returning an archive independent of `self`.
    fn open_nested(&self, entry: &EntryMeta, opts: &OpenOptions) -> (r: Result<Self>)
        ensures
            match r {
                Ok(a) => Self::nested(self.model(), entry@, opts@) == Ok::<Self::Model, ErrorView>(
                    a.model(),
                ),
                Err(e) => Self::nested(self.model(), entry@, opts@) == Err::<
                    Self::Model,
                    ErrorView,
                >(e@),
            },
    ;

    /// Query the capabilities of this archive.
    fn capabilities(&self) -> (r: Capabilities)
        ensures
            r == Self::abilities(self.model()),
    ;
}

/// The position of the last entry with a path.
pub open spec fn last_index(es: Seq<EntryView>, path: Seq<char>) -> Option<int>
    decreases es.len(),
{
    if es.len() == 0 {
        None
    } else if es.last().path == path {
        Some(es.len() - 1)
    } else {
        last_index(es.drop_last(), path)
    }
}

/// `last_index` gives the greatest position with the path.
pub proof fn last_index_greatest(es: Seq<EntryView>, path: Seq<char>)
    ensures
        match last_index(es, path) {
            Some(i) => 0 <= i < es.len() && es[i].path == path && forall|j: int|
                i < j < es.len() ==> (#[trigger] es[j]).path != path,
            None => forall|j: int| 0 <= j < es.len() ==> (#[trigger] es[j]).path != path,
        },
    decreases es.len(),
{
    if es.len() > 0 && es.last().path != path {
        let front = es.drop_last();
        last_index_greatest(front, path);
        assert forall|j: int| 0 <= j < es.len() - 1 implies front[j] == #[trigger] es[j] by {}
    }
}

/// The position of the last entry with a path.
pub fn index_of(es: &Vec<EntryMeta>, path: &EntryPath) -> (r: Option<usize>)
    ensures
        match r {
            Some(i) => i < es@.len() && last_index(views(es@), path@) == Some(i as int),
            None => last_index(views(es@), path@) is None,
        },
{
    let mut n: usize = es.len();
    assert(views(es@).take(n as int) =~= views(es@));
    while n > 0
        invariant
            n <= es@.len(),
            last_index(views(es@).take(n as int), path@) == last_index(views(es@), path@),
        decreases n,
    {
        assert(views(es@).take(n as int).drop_last() =~= views(es@).take(n - 1));
        assert(views(es@).take(n as int).last() == es@[n - 1]@);
        if es[n - 1].path.same(path) {
            return Some(n - 1);
        }
        n -= 1;
    }
    None
}

/// The entry at a path, or the error that says in which kind of archive it was not found.
pub open spec fn find_entry(es: Seq<EntryView>, label: Seq<char>, path: Seq<char>) -> std::result::Result<
    EntryView,
    ErrorView,
> {
    match last_index(es, path) {
        Some(i) => Ok(es[i]),
        None => Err(ErrorView::CorruptArchive(no_such_entry(label, path))),
    }
}

/// What is said where there is no entry at a path.
pub open spec fn no_such_entry(label: Seq<char>, path: Seq<char>) -> Seq<char> {
    "no such entry in "@ + label + ": "@ + path
}

/// The error where there is no entry at a path.
pub(crate) fn missing_entry(label: &str, path: &EntryPath) -> (r: Error)
    ensures
        r@ == ErrorView::CorruptArchive(no_such_entry(label@, path@)),
{
    let mut m = concat2("no such entry in ", label);
    m.append(": ");
    m.append(path.as_str());
    Error::CorruptArchive(m)
}

} // verus!
