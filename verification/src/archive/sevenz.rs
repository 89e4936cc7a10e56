//! 7z archives, read through the `sevenz-rust2` crate.
//!
//! 7z stores files in blocks. Non-solid archives map each file to its own block; solid archives
//! share one block across many files, so reading a single entry decodes its whole block.
//!
//! Entry names in 7z are UTF-16, so no legacy-codepage decoding is needed.

use std::io::Cursor;

use sevenz_rust2::Archive as SevenzArchive;
use sevenz_rust2::Error as SevenzError;
use sevenz_rust2::{ArchiveReader, Password};

use vstd::prelude::*;
use vstd::string::*;
use vstd::utf8::*;

use crate::archive::tar::{head_of, head_slice};
use crate::archive::{
    index_of, is_nested_archive, last_index, looks_like_nested_archive, missing_entry,
    no_such_entry, Capabilities, OpenOptions, OptionsView, SNIFF_ENTRY_CAP,
    SOLID_SNIFF_ARCHIVE_CAP,
};
use crate::error::{Error, ErrorView, Result};
use crate::model::{normal_path, opt_text, views, EntryMeta, EntryPath, EntryView, NodeKind};
use crate::text::{concat2, lossy_utf8, same_bytes, utf8_lossy_text};
use crate::timestamp::{file_time, file_time_to_timestamp};

verus! {

/// A parsed 7z header.
#[verifier::external_type_specification]
#[verifier::external_body]
pub struct ExSevenzArchive(SevenzArchive);

/// The sevenz-rust2 crate's error.
#[verifier::external_type_specification]
#[verifier::external_body]
pub struct ExSevenzError(SevenzError);

/// One file of a 7z header.
pub struct SevenZipFile {
    /// The name.
    pub name: String,
    /// Whether the file is a directory.
    pub is_directory: bool,
    /// Uncompressed size.
    pub size: u64,
    /// Compressed size.
    pub compressed_size: u64,
    /// Modification time as a Windows file time, if stored.
    pub modified: Option<u64>,
    /// Checksum, if stored.
    pub crc: Option<u64>,
    /// The block that holds the content, if there is any.
    pub block: Option<usize>,
}

/// A [`SevenZipFile`] as a mathematical value.
pub struct SevenZipFileView {
    pub name: Seq<char>,
    pub is_directory: bool,
    pub size: u64,
    pub compressed_size: u64,
    pub modified: Option<u64>,
    pub crc: Option<u64>,
    pub block: Option<usize>,
}

impl View for SevenZipFile {
    type V = SevenZipFileView;

    open spec fn view(&self) -> SevenZipFileView {
        SevenZipFileView {
            name: self.name@,
            is_directory: self.is_directory,
            size: self.size,
            compressed_size: self.compressed_size,
            modified: self.modified,
            crc: self.crc,
            block: self.block,
        }
    }
}

/// The files as mathematical values.
pub open spec fn file_views(fs: Seq<SevenZipFile>) -> Seq<SevenZipFileView> {
    fs.map_values(|f: SevenZipFile| f@)
}

/// The method ids of a block's coders as mathematical values.
pub open spec fn coder_ids(coders: Vec<Vec<u8>>) -> Seq<Seq<u8>> {
    coders@.map_values(|id: Vec<u8>| id@)
}

/// The method ids of every block's coders as mathematical values.
pub open spec fn block_views(blocks: Seq<Vec<Vec<u8>>>) -> Seq<Seq<Seq<u8>>> {
    blocks.map_values(|coders: Vec<Vec<u8>>| coder_ids(coders))
}

/// What went wrong in the sevenz-rust2 crate.
pub enum SevenZipFault {
    BadSignature,
    UnsupportedVersion,
    Io(String),
    Other(String),
    ExternalUnsupported,
    UnsupportedCompressionMethod(String),
    MaxMemLimited,
    PasswordRequired,
    MaybeBadPassword,
    Unsupported(String),
    /// A checksum, a terminator or a file that is not as it should be, with the error's text.
    Damaged(String),
}

/// A [`SevenZipFault`] with its texts as character sequences.
pub enum SevenZipFaultView {
    BadSignature,
    UnsupportedVersion,
    Io(Seq<char>),
    Other(Seq<char>),
    ExternalUnsupported,
    UnsupportedCompressionMethod(Seq<char>),
    MaxMemLimited,
    PasswordRequired,
    MaybeBadPassword,
    Unsupported(Seq<char>),
    Damaged(Seq<char>),
}

impl View for SevenZipFault {
    type V = SevenZipFaultView;

    open spec fn view(&self) -> SevenZipFaultView {
        match self {
            SevenZipFault::BadSignature => SevenZipFaultView::BadSignature,
            SevenZipFault::UnsupportedVersion => SevenZipFaultView::UnsupportedVersion,
            SevenZipFault::Io(m) => SevenZipFaultView::Io(m@),
            SevenZipFault::Other(m) => SevenZipFaultView::Other(m@),
            SevenZipFault::ExternalUnsupported => SevenZipFaultView::ExternalUnsupported,
            SevenZipFault::UnsupportedCompressionMethod(
                m,
            ) => SevenZipFaultView::UnsupportedCompressionMethod(m@),
            SevenZipFault::MaxMemLimited => SevenZipFaultView::MaxMemLimited,
            SevenZipFault::PasswordRequired => SevenZipFaultView::PasswordRequired,
            SevenZipFault::MaybeBadPassword => SevenZipFaultView::MaybeBadPassword,
            SevenZipFault::Unsupported(m) => SevenZipFaultView::Unsupported(m@),
            SevenZipFault::Damaged(m) => SevenZipFaultView::Damaged(m@),
        }
    }
}

/// The bytes that a parsed header was read from.
pub uninterp spec fn sevenz_bytes(archive: SevenzArchive) -> Seq<u8>;

/// The password that a parsed header was read with.
pub uninterp spec fn sevenz_password(archive: SevenzArchive) -> Option<Seq<char>>;

/// Why bytes are no readable 7z archive under a password, if they are none.
pub uninterp spec fn sevenz_refusal(bytes: Seq<u8>, password: Option<Seq<char>>) -> Option<
    SevenzError,
>;

/// The files of the header, in order.
pub uninterp spec fn sevenz_files(bytes: Seq<u8>, password: Option<Seq<char>>) -> Seq<
    SevenZipFileView,
>;

/// The method ids of the coders of each block.
pub uninterp spec fn sevenz_blocks(bytes: Seq<u8>, password: Option<Seq<char>>) -> Seq<
    Seq<Seq<u8>>,
>;

/// Whether the archive is solid.
pub uninterp spec fn sevenz_solid(bytes: Seq<u8>, password: Option<Seq<char>>) -> bool;

/// The content of the file with a name.
pub uninterp spec fn sevenz_content(
    bytes: Seq<u8>,
    password: Option<Seq<char>>,
    name: Seq<char>,
) -> std::result::Result<Seq<u8>, SevenzError>;

/// What an error of the sevenz-rust2 crate says.
pub uninterp spec fn sevenz_fault(e: SevenzError) -> SevenZipFaultView;

/// Parse a 7z header.
///
/// Trusted: names the outcome of `sevenz_rust2::Archive::read` on the bytes, with the password
/// given to `sevenz_rust2::Password::new`, or without one.
#[verifier::external_body]
fn parse_header(bytes: &[u8], password: &Option<String>) -> (r: std::result::Result<
    SevenzArchive,
    SevenzError,
>)
    ensures
        match r {
            Ok(a) => sevenz_refusal(bytes@, opt_text(*password)) is None && sevenz_bytes(a)
                == bytes@ && sevenz_password(a) == opt_text(*password),
            Err(e) => sevenz_refusal(bytes@, opt_text(*password)) == Some(e),
        },
{
    let password = password.as_deref().map_or_else(Password::empty, Password::new);
    SevenzArchive::read(&mut Cursor::new(bytes), &password)
}

/// The files of a parsed header.
///
/// Trusted: names the field `files` of `sevenz_rust2::Archive`, each file with its block from
/// `stream_map`.
#[verifier::external_body]
fn header_files(archive: &SevenzArchive) -> (r: Vec<SevenZipFile>)
    ensures
        file_views(r@) == sevenz_files(sevenz_bytes(*archive), sevenz_password(*archive)),
{
    let block_of = &archive.stream_map.file_block_index;
    let files = archive.files.iter().enumerate().map(|(i, f)| SevenZipFile {
        name: f.name.clone(),
        is_directory: f.is_directory,
        size: f.size,
        compressed_size: f.compressed_size,
        modified: f.has_last_modified_date.then_some(f.last_modified_date.into()),
        crc: f.has_crc.then_some(f.crc),
        block: block_of.get(i).copied().flatten(),
    });
    files.collect()
}

/// The method ids of the coders of each block.
///
/// Trusted: names the field `blocks` of `sevenz_rust2::Archive`, each coder by its
/// `encoder_method_id`.
#[verifier::external_body]
fn header_blocks(archive: &SevenzArchive) -> (r: Vec<Vec<Vec<u8>>>)
    ensures
        block_views(r@) == sevenz_blocks(sevenz_bytes(*archive), sevenz_password(*archive)),
{
    let blocks = archive.blocks.iter();
    blocks.map(|b| b.coders.iter().map(|c| c.encoder_method_id().to_vec()).collect()).collect()
}

/// Whether the archive is solid.
///
/// Trusted: names the field `is_solid` of `sevenz_rust2::Archive`.
#[verifier::external_body]
fn header_is_solid(archive: &SevenzArchive) -> (r: bool)
    ensures
        r == sevenz_solid(sevenz_bytes(*archive), sevenz_password(*archive)),
{
    archive.is_solid
}

/// The content of the file with a name.
///
/// Trusted: names the outcome of `sevenz_rust2::ArchiveReader::read_file` for the name, on a reader
/// made of the header, the bytes and the password. The reader is set to one thread: otherwise it
/// takes as many as the machine offers, and what damaged data gives depends on their number.
#[verifier::external_body]
fn read_named(archive: &SevenzArchive, bytes: &[u8], password: &Option<String>, name: &str) -> (r:
    std::result::Result<Vec<u8>, SevenzError>)
    requires
        bytes@ == sevenz_bytes(*archive),
        opt_text(*password) == sevenz_password(*archive),
    ensures
        match r {
            Ok(b) => sevenz_content(bytes@, opt_text(*password), name@) == Ok::<
                Seq<u8>,
                SevenzError,
            >(b@),
            Err(e) => sevenz_content(bytes@, opt_text(*password), name@) == Err::<
                Seq<u8>,
                SevenzError,
            >(e),
        },
{
    let password = password.as_deref().map_or_else(Password::empty, Password::new);
    let mut reader = ArchiveReader::from_archive(archive.clone(), Cursor::new(bytes), password);
    reader.set_thread_count(1);
    reader.read_file(name)
}

/// What an error of the sevenz-rust2 crate says.
///
/// Trusted: names the variant of `sevenz_rust2::Error` and the text it carries.
#[verifier::external_body]
fn fault_of(e: SevenzError) -> (r: SevenZipFault)
    ensures
        r@ == sevenz_fault(e),
{
    match e {
        SevenzError::BadSignature(_) => SevenZipFault::BadSignature,
        SevenzError::UnsupportedVersion { .. } => SevenZipFault::UnsupportedVersion,
        SevenzError::Io(e, _) => SevenZipFault::Io(e.to_string()),
        SevenzError::FileOpen(e, _) => SevenZipFault::Io(e.to_string()),
        SevenzError::Other(m) => SevenZipFault::Other(m.into_owned()),
        SevenzError::ExternalUnsupported => SevenZipFault::ExternalUnsupported,
        SevenzError::UnsupportedCompressionMethod(m) => SevenZipFault::UnsupportedCompressionMethod(m),
        SevenzError::MaxMemLimited { .. } => SevenZipFault::MaxMemLimited,
        SevenzError::PasswordRequired => SevenZipFault::PasswordRequired,
        SevenzError::MaybeBadPassword(_) => SevenZipFault::MaybeBadPassword,
        SevenzError::Unsupported(m) => SevenZipFault::Unsupported(m.into_owned()),
        e => SevenZipFault::Damaged(e.to_string()),
    }
}

/// The library's error for a fault of the sevenz-rust2 crate.
pub open spec fn sevenz_error(f: SevenZipFaultView) -> ErrorView {
    match f {
        SevenZipFaultView::BadSignature => ErrorView::UnsupportedFormat("bad 7z signature"@),
        SevenZipFaultView::UnsupportedVersion => ErrorView::UnsupportedFeature(
            "unsupported 7z format version"@,
        ),
        SevenZipFaultView::Io(m) => ErrorView::Io(m),
        SevenZipFaultView::Other(m) => ErrorView::CorruptArchive(m),
        SevenZipFaultView::ExternalUnsupported => ErrorView::UnsupportedFeature(
            "external 7z coder"@,
        ),
        SevenZipFaultView::UnsupportedCompressionMethod(m) => ErrorView::UnsupportedFeature(
            "7z compression method: "@ + m,
        ),
        SevenZipFaultView::MaxMemLimited => ErrorView::UnsupportedFeature("7z memory limit"@),
        SevenZipFaultView::PasswordRequired => ErrorView::PasswordRequired,
        SevenZipFaultView::MaybeBadPassword => ErrorView::WrongPassword,
        SevenZipFaultView::Unsupported(m) => ErrorView::UnsupportedFeature(m),
        SevenZipFaultView::Damaged(m) => ErrorView::CorruptArchive("7z: "@ + m),
    }
}

/// Map a fault of the sevenz-rust2 crate onto the library's errors.
pub fn map_sevenz_error(f: SevenZipFault) -> (r: Error)
    ensures
        r@ == sevenz_error(f@),
{
    match f {
        SevenZipFault::BadSignature => Error::no_format("bad 7z signature"),
        SevenZipFault::UnsupportedVersion => Error::no_feature("unsupported 7z format version"),
        SevenZipFault::Io(m) => Error::Io(m),
        SevenZipFault::Other(m) => Error::CorruptArchive(m),
        SevenZipFault::ExternalUnsupported => Error::no_feature("external 7z coder"),
        SevenZipFault::UnsupportedCompressionMethod(m) => Error::UnsupportedFeature(
            concat2("7z compression method: ", m.as_str()),
        ),
        SevenZipFault::MaxMemLimited => Error::no_feature("7z memory limit"),
        SevenZipFault::PasswordRequired => Error::PasswordRequired,
        SevenZipFault::MaybeBadPassword => Error::WrongPassword,
        SevenZipFault::Unsupported(m) => Error::UnsupportedFeature(m),
        SevenZipFault::Damaged(m) => Error::CorruptArchive(concat2("7z: ", m.as_str())),
    }
}

/// The id of the coder that encrypts with AES-256.
pub open spec fn aes_method() -> Seq<u8> {
    seq![0x06u8, 0xf1, 0x07, 0x01]
}

/// Whether one of the coders encrypts.
pub open spec fn encrypts(coders: Seq<Seq<u8>>) -> bool {
    exists|i: int| 0 <= i < coders.len() && #[trigger] coders[i] == aes_method()
}

/// Whether a file is encrypted: its block has a coder that encrypts. Files without a block
/// (directories, empty files) never are.
pub open spec fn file_encrypted(f: SevenZipFileView, blocks: Seq<Seq<Seq<u8>>>) -> bool {
    match f.block {
        Some(b) => b < blocks.len() && encrypts(blocks[b as int]),
        None => false,
    }
}

/// Whether some block is encrypted.
pub open spec fn any_block_encrypts(blocks: Seq<Seq<Seq<u8>>>) -> bool {
    exists|b: int| 0 <= b < blocks.len() && encrypts(#[trigger] blocks[b])
}

/// An open 7z archive as a mathematical value.
pub struct SevenZipModel {
    pub bytes: Seq<u8>,
    pub password: Option<Seq<char>>,
    pub solid: bool,
    pub encrypted: bool,
    pub entries: Seq<EntryView>,
    /// The name of each entry as stored.
    pub names: Seq<Seq<char>>,
}

/// The entry for a file, before its content has been looked at.
pub open spec fn sevenz_plain_entry(
    f: SevenZipFileView,
    blocks: Seq<Seq<Seq<u8>>>,
    path: Seq<char>,
) -> EntryView {
    EntryView {
        path,
        raw_name: encode_utf8(f.name),
        kind: if f.is_directory {
            NodeKind::Dir
        } else {
            NodeKind::File
        },
        uncompressed_size: if f.is_directory {
            None
        } else {
            Some(f.size)
        },
        compressed_size: if f.is_directory {
            None
        } else {
            Some(f.compressed_size)
        },
        mtime: match f.modified {
            Some(ticks) => Some(file_time(ticks)),
            None => None,
        },
        mode: None,
        crc: match f.crc {
            Some(crc) => Some(crc as u32),
            None => None,
        },
        encrypted: file_encrypted(f, blocks),
        comment: None,
    }
}

/// Whether the content of an entry is looked at when the archive is opened: only plain entries of
/// moderate size, and those of a solid archive only if the archive is small.
pub open spec fn sevenz_sniffed(e: EntryView, solid: bool, archive_size: int) -> bool {
    &&& !solid || archive_size <= SOLID_SNIFF_ARCHIVE_CAP
    &&& e.kind == NodeKind::File
    &&& !e.encrypted
    &&& e.uncompressed_size is Some ==> e.uncompressed_size->0 <= SNIFF_ENTRY_CAP
}

/// The entry for a file, marked as an archive where its content begins as one does. Content that
/// cannot be read leaves the entry a file.
pub open spec fn sevenz_entry(
    bytes: Seq<u8>,
    password: Option<Seq<char>>,
    f: SevenZipFileView,
    path: Seq<char>,
) -> EntryView {
    let e = sevenz_plain_entry(f, sevenz_blocks(bytes, password), path);
    if sevenz_sniffed(e, sevenz_solid(bytes, password), bytes.len() as int) {
        match sevenz_content(bytes, password, f.name) {
            Ok(content) => if is_nested_archive(head_of(content)) {
                EntryView { kind: NodeKind::Archive, ..e }
            } else {
                e
            },
            Err(_) => e,
        }
    } else {
        e
    }
}

/// The archive with the given files. Files whose path is refused are left out.
pub open spec fn sevenz_listing(
    bytes: Seq<u8>,
    password: Option<Seq<char>>,
    fs: Seq<SevenZipFileView>,
) -> SevenZipModel
    decreases fs.len(),
{
    if fs.len() == 0 {
        SevenZipModel {
            bytes,
            password,
            solid: sevenz_solid(bytes, password),
            encrypted: any_block_encrypts(sevenz_blocks(bytes, password)),
            entries: Seq::empty(),
            names: Seq::empty(),
        }
    } else {
        let front = sevenz_listing(bytes, password, fs.drop_last());
        let f = fs.last();
        match normal_path(f.name) {
            Ok(path) => SevenZipModel {
                entries: front.entries.push(sevenz_entry(bytes, password, f, path)),
                names: front.names.push(f.name),
                ..front
            },
            Err(_) => front,
        }
    }
}

/// The password as text: 7z wants UTF-16, made from text.
pub open spec fn sevenz_password_text(o: OptionsView) -> Option<Seq<char>> {
    match o.password {
        Some(secret) => Some(lossy_utf8(secret)),
        None => None,
    }
}

/// The archive that the bytes are, or why they cannot be opened.
pub open spec fn sevenz_model(bytes: Seq<u8>, o: OptionsView) -> std::result::Result<
    SevenZipModel,
    ErrorView,
> {
    let password = sevenz_password_text(o);
    match sevenz_refusal(bytes, password) {
        Some(e) => Err(sevenz_error(sevenz_fault(e))),
        None => Ok(sevenz_listing(bytes, password, sevenz_files(bytes, password))),
    }
}

/// The bytes of an entry; a directory has none.
pub open spec fn sevenz_read(m: SevenZipModel, e: EntryView) -> std::result::Result<
    Seq<u8>,
    ErrorView,
> {
    if e.kind == NodeKind::Dir {
        Ok(Seq::empty())
    } else {
        match last_index(m.entries, e.path) {
            None => Err(ErrorView::CorruptArchive(no_such_entry("7z"@, e.path))),
            Some(i) => match sevenz_content(m.bytes, m.password, m.names[i]) {
                Ok(b) => Ok(b),
                Err(fault) => Err(sevenz_error(sevenz_fault(fault))),
            },
        }
    }
}

/// What can be done with a 7z archive: a solid one has no random access, and an encrypted one
/// needs a password where none was given.
pub open spec fn sevenz_abilities(m: SevenZipModel) -> Capabilities {
    Capabilities {
        random_access: !m.solid,
        encrypted: m.encrypted,
        needs_password: m.encrypted && m.password is None,
        can_write: false,
    }
}

/// The names as mathematical values.
pub open spec fn texts(names: Seq<String>) -> Seq<Seq<char>> {
    names.map_values(|s: String| s@)
}

/// An open 7z archive.
pub struct SevenZipArchive {
    bytes: Vec<u8>,
    password: Option<String>,
    header: SevenzArchive,
    entries: Vec<EntryMeta>,
    names: Vec<String>,
    solid: bool,
    encrypted: bool,
}

impl View for SevenZipArchive {
    type V = SevenZipModel;

    closed spec fn view(&self) -> SevenZipModel {
        SevenZipModel {
            bytes: self.bytes@,
            password: opt_text(self.password),
            solid: self.solid,
            encrypted: self.encrypted,
            entries: views(self.entries@),
            names: texts(self.names@),
        }
    }
}

/// Whether one of the coders encrypts.
fn has_aes(coders: &Vec<Vec<u8>>) -> (r: bool)
    ensures
        r == encrypts(coder_ids(*coders)),
{
    let ghost ids = coder_ids(*coders);
    let mut i: usize = 0;
    while i < coders.len()
        invariant
            i <= coders@.len(),
            ids == coder_ids(*coders),
            forall|j: int| 0 <= j < i ==> #[trigger] ids[j] != aes_method(),
        decreases coders@.len() - i,
    {
        let aes: [u8; 4] = [0x06, 0xf1, 0x07, 0x01];
        assert(aes@ =~= aes_method());
        assert(ids[i as int] == coders@[i as int]@);
        if same_bytes(coders[i].as_slice(), &aes) {
            return true;
        }
        i += 1;
    }
    false
}

/// Whether some block is encrypted.
fn has_aes_block(blocks: &Vec<Vec<Vec<u8>>>) -> (r: bool)
    ensures
        r == any_block_encrypts(block_views(blocks@)),
{
    let ghost bs = block_views(blocks@);
    let mut i: usize = 0;
    while i < blocks.len()
        invariant
            i <= blocks@.len(),
            bs == block_views(blocks@),
            forall|j: int| 0 <= j < i ==> !encrypts(#[trigger] bs[j]),
        decreases blocks@.len() - i,
    {
        assert(bs[i as int] == coder_ids(blocks@[i as int]));
        if has_aes(&blocks[i]) {
            return true;
        }
        i += 1;
    }
    false
}

/// The entry for a file, before its content has been looked at.
fn plain_entry(f: &SevenZipFile, blocks: &Vec<Vec<Vec<u8>>>, path: EntryPath) -> (e: EntryMeta)
    ensures
        e@ == sevenz_plain_entry(f@, block_views(blocks@), path@),
{
    let encrypted = match f.block {
        Some(b) => {
            if b < blocks.len() {
                assert(block_views(blocks@)[b as int] == coder_ids(blocks@[b as int]));
                has_aes(&blocks[b])
            } else {
                false
            }
        },
        None => false,
    };
    EntryMeta {
        path,
        raw_name: f.name.as_str().as_bytes_vec(),
        kind: if f.is_directory {
            NodeKind::Dir
        } else {
            NodeKind::File
        },
        uncompressed_size: if f.is_directory {
            None
        } else {
            Some(f.size)
        },
        compressed_size: if f.is_directory {
            None
        } else {
            Some(f.compressed_size)
        },
        mtime: match f.modified {
            Some(ticks) => Some(file_time_to_timestamp(ticks)),
            None => None,
        },
        mode: None,
        crc: match f.crc {
            Some(crc) => Some(
                #[verifier::truncate]
                (crc as u32),
            ),
            None => None,
        },
        encrypted,
        comment: None,
    }
}

impl SevenZipArchive {
    /// The header belongs to the bytes and the password, and there are as many names as entries.
    #[verifier::type_invariant]
    closed spec fn inv(self) -> bool {
        &&& self.bytes@ == sevenz_bytes(self.header)
        &&& opt_text(self.password) == sevenz_password(self.header)
        &&& self.entries@.len() == self.names@.len()
    }

    /// Parse the header, list the files and mark those that hold an archive.
    pub fn open(bytes: Vec<u8>, opts: &OpenOptions) -> (r: Result<Self>)
        ensures
            match r {
                Ok(a) => sevenz_model(bytes@, opts@) == Ok::<SevenZipModel, ErrorView>(a@),
                Err(e) => sevenz_model(bytes@, opts@) == Err::<SevenZipModel, ErrorView>(e@),
            },
    {
        let password = match &opts.password {
            Some(secret) => Some(utf8_lossy_text(secret.as_bytes())),
            None => None,
        };
        let ghost key = opt_text(password);
        let header = match parse_header(bytes.as_slice(), &password) {
            Ok(header) => header,
            Err(e) => return Err(map_sevenz_error(fault_of(e))),
        };
        let files = header_files(&header);
        let blocks = header_blocks(&header);
        let solid = header_is_solid(&header);
        let encrypted = has_aes_block(&blocks);
        // Decoding one entry of a solid archive decodes its whole block, so the effort is capped.
        let small = !solid || bytes.len() as u64 <= SOLID_SNIFF_ARCHIVE_CAP;
        let ghost fs = file_views(files@);
        let mut entries: Vec<EntryMeta> = Vec::new();
        let mut names: Vec<String> = Vec::new();
        let mut i: usize = 0;
        assert(views(entries@) =~= Seq::<EntryView>::empty());
        assert(texts(names@) =~= Seq::<Seq<char>>::empty());
        while i < files.len()
            invariant
                i <= files@.len(),
                fs == file_views(files@),
                key == opt_text(password),
                bytes@ == sevenz_bytes(header),
                key == sevenz_password(header),
                block_views(blocks@) == sevenz_blocks(bytes@, key),
                solid == sevenz_solid(bytes@, key),
                encrypted == any_block_encrypts(sevenz_blocks(bytes@, key)),
                small == (!solid || bytes@.len() <= SOLID_SNIFF_ARCHIVE_CAP),
                entries@.len() == names@.len(),
                sevenz_listing(bytes@, key, fs.take(i as int)) == (SevenZipModel {
                    bytes: bytes@,
                    password: key,
                    solid,
                    encrypted,
                    entries: views(entries@),
                    names: texts(names@),
                }),
            decreases files@.len() - i,
        {
            let file = &files[i];
            assert(fs.take(i + 1).drop_last() =~= fs.take(i as int));
            assert(fs.take(i + 1).last() == file@);
            match EntryPath::new(file.name.as_str()) {
                Ok(path) => {
                    let mut entry = plain_entry(file, &blocks, path);
                    let fits = match entry.uncompressed_size {
                        Some(size) => size <= SNIFF_ENTRY_CAP,
                        None => true,
                    };
                    if small && entry.kind == NodeKind::File && !entry.encrypted && fits {
                        match read_named(&header, bytes.as_slice(), &password, file.name.as_str()) {
                            Ok(content) => {
                                if looks_like_nested_archive(head_slice(content.as_slice())) {
                                    entry.kind = NodeKind::Archive;
                                }
                            },
                            Err(_) => {},
                        }
                    }
                    let ghost (es, ns) = (entries@, names@);
                    assert(entry@ == sevenz_entry(bytes@, key, file@, entry@.path));
                    entries.push(entry);
                    names.push(file.name.clone());
                    assert(views(entries@) =~= views(es).push(entry@));
                    assert(texts(names@) =~= texts(ns).push(file@.name));
                },
                // A path that cannot be extracted safely is not listed.
                Err(_) => {},
            }
            i += 1;
        }
        assert(fs.take(i as int) =~= fs);
        Ok(SevenZipArchive { bytes, password, header, entries, names, solid, encrypted })
    }

    /// The listing.
    pub fn entries(&self) -> (r: &Vec<EntryMeta>)
        ensures
            views(r@) == self@.entries,
    {
        &self.entries
    }

    /// Read a file entry fully into memory.
    pub fn read_entry_bytes(&self, meta: &EntryMeta) -> (r: Result<Vec<u8>>)
        ensures
            match r {
                Ok(b) => sevenz_read(self@, meta@) == Ok::<Seq<u8>, ErrorView>(b@),
                Err(e) => sevenz_read(self@, meta@) == Err::<Seq<u8>, ErrorView>(e@),
            },
    {
        proof {
            use_type_invariant(self);
        }
        if meta.kind == NodeKind::Dir {
            return Ok(Vec::new());
        }
        let i = match index_of(&self.entries, &meta.path) {
            Some(i) => i,
            None => return Err(missing_entry("7z", &meta.path)),
        };
        match read_named(
            &self.header,
            self.bytes.as_slice(),
            &self.password,
            self.names[i].as_str(),
        ) {
            Ok(b) => Ok(b),
            Err(e) => Err(map_sevenz_error(fault_of(e))),
        }
    }

    /// Query the capabilities of this archive.
    pub fn capabilities(&self) -> (r: Capabilities)
        ensures
            r == sevenz_abilities(self@),
    {
        Capabilities {
            random_access: !self.solid,
            encrypted: self.encrypted,
            needs_password: self.encrypted && self.password.is_none(),
            can_write: false,
        }
    }
}

} // verus!
