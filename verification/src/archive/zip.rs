//! ZIP archives, read through the `zip` crate.

use std::io::{Cursor, Read};
use std::sync::Arc;

use vstd::prelude::*;
use vstd::string::*;
use vstd::utf8::*;

use crate::archive::{
    index_of, is_nested_archive, last_index, looks_like_nested_archive, missing_entry,
    no_such_entry, Capabilities, OpenOptions, OptionsView, SNIFF_BYTES,
};
use crate::encoding::{
    decode_name, detect_codepage, detected_codepage, listed_name, Codepage, FilenameEncoding,
};
use crate::error::{Error, ErrorView, Result};
use crate::model::{normal_path, views, EntryMeta, EntryPath, EntryView, NodeKind, Timestamp};
use crate::text::{concat2, utf8_text};
use crate::timestamp::{civil_timestamp, dos_civil, dos_words_to_timestamp};

verus! {

/// The zip crate's archive: a parsed central directory over a reader.
#[verifier::external_type_specification]
#[verifier::external_body]
#[verifier::reject_recursive_types(R)]
pub struct ExZipArchive<R>(zip::ZipArchive<R>);

/// The zip crate's error.
#[verifier::external_type_specification]
#[verifier::external_body]
pub struct ExZipError(zip::result::ZipError);

/// A cursor over bytes in memory.
#[verifier::external_type_specification]
#[verifier::external_body]
#[verifier::reject_recursive_types(T)]
pub struct ExCursor<T>(Cursor<T>);

/// A parsed zip archive over shared bytes.
pub type ZipHandle = zip::ZipArchive<Cursor<Arc<[u8]>>>;

/// What went wrong in the zip crate.
pub enum ZipFault {
    /// An I/O error.
    Io(String),
    /// The archive is malformed.
    InvalidArchive(String),
    /// The archive uses a feature that the crate does not support.
    UnsupportedArchive(String),
    /// There is no such file in the archive.
    FileNotFound,
    /// The password is wrong.
    InvalidPassword,
    /// Anything else.
    Other,
}

/// A [`ZipFault`] with its texts as character sequences.
pub enum ZipFaultView {
    Io(Seq<char>),
    InvalidArchive(Seq<char>),
    UnsupportedArchive(Seq<char>),
    FileNotFound,
    InvalidPassword,
    Other,
}

impl View for ZipFault {
    type V = ZipFaultView;

    open spec fn view(&self) -> ZipFaultView {
        match self {
            ZipFault::Io(m) => ZipFaultView::Io(m@),
            ZipFault::InvalidArchive(m) => ZipFaultView::InvalidArchive(m@),
            ZipFault::UnsupportedArchive(m) => ZipFaultView::UnsupportedArchive(m@),
            ZipFault::FileNotFound => ZipFaultView::FileNotFound,
            ZipFault::InvalidPassword => ZipFaultView::InvalidPassword,
            ZipFault::Other => ZipFaultView::Other,
        }
    }
}

/// One record of a central directory.
pub struct ZipRecord {
    /// The name as stored.
    pub name: Vec<u8>,
    /// Whether the record is a directory.
    pub is_dir: bool,
    /// Whether the record is a symbolic link.
    pub is_symlink: bool,
    /// Uncompressed size.
    pub size: u64,
    /// Compressed size.
    pub compressed_size: u64,
    /// The MS-DOS date and time words.
    pub modified: Option<(u16, u16)>,
    /// Unix mode.
    pub mode: Option<u32>,
    /// CRC-32 of the content.
    pub crc: u32,
    /// Whether the content is encrypted.
    pub encrypted: bool,
}

/// A [`ZipRecord`] as a mathematical value.
pub struct ZipRecordView {
    pub name: Seq<u8>,
    pub is_dir: bool,
    pub is_symlink: bool,
    pub size: u64,
    pub compressed_size: u64,
    pub modified: Option<(u16, u16)>,
    pub mode: Option<u32>,
    pub crc: u32,
    pub encrypted: bool,
}

impl View for ZipRecord {
    type V = ZipRecordView;

    open spec fn view(&self) -> ZipRecordView {
        ZipRecordView {
            name: self.name@,
            is_dir: self.is_dir,
            is_symlink: self.is_symlink,
            size: self.size,
            compressed_size: self.compressed_size,
            modified: self.modified,
            mode: self.mode,
            crc: self.crc,
            encrypted: self.encrypted,
        }
    }
}

/// The bytes that a parsed archive reads from.
pub uninterp spec fn zip_bytes(archive: ZipHandle) -> Seq<u8>;

/// Why bytes are no zip archive, if they are none.
pub uninterp spec fn zip_refusal(bytes: Seq<u8>) -> Option<zip::result::ZipError>;

/// The number of records in the central directory.
pub uninterp spec fn zip_count(bytes: Seq<u8>) -> nat;

/// A record of the central directory.
pub uninterp spec fn zip_record(bytes: Seq<u8>, i: int) -> std::result::Result<
    ZipRecordView,
    zip::result::ZipError,
>;

/// What the first read of a file's decompressed content gives into a buffer of the given size.
pub uninterp spec fn zip_head(bytes: Seq<u8>, i: int, room: int) -> std::result::Result<
    Seq<u8>,
    zip::result::ZipError,
>;

/// The decompressed content of a file.
pub uninterp spec fn zip_content(bytes: Seq<u8>, i: int) -> std::result::Result<
    Seq<u8>,
    zip::result::ZipError,
>;

/// What an error of the zip crate says.
pub uninterp spec fn zip_fault(e: zip::result::ZipError) -> ZipFaultView;

/// Parse a zip archive.
///
/// Trusted: names the outcome of `zip::ZipArchive::new` on the bytes; the archive reads from those
/// bytes ever after.
#[verifier::external_body]
fn parse_zip(bytes: &[u8]) -> (r: std::result::Result<ZipHandle, zip::result::ZipError>)
    ensures
        match r {
            Ok(a) => zip_refusal(bytes@) is None && zip_bytes(a) == bytes@,
            Err(e) => zip_refusal(bytes@) == Some(e),
        },
{
    zip::ZipArchive::new(Cursor::new(Arc::from(bytes)))
}

/// The number of records.
///
/// Trusted: names the result of `zip::ZipArchive::len`.
#[verifier::external_body]
fn count_records(archive: &ZipHandle) -> (r: usize)
    ensures
        r == zip_count(zip_bytes(*archive)),
{
    archive.len()
}

/// A record, without looking at its content.
///
/// Trusted: names what `zip::ZipArchive::by_index_raw` gives; the accessors of the file only read
/// the record.
#[verifier::external_body]
fn read_record(archive: &ZipHandle, i: usize) -> (r: std::result::Result<
    ZipRecord,
    zip::result::ZipError,
>)
    ensures
        match r {
            Ok(x) => zip_record(zip_bytes(*archive), i as int) == Ok::<
                ZipRecordView,
                zip::result::ZipError,
            >(x@),
            Err(e) => zip_record(zip_bytes(*archive), i as int) == Err::<
                ZipRecordView,
                zip::result::ZipError,
            >(e),
        },
{
    archive.clone().by_index_raw(i).map(|file| ZipRecord {
        name: file.name_raw().to_vec(),
        is_dir: file.is_dir(),
        is_symlink: file.is_symlink(),
        size: file.size(),
        compressed_size: file.compressed_size(),
        modified: file.last_modified().map(|at| (at.datepart(), at.timepart())),
        mode: file.unix_mode(),
        crc: file.crc32(),
        encrypted: file.encrypted(),
    })
}

/// The leading bytes of a file's content, as far as one read gives them.
///
/// Trusted: names what the first `read` from the file that `zip::ZipArchive::by_index` opens
/// delivers.
#[verifier::external_body]
fn read_head(archive: &ZipHandle, i: usize, room: usize) -> (r: std::result::Result<
    Vec<u8>,
    zip::result::ZipError,
>)
    ensures
        match r {
            Ok(b) => zip_head(zip_bytes(*archive), i as int, room as int) == Ok::<
                Seq<u8>,
                zip::result::ZipError,
            >(b@),
            Err(e) => zip_head(zip_bytes(*archive), i as int, room as int) == Err::<
                Seq<u8>,
                zip::result::ZipError,
            >(e),
        },
{
    let mut archive = archive.clone();
    let mut head = vec![0u8; room];
    let n = archive.by_index(i)?.read(&mut head)?;
    head.truncate(n);
    Ok(head)
}

/// A file's whole content.
///
/// Trusted: names what `read_to_end` on the file that `zip::ZipArchive::by_index` opens delivers.
#[verifier::external_body]
fn read_content(archive: &ZipHandle, i: usize) -> (r: std::result::Result<
    Vec<u8>,
    zip::result::ZipError,
>)
    ensures
        match r {
            Ok(b) => zip_content(zip_bytes(*archive), i as int) == Ok::<
                Seq<u8>,
                zip::result::ZipError,
            >(b@),
            Err(e) => zip_content(zip_bytes(*archive), i as int) == Err::<
                Seq<u8>,
                zip::result::ZipError,
            >(e),
        },
{
    let mut archive = archive.clone();
    let mut content = Vec::new();
    archive.by_index(i)?.read_to_end(&mut content)?;
    Ok(content)
}

/// What an error of the zip crate says.
///
/// Trusted: names the variant of `zip::result::ZipError` and the text it carries.
#[verifier::external_body]
fn fault_of(e: zip::result::ZipError) -> (r: ZipFault)
    ensures
        r@ == zip_fault(e),
{
    match e {
        zip::result::ZipError::Io(io) => ZipFault::Io(io.to_string()),
        zip::result::ZipError::InvalidArchive(m) => ZipFault::InvalidArchive(m.into_owned()),
        zip::result::ZipError::UnsupportedArchive(m) => ZipFault::UnsupportedArchive(m.to_owned()),
        zip::result::ZipError::FileNotFound => ZipFault::FileNotFound,
        zip::result::ZipError::InvalidPassword => ZipFault::InvalidPassword,
        _ => ZipFault::Other,
    }
}

/// The library's error for a fault of the zip crate.
pub open spec fn zip_error(f: ZipFaultView) -> ErrorView {
    match f {
        ZipFaultView::Io(m) => ErrorView::Io(m),
        ZipFaultView::InvalidArchive(m) => ErrorView::CorruptArchive(m),
        ZipFaultView::UnsupportedArchive(m) => ErrorView::UnsupportedFeature(m),
        ZipFaultView::FileNotFound => ErrorView::CorruptArchive("entry not found in zip archive"@),
        ZipFaultView::InvalidPassword => ErrorView::WrongPassword,
        ZipFaultView::Other => ErrorView::CorruptArchive("unknown zip error"@),
    }
}

/// Map a fault of the zip crate onto the library's errors. Unknown faults count as corrupt input.
pub fn map_zip_err(f: ZipFault) -> (r: Error)
    ensures
        r@ == zip_error(f@),
{
    match f {
        ZipFault::Io(m) => Error::Io(m),
        ZipFault::InvalidArchive(m) => Error::CorruptArchive(m),
        ZipFault::UnsupportedArchive(m) => Error::UnsupportedFeature(m),
        ZipFault::FileNotFound => Error::corrupt("entry not found in zip archive"),
        ZipFault::InvalidPassword => Error::WrongPassword,
        ZipFault::Other => Error::corrupt("unknown zip error"),
    }
}

/// The records of the central directory up to `n`, or the error of the first that cannot be read.
pub open spec fn zip_records(bytes: Seq<u8>, n: nat) -> std::result::Result<
    Seq<ZipRecordView>,
    ErrorView,
>
    decreases n,
{
    if n == 0 {
        Ok(Seq::empty())
    } else {
        match zip_records(bytes, (n - 1) as nat) {
            Err(e) => Err(e),
            Ok(rs) => match zip_record(bytes, n - 1) {
                Err(e) => Err(zip_error(zip_fault(e))),
                Ok(r) => Ok(rs.push(r)),
            },
        }
    }
}

/// The names that are not UTF-8, one behind the other.
pub open spec fn legacy_names(rs: Seq<ZipRecordView>) -> Seq<u8>
    decreases rs.len(),
{
    if rs.len() == 0 {
        Seq::empty()
    } else if valid_utf8(rs.last().name) {
        legacy_names(rs.drop_last())
    } else {
        legacy_names(rs.drop_last()) + rs.last().name
    }
}

/// The codepage for the names that are not UTF-8: detected from all of them together where the
/// strategy leaves it open.
pub open spec fn zip_codepage(rs: Seq<ZipRecordView>, enc: FilenameEncoding) -> Option<Codepage> {
    if enc == FilenameEncoding::Auto {
        detected_codepage(legacy_names(rs))
    } else {
        None
    }
}

/// A name as it is listed. A detected codepage applies only to names that are not UTF-8.
pub open spec fn zip_name(
    raw: Seq<u8>,
    enc: FilenameEncoding,
    detected: Option<Codepage>,
) -> Seq<char> {
    match detected {
        Some(cp) => if valid_utf8(raw) {
            decode_utf8(raw)
        } else {
            listed_name(raw, FilenameEncoding::Forced(cp))
        },
        None => listed_name(raw, enc),
    }
}

/// The entry for a record, before its content has been looked at.
pub open spec fn zip_entry(r: ZipRecordView, path: Seq<char>) -> EntryView {
    EntryView {
        path,
        raw_name: r.name,
        kind: if r.is_dir {
            NodeKind::Dir
        } else if r.is_symlink {
            NodeKind::Symlink
        } else {
            NodeKind::File
        },
        uncompressed_size: Some(r.size),
        compressed_size: Some(r.compressed_size),
        mtime: match r.modified {
            Some(at) => civil_timestamp(dos_civil(at.0, at.1)),
            None => None,
        },
        mode: r.mode,
        crc: Some(r.crc),
        encrypted: r.encrypted,
        comment: None,
    }
}

/// A listing with, for each entry, its place in the central directory.
pub struct ZipListing {
    pub entries: Seq<EntryView>,
    pub slots: Seq<int>,
}

/// The listing of the records. Records whose path is refused (e.g. `../evil.txt`) are left out.
pub open spec fn zip_listing(
    rs: Seq<ZipRecordView>,
    enc: FilenameEncoding,
    detected: Option<Codepage>,
) -> ZipListing
    decreases rs.len(),
{
    if rs.len() == 0 {
        ZipListing { entries: Seq::empty(), slots: Seq::empty() }
    } else {
        let front = zip_listing(rs.drop_last(), enc, detected);
        let r = rs.last();
        match normal_path(zip_name(r.name, enc, detected)) {
            Ok(path) => ZipListing {
                entries: front.entries.push(zip_entry(r, path)),
                slots: front.slots.push(rs.len() - 1),
            },
            Err(_) => front,
        }
    }
}

/// Whether the content of an entry is looked at when the archive is opened.
pub open spec fn zip_sniffed(e: EntryView) -> bool {
    e.kind == NodeKind::File && !e.encrypted
}

/// The first `n` entries, those that hold an archive marked as such; or the error of the first
/// whose content cannot be looked at.
pub open spec fn zip_marked(bytes: Seq<u8>, l: ZipListing, n: int) -> std::result::Result<
    Seq<EntryView>,
    ErrorView,
>
    decreases n,
{
    if n <= 0 {
        Ok(Seq::empty())
    } else {
        match zip_marked(bytes, l, n - 1) {
            Err(e) => Err(e),
            Ok(es) => {
                let e = l.entries[n - 1];
                if zip_sniffed(e) {
                    match zip_head(bytes, l.slots[n - 1], SNIFF_BYTES as int) {
                        Err(fault) => Err(zip_error(zip_fault(fault))),
                        Ok(head) => Ok(
                            es.push(
                                if is_nested_archive(head) {
                                    EntryView { kind: NodeKind::Archive, ..e }
                                } else {
                                    e
                                },
                            ),
                        ),
                    }
                } else {
                    Ok(es.push(e))
                }
            },
        }
    }
}

/// An open zip archive as a mathematical value.
pub struct ZipModel {
    pub bytes: Seq<u8>,
    pub entries: Seq<EntryView>,
    pub slots: Seq<int>,
}

/// Whether one of the entries is encrypted.
pub open spec fn any_encrypted(es: Seq<EntryView>) -> bool {
    exists|i: int| 0 <= i < es.len() && (#[trigger] es[i]).encrypted
}

/// The archive that the bytes are, or why they cannot be opened.
pub open spec fn zip_model(bytes: Seq<u8>, o: OptionsView) -> std::result::Result<
    ZipModel,
    ErrorView,
> {
    match zip_refusal(bytes) {
        Some(e) => Err(zip_error(zip_fault(e))),
        None => match zip_records(bytes, zip_count(bytes)) {
            Err(e) => Err(e),
            Ok(rs) => {
                let l = zip_listing(rs, o.encoding, zip_codepage(rs, o.encoding));
                match zip_marked(bytes, l, l.entries.len() as int) {
                    Err(e) => Err(e),
                    Ok(es) => Ok(ZipModel { bytes, entries: es, slots: l.slots }),
                }
            },
        },
    }
}

/// The bytes of an entry. Directories have none, and encrypted entries cannot be read.
pub open spec fn zip_read(m: ZipModel, e: EntryView) -> std::result::Result<Seq<u8>, ErrorView> {
    if e.kind == NodeKind::Dir {
        Err(ErrorView::CorruptArchive("entry is a directory: "@ + e.path))
    } else {
        match last_index(m.entries, e.path) {
            None => Err(ErrorView::CorruptArchive(no_such_entry("zip"@, e.path))),
            Some(i) => if m.entries[i].encrypted {
                Err(ErrorView::UnsupportedFeature("encrypted zip entries"@))
            } else {
                match zip_content(m.bytes, m.slots[i]) {
                    Ok(b) => Ok(b),
                    Err(fault) => Err(zip_error(zip_fault(fault))),
                }
            },
        }
    }
}

/// What can be done with a zip archive: a password does not help, since encrypted entries cannot
/// be read at all.
pub open spec fn zip_abilities(m: ZipModel) -> Capabilities {
    Capabilities {
        random_access: true,
        encrypted: any_encrypted(m.entries),
        needs_password: false,
        can_write: false,
    }
}

/// Positions as integers.
pub open spec fn positions(slots: Seq<usize>) -> Seq<int> {
    slots.map_values(|i: usize| i as int)
}

/// An open zip archive.
pub struct OpenZip {
    handle: ZipHandle,
    entries: Vec<EntryMeta>,
    /// The place of each entry in the central directory.
    slots: Vec<usize>,
    any_encrypted: bool,
}

impl View for OpenZip {
    type V = ZipModel;

    closed spec fn view(&self) -> ZipModel {
        ZipModel {
            bytes: zip_bytes(self.handle),
            entries: views(self.entries@),
            slots: positions(self.slots@),
        }
    }
}

/// The records of an archive.
fn all_records(handle: &ZipHandle) -> (r: Result<Vec<ZipRecord>>)
    ensures
        ({
            let b = zip_bytes(*handle);
            match r {
                Ok(rs) => zip_records(b, zip_count(b)) == Ok::<Seq<ZipRecordView>, ErrorView>(
                    record_views(rs@),
                ),
                Err(e) => zip_records(b, zip_count(b)) == Err::<Seq<ZipRecordView>, ErrorView>(e@),
            }
        }),
{
    let ghost b = zip_bytes(*handle);
    let n = count_records(handle);
    let mut out: Vec<ZipRecord> = Vec::new();
    let mut i: usize = 0;
    assert(record_views(out@) =~= Seq::<ZipRecordView>::empty());
    while i < n
        invariant
            i <= n,
            n == zip_count(b),
            b == zip_bytes(*handle),
            zip_records(b, i as nat) == Ok::<Seq<ZipRecordView>, ErrorView>(record_views(out@)),
        decreases n - i,
    {
        match read_record(handle, i) {
            Ok(record) => {
                let ghost before = out@;
                out.push(record);
                assert(record_views(out@) =~= record_views(before).push(record@));
            },
            Err(e) => {
                let r = map_zip_err(fault_of(e));
                proof {
                    zip_records_stuck(b, (i + 1) as nat, n as nat);
                }
                return Err(r);
            },
        }
        i += 1;
    }
    Ok(out)
}

/// The records as mathematical values.
pub open spec fn record_views(rs: Seq<ZipRecord>) -> Seq<ZipRecordView> {
    rs.map_values(|r: ZipRecord| r@)
}

/// Once a record cannot be read, the error stays.
proof fn zip_records_stuck(bytes: Seq<u8>, i: nat, n: nat)
    requires
        i <= n,
        zip_records(bytes, i) is Err,
    ensures
        zip_records(bytes, n) == zip_records(bytes, i),
    decreases n,
{
    if i < n {
        zip_records_stuck(bytes, i, (n - 1) as nat);
    }
}

/// The names that are not UTF-8, one behind the other.
fn legacy_corpus(rs: &Vec<ZipRecord>) -> (r: Vec<u8>)
    ensures
        r@ == legacy_names(record_views(rs@)),
{
    let ghost vs = record_views(rs@);
    let mut out: Vec<u8> = Vec::new();
    let mut i: usize = 0;
    while i < rs.len()
        invariant
            i <= rs@.len(),
            vs == record_views(rs@),
            out@ == legacy_names(vs.take(i as int)),
        decreases rs@.len() - i,
    {
        assert(vs.take(i + 1).drop_last() =~= vs.take(i as int));
        assert(vs.take(i + 1).last() == rs@[i as int]@);
        if utf8_text(rs[i].name.as_slice()).is_err() {
            let mut name = rs[i].name.clone();
            assert(name@ =~= rs@[i as int].name@);
            out.append(&mut name);
        }
        i += 1;
    }
    assert(vs.take(i as int) =~= vs);
    out
}

/// A name as it is listed.
fn name_of(raw: &Vec<u8>, enc: FilenameEncoding, detected: Option<Codepage>) -> (r: String)
    ensures
        r@ == zip_name(raw@, enc, detected),
{
    match detected {
        Some(cp) => match utf8_text(raw.as_slice()) {
            Ok(s) => s,
            Err(_) => decode_name(raw.as_slice(), FilenameEncoding::Forced(cp)),
        },
        None => decode_name(raw.as_slice(), enc),
    }
}

/// Convert a zip MS-DOS timestamp. Invalid (out-of-range) dates yield `None`.
pub fn zip_datetime_to_system_time(modified: Option<(u16, u16)>) -> (r: Option<Timestamp>)
    ensures
        r == match modified {
            Some(at) => civil_timestamp(dos_civil(at.0, at.1)),
            None => None,
        },
{
    match modified {
        Some(at) => dos_words_to_timestamp(at.0, at.1),
        None => None,
    }
}

/// The entry for a record.
fn entry_of(r: &ZipRecord, path: EntryPath) -> (e: EntryMeta)
    ensures
        e@ == zip_entry(r@, path@),
{
    let kind = if r.is_dir {
        NodeKind::Dir
    } else if r.is_symlink {
        NodeKind::Symlink
    } else {
        NodeKind::File
    };
    let raw_name = r.name.clone();
    assert(raw_name@ =~= r.name@);
    EntryMeta {
        path,
        raw_name,
        kind,
        uncompressed_size: Some(r.size),
        compressed_size: Some(r.compressed_size),
        mtime: zip_datetime_to_system_time(r.modified),
        mode: r.mode,
        crc: Some(r.crc),
        encrypted: r.encrypted,
        comment: None,
    }
}

/// The listing of the records.
fn list_records(rs: &Vec<ZipRecord>, enc: FilenameEncoding, detected: Option<Codepage>) -> (r: (
    Vec<EntryMeta>,
    Vec<usize>,
))
    ensures
        zip_listing(record_views(rs@), enc, detected) == (ZipListing {
            entries: views(r.0@),
            slots: positions(r.1@),
        }),
        r.0@.len() == r.1@.len(),
{
    let ghost vs = record_views(rs@);
    let mut entries: Vec<EntryMeta> = Vec::new();
    let mut slots: Vec<usize> = Vec::new();
    let mut i: usize = 0;
    assert(views(entries@) =~= Seq::<EntryView>::empty());
    assert(positions(slots@) =~= Seq::<int>::empty());
    while i < rs.len()
        invariant
            i <= rs@.len(),
            vs == record_views(rs@),
            entries@.len() == slots@.len(),
            zip_listing(vs.take(i as int), enc, detected) == (ZipListing {
                entries: views(entries@),
                slots: positions(slots@),
            }),
        decreases rs@.len() - i,
    {
        let record = &rs[i];
        assert(vs.take(i + 1).drop_last() =~= vs.take(i as int));
        assert(vs.take(i + 1).last() == record@);
        match EntryPath::new(name_of(&record.name, enc, detected).as_str()) {
            Ok(path) => {
                let ghost (es, ss) = (entries@, slots@);
                let entry = entry_of(record, path);
                entries.push(entry);
                slots.push(i);
                assert(views(entries@) =~= views(es).push(entry@));
                assert(positions(slots@) =~= positions(ss).push(i as int));
            },
            // A path that cannot be extracted safely is not listed.
            Err(_) => {},
        }
        i += 1;
    }
    assert(vs.take(i as int) =~= vs);
    (entries, slots)
}

/// Once an entry's content cannot be looked at, the error stays.
proof fn zip_marked_stuck(bytes: Seq<u8>, l: ZipListing, i: int, n: int)
    requires
        i <= n,
        zip_marked(bytes, l, i) is Err,
    ensures
        zip_marked(bytes, l, n) == zip_marked(bytes, l, i),
    decreases n - i,
{
    if i < n {
        zip_marked_stuck(bytes, l, i, n - 1);
    }
}

/// Mark the entries that hold an archive, by the first bytes of their decompressed content.
fn mark_archives(handle: &ZipHandle, entries: &mut Vec<EntryMeta>, slots: &Vec<usize>) -> (r: Result<
    (),
>)
    requires
        old(entries)@.len() == slots@.len(),
    ensures
        ({
            let l = ZipListing { entries: views(old(entries)@), slots: positions(slots@) };
            let marked = zip_marked(zip_bytes(*handle), l, slots@.len() as int);
            match r {
                Ok(_) => marked == Ok::<Seq<EntryView>, ErrorView>(views(final(entries)@)),
                Err(e) => marked == Err::<Seq<EntryView>, ErrorView>(e@),
            }
        }),
{
    let ghost b = zip_bytes(*handle);
    let ghost l = ZipListing { entries: views(entries@), slots: positions(slots@) };
    let mut i: usize = 0;
    assert(views(entries@).take(0) =~= Seq::<EntryView>::empty());
    while i < slots.len()
        invariant
            i <= slots@.len(),
            entries@.len() == slots@.len(),
            l.entries.len() == slots@.len(),
            l.entries == views(old(entries)@),
            l.slots == positions(slots@),
            b == zip_bytes(*handle),
            zip_marked(b, l, i as int) == Ok::<Seq<EntryView>, ErrorView>(
                views(entries@).take(i as int),
            ),
            forall|j: int| i <= j < slots@.len() ==> (#[trigger] entries@[j])@ == l.entries[j],
        decreases slots@.len() - i,
    {
        let ghost before = entries@;
        assert(entries@[i as int]@ == l.entries[i as int]);
        if entries[i].kind == NodeKind::File && !entries[i].encrypted {
            match read_head(handle, slots[i], SNIFF_BYTES) {
                Ok(head) => {
                    if looks_like_nested_archive(head.as_slice()) {
                        let mut marked = entries[i].clone();
                        marked.kind = NodeKind::Archive;
                        entries.set(i, marked);
                    }
                },
                Err(e) => {
                    let r = map_zip_err(fault_of(e));
                    proof {
                        zip_marked_stuck(b, l, i + 1, slots@.len() as int);
                    }
                    return Err(r);
                },
            }
        }
        assert(views(entries@).take(i + 1) =~= views(before).take(i as int).push(
            entries@[i as int]@,
        ));
        i += 1;
    }
    assert(views(entries@).take(i as int) =~= views(entries@));
    Ok(())
}

/// Whether one of the entries is encrypted.
pub(crate) fn has_encrypted(entries: &Vec<EntryMeta>) -> (r: bool)
    ensures
        r == any_encrypted(views(entries@)),
{
    let mut i: usize = 0;
    while i < entries.len()
        invariant
            i <= entries@.len(),
            forall|j: int| 0 <= j < i ==> !(#[trigger] views(entries@)[j]).encrypted,
        decreases entries@.len() - i,
    {
        assert(views(entries@)[i as int] == entries@[i as int]@);
        if entries[i].encrypted {
            return true;
        }
        i += 1;
    }
    false
}

impl OpenZip {
    /// As many slots as entries, and the flag says whether an entry is encrypted.
    #[verifier::type_invariant]
    closed spec fn inv(self) -> bool {
        &&& self.entries@.len() == self.slots@.len()
        &&& self.any_encrypted == any_encrypted(views(self.entries@))
    }

    /// Parse the central directory, decode the names and mark the entries that hold an archive.
    pub fn new(bytes: &[u8], opts: &OpenOptions) -> (r: Result<Self>)
        ensures
            match r {
                Ok(a) => zip_model(bytes@, opts@) == Ok::<ZipModel, ErrorView>(a@),
                Err(e) => zip_model(bytes@, opts@) == Err::<ZipModel, ErrorView>(e@),
            },
    {
        let handle = match parse_zip(bytes) {
            Ok(handle) => handle,
            Err(e) => return Err(map_zip_err(fault_of(e))),
        };
        let records = match all_records(&handle) {
            Ok(records) => records,
            Err(e) => return Err(e),
        };
        // One short name is too little signal to tell its codepage; all of them together give the
        // detector a proper corpus. UTF-8 names are left out: they must not bias the guess.
        let detected = match opts.encoding {
            FilenameEncoding::Auto => detect_codepage(legacy_corpus(&records).as_slice()),
            FilenameEncoding::Forced(_) => None,
        };
        let (mut entries, slots) = list_records(&records, opts.encoding, detected);
        match mark_archives(&handle, &mut entries, &slots) {
            Ok(_) => {},
            Err(e) => return Err(e),
        }
        let any_encrypted = has_encrypted(&entries);
        proof {
            zip_marked_len(
                zip_bytes(handle),
                zip_listing(record_views(records@), opts.encoding, detected),
                slots@.len() as int,
            );
        }
        Ok(OpenZip { handle, entries, slots, any_encrypted })
    }

    /// The listing.
    pub fn entries(&self) -> (r: &Vec<EntryMeta>)
        ensures
            views(r@) == self@.entries,
    {
        &self.entries
    }

    /// Read a file entry fully into memory.
    pub fn read_entry_bytes(&self, meta: &EntryMeta) -> (r: Result<Vec<u8>>)
        ensures
            match r {
                Ok(b) => zip_read(self@, meta@) == Ok::<Seq<u8>, ErrorView>(b@),
                Err(e) => zip_read(self@, meta@) == Err::<Seq<u8>, ErrorView>(e@),
            },
    {
        proof {
            use_type_invariant(self);
        }
        if meta.kind == NodeKind::Dir {
            return Err(
                Error::CorruptArchive(concat2("entry is a directory: ", meta.path.as_str())),
            );
        }
        let i = match index_of(&self.entries, &meta.path) {
            Some(i) => i,
            None => return Err(missing_entry("zip", &meta.path)),
        };
        if self.entries[i].encrypted {
            return Err(Error::no_feature("encrypted zip entries"));
        }
        match read_content(&self.handle, self.slots[i]) {
            Ok(b) => Ok(b),
            Err(e) => Err(map_zip_err(fault_of(e))),
        }
    }

    /// Query the capabilities of this archive.
    pub fn capabilities(&self) -> (r: Capabilities)
        ensures
            r == zip_abilities(self@),
    {
        proof {
            use_type_invariant(self);
        }
        Capabilities {
            random_access: true,
            encrypted: self.any_encrypted,
            needs_password: false,
            can_write: false,
        }
    }
}

/// Marking leaves as many entries as there were.
proof fn zip_marked_len(bytes: Seq<u8>, l: ZipListing, n: int)
    requires
        0 <= n,
    ensures
        zip_marked(bytes, l, n) is Ok ==> zip_marked(bytes, l, n)->Ok_0.len() == n,
    decreases n,
{
    if n > 0 {
        zip_marked_len(bytes, l, n - 1);
    }
}

} // verus!
