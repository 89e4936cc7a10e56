//! TAR archives, read through the `tar` crate.
//!
//! tar is a sequential format: at open time the headers are scanned once, and an index of each
//! entry's data position and size is kept. Reading an entry is then a slice of the bytes.

use std::io::Cursor;

use vstd::prelude::*;
use vstd::slice::{slice_subrange, slice_to_vec};
use vstd::string::*;

use crate::archive::{
    index_of, is_nested_archive, last_index, looks_like_nested_archive, missing_entry,
    no_such_entry, Capabilities, OpenOptions, OptionsView, SNIFF_BYTES,
};
use crate::encoding::{decode_name, listed_name, FilenameEncoding};
use crate::error::{Error, ErrorView, Result};
use crate::model::{normal_path, views, EntryMeta, EntryPath, EntryView, NodeKind};
use crate::text::same_bytes;
use crate::timestamp::{seconds_after_epoch, timestamp_after_epoch};

verus! {

/// One header of a tar archive.
pub struct TarRecord {
    /// The name as stored.
    pub name: Vec<u8>,
    /// Whether the entry is a directory.
    pub is_dir: bool,
    /// Whether the entry is a symbolic link.
    pub is_symlink: bool,
    /// Where the data begins.
    pub position: u64,
    /// The size of the data.
    pub size: u64,
    /// Modification time in seconds since 1970, where the field is well formed.
    pub mtime: Option<u64>,
    /// Mode bits, where the field is well formed.
    pub mode: Option<u32>,
}

/// A [`TarRecord`] as a mathematical value.
pub struct TarRecordView {
    pub name: Seq<u8>,
    pub is_dir: bool,
    pub is_symlink: bool,
    pub position: u64,
    pub size: u64,
    pub mtime: Option<u64>,
    pub mode: Option<u32>,
}

impl View for TarRecord {
    type V = TarRecordView;

    open spec fn view(&self) -> TarRecordView {
        TarRecordView {
            name: self.name@,
            is_dir: self.is_dir,
            is_symlink: self.is_symlink,
            position: self.position,
            size: self.size,
            mtime: self.mtime,
            mode: self.mode,
        }
    }
}

/// The headers as mathematical values.
pub open spec fn record_views(rs: Seq<TarRecord>) -> Seq<TarRecordView> {
    rs.map_values(|r: TarRecord| r@)
}

/// The size of a block: headers begin at its multiples.
pub const TAR_BLOCK: usize = 512;

/// What a header says of its entry, as far as the place of the next header depends on it.
pub struct TarHead {
    /// The type of the entry.
    pub kind: u8,
    /// The size of the data, where the field is well formed.
    pub size: Option<u64>,
    /// The stored checksum, where the field is well formed.
    pub checksum: Option<u32>,
    /// Whether it is a GNU header.
    pub is_gnu: bool,
    /// Whether it is a USTAR header.
    pub is_ustar: bool,
    /// Whether it is a GNU header that says that the list of a sparse file's parts goes on in
    /// further blocks.
    pub is_extended: bool,
}

/// What a header says.
pub uninterp spec fn tar_head(block: Seq<u8>) -> TarHead;

/// The records of an extended header in order; where one is malformed, nothing.
pub uninterp spec fn pax_records(data: Seq<u8>) -> Seq<Option<(Seq<u8>, Seq<u8>)>>;

/// Read a header.
///
/// Trusted: names what the accessors of `tar::Header` give on the block. The crate refuses a block
/// of another length with a panic.
#[verifier::external_body]
fn read_head(block: &[u8]) -> (r: TarHead)
    requires
        block@.len() == TAR_BLOCK,
    ensures
        r == tar_head(block@),
{
    let header = tar::Header::from_byte_slice(block);
    TarHead {
        kind: header.entry_type().as_byte(),
        size: header.entry_size().ok(),
        checksum: header.cksum().ok(),
        is_gnu: header.as_gnu().is_some(),
        is_ustar: header.as_ustar().is_some(),
        is_extended: header.as_gnu().is_some_and(tar::GnuHeader::is_extended),
    }
}

/// Records as mathematical values.
pub open spec fn pax_views(rs: Seq<Option<(Vec<u8>, Vec<u8>)>>) -> Seq<Option<(Seq<u8>, Seq<u8>)>> {
    rs.map_values(
        |r: Option<(Vec<u8>, Vec<u8>)>|
            match r {
                Some((key, value)) => Some((key@, value@)),
                None => None,
            },
    )
}

/// Read the records of an extended header.
///
/// Trusted: names the keys and values that `tar::PaxExtensions` yields over the data.
#[verifier::external_body]
fn read_pax(data: &[u8]) -> (r: Vec<Option<(Vec<u8>, Vec<u8>)>>)
    ensures
        pax_views(r@) == pax_records(data@),
{
    let records = tar::PaxExtensions::new(data).map(|found| found.ok());
    records.map(|r| r.map(|r| (r.key_bytes().to_vec(), r.value_bytes().to_vec()))).collect()
}

/// Whether a byte is a decimal digit.
pub open spec fn is_digit(b: u8) -> bool {
    0x30 <= b <= 0x39
}

/// The number that decimal digits stand for.
pub open spec fn digits_value(ds: Seq<u8>) -> nat
    decreases ds.len(),
{
    if ds.len() == 0 {
        0
    } else {
        digits_value(ds.drop_last()) * 10 + (ds.last() - 0x30) as nat
    }
}

/// Whether all bytes are decimal digits.
pub open spec fn all_digits(ds: Seq<u8>) -> bool {
    forall|i: int| 0 <= i < ds.len() ==> is_digit(#[trigger] ds[i])
}

/// The digits of a number, without the plus before them.
pub open spec fn digits_of(text: Seq<u8>) -> Seq<u8> {
    if text.len() > 0 && text[0] == 0x2b {
        text.drop_first()
    } else {
        text
    }
}

/// The number that a text stands for: digits, a plus before them or not, and small enough.
pub open spec fn number_of(text: Seq<u8>) -> Option<u64> {
    let ds = digits_of(text);
    if ds.len() > 0 && all_digits(ds) && digits_value(ds) <= u64::MAX {
        Some(digits_value(ds) as u64)
    } else {
        None
    }
}

/// The size that records set: the number in the first record named `size`, where all records up to
/// it are well formed.
pub open spec fn size_among(rs: Seq<Option<(Seq<u8>, Seq<u8>)>>) -> Option<u64>
    decreases rs.len(),
{
    if rs.len() == 0 {
        None
    } else {
        match rs[0] {
            None => None,
            Some((key, value)) => if key == size_key() {
                number_of(value)
            } else {
                size_among(rs.drop_first())
            },
        }
    }
}

/// The name of the record that sets a size.
pub open spec fn size_key() -> Seq<u8> {
    seq![0x73u8, 0x69, 0x7a, 0x65]
}

/// Whether a header only says something of the entry that follows.
pub open spec fn is_extension(h: TarHead) -> bool {
    h.kind == 0x4c || h.kind == 0x4b || h.kind == 0x78 || h.kind == 0x67
}

/// The size of an entry's data: the one that an extended header before it sets, if there is one,
/// else its own.
pub open spec fn data_size(h: TarHead, pax: Option<Seq<u8>>) -> Option<u64> {
    match (h.size, pax) {
        (Some(_), Some(data)) => if !is_extension(h) && size_among(pax_records(data)) is Some {
            size_among(pax_records(data))
        } else {
            h.size
        },
        _ => h.size,
    }
}

/// A size rounded up to whole blocks.
pub open spec fn whole_blocks(size: u64) -> int {
    (size + 511) / 512 * 512
}

/// The sum over the bytes of a header, those of the checksum itself taken as spaces.
pub open spec fn header_sum(block: Seq<u8>, n: int) -> int
    decreases n,
{
    if n <= 0 {
        0
    } else {
        header_sum(block, n - 1) + if 148 <= n - 1 < 156 {
            32
        } else {
            block[n - 1] as int
        }
    }
}

/// Whether a block is all zeros, which ends an archive.
pub open spec fn is_zero_block(block: Seq<u8>) -> bool {
    forall|i: int| 0 <= i < block.len() ==> #[trigger] block[i] == 0
}

/// The number of further blocks that a sparse file's list takes from `at` on, if they are all
/// there. Each says whether another follows.
pub open spec fn further_blocks(bytes: Seq<u8>, at: int) -> Option<nat>
    decreases bytes.len() - at,
{
    if at < 0 || at + 512 > bytes.len() {
        None
    } else if bytes[at + 504] == 1 {
        match further_blocks(bytes, at + 512) {
            Some(k) => Some(k + 1),
            None => None,
        }
    } else {
        Some(1)
    }
}

/// Whether the headers from `at` on, where `pax` is the data of an extended header before them,
/// lead to a sparse file whose list goes on in further blocks and whose size leaves no room for the
/// positions of as many blocks as there may be.
///
/// No archive that can be scanned to its end is like that: the position behind such a file is
/// beyond all that can be sought.
pub open spec fn overruns(bytes: Seq<u8>, at: int, pax: Option<Seq<u8>>) -> bool
    decreases bytes.len() - at,
{
    if at < 0 || at + 512 > bytes.len() {
        false
    } else {
        let block = bytes.subrange(at, at + 512);
        let h = tar_head(block);
        match data_size(h, pax) {
            None => false,
            Some(size) => {
                let next = at + 512 + whole_blocks(size);
                if is_zero_block(block) || h.checksum != Some(header_sum(block, 512) as u32) || size
                    + 511 > u64::MAX || next > u64::MAX {
                    false
                } else if (h.is_gnu || h.is_ustar) && h.kind == 0x78 {
                    pax is None && next <= bytes.len() && overruns(
                        bytes,
                        next,
                        Some(tar_slice(bytes, at + 512, size as int)),
                    )
                } else if (h.is_gnu || h.is_ustar) && (h.kind == 0x4c || h.kind == 0x4b) {
                    next <= bytes.len() && overruns(bytes, next, pax)
                } else if h.kind != 0x53 || (h.is_gnu && !h.is_extended) {
                    next <= bytes.len() && overruns(bytes, next, None)
                } else if !h.is_gnu {
                    false
                } else if whole_blocks(size) + bytes.len() > u64::MAX {
                    true
                } else {
                    match further_blocks(bytes, at + 512) {
                        Some(k) => next + 512 * k <= bytes.len() && overruns(
                            bytes,
                            next + 512 * k,
                            None,
                        ),
                        None => false,
                    }
                }
            },
        }
    }
}

/// The headers of a tar archive in order, or the text of the error at the first bad one.
pub uninterp spec fn tar_index(bytes: Seq<u8>) -> std::result::Result<
    Seq<TarRecordView>,
    Seq<char>,
>;

/// Scan the headers of a tar archive.
///
/// Trusted: names what `tar::Archive::entries_with_seek` yields over the bytes, up to its first
/// error, and what the accessors of each entry and of its header give. The crate adds the size of a
/// block to the next position for each further block of a sparse file, without a check; since those
/// blocks lie in the bytes, the sum stays below 2^64 unless `overruns` holds.
#[verifier::external_body]
fn scan_headers(bytes: &[u8]) -> (r: std::result::Result<Vec<TarRecord>, String>)
    requires
        !overruns(bytes@, 0, None),
    ensures
        match r {
            Ok(rs) => tar_index(bytes@) == Ok::<Seq<TarRecordView>, Seq<char>>(record_views(rs@)),
            Err(m) => tar_index(bytes@) == Err::<Seq<TarRecordView>, Seq<char>>(m@),
        },
{
    let mut archive = tar::Archive::new(Cursor::new(bytes));
    let entries = archive.entries_with_seek().map_err(|e| e.to_string())?;
    let records = entries.map(|found| found.map(|entry| TarRecord {
        name: entry.path_bytes().into_owned(),
        is_dir: entry.header().entry_type().is_dir(),
        is_symlink: entry.header().entry_type().is_symlink(),
        position: entry.raw_file_position(),
        size: entry.size(),
        mtime: entry.header().mtime().ok(),
        mode: entry.header().mode().ok(),
    }));
    records.collect::<std::io::Result<Vec<_>>>().map_err(|e| e.to_string())
}

/// The part of the bytes that lies in `[position, position + size)`.
pub open spec fn tar_slice(bytes: Seq<u8>, position: int, size: int) -> Seq<u8> {
    if position >= bytes.len() {
        Seq::empty()
    } else if position + size >= bytes.len() {
        bytes.skip(position)
    } else {
        bytes.subrange(position, position + size)
    }
}

/// The first bytes of `content`, as many as are sniffed.
pub open spec fn head_of(content: Seq<u8>) -> Seq<u8> {
    if content.len() <= SNIFF_BYTES {
        content
    } else {
        content.take(SNIFF_BYTES as int)
    }
}

/// The entry for a header. Regular files, hard links, devices and the like are all listed as
/// files; those that begin as an archive does are marked.
pub open spec fn tar_entry(bytes: Seq<u8>, r: TarRecordView, path: Seq<char>) -> EntryView {
    EntryView {
        path,
        raw_name: r.name,
        kind: if r.is_dir {
            NodeKind::Dir
        } else if r.is_symlink {
            NodeKind::Symlink
        } else if is_nested_archive(
            head_of(tar_slice(bytes, r.position as int, r.size as int)),
        ) {
            NodeKind::Archive
        } else {
            NodeKind::File
        },
        uncompressed_size: Some(r.size),
        compressed_size: None,
        mtime: match r.mtime {
            Some(secs) => seconds_after_epoch(secs),
            None => None,
        },
        mode: r.mode,
        crc: None,
        encrypted: false,
        comment: None,
    }
}

/// An open tar archive as a mathematical value.
pub struct TarModel {
    pub bytes: Seq<u8>,
    pub entries: Seq<EntryView>,
    /// The data position and size of each entry.
    pub places: Seq<(u64, u64)>,
}

/// The listing of the headers. Headers whose path is refused (e.g. `..` traversal) are left out.
pub open spec fn tar_listing(
    bytes: Seq<u8>,
    rs: Seq<TarRecordView>,
    enc: FilenameEncoding,
) -> TarModel
    decreases rs.len(),
{
    if rs.len() == 0 {
        TarModel { bytes, entries: Seq::empty(), places: Seq::empty() }
    } else {
        let front = tar_listing(bytes, rs.drop_last(), enc);
        let r = rs.last();
        match normal_path(listed_name(r.name, enc)) {
            Ok(path) => TarModel {
                bytes,
                entries: front.entries.push(tar_entry(bytes, r, path)),
                places: front.places.push((r.position, r.size)),
            },
            Err(_) => front,
        }
    }
}

/// The archive that the bytes are, or why they cannot be opened.
pub open spec fn tar_model(bytes: Seq<u8>, o: OptionsView) -> std::result::Result<
    TarModel,
    ErrorView,
> {
    if overruns(bytes, 0, None) {
        Err(ErrorView::Io("seek position out of bounds"@))
    } else {
        match tar_index(bytes) {
            Ok(rs) => Ok(tar_listing(bytes, rs, o.encoding)),
            Err(m) => Err(ErrorView::Io(m)),
        }
    }
}

/// The bytes of an entry; a directory has none.
pub open spec fn tar_read(m: TarModel, e: EntryView) -> std::result::Result<Seq<u8>, ErrorView> {
    if e.kind == NodeKind::Dir {
        Ok(Seq::empty())
    } else {
        match last_index(m.entries, e.path) {
            None => Err(ErrorView::CorruptArchive(no_such_entry("tar"@, e.path))),
            Some(i) => Ok(tar_slice(m.bytes, m.places[i].0 as int, m.places[i].1 as int)),
        }
    }
}

/// What can be done with a tar archive.
pub open spec fn tar_abilities(m: TarModel) -> Capabilities {
    Capabilities {
        random_access: true,
        encrypted: false,
        needs_password: false,
        can_write: false,
    }
}

/// An open TAR archive.
pub struct TarArchive {
    bytes: Vec<u8>,
    entries: Vec<EntryMeta>,
    places: Vec<(u64, u64)>,
}

impl View for TarArchive {
    type V = TarModel;

    closed spec fn view(&self) -> TarModel {
        TarModel { bytes: self.bytes@, entries: views(self.entries@), places: self.places@ }
    }
}

/// The number that a text stands for.
fn parse_number(text: &[u8]) -> (r: Option<u64>)
    ensures
        r == number_of(text@),
{
    let signed = text.len() > 0 && text[0] == 0x2b;
    let from: usize = if signed {
        1
    } else {
        0
    };
    let ghost ds = digits_of(text@);
    if text.len() == from {
        return None;
    }
    let mut value: u64 = 0;
    let mut i: usize = from;
    while i < text.len()
        invariant
            from <= i <= text@.len(),
            from == if signed {
                1int
            } else {
                0
            },
            signed == (text@.len() > 0 && text@[0] == 0x2b),
            ds == digits_of(text@),
            ds.len() == text@.len() - from,
            value == digits_value(ds.take(i - from)),
            forall|j: int| 0 <= j < i - from ==> is_digit(#[trigger] ds[j]),
        decreases text@.len() - i,
    {
        let b: u8 = text[i];
        let ghost k = i - from;
        assert(ds[k] == b);
        if b < 0x30 || b > 0x39 {
            assert(!all_digits(ds)) by {
                assert(!is_digit(ds[k]));
            }
            return None;
        }
        let digit: u64 = (b - 0x30) as u64;
        proof {
            assert(ds.take(k + 1).drop_last() =~= ds.take(k));
            assert(ds.take(k + 1).last() == b);
            assert(digits_value(ds.take(k + 1)) == value * 10 + digit);
            digits_value_grows(ds, k + 1, ds.len() as int);
            assert(ds.take(ds.len() as int) =~= ds);
        }
        if value > (u64::MAX - digit) / 10 {
            return None;
        }
        value = value * 10 + digit;
        i += 1;
    }
    assert(ds.take(i - from) =~= ds);
    Some(value)
}

/// More digits stand for no smaller number.
proof fn digits_value_grows(ds: Seq<u8>, i: int, n: int)
    requires
        0 <= i <= n <= ds.len(),
    ensures
        digits_value(ds.take(i)) <= digits_value(ds.take(n)),
    decreases n,
{
    if i < n {
        digits_value_grows(ds, i, n - 1);
        assert(ds.take(n).drop_last() =~= ds.take(n - 1));
    }
}

/// The size that the records of an extended header set.
fn find_size(data: &[u8]) -> (r: Option<u64>)
    ensures
        r == size_among(pax_records(data@)),
{
    let records = read_pax(data);
    let ghost rs = pax_records(data@);
    let key: [u8; 4] = [0x73, 0x69, 0x7a, 0x65];
    assert(key@ =~= size_key());
    let mut i: usize = 0;
    assert(rs.skip(0) =~= rs);
    while i < records.len()
        invariant
            i <= records@.len(),
            rs == pax_views(records@),
            rs == pax_records(data@),
            key@ == size_key(),
            size_among(rs) == size_among(rs.skip(i as int)),
        decreases records@.len() - i,
    {
        assert(rs.skip(i as int)[0] == rs[i as int]);
        assert(rs.skip(i as int).drop_first() =~= rs.skip(i + 1));
        match &records[i] {
            None => return None,
            Some((name, value)) => {
                if same_bytes(name.as_slice(), &key) {
                    return parse_number(value.as_slice());
                }
            },
        }
        i += 1;
    }
    None
}

/// The sum over the bytes of a header, those of the checksum itself taken as spaces.
fn sum_header(block: &[u8]) -> (r: u32)
    requires
        block@.len() == 512,
    ensures
        r == header_sum(block@, 512),
{
    let mut sum: u32 = 0;
    let mut i: usize = 0;
    while i < 512
        invariant
            i <= 512,
            block@.len() == 512,
            sum == header_sum(block@, i as int),
            sum <= i * 255,
        decreases 512 - i,
    {
        if 148 <= i && i < 156 {
            sum += 32;
        } else {
            sum += block[i] as u32;
        }
        i += 1;
    }
    sum
}

/// Whether a block is all zeros.
fn all_zero(block: &[u8]) -> (r: bool)
    ensures
        r == is_zero_block(block@),
{
    let mut i: usize = 0;
    while i < block.len()
        invariant
            i <= block@.len(),
            forall|j: int| 0 <= j < i ==> #[trigger] block@[j] == 0,
        decreases block@.len() - i,
    {
        if block[i] != 0 {
            return false;
        }
        i += 1;
    }
    true
}

/// The position behind the further blocks of a sparse file's list that begin at `at`, if they are
/// all there.
fn skip_further(bytes: &[u8], at: usize) -> (r: Option<usize>)
    requires
        at <= bytes@.len(),
    ensures
        match r {
            Some(end) => end <= bytes@.len() && further_blocks(bytes@, at as int) is Some && end
                == at + 512 * further_blocks(bytes@, at as int)->0,
            None => further_blocks(bytes@, at as int) is None,
        },
{
    let mut end: usize = at;
    let ghost mut passed: nat = 0;
    while bytes.len() - end >= TAR_BLOCK
        invariant
            at <= end <= bytes@.len(),
            end == at + 512 * passed,
            match further_blocks(bytes@, end as int) {
                Some(k) => further_blocks(bytes@, at as int) == Some(k + passed),
                None => further_blocks(bytes@, at as int) is None,
            },
        decreases bytes@.len() - end,
    {
        let more = bytes[end + 504] == 1;
        end += TAR_BLOCK;
        if !more {
            return Some(end);
        }
        proof {
            passed = passed + 1;
        }
    }
    None
}

/// The size of an entry's data.
fn size_of_data(h: &TarHead, pax: &Option<&[u8]>) -> (r: Option<u64>)
    ensures
        r == data_size(*h, opt_bytes(*pax)),
{
    let extension = h.kind == 0x4c || h.kind == 0x4b || h.kind == 0x78 || h.kind == 0x67;
    match (h.size, pax) {
        (Some(size), Some(data)) => {
            if extension {
                Some(size)
            } else {
                match find_size(data) {
                    Some(set) => Some(set),
                    None => Some(size),
                }
            }
        },
        _ => h.size,
    }
}

/// Optional bytes as a sequence.
spec fn opt_bytes(b: Option<&[u8]>) -> Option<Seq<u8>> {
    match b {
        Some(b) => Some(b@),
        None => None,
    }
}

/// Whether the headers lead to a sparse file whose size leaves no room for its blocks.
fn check_overrun(bytes: &[u8]) -> (r: bool)
    ensures
        r == overruns(bytes@, 0, None),
{
    let mut at: usize = 0;
    let mut pax: Option<&[u8]> = None;
    while bytes.len() - at >= TAR_BLOCK
        invariant
            at <= bytes@.len(),
            overruns(bytes@, 0, None) == overruns(bytes@, at as int, opt_bytes(pax)),
        decreases bytes@.len() - at,
    {
        let block = slice_subrange(bytes, at, at + TAR_BLOCK);
        let h = read_head(block);
        let size: u64 = match size_of_data(&h, &pax) {
            Some(size) => size,
            None => return false,
        };
        if all_zero(block) || h.checksum != Some(sum_header(block)) || size > u64::MAX - 511 {
            return false;
        }
        let whole: u64 = (size + 511) / 512 * 512;
        let from: usize = at + TAR_BLOCK;
        if whole > u64::MAX - from as u64 {
            return false;
        }
        let known = h.is_gnu || h.is_ustar;
        let mut blocks: u64 = 0;
        let after: Option<&[u8]> = if known && h.kind == 0x78 {
            if pax.is_some() {
                return false;
            }
            Some(slice_at(bytes, from as u64, size))
        } else if known && (h.kind == 0x4c || h.kind == 0x4b) {
            pax
        } else if h.kind != 0x53 || (h.is_gnu && !h.is_extended) {
            None
        } else if !h.is_gnu {
            return false;
        } else if whole > u64::MAX - bytes.len() as u64 {
            return true;
        } else {
            match skip_further(bytes, from) {
                Some(end) => blocks = (end - from) as u64,
                None => return false,
            }
            None
        };
        let next: u64 = from as u64 + whole + blocks;
        if next > bytes.len() as u64 {
            return false;
        }
        at = next as usize;
        pax = after;
    }
    false
}

/// The part of the bytes that lies in `[position, position + size)`.
fn slice_at(bytes: &[u8], position: u64, size: u64) -> (r: &[u8])
    ensures
        r@ == tar_slice(bytes@, position as int, size as int),
{
    if position >= bytes.len() as u64 {
        let r = slice_subrange(bytes, 0, 0);
        assert(r@ =~= Seq::<u8>::empty());
        r
    } else {
        let from: usize = position as usize;
        if size >= (bytes.len() - from) as u64 {
            slice_subrange(bytes, from, bytes.len())
        } else {
            slice_subrange(bytes, from, from + size as usize)
        }
    }
}

/// The first bytes of `content`, as many as are sniffed.
pub(crate) fn head_slice(content: &[u8]) -> (r: &[u8])
    ensures
        r@ == head_of(content@),
{
    if content.len() <= SNIFF_BYTES {
        content
    } else {
        let r = slice_subrange(content, 0, SNIFF_BYTES);
        assert(r@ =~= content@.take(SNIFF_BYTES as int));
        r
    }
}

/// The entry for a header.
fn entry_of(bytes: &[u8], r: &TarRecord, path: EntryPath) -> (e: EntryMeta)
    ensures
        e@ == tar_entry(bytes@, r@, path@),
{
    let kind = if r.is_dir {
        NodeKind::Dir
    } else if r.is_symlink {
        NodeKind::Symlink
    } else if looks_like_nested_archive(head_slice(slice_at(bytes, r.position, r.size))) {
        NodeKind::Archive
    } else {
        NodeKind::File
    };
    let raw_name = r.name.clone();
    assert(raw_name@ =~= r.name@);
    EntryMeta {
        path,
        raw_name,
        kind,
        uncompressed_size: Some(r.size),
        compressed_size: None,
        mtime: match r.mtime {
            Some(secs) => timestamp_after_epoch(secs),
            None => None,
        },
        mode: r.mode,
        crc: None,
        encrypted: false,
        comment: None,
    }
}

impl TarArchive {
    /// As many places as entries.
    #[verifier::type_invariant]
    closed spec fn inv(self) -> bool {
        self.entries@.len() == self.places@.len()
    }

    /// Scan the tar headers once and build the in-memory index.
    pub fn open(bytes: Vec<u8>, opts: &OpenOptions) -> (r: Result<Self>)
        ensures
            match r {
                Ok(a) => tar_model(bytes@, opts@) == Ok::<TarModel, ErrorView>(a@),
                Err(e) => tar_model(bytes@, opts@) == Err::<TarModel, ErrorView>(e@),
            },
    {
        if check_overrun(bytes.as_slice()) {
            return Err(Error::Io("seek position out of bounds".to_string()));
        }
        let records = match scan_headers(bytes.as_slice()) {
            Ok(records) => records,
            Err(m) => return Err(Error::Io(m)),
        };
        let ghost rs = record_views(records@);
        let enc = opts.encoding;
        let mut entries: Vec<EntryMeta> = Vec::new();
        let mut places: Vec<(u64, u64)> = Vec::new();
        let mut i: usize = 0;
        assert(views(entries@) =~= Seq::<EntryView>::empty());
        while i < records.len()
            invariant
                i <= records@.len(),
                rs == record_views(records@),
                entries@.len() == places@.len(),
                tar_listing(bytes@, rs.take(i as int), enc) == (TarModel {
                    bytes: bytes@,
                    entries: views(entries@),
                    places: places@,
                }),
            decreases records@.len() - i,
        {
            let record = &records[i];
            assert(rs.take(i + 1).drop_last() =~= rs.take(i as int));
            assert(rs.take(i + 1).last() == record@);
            match EntryPath::new(decode_name(record.name.as_slice(), enc).as_str()) {
                Ok(path) => {
                    let ghost es = entries@;
                    let entry = entry_of(bytes.as_slice(), record, path);
                    entries.push(entry);
                    places.push((record.position, record.size));
                    assert(views(entries@) =~= views(es).push(entry@));
                },
                // A path that cannot be extracted safely is not listed.
                Err(_) => {},
            }
            i += 1;
        }
        assert(rs.take(i as int) =~= rs);
        Ok(TarArchive { bytes, entries, places })
    }

    /// The listing.
    pub fn entries(&self) -> (r: &Vec<EntryMeta>)
        ensures
            views(r@) == self@.entries,
    {
        &self.entries
    }

    /// Read a file entry fully into memory.
    pub fn read_entry_bytes(&self, meta: &EntryMeta) -> (r: Result<Vec<u8>>)
        ensures
            match r {
                Ok(b) => tar_read(self@, meta@) == Ok::<Seq<u8>, ErrorView>(b@),
                Err(e) => tar_read(self@, meta@) == Err::<Seq<u8>, ErrorView>(e@),
            },
    {
        proof {
            use_type_invariant(self);
        }
        if meta.kind == NodeKind::Dir {
            return Ok(Vec::new());
        }
        match index_of(&self.entries, &meta.path) {
            Some(i) => {
                let (position, size) = self.places[i];
                let part = slice_at(self.bytes.as_slice(), position, size);
                let r = slice_to_vec(part);
                Ok(r)
            },
            None => Err(missing_entry("tar", &meta.path)),
        }
    }

    /// Query the capabilities of this archive.
    pub fn capabilities(&self) -> (r: Capabilities)
        ensures
            r == tar_abilities(self@),
    {
        Capabilities {
            random_access: true,
            encrypted: false,
            needs_password: false,
            can_write: false,
        }
    }
}

} // verus!
