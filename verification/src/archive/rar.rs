//! RAR archives, read through the `rars` crate.
//!
//! Non-solid archives decode one member at a time. Solid archives must decode the whole chain to
//! reach a member, so reading one decodes the chain and keeps that member's bytes.
//!
//! Multivolume archives are listed from the first volume, but split members are not readable
//! without loading all volumes; reading them reports `UnsupportedFeature`.

use rars::Archive as RarsArchive;
use rars::ArchiveMemberDetail as Detail;
use rars::Error as RarsError;

use vstd::prelude::*;
use vstd::string::*;

use crate::archive::tar::{head_of, head_slice};
use crate::archive::zip::{any_encrypted, has_encrypted, positions};
use crate::archive::{
    clone_secret, index_of, is_nested_archive, last_index, looks_like_nested_archive,
    missing_entry, no_such_entry, opt_secret, Capabilities, OpenOptions, OptionsView,
    SNIFF_ENTRY_CAP, SOLID_SNIFF_ARCHIVE_CAP,
};
use crate::encoding::{decode_entry_name, shown_name, FilenameEncoding, Utf8Flag};
use crate::error::{Error, ErrorView, Result};
use crate::model::{normal_path, views, EntryMeta, EntryPath, EntryView, NodeKind, Secret};
use crate::text::{
    byte_list, byte_list_text, concat2, concat3, decimal, decimal_text, hex, hex_text, same_bytes,
};
use crate::timestamp::{civil_timestamp, dos_time_to_system_time, dos_value_civil};

verus! {

/// The rars crate's archive: a parsed index over bytes.
#[verifier::external_type_specification]
#[verifier::external_body]
pub struct ExRarsArchive(RarsArchive);

/// The rars crate's error.
#[verifier::external_type_specification]
#[verifier::external_body]
pub struct ExRarsError(RarsError);

/// One member of a RAR archive.
pub struct RarMember {
    /// The name as stored.
    pub name: Vec<u8>,
    /// Whether the archive is of the RAR 5 family, whose names are UTF-8.
    pub is_rar5: bool,
    /// Whether the member is a directory.
    pub is_directory: bool,
    /// Whether the member is a link or another redirection.
    pub is_redirection: bool,
    /// Whether the content is encrypted.
    pub is_encrypted: bool,
    /// Whether the member continues from or into another volume.
    pub is_split: (bool, bool),
    /// Uncompressed size.
    pub unpacked_size: u64,
    /// Compressed size.
    pub packed_size: u64,
    /// The stored modification time.
    pub file_time: Option<u32>,
    /// CRC-32 of the content, where the family stores one.
    pub crc: Option<u32>,
}

/// A [`RarMember`] as a mathematical value.
pub struct RarMemberView {
    pub name: Seq<u8>,
    pub is_rar5: bool,
    pub is_directory: bool,
    pub is_redirection: bool,
    pub is_encrypted: bool,
    pub is_split: (bool, bool),
    pub unpacked_size: u64,
    pub packed_size: u64,
    pub file_time: Option<u32>,
    pub crc: Option<u32>,
}

impl View for RarMember {
    type V = RarMemberView;

    open spec fn view(&self) -> RarMemberView {
        RarMemberView {
            name: self.name@,
            is_rar5: self.is_rar5,
            is_directory: self.is_directory,
            is_redirection: self.is_redirection,
            is_encrypted: self.is_encrypted,
            is_split: self.is_split,
            unpacked_size: self.unpacked_size,
            packed_size: self.packed_size,
            file_time: self.file_time,
            crc: self.crc,
        }
    }
}

/// The members as mathematical values.
pub open spec fn member_views(ms: Seq<RarMember>) -> Seq<RarMemberView> {
    ms.map_values(|m: RarMember| m@)
}

/// What went wrong in the rars crate.
pub enum RarFault {
    NeedPassword,
    WrongPasswordOrCorruptData,
    BadPassword,
    UnsupportedSignature,
    TooShort,
    InvalidHeader(String),
    UnsupportedVersion(String),
    /// A feature, and the version that lacks it.
    UnsupportedFeature(String, String),
    /// A feature, and the family that lacks it.
    UnsupportedFamilyFeature(String, String),
    /// Family, unpack version and method.
    UnsupportedCompression(String, u8, u8),
    /// Family and unpack version.
    UnsupportedEncryption(String, u8),
    BufferedDecodeLimit,
    Io(String),
    Cancelled,
    /// The expected and the actual checksum.
    CrcMismatch(u16, u16),
    /// The expected and the actual checksum.
    Crc32Mismatch(u32, u32),
    HashMismatch,
    Codec(String),
    Rar3Recovery(String),
    Rar5Recovery(String),
    Rar20Crypto(String),
    Rar30Crypto(String),
    Rar50Crypto(String),
    Other(String),
}

/// A [`RarFault`] with its texts as character sequences.
pub enum RarFaultView {
    NeedPassword,
    WrongPasswordOrCorruptData,
    BadPassword,
    UnsupportedSignature,
    TooShort,
    InvalidHeader(Seq<char>),
    UnsupportedVersion(Seq<char>),
    UnsupportedFeature(Seq<char>, Seq<char>),
    UnsupportedFamilyFeature(Seq<char>, Seq<char>),
    UnsupportedCompression(Seq<char>, u8, u8),
    UnsupportedEncryption(Seq<char>, u8),
    BufferedDecodeLimit,
    Io(Seq<char>),
    Cancelled,
    CrcMismatch(u16, u16),
    Crc32Mismatch(u32, u32),
    HashMismatch,
    Codec(Seq<char>),
    Rar3Recovery(Seq<char>),
    Rar5Recovery(Seq<char>),
    Rar20Crypto(Seq<char>),
    Rar30Crypto(Seq<char>),
    Rar50Crypto(Seq<char>),
    Other(Seq<char>),
}

impl View for RarFault {
    type V = RarFaultView;

    open spec fn view(&self) -> RarFaultView {
        match self {
            RarFault::NeedPassword => RarFaultView::NeedPassword,
            RarFault::WrongPasswordOrCorruptData => RarFaultView::WrongPasswordOrCorruptData,
            RarFault::BadPassword => RarFaultView::BadPassword,
            RarFault::UnsupportedSignature => RarFaultView::UnsupportedSignature,
            RarFault::TooShort => RarFaultView::TooShort,
            RarFault::InvalidHeader(m) => RarFaultView::InvalidHeader(m@),
            RarFault::UnsupportedVersion(m) => RarFaultView::UnsupportedVersion(m@),
            RarFault::UnsupportedFeature(f, v) => RarFaultView::UnsupportedFeature(f@, v@),
            RarFault::UnsupportedFamilyFeature(f, v) => RarFaultView::UnsupportedFamilyFeature(
                f@,
                v@,
            ),
            RarFault::UnsupportedCompression(f, u, m) => RarFaultView::UnsupportedCompression(
                f@,
                *u,
                *m,
            ),
            RarFault::UnsupportedEncryption(f, u) => RarFaultView::UnsupportedEncryption(f@, *u),
            RarFault::BufferedDecodeLimit => RarFaultView::BufferedDecodeLimit,
            RarFault::Io(m) => RarFaultView::Io(m@),
            RarFault::Cancelled => RarFaultView::Cancelled,
            RarFault::CrcMismatch(x, y) => RarFaultView::CrcMismatch(*x, *y),
            RarFault::Crc32Mismatch(x, y) => RarFaultView::Crc32Mismatch(*x, *y),
            RarFault::HashMismatch => RarFaultView::HashMismatch,
            RarFault::Codec(m) => RarFaultView::Codec(m@),
            RarFault::Rar3Recovery(m) => RarFaultView::Rar3Recovery(m@),
            RarFault::Rar5Recovery(m) => RarFaultView::Rar5Recovery(m@),
            RarFault::Rar20Crypto(m) => RarFaultView::Rar20Crypto(m@),
            RarFault::Rar30Crypto(m) => RarFaultView::Rar30Crypto(m@),
            RarFault::Rar50Crypto(m) => RarFaultView::Rar50Crypto(m@),
            RarFault::Other(m) => RarFaultView::Other(m@),
        }
    }
}

/// An optional fault as a mathematical value.
pub open spec fn opt_fault(f: Option<RarFault>) -> Option<RarFaultView> {
    match f {
        Some(f) => Some(f@),
        None => None,
    }
}

/// Optional contents as mathematical values.
pub open spec fn opt_contents(cs: Seq<Option<Vec<u8>>>) -> Seq<Option<Seq<u8>>> {
    cs.map_values(
        |c: Option<Vec<u8>>|
            match c {
                Some(b) => Some(b@),
                None => None,
            },
    )
}

/// The bytes that a parsed archive reads from.
pub uninterp spec fn rar_bytes(archive: RarsArchive) -> Seq<u8>;

/// The password that an archive was parsed with.
pub uninterp spec fn rar_password(archive: RarsArchive) -> Option<Seq<u8>>;

/// Why bytes are no readable RAR archive under a password, if they are none.
pub uninterp spec fn rar_refusal(bytes: Seq<u8>, password: Option<Seq<u8>>) -> Option<RarsError>;

/// The members of the archive, in order.
pub uninterp spec fn rar_members(bytes: Seq<u8>, password: Option<Seq<u8>>) -> Seq<RarMemberView>;

/// Whether the archive's main header says that it is solid.
pub uninterp spec fn rar_solid(bytes: Seq<u8>, password: Option<Seq<u8>>) -> bool;

/// The content of a member decoded by itself; `None` where there is no such member.
pub uninterp spec fn rar_content(bytes: Seq<u8>, password: Option<Seq<u8>>, i: int) -> std::result::Result<
    Option<Seq<u8>>,
    RarsError,
>;

/// The contents of several members decoded in one pass, with all that comes before them.
pub uninterp spec fn rar_chain(
    bytes: Seq<u8>,
    password: Option<Seq<u8>>,
    members: Seq<usize>,
) -> std::result::Result<Seq<Option<Seq<u8>>>, RarsError>;

/// What an error says about access to the archive, if it does.
pub uninterp spec fn rar_access_fault(e: RarsError) -> Option<RarFaultView>;

/// What an error says about missing support, if it does.
pub uninterp spec fn rar_support_fault(e: RarsError) -> Option<RarFaultView>;

/// What an error says about damage, if it does.
pub uninterp spec fn rar_damage_fault(e: RarsError) -> Option<RarFaultView>;

/// The text of an error, without the places where it occurred.
pub uninterp spec fn rar_error_text(e: RarsError) -> Seq<char>;

/// Parse a RAR archive.
///
/// Trusted: names the outcome of `rars::ArchiveReader::read_owned_with_options` on the bytes and
/// the password.
#[verifier::external_body]
fn parse_rar(bytes: Vec<u8>, password: &Option<Secret>) -> (r: std::result::Result<
    RarsArchive,
    RarsError,
>)
    ensures
        match r {
            Ok(a) => rar_refusal(bytes@, opt_secret(*password)) is None && rar_bytes(a) == bytes@
                && rar_password(a) == opt_secret(*password),
            Err(e) => rar_refusal(bytes@, opt_secret(*password)) == Some(e),
        },
{
    let password = password.as_ref().map(Secret::as_bytes);
    let options = rars::ArchiveReadOptions::with_optional_password(password);
    rars::ArchiveReader::read_owned_with_options(bytes, options)
}

/// The members of a parsed archive.
///
/// Trusted: names what `rars::Archive::members` yields.
#[verifier::external_body]
fn list_members(archive: &RarsArchive) -> (r: Vec<RarMember>)
    ensures
        member_views(r@) == rar_members(rar_bytes(*archive), rar_password(*archive)),
{
    archive.members().map(|rars::ArchiveMember { meta, detail, .. }| RarMember {
        name: meta.name,
        is_rar5: meta.family == rars::ArchiveFamily::Rar50Plus,
        is_directory: meta.is_directory, is_redirection: meta.is_redirection,
        is_encrypted: meta.is_encrypted,
        is_split: (meta.is_split_before, meta.is_split_after),
        unpacked_size: meta.unpacked_size, packed_size: meta.packed_size,
        file_time: meta.file_time,
        crc: match detail {
            Detail::Rar15To40 { crc32, .. } => Some(crc32),
            Detail::Rar50Plus { crc32, .. } => crc32,
            _ => None,
        },
    }).collect()
}

/// Whether the archive is solid.
///
/// Trusted: names what `is_solid` of the main header says, in whichever family.
#[verifier::external_body]
fn main_is_solid(archive: &RarsArchive) -> (r: bool)
    ensures
        r == rar_solid(rar_bytes(*archive), rar_password(*archive)),
{
    match archive {
        RarsArchive::Rar13(a) => a.main.is_solid(),
        RarsArchive::Rar15To40(a) => a.main.is_solid(),
        RarsArchive::Rar50Plus(a) => a.main.is_solid(),
        _ => false,
    }
}

/// The content of a member, decoded with a fresh decoder.
///
/// Trusted: names the outcome of `write_to` on the header of the member with that number, in
/// whichever family, and what it writes.
#[verifier::external_body]
fn read_member(archive: &RarsArchive, i: usize, password: &Option<Secret>) -> (r: std::result::Result<
    Option<Vec<u8>>,
    RarsError,
>)
    requires
        opt_secret(*password) == rar_password(*archive),
    ensures
        match r {
            Ok(Some(b)) => rar_content(rar_bytes(*archive), opt_secret(*password), i as int) == Ok::<
                Option<Seq<u8>>,
                RarsError,
            >(Some(b@)),
            Ok(None) => rar_content(rar_bytes(*archive), opt_secret(*password), i as int) == Ok::<
                Option<Seq<u8>>,
                RarsError,
            >(None),
            Err(e) => rar_content(rar_bytes(*archive), opt_secret(*password), i as int) == Err::<
                Option<Seq<u8>>,
                RarsError,
            >(e),
        },
{
    let password = password.as_ref().map(Secret::as_bytes);
    let mut out = Vec::new();
    let done = match archive {
        RarsArchive::Rar13(a) => a.entries.get(i).map(|f| f.write_to(a, password, &mut out)),
        RarsArchive::Rar15To40(a) => a.files().nth(i).map(|f| f.write_to(a, password, &mut out)),
        RarsArchive::Rar50Plus(a) => a.files().nth(i).map(|f| f.write_to(a, password, &mut out)),
        _ => None,
    };
    done.transpose().map(|found| found.map(|_| out))
}

/// The contents of several members, decoded in one pass.
///
/// Trusted: names the outcome of `rars::Archive::read_members_at`, which gives one result for each
/// number asked for.
#[verifier::external_body]
fn read_chain(archive: &RarsArchive, members: &[usize], password: &Option<Secret>) -> (r: std::result::Result<
    Vec<Option<Vec<u8>>>,
    RarsError,
>)
    requires
        opt_secret(*password) == rar_password(*archive),
    ensures
        match r {
            Ok(cs) => cs@.len() == members@.len() && rar_chain(
                rar_bytes(*archive),
                opt_secret(*password),
                members@,
            ) == Ok::<Seq<Option<Seq<u8>>>, RarsError>(opt_contents(cs@)),
            Err(e) => rar_chain(rar_bytes(*archive), opt_secret(*password), members@) == Err::<
                Seq<Option<Seq<u8>>>,
                RarsError,
            >(e),
        },
{
    archive.read_members_at(members, password.as_ref().map(Secret::as_bytes))
}

/// What an error says about access to the archive.
///
/// Trusted: names these variants of `rars::Error::root_cause`, and the texts they carry.
#[verifier::external_body]
fn access_fault(e: &RarsError) -> (r: Option<RarFault>)
    ensures
        opt_fault(r) == rar_access_fault(*e),
{
    match e.root_cause() {
        RarsError::NeedPassword => Some(RarFault::NeedPassword),
        RarsError::WrongPasswordOrCorruptData => Some(RarFault::WrongPasswordOrCorruptData),
        RarsError::Rar50Crypto(rars::crypto::rar50::Error::BadPassword) => Some(RarFault::BadPassword),
        RarsError::UnsupportedSignature => Some(RarFault::UnsupportedSignature),
        RarsError::TooShort => Some(RarFault::TooShort),
        RarsError::InvalidHeader(m) => Some(RarFault::InvalidHeader(m.to_string())),
        RarsError::Io(io) => Some(RarFault::Io(io.message.clone())),
        RarsError::Cancelled => Some(RarFault::Cancelled),
        _ => None,
    }
}

/// What an error says about missing support.
///
/// Trusted: names these variants of `rars::Error::root_cause`, and the texts they carry.
#[verifier::external_body]
fn support_fault(e: &RarsError) -> (r: Option<RarFault>)
    ensures
        opt_fault(r) == rar_support_fault(*e),
{
    Some(match e.root_cause() {
        RarsError::UnsupportedVersion(v) => RarFault::UnsupportedVersion(format!("{v:?}")),
        RarsError::UnsupportedFeature { version, feature } =>
            RarFault::UnsupportedFeature(feature.to_string(), format!("{version:?}")),
        RarsError::UnsupportedFamilyFeature { family, feature } =>
            RarFault::UnsupportedFamilyFeature(feature.to_string(), format!("{family:?}")),
        RarsError::UnsupportedCompression { family, unpack_version, method } =>
            RarFault::UnsupportedCompression(family.to_string(), *unpack_version, *method),
        RarsError::UnsupportedEncryption { family, unpack_version } =>
            RarFault::UnsupportedEncryption(family.to_string(), *unpack_version),
        RarsError::Rar50BufferedDecodeLimitExceeded { .. } => RarFault::BufferedDecodeLimit,
        _ => return None,
    })
}

/// What an error says about damage.
///
/// Trusted: names these variants of `rars::Error::root_cause`, and the texts they carry.
#[verifier::external_body]
fn damage_fault(e: &RarsError) -> (r: Option<RarFault>)
    ensures
        opt_fault(r) == rar_damage_fault(*e),
{
    Some(match e.root_cause() {
        RarsError::CrcMismatch { expected, actual } => RarFault::CrcMismatch(*expected, *actual),
        RarsError::Crc32Mismatch { expected, actual } => RarFault::Crc32Mismatch(*expected, *actual),
        RarsError::HashMismatch { .. } => RarFault::HashMismatch,
        RarsError::Codec(e) => RarFault::Codec(e.to_string()),
        RarsError::Rar3Recovery(e) => RarFault::Rar3Recovery(e.to_string()),
        RarsError::Rar5Recovery(e) => RarFault::Rar5Recovery(e.to_string()),
        RarsError::Rar20Crypto(e) => RarFault::Rar20Crypto(e.to_string()),
        RarsError::Rar30Crypto(e) => RarFault::Rar30Crypto(e.to_string()),
        RarsError::Rar50Crypto(e) => RarFault::Rar50Crypto(e.to_string()),
        _ => return None,
    })
}

/// The text of an error.
///
/// Trusted: names the text of `rars::Error::root_cause`.
#[verifier::external_body]
fn error_text(e: &RarsError) -> (r: String)
    ensures
        r@ == rar_error_text(*e),
{
    e.root_cause().to_string()
}

/// What an error of the rars crate says.
pub open spec fn rar_fault(e: RarsError) -> RarFaultView {
    match rar_access_fault(e) {
        Some(f) => f,
        None => match rar_support_fault(e) {
            Some(f) => f,
            None => match rar_damage_fault(e) {
                Some(f) => f,
                None => RarFaultView::Other(rar_error_text(e)),
            },
        },
    }
}

/// What an error of the rars crate says.
fn fault_of(e: &RarsError) -> (r: RarFault)
    ensures
        r@ == rar_fault(*e),
{
    match access_fault(e) {
        Some(f) => f,
        None => match support_fault(e) {
            Some(f) => f,
            None => match damage_fault(e) {
                Some(f) => f,
                None => RarFault::Other(error_text(e)),
            },
        },
    }
}

/// What is said of a checksum of the given number of digits.
pub open spec fn mismatch_text(what: Seq<char>, expected: nat, actual: nat, digits: nat) -> Seq<
    char,
> {
    what + " mismatch: expected 0x"@ + hex(expected, digits) + ", got 0x"@ + hex(actual, digits)
}

/// The library's error for a fault of the rars crate.
pub open spec fn rar_error(f: RarFaultView) -> ErrorView {
    match f {
        RarFaultView::NeedPassword => ErrorView::PasswordRequired,
        RarFaultView::WrongPasswordOrCorruptData => ErrorView::WrongPassword,
        RarFaultView::BadPassword => ErrorView::WrongPassword,
        RarFaultView::UnsupportedSignature => ErrorView::UnsupportedFormat("bad RAR signature"@),
        RarFaultView::TooShort => ErrorView::UnsupportedFormat("bad RAR signature"@),
        RarFaultView::InvalidHeader(m) => ErrorView::CorruptArchive("RAR: "@ + m),
        RarFaultView::UnsupportedVersion(v) => ErrorView::UnsupportedFeature("RAR version "@ + v),
        RarFaultView::UnsupportedFeature(feature, version) => ErrorView::UnsupportedFeature(
            feature + " (RAR "@ + version + ")"@,
        ),
        RarFaultView::UnsupportedFamilyFeature(feature, family) => ErrorView::UnsupportedFeature(
            feature + " (RAR "@ + family + ")"@,
        ),
        RarFaultView::UnsupportedCompression(
            family,
            unpack,
            method,
        ) => ErrorView::UnsupportedFeature(
            "RAR "@ + family + " compression (unpack v"@ + decimal(unpack as nat) + ", method 0x"@
                + hex(method as nat, 2) + ")"@,
        ),
        RarFaultView::UnsupportedEncryption(family, unpack) => ErrorView::UnsupportedFeature(
            "RAR "@ + family + " encryption (unpack v"@ + decimal(unpack as nat) + ")"@,
        ),
        RarFaultView::BufferedDecodeLimit => ErrorView::UnsupportedFeature(
            "RAR 5 filtered member exceeds the buffered decode limit"@,
        ),
        RarFaultView::Io(m) => ErrorView::Io(m),
        RarFaultView::Cancelled => ErrorView::Cancelled,
        RarFaultView::CrcMismatch(x, y) => ErrorView::CorruptArchive(
            mismatch_text("RAR checksum"@, x as nat, y as nat, 4),
        ),
        RarFaultView::Crc32Mismatch(x, y) => ErrorView::CorruptArchive(
            mismatch_text("RAR CRC32"@, x as nat, y as nat, 8),
        ),
        RarFaultView::HashMismatch => ErrorView::CorruptArchive("RAR hash mismatch"@),
        RarFaultView::Codec(m) => ErrorView::CorruptArchive("RAR codec: "@ + m),
        RarFaultView::Rar3Recovery(m) => ErrorView::CorruptArchive("RAR 3 recovery: "@ + m),
        RarFaultView::Rar5Recovery(m) => ErrorView::CorruptArchive("RAR 5 recovery: "@ + m),
        RarFaultView::Rar20Crypto(m) => ErrorView::CorruptArchive("RAR 2.0 crypto: "@ + m),
        RarFaultView::Rar30Crypto(m) => ErrorView::CorruptArchive("RAR 3.0 crypto: "@ + m),
        RarFaultView::Rar50Crypto(m) => ErrorView::CorruptArchive("RAR 5 crypto: "@ + m),
        RarFaultView::Other(m) => ErrorView::UnsupportedFeature("RAR: "@ + m),
    }
}

/// What is said of a checksum of the given number of digits.
fn mismatch_message(what: &str, expected: u32, actual: u32, digits: u32) -> (r: String)
    ensures
        r@ == mismatch_text(what@, expected as nat, actual as nat, digits as nat),
{
    let mut m = concat2(what, " mismatch: expected 0x");
    m.append(hex_text(expected, digits).as_str());
    m.append(", got 0x");
    m.append(hex_text(actual, digits).as_str());
    m
}

/// A feature and what lacks it.
fn lacking(feature: &str, owner: &str) -> (r: String)
    ensures
        r@ == feature@ + " (RAR "@ + owner@ + ")"@,
{
    let mut m = concat3(feature, " (RAR ", owner);
    m.append(")");
    m
}

/// Map a fault of the rars crate onto the library's errors.
pub fn map_rar_error(f: RarFault) -> (r: Error)
    ensures
        r@ == rar_error(f@),
{
    match f {
        RarFault::NeedPassword => Error::PasswordRequired,
        RarFault::WrongPasswordOrCorruptData => Error::WrongPassword,
        RarFault::BadPassword => Error::WrongPassword,
        RarFault::UnsupportedSignature => Error::no_format("bad RAR signature"),
        RarFault::TooShort => Error::no_format("bad RAR signature"),
        RarFault::InvalidHeader(m) => Error::CorruptArchive(concat2("RAR: ", m.as_str())),
        RarFault::UnsupportedVersion(v) => Error::UnsupportedFeature(
            concat2("RAR version ", v.as_str()),
        ),
        RarFault::UnsupportedFeature(feature, version) => Error::UnsupportedFeature(
            lacking(feature.as_str(), version.as_str()),
        ),
        RarFault::UnsupportedFamilyFeature(feature, family) => Error::UnsupportedFeature(
            lacking(feature.as_str(), family.as_str()),
        ),
        RarFault::UnsupportedCompression(family, unpack, method) => {
            let mut m = concat3("RAR ", family.as_str(), " compression (unpack v");
            m.append(decimal_text(unpack as u64).as_str());
            m.append(", method 0x");
            m.append(hex_text(method as u32, 2).as_str());
            m.append(")");
            Error::UnsupportedFeature(m)
        },
        RarFault::UnsupportedEncryption(family, unpack) => {
            let mut m = concat3("RAR ", family.as_str(), " encryption (unpack v");
            m.append(decimal_text(unpack as u64).as_str());
            m.append(")");
            Error::UnsupportedFeature(m)
        },
        RarFault::BufferedDecodeLimit => Error::no_feature(
            "RAR 5 filtered member exceeds the buffered decode limit",
        ),
        RarFault::Io(m) => Error::Io(m),
        RarFault::Cancelled => Error::Cancelled,
        RarFault::CrcMismatch(x, y) => Error::CorruptArchive(
            mismatch_message("RAR checksum", x as u32, y as u32, 4),
        ),
        RarFault::Crc32Mismatch(x, y) => Error::CorruptArchive(
            mismatch_message("RAR CRC32", x, y, 8),
        ),
        RarFault::HashMismatch => Error::corrupt("RAR hash mismatch"),
        RarFault::Codec(m) => Error::CorruptArchive(concat2("RAR codec: ", m.as_str())),
        RarFault::Rar3Recovery(m) => Error::CorruptArchive(
            concat2("RAR 3 recovery: ", m.as_str()),
        ),
        RarFault::Rar5Recovery(m) => Error::CorruptArchive(
            concat2("RAR 5 recovery: ", m.as_str()),
        ),
        RarFault::Rar20Crypto(m) => Error::CorruptArchive(concat2("RAR 2.0 crypto: ", m.as_str())),
        RarFault::Rar30Crypto(m) => Error::CorruptArchive(concat2("RAR 3.0 crypto: ", m.as_str())),
        RarFault::Rar50Crypto(m) => Error::CorruptArchive(concat2("RAR 5 crypto: ", m.as_str())),
        RarFault::Other(m) => Error::UnsupportedFeature(concat2("RAR: ", m.as_str())),
    }
}

/// Whether the member holds content of its own.
pub open spec fn is_payload(m: RarMemberView) -> bool {
    !m.is_directory && !m.is_redirection
}

/// The last member that holds content.
pub open spec fn last_payload(ms: Seq<RarMemberView>) -> Option<usize>
    decreases ms.len(),
{
    if ms.len() == 0 {
        None
    } else if is_payload(ms.last()) {
        Some((ms.len() - 1) as usize)
    } else {
        last_payload(ms.drop_last())
    }
}

/// The first member that holds content under a name.
pub open spec fn first_payload(ms: Seq<RarMemberView>, name: Seq<u8>) -> Option<usize>
    decreases ms.len(),
{
    if ms.len() == 0 {
        None
    } else {
        match first_payload(ms.drop_last(), name) {
            Some(i) => Some(i),
            None => if is_payload(ms.last()) && ms.last().name == name {
                Some((ms.len() - 1) as usize)
            } else {
                None
            },
        }
    }
}

/// The entry for a member, before its content has been looked at. Redirections (symbolic links,
/// hard links, file copies) are listed as symbolic links, which are never materialized.
pub open spec fn rar_entry(m: RarMemberView, path: Seq<char>) -> EntryView {
    EntryView {
        path,
        raw_name: m.name,
        kind: if m.is_directory {
            NodeKind::Dir
        } else if m.is_redirection {
            NodeKind::Symlink
        } else {
            NodeKind::File
        },
        uncompressed_size: if m.is_directory {
            None
        } else {
            Some(m.unpacked_size)
        },
        compressed_size: if m.is_directory {
            None
        } else {
            Some(m.packed_size)
        },
        mtime: match m.file_time {
            Some(dos) => civil_timestamp(dos_value_civil(dos)),
            None => None,
        },
        mode: None,
        crc: m.crc,
        encrypted: m.is_encrypted,
        comment: None,
    }
}

/// An open RAR archive as a mathematical value.
pub struct RarModel {
    pub bytes: Seq<u8>,
    pub password: Option<Seq<u8>>,
    pub members: Seq<RarMemberView>,
    pub solid: bool,
    pub entries: Seq<EntryView>,
    /// The number of each entry's member.
    pub slots: Seq<int>,
}

/// A listing with, for each entry, the number of its member.
pub struct RarListing {
    pub entries: Seq<EntryView>,
    pub slots: Seq<int>,
}

/// The listing of the members. Members whose path is refused (e.g. `../evil.txt`) are left out.
pub open spec fn rar_listing(ms: Seq<RarMemberView>, enc: FilenameEncoding) -> RarListing
    decreases ms.len(),
{
    if ms.len() == 0 {
        RarListing { entries: Seq::empty(), slots: Seq::empty() }
    } else {
        let front = rar_listing(ms.drop_last(), enc);
        let m = ms.last();
        match normal_path(shown_name(m.name, enc, Utf8Flag(m.is_rar5))) {
            Ok(path) => RarListing {
                entries: front.entries.push(rar_entry(m, path)),
                slots: front.slots.push(ms.len() - 1),
            },
            Err(_) => front,
        }
    }
}

/// What is said where a member is split across volumes.
pub open spec fn split_error_text() -> Seq<char> {
    "multivolume RAR extraction requires loading all volumes"@
}

/// The content of one member of an archive that is not solid.
pub open spec fn lone_content(
    bytes: Seq<u8>,
    password: Option<Seq<u8>>,
    ms: Seq<RarMemberView>,
    i: int,
) -> std::result::Result<Seq<u8>, ErrorView> {
    if ms[i].is_split.0 || ms[i].is_split.1 {
        Err(ErrorView::UnsupportedFeature(split_error_text()))
    } else {
        match rar_content(bytes, password, i) {
            Err(e) => Err(rar_error(rar_fault(e))),
            Ok(Some(b)) => Ok(b),
            Ok(None) => Err(
                ErrorView::CorruptArchive("no such entry in rar: "@ + decimal(i as nat)),
            ),
        }
    }
}

/// The content of a member of a solid archive: the whole chain is decoded, and the first member
/// with the name wins. Where the name is that of no member with content, the chain is decoded all
/// the same, and its error comes first.
pub open spec fn chain_content(
    bytes: Seq<u8>,
    password: Option<Seq<u8>>,
    ms: Seq<RarMemberView>,
    name: Seq<u8>,
) -> std::result::Result<Seq<u8>, ErrorView> {
    match (first_payload(ms, name), last_payload(ms)) {
        (Some(i), Some(last)) => match rar_chain(bytes, password, seq![i, last]) {
            Err(e) => Err(rar_error(rar_fault(e))),
            Ok(contents) => match contents[0] {
                Some(b) => Ok(b),
                None => Err(ErrorView::CorruptArchive(chain_miss_text(name))),
            },
        },
        (None, Some(last)) => match rar_chain(bytes, password, seq![last]) {
            Err(e) => Err(rar_error(rar_fault(e))),
            Ok(_) => Err(ErrorView::CorruptArchive(chain_miss_text(name))),
        },
        _ => Err(ErrorView::CorruptArchive(chain_miss_text(name))),
    }
}

/// What is said where a name does not occur in a solid chain.
pub open spec fn chain_miss_text(name: Seq<u8>) -> Seq<char> {
    "rar solid entry not found: "@ + ("["@ + byte_list(name) + "]"@)
}

/// Whether the content of an entry is looked at when the archive is opened.
pub open spec fn rar_sniffed(e: EntryView) -> bool {
    &&& e.kind == NodeKind::File
    &&& !e.encrypted
    &&& e.uncompressed_size is Some ==> e.uncompressed_size->0 <= SNIFF_ENTRY_CAP
}

/// The entry, marked as an archive where its content begins as one does.
pub open spec fn marked_by(e: EntryView, content: Seq<u8>) -> EntryView {
    if is_nested_archive(head_of(content)) {
        EntryView { kind: NodeKind::Archive, ..e }
    } else {
        e
    }
}

/// Entries of an archive that is not solid, each marked by its own content. Content that cannot be
/// read leaves the entry a file.
pub open spec fn lone_marked(
    bytes: Seq<u8>,
    password: Option<Seq<u8>>,
    ms: Seq<RarMemberView>,
    l: RarListing,
) -> Seq<EntryView> {
    Seq::new(
        l.entries.len(),
        |k: int|
            if rar_sniffed(l.entries[k]) {
                match lone_content(bytes, password, ms, l.slots[k]) {
                    Ok(content) => marked_by(l.entries[k], content),
                    Err(_) => l.entries[k],
                }
            } else {
                l.entries[k]
            },
    )
}

/// The members of the first `n` entries whose content is looked at.
pub open spec fn sniffed_slots(l: RarListing, n: int) -> Seq<usize>
    decreases n,
{
    if n <= 0 {
        Seq::empty()
    } else if rar_sniffed(l.entries[n - 1]) {
        sniffed_slots(l, n - 1).push(l.slots[n - 1] as usize)
    } else {
        sniffed_slots(l, n - 1)
    }
}

/// The members that are decoded to mark the entries of a solid archive: those looked at, and the
/// last one, so that the whole chain is decoded.
pub open spec fn sniffed_chain(ms: Seq<RarMemberView>, l: RarListing) -> Seq<usize> {
    match last_payload(ms) {
        Some(last) => sniffed_slots(l, l.entries.len() as int).push(last),
        None => sniffed_slots(l, l.entries.len() as int),
    }
}

/// Entries of a solid archive, marked by the contents of one pass over the chain.
pub open spec fn chain_marked(l: RarListing, contents: Seq<Option<Seq<u8>>>) -> Seq<EntryView> {
    Seq::new(
        l.entries.len(),
        |k: int|
            if rar_sniffed(l.entries[k]) {
                match contents[sniffed_slots(l, k).len() as int] {
                    Some(content) => marked_by(l.entries[k], content),
                    None => l.entries[k],
                }
            } else {
                l.entries[k]
            },
    )
}

/// The entries with those that hold an archive marked. A solid archive is only looked at where it
/// is small, and not at all where its chain cannot be decoded.
pub open spec fn rar_marked(
    bytes: Seq<u8>,
    password: Option<Seq<u8>>,
    ms: Seq<RarMemberView>,
    l: RarListing,
) -> Seq<EntryView> {
    if !rar_solid(bytes, password) {
        lone_marked(bytes, password, ms, l)
    } else if sniffed_slots(l, l.entries.len() as int).len() == 0 || bytes.len()
        > SOLID_SNIFF_ARCHIVE_CAP {
        l.entries
    } else {
        match rar_chain(bytes, password, sniffed_chain(ms, l)) {
            Ok(contents) => chain_marked(l, contents),
            Err(_) => l.entries,
        }
    }
}

/// The archive that the bytes are, or why they cannot be opened.
pub open spec fn rar_model(bytes: Seq<u8>, o: OptionsView) -> std::result::Result<
    RarModel,
    ErrorView,
> {
    match rar_refusal(bytes, o.password) {
        Some(e) => Err(rar_error(rar_fault(e))),
        None => {
            let ms = rar_members(bytes, o.password);
            let l = rar_listing(ms, o.encoding);
            Ok(
                RarModel {
                    bytes,
                    password: o.password,
                    members: ms,
                    solid: rar_solid(bytes, o.password),
                    entries: rar_marked(bytes, o.password, ms, l),
                    slots: l.slots,
                },
            )
        },
    }
}

/// The bytes of an entry; a directory has none.
pub open spec fn rar_read(m: RarModel, e: EntryView) -> std::result::Result<Seq<u8>, ErrorView> {
    if e.kind == NodeKind::Dir {
        Ok(Seq::empty())
    } else {
        match last_index(m.entries, e.path) {
            None => Err(ErrorView::CorruptArchive(no_such_entry("rar"@, e.path))),
            Some(i) => if m.solid {
                chain_content(m.bytes, m.password, m.members, m.entries[i].raw_name)
            } else {
                lone_content(m.bytes, m.password, m.members, m.slots[i])
            },
        }
    }
}

/// What can be done with a RAR archive: a solid one has no random access, and an encrypted one
/// needs a password where none was given.
pub open spec fn rar_abilities(m: RarModel) -> Capabilities {
    Capabilities {
        random_access: !m.solid,
        encrypted: any_encrypted(m.entries),
        needs_password: any_encrypted(m.entries) && m.password is None,
        can_write: false,
    }
}

/// An open RAR archive.
pub struct RarArchive {
    handle: RarsArchive,
    password: Option<Secret>,
    members: Vec<RarMember>,
    solid: bool,
    entries: Vec<EntryMeta>,
    slots: Vec<usize>,
    encrypted: bool,
}

impl View for RarArchive {
    type V = RarModel;

    closed spec fn view(&self) -> RarModel {
        RarModel {
            bytes: rar_bytes(self.handle),
            password: opt_secret(self.password),
            members: member_views(self.members@),
            solid: self.solid,
            entries: views(self.entries@),
            slots: positions(self.slots@),
        }
    }
}

/// The entry for a member.
fn entry_of(m: &RarMember, path: EntryPath) -> (e: EntryMeta)
    ensures
        e@ == rar_entry(m@, path@),
{
    let raw_name = m.name.clone();
    assert(raw_name@ =~= m.name@);
    EntryMeta {
        path,
        raw_name,
        kind: if m.is_directory {
            NodeKind::Dir
        } else if m.is_redirection {
            NodeKind::Symlink
        } else {
            NodeKind::File
        },
        uncompressed_size: if m.is_directory {
            None
        } else {
            Some(m.unpacked_size)
        },
        compressed_size: if m.is_directory {
            None
        } else {
            Some(m.packed_size)
        },
        mtime: match m.file_time {
            Some(dos) => dos_time_to_system_time(dos),
            None => None,
        },
        mode: None,
        crc: m.crc,
        encrypted: m.is_encrypted,
        comment: None,
    }
}

/// Every slot is the number of a member.
pub open spec fn slots_in_range(slots: Seq<int>, n: int) -> bool {
    forall|k: int| 0 <= k < slots.len() ==> 0 <= #[trigger] slots[k] < n
}

/// The listing of the members.
fn list_entries(members: &Vec<RarMember>, enc: FilenameEncoding) -> (r: (
    Vec<EntryMeta>,
    Vec<usize>,
))
    ensures
        rar_listing(member_views(members@), enc) == (RarListing {
            entries: views(r.0@),
            slots: positions(r.1@),
        }),
        r.0@.len() == r.1@.len(),
        slots_in_range(positions(r.1@), members@.len() as int),
{
    let ghost ms = member_views(members@);
    let mut entries: Vec<EntryMeta> = Vec::new();
    let mut slots: Vec<usize> = Vec::new();
    let mut i: usize = 0;
    assert(views(entries@) =~= Seq::<EntryView>::empty());
    assert(positions(slots@) =~= Seq::<int>::empty());
    while i < members.len()
        invariant
            i <= members@.len(),
            ms == member_views(members@),
            entries@.len() == slots@.len(),
            slots_in_range(positions(slots@), i as int),
            rar_listing(ms.take(i as int), enc) == (RarListing {
                entries: views(entries@),
                slots: positions(slots@),
            }),
        decreases members@.len() - i,
    {
        let member = &members[i];
        assert(ms.take(i + 1).drop_last() =~= ms.take(i as int));
        assert(ms.take(i + 1).last() == member@);
        match EntryPath::new(
            decode_entry_name(member.name.as_slice(), enc, Utf8Flag(member.is_rar5)).as_str(),
        ) {
            Ok(path) => {
                let ghost (es, ss) = (entries@, slots@);
                let entry = entry_of(member, path);
                entries.push(entry);
                slots.push(i);
                assert(views(entries@) =~= views(es).push(entry@));
                assert(positions(slots@) =~= positions(ss).push(i as int));
            },
            // A path that cannot be extracted safely is not listed.
            Err(_) => {},
        }
        i += 1;
    }
    assert(ms.take(i as int) =~= ms);
    (entries, slots)
}

/// The last member that holds content.
fn find_last_payload(members: &Vec<RarMember>) -> (r: Option<usize>)
    ensures
        r == last_payload(member_views(members@)),
{
    let ghost ms = member_views(members@);
    let mut n: usize = members.len();
    assert(ms.take(n as int) =~= ms);
    while n > 0
        invariant
            n <= members@.len(),
            ms == member_views(members@),
            last_payload(ms.take(n as int)) == last_payload(ms),
        decreases n,
    {
        assert(ms.take(n as int).drop_last() =~= ms.take(n - 1));
        assert(ms.take(n as int).last() == members@[n - 1]@);
        if !members[n - 1].is_directory && !members[n - 1].is_redirection {
            return Some(n - 1);
        }
        n -= 1;
    }
    None
}

/// Once a name has been found, it stays found.
proof fn first_payload_stays(ms: Seq<RarMemberView>, name: Seq<u8>, i: int, n: int)
    requires
        0 <= i <= n <= ms.len(),
        first_payload(ms.take(i), name) is Some,
    ensures
        first_payload(ms.take(n), name) == first_payload(ms.take(i), name),
    decreases n - i,
{
    if i < n {
        first_payload_stays(ms, name, i, n - 1);
        assert(ms.take(n).drop_last() =~= ms.take(n - 1));
    }
}

/// The first member that holds content under a name.
fn find_first_payload(members: &Vec<RarMember>, name: &[u8]) -> (r: Option<usize>)
    ensures
        r == first_payload(member_views(members@), name@),
{
    let ghost ms = member_views(members@);
    let mut i: usize = 0;
    while i < members.len()
        invariant
            i <= members@.len(),
            ms == member_views(members@),
            first_payload(ms.take(i as int), name@) is None,
        decreases members@.len() - i,
    {
        let member = &members[i];
        assert(ms.take(i + 1).drop_last() =~= ms.take(i as int));
        assert(ms.take(i + 1).last() == member@);
        if !member.is_directory && !member.is_redirection && same_bytes(
            member.name.as_slice(),
            name,
        ) {
            proof {
                first_payload_stays(ms, name@, i + 1, ms.len() as int);
                assert(ms.take(ms.len() as int) =~= ms);
            }
            return Some(i);
        }
        i += 1;
    }
    assert(ms.take(i as int) =~= ms);
    None
}

/// Decode one member of an archive that is not solid.
fn read_lone(
    handle: &RarsArchive,
    password: &Option<Secret>,
    members: &Vec<RarMember>,
    i: usize,
) -> (r: Result<Vec<u8>>)
    requires
        i < members@.len(),
        opt_secret(*password) == rar_password(*handle),
    ensures
        ({
            let want = lone_content(
                rar_bytes(*handle),
                opt_secret(*password),
                member_views(members@),
                i as int,
            );
            match r {
                Ok(b) => want == Ok::<Seq<u8>, ErrorView>(b@),
                Err(e) => want == Err::<Seq<u8>, ErrorView>(e@),
            }
        }),
{
    assert(member_views(members@)[i as int] == members@[i as int]@);
    if members[i].is_split.0 || members[i].is_split.1 {
        return Err(Error::no_feature("multivolume RAR extraction requires loading all volumes"));
    }
    match read_member(handle, i, password) {
        Ok(Some(b)) => Ok(b),
        Ok(None) => Err(
            Error::CorruptArchive(
                concat2("no such entry in rar: ", decimal_text(i as u64).as_str()),
            ),
        ),
        Err(e) => Err(map_rar_error(fault_of(&e))),
    }
}

/// The error where a name does not occur in a solid chain.
fn chain_miss(name: &[u8]) -> (r: Error)
    ensures
        r@ == ErrorView::CorruptArchive(chain_miss_text(name@)),
{
    Error::CorruptArchive(concat2("rar solid entry not found: ", byte_list_text(name).as_str()))
}

/// Decode a member of a solid archive by decoding the whole chain.
fn read_solid(
    handle: &RarsArchive,
    password: &Option<Secret>,
    members: &Vec<RarMember>,
    name: &[u8],
) -> (r: Result<Vec<u8>>)
    requires
        opt_secret(*password) == rar_password(*handle),
    ensures
        ({
            let want = chain_content(
                rar_bytes(*handle),
                opt_secret(*password),
                member_views(members@),
                name@,
            );
            match r {
                Ok(b) => want == Ok::<Seq<u8>, ErrorView>(b@),
                Err(e) => want == Err::<Seq<u8>, ErrorView>(e@),
            }
        }),
{
    let last = match find_last_payload(members) {
        Some(last) => last,
        None => return Err(chain_miss(name)),
    };
    let mut wanted: Vec<usize> = Vec::new();
    let i = match find_first_payload(members, name) {
        Some(i) => i,
        None => {
            wanted.push(last);
            assert(wanted@ =~= seq![last]);
            return match read_chain(handle, wanted.as_slice(), password) {
                Ok(_) => Err(chain_miss(name)),
                Err(e) => Err(map_rar_error(fault_of(&e))),
            };
        },
    };
    wanted.push(i);
    wanted.push(last);
    assert(wanted@ =~= seq![i, last]);
    match read_chain(handle, wanted.as_slice(), password) {
        Ok(contents) => {
            let mut contents = contents;
            let ghost cs = opt_contents(contents@);
            assert(contents@.len() == 2);
            assert(cs[0] == match contents@[0] {
                Some(b) => Some(b@),
                None => None,
            });
            match contents.remove(0) {
                Some(b) => Ok(b),
                None => Err(chain_miss(name)),
            }
        },
        Err(e) => Err(map_rar_error(fault_of(&e))),
    }
}

/// Whether the content of an entry is looked at when the archive is opened.
fn is_sniffed(e: &EntryMeta) -> (r: bool)
    ensures
        r == rar_sniffed(e@),
{
    let fits = match e.uncompressed_size {
        Some(size) => size <= SNIFF_ENTRY_CAP,
        None => true,
    };
    e.kind == NodeKind::File && !e.encrypted && fits
}

/// The entry, marked as an archive where its content begins as one does.
fn mark(e: &EntryMeta, content: &[u8]) -> (r: EntryMeta)
    ensures
        r@ == marked_by(e@, content@),
{
    let mut r = e.clone();
    if looks_like_nested_archive(head_slice(content)) {
        r.kind = NodeKind::Archive;
    }
    r
}

/// Mark the entries of an archive that is not solid.
fn mark_lone(
    handle: &RarsArchive,
    password: &Option<Secret>,
    members: &Vec<RarMember>,
    entries: &mut Vec<EntryMeta>,
    slots: &Vec<usize>,
)
    requires
        opt_secret(*password) == rar_password(*handle),
        old(entries)@.len() == slots@.len(),
        slots_in_range(positions(slots@), members@.len() as int),
    ensures
        views(final(entries)@) == lone_marked(
            rar_bytes(*handle),
            opt_secret(*password),
            member_views(members@),
            RarListing { entries: views(old(entries)@), slots: positions(slots@) },
        ),
{
    let ghost l = RarListing { entries: views(entries@), slots: positions(slots@) };
    let ghost want = lone_marked(
        rar_bytes(*handle),
        opt_secret(*password),
        member_views(members@),
        l,
    );
    let mut k: usize = 0;
    while k < slots.len()
        invariant
            k <= slots@.len(),
            entries@.len() == slots@.len(),
            opt_secret(*password) == rar_password(*handle),
            slots_in_range(positions(slots@), members@.len() as int),
            l.entries.len() == slots@.len(),
            l.slots == positions(slots@),
            want == lone_marked(
                rar_bytes(*handle),
                opt_secret(*password),
                member_views(members@),
                l,
            ),
            forall|j: int| 0 <= j < k ==> (#[trigger] entries@[j])@ == want[j],
            forall|j: int| k <= j < slots@.len() ==> (#[trigger] entries@[j])@ == l.entries[j],
        decreases slots@.len() - k,
    {
        assert(entries@[k as int]@ == l.entries[k as int]);
        assert(positions(slots@)[k as int] == slots@[k as int]);
        if is_sniffed(&entries[k]) {
            match read_lone(handle, password, members, slots[k]) {
                Ok(content) => {
                    let marked = mark(&entries[k], content.as_slice());
                    entries.set(k, marked);
                },
                Err(_) => {},
            }
        }
        assert(entries@[k as int]@ == want[k as int]);
        k += 1;
    }
    assert(views(entries@) =~= want);
}

/// The members of the entries whose content is looked at.
fn collect_sniffed(entries: &Vec<EntryMeta>, slots: &Vec<usize>) -> (r: Vec<usize>)
    requires
        entries@.len() == slots@.len(),
    ensures
        r@ == sniffed_slots(
            RarListing { entries: views(entries@), slots: positions(slots@) },
            entries@.len() as int,
        ),
{
    let ghost l = RarListing { entries: views(entries@), slots: positions(slots@) };
    let mut out: Vec<usize> = Vec::new();
    let mut k: usize = 0;
    while k < entries.len()
        invariant
            k <= entries@.len(),
            entries@.len() == slots@.len(),
            l == (RarListing { entries: views(entries@), slots: positions(slots@) }),
            out@ == sniffed_slots(l, k as int),
        decreases entries@.len() - k,
    {
        assert(l.entries[k as int] == entries@[k as int]@);
        assert(l.slots[k as int] == slots@[k as int]);
        if is_sniffed(&entries[k]) {
            out.push(slots[k]);
        }
        k += 1;
    }
    out
}

/// Fewer entries give fewer members to look at.
proof fn sniffed_slots_grow(l: RarListing, k: int, n: int)
    requires
        0 <= k <= n,
    ensures
        sniffed_slots(l, k).len() <= sniffed_slots(l, n).len(),
        k < n && rar_sniffed(l.entries[k]) ==> sniffed_slots(l, k).len() < sniffed_slots(l, n).len(),
    decreases n - k,
{
    if k < n {
        sniffed_slots_grow(l, k, n - 1);
    }
}

/// Mark the entries of a solid archive by the contents of one pass over the chain.
fn mark_chain(entries: &mut Vec<EntryMeta>, contents: &Vec<Option<Vec<u8>>>, l: Ghost<RarListing>)
    requires
        views(old(entries)@) == l@.entries,
        sniffed_slots(l@, l@.entries.len() as int).len() <= contents@.len(),
    ensures
        views(final(entries)@) == chain_marked(l@, opt_contents(contents@)),
{
    let ghost want = chain_marked(l@, opt_contents(contents@));
    let ghost n = l@.entries.len() as int;
    let count: usize = contents.len();
    let mut k: usize = 0;
    let mut at: usize = 0;
    assert forall|j: int| 0 <= j < n implies (#[trigger] entries@[j])@ == l@.entries[j] by {
        assert(views(entries@)[j] == entries@[j]@);
    }
    while k < entries.len()
        invariant
            k <= entries@.len(),
            entries@.len() == n,
            n == l@.entries.len(),
            count == contents@.len(),
            want == chain_marked(l@, opt_contents(contents@)),
            sniffed_slots(l@, n).len() <= count,
            at == sniffed_slots(l@, k as int).len(),
            forall|j: int| 0 <= j < k ==> (#[trigger] entries@[j])@ == want[j],
            forall|j: int| k <= j < n ==> (#[trigger] entries@[j])@ == l@.entries[j],
        decreases entries@.len() - k,
    {
        assert(entries@[k as int]@ == l@.entries[k as int]);
        if is_sniffed(&entries[k]) {
            proof {
                sniffed_slots_grow(l@, k as int, n);
                assert(opt_contents(contents@)[at as int] == match contents@[at as int] {
                    Some(b) => Some(b@),
                    None => None,
                });
            }
            match &contents[at] {
                Some(content) => {
                    let marked = mark(&entries[k], content.as_slice());
                    entries.set(k, marked);
                },
                None => {},
            }
            at += 1;
        }
        assert(entries@[k as int]@ == want[k as int]);
        k += 1;
    }
    assert(views(entries@) =~= want);
}

/// Mark the entries that hold an archive.
fn mark_archives(
    handle: &RarsArchive,
    password: &Option<Secret>,
    members: &Vec<RarMember>,
    solid: bool,
    total_size: u64,
    entries: &mut Vec<EntryMeta>,
    slots: &Vec<usize>,
)
    requires
        opt_secret(*password) == rar_password(*handle),
        solid == rar_solid(rar_bytes(*handle), opt_secret(*password)),
        total_size == rar_bytes(*handle).len(),
        old(entries)@.len() == slots@.len(),
        slots_in_range(positions(slots@), members@.len() as int),
    ensures
        views(final(entries)@) == rar_marked(
            rar_bytes(*handle),
            opt_secret(*password),
            member_views(members@),
            RarListing { entries: views(old(entries)@), slots: positions(slots@) },
        ),
{
    let ghost l = RarListing { entries: views(entries@), slots: positions(slots@) };
    if !solid {
        mark_lone(handle, password, members, entries, slots);
        return;
    }
    let mut wanted = collect_sniffed(entries, slots);
    if wanted.len() == 0 || total_size > SOLID_SNIFF_ARCHIVE_CAP {
        return;
    }
    if let Some(last) = find_last_payload(members) {
        wanted.push(last);
    }
    assert(wanted@ =~= sniffed_chain(member_views(members@), l));
    match read_chain(handle, wanted.as_slice(), password) {
        Ok(contents) => mark_chain(entries, &contents, Ghost(l)),
        Err(_) => {},
    }
}

/// Marking changes no entry's encryption, and neither how many there are.
proof fn rar_marked_keeps(
    bytes: Seq<u8>,
    password: Option<Seq<u8>>,
    ms: Seq<RarMemberView>,
    l: RarListing,
)
    ensures
        rar_marked(bytes, password, ms, l).len() == l.entries.len(),
        forall|k: int|
            0 <= k < l.entries.len() ==> (#[trigger] rar_marked(bytes, password, ms, l)[k]).encrypted
                == l.entries[k].encrypted,
{
}

impl RarArchive {
    /// The parsed archive belongs to the password, every entry has a member, and the flag says
    /// whether an entry is encrypted.
    #[verifier::type_invariant]
    closed spec fn inv(self) -> bool {
        &&& opt_secret(self.password) == rar_password(self.handle)
        &&& self.entries@.len() == self.slots@.len()
        &&& slots_in_range(positions(self.slots@), self.members@.len() as int)
        &&& self.encrypted == any_encrypted(views(self.entries@))
    }

    /// Parse the archive, list its members and mark those that hold an archive.
    pub fn open(bytes: Vec<u8>, opts: &OpenOptions) -> (r: Result<Self>)
        ensures
            match r {
                Ok(a) => rar_model(bytes@, opts@) == Ok::<RarModel, ErrorView>(a@),
                Err(e) => rar_model(bytes@, opts@) == Err::<RarModel, ErrorView>(e@),
            },
    {
        let password = clone_secret(&opts.password);
        let total_size: u64 = bytes.len() as u64;
        let handle = match parse_rar(bytes, &password) {
            Ok(handle) => handle,
            Err(e) => return Err(map_rar_error(fault_of(&e))),
        };
        let members = list_members(&handle);
        let solid = main_is_solid(&handle);
        let (mut entries, slots) = list_entries(&members, opts.encoding);
        mark_archives(&handle, &password, &members, solid, total_size, &mut entries, &slots);
        let encrypted = has_encrypted(&entries);
        proof {
            rar_marked_keeps(
                bytes@,
                opts@.password,
                member_views(members@),
                rar_listing(member_views(members@), opts.encoding),
            );
        }
        Ok(RarArchive { handle, password, members, solid, entries, slots, encrypted })
    }

    /// The listing.
    pub fn entries(&self) -> (r: &Vec<EntryMeta>)
        ensures
            views(r@) == self@.entries,
    {
        &self.entries
    }

    /// Read a file entry fully into memory.
    pub fn read_entry_bytes(&self, meta: &EntryMeta) -> (r: Result<Vec<u8>>)
        ensures
            match r {
                Ok(b) => rar_read(self@, meta@) == Ok::<Seq<u8>, ErrorView>(b@),
                Err(e) => rar_read(self@, meta@) == Err::<Seq<u8>, ErrorView>(e@),
            },
    {
        proof {
            use_type_invariant(self);
        }
        if meta.kind == NodeKind::Dir {
            return Ok(Vec::new());
        }
        let i = match index_of(&self.entries, &meta.path) {
            Some(i) => i,
            None => return Err(missing_entry("rar", &meta.path)),
        };
        if self.solid {
            read_solid(
                &self.handle,
                &self.password,
                &self.members,
                self.entries[i].raw_name.as_slice(),
            )
        } else {
            assert(positions(self.slots@)[i as int] == self.slots@[i as int]);
            read_lone(&self.handle, &self.password, &self.members, self.slots[i])
        }
    }

    /// Query the capabilities of this archive.
    pub fn capabilities(&self) -> (r: Capabilities)
        ensures
            r == rar_abilities(self@),
    {
        proof {
            use_type_invariant(self);
        }
        Capabilities {
            random_access: !self.solid,
            encrypted: self.encrypted,
            needs_password: self.encrypted && self.password.is_none(),
            can_write: false,
        }
    }
}

} // verus!
