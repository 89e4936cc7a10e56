//! Filename encoding detection and decoding.
//!
//! Archive entry names may be encoded in legacy, non-UTF-8 codepages (zip CP437, Chinese GBK,
//! Japanese Shift-JIS, Traditional Chinese Big5, ...).

use vstd::prelude::*;
use vstd::string::*;
use vstd::utf8::*;

use crate::error::{Error, ErrorView, Result};
use crate::text::{concat2, lossy_utf8, same_text, utf8_fault, utf8_lossy_text, utf8_text};

verus! {

/// A legacy codepage used to decode non-UTF-8 entry names.
#[derive(Debug, Clone, Copy, PartialEq, Eq, Structural)]
pub enum Codepage {
    /// UTF-8.
    Utf8,
    /// Simplified Chinese GBK.
    Gbk,
    /// Japanese Shift-JIS.
    ShiftJis,
    /// Traditional Chinese Big5.
    Big5,
    /// DOS / zip default CP437.
    ///
    /// Not part of the WHATWG encoding set: decoding returns [`Error::UnsupportedFeature`].
    Cp437,
}

/// Filename decoding strategy.
#[derive(Debug, Clone, Copy, PartialEq, Eq, Structural)]
pub enum FilenameEncoding {
    /// Prefer the format's UTF-8 flag or valid UTF-8, else fall back to the default legacy
    /// codepage (GBK). The zip reader additionally detects an archive-wide codepage.
    Auto,
    /// Force a specific codepage regardless of flags.
    Forced(Codepage),
}

impl Default for FilenameEncoding {
    fn default() -> (r: Self)
        ensures
            r == FilenameEncoding::Auto,
    {
        FilenameEncoding::Auto
    }
}

/// Whether the format signalled that a name is UTF-8 (e.g. the zip EFS bit).
#[derive(Debug, Clone, Copy, PartialEq, Eq, Structural)]
pub struct Utf8Flag(pub bool);

/// Whether a name is short enough for a codepage decoder to allocate its output buffer: three bytes
/// for one and a few more, and twice as many when the buffer grows, fit in the address space.
pub open spec fn decodable(raw: Seq<u8>) -> bool {
    raw.len() <= usize::MAX / 12 - 16
}

/// What the GBK decoder makes of the bytes.
pub uninterp spec fn gbk_text(raw: Seq<u8>) -> Seq<char>;

/// What the Shift-JIS decoder makes of the bytes.
pub uninterp spec fn shift_jis_text(raw: Seq<u8>) -> Seq<char>;

/// What the Big5 decoder makes of the bytes.
pub uninterp spec fn big5_text(raw: Seq<u8>) -> Seq<char>;

/// The name of the encoding that the detector guesses for the bytes.
pub uninterp spec fn guessed_encoding(bytes: Seq<u8>) -> Seq<char>;

/// Decode GBK.
///
/// Trusted: names the text that `encoding_rs::GBK.decode` returns. The decoder never fails: what it
/// cannot decode becomes U+FFFD. It panics where the size of its buffer overflows, which
/// `decodable` leaves out.
#[verifier::external_body]
fn decode_gbk(raw: &[u8]) -> (r: String)
    requires
        decodable(raw@),
    ensures
        r@ == gbk_text(raw@),
{
    encoding_rs::GBK.decode(raw).0.into_owned()
}

/// Decode Shift-JIS.
///
/// Trusted: names the text that `encoding_rs::SHIFT_JIS.decode` returns, which never fails either.
#[verifier::external_body]
fn decode_shift_jis(raw: &[u8]) -> (r: String)
    requires
        decodable(raw@),
    ensures
        r@ == shift_jis_text(raw@),
{
    encoding_rs::SHIFT_JIS.decode(raw).0.into_owned()
}

/// Decode Big5.
///
/// Trusted: names the text that `encoding_rs::BIG5.decode` returns, which never fails either.
#[verifier::external_body]
fn decode_big5(raw: &[u8]) -> (r: String)
    requires
        decodable(raw@),
    ensures
        r@ == big5_text(raw@),
{
    encoding_rs::BIG5.decode(raw).0.into_owned()
}

/// Guess the encoding of `bytes`.
///
/// Trusted: names the encoding that `chardetng::EncodingDetector::guess` gives after the whole of
/// `bytes` was fed to a fresh detector, with no top-level domain and with UTF-8 allowed.
#[verifier::external_body]
fn guess_encoding(bytes: &[u8]) -> (r: String)
    ensures
        r@ == guessed_encoding(bytes@),
{
    let mut detector = chardetng::EncodingDetector::new();
    detector.feed(bytes, true);
    detector.guess(None, true).name().to_owned()
}

/// Strict decoding as UTF-8.
pub open spec fn strict_utf8(raw: Seq<u8>) -> std::result::Result<Seq<char>, ErrorView> {
    if valid_utf8(raw) {
        Ok(decode_utf8(raw))
    } else {
        Err(ErrorView::CorruptArchive("invalid utf-8 name: "@ + utf8_fault(raw)))
    }
}

/// Decoding with a given codepage.
pub open spec fn in_codepage(raw: Seq<u8>, cp: Codepage) -> std::result::Result<
    Seq<char>,
    ErrorView,
> {
    match cp {
        Codepage::Utf8 => strict_utf8(raw),
        Codepage::Gbk => Ok(gbk_text(raw)),
        Codepage::ShiftJis => Ok(shift_jis_text(raw)),
        Codepage::Big5 => Ok(big5_text(raw)),
        Codepage::Cp437 => Err(ErrorView::UnsupportedFeature("CP437 decoding (deferred)"@)),
    }
}

/// What a raw name stands for under a strategy.
pub open spec fn decoded_name(
    raw: Seq<u8>,
    enc: FilenameEncoding,
    hint: Utf8Flag,
) -> std::result::Result<Seq<char>, ErrorView> {
    match enc {
        FilenameEncoding::Auto => if hint.0 || valid_utf8(raw) {
            strict_utf8(raw)
        } else {
            in_codepage(raw, Codepage::Gbk)
        },
        FilenameEncoding::Forced(cp) => in_codepage(raw, cp),
    }
}

/// Strictly decode bytes as UTF-8.
fn utf8(raw: &[u8]) -> (r: Result<String>)
    ensures
        match r {
            Ok(s) => strict_utf8(raw@) == Ok::<Seq<char>, ErrorView>(s@),
            Err(e) => strict_utf8(raw@) == Err::<Seq<char>, ErrorView>(e@),
        },
{
    match utf8_text(raw) {
        Ok(s) => Ok(s),
        Err(m) => Err(Error::CorruptArchive(concat2("invalid utf-8 name: ", m.as_str()))),
    }
}

/// Decode bytes with a codepage.
fn decode_codepage(raw: &[u8], cp: Codepage) -> (r: Result<String>)
    requires
        decodable(raw@),
    ensures
        match r {
            Ok(s) => in_codepage(raw@, cp) == Ok::<Seq<char>, ErrorView>(s@),
            Err(e) => in_codepage(raw@, cp) == Err::<Seq<char>, ErrorView>(e@),
        },
{
    match cp {
        Codepage::Utf8 => utf8(raw),
        Codepage::Gbk => Ok(decode_gbk(raw)),
        Codepage::ShiftJis => Ok(decode_shift_jis(raw)),
        Codepage::Big5 => Ok(decode_big5(raw)),
        Codepage::Cp437 => Err(Error::no_feature("CP437 decoding (deferred)")),
    }
}

/// Decode raw entry-name bytes into a UTF-8 `String`.
///
/// `Auto` prefers the format's UTF-8 flag or valid UTF-8, then falls back to the default legacy
/// codepage (GBK). Detecting a codepage is not part of this function: it is an archive-level
/// concern. `Forced` decodes with the given codepage; `Forced(Utf8)` rejects invalid UTF-8 with
/// [`Error::CorruptArchive`]. `Cp437` returns [`Error::UnsupportedFeature`].
pub fn decode_filename(raw: &[u8], enc: FilenameEncoding, hint: Utf8Flag) -> (r: Result<String>)
    requires
        decodable(raw@),
    ensures
        match r {
            Ok(s) => decoded_name(raw@, enc, hint) == Ok::<Seq<char>, ErrorView>(s@),
            Err(e) => decoded_name(raw@, enc, hint) == Err::<Seq<char>, ErrorView>(e@),
        },
{
    match enc {
        FilenameEncoding::Auto => if hint.0 {
            utf8(raw)
        } else {
            match utf8_text(raw) {
                Ok(s) => Ok(s),
                // Not valid UTF-8: fall back to the default codepage (GBK).
                Err(_) => decode_codepage(raw, Codepage::Gbk),
            }
        },
        FilenameEncoding::Forced(cp) => decode_codepage(raw, cp),
    }
}

/// A name that is stored as UTF-8 comes back as it was, whether the format says so or not, as long
/// as no other codepage is forced.
pub proof fn utf8_names_come_back(name: Seq<char>, enc: FilenameEncoding, hint: Utf8Flag)
    requires
        enc == FilenameEncoding::Auto || enc == FilenameEncoding::Forced(Codepage::Utf8),
    ensures
        decoded_name(encode_utf8(name), enc, hint) == Ok::<Seq<char>, ErrorView>(name),
{
    encode_utf8_valid_utf8(name);
    encode_utf8_decode_utf8(name);
}

/// A raw name as it is listed: decoded where that succeeds, as lossy UTF-8 where it does not.
pub open spec fn shown_name(raw: Seq<u8>, enc: FilenameEncoding, hint: Utf8Flag) -> Seq<char> {
    if decodable(raw) {
        match decoded_name(raw, enc, hint) {
            Ok(s) => s,
            Err(_) => lossy_utf8(raw),
        }
    } else {
        lossy_utf8(raw)
    }
}

/// A raw name as it is listed by a format that says nothing about its encoding.
pub open spec fn listed_name(raw: Seq<u8>, enc: FilenameEncoding) -> Seq<char> {
    shown_name(raw, enc, Utf8Flag(false))
}

/// Decode a raw entry name for listing, with what the format says about its encoding.
///
/// Names that fail decoding fall back to lossy UTF-8 so the archive still lists. The raw bytes
/// are kept beside the decoded name for later re-decoding.
pub fn decode_entry_name(raw: &[u8], enc: FilenameEncoding, hint: Utf8Flag) -> (r: String)
    ensures
        r@ == shown_name(raw@, enc, hint),
{
    if raw.len() <= usize::MAX / 12 - 16 {
        match decode_filename(raw, enc, hint) {
            Ok(s) => s,
            Err(_) => utf8_lossy_text(raw),
        }
    } else {
        utf8_lossy_text(raw)
    }
}

/// Decode a raw entry name for listing.
pub fn decode_name(raw: &[u8], enc: FilenameEncoding) -> (r: String)
    ensures
        r@ == listed_name(raw@, enc),
{
    decode_entry_name(raw, enc, Utf8Flag(false))
}

/// The supported codepage with the given encoding name.
pub open spec fn supported_codepage(name: Seq<char>) -> Option<Codepage> {
    if name == "GBK"@ {
        Some(Codepage::Gbk)
    } else if name == "Shift_JIS"@ {
        Some(Codepage::ShiftJis)
    } else if name == "Big5"@ {
        Some(Codepage::Big5)
    } else {
        None
    }
}

/// The supported codepage with the given encoding name.
///
/// Only names that map onto a supported codepage are trusted; anything else (windows-125x, EUC-KR,
/// ...) yields `None` so callers fall back to the default codepage.
pub fn codepage_named(name: &str) -> (r: Option<Codepage>)
    ensures
        r == supported_codepage(name@),
{
    if same_text(name, "GBK") {
        Some(Codepage::Gbk)
    } else if same_text(name, "Shift_JIS") {
        Some(Codepage::ShiftJis)
    } else if same_text(name, "Big5") {
        Some(Codepage::Big5)
    } else {
        None
    }
}

/// The codepage that detection settles on for the bytes.
pub open spec fn detected_codepage(bytes: Seq<u8>) -> Option<Codepage> {
    if bytes.len() == 0 {
        None
    } else {
        supported_codepage(guessed_encoding(bytes))
    }
}

/// Detect the legacy codepage of `bytes` (the concatenation of an archive's non-UTF-8 raw names).
///
/// A single short name is usually too little signal for reliable detection, so every legacy name
/// is aggregated before calling.
pub fn detect_codepage(bytes: &[u8]) -> (r: Option<Codepage>)
    ensures
        r == detected_codepage(bytes@),
{
    if bytes.len() == 0 {
        return None;
    }
    codepage_named(guess_encoding(bytes).as_str())
}

} // verus!
