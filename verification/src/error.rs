//! The library's error type.

use vstd::prelude::*;
use vstd::string::*;

use crate::extract::SafetyLimits;
use crate::text::{concat2, decimal, decimal_text};

verus! {

/// The result type used throughout the library.
pub type Result<T> = std::result::Result<T, Error>;

/// Every way in which an operation of the library can fail.
#[derive(Debug)]
pub enum Error {
    /// An underlying I/O error, with its text.
    Io(String),
    /// The archive format is not recognized or supported.
    UnsupportedFormat(String),
    /// A specific feature (e.g. a compression method) is not supported yet.
    UnsupportedFeature(String),
    /// The archive appears to be corrupt or malformed.
    CorruptArchive(String),
    /// An entry path failed validation (e.g. parent-directory traversal).
    InvalidPath(String),
    /// A password is required to proceed.
    PasswordRequired,
    /// The supplied password was incorrect.
    WrongPassword,
    /// A safety limit was exceeded (zip-bomb / traversal protection).
    LimitExceeded(SafetyLimits),
    /// The operation was cancelled by the user.
    Cancelled,
}

/// An [`Error`] with its texts as character sequences.
pub enum ErrorView {
    Io(Seq<char>),
    UnsupportedFormat(Seq<char>),
    UnsupportedFeature(Seq<char>),
    CorruptArchive(Seq<char>),
    InvalidPath(Seq<char>),
    PasswordRequired,
    WrongPassword,
    LimitExceeded(SafetyLimits),
    Cancelled,
}

impl View for Error {
    type V = ErrorView;

    open spec fn view(&self) -> ErrorView {
        match self {
            Error::Io(m) => ErrorView::Io(m@),
            Error::UnsupportedFormat(m) => ErrorView::UnsupportedFormat(m@),
            Error::UnsupportedFeature(m) => ErrorView::UnsupportedFeature(m@),
            Error::CorruptArchive(m) => ErrorView::CorruptArchive(m@),
            Error::InvalidPath(m) => ErrorView::InvalidPath(m@),
            Error::PasswordRequired => ErrorView::PasswordRequired,
            Error::WrongPassword => ErrorView::WrongPassword,
            Error::LimitExceeded(l) => ErrorView::LimitExceeded(*l),
            Error::Cancelled => ErrorView::Cancelled,
        }
    }
}

/// The limits as a record, field by field.
pub open spec fn limits_text(l: SafetyLimits) -> Seq<char> {
    "SafetyLimits { max_total_bytes: "@ + decimal(l.max_total_bytes as nat) + ", max_entries: "@
        + decimal(l.max_entries as nat) + ", max_depth: "@ + decimal(l.max_depth as nat) + " }"@
}

impl ErrorView {
    /// The message shown to a reader.
    pub open spec fn message(self) -> Seq<char> {
        match self {
            ErrorView::Io(m) => "i/o error: "@ + m,
            ErrorView::UnsupportedFormat(m) => "unsupported format: "@ + m,
            ErrorView::UnsupportedFeature(m) => "unsupported feature: "@ + m,
            ErrorView::CorruptArchive(m) => "corrupt archive: "@ + m,
            ErrorView::InvalidPath(m) => "invalid entry path: "@ + m,
            ErrorView::PasswordRequired => "password required"@,
            ErrorView::WrongPassword => "wrong password"@,
            ErrorView::LimitExceeded(l) => "safety limit exceeded: "@ + limits_text(l),
            ErrorView::Cancelled => "operation cancelled"@,
        }
    }
}

/// The limits as a record, field by field.
fn limits_to_text(l: &SafetyLimits) -> (r: String)
    ensures
        r@ == limits_text(*l),
{
    let mut out = "SafetyLimits { max_total_bytes: ".to_string();
    out.append(decimal_text(l.max_total_bytes).as_str());
    out.append(", max_entries: ");
    out.append(decimal_text(l.max_entries).as_str());
    out.append(", max_depth: ");
    out.append(decimal_text(l.max_depth as u64).as_str());
    out.append(" }");
    out
}

impl Error {
    /// The message shown to a reader.
    pub fn message(&self) -> (r: String)
        ensures
            r@ == self@.message(),
    {
        match self {
            Error::Io(m) => concat2("i/o error: ", m.as_str()),
            Error::UnsupportedFormat(m) => concat2("unsupported format: ", m.as_str()),
            Error::UnsupportedFeature(m) => concat2("unsupported feature: ", m.as_str()),
            Error::CorruptArchive(m) => concat2("corrupt archive: ", m.as_str()),
            Error::InvalidPath(m) => concat2("invalid entry path: ", m.as_str()),
            Error::PasswordRequired => "password required".to_string(),
            Error::WrongPassword => "wrong password".to_string(),
            Error::LimitExceeded(l) => concat2("safety limit exceeded: ", limits_to_text(l).as_str()),
            Error::Cancelled => "operation cancelled".to_string(),
        }
    }

    /// [`Error::CorruptArchive`] with the given message.
    pub(crate) fn corrupt(m: &str) -> (r: Error)
        ensures
            r@ == ErrorView::CorruptArchive(m@),
    {
        Error::CorruptArchive(m.to_string())
    }

    /// [`Error::UnsupportedFeature`] with the given message.
    pub(crate) fn no_feature(m: &str) -> (r: Error)
        ensures
            r@ == ErrorView::UnsupportedFeature(m@),
    {
        Error::UnsupportedFeature(m.to_string())
    }

    /// [`Error::UnsupportedFormat`] with the given message.
    pub(crate) fn no_format(m: &str) -> (r: Error)
        ensures
            r@ == ErrorView::UnsupportedFormat(m@),
    {
        Error::UnsupportedFormat(m.to_string())
    }
}

} // verus!
