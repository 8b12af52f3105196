//! The error kinds that SCTP operations report.

use vstd::prelude::*;
use vstd::std_specs::convert::FromSpecImpl;
use vstd::string::StringExecFns;

verus! {

/// `std::io::Error`, carried through as an opaque value.
#[verifier::external_type_specification]
#[verifier::external_body]
pub struct ExIoError(std::io::Error);

/// The errors that may be returned by SCTP functions are categorized into these enum variants.
#[derive(Debug)]
pub enum SctpError {
    Io(std::io::Error),
    ReadUnderrun,
    InvalidPacket,
    BadChecksum,
    BadState,
    ExpectedBeginningFragment,
    UnexpectedBeginningFragment,
    UnexpectedSSN,
    SendQueueFull,
    CommandQueueFull,
    Closed,
    Timeout,
}

pub type SctpResult<T> = Result<T, SctpError>;

/// Renders a `std::io::Error` through its `Display` impl.  The text depends on
/// the platform, so nothing is claimed of it.
#[verifier::external_body]
fn io_error_text(e: &std::io::Error) -> String {
    format!("{}", e)
}

impl SctpError {
    /// The fixed part of the human-readable description: the whole text for
    /// every kind but `Io`, whose text goes on with the underlying error's own.
    pub open spec fn fixed_text(&self) -> Seq<char> {
        match self {
            SctpError::Io(_) => "IO error: "@,
            SctpError::ReadUnderrun => "read underrun"@,
            SctpError::InvalidPacket => "invalid packet"@,
            SctpError::BadChecksum => "bad checksum"@,
            SctpError::BadState => "bad state"@,
            SctpError::ExpectedBeginningFragment => "expected beginning fragment"@,
            SctpError::UnexpectedBeginningFragment => "unexpected beginning fragment"@,
            SctpError::UnexpectedSSN => "unexpected ssn"@,
            SctpError::SendQueueFull => "send queue full"@,
            SctpError::CommandQueueFull => "command queue full"@,
            SctpError::Closed => "resource is closed"@,
            SctpError::Timeout => "timeout"@,
        }
    }

    /// Whether the caller may simply try again later: back-pressure and
    /// timeouts are retryable, every other kind is fatal for the operation.
    pub open spec fn spec_is_retryable(&self) -> bool {
        self is SendQueueFull || self is CommandQueueFull || self is Timeout
    }

    /// Provide human-readable descriptions of the errors.
    pub fn to_string(&self) -> (s: String)
        ensures
            !(self is Io) ==> s@ == self.fixed_text(),
            self is Io ==> s@.len() >= self.fixed_text().len() && s@.subrange(
                0,
                self.fixed_text().len() as int,
            ) == self.fixed_text(),
    {
        match self {
            SctpError::Io(e) => {
                let detail = io_error_text(e);
                let s = String::from_str("IO error: ").concat(detail.as_str());
                assert(s@.subrange(0, "IO error: "@.len() as int) =~= "IO error: "@);
                s
            },
            SctpError::ReadUnderrun => String::from_str("read underrun"),
            SctpError::InvalidPacket => String::from_str("invalid packet"),
            SctpError::BadChecksum => String::from_str("bad checksum"),
            SctpError::BadState => String::from_str("bad state"),
            SctpError::ExpectedBeginningFragment => String::from_str("expected beginning fragment"),
            SctpError::UnexpectedBeginningFragment => String::from_str(
                "unexpected beginning fragment",
            ),
            SctpError::UnexpectedSSN => String::from_str("unexpected ssn"),
            SctpError::SendQueueFull => String::from_str("send queue full"),
            SctpError::CommandQueueFull => String::from_str("command queue full"),
            SctpError::Closed => String::from_str("resource is closed"),
            SctpError::Timeout => String::from_str("timeout"),
        }
    }

    /// The lower-level cause of this error: the I/O error of an `Io`, nothing
    /// for the other kinds.
    pub fn source(&self) -> (r: Option<&std::io::Error>)
        ensures
            match *self {
                SctpError::Io(e) => r == Some(&e),
                _ => r is None,
            },
    {
        match self {
            SctpError::Io(e) => Some(e),
            _ => None,
        }
    }

    /// Tells retryable conditions from fatal ones.
    #[verifier::when_used_as_spec(spec_is_retryable)]
    pub fn is_retryable(&self) -> (r: bool)
        ensures
            r == self.spec_is_retryable(),
    {
        match self {
            SctpError::SendQueueFull | SctpError::CommandQueueFull | SctpError::Timeout => true,
            _ => false,
        }
    }
}

impl From<std::io::Error> for SctpError {
    fn from(err: std::io::Error) -> (r: SctpError) {
        SctpError::Io(err)
    }
}

impl FromSpecImpl<std::io::Error> for SctpError {
    open spec fn obeys_from_spec() -> bool {
        true
    }

    open spec fn from_spec(err: std::io::Error) -> SctpError {
        SctpError::Io(err)
    }
}

} // verus!
