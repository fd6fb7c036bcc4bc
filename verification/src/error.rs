//! The failures that the length check and the decoder report.
use vstd::prelude::*;
use vstd::string::StringExecFns;

verus! {

/// Trusted declaration of `std::num::ParseIntError`. The library carries such a
/// value from a failed integer conversion to the caller and never looks inside.
#[verifier::external_type_specification]
#[verifier::external_body]
pub struct ExParseIntError(std::num::ParseIntError);

/// What went wrong, without the diagnostic text that a [`RespError`] carries.
#[derive(Debug, Clone, Copy, PartialEq, Eq, Structural)]
pub enum ErrorKind {
    /// A structural violation that no other kind covers.
    InvalidFrame,
    /// The bytes do not start with the prefix of the frame that was asked for.
    InvalidFrameType,
    /// A length or count header is present but is not a number that fits.
    InvalidFrameLength,
    /// The buffer ends before the frame does: read more bytes and try again.
    NotComplete,
    /// The payload of an integer frame is not an integer.
    ParseIntError,
    /// The payload of a double frame is not decimal floating-point text.
    ParseFloatError,
}

/// Why no frame came out of a buffer. Only `NotComplete` passes: it asks for
/// more bytes. Every other error says that the bytes are no frame.
#[derive(Debug, PartialEq, Eq)]
pub enum RespError {
    /// A structural violation that no other kind covers, with a description.
    InvalidFrame(String),
    /// The bytes start with another prefix than the one asked for, or with none
    /// that is known; with a description.
    InvalidFrameType(String),
    /// A length or count header is no number that fits; with a description.
    InvalidFrameLength(String),
    /// The buffer ends before the frame does.
    NotComplete,
    /// The payload of an integer frame is no integer; with the failure of the
    /// conversion.
    ParseIntError(std::num::ParseIntError),
    /// The payload of a double frame is no number; with the text that was
    /// rejected.
    ParseFloatError(String),
}

impl RespError {
    /// The kind of this error.
    pub open spec fn spec_kind(&self) -> ErrorKind {
        match self {
            RespError::InvalidFrame(_) => ErrorKind::InvalidFrame,
            RespError::InvalidFrameType(_) => ErrorKind::InvalidFrameType,
            RespError::InvalidFrameLength(_) => ErrorKind::InvalidFrameLength,
            RespError::NotComplete => ErrorKind::NotComplete,
            RespError::ParseIntError(_) => ErrorKind::ParseIntError,
            RespError::ParseFloatError(_) => ErrorKind::ParseFloatError,
        }
    }

    /// The kind of this error.
    #[verifier::when_used_as_spec(spec_kind)]
    pub fn kind(&self) -> (k: ErrorKind)
        ensures
            k == self.spec_kind(),
    {
        match self {
            RespError::InvalidFrame(_) => ErrorKind::InvalidFrame,
            RespError::InvalidFrameType(_) => ErrorKind::InvalidFrameType,
            RespError::InvalidFrameLength(_) => ErrorKind::InvalidFrameLength,
            RespError::NotComplete => ErrorKind::NotComplete,
            RespError::ParseIntError(_) => ErrorKind::ParseIntError,
            RespError::ParseFloatError(_) => ErrorKind::ParseFloatError,
        }
    }
}

/// Trusted wrapper around `to_string` of `std::num::ParseIntError`: the words in
/// which the standard library describes the failure. Nothing is claimed of
/// them.
#[verifier::external_body]
fn integer_error_text(e: &std::num::ParseIntError) -> (text: String) {
    e.to_string()
}

impl RespError {
    /// The error in words: what kind it is, then what it carries. For a double
    /// that is what the standard library says of text that is no number.
    pub fn message(&self) -> (text: String)
        ensures
            match self {
                RespError::InvalidFrame(t) => text@ == "Invalid frame: "@ + t@,
                RespError::InvalidFrameType(t) => text@ == "Invalid frame type: "@ + t@,
                RespError::InvalidFrameLength(t) => text@ == "Invalid frame length: "@ + t@,
                RespError::NotComplete => text@ == "Frame is not complete"@,
                RespError::ParseIntError(_) => "Parse int error: "@.is_prefix_of(text@),
                RespError::ParseFloatError(t) => text@ == "Parse float error: "@ + (if t@.len()
                    == 0 {
                    "cannot parse float from empty string"@
                } else {
                    "invalid float literal"@
                }),
            },
    {
        match self {
            RespError::InvalidFrame(t) => String::from_str("Invalid frame: ").concat(t.as_str()),
            RespError::InvalidFrameType(t) => String::from_str("Invalid frame type: ").concat(
                t.as_str(),
            ),
            RespError::InvalidFrameLength(t) => String::from_str("Invalid frame length: ").concat(
                t.as_str(),
            ),
            RespError::NotComplete => String::from_str("Frame is not complete"),
            RespError::ParseIntError(e) => {
                let words = integer_error_text(e);
                let text = String::from_str("Parse int error: ").concat(words.as_str());
                assert("Parse int error: "@ =~= text@.subrange(
                    0,
                    "Parse int error: "@.len() as int,
                ));
                text
            },
            RespError::ParseFloatError(t) => {
                let words = if t.as_str().is_empty() {
                    "cannot parse float from empty string"
                } else {
                    "invalid float literal"
                };
                String::from_str("Parse float error: ").concat(words)
            },
        }
    }
}

/// Trusted wrapper around `format!`: the diagnostic text of an error, naming what
/// was expected and showing the bytes that were found. Nothing is claimed of the
/// text; contracts speak of the kind of an error only.
#[verifier::external_body]
pub(crate) fn describe(expected: &str, found: &[u8]) -> (text: String) {
    format!("expect: {}, got: {:?}", expected, found)
}

} // verus!
