//! Error taxonomy of the codec.
//!
//! Every failure of framing, deserialization, compression, transport or of
//! the value-access API is reported through [`Error`]; no operation of this
//! crate panics on malformed input.

use vstd::prelude::*;
use vstd::string::StringExecFns;

verus! {

#[derive(Debug, Clone)]
pub enum Error {
    /// A frame or header was shorter than the 8-byte message header, or its
    /// declared total length was below the header size.
    InvalidMessageSize,
    /// Strict validation rejected a compressed flag other than 0 or 1.
    InvalidCompressedFlag(u8),
    /// Strict validation rejected a message type other than 0, 1 or 2.
    InvalidMessageType(u8),
    /// A frame declared a total length above the configured ceiling.
    MessageTooLarge { size: usize, max: usize },
    /// The input ended before a complete value could be read.
    InsufficientData { needed: usize, available: usize },
    /// An unrecognized type code was met.
    InvalidType(i8),
    /// A declared list length was above the configured ceiling.
    ListTooLarge { size: usize, max: usize },
    /// A byte-count computation would overflow.
    SizeOverflow,
    /// Nesting went beyond the configured recursion budget.
    MaxDepthExceeded { depth: usize, max: usize },
    /// A symbol or error message had no terminating 0x00 byte.
    MissingNullTerminator,
    /// A symbol, string or lambda payload was not valid UTF-8.
    InvalidUtf8,
    /// A temporal value was outside the representable range.
    InvalidDateTime,
    /// A structural rule of the wire format was broken.
    DeserializationError(String),
    /// The compressed byte stream was malformed.
    InvalidCompressedData(String),
    /// A compressed frame declared a decompressed size above the ceiling.
    DecompressedSizeExceedsLimit { size: usize, max: usize },
    /// Failure of the underlying transport.
    NetworkError(String),
    /// The peer's credential was not accepted.
    AuthenticationFailed,
    /// The underlying stream ended.
    ConnectionClosed,
    /// A column name was not present in a table or dictionary.
    NoSuchColumn(String),
    /// A positional index was outside the container.
    IndexOutOfBounds { length: usize, index: usize },
    /// The operation is not meaningful for the given type code.
    InvalidOperation { op: String, qtype: i8 },
}

/// The deserialization kinds: every failure the value decoder can report.
pub open spec fn is_deserialization_error(e: Error) -> bool {
    ||| e is InsufficientData
    ||| e is InvalidType
    ||| e is ListTooLarge
    ||| e is SizeOverflow
    ||| e is MaxDepthExceeded
    ||| e is MissingNullTerminator
    ||| e is InvalidUtf8
    ||| e is InvalidDateTime
    ||| e is DeserializationError
}

/// Every failure the frame codec can report: a deserialization kind, a
/// framing kind or a compression kind.
pub open spec fn is_codec_error(e: Error) -> bool {
    ||| is_deserialization_error(e)
    ||| e is InvalidMessageSize
    ||| e is InvalidCompressedFlag
    ||| e is InvalidMessageType
    ||| e is MessageTooLarge
    ||| e is InvalidCompressedData
    ||| e is DecompressedSizeExceedsLimit
}

impl Error {
    pub fn index_out_of_bounds(length: usize, index: usize) -> (r: Error)
        ensures
            r == (Error::IndexOutOfBounds { length, index }),
    {
        Error::IndexOutOfBounds { length, index }
    }

    pub fn invalid_operation(op: &str, qtype: i8) -> (r: Error)
        ensures
            r matches Error::InvalidOperation { op: o, qtype: q } && o@ == op@ && q == qtype,
    {
        Error::InvalidOperation { op: String::from_str(op), qtype }
    }

    /// Human-readable description of the failure.
    pub fn message(&self) -> String {
        match self {
            Error::InvalidMessageSize => String::from_str(
                "invalid message size: input shorter than the 8-byte header or declared length below it",
            ),
            Error::InvalidCompressedFlag(_) => String::from_str(
                "Invalid compressed flag: expected 0 (uncompressed) or 1 (compressed)",
            ),
            Error::InvalidMessageType(_) => String::from_str(
                "Invalid message type: expected 0 (async), 1 (sync), or 2 (response)",
            ),
            Error::MessageTooLarge { size: _, max: _ } => String::from_str(
                "message length exceeds maximum allowed message size",
            ),
            Error::InsufficientData { needed: _, available: _ } => String::from_str(
                "insufficient data: input ended before a complete value",
            ),
            Error::InvalidType(_) => String::from_str("invalid type code"),
            Error::ListTooLarge { size: _, max: _ } => String::from_str(
                "declared list size exceeds the maximum list size",
            ),
            Error::SizeOverflow => String::from_str("size computation overflow"),
            Error::MaxDepthExceeded { depth: _, max: _ } => String::from_str(
                "maximum recursion depth exceeded",
            ),
            Error::MissingNullTerminator => String::from_str("missing null terminator"),
            Error::InvalidUtf8 => String::from_str("invalid UTF-8"),
            Error::InvalidDateTime => String::from_str("invalid date or time value"),
            Error::DeserializationError(detail) => {
                String::from_str("deserialization error: ").concat(detail.as_str())
            },
            Error::InvalidCompressedData(detail) => {
                String::from_str("Invalid compressed data: ").concat(detail.as_str())
            },
            Error::DecompressedSizeExceedsLimit { size: _, max: _ } => String::from_str(
                "declared decompressed size exceeds maximum allowed size (compression bomb refused)",
            ),
            Error::NetworkError(detail) => {
                String::from_str("network error: ").concat(detail.as_str())
            },
            Error::AuthenticationFailed => String::from_str("authentication failed"),
            Error::ConnectionClosed => String::from_str("connection closed"),
            Error::NoSuchColumn(name) => {
                String::from_str("no such column or key: ").concat(name.as_str())
            },
            Error::IndexOutOfBounds { length: _, index: _ } => String::from_str(
                "index out of bounds",
            ),
            Error::InvalidOperation { op, qtype: _ } => {
                String::from_str("invalid operation for this type: ").concat(op.as_str())
            },
        }
    }
}

} // verus!
