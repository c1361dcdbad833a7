//! Error taxonomy of the reader.
//!
//! Every component returns a `Result` with one of these errors; nothing is
//! recovered locally, so the first fault found is the one the caller sees.

use vstd::prelude::*;

verus! {

/// One error for the whole parse pipeline.
///
/// The two keyword variants carry the offending key so a caller can see
/// which entry of the TEXT segment was missing or unreadable.
#[derive(Debug, PartialEq, Eq)]
pub enum FlowError {
    /// A byte-range read failed: the source is shorter than the requested
    /// range, the transport failed, or bytes that must form text do not
    /// decode.
    IoError,
    /// A HEADER field is not the ASCII decimal text it must be, or a
    /// declared segment range ends before it starts.
    MalformedHeader,
    /// A keyword that a valid document must carry is absent.
    MissingRequiredKeyword(String),
    /// A keyword is present but its value does not parse as required.
    InvalidKeywordValue(String),
    /// `$BYTEORD` names neither a big-endian nor a little-endian order.
    InvalidByteOrder,
    /// `$DATATYPE` names no known data type.
    InvalidDataType,
    /// The DATA segment's byte length is not a whole number of values.
    TruncatedDataSegment,
    /// The decoded DATA length differs from `$PAR * $TOT`.
    DataLengthMismatch,
}

} // verus!
