//! The fixed-offset HEADER segment.
//!
//! Nine ASCII sub-ranges at fixed byte positions carry the format version
//! and the inclusive byte ranges of the TEXT, DATA and ANALYSIS segments.
//! Offsets are decimal text padded with whitespace; in the two ANALYSIS
//! fields the value `0` means the segment is absent.

use vstd::prelude::*;

verus! {

use vstd::utf8::{decode_utf8, valid_utf8};
use crate::error::FlowError;
use crate::strutil::{dec_val, is_digits, is_version_chars, is_version_str, parse_u64_chars,
    trim_chars, trim_spec, utf8_string};
use crate::traits::ByteRead;

/// The decoded HEADER.
///
/// `version` keeps the version text as written (trimmed), e.g. `3.1`; the
/// offsets are inclusive byte positions from the start of the document.
#[derive(Debug, PartialEq, Eq)]
pub struct Header {
    /// Format version text, bytes 3–5.
    pub version: String,
    /// First byte of the TEXT segment, bytes 10–17.
    pub text_start: u64,
    /// Last byte of the TEXT segment, bytes 18–25.
    pub text_end: u64,
    /// First byte of the DATA segment, bytes 26–33.
    pub data_start: u64,
    /// Last byte of the DATA segment, bytes 34–41.
    pub data_end: u64,
    /// First byte of the ANALYSIS segment, bytes 42–49; `None` when absent.
    pub analysis_start: Option<u64>,
    /// Last byte of the ANALYSIS segment, bytes 50–57; `None` when absent.
    pub analysis_end: Option<u64>,
}

/// The value an offset field's bytes spell: UTF-8 text that, trimmed of
/// surrounding whitespace, is an unsigned decimal number.
pub open spec fn offset_field_val(bs: Seq<u8>) -> Option<u64> {
    if valid_utf8(bs) && is_digits(trim_spec(decode_utf8(bs))) && dec_val(
        trim_spec(decode_utf8(bs)),
    ) <= u64::MAX {
        Some(dec_val(trim_spec(decode_utf8(bs))) as u64)
    } else {
        None
    }
}

/// Whether version bytes spell decimal version text once trimmed.
pub open spec fn version_field_ok(bs: Seq<u8>) -> bool {
    valid_utf8(bs) && is_version_chars(trim_spec(decode_utf8(bs)))
}

/// An ANALYSIS field against its decoded form: `0` is kept as `None`, any
/// other value as itself.
pub open spec fn analysis_field(bs: Seq<u8>, f: Option<u64>) -> bool {
    match f {
        Some(v) => offset_field_val(bs) == Some(v) && v != 0,
        None => offset_field_val(bs) == Some(0u64),
    }
}

/// The sub-range of `c` holding a field that spans bytes `lo..=hi` of a
/// header at `off`.
pub open spec fn field_bytes(c: Seq<u8>, off: int, lo: int, hi: int) -> Seq<u8> {
    c.subrange(off + lo, off + hi + 1)
}

/// Reads one offset field: UTF-8, trimmed, unsigned decimal.
fn parse_offset_field(bytes: &Vec<u8>) -> (r: Result<u64, FlowError>)
    ensures
        r is Ok <==> offset_field_val(bytes@) is Some,
        r matches Ok(v) ==> offset_field_val(bytes@) == Some(v),
        !valid_utf8(bytes@) ==> r == Err::<u64, FlowError>(FlowError::IoError),
        valid_utf8(bytes@) && offset_field_val(bytes@) is None ==> r == Err::<u64, FlowError>(
            FlowError::MalformedHeader,
        ),
{
    let s = match utf8_string(bytes) {
        Some(s) => s,
        None => {
            return Err(FlowError::IoError);
        },
    };
    let t = trim_chars(s.as_str());
    match parse_u64_chars(t.as_str()) {
        Some(v) => Ok(v),
        None => Err(FlowError::MalformedHeader),
    }
}

/// Reads the version field: UTF-8 whose trimmed text is decimal version
/// text, kept as that trimmed text.
fn parse_version_field(bytes: &Vec<u8>) -> (r: Result<String, FlowError>)
    ensures
        r is Ok <==> version_field_ok(bytes@),
        r matches Ok(v) ==> v@ == trim_spec(decode_utf8(bytes@)),
        !valid_utf8(bytes@) ==> r == Err::<String, FlowError>(FlowError::IoError),
        valid_utf8(bytes@) && !version_field_ok(bytes@) ==> r == Err::<String, FlowError>(
            FlowError::MalformedHeader,
        ),
{
    let s = match utf8_string(bytes) {
        Some(s) => s,
        None => {
            return Err(FlowError::IoError);
        },
    };
    let t = trim_chars(s.as_str());
    if is_version_str(t.as_str()) {
        Ok(t)
    } else {
        Err(FlowError::MalformedHeader)
    }
}

impl Header {
    /// Every declared segment range ends at or after its start.
    pub open spec fn wf(&self) -> bool {
        &&& self.text_start <= self.text_end
        &&& self.data_start <= self.data_end
        &&& match (self.analysis_start, self.analysis_end) {
            (Some(a), Some(b)) => a <= b,
            _ => true,
        }
        &&& self.analysis_start != Some(0u64)
        &&& self.analysis_end != Some(0u64)
    }

    /// The raw field texts make a well-formed header: the version and every
    /// offset read, and the declared ranges are ordered.
    pub open spec fn fields_ok(
        version: Seq<u8>,
        text_start: Seq<u8>,
        text_end: Seq<u8>,
        data_start: Seq<u8>,
        data_end: Seq<u8>,
        analysis_start: Seq<u8>,
        analysis_end: Seq<u8>,
    ) -> bool {
        &&& version_field_ok(version)
        &&& offset_field_val(text_start) is Some
        &&& offset_field_val(text_end) is Some
        &&& offset_field_val(data_start) is Some
        &&& offset_field_val(data_end) is Some
        &&& offset_field_val(analysis_start) is Some
        &&& offset_field_val(analysis_end) is Some
        &&& offset_field_val(text_start)->0 <= offset_field_val(text_end)->0
        &&& offset_field_val(data_start)->0 <= offset_field_val(data_end)->0
        &&& (offset_field_val(analysis_start)->0 == 0 || offset_field_val(analysis_end)->0 == 0
            || offset_field_val(analysis_start)->0 <= offset_field_val(analysis_end)->0)
    }

    /// `h` is the header the raw field texts spell.
    pub open spec fn from_fields_spec(
        h: Header,
        version: Seq<u8>,
        text_start: Seq<u8>,
        text_end: Seq<u8>,
        data_start: Seq<u8>,
        data_end: Seq<u8>,
        analysis_start: Seq<u8>,
        analysis_end: Seq<u8>,
    ) -> bool {
        &&& h.version@ == trim_spec(decode_utf8(version))
        &&& offset_field_val(text_start) == Some(h.text_start)
        &&& offset_field_val(text_end) == Some(h.text_end)
        &&& offset_field_val(data_start) == Some(h.data_start)
        &&& offset_field_val(data_end) == Some(h.data_end)
        &&& analysis_field(analysis_start, h.analysis_start)
        &&& analysis_field(analysis_end, h.analysis_end)
        &&& h.wf()
    }

    /// Assembles a header from the seven raw field texts.
    ///
    /// Succeeds exactly when every field reads and the declared ranges are
    /// ordered; a file whose fields read but whose TEXT or DATA range ends
    /// before it starts fails with [`FlowError::MalformedHeader`].
    pub fn from_fields(
        version: &Vec<u8>,
        text_start: &Vec<u8>,
        text_end: &Vec<u8>,
        data_start: &Vec<u8>,
        data_end: &Vec<u8>,
        analysis_start: &Vec<u8>,
        analysis_end: &Vec<u8>,
    ) -> (r: Result<Header, FlowError>)
        ensures
            r is Ok <==> Header::fields_ok(
                version@,
                text_start@,
                text_end@,
                data_start@,
                data_end@,
                analysis_start@,
                analysis_end@,
            ),
            r matches Ok(h) ==> Header::from_fields_spec(
                h,
                version@,
                text_start@,
                text_end@,
                data_start@,
                data_end@,
                analysis_start@,
                analysis_end@,
            ),
            r matches Err(e) ==> (e matches FlowError::IoError || e matches
                FlowError::MalformedHeader),
            version_field_ok(version@) && offset_field_val(text_start@) is Some
                && offset_field_val(text_end@) is Some && offset_field_val(data_start@) is Some
                && offset_field_val(data_end@) is Some && offset_field_val(
                analysis_start@,
            ) is Some && offset_field_val(analysis_end@) is Some && r is Err ==> r == Err::<
                Header,
                FlowError,
            >(FlowError::MalformedHeader),
    {
        let version = match parse_version_field(version) {
            Ok(v) => v,
            Err(e) => {
                return Err(e);
            },
        };
        let text_start = match parse_offset_field(text_start) {
            Ok(v) => v,
            Err(e) => {
                return Err(e);
            },
        };
        let text_end = match parse_offset_field(text_end) {
            Ok(v) => v,
            Err(e) => {
                return Err(e);
            },
        };
        let data_start = match parse_offset_field(data_start) {
            Ok(v) => v,
            Err(e) => {
                return Err(e);
            },
        };
        let data_end = match parse_offset_field(data_end) {
            Ok(v) => v,
            Err(e) => {
                return Err(e);
            },
        };
        let analysis_start = match parse_offset_field(analysis_start) {
            Ok(v) => v,
            Err(e) => {
                return Err(e);
            },
        };
        let analysis_end = match parse_offset_field(analysis_end) {
            Ok(v) => v,
            Err(e) => {
                return Err(e);
            },
        };
        if text_start > text_end {
            return Err(FlowError::MalformedHeader);
        }
        if data_start > data_end {
            return Err(FlowError::MalformedHeader);
        }
        if analysis_start != 0 && analysis_end != 0 && analysis_start > analysis_end {
            return Err(FlowError::MalformedHeader);
        }
        Ok(
            Header {
                version,
                text_start,
                text_end,
                data_start,
                data_end,
                analysis_start: if analysis_start == 0 {
                    None
                } else {
                    Some(analysis_start)
                },
                analysis_end: if analysis_end == 0 {
                    None
                } else {
                    Some(analysis_end)
                },
            },
        )
    }

    /// `h` is the header that the HEADER segment of `c` at `off` spells.
    pub open spec fn header_matches(h: Header, c: Seq<u8>, off: int) -> bool {
        &&& off + 58 <= c.len()
        &&& Header::from_fields_spec(
            h,
            field_bytes(c, off, 3, 5),
            field_bytes(c, off, 10, 17),
            field_bytes(c, off, 18, 25),
            field_bytes(c, off, 26, 33),
            field_bytes(c, off, 34, 41),
            field_bytes(c, off, 42, 49),
            field_bytes(c, off, 50, 57),
        )
    }

    /// Reads the header of the document at `offset` within the source.
    ///
    /// Reads the nine fixed sub-ranges through the source, then assembles
    /// them with [`Header::from_fields`].
    pub fn new<R: ByteRead>(reader: &mut R, offset: u64) -> (r: Result<Header, FlowError>)
        requires
            offset <= u64::MAX - 57,
        ensures
            final(reader).contents() == old(reader).contents(),
            r matches Ok(h) ==> Header::header_matches(h, old(reader).contents(), offset as int),
            r matches Err(e) ==> (e matches FlowError::IoError || e matches
                FlowError::MalformedHeader),
    {
        let version = match reader.read_bytes(offset, 3, 5) {
            Ok(b) => b,
            Err(_) => {
                return Err(FlowError::IoError);
            },
        };
        let text_start = match reader.read_bytes(offset, 10, 17) {
            Ok(b) => b,
            Err(_) => {
                return Err(FlowError::IoError);
            },
        };
        let text_end = match reader.read_bytes(offset, 18, 25) {
            Ok(b) => b,
            Err(_) => {
                return Err(FlowError::IoError);
            },
        };
        let data_start = match reader.read_bytes(offset, 26, 33) {
            Ok(b) => b,
            Err(_) => {
                return Err(FlowError::IoError);
            },
        };
        let data_end = match reader.read_bytes(offset, 34, 41) {
            Ok(b) => b,
            Err(_) => {
                return Err(FlowError::IoError);
            },
        };
        let analysis_start = match reader.read_bytes(offset, 42, 49) {
            Ok(b) => b,
            Err(_) => {
                return Err(FlowError::IoError);
            },
        };
        let analysis_end = match reader.read_bytes(offset, 50, 57) {
            Ok(b) => b,
            Err(_) => {
                return Err(FlowError::IoError);
            },
        };
        Header::from_fields(
            &version,
            &text_start,
            &text_end,
            &data_start,
            &data_end,
            &analysis_start,
            &analysis_end,
        )
    }
}

} // verus!
