//! The assembled FCS document and the one parse call that builds it.
//!
//! Parsing is all-or-nothing: the HEADER is read and decoded, the TEXT
//! range it names is read and parsed into the dictionary, the dictionary's
//! `$DATATYPE` and `$BYTEORD` drive the decoding of the DATA range, and the
//! decoded length is held against `$PAR * $TOT`.  Any fault on the way
//! aborts the whole parse; no partly-filled document is ever returned.

use vstd::prelude::*;

verus! {

use crate::data::{data_matches, Data};
use crate::error::FlowError;
use crate::header::Header;
use crate::strutil::dec_val;
use crate::text::{gate_wf, has_u32, opt_field, param_wf, spec_byteord, spec_data_type,
    text_dict, text_utf8_ok, Gate, Metadata, Parameter, Text};
use crate::traits::ByteRead;

/// A parsed FCS document: its header, its keyword dictionary and its
/// decoded event data.
#[derive(Debug)]
pub struct Fcs {
    pub header: Header,
    pub data: Data,
    pub text: Text,
}

/// Everything a successful parse of a stream `c` promises of the document.
pub open spec fn document_matches(doc: Fcs, c: Seq<u8>) -> bool {
    let text_seg = c.subrange(
        doc.header.text_start as int,
        doc.header.text_end + 1,
    );
    let data_seg = c.subrange(
        doc.header.data_start as int,
        doc.header.data_end + 1,
    );
    let m = doc.text@;
    &&& Header::header_matches(doc.header, c, 0)
    &&& doc.header.text_end < c.len()
    &&& doc.header.data_end < c.len()
    &&& text_utf8_ok(text_seg)
    &&& m == text_dict(text_seg)
    &&& has_u32(m, "$TOT"@)
    &&& has_u32(m, "$PAR"@)
    &&& m.contains_key("$DATATYPE"@) && spec_data_type(m["$DATATYPE"@]) is Some
    &&& m.contains_key("$BYTEORD"@) && spec_byteord(m["$BYTEORD"@]) is Some
    &&& data_matches(
        doc.data,
        data_seg,
        spec_data_type(m["$DATATYPE"@])->0,
        spec_byteord(m["$BYTEORD"@])->0,
    )
    &&& doc.data.spec_len() == dec_val(m["$PAR"@]) * dec_val(m["$TOT"@])
}

impl Fcs {
    /// Parses a whole FCS document out of a byte-range source.
    ///
    /// The first fault found — a short read, a malformed header field, a
    /// missing or unreadable required keyword, an unknown data type or
    /// byte order, a truncated DATA segment, or a decoded length other
    /// than `$PAR * $TOT` — aborts the parse with its error.
    pub fn read_fcs<R: ByteRead>(reader: &mut R) -> (r: Result<Fcs, FlowError>)
        ensures
            final(reader).contents() == old(reader).contents(),
            r matches Ok(doc) ==> document_matches(doc, old(reader).contents()),
    {
        let header = match Header::new(reader, 0) {
            Ok(h) => h,
            Err(e) => {
                return Err(e);
            },
        };
        let text_bytes = match reader.read_bytes(0, header.text_start, header.text_end) {
            Ok(b) => b,
            Err(e) => {
                return Err(e);
            },
        };
        let text = match Text::new(&text_bytes) {
            Ok(t) => t,
            Err(e) => {
                return Err(e);
            },
        };
        let tot = match text.total_events() {
            Ok(v) => v,
            Err(e) => {
                return Err(e);
            },
        };
        let par = match text.parameters_number() {
            Ok(v) => v,
            Err(e) => {
                return Err(e);
            },
        };
        let data_type = match text.data_type() {
            Ok(v) => v,
            Err(e) => {
                return Err(e);
            },
        };
        let byteord = match text.byteord() {
            Ok(v) => v,
            Err(e) => {
                return Err(e);
            },
        };
        let data_bytes = match reader.read_bytes(0, header.data_start, header.data_end) {
            Ok(b) => b,
            Err(e) => {
                return Err(e);
            },
        };
        let data = match Data::new(&data_bytes, data_type, byteord) {
            Ok(d) => d,
            Err(e) => {
                return Err(e);
            },
        };
        proof {
            assert((par as u64) * (tot as u64) <= u64::MAX) by (nonlinear_arith)
                requires
                    par <= u32::MAX,
                    tot <= u32::MAX,
            ;
        }
        let expected = (par as u64) * (tot as u64);
        if (data.len() as u64) != expected {
            return Err(FlowError::DataLengthMismatch);
        }
        Ok(Fcs { header, data, text })
    }

    /// Reads the ANALYSIS segment a header declares and parses it as a
    /// keyword dictionary, or returns `None` without touching the source
    /// when the header declares none.
    pub fn read_analysis<R: ByteRead>(reader: &mut R, header: &Header) -> (r: Result<
        Option<Text>,
        FlowError,
    >)
        ensures
            final(reader).contents() == old(reader).contents(),
            header.analysis_start is None || header.analysis_end is None ==> (r matches Ok(o)
                && o is None),
            r matches Ok(o) ==> (o matches Some(t) ==> {
                let a = header.analysis_start->0;
                let b = header.analysis_end->0;
                &&& header.analysis_start is Some
                &&& header.analysis_end is Some
                &&& a <= b
                &&& b < old(reader).contents().len()
                &&& t@ == text_dict(old(reader).contents().subrange(a as int, b + 1))
            }),
            (header.analysis_start matches Some(a) && header.analysis_end matches Some(b) && a
                > b) ==> r == Err::<Option<Text>, FlowError>(FlowError::MalformedHeader),
    {
        let (start, stop) = match (header.analysis_start, header.analysis_end) {
            (Some(a), Some(b)) => (a, b),
            _ => {
                return Ok(None);
            },
        };
        if start > stop {
            return Err(FlowError::MalformedHeader);
        }
        let bytes = match reader.read_bytes(0, start, stop) {
            Ok(b) => b,
            Err(e) => {
                return Err(e);
            },
        };
        match Text::new(&bytes) {
            Ok(t) => Ok(Some(t)),
            Err(e) => Err(e),
        }
    }

    /// The decoded HEADER.
    pub fn header(&self) -> (r: &Header)
        ensures
            *r == self.header,
    {
        &self.header
    }

    /// The keyword dictionary of the TEXT segment.
    pub fn dictionary(&self) -> (r: &Text)
        ensures
            *r == self.text,
    {
        &self.text
    }

    /// The decoded DATA segment.
    pub fn data(&self) -> (r: &Data)
        ensures
            *r == self.data,
    {
        &self.data
    }

    /// `$TOT`: how many events the document holds.
    pub fn total_events(&self) -> (r: Result<u32, FlowError>)
        ensures
            r is Ok <==> has_u32(self.text@, "$TOT"@),
            r matches Ok(v) ==> v == dec_val(self.text@["$TOT"@]),
    {
        self.text.total_events()
    }

    /// The parameters declared by the dictionary.
    pub fn parameters(&self) -> (r: Result<Vec<Parameter>, FlowError>)
        ensures
            r matches Ok(ps) ==> ps@.len() == dec_val(self.text@["$PAR"@]) && forall|k: int|
                0 <= k < ps@.len() ==> param_wf(self.text@, #[trigger] ps@[k], k + 1),
    {
        self.text.parameters()
    }

    /// The gates declared by the dictionary.
    pub fn gates(&self) -> (r: Result<Vec<Gate>, FlowError>)
        ensures
            r matches Ok(gs) ==> forall|k: int|
                0 <= k < gs@.len() ==> gate_wf(self.text@, #[trigger] gs@[k], k + 1),
    {
        self.text.gates()
    }

    /// The optional operator, experiment and instrument keywords.
    pub fn metadata(&self) -> (r: Metadata)
        ensures
            opt_field(self.text@, "$OP"@, r.operator),
            opt_field(self.text@, "$CYT"@, r.fc_name),
    {
        self.text.metadata()
    }
}

} // verus!
