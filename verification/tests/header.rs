use fcs::error::FlowError;
use fcs::header::Header;
use fcs::source::MemorySource;
use fcs::traits::ByteRead;

fn field(text: &str) -> Vec<u8> {
    format!("{:>8}", text).into_bytes()
}

#[test]
fn from_fields_reads_a_valid_header() {
    let h = Header::from_fields(
        &b"3.1".to_vec(),
        &field("58"),
        &field("120"),
        &field("121"),
        &field("200"),
        &field("0"),
        &field("0"),
    )
    .unwrap();
    assert_eq!(h.version, "3.1");
    assert_eq!(h.text_start, 58);
    assert_eq!(h.text_end, 120);
    assert_eq!(h.data_start, 121);
    assert_eq!(h.data_end, 200);
    assert_eq!(h.analysis_start, None);
    assert_eq!(h.analysis_end, None);
}

#[test]
fn text_range_out_of_order_is_malformed() {
    let r = Header::from_fields(
        &b"3.1".to_vec(),
        &field("100"),
        &field("50"),
        &field("121"),
        &field("200"),
        &field("0"),
        &field("0"),
    );
    assert_eq!(r.unwrap_err(), FlowError::MalformedHeader);
}

#[test]
fn data_range_out_of_order_is_malformed() {
    let r = Header::from_fields(
        &b"3.1".to_vec(),
        &field("58"),
        &field("120"),
        &field("300"),
        &field("200"),
        &field("0"),
        &field("0"),
    );
    assert_eq!(r.unwrap_err(), FlowError::MalformedHeader);
}

#[test]
fn non_numeric_offset_is_malformed() {
    let r = Header::from_fields(
        &b"3.1".to_vec(),
        &field("fifty"),
        &field("120"),
        &field("121"),
        &field("200"),
        &field("0"),
        &field("0"),
    );
    assert_eq!(r.unwrap_err(), FlowError::MalformedHeader);
}

#[test]
fn non_decimal_version_is_malformed() {
    let r = Header::from_fields(
        &b"abc".to_vec(),
        &field("58"),
        &field("120"),
        &field("121"),
        &field("200"),
        &field("0"),
        &field("0"),
    );
    assert_eq!(r.unwrap_err(), FlowError::MalformedHeader);
}

#[test]
fn zero_analysis_offsets_mean_absent() {
    let h = Header::from_fields(
        &b"3.0".to_vec(),
        &field("58"),
        &field("120"),
        &field("121"),
        &field("200"),
        &field("0"),
        &field("0"),
    )
    .unwrap();
    assert!(h.analysis_start.is_none());
    assert!(h.analysis_end.is_none());
}

#[test]
fn nonzero_analysis_offsets_are_kept() {
    let h = Header::from_fields(
        &b"3.0".to_vec(),
        &field("58"),
        &field("120"),
        &field("121"),
        &field("200"),
        &field("201"),
        &field("260"),
    )
    .unwrap();
    assert_eq!(h.analysis_start, Some(201));
    assert_eq!(h.analysis_end, Some(260));
}

#[test]
fn header_reads_through_a_source() {
    let mut bytes = Vec::new();
    bytes.extend_from_slice(b"FCS3.1    ");
    for v in ["58", "120", "121", "200", "0", "0"] {
        bytes.extend_from_slice(format!("{:>8}", v).as_bytes());
    }
    let mut src = MemorySource::new(bytes);
    let h = Header::new(&mut src, 0).unwrap();
    assert_eq!(h.version, "3.1");
    assert_eq!(h.text_start, 58);
    assert_eq!(h.data_end, 200);
}

#[test]
fn short_source_fails_with_io_error() {
    let mut src = MemorySource::new(b"FCS3.1".to_vec());
    let r = Header::new(&mut src, 0);
    assert_eq!(r.unwrap_err(), FlowError::IoError);
}

#[test]
fn source_reads_exact_ranges() {
    let mut src = MemorySource::new(vec![10, 11, 12, 13, 14, 15]);
    assert_eq!(src.read_bytes(0, 1, 3).unwrap(), vec![11, 12, 13]);
    assert_eq!(src.read_bytes(2, 0, 1).unwrap(), vec![12, 13]);
    assert_eq!(src.read_bytes(0, 4, 6).unwrap_err(), FlowError::IoError);
}
