use fcs::data::Data;
use fcs::error::FlowError;
use fcs::fcs::Fcs;
use fcs::source::MemorySource;

/// Builds a whole synthetic FCS file from a TEXT segment and a DATA
/// segment, filling the HEADER offsets in.
fn synthetic_file(text: &[u8], data: &[u8]) -> Vec<u8> {
    let text_start = 58;
    let text_end = text_start + text.len() - 1;
    let data_start = text_end + 1;
    let data_end = data_start + data.len() - 1;
    let mut file = Vec::new();
    file.extend_from_slice(b"FCS3.1    ");
    for v in [text_start, text_end, data_start, data_end, 0, 0] {
        file.extend_from_slice(format!("{:>8}", v).as_bytes());
    }
    assert_eq!(file.len(), 58);
    file.extend_from_slice(text);
    file.extend_from_slice(data);
    file
}

#[test]
fn a_synthetic_file_parses_end_to_end() {
    let text = b"\\$PAR\\1\\$TOT\\2\\$BYTEORD\\1,2,3,4\\$DATATYPE\\F\\";
    let data = [
        1.0f32.to_le_bytes(),
        2.5f32.to_le_bytes(),
    ]
    .concat();
    let file = synthetic_file(text, &data);
    let mut src = MemorySource::new(file);
    let doc = Fcs::read_fcs(&mut src).unwrap();
    assert_eq!(doc.header.version, "3.1");
    assert_eq!(doc.header.analysis_start, None);
    assert_eq!(doc.header.analysis_end, None);
    assert_eq!(doc.text.total_events().unwrap(), 2);
    assert_eq!(doc.text.parameters_number().unwrap(), 1);
    match &doc.data {
        Data::Float(bits) => {
            assert_eq!(bits.len(), 2);
            assert_eq!(f32::from_bits(bits[0]), 1.0);
            assert_eq!(f32::from_bits(bits[1]), 2.5);
        },
        other => panic!("expected float data, got {:?}", other),
    }
}

#[test]
fn missing_tot_fails_the_parse() {
    let text = b"\\$PAR\\1\\$BYTEORD\\1,2,3,4\\$DATATYPE\\F\\";
    let file = synthetic_file(text, &[0; 4]);
    let mut src = MemorySource::new(file);
    match Fcs::read_fcs(&mut src) {
        Err(FlowError::MissingRequiredKeyword(k)) => assert_eq!(k, "$TOT"),
        other => panic!("expected MissingRequiredKeyword, got {:?}", other),
    }
}

#[test]
fn wrong_event_count_fails_with_length_mismatch() {
    let text = b"\\$PAR\\1\\$TOT\\3\\$BYTEORD\\1,2,3,4\\$DATATYPE\\F\\";
    let file = synthetic_file(text, &[0; 8]);
    let mut src = MemorySource::new(file);
    assert_eq!(
        Fcs::read_fcs(&mut src).unwrap_err(),
        FlowError::DataLengthMismatch,
    );
}

#[test]
fn ragged_data_segment_fails_as_truncated() {
    let text = b"\\$PAR\\1\\$TOT\\1\\$BYTEORD\\1,2,3,4\\$DATATYPE\\F\\";
    let file = synthetic_file(text, &[0; 7]);
    let mut src = MemorySource::new(file);
    assert_eq!(
        Fcs::read_fcs(&mut src).unwrap_err(),
        FlowError::TruncatedDataSegment,
    );
}

#[test]
fn unknown_data_type_fails_the_parse() {
    let text = b"\\$PAR\\1\\$TOT\\1\\$BYTEORD\\1,2,3,4\\$DATATYPE\\Q\\";
    let file = synthetic_file(text, &[0; 4]);
    let mut src = MemorySource::new(file);
    assert_eq!(Fcs::read_fcs(&mut src).unwrap_err(), FlowError::InvalidDataType);
}

#[test]
fn unknown_byte_order_fails_the_parse() {
    let text = b"\\$PAR\\1\\$TOT\\1\\$BYTEORD\\3,1,2,4\\$DATATYPE\\F\\";
    let file = synthetic_file(text, &[0; 4]);
    let mut src = MemorySource::new(file);
    assert_eq!(Fcs::read_fcs(&mut src).unwrap_err(), FlowError::InvalidByteOrder);
}

#[test]
fn data_range_past_the_end_fails_with_io_error() {
    let text = b"\\$PAR\\1\\$TOT\\2\\$BYTEORD\\1,2,3,4\\$DATATYPE\\F\\";
    let mut file = synthetic_file(text, &[0; 8]);
    file.truncate(file.len() - 4);
    let mut src = MemorySource::new(file);
    assert_eq!(Fcs::read_fcs(&mut src).unwrap_err(), FlowError::IoError);
}

#[test]
fn declared_analysis_segment_reads_as_a_dictionary() {
    let mut bytes = vec![0u8; 10];
    bytes.extend_from_slice(b"/ab/cd/e/f/");
    let mut src = MemorySource::new(bytes);
    let header = fcs::header::Header::from_fields(
        &b"3.1".to_vec(),
        &b"0".to_vec(),
        &b"0".to_vec(),
        &b"0".to_vec(),
        &b"0".to_vec(),
        &b"10".to_vec(),
        &b"20".to_vec(),
    )
    .unwrap();
    let t = Fcs::read_analysis(&mut src, &header).unwrap().unwrap();
    assert_eq!(t.get("ab").unwrap().as_str(), "cd");
    assert_eq!(t.get("e").unwrap().as_str(), "f");
}

#[test]
fn absent_analysis_segment_reads_nothing() {
    // The source is empty: with no ANALYSIS range declared, no read is
    // attempted and none could succeed.
    let mut src = MemorySource::new(Vec::new());
    let header = fcs::header::Header::from_fields(
        &b"3.1".to_vec(),
        &b"0".to_vec(),
        &b"0".to_vec(),
        &b"0".to_vec(),
        &b"0".to_vec(),
        &b"0".to_vec(),
        &b"0".to_vec(),
    )
    .unwrap();
    assert!(Fcs::read_analysis(&mut src, &header).unwrap().is_none());
}

#[test]
fn big_endian_data_parses_end_to_end() {
    let text = b"\\$PAR\\2\\$TOT\\1\\$BYTEORD\\4,3,2,1\\$DATATYPE\\I\\";
    let data = [5i32.to_be_bytes(), (-7i32).to_be_bytes()].concat();
    let file = synthetic_file(text, &data);
    let mut src = MemorySource::new(file);
    let doc = Fcs::read_fcs(&mut src).unwrap();
    match &doc.data {
        Data::Int(v) => assert_eq!(v, &vec![5, -7]),
        other => panic!("expected int data, got {:?}", other),
    }
}
