use fcs::data::{Byteord, DataType};
use fcs::error::FlowError;
use fcs::keywords::{OptionalKeyword, RequiredKeyword};
use fcs::text::{parse_pairs, Text};

fn text_of(bytes: &[u8]) -> Text {
    Text::new(&bytes.to_vec()).unwrap()
}

#[test]
fn parses_simple_pairs() {
    let t = text_of(b"/$PAR/3/$TOT/100/");
    assert_eq!(t.get("$PAR").unwrap().as_str(), "3");
    assert_eq!(t.get("$TOT").unwrap().as_str(), "100");
    assert!(t.get("$MODE").is_none());
}

#[test]
fn delimiter_is_read_from_the_first_byte() {
    let t = text_of(b"|$PAR|3|");
    assert_eq!(t.get("$PAR").unwrap().as_str(), "3");
    let u = text_of(b"!$PAR!7!");
    assert_eq!(u.get("$PAR").unwrap().as_str(), "7");
}

#[test]
fn doubled_delimiter_is_a_literal() {
    let t = text_of(b"/k//x/v//w/");
    assert_eq!(t.get("k/x").unwrap().as_str(), "v/w");
}

#[test]
fn last_occurrence_of_a_key_wins() {
    let t = text_of(b"/a/1/a/2/");
    assert_eq!(t.get("a").unwrap().as_str(), "2");
    assert_eq!(t.pairs().len(), 1);
}

#[test]
fn trailing_unpaired_token_is_discarded() {
    let t = text_of(b"/a/1/b/");
    assert_eq!(t.get("a").unwrap().as_str(), "1");
    assert!(t.get("b").is_none());
    assert_eq!(t.pairs().len(), 1);
}

#[test]
fn empty_segment_holds_no_pairs() {
    let t = text_of(b"");
    assert!(t.get("a").is_none());
    assert_eq!(t.pairs().len(), 0);
}

#[test]
fn parse_pairs_returns_the_pairs() {
    let ps = parse_pairs(&b"/a/1/b/2/".to_vec()).unwrap();
    assert_eq!(ps, vec![("a".to_string(), "1".to_string()), ("b".to_string(), "2".to_string())]);
}

#[test]
fn multibyte_values_decode_as_utf8() {
    let mut bytes = b"/$SRC/".to_vec();
    bytes.extend_from_slice("µ-well".as_bytes());
    bytes.push(b'/');
    let t = Text::new(&bytes).unwrap();
    assert_eq!(t.get("$SRC").unwrap().as_str(), "µ-well");
}

#[test]
fn invalid_utf8_fails_with_io_error() {
    let r = Text::new(&vec![b'/', b'a', b'/', 0xFF, b'/']);
    assert_eq!(r.unwrap_err(), FlowError::IoError);
}

#[test]
fn missing_tot_is_reported() {
    let t = text_of(b"/$PAR/3/");
    match t.total_events() {
        Err(FlowError::MissingRequiredKeyword(k)) => assert_eq!(k, "$TOT"),
        other => panic!("expected MissingRequiredKeyword, got {:?}", other),
    }
}

#[test]
fn non_numeric_tot_is_reported() {
    let t = text_of(b"/$TOT/many/");
    match t.total_events() {
        Err(FlowError::InvalidKeywordValue(k)) => assert_eq!(k, "$TOT"),
        other => panic!("expected InvalidKeywordValue, got {:?}", other),
    }
}

#[test]
fn oversized_par_is_reported() {
    let t = text_of(b"/$PAR/4294967296/");
    match t.parameters_number() {
        Err(FlowError::InvalidKeywordValue(k)) => assert_eq!(k, "$PAR"),
        other => panic!("expected InvalidKeywordValue, got {:?}", other),
    }
}

#[test]
fn tot_at_the_u32_boundary_still_reads() {
    let t = text_of(b"/$TOT/4294967295/");
    assert_eq!(t.total_events().unwrap(), u32::MAX);
}

#[test]
fn padded_numeric_values_are_rejected() {
    let t = text_of(b"/$TOT/ 12/");
    match t.total_events() {
        Err(FlowError::InvalidKeywordValue(k)) => assert_eq!(k, "$TOT"),
        other => panic!("expected InvalidKeywordValue, got {:?}", other),
    }
}

#[test]
fn required_uint_reads_large_values() {
    let t = text_of(b"/$BEGINDATA/4294967296/");
    assert_eq!(t.required_uint("$BEGINDATA").unwrap(), 4_294_967_296);
}

#[test]
fn require_reports_the_missing_key() {
    let t = text_of(b"/$PAR/3/");
    assert_eq!(t.require("$PAR").unwrap().as_str(), "3");
    match t.require("$MODE") {
        Err(FlowError::MissingRequiredKeyword(k)) => assert_eq!(k, "$MODE"),
        other => panic!("expected MissingRequiredKeyword, got {:?}", other),
    }
}

#[test]
fn parameters_reflect_their_declared_values() {
    let t = text_of(
        b"/$PAR/2/$P1B/16/$P1N/FSC-A/$P1R/1024/$P1S/Forward scatter/$P1G/4/$P2B/32/$P2N/SSC-A/$P2R/4096/",
    );
    let ps = t.parameters().unwrap();
    assert_eq!(ps.len(), 2);
    assert_eq!(ps[0].index, 1);
    assert_eq!(ps[0].bits, 16);
    assert_eq!(ps[0].short_name, "FSC-A");
    assert_eq!(ps[0].range, 1024);
    assert_eq!(ps[0].name.as_deref(), Some("Forward scatter"));
    assert_eq!(ps[0].amplifier_gain, Some(4));
    assert_eq!(ps[1].index, 2);
    assert_eq!(ps[1].bits, 32);
    assert_eq!(ps[1].short_name, "SSC-A");
    assert_eq!(ps[1].range, 4096);
    assert_eq!(ps[1].name, None);
    assert_eq!(ps[1].amplifier_gain, None);
}

#[test]
fn parameters_len_equals_parameters_number() {
    let t = text_of(b"/$PAR/2/$P1B/16/$P1N/a/$P1R/4/$P2B/16/$P2N/b/$P2R/4/");
    let n = t.parameters_number().unwrap();
    let ps = t.parameters().unwrap();
    assert_eq!(ps.len() as u32, n);
}

#[test]
fn missing_parameter_field_fails_the_whole_call() {
    let t = text_of(b"/$PAR/2/$P1B/16/$P1N/a/$P1R/4/$P2B/16/$P2R/4/");
    match t.parameters() {
        Err(FlowError::MissingRequiredKeyword(k)) => assert_eq!(k, "$P2N"),
        other => panic!("expected MissingRequiredKeyword, got {:?}", other),
    }
}

#[test]
fn bad_gain_fails_the_whole_call() {
    let t = text_of(b"/$PAR/1/$P1B/16/$P1N/a/$P1R/4/$P1G/high/");
    match t.parameters() {
        Err(FlowError::InvalidKeywordValue(k)) => assert_eq!(k, "$P1G"),
        other => panic!("expected InvalidKeywordValue, got {:?}", other),
    }
}

#[test]
fn gates_follow_the_gate_count() {
    let t = text_of(b"/$GATE/2/$G1S/lymphocytes/");
    let gs = t.gates().unwrap();
    assert_eq!(gs.len(), 2);
    assert_eq!(gs[0].index, 1);
    assert_eq!(gs[0].name.as_deref(), Some("lymphocytes"));
    assert_eq!(gs[1].index, 2);
    assert_eq!(gs[1].name, None);
}

#[test]
fn absent_gate_keyword_means_no_gates() {
    let t = text_of(b"/$PAR/1/");
    assert_eq!(t.gates_number().unwrap(), None);
    assert_eq!(t.gates().unwrap().len(), 0);
}

#[test]
fn metadata_collects_the_optional_keywords() {
    let t = text_of(b"/$OP/jane/$CYT/cytometer-9/$SYS/macOS/");
    let m = t.metadata();
    assert_eq!(m.operator.as_deref(), Some("jane"));
    assert_eq!(m.fc_name.as_deref(), Some("cytometer-9"));
    assert_eq!(m.system.as_deref(), Some("macOS"));
    assert_eq!(m.experiment_director, None);
    assert_eq!(m.file_name, None);
    assert_eq!(m.fc_serial, None);
    assert_eq!(m.institute, None);
    assert_eq!(m.source, None);
}

#[test]
fn data_type_maps_the_three_letters() {
    assert_eq!(text_of(b"/$DATATYPE/I/").data_type().unwrap(), DataType::Int);
    assert_eq!(text_of(b"/$DATATYPE/F/").data_type().unwrap(), DataType::Float);
    assert_eq!(text_of(b"/$DATATYPE/D/").data_type().unwrap(), DataType::Double);
    assert_eq!(
        text_of(b"/$DATATYPE/A/").data_type().unwrap_err(),
        FlowError::InvalidDataType,
    );
}

#[test]
fn byteord_maps_the_declared_orders() {
    match text_of(b"/$BYTEORD/4,3,2,1/").byteord().unwrap() {
        Byteord::BigEndian(s) => assert_eq!(s, "4,3,2,1"),
        other => panic!("expected big-endian, got {:?}", other),
    }
    match text_of(b"/$BYTEORD/2,1/").byteord().unwrap() {
        Byteord::BigEndian(s) => assert_eq!(s, "2,1"),
        other => panic!("expected big-endian, got {:?}", other),
    }
    match text_of(b"/$BYTEORD/1,2,3,4/").byteord().unwrap() {
        Byteord::LittleEndian(s) => assert_eq!(s, "1,2,3,4"),
        other => panic!("expected little-endian, got {:?}", other),
    }
    match text_of(b"/$BYTEORD/1,2/").byteord().unwrap() {
        Byteord::LittleEndian(s) => assert_eq!(s, "1,2"),
        other => panic!("expected little-endian, got {:?}", other),
    }
    assert_eq!(
        text_of(b"/$BYTEORD/3,4,1,2/").byteord().unwrap_err(),
        FlowError::InvalidByteOrder,
    );
}

#[test]
fn get_indexed_builds_the_key() {
    let t = text_of(b"/$P12N/CD3/");
    assert_eq!(t.get_indexed("$P", 12, "N").unwrap().as_str(), "CD3");
    assert!(t.get_indexed("$P", 11, "N").is_none());
}

#[test]
fn required_keywords_convert_both_ways() {
    assert!(matches!(
        RequiredKeyword::try_from("$PAR".to_string()),
        Ok(RequiredKeyword::Par)
    ));
    assert!(matches!(
        RequiredKeyword::try_from("$BYTEORD".to_string()),
        Ok(RequiredKeyword::Byteord)
    ));
    assert!(RequiredKeyword::try_from("$NOPE".to_string()).is_err());
    assert_eq!(RequiredKeyword::Tot.to_string(), "$TOT");
    assert_eq!(RequiredKeyword::BeginAnalysis.to_string(), "$BEGINANALYSIS");
}

#[test]
fn optional_keywords_convert_both_ways() {
    assert!(matches!(
        OptionalKeyword::try_from("$CYTSN".to_string()),
        Ok(OptionalKeyword::Cytsn)
    ));
    assert!(matches!(
        OptionalKeyword::try_from("$INST".to_string()),
        Ok(OptionalKeyword::Inst)
    ));
    assert!(OptionalKeyword::try_from("$PAR".to_string()).is_err());
    assert_eq!(OptionalKeyword::WellId.to_string(), "$WELLID");
    assert_eq!(OptionalKeyword::Inst.to_string(), "$INST");
}
