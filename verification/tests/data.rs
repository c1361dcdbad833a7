use fcs::data::{Byteord, Data, DataType};
use fcs::error::FlowError;

fn big() -> Byteord {
    Byteord::BigEndian("4,3,2,1".to_string())
}

fn little() -> Byteord {
    Byteord::LittleEndian("1,2,3,4".to_string())
}

#[test]
fn float_bytes_depend_on_byte_order() {
    let bytes = vec![0x00, 0x00, 0x80, 0x3F];
    let le = Data::new(&bytes, DataType::Float, little()).unwrap();
    let be = Data::new(&bytes, DataType::Float, big()).unwrap();
    match (le, be) {
        (Data::Float(l), Data::Float(b)) => {
            assert_eq!(l, vec![0x3F80_0000]);
            assert_eq!(b, vec![0x0000_803F]);
            assert_eq!(f32::from_bits(l[0]), 1.0);
            assert_ne!(f32::from_bits(b[0]), f32::from_bits(l[0]));
        },
        other => panic!("expected float data, got {:?}", other),
    }
}

#[test]
fn int_bytes_decode_in_both_orders() {
    let bytes = vec![0x00, 0x00, 0x01, 0x02, 0xFF, 0xFF, 0xFF, 0xFF];
    match Data::new(&bytes, DataType::Int, big()).unwrap() {
        Data::Int(v) => assert_eq!(v, vec![258, -1]),
        other => panic!("expected int data, got {:?}", other),
    }
    match Data::new(&bytes, DataType::Int, little()).unwrap() {
        Data::Int(v) => assert_eq!(v, vec![0x0201_0000, -1]),
        other => panic!("expected int data, got {:?}", other),
    }
}

#[test]
fn double_bytes_decode_to_their_bit_patterns() {
    let one = 1.0f64.to_bits();
    let bytes = one.to_le_bytes().to_vec();
    match Data::new(&bytes, DataType::Double, little()).unwrap() {
        Data::Double(v) => {
            assert_eq!(v, vec![one]);
            assert_eq!(f64::from_bits(v[0]), 1.0);
        },
        other => panic!("expected double data, got {:?}", other),
    }
    let be_bytes = one.to_be_bytes().to_vec();
    match Data::new(&be_bytes, DataType::Double, big()).unwrap() {
        Data::Double(v) => assert_eq!(f64::from_bits(v[0]), 1.0),
        other => panic!("expected double data, got {:?}", other),
    }
}

#[test]
fn length_not_a_multiple_of_the_word_size_is_truncated() {
    let r = Data::new(&vec![1, 2, 3, 4, 5], DataType::Int, little());
    assert_eq!(r.unwrap_err(), FlowError::TruncatedDataSegment);
    let r = Data::new(&vec![0; 9], DataType::Double, little());
    assert_eq!(r.unwrap_err(), FlowError::TruncatedDataSegment);
    let r = Data::new(&vec![0; 6], DataType::Float, big());
    assert_eq!(r.unwrap_err(), FlowError::TruncatedDataSegment);
}

#[test]
fn decoded_length_counts_words() {
    let d = Data::new(&vec![0; 16], DataType::Float, little()).unwrap();
    assert_eq!(d.len(), 4);
    let d = Data::new(&vec![0; 16], DataType::Double, little()).unwrap();
    assert_eq!(d.len(), 2);
    let d = Data::new(&Vec::new(), DataType::Int, big()).unwrap();
    assert_eq!(d.len(), 0);
}
