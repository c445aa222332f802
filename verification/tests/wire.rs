use std::io::Write;

use base64::Engine;
use flate2::write::GzEncoder;
use flate2::Compression;

use sn2_validator::json::Json;
use sn2_validator::tensor::{check_shape, shape_size, ShapeError};
use sn2_validator::wire::{
    decode_gzipped_protobuf_tensor, decode_message, decode_protobuf_tensor, packed_numbers,
    read_varint, TensorError, VarintError,
};

fn packed(values: &[f32]) -> Vec<u8> {
    let mut m = vec![0x0a, (values.len() * 4) as u8];
    for v in values {
        m.extend_from_slice(&v.to_le_bytes());
    }
    m
}

fn gzipped(raw: &[u8]) -> Vec<u8> {
    let mut e = GzEncoder::new(Vec::new(), Compression::default());
    e.write_all(raw).unwrap();
    e.finish().unwrap()
}

fn floats(data: &[u32]) -> Vec<f32> {
    data.iter().map(|b| f32::from_bits(*b)).collect()
}

#[test]
fn varints_are_read_low_bits_first() {
    assert_eq!(read_varint(&[0x00], 0), Ok((0, 1)));
    assert_eq!(read_varint(&[0xac, 0x02, 0xff], 0), Ok((300, 2)));
    assert_eq!(read_varint(&[0xff, 0x05], 1), Ok((5, 2)));
    assert_eq!(read_varint(&[0x80], 0), Err(VarintError::Unterminated));
    assert_eq!(read_varint(&[], 0), Err(VarintError::Unterminated));
    assert_eq!(read_varint(&[0x01], 5), Err(VarintError::Unterminated));
    assert_eq!(read_varint(&[0x80; 11], 0), Err(VarintError::TooLong));
}

#[test]
fn packed_and_single_numbers_are_collected() {
    let mut m = packed(&[1.0, -2.5]);
    m.push(0x0d);
    m.extend_from_slice(&3.0f32.to_le_bytes());
    m.extend_from_slice(&[0x10, 0x96, 0x01]);
    m.push(0x19);
    m.extend_from_slice(&[0; 8]);
    m.extend_from_slice(&[0x22, 0x02, 0xaa, 0xbb]);
    assert_eq!(floats(&packed_numbers(&m).unwrap()), vec![1.0, -2.5, 3.0]);
}

#[test]
fn broken_messages_are_refused() {
    assert_eq!(packed_numbers(&[0x0a, 0x04, 1, 2]), Err(TensorError::PackedOverflow));
    assert_eq!(packed_numbers(&[0x0d, 1, 2]), Err(TensorError::FixedOverflow));
    assert_eq!(packed_numbers(&[0x0b]), Err(TensorError::UnknownWireType(3)));
    assert_eq!(packed_numbers(&[0x80]), Err(TensorError::Varint(VarintError::Unterminated)));
}

#[test]
fn tensors_come_in_base_64_and_compressed() {
    let raw = packed(&[1.0, 2.0, 3.0, 4.0]);
    let data = gzipped(&raw);
    let text = base64::engine::general_purpose::STANDARD.encode(&data);
    let tensor = decode_protobuf_tensor(&text, &vec![2, 2]).unwrap();
    assert_eq!(tensor.shape, vec![2, 2]);
    assert_eq!(floats(&tensor.data), vec![1.0, 2.0, 3.0, 4.0]);
    let tensor = decode_gzipped_protobuf_tensor(&data, &vec![4]).unwrap();
    assert_eq!(floats(&tensor.data), vec![1.0, 2.0, 3.0, 4.0]);
    assert!(matches!(
        decode_protobuf_tensor("?", &vec![4]),
        Err(TensorError::NotBase64)
    ));
    assert!(matches!(
        decode_gzipped_protobuf_tensor(&raw, &vec![4]),
        Err(TensorError::NotGzip)
    ));
    assert!(matches!(
        decode_message(&raw, &vec![3]),
        Err(TensorError::CountMismatch(4))
    ));
}

#[test]
fn shapes_say_how_many_numbers_there_are() {
    assert_eq!(shape_size(&vec![2, 3, 4]), Some(24));
    assert_eq!(shape_size(&vec![]), Some(1));
    assert_eq!(shape_size(&vec![usize::MAX, 2]), None);
    assert_eq!(check_shape(&vec![2, 3], 6), Ok(()));
    assert_eq!(check_shape(&vec![2, 3], 5), Err(ShapeError::CountMismatch(5)));
    assert_eq!(check_shape(&vec![], 2), Err(ShapeError::ScalarExpected(2)));
}

#[test]
fn values_read_back_as_they_were_written() {
    let text = b"{\"a\":[1,-2,2.5,null,true,\"x\"],\"b\":{}}";
    let json = Json::parse(text).unwrap();
    assert_eq!(json.to_bytes(), text.to_vec());
    let list = json.get("a").unwrap().as_array().unwrap();
    assert_eq!(list[0].as_u64(), Some(1));
    assert!(matches!(&list[1], Json::Negative(-2)));
    assert!(matches!(&list[2], Json::Decimal(t) if t == "2.5"));
    assert!(matches!(&list[3], Json::Null));
    assert_eq!(list[5].as_str(), Some("x"));
    assert!(Json::parse(b"{").is_err());
    assert!(Json::parse(b"").unwrap_err().contains("EOF"));
}

#[test]
fn of_equal_keys_the_last_counts() {
    let json = Json::parse(b"{\"a\":1,\"a\":2}").unwrap();
    assert_eq!(json.get("a").and_then(|v| v.as_u64()), Some(2));
}

#[test]
fn numbers_keep_every_digit() {
    for text in ["0.9452706955539223", "0.38120423768821243", "-0.21659939713061338", "5.0", "1e300"] {
        let json = Json::Array(vec![Json::Decimal(text.to_string())]);
        let digits: f64 = text.parse().unwrap();
        let expected = serde_json::to_vec(&serde_json::Value::from(vec![digits])).unwrap();
        assert_eq!(json.to_bytes(), expected);
    }
    let kept = Json::Decimal("0.9452706955539223".to_string());
    assert_eq!(kept.to_bytes(), b"0.9452706955539223".to_vec());
    for text in ["x", "1e999", "inf", "NaN"] {
        assert_eq!(Json::Decimal(text.to_string()).to_bytes(), b"null".to_vec());
    }
}

#[test]
fn what_is_read_is_written_as_it_was_read() {
    let text = b"[0.9452706955539223,18446744073709551616,-0.0,1e-7]";
    let value: serde_json::Value = serde_json::from_slice(text).unwrap();
    let json = Json::parse(text).unwrap();
    assert_eq!(json.to_bytes(), serde_json::to_vec(&value).unwrap());
}
