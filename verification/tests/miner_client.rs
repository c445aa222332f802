use std::collections::VecDeque;

use sn2_validator::json::Json;
use sn2_validator::miner_client::{
    answer_body, read_answer, rmpv_to_json_value, to_json_bounded, too_deep_text, Msg, MsgKey,
    TooDeep,
};

use rmpv::Value;

const MAX_DEPTH: usize = 64;

fn text_at<'a>(json: &'a Json, key: &str) -> Option<&'a str> {
    json.get(key).and_then(|v| v.as_str())
}

#[test]
fn binary_field_becomes_hex_string() {
    let bytes = vec![0xde, 0xad, 0xbe, 0xef];
    let value = Value::Map(vec![(Value::String("proof".into()), Value::Binary(bytes))]);
    let json = rmpv_to_json_value(value, MAX_DEPTH).unwrap();
    assert_eq!(text_at(&json, "proof"), Some("deadbeef"));
}

#[test]
fn legacy_string_payloads_pass_through() {
    let value =
        Value::Map(vec![(Value::String("proof".into()), Value::String("deadbeef".into()))]);
    let json = rmpv_to_json_value(value, MAX_DEPTH).unwrap();
    assert_eq!(text_at(&json, "proof"), Some("deadbeef"));
}

#[test]
fn non_utf8_map_keys_are_lossless() {
    let bytes: &[u8] = &[0x82, 0xa2, 0xff, 0x00, 0x01, 0xa2, 0xfe, 0x01, 0x02];
    let value = rmpv::decode::read_value(&mut std::io::Cursor::new(bytes)).expect("decode");
    let json = rmpv_to_json_value(value, MAX_DEPTH).unwrap();
    let obj = json.as_object().expect("map");
    assert_eq!(obj.len(), 2, "non-utf8 keys must not collide");
    assert!(obj.iter().all(|(k, _)| k.starts_with("__msgpack_str_hex:")));
    assert!(json.get("__msgpack_str_hex:ff00").is_some());
    assert!(json.get("__msgpack_str_hex:fe01").is_some());
}

#[test]
fn nested_binary_in_arrays_is_hex_encoded() {
    let value = Value::Array(vec![Value::Binary(vec![0x01, 0x02]), Value::String("abc".into())]);
    let json = rmpv_to_json_value(value, MAX_DEPTH).unwrap();
    let list = json.as_array().unwrap();
    assert_eq!(list[0].as_str(), Some("0102"));
    assert_eq!(list[1].as_str(), Some("abc"));
}

#[test]
fn nesting_beyond_depth_limit_is_rejected() {
    let mut value = Value::Nil;
    for _ in 0..=MAX_DEPTH {
        value = Value::Array(vec![value]);
    }
    assert!(matches!(rmpv_to_json_value(value, MAX_DEPTH), Err(TooDeep)));
    let err = too_deep_text(MAX_DEPTH);
    assert!(err.contains("nesting depth"), "unexpected error: {err}");
    assert_eq!(err, "miner response nesting depth exceeds 64");
}

#[test]
fn nesting_at_depth_limit_is_accepted() {
    let mut value = Value::Boolean(true);
    for _ in 0..MAX_DEPTH {
        value = Value::Array(vec![value]);
    }
    assert!(rmpv_to_json_value(value, MAX_DEPTH).is_ok());
}

#[test]
fn numbers_keep_their_value() {
    let value = Value::Array(vec![
        Value::from(u64::MAX),
        Value::from(-7i64),
        Value::F64(0.5),
        Value::F32(0.25),
        Value::F64(f64::NAN),
        Value::Nil,
        Value::Boolean(false),
        Value::Ext(1, vec![0xab]),
    ]);
    let json = rmpv_to_json_value(value, MAX_DEPTH).unwrap();
    let list = json.as_array().unwrap();
    assert_eq!(list[0].as_u64(), Some(u64::MAX));
    assert!(matches!(&list[1], Json::Negative(-7)));
    assert!(matches!(&list[2], Json::Decimal(t) if t == "0.5"));
    assert!(matches!(&list[3], Json::Decimal(t) if t == "0.25"));
    assert!(matches!(&list[4], Json::Null));
    assert!(matches!(&list[5], Json::Null));
    assert!(matches!(&list[6], Json::Bool(false)));
}

#[test]
fn keys_that_are_no_text_are_written_out() {
    let value = Value::Map(vec![(Value::from(5u64), Value::Boolean(true))]);
    let json = rmpv_to_json_value(value, MAX_DEPTH).unwrap();
    assert!(matches!(json.get("5"), Some(Json::Bool(true))));
}

#[test]
fn the_fields_of_an_answer_become_members() {
    let data = vec![
        ("proof".to_string(), Msg::Binary(vec![0xca, 0xfe])),
        ("count".to_string(), Msg::Unsigned(3)),
    ];
    let json = answer_body(&data, MAX_DEPTH).unwrap();
    assert_eq!(text_at(&json, "proof"), Some("cafe"));
    assert_eq!(json.get("count").and_then(|v| v.as_u64()), Some(3));
    let deep = vec![("x".to_string(), Msg::Array(vec![Msg::Nil]))];
    assert!(answer_body(&deep, 0).is_err());
}

#[test]
fn answers_are_read_as_they_come() {
    let data: VecDeque<(String, Value)> = VecDeque::from(vec![
        ("proof".to_string(), Value::Binary(vec![0xca, 0xfe])),
        ("time".to_string(), Value::F64(0.9452706955539223)),
        ("list".to_string(), Value::Array(vec![Value::from(1u64), Value::Nil])),
    ]);
    let json = read_answer(data, MAX_DEPTH).unwrap();
    assert_eq!(
        json.to_bytes(),
        b"{\"list\":[1,null],\"proof\":\"cafe\",\"time\":0.9452706955539223}".to_vec()
    );
    let deep = vec![
        ("a".to_string(), Value::Nil),
        ("b".to_string(), Value::Array(vec![Value::Array(vec![Value::Nil])])),
    ];
    assert!(matches!(read_answer(VecDeque::from(deep.clone()), 1), Err(TooDeep)));
    assert!(read_answer(VecDeque::from(deep), 2).is_ok());
}

#[test]
fn only_so_many_levels_are_opened() {
    let mut value = Value::Nil;
    for _ in 0..5_000 {
        value = Value::Map(vec![(Value::from("k"), value)]);
    }
    assert!(matches!(rmpv_to_json_value(value, MAX_DEPTH), Err(TooDeep)));
    assert!(rmpv_to_json_value(Value::Array(vec![]), 0).is_ok());
}

#[test]
fn levels_that_are_taken_count() {
    let value = Msg::Dict(vec![(MsgKey::Raw(vec![0xff]), Msg::Array(vec![Msg::Bool(true)]))]);
    assert!(matches!(to_json_bounded(&value, 2, 3), Err(TooDeep)));
    let json = to_json_bounded(&value, 1, 3).unwrap();
    assert_eq!(json.to_bytes(), b"{\"__msgpack_str_hex:ff\":[true]}".to_vec());
}
