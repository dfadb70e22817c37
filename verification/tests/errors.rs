//! The decode error taxonomy: one input per variant.

use pipewire_native_protocol::core_proxy::{CoreEvent, Hello};
use pipewire_native_protocol::deserialize::deserialize_pod;
use pipewire_native_protocol::error::PodError;
use pipewire_native_protocol::serialize::serialize_pod;
use pipewire_native_protocol::value::Value;

#[test]
fn unsupported_type_code() {
    // header (size 0, type 99): no such pod type.
    let mut bytes = serialize_pod(&Value::Null).unwrap();
    bytes[4] = 99;
    assert_eq!(deserialize_pod(&bytes, 0), Err(PodError::UnsupportedType));
}

#[test]
fn truncated_input_is_a_parse_error() {
    let bytes = serialize_pod(&Value::Long(1)).unwrap();
    let cut: Vec<u8> = bytes[..bytes.len() - 1].to_vec();
    assert_eq!(deserialize_pod(&cut, 0), Err(PodError::ParseError));
}

#[test]
fn string_without_terminator_is_a_parse_error() {
    let mut bytes = serialize_pod(&Value::String(b"abcdefg".to_vec())).unwrap();
    // Body is "abcdefg\0"; overwrite the NUL.
    bytes[15] = b'x';
    assert_eq!(deserialize_pod(&bytes, 0), Err(PodError::ParseError));
}

#[test]
fn invalid_choice_type() {
    // Choice body: kind 9 does not exist.
    let mut bytes = Vec::new();
    bytes.extend_from_slice(&20u32.to_le_bytes());
    bytes.extend_from_slice(&19u32.to_le_bytes());
    bytes.extend_from_slice(&9u32.to_le_bytes());
    bytes.extend_from_slice(&0u32.to_le_bytes());
    bytes.extend_from_slice(&4u32.to_le_bytes());
    bytes.extend_from_slice(&4u32.to_le_bytes());
    bytes.extend_from_slice(&1u32.to_le_bytes());
    bytes.extend_from_slice(&0u32.to_le_bytes());
    assert_eq!(deserialize_pod(&bytes, 0), Err(PodError::InvalidChoiceType));
}

#[test]
fn missing_choice_values() {
    // Choice body: kind 0 (no choice) but zero values.
    let mut bytes = Vec::new();
    bytes.extend_from_slice(&16u32.to_le_bytes());
    bytes.extend_from_slice(&19u32.to_le_bytes());
    bytes.extend_from_slice(&0u32.to_le_bytes());
    bytes.extend_from_slice(&0u32.to_le_bytes());
    bytes.extend_from_slice(&4u32.to_le_bytes());
    bytes.extend_from_slice(&4u32.to_le_bytes());
    assert_eq!(deserialize_pod(&bytes, 0), Err(PodError::MissingChoiceValues));
}

#[test]
fn typed_reader_rejects_wrong_field_types() {
    let v = Value::Struct(vec![Value::String(b"not an int".to_vec())]);
    assert_eq!(Hello::from_value(&v), Err(PodError::InvalidType));
}

#[test]
fn typed_reader_reports_missing_fields() {
    let v = Value::Struct(Vec::new());
    assert_eq!(Hello::from_value(&v), Err(PodError::PropertyMissing));
}

#[test]
fn unknown_event_opcode_is_invalid() {
    let v = Value::Struct(vec![Value::Int(1), Value::Int(2)]);
    assert!(CoreEvent::from_body(250, &v).is_err());
}

#[test]
fn extra_trailing_fields_are_tolerated() {
    let v = Value::Struct(vec![Value::Int(3), Value::Int(99), Value::String(b"x".to_vec())]);
    let h = Hello::from_value(&v).unwrap();
    assert_eq!(h.version, 3);
}
