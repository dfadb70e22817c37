//! Round-trip checks for the POD codec: serialize then deserialize and
//! compare, across every value kind, plus the padding and header laws on
//! concrete values.

use pipewire_native_protocol::deserialize::deserialize_pod;
use pipewire_native_protocol::serialize::serialize_pod;
use pipewire_native_protocol::value::{
    Choice, ChoiceEnum, ChoiceValue, Fd, Fraction, Id, Object, Property, Rectangle, Value,
    ValueArray,
};
use pipewire_native_protocol::Header;

fn roundtrip(v: Value) {
    let bytes = serialize_pod(&v).expect("serializable");
    assert_eq!(bytes.len() % 8, 0, "padding: every pod is a multiple of 8");
    let (back, consumed) = deserialize_pod(&bytes, 0).expect("parses");
    assert_eq!(consumed, bytes.len());
    assert_eq!(back, v);
}

#[test]
fn roundtrip_primitives() {
    roundtrip(Value::Null);
    roundtrip(Value::Bool(true));
    roundtrip(Value::Bool(false));
    roundtrip(Value::Id(Id(77)));
    roundtrip(Value::Int(-123456));
    roundtrip(Value::Int(i32::MIN));
    roundtrip(Value::Long(-1));
    roundtrip(Value::Long(i64::MIN));
    roundtrip(Value::Float(2.5f32.to_bits()));
    roundtrip(Value::Double((-0.125f64).to_bits()));
    roundtrip(Value::Rectangle(Rectangle { width: 1920, height: 1080 }));
    roundtrip(Value::Fraction(Fraction { num: 30, denom: 1 }));
    roundtrip(Value::Fd(Fd(3)));
    roundtrip(Value::Pointer(9, 0xdead_beef));
}

#[test]
fn roundtrip_strings_and_bytes() {
    roundtrip(Value::String(b"hello pipewire".to_vec()));
    roundtrip(Value::String(Vec::new()));
    roundtrip(Value::Bytes(vec![0, 1, 2, 3, 4, 5, 6, 7, 8]));
    roundtrip(Value::Bytes(Vec::new()));
}

#[test]
fn roundtrip_structs() {
    roundtrip(Value::Struct(Vec::new()));
    roundtrip(Value::Struct(vec![
        Value::Int(1),
        Value::String(b"x".to_vec()),
        Value::Struct(vec![Value::Long(2), Value::Bool(false)]),
    ]));
}

#[test]
fn roundtrip_arrays() {
    roundtrip(Value::ValueArray(ValueArray::Null(Vec::new())));
    roundtrip(Value::ValueArray(ValueArray::Bool(vec![true, false, true])));
    roundtrip(Value::ValueArray(ValueArray::Id(vec![Id(1), Id(2)])));
    roundtrip(Value::ValueArray(ValueArray::Int(vec![-1, 0, 1])));
    roundtrip(Value::ValueArray(ValueArray::Long(vec![i64::MAX])));
    roundtrip(Value::ValueArray(ValueArray::Float(vec![1.0f32.to_bits()])));
    roundtrip(Value::ValueArray(ValueArray::Double(vec![3.25f64.to_bits()])));
    roundtrip(Value::ValueArray(ValueArray::Rectangle(vec![Rectangle {
        width: 4,
        height: 3,
    }])));
    roundtrip(Value::ValueArray(ValueArray::Fraction(vec![Fraction { num: 1, denom: 2 }])));
    roundtrip(Value::ValueArray(ValueArray::Fd(vec![Fd(5), Fd(6)])));
}

#[test]
fn roundtrip_choices() {
    roundtrip(Value::Choice(ChoiceValue::Bool(Choice(0, ChoiceEnum::Fixed(true)))));
    roundtrip(Value::Choice(ChoiceValue::Int(Choice(
        0,
        ChoiceEnum::Range { default: 5, min: 0, max: 10 },
    ))));
    roundtrip(Value::Choice(ChoiceValue::Long(Choice(
        0,
        ChoiceEnum::Step { default: 0, min: 0, max: 100, step: 10 },
    ))));
    roundtrip(Value::Choice(ChoiceValue::Id(Choice(
        0,
        ChoiceEnum::Enum { default: Id(1), alternatives: vec![Id(2), Id(3)] },
    ))));
    roundtrip(Value::Choice(ChoiceValue::Fd(Choice(
        0,
        ChoiceEnum::Flags { default: Fd(1), flags: vec![Fd(2)] },
    ))));
    roundtrip(Value::Choice(ChoiceValue::Float(Choice(
        0,
        ChoiceEnum::Range {
            default: 1.0f32.to_bits(),
            min: 0.0f32.to_bits(),
            max: 2.0f32.to_bits(),
        },
    ))));
    roundtrip(Value::Choice(ChoiceValue::Rectangle(Choice(
        0,
        ChoiceEnum::Fixed(Rectangle { width: 8, height: 8 }),
    ))));
}

#[test]
fn roundtrip_objects() {
    roundtrip(Value::Object(Object { type_: 262144, id: 2, properties: Vec::new() }));
    roundtrip(Value::Object(Object {
        type_: 262144,
        id: 2,
        properties: vec![
            Property::new(1, Value::Int(48000)),
            Property { key: 2, flags: 8, value: Value::String(b"audio".to_vec()) },
        ],
    }));
}

#[test]
fn serialized_length_is_padded() {
    for v in [
        Value::String(b"a".to_vec()),
        Value::String(b"abc".to_vec()),
        Value::Bytes(vec![1]),
        Value::Bytes(vec![1, 2, 3, 4, 5]),
        Value::Struct(vec![Value::Bool(true)]),
    ] {
        let bytes = serialize_pod(&v).unwrap();
        assert_eq!(bytes.len() % 8, 0);
    }
}

#[test]
fn header_math() {
    let h = Header::new(7, 0xab, 0x00c0ffe, 42, 0);
    assert_eq!(h.opcode(), 0xab);
    assert_eq!(h.size(), 0x00c0ffe);
    assert_eq!(h.id, 7);
    assert_eq!(h.seq, 42);
    let h2 = Header::incomplete(-1, 3, 9);
    assert_eq!(h2.opcode(), 3);
    assert_eq!(h2.size(), 0);
}

#[test]
fn bool_bodies_decode_loosely() {
    // A wire bool with a body of 2 still decodes to true; the canonical
    // encoding writes 1.
    let mut bytes = serialize_pod(&Value::Bool(true)).unwrap();
    bytes[8] = 2;
    let (back, _) = deserialize_pod(&bytes, 0).unwrap();
    assert_eq!(back, Value::Bool(true));
}
