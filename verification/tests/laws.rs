use serde_amf3::format::{Deserializer, Error as FormatError};
use serde_amf3::traits::{Number, Numeric, NumericType};
use serde_amf3::value::{Key, Value};
use serde_amf3::{deserialize, ByteDeserializer, Error, ErrorKind, MAX_DEPTH};

fn fault(e: FormatError) -> Error {
    Error {
        kind: ErrorKind::Format(e),
    }
}

fn integer(v: u32) -> Value<'static> {
    Value::Number(Numeric::Integer(Number::U32(v)))
}

// the shortest encoding of a value of up to 29 bits
fn encode_u29(v: u32) -> Vec<u8> {
    if v < 0x80 {
        vec![v as u8]
    } else if v < 0x4000 {
        vec![0x80 | (v >> 7) as u8, (v & 0x7F) as u8]
    } else if v < 0x20_0000 {
        vec![
            0x80 | (v >> 14) as u8,
            0x80 | ((v >> 7) & 0x7F) as u8,
            (v & 0x7F) as u8,
        ]
    } else {
        vec![
            0x80 | (v >> 22) as u8,
            0x80 | ((v >> 15) & 0x7F) as u8,
            0x80 | ((v >> 8) & 0x7F) as u8,
            (v & 0xFF) as u8,
        ]
    }
}

#[test]
fn u29_round_trip_at_the_edges_of_each_length() {
    for v in [
        0u32,
        1,
        0x7F,
        0x80,
        0x3FFF,
        0x4000,
        0x1F_FFFF,
        0x20_0000,
        0x0123_4567,
        0x1FFF_FFFE,
        0x1FFF_FFFF,
    ] {
        let mut bytes = encode_u29(v);
        bytes.push(0xAA);
        let mut d = Deserializer::new(&bytes);
        assert_eq!(d.read_u29(), Ok(v));
        assert_eq!(d.read_byte(), Ok(0xAA));
    }
}

#[test]
fn u29_round_trip_over_a_sweep() {
    let mut v: u32 = 0;
    while v <= 0x1FFF_FFFF {
        assert_eq!(Deserializer::new(&encode_u29(v)).read_u29(), Ok(v));
        v += 7919;
    }
}

#[test]
fn reference_recovers_the_string_at_its_index() {
    let mut d = Deserializer::new(b"\x09zero\x07one\x07two\x04\x00\x02\x21");
    assert_eq!(d.read_string(), Ok("zero"));
    assert_eq!(d.read_string(), Ok("one"));
    assert_eq!(d.read_string(), Ok("two"));
    assert_eq!(d.read_string(), Ok("two"));
    assert_eq!(d.read_string(), Ok("zero"));
    assert_eq!(d.read_string(), Ok("one"));
    // only the header was read
    assert_eq!(d.read_byte(), Ok(0x21));
}

#[test]
fn reference_reaches_across_nested_values() {
    assert_eq!(
        deserialize(b"\x09\x05\x01\x09\x03\x01\x06\x07abc\x06\x00"),
        Ok(Value::Sequence(vec![
            Value::Sequence(vec![Value::String("abc")]),
            Value::String("abc"),
        ]))
    );
}

#[test]
fn keys_join_the_string_table() {
    assert_eq!(
        deserialize(b"\x09\x01\x03a\x06\x00\x01"),
        Ok(Value::Mapping(vec![(Key::Name("a"), Value::String("a"))]))
    );
}

#[test]
fn empty_string_leaves_the_table_alone() {
    assert_eq!(
        deserialize(b"\x09\x05\x01\x06\x01\x06\x00"),
        Err(fault(FormatError::MissingStringReference))
    );
    assert_eq!(
        deserialize(b"\x09\x07\x01\x06\x01\x06\x03x\x06\x00"),
        Ok(Value::Sequence(vec![
            Value::String(""),
            Value::String("x"),
            Value::String("x"),
        ]))
    );
}

#[test]
fn dense_array_has_exactly_its_count() {
    assert_eq!(deserialize(&[0x09, 0x01, 0x01]), Ok(Value::Sequence(vec![])));
    assert_eq!(
        deserialize(&[0x09, 0x03, 0x01, 0x04, 9, 0x04, 8]),
        Ok(Value::Sequence(vec![integer(9)]))
    );
    let mut bytes = vec![0x09, 0x83, 0x11, 0x01];
    for i in 0..200u8 {
        bytes.push(0x04);
        bytes.push(i % 0x80);
    }
    let expected: Vec<Value> = (0..200u32).map(|i| integer(i % 0x80)).collect();
    assert_eq!(deserialize(&bytes), Ok(Value::Sequence(expected)));
}

#[test]
fn dense_array_keeps_the_encoded_order() {
    assert_eq!(
        deserialize(&[0x09, 0x09, 0x01, 0x03, 0x04, 7, 0x02, 0x00]),
        Ok(Value::Sequence(vec![
            Value::Bool(true),
            integer(7),
            Value::Bool(false),
            Value::Absent,
        ]))
    );
}

#[test]
fn dense_arrays_nest() {
    assert_eq!(
        deserialize(&[0x09, 0x05, 0x01, 0x09, 0x03, 0x01, 0x04, 1, 0x09, 0x01, 0x01]),
        Ok(Value::Sequence(vec![
            Value::Sequence(vec![integer(1)]),
            Value::Sequence(vec![]),
        ]))
    );
}

#[test]
fn dense_array_fails_where_an_element_fails() {
    assert_eq!(
        deserialize(&[0x09, 0x05, 0x01, 0x04, 1, 0x08]),
        Err(fault(FormatError::UnsupportedValueShape))
    );
    assert_eq!(
        deserialize(&[0x09, 0x05, 0x01, 0x04, 1]),
        Err(fault(FormatError::EndOfStream))
    );
}

#[test]
fn mapping_keys_then_indices_downwards() {
    assert_eq!(
        deserialize(&[
            0x09, 0x07, 0x03, b'a', 0x04, 5, 0x03, b'b', 0x04, 7, 0x01, 0x04, 10, 0x04, 11, 0x04,
            12
        ]),
        Ok(Value::Mapping(vec![
            (Key::Name("a"), integer(5)),
            (Key::Name("b"), integer(7)),
            (Key::Index(2), integer(10)),
            (Key::Index(1), integer(11)),
            (Key::Index(0), integer(12)),
        ]))
    );
}

#[test]
fn mapping_of_one_key() {
    assert_eq!(
        deserialize(&[0x09, 0x01, 0x05, b'i', b'd', 0x03, 0x01]),
        Ok(Value::Mapping(vec![(Key::Name("id"), Value::Bool(true))]))
    );
}

#[test]
fn mapping_key_by_reference() {
    assert_eq!(
        deserialize(&[0x09, 0x01, 0x03, b'a', 0x04, 5, 0x00, 0x04, 7, 0x01]),
        Ok(Value::Mapping(vec![
            (Key::Name("a"), integer(5)),
            (Key::Name("a"), integer(7)),
        ]))
    );
}

#[test]
fn mappings_nest() {
    assert_eq!(
        deserialize(&[
            0x09, 0x03, 0x03, b'a', 0x09, 0x01, 0x03, b'b', 0x02, 0x01, 0x01, 0x04, 3
        ]),
        Ok(Value::Mapping(vec![
            (
                Key::Name("a"),
                Value::Mapping(vec![(Key::Name("b"), Value::Bool(false))])
            ),
            (Key::Index(0), integer(3)),
        ]))
    );
}

#[test]
fn mapping_fails_where_a_key_fails() {
    assert_eq!(
        deserialize(&[0x09, 0x01, 0x03, b'a', 0x04, 5, 0x03, 0xFF]),
        Err(fault(FormatError::StringDecode))
    );
    assert_eq!(
        deserialize(&[0x09, 0x01, 0x03, b'a', 0x04, 5, 0x08]),
        Err(fault(FormatError::MissingStringReference))
    );
}

const VALID: [&[u8]; 12] = [
    &[0x00],
    &[0x02],
    &[0x04, 0x05],
    &[0x04, 0x85, 0x01],
    &[0x04, 0xFF, 0xFF, 0xFF, 0xFF],
    &[0x05, 0x9A, 0x99, 0x99, 0x99, 0x99, 0x99, 0xB9, 0x3F],
    &[0x06, 0x01],
    &[0x06, 0x0B, b'H', b'e', b'l', b'l', b'o'],
    &[0x09, 0x01, 0x01],
    &[0x09, 0x07, 0x01, 0x04, 1, 0x04, 2, 0x04, 3],
    &[0x09, 0x01, 0x03, b'a', 0x04, 5, 0x03, b'b', 0x04, 7, 0x01],
    &[0x09, 0x05, 0x03, b'a', 0x06, 0x00, 0x01, 0x09, 0x01, 0x01, 0x06, 0x00],
];

#[test]
fn the_samples_are_whole_encodings() {
    for bytes in VALID {
        assert!(deserialize(bytes).is_ok());
        let mut longer = bytes.to_vec();
        longer.push(0x00);
        assert_eq!(deserialize(&longer), deserialize(bytes));
    }
}

#[test]
fn truncating_by_one_byte_ends_the_stream() {
    for bytes in VALID {
        assert_eq!(
            deserialize(&bytes[..bytes.len() - 1]),
            Err(fault(FormatError::EndOfStream))
        );
    }
}

#[test]
fn truncating_anywhere_ends_the_stream() {
    for bytes in VALID {
        for m in 0..bytes.len() {
            assert_eq!(
                deserialize(&bytes[..m]),
                Err(fault(FormatError::EndOfStream))
            );
            assert_eq!(
                ByteDeserializer::from_bytes(&bytes[..m])
                    .deserialize_value(NumericType::I8, NumericType::F32, MAX_DEPTH),
                Err(fault(FormatError::EndOfStream))
            );
        }
    }
}

#[test]
fn marker_bytes_from_0x12_are_invalid() {
    for byte in 0x12..=0xFFu8 {
        assert_eq!(
            deserialize(&[byte, 0x01]),
            Err(fault(FormatError::InvalidMarker(byte)))
        );
        assert_eq!(
            ByteDeserializer::from_bytes(&[byte]).deserialize_any(),
            Err(fault(FormatError::InvalidMarker(byte)))
        );
    }
}

// `levels` dense arrays, each the only element of the one around it
fn nested(levels: usize) -> Vec<u8> {
    let mut bytes = Vec::new();
    for _ in 1..levels {
        bytes.extend_from_slice(&[0x09, 0x03, 0x01]);
    }
    bytes.extend_from_slice(&[0x09, 0x01, 0x01]);
    bytes
}

fn levels_of(value: &Value) -> usize {
    match value {
        Value::Sequence(items) => 1 + items.iter().map(levels_of).max().unwrap_or(0),
        Value::Mapping(entries) => 1 + entries.iter().map(|e| levels_of(&e.1)).max().unwrap_or(0),
        _ => 0,
    }
}

#[test]
fn nesting_up_to_the_bound_decodes() {
    assert_eq!(MAX_DEPTH, 128);
    for levels in [1, 2, 3, MAX_DEPTH - 1, MAX_DEPTH] {
        let bytes = nested(levels);
        let value = deserialize(&bytes).unwrap();
        assert_eq!(levels_of(&value), levels);
    }
}

#[test]
fn nesting_beyond_the_bound_is_refused() {
    for levels in [MAX_DEPTH + 1, MAX_DEPTH + 2, 10 * MAX_DEPTH, 200_000] {
        assert_eq!(
            deserialize(&nested(levels)),
            Err(fault(FormatError::UnsupportedValueShape))
        );
    }
}

#[test]
fn the_bound_is_the_callers_choice() {
    let bytes = nested(3);
    for depth in 0..3 {
        assert_eq!(
            ByteDeserializer::from_bytes(&bytes).deserialize_value(
                NumericType::U32,
                NumericType::F64,
                depth
            ),
            Err(fault(FormatError::UnsupportedValueShape))
        );
    }
    assert_eq!(
        ByteDeserializer::from_bytes(&bytes).deserialize_value(
            NumericType::U32,
            NumericType::F64,
            3
        ),
        Ok(Value::Sequence(vec![Value::Sequence(vec![Value::Sequence(
            vec![]
        )])]))
    );
}

#[test]
fn scalars_need_no_depth() {
    assert_eq!(
        ByteDeserializer::from_bytes(&[0x04, 0x05]).deserialize_value(
            NumericType::U32,
            NumericType::F64,
            0
        ),
        Ok(integer(5))
    );
    assert_eq!(
        ByteDeserializer::from_bytes(b"\x06\x07abc").deserialize_value(
            NumericType::U32,
            NumericType::F64,
            0
        ),
        Ok(Value::String("abc"))
    );
}

#[test]
fn a_refused_array_has_had_its_header_read() {
    let mut d = ByteDeserializer::from_bytes(&[0x09, 0x03, 0x03, b'k', 0x03, 0x06, 0x00]);
    assert_eq!(
        d.deserialize_value(NumericType::U32, NumericType::F64, 0),
        Err(fault(FormatError::UnsupportedValueShape))
    );
    assert_eq!(
        d.deserialize_value(NumericType::U32, NumericType::F64, 0),
        Ok(Value::Bool(true))
    );
    // the key that was read is in the string table
    assert_eq!(
        d.deserialize_value(NumericType::U32, NumericType::F64, 0),
        Ok(Value::String("k"))
    );
}

#[test]
fn mappings_count_towards_the_depth() {
    let bytes = [0x09, 0x01, 0x03, b'a', 0x09, 0x01, 0x01, 0x01];
    assert_eq!(
        ByteDeserializer::from_bytes(&bytes).deserialize_value(
            NumericType::U32,
            NumericType::F64,
            1
        ),
        Err(fault(FormatError::UnsupportedValueShape))
    );
    assert_eq!(
        ByteDeserializer::from_bytes(&bytes).deserialize_value(
            NumericType::U32,
            NumericType::F64,
            2
        ),
        Ok(Value::Mapping(vec![(Key::Name("a"), Value::Sequence(vec![]))]))
    );
}
