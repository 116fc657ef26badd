use serde_amf3::traits::{Carrier, Number, Numeric, NumericType};
use serde_amf3::value::{Key, Value};
use serde_amf3::{deserialize, ByteDeserializer, Error, ErrorKind, Token, MAX_DEPTH};

fn eos_error() -> Error {
    Error {
        kind: ErrorKind::Format(serde_amf3::format::Error::EndOfStream),
    }
}

fn double_of(token: Result<Token<'_>, Error>) -> f64 {
    match token {
        Ok(Token::Number(Numeric::Cast {
            from: Carrier::Double(bits),
            to: NumericType::F64,
        })) => f64::from_bits(bits),
        other => panic!("not a double: {:?}", other),
    }
}

fn single_of(token: Result<Token<'_>, Error>) -> f32 {
    match token {
        Ok(Token::Number(Numeric::Cast {
            from: Carrier::Double(bits),
            to: NumericType::F32,
        })) => f64::from_bits(bits) as f32,
        other => panic!("not a double asked for as f32: {:?}", other),
    }
}

#[test]
fn test_bool() {
    assert_eq!(deserialize(&[]), Err(eos_error()));
    assert_eq!(deserialize(&[0x02]), Ok(Value::Bool(false)));
    assert_eq!(deserialize(&[0x03]), Ok(Value::Bool(true)));
}

#[test]
fn test_integer() {
    assert_eq!(
        ByteDeserializer::from_bytes(&[0x04, 0x05]).deserialize_u8(),
        Ok(Token::Number(Numeric::Integer(Number::U8(5u8))))
    );
    assert_eq!(
        ByteDeserializer::from_bytes(&[0x04, 0x05]).deserialize_u16(),
        Ok(Token::Number(Numeric::Integer(Number::U16(5u16))))
    );
    assert_eq!(
        ByteDeserializer::from_bytes(&[0x04, 0x05]).deserialize_u32(),
        Ok(Token::Number(Numeric::Integer(Number::U32(5u32))))
    );
    assert_eq!(
        ByteDeserializer::from_bytes(&[0x04, 0x05]).deserialize_u64(),
        Ok(Token::Number(Numeric::Integer(Number::U64(5u64))))
    );
}

#[test]
fn test_double() {
    assert_eq!(
        double_of(ByteDeserializer::from_bytes(&[0x05, 0, 0, 0, 0, 0, 0, 0, 0]).deserialize_f64()),
        0.0
    );
    assert_eq!(
        single_of(ByteDeserializer::from_bytes(&[0x05, 0, 0, 0, 0, 0, 0, 0, 0]).deserialize_f32()),
        0.0f32
    );
    assert_eq!(
        double_of(
            ByteDeserializer::from_bytes(&[0x05, 0, 0, 0, 0, 0, 0, 0xD0, 0x3F]).deserialize_f64()
        ),
        0.25
    );
    assert_eq!(
        single_of(
            ByteDeserializer::from_bytes(&[0x05, 0, 0, 0, 0, 0, 0, 0xD0, 0x3F]).deserialize_f32()
        ),
        0.25f32
    );
    assert_eq!(
        double_of(
            ByteDeserializer::from_bytes(&[0x05, 0x9A, 0x99, 0x99, 0x99, 0x99, 0x99, 0xB9, 0x3F])
                .deserialize_f64()
        ),
        0.1
    );
}

#[test]
fn test_string() {
    assert_eq!(deserialize(b"\x06\x0BHello"), Ok(Value::String("Hello")));
}

#[test]
fn test_option() {
    assert_eq!(deserialize(b"\x00"), Ok(Value::Absent));
}

#[test]
fn test_array() {
    assert_eq!(
        ByteDeserializer::from_bytes(&[0x09, 0x7, 0x01, 0x04, 1, 0x04, 2, 0x04, 3])
            .deserialize_value(NumericType::U32, NumericType::U32, MAX_DEPTH),
        Ok(Value::Sequence(vec![
            Value::Number(Numeric::Integer(Number::U32(1))),
            Value::Number(Numeric::Integer(Number::U32(2))),
            Value::Number(Numeric::Integer(Number::U32(3))),
        ]))
    );
    assert_eq!(
        ByteDeserializer::from_bytes(&[
            0x09, 0x1, 0x03, b'a', 0x04, 5, 0x03, b'b', 0x04, 7, 0x01
        ])
        .deserialize_value(NumericType::U32, NumericType::U32, MAX_DEPTH),
        Ok(Value::Mapping(vec![
            (Key::Name("a"), Value::Number(Numeric::Integer(Number::U32(5)))),
            (Key::Name("b"), Value::Number(Numeric::Integer(Number::U32(7)))),
        ]))
    );
}
