use serde_amf3::format::{try_split_array_ref, Deserializer, Error, Marker};

fn u29(bytes: &[u8]) -> Result<u32, Error> {
    Deserializer::new(bytes).read_u29()
}

#[test]
fn marker_of_every_tag_byte() {
    let all = [
        Marker::Undefined,
        Marker::Null,
        Marker::False,
        Marker::True,
        Marker::Integer,
        Marker::Double,
        Marker::String,
        Marker::XmlDoc,
        Marker::Date,
        Marker::Array,
        Marker::Object,
        Marker::Xml,
        Marker::ByteArray,
        Marker::VectorInt,
        Marker::VectorUInt,
        Marker::VectorDouble,
        Marker::VectorObject,
        Marker::Dictionary,
    ];
    for (byte, marker) in all.iter().enumerate() {
        assert_eq!(Marker::new(byte as u8), Ok(*marker));
    }
}

#[test]
fn marker_of_invalid_bytes() {
    assert_eq!(Marker::new(0x12), Err(Error::InvalidMarker(0x12)));
    assert_eq!(Marker::new(0x80), Err(Error::InvalidMarker(0x80)));
    assert_eq!(Marker::new(0xFF), Err(Error::InvalidMarker(0xFF)));
    for byte in 0x12..=0xFFu8 {
        assert_eq!(
            Deserializer::new(&[byte]).read_marker(),
            Err(Error::InvalidMarker(byte))
        );
    }
}

#[test]
fn read_byte_steps_through_the_input() {
    let mut d = Deserializer::new(&[7, 9]);
    assert_eq!(d.read_byte(), Ok(7));
    assert_eq!(d.read_byte(), Ok(9));
    assert_eq!(d.read_byte(), Err(Error::EndOfStream));
    assert_eq!(d.read_byte(), Err(Error::EndOfStream));
}

#[test]
fn read_marker_on_empty_input() {
    assert_eq!(Deserializer::new(&[]).read_marker(), Err(Error::EndOfStream));
}

#[test]
fn u29_of_one_byte() {
    assert_eq!(u29(&[0x00]), Ok(0));
    assert_eq!(u29(&[0x05]), Ok(5));
    assert_eq!(u29(&[0x7F]), Ok(0x7F));
}

#[test]
fn u29_of_two_bytes() {
    assert_eq!(u29(&[0x81, 0x00]), Ok(0x80));
    assert_eq!(u29(&[0x85, 0x01]), Ok(641));
    assert_eq!(u29(&[0xFF, 0x7F]), Ok(0x3FFF));
}

#[test]
fn u29_of_three_bytes() {
    assert_eq!(u29(&[0x81, 0x80, 0x00]), Ok(0x4000));
    assert_eq!(u29(&[0xFF, 0xFF, 0x7F]), Ok(0x1F_FFFF));
}

#[test]
fn u29_of_four_bytes() {
    assert_eq!(u29(&[0x80, 0xC0, 0x80, 0x00]), Ok(0x20_0000));
    assert_eq!(u29(&[0xFF, 0xFF, 0xFF, 0xFF]), Ok(0x1FFF_FFFF));
    // the fourth byte gives all eight of its bits
    assert_eq!(u29(&[0x80, 0x80, 0x80, 0x80]), Ok(0x80));
    assert_eq!(u29(&[0x81, 0x82, 0x83, 0x84]), Ok((((1 << 7) | 2) << 7 | 3) << 8 | 0x84));
}

#[test]
fn u29_not_of_minimal_length() {
    assert_eq!(u29(&[0x80, 0x05]), Ok(5));
    assert_eq!(u29(&[0x80, 0x80, 0x05]), Ok(5));
}

#[test]
fn u29_reads_no_further() {
    let mut d = Deserializer::new(&[0x85, 0x01, 0x7F]);
    assert_eq!(d.read_u29(), Ok(641));
    assert_eq!(d.read_byte(), Ok(0x7F));
    let mut d = Deserializer::new(&[0xFF, 0xFF, 0xFF, 0xFF, 0x42]);
    assert_eq!(d.read_u29(), Ok(0x1FFF_FFFF));
    assert_eq!(d.read_byte(), Ok(0x42));
}

#[test]
fn u29_cut_short() {
    assert_eq!(u29(&[]), Err(Error::EndOfStream));
    assert_eq!(u29(&[0x81]), Err(Error::EndOfStream));
    assert_eq!(u29(&[0x81, 0x80]), Err(Error::EndOfStream));
    assert_eq!(u29(&[0x81, 0x80, 0x80]), Err(Error::EndOfStream));
}

#[test]
fn double_is_read_least_significant_byte_first() {
    let mut d = Deserializer::new(&[0x01, 0x02, 0x03, 0x04, 0x05, 0x06, 0x07, 0x08, 0x09]);
    assert_eq!(d.read_double(), Ok(0x0807_0605_0403_0201));
    assert_eq!(d.read_byte(), Ok(0x09));
    assert_eq!(
        Deserializer::new(&[0xFF; 8]).read_double(),
        Ok(u64::MAX)
    );
    assert_eq!(
        Deserializer::new(&[0, 0, 0, 0, 0, 0, 0xD0, 0x3F])
            .read_double()
            .map(f64::from_bits),
        Ok(0.25)
    );
}

#[test]
fn double_cut_short_reads_nothing() {
    let mut d = Deserializer::new(&[1, 2, 3, 4, 5, 6, 7]);
    assert_eq!(d.read_double(), Err(Error::EndOfStream));
    assert_eq!(d.read_byte(), Ok(1));
}

#[test]
fn split_takes_the_front() {
    let bytes = [1u8, 2, 3, 4, 5];
    let (head, rest) = try_split_array_ref::<2>(&bytes).unwrap();
    assert_eq!(head, &[1u8, 2][..]);
    assert_eq!(rest, &[3u8, 4, 5][..]);
    let (head, rest) = try_split_array_ref::<5>(&bytes).unwrap();
    assert_eq!(head, &bytes[..]);
    assert!(rest.is_empty());
    let (head, rest) = try_split_array_ref::<0>(&bytes).unwrap();
    assert!(head.is_empty());
    assert_eq!(rest, &bytes[..]);
    assert_eq!(try_split_array_ref::<6>(&bytes), Err(Error::EndOfStream));
}

#[test]
fn string_by_value() {
    let mut d = Deserializer::new(b"\x0BHello!");
    assert_eq!(d.read_string(), Ok("Hello"));
    assert_eq!(d.read_byte(), Ok(b'!'));
}

#[test]
fn string_of_several_bytes_per_char() {
    let bytes = [0x0D, 0xC3, 0xA9, 0xE2, 0x82, 0xAC, b'x'];
    assert_eq!(Deserializer::new(&bytes).read_string(), Ok("\u{e9}\u{20ac}x"));
}

#[test]
fn string_that_is_not_utf8() {
    let mut d = Deserializer::new(&[0x05, 0xFF, 0xFE, 0x07]);
    assert_eq!(d.read_string(), Err(Error::StringDecode));
    // the bytes were read before they were checked
    assert_eq!(d.read_byte(), Ok(0x07));
    assert_eq!(
        Deserializer::new(&[0x03, 0xC3]).read_string(),
        Err(Error::StringDecode)
    );
}

#[test]
fn string_cut_short() {
    assert_eq!(Deserializer::new(&[]).read_string(), Err(Error::EndOfStream));
    assert_eq!(
        Deserializer::new(b"\x0BHell").read_string(),
        Err(Error::EndOfStream)
    );
    let mut d = Deserializer::new(b"\x0BHell");
    assert_eq!(d.read_string(), Err(Error::EndOfStream));
    assert_eq!(d.read_byte(), Ok(b'H'));
}

#[test]
fn string_by_reference() {
    let mut d = Deserializer::new(b"\x07abc\x05de\x00\x02\x00\x04");
    assert_eq!(d.read_string(), Ok("abc"));
    assert_eq!(d.read_string(), Ok("de"));
    assert_eq!(d.read_string(), Ok("abc"));
    assert_eq!(d.read_string(), Ok("de"));
    assert_eq!(d.read_string(), Ok("abc"));
    assert_eq!(d.read_string(), Err(Error::MissingStringReference));
}

#[test]
fn reference_into_an_empty_table() {
    assert_eq!(
        Deserializer::new(&[0x00]).read_string(),
        Err(Error::MissingStringReference)
    );
}

#[test]
fn empty_string_is_not_cached() {
    let mut d = Deserializer::new(b"\x01\x00");
    assert_eq!(d.read_string(), Ok(""));
    assert_eq!(d.read_string(), Err(Error::MissingStringReference));
    let mut d = Deserializer::new(b"\x01\x03a\x01\x00\x02");
    assert_eq!(d.read_string(), Ok(""));
    assert_eq!(d.read_string(), Ok("a"));
    assert_eq!(d.read_string(), Ok(""));
    assert_eq!(d.read_string(), Ok("a"));
    assert_eq!(d.read_string(), Err(Error::MissingStringReference));
}

#[test]
fn a_string_read_twice_by_value_is_cached_twice() {
    let mut d = Deserializer::new(b"\x03a\x03a\x02");
    assert_eq!(d.read_string(), Ok("a"));
    assert_eq!(d.read_string(), Ok("a"));
    assert_eq!(d.read_string(), Ok("a"));
}

#[test]
fn skip_steps_over_integers_and_doubles() {
    let mut d = Deserializer::new(&[0x04, 0x05, 0x04, 0x85, 0x01, 0x2A]);
    assert_eq!(d.skip(), Ok(()));
    assert_eq!(d.skip(), Ok(()));
    assert_eq!(d.read_byte(), Ok(0x2A));
    let mut d = Deserializer::new(&[0x04, 0xFF, 0xFF, 0xFF, 0xFF, 0x2A]);
    assert_eq!(d.skip(), Ok(()));
    assert_eq!(d.read_byte(), Ok(0x2A));
    let mut d = Deserializer::new(&[0x05, 1, 2, 3, 4, 5, 6, 7, 8, 0x2A]);
    assert_eq!(d.skip(), Ok(()));
    assert_eq!(d.read_byte(), Ok(0x2A));
}

#[test]
fn skip_refuses_markers_without_payload() {
    for byte in 0x00..=0x03u8 {
        let bytes = [byte, 0x2A];
        let mut d = Deserializer::new(&bytes);
        assert_eq!(d.skip(), Err(Error::UnsupportedValueShape));
        // the marker was read
        assert_eq!(d.read_byte(), Ok(0x2A));
    }
}

#[test]
fn skip_cut_short() {
    assert_eq!(Deserializer::new(&[]).skip(), Err(Error::EndOfStream));
    assert_eq!(Deserializer::new(&[0x04]).skip(), Err(Error::EndOfStream));
    assert_eq!(Deserializer::new(&[0x04, 0x80]).skip(), Err(Error::EndOfStream));
    assert_eq!(
        Deserializer::new(&[0x05, 1, 2, 3, 4, 5, 6, 7]).skip(),
        Err(Error::EndOfStream)
    );
}

#[test]
fn skip_refuses_what_it_cannot_step_over() {
    for byte in 0x06..=0x11u8 {
        let bytes = [byte, 0x01, 0x01];
        let mut d = Deserializer::new(&bytes);
        assert_eq!(d.skip(), Err(Error::UnsupportedValueShape));
        assert_eq!(d.read_byte(), Ok(0x01));
    }
    assert_eq!(
        Deserializer::new(&[0x12]).skip(),
        Err(Error::InvalidMarker(0x12))
    );
}
