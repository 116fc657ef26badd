//! The byte-level layer: markers, the variable-length 29-bit integer,
//! doubles, and strings with their back-reference table.

use vstd::prelude::*;
use vstd::slice::slice_subrange;
use vstd::std_specs::convert::FromSpecImpl;
use vstd::utf8::{decode_utf8, encode_utf8_decode_utf8, valid_utf8};

verus! {

/// The one-byte tag that announces the type of the next encoded value.
#[derive(Copy, Clone, PartialEq, Eq, Structural, Debug)]
pub enum Marker {
    Undefined,
    Null,
    False,
    True,
    Integer,
    Double,
    String,
    XmlDoc,
    Date,
    Array,
    Object,
    Xml,
    ByteArray,
    VectorInt,
    VectorUInt,
    VectorDouble,
    VectorObject,
    Dictionary,
}

/// Why reading from the byte stream failed.
#[derive(Copy, Clone, PartialEq, Eq, Structural, Debug)]
pub enum Error {
    /// A tag byte of `0x12` or more.
    InvalidMarker(u8),
    /// The bytes of a string are not well-formed UTF-8.
    StringDecode,
    /// A read needed more bytes than are left.
    EndOfStream,
    /// A string reference points past the end of the reference table.
    MissingStringReference,
    /// The marker or encoding is known, but this decoder does not handle it:
    /// dates, XML, byte arrays, vectors, dictionaries, objects with class
    /// definitions, and arrays given by reference.
    UnsupportedValueShape,
}

impl Marker {
    /// The tag byte that stands for this marker on the wire.
    pub open spec fn byte(self) -> u8 {
        match self {
            Marker::Undefined => 0x00,
            Marker::Null => 0x01,
            Marker::False => 0x02,
            Marker::True => 0x03,
            Marker::Integer => 0x04,
            Marker::Double => 0x05,
            Marker::String => 0x06,
            Marker::XmlDoc => 0x07,
            Marker::Date => 0x08,
            Marker::Array => 0x09,
            Marker::Object => 0x0A,
            Marker::Xml => 0x0B,
            Marker::ByteArray => 0x0C,
            Marker::VectorInt => 0x0D,
            Marker::VectorUInt => 0x0E,
            Marker::VectorDouble => 0x0F,
            Marker::VectorObject => 0x10,
            Marker::Dictionary => 0x11,
        }
    }

    /// The marker a tag byte stands for: the one whose [`Marker::byte`] it
    /// is, or `InvalidMarker` with the byte when there is none.
    pub open spec fn of_byte(value: u8) -> Result<Marker, Error> {
        if exists|m: Marker| m.byte() == value {
            Ok(choose|m: Marker| m.byte() == value)
        } else {
            Err(Error::InvalidMarker(value))
        }
    }

    /// Every byte below `0x12` is the tag of exactly one marker, and no
    /// other byte is a tag.
    pub proof fn lemma_of_byte(value: u8)
        ensures
            value < 0x12 <==> Marker::of_byte(value) is Ok,
            Marker::of_byte(value) matches Ok(m) ==> m.byte() == value,
            forall|m: Marker|
                #[trigger] m.byte() == value ==> Marker::of_byte(value) == Ok::<Marker, Error>(m),
            forall|m: Marker| #[trigger] m.byte() < 0x12,
    {
        assert(Marker::Undefined.byte() == 0x00);
        assert(Marker::Null.byte() == 0x01);
        assert(Marker::False.byte() == 0x02);
        assert(Marker::True.byte() == 0x03);
        assert(Marker::Integer.byte() == 0x04);
        assert(Marker::Double.byte() == 0x05);
        assert(Marker::String.byte() == 0x06);
        assert(Marker::XmlDoc.byte() == 0x07);
        assert(Marker::Date.byte() == 0x08);
        assert(Marker::Array.byte() == 0x09);
        assert(Marker::Object.byte() == 0x0A);
        assert(Marker::Xml.byte() == 0x0B);
        assert(Marker::ByteArray.byte() == 0x0C);
        assert(Marker::VectorInt.byte() == 0x0D);
        assert(Marker::VectorUInt.byte() == 0x0E);
        assert(Marker::VectorDouble.byte() == 0x0F);
        assert(Marker::VectorObject.byte() == 0x10);
        assert(Marker::Dictionary.byte() == 0x11);
    }

    /// Checks a tag byte and names its marker.
    pub fn new(value: u8) -> (r: Result<Marker, Error>)
        ensures
            r == Marker::of_byte(value),
            value < 0x12 <==> r is Ok,
            r matches Ok(m) ==> m.byte() == value,
            r matches Err(e) ==> e == Error::InvalidMarker(value),
    {
        proof {
            Marker::lemma_of_byte(value);
        }
        match value {
            0x00 => Ok(Marker::Undefined),
            0x01 => Ok(Marker::Null),
            0x02 => Ok(Marker::False),
            0x03 => Ok(Marker::True),
            0x04 => Ok(Marker::Integer),
            0x05 => Ok(Marker::Double),
            0x06 => Ok(Marker::String),
            0x07 => Ok(Marker::XmlDoc),
            0x08 => Ok(Marker::Date),
            0x09 => Ok(Marker::Array),
            0x0A => Ok(Marker::Object),
            0x0B => Ok(Marker::Xml),
            0x0C => Ok(Marker::ByteArray),
            0x0D => Ok(Marker::VectorInt),
            0x0E => Ok(Marker::VectorUInt),
            0x0F => Ok(Marker::VectorDouble),
            0x10 => Ok(Marker::VectorObject),
            0x11 => Ok(Marker::Dictionary),
            _ => Err(Error::InvalidMarker(value)),
        }
    }
}

impl From<core::str::Utf8Error> for Error {
    /// Text that is not UTF-8 is reported as `StringDecode`, whatever the
    /// exact fault was.
    fn from(e: core::str::Utf8Error) -> (r: Self) {
        Error::StringDecode
    }
}

impl FromSpecImpl<core::str::Utf8Error> for Error {
    open spec fn obeys_from_spec() -> bool {
        true
    }

    open spec fn from_spec(e: core::str::Utf8Error) -> Self {
        Error::StringDecode
    }
}

/// The number of bytes that the variable-length integer at the head of
/// `bytes` occupies, from one to four. Each of the first three bytes
/// announces with its high bit that another byte follows; a byte that is
/// missing ends the count at the place where it would stand.
pub open spec fn u29_width(bytes: Seq<u8>) -> int {
    if bytes.len() < 1 || bytes[0] < 0x80 {
        1
    } else if bytes.len() < 2 || bytes[1] < 0x80 {
        2
    } else if bytes.len() < 3 || bytes[2] < 0x80 {
        3
    } else {
        4
    }
}

/// The value of the variable-length integer at the head of `bytes`: seven
/// bits from each of the first three bytes it occupies, most significant
/// first, and all eight bits of a fourth.
pub open spec fn u29_value(bytes: Seq<u8>) -> int
    recommends
        bytes.len() >= u29_width(bytes),
{
    let w = u29_width(bytes);
    if w == 1 {
        bytes[0] as int
    } else if w == 2 {
        (bytes[0] - 0x80) * 0x80 + bytes[1]
    } else if w == 3 {
        ((bytes[0] - 0x80) * 0x80 + (bytes[1] - 0x80)) * 0x80 + bytes[2]
    } else {
        (((bytes[0] - 0x80) * 0x80 + (bytes[1] - 0x80)) * 0x80 + (bytes[2] - 0x80)) * 0x100
            + bytes[3]
    }
}

/// The shortest encoding of `v` as a variable-length integer: one byte below
/// `0x80`, two below `0x4000`, three below `0x20_0000`, four up to the
/// largest value of 29 bits.
pub open spec fn encode_u29(v: int) -> Seq<u8>
    recommends
        0 <= v <= 0x1FFF_FFFF,
{
    if v < 0x80 {
        seq![v as u8]
    } else if v < 0x4000 {
        seq![(0x80 + v / 0x80) as u8, (v % 0x80) as u8]
    } else if v < 0x20_0000 {
        seq![(0x80 + v / 0x4000) as u8, (0x80 + v / 0x80 % 0x80) as u8, (v % 0x80) as u8]
    } else {
        seq![
            (0x80 + v / 0x40_0000) as u8,
            (0x80 + v / 0x8000 % 0x80) as u8,
            (0x80 + v / 0x100 % 0x80) as u8,
            (v % 0x100) as u8,
        ]
    }
}

/// The 64-bit number whose eight bytes, least significant first, are the
/// first eight of `bytes`.
pub open spec fn le_u64(bytes: Seq<u8>) -> int
    recommends
        bytes.len() >= 8,
{
    bytes[0] + bytes[1] * 0x100 + bytes[2] * 0x1_0000 + bytes[3] * 0x100_0000 + bytes[4]
        * 0x1_0000_0000 + bytes[5] * 0x100_0000_0000 + bytes[6] * 0x1_0000_0000_0000 + bytes[7]
        * 0x100_0000_0000_0000
}

/// What a decoding session is made of: the bytes not yet read and the
/// strings met so far, in the order in which they were first decoded.
#[verifier::ext_equal]
pub struct Cursor {
    pub bytes: Seq<u8>,
    pub strings: Seq<Seq<char>>,
}

impl Cursor {
    /// The cursor at the start of a session over `bytes`.
    pub open spec fn start(bytes: Seq<u8>) -> Cursor {
        Cursor { bytes, strings: Seq::empty() }
    }

    /// The cursor after `n` more bytes have been read.
    pub open spec fn advance(self, n: int) -> Cursor {
        Cursor { bytes: self.bytes.skip(n), strings: self.strings }
    }

    /// The next byte, or `EndOfStream` when none is left.
    pub open spec fn read_byte(self) -> (Result<u8, Error>, Cursor) {
        if self.bytes.len() > 0 {
            (Ok(self.bytes[0]), self.advance(1))
        } else {
            (Err(Error::EndOfStream), self)
        }
    }

    /// The next byte taken as a marker. A byte that is no tag is consumed
    /// all the same.
    pub open spec fn read_marker(self) -> (Result<Marker, Error>, Cursor) {
        match self.read_byte() {
            (Ok(b), next) => (Marker::of_byte(b), next),
            (Err(e), next) => (Err(e), next),
        }
    }

    /// The variable-length integer at the head of the stream. Where the
    /// stream ends inside it, every byte that was there has been read.
    pub open spec fn read_u29(self) -> (Result<u32, Error>, Cursor) {
        let w = u29_width(self.bytes);
        if self.bytes.len() >= w {
            (Ok(u29_value(self.bytes) as u32), self.advance(w))
        } else {
            (Err(Error::EndOfStream), self.advance(self.bytes.len() as int))
        }
    }

    /// The next eight bytes as the bit pattern of a double, least
    /// significant byte first. With fewer than eight left nothing is read.
    pub open spec fn read_double(self) -> (Result<u64, Error>, Cursor) {
        if self.bytes.len() >= 8 {
            (Ok(le_u64(self.bytes) as u64), self.advance(8))
        } else {
            (Err(Error::EndOfStream), self)
        }
    }

    /// A string. Its header is a variable-length integer `h`. An even `h`
    /// refers to entry `h / 2` of the table. An odd `h` is followed by
    /// `h / 2` bytes of UTF-8, which are read before they are checked; the
    /// string they spell joins the table unless it is empty.
    #[verifier::opaque]
    pub open spec fn read_string(self) -> (Result<Seq<char>, Error>, Cursor) {
        match self.read_u29() {
            (Err(e), next) => (Err(e), next),
            (Ok(header), next) => {
                let n = header as int / 2;
                if header % 2 == 0 {
                    if n < next.strings.len() {
                        (Ok(next.strings[n]), next)
                    } else {
                        (Err(Error::MissingStringReference), next)
                    }
                } else if next.bytes.len() >= n {
                    let raw = next.bytes.take(n);
                    if !valid_utf8(raw) {
                        (Err(Error::StringDecode), next.advance(n))
                    } else {
                        let text = decode_utf8(raw);
                        let strings = if text.len() > 0 {
                            next.strings.push(text)
                        } else {
                            next.strings
                        };
                        (Ok(text), Cursor { bytes: next.bytes.skip(n), strings })
                    }
                } else {
                    (Err(Error::EndOfStream), next)
                }
            },
        }
    }

    /// Steps over one value. Only an integer and a double can be stepped
    /// over, and are stepped over whole; every other marker is refused as
    /// `UnsupportedValueShape` once it has been read.
    pub open spec fn skip(self) -> (Result<(), Error>, Cursor) {
        match self.read_marker() {
            (Err(e), next) => (Err(e), next),
            (Ok(marker), next) => match marker {
                Marker::Integer => match next.read_u29() {
                    (Ok(_), after) => (Ok(()), after),
                    (Err(e), after) => (Err(e), after),
                },
                Marker::Double => if next.bytes.len() >= 8 {
                    (Ok(()), next.advance(8))
                } else {
                    (Err(Error::EndOfStream), next)
                },
                _ => (Err(Error::UnsupportedValueShape), next),
            },
        }
    }
}

/// Splits `N` bytes off the front of `slice`, or reports `EndOfStream` when
/// it holds fewer.
pub fn try_split_array_ref<const N: usize>(slice: &[u8]) -> (r: Result<(&[u8], &[u8]), Error>)
    ensures
        r is Ok <==> slice@.len() >= N,
        r matches Ok((head, rest)) ==> head@ == slice@.take(N as int) && rest@ == slice@.skip(
            N as int,
        ),
        r matches Err(e) ==> e == Error::EndOfStream,
{
    if slice.len() < N {
        Err(Error::EndOfStream)
    } else {
        Ok(slice.split_at(N))
    }
}

/// A forward-only reader over a borrowed buffer, together with the strings
/// that later references may point to. Strings are handed out as slices of
/// the buffer.
pub struct Deserializer<'de> {
    input: &'de [u8],
    string_reference_table: Vec<&'de str>,
}

impl<'de> View for Deserializer<'de> {
    type V = Cursor;

    closed spec fn view(&self) -> Cursor {
        Cursor {
            bytes: self.input@,
            strings: self.string_reference_table@.map_values(|s: &str| s@),
        }
    }
}

impl<'de> Deserializer<'de> {
    /// A reader at the start of `input`, with an empty table.
    pub fn new(input: &'de [u8]) -> (r: Self)
        ensures
            r@ == Cursor::start(input@),
    {
        let r = Self { input, string_reference_table: Vec::new() };
        assert(r@.strings =~= Seq::empty());
        r
    }

    /// Reads the next byte.
    pub fn read_byte(&mut self) -> (r: Result<u8, Error>)
        ensures
            (r, final(self)@) == old(self)@.read_byte(),
    {
        if self.input.len() == 0 {
            Err(Error::EndOfStream)
        } else {
            let byte = self.input[0];
            self.input = slice_subrange(self.input, 1, self.input.len());
            Ok(byte)
        }
    }

    /// Reads one byte and takes it as a marker.
    pub fn read_marker(&mut self) -> (r: Result<Marker, Error>)
        ensures
            (r, final(self)@) == old(self)@.read_marker(),
    {
        let byte = self.read_byte()?;
        Marker::new(byte)
    }

    /// Reads a variable-length integer of up to 29 bits.
    ///
    /// ```text
    /// 0x00000000 - 0x0000007F : 0xxxxxxx
    /// 0x00000080 - 0x00003FFF : 1xxxxxxx 0xxxxxxx
    /// 0x00004000 - 0x001FFFFF : 1xxxxxxx 1xxxxxxx 0xxxxxxx
    /// 0x00200000 - 0x1FFFFFFF : 1xxxxxxx 1xxxxxxx 1xxxxxxx xxxxxxxx
    /// ```
    pub fn read_u29(&mut self) -> (r: Result<u32, Error>)
        ensures
            (r, final(self)@) =~~= old(self)@.read_u29(),
            r matches Ok(v) ==> v <= 0x1FFF_FFFF,
    {
        let ghost start = self@;
        let first = self.read_byte()?;
        let mut value: u32 = (first & 0x7F) as u32;
        assert(first & 0x7F == if first >= 0x80 { (first - 0x80) as u8 } else { first })
            by (bit_vector);
        if first >= 0x80 {
            let second = self.read_byte()?;
            let high: u32 = value;
            value <<= 7;
            value |= (second & 0x7F) as u32;
            assert(second & 0x7F == if second >= 0x80 { (second - 0x80) as u8 } else { second })
                by (bit_vector);
            assert(high < 0x80 ==> (high << 7) | ((second & 0x7F) as u32) == high * 0x80 + (
            second & 0x7F) as u32) by (bit_vector);
            if second >= 0x80 {
                let third = self.read_byte()?;
                let high: u32 = value;
                value <<= 7;
                value |= (third & 0x7F) as u32;
                assert(third & 0x7F == if third >= 0x80 { (third - 0x80) as u8 } else { third })
                    by (bit_vector);
                assert(high < 0x4000 ==> (high << 7) | ((third & 0x7F) as u32) == high * 0x80 + (
                third & 0x7F) as u32) by (bit_vector);
                if third >= 0x80 {
                    let fourth = self.read_byte()?;
                    let high: u32 = value;
                    value <<= 8;
                    value |= fourth as u32;
                    assert(high < 0x20_0000 ==> (high << 8) | (fourth as u32) == high * 0x100
                        + fourth as u32) by (bit_vector);
                }
            }
        }
        assert(self@.bytes =~= start.bytes.skip(u29_width(start.bytes)));
        Ok(value)
    }

    /// Reads eight bytes and returns them as the bit pattern of a double,
    /// the first byte being the least significant.
    pub fn read_double(&mut self) -> (r: Result<u64, Error>)
        ensures
            (r, final(self)@) == old(self)@.read_double(),
    {
        let (double_bytes, rest) = try_split_array_ref::<8>(self.input)?;
        self.input = rest;
        let bits: u64 = double_bytes[0] as u64 + double_bytes[1] as u64 * 0x100
            + double_bytes[2] as u64 * 0x1_0000 + double_bytes[3] as u64 * 0x100_0000
            + double_bytes[4] as u64 * 0x1_0000_0000 + double_bytes[5] as u64 * 0x100_0000_0000
            + double_bytes[6] as u64 * 0x1_0000_0000_0000 + double_bytes[7] as u64
            * 0x100_0000_0000_0000;
        Ok(bits)
    }

    /// Reads a string, given by value or by reference into the table. The
    /// result is a slice of the input buffer.
    pub fn read_string(&mut self) -> (r: Result<&'de str, Error>)
        ensures
            (
                match r {
                    Ok(s) => Ok(s@),
                    Err(e) => Err(e),
                },
                final(self)@,
            ) == old(self)@.read_string(),
    {
        proof {
            reveal(Cursor::read_string);
        }
        let header = self.read_u29()?;
        let value = (header >> 1) as usize;
        assert(header >> 1 == header / 2) by (bit_vector);
        assert(header & 1 == header % 2) by (bit_vector);
        if header & 1 == 0 {
            // by reference
            if value < self.string_reference_table.len() {
                Ok(self.string_reference_table[value])
            } else {
                Err(Error::MissingStringReference)
            }
        } else if self.input.len() >= value {
            // by value
            let (string_bytes, rest) = self.input.split_at(value);
            self.input = rest;
            let string = match core::str::from_utf8(string_bytes) {
                Ok(string) => string,
                Err(e) => {
                    return Err(Error::from(e));
                },
            };
            proof {
                encode_utf8_decode_utf8(string@);
            }
            if !string.is_empty() {
                let ghost before = self.string_reference_table@;
                self.string_reference_table.push(string);
                assert(self.string_reference_table@.map_values(|s: &str| s@)
                    =~= before.map_values(|s: &str| s@).push(string@));
            }
            Ok(string)
        } else {
            Err(Error::EndOfStream)
        }
    }

    /// Steps over the next value without decoding it. Only integers and
    /// doubles can be stepped over; every other marker, those without a
    /// payload too, is reported as `UnsupportedValueShape`.
    pub fn skip(&mut self) -> (r: Result<(), Error>)
        ensures
            (r, final(self)@) == old(self)@.skip(),
    {
        let marker = self.read_marker()?;
        match marker {
            Marker::Integer => {
                self.read_u29()?;
            },
            Marker::Double => {
                if self.input.len() < 8 {
                    return Err(Error::EndOfStream);
                }
                self.input = slice_subrange(self.input, 8, self.input.len());
            },
            Marker::Undefined => {
                return Err(Error::UnsupportedValueShape);
            },
            Marker::Null => {
                return Err(Error::UnsupportedValueShape);
            },
            Marker::False => {
                return Err(Error::UnsupportedValueShape);
            },
            Marker::True => {
                return Err(Error::UnsupportedValueShape);
            },
            Marker::String => {
                return Err(Error::UnsupportedValueShape);
            },
            Marker::XmlDoc => {
                return Err(Error::UnsupportedValueShape);
            },
            Marker::Date => {
                return Err(Error::UnsupportedValueShape);
            },
            Marker::Array => {
                return Err(Error::UnsupportedValueShape);
            },
            Marker::Object => {
                return Err(Error::UnsupportedValueShape);
            },
            Marker::Xml => {
                return Err(Error::UnsupportedValueShape);
            },
            Marker::ByteArray => {
                return Err(Error::UnsupportedValueShape);
            },
            Marker::VectorInt => {
                return Err(Error::UnsupportedValueShape);
            },
            Marker::VectorUInt => {
                return Err(Error::UnsupportedValueShape);
            },
            Marker::VectorDouble => {
                return Err(Error::UnsupportedValueShape);
            },
            Marker::VectorObject => {
                return Err(Error::UnsupportedValueShape);
            },
            Marker::Dictionary => {
                return Err(Error::UnsupportedValueShape);
            },
        }
        Ok(())
    }
}

} // verus!
