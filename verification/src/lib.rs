//! A decoder for the AMF3 binary object-serialization format.
//!
//! The crate has two layers. [`format`] is the byte cursor: it reads markers,
//! variable-length integers, doubles and strings from a borrowed buffer and
//! keeps the table of strings that later references point into. On top of it
//! [`ByteDeserializer`] reads one marker and hands out what it announces: a
//! scalar, or the state from which the entries of a sequence or mapping are
//! taken one by one. [`deserialize`] takes every entry and builds the whole
//! tree. [`model`] states what each of these returns, [`laws`] and
//! [`truncation`] what follows from that.
//!
//! Nothing here aborts. A marker or encoding that is known but not handled
//! (dates, XML, byte arrays, vectors, dictionaries, objects with class
//! definitions, arrays by reference) is reported as
//! [`format::Error::UnsupportedValueShape`], and so is a value that nests
//! deeper than the caller allows, [`MAX_DEPTH`] in [`deserialize`]. Floating point is left to the
//! caller: a double is handed over as its bit pattern, and a cast that
//! involves a float as the carrier together with the type asked for.

pub mod format;
pub mod laws;
pub mod model;
pub mod traits;
pub mod truncation;
pub mod utf8;
pub mod value;

use crate::format::Marker;
use crate::model::{
    after, lemma_after_value_consumes, lemma_value_consumes, MapModel, TokenModel,
};
use crate::traits::{visit_double, visit_int, Numeric, NumericType};
use crate::value::{
    entry_views, item_views, lemma_mapping_view, lemma_sequence_view, Key, KeyModel, Value,
    ValueModel,
};
use vstd::prelude::*;
use vstd::std_specs::convert::FromSpecImpl;
use vstd::string::{to_string_from_display_ensures, StringExecFns};

verus! {

/// The ways in which decoding fails.
#[derive(Debug, PartialEq)]
pub enum ErrorKind {
    /// The consumer could not use a value it was handed.
    Custom(String),
    /// The byte stream is malformed, ends early, or holds a value that this
    /// decoder does not handle.
    Format(format::Error),
}

/// An error from decoding. Every error ends the session.
#[derive(Debug, PartialEq)]
pub struct Error {
    pub kind: ErrorKind,
}

impl Error {
    /// The error that stands for a fault of the byte stream.
    pub open spec fn format(e: format::Error) -> Error {
        Error { kind: ErrorKind::Format(e) }
    }

    /// An error raised by the consumer, with the message that `msg`
    /// displays.
    pub fn custom<T: core::fmt::Display>(msg: T) -> (r: Error)
        ensures
            r.kind matches ErrorKind::Custom(text) && to_string_from_display_ensures::<T>(
                &msg,
                text,
            ),
    {
        Error { kind: ErrorKind::Custom(msg.to_string()) }
    }
}

/// The character of a decimal digit.
pub open spec fn digit(d: int) -> char
    recommends
        0 <= d <= 9,
{
    ('0' as u8 + d) as char
}

/// A byte written in decimal, without leading zeros.
pub open spec fn decimal(b: u8) -> Seq<char> {
    if b >= 100 {
        seq![digit(b as int / 100), digit(b as int / 10 % 10), digit(b as int % 10)]
    } else if b >= 10 {
        seq![digit(b as int / 10), digit(b as int % 10)]
    } else {
        seq![digit(b as int)]
    }
}

/// The name of a fault of the byte stream, with the offending byte where
/// there is one.
pub open spec fn format_text(e: format::Error) -> Seq<char> {
    match e {
        format::Error::InvalidMarker(b) => "InvalidMarker("@ + decimal(b) + ")"@,
        format::Error::StringDecode => "StringDecode"@,
        format::Error::EndOfStream => "EndOfStream"@,
        format::Error::MissingStringReference => "MissingStringReference"@,
        format::Error::UnsupportedValueShape => "UnsupportedValueShape"@,
    }
}

/// The text of one decimal digit.
fn digit_str(d: u8) -> (r: &'static str)
    requires
        d <= 9,
    ensures
        r@ == seq![digit(d as int)],
{
    proof {
        reveal_strlit("0");
        reveal_strlit("1");
        reveal_strlit("2");
        reveal_strlit("3");
        reveal_strlit("4");
        reveal_strlit("5");
        reveal_strlit("6");
        reveal_strlit("7");
        reveal_strlit("8");
        reveal_strlit("9");
    }
    let r = match d {
        0 => "0",
        1 => "1",
        2 => "2",
        3 => "3",
        4 => "4",
        5 => "5",
        6 => "6",
        7 => "7",
        8 => "8",
        _ => "9",
    };
    assert(r@ =~= seq![digit(d as int)]);
    r
}

impl Error {
    /// The text that describes this error.
    pub open spec fn text(self) -> Seq<char> {
        match self.kind {
            ErrorKind::Custom(msg) => "Custom: "@ + msg@,
            ErrorKind::Format(e) => "Format error: "@ + format_text(e),
        }
    }

    /// Describes the error in words.
    pub fn message(&self) -> (r: String)
        ensures
            r@ == self.text(),
    {
        match &self.kind {
            ErrorKind::Custom(msg) => {
                let mut r = String::from_str("Custom: ");
                r.append(msg.as_str());
                r
            },
            ErrorKind::Format(e) => {
                let mut r = String::from_str("Format error: ");
                match e {
                    format::Error::InvalidMarker(b) => {
                        let b = *b;
                        let ghost start = r@;
                        r.append("InvalidMarker(");
                        if b >= 100 {
                            r.append(digit_str(b / 100));
                        }
                        if b >= 10 {
                            r.append(digit_str(b / 10 % 10));
                        }
                        r.append(digit_str(b % 10));
                        r.append(")");
                        assert(r@ =~= start + ("InvalidMarker("@ + decimal(b) + ")"@));
                    },
                    format::Error::StringDecode => {
                        r.append("StringDecode");
                    },
                    format::Error::EndOfStream => {
                        r.append("EndOfStream");
                    },
                    format::Error::MissingStringReference => {
                        r.append("MissingStringReference");
                    },
                    format::Error::UnsupportedValueShape => {
                        r.append("UnsupportedValueShape");
                    },
                }
                r
            },
        }
    }
}

impl From<format::Error> for Error {
    fn from(e: format::Error) -> (r: Self) {
        Self { kind: ErrorKind::Format(e) }
    }
}

impl FromSpecImpl<format::Error> for Error {
    open spec fn obeys_from_spec() -> bool {
        true
    }

    open spec fn from_spec(e: format::Error) -> Self {
        Error::format(e)
    }
}

/// A result as the model states it: a fault of the byte stream becomes the
/// error that is returned for it.
pub open spec fn lifted<T>(r: Result<T, format::Error>) -> Result<T, Error> {
    match r {
        Ok(t) => Ok(t),
        Err(e) => Err(Error::format(e)),
    }
}

/// A result as the contracts see it: the view of what was decoded.
pub open spec fn seen<T: View>(r: Result<T, Error>) -> Result<T::V, Error> {
    match r {
        Ok(t) => Ok(t@),
        Err(e) => Err(e),
    }
}

/// A dense array that is being handed out element by element.
#[derive(Debug, PartialEq)]
pub struct ByteDeserializerSeq {
    /// The number of elements still to come.
    pub len: usize,
}

/// An array with an associative portion that is being handed out entry by
/// entry.
#[derive(Debug, PartialEq)]
pub struct ByteDeserializerMap<'de> {
    /// The number of dense slots still to come.
    pub len: usize,
    /// The key that was read ahead; empty once the associative portion is
    /// over.
    pub next_key: &'de str,
}

/// What stands at the head of the stream: a scalar, or the start of a
/// sequence or mapping.
#[derive(Debug, PartialEq)]
pub enum Token<'de> {
    /// What the markers undefined and null both decode to.
    Absent,
    Bool(bool),
    Number(Numeric),
    String(&'de str),
    Sequence(ByteDeserializerSeq),
    Mapping(ByteDeserializerMap<'de>),
}

impl View for ByteDeserializerSeq {
    type V = usize;

    open spec fn view(&self) -> usize {
        self.len
    }
}

impl<'de> View for ByteDeserializerMap<'de> {
    type V = MapModel;

    open spec fn view(&self) -> MapModel {
        MapModel { len: self.len, next_key: self.next_key@ }
    }
}

impl<'de> View for Token<'de> {
    type V = TokenModel;

    open spec fn view(&self) -> TokenModel {
        match self {
            Token::Absent => TokenModel::Absent,
            Token::Bool(b) => TokenModel::Bool(*b),
            Token::Number(n) => TokenModel::Number(*n),
            Token::String(s) => TokenModel::String(s@),
            Token::Sequence(seq) => TokenModel::Sequence(seq@),
            Token::Mapping(map) => TokenModel::Mapping(map@),
        }
    }
}

/// The value decoder of one session over a borrowed buffer.
pub struct ByteDeserializer<'de> {
    inner: format::Deserializer<'de>,
}

impl<'de> View for ByteDeserializer<'de> {
    type V = format::Cursor;

    closed spec fn view(&self) -> format::Cursor {
        self.inner@
    }
}

impl<'de> ByteDeserializer<'de> {
    /// A decoder at the start of `input`, with an empty string table.
    pub fn from_bytes(input: &'de [u8]) -> (r: Self)
        ensures
            r@ == format::Cursor::start(input@),
    {
        Self { inner: format::Deserializer::new(input) }
    }

    /// Reads what follows an array marker: the header and the first key,
    /// which tells a sequence from a mapping.
    pub fn deserialize_array(&mut self) -> (r: Result<Token<'de>, Error>)
        ensures
            seen(r) == lifted(old(self)@.array().0),
            final(self)@ =~~= old(self)@.array().1,
    {
        let header = match self.inner.read_u29() {
            Ok(header) => header,
            Err(e) => {
                return Err(Error::from(e));
            },
        };
        let value = (header >> 1) as usize;
        assert(header >> 1 == header / 2) by (bit_vector);
        assert(header & 1 == header % 2) by (bit_vector);
        if header & 1 == 0 {
            // array by reference
            Err(Error::from(format::Error::UnsupportedValueShape))
        } else {
            // dense count
            let first_key = match self.inner.read_string() {
                Ok(key) => key,
                Err(e) => {
                    return Err(Error::from(e));
                },
            };
            if first_key.is_empty() {
                // only dense keys => array
                Ok(Token::Sequence(ByteDeserializerSeq { len: value }))
            } else {
                Ok(Token::Mapping(ByteDeserializerMap { len: value, next_key: first_key }))
            }
        }
    }

    /// Reads one marker and what it announces, with integers handed over
    /// as `ints` and doubles as `doubles`.
    pub fn deserialize_into(&mut self, ints: NumericType, doubles: NumericType) -> (r: Result<
        Token<'de>,
        Error,
    >)
        ensures
            seen(r) == lifted(old(self)@.token(ints, doubles).0),
            final(self)@ =~~= old(self)@.token(ints, doubles).1,
    {
        proof {
            reveal(format::Cursor::token);
        }
        let marker = match self.inner.read_marker() {
            Ok(marker) => marker,
            Err(e) => {
                return Err(Error::from(e));
            },
        };
        match marker {
            Marker::Undefined => Ok(Token::Absent),
            Marker::Null => Ok(Token::Absent),
            Marker::False => Ok(Token::Bool(false)),
            Marker::True => Ok(Token::Bool(true)),
            Marker::Integer => match self.inner.read_u29() {
                Ok(v) => Ok(Token::Number(visit_int(ints, v))),
                Err(e) => Err(Error::from(e)),
            },
            Marker::Double => match self.inner.read_double() {
                Ok(bits) => Ok(Token::Number(visit_double(doubles, bits))),
                Err(e) => Err(Error::from(e)),
            },
            Marker::String => match self.inner.read_string() {
                Ok(s) => Ok(Token::String(s)),
                Err(e) => Err(Error::from(e)),
            },
            Marker::XmlDoc => Err(Error::from(format::Error::UnsupportedValueShape)),
            Marker::Date => Err(Error::from(format::Error::UnsupportedValueShape)),
            Marker::Array => self.deserialize_array(),
            Marker::Object => Err(Error::from(format::Error::UnsupportedValueShape)),
            Marker::Xml => Err(Error::from(format::Error::UnsupportedValueShape)),
            Marker::ByteArray => Err(Error::from(format::Error::UnsupportedValueShape)),
            Marker::VectorInt => Err(Error::from(format::Error::UnsupportedValueShape)),
            Marker::VectorUInt => Err(Error::from(format::Error::UnsupportedValueShape)),
            Marker::VectorDouble => Err(Error::from(format::Error::UnsupportedValueShape)),
            Marker::VectorObject => Err(Error::from(format::Error::UnsupportedValueShape)),
            Marker::Dictionary => Err(Error::from(format::Error::UnsupportedValueShape)),
        }
    }

    /// Reads the next token as a consumer without a wish does: integers as
    /// `u32`, doubles as `f64`.
    pub fn deserialize_any(&mut self) -> (r: Result<Token<'de>, Error>)
        ensures
            seen(r) == lifted(old(self)@.token(NumericType::U32, NumericType::F64).0),
            final(self)@ =~~= old(self)@.token(NumericType::U32, NumericType::F64).1,
    {
        self.deserialize_into(NumericType::U32, NumericType::F64)
    }

    /// Reads the next token with every number handed over as `i8`.
    pub fn deserialize_i8(&mut self) -> (r: Result<Token<'de>, Error>)
        ensures
            seen(r) == lifted(old(self)@.token(NumericType::I8, NumericType::I8).0),
            final(self)@ =~~= old(self)@.token(NumericType::I8, NumericType::I8).1,
    {
        self.deserialize_into(NumericType::I8, NumericType::I8)
    }

    /// Reads the next token with every number handed over as `i16`.
    pub fn deserialize_i16(&mut self) -> (r: Result<Token<'de>, Error>)
        ensures
            seen(r) == lifted(old(self)@.token(NumericType::I16, NumericType::I16).0),
            final(self)@ =~~= old(self)@.token(NumericType::I16, NumericType::I16).1,
    {
        self.deserialize_into(NumericType::I16, NumericType::I16)
    }

    /// Reads the next token with every number handed over as `i32`.
    pub fn deserialize_i32(&mut self) -> (r: Result<Token<'de>, Error>)
        ensures
            seen(r) == lifted(old(self)@.token(NumericType::I32, NumericType::I32).0),
            final(self)@ =~~= old(self)@.token(NumericType::I32, NumericType::I32).1,
    {
        self.deserialize_into(NumericType::I32, NumericType::I32)
    }

    /// Reads the next token with every number handed over as `i64`.
    pub fn deserialize_i64(&mut self) -> (r: Result<Token<'de>, Error>)
        ensures
            seen(r) == lifted(old(self)@.token(NumericType::I64, NumericType::I64).0),
            final(self)@ =~~= old(self)@.token(NumericType::I64, NumericType::I64).1,
    {
        self.deserialize_into(NumericType::I64, NumericType::I64)
    }

    /// Reads the next token with every number handed over as `u8`.
    pub fn deserialize_u8(&mut self) -> (r: Result<Token<'de>, Error>)
        ensures
            seen(r) == lifted(old(self)@.token(NumericType::U8, NumericType::U8).0),
            final(self)@ =~~= old(self)@.token(NumericType::U8, NumericType::U8).1,
    {
        self.deserialize_into(NumericType::U8, NumericType::U8)
    }

    /// Reads the next token with every number handed over as `u16`.
    pub fn deserialize_u16(&mut self) -> (r: Result<Token<'de>, Error>)
        ensures
            seen(r) == lifted(old(self)@.token(NumericType::U16, NumericType::U16).0),
            final(self)@ =~~= old(self)@.token(NumericType::U16, NumericType::U16).1,
    {
        self.deserialize_into(NumericType::U16, NumericType::U16)
    }

    /// Reads the next token with every number handed over as `u32`.
    pub fn deserialize_u32(&mut self) -> (r: Result<Token<'de>, Error>)
        ensures
            seen(r) == lifted(old(self)@.token(NumericType::U32, NumericType::U32).0),
            final(self)@ =~~= old(self)@.token(NumericType::U32, NumericType::U32).1,
    {
        self.deserialize_into(NumericType::U32, NumericType::U32)
    }

    /// Reads the next token with every number handed over as `u64`.
    pub fn deserialize_u64(&mut self) -> (r: Result<Token<'de>, Error>)
        ensures
            seen(r) == lifted(old(self)@.token(NumericType::U64, NumericType::U64).0),
            final(self)@ =~~= old(self)@.token(NumericType::U64, NumericType::U64).1,
    {
        self.deserialize_into(NumericType::U64, NumericType::U64)
    }

    /// Reads the next token with every number handed over as `f32`.
    pub fn deserialize_f32(&mut self) -> (r: Result<Token<'de>, Error>)
        ensures
            seen(r) == lifted(old(self)@.token(NumericType::F32, NumericType::F32).0),
            final(self)@ =~~= old(self)@.token(NumericType::F32, NumericType::F32).1,
    {
        self.deserialize_into(NumericType::F32, NumericType::F32)
    }

    /// Reads the next token with every number handed over as `f64`.
    pub fn deserialize_f64(&mut self) -> (r: Result<Token<'de>, Error>)
        ensures
            seen(r) == lifted(old(self)@.token(NumericType::F64, NumericType::F64).0),
            final(self)@ =~~= old(self)@.token(NumericType::F64, NumericType::F64).1,
    {
        self.deserialize_into(NumericType::F64, NumericType::F64)
    }

    /// Steps over the next value and hands out the absent value in its
    /// place. Only an integer and a double can be stepped over; any other
    /// marker is reported as `UnsupportedValueShape`.
    pub fn deserialize_ignored_any(&mut self) -> (r: Result<Token<'de>, Error>)
        ensures
            seen(r) == lifted(old(self)@.ignored().0),
            final(self)@ =~~= old(self)@.ignored().1,
    {
        match self.inner.skip() {
            Ok(()) => Ok(Token::Absent),
            Err(e) => Err(Error::from(e)),
        }
    }
}

impl ByteDeserializerSeq {
    /// Takes the slot of the next element: `true` while one is left, which
    /// is then counted off.
    pub fn next_slot(&mut self) -> (more: bool)
        ensures
            more == (old(self).len > 0),
            more ==> final(self).len == old(self).len - 1,
            !more ==> final(self).len == 0,
    {
        if self.len > 0 {
            self.len -= 1;
            true
        } else {
            false
        }
    }

    /// Decodes the next element from `de`, or returns `None` when all have
    /// been handed out. The element is counted off before it is decoded,
    /// and may nest `depth` levels deep.
    pub fn next_element<'de>(
        &mut self,
        de: &mut ByteDeserializer<'de>,
        ints: NumericType,
        doubles: NumericType,
        depth: usize,
    ) -> (r: Result<Option<Value<'de>>, Error>)
        ensures
            old(self).len == 0 ==> r == Ok::<Option<Value<'de>>, Error>(None) && final(de)@ == old(
                de,
            )@ && final(self).len == 0,
            old(self).len > 0 ==> final(self).len == old(self).len - 1 && final(de)@ == old(
                de,
            )@.value(ints, doubles, depth as nat).1 && match r {
                Ok(Some(v)) => old(de)@.value(ints, doubles, depth as nat).0 == Ok::<
                    ValueModel,
                    format::Error,
                >(
                    v@,
                ),
                Ok(None) => false,
                Err(e) => lifted(old(de)@.value(ints, doubles, depth as nat).0) == Err::<
                    ValueModel,
                    Error,
                >(e),
            },
        decreases old(de)@.bytes.len(), 1nat,
    {
        if self.len > 0 {
            self.len -= 1;
            match de.deserialize_value(ints, doubles, depth) {
                Ok(v) => Ok(Some(v)),
                Err(e) => Err(e),
            }
        } else {
            Ok(None)
        }
    }
}

impl<'de> ByteDeserializerMap<'de> {
    /// The key of the next entry, or `None` when all have been handed out.
    /// A dense slot is counted off as its key is given.
    pub fn next_key(&mut self) -> (r: Option<Key<'de>>)
        ensures
            final(self)@ == old(self)@.next_key().1,
            match r {
                Some(key) => old(self)@.next_key().0 == Some(key@),
                None => old(self)@.next_key().0 is None,
            },
    {
        if self.next_key.is_empty() {
            if self.len > 0 {
                self.len -= 1;
                Some(Key::Index(self.len))
            } else {
                None
            }
        } else {
            Some(Key::Name(self.next_key))
        }
    }

    /// Moves on once the value of an entry has been decoded: in the
    /// associative portion this reads the key of the next entry.
    pub fn read_ahead(&mut self, de: &mut ByteDeserializer<'de>) -> (r: Result<(), Error>)
        ensures
            final(de)@ == old(self)@.after_value(old(de)@).1,
            match r {
                Ok(_) => old(self)@.after_value(old(de)@).0 == Ok::<MapModel, format::Error>(
                    final(self)@,
                ),
                Err(e) => final(self)@ == old(self)@ && lifted(old(self)@.after_value(old(de)@).0)
                    == Err::<MapModel, Error>(e),
            },
    {
        if !self.next_key.is_empty() {
            match de.inner.read_string() {
                Ok(key) => {
                    self.next_key = key;
                },
                Err(e) => {
                    return Err(Error::from(e));
                },
            }
        }
        Ok(())
    }

    /// Decodes the value of the entry whose key was just given, which may
    /// nest `depth` levels deep, then moves on to the next entry.
    pub fn next_value(
        &mut self,
        de: &mut ByteDeserializer<'de>,
        ints: NumericType,
        doubles: NumericType,
        depth: usize,
    ) -> (r: Result<Value<'de>, Error>)
        ensures
            match old(de)@.value(ints, doubles, depth as nat) {
                (Err(e), next) => r == Err::<Value<'de>, Error>(Error::format(e)) && final(de)@
                    == next && final(self)@ == old(self)@,
                (Ok(v), next) => final(de)@ == old(self)@.after_value(next).1 && match r {
                    Ok(value) => value@ == v && old(self)@.after_value(next).0 == Ok::<
                        MapModel,
                        format::Error,
                    >(final(self)@),
                    Err(e) => final(self)@ == old(self)@ && lifted(old(self)@.after_value(next).0)
                        == Err::<MapModel, Error>(e),
                },
            },
        decreases old(de)@.bytes.len(), 1nat,
    {
        let value = de.deserialize_value(ints, doubles, depth)?;
        self.read_ahead(de)?;
        Ok(value)
    }
}

impl<'de> ByteDeserializer<'de> {
    /// Decodes the next value whole, taking every element of a sequence
    /// and every entry of a mapping, with integers handed over as `ints`
    /// and doubles as `doubles` throughout.
    ///
    /// At most `depth` sequences or mappings may be open at once, one
    /// inside the other. One that would go deeper is refused as
    /// `UnsupportedValueShape` once its header and first key have been
    /// read, so that the depth of the recursion is bounded by `depth` and
    /// not by the input.
    #[verifier::loop_isolation(false)]
    pub fn deserialize_value(
        &mut self,
        ints: NumericType,
        doubles: NumericType,
        depth: usize,
    ) -> (r: Result<Value<'de>, Error>)
        ensures
            seen(r) == lifted(old(self)@.value(ints, doubles, depth as nat).0),
            final(self)@ == old(self)@.value(ints, doubles, depth as nat).1,
        decreases old(self)@.bytes.len(), 0nat,
    {
        let ghost entry = self@;
        proof {
            crate::model::lemma_token_consumes(entry, ints, doubles);
        }
        match self.deserialize_into(ints, doubles)? {
            Token::Absent => Ok(Value::Absent),
            Token::Bool(b) => Ok(Value::Bool(b)),
            Token::Number(n) => Ok(Value::Number(n)),
            Token::String(s) => Ok(Value::String(s)),
            Token::Sequence(seq) => {
                if depth == 0 {
                    return Err(Error::from(format::Error::UnsupportedValueShape));
                }
                let mut seq = seq;
                let ghost start = self@;
                let ghost n = seq.len as nat;
                let mut items: Vec<Value<'de>> = Vec::new();
                assert(item_views(items@) + Seq::<ValueModel>::empty() =~= Seq::empty());
                loop
                    invariant
                        self@.bytes.len() <= start.bytes.len() < entry.bytes.len(),
                        start.items(n, ints, doubles, (depth - 1) as nat) == after(
                            item_views(items@),
                            self@.items(seq.len as nat, ints, doubles, (depth - 1) as nat),
                        ),
                    decreases seq.len,
                {
                    let ghost here = self@;
                    let ghost done = items@;
                    proof {
                        lemma_value_consumes(here, ints, doubles, (depth - 1) as nat);
                    }
                    match seq.next_element(self, ints, doubles, depth - 1) {
                        Err(e) => {
                            return Err(e);
                        },
                        Ok(None) => {
                            break ;
                        },
                        Ok(Some(item)) => {
                            items.push(item);
                            proof {
                                let rest = self@.items(
                                    seq.len as nat,
                                    ints,
                                    doubles,
                                    (depth - 1) as nat,
                                );
                                assert(item_views(items@) =~= item_views(done).push(item@));
                                if let Ok(more) = rest.0 {
                                    assert(item_views(done) + (seq![item@] + more) =~= item_views(
                                        items@,
                                    ) + more);
                                }
                            }
                        },
                    }
                }
                assert(item_views(items@) + Seq::<ValueModel>::empty() =~= item_views(items@));
                proof {
                    lemma_sequence_view(items);
                }
                let value = Value::Sequence(items);
                Ok(value)
            },
            Token::Mapping(map) => {
                if depth == 0 {
                    return Err(Error::from(format::Error::UnsupportedValueShape));
                }
                let mut map = map;
                let ghost start = self@;
                let ghost first = map@;
                let mut entries: Vec<(Key<'de>, Value<'de>)> = Vec::new();
                assert(entry_views(entries@) + Seq::<(KeyModel, ValueModel)>::empty()
                    =~= Seq::empty());
                loop
                    invariant
                        self@.bytes.len() <= start.bytes.len() < entry.bytes.len(),
                        start.entries(first, ints, doubles, (depth - 1) as nat) == after(
                            entry_views(entries@),
                            self@.entries(map@, ints, doubles, (depth - 1) as nat),
                        ),
                    decreases self@.bytes.len(),
                {
                    let ghost here = self@;
                    let ghost done = entries@;
                    let ghost state = map@;
                    proof {
                        lemma_value_consumes(here, ints, doubles, (depth - 1) as nat);
                    }
                    let key = match map.next_key() {
                        Some(key) => key,
                        None => {
                            break ;
                        },
                    };
                    proof {
                        if let (Ok(_), next) = here.value(ints, doubles, (depth - 1) as nat) {
                            lemma_after_value_consumes(map@, next);
                        }
                    }
                    let value = map.next_value(self, ints, doubles, depth - 1)?;
                    proof {
                        let rest = self@.entries(map@, ints, doubles, (depth - 1) as nat);
                        let entry = (key@, value@);
                        assert(entry_views(done.push((key, value))) =~= entry_views(done).push(
                            entry,
                        ));
                        if let Ok(more) = rest.0 {
                            assert(entry_views(done) + (seq![entry] + more) =~= entry_views(
                                done,
                            ).push(entry) + more);
                        }
                    }
                    entries.push((key, value));
                }
                assert(entry_views(entries@) + Seq::<(KeyModel, ValueModel)>::empty()
                    =~= entry_views(entries@));
                proof {
                    lemma_mapping_view(entries);
                }
                let value = Value::Mapping(entries);
                Ok(value)
            },
        }
    }
}

/// How many sequences and mappings [`deserialize`] lets be open at once,
/// one inside the other.
pub const MAX_DEPTH: usize = 128;

/// Decodes the value at the start of `input` whole, as a tree. Integers are
/// handed over as `u32`, doubles by their bit pattern. Nesting deeper than
/// [`MAX_DEPTH`] is refused as `UnsupportedValueShape`.
pub fn deserialize<'de>(input: &'de [u8]) -> (r: Result<Value<'de>, Error>)
    ensures
        seen(r) == lifted(
            format::Cursor::start(input@).value(
                NumericType::U32,
                NumericType::F64,
                MAX_DEPTH as nat,
            ).0,
        ),
{
    let mut deserializer = ByteDeserializer::from_bytes(input);
    deserializer.deserialize_value(NumericType::U32, NumericType::F64, MAX_DEPTH)
}

} // verus!
