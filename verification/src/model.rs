//! What decoding means, stated over the cursor of a session: the token at
//! the head of the stream, the protocol by which the entries of a sequence
//! or mapping are handed out, and the value tree that results when a
//! consumer takes every entry.

use crate::format::{Cursor, Error, Marker};
use crate::traits::{spec_visit_double, spec_visit_int, Numeric, NumericType};
use crate::value::{KeyModel, ValueModel};
use vstd::prelude::*;

verus! {

/// The state of a mapping that is being handed out: the number of dense
/// slots still to come, and the key that was read ahead. An empty key
/// means that the associative portion is over.
pub struct MapModel {
    pub len: usize,
    pub next_key: Seq<char>,
}

/// What stands at the head of the stream.
pub enum TokenModel {
    Absent,
    Bool(bool),
    Number(Numeric),
    String(Seq<char>),
    /// A dense array of that many elements, which follow.
    Sequence(usize),
    /// An array with an associative portion, whose first key was read.
    Mapping(MapModel),
}

/// The outcome `rest` of a run of entries, seen from further back: `done`
/// stands before what it decodes.
pub open spec fn after<T>(done: Seq<T>, rest: (Result<Seq<T>, Error>, Cursor)) -> (
    Result<Seq<T>, Error>,
    Cursor,
) {
    match rest.0 {
        Ok(more) => (Ok(done + more), rest.1),
        Err(e) => (Err(e), rest.1),
    }
}

impl MapModel {
    /// The key of the next entry, and the state once it is handed out. In
    /// the associative portion it is the key read ahead. After that the
    /// dense slots are numbered from the count downwards.
    pub open spec fn next_key(self) -> (Option<KeyModel>, MapModel) {
        if self.next_key.len() > 0 {
            (Some(KeyModel::Name(self.next_key)), self)
        } else if self.len > 0 {
            (
                Some(KeyModel::Index((self.len - 1) as usize)),
                MapModel { len: (self.len - 1) as usize, next_key: self.next_key },
            )
        } else {
            (None, self)
        }
    }

    /// The state once the value of an entry has been decoded: in the
    /// associative portion the key of the next entry is read from the
    /// stream; in the dense portion nothing is read.
    pub open spec fn after_value(self, cursor: Cursor) -> (Result<MapModel, Error>, Cursor) {
        if self.next_key.len() > 0 {
            match cursor.read_string() {
                (Ok(key), next) => (Ok(MapModel { len: self.len, next_key: key }), next),
                (Err(e), next) => (Err(e), next),
            }
        } else {
            (Ok(self), cursor)
        }
    }
}

impl Cursor {
    /// The payload of an array marker. Its header is a variable-length
    /// integer `h`: an even `h` is a reference to an earlier array, which is
    /// not supported; an odd `h` gives the dense count `h / 2`. The string
    /// that follows decides the shape: empty for a sequence, else the first
    /// key of a mapping.
    pub open spec fn array(self) -> (Result<TokenModel, Error>, Cursor) {
        match self.read_u29() {
            (Err(e), next) => (Err(e), next),
            (Ok(header), next) => if header % 2 == 0 {
                (Err(Error::UnsupportedValueShape), next)
            } else {
                match next.read_string() {
                    (Err(e), after) => (Err(e), after),
                    (Ok(key), after) => if key.len() == 0 {
                        (Ok(TokenModel::Sequence((header / 2) as usize)), after)
                    } else {
                        (
                            Ok(
                                TokenModel::Mapping(
                                    MapModel { len: (header / 2) as usize, next_key: key },
                                ),
                            ),
                            after,
                        )
                    },
                }
            },
        }
    }

    /// The token at the head of the stream, with integers handed over as
    /// `ints` and doubles as `doubles`.
    #[verifier::opaque]
    pub open spec fn token(self, ints: NumericType, doubles: NumericType) -> (
        Result<TokenModel, Error>,
        Cursor,
    ) {
        match self.read_marker() {
            (Err(e), next) => (Err(e), next),
            (Ok(marker), next) => match marker {
                Marker::Undefined | Marker::Null => (Ok(TokenModel::Absent), next),
                Marker::False => (Ok(TokenModel::Bool(false)), next),
                Marker::True => (Ok(TokenModel::Bool(true)), next),
                Marker::Integer => match next.read_u29() {
                    (Ok(v), after) => (Ok(TokenModel::Number(spec_visit_int(ints, v))), after),
                    (Err(e), after) => (Err(e), after),
                },
                Marker::Double => match next.read_double() {
                    (Ok(bits), after) => (
                        Ok(TokenModel::Number(spec_visit_double(doubles, bits))),
                        after,
                    ),
                    (Err(e), after) => (Err(e), after),
                },
                Marker::String => match next.read_string() {
                    (Ok(s), after) => (Ok(TokenModel::String(s)), after),
                    (Err(e), after) => (Err(e), after),
                },
                Marker::Array => next.array(),
                _ => (Err(Error::UnsupportedValueShape), next),
            },
        }
    }

    /// The outcome of ignoring the next value: it is stepped over, which
    /// only an integer and a double allow, and the consumer is handed the
    /// absent value in its place.
    pub open spec fn ignored(self) -> (Result<TokenModel, Error>, Cursor) {
        match self.skip() {
            (Ok(_), next) => (Ok(TokenModel::Absent), next),
            (Err(e), next) => (Err(e), next),
        }
    }

    /// The value at the head of the stream, decoded whole: a sequence with
    /// all its elements, a mapping with all its entries. At most `depth`
    /// sequences or mappings may be open at once, one inside the other: a
    /// token that would open one more is read and then refused as
    /// `UnsupportedValueShape`. (The tests on the
    /// lengths are there for the definition's sake only: a token always
    /// takes at least its marker, see [`lemma_token_consumes`].)
    pub open spec fn value(self, ints: NumericType, doubles: NumericType, depth: nat) -> (
        Result<ValueModel, Error>,
        Cursor,
    )
        decreases self.bytes.len(), 0nat,
    {
        match self.token(ints, doubles) {
            (Err(e), next) => (Err(e), next),
            (Ok(token), next) => match token {
                TokenModel::Absent => (Ok(ValueModel::Absent), next),
                TokenModel::Bool(b) => (Ok(ValueModel::Bool(b)), next),
                TokenModel::Number(n) => (Ok(ValueModel::Number(n)), next),
                TokenModel::String(s) => (Ok(ValueModel::String(s)), next),
                TokenModel::Sequence(len) => if depth == 0 {
                    (Err(Error::UnsupportedValueShape), next)
                } else if next.bytes.len() < self.bytes.len() {
                    match next.items(len as nat, ints, doubles, (depth - 1) as nat) {
                        (Ok(items), after) => (Ok(ValueModel::Sequence(items)), after),
                        (Err(e), after) => (Err(e), after),
                    }
                } else {
                    (Err(Error::EndOfStream), next)
                },
                TokenModel::Mapping(state) => if depth == 0 {
                    (Err(Error::UnsupportedValueShape), next)
                } else if next.bytes.len() < self.bytes.len() {
                    match next.entries(state, ints, doubles, (depth - 1) as nat) {
                        (Ok(entries), after) => (Ok(ValueModel::Mapping(entries)), after),
                        (Err(e), after) => (Err(e), after),
                    }
                } else {
                    (Err(Error::EndOfStream), next)
                },
            },
        }
    }

    /// The next `n` values, each decoded where the one before it ended and
    /// each with `depth` levels of nesting to spare.
    /// (The test on the lengths is there for the definition's sake only: a
    /// decoded value always takes at least its marker, see
    /// [`lemma_value_consumes`].)
    pub open spec fn items(self, n: nat, ints: NumericType, doubles: NumericType, depth: nat) -> (
        Result<Seq<ValueModel>, Error>,
        Cursor,
    )
        decreases self.bytes.len(), 1nat,
    {
        if n == 0 {
            (Ok(Seq::empty()), self)
        } else {
            match self.value(ints, doubles, depth) {
                (Err(e), next) => (Err(e), next),
                (Ok(first), next) => if next.bytes.len() < self.bytes.len() {
                    match next.items((n - 1) as nat, ints, doubles, depth) {
                        (Ok(rest), after) => (Ok(seq![first] + rest), after),
                        (Err(e), after) => (Err(e), after),
                    }
                } else {
                    (Err(Error::EndOfStream), next)
                },
            }
        }
    }

    /// The entries that a mapping in state `state` still hands out: for
    /// each key that [`MapModel::next_key`] gives, the value decoded at the
    /// head of the stream, after which [`MapModel::after_value`] moves on.
    /// (The test on the lengths is there for the definition's sake only.)
    pub open spec fn entries(
        self,
        state: MapModel,
        ints: NumericType,
        doubles: NumericType,
        depth: nat,
    ) -> (
        Result<Seq<(KeyModel, ValueModel)>, Error>,
        Cursor,
    )
        decreases self.bytes.len(), 1nat,
    {
        match state.next_key() {
            (None, _) => (Ok(Seq::empty()), self),
            (Some(key), pending) => match self.value(ints, doubles, depth) {
                (Err(e), next) => (Err(e), next),
                (Ok(v), next) => match pending.after_value(next) {
                    (Err(e), after) => (Err(e), after),
                    (Ok(following), after) => if after.bytes.len() < self.bytes.len() {
                        match after.entries(following, ints, doubles, depth) {
                            (Ok(rest), end) => (Ok(seq![(key, v)] + rest), end),
                            (Err(e), end) => (Err(e), end),
                        }
                    } else {
                        (Err(Error::EndOfStream), after)
                    },
                },
            },
        }
    }
}

/// A string leaves at most the bytes it found.
pub proof fn lemma_read_string_consumes(c: Cursor)
    ensures
        c.read_string().1.bytes.len() <= c.bytes.len(),
{
    reveal(Cursor::read_string);
}

/// No read gives bytes back: a token leaves at most the bytes it found, and
/// fewer where it was read in full.
pub proof fn lemma_token_consumes(c: Cursor, ints: NumericType, doubles: NumericType)
    ensures
        c.token(ints, doubles).1.bytes.len() <= c.bytes.len(),
        c.token(ints, doubles).0 is Ok ==> c.token(ints, doubles).1.bytes.len() < c.bytes.len(),
{
    reveal(Cursor::token);
    let next = c.read_marker().1;
    lemma_read_string_consumes(next);
    lemma_read_string_consumes(next.read_u29().1);
}

/// A mapping that moves on after a value leaves at most the bytes it found.
pub proof fn lemma_after_value_consumes(state: MapModel, c: Cursor)
    ensures
        state.after_value(c).1.bytes.len() <= c.bytes.len(),
{
    lemma_read_string_consumes(c);
}

/// A value leaves at most the bytes it found, and fewer where it was
/// decoded in full: it takes at least its marker.
pub proof fn lemma_value_consumes(c: Cursor, ints: NumericType, doubles: NumericType, depth: nat)
    ensures
        c.value(ints, doubles, depth).1.bytes.len() <= c.bytes.len(),
        c.value(ints, doubles, depth).0 is Ok ==> c.value(ints, doubles, depth).1.bytes.len()
            < c.bytes.len(),
    decreases c.bytes.len(), 0nat,
{
    lemma_token_consumes(c, ints, doubles);
    match c.token(ints, doubles) {
        (Ok(TokenModel::Sequence(len)), next) => {
            if depth > 0 {
                lemma_items_consumes(next, len as nat, ints, doubles, (depth - 1) as nat);
            }
        },
        (Ok(TokenModel::Mapping(state)), next) => {
            if depth > 0 {
                lemma_entries_consumes(next, state, ints, doubles, (depth - 1) as nat);
            }
        },
        _ => {},
    }
}

/// A run of values leaves at most the bytes it found.
pub proof fn lemma_items_consumes(
    c: Cursor,
    n: nat,
    ints: NumericType,
    doubles: NumericType,
    depth: nat,
)
    ensures
        c.items(n, ints, doubles, depth).1.bytes.len() <= c.bytes.len(),
    decreases c.bytes.len(), 1nat,
{
    if n > 0 {
        lemma_value_consumes(c, ints, doubles, depth);
        match c.value(ints, doubles, depth) {
            (Ok(_), next) => {
                lemma_items_consumes(next, (n - 1) as nat, ints, doubles, depth);
            },
            _ => {},
        }
    }
}

/// The entries of a mapping leave at most the bytes they found.
pub proof fn lemma_entries_consumes(
    c: Cursor,
    state: MapModel,
    ints: NumericType,
    doubles: NumericType,
    depth: nat,
)
    ensures
        c.entries(state, ints, doubles, depth).1.bytes.len() <= c.bytes.len(),
    decreases c.bytes.len(), 1nat,
{
    match state.next_key() {
        (None, _) => {},
        (Some(_), pending) => {
            lemma_value_consumes(c, ints, doubles, depth);
            match c.value(ints, doubles, depth) {
                (Ok(_), next) => {
                    lemma_after_value_consumes(pending, next);
                    match pending.after_value(next) {
                        (Ok(following), after) => {
                            lemma_entries_consumes(after, following, ints, doubles, depth);
                        },
                        _ => {},
                    }
                },
                _ => {},
            }
        },
    }
}

} // verus!
