//! Laws of the format, proved of the model that the decoder is verified
//! against.

use crate::format::{encode_u29, u29_value, u29_width, Cursor, Error, Marker};
use crate::model::{after, lemma_value_consumes, MapModel, TokenModel};
use crate::traits::NumericType;
use crate::value::{KeyModel, ValueModel};
use vstd::prelude::*;
use vstd::utf8::{decode_utf8, valid_utf8};

verus! {

/// Every value of up to 29 bits is recovered from its shortest encoding,
/// whatever follows it, and reading it takes the encoding and no more.
pub proof fn law_u29_round_trip(v: int, rest: Seq<u8>, strings: Seq<Seq<char>>)
    requires
        0 <= v <= 0x1FFF_FFFF,
    ensures
        (Cursor { bytes: encode_u29(v) + rest, strings }).read_u29() == (
            Ok::<u32, Error>(v as u32),
            (Cursor { bytes: rest, strings }),
        ),
        v < 0x80 ==> encode_u29(v).len() == 1,
        0x80 <= v < 0x4000 ==> encode_u29(v).len() == 2,
        0x4000 <= v < 0x20_0000 ==> encode_u29(v).len() == 3,
        0x20_0000 <= v ==> encode_u29(v).len() == 4,
{
    let code = encode_u29(v);
    let bytes = code + rest;
    let c = Cursor { bytes, strings };
    assert(forall|i: int| 0 <= i < code.len() ==> bytes[i] == code[i]);
    assert(u29_width(bytes) == code.len());
    assert(u29_value(bytes) == v);
    assert(bytes.skip(code.len() as int) =~= rest);
}

/// A marker byte of `0x12` or more is refused as `InvalidMarker`, by every
/// operation that starts with a marker.
pub proof fn law_invalid_marker(c: Cursor, ints: NumericType, doubles: NumericType, depth: nat)
    requires
        c.bytes.len() > 0,
        c.bytes[0] >= 0x12,
    ensures
        c.read_marker().0 == Err::<Marker, Error>(Error::InvalidMarker(c.bytes[0])),
        c.skip().0 == Err::<(), Error>(Error::InvalidMarker(c.bytes[0])),
        c.token(ints, doubles).0 == Err::<TokenModel, Error>(Error::InvalidMarker(c.bytes[0])),
        c.value(ints, doubles, depth).0 == Err::<ValueModel, Error>(
            Error::InvalidMarker(c.bytes[0]),
        ),
{
    reveal(Cursor::token);
    Marker::lemma_of_byte(c.bytes[0]);
}

/// Only an integer and a double can be stepped over: on every other
/// marker, those without a payload too, stepping over fails with
/// `UnsupportedValueShape` once the marker has been read, and so does
/// ignoring the value.
pub proof fn law_skip_refuses(c: Cursor)
    requires
        c.read_marker().0 matches Ok(marker) && marker != Marker::Integer && marker
            != Marker::Double,
    ensures
        c.skip() == (Err::<(), Error>(Error::UnsupportedValueShape), c.read_marker().1),
        c.ignored() == (Err::<TokenModel, Error>(Error::UnsupportedValueShape), c.read_marker().1),
        c.read_marker().1 == c.advance(1),
{
}

/// A string read by value joins the table at its end, unless it is empty.
/// Once it is there, a header that refers to its index gives the same
/// string wherever it stands later in the session, and only the header is
/// read.
pub proof fn law_reference_recovers_string(c: Cursor, later: Cursor)
    requires
        c.read_u29().0 matches Ok(header) && header % 2 == 1,
        c.read_string().0 matches Ok(s) && s.len() > 0,
        c.read_string().1.strings.is_prefix_of(later.strings),
        later.read_u29().0 matches Ok(reference) && reference == 2 * c.strings.len(),
    ensures
        c.read_string().1.strings == c.strings.push(c.read_string().0->Ok_0),
        later.read_string() == (
            Ok::<Seq<char>, Error>(c.read_string().0->Ok_0),
            later.read_u29().1,
        ),
{
    reveal(Cursor::read_string);
    let s = c.read_string().0->Ok_0;
    let index = c.strings.len() as int;
    let table = c.read_string().1.strings;
    assert(table == c.strings.push(s));
    assert(table[index] == s);
    assert(later.strings[index] == table[index]);
}

/// An empty string read by value leaves the table as it was, so that a
/// reference to the index it would have taken finds nothing.
pub proof fn law_empty_string_not_cached(c: Cursor, later: Cursor)
    requires
        c.read_u29().0 == Ok::<u32, Error>(1),
        later.strings == c.read_string().1.strings,
        later.read_u29().0 matches Ok(reference) && reference == 2 * c.strings.len(),
    ensures
        c.read_string() == (Ok::<Seq<char>, Error>(Seq::empty()), c.read_u29().1),
        c.read_string().1.strings == c.strings,
        later.read_string().0 == Err::<Seq<char>, Error>(Error::MissingStringReference),
{
    reveal(Cursor::read_string);
    let next = c.read_u29().1;
    let raw = next.bytes.take(0);
    assert(raw.len() == 0);
    assert(valid_utf8(raw));
    assert(decode_utf8(raw) =~= Seq::empty());
    assert(next.bytes.skip(0) =~= next.bytes);
}

impl Cursor {
    /// The cursor once `k` values have been decoded one after the other.
    pub open spec fn past(
        self,
        k: nat,
        ints: NumericType,
        doubles: NumericType,
        depth: nat,
    ) -> Cursor
        decreases k,
    {
        if k == 0 {
            self
        } else {
            self.value(ints, doubles, depth).1.past((k - 1) as nat, ints, doubles, depth)
        }
    }

    /// The associative portion of a mapping whose first key, `key`, has
    /// been read: the value of that key, then key and value in turn up to
    /// the empty key that ends the portion.
    pub open spec fn associative(
        self,
        key: Seq<char>,
        ints: NumericType,
        doubles: NumericType,
        depth: nat,
    ) -> (
        Result<Seq<(KeyModel, ValueModel)>, Error>,
        Cursor,
    )
        decreases self.bytes.len(),
    {
        match self.value(ints, doubles, depth) {
            (Err(e), next) => (Err(e), next),
            (Ok(v), next) => match next.read_string() {
                (Err(e), end) => (Err(e), end),
                (Ok(following), end) => if following.len() == 0 {
                    (Ok(seq![(KeyModel::Name(key), v)]), end)
                } else if end.bytes.len() < self.bytes.len() {
                    after(
                        seq![(KeyModel::Name(key), v)],
                        end.associative(following, ints, doubles, depth),
                    )
                } else {
                    (Err(Error::EndOfStream), end)
                },
            },
        }
    }

    /// The dense portion of a mapping of `n` slots: the next `n` values,
    /// keyed by `n - 1` down to `0`.
    pub open spec fn dense(self, n: nat, ints: NumericType, doubles: NumericType, depth: nat) -> (
        Result<Seq<(KeyModel, ValueModel)>, Error>,
        Cursor,
    ) {
        match self.items(n, ints, doubles, depth) {
            (Ok(values), end) => (
                Ok(Seq::new(n, |j: int| (KeyModel::Index((n - 1 - j) as usize), values[j]))),
                end,
            ),
            (Err(e), end) => (Err(e), end),
        }
    }
}

/// A dense array header that encodes the count `n`, with the empty string
/// right after it, announces a sequence of `n` elements.
pub proof fn law_dense_header(
    n: int,
    rest: Seq<u8>,
    strings: Seq<Seq<char>>,
    ints: NumericType,
    doubles: NumericType,
)
    requires
        0 <= n <= 0x0FFF_FFFF,
    ensures
        (Cursor {
            bytes: seq![0x09u8] + encode_u29(2 * n + 1) + seq![0x01u8] + rest,
            strings,
        }).token(ints, doubles) == (
            Ok::<TokenModel, Error>(TokenModel::Sequence(n as usize)),
            (Cursor { bytes: rest, strings }),
        ),
{
    let bytes = seq![0x09u8] + encode_u29(2 * n + 1) + seq![0x01u8] + rest;
    let c = Cursor { bytes, strings };
    reveal(Cursor::token);
    reveal(Cursor::read_string);
    Marker::lemma_of_byte(0x09);
    assert(Marker::Array.byte() == 0x09);
    let next = c.read_marker().1;
    assert(next.bytes =~= encode_u29(2 * n + 1) + (seq![0x01u8] + rest));
    law_u29_round_trip(2 * n + 1, seq![0x01u8] + rest, strings);
    let key = next.read_u29().1;
    assert(key.bytes == seq![0x01u8] + rest);
    assert(key.bytes =~= encode_u29(1) + rest);
    law_u29_round_trip(1, rest, strings);
    let raw = rest.take(0);
    assert(valid_utf8(raw));
    assert(decode_utf8(raw) =~= Seq::empty());
    assert(rest.skip(0) =~= rest);
}

/// A run of `n` values succeeds exactly when each of them does, the value
/// at position `i` being decoded where the `i` before it ended. It then
/// holds these `n` values in that order, and ends where the last one ended.
pub proof fn law_items_in_order(
    c: Cursor,
    n: nat,
    ints: NumericType,
    doubles: NumericType,
    depth: nat,
)
    ensures
        c.items(n, ints, doubles, depth).0 is Ok <==> forall|i: nat|
            i < n ==> (#[trigger] c.past(i, ints, doubles, depth)).value(
                ints,
                doubles,
                depth,
            ).0 is Ok,
        c.items(n, ints, doubles, depth).0 matches Ok(values) ==> {
            &&& values.len() == n
            &&& forall|i: nat|
                i < n ==> (#[trigger] c.past(i, ints, doubles, depth)).value(
                    ints,
                    doubles,
                    depth,
                ).0 == Ok::<
                    ValueModel,
                    Error,
                >(values[i as int])
            &&& c.items(n, ints, doubles, depth).1 == c.past(n, ints, doubles, depth)
        },
    decreases n,
{
    if n > 0 {
        lemma_value_consumes(c, ints, doubles, depth);
        assert(c.past(0, ints, doubles, depth) == c);
        let (first, next) = c.value(ints, doubles, depth);
        let fewer = (n - 1) as nat;
        assert forall|i: nat| 1 <= i implies (#[trigger] c.past(i, ints, doubles, depth))
            == next.past((i - 1) as nat, ints, doubles, depth) by {}
        if first is Ok {
            law_items_in_order(next, fewer, ints, doubles, depth);
            if next.items(fewer, ints, doubles, depth).0 is Ok {
                assert forall|i: nat| i < n implies (#[trigger] c.past(
                    i,
                    ints,
                    doubles,
                    depth,
                )).value(ints, doubles, depth).0 is Ok by {
                    if i > 0 {
                        assert(next.past((i - 1) as nat, ints, doubles, depth).value(
                            ints,
                            doubles,
                            depth,
                        ).0
                            is Ok);
                    }
                }
                let values = c.items(n, ints, doubles, depth).0->Ok_0;
                let rest = next.items(fewer, ints, doubles, depth).0->Ok_0;
                assert(values == seq![first->Ok_0] + rest);
                assert forall|i: nat| i < n implies (#[trigger] c.past(
                    i,
                    ints,
                    doubles,
                    depth,
                )).value(ints, doubles, depth).0 == Ok::<ValueModel, Error>(values[i as int]) by {
                    if i > 0 {
                        assert(next.past((i - 1) as nat, ints, doubles, depth).value(
                            ints,
                            doubles,
                            depth,
                        ).0
                            == Ok::<ValueModel, Error>(rest[i - 1]));
                    }
                }
            } else {
                let j = choose|j: nat|
                    j < fewer && !((#[trigger] next.past(j, ints, doubles, depth)).value(
                        ints,
                        doubles,
                        depth,
                    ).0 is Ok);
                assert(c.past(j + 1, ints, doubles, depth) == next.past(j, ints, doubles, depth));
                assert(!(c.past(j + 1, ints, doubles, depth).value(ints, doubles, depth).0 is Ok));
            }
        } else {
            assert(!(c.past(0, ints, doubles, depth).value(ints, doubles, depth).0 is Ok));
        }
    }
}

/// What a sequence decodes to. Where a token announces a sequence of `n`
/// elements and one more level of nesting may be opened, the value is a
/// sequence of exactly `n` values in encoded order, each decoded where the
/// one before it ended; it is decoded exactly when each element is.
pub proof fn law_dense_array(
    c: Cursor,
    n: usize,
    ints: NumericType,
    doubles: NumericType,
    depth: nat,
)
    requires
        c.token(ints, doubles).0 == Ok::<TokenModel, Error>(TokenModel::Sequence(n)),
    ensures
        c.value(ints, doubles, depth + 1).0 is Ok <==> forall|i: nat|
            i < n ==> (#[trigger] c.token(ints, doubles).1.past(i, ints, doubles, depth)).value(
                ints,
                doubles,
                depth,
            ).0 is Ok,
        c.value(ints, doubles, depth + 1).0 matches Ok(v) ==> {
            &&& v matches ValueModel::Sequence(values)
            &&& values.len() == n
            &&& forall|i: nat|
                i < n ==> (#[trigger] c.token(ints, doubles).1.past(i, ints, doubles, depth)).value(
                    ints,
                    doubles,
                    depth,
                ).0 == Ok::<ValueModel, Error>(values[i as int])
            &&& c.value(ints, doubles, depth + 1).1 == c.token(ints, doubles).1.past(
                n as nat,
                ints,
                doubles,
                depth,
            )
        },
{
    crate::model::lemma_token_consumes(c, ints, doubles);
    law_items_in_order(c.token(ints, doubles).1, n as nat, ints, doubles, depth);
}

/// Nesting is bounded. Where no further level may be opened, a token that
/// announces a sequence or a mapping is read and then refused as
/// `UnsupportedValueShape`; every other token decodes as it does at any
/// depth.
pub proof fn law_depth_bound(c: Cursor, ints: NumericType, doubles: NumericType)
    ensures
        c.token(ints, doubles).0 matches Ok(token) ==> (token is Sequence || token is Mapping)
            ==> c.value(ints, doubles, 0) == (
            Err::<ValueModel, Error>(Error::UnsupportedValueShape),
            c.token(ints, doubles).1,
        ),
        forall|depth: nat|
            !(c.token(ints, doubles).0 matches Ok(token) && (token is Sequence || token is Mapping))
                ==> #[trigger] c.value(ints, doubles, depth) == c.value(ints, doubles, 0),
{
}

/// Once the associative portion is over, a mapping hands out its dense
/// slots, keyed from the count downwards.
pub proof fn lemma_entries_dense(
    c: Cursor,
    n: usize,
    ints: NumericType,
    doubles: NumericType,
    depth: nat,
)
    ensures
        c.entries(MapModel { len: n, next_key: Seq::empty() }, ints, doubles, depth) == c.dense(
            n as nat,
            ints,
            doubles,
            depth,
        ),
    decreases n,
{
    let state = MapModel { len: n, next_key: Seq::empty() };
    if n == 0 {
        assert(c.dense(0, ints, doubles, depth).0->Ok_0 =~= Seq::empty());
    } else {
        lemma_value_consumes(c, ints, doubles, depth);
        let (first, next) = c.value(ints, doubles, depth);
        if let Ok(v) = first {
            let fewer = (n - 1) as usize;
            assert(state.next_key().1 == MapModel { len: fewer, next_key: Seq::empty() });
            lemma_entries_dense(next, fewer, ints, doubles, depth);
            if let Ok(values) = next.items(fewer as nat, ints, doubles, depth).0 {
                let key = KeyModel::Index(fewer);
                let all = c.items(n as nat, ints, doubles, depth).0->Ok_0;
                assert(all == seq![v] + values);
                law_items_in_order(next, fewer as nat, ints, doubles, depth);
                let slots = next.dense(fewer as nat, ints, doubles, depth).0->Ok_0;
                let whole = c.dense(n as nat, ints, doubles, depth).0->Ok_0;
                assert(whole.len() == n);
                assert(slots.len() == fewer);
                assert forall|j: int| 0 <= j < n implies (seq![(key, v)] + slots)[j]
                    == whole[j] by {
                    if j > 0 {
                        assert(all[j] == values[j - 1]);
                        assert(slots[j - 1] == (
                            KeyModel::Index((fewer - 1 - (j - 1)) as usize),
                            values[j - 1],
                        ));
                    }
                }
                assert(seq![(key, v)] + slots =~= whole);
            }
        }
    }
}

/// One entry of the associative portion: its value is decoded, the next
/// key is read, and the remaining entries follow.
proof fn lemma_entries_step(
    c: Cursor,
    state: MapModel,
    ints: NumericType,
    doubles: NumericType,
    depth: nat,
)
    requires
        state.next_key.len() > 0,
        c.value(ints, doubles, depth).0 is Ok,
        c.value(ints, doubles, depth).1.read_string().0 is Ok,
    ensures
        c.value(ints, doubles, depth).1.read_string().1.bytes.len() < c.bytes.len(),
        c.entries(state, ints, doubles, depth) == after(
            seq![(KeyModel::Name(state.next_key), c.value(ints, doubles, depth).0->Ok_0)],
            c.value(ints, doubles, depth).1.read_string().1.entries(
                MapModel {
                    len: state.len,
                    next_key: c.value(ints, doubles, depth).1.read_string().0->Ok_0,
                },
                ints,
                doubles,
                depth,
            ),
        ),
{
    lemma_value_consumes(c, ints, doubles, depth);
    crate::model::lemma_after_value_consumes(state, c.value(ints, doubles, depth).1);
}

/// Where decoding the value of an entry or reading the key after it fails,
/// the entries fail in the same way.
proof fn lemma_entries_fail(
    c: Cursor,
    state: MapModel,
    ints: NumericType,
    doubles: NumericType,
    depth: nat,
)
    requires
        state.next_key.len() > 0,
    ensures
        c.value(ints, doubles, depth).0 matches Err(e) ==> c.entries(state, ints, doubles, depth)
            == (
            Err::<Seq<(KeyModel, ValueModel)>, Error>(e),
            c.value(ints, doubles, depth).1,
        ),
        c.value(ints, doubles, depth).0 is Ok ==> (c.value(
            ints,
            doubles,
            depth,
        ).1.read_string().0 matches Err(e)
            ==> c.entries(state, ints, doubles, depth) == (
            Err::<Seq<(KeyModel, ValueModel)>, Error>(e),
            c.value(ints, doubles, depth).1.read_string().1,
        )),
{
}

/// The entries of a mapping are its associative portion followed by its
/// dense portion.
pub proof fn law_mapping_portions(
    c: Cursor,
    state: MapModel,
    ints: NumericType,
    doubles: NumericType,
    depth: nat,
)
    requires
        state.next_key.len() > 0,
    ensures
        c.entries(state, ints, doubles, depth) == (match c.associative(
            state.next_key,
            ints,
            doubles,
            depth,
        ) {
            (Ok(named), mid) => after(named, mid.dense(state.len as nat, ints, doubles, depth)),
            (Err(e), end) => (Err(e), end),
        }),
    decreases c.bytes.len(),
{
    lemma_entries_fail(c, state, ints, doubles, depth);
    let (first, next) = c.value(ints, doubles, depth);
    if let Ok(v) = first {
        let entry = (KeyModel::Name(state.next_key), v);
        let (key, end) = next.read_string();
        if let Ok(following) = key {
            lemma_entries_step(c, state, ints, doubles, depth);
            let moved = MapModel { len: state.len, next_key: following };
            if following.len() == 0 {
                assert(following =~= Seq::empty());
                assert(moved == MapModel { len: state.len, next_key: Seq::empty() });
                lemma_entries_dense(end, state.len, ints, doubles, depth);
            } else {
                law_mapping_portions(end, moved, ints, doubles, depth);
                if let (Ok(named), mid) = end.associative(following, ints, doubles, depth) {
                    if let Ok(slots) = mid.dense(state.len as nat, ints, doubles, depth).0 {
                        assert(seq![entry] + (named + slots) =~= (seq![entry] + named) + slots);
                    }
                }
            }
        }
    }
}

/// The associative portion holds at least the entry of its first key, and
/// every key of it is a name.
pub proof fn lemma_associative_keys(
    c: Cursor,
    key: Seq<char>,
    ints: NumericType,
    doubles: NumericType,
    depth: nat,
)
    ensures
        c.associative(key, ints, doubles, depth).0 matches Ok(named) ==> {
            &&& named.len() >= 1
            &&& named[0].0 == KeyModel::Name(key)
            &&& forall|i: int| 0 <= i < named.len() ==> (#[trigger] named[i]).0 is Name
        },
    decreases c.bytes.len(),
{
    lemma_value_consumes(c, ints, doubles, depth);
    if let (Ok(v), next) = c.value(ints, doubles, depth) {
        crate::model::lemma_read_string_consumes(next);
        if let (Ok(following), end) = next.read_string() {
            if following.len() > 0 {
                lemma_associative_keys(end, following, ints, doubles, depth);
            }
        }
    }
}

/// What a mapping decodes to. Where a token announces a mapping and one
/// more level of nesting may be opened, the value is the associative
/// portion followed by the dense portion. Its keys come in this order: the
/// names of the associative portion as they were encoded, the first being
/// the key that the token read; then the indices of the dense slots, from
/// the count less one down to zero.
pub proof fn law_mapping_order(
    c: Cursor,
    state: MapModel,
    ints: NumericType,
    doubles: NumericType,
    depth: nat,
)
    requires
        c.token(ints, doubles).0 == Ok::<TokenModel, Error>(TokenModel::Mapping(state)),
    ensures
        state.next_key.len() > 0,
        c.value(ints, doubles, depth + 1).1 == c.token(ints, doubles).1.entries(
            state,
            ints,
            doubles,
            depth,
        ).1,
        c.value(ints, doubles, depth + 1).0 is Ok <==> c.token(ints, doubles).1.entries(
            state,
            ints,
            doubles,
            depth,
        ).0 is Ok,
        c.value(ints, doubles, depth + 1).0 matches Ok(v) ==> {
            &&& v matches ValueModel::Mapping(entries)
            &&& c.token(ints, doubles).1.associative(
                state.next_key,
                ints,
                doubles,
                depth,
            ).0 matches Ok(named)
            &&& entries.len() == named.len() + state.len
            &&& entries.subrange(0, named.len() as int) == named
            &&& entries[0].0 == KeyModel::Name(state.next_key)
            &&& forall|i: int| 0 <= i < named.len() ==> (#[trigger] entries[i]).0 is Name
            &&& forall|j: int|
                0 <= j < state.len ==> (#[trigger] entries[named.len() + j]).0 == KeyModel::Index(
                    (state.len - 1 - j) as usize,
                )
        },
{
    crate::model::lemma_token_consumes(c, ints, doubles);
    let next = c.token(ints, doubles).1;
    assert(state.next_key.len() > 0) by {
        reveal(Cursor::token);
    }
    law_mapping_portions(next, state, ints, doubles, depth);
    lemma_associative_keys(next, state.next_key, ints, doubles, depth);
    if let Ok(v) = c.value(ints, doubles, depth + 1).0 {
        let entries = v->Mapping_0;
        let (named, mid) = next.associative(state.next_key, ints, doubles, depth);
        let named = named->Ok_0;
        let slots = mid.dense(state.len as nat, ints, doubles, depth).0->Ok_0;
        law_items_in_order(mid, state.len as nat, ints, doubles, depth);
        assert(entries == named + slots);
        assert(entries.subrange(0, named.len() as int) =~= named);
        assert forall|i: int| 0 <= i < named.len() implies (#[trigger] entries[i]).0 is Name by {
            assert(entries[i] == named[i]);
        }
        assert forall|j: int| 0 <= j < state.len implies (#[trigger] entries[named.len() + j]).0
            == KeyModel::Index((state.len - 1 - j) as usize) by {
            assert(entries[named.len() + j] == slots[j]);
        }
    }
}

/// Reading a string leaves the table as it was or adds the string at its
/// end.
pub proof fn law_table_grows_by_string(c: Cursor)
    ensures
        c.strings.is_prefix_of(c.read_string().1.strings),
{
    reveal(Cursor::read_string);
    let after = c.read_string().1.strings;
    if after != c.strings {
        let s = c.read_string().0->Ok_0;
        assert(after == c.strings.push(s));
        assert(after.subrange(0, c.strings.len() as int) =~= c.strings);
    } else {
        assert(c.strings.subrange(0, c.strings.len() as int) =~= c.strings);
    }
}

/// The string table only grows at its end while a token is read: what was
/// in it stays where it was. Stepping over a value leaves it unchanged.
pub proof fn law_table_grows_by_token(c: Cursor, ints: NumericType, doubles: NumericType)
    ensures
        c.strings.is_prefix_of(c.token(ints, doubles).1.strings),
        c.skip().1.strings == c.strings,
{
    let next = c.read_marker().1;
    let key = next.read_u29().1;
    law_table_grows_by_string(next);
    law_table_grows_by_string(key);
    assert(c.strings.is_prefix_of(c.strings)) by {
        assert(c.strings.subrange(0, c.strings.len() as int) =~= c.strings);
    }
    assert(next.strings == c.strings);
    assert(key.strings == c.strings);
    assert(next.array().1.strings == next.strings || next.array().1.strings
        == key.read_string().1.strings);
    assert(c.strings.is_prefix_of(c.token(ints, doubles).1.strings)) by {
        reveal(Cursor::token);
    }
}

/// The string table only grows at its end while a value is decoded,
/// however deep it nests.
pub proof fn law_table_grows(c: Cursor, ints: NumericType, doubles: NumericType, depth: nat)
    ensures
        c.strings.is_prefix_of(c.value(ints, doubles, depth).1.strings),
    decreases c.bytes.len(), 0nat,
{
    law_table_grows_by_token(c, ints, doubles);
    crate::model::lemma_token_consumes(c, ints, doubles);
    match c.token(ints, doubles) {
        (Ok(TokenModel::Sequence(len)), next) => {
            if depth > 0 {
                lemma_table_grows_by_items(next, len as nat, ints, doubles, (depth - 1) as nat);
            }
        },
        (Ok(TokenModel::Mapping(state)), next) => {
            if depth > 0 {
                lemma_table_grows_by_entries(next, state, ints, doubles, (depth - 1) as nat);
            }
        },
        _ => {},
    }
}

proof fn lemma_table_grows_by_items(
    c: Cursor,
    n: nat,
    ints: NumericType,
    doubles: NumericType,
    depth: nat,
)
    ensures
        c.strings.is_prefix_of(c.items(n, ints, doubles, depth).1.strings),
    decreases c.bytes.len(), 1nat,
{
    if n > 0 {
        law_table_grows(c, ints, doubles, depth);
        lemma_value_consumes(c, ints, doubles, depth);
        if let (Ok(_), next) = c.value(ints, doubles, depth) {
            lemma_table_grows_by_items(next, (n - 1) as nat, ints, doubles, depth);
        }
    }
}

proof fn lemma_table_grows_by_entries(
    c: Cursor,
    state: MapModel,
    ints: NumericType,
    doubles: NumericType,
    depth: nat,
)
    ensures
        c.strings.is_prefix_of(c.entries(state, ints, doubles, depth).1.strings),
    decreases c.bytes.len(), 1nat,
{
    if let (Some(_), pending) = state.next_key() {
        law_table_grows(c, ints, doubles, depth);
        lemma_value_consumes(c, ints, doubles, depth);
        if let (Ok(_), next) = c.value(ints, doubles, depth) {
            law_table_grows_by_string(next);
            crate::model::lemma_after_value_consumes(pending, next);
            if let (Ok(following), end) = pending.after_value(next) {
                lemma_table_grows_by_entries(end, following, ints, doubles, depth);
            }
        }
    }
}

} // verus!
