//! Decoding looks at no byte beyond the value it decodes, and a value that
//! is cut short is reported as `EndOfStream`.

use crate::format::{Cursor, Error, Marker};
use crate::model::{
    lemma_after_value_consumes, lemma_token_consumes, lemma_value_consumes, MapModel, TokenModel,
};
use crate::traits::NumericType;
use crate::value::ValueModel;
use vstd::prelude::*;

verus! {

impl Cursor {
    /// This cursor over a stream that ends after `m` more bytes.
    pub open spec fn cut(self, m: int) -> Cursor {
        Cursor { bytes: self.bytes.take(m), strings: self.strings }
    }
}

/// How the outcome `short` of an operation on a stream cut to `m` bytes
/// relates to its outcome `whole` on the stream `c`, where that is a
/// success that took `k` bytes: with at least `k` bytes left the result is
/// the same and the same bytes are taken; with fewer the stream is
/// reported to have ended.
pub open spec fn stable<T>(
    c: Cursor,
    m: int,
    whole: (Result<T, Error>, Cursor),
    short: (Result<T, Error>, Cursor),
) -> bool {
    whole.0 is Ok ==> {
        let k = c.bytes.len() - whole.1.bytes.len();
        &&& 0 <= k <= c.bytes.len()
        &&& whole.1.bytes == c.bytes.skip(k)
        &&& m >= k ==> short == (whole.0, whole.1.cut(m - k))
        &&& m < k ==> short.0 == Err::<T, Error>(Error::EndOfStream)
    }
}

/// Cutting a stream and reading `k` bytes of it is reading `k` bytes and
/// cutting what is left.
proof fn lemma_cut_advance(c: Cursor, m: int, k: int)
    requires
        0 <= k <= m <= c.bytes.len(),
    ensures
        c.cut(m).advance(k) == c.advance(k).cut(m - k),
        c.cut(m).bytes.len() == m,
        c.cut(m).bytes.skip(k) == c.bytes.skip(k).take(m - k),
{
    assert(c.cut(m).bytes.skip(k) =~= c.bytes.skip(k).take(m - k));
}

/// A marker is read from its own byte, and is missed when the stream ends
/// before it.
pub proof fn lemma_cut_read_marker(c: Cursor, m: int)
    requires
        0 <= m <= c.bytes.len(),
    ensures
        stable(c, m, c.read_marker(), c.cut(m).read_marker()),
{
    if m >= 1 {
        lemma_cut_advance(c, m, 1);
    }
}

/// A variable-length integer is read from its own bytes, and is missed
/// when the stream ends inside them.
pub proof fn lemma_cut_read_u29(c: Cursor, m: int)
    requires
        0 <= m <= c.bytes.len(),
    ensures
        stable(c, m, c.read_u29(), c.cut(m).read_u29()),
{
    let w = crate::format::u29_width(c.bytes);
    if c.read_u29().0 is Ok {
        if m >= w {
            lemma_cut_advance(c, m, w);
        }
    }
}

/// A double is read from its own eight bytes, and is missed when the
/// stream ends inside them.
pub proof fn lemma_cut_read_double(c: Cursor, m: int)
    requires
        0 <= m <= c.bytes.len(),
    ensures
        stable(c, m, c.read_double(), c.cut(m).read_double()),
{
    if m >= 8 {
        lemma_cut_advance(c, m, 8);
    }
}

/// A string is read from its own bytes, and is missed when the stream
/// ends inside them.
pub proof fn lemma_cut_read_string(c: Cursor, m: int)
    requires
        0 <= m <= c.bytes.len(),
    ensures
        stable(c, m, c.read_string(), c.cut(m).read_string()),
{
    reveal(Cursor::read_string);
    lemma_cut_read_u29(c, m);
    if let (Ok(header), next) = c.read_u29() {
        let k = c.bytes.len() - next.bytes.len();
        let n = header as int / 2;
        if c.read_string().0 is Ok {
            if header % 2 == 1 {
                assert(next.bytes.skip(n) =~= c.bytes.skip(k + n));
            }
            if m >= k {
                let short = next.cut(m - k);
                assert(c.cut(m).read_u29() == (Ok::<u32, Error>(header), short));
                assert(short.bytes.len() == m - k);
                if header % 2 == 1 && m - k >= n {
                    assert(short.bytes.take(n) =~= next.bytes.take(n));
                    assert(short.bytes.skip(n) =~= next.bytes.skip(n).take(m - k - n));
                }
            }
        }
    }
}

/// A value is stepped over by its own bytes, and is missed when the
/// stream ends inside them.
pub proof fn lemma_cut_skip(c: Cursor, m: int)
    requires
        0 <= m <= c.bytes.len(),
    ensures
        stable(c, m, c.skip(), c.cut(m).skip()),
{
    lemma_cut_read_marker(c, m);
    if let (Ok(marker), next) = c.read_marker() {
        if c.skip().0 is Ok {
            let end = c.skip().1;
            lemma_cut_read_u29(next, 0);
            if marker == Marker::Double {
                assert(next.bytes.skip(8) =~= c.bytes.skip(9));
            }
            lemma_skip_twice(c, next, end);
            if m >= 1 {
                let short = next.cut(m - 1);
                assert(short.bytes.len() == m - 1);
                lemma_cut_read_u29(next, m - 1);
                if marker == Marker::Double && m - 1 >= 8 {
                    lemma_cut_advance(next, m - 1, 8);
                }
            }
        }
    }
}

/// Composing two reads: where the first took `k1` bytes of `c` and the
/// second started where it ended, what the second leaves is what is left
/// of `c` after both.
proof fn lemma_skip_twice(c: Cursor, next: Cursor, end: Cursor)
    requires
        0 <= c.bytes.len() - next.bytes.len() <= c.bytes.len(),
        next.bytes == c.bytes.skip(c.bytes.len() - next.bytes.len()),
        0 <= next.bytes.len() - end.bytes.len() <= next.bytes.len(),
        end.bytes == next.bytes.skip(next.bytes.len() - end.bytes.len()),
    ensures
        end.bytes == c.bytes.skip(c.bytes.len() - end.bytes.len()),
{
    assert(end.bytes =~= c.bytes.skip(c.bytes.len() - end.bytes.len()));
}

/// Cutting twice is cutting once.
proof fn lemma_cut_cut(c: Cursor, next: Cursor, m: int)
    requires
        0 <= c.bytes.len() - next.bytes.len() <= m <= c.bytes.len(),
    ensures
        next.cut(m - (c.bytes.len() - next.bytes.len())).bytes.len() == m - (c.bytes.len()
            - next.bytes.len()),
{
}

/// The payload of an array marker is read from its own bytes, and is
/// missed when the stream ends inside them.
pub proof fn lemma_cut_array(c: Cursor, m: int)
    requires
        0 <= m <= c.bytes.len(),
    ensures
        stable(c, m, c.array(), c.cut(m).array()),
{
    lemma_cut_read_u29(c, m);
    if let (Ok(header), next) = c.read_u29() {
        let k = c.bytes.len() - next.bytes.len();
        if c.array().0 is Ok {
            let end = next.read_string().1;
            lemma_cut_read_string(next, 0);
            lemma_skip_twice(c, next, end);
            if m >= k {
                lemma_cut_cut(c, next, m);
                lemma_cut_read_string(next, m - k);
            }
        }
    }
}

/// A token is read from its own bytes, and is missed when the stream ends
/// inside them.
pub proof fn lemma_cut_token(c: Cursor, m: int, ints: NumericType, doubles: NumericType)
    requires
        0 <= m <= c.bytes.len(),
    ensures
        stable(c, m, c.token(ints, doubles), c.cut(m).token(ints, doubles)),
{
    reveal(Cursor::token);
    lemma_cut_read_marker(c, m);
    if let (Ok(marker), next) = c.read_marker() {
        if c.token(ints, doubles).0 is Ok {
            let end = c.token(ints, doubles).1;
            assert(next.bytes.skip(0) =~= next.bytes);
            lemma_cut_read_u29(next, 0);
            lemma_cut_read_double(next, 0);
            lemma_cut_read_string(next, 0);
            lemma_cut_array(next, 0);
            lemma_skip_twice(c, next, end);
            if m >= 1 {
                lemma_cut_cut(c, next, m);
                lemma_cut_read_u29(next, m - 1);
                lemma_cut_read_double(next, m - 1);
                lemma_cut_read_string(next, m - 1);
                lemma_cut_array(next, m - 1);
            }
        }
    }
}

/// The key after a value is read from its own bytes, and is missed when
/// the stream ends inside them.
pub proof fn lemma_cut_after_value(state: MapModel, c: Cursor, m: int)
    requires
        0 <= m <= c.bytes.len(),
    ensures
        stable(c, m, state.after_value(c), state.after_value(c.cut(m))),
{
    lemma_cut_read_string(c, m);
    if state.next_key.len() == 0 {
        assert(c.bytes.skip(0) =~= c.bytes);
    }
}

/// Two steps that are each stable make a stable whole: `first` from `c`
/// to `next`, then `second` from `next`.
proof fn lemma_stable_then<A, B>(
    c: Cursor,
    m: int,
    first: (Result<A, Error>, Cursor),
    first_short: (Result<A, Error>, Cursor),
    second: (Result<B, Error>, Cursor),
)
    requires
        0 <= m <= c.bytes.len(),
        first.0 is Ok,
        second.0 is Ok,
        stable(c, m, first, first_short),
        0 <= first.1.bytes.len() - second.1.bytes.len() <= first.1.bytes.len(),
        second.1.bytes == first.1.bytes.skip(first.1.bytes.len() - second.1.bytes.len()),
    ensures
        0 <= c.bytes.len() - second.1.bytes.len() <= c.bytes.len(),
        second.1.bytes == c.bytes.skip(c.bytes.len() - second.1.bytes.len()),
        m >= c.bytes.len() - first.1.bytes.len() ==> first_short.1 == first.1.cut(
            m - (c.bytes.len() - first.1.bytes.len()),
        ) && 0 <= m - (c.bytes.len() - first.1.bytes.len()) <= first.1.bytes.len(),
{
    lemma_skip_twice(c, first.1, second.1);
}

/// A value is decoded from its own bytes, and is missed when the stream
/// ends inside them.
pub proof fn lemma_cut_value(c: Cursor, m: int, ints: NumericType, doubles: NumericType, depth: nat)
    requires
        0 <= m <= c.bytes.len(),
    ensures
        stable(c, m, c.value(ints, doubles, depth), c.cut(m).value(ints, doubles, depth)),
    decreases c.bytes.len(), 0nat,
{
    let whole = c.value(ints, doubles, depth);
    if whole.0 is Ok {
        let short = c.cut(m);
        lemma_cut_token(c, m, ints, doubles);
        lemma_token_consumes(c, ints, doubles);
        lemma_token_consumes(short, ints, doubles);
        let (token, next) = c.token(ints, doubles);
        let k = c.bytes.len() - next.bytes.len();
        let inner = (depth - 1) as nat;
        match token->Ok_0 {
            TokenModel::Sequence(len) => {
                let run = next.items(len as nat, ints, doubles, inner);
                lemma_cut_items(next, len as nat, 0, ints, doubles, inner);
                lemma_stable_then(c, m, c.token(ints, doubles), short.token(ints, doubles), run);
                if m >= k {
                    lemma_cut_items(next, len as nat, m - k, ints, doubles, inner);
                }
            },
            TokenModel::Mapping(state) => {
                let run = next.entries(state, ints, doubles, inner);
                lemma_cut_entries(next, state, 0, ints, doubles, inner);
                lemma_stable_then(c, m, c.token(ints, doubles), short.token(ints, doubles), run);
                if m >= k {
                    lemma_cut_entries(next, state, m - k, ints, doubles, inner);
                }
            },
            _ => {},
        }
    }
}

/// A run of values is decoded from its own bytes, and is missed when the
/// stream ends inside them.
pub proof fn lemma_cut_items(
    c: Cursor,
    n: nat,
    m: int,
    ints: NumericType,
    doubles: NumericType,
    depth: nat,
)
    requires
        0 <= m <= c.bytes.len(),
    ensures
        stable(c, m, c.items(n, ints, doubles, depth), c.cut(m).items(n, ints, doubles, depth)),
    decreases c.bytes.len(), 1nat,
{
    let whole = c.items(n, ints, doubles, depth);
    if n == 0 {
        assert(c.bytes.skip(0) =~= c.bytes);
    } else if whole.0 is Ok {
        let short = c.cut(m);
        lemma_cut_value(c, m, ints, doubles, depth);
        lemma_value_consumes(c, ints, doubles, depth);
        lemma_value_consumes(short, ints, doubles, depth);
        let next = c.value(ints, doubles, depth).1;
        let k = c.bytes.len() - next.bytes.len();
        let fewer = (n - 1) as nat;
        let run = next.items(fewer, ints, doubles, depth);
        lemma_cut_items(next, fewer, 0, ints, doubles, depth);
        lemma_stable_then(
            c,
            m,
            c.value(ints, doubles, depth),
            short.value(ints, doubles, depth),
            run,
        );
        if m >= k {
            lemma_cut_items(next, fewer, m - k, ints, doubles, depth);
        }
    }
}

/// The entries of a mapping are decoded from their own bytes, and are
/// missed when the stream ends inside them.
pub proof fn lemma_cut_entries(
    c: Cursor,
    state: MapModel,
    m: int,
    ints: NumericType,
    doubles: NumericType,
    depth: nat,
)
    requires
        0 <= m <= c.bytes.len(),
    ensures
        stable(
            c,
            m,
            c.entries(state, ints, doubles, depth),
            c.cut(m).entries(state, ints, doubles, depth),
        ),
    decreases c.bytes.len(), 1nat,
{
    let whole = c.entries(state, ints, doubles, depth);
    if state.next_key().0 is None {
        assert(c.bytes.skip(0) =~= c.bytes);
    } else if whole.0 is Ok {
        let short = c.cut(m);
        let pending = state.next_key().1;
        lemma_cut_value(c, m, ints, doubles, depth);
        lemma_value_consumes(c, ints, doubles, depth);
        lemma_value_consumes(short, ints, doubles, depth);
        let next = c.value(ints, doubles, depth).1;
        let k = c.bytes.len() - next.bytes.len();
        let moved = pending.after_value(next);
        lemma_after_value_consumes(pending, next);
        lemma_cut_after_value(pending, next, 0);
        lemma_stable_then(
            c,
            m,
            c.value(ints, doubles, depth),
            short.value(ints, doubles, depth),
            moved,
        );
        let end = moved.1;
        let k2 = c.bytes.len() - end.bytes.len();
        let run = end.entries(moved.0->Ok_0, ints, doubles, depth);
        lemma_cut_entries(end, moved.0->Ok_0, 0, ints, doubles, depth);
        lemma_skip_twice(c, end, run.1);
        if m >= k {
            lemma_cut_after_value(pending, next, m - k);
            lemma_after_value_consumes(pending, next.cut(m - k));
            if m >= k2 {
                lemma_cut_entries(end, moved.0->Ok_0, m - k2, ints, doubles, depth);
            }
        }
    }
}

/// A value cut short anywhere is reported as `EndOfStream`: where a value
/// decodes, the same stream cut to fewer bytes than the value took does
/// not decode to any value, and fails with no other error.
pub proof fn law_truncated_value(
    c: Cursor,
    m: int,
    ints: NumericType,
    doubles: NumericType,
    depth: nat,
)
    requires
        c.value(ints, doubles, depth).0 is Ok,
        0 <= m < c.bytes.len() - c.value(ints, doubles, depth).1.bytes.len(),
    ensures
        c.cut(m).value(ints, doubles, depth).0 == Err::<ValueModel, Error>(Error::EndOfStream),
{
    lemma_value_consumes(c, ints, doubles, depth);
    lemma_cut_value(c, m, ints, doubles, depth);
}

/// The encoding of a value with its last byte taken away yields
/// `EndOfStream`.
pub proof fn law_truncated_by_one(
    bytes: Seq<u8>,
    strings: Seq<Seq<char>>,
    ints: NumericType,
    doubles: NumericType,
    depth: nat,
)
    requires
        (Cursor { bytes, strings }).value(ints, doubles, depth).0 is Ok,
        (Cursor { bytes, strings }).value(ints, doubles, depth).1.bytes.len() == 0,
    ensures
        bytes.len() > 0,
        (Cursor { bytes: bytes.drop_last(), strings }).value(ints, doubles, depth).0 == Err::<
            ValueModel,
            Error,
        >(Error::EndOfStream),
{
    let c = Cursor { bytes, strings };
    lemma_value_consumes(c, ints, doubles, depth);
    law_truncated_value(c, bytes.len() - 1, ints, doubles, depth);
    assert(c.cut(bytes.len() - 1).bytes =~= bytes.drop_last());
}

} // verus!
