//! Numeric-width dispatch: a consumer names the numeric type it wants, and
//! a decoded integer or double is handed over as that type.

use vstd::prelude::*;

verus! {

/// The numeric types a consumer can ask for.
#[derive(Copy, Clone, PartialEq, Eq, Structural, Debug)]
pub enum NumericType {
    I8,
    I16,
    I32,
    I64,
    U8,
    U16,
    U32,
    U64,
    F32,
    F64,
}

/// An integer of one of the eight integer types.
#[derive(Copy, Clone, PartialEq, Eq, Structural, Debug)]
pub enum Number {
    I8(i8),
    I16(i16),
    I32(i32),
    I64(i64),
    U8(u8),
    U16(u16),
    U32(u32),
    U64(u64),
}

/// A number as it comes off the wire: the 32-bit carrier of an integer, or
/// the bit pattern of a double.
#[derive(Copy, Clone, PartialEq, Eq, Structural, Debug)]
pub enum Carrier {
    Integer(u32),
    Double(u64),
}

/// What a consumer is handed for a number.
#[derive(Copy, Clone, PartialEq, Eq, Structural, Debug)]
pub enum Numeric {
    /// An integer, cast to the integer type that was asked for.
    Integer(Number),
    /// A number whose cast to `to` needs floating-point arithmetic, which
    /// is left to the consumer: an integer asked for as a float, or any
    /// double.
    Cast { from: Carrier, to: NumericType },
}

/// `v` reduced to the low `bits` bits, read as an unsigned number.
pub open spec fn wrap_unsigned(v: int, bits: nat) -> int
    recommends
        bits == 8 || bits == 16 || bits == 32 || bits == 64,
{
    let modulus: int = if bits == 8 {
        0x100
    } else if bits == 16 {
        0x1_0000
    } else if bits == 32 {
        0x1_0000_0000
    } else {
        0x1_0000_0000_0000_0000
    };
    v % modulus
}

/// `v` reduced to the low `bits` bits, read in two's complement.
pub open spec fn wrap_signed(v: int, bits: nat) -> int
    recommends
        bits == 8 || bits == 16 || bits == 32 || bits == 64,
{
    let modulus: int = if bits == 8 {
        0x100
    } else if bits == 16 {
        0x1_0000
    } else if bits == 32 {
        0x1_0000_0000
    } else {
        0x1_0000_0000_0000_0000
    };
    let low = v % modulus;
    if 2 * low < modulus {
        low
    } else {
        low - modulus
    }
}

/// The plain numeric cast of an integer carrier to `target`. A cast to an
/// integer type keeps the low bits; a cast to a float type is passed on.
pub open spec fn spec_visit_int(target: NumericType, v: u32) -> Numeric {
    match target {
        NumericType::I8 => Numeric::Integer(Number::I8(wrap_signed(v as int, 8) as i8)),
        NumericType::I16 => Numeric::Integer(Number::I16(wrap_signed(v as int, 16) as i16)),
        NumericType::I32 => Numeric::Integer(Number::I32(wrap_signed(v as int, 32) as i32)),
        NumericType::I64 => Numeric::Integer(Number::I64(v as i64)),
        NumericType::U8 => Numeric::Integer(Number::U8(wrap_unsigned(v as int, 8) as u8)),
        NumericType::U16 => Numeric::Integer(Number::U16(wrap_unsigned(v as int, 16) as u16)),
        NumericType::U32 => Numeric::Integer(Number::U32(v)),
        NumericType::U64 => Numeric::Integer(Number::U64(v as u64)),
        NumericType::F32 => Numeric::Cast { from: Carrier::Integer(v), to: NumericType::F32 },
        NumericType::F64 => Numeric::Cast { from: Carrier::Integer(v), to: NumericType::F64 },
    }
}

/// The cast of a double to `target`, passed on whole: every cast from a
/// double is floating-point arithmetic.
pub open spec fn spec_visit_double(target: NumericType, bits: u64) -> Numeric {
    Numeric::Cast { from: Carrier::Double(bits), to: target }
}

/// Hands an integer carrier over as `target`.
pub fn visit_int(target: NumericType, v: u32) -> (r: Numeric)
    ensures
        r == spec_visit_int(target, v),
{
    match target {
        NumericType::I8 => {
            let n = #[verifier::truncate] (v as i8);
            assert(n == (if (v % 0x100) < 0x80 {
                (v % 0x100) as int
            } else {
                (v % 0x100) - 0x100
            })) by (bit_vector)
                requires
                    n == v as i8,
            ;
            Numeric::Integer(Number::I8(n))
        },
        NumericType::I16 => {
            let n = #[verifier::truncate] (v as i16);
            assert(n == (if (v % 0x1_0000) < 0x8000 {
                (v % 0x1_0000) as int
            } else {
                (v % 0x1_0000) - 0x1_0000
            })) by (bit_vector)
                requires
                    n == v as i16,
            ;
            Numeric::Integer(Number::I16(n))
        },
        NumericType::I32 => {
            let n = #[verifier::truncate] (v as i32);
            assert(n == (if v < 0x8000_0000 {
                v as int
            } else {
                v - 0x1_0000_0000
            })) by (bit_vector)
                requires
                    n == v as i32,
            ;
            Numeric::Integer(Number::I32(n))
        },
        NumericType::I64 => Numeric::Integer(Number::I64(v as i64)),
        NumericType::U8 => {
            let n = #[verifier::truncate] (v as u8);
            assert(n == v % 0x100) by (bit_vector)
                requires
                    n == v as u8,
            ;
            Numeric::Integer(Number::U8(n))
        },
        NumericType::U16 => {
            let n = #[verifier::truncate] (v as u16);
            assert(n == v % 0x1_0000) by (bit_vector)
                requires
                    n == v as u16,
            ;
            Numeric::Integer(Number::U16(n))
        },
        NumericType::U32 => Numeric::Integer(Number::U32(v)),
        NumericType::U64 => Numeric::Integer(Number::U64(v as u64)),
        NumericType::F32 => Numeric::Cast { from: Carrier::Integer(v), to: NumericType::F32 },
        NumericType::F64 => Numeric::Cast { from: Carrier::Integer(v), to: NumericType::F64 },
    }
}

/// Hands the bit pattern of a double over as `target`.
pub fn visit_double(target: NumericType, bits: u64) -> (r: Numeric)
    ensures
        r == spec_visit_double(target, bits),
{
    Numeric::Cast { from: Carrier::Double(bits), to: target }
}

} // verus!
