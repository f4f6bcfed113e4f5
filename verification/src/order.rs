use crate::scalar::{ScalarV, WundergraphScalarValue};
use crate::database::spec_cell_v;
use vstd::prelude::*;
use vstd::string::StrSliceExecFns;

verus! {

/// The outcome of comparing two values.
#[derive(Clone, Copy, Debug, PartialEq, Eq, Structural)]
pub enum Cmp {
    Lt,
    Eq,
    Gt,
}

/// The direction of one ordering term.
#[derive(Clone, Copy, Debug, PartialEq, Eq, Structural)]
pub enum Direction {
    Asc,
    Desc,
}

/// Comparison of two mathematical integers.
pub open spec fn spec_cmp_int(a: int, b: int) -> Cmp {
    if a < b {
        Cmp::Lt
    } else if a == b {
        Cmp::Eq
    } else {
        Cmp::Gt
    }
}

/// Lexicographic comparison of two character sequences, by code point.
pub open spec fn spec_cmp_chars(a: Seq<char>, b: Seq<char>) -> Cmp
    decreases a.len(),
{
    if a.len() == 0 && b.len() == 0 {
        Cmp::Eq
    } else if a.len() == 0 {
        Cmp::Lt
    } else if b.len() == 0 {
        Cmp::Gt
    } else if (a[0] as u32) < (b[0] as u32) {
        Cmp::Lt
    } else if (a[0] as u32) > (b[0] as u32) {
        Cmp::Gt
    } else {
        spec_cmp_chars(a.drop_first(), b.drop_first())
    }
}

/// The key by which 32-bit floating-point bit patterns are ordered: the IEEE
/// 754 total order maps sign-magnitude patterns onto an unsigned scale.
pub open spec fn spec_float_order_key(b: u32) -> int {
    if b >> 31 == 1 {
        0xffff_ffff - b
    } else {
        b + 0x8000_0000
    }
}

/// The key by which 64-bit floating-point bit patterns are ordered.
pub open spec fn spec_double_order_key(b: u64) -> int {
    if b >> 63 == 1 {
        0xffff_ffff_ffff_ffff - b
    } else {
        b + 0x8000_0000_0000_0000
    }
}

/// Comparison of two scalars of the same kind; scalars of different kinds are
/// not ordered. Every kind carries a total order: integers, dates and
/// identifiers numerically or lexicographically, booleans with false first,
/// timestamps by seconds then nanoseconds, floating-point kinds by the IEEE
/// total-order key of their bit patterns.
pub open spec fn spec_cmp_scalar(a: ScalarV, b: ScalarV) -> Option<Cmp> {
    match (a, b) {
        (ScalarV::SmallInt(x), ScalarV::SmallInt(y)) => Some(spec_cmp_int(x as int, y as int)),
        (ScalarV::Int(x), ScalarV::Int(y)) => Some(spec_cmp_int(x as int, y as int)),
        (ScalarV::BigInt(x), ScalarV::BigInt(y)) => Some(spec_cmp_int(x as int, y as int)),
        (ScalarV::Float(x), ScalarV::Float(y)) => Some(
            spec_cmp_int(spec_float_order_key(x), spec_float_order_key(y)),
        ),
        (ScalarV::Double(x), ScalarV::Double(y)) => Some(
            spec_cmp_int(spec_double_order_key(x), spec_double_order_key(y)),
        ),
        (ScalarV::String(x), ScalarV::String(y)) => Some(spec_cmp_chars(x, y)),
        (ScalarV::Boolean(x), ScalarV::Boolean(y)) => Some(
            spec_cmp_int(
                if x {
                    1int
                } else {
                    0int
                },
                if y {
                    1int
                } else {
                    0int
                },
            ),
        ),
        (ScalarV::Id(x), ScalarV::Id(y)) => Some(spec_cmp_chars(x, y)),
        (ScalarV::Timestamp(xs, xn), ScalarV::Timestamp(ys, yn)) => Some(
            if xs == ys {
                spec_cmp_int(xn as int, yn as int)
            } else {
                spec_cmp_int(xs as int, ys as int)
            },
        ),
        (ScalarV::Date(x), ScalarV::Date(y)) => Some(spec_cmp_int(x as int, y as int)),
        (ScalarV::Uuid(x), ScalarV::Uuid(y)) => Some(spec_cmp_int(x as int, y as int)),
        _ => None,
    }
}

/// Comparison of two cells: null sorts before every value, and two nulls are
/// equal; value cells compare as scalars.
pub open spec fn spec_cmp_cell(a: Option<ScalarV>, b: Option<ScalarV>) -> Option<Cmp> {
    match (a, b) {
        (None, None) => Some(Cmp::Eq),
        (None, Some(_)) => Some(Cmp::Lt),
        (Some(_), None) => Some(Cmp::Gt),
        (Some(x), Some(y)) => spec_cmp_scalar(x, y),
    }
}

/// Compares two integers.
fn cmp_i64(a: i64, b: i64) -> (r: Cmp)
    ensures
        r == spec_cmp_int(a as int, b as int),
{
    if a < b {
        Cmp::Lt
    } else if a == b {
        Cmp::Eq
    } else {
        Cmp::Gt
    }
}

/// Compares two unsigned keys.
fn cmp_u64(a: u64, b: u64) -> (r: Cmp)
    ensures
        r == spec_cmp_int(a as int, b as int),
{
    if a < b {
        Cmp::Lt
    } else if a == b {
        Cmp::Eq
    } else {
        Cmp::Gt
    }
}

/// Compares two unsigned 128-bit values.
fn cmp_u128(a: u128, b: u128) -> (r: Cmp)
    ensures
        r == spec_cmp_int(a as int, b as int),
{
    if a < b {
        Cmp::Lt
    } else if a == b {
        Cmp::Eq
    } else {
        Cmp::Gt
    }
}

/// Compares two strings lexicographically by code point.
pub fn cmp_strings(a: &str, b: &str) -> (r: Cmp)
    ensures
        r == spec_cmp_chars(a@, b@),
{
    let alen = a.unicode_len();
    let blen = b.unicode_len();
    let mut i: usize = 0;
    proof {
        assert(a@.skip(0) =~= a@);
        assert(b@.skip(0) =~= b@);
    }
    while i < alen && i < blen
        invariant
            alen == a@.len(),
            blen == b@.len(),
            i <= alen,
            i <= blen,
            spec_cmp_chars(a@, b@) == spec_cmp_chars(a@.skip(i as int), b@.skip(i as int)),
        decreases alen - i,
    {
        let ca = a.get_char(i);
        let cb = b.get_char(i);
        proof {
            assert(a@.skip(i as int)[0] == a@[i as int]);
            assert(b@.skip(i as int)[0] == b@[i as int]);
            assert(a@.skip(i as int).drop_first() =~= a@.skip(i + 1));
            assert(b@.skip(i as int).drop_first() =~= b@.skip(i + 1));
        }
        let cau = ca as u32;
        let cbu = cb as u32;
        if cau < cbu {
            return Cmp::Lt;
        }
        if cau > cbu {
            return Cmp::Gt;
        }
        i = i + 1;
    }
    proof {
        if i >= alen {
            assert(a@.skip(i as int) =~= Seq::<char>::empty());
        }
        if i >= blen {
            assert(b@.skip(i as int) =~= Seq::<char>::empty());
        }
    }
    if alen == blen {
        Cmp::Eq
    } else if alen < blen {
        Cmp::Lt
    } else {
        Cmp::Gt
    }
}

/// Compares two scalars of the same kind.
pub fn cmp_scalars(a: &WundergraphScalarValue, b: &WundergraphScalarValue) -> (r: Option<Cmp>)
    ensures
        r == spec_cmp_scalar(a@, b@),
{
    match (a, b) {
        (WundergraphScalarValue::SmallInt(x), WundergraphScalarValue::SmallInt(y)) => Some(
            cmp_i64(*x as i64, *y as i64),
        ),
        (WundergraphScalarValue::Int(x), WundergraphScalarValue::Int(y)) => Some(
            cmp_i64(*x as i64, *y as i64),
        ),
        (WundergraphScalarValue::BigInt(x), WundergraphScalarValue::BigInt(y)) => Some(
            cmp_i64(*x, *y),
        ),
        (WundergraphScalarValue::Float(x), WundergraphScalarValue::Float(y)) => {
            proof {
                assert(*x >> 31 == 1 || *x >> 31 == 0) by (bit_vector);
                assert(*y >> 31 == 1 || *y >> 31 == 0) by (bit_vector);
                assert((*x >> 31 == 0) ==> *x < 0x8000_0000) by (bit_vector);
                assert((*y >> 31 == 0) ==> *y < 0x8000_0000) by (bit_vector);
            }
            let kx: u32 = if *x >> 31 == 1 {
                0xffff_ffffu32 - *x
            } else {
                *x + 0x8000_0000u32
            };
            let ky: u32 = if *y >> 31 == 1 {
                0xffff_ffffu32 - *y
            } else {
                *y + 0x8000_0000u32
            };
            Some(cmp_u64(kx as u64, ky as u64))
        },
        (WundergraphScalarValue::Double(x), WundergraphScalarValue::Double(y)) => {
            proof {
                assert(*x >> 63 == 1 || *x >> 63 == 0) by (bit_vector);
                assert(*y >> 63 == 1 || *y >> 63 == 0) by (bit_vector);
                assert((*x >> 63 == 0) ==> *x < 0x8000_0000_0000_0000) by (bit_vector);
                assert((*y >> 63 == 0) ==> *y < 0x8000_0000_0000_0000) by (bit_vector);
            }
            let kx: u64 = if *x >> 63 == 1 {
                0xffff_ffff_ffff_ffffu64 - *x
            } else {
                *x + 0x8000_0000_0000_0000u64
            };
            let ky: u64 = if *y >> 63 == 1 {
                0xffff_ffff_ffff_ffffu64 - *y
            } else {
                *y + 0x8000_0000_0000_0000u64
            };
            Some(cmp_u64(kx, ky))
        },
        (WundergraphScalarValue::String(x), WundergraphScalarValue::String(y)) => Some(
            cmp_strings(x.as_str(), y.as_str()),
        ),
        (WundergraphScalarValue::Boolean(x), WundergraphScalarValue::Boolean(y)) => {
            let xi: i64 = if *x {
                1
            } else {
                0
            };
            let yi: i64 = if *y {
                1
            } else {
                0
            };
            Some(cmp_i64(xi, yi))
        },
        (WundergraphScalarValue::Id(x), WundergraphScalarValue::Id(y)) => Some(
            cmp_strings(x.as_str(), y.as_str()),
        ),
        (WundergraphScalarValue::Timestamp(xs, xn), WundergraphScalarValue::Timestamp(ys, yn)) => {
            if xs == ys {
                Some(cmp_i64(*xn as i64, *yn as i64))
            } else {
                Some(cmp_i64(*xs, *ys))
            }
        },
        (WundergraphScalarValue::Date(x), WundergraphScalarValue::Date(y)) => Some(
            cmp_i64(*x as i64, *y as i64),
        ),
        (WundergraphScalarValue::Uuid(x), WundergraphScalarValue::Uuid(y)) => Some(
            cmp_u128(*x, *y),
        ),
        _ => None,
    }
}

/// Compares two cells: null first, then by scalar order.
pub fn cmp_cells(a: &Option<WundergraphScalarValue>, b: &Option<WundergraphScalarValue>) -> (r:
    Option<Cmp>)
    ensures
        r == spec_cmp_cell(spec_cell_v(*a), spec_cell_v(*b)),
{
    match (a, b) {
        (None, None) => Some(Cmp::Eq),
        (None, Some(_)) => Some(Cmp::Lt),
        (Some(_), None) => Some(Cmp::Gt),
        (Some(x), Some(y)) => cmp_scalars(x, y),
    }
}

/// The lexicographic comparison ties exactly on equal character sequences.
pub proof fn lemma_cmp_chars_eq_iff(a: Seq<char>, b: Seq<char>)
    ensures
        (spec_cmp_chars(a, b) is Eq) <==> a == b,
    decreases a.len(),
{
    if a.len() == 0 && b.len() == 0 {
        assert(a =~= b);
    } else if a.len() == 0 || b.len() == 0 {
    } else if (a[0] as u32) < (b[0] as u32) || (a[0] as u32) > (b[0] as u32) {
        assert(a != b) by {
            if a == b {
                assert(a[0] == b[0]);
            }
        }
    } else {
        vstd::utf8::char_u32_cast(a[0], a[0] as u32);
        vstd::utf8::char_u32_cast(b[0], b[0] as u32);
        assert(a[0] == b[0]);
        lemma_cmp_chars_eq_iff(a.drop_first(), b.drop_first());
        if a.drop_first() == b.drop_first() && a[0] == b[0] {
            assert forall|i: int| 0 <= i < a.len() implies a[i] == b[i] by {
                if i > 0 {
                    assert(a.drop_first()[i - 1] == a[i]);
                    assert(b.drop_first()[i - 1] == b[i]);
                }
            }
            assert(a =~= b);
        }
        if a == b {
            assert(a.drop_first() =~= b.drop_first());
        }
    }
}

/// Whether two borrowed strings hold the same characters.
pub fn str_eq(a: &str, b: &str) -> (r: bool)
    ensures
        r == (a@ == b@),
{
    let c = cmp_strings(a, b);
    proof {
        lemma_cmp_chars_eq_iff(a@, b@);
    }
    matches!(c, Cmp::Eq)
}

} // verus!
