use vstd::prelude::*;
use vstd::string::StringExecFns;

verus! {

/// Normalizes a subnormal 32-bit mantissa: doubles `m` until its bit 23 is
/// set, lowering the exponent field by one per step.
pub open spec fn spec_widen_norm(e: int, m: int) -> (int, int)
    decreases 0x100_0000 - m,
{
    if m <= 0 || m >= 0x80_0000 {
        (e, m)
    } else {
        spec_widen_norm(e - 1, m * 2)
    }
}

/// The IEEE 754 binary64 bit pattern representing the same number as a given
/// binary32 bit pattern.
///
/// Every binary32 value is exactly representable in binary64: the exponent is
/// re-biased from 127 to 1023 and the mantissa gains 29 trailing zero bits;
/// subnormal inputs are normalized first; infinities and NaNs map to
/// infinities and NaNs with the payload shifted likewise.
pub open spec fn spec_widen_float_bits(b: u32) -> u64 {
    let s: u64 = ((b >> 31) as u64) << 63;
    let e: u32 = (b >> 23) & 0xff;
    let m: u32 = b & 0x7f_ffff;
    if e == 0xff {
        s | (0x7ffu64 << 52) | ((m as u64) << 29)
    } else if e == 0 && m == 0 {
        s
    } else if e == 0 {
        let (ne, nm) = spec_widen_norm(897, m as int);
        s | ((ne as u64) << 52) | ((((nm as u64) & 0x7f_ffff)) << 29)
    } else {
        s | (((e + 896) as u64) << 52) | ((m as u64) << 29)
    }
}

/// Widens a binary32 bit pattern to the binary64 bit pattern of the same
/// number.
pub fn widen_float_bits(b: u32) -> (r: u64)
    ensures
        r == spec_widen_float_bits(b),
{
    let s: u64 = ((b >> 31) as u64) << 63;
    let e: u32 = (b >> 23) & 0xff;
    let m: u32 = b & 0x7f_ffff;
    proof {
        assert(e < 256 && m < 0x80_0000) by (bit_vector)
            requires
                e == (b >> 23) & 0xff && m == b & 0x7f_ffff,
        ;
    }
    if e == 0xff {
        s | (0x7ffu64 << 52) | ((m as u64) << 29)
    } else if e == 0 && m == 0 {
        s
    } else if e == 0 {
        let mut nm: u32 = m;
        let mut ne: u32 = 897;
        proof {
            vstd::arithmetic::power2::lemma2_to64();
        }
        while nm < 0x80_0000
            invariant
                1 <= nm < 0x100_0000,
                ne <= 897,
                nm as nat >= vstd::arithmetic::power2::pow2((897 - ne) as nat),
                spec_widen_norm(897, m as int) == spec_widen_norm(ne as int, nm as int),
            decreases 0x100_0000 - nm,
        {
            proof {
                vstd::arithmetic::power2::lemma2_to64();
                if 897 - ne >= 23 {
                    vstd::arithmetic::power2::lemma_pow2_strictly_increases(
                        23nat,
                        (897 - ne) as nat,
                    );
                }
                vstd::arithmetic::power2::lemma_pow2_unfold((897 - (ne - 1)) as nat);
            }
            nm = nm * 2;
            ne = ne - 1;
        }
        proof {
            assert(spec_widen_norm(897, m as int) == (ne as int, nm as int));
            assert(((nm & 0x7f_ffff) as u64) == ((nm as u64) & 0x7f_ffff)) by (bit_vector);
        }
        s | ((ne as u64) << 52) | (((nm & 0x7f_ffff) as u64) << 29)
    } else {
        s | (((e + 896) as u64) << 52) | ((m as u64) << 29)
    }
}

/// The decimal digit character for one digit value.
pub open spec fn spec_digit_char(d: int) -> char {
    if d == 0 {
        '0'
    } else if d == 1 {
        '1'
    } else if d == 2 {
        '2'
    } else if d == 3 {
        '3'
    } else if d == 4 {
        '4'
    } else if d == 5 {
        '5'
    } else if d == 6 {
        '6'
    } else if d == 7 {
        '7'
    } else if d == 8 {
        '8'
    } else {
        '9'
    }
}

/// The decimal notation of a non-negative integer.
pub open spec fn spec_u32_decimal(n: int) -> Seq<char>
    decreases n,
{
    if n < 10 {
        seq![spec_digit_char(n)]
    } else {
        spec_u32_decimal(n / 10).push(spec_digit_char(n % 10))
    }
}

/// The decimal notation of a signed integer: a minus sign before the
/// magnitude for negative values.
pub open spec fn spec_i32_decimal(n: int) -> Seq<char> {
    if n < 0 {
        seq!['-'] + spec_u32_decimal(-n)
    } else {
        spec_u32_decimal(n)
    }
}

/// One digit as a borrowed string.
fn digit_str(d: u32) -> (r: &'static str)
    requires
        d < 10,
    ensures
        r@ == seq![spec_digit_char(d as int)],
{
    proof {
        reveal_strlit("0");
        reveal_strlit("1");
        reveal_strlit("2");
        reveal_strlit("3");
        reveal_strlit("4");
        reveal_strlit("5");
        reveal_strlit("6");
        reveal_strlit("7");
        reveal_strlit("8");
        reveal_strlit("9");
    }
    let r = if d == 0 {
        "0"
    } else if d == 1 {
        "1"
    } else if d == 2 {
        "2"
    } else if d == 3 {
        "3"
    } else if d == 4 {
        "4"
    } else if d == 5 {
        "5"
    } else if d == 6 {
        "6"
    } else if d == 7 {
        "7"
    } else {
        "8"
    };
    let r = if d == 9 {
        "9"
    } else {
        r
    };
    proof {
        assert(r@ =~= seq![spec_digit_char(d as int)]);
    }
    r
}

/// The decimal notation of a `u32`, as a string.
pub fn u32_to_decimal(n: u32) -> (s: String)
    ensures
        s@ == spec_u32_decimal(n as int),
    decreases n,
{
    if n < 10 {
        digit_str(n).to_owned()
    } else {
        let s = u32_to_decimal(n / 10);
        let r = s.concat(digit_str(n % 10));
        proof {
            assert(r@ =~= spec_u32_decimal(n as int));
        }
        r
    }
}

/// The decimal notation of an `i32`, as a string.
pub fn i32_to_decimal(n: i32) -> (s: String)
    ensures
        s@ == spec_i32_decimal(n as int),
{
    if n < 0 {
        let magnitude: u32 = (-(n as i64)) as u32;
        let s = "-".to_owned();
        let r = s.concat(u32_to_decimal(magnitude).as_str());
        proof {
            reveal_strlit("-");
            assert(r@ =~= spec_i32_decimal(n as int));
        }
        r
    } else {
        u32_to_decimal(n as u32)
    }
}

} // verus!
