//! Conversions between element values and the host's numeric type.
//!
//! The host understands one numeric representation: an IEEE-754 binary64
//! value. This library never touches a floating-point number; it works on
//! the bit pattern, a `u64`, and performs every conversion as integer
//! arithmetic on the pattern's sign, exponent and fraction fields.
//!
//! Writing a number into an integer element truncates it toward zero and
//! wraps it to the element width, two's complement — so an out-of-range
//! value is wrapped, never rejected. Reading an integer element of width 32
//! bits or less is exact; the 64-bit kinds round to the nearest
//! representable binary64 value (ties to even) and so may lose precision
//! above 2^53 in magnitude, which is preserved deliberately.

use vstd::arithmetic::div_mod::lemma_fundamental_div_mod;
use vstd::arithmetic::power2::lemma2_to64;
use vstd::arithmetic::power2::lemma2_to64_rest;
use vstd::arithmetic::power2::lemma_pow2_adds;
use vstd::arithmetic::power2::lemma_pow2_pos;
use vstd::arithmetic::power2::lemma_pow2_strictly_increases;
use vstd::arithmetic::power2::lemma_pow2_subtracts;
use vstd::arithmetic::power2::lemma_pow2_unfold;
use vstd::arithmetic::power2::pow2;
use vstd::prelude::*;

use crate::bytes::pow256;
use crate::bytes::to_signed;
use crate::kind::TypedArrayKind;

verus! {

/// The sign field of a binary64 bit pattern: 0 or 1.
pub open spec fn f64_sign(bits: u64) -> nat {
    (bits / 0x8000000000000000) as nat
}

/// The biased exponent field of a binary64 bit pattern: 11 bits.
pub open spec fn f64_exp(bits: u64) -> nat {
    ((bits / 0x10000000000000) % 0x800) as nat
}

/// The fraction field of a binary64 bit pattern: 52 bits.
pub open spec fn f64_frac(bits: u64) -> nat {
    (bits % 0x10000000000000) as nat
}

/// Whether the pattern is a finite number (not an infinity, not a NaN).
pub open spec fn f64_is_finite(bits: u64) -> bool {
    f64_exp(bits) != 0x7ff
}

/// The integer part of the magnitude of a finite binary64 value: its
/// significand shifted by the unbiased exponent, truncated toward zero.
pub open spec fn f64_trunc_abs(bits: u64) -> nat
    recommends
        f64_is_finite(bits),
{
    let e = f64_exp(bits);
    let sig = f64_frac(bits) + 0x10000000000000;
    if e < 1023 {
        0
    } else if e >= 1075 {
        sig * pow2((e - 1075) as nat)
    } else {
        sig / pow2((1075 - e) as nat)
    }
}

/// The number truncated toward zero and wrapped to 64 bits, two's
/// complement: what storing it in a 64-bit integer element keeps. An
/// infinity or a NaN stores zero.
pub open spec fn number_to_uint64(bits: u64) -> nat {
    if !f64_is_finite(bits) {
        0
    } else {
        let t = f64_trunc_abs(bits) % 0x10000000000000000;
        if f64_sign(bits) == 1 {
            ((0x10000000000000000 - t) % 0x10000000000000000) as nat
        } else {
            t
        }
    }
}

/// The number truncated and wrapped to a `w`-byte integer element: the low
/// `w` bytes of the 64-bit wrap.
pub open spec fn number_to_uint(bits: u64, w: nat) -> nat {
    number_to_uint64(bits) % pow256(w)
}

/// `2^k` as a machine word.
fn pow2_u64(k: u64) -> (r: u64)
    requires
        k < 64,
    ensures
        r == pow2(k as nat),
{
    let mut i: u64 = 0;
    let mut r: u64 = 1;
    proof {
        lemma2_to64();
        lemma2_to64_rest();
        lemma_pow2_strictly_increases(k as nat, 64);
    }
    while i < k
        invariant
            i <= k < 64,
            r == pow2(i as nat),
            r <= pow2(k as nat) < 0x10000000000000000,
        decreases k - i,
    {
        proof {
            lemma_pow2_unfold((i + 1) as nat);
            lemma_pow2_strictly_increases(i as nat, (i + 1) as nat);
            if i + 1 < k {
                lemma_pow2_strictly_increases((i + 1) as nat, k as nat);
            }
        }
        r = r * 2;
        i = i + 1;
    }
    r
}

/// Multiplying into the low 64 bits: masking the factor first loses exactly
/// the part that the wrap discards.
proof fn lemma_mul_pow2_wrap(a: nat, sh: nat)
    requires
        sh < 64,
    ensures
        (a % pow2((64 - sh) as nat)) * pow2(sh) == (a * pow2(sh)) % pow2(64),
{
    let c = pow2((64 - sh) as nat);
    let k = pow2(sh);
    let q = a / c;
    let r = a % c;
    lemma_pow2_pos((64 - sh) as nat);
    lemma_pow2_pos(sh);
    lemma_fundamental_div_mod(a as int, c as int);
    lemma_pow2_adds((64 - sh) as nat, sh);
    assert(c * k == pow2(64));
    assert(a == q * c + r);
    assert(a * k == q * (c * k) + r * k) by (nonlinear_arith)
        requires
            a == q * c + r,
    ;
    assert(r * k < c * k) by (nonlinear_arith)
        requires
            r < c,
            k > 0,
    ;
    assert((q * (c * k) + r * k) % (c * k) == r * k) by {
        vstd::arithmetic::div_mod::lemma_mod_multiples_vanish(
            q as int,
            (r * k) as int,
            (c * k) as int,
        );
        vstd::arithmetic::div_mod::lemma_small_mod(r * k, c * k);
    }
}

/// A product with sixty-four or more twos in it wraps to zero.
proof fn lemma_mul_pow2_wrap_high(a: nat, sh: nat)
    requires
        sh >= 64,
    ensures
        (a * pow2(sh)) % pow2(64) == 0,
{
    lemma_pow2_adds((sh - 64) as nat, 64);
    lemma_pow2_pos((sh - 64) as nat);
    lemma_pow2_pos(64);
    assert(a * pow2(sh) == (a * pow2((sh - 64) as nat)) * pow2(64)) by (nonlinear_arith)
        requires
            pow2(sh) == pow2((sh - 64) as nat) * pow2(64),
    ;
    vstd::arithmetic::div_mod::lemma_mod_multiples_basic(
        (a * pow2((sh - 64) as nat)) as int,
        pow2(64) as int,
    );
}

/// The position of the highest set bit of `v`, zero for `v < 2`.
pub open spec fn msb(v: nat) -> nat
    decreases v,
{
    if v < 2 {
        0
    } else {
        1 + msb(v / 2)
    }
}

/// `msb` is what its name says: `v` lies between `2^msb(v)` and
/// `2^(msb(v) + 1)`.
proof fn lemma_msb_bounds(v: nat)
    requires
        v >= 1,
    ensures
        pow2(msb(v)) <= v < pow2(msb(v) + 1),
    decreases v,
{
    if v < 2 {
        lemma2_to64();
    } else {
        let m = msb(v / 2);
        lemma_msb_bounds(v / 2);
        lemma_fundamental_div_mod(v as int, 2);
        lemma_pow2_unfold((m + 1) as nat);
        lemma_pow2_unfold((m + 2) as nat);
    }
}

/// The binary64 bit pattern nearest to the positive integer `v`, ties to
/// even. Exact whenever `v` fits 53 bits.
pub open spec fn f64_encode_pos(v: nat) -> u64
    recommends
        1 <= v < pow2(64),
{
    let p = msb(v);
    if p <= 52 {
        (((1023 + p) * 0x10000000000000) + (v * pow2((52 - p) as nat) - 0x10000000000000)) as u64
    } else {
        let sh = (p - 52) as nat;
        let keep = v / pow2(sh);
        let rem = v % pow2(sh);
        let half = pow2((sh - 1) as nat);
        let rounded: nat = if rem > half || (rem == half && keep % 2 == 1) {
            keep + 1
        } else {
            keep
        };
        if rounded == 0x20000000000000 {
            (((1023 + p + 1) * 0x10000000000000)) as u64
        } else {
            (((1023 + p) * 0x10000000000000) + (rounded - 0x10000000000000)) as u64
        }
    }
}

/// The binary64 bit pattern nearest to the unsigned value `v`.
pub open spec fn f64_encode_nat(v: nat) -> u64
    recommends
        v < pow2(64),
{
    if v == 0 {
        0
    } else {
        f64_encode_pos(v)
    }
}

/// The binary64 bit pattern nearest to the signed value `x`: the magnitude
/// encoded, the sign bit set for a negative value.
pub open spec fn f64_encode_int(x: int) -> u64
    recommends
        -pow2(63) <= x < pow2(64),
{
    if x >= 0 {
        f64_encode_nat(x as nat)
    } else {
        (0x8000000000000000 + f64_encode_nat((-x) as nat)) as u64
    }
}

/// The encoding of a positive value keeps the sign bit clear.
proof fn lemma_f64_encode_pos_bound(v: nat)
    requires
        1 <= v < pow2(64),
    ensures
        f64_encode_pos(v) < 0x8000000000000000,
{
    lemma2_to64();
    lemma2_to64_rest();
    let p = msb(v);
    lemma_msb_bounds(v);
    assert(p < 64) by {
        if p >= 64 {
            if 64 < p {
                lemma_pow2_strictly_increases(64, p);
            }
            assert(pow2(64) <= pow2(p) <= v);
        }
    }
    if p <= 52 {
        let k = pow2((52 - p) as nat);
        assert(v * k < pow2(p + 1) * k) by (nonlinear_arith)
            requires
                v < pow2(p + 1),
                k > 0,
        {
            lemma_pow2_pos((52 - p) as nat);
        }
        lemma_pow2_adds((p + 1) as nat, (52 - p) as nat);
        assert(pow2(p + 1) * k == pow2(53));
    } else {
        let sh = (p - 52) as nat;
        let keep = v / pow2(sh);
        assert(keep < pow2(53)) by {
            lemma_pow2_adds(sh, 53);
            lemma_pow2_pos(sh);
            vstd::arithmetic::div_mod::lemma_multiply_divide_lt(
                v as int,
                pow2(sh) as int,
                pow2(53) as int,
            );
        }
    }
}

/// Encodes a positive machine word as the nearest binary64 pattern.
fn f64_encode_pos_exec(v: u64) -> (r: u64)
    requires
        v >= 1,
    ensures
        r == f64_encode_pos(v as nat),
{
    proof {
        lemma2_to64();
        lemma2_to64_rest();
        lemma_msb_bounds(v as nat);
        if msb(v as nat) >= 64 {
            if 64 < msb(v as nat) {
                lemma_pow2_strictly_increases(64, msb(v as nat));
            }
            assert(pow2(64) <= pow2(msb(v as nat)) <= v as nat);
        }
    }
    let p = msb_u64(v);
    if p <= 52 {
        let k = pow2_u64(52 - p);
        proof {
            let ghost kg = pow2((52 - p) as nat);
            assert(v as nat * kg < pow2((p + 1) as nat) * kg) by (nonlinear_arith)
                requires
                    (v as nat) < pow2((p + 1) as nat),
                    kg > 0,
            {
                lemma_pow2_pos((52 - p) as nat);
            }
            lemma_pow2_adds((p + 1) as nat, (52 - p) as nat);
            assert(pow2((p + 1) as nat) * kg == pow2(53));
            assert(pow2(p as nat) * kg == pow2(52)) by {
                lemma_pow2_adds(p as nat, (52 - p) as nat);
            }
            assert(v as nat * kg >= pow2(p as nat) * kg) by (nonlinear_arith)
                requires
                    (v as nat) >= pow2(p as nat),
                    kg > 0,
            ;
        }
        let shifted = v * k;
        (1023 + p) * 0x10000000000000 + (shifted - 0x10000000000000)
    } else {
        let sh = p - 52;
        let d = pow2_u64(sh);
        let half = pow2_u64(sh - 1);
        let keep = v / d;
        let rem = v % d;
        proof {
            assert(keep < pow2(53)) by {
                lemma_pow2_adds(sh as nat, 53);
                lemma_pow2_pos(sh as nat);
                vstd::arithmetic::div_mod::lemma_multiply_divide_lt(
                    v as int,
                    pow2(sh as nat) as int,
                    pow2(53) as int,
                );
            }
            assert(keep >= pow2(52)) by {
                lemma_pow2_pos(sh as nat);
                vstd::arithmetic::div_mod::lemma_div_is_ordered(
                    pow2(p as nat) as int,
                    v as int,
                    pow2(sh as nat) as int,
                );
                lemma_pow2_subtracts(sh as nat, p as nat);
            }
        }
        let rounded: u64 = if rem > half || (rem == half && keep % 2 == 1) {
            keep + 1
        } else {
            keep
        };
        if rounded == 0x20000000000000 {
            (1023 + p + 1) * 0x10000000000000
        } else {
            (1023 + p) * 0x10000000000000 + (rounded - 0x10000000000000)
        }
    }
}

/// Encodes an unsigned machine word as the nearest binary64 pattern.
pub fn f64_bits_of_u64(v: u64) -> (r: u64)
    ensures
        r == f64_encode_nat(v as nat),
{
    if v == 0 {
        0
    } else {
        f64_encode_pos_exec(v)
    }
}

/// Encodes a signed machine word as the nearest binary64 pattern.
pub fn f64_bits_of_i64(x: i64) -> (r: u64)
    ensures
        r == f64_encode_int(x as int),
{
    proof {
        lemma2_to64();
        lemma2_to64_rest();
    }
    if x >= 0 {
        f64_bits_of_u64(x as u64)
    } else {
        let mag: u64 = if x == i64::MIN {
            0x8000000000000000
        } else {
            (-x) as u64
        };
        proof {
            lemma_f64_encode_pos_bound(mag as nat);
        }
        0x8000000000000000 + f64_bits_of_u64(mag)
    }
}

/// The position of the highest set bit of a machine word.
fn msb_u64(v: u64) -> (r: u64)
    requires
        v >= 1,
    ensures
        r == msb(v as nat),
        r < 64,
{
    proof {
        lemma2_to64();
        lemma2_to64_rest();
        lemma_msb_bounds(v as nat);
        if msb(v as nat) >= 64 {
            if 64 < msb(v as nat) {
                lemma_pow2_strictly_increases(64, msb(v as nat));
            }
            assert(pow2(64) <= pow2(msb(v as nat)) <= v as nat);
        }
    }
    let mut x = v;
    let mut p: u64 = 0;
    while x >= 2
        invariant
            x >= 1,
            p + msb(x as nat) == msb(v as nat),
            msb(v as nat) < 64,
        decreases x,
    {
        x = x / 2;
        p = p + 1;
    }
    p
}

/// Truncates a finite binary64 bit pattern toward zero and wraps it to 64
/// bits, two's complement; an infinity or a NaN yields zero.
pub fn f64_bits_to_uint64_wrap(bits: u64) -> (r: u64)
    ensures
        r as nat == number_to_uint64(bits),
{
    proof {
        lemma2_to64();
        lemma2_to64_rest();
    }
    let e = (bits / 0x10000000000000) % 0x800;
    let m = bits % 0x10000000000000;
    let neg = bits >= 0x8000000000000000;
    proof {
        assert(f64_sign(bits) == 1 <==> bits >= 0x8000000000000000);
    }
    if e == 0x7ff {
        return 0;
    }
    let sig = m + 0x10000000000000;
    let mag: u64;
    if e < 1023 {
        mag = 0;
    } else if e >= 1075 {
        let sh = e - 1075;
        if sh >= 64 {
            proof {
                lemma_mul_pow2_wrap_high(sig as nat, sh as nat);
            }
            mag = 0;
        } else {
            proof {
                lemma_mul_pow2_wrap(sig as nat, sh as nat);
                lemma_pow2_pos((64 - sh) as nat);
                lemma_pow2_pos(sh as nat);
                let c = pow2((64 - sh) as nat);
                let k = pow2(sh as nat);
                let a = sig as nat % c;
                vstd::arithmetic::div_mod::lemma_mod_division_less_than_divisor(
                    sig as int,
                    c as int,
                );
                assert(a * k < c * k) by (nonlinear_arith)
                    requires
                        a < c,
                        k > 0,
                ;
                lemma_pow2_adds((64 - sh) as nat, sh as nat);
            }
            if sh == 0 {
                proof {
                    vstd::arithmetic::div_mod::lemma_small_mod(sig as nat, pow2(64));
                    vstd::arithmetic::mul::lemma_mul_basics(sig as int);
                }
                mag = sig;
            } else {
                let low = sig % pow2_u64(64 - sh);
                mag = low * pow2_u64(sh);
            }
        }
    } else {
        let sh = 1075 - e;
        let d = pow2_u64(sh);
        mag = sig / d;
        proof {
            assert(sig / d <= sig) by (nonlinear_arith)
                requires
                    d >= 1,
                    sig >= 0,
            ;
            vstd::arithmetic::div_mod::lemma_small_mod((sig / d) as nat, pow2(64));
        }
    }
    proof {
        assert(mag as nat == f64_trunc_abs(bits) % pow2(64));
    }
    if neg {
        if mag == 0 {
            proof {
                vstd::arithmetic::div_mod::lemma_mod_self_0(pow2(64) as int);
            }
            0
        } else {
            proof {
                vstd::arithmetic::div_mod::lemma_small_mod(
                    (0x10000000000000000 - mag as nat) as nat,
                    pow2(64),
                );
            }
            (0xffffffffffffffff - mag) + 1
        }
    } else {
        mag
    }
}

} // verus!
// The remainder of this file: conversions between binary32 and binary64
// bit patterns, needed by the Float32 element kind.

verus! {

/// The sign field of a binary32 bit pattern: 0 or 1.
pub open spec fn f32_sign(b: u32) -> nat {
    (b / 0x80000000) as nat
}

/// The biased exponent field of a binary32 bit pattern: 8 bits.
pub open spec fn f32_exp(b: u32) -> nat {
    ((b / 0x800000) % 0x100) as nat
}

/// The fraction field of a binary32 bit pattern: 23 bits.
pub open spec fn f32_frac(b: u32) -> nat {
    (b % 0x800000) as nat
}

/// The binary64 bit pattern of the same value as the binary32 pattern `b`.
/// Widening is exact; an infinity stays an infinity and a NaN stays a NaN
/// with its payload shifted up.
pub open spec fn f32_to_f64_bits(b: u32) -> u64 {
    let s = f32_sign(b);
    let e = f32_exp(b);
    let m = f32_frac(b);
    if e == 0xff {
        (s * 0x8000000000000000 + 0x7ff0000000000000 + m * 0x20000000) as u64
    } else if e == 0 {
        if m == 0 {
            (s * 0x8000000000000000) as u64
        } else {
            let p = msb(m);
            (s * 0x8000000000000000 + (874 + p) * 0x10000000000000 + (m - pow2(p)) * pow2(
                (52 - p) as nat,
            )) as u64
        }
    } else {
        (s * 0x8000000000000000 + (e + 896) * 0x10000000000000 + m * 0x20000000) as u64
    }
}

/// `sig / 2^k` rounded to the nearest integer, ties to even.
pub open spec fn rne(sig: nat, k: nat) -> nat
    recommends
        k >= 1,
{
    let keep = sig / pow2(k);
    let rem = sig % pow2(k);
    let half = pow2((k - 1) as nat);
    if rem > half || (rem == half && keep % 2 == 1) {
        keep + 1
    } else {
        keep
    }
}

/// The binary32 bit pattern nearest to the value of the binary64 pattern
/// `b`, ties to even: overflow becomes an infinity, a tiny value becomes a
/// signed zero or a subnormal, a NaN stays a quiet NaN.
pub open spec fn f64_to_f32_bits(b: u64) -> u32 {
    let s = f64_sign(b);
    let e = f64_exp(b);
    let m = f64_frac(b);
    if e == 0x7ff {
        if m == 0 {
            (s * 0x80000000 + 0x7f800000) as u32
        } else {
            (s * 0x80000000 + 0x7fc00000 + (m / 0x20000000) % 0x400000) as u32
        }
    } else if e == 0 {
        (s * 0x80000000) as u32
    } else {
        let sig = m + 0x10000000000000;
        if e >= 1151 {
            (s * 0x80000000 + 0x7f800000) as u32
        } else if e >= 897 {
            let rounded = rne(sig, 29);
            if rounded == 0x1000000 {
                if e == 1150 {
                    (s * 0x80000000 + 0x7f800000) as u32
                } else {
                    (s * 0x80000000 + (e - 895) * 0x800000) as u32
                }
            } else {
                (s * 0x80000000 + (e - 896) * 0x800000 + (rounded - 0x800000)) as u32
            }
        } else if e >= 873 {
            (s * 0x80000000 + rne(sig, (926 - e) as nat)) as u32
        } else {
            (s * 0x80000000) as u32
        }
    }
}

} // verus!

verus! {

/// `sig / 2^k` rounded to the nearest integer, ties to even.
fn rne_u64(sig: u64, k: u64) -> (r: u64)
    requires
        1 <= k < 64,
    ensures
        r as nat == rne(sig as nat, k as nat),
{
    let d = pow2_u64(k);
    let half = pow2_u64(k - 1);
    proof {
        lemma_pow2_pos(k as nat);
        lemma_pow2_pos((k - 1) as nat);
    }
    let keep = sig / d;
    let rem = sig % d;
    proof {
        lemma2_to64();
        lemma2_to64_rest();
        vstd::arithmetic::div_mod::lemma_div_is_ordered_by_denominator(sig as int, 2, d as int);
        lemma_pow2_unfold(k as nat);
        if k > 1 {
            lemma_pow2_strictly_increases(1, k as nat);
        }
    }
    if rem > half || (rem == half && keep % 2 == 1) {
        keep + 1
    } else {
        keep
    }
}

/// Widens a binary32 bit pattern to the binary64 pattern of the same value.
pub fn f32_bits_to_f64_bits(b: u32) -> (r: u64)
    ensures
        r == f32_to_f64_bits(b),
{
    proof {
        lemma2_to64();
        lemma2_to64_rest();
    }
    let s: u64 = if b >= 0x80000000 {
        0x8000000000000000
    } else {
        0
    };
    proof {
        assert(f32_sign(b) == if b >= 0x80000000 {
            1nat
        } else {
            0nat
        });
    }
    let e = (b / 0x800000) % 0x100;
    let m = b % 0x800000;
    if e == 0xff {
        s + 0x7ff0000000000000 + (m as u64) * 0x20000000
    } else if e == 0 {
        if m == 0 {
            s
        } else {
            let p = msb_u64(m as u64);
            proof {
                lemma_msb_bounds(m as nat);
                assert(msb(m as nat) < 23) by {
                    if msb(m as nat) >= 23 {
                        if 23 < msb(m as nat) {
                            lemma_pow2_strictly_increases(23, msb(m as nat));
                        }
                        assert(pow2(23) <= pow2(msb(m as nat)) <= m as nat);
                    }
                }
                let pg = msb(m as nat);
                let kg = pow2((52 - pg) as nat);
                lemma_pow2_pos((52 - pg) as nat);
                assert((m as nat - pow2(pg)) * kg < pow2(pg) * kg) by (nonlinear_arith)
                    requires
                        (m as nat - pow2(pg)) < pow2(pg),
                        kg > 0,
                ;
                lemma_pow2_adds(pg, (52 - pg) as nat);
            }
            let lo = (m as u64 - pow2_u64(p)) * pow2_u64(52 - p);
            s + (874 + p) * 0x10000000000000 + lo
        }
    } else {
        s + ((e as u64) + 896) * 0x10000000000000 + (m as u64) * 0x20000000
    }
}

/// Narrows a binary64 bit pattern to the nearest binary32 pattern, ties to
/// even; overflow becomes an infinity, a tiny value a signed zero or a
/// subnormal.
pub fn f64_bits_to_f32_bits(b: u64) -> (r: u32)
    ensures
        r == f64_to_f32_bits(b),
{
    proof {
        lemma2_to64();
        lemma2_to64_rest();
    }
    let s: u32 = if b >= 0x8000000000000000 {
        0x80000000
    } else {
        0
    };
    proof {
        assert(f64_sign(b) == if b >= 0x8000000000000000 {
            1nat
        } else {
            0nat
        });
    }
    let e = (b / 0x10000000000000) % 0x800;
    let m = b % 0x10000000000000;
    if e == 0x7ff {
        if m == 0 {
            s + 0x7f800000
        } else {
            s + 0x7fc00000 + ((m / 0x20000000) % 0x400000) as u32
        }
    } else if e == 0 {
        s
    } else {
        let sig = m + 0x10000000000000;
        if e >= 1151 {
            s + 0x7f800000
        } else if e >= 897 {
            let rounded = rne_u64(sig, 29);
            proof {
                assert(sig as nat / pow2(29) < pow2(24)) by {
                    lemma_pow2_adds(29, 24);
                    lemma_pow2_pos(29);
                    vstd::arithmetic::div_mod::lemma_multiply_divide_lt(
                        sig as int,
                        pow2(29) as int,
                        pow2(24) as int,
                    );
                }
                assert(sig as nat / pow2(29) >= pow2(23)) by {
                    lemma_pow2_pos(29);
                    vstd::arithmetic::div_mod::lemma_div_is_ordered(
                        pow2(52) as int,
                        sig as int,
                        pow2(29) as int,
                    );
                    lemma_pow2_subtracts(29, 52);
                }
            }
            if rounded == 0x1000000 {
                if e == 1150 {
                    s + 0x7f800000
                } else {
                    s + ((e - 895) as u32) * 0x800000
                }
            } else {
                s + ((e - 896) as u32) * 0x800000 + ((rounded as u32) - 0x800000)
            }
        } else if e >= 873 {
            let k = 926 - e;
            let rounded = rne_u64(sig, k);
            proof {
                assert(sig as nat / pow2(k as nat) < pow2(23)) by {
                    lemma_pow2_pos(k as nat);
                    vstd::arithmetic::div_mod::lemma_div_is_ordered_by_denominator(
                        sig as int,
                        pow2(30) as int,
                        pow2(k as nat) as int,
                    );
                    if 30 < k {
                        lemma_pow2_strictly_increases(30, k as nat);
                    }
                    lemma_pow2_adds(30, 23);
                    lemma_pow2_pos(30);
                    vstd::arithmetic::div_mod::lemma_multiply_divide_lt(
                        sig as int,
                        pow2(30) as int,
                        pow2(23) as int,
                    );
                }
            }
            s + (rounded as u32)
        } else {
            s
        }
    }
}

} // verus!

verus! {

/// The binary64 bit pattern that reading an element with unsigned encoding
/// `v` as a number yields: signed kinds go through their two's-complement
/// reading, integer kinds of width 32 bits or less convert exactly, the
/// 64-bit kinds round to nearest (ties to even), Float32 widens exactly and
/// Float64 is returned as stored.
pub open spec fn number_bits_of_elem(kind: TypedArrayKind, v: nat) -> u64
    recommends
        v < pow256(kind.width()),
{
    match kind {
        TypedArrayKind::SInt8 => f64_encode_int(to_signed(v, 1)),
        TypedArrayKind::SInt16 => f64_encode_int(to_signed(v, 2)),
        TypedArrayKind::SInt32 => f64_encode_int(to_signed(v, 4)),
        TypedArrayKind::SInt64 => f64_encode_int(to_signed(v, 8)),
        TypedArrayKind::UInt8 => f64_encode_nat(v),
        TypedArrayKind::UInt16 => f64_encode_nat(v),
        TypedArrayKind::UInt32 => f64_encode_nat(v),
        TypedArrayKind::UInt64 => f64_encode_nat(v),
        TypedArrayKind::Float32 => f32_to_f64_bits(v as u32),
        TypedArrayKind::Float64 => v as u64,
    }
}

/// The unsigned element encoding that writing the number `bits` into an
/// element of `kind` stores: integer kinds truncate toward zero and wrap to
/// the element width, Float32 rounds to the nearest binary32 value and
/// Float64 stores the pattern as given.
pub open spec fn elem_of_number_bits(kind: TypedArrayKind, bits: u64) -> nat {
    match kind {
        TypedArrayKind::Float32 => f64_to_f32_bits(bits) as nat,
        TypedArrayKind::Float64 => bits as nat,
        _ => number_to_uint(bits, kind.width()),
    }
}

} // verus!

verus! {

/// The fields of the encoding of a positive integer below `2^53`: the sign
/// is clear, the pattern is finite, and truncating it recovers the integer
/// exactly.
proof fn lemma_encode_fields(v: nat)
    requires
        1 <= v < pow2(53),
    ensures
        f64_sign(f64_encode_nat(v)) == 0,
        f64_is_finite(f64_encode_nat(v)),
        f64_trunc_abs(f64_encode_nat(v)) == v,
        f64_encode_nat(v) < pow2(63),
{
    lemma2_to64();
    lemma2_to64_rest();
    let p = msb(v);
    lemma_msb_bounds(v);
    assert(p <= 52) by {
        if p >= 53 {
            if 53 < p {
                lemma_pow2_strictly_increases(53, p);
            }
            assert(pow2(53) <= pow2(p) <= v);
        }
    }
    let k = pow2((52 - p) as nat);
    lemma_pow2_pos((52 - p) as nat);
    assert(pow2(p) * k == pow2(52)) by {
        lemma_pow2_adds(p, (52 - p) as nat);
    }
    assert(pow2(p + 1) * k == pow2(53)) by {
        lemma_pow2_adds(p + 1, (52 - p) as nat);
    }
    assert(v * k >= pow2(p) * k) by (nonlinear_arith)
        requires
            v >= pow2(p),
            k > 0,
    ;
    assert(v * k < pow2(p + 1) * k) by (nonlinear_arith)
        requires
            v < pow2(p + 1),
            k > 0,
    ;
    let m = (v * k - pow2(52)) as nat;
    let e = (1023 + p) as nat;
    let bits_val = e * pow2(52) + m;
    assert(f64_encode_nat(v) == bits_val as u64);
    assert(e * pow2(52) <= 1075 * pow2(52)) by {
        vstd::arithmetic::mul::lemma_mul_inequality(e as int, 1075, pow2(52) as int);
    }
    assert(bits_val < pow2(63));
    let bits = bits_val as u64;
    assert(bits / 0x10000000000000 == e) by {
        vstd::arithmetic::div_mod::lemma_div_multiples_vanish_fancy(
            e as int,
            m as int,
            pow2(52) as int,
        );
        vstd::arithmetic::mul::lemma_mul_is_commutative(e as int, pow2(52) as int);
    }
    assert(f64_exp(bits) == e) by {
        vstd::arithmetic::div_mod::lemma_small_mod(e, 0x800);
    }
    assert(f64_frac(bits) == m) by {
        vstd::arithmetic::div_mod::lemma_mod_multiples_vanish(
            e as int,
            m as int,
            pow2(52) as int,
        );
        vstd::arithmetic::div_mod::lemma_small_mod(m, pow2(52));
    }
    assert(f64_sign(bits) == 0) by {
        vstd::arithmetic::div_mod::lemma_basic_div(bits as int, pow2(63) as int);
    }
    let sig = f64_frac(bits) + 0x10000000000000;
    assert(sig == v * k);
    if p < 52 {
        assert(e < 1075);
        assert(1075 - e == 52 - p);
        assert(f64_trunc_abs(bits) == (v * k) / k);
        assert((v * k) / k == v) by {
            vstd::arithmetic::div_mod::lemma_div_multiples_vanish(v as int, k as int);
            vstd::arithmetic::mul::lemma_mul_is_commutative(v as int, k as int);
        }
    } else {
        assert(k == 1);
        assert(e == 1075);
        assert(v * 1 == v) by {
            vstd::arithmetic::mul::lemma_mul_basics(v as int);
        }
        assert(f64_trunc_abs(bits) == sig * pow2(0));
        assert(sig * pow2(0) == sig) by {
            vstd::arithmetic::mul::lemma_mul_basics(sig as int);
        }
    }
}

/// Truncating the encoding of an integer below `2^53` recovers the
/// integer: conversion to the host's numeric representation is exact there.
pub proof fn lemma_trunc_encode_exact(v: nat)
    requires
        v < pow2(53),
    ensures
        number_to_uint64(f64_encode_nat(v)) == v,
{
    lemma2_to64();
    lemma2_to64_rest();
    if v == 0 {
        assert(f64_encode_nat(0) == 0);
        assert(f64_exp(0) == 0);
        assert(f64_trunc_abs(0) == 0);
        vstd::arithmetic::div_mod::lemma_small_mod(0, pow2(64));
    } else {
        lemma_encode_fields(v);
        let bits = f64_encode_nat(v);
        lemma_pow2_strictly_increases(53, 64);
        vstd::arithmetic::div_mod::lemma_small_mod(v, pow2(64));
    }
}

/// The same for a signed integer of magnitude below `2^53`: truncating its
/// encoding recovers the integer, wrapped to 64 bits two's complement.
pub proof fn lemma_trunc_encode_exact_int(x: int)
    requires
        -pow2(53) < x < pow2(53),
    ensures
        number_to_uint64(f64_encode_int(x)) == if x >= 0 {
            x
        } else {
            x + pow2(64)
        },
{
    lemma2_to64();
    lemma2_to64_rest();
    if x >= 0 {
        lemma_trunc_encode_exact(x as nat);
    } else {
        let v = (-x) as nat;
        lemma_encode_fields(v);
        let inner = f64_encode_nat(v);
        let bits = f64_encode_int(x);
        assert(bits == (0x8000000000000000 + inner) as u64);
        assert(bits / 0x8000000000000000 == 1) by {
            vstd::arithmetic::div_mod::lemma_div_multiples_vanish_fancy(
                1,
                inner as int,
                pow2(63) as int,
            );
            vstd::arithmetic::mul::lemma_mul_basics(pow2(63) as int);
        }
        assert(f64_sign(bits) == 1);
        assert(bits / 0x10000000000000 == 0x800 + inner / 0x10000000000000) by {
            vstd::arithmetic::div_mod::lemma_hoist_over_denominator(
                inner as int,
                0x800,
                pow2(52),
            );
            assert(0x800 * pow2(52) == pow2(63)) by {
                lemma_pow2_adds(11, 52);
            }
        }
        assert(f64_exp(bits) == f64_exp(inner)) by {
            vstd::arithmetic::div_mod::lemma_mod_multiples_vanish(
                1,
                (inner / 0x10000000000000) as int,
                0x800,
            );
        }
        assert(f64_frac(bits) == f64_frac(inner)) by {
            assert(pow2(63) == 0x800 * pow2(52)) by {
                lemma_pow2_adds(11, 52);
            }
            vstd::arithmetic::div_mod::lemma_mod_multiples_vanish(
                0x800,
                inner as int,
                pow2(52) as int,
            );
        }
        assert(f64_trunc_abs(bits) == f64_trunc_abs(inner));
        assert(f64_trunc_abs(bits) == v);
        lemma_pow2_strictly_increases(53, 64);
        vstd::arithmetic::div_mod::lemma_small_mod(v, pow2(64));
        vstd::arithmetic::div_mod::lemma_small_mod((pow2(64) - v) as nat, pow2(64));
    }
}

} // verus!

verus! {

/// The fields of a binary64 pattern assembled from its parts.
proof fn lemma_f64_fields(s: nat, e: nat, f: nat)
    requires
        s <= 1,
        e < 0x800,
        f < 0x10000000000000,
    ensures
        s * 0x8000000000000000 + e * 0x10000000000000 + f < 0x10000000000000000,
        f64_sign((s * 0x8000000000000000 + e * 0x10000000000000 + f) as u64) == s,
        f64_exp((s * 0x8000000000000000 + e * 0x10000000000000 + f) as u64) == e,
        f64_frac((s * 0x8000000000000000 + e * 0x10000000000000 + f) as u64) == f,
{
    lemma2_to64();
    lemma2_to64_rest();
    let top = (s * 0x800 + e) as int;
    assert(s * 0x8000000000000000 + e * 0x10000000000000 == top * 0x10000000000000)
        by (nonlinear_arith)
        requires
            top == s * 0x800 + e,
    ;
    let bits = s * 0x8000000000000000 + e * 0x10000000000000 + f;
    assert(bits < 0x10000000000000000);
    assert(bits as int / 0x10000000000000 == top) by {
        vstd::arithmetic::div_mod::lemma_div_multiples_vanish_fancy(
            top,
            f as int,
            0x10000000000000,
        );
        vstd::arithmetic::mul::lemma_mul_is_commutative(top, 0x10000000000000);
    }
    assert(top % 0x800 == e) by {
        vstd::arithmetic::div_mod::lemma_mod_multiples_vanish(s as int, e as int, 0x800);
        vstd::arithmetic::div_mod::lemma_small_mod(e, 0x800);
    }
    assert(bits as int % 0x10000000000000 == f) by {
        vstd::arithmetic::div_mod::lemma_mod_multiples_vanish(top, f as int, 0x10000000000000);
        vstd::arithmetic::div_mod::lemma_small_mod(f, 0x10000000000000);
    }
    assert(e * 0x10000000000000 + f < 0x8000000000000000) by {
        vstd::arithmetic::mul::lemma_mul_inequality(e as int, 0x7ff, 0x10000000000000);
    }
    assert(bits as int / 0x8000000000000000 == s) by {
        vstd::arithmetic::div_mod::lemma_div_multiples_vanish_fancy(
            s as int,
            (e * 0x10000000000000 + f) as int,
            0x8000000000000000,
        );
        vstd::arithmetic::mul::lemma_mul_is_commutative(s as int, 0x8000000000000000);
    }
}

/// Narrowing a widened binary32 pattern gives the pattern back, for every
/// pattern but a signaling NaN (the narrow always yields a quiet NaN).
/// Reading a Float32 element as a number and writing that number back thus
/// stores the same element again.
pub proof fn lemma_f32_widen_narrow_identity(b: u32)
    requires
        !(f32_exp(b) == 0xff && 0 < f32_frac(b) < 0x400000),
    ensures
        f64_to_f32_bits(f32_to_f64_bits(b)) == b,
{
    lemma2_to64();
    lemma2_to64_rest();
    let s = f32_sign(b);
    let e = f32_exp(b);
    let m = f32_frac(b);
    assert(s <= 1 && e < 0x100 && m < 0x800000);
    assert(b == s * 0x80000000 + e * 0x800000 + m) by {
        vstd::arithmetic::div_mod::lemma_fundamental_div_mod(b as int, 0x800000);
        vstd::arithmetic::div_mod::lemma_fundamental_div_mod((b as int) / 0x800000, 0x100);
        assert((b as int / 0x800000) / 0x100 == b as int / 0x80000000) by {
            vstd::arithmetic::div_mod::lemma_div_denominator(b as int, 0x800000, 0x100);
        }
        assert((s * 0x100 + e) * 0x800000 == s * 0x80000000 + e * 0x800000) by (nonlinear_arith);
    }
    if e == 0xff {
        lemma_f64_fields(s, 0x7ff, (m * 0x20000000) as nat);
        let wide = (s * 0x8000000000000000 + 0x7ff0000000000000 + m * 0x20000000) as u64;
        assert(f32_to_f64_bits(b) == wide);
        if m == 0 {
            assert(f64_to_f32_bits(wide) == (s * 0x80000000 + 0x7f800000) as u32);
        } else {
            assert(m >= 0x400000);
            assert(m * 0x20000000 / 0x20000000 == m) by {
                vstd::arithmetic::div_mod::lemma_div_by_multiple(m as int, 0x20000000);
                vstd::arithmetic::mul::lemma_mul_is_commutative(m as int, 0x20000000);
            }
            assert(m % 0x400000 == m - 0x400000) by {
                vstd::arithmetic::div_mod::lemma_mod_sub_multiples_vanish(m as int, 0x400000);
                vstd::arithmetic::div_mod::lemma_small_mod((m - 0x400000) as nat, 0x400000);
            }
            assert(f64_to_f32_bits(wide) == (s * 0x80000000 + 0x7fc00000 + (m - 0x400000)) as u32);
        }
    } else if e == 0 && m == 0 {
        lemma_f64_fields(s, 0, 0);
        assert(f32_to_f64_bits(b) == (s * 0x8000000000000000) as u64);
        assert(f64_to_f32_bits((s * 0x8000000000000000) as u64) == (s * 0x80000000) as u32);
    } else if e == 0 {
        let p = msb(m);
        lemma_msb_bounds(m);
        assert(p <= 22) by {
            if p >= 23 {
                if 23 < p {
                    lemma_pow2_strictly_increases(23, p);
                }
                assert(pow2(23) <= pow2(p) <= m);
            }
        }
        let k = pow2((52 - p) as nat);
        lemma_pow2_pos((52 - p) as nat);
        lemma_pow2_pos(p);
        assert(pow2(p) * k == pow2(52)) by {
            lemma_pow2_adds(p, (52 - p) as nat);
        }
        let f = ((m - pow2(p)) * k) as nat;
        assert(f < pow2(52)) by {
            assert((m - pow2(p)) * k < pow2(p) * k) by (nonlinear_arith)
                requires
                    m - pow2(p) < pow2(p),
                    k > 0,
            ;
        }
        lemma_f64_fields(s, (874 + p) as nat, f);
        let wide = (s * 0x8000000000000000 + (874 + p) * 0x10000000000000 + f) as u64;
        assert(f32_to_f64_bits(b) == wide);
        let e64 = (874 + p) as nat;
        assert(873 <= e64 < 897);
        let kk = (926 - e64) as nat;
        assert(kk == (52 - p) as nat);
        let sig = (f + 0x10000000000000) as nat;
        assert(sig == m * k) by (nonlinear_arith)
            requires
                sig == f + 0x10000000000000,
                m >= pow2(p),
                f == (m - pow2(p)) * k,
                pow2(p) * k == 0x10000000000000,
        ;
        assert(sig / k == m && sig % k == 0) by {
            vstd::arithmetic::div_mod::lemma_div_by_multiple(m as int, k as int);
            vstd::arithmetic::div_mod::lemma_mod_multiples_basic(m as int, k as int);
            vstd::arithmetic::mul::lemma_mul_is_commutative(m as int, k as int);
        }
        assert(rne(sig, kk) == m) by {
            lemma_pow2_pos((kk - 1) as nat);
        }
        assert(f64_to_f32_bits(wide) == (s * 0x80000000 + m) as u32);
    } else {
        lemma_f64_fields(s, (e + 896) as nat, (m * 0x20000000) as nat);
        let wide = (s * 0x8000000000000000 + (e + 896) * 0x10000000000000 + m * 0x20000000) as u64;
        assert(f32_to_f64_bits(b) == wide);
        let e64 = (e + 896) as nat;
        assert(897 <= e64 <= 1150);
        let sig = (m * 0x20000000 + 0x10000000000000) as nat;
        assert(sig == (m + 0x800000) * 0x20000000) by (nonlinear_arith)
            requires
                sig == m * 0x20000000 + 0x10000000000000,
        ;
        assert(sig / 0x20000000 == m + 0x800000 && sig % 0x20000000 == 0) by {
            vstd::arithmetic::div_mod::lemma_div_by_multiple((m + 0x800000) as int, 0x20000000);
            vstd::arithmetic::div_mod::lemma_mod_multiples_basic(
                (m + 0x800000) as int,
                0x20000000,
            );
            vstd::arithmetic::mul::lemma_mul_is_commutative((m + 0x800000) as int, 0x20000000);
        }
        assert(rne(sig, 29) == m + 0x800000);
        assert(m + 0x800000 != 0x1000000);
        assert(f64_to_f32_bits(wide) == (s * 0x80000000 + (e64 - 896) * 0x800000 + m) as u32);
        assert((e64 - 896) * 0x800000 == e * 0x800000);
    }
}

} // verus!
