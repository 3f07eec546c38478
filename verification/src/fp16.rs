//! Half-precision conversion on bit patterns.
//!
//! Prepares half-precision weights and activations for the device. The device kernels convert
//! in the same way, so host and device agree on the exact bit patterns.

use vstd::prelude::*;

use vstd::arithmetic::power2::lemma2_to64;
use vstd::arithmetic::power2::lemma_pow2_adds;
use vstd::arithmetic::power2::lemma_pow2_pos;
use vstd::arithmetic::power2::lemma_pow2_strictly_increases;
use vstd::arithmetic::power2::pow2;

use crate::config::F32Bits;
use crate::float_bits::half_even;
use crate::float_bits::lemma_exact_rounds;
use crate::float_bits::lemma_magnitude_increases;
use crate::float_bits::lemma_magnitude_linear;
use crate::float_bits::lemma_round_stretch;
use crate::float_bits::lemma_rounds_to_unique;
use crate::float_bits::magnitude;
use crate::float_bits::round_shift;
use crate::float_bits::rounds_to;

verus! {

/// A single-precision pattern without its sign.
pub open spec fn mag32(x: F32Bits) -> nat {
    (x % 0x8000_0000) as nat
}

/// The sign bit is set.
pub open spec fn neg32(x: F32Bits) -> bool {
    x >= 0x8000_0000
}

/// Neither an infinity nor NaN.
pub open spec fn finite32(x: F32Bits) -> bool {
    mag32(x) < 0x7f80_0000
}

/// The absolute value in units of `2^-149`.
pub open spec fn value32(x: F32Bits) -> nat {
    magnitude(0x80_0000, mag32(x))
}

/// A half-width pattern without its sign.
pub open spec fn mag16(h: u16) -> nat {
    (h % 0x8000) as nat
}

pub open spec fn neg16(h: u16) -> bool {
    h >= 0x8000
}

/// `h` is `x` rounded to binary16: to nearest, ties to even, overflow to infinity. NaN becomes
/// the quiet NaN. The sign is kept.
pub open spec fn rounded_to_half(x: F32Bits, h: u16) -> bool {
    &&& neg16(h) == neg32(x)
    &&& if finite32(x) {
        rounds_to(value32(x), 1024, pow2(125), 0x7c00, mag16(h))
    } else if mag32(x) == 0x7f80_0000 {
        mag16(h) == 0x7c00
    } else {
        mag16(h) == 0x7e00
    }
}

/// `x` is the binary16 pattern `h` in single precision: the same sign and value, or the same
/// infinity or NaN.
pub open spec fn expanded_half(h: u16, x: F32Bits) -> bool {
    &&& neg32(x) == neg16(h)
    &&& if mag16(h) < 0x7c00 {
        finite32(x) && value32(x) == magnitude(1024, mag16(h)) * pow2(125)
    } else {
        mag32(x) == 0x7f80_0000 + (mag16(h) - 0x7c00) * 0x2000
    }
}

/// `h` is the upper half of `x`, rounded to nearest, ties to even.
pub open spec fn rounded_to_bf16(x: F32Bits, h: u16) -> bool {
    let top = x / 0x1_0000;
    let rem = x % 0x1_0000;
    h == if rem > 0x8000 || (rem == 0x8000 && top % 2 == 1) {
        (top + 1) % 0x1_0000
    } else {
        top as int
    }
}

/// Rounds a single-precision number to binary16 (round-to-nearest-even).
#[must_use]
pub fn f32_to_f16(x: F32Bits) -> (h: u16)
    ensures
        rounded_to_half(x, h),
{
    let sign: u16 = if x >= 0x8000_0000 {
        0x8000
    } else {
        0
    };
    let mag: u32 = x % 0x8000_0000;
    if mag > 0x7f80_0000 {
        // NaN keeps a payload bit, so it stays NaN.
        return sign + 0x7e00;
    }
    if mag == 0x7f80_0000 {
        return sign + 0x7c00;
    }
    let n: u16 = round_finite(mag);
    sign + n
}

fn round_finite(mag: u32) -> (n: u16)
    requires
        mag < 0x7f80_0000,
    ensures
        n <= 0x7c00,
        rounds_to(magnitude(0x80_0000, mag as nat), 1024, pow2(125), 0x7c00, n as nat),
{
    let exp: u32 = mag / 0x80_0000;
    let mant: u32 = mag % 0x80_0000;
    if exp >= 143 {
        proof {
            lemma_overflow(mag as nat, exp as nat, mant as nat);
        }
        return 0x7c00;
    }
    if exp < 102 {
        proof {
            lemma_zero(mag as nat, exp as nat, mant as nat);
        }
        return 0;
    }
    let m: u32 = mant + 0x80_0000;
    if exp <= 112 {
        // Subnormal: the unit is 2^-24.
        let r: u32 = round_shift(m, 126 - exp);
        proof {
            lemma_subnormal(mag as nat, exp as nat, m as nat, r as nat);
        }
        return r as u16;
    }
    let r: u32 = round_shift(m, 13);
    proof {
        lemma_normal(mag as nat, exp as nat, m as nat, r as nat);
    }
    ((exp - 113) * 1024 + r) as u16
}

proof fn lemma_zero(mag: nat, exp: nat, mant: nat)
    requires
        exp < 102,
        mant < 0x80_0000,
        mag == exp * 0x80_0000 + mant,
    ensures
        rounds_to(magnitude(0x80_0000, mag), 1024, pow2(125), 0x7c00, 0),
{
    lemma_underflow(mag, exp, mant, 102, 125);
    let sum = magnitude(1024, 0) + magnitude(1024, 1);
    assert(sum * pow2(125) == pow2(125)) by (nonlinear_arith)
        requires
            sum == 1,
    ;
}

proof fn lemma_subnormal(mag: nat, exp: nat, m: nat, r: nat)
    requires
        102 <= exp <= 112,
        0x80_0000 <= m < 0x100_0000,
        mag == exp * 0x80_0000 + (m - 0x80_0000),
        half_even(m, pow2((126 - exp) as nat), r),
        r * pow2((126 - exp) as nat) <= m + pow2((126 - exp) as nat) / 2,
    ensures
        rounds_to(magnitude(0x80_0000, mag), 1024, pow2(125), 0x7c00, r),
        r <= 1024,
{
    lemma2_to64();
    let shift = (126 - exp) as nat;
    let s = pow2(shift);
    let p = pow2((exp - 1) as nat);
    lemma_pow2_pos(shift);
    lemma_pow2_pos((exp - 1) as nat);
    lemma_pow2_adds(shift, (exp - 1) as nat);
    if shift > 14 {
        lemma_pow2_strictly_increases(14, shift);
    }
    assert(r <= 1024) by (nonlinear_arith)
        requires
            r * s <= m + s / 2,
            m < 0x100_0000,
            s >= 0x4000,
    ;
    assert(mag / 0x80_0000 == exp && mag % 0x80_0000 == m - 0x80_0000);
    assert(pow2(0) * pow2(125) == pow2(125)) by (nonlinear_arith)
        requires
            pow2(0) == 1,
    ;
    lemma_round_stretch(m * p, m, p, s, 1024, pow2(125), 0x7c00, 1, r);
}

proof fn lemma_normal(mag: nat, exp: nat, m: nat, r: nat)
    requires
        113 <= exp <= 142,
        0x80_0000 <= m < 0x100_0000,
        mag == exp * 0x80_0000 + (m - 0x80_0000),
        half_even(m, pow2(13), r),
        r * pow2(13) <= m + pow2(13) / 2,
    ensures
        rounds_to(
            magnitude(0x80_0000, mag),
            1024,
            pow2(125),
            0x7c00,
            ((exp - 113) * 1024 + r) as nat,
        ),
        r <= 2048,
{
    lemma2_to64();
    let s = pow2(13);
    let p = pow2((exp - 1) as nat);
    let e = (exp - 112) as nat;
    lemma_pow2_pos((exp - 1) as nat);
    lemma_pow2_adds((e - 1) as nat, 125);
    lemma_pow2_adds(13, (exp - 1) as nat);
    assert(r <= 2048);
    assert(mag / 0x80_0000 == exp && mag % 0x80_0000 == m - 0x80_0000);
    lemma_round_stretch(m * p, m, p, s, 1024, pow2(125), 0x7c00, e, r);
}

proof fn lemma_overflow(mag: nat, exp: nat, mant: nat)
    requires
        143 <= exp < 255,
        mant < 0x80_0000,
        mag == exp * 0x80_0000 + mant,
    ensures
        rounds_to(magnitude(0x80_0000, mag), 1024, pow2(125), 0x7c00, 0x7c00),
{
    lemma2_to64();
    let v = magnitude(0x80_0000, mag);
    assert(mag / 0x80_0000 == exp && mag % 0x80_0000 == mant);
    let q = pow2((exp - 1) as nat);
    if exp > 143 {
        lemma_pow2_strictly_increases(142, (exp - 1) as nat);
    }
    lemma_magnitude_linear(1024, 30, 2048);
    lemma_pow2_adds(29, 125);
    lemma_pow2_adds(12, 142);
    lemma_pow2_adds(154, 0);
    assert((30 - 1) * 1024 + 2048 == 0x7c00);
    let top = magnitude(1024, 0x7c00);
    assert(v >= 0x80_0000 * pow2(142)) by (nonlinear_arith)
        requires
            v == (0x80_0000 + mant) * q,
            q >= pow2(142),
    ;
    assert(top * pow2(125) == 2048 * pow2(154)) by (nonlinear_arith)
        requires
            top == 2048 * pow2(29),
            pow2(29) * pow2(125) == pow2(154),
    ;
    assert(top * pow2(125) == 0x80_0000 * pow2(142)) by (nonlinear_arith)
        requires
            top * pow2(125) == 2048 * pow2(154),
            pow2(154) == 4096 * pow2(142),
    ;
    lemma_magnitude_increases(1024, 0x7bff, 0x7c00);
    lemma_pow2_pos(125);
    let below = magnitude(1024, 0x7bff);
    assert((below + top) * pow2(125) < 2 * (top * pow2(125))) by (nonlinear_arith)
        requires
            below < top,
            pow2(125) > 0,
    ;
}

/// A value below `2^(limit + 22)` units is less than half of `2^scale`.
pub proof fn lemma_underflow(mag: nat, exp: nat, mant: nat, limit: nat, scale: nat)
    requires
        exp < limit,
        scale == limit + 23,
        limit >= 2,
        mant < 0x80_0000,
        mag == exp * 0x80_0000 + mant,
    ensures
        2 * magnitude(0x80_0000, mag) < pow2(scale),
{
    lemma2_to64();
    assert(mag / 0x80_0000 == exp && mag % 0x80_0000 == mant);
    let v = magnitude(0x80_0000, mag);
    lemma_pow2_adds(24, (limit - 2) as nat);
    lemma_pow2_adds(1, (limit + 22) as nat);
    lemma_pow2_pos((limit - 2) as nat);
    let b = pow2((limit - 2) as nat);
    if exp == 0 {
        assert(v < 0x100_0000 * b) by (nonlinear_arith)
            requires
                v < 0x80_0000,
                b >= 1,
        ;
    } else {
        let q = pow2((exp - 1) as nat);
        if exp - 1 < limit - 2 {
            lemma_pow2_strictly_increases((exp - 1) as nat, (limit - 2) as nat);
        }
        lemma_pow2_pos((exp - 1) as nat);
        assert(v < 0x100_0000 * b) by (nonlinear_arith)
            requires
                v == (0x80_0000 + mant) * q,
                mant < 0x80_0000,
                0 < q <= b,
        ;
    }
}

/// Expands a binary16 number to single precision (exact).
#[must_use]
pub fn f16_to_f32(h: u16) -> (x: F32Bits)
    ensures
        expanded_half(h, x),
{
    let sign: u32 = if h >= 0x8000 {
        0x8000_0000
    } else {
        0
    };
    let mag: u16 = h % 0x8000;
    let e: u32 = (mag / 0x400) as u32;
    let m: u32 = (mag % 0x400) as u32;
    proof {
        lemma2_to64();
    }
    if e == 0 {
        if m == 0 {
            assert(0 * pow2(125) == 0);
            return sign;
        }
        // Normalize the subnormal mantissa.
        let mut m2: u32 = m;
        let mut e2: u32 = 113;
        let ghost mut k: nat = 0;
        while m2 < 0x400
            invariant
                0 < m2 < 0x800,
                k <= 10,
                e2 == 113 - k,
                m2 == m * pow2(k),
                1 <= m < 0x400,
                k == 10 ==> m2 >= 0x400,
            decreases 0x800 - m2,
        {
            proof {
                lemma_pow2_adds(k, 1);
                lemma2_to64();
                assert(2 * m2 == m * pow2(k + 1)) by (nonlinear_arith)
                    requires
                        m2 == m * pow2(k),
                        pow2(k + 1) == pow2(k) * 2,
                ;
                if k + 1 == 10 {
                    assert(m * pow2(10) >= 0x400) by (nonlinear_arith)
                        requires
                            m >= 1,
                            pow2(10) == 0x400,
                    ;
                }
                k = k + 1;
            }
            m2 = m2 * 2;
            e2 = e2 - 1;
        }
        let frac: u32 = (m2 - 0x400) * 0x2000;
        let x: u32 = sign + e2 * 0x80_0000 + frac;
        proof {
            let mg = (e2 * 0x80_0000 + frac) as nat;
            assert(mag32(x) == mg);
            assert(mg / 0x80_0000 == e2 && mg % 0x80_0000 == frac);
            let q = pow2((e2 - 1) as nat);
            lemma_pow2_adds(k, (e2 - 1) as nat);
            lemma_pow2_adds(112, 13);
            assert(value32(x) == (m2 * 0x2000) * q);
            assert((m2 * 0x2000) * q == m * pow2(125)) by (nonlinear_arith)
                requires
                    m2 == m * pow2(k),
                    pow2(k) * q == pow2(112),
                    pow2(112) * 0x2000 == pow2(125),
            ;
        }
        return x;
    }
    if e == 0x1f {
        return sign + 0x7f80_0000 + m * 0x2000;
    }
    let x: u32 = sign + (e + 112) * 0x80_0000 + m * 0x2000;
    proof {
        let mg = ((e + 112) * 0x80_0000 + m * 0x2000) as nat;
        assert(mag32(x) == mg);
        assert(mg / 0x80_0000 == e + 112 && mg % 0x80_0000 == m * 0x2000);
        let q = pow2((e + 111) as nat);
        lemma_pow2_adds((e - 1) as nat, 125);
        lemma_pow2_adds((e + 111) as nat, 13);
        assert(value32(x) == (0x80_0000 + m * 0x2000) * q);
        assert((0x80_0000 + m * 0x2000) * q == (0x400 + m) * pow2((e - 1) as nat) * pow2(125))
            by (nonlinear_arith)
            requires
                pow2((e - 1) as nat) * pow2(125) == q * 0x2000,
        ;
    }
    x
}

/// Rounds a single-precision number to bfloat16 (round-to-nearest-even on the high 16 bits).
#[must_use]
pub fn f32_to_bf16(x: F32Bits) -> (h: u16)
    ensures
        rounded_to_bf16(x, h),
        finite32(x) ==> neg16(h) == neg32(x) && rounds_to(
            value32(x),
            128,
            pow2(16),
            0x7f80,
            mag16(h),
        ),
{
    let top: u32 = x / 0x1_0000;
    let rem: u32 = x % 0x1_0000;
    let up: bool = rem > 0x8000 || (rem == 0x8000 && top % 2 == 1);
    let h: u16 = if up {
        if top == 0xffff {
            0
        } else {
            (top + 1) as u16
        }
    } else {
        top as u16
    };
    proof {
        if finite32(x) {
            lemma_bf16(x, h);
        }
    }
    h
}

/// Rounding the upper half rounds the value.
proof fn lemma_bf16(x: F32Bits, h: u16)
    requires
        finite32(x),
        rounded_to_bf16(x, h),
    ensures
        neg16(h) == neg32(x),
        rounds_to(value32(x), 128, pow2(16), 0x7f80, mag16(h)),
{
    lemma2_to64();
    let mag = mag32(x);
    let exp = (mag / 0x80_0000) as nat;
    let mant = (mag % 0x80_0000) as nat;
    let e = if exp == 0 {
        1nat
    } else {
        exp
    };
    let m = if exp == 0 {
        mant
    } else {
        mant + 0x80_0000
    };
    let p = pow2((e - 1) as nat);
    lemma_pow2_pos((e - 1) as nat);
    lemma_pow2_adds((e - 1) as nat, 16);
    lemma_pow2_adds(16, (e - 1) as nat);
    let r = (mag16(h) - (e - 1) * 128) as nat;
    let top = x / 0x1_0000;
    let rem = x % 0x1_0000;
    assert(mag == 0x1_0000 * (top % 0x8000) + rem);
    assert(m == 0x1_0000 * (top % 0x8000 - (e - 1) * 128) + rem);
    assert(half_even(m, 0x1_0000, r));
    if exp == 0 {
        assert(value32(x) == m * p) by (nonlinear_arith)
            requires
                value32(x) == m,
                p == 1,
        ;
    }
    lemma_round_stretch(value32(x), m, p, 0x1_0000, 128, pow2(16), 0x7f80, e, r);
}

/// Expands a bfloat16 number to single precision (exact).
#[must_use]
pub fn bf16_to_f32(h: u16) -> (x: F32Bits)
    ensures
        x == h * 0x1_0000,
        neg32(x) == neg16(h),
        mag16(h) < 0x7f80 ==> finite32(x) && value32(x) == magnitude(128, mag16(h)) * pow2(16),
{
    let x: u32 = h as u32 * 0x1_0000;
    proof {
        lemma_bf16_value(h, x);
    }
    x
}

proof fn lemma_bf16_value(h: u16, x: F32Bits)
    requires
        x == h * 0x1_0000,
    ensures
        neg32(x) == neg16(h),
        mag16(h) < 0x7f80 ==> finite32(x) && value32(x) == magnitude(128, mag16(h)) * pow2(16),
{
    lemma2_to64();
    let n = mag16(h);
    assert(mag32(x) == n * 0x1_0000);
    if n >= 128 {
        let q = pow2((n / 128 - 1) as nat);
        assert(mag32(x) / 0x80_0000 == n / 128);
        assert(mag32(x) % 0x80_0000 == (n % 128) * 0x1_0000);
        assert((0x80_0000 + (n % 128) * 0x1_0000) * q == (128 + n % 128) * q * 0x1_0000)
            by (nonlinear_arith);
    }
}

/// A binary16 number survives the way to single precision and back, NaN aside.
pub proof fn lemma_half_round_trip(h: u16, x: F32Bits, back: u16)
    requires
        mag16(h) <= 0x7c00,
        expanded_half(h, x),
        rounded_to_half(x, back),
    ensures
        back == h,
{
    lemma_pow2_pos(125);
    if mag16(h) < 0x7c00 {
        lemma_exact_rounds(1024, pow2(125), 0x7c00, mag16(h));
        lemma_rounds_to_unique(value32(x), 1024, pow2(125), 0x7c00, mag16(h), mag16(back));
    }
}

/// Conversion to binary16 has one result for each number.
pub proof fn lemma_half_unique(x: F32Bits, a: u16, b: u16)
    requires
        rounded_to_half(x, a),
        rounded_to_half(x, b),
    ensures
        a == b,
{
    lemma_pow2_pos(125);
    if finite32(x) {
        lemma_rounds_to_unique(value32(x), 1024, pow2(125), 0x7c00, mag16(a), mag16(b));
    }
}

/// A bfloat16 number survives the way to single precision and back.
pub proof fn lemma_bf16_round_trip(h: u16, x: F32Bits, back: u16)
    requires
        x == h * 0x1_0000,
        rounded_to_bf16(x, back),
    ensures
        back == h,
{
}

/// A NaN stays NaN through binary16.
pub proof fn lemma_half_nan(x: F32Bits, h: u16)
    requires
        mag32(x) > 0x7f80_0000,
        rounded_to_half(x, h),
    ensures
        mag16(h) > 0x7c00,
{
}

/// Conversion to binary16 keeps the order of numbers of one sign.
pub proof fn lemma_half_monotone(x: F32Bits, y: F32Bits, a: u16, b: u16)
    requires
        finite32(x),
        finite32(y),
        value32(x) <= value32(y),
        rounded_to_half(x, a),
        rounded_to_half(y, b),
    ensures
        mag16(a) <= mag16(b),
{
    lemma_pow2_pos(125);
    crate::float_bits::lemma_rounding_monotone(
        value32(x),
        value32(y),
        1024,
        pow2(125),
        0x7c00,
        mag16(a),
        mag16(b),
    );
}

} // verus!
