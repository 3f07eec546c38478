//! Storage-level E4M3 quantization with a per-block single-precision scale.
//!
//! This is a storage format: weights are held on the host as one E4M3 byte per element plus one
//! scale per block (default: one scale per tensor, or per expert), and expanded to half
//! precision during upload.
//!
//! E4M3: 1 sign, 4 exponent and 3 mantissa bits, bias 7. The range is [-448, 448]; there is no
//! infinity. The all-ones pattern (0x7f / 0xff) is NaN, and exponent `0b1111` with a smaller
//! mantissa encodes the normal values 256 to 448.

use vstd::prelude::*;

use vstd::arithmetic::power2::lemma2_to64;
use vstd::arithmetic::power2::lemma_pow2_adds;
use vstd::arithmetic::power2::lemma_pow2_pos;
use vstd::arithmetic::power2::lemma_pow2_strictly_increases;
use vstd::arithmetic::power2::pow2;

use crate::config::F32Bits;
use crate::float_bits::half_even;
use crate::float_bits::lemma_exact_rounds;
use crate::float_bits::lemma_magnitude_increases;
use crate::float_bits::lemma_magnitude_linear;
use crate::float_bits::lemma_round_stretch;
use crate::float_bits::lemma_rounds_to_unique;
use crate::float_bits::lemma_saturate;
use crate::float_bits::magnitude;
use crate::float_bits::round_shift;
use crate::float_bits::rounds_to;
use crate::fp16::finite32;
use crate::fp16::lemma_underflow;
use crate::fp16::mag32;
use crate::fp16::neg32;
use crate::fp16::value32;

verus! {

/// An E4M3 pattern without its sign.
pub open spec fn mag8(q: u8) -> nat {
    (q % 0x80) as nat
}

pub open spec fn neg8(q: u8) -> bool {
    q >= 0x80
}

/// `q` is `x` rounded to E4M3: to nearest, ties to even, overflow saturates at 448. NaN and the
/// infinities become NaN. The sign is kept.
pub open spec fn rounded_to_e4m3(x: F32Bits, q: u8) -> bool {
    &&& neg8(q) == neg32(x)
    &&& if finite32(x) {
        rounds_to(value32(x), 8, pow2(140), 0x7e, mag8(q))
    } else {
        mag8(q) == 0x7f
    }
}

/// `x` is the E4M3 pattern `q` in single precision: the same sign and value, or NaN.
pub open spec fn expanded_e4m3(q: u8, x: F32Bits) -> bool {
    &&& neg32(x) == neg8(q)
    &&& if mag8(q) < 0x7f {
        finite32(x) && value32(x) == magnitude(8, mag8(q)) * pow2(140)
    } else {
        mag32(x) == 0x7fc0_0000
    }
}

/// Converts to E4M3 bits (round-to-nearest-even; NaN and infinities become NaN, overflow
/// saturates to 448, underflow flushes to zero).
#[must_use]
pub fn f32_to_e4m3(x: F32Bits) -> (q: u8)
    ensures
        rounded_to_e4m3(x, q),
{
    let sign: u8 = if x >= 0x8000_0000 {
        0x80
    } else {
        0
    };
    let mag: u32 = x % 0x8000_0000;
    if mag >= 0x7f80_0000 {
        return sign + 0x7f;
    }
    let n: u8 = round_finite(mag);
    sign + n
}

fn round_finite(mag: u32) -> (n: u8)
    requires
        mag < 0x7f80_0000,
    ensures
        n <= 0x7e,
        rounds_to(magnitude(0x80_0000, mag as nat), 8, pow2(140), 0x7e, n as nat),
{
    let exp: u32 = mag / 0x80_0000;
    let mant: u32 = mag % 0x80_0000;
    if exp >= 136 {
        proof {
            lemma_overflow(mag as nat, exp as nat, mant as nat);
        }
        return 0x7e;
    }
    if exp < 117 {
        proof {
            lemma_zero(mag as nat, exp as nat, mant as nat);
        }
        return 0;
    }
    let m: u32 = mant + 0x80_0000;
    if exp <= 120 {
        // Subnormal: the unit is 2^-9.
        let r: u32 = round_shift(m, 141 - exp);
        proof {
            lemma_subnormal(mag as nat, exp as nat, m as nat, r as nat);
        }
        return r as u8;
    }
    let r: u32 = round_shift(m, 20);
    proof {
        lemma_normal(mag as nat, exp as nat, m as nat, r as nat);
    }
    let n: u32 = (exp - 121) * 8 + r;
    if n > 0x7e {
        proof {
            lemma_pow2_pos(140);
            lemma_saturate(
                magnitude(0x80_0000, mag as nat),
                8,
                pow2(140),
                0x80,
                0x7e,
                n as nat,
            );
        }
        return 0x7e;
    }
    n as u8
}

proof fn lemma_overflow(mag: nat, exp: nat, mant: nat)
    requires
        136 <= exp < 255,
        mant < 0x80_0000,
        mag == exp * 0x80_0000 + mant,
    ensures
        rounds_to(magnitude(0x80_0000, mag), 8, pow2(140), 0x7e, 0x7e),
{
    lemma2_to64();
    let v = magnitude(0x80_0000, mag);
    assert(mag / 0x80_0000 == exp && mag % 0x80_0000 == mant);
    let q = pow2((exp - 1) as nat);
    if exp > 136 {
        lemma_pow2_strictly_increases(135, (exp - 1) as nat);
    }
    lemma_magnitude_linear(8, 15, 14);
    lemma_pow2_adds(14, 140);
    lemma_pow2_adds(19, 135);
    assert((15 - 1) * 8 + 14 == 0x7e);
    let top = magnitude(8, 0x7e);
    assert(v >= 0x80_0000 * pow2(135)) by (nonlinear_arith)
        requires
            v == (0x80_0000 + mant) * q,
            q >= pow2(135),
    ;
    assert(top * pow2(140) == 14 * pow2(154)) by (nonlinear_arith)
        requires
            top == 14 * pow2(14),
            pow2(14) * pow2(140) == pow2(154),
    ;
    lemma_pow2_pos(135);
    assert(top * pow2(140) < 0x80_0000 * pow2(135)) by (nonlinear_arith)
        requires
            top * pow2(140) == 14 * pow2(154),
            pow2(154) == 0x8_0000 * pow2(135),
            pow2(135) > 0,
    ;
    lemma_magnitude_increases(8, 0x7d, 0x7e);
    lemma_pow2_pos(140);
    let below = magnitude(8, 0x7d);
    assert((below + top) * pow2(140) < 2 * (top * pow2(140))) by (nonlinear_arith)
        requires
            below < top,
            pow2(140) > 0,
    ;
}

proof fn lemma_zero(mag: nat, exp: nat, mant: nat)
    requires
        exp < 117,
        mant < 0x80_0000,
        mag == exp * 0x80_0000 + mant,
    ensures
        rounds_to(magnitude(0x80_0000, mag), 8, pow2(140), 0x7e, 0),
{
    lemma_underflow(mag, exp, mant, 117, 140);
    let sum = magnitude(8, 0) + magnitude(8, 1);
    assert(sum * pow2(140) == pow2(140)) by (nonlinear_arith)
        requires
            sum == 1,
    ;
}

proof fn lemma_subnormal(mag: nat, exp: nat, m: nat, r: nat)
    requires
        117 <= exp <= 120,
        0x80_0000 <= m < 0x100_0000,
        mag == exp * 0x80_0000 + (m - 0x80_0000),
        half_even(m, pow2((141 - exp) as nat), r),
        r * pow2((141 - exp) as nat) <= m + pow2((141 - exp) as nat) / 2,
    ensures
        rounds_to(magnitude(0x80_0000, mag), 8, pow2(140), 0x7e, r),
        r <= 8,
{
    lemma2_to64();
    let shift = (141 - exp) as nat;
    let s = pow2(shift);
    let p = pow2((exp - 1) as nat);
    lemma_pow2_pos(shift);
    lemma_pow2_pos((exp - 1) as nat);
    lemma_pow2_adds(shift, (exp - 1) as nat);
    if shift > 21 {
        lemma_pow2_strictly_increases(21, shift);
    }
    assert(r <= 8) by (nonlinear_arith)
        requires
            r * s <= m + s / 2,
            m < 0x100_0000,
            s >= 0x20_0000,
    ;
    assert(mag / 0x80_0000 == exp && mag % 0x80_0000 == m - 0x80_0000);
    assert(pow2(0) * pow2(140) == pow2(140)) by (nonlinear_arith)
        requires
            pow2(0) == 1,
    ;
    lemma_round_stretch(m * p, m, p, s, 8, pow2(140), 0x7e, 1, r);
}

proof fn lemma_normal(mag: nat, exp: nat, m: nat, r: nat)
    requires
        121 <= exp <= 135,
        0x80_0000 <= m < 0x100_0000,
        mag == exp * 0x80_0000 + (m - 0x80_0000),
        half_even(m, pow2(20), r),
        r * pow2(20) <= m + pow2(20) / 2,
    ensures
        ({
            let n = ((exp - 121) * 8 + r) as nat;
            &&& r <= 16
            &&& rounds_to(magnitude(0x80_0000, mag), 8, pow2(140), 0x80, n)
            &&& n <= 0x7e ==> rounds_to(magnitude(0x80_0000, mag), 8, pow2(140), 0x7e, n)
        }),
{
    lemma2_to64();
    let s = pow2(20);
    let p = pow2((exp - 1) as nat);
    let e = (exp - 120) as nat;
    lemma_pow2_pos((exp - 1) as nat);
    lemma_pow2_adds((e - 1) as nat, 140);
    lemma_pow2_adds(20, (exp - 1) as nat);
    assert(r <= 16);
    assert(mag / 0x80_0000 == exp && mag % 0x80_0000 == m - 0x80_0000);
    lemma_round_stretch(m * p, m, p, s, 8, pow2(140), 0x80, e, r);
}

/// Expands E4M3 bits to single precision (exact; NaN stays NaN).
#[must_use]
pub fn e4m3_to_f32(q: u8) -> (x: F32Bits)
    ensures
        expanded_e4m3(q, x),
{
    let sign: u32 = if q >= 0x80 {
        0x8000_0000
    } else {
        0
    };
    let mag: u8 = q % 0x80;
    let e: u32 = (mag / 8) as u32;
    let m: u32 = (mag % 8) as u32;
    proof {
        lemma2_to64();
    }
    if e == 0 {
        if m == 0 {
            assert(0 * pow2(140) == 0);
            return sign;
        }
        // The leading bit of the mantissa selects the exponent.
        let (exp, frac): (u32, u32) = if m == 1 {
            (118, 0)
        } else if m < 4 {
            (119, (m - 2) * 0x40_0000)
        } else {
            (120, (m - 4) * 0x20_0000)
        };
        let x: u32 = sign + exp * 0x80_0000 + frac;
        proof {
            let mg = (exp * 0x80_0000 + frac) as nat;
            assert(mag32(x) == mg);
            assert(mg / 0x80_0000 == exp && mg % 0x80_0000 == frac);
            let p = pow2((exp - 1) as nat);
            lemma_pow2_adds((exp - 1) as nat, (141 - exp) as nat);
            assert((0x80_0000 + frac) * p == m * pow2(140)) by (nonlinear_arith)
                requires
                    0x80_0000 + frac == m * pow2((141 - exp) as nat),
                    p * pow2((141 - exp) as nat) == pow2(140),
            ;
        }
        return x;
    }
    if mag == 0x7f {
        return sign + 0x7fc0_0000;
    }
    let x: u32 = sign + (e + 120) * 0x80_0000 + m * 0x10_0000;
    proof {
        let mg = ((e + 120) * 0x80_0000 + m * 0x10_0000) as nat;
        assert(mag32(x) == mg);
        assert(mg / 0x80_0000 == e + 120 && mg % 0x80_0000 == m * 0x10_0000);
        let p = pow2((e + 119) as nat);
        lemma_pow2_adds((e - 1) as nat, 140);
        lemma_pow2_adds((e + 119) as nat, 20);
        assert((0x80_0000 + m * 0x10_0000) * p == (8 + m) * pow2((e - 1) as nat) * pow2(140))
            by (nonlinear_arith)
            requires
                pow2((e - 1) as nat) * pow2(140) == p * 0x10_0000,
        ;
    }
    x
}

/// An E4M3 number survives the way to single precision and back, NaN included.
pub proof fn lemma_e4m3_round_trip(q: u8, x: F32Bits, back: u8)
    requires
        expanded_e4m3(q, x),
        rounded_to_e4m3(x, back),
    ensures
        back == q,
{
    lemma_pow2_pos(140);
    if mag8(q) < 0x7f {
        lemma_exact_rounds(8, pow2(140), 0x7e, mag8(q));
        lemma_rounds_to_unique(value32(x), 8, pow2(140), 0x7e, mag8(q), mag8(back));
    }
}

/// Expansion to single precision has one result for each pattern, bit for bit.
pub proof fn lemma_expanded_unique(q: u8, a: F32Bits, b: F32Bits)
    requires
        expanded_e4m3(q, a),
        expanded_e4m3(q, b),
    ensures
        a == b,
{
    if mag8(q) < 0x7f {
        if mag32(a) < mag32(b) {
            lemma_magnitude_increases(0x80_0000, mag32(a), mag32(b));
        } else if mag32(b) < mag32(a) {
            lemma_magnitude_increases(0x80_0000, mag32(b), mag32(a));
        }
    }
}

/// Conversion to E4M3 has one result for each number.
pub proof fn lemma_e4m3_unique(x: F32Bits, a: u8, b: u8)
    requires
        rounded_to_e4m3(x, a),
        rounded_to_e4m3(x, b),
    ensures
        a == b,
{
    lemma_pow2_pos(140);
    if finite32(x) {
        lemma_rounds_to_unique(value32(x), 8, pow2(140), 0x7e, mag8(a), mag8(b));
    }
}

} // verus!
