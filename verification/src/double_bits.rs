//! Double-precision bit patterns: their order, and rounding to single precision.

use vstd::prelude::*;

use vstd::arithmetic::power2::lemma2_to64;
use vstd::arithmetic::power2::lemma2_to64_rest;
use vstd::arithmetic::power2::lemma_pow2_adds;
use vstd::arithmetic::power2::lemma_pow2_pos;
use vstd::arithmetic::power2::lemma_pow2_strictly_increases;
use vstd::arithmetic::power2::pow2;

use crate::config::F32Bits;
use crate::float_bits::half_even;
use crate::float_bits::lemma_magnitude_increases;
use crate::float_bits::lemma_magnitude_linear;
use crate::float_bits::lemma_round_stretch;
use crate::float_bits::lemma_rounds_to_unique;
use crate::float_bits::magnitude;
use crate::float_bits::round_shift64;
use crate::float_bits::rounds_to;
use crate::fp16::mag32;
use crate::fp16::neg32;

verus! {

/// A double-precision number as its bit pattern.
pub type F64Bits = u64;

/// The pattern without its sign.
pub open spec fn mag64(d: F64Bits) -> nat {
    (d % 0x8000_0000_0000_0000) as nat
}

/// The absolute value in units of `2^-1074`.
pub open spec fn value64(d: F64Bits) -> nat {
    magnitude(0x10_0000_0000_0000, mag64(d))
}

/// `x` is `d` rounded to single precision: to nearest, ties to even, overflow to infinity. NaN
/// becomes the quiet NaN. The sign is kept.
pub open spec fn rounded_to_single(d: F64Bits, x: F32Bits) -> bool {
    &&& neg32(x) == (d >= 0x8000_0000_0000_0000)
    &&& if mag64(d) < 0x7ff0_0000_0000_0000 {
        rounds_to(value64(d), 0x80_0000, pow2(925), 0x7f80_0000, mag32(x))
    } else if mag64(d) == 0x7ff0_0000_0000_0000 {
        mag32(x) == 0x7f80_0000
    } else {
        mag32(x) == 0x7fc0_0000
    }
}

/// `d` in single precision.
pub open spec fn single_of(d: F64Bits) -> F32Bits {
    choose|x: F32Bits| rounded_to_single(d, x)
}

/// Rounding to single precision has one result.
pub proof fn lemma_single_unique(d: F64Bits, a: F32Bits, b: F32Bits)
    requires
        rounded_to_single(d, a),
        rounded_to_single(d, b),
    ensures
        a == b,
{
    lemma_pow2_pos(925);
    if mag64(d) < 0x7ff0_0000_0000_0000 {
        lemma_rounds_to_unique(
            value64(d),
            0x80_0000,
            pow2(925),
            0x7f80_0000,
            mag32(a),
            mag32(b),
        );
    }
}

/// Rounds a double-precision number to single precision (round-to-nearest-even).
pub fn f64_to_f32(d: F64Bits) -> (x: F32Bits)
    ensures
        x == single_of(d),
        rounded_to_single(d, x),
{
    let sign: u32 = if d >= 0x8000_0000_0000_0000 {
        0x8000_0000
    } else {
        0
    };
    let mag: u64 = d % 0x8000_0000_0000_0000;
    let x: u32 = if mag > 0x7ff0_0000_0000_0000 {
        sign + 0x7fc0_0000
    } else if mag == 0x7ff0_0000_0000_0000 {
        sign + 0x7f80_0000
    } else {
        let n: u32 = round_finite(mag);
        sign + n
    };
    proof {
        assert(rounded_to_single(d, x));
        lemma_single_unique(d, x, single_of(d));
    }
    x
}

fn round_finite(mag: u64) -> (n: u32)
    requires
        mag < 0x7ff0_0000_0000_0000,
    ensures
        n <= 0x7f80_0000,
        rounds_to(
            magnitude(0x10_0000_0000_0000, mag as nat),
            0x80_0000,
            pow2(925),
            0x7f80_0000,
            n as nat,
        ),
{
    let exp: u64 = mag / 0x10_0000_0000_0000;
    let mant: u64 = mag % 0x10_0000_0000_0000;
    if exp >= 1151 {
        proof {
            lemma_overflow(mag as nat, exp as nat, mant as nat);
        }
        return 0x7f80_0000;
    }
    if exp < 873 {
        proof {
            lemma_zero(mag as nat, exp as nat, mant as nat);
        }
        return 0;
    }
    let m: u64 = mant + 0x10_0000_0000_0000;
    if exp <= 896 {
        let r: u64 = round_shift64(m, (926 - exp) as u32);
        proof {
            lemma_subnormal(mag as nat, exp as nat, m as nat, r as nat);
        }
        return r as u32;
    }
    let r: u64 = round_shift64(m, 29);
    proof {
        lemma_normal(mag as nat, exp as nat, m as nat, r as nat);
    }
    ((exp - 897) * 0x80_0000 + r) as u32
}

proof fn lemma_overflow(mag: nat, exp: nat, mant: nat)
    requires
        1151 <= exp,
        mant < 0x10_0000_0000_0000,
        mag == exp * 0x10_0000_0000_0000 + mant,
    ensures
        rounds_to(
            magnitude(0x10_0000_0000_0000, mag),
            0x80_0000,
            pow2(925),
            0x7f80_0000,
            0x7f80_0000,
        ),
{
    lemma2_to64();
    lemma2_to64_rest();
    let v = magnitude(0x10_0000_0000_0000, mag);
    assert(mag / 0x10_0000_0000_0000 == exp && mag % 0x10_0000_0000_0000 == mant);
    let q = pow2((exp - 1) as nat);
    if exp > 1151 {
        lemma_pow2_strictly_increases(1150, (exp - 1) as nat);
    }
    lemma_magnitude_linear(0x80_0000, 254, 0x100_0000);
    lemma_pow2_adds(253, 925);
    lemma_pow2_adds(28, 1150);
    assert((254 - 1) * 0x80_0000 + 0x100_0000 == 0x7f80_0000);
    let top = magnitude(0x80_0000, 0x7f80_0000);
    assert(v >= 0x10_0000_0000_0000 * pow2(1150)) by (nonlinear_arith)
        requires
            v == (0x10_0000_0000_0000 + mant) * q,
            q >= pow2(1150),
    ;
    assert(top * pow2(925) == 0x100_0000 * pow2(1178)) by (nonlinear_arith)
        requires
            top == 0x100_0000 * pow2(253),
            pow2(253) * pow2(925) == pow2(1178),
    ;
    assert(top * pow2(925) == 0x10_0000_0000_0000 * pow2(1150)) by (nonlinear_arith)
        requires
            top * pow2(925) == 0x100_0000 * pow2(1178),
            pow2(1178) == 0x1000_0000 * pow2(1150),
    ;
    lemma_magnitude_increases(0x80_0000, 0x7f7f_ffff, 0x7f80_0000);
    lemma_pow2_pos(925);
    let below = magnitude(0x80_0000, 0x7f7f_ffff);
    assert((below + top) * pow2(925) < 2 * (top * pow2(925))) by (nonlinear_arith)
        requires
            below < top,
            pow2(925) > 0,
    ;
}

proof fn lemma_zero(mag: nat, exp: nat, mant: nat)
    requires
        exp < 873,
        mant < 0x10_0000_0000_0000,
        mag == exp * 0x10_0000_0000_0000 + mant,
    ensures
        rounds_to(
            magnitude(0x10_0000_0000_0000, mag),
            0x80_0000,
            pow2(925),
            0x7f80_0000,
            0,
        ),
{
    lemma2_to64();
    lemma2_to64_rest();
    assert(mag / 0x10_0000_0000_0000 == exp && mag % 0x10_0000_0000_0000 == mant);
    let v = magnitude(0x10_0000_0000_0000, mag);
    lemma_pow2_adds(53, 871);
    lemma_pow2_adds(1, 924);
    lemma_pow2_pos(871);
    let b = pow2(871);
    if exp == 0 {
        assert(v < 0x20_0000_0000_0000 * b) by (nonlinear_arith)
            requires
                v < 0x10_0000_0000_0000,
                b >= 1,
        ;
    } else {
        let q = pow2((exp - 1) as nat);
        if exp - 1 < 871 {
            lemma_pow2_strictly_increases((exp - 1) as nat, 871);
        }
        lemma_pow2_pos((exp - 1) as nat);
        assert(v < 0x20_0000_0000_0000 * b) by (nonlinear_arith)
            requires
                v == (0x10_0000_0000_0000 + mant) * q,
                mant < 0x10_0000_0000_0000,
                0 < q <= b,
        ;
    }
    let sum = magnitude(0x80_0000, 0) + magnitude(0x80_0000, 1);
    assert(sum * pow2(925) == pow2(925)) by (nonlinear_arith)
        requires
            sum == 1,
    ;
}

proof fn lemma_subnormal(mag: nat, exp: nat, m: nat, r: nat)
    requires
        873 <= exp <= 896,
        0x10_0000_0000_0000 <= m < 0x20_0000_0000_0000,
        mag == exp * 0x10_0000_0000_0000 + (m - 0x10_0000_0000_0000),
        half_even(m, pow2((926 - exp) as nat), r),
        r * pow2((926 - exp) as nat) <= m + pow2((926 - exp) as nat) / 2,
    ensures
        rounds_to(
            magnitude(0x10_0000_0000_0000, mag),
            0x80_0000,
            pow2(925),
            0x7f80_0000,
            r,
        ),
        r <= 0x80_0000,
{
    lemma2_to64();
    lemma2_to64_rest();
    let shift = (926 - exp) as nat;
    let s = pow2(shift);
    let p = pow2((exp - 1) as nat);
    lemma_pow2_pos(shift);
    lemma_pow2_pos((exp - 1) as nat);
    lemma_pow2_adds(shift, (exp - 1) as nat);
    if shift > 30 {
        lemma_pow2_strictly_increases(30, shift);
    }
    assert(r <= 0x80_0000) by (nonlinear_arith)
        requires
            r * s <= m + s / 2,
            m < 0x20_0000_0000_0000,
            s >= 0x4000_0000,
    ;
    assert(mag / 0x10_0000_0000_0000 == exp);
    assert(mag % 0x10_0000_0000_0000 == m - 0x10_0000_0000_0000);
    assert(pow2(0) * pow2(925) == pow2(925)) by (nonlinear_arith)
        requires
            pow2(0) == 1,
    ;
    lemma_round_stretch(m * p, m, p, s, 0x80_0000, pow2(925), 0x7f80_0000, 1, r);
}

proof fn lemma_normal(mag: nat, exp: nat, m: nat, r: nat)
    requires
        897 <= exp <= 1150,
        0x10_0000_0000_0000 <= m < 0x20_0000_0000_0000,
        mag == exp * 0x10_0000_0000_0000 + (m - 0x10_0000_0000_0000),
        half_even(m, pow2(29), r),
        r * pow2(29) <= m + pow2(29) / 2,
    ensures
        rounds_to(
            magnitude(0x10_0000_0000_0000, mag),
            0x80_0000,
            pow2(925),
            0x7f80_0000,
            ((exp - 897) * 0x80_0000 + r) as nat,
        ),
        r <= 0x100_0000,
{
    lemma2_to64();
    lemma2_to64_rest();
    let s = pow2(29);
    let p = pow2((exp - 1) as nat);
    let e = (exp - 896) as nat;
    lemma_pow2_pos((exp - 1) as nat);
    lemma_pow2_adds((e - 1) as nat, 925);
    lemma_pow2_adds(29, (exp - 1) as nat);
    assert(r <= 0x100_0000);
    assert(mag / 0x10_0000_0000_0000 == exp);
    assert(mag % 0x10_0000_0000_0000 == m - 0x10_0000_0000_0000);
    lemma_round_stretch(m * p, m, p, s, 0x80_0000, pow2(925), 0x7f80_0000, e, r);
}

/// Neither a number nor an infinity.
pub open spec fn nan64(d: F64Bits) -> bool {
    mag64(d) > 0x7ff0_0000_0000_0000
}

pub open spec fn finite64(d: F64Bits) -> bool {
    mag64(d) < 0x7ff0_0000_0000_0000
}

/// The place of a number in the order of numbers; both zeros stand at zero.
pub open spec fn rank64(d: F64Bits) -> int {
    if d >= 0x8000_0000_0000_0000 {
        -(mag64(d) as int)
    } else {
        mag64(d) as int
    }
}

/// `a` is less than `b`. NaN is neither less nor greater than anything.
pub open spec fn less64(a: F64Bits, b: F64Bits) -> bool {
    !nan64(a) && !nan64(b) && rank64(a) < rank64(b)
}

/// The larger of `a` and `b`; the other one if one is NaN.
pub open spec fn max64(a: F64Bits, b: F64Bits) -> F64Bits {
    if nan64(a) || less64(a, b) {
        b
    } else {
        a
    }
}

pub fn is_nan64(d: F64Bits) -> (b: bool)
    ensures
        b == nan64(d),
{
    d % 0x8000_0000_0000_0000 > 0x7ff0_0000_0000_0000
}

pub fn is_finite64(d: F64Bits) -> (b: bool)
    ensures
        b == finite64(d),
{
    d % 0x8000_0000_0000_0000 < 0x7ff0_0000_0000_0000
}

/// Whether a number is a zero of either sign.
pub fn is_zero64(d: F64Bits) -> (b: bool)
    ensures
        b == (rank64(d) == 0),
{
    d % 0x8000_0000_0000_0000 == 0
}

/// Whether `a` is less than `b`.
pub fn lt64(a: F64Bits, b: F64Bits) -> (r: bool)
    ensures
        r == less64(a, b),
{
    if is_nan64(a) || is_nan64(b) {
        return false;
    }
    let ma: u64 = a % 0x8000_0000_0000_0000;
    let mb: u64 = b % 0x8000_0000_0000_0000;
    let na: bool = a >= 0x8000_0000_0000_0000;
    let nb: bool = b >= 0x8000_0000_0000_0000;
    if na && nb {
        ma > mb
    } else if na {
        ma > 0 || mb > 0
    } else if nb {
        false
    } else {
        ma < mb
    }
}

/// The larger of two numbers; the other one if one is NaN.
pub fn larger64(a: F64Bits, b: F64Bits) -> (m: F64Bits)
    ensures
        m == max64(a, b),
{
    if is_nan64(a) || lt64(a, b) {
        b
    } else {
        a
    }
}

/// `usize::MAX` as a double-precision number: rounded up to `2^64` where a word has 64 bits.
pub open spec fn size_limit() -> nat {
    if usize::MAX == u64::MAX {
        0x1_0000_0000_0000_0000
    } else {
        usize::MAX as nat
    }
}

/// The size that a number gives: its integer part, at most `usize::MAX`. Nothing for a number
/// that is not finite, negative, or beyond `usize::MAX`.
pub open spec fn size_of_double(d: F64Bits) -> Option<nat> {
    if !finite64(d) || rank64(d) < 0 || value64(d) > size_limit() * pow2(1074) {
        None
    } else {
        Some(vstd::math::min((value64(d) / pow2(1074)) as int, usize::MAX as int) as nat)
    }
}

fn power_of_two(n: u64) -> (p: u128)
    requires
        n <= 60,
    ensures
        p == pow2(n as nat),
{
    let mut p: u128 = 1;
    let mut i: u64 = 0;
    proof {
        lemma2_to64();
        lemma2_to64_rest();
    }
    while i < n
        invariant
            i <= n <= 60,
            p == pow2(i as nat),
            pow2(60) == 0x1000_0000_0000_0000,
        decreases n - i,
    {
        proof {
            lemma_pow2_strictly_increases(i as nat, 60);
            vstd::arithmetic::power2::lemma_pow2_unfold((i + 1) as nat);
        }
        p = p * 2;
        i = i + 1;
    }
    p
}

/// A number with exponent field `e` and significand `sig`, next to `2^1074` units: its integer
/// part is 0 below one, `sig` over a power of two up to the width of the significand, and `sig`
/// times one beyond.
proof fn lemma_scaled(e: nat, sig: nat)
    requires
        1 <= e <= 2046,
        0x10_0000_0000_0000 <= sig < 0x20_0000_0000_0000,
    ensures
        e < 1023 ==> sig * pow2((e - 1) as nat) < pow2(1074),
        1023 <= e < 1075 ==> pow2(1074) == pow2((e - 1) as nat) * pow2((1075 - e) as nat),
        1075 <= e ==> sig * pow2((e - 1) as nat) == sig * pow2((e - 1075) as nat) * pow2(1074),
        e > 1087 ==> sig * pow2((e - 1) as nat) > 0x1_0000_0000_0000_0000 * pow2(1074),
{
    let low = (e - 1) as nat;
    lemma_pow2_pos(low);
    lemma_pow2_pos(1074);
    lemma2_to64();
    lemma2_to64_rest();
    let p = pow2(low);
    if e < 1023 {
        lemma_pow2_adds(low, 53);
        assert(sig * p < 0x20_0000_0000_0000 * p) by (nonlinear_arith)
            requires
                sig < 0x20_0000_0000_0000,
                p > 0,
        ;
        if low + 53 < 1074 {
            lemma_pow2_strictly_increases(low + 53, 1074);
        }
    } else if e < 1075 {
        lemma_pow2_adds(low, (1075 - e) as nat);
    } else {
        let h = pow2((e - 1075) as nat);
        let q = pow2(1074);
        lemma_pow2_adds((e - 1075) as nat, 1074);
        assert(sig * (h * q) == sig * h * q) by (nonlinear_arith);
        if e > 1087 {
            lemma_pow2_adds((e - 1075) as nat, 0);
            assert(h >= 0x2000) by {
                if e > 1088 {
                    lemma_pow2_strictly_increases(13, (e - 1075) as nat);
                }
            }
            assert(sig * h >= 0x2_0000_0000_0000_0000) by (nonlinear_arith)
                requires
                    sig >= 0x10_0000_0000_0000,
                    h >= 0x2000,
            ;
            let x = sig * h;
            assert(x * q > 0x1_0000_0000_0000_0000 * q) by (nonlinear_arith)
                requires
                    x >= 0x2_0000_0000_0000_0000,
                    q > 0,
            ;
        }
    }
}

/// Comparing with the limit, and dividing, in whole units.
proof fn lemma_whole(value: nat, sig: nat, up: nat, down: nat, unit: nat, limit: nat)
    requires
        unit > 0,
        down > 0,
        up > 0,
        value * down == sig * up * unit,
        up == 1 || down == 1,
    ensures
        (value > limit * unit) == (sig * up > limit * down),
        value / unit == (sig * up) / down,
{
    let s = sig * up;
    assert((value > limit * unit) == (s > limit * down)) by (nonlinear_arith)
        requires
            value * down == s * unit,
            unit > 0,
            down > 0,
    ;
    let q = s / down;
    let r = s % down;
    vstd::arithmetic::div_mod::lemma_fundamental_div_mod(s as int, down as int);
    vstd::arithmetic::div_mod::lemma_mod_bound(s as int, down as int);
    // value * down == (q * down + r) * unit, so value lies in [q * unit, (q + 1) * unit).
    assert(q * unit <= value < (q + 1) * unit) by (nonlinear_arith)
        requires
            value * down == s * unit,
            s == down * q + r,
            0 <= r < down,
            unit > 0,
            down > 0,
    ;
    let rest = value - q * unit;
    assert((q + 1) * unit == q * unit + unit) by (nonlinear_arith);
    vstd::arithmetic::div_mod::lemma_fundamental_div_mod_converse(
        value as int,
        unit as int,
        q as int,
        rest as int,
    );
}

/// The size that a number gives.
pub fn f64_to_usize(d: F64Bits) -> (r: Option<usize>)
    ensures
        match r {
            Some(n) => size_of_double(d) == Some(n as nat),
            None => size_of_double(d) is None,
        },
{
    let mag: u64 = d % 0x8000_0000_0000_0000;
    if mag >= 0x7ff0_0000_0000_0000 || (d >= 0x8000_0000_0000_0000 && mag > 0) {
        return None;
    }
    let e: u64 = mag / 0x10_0000_0000_0000;
    let m: u64 = mag % 0x10_0000_0000_0000;
    let sig: u64 = m + 0x10_0000_0000_0000;
    let ghost unit = pow2(1074);
    proof {
        lemma_pow2_pos(1074);
        if e >= 1 {
            lemma_scaled(e as nat, sig as nat);
        } else {
            lemma2_to64_rest();
            lemma_pow2_strictly_increases(52, 1074);
        }
    }
    if e < 1023 {
        proof {
            assert(value64(d) < unit);
            assert(unit <= size_limit() * unit) by (nonlinear_arith)
                requires
                    size_limit() >= 1,
            ;
            vstd::arithmetic::div_mod::lemma_basic_div(value64(d) as int, unit as int);
        }
        return Some(0);
    }
    if e > 1087 {
        proof {
            assert(size_limit() * unit <= 0x1_0000_0000_0000_0000 * unit) by (nonlinear_arith)
                requires
                    size_limit() <= 0x1_0000_0000_0000_0000,
            ;
        }
        return None;
    }
    let up: u128 = if e >= 1075 {
        power_of_two(e - 1075)
    } else {
        1
    };
    let down: u128 = if e >= 1075 {
        1
    } else {
        power_of_two(1075 - e)
    };
    let limit: u128 = if usize::MAX as u64 == u64::MAX {
        0x1_0000_0000_0000_0000
    } else {
        usize::MAX as u128
    };
    proof {
        lemma2_to64();
        lemma2_to64_rest();
        lemma_pow2_pos((e - 1) as nat);
        if e >= 1075 {
            lemma_pow2_pos((e - 1075) as nat);
            if e < 1087 {
                lemma_pow2_strictly_increases((e - 1075) as nat, 12);
            }
            assert(sig * up <= 0x20_0000_0000_0000 * 0x1000) by (nonlinear_arith)
                requires
                    sig <= 0x20_0000_0000_0000,
                    up <= 0x1000,
            ;
        } else {
            lemma_pow2_pos((1075 - e) as nat);
            if e > 1023 {
                lemma_pow2_strictly_increases((1075 - e) as nat, 52);
            }
            let p = pow2((e - 1) as nat);
            let q = down as nat;
            let s = sig as nat;
            assert((s * p) * q == s * 1 * (p * q)) by (nonlinear_arith);
            assert(limit * down <= 0x1_0000_0000_0000_0000 * 0x10_0000_0000_0000)
                by (nonlinear_arith)
                requires
                    limit <= 0x1_0000_0000_0000_0000,
                    down <= 0x10_0000_0000_0000,
            ;
        }
        lemma_whole(
            value64(d),
            sig as nat,
            up as nat,
            down as nat,
            unit,
            limit as nat,
        );
    }
    let whole: u128 = sig as u128 * up;
    if whole > limit * down {
        return None;
    }
    let n: u128 = whole / down;
    if n > usize::MAX as u128 {
        return Some(usize::MAX);
    }
    Some(n as usize)
}

} // verus!
