//! Binary floating-point formats as bit patterns: the value of a pattern, and rounding to the
//! nearest pattern.
//!
//! A magnitude (a pattern without its sign bit) of a format with `f = 2^mantissa_bits` has the
//! value `magnitude(f, n)` in units of the format's smallest subnormal.

use vstd::prelude::*;

use vstd::arithmetic::power2::lemma_pow2;
use vstd::arithmetic::power2::lemma_pow2_adds;
use vstd::arithmetic::power2::lemma_pow2_pos;
use vstd::arithmetic::power2::pow2;

verus! {

/// The value of magnitude `n` in units of the smallest subnormal. One past the largest finite
/// pattern it is the next power of two, which is where an infinity stands in the order.
pub open spec fn magnitude(f: nat, n: nat) -> nat {
    if n < f {
        n
    } else {
        (f + n % f) * pow2((n / f - 1) as nat)
    }
}

/// `h` is the magnitude, of those up to `top`, nearest to `x`, whose unit is `1 / scale` of the
/// format's; a tie goes to the even pattern. Everything beyond `top` becomes `top`.
pub open spec fn rounds_to(x: nat, f: nat, scale: nat, top: nat, h: nat) -> bool {
    &&& h <= top
    &&& h > 0 ==> {
        let mid = (magnitude(f, (h - 1) as nat) + magnitude(f, h)) * scale;
        2 * x > mid || (2 * x == mid && h % 2 == 0)
    }
    &&& h < top ==> {
        let mid = (magnitude(f, h) + magnitude(f, h + 1)) * scale;
        2 * x < mid || (2 * x == mid && h % 2 == 0)
    }
}

/// `r` is `m / s` rounded to the nearest integer, ties to even.
pub open spec fn half_even(m: nat, s: nat, r: nat) -> bool {
    &&& 2 * m < (2 * r + 1) * s || (2 * m == (2 * r + 1) * s && r % 2 == 0)
    &&& 2 * m > (2 * r - 1) * s || (2 * m == (2 * r - 1) * s && r % 2 == 0)
}

/// Between two powers of two, magnitudes are evenly spaced.
pub proof fn lemma_magnitude_linear(f: nat, e: nat, r: nat)
    requires
        f > 0,
        e >= 1,
        f <= r <= 2 * f || (e == 1 && r <= 2 * f),
    ensures
        magnitude(f, ((e - 1) * f + r) as nat) == r * pow2((e - 1) as nat),
{
    let n = ((e - 1) * f + r) as nat;
    assert(0 <= (e - 1) * f) by (nonlinear_arith)
        requires
            e >= 1,
    ;
    if r < f {
        assert((e - 1) * f == 0) by (nonlinear_arith)
            requires
                e == 1,
        ;
        lemma_pow2(0);
        vstd::arithmetic::power::lemma_pow0(2);
    } else if r < 2 * f {
        assert(n == e * f + (r - f)) by (nonlinear_arith)
            requires
                n == (e - 1) * f + r,
        ;
        vstd::arithmetic::div_mod::lemma_fundamental_div_mod_converse(
            n as int,
            f as int,
            e as int,
            r - f,
        );
        assert(n >= f) by (nonlinear_arith)
            requires
                n == e * f + (r - f),
                e >= 1,
                r >= f,
        ;
    } else {
        assert(n == (e + 1) * f) by (nonlinear_arith)
            requires
                n == (e - 1) * f + r,
                r == 2 * f,
        ;
        vstd::arithmetic::div_mod::lemma_fundamental_div_mod_converse(
            n as int,
            f as int,
            e as int + 1,
            0,
        );
        assert(n >= f) by (nonlinear_arith)
            requires
                n == (e + 1) * f,
                e >= 1,
        ;
        lemma_pow2_adds(1, (e - 1) as nat);
        vstd::arithmetic::power2::lemma2_to64();
        assert(f * pow2(e) == 2 * f * pow2((e - 1) as nat)) by (nonlinear_arith)
            requires
                pow2(e) == 2 * pow2((e - 1) as nat),
        ;
    }
}

/// Every magnitude lies on one of the evenly spaced stretches.
pub proof fn lemma_magnitude_at(f: nat, n: nat) -> (er: (nat, nat))
    requires
        f > 0,
    ensures
        er.0 >= 1,
        er.1 < 2 * f,
        er.1 >= f || er.0 == 1,
        n == (er.0 - 1) * f + er.1,
        n < f ==> er == (1nat, n),
        n >= f ==> er == ((n / f) as nat, (f + n % f) as nat),
        magnitude(f, n) == er.1 * pow2((er.0 - 1) as nat),
        magnitude(f, n + 1) == (er.1 + 1) * pow2((er.0 - 1) as nat),
{
    if n < f {
        lemma_magnitude_linear(f, 1, n);
        lemma_magnitude_linear(f, 1, n + 1);
        assert((1 - 1) * f == 0) by (nonlinear_arith);
        (1nat, n)
    } else {
        let e = (n / f) as nat;
        let r = (f + n % f) as nat;
        vstd::arithmetic::div_mod::lemma_fundamental_div_mod(n as int, f as int);
        vstd::arithmetic::div_mod::lemma_mod_bound(n as int, f as int);
        assert(e >= 1) by {
            vstd::arithmetic::div_mod::lemma_div_non_zero(n as int, f as int);
        }
        assert((e - 1) * f + r == n) by (nonlinear_arith)
            requires
                n == f * e + n % f,
                r == f + n % f,
        ;
        lemma_magnitude_linear(f, e, r);
        lemma_magnitude_linear(f, e, r + 1);
        assert((e - 1) * f + (r + 1) == n + 1);
        (e, r)
    }
}

/// A larger pattern has a larger value.
pub proof fn lemma_magnitude_increases(f: nat, a: nat, b: nat)
    requires
        f > 0,
        a < b,
    ensures
        magnitude(f, a) < magnitude(f, b),
    decreases b - a,
{
    let er = lemma_magnitude_at(f, a);
    let p = pow2((er.0 - 1) as nat);
    lemma_pow2_pos((er.0 - 1) as nat);
    assert(er.1 * p < (er.1 + 1) * p) by (nonlinear_arith)
        requires
            p > 0,
    ;
    if a + 1 < b {
        lemma_magnitude_increases(f, a + 1, b);
    }
}

/// Rounding has one result.
pub proof fn lemma_rounds_to_unique(x: nat, f: nat, scale: nat, top: nat, a: nat, b: nat)
    requires
        f > 0,
        scale > 0,
        rounds_to(x, f, scale, top, a),
        rounds_to(x, f, scale, top, b),
    ensures
        a == b,
{
    if a < b {
        lemma_rounds_apart(x, f, scale, top, a, b);
    } else if b < a {
        lemma_rounds_apart(x, f, scale, top, b, a);
    }
}

proof fn lemma_rounds_apart(x: nat, f: nat, scale: nat, top: nat, a: nat, b: nat)
    requires
        f > 0,
        scale > 0,
        a < b,
        rounds_to(x, f, scale, top, a),
    ensures
        !rounds_to(x, f, scale, top, b),
{
    let ma = magnitude(f, a) + magnitude(f, a + 1);
    let mb = magnitude(f, (b - 1) as nat) + magnitude(f, b);
    if a + 1 < b {
        lemma_magnitude_increases(f, a, (b - 1) as nat);
        lemma_magnitude_increases(f, a + 1, b);
        assert(ma * scale < mb * scale) by (nonlinear_arith)
            requires
                ma < mb,
                scale > 0,
        ;
    }
}

/// A value that the format has is rounded to itself.
pub proof fn lemma_exact_rounds(f: nat, scale: nat, top: nat, h: nat)
    requires
        f > 0,
        scale > 0,
        h <= top,
    ensures
        rounds_to(magnitude(f, h) * scale, f, scale, top, h),
{
    let v = magnitude(f, h);
    if h > 0 {
        let u = magnitude(f, (h - 1) as nat);
        lemma_magnitude_increases(f, (h - 1) as nat, h);
        assert(2 * (v * scale) > (u + v) * scale) by (nonlinear_arith)
            requires
                u < v,
                scale > 0,
        ;
    }
    let w = magnitude(f, h + 1);
    lemma_magnitude_increases(f, h, h + 1);
    assert(2 * (v * scale) < (v + w) * scale) by (nonlinear_arith)
        requires
            v < w,
            scale > 0,
    ;
}

/// Rounding keeps the order of values.
pub proof fn lemma_rounding_monotone(
    x: nat,
    y: nat,
    f: nat,
    scale: nat,
    top: nat,
    a: nat,
    b: nat,
)
    requires
        f > 0,
        scale > 0,
        x <= y,
        rounds_to(x, f, scale, top, a),
        rounds_to(y, f, scale, top, b),
    ensures
        a <= b,
{
    if b < a {
        let ma = magnitude(f, (a - 1) as nat) + magnitude(f, a);
        let mb = magnitude(f, b) + magnitude(f, b + 1);
        if b + 1 < a {
            lemma_magnitude_increases(f, b, (a - 1) as nat);
            lemma_magnitude_increases(f, b + 1, a);
            assert(mb * scale < ma * scale) by (nonlinear_arith)
                requires
                    mb < ma,
                    scale > 0,
            ;
        }
    }
}

/// What rounds past `top` saturates at `top`.
pub proof fn lemma_saturate(x: nat, f: nat, scale: nat, wide: nat, top: nat, h: nat)
    requires
        f > 0,
        scale > 0,
        rounds_to(x, f, scale, wide, h),
        h > top,
    ensures
        rounds_to(x, f, scale, top, top),
{
    if top > 0 {
        let a = magnitude(f, (h - 1) as nat) + magnitude(f, h);
        let b = magnitude(f, (top - 1) as nat) + magnitude(f, top);
        lemma_magnitude_increases(f, (top - 1) as nat, (h - 1) as nat);
        lemma_magnitude_increases(f, top, h);
        assert(b * scale < a * scale) by (nonlinear_arith)
            requires
                b < a,
                scale > 0,
        ;
    }
}

/// Rounding the mantissa rounds the value: with `x = m * p` on the stretch of exponent `e`,
/// whose spacing is `s * p`, the nearest mantissa gives the nearest pattern.
pub proof fn lemma_round_stretch(
    x: nat,
    m: nat,
    p: nat,
    s: nat,
    f: nat,
    scale: nat,
    top: nat,
    e: nat,
    r: nat,
)
    requires
        f > 0,
        p > 0,
        s > 0,
        e >= 1,
        x == m * p,
        pow2((e - 1) as nat) * scale == s * p,
        half_even(m, s, r),
        r <= 2 * f,
        e == 1 || f * s <= m,
        f % 2 == 0,
        (e - 1) * f + r <= top,
    ensures
        rounds_to(x, f, scale, top, ((e - 1) * f + r) as nat),
{
    let h = ((e - 1) * f + r) as nat;
    let q = pow2((e - 1) as nat);
    assert(0 <= (e - 1) * f) by (nonlinear_arith)
        requires
            e >= 1,
    ;
    if e > 1 {
        assert(r >= f) by (nonlinear_arith)
            requires
                2 * m <= (2 * r + 1) * s,
                f * s <= m,
                s > 0,
        ;
    }
    lemma_magnitude_linear(f, e, r);
    assert(r * q * scale == r * s * p) by (nonlinear_arith)
        requires
            q * scale == s * p,
    ;
    lemma_even_sum(e, f, r, h);
    // The pattern above.
    if r < 2 * f {
        lemma_magnitude_linear(f, e, r + 1);
        assert((e - 1) * f + (r + 1) == h + 1);
        assert((r * q + (r + 1) * q) * scale == (2 * r + 1) * s * p) by (nonlinear_arith)
            requires
                q * scale == s * p,
        ;
    } else {
        let er = lemma_magnitude_at(f, h);
        lemma_magnitude_increases(f, h, h + 1);
        lemma_next_stretch(f, e, h);
        assert((magnitude(f, h) + magnitude(f, h + 1)) * scale >= (2 * r + 1) * s * p)
            by (nonlinear_arith)
            requires
                magnitude(f, h) == r * q,
                magnitude(f, h + 1) >= (r + 1) * q,
                q * scale == s * p,
        ;
    }
    assert(2 * m < (2 * r + 1) * s ==> 2 * (m * p) < (2 * r + 1) * s * p) by (nonlinear_arith)
        requires
            p > 0,
    ;
    assert(2 * m == (2 * r + 1) * s ==> 2 * (m * p) == (2 * r + 1) * s * p) by (nonlinear_arith);
    // The pattern below.
    if h > 0 {
        if r > f || (e == 1 && r > 0) {
            lemma_magnitude_linear(f, e, (r - 1) as nat);
            assert((e - 1) * f + (r - 1) == h - 1);
            assert(((r - 1) * q + r * q) * scale == (2 * r - 1) * s * p) by (nonlinear_arith)
                requires
                    q * scale == s * p,
            ;
            assert(2 * m > (2 * r - 1) * s ==> 2 * (m * p) > (2 * r - 1) * s * p)
                by (nonlinear_arith)
                requires
                    p > 0,
            ;
            assert(2 * m == (2 * r - 1) * s ==> 2 * (m * p) == (2 * r - 1) * s * p)
                by (nonlinear_arith);
        } else {
            if e == 1 {
                assert((e - 1) * f == 0) by (nonlinear_arith)
                    requires
                        e == 1,
                ;
            }
            assert(scale > 0) by (nonlinear_arith)
                requires
                    q * scale == s * p,
                    s > 0,
                    p > 0,
            ;
            lemma_magnitude_increases(f, (h - 1) as nat, h);
            let below = magnitude(f, (h - 1) as nat);
            assert(2 * x > (below + magnitude(f, h)) * scale) by (nonlinear_arith)
                requires
                    x == m * p,
                    magnitude(f, h) == r * q,
                    r == f,
                    f * s <= m,
                    below < magnitude(f, h),
                    q * scale == s * p,
                    scale > 0,
                    p > 0,
            {
                assert(m * p >= f * s * p);
                assert(magnitude(f, h) * scale == f * s * p);
                assert(below * scale < magnitude(f, h) * scale);
            }
        }
    }
}

proof fn lemma_even_sum(e: nat, f: nat, r: nat, h: nat)
    requires
        e >= 1,
        f % 2 == 0,
        h == (e - 1) * f + r,
    ensures
        h % 2 == 0 <==> r % 2 == 0,
{
    let g = f / 2;
    assert((e - 1) * f == 2 * ((e - 1) * g)) by (nonlinear_arith)
        requires
            f == 2 * g,
    ;
}

proof fn lemma_next_stretch(f: nat, e: nat, h: nat)
    requires
        f > 0,
        e >= 1,
        h == (e - 1) * f + 2 * f,
    ensures
        magnitude(f, h + 1) >= (2 * f + 1) * pow2((e - 1) as nat),
{
    let q = pow2((e - 1) as nat);
    assert(h == (e + 1 - 1) * f + f) by (nonlinear_arith)
        requires
            h == (e - 1) * f + 2 * f,
    ;
    assert(h + 1 == (e + 1 - 1) * f + (f + 1));
    lemma_magnitude_linear(f, e + 1, f + 1);
    lemma_pow2_adds(1, (e - 1) as nat);
    vstd::arithmetic::power2::lemma2_to64();
    lemma_pow2_pos((e - 1) as nat);
    assert((f + 1) * pow2(e) >= (2 * f + 1) * q) by (nonlinear_arith)
        requires
            pow2(e) == 2 * q,
            q > 0,
    ;
}

/// `m` divided by `2^shift`, to nearest, ties to even.
pub(crate) fn round_shift(m: u32, shift: u32) -> (r: u32)
    requires
        1 <= shift < 32,
        m < 0x8000_0000,
    ensures
        half_even(m as nat, pow2(shift as nat), r as nat),
        r <= m,
        r as nat * pow2(shift as nat) <= m + pow2(shift as nat) / 2,
{
    proof {
        lemma_pow2_pos(shift as nat);
        lemma_pow2_adds(1, (shift - 1) as nat);
        vstd::arithmetic::power2::lemma2_to64();
        vstd::bits::lemma_u32_pow2_no_overflow(shift as nat);
        vstd::bits::lemma_u32_shl_is_mul(1, shift);
    }
    let s: u32 = 1u32 << shift;
    let half: u32 = s / 2;
    let q: u32 = m / s;
    let rem: u32 = m % s;
    proof {
        vstd::arithmetic::div_mod::lemma_fundamental_div_mod(m as int, s as int);
        assert(s == 2 * half);
        assert(q <= m / 2) by (nonlinear_arith)
            requires
                q == m / s,
                s >= 2,
        ;
        assert((2 * q + 1) * s == 2 * (s * q) + s) by (nonlinear_arith);
        assert((2 * q - 1) * s == 2 * (s * q) - s) by (nonlinear_arith);
        assert((2 * (q + 1) + 1) * s == 2 * (s * q) + 3 * s) by (nonlinear_arith);
        assert((2 * (q + 1) - 1) * s == 2 * (s * q) + s) by (nonlinear_arith);
        assert(q * s == s * q) by (nonlinear_arith);
        assert((q + 1) * s == s * q + s) by (nonlinear_arith);
        if q == 0 {
            assert(s * q == 0) by (nonlinear_arith)
                requires
                    q == 0,
            ;
        }
    }
    if rem > half || (rem == half && q % 2 == 1) {
        q + 1
    } else {
        q
    }
}

/// `m` divided by `2^shift`, to nearest, ties to even.
pub(crate) fn round_shift64(m: u64, shift: u32) -> (r: u64)
    requires
        1 <= shift < 64,
        m < 0x8000_0000_0000_0000,
    ensures
        half_even(m as nat, pow2(shift as nat), r as nat),
        r as nat * pow2(shift as nat) <= m + pow2(shift as nat) / 2,
{
    proof {
        lemma_pow2_pos(shift as nat);
        lemma_pow2_adds(1, (shift - 1) as nat);
        vstd::arithmetic::power2::lemma2_to64();
        vstd::bits::lemma_u64_pow2_no_overflow(shift as nat);
        vstd::bits::lemma_u64_shl_is_mul(1, shift as u64);
    }
    let s: u64 = 1u64 << (shift as u64);
    let half: u64 = s / 2;
    let q: u64 = m / s;
    let rem: u64 = m % s;
    proof {
        vstd::arithmetic::div_mod::lemma_fundamental_div_mod(m as int, s as int);
        assert(s == 2 * half);
        assert(q <= m / 2) by (nonlinear_arith)
            requires
                q == m / s,
                s >= 2,
        ;
        assert((2 * q + 1) * s == 2 * (s * q) + s) by (nonlinear_arith);
        assert((2 * q - 1) * s == 2 * (s * q) - s) by (nonlinear_arith);
        assert((2 * (q + 1) + 1) * s == 2 * (s * q) + 3 * s) by (nonlinear_arith);
        assert((2 * (q + 1) - 1) * s == 2 * (s * q) + s) by (nonlinear_arith);
        assert(q * s == s * q) by (nonlinear_arith);
        assert((q + 1) * s == s * q + s) by (nonlinear_arith);
        if q == 0 {
            assert(s * q == 0) by (nonlinear_arith)
                requires
                    q == 0,
            ;
        }
    }
    if rem > half || (rem == half && q % 2 == 1) {
        q + 1
    } else {
        q
    }
}

} // verus!
