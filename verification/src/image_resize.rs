//! Resizing of RGB images: target sizes, and the fixed-point bicubic resampler.

use vstd::prelude::*;

use crate::double_bits::f64_to_usize;
use crate::double_bits::size_of_double;
use crate::double_bits::F64Bits;
use crate::float_bits::half_even;
use crate::image_processor::ImageError;

verus! {

/// Fixed-point weights of one output sample: the first source index and a weight for it and
/// each following one, in units of `2^-22`.
pub type Taps = (usize, Vec<i32>);

/// Sides and factor up to which double precision decides every comparison exactly.
pub const EXACT_SIDE: u64 = 0x4000_0000_0000;

/// Pixel limit below which it does so too.
pub const EXACT_PIXELS: u64 = 0x20_0000_0000_0000;

/// The size of a resized image, as far as it follows from the sides.
#[derive(Debug, Clone, Copy, PartialEq, Eq, Structural)]
pub enum Resize {
    /// Both sides snapped to the factor.
    Snapped { height: usize, width: usize },
    /// The snapped image has too many pixels and is scaled down.
    Shrink,
    /// The snapped image has too few pixels and is scaled up.
    Grow,
    /// The sides or limits are beyond exact comparison.
    Inexact,
}

/// `snapped` is the multiple of `factor` nearest to `side`, an even multiple on a tie.
pub open spec fn snaps_to(side: nat, factor: nat, snapped: nat) -> bool {
    exists|r: nat| snapped == #[trigger] (r * factor) && half_even(side, factor, r)
}

/// The sides and limits are small enough for exact comparison.
pub open spec fn exact_sizes(
    height: usize,
    width: usize,
    factor: usize,
    max_pixels: usize,
) -> bool {
    height <= EXACT_SIDE && width <= EXACT_SIDE && factor <= EXACT_SIDE && max_pixels
        < EXACT_PIXELS
}

/// Why no size can be found, if none can.
pub open spec fn resize_error(
    height: usize,
    width: usize,
    factor: usize,
    min_pixels: usize,
    max_pixels: usize,
) -> Option<ImageError> {
    if height == 0 || width == 0 || factor == 0 {
        Some(ImageError::EmptyImage)
    } else if min_pixels == 0 || max_pixels < min_pixels {
        Some(ImageError::PixelLimits { min_pixels, max_pixels })
    } else if exact_sizes(height, width, factor, max_pixels) && (height > 200 * width || width
        > 200 * height) {
        Some(ImageError::AspectRatio)
    } else {
        None
    }
}

/// What resizing an image of the given sides to a multiple of `factor` answers.
pub open spec fn resizes_to(
    height: usize,
    width: usize,
    factor: usize,
    min_pixels: usize,
    max_pixels: usize,
    r: Result<Resize, ImageError>,
) -> bool {
    match r {
        Ok(size) => {
            &&& resize_error(height, width, factor, min_pixels, max_pixels) is None
            &&& (size is Inexact) == !exact_sizes(height, width, factor, max_pixels)
            &&& match size {
                Resize::Snapped { height: h, width: w } => {
                    &&& snaps_to(height as nat, factor as nat, h as nat)
                    &&& snaps_to(width as nat, factor as nat, w as nat)
                    &&& min_pixels <= h * w <= max_pixels
                },
                Resize::Shrink => exists|h: nat, w: nat|
                    {
                        &&& #[trigger] snaps_to(height as nat, factor as nat, h)
                        &&& #[trigger] snaps_to(width as nat, factor as nat, w)
                        &&& h * w > max_pixels
                    },
                Resize::Grow => exists|h: nat, w: nat|
                    {
                        &&& #[trigger] snaps_to(height as nat, factor as nat, h)
                        &&& #[trigger] snaps_to(width as nat, factor as nat, w)
                        &&& h * w < min_pixels
                    },
                Resize::Inexact => true,
            }
        },
        Err(e) => resize_error(height, width, factor, min_pixels, max_pixels) == Some(e),
    }
}

fn snap(side: u64, factor: u64) -> (snapped: u64)
    requires
        0 < factor <= EXACT_SIDE,
        side <= EXACT_SIDE,
    ensures
        snaps_to(side as nat, factor as nat, snapped as nat),
        snapped <= side + factor,
{
    let q: u64 = side / factor;
    let rem: u64 = side % factor;
    proof {
        vstd::arithmetic::div_mod::lemma_fundamental_div_mod(side as int, factor as int);
        vstd::arithmetic::div_mod::lemma_mod_bound(side as int, factor as int);
        assert(factor * q == q * factor) by (nonlinear_arith);
        assert((2 * q + 1) * factor == 2 * (q * factor) + factor) by (nonlinear_arith);
        assert((2 * q - 1) * factor == 2 * (q * factor) - factor) by (nonlinear_arith);
        assert((2 * (q + 1) + 1) * factor == 2 * (q * factor) + 3 * factor)
            by (nonlinear_arith);
        assert((2 * (q + 1) - 1) * factor == 2 * (q * factor) + factor) by (nonlinear_arith);
        assert((q + 1) * factor == q * factor + factor) by (nonlinear_arith);
    }
    if rem > factor - rem || (rem == factor - rem && q % 2 == 1) {
        proof {
            let r = (q + 1) as nat;
            assert(half_even(side as nat, factor as nat, r));
            assert((q * factor + factor) as nat == r * factor as nat);
        }
        q * factor + factor
    } else {
        proof {
            let r = q as nat;
            assert(half_even(side as nat, factor as nat, r));
            assert((q * factor) as nat == r * factor as nat);
        }
        q * factor
    }
}

/// Whether `a * b > limit`.
fn product_exceeds(a: u64, b: u64, limit: u64) -> (e: bool)
    ensures
        e == (a * b > limit),
{
    match a.checked_mul(b) {
        Some(p) => p > limit,
        None => true,
    }
}

/// The size of a resized image: both sides snapped to `factor`, if the pixel count then lies in
/// `[min_pixels, max_pixels]`. Otherwise the image is scaled, which takes a square root.
pub fn smart_resize(
    height: usize,
    width: usize,
    factor: usize,
    min_pixels: usize,
    max_pixels: usize,
) -> (r: Result<Resize, ImageError>)
    ensures
        resizes_to(height, width, factor, min_pixels, max_pixels, r),
{
    if height == 0 || width == 0 || factor == 0 {
        return Err(ImageError::EmptyImage);
    }
    if min_pixels == 0 || max_pixels < min_pixels {
        return Err(ImageError::PixelLimits { min_pixels, max_pixels });
    }
    let h: u64 = height as u64;
    let w: u64 = width as u64;
    let f: u64 = factor as u64;
    let max: u64 = max_pixels as u64;
    if h > EXACT_SIDE || w > EXACT_SIDE || f > EXACT_SIDE || max >= EXACT_PIXELS {
        return Ok(Resize::Inexact);
    }
    if h > 200 * w || w > 200 * h {
        return Err(ImageError::AspectRatio);
    }
    let hs: u64 = snap(h, f);
    let ws: u64 = snap(w, f);
    if product_exceeds(hs, ws, max) {
        assert(snaps_to(height as nat, factor as nat, hs as nat));
        assert(snaps_to(width as nat, factor as nat, ws as nat));
        return Ok(Resize::Shrink);
    }
    proof {
        if hs == 0 || ws == 0 {
            assert(hs * ws == 0) by (nonlinear_arith)
                requires
                    hs == 0 || ws == 0,
            ;
        } else {
            assert(hs <= hs * ws && ws <= hs * ws) by (nonlinear_arith)
                requires
                    hs >= 1,
                    ws >= 1,
            ;
        }
    }
    if hs * ws < min_pixels as u64 {
        assert(snaps_to(height as nat, factor as nat, hs as nat));
        assert(snaps_to(width as nat, factor as nat, ws as nat));
        return Ok(Resize::Grow);
    }
    Ok(Resize::Snapped { height: hs as usize, width: ws as usize })
}

/// Snapping has one result.
pub proof fn lemma_snap_unique(side: nat, factor: nat, a: nat, b: nat)
    requires
        factor > 0,
        snaps_to(side, factor, a),
        snaps_to(side, factor, b),
    ensures
        a == b,
{
    let r = choose|r: nat| a == #[trigger] (r * factor) && half_even(side, factor, r);
    let s = choose|s: nat| b == #[trigger] (s * factor) && half_even(side, factor, s);
    if r < s {
        lemma_half_even_apart(side, factor, r, s);
    } else if s < r {
        lemma_half_even_apart(side, factor, s, r);
    }
}

proof fn lemma_half_even_apart(m: nat, s: nat, a: nat, b: nat)
    requires
        s > 0,
        a < b,
        half_even(m, s, a),
    ensures
        !half_even(m, s, b),
{
    assert((2 * a + 1) * s <= (2 * b - 1) * s) by (nonlinear_arith)
        requires
            a + 1 <= b,
            s > 0,
    ;
    if a + 1 < b {
        assert((2 * a + 1) * s < (2 * b - 1) * s) by (nonlinear_arith)
            requires
                a + 1 < b,
                s > 0,
        ;
    }
}

/// A side of `steps` times the factor, and at least once the factor, if that is a size.
pub open spec fn scaled_side(steps: F64Bits, factor: usize) -> Option<nat> {
    match size_of_double(steps) {
        Some(k) => {
            let side = vstd::math::max(k as int, 1) * factor;
            if side <= usize::MAX {
                Some(side as nat)
            } else {
                None
            }
        },
        None => None,
    }
}

fn scale_side(steps: F64Bits, factor: usize) -> (side: Option<usize>)
    ensures
        match side {
            Some(n) => scaled_side(steps, factor) == Some(n as nat),
            None => scaled_side(steps, factor) is None,
        },
{
    match f64_to_usize(steps) {
        Some(k) => if k > 1 {
            k.checked_mul(factor)
        } else {
            Some(factor)
        },
        None => None,
    }
}

/// What scaling an image to the given whole numbers of factors answers.
pub open spec fn scales_to(
    height_steps: F64Bits,
    width_steps: F64Bits,
    factor: usize,
    r: Result<(usize, usize), ImageError>,
) -> bool {
    match (scaled_side(height_steps, factor), scaled_side(width_steps, factor)) {
        (Some(h), Some(w)) => if h * w <= usize::MAX {
            r == Ok::<(usize, usize), ImageError>((h as usize, w as usize))
        } else {
            r == Err::<(usize, usize), ImageError>(ImageError::PixelCountOverflow)
        },
        _ => r == Err::<(usize, usize), ImageError>(ImageError::NotASize),
    }
}

/// The size of a scaled image, from the whole number of factors that fit each of its sides.
///
/// The pixel count lies within the limits of the resize where the numbers of factors put it
/// there. It need not: a shrunk side shorter than the factor is raised to it, which can exceed
/// the upper limit, and the sides of a grown image are rounded up, which can too.
pub fn scaled_size(height_steps: F64Bits, width_steps: F64Bits, factor: usize) -> (r: Result<
    (usize, usize),
    ImageError,
>)
    ensures
        scales_to(height_steps, width_steps, factor, r),
{
    match (scale_side(height_steps, factor), scale_side(width_steps, factor)) {
        (Some(h), Some(w)) => match h.checked_mul(w) {
            Some(_) => Ok((h, w)),
            None => Err(ImageError::PixelCountOverflow),
        },
        _ => Err(ImageError::NotASize),
    }
}

/// The whole number of factors of a scaled side.
pub open spec fn steps_of(steps: F64Bits) -> int {
    match size_of_double(steps) {
        Some(k) => vstd::math::max(k as int, 1),
        None => 0,
    }
}

/// A scaled image has the pixels that the numbers of factors give. Its pixel count lies within
/// the limits of the resize exactly if the product of these numbers and of the squared factor
/// does.
pub proof fn lemma_scaled_in_limits(
    height_steps: F64Bits,
    width_steps: F64Bits,
    factor: usize,
    min_pixels: usize,
    max_pixels: usize,
    r: Result<(usize, usize), ImageError>,
)
    requires
        scales_to(height_steps, width_steps, factor, r),
    ensures
        r matches Ok((h, w)) ==> {
            let pixels = steps_of(height_steps) * steps_of(width_steps) * (factor * factor);
            &&& h * w == pixels
            &&& min_pixels <= h * w <= max_pixels <==> min_pixels <= pixels <= max_pixels
        },
{
    if let Ok((h, w)) = r {
        let (k, l, f) = (steps_of(height_steps), steps_of(width_steps), factor as int);
        assert((k * f) * (l * f) == k * l * (f * f)) by (nonlinear_arith);
    }
}

/// Shrinking by the exact scale never exceeds the upper limit: the scale is the root of the
/// pixel count over the limit, and each side is the largest multiple of the factor that it
/// leaves room for. This holds unless a side was raised to the factor.
pub proof fn lemma_shrunk_below_max(
    height: nat,
    width: nat,
    factor: nat,
    max_pixels: nat,
    k: nat,
    l: nat,
)
    requires
        height > 0,
        width > 0,
        (k * factor) * (k * factor) * width <= height * max_pixels,
        (l * factor) * (l * factor) * height <= width * max_pixels,
    ensures
        k * l * (factor * factor) <= max_pixels,
{
    let (a, b, p) = (k * factor, l * factor, max_pixels);
    lemma_side_products(a as int, b as int, height as int, width as int);
    assert(a * b == k * l * (factor * factor)) by (nonlinear_arith)
        requires
            a == k * factor,
            b == l * factor,
    ;
    let (x, y) = ((a * a * width) as int, (b * b * height) as int);
    let (u, v) = ((height * p) as int, (width * p) as int);
    assert(x * y <= u * v) by (nonlinear_arith)
        requires
            0 <= x <= u,
            0 <= y <= v,
    ;
    assert(u * v == (p * p) * (height * width)) by (nonlinear_arith)
        requires
            u == height * p,
            v == width * p,
    ;
    lemma_squares_ordered((a * b) as int, p as int, (height * width) as int, height, width);
}

/// Growing by the exact scale never falls below the lower limit: each side is rounded up.
pub proof fn lemma_grown_above_min(
    height: nat,
    width: nat,
    factor: nat,
    min_pixels: nat,
    k: nat,
    l: nat,
)
    requires
        height > 0,
        width > 0,
        (k * factor) * (k * factor) * width >= height * min_pixels,
        (l * factor) * (l * factor) * height >= width * min_pixels,
    ensures
        k * l * (factor * factor) >= min_pixels,
{
    let (a, b, p) = (k * factor, l * factor, min_pixels);
    lemma_side_products(a as int, b as int, height as int, width as int);
    assert(a * b == k * l * (factor * factor)) by (nonlinear_arith)
        requires
            a == k * factor,
            b == l * factor,
    ;
    let (x, y) = ((a * a * width) as int, (b * b * height) as int);
    let (u, v) = ((height * p) as int, (width * p) as int);
    assert(u * v <= x * y) by (nonlinear_arith)
        requires
            0 <= u <= x,
            0 <= v <= y,
    ;
    assert(u * v == (p * p) * (height * width)) by (nonlinear_arith)
        requires
            u == height * p,
            v == width * p,
    ;
    lemma_squares_ordered(p as int, (a * b) as int, (height * width) as int, height, width);
}

proof fn lemma_side_products(a: int, b: int, h: int, w: int)
    ensures
        (a * a * w) * (b * b * h) == ((a * b) * (a * b)) * (h * w),
{
    assert((a * a * w) * (b * b * h) == ((a * b) * (a * b)) * (h * w)) by (nonlinear_arith);
}

proof fn lemma_squares_ordered(a: int, b: int, area: int, height: nat, width: nat)
    requires
        0 <= a,
        0 <= b,
        height > 0,
        width > 0,
        area == height * width,
        (a * a) * area <= (b * b) * area,
    ensures
        a <= b,
{
    assert(area > 0) by (nonlinear_arith)
        requires
            height > 0,
            width > 0,
            area == height * width,
    ;
    if a > b {
        assert(a * a > b * b) by (nonlinear_arith)
            requires
                a > b,
                b >= 0,
        ;
        assert((a * a) * area > (b * b) * area) by (nonlinear_arith)
            requires
                a * a > b * b,
                area > 0,
        ;
    }
}

/// A snapped side is a whole multiple of the factor.
proof fn lemma_snapped_multiple(side: nat, factor: nat, snapped: nat)
    requires
        factor > 0,
        snaps_to(side, factor, snapped),
    ensures
        snapped % factor == 0,
        snapped > 0 ==> snapped >= factor,
{
    let r = choose|r: nat| snapped == #[trigger] (r * factor) && half_even(side, factor, r);
    lemma_multiple(r, factor);
}

proof fn lemma_multiple(r: nat, factor: nat)
    requires
        factor > 0,
    ensures
        (r * factor) % factor == 0,
        r > 0 ==> r * factor >= factor,
        r == 0 ==> r * factor == 0,
{
    vstd::arithmetic::div_mod::lemma_mod_multiples_basic(r as int, factor as int);
    assert((r > 0 ==> r * factor >= factor) && (r == 0 ==> r * factor == 0)) by (nonlinear_arith)
        requires
            factor > 0,
    ;
}

/// Every size that resizing gives is a positive multiple of the factor, scaled or not.
pub proof fn lemma_sides_are_multiples(
    height: usize,
    width: usize,
    factor: usize,
    min_pixels: usize,
    max_pixels: usize,
    r: Result<Resize, ImageError>,
    steps: F64Bits,
)
    requires
        factor > 0,
        resizes_to(height, width, factor, min_pixels, max_pixels, r),
    ensures
        r matches Ok(Resize::Snapped { height: h, width: w }) ==> h % factor == 0 && w % factor
            == 0 && h >= factor && w >= factor,
        scaled_side(steps, factor) matches Some(side) ==> side % factor as nat == 0 && side
            >= factor,
{
    if let Ok(Resize::Snapped { height: h, width: w }) = r {
        lemma_snapped_multiple(height as nat, factor as nat, h as nat);
        lemma_snapped_multiple(width as nat, factor as nat, w as nat);
        assert(h > 0 && w > 0) by (nonlinear_arith)
            requires
                h * w > 0,
                h >= 0,
                w >= 0,
        ;
    }
    if let Some(k) = size_of_double(steps) {
        lemma_multiple(vstd::math::max(k as int, 1) as nat, factor as nat);
    }
}

/// Resizing an image whose sides are multiples of the factor and whose pixel count and aspect
/// ratio fit changes nothing.
pub proof fn lemma_fitting_size_kept(
    height: usize,
    width: usize,
    factor: usize,
    min_pixels: usize,
    max_pixels: usize,
    r: Result<Resize, ImageError>,
)
    requires
        exact_sizes(height, width, factor, max_pixels),
        factor > 0,
        min_pixels > 0,
        height % factor == 0,
        width % factor == 0,
        min_pixels <= height * width <= max_pixels,
        height <= 200 * width,
        width <= 200 * height,
        resizes_to(height, width, factor, min_pixels, max_pixels, r),
    ensures
        r == Ok::<Resize, ImageError>(Resize::Snapped { height, width }),
{
    assert(height > 0 && width > 0) by (nonlinear_arith)
        requires
            height * width > 0,
            height >= 0,
            width >= 0,
    ;
    lemma_multiple_snaps(height as nat, factor as nat);
    lemma_multiple_snaps(width as nat, factor as nat);
    let f = factor as nat;
    match r {
        Ok(Resize::Snapped { height: h, width: w }) => {
            lemma_snap_unique(height as nat, f, height as nat, h as nat);
            lemma_snap_unique(width as nat, f, width as nat, w as nat);
        },
        Ok(Resize::Shrink) => {
            let (h, w) = choose|h: nat, w: nat|
                {
                    &&& #[trigger] snaps_to(height as nat, f, h)
                    &&& #[trigger] snaps_to(width as nat, f, w)
                    &&& h * w > max_pixels
                };
            lemma_snap_unique(height as nat, f, height as nat, h);
            lemma_snap_unique(width as nat, f, width as nat, w);
        },
        Ok(Resize::Grow) => {
            let (h, w) = choose|h: nat, w: nat|
                {
                    &&& #[trigger] snaps_to(height as nat, f, h)
                    &&& #[trigger] snaps_to(width as nat, f, w)
                    &&& h * w < min_pixels
                };
            lemma_snap_unique(height as nat, f, height as nat, h);
            lemma_snap_unique(width as nat, f, width as nat, w);
        },
        _ => {},
    }
}

proof fn lemma_multiple_snaps(side: nat, factor: nat)
    requires
        factor > 0,
        side % factor == 0,
    ensures
        snaps_to(side, factor, side),
{
    vstd::arithmetic::div_mod::lemma_fundamental_div_mod(side as int, factor as int);
    let r = side / factor;
    assert(r * factor == factor * r) by (nonlinear_arith);
    assert((2 * r + 1) * factor == 2 * (r * factor) + factor) by (nonlinear_arith);
    assert((2 * r - 1) * factor == 2 * (r * factor) - factor) by (nonlinear_arith);
    assert(half_even(side, factor, r));
}

/// Out of fixed point and into the range of a byte.
pub open spec fn clipped(ss: int) -> u8 {
    if ss < 0 {
        0
    } else if ss >= 255 * 0x40_0000 {
        255
    } else {
        (ss / 0x40_0000) as u8
    }
}

/// Shifts back out of fixed point and clamps to `[0, 255]`.
pub fn clip8(ss: i32) -> (b: u8)
    ensures
        b == clipped(ss as int),
{
    if ss < 0 {
        0
    } else if ss >= 1_069_547_520 {
        255
    } else {
        (ss / 0x40_0000) as u8
    }
}

/// The weighted sum of the first `n` samples `at(0)`, `at(1)`, and so on.
pub open spec fn weighted(weights: Seq<i32>, at: spec_fn(int) -> u8, n: nat) -> int
    decreases n,
{
    if n == 0 {
        0
    } else {
        weighted(weights, at, (n - 1) as nat) + at(n - 1) * weights[n - 1]
    }
}

/// The sum of the weights' absolute values.
pub open spec fn abs_sum(weights: Seq<i32>, n: nat) -> int
    decreases n,
{
    if n == 0 {
        0
    } else {
        abs_sum(weights, (n - 1) as nat) + if weights[n - 1] < 0 {
            -weights[n - 1]
        } else {
            weights[n - 1] as int
        }
    }
}

/// Largest sum of absolute weights whose weighted sums fit the accumulator.
pub const MAX_ABS_SUM: i64 = 8_413_280;

/// The taps read inside `in_size` samples and cannot overflow the accumulator.
pub open spec fn taps_ok(taps: Taps, in_size: nat) -> bool {
    &&& taps.0 + taps.1@.len() <= in_size
    &&& abs_sum(taps.1@, taps.1@.len()) <= MAX_ABS_SUM
}

pub open spec fn table_ok(table: Seq<Taps>, in_size: nat, out_size: nat) -> bool {
    &&& table.len() == out_size
    &&& forall|i: int| 0 <= i < table.len() ==> taps_ok(#[trigger] table[i], in_size)
}

/// One output byte: the rounded weighted sum.
pub open spec fn sample(taps: Taps, at: spec_fn(int) -> u8) -> u8 {
    clipped(0x20_0000 + weighted(taps.1@, at, taps.1@.len()))
}

/// Byte `i` of the image after the horizontal pass.
pub open spec fn horizontal(src: Seq<u8>, table: Seq<Taps>, width: int, out_w: int, i: int) -> u8 {
    let c = i % 3;
    let x = (i / 3) % out_w;
    let y = (i / 3) / out_w;
    sample(table[x], |j: int| src[(y * width + (table[x].0 + j)) * 3 + c])
}

/// Byte `i` of the image after the vertical pass.
pub open spec fn vertical(tmp: Seq<u8>, table: Seq<Taps>, out_w: int, i: int) -> u8 {
    let c = i % 3;
    let x = (i / 3) % out_w;
    let y = (i / 3) / out_w;
    sample(table[y], |j: int| tmp[((table[y].0 + j) * out_w + x) * 3 + c])
}

/// The resized image: a horizontal and then a vertical pass.
pub open spec fn resized(
    src: Seq<u8>,
    height: nat,
    width: nat,
    out_h: nat,
    out_w: nat,
    across: Seq<Taps>,
    down: Seq<Taps>,
) -> Seq<u8> {
    let tmp = Seq::new(
        height * out_w * 3,
        |i: int| horizontal(src, across, width as int, out_w as int, i),
    );
    Seq::new(out_h * out_w * 3, |i: int| vertical(tmp, down, out_w as int, i))
}

/// Whether a table of taps fits `in_size` samples and gives `out_size`.
pub fn check_table(table: &Vec<Taps>, in_size: usize, out_size: usize) -> (ok: bool)
    ensures
        ok == table_ok(table@, in_size as nat, out_size as nat),
{
    if table.len() != out_size {
        return false;
    }
    let mut i: usize = 0;
    while i < table.len()
        invariant
            i <= table.len() == out_size,
            forall|k: int| 0 <= k < i ==> taps_ok(#[trigger] table@[k], in_size as nat),
        decreases table.len() - i,
    {
        if !check_taps(&table[i], in_size) {
            return false;
        }
        i = i + 1;
    }
    true
}

fn check_taps(taps: &Taps, in_size: usize) -> (ok: bool)
    ensures
        ok == taps_ok(*taps, in_size as nat),
{
    let n: usize = taps.1.len();
    if n > in_size || taps.0 > in_size - n {
        return false;
    }
    let mut sum: i64 = 0;
    let mut j: usize = 0;
    while j < n
        invariant
            j <= n == taps.1.len(),
            sum == abs_sum(taps.1@, j as nat),
            0 <= sum <= MAX_ABS_SUM,
        decreases n - j,
    {
        let k: i64 = taps.1[j] as i64;
        let a: i64 = if k < 0 {
            -k
        } else {
            k
        };
        sum = sum + a;
        j = j + 1;
        if sum > MAX_ABS_SUM {
            proof {
                lemma_abs_sum_grows(taps.1@, j as nat, n as nat);
            }
            return false;
        }
    }
    true
}

proof fn lemma_abs_sum_grows(weights: Seq<i32>, a: nat, b: nat)
    requires
        a <= b,
    ensures
        0 <= abs_sum(weights, a) <= abs_sum(weights, b),
    decreases b,
{
    if a < b {
        lemma_abs_sum_grows(weights, a, (b - 1) as nat);
    } else if a > 0 {
        lemma_abs_sum_grows(weights, (a - 1) as nat, (a - 1) as nat);
    }
}

/// A weighted sum of bytes is bounded by the absolute weights.
proof fn lemma_weighted_bound(weights: Seq<i32>, at: spec_fn(int) -> u8, n: nat)
    ensures
        -255 * abs_sum(weights, n) <= weighted(weights, at, n) <= 255 * abs_sum(weights, n),
    decreases n,
{
    if n > 0 {
        lemma_weighted_bound(weights, at, (n - 1) as nat);
        let w = weights[n - 1] as int;
        let v = at(n - 1) as int;
        let a = if w < 0 {
            -w
        } else {
            w
        };
        assert(-255 * a <= v * w <= 255 * a) by (nonlinear_arith)
            requires
                0 <= v <= 255,
                a == if w < 0 {
                    -w
                } else {
                    w
                },
        ;
    }
}

/// A pixel index lies inside its image.
pub proof fn lemma_pixel_index(y: int, x: int, c: int, h: int, w: int)
    requires
        0 <= y < h,
        0 <= x < w,
        0 <= c < 3,
    ensures
        0 <= (y * w + x) * 3 + c < h * w * 3,
        0 <= y * w,
        y * w + x < h * w,
{
    assert(0 <= y * w && y * w + w <= h * w) by (nonlinear_arith)
        requires
            0 <= y,
            y + 1 <= h,
            0 <= w,
    ;
}

/// Column and row of a byte of an image of width `w`.
pub proof fn lemma_byte_position(i: int, h: int, w: int)
    requires
        0 <= i < h * w * 3,
        0 <= h,
        0 <= w,
    ensures
        w > 0,
        0 <= (i / 3) % w < w,
        0 <= (i / 3) / w < h,
        0 <= i % 3 < 3,
{
    if w == 0 {
        assert(h * w == 0) by (nonlinear_arith)
            requires
                w == 0,
        ;
    }
    let p = i / 3;
    vstd::arithmetic::div_mod::lemma_fundamental_div_mod(p, w);
    vstd::arithmetic::div_mod::lemma_mod_bound(p, w);
    vstd::arithmetic::div_mod::lemma_div_pos_is_pos(p, w);
    let q = p / w;
    assert(q < h) by (nonlinear_arith)
        requires
            p == w * q + p % w,
            p < h * w,
            0 <= p % w,
            w > 0,
    ;
}

fn horizontal_byte(
    src: &[u8],
    table: &Vec<Taps>,
    height: usize,
    width: usize,
    out_w: usize,
    i: usize,
) -> (b: u8)
    requires
        src@.len() == height * width * 3 <= usize::MAX,
        table_ok(table@, width as nat, out_w as nat),
        i < height * out_w * 3,
    ensures
        b == horizontal(src@, table@, width as int, out_w as int, i as int),
{
    proof {
        lemma_byte_position(i as int, height as int, out_w as int);
    }
    let c: usize = i % 3;
    let x: usize = (i / 3) % out_w;
    let y: usize = (i / 3) / out_w;
    let ghost taps = table@[x as int];
    let ghost at = |j: int| src@[(y * width + (taps.0 + j)) * 3 + c];
    let mut ss: i32 = 0x20_0000;
    let mut j: usize = 0;
    assert(taps_ok(taps, width as nat));
    while j < table[x].1.len()
        invariant
            x < table.len(),
            taps == table@[x as int],
            taps_ok(taps, width as nat),
            src@.len() == height * width * 3 <= usize::MAX,
            y < height,
            c < 3,
            at == (|j: int| src@[(y * width + (taps.0 + j)) * 3 + c]),
            j <= taps.1@.len(),
            ss == 0x20_0000 + weighted(taps.1@, at, j as nat),
        decreases taps.1@.len() - j,
    {
        proof {
            lemma_pixel_index(
                y as int,
                taps.0 + j,
                c as int,
                height as int,
                width as int,
            );
            lemma_weighted_bound(taps.1@, at, (j + 1) as nat);
            lemma_abs_sum_grows(taps.1@, (j + 1) as nat, taps.1@.len());
        }
        let at_j: usize = (y * width + (table[x].0 + j)) * 3 + c;
        let v: i32 = src[at_j] as i32;
        let k: i32 = table[x].1[j];
        proof {
            lemma_weighted_bound(taps.1@, at, j as nat);
            lemma_abs_sum_grows(taps.1@, j as nat, taps.1@.len());
            lemma_term_bound(taps.1@, at, j as nat);
        }
        ss = ss + v * k;
        j = j + 1;
    }
    clip8(ss)
}

/// One product fits the accumulator.
proof fn lemma_term_bound(weights: Seq<i32>, at: spec_fn(int) -> u8, j: nat)
    requires
        j < weights.len(),
        abs_sum(weights, weights.len()) <= MAX_ABS_SUM,
    ensures
        i32::MIN <= at(j as int) * weights[j as int] <= i32::MAX,
{
    lemma_abs_sum_grows(weights, j, j);
    lemma_abs_sum_grows(weights, j + 1, weights.len());
    let w = weights[j as int] as int;
    let v = at(j as int) as int;
    assert(-255 * MAX_ABS_SUM <= v * w <= 255 * MAX_ABS_SUM) by (nonlinear_arith)
        requires
            0 <= v <= 255,
            -MAX_ABS_SUM <= w <= MAX_ABS_SUM,
    ;
}

fn vertical_byte(
    tmp: &Vec<u8>,
    table: &Vec<Taps>,
    height: usize,
    out_h: usize,
    out_w: usize,
    i: usize,
) -> (b: u8)
    requires
        tmp@.len() == height * out_w * 3 <= usize::MAX,
        table_ok(table@, height as nat, out_h as nat),
        i < out_h * out_w * 3,
    ensures
        b == vertical(tmp@, table@, out_w as int, i as int),
{
    proof {
        lemma_byte_position(i as int, out_h as int, out_w as int);
    }
    let c: usize = i % 3;
    let x: usize = (i / 3) % out_w;
    let y: usize = (i / 3) / out_w;
    let ghost taps = table@[y as int];
    let ghost at = |j: int| tmp@[((taps.0 + j) * out_w + x) * 3 + c];
    let mut ss: i32 = 0x20_0000;
    let mut j: usize = 0;
    assert(taps_ok(taps, height as nat));
    while j < table[y].1.len()
        invariant
            y < table.len(),
            taps == table@[y as int],
            taps_ok(taps, height as nat),
            tmp@.len() == height * out_w * 3 <= usize::MAX,
            x < out_w,
            c < 3,
            at == (|j: int| tmp@[((taps.0 + j) * out_w + x) * 3 + c]),
            j <= taps.1@.len(),
            ss == 0x20_0000 + weighted(taps.1@, at, j as nat),
        decreases taps.1@.len() - j,
    {
        proof {
            lemma_pixel_index(
                taps.0 + j,
                x as int,
                c as int,
                height as int,
                out_w as int,
            );
            lemma_weighted_bound(taps.1@, at, (j + 1) as nat);
            lemma_abs_sum_grows(taps.1@, (j + 1) as nat, taps.1@.len());
        }
        let at_j: usize = ((table[y].0 + j) * out_w + x) * 3 + c;
        let v: i32 = tmp[at_j] as i32;
        let k: i32 = table[y].1[j];
        proof {
            lemma_term_bound(taps.1@, at, j as nat);
        }
        ss = ss + v * k;
        j = j + 1;
    }
    clip8(ss)
}

fn byte_count(h: usize, w: usize) -> (n: Option<usize>)
    ensures
        match n {
            Some(n) => n == h * w * 3,
            None => h * w * 3 > usize::MAX,
        },
{
    match h.checked_mul(w) {
        Some(p) => p.checked_mul(3),
        None => None,
    }
}

/// Resizes an RGB image of `height * width * 3` bytes with the given taps across and down.
pub fn resize_rgb8_bicubic(
    src: &[u8],
    height: usize,
    width: usize,
    out_h: usize,
    out_w: usize,
    across: &Vec<Taps>,
    down: &Vec<Taps>,
) -> (r: Result<Vec<u8>, ImageError>)
    requires
        src@.len() == height * width * 3 <= usize::MAX,
        table_ok(across@, width as nat, out_w as nat),
        table_ok(down@, height as nat, out_h as nat),
    ensures
        match r {
            Ok(out) => {
                &&& height * out_w * 3 <= usize::MAX
                &&& out_h * out_w * 3 <= usize::MAX
                &&& out@.len() == out_h * out_w * 3
                &&& out@ == resized(
                    src@,
                    height as nat,
                    width as nat,
                    out_h as nat,
                    out_w as nat,
                    across@,
                    down@,
                )
            },
            Err(ImageError::IntermediateTooLarge) => height * out_w * 3 > usize::MAX,
            Err(e) => height * out_w * 3 <= usize::MAX && out_h * out_w * 3 > usize::MAX && e
                == ImageError::ImageTooLarge,
        },
{
    let tmp_len: usize = match byte_count(height, out_w) {
        Some(n) => n,
        None => {
            return Err(ImageError::IntermediateTooLarge);
        },
    };
    let out_len: usize = match byte_count(out_h, out_w) {
        Some(n) => n,
        None => {
            return Err(ImageError::ImageTooLarge);
        },
    };
    let ghost wide = Seq::new(
        (height * out_w * 3) as nat,
        |i: int| horizontal(src@, across@, width as int, out_w as int, i),
    );
    let mut tmp: Vec<u8> = Vec::new();
    let mut i: usize = 0;
    while i < tmp_len
        invariant
            i <= tmp_len == height * out_w * 3,
            src@.len() == height * width * 3 <= usize::MAX,
            table_ok(across@, width as nat, out_w as nat),
            wide == Seq::new(
                (height * out_w * 3) as nat,
                |i: int| horizontal(src@, across@, width as int, out_w as int, i),
            ),
            tmp@ == wide.take(i as int),
        decreases tmp_len - i,
    {
        tmp.push(horizontal_byte(src, across, height, width, out_w, i));
        i = i + 1;
        assert(tmp@ =~= wide.take(i as int));
    }
    assert(wide.take(i as int) =~= wide);
    let ghost want = Seq::new(
        (out_h * out_w * 3) as nat,
        |i: int| vertical(wide, down@, out_w as int, i),
    );
    let mut out: Vec<u8> = Vec::new();
    let mut k: usize = 0;
    while k < out_len
        invariant
            k <= out_len == out_h * out_w * 3,
            tmp@ == wide,
            tmp@.len() == height * out_w * 3 <= usize::MAX,
            table_ok(down@, height as nat, out_h as nat),
            want == Seq::new(
                (out_h * out_w * 3) as nat,
                |i: int| vertical(wide, down@, out_w as int, i),
            ),
            out@ == want.take(k as int),
        decreases out_len - k,
    {
        out.push(vertical_byte(&tmp, down, height, out_h, out_w, k));
        k = k + 1;
        assert(out@ =~= want.take(k as int));
    }
    assert(want.take(k as int) =~= want);
    proof {
        assert(want =~= resized(
            src@,
            height as nat,
            width as nat,
            out_h as nat,
            out_w as nat,
            across@,
            down@,
        )) by {
            assert(wide =~= Seq::new(
                height as nat * out_w as nat * 3,
                |i: int| horizontal(src@, across@, width as int, out_w as int, i),
            ));
        }
    }
    Ok(out)
}

} // verus!
