//! What resampling keeps, for any tables of taps.

use vstd::prelude::*;

use crate::image_resize::clipped;
use crate::image_resize::horizontal;
use crate::image_resize::lemma_byte_position;
use crate::image_resize::lemma_pixel_index;
use crate::image_resize::resized;
use crate::image_resize::sample;
use crate::image_resize::table_ok;
use crate::image_resize::taps_ok;
use crate::image_resize::vertical;
use crate::image_resize::weighted;
use crate::image_resize::Taps;

verus! {

/// The sum of the first `n` weights.
pub open spec fn weight_sum(weights: Seq<i32>, n: nat) -> int
    decreases n,
{
    if n == 0 {
        0
    } else {
        weight_sum(weights, (n - 1) as nat) + weights[n - 1]
    }
}

/// The weights of every output sample add up to one, but for the rounding of the weights.
pub open spec fn normalized(table: Seq<Taps>) -> bool {
    forall|i: int|
        0 <= i < table.len() ==> -8224 <= weight_sum(
            (#[trigger] table[i]).1@,
            table[i].1@.len(),
        ) - 0x40_0000 <= 8224
}

/// Every output sample is the source sample at its own position.
pub open spec fn in_place(table: Seq<Taps>) -> bool {
    forall|i: int|
        0 <= i < table.len() ==> (#[trigger] table[i]).0 <= i < table[i].0 + table[i].1@.len()
            && forall|j: int|
            0 <= j < table[i].1@.len() ==> #[trigger] table[i].1@[j] == if table[i].0 + j == i {
                0x40_0000int
            } else {
                0
            }
}

proof fn lemma_weighted_same(
    weights: Seq<i32>,
    f: spec_fn(int) -> u8,
    g: spec_fn(int) -> u8,
    n: nat,
)
    requires
        forall|j: int| 0 <= j < n ==> #[trigger] f(j) == g(j),
    ensures
        weighted(weights, f, n) == weighted(weights, g, n),
    decreases n,
{
    if n > 0 {
        lemma_weighted_same(weights, f, g, (n - 1) as nat);
        assert(f(n - 1) == g(n - 1));
    }
}

proof fn lemma_weighted_flat(weights: Seq<i32>, f: spec_fn(int) -> u8, v: u8, n: nat)
    requires
        forall|j: int| 0 <= j < n ==> #[trigger] f(j) == v,
    ensures
        weighted(weights, f, n) == v * weight_sum(weights, n),
    decreases n,
{
    if n > 0 {
        lemma_weighted_flat(weights, f, v, (n - 1) as nat);
        assert(f(n - 1) == v);
        let s = weight_sum(weights, (n - 1) as nat);
        let w = weights[n - 1] as int;
        assert(v * (s + w) == v * s + v * w) by (nonlinear_arith);
    }
}

/// Normalized taps over equal samples give that sample.
proof fn lemma_sample_flat(taps: Taps, f: spec_fn(int) -> u8, v: u8)
    requires
        forall|j: int| 0 <= j < taps.1@.len() ==> #[trigger] f(j) == v,
        -8224 <= weight_sum(taps.1@, taps.1@.len()) - 0x40_0000 <= 8224,
    ensures
        sample(taps, f) == v,
{
    let s = weight_sum(taps.1@, taps.1@.len());
    lemma_weighted_flat(taps.1@, f, v, taps.1@.len());
    assert(-2_097_120 <= v * s - v * 0x40_0000 <= 2_097_120) by (nonlinear_arith)
        requires
            -8224 <= s - 0x40_0000 <= 8224,
            0 <= v <= 255,
    ;
    lemma_clip_near(v, v * s);
}

/// A fixed-point value within half a unit of a byte rounds to it.
proof fn lemma_clip_near(v: u8, t: int)
    requires
        -0x20_0000 <= t - v * 0x40_0000 < 0x20_0000,
    ensures
        clipped(0x20_0000 + t) == v,
{
}

proof fn lemma_weighted_one(weights: Seq<i32>, f: spec_fn(int) -> u8, k: int, n: nat)
    requires
        0 <= k,
        n <= weights.len(),
        forall|j: int|
            0 <= j < weights.len() ==> #[trigger] weights[j] == if j == k {
                0x40_0000int
            } else {
                0
            },
    ensures
        weighted(weights, f, n) == if k < n {
            f(k) * 0x40_0000
        } else {
            0
        },
    decreases n,
{
    if n > 0 {
        lemma_weighted_one(weights, f, k, (n - 1) as nat);
        assert(weights[n - 1] == if n - 1 == k {
            0x40_0000int
        } else {
            0
        });
        let v = f(n - 1) as int;
        assert(v * 0 == 0) by (nonlinear_arith);
    }
}

/// Byte `i` of an image of width `w` and its position.
proof fn lemma_position_back(i: int, w: int)
    requires
        w > 0,
    ensures
        (((i / 3) / w) * w + (i / 3) % w) * 3 + i % 3 == i,
{
    vstd::arithmetic::div_mod::lemma_fundamental_div_mod(i / 3, w);
    assert(w * ((i / 3) / w) == ((i / 3) / w) * w) by (nonlinear_arith);
}

/// The image after the horizontal pass.
pub open spec fn widened(
    src: Seq<u8>,
    height: nat,
    width: nat,
    out_w: nat,
    across: Seq<Taps>,
) -> Seq<u8> {
    Seq::new(
        height * out_w * 3,
        |i: int| horizontal(src, across, width as int, out_w as int, i),
    )
}

/// The bytes of one channel of two images are the same.
pub open spec fn same_channel(a: Seq<u8>, b: Seq<u8>, c: int) -> bool {
    &&& a.len() == b.len()
    &&& forall|i: int| 0 <= i < a.len() && i % 3 == c ==> #[trigger] a[i] == b[i]
}

/// Every pixel is the same.
pub open spec fn flat(image: Seq<u8>, color: (u8, u8, u8)) -> bool {
    forall|i: int|
        0 <= i < image.len() ==> #[trigger] image[i] == if i % 3 == 0 {
            color.0
        } else if i % 3 == 1 {
            color.1
        } else {
            color.2
        }
}

/// A channel of a resized image depends on that channel of the source only, and the image has
/// three bytes for each pixel of its size.
pub proof fn lemma_channels_apart(
    a: Seq<u8>,
    b: Seq<u8>,
    height: nat,
    width: nat,
    out_h: nat,
    out_w: nat,
    across: Seq<Taps>,
    down: Seq<Taps>,
    c: int,
)
    requires
        a.len() == height * width * 3,
        same_channel(a, b, c),
        table_ok(across, width, out_w),
        table_ok(down, height, out_h),
    ensures
        resized(a, height, width, out_h, out_w, across, down).len() == out_h * out_w * 3,
        same_channel(
            resized(a, height, width, out_h, out_w, across, down),
            resized(b, height, width, out_h, out_w, across, down),
            c,
        ),
{
    let (h, w, oh, ow) = (height as int, width as int, out_h as int, out_w as int);
    let wa = widened(a, height, width, out_w, across);
    let wb = widened(b, height, width, out_w, across);
    assert forall|i: int| 0 <= i < wa.len() && i % 3 == c implies #[trigger] wa[i] == wb[i] by {
        lemma_byte_position(i, h, ow);
        let x = (i / 3) % ow;
        let y = (i / 3) / ow;
        let taps = across[x];
        assert(taps_ok(taps, width));
        let f = |j: int| a[(y * w + (taps.0 + j)) * 3 + c];
        let g = |j: int| b[(y * w + (taps.0 + j)) * 3 + c];
        assert forall|j: int| 0 <= j < taps.1@.len() implies #[trigger] f(j) == g(j) by {
            lemma_pixel_index(y, taps.0 + j, c, h, w);
        }
        lemma_weighted_same(taps.1@, f, g, taps.1@.len());
        assert(wa[i] == sample(taps, f));
        assert(wb[i] == sample(taps, g));
    }
    let ra = resized(a, height, width, out_h, out_w, across, down);
    let rb = resized(b, height, width, out_h, out_w, across, down);
    assert forall|i: int| 0 <= i < ra.len() && i % 3 == c implies #[trigger] ra[i] == rb[i] by {
        lemma_byte_position(i, oh, ow);
        let x = (i / 3) % ow;
        let y = (i / 3) / ow;
        let taps = down[y];
        assert(taps_ok(taps, height));
        let f = |j: int| wa[((taps.0 + j) * ow + x) * 3 + c];
        let g = |j: int| wb[((taps.0 + j) * ow + x) * 3 + c];
        assert forall|j: int| 0 <= j < taps.1@.len() implies #[trigger] f(j) == g(j) by {
            lemma_pixel_index(taps.0 + j, x, c, h, ow);
        }
        lemma_weighted_same(taps.1@, f, g, taps.1@.len());
        assert(ra[i] == vertical(wa, down, ow, i));
        assert(rb[i] == vertical(wb, down, ow, i));
        assert(vertical(wa, down, ow, i) == sample(taps, f));
        assert(vertical(wb, down, ow, i) == sample(taps, g));
    }
}

/// A resized flat image is flat in the same color, where the weights are normalized.
pub proof fn lemma_flat_kept(
    src: Seq<u8>,
    height: nat,
    width: nat,
    out_h: nat,
    out_w: nat,
    across: Seq<Taps>,
    down: Seq<Taps>,
    color: (u8, u8, u8),
)
    requires
        src.len() == height * width * 3,
        flat(src, color),
        table_ok(across, width, out_w),
        table_ok(down, height, out_h),
        normalized(across),
        normalized(down),
    ensures
        flat(resized(src, height, width, out_h, out_w, across, down), color),
{
    let (h, w, oh, ow) = (height as int, width as int, out_h as int, out_w as int);
    let wide = widened(src, height, width, out_w, across);
    let shade = |c: int|
        if c == 0 {
            color.0
        } else if c == 1 {
            color.1
        } else {
            color.2
        };
    assert forall|i: int| 0 <= i < wide.len() implies #[trigger] wide[i] == shade(i % 3) by {
        lemma_byte_position(i, h, ow);
        let c = i % 3;
        let x = (i / 3) % ow;
        let y = (i / 3) / ow;
        let taps = across[x];
        assert(taps_ok(taps, width));
        let f = |j: int| src[(y * w + (taps.0 + j)) * 3 + c];
        assert forall|j: int| 0 <= j < taps.1@.len() implies #[trigger] f(j) == shade(c) by {
            lemma_pixel_index(y, taps.0 + j, c, h, w);
            assert(((y * w + (taps.0 + j)) * 3 + c) % 3 == c);
        }
        lemma_sample_flat(taps, f, shade(c));
        assert(wide[i] == sample(taps, f));
    }
    let out = resized(src, height, width, out_h, out_w, across, down);
    assert forall|i: int| 0 <= i < out.len() implies #[trigger] out[i] == shade(i % 3) by {
        lemma_byte_position(i, oh, ow);
        let c = i % 3;
        let x = (i / 3) % ow;
        let y = (i / 3) / ow;
        let taps = down[y];
        assert(taps_ok(taps, height));
        let f = |j: int| wide[((taps.0 + j) * ow + x) * 3 + c];
        assert forall|j: int| 0 <= j < taps.1@.len() implies #[trigger] f(j) == shade(c) by {
            lemma_pixel_index(taps.0 + j, x, c, h, ow);
            assert((((taps.0 + j) * ow + x) * 3 + c) % 3 == c);
        }
        lemma_sample_flat(taps, f, shade(c));
        assert(out[i] == vertical(wide, down, ow, i));
        assert(vertical(wide, down, ow, i) == sample(taps, f));
    }
}

/// Resizing to the same size changes nothing, where each output sample is weighted by its own
/// source sample alone.
pub proof fn lemma_same_size_kept(
    src: Seq<u8>,
    height: nat,
    width: nat,
    across: Seq<Taps>,
    down: Seq<Taps>,
)
    requires
        src.len() == height * width * 3,
        table_ok(across, width, width),
        table_ok(down, height, height),
        in_place(across),
        in_place(down),
    ensures
        resized(src, height, width, height, width, across, down) == src,
{
    let (h, w) = (height as int, width as int);
    let wide = widened(src, height, width, width, across);
    assert forall|i: int| 0 <= i < wide.len() implies #[trigger] wide[i] == src[i] by {
        lemma_byte_position(i, h, w);
        lemma_position_back(i, w);
        let c = i % 3;
        let x = (i / 3) % w;
        let y = (i / 3) / w;
        let taps = across[x];
        assert(taps_ok(taps, width));
        let f = |j: int| src[(y * w + (taps.0 + j)) * 3 + c];
        lemma_weighted_one(taps.1@, f, x - taps.0, taps.1@.len());
        lemma_clip_near(f(x - taps.0), f(x - taps.0) * 0x40_0000);
        assert(wide[i] == sample(taps, f));
    }
    assert(wide =~= src);
    let out = resized(src, height, width, height, width, across, down);
    assert forall|i: int| 0 <= i < out.len() implies #[trigger] out[i] == src[i] by {
        lemma_byte_position(i, h, w);
        lemma_position_back(i, w);
        let c = i % 3;
        let x = (i / 3) % w;
        let y = (i / 3) / w;
        let taps = down[y];
        assert(taps_ok(taps, height));
        let f = |j: int| wide[((taps.0 + j) * w + x) * 3 + c];
        lemma_weighted_one(taps.1@, f, y - taps.0, taps.1@.len());
        lemma_clip_near(f(y - taps.0), f(y - taps.0) * 0x40_0000);
        assert(out[i] == vertical(wide, down, w, i));
        assert(vertical(wide, down, w, i) == sample(taps, f));
    }
    assert(out =~= src);
}

} // verus!
