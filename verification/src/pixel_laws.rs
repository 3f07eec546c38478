//! What resampling computes pixel by pixel, and what a preprocessor configuration says.

use vstd::prelude::*;

use crate::config::F32Bits;
use crate::double_bits::single_of;
use crate::image_processor::config_error;
use crate::image_processor::config_of;
use crate::image_processor::image_error;
use crate::image_processor::size_entry;
use crate::image_processor::ImageError;
use crate::image_processor::ImageView;
use crate::image_processor::Json;
use crate::image_resize::clipped;
use crate::image_resize::horizontal;
use crate::image_resize::resize_error;
use crate::image_resize::resized;
use crate::image_resize::table_ok;
use crate::image_resize::taps_ok;
use crate::image_resize::vertical;
use crate::image_resize::weighted;
use crate::image_resize::Taps;

verus! {

/// The byte of channel `c` of the pixel in row `y` and column `x`.
pub open spec fn pixel(image: Seq<u8>, width: int, y: int, x: int, c: int) -> u8 {
    image[(y * width + x) * 3 + c]
}

/// The sum of the samples from `first` on, each times its weight.
pub open spec fn tap_sum(taps: Taps, at: spec_fn(int) -> u8, k: int) -> int
    decreases taps.1@.len() - k,
{
    if 0 <= k < taps.1@.len() {
        taps.1@[k] * at(taps.0 + k) + tap_sum(taps, at, k + 1)
    } else {
        0
    }
}

/// `b` is the byte nearest to `sum / 2^22`, the upper one on a tie.
pub open spec fn rounds_to(sum: int, b: u8) -> bool {
    &&& b > 0 ==> (2 * b - 1) * 0x40_0000 <= 2 * sum
    &&& b < 255 ==> 2 * sum < (2 * b + 1) * 0x40_0000
}

proof fn lemma_clip_rounds(sum: int)
    ensures
        rounds_to(sum, clipped(0x20_0000 + sum)),
{
    let ss = 0x20_0000 + sum;
    if 0 <= ss < 255 * 0x40_0000 {
        vstd::arithmetic::div_mod::lemma_fundamental_div_mod(ss, 0x40_0000);
    }
}

/// A byte has at most one value.
pub proof fn lemma_rounds_once(sum: int, a: u8, b: u8)
    requires
        rounds_to(sum, a),
        rounds_to(sum, b),
    ensures
        a == b,
{
}

proof fn lemma_tap_sum(taps: Taps, at: spec_fn(int) -> u8, f: spec_fn(int) -> u8, k: nat)
    requires
        k <= taps.1@.len(),
        forall|j: int| 0 <= j < taps.1@.len() ==> #[trigger] f(j) == at(taps.0 + j),
    ensures
        weighted(taps.1@, f, k) + tap_sum(taps, at, k as int) == tap_sum(taps, at, 0),
    decreases k,
{
    if k > 0 {
        lemma_tap_sum(taps, at, f, (k - 1) as nat);
        let (a, b) = (f(k - 1) as int, taps.1@[k - 1] as int);
        assert(a * b == b * a) by (nonlinear_arith);
    }
}

proof fn lemma_index(y: int, x: int, c: int, h: int, w: int)
    requires
        0 <= y < h,
        0 <= x < w,
        0 <= c < 3,
    ensures
        ({
            let i = (y * w + x) * 3 + c;
            &&& 0 <= i < h * w * 3
            &&& i % 3 == c
            &&& (i / 3) % w == x
            &&& (i / 3) / w == y
        }),
{
    crate::image_resize::lemma_pixel_index(y, x, c, h, w);
    let p = y * w + x;
    assert((p * 3 + c) / 3 == p && (p * 3 + c) % 3 == c);
    vstd::arithmetic::mul::lemma_mul_is_commutative(y, w);
    vstd::arithmetic::div_mod::lemma_fundamental_div_mod_converse(p, w, y, x);
}

/// The image between the two passes of a resize.
pub open spec fn widened(
    src: Seq<u8>,
    height: nat,
    width: nat,
    out_w: nat,
    across: Seq<Taps>,
) -> Seq<u8> {
    Seq::new(
        height * out_w * 3,
        |i: int| horizontal(src, across, width as int, out_w as int, i),
    )
}

/// Every byte of the first pass is the rounded weighted sum of samples of its own row and
/// channel, at the columns of its taps.
pub proof fn lemma_across(
    src: Seq<u8>,
    height: nat,
    width: nat,
    out_w: nat,
    across: Seq<Taps>,
    y: int,
    x: int,
    c: int,
)
    requires
        table_ok(across, width, out_w),
        0 <= y < height,
        0 <= x < out_w,
        0 <= c < 3,
    ensures
        ({
            let wide = widened(src, height, width, out_w, across);
            rounds_to(
                tap_sum(across[x], |k: int| pixel(src, width as int, y, k, c), 0),
                pixel(wide, out_w as int, y, x, c),
            )
        }),
{
    lemma_index(y, x, c, height as int, out_w as int);
    let taps = across[x];
    let at = |k: int| pixel(src, width as int, y, k, c);
    let f = |j: int| src[(y * width + (taps.0 + j)) * 3 + c];
    lemma_tap_sum(taps, at, f, taps.1@.len());
    lemma_clip_rounds(weighted(taps.1@, f, taps.1@.len()));
}

/// Every byte of the resized image is the rounded weighted sum of the first pass's bytes of its
/// own column and channel, at the rows of its taps.
pub proof fn lemma_down(
    src: Seq<u8>,
    height: nat,
    width: nat,
    out_h: nat,
    out_w: nat,
    across: Seq<Taps>,
    down: Seq<Taps>,
    y: int,
    x: int,
    c: int,
)
    requires
        table_ok(down, height, out_h),
        0 <= y < out_h,
        0 <= x < out_w,
        0 <= c < 3,
    ensures
        ({
            let wide = widened(src, height, width, out_w, across);
            let out = resized(src, height, width, out_h, out_w, across, down);
            &&& out.len() == out_h * out_w * 3
            &&& rounds_to(
                tap_sum(down[y], |k: int| pixel(wide, out_w as int, k, x, c), 0),
                pixel(out, out_w as int, y, x, c),
            )
        }),
{
    lemma_index(y, x, c, out_h as int, out_w as int);
    let wide = widened(src, height, width, out_w, across);
    let ow = out_w as int;
    let taps = down[y];
    let at = |k: int| pixel(wide, ow, k, x, c);
    let f = |j: int| wide[((taps.0 + j) * ow + x) * 3 + c];
    lemma_tap_sum(taps, at, f, taps.1@.len());
    lemma_clip_rounds(weighted(taps.1@, f, taps.1@.len()));
    let i = (y * ow + x) * 3 + c;
    assert(vertical(wide, down, ow, i) == crate::image_resize::sample(taps, f));
}

/// A configuration object without one of its entries, or with it.
pub open spec fn entry(m: Map<Seq<char>, Json>, key: Seq<char>) -> Option<Json> {
    if m.dom().contains(key) {
        Some(m[key])
    } else {
        None
    }
}

/// The entry is an unsigned integer.
pub open spec fn says(e: Option<Json>, n: usize) -> bool {
    e matches Some(Json::Number { unsigned: Some(u), .. }) && u == n
}

/// The entry is a list of three numbers, which are these in single precision.
pub open spec fn says_channels(e: Option<Json>, rgb: Seq<F32Bits>) -> bool {
    e matches Some(Json::List(s)) && s.len() == 3 && rgb.len() == 3 && forall|i: int|
        0 <= i < 3 ==> (#[trigger] s[i]) is Number && rgb[i] == single_of(s[i]->double)
}

/// What the configuration takes from an object: each size from the entry of its name, the pixel
/// limits from the two edges, mean and deviation from their lists, and the default where there
/// is no entry.
pub proof fn lemma_config(m: Map<Seq<char>, Json>, size: Map<Seq<char>, Json>)
    requires
        entry(m, "size"@) == Some(Json::Object(size)),
    ensures
        ({
            let c = config_of(Json::Object(m));
            &&& forall|n: usize| #[trigger]
                says(entry(m, "patch_size"@), n) ==> c.patch_size == n
            &&& forall|n: usize| #[trigger]
                says(entry(m, "temporal_patch_size"@), n) ==> c.temporal_patch_size == n
            &&& forall|n: usize| #[trigger]
                says(entry(m, "merge_size"@), n) ==> c.merge_size == n
            &&& forall|n: usize| #[trigger]
                says(entry(size, "shortest_edge"@), n) ==> c.min_pixels == n
            &&& forall|n: usize| #[trigger]
                says(entry(size, "longest_edge"@), n) ==> c.max_pixels == n
            &&& forall|rgb: Seq<F32Bits>| #[trigger]
                says_channels(entry(m, "image_mean"@), rgb) ==> c.image_mean == rgb
            &&& forall|rgb: Seq<F32Bits>| #[trigger]
                says_channels(entry(m, "image_std"@), rgb) ==> c.image_std == rgb
            &&& entry(m, "patch_size"@) is None ==> c.patch_size == 16
            &&& entry(m, "temporal_patch_size"@) is None ==> c.temporal_patch_size == 2
            &&& entry(m, "merge_size"@) is None ==> c.merge_size == 2
            &&& entry(size, "shortest_edge"@) is None ==> c.min_pixels == 65536
            &&& entry(size, "longest_edge"@) is None ==> c.max_pixels == 16777216
        }),
{
    let c = config_of(Json::Object(m));
    assert forall|rgb: Seq<F32Bits>| #[trigger]
        says_channels(entry(m, "image_mean"@), rgb) implies c.image_mean == rgb by {
        assert(c.image_mean =~= rgb);
    }
    assert forall|rgb: Seq<F32Bits>| #[trigger]
        says_channels(entry(m, "image_std"@), rgb) implies c.image_std == rgb by {
        assert(c.image_std =~= rgb);
    }
}

/// The entry is left out, or is a size.
pub open spec fn well_sized(e: Option<Json>) -> bool {
    e is None || exists|n: usize| says(e, n)
}

/// The entry is left out, or is a list of three numbers.
pub open spec fn well_listed(e: Option<Json>) -> bool {
    e is None || (e matches Some(Json::List(s)) && s.len() == 3 && s[0] is Number && s[1] is Number
        && s[2] is Number)
}

/// An object gives a configuration exactly if every entry that it has is of its kind and the
/// configuration that they make is accepted.
pub proof fn lemma_object_accepted(m: Map<Seq<char>, Json>, size: Map<Seq<char>, Json>)
    requires
        entry(m, "size"@) == Some(Json::Object(size)),
    ensures
        config_error(Json::Object(m)) is None <==> {
            &&& well_sized(entry(size, "shortest_edge"@))
            &&& well_sized(entry(size, "longest_edge"@))
            &&& well_sized(entry(m, "patch_size"@))
            &&& well_sized(entry(m, "temporal_patch_size"@))
            &&& well_sized(entry(m, "merge_size"@))
            &&& well_listed(entry(m, "image_mean"@))
            &&& well_listed(entry(m, "image_std"@))
            &&& config_of(Json::Object(m)).error() is None
        },
{
    lemma_size_entry(entry(size, "shortest_edge"@));
    lemma_size_entry(entry(size, "longest_edge"@));
    lemma_size_entry(entry(m, "patch_size"@));
    lemma_size_entry(entry(m, "temporal_patch_size"@));
    lemma_size_entry(entry(m, "merge_size"@));
}

proof fn lemma_size_entry(e: Option<Json>)
    ensures
        size_entry(e, 0) is Some <==> well_sized(e),
{
    if size_entry(e, 0) is Some && e is Some {
        assert(says(e, size_entry(e, 0)->0));
    }
}

/// The channel's mean and deviation are numbers, and the deviation is not zero.
pub open spec fn usable_channel(c: ImageView, i: int) -> bool {
    let finite = |x: F32Bits| (x % 0x8000_0000) < 0x7f80_0000;
    finite(c.image_mean[i]) && finite(c.image_std[i]) && c.image_std[i] % 0x8000_0000 != 0
}

/// A configuration is accepted exactly if its sizes are positive and within their bounds, its
/// pixel limits are ordered and positive, and every channel can be normalized.
pub proof fn lemma_config_accepted(c: ImageView)
    ensures
        c.error() is None <==> {
            &&& 1 <= c.patch_size <= 256
            &&& 1 <= c.merge_size <= 256
            &&& 1 <= c.temporal_patch_size <= 16
            &&& 1 <= c.min_pixels <= c.max_pixels
            &&& usable_channel(c, 0)
            &&& usable_channel(c, 1)
            &&& usable_channel(c, 2)
        },
{
}

/// An image is accepted exactly if the configuration is, it has pixels, and its buffer has three
/// bytes for each of them.
pub proof fn lemma_image_accepted(c: ImageView, bytes: nat, height: usize, width: usize)
    requires
        bytes <= usize::MAX,
    ensures
        image_error(c, bytes, height, width) is None <==> c.error() is None && height > 0 && width
            > 0 && bytes == height * width * 3,
{
}

/// A size is looked for exactly if there are pixels, the limits are ordered and positive, and,
/// where sides compare exactly, neither side is more than two hundred times the other.
pub proof fn lemma_resize_accepted(
    height: usize,
    width: usize,
    factor: usize,
    min_pixels: usize,
    max_pixels: usize,
)
    ensures
        ({
            let small = 0x100_0000_0000int;
            let exact = height <= small && width <= small && factor <= small && max_pixels
                <= small;
            match resize_error(height, width, factor, min_pixels, max_pixels) {
                Some(ImageError::EmptyImage) => height == 0 || width == 0 || factor == 0,
                Some(ImageError::PixelLimits { .. }) => height > 0 && width > 0 && factor > 0 && (
                min_pixels == 0 || max_pixels < min_pixels),
                Some(ImageError::AspectRatio) => height > 200 * width || width > 200 * height,
                Some(_) => false,
                None => height > 0 && width > 0 && factor > 0 && 0 < min_pixels <= max_pixels && (
                exact ==> height <= 200 * width && width <= 200 * height),
            }
        }),
{
}

/// A tap that copies one sample is accepted exactly where the sample lies in the image.
pub proof fn lemma_copies_accepted(taps: Taps, in_size: nat)
    requires
        taps.1@ == seq![0x40_0000i32],
    ensures
        taps_ok(taps, in_size) <==> taps.0 < in_size,
{
    reveal_with_fuel(crate::image_resize::abs_sum, 2);
    assert(taps.1@.len() == 1 && taps.1@[0] == 0x40_0000);
}

} // verus!
