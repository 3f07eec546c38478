//! Image preprocessing for vision models: configuration, resizing and patch layout.
//!
//! The resampler is the 22-bit fixed-point bicubic of Pillow. Its filter weights, the rescaling
//! of over- and undersized images and the normalized pixel levels are floating-point and come
//! in as tables.
//!
//! For one image:
//! - `grid = [1, resized_height / patch_size, resized_width / patch_size]`;
//! - patch vectors are ordered `(channel, temporal, patch_y, patch_x)`, with the single frame
//!   repeated `temporal_patch_size` times.

use vstd::prelude::*;

use crate::config::F32Bits;
use crate::double_bits::f64_to_f32;
use crate::double_bits::single_of;
use crate::double_bits::F64Bits;
use crate::fp16::finite32;
use crate::fp16::mag32;
use crate::image_resize::lemma_pixel_index;
use crate::image_resize::resize_rgb8_bicubic;
use crate::image_resize::resized;
use crate::image_resize::resizes_to;
use crate::image_resize::smart_resize;
use crate::image_resize::table_ok;
use crate::image_resize::Resize;
use crate::image_resize::Taps;

verus! {

/// A JSON value, with its numbers as they read.
pub enum Json {
    Null,
    Bool(bool),
    /// A number, as an unsigned integer if it is one, and in double precision.
    Number { unsigned: Option<u64>, double: F64Bits },
    Text(Seq<char>),
    List(Seq<Json>),
    Object(Map<Seq<char>, Json>),
}

/// A JSON tree of the parser.
#[verifier::external_type_specification]
#[verifier::external_body]
pub struct ExValue(serde_json::Value);

/// What a JSON tree holds.
pub uninterp spec fn json_view(v: serde_json::Value) -> Json;

/// `serde_json::Value::get` with a string key: the value under the key of an object, nothing of
/// any other value.
#[verifier::external_body]
fn json_get<'a>(v: &'a serde_json::Value, key: &str) -> (r: Option<&'a serde_json::Value>)
    ensures
        match r {
            Some(x) => json_view(*v) is Object && json_view(*v)->Object_0.dom().contains(key@)
                && json_view(*x) == json_view(*v)->Object_0[key@],
            None => !(json_view(*v) is Object && json_view(*v)->Object_0.dom().contains(key@)),
        },
{
    v.get(key)
}

/// `serde_json::Value::as_u64`: the value of a number that is an unsigned integer.
pub assume_specification[ serde_json::Value::as_u64 ](v: &serde_json::Value) -> (r: Option<u64>)
    ensures
        r == match json_view(*v) {
            Json::Number { unsigned, .. } => unsigned,
            _ => None,
        },
;

/// `serde_json::Value::as_array`: the elements of a list.
pub assume_specification[ serde_json::Value::as_array ](v: &serde_json::Value) -> (r: Option<
    &Vec<serde_json::Value>,
>)
    ensures
        match r {
            Some(a) => json_view(*v) is List && json_view(*v)->List_0.len() == a@.len()
                && forall|i: int|
                0 <= i < a@.len() ==> json_view(#[trigger] a@[i]) == json_view(*v)->List_0[i],
            None => !(json_view(*v) is List),
        },
;

/// `serde_json::Value::as_f64`: the value of a number in double precision, as bits.
#[verifier::external_body]
fn json_double(v: &serde_json::Value) -> (r: Option<F64Bits>)
    ensures
        r == match json_view(*v) {
            Json::Number { double, .. } => Some(double),
            _ => None,
        },
{
    v.as_f64().map(|x| x.to_bits())
}

/// A configuration entry.
#[derive(Debug, Clone, Copy, PartialEq, Eq, Structural)]
pub enum Field {
    ShortestEdge,
    LongestEdge,
    PatchSize,
    TemporalPatchSize,
    MergeSize,
    ImageMean,
    ImageStd,
}

/// Why an image or its configuration is refused.
#[allow(inconsistent_fields)]
#[derive(Debug, Clone, Copy, PartialEq, Eq, Structural)]
pub enum ImageError {
    /// The entry is not a non-negative integer.
    NotAnInteger(Field),
    /// The entry is not a list of three numbers.
    NotThreeNumbers(Field),
    NotANumber { field: Field, index: usize },
    /// Patch, temporal and merge sizes must be positive.
    SizeZero,
    SizeOutOfRange,
    /// The pixel limits must satisfy `0 < min <= max`.
    PixelLimits { min_pixels: usize, max_pixels: usize },
    /// Mean or deviation of the channel is not finite, or the deviation is zero.
    Channel(usize),
    /// A side or the factor is zero.
    EmptyImage,
    /// One side is more than 200 times the other.
    AspectRatio,
    /// The rescaled side is not a valid size.
    NotASize,
    PixelCountOverflow,
    ImageSizeOverflow,
    BufferLength { got: usize, want: usize },
    IntermediateTooLarge,
    ImageTooLarge,
    PatchBufferOverflow,
}

/// Sampling configuration parsed from `preprocessor_config.json`.
#[derive(Debug, Clone, Copy, PartialEq, Eq)]
pub struct ImageProcessorConfig {
    pub patch_size: usize,
    pub temporal_patch_size: usize,
    pub merge_size: usize,
    /// `size.shortest_edge`: minimum number of pixels after resize.
    pub min_pixels: usize,
    /// `size.longest_edge`: maximum number of pixels after resize.
    pub max_pixels: usize,
    pub image_mean: [F32Bits; 3],
    pub image_std: [F32Bits; 3],
}

/// One half.
pub const F32_HALF: u32 = 0x3f00_0000;

pub struct ImageView {
    pub patch_size: usize,
    pub temporal_patch_size: usize,
    pub merge_size: usize,
    pub min_pixels: usize,
    pub max_pixels: usize,
    pub image_mean: Seq<F32Bits>,
    pub image_std: Seq<F32Bits>,
}

impl View for ImageProcessorConfig {
    type V = ImageView;

    open spec fn view(&self) -> ImageView {
        ImageView {
            patch_size: self.patch_size,
            temporal_patch_size: self.temporal_patch_size,
            merge_size: self.merge_size,
            min_pixels: self.min_pixels,
            max_pixels: self.max_pixels,
            image_mean: self.image_mean@,
            image_std: self.image_std@,
        }
    }
}

/// The channel can be normalized.
pub open spec fn channel_ok(mean: F32Bits, std: F32Bits) -> bool {
    finite32(mean) && finite32(std) && mag32(std) != 0
}

impl ImageView {
    pub open spec fn initial() -> ImageView {
        ImageView {
            patch_size: 16,
            temporal_patch_size: 2,
            merge_size: 2,
            min_pixels: 65_536,
            max_pixels: 16_777_216,
            image_mean: seq![F32_HALF, F32_HALF, F32_HALF],
            image_std: seq![F32_HALF, F32_HALF, F32_HALF],
        }
    }

    /// Why the configuration is refused, if it is.
    pub open spec fn error(self) -> Option<ImageError> {
        if self.patch_size == 0 || self.temporal_patch_size == 0 || self.merge_size == 0 {
            Some(ImageError::SizeZero)
        } else if self.patch_size > 256 || self.merge_size > 256 || self.temporal_patch_size > 16 {
            Some(ImageError::SizeOutOfRange)
        } else if self.min_pixels == 0 || self.max_pixels < self.min_pixels {
            Some(
                ImageError::PixelLimits {
                    min_pixels: self.min_pixels,
                    max_pixels: self.max_pixels,
                },
            )
        } else if !channel_ok(self.image_mean[0], self.image_std[0]) {
            Some(ImageError::Channel(0))
        } else if !channel_ok(self.image_mean[1], self.image_std[1]) {
            Some(ImageError::Channel(1))
        } else if !channel_ok(self.image_mean[2], self.image_std[2]) {
            Some(ImageError::Channel(2))
        } else {
            None
        }
    }
}

/// The value under `key`, if `j` is an object that has it.
pub open spec fn member(j: Option<Json>, key: Seq<char>) -> Option<Json> {
    match j {
        Some(Json::Object(m)) => if m.dom().contains(key) {
            Some(m[key])
        } else {
            None
        },
        _ => None,
    }
}

/// The size that an entry gives, `default` without an entry, `None` if it is no size.
pub open spec fn size_entry(j: Option<Json>, default: usize) -> Option<usize> {
    match j {
        None => Some(default),
        Some(Json::Number { unsigned: Some(n), .. }) => if n <= usize::MAX {
            Some(n as usize)
        } else {
            None
        },
        Some(_) => None,
    }
}

/// Why an entry is no list of three numbers, if it is not.
pub open spec fn rgb_error(j: Option<Json>, field: Field) -> Option<ImageError> {
    match j {
        None => None,
        Some(Json::List(s)) => if s.len() != 3 {
            Some(ImageError::NotThreeNumbers(field))
        } else if !(s[0] is Number) {
            Some(ImageError::NotANumber { field, index: 0 })
        } else if !(s[1] is Number) {
            Some(ImageError::NotANumber { field, index: 1 })
        } else if !(s[2] is Number) {
            Some(ImageError::NotANumber { field, index: 2 })
        } else {
            None
        },
        Some(_) => Some(ImageError::NotThreeNumbers(field)),
    }
}

/// The three numbers of an entry in single precision, halves without an entry.
pub open spec fn rgb_entry(j: Option<Json>) -> Seq<F32Bits> {
    match j {
        Some(Json::List(s)) => Seq::new(3, |i: int| single_of(s[i]->double)),
        _ => seq![F32_HALF, F32_HALF, F32_HALF],
    }
}

/// The configuration that a JSON object gives.
pub open spec fn config_of(j: Json) -> ImageView {
    let top = Some(j);
    let size = member(top, "size"@);
    let d = ImageView::initial();
    ImageView {
        patch_size: size_entry(member(top, "patch_size"@), d.patch_size)->0,
        temporal_patch_size: size_entry(
            member(top, "temporal_patch_size"@),
            d.temporal_patch_size,
        )->0,
        merge_size: size_entry(member(top, "merge_size"@), d.merge_size)->0,
        min_pixels: size_entry(member(size, "shortest_edge"@), d.min_pixels)->0,
        max_pixels: size_entry(member(size, "longest_edge"@), d.max_pixels)->0,
        image_mean: rgb_entry(member(top, "image_mean"@)),
        image_std: rgb_entry(member(top, "image_std"@)),
    }
}

/// Why a JSON object gives no configuration, if it does not. Entries come before the limits.
pub open spec fn config_error(j: Json) -> Option<ImageError> {
    let top = Some(j);
    let size = member(top, "size"@);
    if size_entry(member(size, "shortest_edge"@), 0) is None {
        Some(ImageError::NotAnInteger(Field::ShortestEdge))
    } else if size_entry(member(size, "longest_edge"@), 0) is None {
        Some(ImageError::NotAnInteger(Field::LongestEdge))
    } else if size_entry(member(top, "patch_size"@), 0) is None {
        Some(ImageError::NotAnInteger(Field::PatchSize))
    } else if size_entry(member(top, "temporal_patch_size"@), 0) is None {
        Some(ImageError::NotAnInteger(Field::TemporalPatchSize))
    } else if size_entry(member(top, "merge_size"@), 0) is None {
        Some(ImageError::NotAnInteger(Field::MergeSize))
    } else if rgb_error(member(top, "image_mean"@), Field::ImageMean) is Some {
        rgb_error(member(top, "image_mean"@), Field::ImageMean)
    } else if rgb_error(member(top, "image_std"@), Field::ImageStd) is Some {
        rgb_error(member(top, "image_std"@), Field::ImageStd)
    } else {
        config_of(j).error()
    }
}

/// What an optional JSON tree holds.
pub open spec fn view_of(v: Option<&serde_json::Value>) -> Option<Json> {
    match v {
        Some(v) => Some(json_view(*v)),
        None => None,
    }
}

fn json_member<'a>(v: Option<&'a serde_json::Value>, key: &str) -> (r: Option<
    &'a serde_json::Value,
>)
    ensures
        view_of(r) == member(view_of(v), key@),
{
    match v {
        Some(v) => json_get(v, key),
        None => None,
    }
}

/// A size, `default` without an entry.
fn json_usize(v: Option<&serde_json::Value>, default: usize, field: Field) -> (r: Result<
    usize,
    ImageError,
>)
    ensures
        match r {
            Ok(n) => size_entry(view_of(v), default) == Some(n),
            Err(e) => size_entry(view_of(v), default) is None && e == ImageError::NotAnInteger(
                field,
            ),
        },
{
    match v {
        None => Ok(default),
        Some(v) => match v.as_u64() {
            Some(n) => if n <= usize::MAX as u64 {
                Ok(n as usize)
            } else {
                Err(ImageError::NotAnInteger(field))
            },
            None => Err(ImageError::NotAnInteger(field)),
        },
    }
}

/// Three numbers, `default` without an entry.
fn json_rgb(v: Option<&serde_json::Value>, field: Field) -> (r: Result<[F32Bits; 3], ImageError>)
    ensures
        match r {
            Ok(a) => rgb_error(view_of(v), field) is None && a@ == rgb_entry(view_of(v)),
            Err(e) => rgb_error(view_of(v), field) == Some(e),
        },
{
    let v = match v {
        None => {
            let halves: [u32; 3] = [F32_HALF, F32_HALF, F32_HALF];
            assert(halves@ =~= seq![F32_HALF, F32_HALF, F32_HALF]);
            return Ok(halves);
        },
        Some(v) => v,
    };
    let list = match v.as_array() {
        Some(list) => list,
        None => {
            return Err(ImageError::NotThreeNumbers(field));
        },
    };
    if list.len() != 3 {
        return Err(ImageError::NotThreeNumbers(field));
    }
    let r: u32 = match json_double(&list[0]) {
        Some(d) => f64_to_f32(d),
        None => {
            return Err(ImageError::NotANumber { field, index: 0 });
        },
    };
    let g: u32 = match json_double(&list[1]) {
        Some(d) => f64_to_f32(d),
        None => {
            return Err(ImageError::NotANumber { field, index: 1 });
        },
    };
    let b: u32 = match json_double(&list[2]) {
        Some(d) => f64_to_f32(d),
        None => {
            return Err(ImageError::NotANumber { field, index: 2 });
        },
    };
    let out: [u32; 3] = [r, g, b];
    assert(out@ =~= rgb_entry(Some(json_view(*v))));
    Ok(out)
}

fn channel_finite(mean: F32Bits, std: F32Bits) -> (b: bool)
    ensures
        b == channel_ok(mean, std),
{
    mean % 0x8000_0000 < 0x7f80_0000 && std % 0x8000_0000 < 0x7f80_0000 && std % 0x8000_0000 != 0
}

impl Default for ImageProcessorConfig {
    fn default() -> (c: ImageProcessorConfig)
        ensures
            c@ == ImageView::initial(),
    {
        let c = ImageProcessorConfig {
            patch_size: 16,
            temporal_patch_size: 2,
            merge_size: 2,
            min_pixels: 65_536,
            max_pixels: 16_777_216,
            image_mean: [F32_HALF, F32_HALF, F32_HALF],
            image_std: [F32_HALF, F32_HALF, F32_HALF],
        };
        assert(c@.image_mean =~= seq![F32_HALF, F32_HALF, F32_HALF]);
        assert(c@.image_std =~= seq![F32_HALF, F32_HALF, F32_HALF]);
        c
    }
}

impl ImageProcessorConfig {
    /// Parses the entries consumed from a `preprocessor_config.json`.
    pub fn from_hf_json(v: &serde_json::Value) -> (r: Result<Self, ImageError>)
        ensures
            match r {
                Ok(c) => config_error(json_view(*v)) is None && c@ == config_of(json_view(*v)),
                Err(e) => config_error(json_view(*v)) == Some(e),
            },
    {
        let top = Some(v);
        let size = json_member(top, "size");
        let min_pixels: usize = json_usize(
            json_member(size, "shortest_edge"),
            65_536,
            Field::ShortestEdge,
        )?;
        let max_pixels: usize = json_usize(
            json_member(size, "longest_edge"),
            16_777_216,
            Field::LongestEdge,
        )?;
        let patch_size: usize = json_usize(json_member(top, "patch_size"), 16, Field::PatchSize)?;
        let temporal_patch_size: usize = json_usize(
            json_member(top, "temporal_patch_size"),
            2,
            Field::TemporalPatchSize,
        )?;
        let merge_size: usize = json_usize(json_member(top, "merge_size"), 2, Field::MergeSize)?;
        let image_mean = json_rgb(json_member(top, "image_mean"), Field::ImageMean)?;
        let image_std = json_rgb(json_member(top, "image_std"), Field::ImageStd)?;
        let c = ImageProcessorConfig {
            patch_size,
            temporal_patch_size,
            merge_size,
            min_pixels,
            max_pixels,
            image_mean,
            image_std,
        };
        c.validate()?;
        Ok(c)
    }

    /// Pixel-count divisor: `patch_size * merge_size`.
    #[must_use]
    pub fn factor(&self) -> (f: usize)
        requires
            self.patch_size * self.merge_size <= usize::MAX,
        ensures
            f == self.patch_size * self.merge_size,
    {
        self.patch_size * self.merge_size
    }

    /// Rejects configurations that would make the resize layout ill-defined.
    pub fn validate(&self) -> (r: Result<(), ImageError>)
        ensures
            match r {
                Ok(_) => self@.error() is None,
                Err(e) => self@.error() == Some(e),
            },
    {
        if self.patch_size == 0 || self.temporal_patch_size == 0 || self.merge_size == 0 {
            return Err(ImageError::SizeZero);
        }
        if self.patch_size > 256 || self.merge_size > 256 || self.temporal_patch_size > 16 {
            return Err(ImageError::SizeOutOfRange);
        }
        if self.min_pixels == 0 || self.max_pixels < self.min_pixels {
            return Err(
                ImageError::PixelLimits {
                    min_pixels: self.min_pixels,
                    max_pixels: self.max_pixels,
                },
            );
        }
        let mut i: usize = 0;
        while i < 3
            invariant
                i <= 3,
                self.patch_size > 0 && self.temporal_patch_size > 0 && self.merge_size > 0,
                self.patch_size <= 256 && self.merge_size <= 256 && self.temporal_patch_size <= 16,
                0 < self.min_pixels <= self.max_pixels,
                forall|k: int|
                    0 <= k < i ==> channel_ok(#[trigger] self.image_mean@[k], self.image_std@[k]),
            decreases 3 - i,
        {
            if !channel_finite(self.image_mean[i], self.image_std[i]) {
                proof {
                    if i > 0 {
                        assert(channel_ok(self.image_mean@[0], self.image_std@[0]));
                    }
                    if i > 1 {
                        assert(channel_ok(self.image_mean@[1], self.image_std@[1]));
                    }
                }
                return Err(ImageError::Channel(i));
            }
            i = i + 1;
        }
        proof {
            assert(channel_ok(self.image_mean@[0], self.image_std@[0]));
            assert(channel_ok(self.image_mean@[1], self.image_std@[1]));
            assert(channel_ok(self.image_mean@[2], self.image_std@[2]));
        }
        Ok(())
    }
}

/// Patches of an image, as frames, rows and columns.
pub type VisionGrid = [usize; 3];

/// One image after preprocessing.
#[derive(Debug, Clone, PartialEq, Eq)]
pub struct ProcessedImage {
    /// Row-major patch vectors, `(patches, channels * temporal * patch^2)`.
    pub pixel_values: Vec<F32Bits>,
    /// `[1, grid_h, grid_w]` for a single image.
    pub grid: VisionGrid,
}

impl ProcessedImage {
    /// Number of vision patches in this image.
    #[must_use]
    pub fn tokens(&self) -> (n: usize)
        requires
            self.grid[0] * self.grid[1] * self.grid[2] <= usize::MAX,
            self.grid[0] * self.grid[1] <= usize::MAX,
        ensures
            n == self.grid[0] * self.grid[1] * self.grid[2],
    {
        self.grid[0] * self.grid[1] * self.grid[2]
    }
}

/// Normalized value of each level of each channel, channel by channel.
pub const LEVELS: usize = 768;

/// Where element `i` of the patch vectors comes from: channel, row and column of the resized
/// image. Patches run over blocks of `merge * merge`, block by block; within a patch come the
/// channels, the repeated frames, and the rows and columns of the patch.
pub open spec fn patch_source(
    patch: int,
    merge: int,
    temporal: int,
    cols: int,
    i: int,
) -> (int, int, int) {
    let px = i % patch;
    let py = (i / patch) % patch;
    let frame = i / patch / patch;
    let c = (frame / temporal) % 3;
    let p = frame / temporal / 3;
    let mw = p % merge;
    let mh = (p / merge) % merge;
    let block = p / merge / merge;
    let col = block % cols;
    let row = block / cols;
    (c, (row * merge + mh) * patch + py, (col * merge + mw) * patch + px)
}

/// The patch vectors of a resized image.
pub open spec fn patch_values(
    c: ImageView,
    image: Seq<u8>,
    height: int,
    width: int,
    levels: Seq<F32Bits>,
) -> Seq<F32Bits> {
    let patch = c.patch_size as int;
    let merge = c.merge_size as int;
    let temporal = c.temporal_patch_size as int;
    let cols = width / patch / merge;
    Seq::new(
        ((height / patch) * (width / patch) * (3 * temporal * patch * patch)) as nat,
        |i: int|
            {
                let s = patch_source(patch, merge, temporal, cols, i);
                levels[s.0 * 256 + image[(s.1 * width + s.2) * 3 + s.0]]
            },
    )
}

/// Patch vectors are ordered by channel, frame, row and column, and the frames repeat the one
/// image: the element of patch `p` at these four coordinates is the pixel of that channel, row
/// and column of the patch, whatever the frame.
pub proof fn lemma_patch_order(
    patch: int,
    merge: int,
    temporal: int,
    cols: int,
    p: int,
    c: int,
    t: int,
    py: int,
    px: int,
)
    requires
        patch > 0,
        temporal > 0,
        0 <= p,
        0 <= c < 3,
        0 <= t < temporal,
        0 <= py < patch,
        0 <= px < patch,
    ensures
        patch_source(
            patch,
            merge,
            temporal,
            cols,
            (((p * 3 + c) * temporal + t) * patch + py) * patch + px,
        ) == (
            c,
            ((p / merge / merge / cols) * merge + (p / merge) % merge) * patch + py,
            ((p / merge / merge % cols) * merge + p % merge) * patch + px,
        ),
{
    let a = p * 3 + c;
    let b = a * temporal + t;
    let d = b * patch + py;
    let i = d * patch + px;
    vstd::arithmetic::div_mod::lemma_fundamental_div_mod_converse(i, patch, d, px);
    vstd::arithmetic::div_mod::lemma_fundamental_div_mod_converse(d, patch, b, py);
    vstd::arithmetic::div_mod::lemma_fundamental_div_mod_converse(b, temporal, a, t);
    vstd::arithmetic::div_mod::lemma_fundamental_div_mod_converse(a, 3, p, c);
}

/// Every element of the patch vectors comes from a pixel of the image.
proof fn lemma_patch_source(
    patch: int,
    merge: int,
    temporal: int,
    height: int,
    width: int,
    i: int,
)
    requires
        0 < patch,
        0 < merge,
        0 < temporal,
        0 < height,
        0 < width,
        height % (patch * merge) == 0,
        width % (patch * merge) == 0,
        0 <= i < (height / patch) * (width / patch) * (3 * temporal * patch * patch),
    ensures
        ({
            let s = patch_source(patch, merge, temporal, width / patch / merge, i);
            &&& 0 <= s.0 < 3
            &&& 0 <= s.1 < height
            &&& 0 <= s.2 < width
            &&& width / patch / merge > 0
        }),
{
    let rows = height / (patch * merge);
    let cols = width / (patch * merge);
    let area = patch * merge;
    assert(area > 0) by (nonlinear_arith)
        requires
            patch > 0,
            merge > 0,
            area == patch * merge,
    ;
    vstd::arithmetic::div_mod::lemma_fundamental_div_mod(height, area);
    vstd::arithmetic::div_mod::lemma_fundamental_div_mod(width, area);
    vstd::arithmetic::div_mod::lemma_div_denominator(height, patch, merge);
    vstd::arithmetic::div_mod::lemma_div_denominator(width, patch, merge);
    assert(rows > 0) by (nonlinear_arith)
        requires
            height == area * rows,
            height > 0,
            area > 0,
    ;
    assert(cols > 0) by (nonlinear_arith)
        requires
            width == area * cols,
            width > 0,
            area > 0,
    ;
    lemma_exact_quotient(height, patch, merge, rows);
    lemma_exact_quotient(width, patch, merge, cols);
    let gh = height / patch;
    let gw = width / patch;
    assert(gh == merge * rows && gw == merge * cols);
    let n1 = i / patch;
    let frame = n1 / patch;
    let n2 = frame / temporal;
    let p = n2 / 3;
    let p2 = p / merge;
    let block = p2 / merge;
    let row = block / cols;
    let dim = 3 * temporal * patch * patch;
    assert(gh * gw * dim == gh * gw * 3 * temporal * patch * patch) by (nonlinear_arith)
        requires
            dim == 3 * temporal * patch * patch,
    ;
    let t0 = gh * gw;
    lemma_div_below(i, t0 * 3 * temporal * patch, patch);
    lemma_div_below(n1, t0 * 3 * temporal, patch);
    lemma_div_below(frame, t0 * 3, temporal);
    lemma_div_below(n2, t0, 3);
    assert(t0 == rows * cols * merge * merge) by (nonlinear_arith)
        requires
            t0 == gh * gw,
            gh == merge * rows,
            gw == merge * cols,
    ;
    lemma_div_below(p, rows * cols * merge, merge);
    lemma_div_below(p2, rows * cols, merge);
    lemma_div_below(block, rows, cols);
    let mw = p % merge;
    let mh = p2 % merge;
    let col = block % cols;
    let px = i % patch;
    let py = n1 % patch;
    vstd::arithmetic::div_mod::lemma_mod_bound(p, merge);
    vstd::arithmetic::div_mod::lemma_mod_bound(p2, merge);
    vstd::arithmetic::div_mod::lemma_mod_bound(block, cols);
    vstd::arithmetic::div_mod::lemma_mod_bound(i, patch);
    vstd::arithmetic::div_mod::lemma_mod_bound(n1, patch);
    lemma_mixed_below(row, mh, py, rows, merge, patch);
    lemma_mixed_below(col, mw, px, cols, merge, patch);
    assert(height == rows * merge * patch) by (nonlinear_arith)
        requires
            height == area * rows,
            area == patch * merge,
    ;
    assert(width == cols * merge * patch) by (nonlinear_arith)
        requires
            width == area * cols,
            area == patch * merge,
    ;
}

proof fn lemma_exact_quotient(n: int, patch: int, merge: int, k: int)
    requires
        patch > 0,
        merge > 0,
        k >= 0,
        n == (patch * merge) * k,
    ensures
        n / patch == merge * k,
        n / patch / merge == k,
{
    assert(n == (merge * k) * patch) by (nonlinear_arith)
        requires
            n == (patch * merge) * k,
    ;
    assert(merge * k >= 0) by (nonlinear_arith)
        requires
            merge > 0,
            k >= 0,
    ;
    vstd::arithmetic::div_mod::lemma_div_by_multiple(merge * k, patch);
    assert(merge * k == k * merge) by (nonlinear_arith);
    vstd::arithmetic::div_mod::lemma_div_by_multiple(k, merge);
}

proof fn lemma_div_below(n: int, q: int, d: int)
    requires
        0 <= n < q * d,
        d > 0,
    ensures
        0 <= n / d < q,
{
    vstd::arithmetic::div_mod::lemma_fundamental_div_mod(n, d);
    vstd::arithmetic::div_mod::lemma_mod_bound(n, d);
    vstd::arithmetic::div_mod::lemma_div_pos_is_pos(n, d);
    let a = n / d;
    assert(a < q) by (nonlinear_arith)
        requires
            n == d * a + n % d,
            0 <= n % d,
            n < q * d,
            d > 0,
    ;
}

proof fn lemma_mixed_below(a: int, b: int, c: int, na: int, nb: int, nc: int)
    requires
        0 <= a < na,
        0 <= b < nb,
        0 <= c < nc,
    ensures
        0 <= (a * nb + b) * nc + c < na * nb * nc,
        0 <= a * nb,
        0 <= (a * nb + b) * nc,
{
    assert(0 <= a * nb && a * nb + nb <= na * nb) by (nonlinear_arith)
        requires
            0 <= a,
            a + 1 <= na,
            0 <= nb,
    ;
    let s = a * nb + b;
    assert(0 <= s * nc && s * nc + nc <= na * nb * nc) by (nonlinear_arith)
        requires
            0 <= s,
            s + 1 <= na * nb,
            0 <= nc,
    ;
}

/// One element of the patch vectors.
fn patch_value(
    cfg: &ImageProcessorConfig,
    image: &Vec<u8>,
    height: usize,
    width: usize,
    levels: &Vec<F32Bits>,
    i: usize,
) -> (v: F32Bits)
    requires
        cfg@.error() is None,
        height > 0,
        width > 0,
        height as int % (cfg.patch_size * cfg.merge_size) == 0,
        width as int % (cfg.patch_size * cfg.merge_size) == 0,
        image@.len() == height * width * 3 <= usize::MAX,
        levels@.len() == LEVELS,
        i < patch_values(cfg@, image@, height as int, width as int, levels@).len(),
    ensures
        v == patch_values(cfg@, image@, height as int, width as int, levels@)[i as int],
{
    let patch: usize = cfg.patch_size;
    let merge: usize = cfg.merge_size;
    let temporal: usize = cfg.temporal_patch_size;
    let ghost s = patch_source(
        patch as int,
        merge as int,
        temporal as int,
        width as int / patch as int / merge as int,
        i as int,
    );
    proof {
        let total = (height as int / patch as int) * (width as int / patch as int) * (3 * temporal
            * patch * patch);
        assert(0 <= total) by {
            vstd::arithmetic::div_mod::lemma_div_pos_is_pos(height as int, patch as int);
            vstd::arithmetic::div_mod::lemma_div_pos_is_pos(width as int, patch as int);
            let a = height as int / patch as int;
            let b = width as int / patch as int;
            let d = 3 * temporal * patch * patch;
            assert(d >= 0) by (nonlinear_arith)
                requires
                    d == 3 * temporal * patch * patch,
            ;
            assert(a * b * d >= 0) by (nonlinear_arith)
                requires
                    a >= 0,
                    b >= 0,
                    d >= 0,
            ;
        }
        lemma_patch_source(
            patch as int,
            merge as int,
            temporal as int,
            height as int,
            width as int,
            i as int,
        );
        lemma_pixel_index(s.1, s.2, s.0, height as int, width as int);
    }
    let cols: usize = width / patch / merge;
    let px: usize = i % patch;
    let rest: usize = i / patch;
    let py: usize = rest % patch;
    let frame: usize = rest / patch;
    let c: usize = (frame / temporal) % 3;
    let p: usize = frame / temporal / 3;
    let mw: usize = p % merge;
    let mh: usize = (p / merge) % merge;
    let block: usize = p / merge / merge;
    let col: usize = block % cols;
    let row: usize = block / cols;
    proof {
        assert(s.1 == (row * merge + mh) * patch + py);
        assert(s.2 == (col * merge + mw) * patch + px);
        lemma_parts_fit(row as int, mh as int, py as int, merge as int, patch as int);
        lemma_parts_fit(col as int, mw as int, px as int, merge as int, patch as int);
    }
    let y: usize = (row * merge + mh) * patch + py;
    let x: usize = (col * merge + mw) * patch + px;
    let raw: u8 = image[(y * width + x) * 3 + c];
    levels[c * 256 + raw as usize]
}

proof fn lemma_parts_fit(a: int, b: int, c: int, nb: int, nc: int)
    requires
        0 <= a,
        0 <= b,
        0 <= c,
        1 <= nb,
        1 <= nc,
    ensures
        0 <= a * nb <= a * nb + b <= (a * nb + b) * nc <= (a * nb + b) * nc + c,
{
    let s = a * nb + b;
    assert(0 <= a * nb) by (nonlinear_arith)
        requires
            0 <= a,
            1 <= nb,
    ;
    assert(s <= s * nc) by (nonlinear_arith)
        requires
            0 <= s,
            1 <= nc,
    ;
}

/// Why an image is refused before it is resized, if it is.
pub open spec fn image_error(
    c: ImageView,
    bytes: nat,
    height: usize,
    width: usize,
) -> Option<ImageError> {
    if c.error() is Some {
        c.error()
    } else if height == 0 || width == 0 {
        Some(ImageError::EmptyImage)
    } else if height * width * 3 > usize::MAX {
        Some(ImageError::ImageSizeOverflow)
    } else if bytes != height * width * 3 {
        Some(
            ImageError::BufferLength {
                got: bytes as usize,
                want: (height * width * 3) as usize,
            },
        )
    } else {
        None
    }
}

/// Checks an RGB buffer of `height * width * 3` bytes.
pub fn check_image(
    cfg: &ImageProcessorConfig,
    rgb8: &[u8],
    height: usize,
    width: usize,
) -> (r: Result<(), ImageError>)
    ensures
        match r {
            Ok(_) => image_error(cfg@, rgb8@.len(), height, width) is None,
            Err(e) => image_error(cfg@, rgb8@.len(), height, width) == Some(e),
        },
{
    cfg.validate()?;
    if height == 0 || width == 0 {
        return Err(ImageError::EmptyImage);
    }
    let want: usize = match height.checked_mul(width) {
        Some(p) => match p.checked_mul(3) {
            Some(n) => n,
            None => {
                return Err(ImageError::ImageSizeOverflow);
            },
        },
        None => {
            return Err(ImageError::ImageSizeOverflow);
        },
    };
    if rgb8.len() != want {
        return Err(ImageError::BufferLength { got: rgb8.len(), want });
    }
    Ok(())
}

/// What the size of a checked image is found from: its sides, and the factor and pixel limits of
/// the configuration.
pub open spec fn planned(
    cfg: ImageProcessorConfig,
    bytes: nat,
    height: usize,
    width: usize,
    r: Result<Resize, ImageError>,
) -> bool {
    match image_error(cfg@, bytes, height, width) {
        Some(e) => r == Err::<Resize, ImageError>(e),
        None => resizes_to(
            height,
            width,
            (cfg.patch_size * cfg.merge_size) as usize,
            cfg.min_pixels,
            cfg.max_pixels,
            r,
        ),
    }
}

/// Checks an image and finds its resized size, as far as it follows from the sides. A bad
/// configuration or buffer is refused before a bad shape.
pub fn plan_image(
    cfg: &ImageProcessorConfig,
    rgb8: &[u8],
    height: usize,
    width: usize,
) -> (r: Result<Resize, ImageError>)
    ensures
        planned(*cfg, rgb8@.len(), height, width, r),
{
    check_image(cfg, rgb8, height, width)?;
    proof {
        assert(cfg.patch_size * cfg.merge_size <= 65_536) by (nonlinear_arith)
            requires
                cfg.patch_size <= 256,
                cfg.merge_size <= 256,
        ;
    }
    smart_resize(height, width, cfg.factor(), cfg.min_pixels, cfg.max_pixels)
}

/// The number of elements of all patch vectors, unless it exceeds a machine word.
fn patch_elements(grid_h: usize, grid_w: usize, temporal: usize, patch: usize) -> (n: Option<
    usize,
>)
    requires
        1 <= temporal <= 16,
        1 <= patch <= 256,
    ensures
        match n {
            Some(n) => n == grid_h * grid_w * (3 * temporal * patch * patch),
            None => grid_h * grid_w * (3 * temporal * patch * patch) > usize::MAX,
        },
{
    proof {
        assert(1 <= temporal * patch <= 4096) by (nonlinear_arith)
            requires
                1 <= temporal <= 16,
                1 <= patch <= 256,
        ;
        assert(3 * temporal * patch == 3 * (temporal * patch)) by (nonlinear_arith);
        let t = 3 * temporal * patch;
        assert(1 <= t * patch <= 3_145_728) by (nonlinear_arith)
            requires
                1 <= t <= 12_288,
                1 <= patch <= 256,
        ;
    }
    let dim: usize = 3 * temporal * patch * patch;
    match grid_h.checked_mul(grid_w) {
        Some(patches) => patches.checked_mul(dim),
        None => {
            proof {
                let g = grid_h * grid_w;
                assert(g <= g * dim) by (nonlinear_arith)
                    requires
                        0 <= g,
                        1 <= dim,
                ;
            }
            None
        },
    }
}

/// Preprocesses an RGB image into patch vectors. `size` is its resized height and width,
/// multiples of the configuration's factor; `across` and `down` are the resampling taps, and
/// `levels` the normalized value of each byte in each channel.
pub fn preprocess_image(
    cfg: &ImageProcessorConfig,
    rgb8: &[u8],
    height: usize,
    width: usize,
    size: (usize, usize),
    across: &Vec<Taps>,
    down: &Vec<Taps>,
    levels: &Vec<F32Bits>,
) -> (r: Result<ProcessedImage, ImageError>)
    requires
        image_error(cfg@, rgb8@.len(), height, width) is None ==> {
            &&& size.0 > 0
            &&& size.1 > 0
            &&& size.0 as int % (cfg.patch_size * cfg.merge_size) == 0
            &&& size.1 as int % (cfg.patch_size * cfg.merge_size) == 0
            &&& table_ok(across@, width as nat, size.1 as nat)
            &&& table_ok(down@, height as nat, size.0 as nat)
            &&& levels@.len() == LEVELS
        },
    ensures
        match r {
            Ok(image) => {
                let out = resized(
                    rgb8@,
                    height as nat,
                    width as nat,
                    size.0 as nat,
                    size.1 as nat,
                    across@,
                    down@,
                );
                &&& image_error(cfg@, rgb8@.len(), height, width) is None
                &&& height * size.1 * 3 <= usize::MAX
                &&& size.0 * size.1 * 3 <= usize::MAX
                &&& image.pixel_values@ == patch_values(
                    cfg@,
                    out,
                    size.0 as int,
                    size.1 as int,
                    levels@,
                )
                &&& image.grid@ == seq![
                    1usize,
                    size.0 / cfg.patch_size,
                    size.1 / cfg.patch_size,
                ]
            },
            Err(e) => match image_error(cfg@, rgb8@.len(), height, width) {
                Some(x) => e == x,
                None => if height * size.1 * 3 > usize::MAX {
                    e == ImageError::IntermediateTooLarge
                } else if size.0 * size.1 * 3 > usize::MAX {
                    e == ImageError::ImageTooLarge
                } else {
                    e == ImageError::PatchBufferOverflow && (size.0 / cfg.patch_size) * (size.1
                        / cfg.patch_size) * (3 * cfg.temporal_patch_size * cfg.patch_size
                        * cfg.patch_size) > usize::MAX
                },
            },
        },
{
    check_image(cfg, rgb8, height, width)?;
    let image = resize_rgb8_bicubic(rgb8, height, width, size.0, size.1, across, down)?;
    let grid_h: usize = size.0 / cfg.patch_size;
    let grid_w: usize = size.1 / cfg.patch_size;
    let total: usize = match patch_elements(
        grid_h,
        grid_w,
        cfg.temporal_patch_size,
        cfg.patch_size,
    ) {
        Some(n) => n,
        None => {
            return Err(ImageError::PatchBufferOverflow);
        },
    };
    let ghost want = patch_values(cfg@, image@, size.0 as int, size.1 as int, levels@);
    assert(want.len() == total);
    let mut pixel_values: Vec<u32> = Vec::new();
    let mut i: usize = 0;
    while i < total
        invariant
            i <= total == want.len(),
            want == patch_values(cfg@, image@, size.0 as int, size.1 as int, levels@),
            cfg@.error() is None,
            size.0 > 0,
            size.1 > 0,
            size.0 as int % (cfg.patch_size * cfg.merge_size) == 0,
            size.1 as int % (cfg.patch_size * cfg.merge_size) == 0,
            image@.len() == size.0 * size.1 * 3 <= usize::MAX,
            levels@.len() == LEVELS,
            pixel_values@ == want.take(i as int),
        decreases total - i,
    {
        pixel_values.push(patch_value(cfg, &image, size.0, size.1, levels, i));
        i = i + 1;
        assert(pixel_values@ =~= want.take(i as int));
    }
    assert(want.take(i as int) =~= want);
    let grid: [usize; 3] = [1, grid_h, grid_w];
    assert(grid@ =~= seq![1usize, size.0 / cfg.patch_size, size.1 / cfg.patch_size]);
    Ok(ProcessedImage { pixel_values, grid })
}

} // verus!
