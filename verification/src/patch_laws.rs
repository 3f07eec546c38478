//! Where each element of the patch vectors of an image comes from.

use vstd::prelude::*;

use crate::config::F32Bits;
use crate::image_processor::lemma_patch_order;
use crate::image_processor::patch_values;
use crate::image_processor::ImageView;

verus! {

/// A place in the patch vectors: a patch by its row and column in the grid of merged blocks and
/// its row and column in the block, and an element by its channel, frame, row and column.
pub struct Place {
    pub row: int,
    pub col: int,
    pub block_row: int,
    pub block_col: int,
    pub channel: int,
    pub frame: int,
    pub y: int,
    pub x: int,
}

impl Place {
    /// The place is one of an image of `height` by `width` pixels.
    pub open spec fn inside(self, c: ImageView, height: int, width: int) -> bool {
        let side = c.patch_size * c.merge_size;
        &&& 0 <= self.row && self.row * side < height
        &&& 0 <= self.col && self.col * side < width
        &&& 0 <= self.block_row < c.merge_size
        &&& 0 <= self.block_col < c.merge_size
        &&& 0 <= self.channel < 3
        &&& 0 <= self.frame < c.temporal_patch_size
        &&& 0 <= self.y < c.patch_size
        &&& 0 <= self.x < c.patch_size
    }

    /// The pixel row of the image.
    pub open spec fn pixel_y(self, c: ImageView) -> int {
        self.row * (c.patch_size * c.merge_size) + self.block_row * c.patch_size + self.y
    }

    /// The pixel column of the image.
    pub open spec fn pixel_x(self, c: ImageView) -> int {
        self.col * (c.patch_size * c.merge_size) + self.block_col * c.patch_size + self.x
    }

    /// The patch, counted block by block.
    pub open spec fn patch(self, c: ImageView, cols: int) -> int {
        ((self.row * cols + self.col) * c.merge_size + self.block_row) * c.merge_size
            + self.block_col
    }

    /// The element, counted patch by patch and in each by channel, frame, row and column.
    pub open spec fn element(self, c: ImageView, cols: int) -> int {
        (((self.patch(c, cols) * 3 + self.channel) * c.temporal_patch_size + self.frame)
            * c.patch_size + self.y) * c.patch_size + self.x
    }
}

/// The part of the table of levels that belongs to one channel.
pub open spec fn channel_part(levels: Seq<F32Bits>, channel: int) -> Seq<F32Bits> {
    levels.subrange(256 * channel, 256 * channel + 256)
}

/// The configuration and the image are such that patches cover the image.
pub open spec fn covers(c: ImageView, height: int, width: int) -> bool {
    &&& c.error() is None
    &&& 0 < height
    &&& 0 < width
    &&& height % (c.patch_size * c.merge_size) == 0
    &&& width % (c.patch_size * c.merge_size) == 0
}

/// Every element of the patch vectors is the level of its own channel for the byte of that
/// channel at its pixel.
pub proof fn lemma_patch_element(
    c: ImageView,
    image: Seq<u8>,
    height: int,
    width: int,
    levels: Seq<F32Bits>,
    at: Place,
)
    requires
        covers(c, height, width),
        image.len() == height * width * 3,
        levels.len() == 768,
        at.inside(c, height, width),
    ensures
        ({
            let i = at.element(c, width / (c.patch_size * c.merge_size));
            let byte = image[(at.pixel_y(c) * width + at.pixel_x(c)) * 3 + at.channel];
            let values = patch_values(c, image, height, width, levels);
            &&& 0 <= at.pixel_y(c) < height
            &&& 0 <= at.pixel_x(c) < width
            &&& 0 <= i < values.len()
            &&& values[i] == channel_part(levels, at.channel)[byte as int]
        }),
{
    let patch = c.patch_size as int;
    let merge = c.merge_size as int;
    let temporal = c.temporal_patch_size as int;
    let side = patch * merge;
    let rows = height / side;
    let cols = width / side;
    assert(side > 0) by (nonlinear_arith)
        requires
            patch > 0,
            merge > 0,
            side == patch * merge,
    ;
    vstd::arithmetic::div_mod::lemma_fundamental_div_mod(height, side);
    vstd::arithmetic::div_mod::lemma_fundamental_div_mod(width, side);
    vstd::arithmetic::div_mod::lemma_div_denominator(width, patch, merge);
    assert(at.row < rows && at.col < cols) by (nonlinear_arith)
        requires
            at.row * side < height,
            at.col * side < width,
            height == side * rows,
            width == side * cols,
            side > 0,
    ;
    let p = at.patch(c, cols);
    let block = at.row * cols + at.col;
    let p2 = block * merge + at.block_row;
    lemma_split(p2, at.block_col, merge);
    lemma_split(block, at.block_row, merge);
    lemma_split(at.row, at.col, cols);
    assert(p / merge == p2 && p % merge == at.block_col);
    assert(0 <= block) by (nonlinear_arith)
        requires
            0 <= at.row,
            0 <= at.col < cols,
            block == at.row * cols + at.col,
    ;
    assert(0 <= p2 && 0 <= p) by (nonlinear_arith)
        requires
            0 <= block,
            0 <= at.block_row,
            0 <= at.block_col,
            0 < merge,
            p2 == block * merge + at.block_row,
            p == p2 * merge + at.block_col,
    ;
    lemma_patch_order(patch, merge, temporal, cols, p, at.channel, at.frame, at.y, at.x);
    lemma_pixel(at.row, at.block_row, at.y, merge, patch, side);
    lemma_pixel(at.col, at.block_col, at.x, merge, patch, side);
    assert((at.row + 1) * side <= height) by (nonlinear_arith)
        requires
            at.row + 1 <= rows,
            height == side * rows,
            side > 0,
    ;
    assert((at.col + 1) * side <= width) by (nonlinear_arith)
        requires
            at.col + 1 <= cols,
            width == side * cols,
            side > 0,
    ;
    assert(at.row * side + side == (at.row + 1) * side) by (nonlinear_arith);
    assert(at.col * side + side == (at.col + 1) * side) by (nonlinear_arith);
    assert(at.block_row * patch + at.y < side) by (nonlinear_arith)
        requires
            at.block_row + 1 <= merge,
            at.y < patch,
            side == patch * merge,
            patch > 0,
    ;
    assert(at.block_col * patch + at.x < side) by (nonlinear_arith)
        requires
            at.block_col + 1 <= merge,
            at.x < patch,
            side == patch * merge,
            patch > 0,
    ;
    assert(0 <= at.row * side && 0 <= at.col * side && 0 <= at.block_row * patch && 0
        <= at.block_col * patch) by (nonlinear_arith)
        requires
            0 <= at.row,
            0 <= at.col,
            0 <= at.block_row,
            0 <= at.block_col,
            0 < side,
            0 < patch,
    ;
    lemma_element_below(c, height, width, at, rows, cols);
}

/// Quotient and remainder of a number written in base `d`.
proof fn lemma_split(q: int, r: int, d: int)
    requires
        0 <= r < d,
    ensures
        (q * d + r) / d == q,
        (q * d + r) % d == r,
{
    vstd::arithmetic::div_mod::lemma_fundamental_div_mod_converse(q * d + r, d, q, r);
}

proof fn lemma_pixel(row: int, block: int, y: int, merge: int, patch: int, side: int)
    requires
        side == patch * merge,
    ensures
        (row * merge + block) * patch + y == row * side + block * patch + y,
{
    assert((row * merge + block) * patch == row * (patch * merge) + block * patch)
        by (nonlinear_arith);
}

/// A place lies among the elements.
proof fn lemma_element_below(
    c: ImageView,
    height: int,
    width: int,
    at: Place,
    rows: int,
    cols: int,
)
    requires
        c.error() is None,
        height == (c.patch_size * c.merge_size) * rows,
        width == (c.patch_size * c.merge_size) * cols,
        0 <= at.row < rows,
        0 <= at.col < cols,
        0 <= at.block_row < c.merge_size,
        0 <= at.block_col < c.merge_size,
        0 <= at.channel < 3,
        0 <= at.frame < c.temporal_patch_size,
        0 <= at.y < c.patch_size,
        0 <= at.x < c.patch_size,
    ensures
        0 <= at.element(c, cols),
        at.element(c, cols) < (height / c.patch_size as int) * (width / c.patch_size as int) * (3
            * c.temporal_patch_size * c.patch_size * c.patch_size),
{
    let patch = c.patch_size as int;
    let merge = c.merge_size as int;
    let temporal = c.temporal_patch_size as int;
    let block = at.row * cols + at.col;
    let p2 = block * merge + at.block_row;
    let p = p2 * merge + at.block_col;
    lemma_below(at.row, at.col, rows, cols);
    lemma_below(block, at.block_row, rows * cols, merge);
    lemma_below(p2, at.block_col, rows * cols * merge, merge);
    let patches = rows * cols * merge * merge;
    lemma_below(p, at.channel, patches, 3);
    lemma_below(p * 3 + at.channel, at.frame, patches * 3, temporal);
    let f = (p * 3 + at.channel) * temporal + at.frame;
    lemma_below(f, at.y, patches * 3 * temporal, patch);
    lemma_below(f * patch + at.y, at.x, patches * 3 * temporal * patch, patch);
    assert(height == (rows * merge) * patch) by (nonlinear_arith)
        requires
            height == (patch * merge) * rows,
    ;
    assert(width == (cols * merge) * patch) by (nonlinear_arith)
        requires
            width == (patch * merge) * cols,
    ;
    vstd::arithmetic::div_mod::lemma_div_by_multiple(rows * merge, patch);
    vstd::arithmetic::div_mod::lemma_div_by_multiple(cols * merge, patch);
    let (gh, gw) = (rows * merge, cols * merge);
    assert(patches == gh * gw) by (nonlinear_arith)
        requires
            patches == rows * cols * merge * merge,
            gh == rows * merge,
            gw == cols * merge,
    ;
    let dim = 3 * temporal * patch * patch;
    assert(patches * 3 * temporal * patch * patch == patches * dim) by (nonlinear_arith)
        requires
            dim == 3 * temporal * patch * patch,
    ;
}

proof fn lemma_below(a: int, b: int, na: int, nb: int)
    requires
        0 <= a < na,
        0 <= b < nb,
    ensures
        0 <= a * nb + b < na * nb,
{
    assert(0 <= a * nb + b < na * nb) by (nonlinear_arith)
        requires
            0 <= a,
            a + 1 <= na,
            0 <= b < nb,
    ;
}

/// A patch vector element of one channel depends on that channel alone: it stays when the
/// levels of another channel change, and when the bytes of another channel do.
pub proof fn lemma_channels_independent(
    c: ImageView,
    a: Seq<u8>,
    b: Seq<u8>,
    height: int,
    width: int,
    levels_a: Seq<F32Bits>,
    levels_b: Seq<F32Bits>,
    at: Place,
)
    requires
        covers(c, height, width),
        a.len() == height * width * 3,
        b.len() == a.len(),
        levels_a.len() == 768,
        levels_b.len() == 768,
        at.inside(c, height, width),
        forall|k: int| 0 <= k < a.len() && k % 3 == at.channel ==> #[trigger] a[k] == b[k],
        channel_part(levels_a, at.channel) == channel_part(levels_b, at.channel),
    ensures
        ({
            let i = at.element(c, width / (c.patch_size * c.merge_size));
            patch_values(c, a, height, width, levels_a)[i] == patch_values(
                c,
                b,
                height,
                width,
                levels_b,
            )[i]
        }),
{
    lemma_patch_element(c, a, height, width, levels_a, at);
    lemma_patch_element(c, b, height, width, levels_b, at);
    let (y, x) = (at.pixel_y(c), at.pixel_x(c));
    crate::image_resize::lemma_pixel_index(y, x, at.channel, height, width);
    assert(((y * width + x) * 3 + at.channel) % 3 == at.channel);
}

} // verus!
