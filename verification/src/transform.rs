//! The five frame transforms. Each takes a frame and leaves a frame of the
//! same width and height; each is stated as a function on grids and
//! implemented on a pixel buffer.

use vstd::prelude::*;
use crate::buffer::PixelBuffer;
use crate::grid::{has_size, height_of, well_formed, width_of, Grid};
use crate::pixel::Pixel;

verus! {

/// One colour sample times `numerator / denominator`, rounded to the
/// nearest integer (halves go up) and clamped to 255.
pub open spec fn scaled_sample(value: u8, numerator: int, denominator: int) -> u8 {
    let rounded = (2 * (value * numerator) + denominator) / (2 * denominator);
    if rounded > 255 {
        255u8
    } else {
        rounded as u8
    }
}

/// Red, green and blue scaled; alpha as it was.
pub open spec fn scaled_pixel(p: Pixel, numerator: int, denominator: int) -> Pixel {
    Pixel {
        red: scaled_sample(p.red, numerator, denominator),
        green: scaled_sample(p.green, numerator, denominator),
        blue: scaled_sample(p.blue, numerator, denominator),
        alpha: p.alpha,
    }
}

/// Every pixel of `g` scaled by `numerator / denominator`.
pub open spec fn brightened(g: Grid, numerator: int, denominator: int) -> Grid {
    Seq::new(
        g.len(),
        |y: int| Seq::new(g[y].len(), |x: int| scaled_pixel(g[y][x], numerator, denominator)),
    )
}

/// Every row of `g` reversed.
pub open spec fn flipped_horizontally(g: Grid) -> Grid {
    Seq::new(g.len(), |y: int| Seq::new(g[y].len(), |x: int| g[y][g[y].len() - 1 - x]))
}

/// The rows of `g` in reverse order.
pub open spec fn flipped_vertically(g: Grid) -> Grid {
    Seq::new(g.len(), |y: int| g[g.len() - 1 - y])
}

/// The displacement of the shake on both axes: 5 on odd frames, -5 on even
/// ones.
pub open spec fn shake_offset(frame_index: nat) -> int {
    if frame_index % 2 == 1 {
        5
    } else {
        -5
    }
}

/// The remainder of the division that rounds towards zero: it has the sign
/// of `a`.
pub open spec fn truncated_remainder(a: int, b: int) -> int {
    if a >= 0 {
        a % b
    } else {
        -((-a) % b)
    }
}

/// The pixel that the shake by `offset` leaves at `(x, y)`: the source
/// pixel at the displaced position where both coordinates of that position
/// are inside the grid, transparent black elsewhere.
pub open spec fn shaken_pixel(g: Grid, x: int, y: int, offset: int) -> Pixel {
    let nx = truncated_remainder(x + offset, width_of(g) as int);
    let ny = truncated_remainder(y + offset, height_of(g) as int);
    if nx >= 0 && ny >= 0 && nx < width_of(g) && ny < height_of(g) {
        g[ny][nx]
    } else {
        Pixel::blank()
    }
}

/// The frame `g` shaken as frame number `frame_index` of its run.
pub open spec fn shaken(g: Grid, frame_index: nat) -> Grid {
    Seq::new(
        g.len(),
        |y: int| Seq::new(g[y].len(), |x: int| shaken_pixel(g, x, y, shake_offset(frame_index))),
    )
}

/// The column that the deformed mirror copies into column `x`: the left
/// half folds inward around the middle column, the right half starts again
/// at column 0.
pub open spec fn folded_column(x: int, width: int) -> int {
    if x < width / 2 {
        width / 2 - x
    } else {
        x - width / 2
    }
}

/// Every column of `g` replaced by the column that `folded_column` names.
pub open spec fn deformed_mirror(g: Grid) -> Grid {
    Seq::new(
        g.len(),
        |y: int| Seq::new(g[y].len(), |x: int| g[y][folded_column(x, g[y].len() as int)]),
    )
}

/// One sample scaled, rounded and clamped.
fn scale_sample(value: u8, numerator: u32, denominator: u32) -> (r: u8)
    requires
        denominator > 0,
    ensures
        r == scaled_sample(value, numerator as int, denominator as int),
{
    assert(0 <= value * numerator <= 255 * 0xffff_ffff) by (nonlinear_arith)
        requires
            0 <= value <= 255,
            0 <= numerator <= 0xffff_ffff,
    ;
    let product: u64 = (value as u64) * (numerator as u64);
    let rounded: u64 = (2 * product + denominator as u64) / (2 * denominator as u64);
    if rounded > 255 {
        255
    } else {
        rounded as u8
    }
}

/// Scales the red, green and blue of every pixel by the factor
/// `numerator / denominator`, in place; alpha is left alone. The factor 1.2
/// is 6/5. The denominator must not be zero.
pub fn adjust_brightness(frame: &mut PixelBuffer, numerator: u32, denominator: u32)
    requires
        denominator > 0,
    ensures
        final(frame)@ == brightened(old(frame)@, numerator as int, denominator as int),
        well_formed(final(frame)@),
        width_of(final(frame)@) == width_of(old(frame)@),
        height_of(final(frame)@) == height_of(old(frame)@),
{
    let (width, height) = frame.dimensions();
    let ghost before = frame@;
    let mut y: u32 = 0;
    while y < height
        invariant
            y <= height,
            denominator > 0,
            has_size(before, width as int, height as int),
            has_size(frame@, width as int, height as int),
            forall|yy: int, xx: int|
                0 <= yy < height && 0 <= xx < width ==> #[trigger] frame@[yy][xx] == (if yy < y {
                    scaled_pixel(before[yy][xx], numerator as int, denominator as int)
                } else {
                    before[yy][xx]
                }),
        decreases height - y,
    {
        let mut x: u32 = 0;
        while x < width
            invariant
                y < height,
                x <= width,
                denominator > 0,
                has_size(before, width as int, height as int),
                has_size(frame@, width as int, height as int),
                forall|yy: int, xx: int|
                    0 <= yy < height && 0 <= xx < width ==> #[trigger] frame@[yy][xx] == (if yy < y
                        || (yy == y && xx < x) {
                        scaled_pixel(before[yy][xx], numerator as int, denominator as int)
                    } else {
                        before[yy][xx]
                    }),
            decreases width - x,
        {
            let p = frame.get_pixel(x, y);
            let q = Pixel {
                red: scale_sample(p.red, numerator, denominator),
                green: scale_sample(p.green, numerator, denominator),
                blue: scale_sample(p.blue, numerator, denominator),
                alpha: p.alpha,
            };
            frame.put_pixel(x, y, q);
            x = x + 1;
        }
        y = y + 1;
    }
    assert(frame@ =~~= brightened(before, numerator as int, denominator as int));
}

/// Mirrors the frame left to right, in place: in every row the pixels at
/// `x` and `width - 1 - x` change places.
pub fn invert_frame_horizontally(frame: &mut PixelBuffer)
    ensures
        final(frame)@ == flipped_horizontally(old(frame)@),
        well_formed(final(frame)@),
        width_of(final(frame)@) == width_of(old(frame)@),
        height_of(final(frame)@) == height_of(old(frame)@),
{
    let (width, height) = frame.dimensions();
    let ghost before = frame@;
    let half = width / 2;
    let mut y: u32 = 0;
    while y < height
        invariant
            y <= height,
            half == width / 2,
            has_size(before, width as int, height as int),
            has_size(frame@, width as int, height as int),
            forall|yy: int, xx: int|
                0 <= yy < height && 0 <= xx < width ==> #[trigger] frame@[yy][xx] == (if yy < y {
                    before[yy][width - 1 - xx]
                } else {
                    before[yy][xx]
                }),
        decreases height - y,
    {
        let mut x: u32 = 0;
        while x < half
            invariant
                y < height,
                x <= half,
                half == width / 2,
                has_size(before, width as int, height as int),
                has_size(frame@, width as int, height as int),
                forall|yy: int, xx: int|
                    0 <= yy < height && 0 <= xx < width ==> #[trigger] frame@[yy][xx] == (if yy < y
                        || (yy == y && (xx < x || xx > width - 1 - x)) {
                        before[yy][width - 1 - xx]
                    } else {
                        before[yy][xx]
                    }),
            decreases half - x,
        {
            let left = frame.get_pixel(x, y);
            let right = frame.get_pixel(width - 1 - x, y);
            frame.put_pixel(x, y, right);
            frame.put_pixel(width - 1 - x, y, left);
            x = x + 1;
        }
        y = y + 1;
    }
    assert(frame@ =~~= flipped_horizontally(before));
}

/// Mirrors the frame top to bottom, in place: in every column the pixels
/// at `y` and `height - 1 - y` change places.
pub fn invert_frame_vertically(frame: &mut PixelBuffer)
    ensures
        final(frame)@ == flipped_vertically(old(frame)@),
        well_formed(final(frame)@),
        width_of(final(frame)@) == width_of(old(frame)@),
        height_of(final(frame)@) == height_of(old(frame)@),
{
    let (width, height) = frame.dimensions();
    let ghost before = frame@;
    let half = height / 2;
    let mut x: u32 = 0;
    while x < width
        invariant
            x <= width,
            half == height / 2,
            has_size(before, width as int, height as int),
            has_size(frame@, width as int, height as int),
            forall|yy: int, xx: int|
                0 <= yy < height && 0 <= xx < width ==> #[trigger] frame@[yy][xx] == (if xx < x {
                    before[height - 1 - yy][xx]
                } else {
                    before[yy][xx]
                }),
        decreases width - x,
    {
        let mut y: u32 = 0;
        while y < half
            invariant
                x < width,
                y <= half,
                half == height / 2,
                has_size(before, width as int, height as int),
                has_size(frame@, width as int, height as int),
                forall|yy: int, xx: int|
                    0 <= yy < height && 0 <= xx < width ==> #[trigger] frame@[yy][xx] == (if xx < x
                        || (xx == x && (yy < y || yy > height - 1 - y)) {
                        before[height - 1 - yy][xx]
                    } else {
                        before[yy][xx]
                    }),
            decreases half - y,
        {
            let upper = frame.get_pixel(x, y);
            let lower = frame.get_pixel(x, height - 1 - y);
            frame.put_pixel(x, y, lower);
            frame.put_pixel(x, height - 1 - y, upper);
            y = y + 1;
        }
        x = x + 1;
    }
    assert(frame@ =~~= flipped_vertically(before));
}

/// The remainder with the sign of `a`.
fn remainder_towards_zero(a: i64, b: i64) -> (r: i64)
    requires
        b > 0,
        a > i64::MIN,
    ensures
        r == truncated_remainder(a as int, b as int),
{
    if a >= 0 {
        ((a as u64) % (b as u64)) as i64
    } else {
        -((((-a) as u64) % (b as u64)) as i64)
    }
}

/// Replaces the frame by its shaken copy: every pixel is fetched from the
/// position displaced by 5 (odd frames) or -5 (even frames) on both axes,
/// and stays transparent black where that position has a negative
/// coordinate.
pub fn apply_shake_effect(frame: &mut PixelBuffer, frame_index: u64)
    ensures
        final(frame)@ == shaken(old(frame)@, frame_index as nat),
        well_formed(final(frame)@),
        width_of(final(frame)@) == width_of(old(frame)@),
        height_of(final(frame)@) == height_of(old(frame)@),
{
    let (width, height) = frame.dimensions();
    let ghost before = frame@;
    let offset: i64 = if frame_index % 2 == 1 {
        5
    } else {
        -5
    };
    let mut shaken_img = frame.blank_like();
    let mut y: u32 = 0;
    while y < height
        invariant
            y <= height,
            frame@ == before,
            offset == shake_offset(frame_index as nat),
            has_size(before, width as int, height as int),
            has_size(shaken_img@, width as int, height as int),
            forall|yy: int, xx: int|
                0 <= yy < height && 0 <= xx < width ==> #[trigger] shaken_img@[yy][xx] == (if yy
                    < y {
                    shaken_pixel(before, xx, yy, offset as int)
                } else {
                    Pixel::blank()
                }),
        decreases height - y,
    {
        let mut x: u32 = 0;
        while x < width
            invariant
                y < height,
                x <= width,
                frame@ == before,
                offset == shake_offset(frame_index as nat),
                has_size(before, width as int, height as int),
                has_size(shaken_img@, width as int, height as int),
                forall|yy: int, xx: int|
                    0 <= yy < height && 0 <= xx < width ==> #[trigger] shaken_img@[yy][xx] == (if yy
                        < y || (yy == y && xx < x) {
                        shaken_pixel(before, xx, yy, offset as int)
                    } else {
                        Pixel::blank()
                    }),
            decreases width - x,
        {
            let nx = remainder_towards_zero(x as i64 + offset, width as i64);
            let ny = remainder_towards_zero(y as i64 + offset, height as i64);
            if nx >= 0 && ny >= 0 && nx < width as i64 && ny < height as i64 {
                let p = frame.get_pixel(nx as u32, ny as u32);
                shaken_img.put_pixel(x, y, p);
            }
            x = x + 1;
        }
        y = y + 1;
    }
    assert(shaken_img@ =~~= shaken(before, frame_index as nat));
    *frame = shaken_img;
}

/// Replaces the frame by its deformed mirror image: column `x` receives
/// column `width / 2 - x` where `x < width / 2` and column `x - width / 2`
/// elsewhere, row for row.
pub fn apply_deformed_mirror_effect(frame: &mut PixelBuffer)
    ensures
        final(frame)@ == deformed_mirror(old(frame)@),
        well_formed(final(frame)@),
        width_of(final(frame)@) == width_of(old(frame)@),
        height_of(final(frame)@) == height_of(old(frame)@),
{
    let (width, height) = frame.dimensions();
    let ghost before = frame@;
    let half = width / 2;
    let mut mirrored_img = frame.blank_like();
    let mut y: u32 = 0;
    while y < height
        invariant
            y <= height,
            half == width / 2,
            frame@ == before,
            has_size(before, width as int, height as int),
            has_size(mirrored_img@, width as int, height as int),
            forall|yy: int, xx: int|
                0 <= yy < height && 0 <= xx < width ==> #[trigger] mirrored_img@[yy][xx] == (if yy
                    < y {
                    before[yy][folded_column(xx, width as int)]
                } else {
                    Pixel::blank()
                }),
        decreases height - y,
    {
        let mut x: u32 = 0;
        while x < width
            invariant
                y < height,
                x <= width,
                half == width / 2,
                frame@ == before,
                has_size(before, width as int, height as int),
                has_size(mirrored_img@, width as int, height as int),
                forall|yy: int, xx: int|
                    0 <= yy < height && 0 <= xx < width ==> #[trigger] mirrored_img@[yy][xx] == (
                    if yy < y || (yy == y && xx < x) {
                        before[yy][folded_column(xx, width as int)]
                    } else {
                        Pixel::blank()
                    }),
            decreases width - x,
        {
            let new_x = if x < half {
                half - x
            } else {
                x - half
            };
            let p = frame.get_pixel(new_x, y);
            mirrored_img.put_pixel(x, y, p);
            x = x + 1;
        }
        y = y + 1;
    }
    assert(mirrored_img@ =~~= deformed_mirror(before));
    *frame = mirrored_img;
}

/// Flipping a frame left to right twice gives the frame back.
pub proof fn lemma_horizontal_flip_twice(g: Grid)
    ensures
        flipped_horizontally(flipped_horizontally(g)) == g,
{
    assert(flipped_horizontally(flipped_horizontally(g)) =~~= g);
}

/// Flipping a frame top to bottom twice gives the frame back.
pub proof fn lemma_vertical_flip_twice(g: Grid)
    ensures
        flipped_vertically(flipped_vertically(g)) == g,
{
    assert(flipped_vertically(flipped_vertically(g)) =~~= g);
}

/// A factor of one (any fraction with equal terms) leaves every sample as
/// it is.
pub proof fn lemma_unit_factor_keeps_sample(value: u8, denominator: int)
    requires
        denominator > 0,
    ensures
        scaled_sample(value, denominator, denominator) == value,
{
    let d = denominator;
    let v = value as int;
    assert((2 * (v * d) + d) / (2 * d) == v) by (nonlinear_arith)
        requires
            d > 0,
            0 <= v,
    {
        assert(2 * (v * d) + d == v * (2 * d) + d);
        vstd::arithmetic::div_mod::lemma_fundamental_div_mod_converse(
            2 * (v * d) + d,
            2 * d,
            v,
            d,
        );
    }
}

/// A factor of one leaves the whole frame as it is: red, green, blue and
/// alpha of every pixel.
pub proof fn lemma_unit_factor_keeps_frame(g: Grid, denominator: int)
    requires
        denominator > 0,
    ensures
        brightened(g, denominator, denominator) == g,
{
    assert forall|y: int, x: int| 0 <= y < g.len() && 0 <= x < g[y].len() implies brightened(
        g,
        denominator,
        denominator,
    )[y][x] == #[trigger] g[y][x] by {
        lemma_unit_factor_keeps_sample(g[y][x].red, denominator);
        lemma_unit_factor_keeps_sample(g[y][x].green, denominator);
        lemma_unit_factor_keeps_sample(g[y][x].blue, denominator);
    }
    assert(brightened(g, denominator, denominator) =~~= g);
}

/// A scaled sample is the product rounded to the nearest integer, halves
/// going up, unless that exceeds 255, where it is 255.
pub proof fn lemma_scaled_sample_is_rounded(value: u8, numerator: int, denominator: int)
    requires
        numerator >= 0,
        denominator > 0,
    ensures
        ({
            let r = scaled_sample(value, numerator, denominator) as int;
            let twice = 2 * (value * numerator);
            &&& r < 255 ==> 2 * denominator * r <= twice + denominator < 2 * denominator * (r + 1)
            &&& r == 255 ==> twice + denominator >= 2 * denominator * 255
        }),
{
    let total = 2 * (value * numerator) + denominator;
    let divisor = 2 * denominator;
    assert(0 <= value * numerator) by (nonlinear_arith)
        requires
            0 <= value,
            0 <= numerator,
    ;
    vstd::arithmetic::div_mod::lemma_fundamental_div_mod(total, divisor);
    vstd::arithmetic::div_mod::lemma_mod_bound(total, divisor);
    vstd::arithmetic::div_mod::lemma_div_pos_is_pos(total, divisor);
    let q = total / divisor;
    assert(divisor * q + total % divisor == total);
    assert(divisor * (q + 1) == divisor * q + divisor) by (nonlinear_arith);
    if q > 255 {
        assert(divisor * q >= divisor * 255) by (nonlinear_arith)
            requires
                q > 255,
                divisor > 0,
        ;
    }
}

/// With the factor 6/5 every sample becomes 1.2 times its value rounded to
/// the nearest integer, and 255 from 213 on.
pub proof fn lemma_brighter_sample(value: u8)
    ensures
        ({
            let r = scaled_sample(value, 6, 5) as int;
            &&& value <= 212 ==> r < 255 && -5 < 10 * r - 12 * value <= 5
            &&& value >= 213 ==> r == 255
        }),
{
    lemma_scaled_sample_is_rounded(value, 6, 5);
}

/// Scaling leaves the alpha of every pixel untouched, whatever the factor.
pub proof fn lemma_brightness_keeps_alpha(g: Grid, numerator: int, denominator: int, x: int, y: int)
    requires
        0 <= y < g.len(),
        0 <= x < g[y].len(),
    ensures
        brightened(g, numerator, denominator)[y][x].alpha == g[y][x].alpha,
{
}

/// The shakes of an even and of an odd frame displace by opposite amounts:
/// by -5 and by 5, on both axes, whatever the frame.
pub proof fn lemma_shake_offsets_opposite(g: Grid, even_index: nat, odd_index: nat, x: int, y: int)
    requires
        even_index % 2 == 0,
        odd_index % 2 == 1,
        0 <= y < g.len(),
        0 <= x < g[y].len(),
    ensures
        shake_offset(even_index) == -shake_offset(odd_index),
        shake_offset(odd_index) == 5,
        shaken(g, even_index)[y][x] == shaken_pixel(g, x, y, -5),
        shaken(g, odd_index)[y][x] == shaken_pixel(g, x, y, 5),
{
}

/// Every transform gives a frame of the same width and height as its
/// input.
pub proof fn lemma_transforms_keep_size(g: Grid, numerator: int, denominator: int, frame_index: nat)
    requires
        well_formed(g),
    ensures
        has_size(brightened(g, numerator, denominator), width_of(g) as int, height_of(g) as int),
        has_size(flipped_horizontally(g), width_of(g) as int, height_of(g) as int),
        has_size(flipped_vertically(g), width_of(g) as int, height_of(g) as int),
        has_size(shaken(g, frame_index), width_of(g) as int, height_of(g) as int),
        has_size(deformed_mirror(g), width_of(g) as int, height_of(g) as int),
{
}

} // verus!
