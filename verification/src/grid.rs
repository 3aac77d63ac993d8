//! The mathematical model of a frame: a sequence of rows, each a sequence of
//! pixels. `g[y][x]` is the pixel in column `x` of row `y`.

use vstd::prelude::*;
use crate::pixel::Pixel;

verus! {

/// The rows of a frame, from the top; each row from the left.
pub type Grid = Seq<Seq<Pixel>>;

/// A grid is well formed when it has at least one row and one column and
/// all its rows have the same length.
pub open spec fn well_formed(g: Grid) -> bool {
    &&& g.len() > 0
    &&& g[0].len() > 0
    &&& forall|y: int| 0 <= y < g.len() ==> (#[trigger] g[y]).len() == g[0].len()
}

/// The number of columns: the length of the first row.
pub open spec fn width_of(g: Grid) -> nat {
    if g.len() > 0 {
        g[0].len()
    } else {
        0
    }
}

/// The number of rows.
pub open spec fn height_of(g: Grid) -> nat {
    g.len()
}

/// Whether `g` has exactly `width` columns and `height` rows.
pub open spec fn has_size(g: Grid, width: int, height: int) -> bool {
    &&& g.len() == height
    &&& forall|y: int| 0 <= y < g.len() ==> (#[trigger] g[y]).len() == width
}

/// The grid of `width` by `height` pixels all equal to `p`.
pub open spec fn filled(width: int, height: int, p: Pixel) -> Grid {
    Seq::new(height as nat, |y: int| Seq::new(width as nat, |x: int| p))
}

/// The grid stored row by row in `data`, four samples per pixel: the pixel
/// at `(x, y)` starts at offset `4 * (y * width + x)`.
pub open spec fn from_samples(width: int, height: int, data: Seq<u8>) -> Grid {
    Seq::new(
        height as nat,
        |y: int| Seq::new(width as nat, |x: int| Pixel::at_offset(data, 4 * (y * width + x))),
    )
}

/// The number of samples that a grid of this size is stored in.
pub open spec fn sample_count(width: int, height: int) -> int {
    4 * (width * height)
}

/// A cell inside the grid has its four samples inside the data.
pub proof fn lemma_cell_in_bounds(width: int, height: int, x: int, y: int)
    requires
        0 <= x < width,
        0 <= y < height,
    ensures
        0 <= y * width + x < width * height,
        0 <= 4 * (y * width + x),
        4 * (y * width + x) + 3 < sample_count(width, height),
{
    assert(0 <= y * width + x < width * height) by (nonlinear_arith)
        requires
            0 <= x < width,
            0 <= y < height,
    ;
}

/// Two cells of one grid that share an offset are the same cell.
pub proof fn lemma_cell_offsets_distinct(width: int, x1: int, y1: int, x2: int, y2: int)
    requires
        0 <= x1 < width,
        0 <= x2 < width,
        y1 * width + x1 == y2 * width + x2,
    ensures
        x1 == x2,
        y1 == y2,
{
    assert(y1 == y2) by (nonlinear_arith)
        requires
            0 <= x1 < width,
            0 <= x2 < width,
            y1 * width + x1 == y2 * width + x2,
    ;
}

/// The samples read as a grid have the size they were read with.
pub proof fn lemma_from_samples_size(width: int, height: int, data: Seq<u8>)
    requires
        width > 0,
        height > 0,
    ensures
        well_formed(from_samples(width, height, data)),
        has_size(from_samples(width, height, data), width, height),
        width_of(from_samples(width, height, data)) == width,
        height_of(from_samples(width, height, data)) == height,
{
}

/// A grid is stored in one way only: two sample sequences of the right
/// length that hold the same grid are the same sequence.
pub proof fn lemma_samples_unique(width: int, height: int, a: Seq<u8>, b: Seq<u8>)
    requires
        width > 0,
        height > 0,
        a.len() == sample_count(width, height),
        b.len() == sample_count(width, height),
        from_samples(width, height, a) == from_samples(width, height, b),
    ensures
        a == b,
{
    let ga = from_samples(width, height, a);
    let gb = from_samples(width, height, b);
    assert forall|i: int| 0 <= i < a.len() implies a[i] == b[i] by {
        let cell = i / 4;
        let y = cell / width;
        let x = cell % width;
        vstd::arithmetic::div_mod::lemma_fundamental_div_mod(cell, width);
        vstd::arithmetic::div_mod::lemma_mod_bound(cell, width);
        vstd::arithmetic::div_mod::lemma_div_pos_is_pos(cell, width);
        assert(width * y == y * width) by (nonlinear_arith);
        assert(y < height) by (nonlinear_arith)
            requires
                0 <= x,
                width > 0,
                y * width + x < width * height,
        ;
        assert(ga[y][x] == gb[y][x]);
        assert(ga[y][x] == Pixel::at_offset(a, 4 * (y * width + x)));
        assert(gb[y][x] == Pixel::at_offset(b, 4 * (y * width + x)));
    }
    assert(a =~= b);
}

} // verus!
