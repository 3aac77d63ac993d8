//! The pixel buffer: one frame's RGBA samples with its width and height.

use vstd::prelude::*;
use crate::error::PipelineError;
use crate::grid::{
    filled, from_samples, height_of, lemma_cell_in_bounds, lemma_cell_offsets_distinct,
    sample_count, well_formed, width_of, Grid,
};
use crate::pixel::Pixel;

verus! {

/// A dense grid of RGBA pixels, stored row by row, four bytes per pixel.
/// Width and height are both positive and never change.
#[derive(Debug, PartialEq, Eq)]
pub struct PixelBuffer {
    width: u32,
    height: u32,
    data: Vec<u8>,
}

impl View for PixelBuffer {
    type V = Grid;

    closed spec fn view(&self) -> Grid {
        from_samples(self.width as int, self.height as int, self.data@)
    }
}

impl Clone for PixelBuffer {
    /// An independent copy: the same frame in bytes of its own.
    fn clone(&self) -> (copy: PixelBuffer)
        ensures
            copy@ == self@,
    {
        proof {
            use_type_invariant(self);
        }
        PixelBuffer { width: self.width, height: self.height, data: self.data.clone() }
    }
}

/// Whether `len` bytes can be read as an RGBA frame of `width` by `height`.
pub open spec fn frame_fits(width: u32, height: u32, len: nat) -> bool {
    width > 0 && height > 0 && len == sample_count(width as int, height as int)
}

impl PixelBuffer {
    /// Both dimensions are positive and there are four bytes for every
    /// pixel, no more and no fewer.
    #[verifier::type_invariant]
    spec fn consistent(&self) -> bool {
        &&& self.width > 0
        &&& self.height > 0
        &&& self.data@.len() == sample_count(self.width as int, self.height as int)
    }

    /// The bytes of the buffer, row by row.
    pub closed spec fn samples(&self) -> Seq<u8> {
        self.data@
    }

    /// The number of columns.
    pub fn width(&self) -> (w: u32)
        ensures
            w == width_of(self@),
            w > 0,
            well_formed(self@),
    {
        proof {
            use_type_invariant(self);
        }
        self.width
    }

    /// The number of rows.
    pub fn height(&self) -> (h: u32)
        ensures
            h == height_of(self@),
            h > 0,
            well_formed(self@),
    {
        proof {
            use_type_invariant(self);
        }
        self.height
    }

    /// Width and height, in this order.
    pub fn dimensions(&self) -> (d: (u32, u32))
        ensures
            d.0 == width_of(self@),
            d.1 == height_of(self@),
            d.0 > 0,
            d.1 > 0,
            well_formed(self@),
    {
        proof {
            use_type_invariant(self);
        }
        (self.width, self.height)
    }

    /// Reads a frame out of raw RGBA bytes. The bytes must be exactly those
    /// of a frame of the declared size, which must have no zero dimension;
    /// anything else is a frame extraction failure.
    pub fn from_raw(width: u32, height: u32, data: Vec<u8>) -> (r: Result<PixelBuffer, PipelineError>)
        ensures
            frame_fits(width, height, data@.len()) ==> r is Ok,
            !frame_fits(width, height, data@.len()) ==> r == Err::<PixelBuffer, PipelineError>(
                PipelineError::FrameExtractionFailure,
            ),
            r matches Ok(b) ==> b@ == from_samples(width as int, height as int, data@)
                && b.samples() == data@ && well_formed(b@),
    {
        if width == 0 || height == 0 {
            return Err(PipelineError::FrameExtractionFailure);
        }
        assert(0 <= (width as int) * (height as int) <= 0xffff_ffff * 0xffff_ffff) by (nonlinear_arith)
            requires
                0 <= width <= 0xffff_ffff,
                0 <= height <= 0xffff_ffff,
        ;
        let cells: u128 = (width as u128) * (height as u128);
        let wanted: u128 = 4 * cells;
        if data.len() as u128 != wanted {
            return Err(PipelineError::FrameExtractionFailure);
        }
        Ok(PixelBuffer { width, height, data })
    }

    /// The bytes of the buffer, row by row, four per pixel.
    pub fn as_raw(&self) -> (data: &Vec<u8>)
        ensures
            data@ == self.samples(),
            data@.len() == sample_count(width_of(self@) as int, height_of(self@) as int),
            from_samples(width_of(self@) as int, height_of(self@) as int, data@) == self@,
    {
        proof {
            use_type_invariant(self);
        }
        &self.data
    }

    /// Gives up the bytes of the buffer, row by row, four per pixel.
    pub fn into_raw(self) -> (data: Vec<u8>)
        ensures
            data@ == self.samples(),
            data@.len() == sample_count(width_of(self@) as int, height_of(self@) as int),
            from_samples(width_of(self@) as int, height_of(self@) as int, data@) == self@,
    {
        proof {
            use_type_invariant(&self);
        }
        self.data
    }

    /// A buffer of the given size with every pixel transparent black, or
    /// `None` when a dimension is zero or the bytes would not fit in memory.
    pub fn new(width: u32, height: u32) -> (r: Option<PixelBuffer>)
        ensures
            r is Some <==> width > 0 && height > 0 && sample_count(width as int, height as int)
                <= usize::MAX,
            r matches Some(b) ==> b@ == filled(width as int, height as int, Pixel::blank())
                && well_formed(b@),
    {
        if width == 0 || height == 0 {
            return None;
        }
        assert(0 <= (width as int) * (height as int) <= 0xffff_ffff * 0xffff_ffff) by (nonlinear_arith)
            requires
                0 <= width <= 0xffff_ffff,
                0 <= height <= 0xffff_ffff,
        ;
        let wanted: u128 = 4 * ((width as u128) * (height as u128));
        if wanted > usize::MAX as u128 {
            return None;
        }
        let data: Vec<u8> = vec![0u8; wanted as usize];
        let b = PixelBuffer { width, height, data };
        proof {
            assert forall|y: int, x: int| 0 <= y < height && 0 <= x < width implies
                #[trigger] b@[y][x] == Pixel::blank() by {
                lemma_cell_in_bounds(width as int, height as int, x, y);
            }
            assert(b@ =~~= filled(width as int, height as int, Pixel::blank()));
        }
        Some(b)
    }

    /// A buffer of the same size as this one with every pixel transparent
    /// black.
    pub fn blank_like(&self) -> (b: PixelBuffer)
        ensures
            b@ == filled(width_of(self@) as int, height_of(self@) as int, Pixel::blank()),
            well_formed(b@),
    {
        proof {
            use_type_invariant(self);
            assert(self.data.len() == self.data@.len());
        }
        let data: Vec<u8> = vec![0u8; self.data.len()];
        let b = PixelBuffer { width: self.width, height: self.height, data };
        proof {
            assert forall|y: int, x: int| 0 <= y < self.height && 0 <= x < self.width implies
                #[trigger] b@[y][x] == Pixel::blank() by {
                lemma_cell_in_bounds(self.width as int, self.height as int, x, y);
            }
            assert(b@ =~~= filled(self.width as int, self.height as int, Pixel::blank()));
        }
        b
    }

    /// The pixel in column `x` of row `y`.
    pub fn get_pixel(&self, x: u32, y: u32) -> (p: Pixel)
        requires
            x < width_of(self@),
            y < height_of(self@),
        ensures
            p == self@[y as int][x as int],
    {
        proof {
            use_type_invariant(self);
            lemma_cell_in_bounds(self.width as int, self.height as int, x as int, y as int);
            assert(self.data.len() == self.data@.len());
        }
        let start: usize = 4 * (y as usize * self.width as usize + x as usize);
        Pixel {
            red: self.data[start],
            green: self.data[start + 1],
            blue: self.data[start + 2],
            alpha: self.data[start + 3],
        }
    }

    /// Replaces the pixel at `(x, y)`; every other pixel keeps its value.
    pub fn put_pixel(&mut self, x: u32, y: u32, p: Pixel)
        requires
            x < width_of(old(self)@),
            y < height_of(old(self)@),
        ensures
            final(self)@ == old(self)@.update(y as int, old(self)@[y as int].update(x as int, p)),
            width_of(final(self)@) == width_of(old(self)@),
            height_of(final(self)@) == height_of(old(self)@),
            well_formed(final(self)@),
    {
        proof {
            use_type_invariant(&*self);
            lemma_cell_in_bounds(self.width as int, self.height as int, x as int, y as int);
            assert(self.data.len() == self.data@.len());
        }
        let start: usize = 4 * (y as usize * self.width as usize + x as usize);
        self.data[start] = p.red;
        self.data[start + 1] = p.green;
        self.data[start + 2] = p.blue;
        self.data[start + 3] = p.alpha;
        proof {
            let w = self.width as int;
            let h = self.height as int;
            let target = old(self)@.update(y as int, old(self)@[y as int].update(x as int, p));
            assert forall|yy: int, xx: int| 0 <= yy < h && 0 <= xx < w implies
                #[trigger] self@[yy][xx] == target[yy][xx] by {
                lemma_cell_in_bounds(w, h, xx, yy);
                if yy * w + xx == y * w + x {
                    lemma_cell_offsets_distinct(w, xx, yy, x as int, y as int);
                }
            }
            assert(self@ =~~= target);
        }
    }
}

} // verus!
