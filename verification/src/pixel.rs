use vstd::prelude::*;

verus! {

/// One colour sample: red, green, blue and alpha, eight bits each.
#[derive(Clone, Copy, Debug, PartialEq, Eq, Structural)]
pub struct Pixel {
    pub red: u8,
    pub green: u8,
    pub blue: u8,
    pub alpha: u8,
}

impl Pixel {
    /// Fully transparent black, the value of every pixel of a fresh buffer.
    pub open spec fn blank() -> Pixel {
        Pixel { red: 0, green: 0, blue: 0, alpha: 0 }
    }

    /// The pixel whose four samples start at `offset` in `data`.
    pub open spec fn at_offset(data: Seq<u8>, offset: int) -> Pixel {
        Pixel {
            red: data[offset],
            green: data[offset + 1],
            blue: data[offset + 2],
            alpha: data[offset + 3],
        }
    }

    /// The pixel of the four samples.
    pub fn new(red: u8, green: u8, blue: u8, alpha: u8) -> (p: Pixel)
        ensures
            p == (Pixel { red, green, blue, alpha }),
    {
        Pixel { red, green, blue, alpha }
    }

    /// Fully transparent black.
    pub fn transparent() -> (p: Pixel)
        ensures
            p == Pixel::blank(),
    {
        Pixel { red: 0, green: 0, blue: 0, alpha: 0 }
    }
}

} // verus!
