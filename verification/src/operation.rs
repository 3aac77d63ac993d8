//! The operation codes and the dispatcher that maps each to its transform.

use vstd::prelude::*;
use crate::buffer::PixelBuffer;
use crate::error::PipelineError;
use crate::grid::{height_of, well_formed, width_of, Grid};
use crate::resample::resample;
use crate::transform::{
    adjust_brightness, apply_deformed_mirror_effect, apply_shake_effect, brightened,
    deformed_mirror, flipped_horizontally, flipped_vertically, invert_frame_horizontally,
    invert_frame_vertically, shaken,
};

verus! {

/// The numerator of the brightness factor 1.2.
pub const BRIGHTNESS_NUMERATOR: u32 = 6;

/// The denominator of the brightness factor 1.2.
pub const BRIGHTNESS_DENOMINATOR: u32 = 5;

/// The transform that a run applies to every frame.
#[derive(Clone, Copy, Debug, PartialEq, Eq, Structural)]
pub enum Operation {
    Brightness,
    HorizontalFlip,
    VerticalFlip,
    Shake,
    DeformedMirror,
}

impl Operation {
    /// The operation that `code` selects: 1 to 5 in the order of the
    /// variants, nothing for any other code.
    pub open spec fn of_code(code: u8) -> Option<Operation> {
        if code == 1 {
            Some(Operation::Brightness)
        } else if code == 2 {
            Some(Operation::HorizontalFlip)
        } else if code == 3 {
            Some(Operation::VerticalFlip)
        } else if code == 4 {
            Some(Operation::Shake)
        } else if code == 5 {
            Some(Operation::DeformedMirror)
        } else {
            None
        }
    }

    /// The code that selects this operation.
    pub open spec fn code_of(self) -> u8 {
        match self {
            Operation::Brightness => 1,
            Operation::HorizontalFlip => 2,
            Operation::VerticalFlip => 3,
            Operation::Shake => 4,
            Operation::DeformedMirror => 5,
        }
    }

    /// The operation that `code` selects; an invalid-code error for any
    /// code but 1 to 5.
    pub fn from_code(code: u8) -> (r: Result<Operation, PipelineError>)
        ensures
            r == match Operation::of_code(code) {
                Some(op) => Ok::<Operation, PipelineError>(op),
                None => Err::<Operation, PipelineError>(PipelineError::InvalidOperationCode),
            },
    {
        match code {
            1 => Ok(Operation::Brightness),
            2 => Ok(Operation::HorizontalFlip),
            3 => Ok(Operation::VerticalFlip),
            4 => Ok(Operation::Shake),
            5 => Ok(Operation::DeformedMirror),
            _ => Err(PipelineError::InvalidOperationCode),
        }
    }

    /// The code that selects this operation.
    pub fn code(self) -> (c: u8)
        ensures
            c == self.code_of(),
    {
        match self {
            Operation::Brightness => 1,
            Operation::HorizontalFlip => 2,
            Operation::VerticalFlip => 3,
            Operation::Shake => 4,
            Operation::DeformedMirror => 5,
        }
    }
}

/// The frame that operation `op` makes of `g` when `g` is frame number
/// `frame_index` of its run. Only the shake looks at the frame number. The
/// resampling pass that follows the deformed mirror runs at the frame's own
/// size and leaves every pixel as the mirror made it.
pub open spec fn transformed(op: Operation, g: Grid, frame_index: nat) -> Grid {
    match op {
        Operation::Brightness => brightened(
            g,
            BRIGHTNESS_NUMERATOR as int,
            BRIGHTNESS_DENOMINATOR as int,
        ),
        Operation::HorizontalFlip => flipped_horizontally(g),
        Operation::VerticalFlip => flipped_vertically(g),
        Operation::Shake => shaken(g, frame_index),
        Operation::DeformedMirror => deformed_mirror(g),
    }
}

/// Applies the one transform that `op` names to the frame.
pub fn apply_operation(op: Operation, frame: &mut PixelBuffer, frame_index: u64)
    ensures
        final(frame)@ == transformed(op, old(frame)@, frame_index as nat),
        well_formed(final(frame)@),
        width_of(final(frame)@) == width_of(old(frame)@),
        height_of(final(frame)@) == height_of(old(frame)@),
{
    match op {
        Operation::Brightness => {
            adjust_brightness(frame, BRIGHTNESS_NUMERATOR, BRIGHTNESS_DENOMINATOR);
        },
        Operation::HorizontalFlip => {
            invert_frame_horizontally(frame);
        },
        Operation::VerticalFlip => {
            invert_frame_vertically(frame);
        },
        Operation::Shake => {
            apply_shake_effect(frame, frame_index);
        },
        Operation::DeformedMirror => {
            apply_deformed_mirror_effect(frame);
            resample(frame);
        },
    }
}

/// The codes 1 to 5 are the valid ones, and each operation is selected by
/// its own code.
pub proof fn lemma_operation_codes(code: u8, op: Operation)
    ensures
        Operation::of_code(code) is Some <==> 1 <= code <= 5,
        Operation::of_code(op.code_of()) == Some(op),
        Operation::of_code(code) == Some(op) ==> op.code_of() == code,
{
}

} // verus!
