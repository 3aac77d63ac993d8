use vstd::prelude::*;

verus! {

/// Why a run was aborted. Every failure is fatal for the run it occurs in.
#[derive(Clone, Copy, Debug, PartialEq, Eq, Structural)]
pub enum PipelineError {
    /// The input bitstream is malformed or unsupported.
    DecodeFailure,
    /// The operation code is not one of 1 to 5.
    InvalidOperationCode,
    /// A decoded frame's data is not an RGBA buffer of its declared size.
    FrameExtractionFailure,
    /// The transformed frames could not be assembled into an output.
    EncodeFailure,
}

} // verus!
