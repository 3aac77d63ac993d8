//! The frame pipeline, which transforms the decoded frames in decode order,
//! and the output assembler, which hands the transformed frames on.

use vstd::prelude::*;
use crate::buffer::{frame_fits, PixelBuffer};
use crate::error::PipelineError;
use crate::grid::{from_samples, has_size, lemma_from_samples_size, sample_count, Grid};
use crate::operation::{
    apply_operation, transformed, Operation, BRIGHTNESS_DENOMINATOR, BRIGHTNESS_NUMERATOR,
};
use crate::transform::lemma_transforms_keep_size;

verus! {

/// A decoded frame as the decoder hands it over: its declared size and its
/// bytes, which are meant to be RGBA, row by row.
#[derive(Clone, Debug, PartialEq, Eq)]
pub struct RawFrame {
    pub width: u32,
    pub height: u32,
    pub data: Vec<u8>,
}

impl RawFrame {
    /// Whether the bytes are an RGBA frame of the declared size.
    pub open spec fn fits(&self) -> bool {
        frame_fits(self.width, self.height, self.data@.len())
    }

    /// The frame that the bytes hold.
    pub open spec fn grid(&self) -> Grid {
        from_samples(self.width as int, self.height as int, self.data@)
    }
}

/// The frames that a sequence of buffers holds, in the same order.
pub open spec fn grids(buffers: Seq<PixelBuffer>) -> Seq<Grid> {
    Seq::new(buffers.len(), |i: int| buffers[i]@)
}

/// What a pipeline is at any moment: the operation of the run and the
/// transformed frames so far, in decode order.
pub struct PipelineState {
    pub operation: Operation,
    pub frames: Seq<Grid>,
}

/// The state of one run between its frames. The index of the next frame is
/// the number of frames taken so far.
pub struct FramePipeline {
    operation: Operation,
    frames: Vec<PixelBuffer>,
}

impl View for FramePipeline {
    type V = PipelineState;

    closed spec fn view(&self) -> PipelineState {
        PipelineState { operation: self.operation, frames: grids(self.frames@) }
    }
}

impl FramePipeline {
    /// Starts a run with the operation that `code` selects. An invalid code
    /// fails here, before any frame is looked at.
    pub fn new(code: u8) -> (r: Result<FramePipeline, PipelineError>)
        ensures
            match Operation::of_code(code) {
                Some(op) => r matches Ok(p) && p@.operation == op && p@.frames
                    == Seq::<Grid>::empty(),
                None => r matches Err(e) && e == PipelineError::InvalidOperationCode,
            },
    {
        match Operation::from_code(code) {
            Ok(operation) => {
                let p = FramePipeline { operation, frames: Vec::new() };
                assert(p@.frames =~= Seq::<Grid>::empty());
                Ok(p)
            },
            Err(e) => Err(e),
        }
    }

    /// The operation of the run.
    pub fn operation(&self) -> (op: Operation)
        ensures
            op == self@.operation,
    {
        self.operation
    }

    /// The index that the next frame will be transformed under: the number
    /// of frames taken so far.
    pub fn frame_index(&self) -> (index: u64)
        ensures
            index == self@.frames.len(),
    {
        self.frames.len() as u64
    }

    /// Takes the next decoded frame: reads it as a pixel buffer, transforms
    /// it under the current frame index and appends the result. A frame
    /// whose bytes do not fit its declared size fails and leaves the
    /// pipeline as it was.
    pub fn push_frame(&mut self, width: u32, height: u32, data: Vec<u8>) -> (r: Result<
        (),
        PipelineError,
    >)
        ensures
            final(self)@.operation == old(self)@.operation,
            frame_fits(width, height, data@.len()) ==> r is Ok && final(self)@.frames == old(
                self,
            )@.frames.push(
                transformed(
                    old(self)@.operation,
                    from_samples(width as int, height as int, data@),
                    old(self)@.frames.len(),
                ),
            ),
            !frame_fits(width, height, data@.len()) ==> r == Err::<(), PipelineError>(
                PipelineError::FrameExtractionFailure,
            ) && final(self)@.frames == old(self)@.frames,
    {
        match PixelBuffer::from_raw(width, height, data) {
            Ok(mut frame) => {
                let index = self.frames.len() as u64;
                apply_operation(self.operation, &mut frame, index);
                self.frames.push(frame);
                assert(self@.frames =~= old(self)@.frames.push(frame@));
                Ok(())
            },
            Err(e) => Err(e),
        }
    }

    /// Ends the run and gives up the transformed frames, in decode order.
    pub fn finish(self) -> (frames: Vec<PixelBuffer>)
        ensures
            grids(frames@) == self@.frames,
            frames@.len() == self@.frames.len(),
    {
        self.frames
    }
}

/// Whether every frame of the sequence fits its declared size.
pub open spec fn all_fit(frames: Seq<RawFrame>) -> bool {
    forall|i: int| 0 <= i < frames.len() ==> (#[trigger] frames[i]).fits()
}

/// The outcome of a whole run. An invalid code fails the run before any
/// frame counts; otherwise a frame that does not fit fails it; otherwise
/// there is one transformed frame for every decoded frame, in the same
/// order, the frame at position `i` transformed under frame index `i`.
pub open spec fn run_outcome(code: u8, frames: Seq<RawFrame>) -> Result<Seq<Grid>, PipelineError> {
    match Operation::of_code(code) {
        None => Err(PipelineError::InvalidOperationCode),
        Some(op) => if all_fit(frames) {
            Ok(Seq::new(frames.len(), |i: int| transformed(op, frames[i].grid(), i as nat)))
        } else {
            Err(PipelineError::FrameExtractionFailure)
        },
    }
}

/// A run gives one frame for every frame it was given, in the same order,
/// each of the size of the frame it was made from.
pub proof fn lemma_run_keeps_order_and_size(code: u8, frames: Seq<RawFrame>, i: int)
    requires
        run_outcome(code, frames) is Ok,
        0 <= i < frames.len(),
    ensures
        Operation::of_code(code) is Some,
        frames[i].fits(),
        run_outcome(code, frames)->Ok_0.len() == frames.len(),
        run_outcome(code, frames)->Ok_0[i] == transformed(
            Operation::of_code(code)->0,
            frames[i].grid(),
            i as nat,
        ),
        has_size(run_outcome(code, frames)->Ok_0[i], frames[i].width as int, frames[i].height as int),
{
    let op = Operation::of_code(code)->0;
    let g = frames[i].grid();
    lemma_from_samples_size(frames[i].width as int, frames[i].height as int, frames[i].data@);
    lemma_transforms_keep_size(
        g,
        BRIGHTNESS_NUMERATOR as int,
        BRIGHTNESS_DENOMINATOR as int,
        i as nat,
    );
}

/// A code outside 1 to 5 fails the run whatever the frames are, and no
/// frame comes out.
pub proof fn lemma_invalid_code_fails_run(code: u8, frames: Seq<RawFrame>)
    requires
        code < 1 || code > 5,
    ensures
        run_outcome(code, frames) == Err::<Seq<Grid>, PipelineError>(
            PipelineError::InvalidOperationCode,
        ),
{
}

/// Runs the operation that `code` selects over the decoded frames, in
/// order.
pub fn process_frames(code: u8, frames: &Vec<RawFrame>) -> (r: Result<
    Vec<PixelBuffer>,
    PipelineError,
>)
    ensures
        match run_outcome(code, frames@) {
            Ok(expected) => r matches Ok(out) && grids(out@) == expected,
            Err(kind) => r matches Err(e) && e == kind,
        },
        r matches Ok(out) ==> out@.len() == frames@.len() && forall|i: int|
            0 <= i < out@.len() ==> (#[trigger] out@[i])@ == transformed(
                Operation::of_code(code)->0,
                frames@[i].grid(),
                i as nat,
            ),
{
    let mut pipeline = match FramePipeline::new(code) {
        Ok(p) => p,
        Err(e) => {
            return Err(e);
        },
    };
    let ghost op = pipeline@.operation;
    let mut i: usize = 0;
    while i < frames.len()
        invariant
            i <= frames.len(),
            Operation::of_code(code) == Some(op),
            pipeline@.operation == op,
            forall|j: int| 0 <= j < i ==> (#[trigger] frames@[j]).fits(),
            pipeline@.frames == Seq::new(
                i as nat,
                |j: int| transformed(op, frames@[j].grid(), j as nat),
            ),
        decreases frames.len() - i,
    {
        let raw = &frames[i];
        let data = raw.data.clone();
        match pipeline.push_frame(raw.width, raw.height, data) {
            Ok(()) => {},
            Err(e) => {
                assert(!frames@[i as int].fits());
                return Err(e);
            },
        }
        assert(pipeline@.frames =~= Seq::new(
            (i + 1) as nat,
            |j: int| transformed(op, frames@[j].grid(), j as nat),
        ));
        i = i + 1;
    }
    let out = pipeline.finish();
    assert forall|i: int| 0 <= i < out@.len() implies (#[trigger] out@[i])@ == transformed(
        op,
        frames@[i].grid(),
        i as nat,
    ) by {
        assert(grids(out@)[i] == out@[i]@);
    }
    Ok(out)
}

/// Whether every frame of the sequence has the given width and height.
pub open spec fn all_sized(frames: Seq<Grid>, width: int, height: int) -> bool {
    forall|i: int| 0 <= i < frames.len() ==> has_size(#[trigger] frames[i], width, height)
}

/// Checks the transformed frames against the size that the output was
/// declared with and hands their bytes on, one buffer per frame, in order.
/// A frame of another size is an encode failure.
pub fn assemble_output(frames: &Vec<PixelBuffer>, width: u32, height: u32) -> (r: Result<
    Vec<Vec<u8>>,
    PipelineError,
>)
    ensures
        all_sized(grids(frames@), width as int, height as int) ==> (r matches Ok(out) && out@.len()
            == frames@.len() && forall|i: int|
            0 <= i < out@.len() ==> (#[trigger] out@[i])@.len() == sample_count(
                width as int,
                height as int,
            ) && from_samples(width as int, height as int, out@[i]@) == frames@[i]@),
        !all_sized(grids(frames@), width as int, height as int) ==> r == Err::<
            Vec<Vec<u8>>,
            PipelineError,
        >(PipelineError::EncodeFailure),
{
    let mut out: Vec<Vec<u8>> = Vec::new();
    let mut i: usize = 0;
    while i < frames.len()
        invariant
            i <= frames.len(),
            out@.len() == i,
            forall|j: int| 0 <= j < i ==> has_size(#[trigger] grids(frames@)[j], width as int, height as int),
            forall|j: int|
                0 <= j < i ==> (#[trigger] out@[j])@.len() == sample_count(
                    width as int,
                    height as int,
                ) && from_samples(width as int, height as int, out@[j]@) == frames@[j]@,
        decreases frames.len() - i,
    {
        let frame = &frames[i];
        let (w, h) = frame.dimensions();
        if w != width || h != height {
            assert(!has_size(grids(frames@)[i as int], width as int, height as int));
            return Err(PipelineError::EncodeFailure);
        }
        let data = frame.as_raw().clone();
        out.push(data);
        i = i + 1;
    }
    Ok(out)
}

} // verus!
