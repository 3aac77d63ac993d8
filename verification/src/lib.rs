//! Per-frame video effects: RGBA pixel buffers, the five frame transforms,
//! the operation dispatcher, the ordered frame pipeline and the public record
//! that commits to a run's output.

pub mod buffer;
pub mod error;
pub mod grid;
pub mod operation;
pub mod pipeline;
pub mod pixel;
pub mod record;
pub mod resample;
pub mod transcode;
pub mod transform;
