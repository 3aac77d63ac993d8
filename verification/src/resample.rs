//! The resampling pass that follows the deformed mirror.

use vstd::prelude::*;
use crate::buffer::PixelBuffer;
use crate::grid::{height_of, sample_count, well_formed, width_of};

verus! {

/// `image::imageops::resize` with the filter `Lanczos3`, asked for the
/// size that the image already has. The image is built from and returned
/// as its raw RGBA bytes. Asked for an image's own size, the crate makes a
/// copy of the image in place of filtering it, so the bytes come back as
/// they went in.
#[verifier::external_body]
fn resize_to_own_size(width: u32, height: u32, data: Vec<u8>) -> (out: Vec<u8>)
    requires
        width > 0,
        height > 0,
        data@.len() == sample_count(width as int, height as int),
    ensures
        out@ == data@,
{
    let source = image::RgbaImage::from_raw(width, height, data).unwrap();
    image::imageops::resize(&source, width, height, image::imageops::FilterType::Lanczos3)
        .into_raw()
}

/// Resamples the frame to its own width and height. The pass is always
/// run; at an unchanged size it hands every pixel back as it was.
pub fn resample(frame: &mut PixelBuffer)
    ensures
        final(frame)@ == old(frame)@,
        well_formed(final(frame)@),
        width_of(final(frame)@) == width_of(old(frame)@),
        height_of(final(frame)@) == height_of(old(frame)@),
{
    let (width, height) = frame.dimensions();
    let data = frame.as_raw().clone();
    let resized = resize_to_own_size(width, height, data);
    match PixelBuffer::from_raw(width, height, resized) {
        Ok(resampled) => {
            *frame = resampled;
        },
        Err(_) => {},
    }
}

} // verus!
