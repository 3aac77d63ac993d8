use video_effects::buffer::PixelBuffer;
use video_effects::error::PipelineError;
use video_effects::pixel::Pixel;

fn counting_bytes(width: u32, height: u32) -> Vec<u8> {
    (0..(4 * width * height)).map(|i| (i % 251) as u8).collect()
}

#[test]
fn new_buffer_is_transparent_black() {
    let buffer = PixelBuffer::new(3, 2).unwrap();
    assert_eq!(buffer.dimensions(), (3, 2));
    assert_eq!(buffer.width(), 3);
    assert_eq!(buffer.height(), 2);
    for y in 0..2 {
        for x in 0..3 {
            assert_eq!(buffer.get_pixel(x, y), Pixel::new(0, 0, 0, 0));
        }
    }
    assert_eq!(buffer.as_raw(), &vec![0u8; 24]);
}

#[test]
fn new_buffer_needs_positive_dimensions() {
    assert!(PixelBuffer::new(0, 5).is_none());
    assert!(PixelBuffer::new(5, 0).is_none());
    assert!(PixelBuffer::new(0, 0).is_none());
    assert!(PixelBuffer::new(1, 1).is_some());
}

#[test]
fn transparent_pixel_is_all_zero() {
    assert_eq!(Pixel::transparent(), Pixel::new(0, 0, 0, 0));
    assert_eq!(
        Pixel::new(1, 2, 3, 4),
        Pixel {
            red: 1,
            green: 2,
            blue: 3,
            alpha: 4
        }
    );
}

#[test]
fn from_raw_reads_pixels_row_by_row() {
    let data = counting_bytes(3, 2);
    let buffer = PixelBuffer::from_raw(3, 2, data.clone()).unwrap();
    assert_eq!(buffer.dimensions(), (3, 2));
    assert_eq!(buffer.get_pixel(0, 0), Pixel::new(0, 1, 2, 3));
    assert_eq!(buffer.get_pixel(1, 0), Pixel::new(4, 5, 6, 7));
    assert_eq!(buffer.get_pixel(2, 0), Pixel::new(8, 9, 10, 11));
    assert_eq!(buffer.get_pixel(0, 1), Pixel::new(12, 13, 14, 15));
    assert_eq!(buffer.get_pixel(2, 1), Pixel::new(20, 21, 22, 23));
    assert_eq!(buffer.as_raw(), &data);
    assert_eq!(buffer.into_raw(), data);
}

#[test]
fn from_raw_refuses_zero_dimensions() {
    assert_eq!(
        PixelBuffer::from_raw(0, 2, vec![]),
        Err(PipelineError::FrameExtractionFailure)
    );
    assert_eq!(
        PixelBuffer::from_raw(2, 0, vec![]),
        Err(PipelineError::FrameExtractionFailure)
    );
}

#[test]
fn from_raw_refuses_a_wrong_length() {
    assert_eq!(
        PixelBuffer::from_raw(2, 2, vec![0; 15]),
        Err(PipelineError::FrameExtractionFailure)
    );
    assert_eq!(
        PixelBuffer::from_raw(2, 2, vec![0; 17]),
        Err(PipelineError::FrameExtractionFailure)
    );
    assert_eq!(
        PixelBuffer::from_raw(2, 2, vec![]),
        Err(PipelineError::FrameExtractionFailure)
    );
    assert!(PixelBuffer::from_raw(2, 2, vec![0; 16]).is_ok());
}

#[test]
fn from_raw_refuses_sizes_beyond_memory() {
    assert_eq!(
        PixelBuffer::from_raw(u32::MAX, u32::MAX, vec![0; 16]),
        Err(PipelineError::FrameExtractionFailure)
    );
}

#[test]
fn put_pixel_changes_one_pixel_only() {
    let mut buffer = PixelBuffer::from_raw(3, 2, counting_bytes(3, 2)).unwrap();
    let before = buffer.clone();
    let p = Pixel::new(200, 201, 202, 203);
    buffer.put_pixel(1, 1, p);
    for y in 0..2 {
        for x in 0..3 {
            if (x, y) == (1, 1) {
                assert_eq!(buffer.get_pixel(x, y), p);
            } else {
                assert_eq!(buffer.get_pixel(x, y), before.get_pixel(x, y));
            }
        }
    }
    let mut expected = counting_bytes(3, 2);
    expected[16..20].copy_from_slice(&[200, 201, 202, 203]);
    assert_eq!(buffer.into_raw(), expected);
}

#[test]
fn clone_is_an_independent_copy() {
    let mut buffer = PixelBuffer::from_raw(2, 2, counting_bytes(2, 2)).unwrap();
    let copy = buffer.clone();
    assert_eq!(copy, buffer);
    buffer.put_pixel(0, 0, Pixel::new(9, 9, 9, 9));
    assert_ne!(copy, buffer);
    assert_eq!(copy.get_pixel(0, 0), Pixel::new(0, 1, 2, 3));
}

#[test]
fn blank_like_keeps_the_size() {
    let buffer = PixelBuffer::from_raw(5, 3, counting_bytes(5, 3)).unwrap();
    let blank = buffer.blank_like();
    assert_eq!(blank.dimensions(), (5, 3));
    assert_eq!(blank.into_raw(), vec![0u8; 60]);
}
