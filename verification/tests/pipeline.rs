use video_effects::buffer::PixelBuffer;
use video_effects::error::PipelineError;
use video_effects::operation::Operation;
use video_effects::pipeline::{assemble_output, process_frames, FramePipeline, RawFrame};
use video_effects::pixel::Pixel;
use video_effects::transform::apply_shake_effect;

/// A 4 by 3 frame that carries `marker` in its top left pixel and nowhere
/// else.
fn marked_frame(marker: u8) -> RawFrame {
    let mut data = vec![0u8; 4 * 4 * 3];
    for (i, byte) in data.iter_mut().enumerate() {
        *byte = 100 + (i % 50) as u8;
    }
    data[0..4].copy_from_slice(&[marker, marker, marker, 255]);
    RawFrame {
        width: 4,
        height: 3,
        data,
    }
}

fn buffer_of(raw: &RawFrame) -> PixelBuffer {
    PixelBuffer::from_raw(raw.width, raw.height, raw.data.clone()).unwrap()
}

#[test]
fn horizontal_flip_keeps_the_frames_in_order() {
    let frames: Vec<RawFrame> = (0..10u8).map(marked_frame).collect();
    let out = process_frames(2, &frames).unwrap();
    assert_eq!(out.len(), 10);
    for (i, frame) in out.iter().enumerate() {
        let marker = Pixel::new(i as u8, i as u8, i as u8, 255);
        assert_eq!(frame.dimensions(), (4, 3));
        assert_eq!(frame.get_pixel(3, 0), marker);
        for y in 0..3 {
            for x in 0..4 {
                if (x, y) != (3, 0) {
                    assert_ne!(frame.get_pixel(x, y), marker);
                }
                assert_eq!(
                    frame.get_pixel(x, y),
                    buffer_of(&frames[i]).get_pixel(3 - x, y)
                );
            }
        }
    }
}

#[test]
fn no_frames_in_no_frames_out() {
    for code in 1..=5u8 {
        assert_eq!(process_frames(code, &vec![]), Ok(vec![]));
    }
}

#[test]
fn an_invalid_code_fails_the_whole_run() {
    let frames: Vec<RawFrame> = (0..3u8).map(marked_frame).collect();
    for code in [0u8, 6, 7, 100, 255] {
        assert_eq!(
            process_frames(code, &frames),
            Err(PipelineError::InvalidOperationCode)
        );
        assert_eq!(
            process_frames(code, &vec![]),
            Err(PipelineError::InvalidOperationCode)
        );
        assert!(matches!(
            FramePipeline::new(code),
            Err(PipelineError::InvalidOperationCode)
        ));
    }
}

#[test]
fn an_invalid_code_comes_before_a_bad_frame() {
    let bad = RawFrame {
        width: 4,
        height: 3,
        data: vec![0; 5],
    };
    assert_eq!(
        process_frames(9, &vec![bad.clone()]),
        Err(PipelineError::InvalidOperationCode)
    );
    assert_eq!(
        process_frames(2, &vec![bad]),
        Err(PipelineError::FrameExtractionFailure)
    );
}

#[test]
fn a_frame_that_does_not_fit_fails_the_run() {
    let mut frames: Vec<RawFrame> = (0..4u8).map(marked_frame).collect();
    frames[2].data.pop();
    assert_eq!(
        process_frames(3, &frames),
        Err(PipelineError::FrameExtractionFailure)
    );
    let mut frames: Vec<RawFrame> = (0..4u8).map(marked_frame).collect();
    frames[3].width = 0;
    assert_eq!(
        process_frames(1, &frames),
        Err(PipelineError::FrameExtractionFailure)
    );
}

#[test]
fn the_shake_alternates_with_the_position_in_the_run() {
    let raw = RawFrame {
        width: 8,
        height: 8,
        data: (0..(4 * 8 * 8)).map(|i| (i % 256) as u8).collect(),
    };
    let frames = vec![raw.clone(), raw.clone(), raw.clone(), raw.clone()];
    let out = process_frames(4, &frames).unwrap();
    assert_eq!(out.len(), 4);
    let mut even = buffer_of(&raw);
    apply_shake_effect(&mut even, 0);
    let mut odd = buffer_of(&raw);
    apply_shake_effect(&mut odd, 1);
    assert_ne!(even, odd);
    assert_eq!(out[0], even);
    assert_eq!(out[1], odd);
    assert_eq!(out[2], even);
    assert_eq!(out[3], odd);
}

#[test]
fn the_pipeline_counts_the_frames_it_takes() {
    let mut pipeline = FramePipeline::new(2).unwrap();
    assert_eq!(pipeline.operation(), Operation::HorizontalFlip);
    assert_eq!(pipeline.frame_index(), 0);
    for i in 0..5u8 {
        let raw = marked_frame(i);
        assert_eq!(pipeline.push_frame(raw.width, raw.height, raw.data), Ok(()));
        assert_eq!(pipeline.frame_index(), i as u64 + 1);
    }
    let out = pipeline.finish();
    assert_eq!(out.len(), 5);
    for (i, frame) in out.iter().enumerate() {
        assert_eq!(frame.get_pixel(3, 0), Pixel::new(i as u8, i as u8, i as u8, 255));
    }
}

#[test]
fn a_refused_frame_leaves_the_pipeline_as_it_was() {
    let mut pipeline = FramePipeline::new(4).unwrap();
    let raw = marked_frame(1);
    assert_eq!(pipeline.push_frame(4, 3, raw.data.clone()), Ok(()));
    assert_eq!(
        pipeline.push_frame(4, 4, raw.data.clone()),
        Err(PipelineError::FrameExtractionFailure)
    );
    assert_eq!(pipeline.frame_index(), 1);
    assert_eq!(pipeline.push_frame(4, 3, raw.data.clone()), Ok(()));
    assert_eq!(pipeline.frame_index(), 2);
    let out = pipeline.finish();
    let mut even = buffer_of(&raw);
    apply_shake_effect(&mut even, 0);
    let mut odd = buffer_of(&raw);
    apply_shake_effect(&mut odd, 1);
    assert_eq!(out, vec![even, odd]);
}

#[test]
fn frames_of_one_size_are_handed_on_in_order() {
    let frames: Vec<RawFrame> = (0..6u8).map(marked_frame).collect();
    let out = process_frames(3, &frames).unwrap();
    let bytes = assemble_output(&out, 4, 3).unwrap();
    assert_eq!(bytes.len(), 6);
    for (i, raw) in bytes.iter().enumerate() {
        assert_eq!(raw.len(), 48);
        assert_eq!(raw, out[i].as_raw());
        assert_eq!(&raw[32..36], &[i as u8, i as u8, i as u8, 255]);
    }
}

#[test]
fn a_frame_of_another_size_is_an_encode_failure() {
    let mut frames: Vec<RawFrame> = (0..3u8).map(marked_frame).collect();
    frames.push(RawFrame {
        width: 3,
        height: 4,
        data: vec![0; 48],
    });
    let out = process_frames(2, &frames).unwrap();
    assert_eq!(
        assemble_output(&out, 4, 3),
        Err(PipelineError::EncodeFailure)
    );
    assert_eq!(
        assemble_output(&out, 3, 4),
        Err(PipelineError::EncodeFailure)
    );
    assert_eq!(assemble_output(&out[..3].to_vec(), 4, 3).map(|b| b.len()), Ok(3));
    assert_eq!(assemble_output(&vec![], 4, 3), Ok(vec![]));
}
