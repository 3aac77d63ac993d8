use video_effects::error::PipelineError;
use video_effects::transcode::{decode_input, decoded_or_failure, encode_output};

#[test]
fn input_text_is_decoded_from_base64() {
    assert_eq!(decode_input("aGVsbG8="), Ok(b"hello".to_vec()));
    assert_eq!(decode_input("AAEC/f7/"), Ok(vec![0, 1, 2, 253, 254, 255]));
    assert_eq!(decode_input(""), Ok(vec![]));
}

#[test]
fn text_that_is_not_base64_is_a_decode_failure() {
    for text in ["not base64!!", "aGVsbG8", "aGVsbG8==", "a", "aGVs bG8=", "aGVsbG9="] {
        assert_eq!(decode_input(text), Err(PipelineError::DecodeFailure));
    }
}

#[test]
fn a_decoding_attempt_maps_to_the_bytes_or_a_failure() {
    assert_eq!(decoded_or_failure(Ok(vec![1, 2, 3])), Ok(vec![1, 2, 3]));
    assert_eq!(
        decoded_or_failure(Err(base64::DecodeError::InvalidLength)),
        Err(PipelineError::DecodeFailure)
    );
    assert_eq!(
        decoded_or_failure(Err(base64::DecodeError::InvalidByte(3, b'!'))),
        Err(PipelineError::DecodeFailure)
    );
}

#[test]
fn output_bytes_are_encoded_as_base64() {
    assert_eq!(
        encode_output(b"processed video data"),
        Ok("cHJvY2Vzc2VkIHZpZGVvIGRhdGE=".to_string())
    );
    assert_eq!(encode_output(b"hello"), Ok("aGVsbG8=".to_string()));
    assert_eq!(encode_output(&[]), Ok(String::new()));
    assert_eq!(
        encode_output(&[0, 1, 2, 253, 254, 255]),
        Ok("AAEC/f7/".to_string())
    );
}

#[test]
fn encoding_then_decoding_gives_the_bytes_back() {
    let bytes: Vec<u8> = (0..1000u32).map(|i| (i * 7 % 256) as u8).collect();
    for len in [0, 1, 2, 3, 4, 5, 255, 256, 1000] {
        let text = encode_output(&bytes[..len]).unwrap();
        assert_eq!(text.len(), (len + 2) / 3 * 4);
        assert_eq!(decode_input(&text), Ok(bytes[..len].to_vec()));
    }
}
