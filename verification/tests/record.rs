use alloy_sol_types::{sol_data, SolType};
use video_effects::operation::Operation;
use video_effects::record::PublicRecord;

type AbiRecord = (sol_data::String, sol_data::Uint<8>);

fn word(value: u64) -> Vec<u8> {
    let mut w = vec![0u8; 24];
    w.extend_from_slice(&value.to_be_bytes());
    w
}

fn layout(text: &str, operation: u8) -> Vec<u8> {
    let mut bytes = Vec::new();
    bytes.extend(word(32));
    bytes.extend(word(64));
    bytes.extend(word(operation as u64));
    bytes.extend(word(text.len() as u64));
    bytes.extend_from_slice(text.as_bytes());
    while bytes.len() % 32 != 0 {
        bytes.push(0);
    }
    bytes
}

fn sample_texts() -> Vec<String> {
    vec![
        String::new(),
        "a".to_string(),
        "abc".to_string(),
        "cHJvY2Vzc2VkIHZpZGVvIGRhdGE=".to_string(),
        "x".repeat(31),
        "x".repeat(32),
        "x".repeat(33),
        "x".repeat(64),
        "y".repeat(1000),
        "h\u{e9}llo w\u{f6}rld \u{4e16}\u{754c} \u{1f3ac}".to_string(),
        "\0\0\0".to_string(),
    ]
}

#[test]
fn record_of_a_short_text_has_the_fixed_layout() {
    let record = PublicRecord::new("abc".to_string(), 2);
    let mut expected = vec![0u8; 160];
    expected[31] = 0x20;
    expected[63] = 0x40;
    expected[95] = 2;
    expected[127] = 3;
    expected[128] = b'a';
    expected[129] = b'b';
    expected[130] = b'c';
    assert_eq!(record.encode(), expected);
}

#[test]
fn record_of_the_empty_text_and_the_largest_code() {
    let record = PublicRecord::new(String::new(), 255);
    let mut expected = vec![0u8; 128];
    expected[31] = 0x20;
    expected[63] = 0x40;
    expected[95] = 0xff;
    assert_eq!(record.encode(), expected);
    let decoded = PublicRecord::decode(&expected).unwrap();
    assert_eq!(decoded.text(), "");
    assert_eq!(decoded.operation(), 255);
    assert_eq!(decoded, record);
}

#[test]
fn record_length_field_is_big_endian() {
    let text = "z".repeat(0x1_02_03);
    let bytes = PublicRecord::new(text.clone(), 5).encode();
    assert_eq!(&bytes[96..125], &[0u8; 29]);
    assert_eq!(&bytes[125..128], &[1, 2, 3]);
    assert_eq!(bytes.len(), 128 + 0x1_02_03 + 29);
    assert_eq!(bytes, layout(&text, 5));
}

#[test]
fn record_text_is_padded_to_whole_words() {
    for (len, total) in [(0, 128), (1, 160), (31, 160), (32, 160), (33, 192), (64, 192), (65, 224)] {
        let bytes = PublicRecord::new("q".repeat(len), 1).encode();
        assert_eq!(bytes.len(), total);
        assert!(bytes[128 + len..].iter().all(|b| *b == 0));
    }
}

#[test]
fn record_getters_give_the_pair_back() {
    let record = PublicRecord::new("output".to_string(), 4);
    assert_eq!(record.text(), "output");
    assert_eq!(record.operation(), 4);
}

#[test]
fn record_round_trip() {
    for text in sample_texts() {
        for operation in [0u8, 1, 2, 5, 6, 128, 255] {
            let record = PublicRecord::new(text.clone(), operation);
            let bytes = record.encode();
            assert_eq!(bytes, layout(&text, operation));
            let decoded = PublicRecord::decode(&bytes).unwrap();
            assert_eq!(decoded.text(), text);
            assert_eq!(decoded.operation(), operation);
            assert_eq!(decoded, record);
            assert_eq!(decoded.encode(), bytes);
        }
    }
}

#[test]
fn record_bytes_are_those_of_the_solidity_abi() {
    for text in sample_texts() {
        for operation in [0u8, 1, 3, 5, 200, 255] {
            let ours = PublicRecord::new(text.clone(), operation).encode();
            let theirs = AbiRecord::abi_encode(&(text.clone(), operation));
            assert_eq!(ours, theirs);
            let back = AbiRecord::abi_decode(&ours).unwrap();
            assert_eq!(back, (text.clone(), operation));
        }
    }
}

#[test]
fn decode_refuses_truncated_bytes() {
    let bytes = PublicRecord::new("abc".to_string(), 2).encode();
    for len in [0, 1, 31, 32, 127, 128, 129, 159] {
        assert_eq!(PublicRecord::decode(&bytes[..len]), None);
    }
    assert!(PublicRecord::decode(&bytes).is_some());
}

#[test]
fn decode_refuses_trailing_bytes() {
    let mut bytes = PublicRecord::new("abc".to_string(), 2).encode();
    bytes.push(0);
    assert_eq!(PublicRecord::decode(&bytes), None);
    bytes.extend_from_slice(&[0u8; 31]);
    assert_eq!(PublicRecord::decode(&bytes), None);
}

#[test]
fn decode_refuses_wrong_offsets() {
    let good = PublicRecord::new("abc".to_string(), 2).encode();
    for (at, value) in [(31, 0x21), (31, 0), (63, 0x20), (63, 0x41), (0, 1), (23, 1), (32, 0x80), (55, 9)] {
        let mut bytes = good.clone();
        bytes[at] = value;
        assert_eq!(PublicRecord::decode(&bytes), None);
    }
}

#[test]
fn decode_refuses_an_operation_beyond_eight_bits() {
    let good = PublicRecord::new("abc".to_string(), 2).encode();
    for at in [64, 80, 87, 88, 93, 94] {
        let mut bytes = good.clone();
        bytes[at] = 1;
        assert_eq!(PublicRecord::decode(&bytes), None);
    }
    let mut bytes = good.clone();
    bytes[95] = 200;
    assert_eq!(PublicRecord::decode(&bytes).unwrap().operation(), 200);
}

#[test]
fn decode_refuses_a_wrong_length() {
    let good = PublicRecord::new("abc".to_string(), 2).encode();
    for (at, value) in [(127, 2), (127, 64), (127, 33), (126, 1), (96, 1), (119, 1), (120, 0xff)] {
        let mut bytes = good.clone();
        bytes[at] = value;
        assert_eq!(PublicRecord::decode(&bytes), None);
    }
}

#[test]
fn decode_takes_zero_bytes_inside_the_declared_length_as_text() {
    let mut bytes = PublicRecord::new("abc".to_string(), 2).encode();
    bytes[127] = 4;
    let record = PublicRecord::decode(&bytes).unwrap();
    assert_eq!(record.text(), "abc\0");
    assert_eq!(record, PublicRecord::new("abc\0".to_string(), 2));
}

#[test]
fn decode_refuses_padding_that_is_not_zero() {
    let good = PublicRecord::new("abc".to_string(), 2).encode();
    for at in [131, 140, 159] {
        let mut bytes = good.clone();
        bytes[at] = 1;
        assert_eq!(PublicRecord::decode(&bytes), None);
    }
}

#[test]
fn decode_refuses_text_that_is_not_utf8() {
    let good = PublicRecord::new("abc".to_string(), 2).encode();
    for (at, value) in [(128, 0xff), (129, 0x80), (130, 0xc3)] {
        let mut bytes = good.clone();
        bytes[at] = value;
        assert_eq!(PublicRecord::decode(&bytes), None);
    }
}

#[test]
fn record_for_an_output_holds_its_base64_text() {
    let record = PublicRecord::for_output(Operation::VerticalFlip, b"processed video data").unwrap();
    assert_eq!(record.text(), "cHJvY2Vzc2VkIHZpZGVvIGRhdGE=");
    assert_eq!(record.operation(), 3);
    let empty = PublicRecord::for_output(Operation::DeformedMirror, &[]).unwrap();
    assert_eq!(empty.text(), "");
    assert_eq!(empty.operation(), 5);
    assert_eq!(
        record.encode(),
        layout("cHJvY2Vzc2VkIHZpZGVvIGRhdGE=", 3)
    );
}
