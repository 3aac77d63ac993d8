//! The public record of a run: the output bitstream as text together with
//! the operation code, and its fixed binary layout.
//!
//! The layout is a sequence of 32-byte big-endian words followed by the
//! text: the offset of the record (32), the offset of the text inside the
//! record (64), the operation code, the length of the text in bytes, then
//! the UTF-8 bytes of the text, padded with zeros to a multiple of 32.

use vstd::prelude::*;
use vstd::slice::{slice_subrange, slice_to_vec};
use crate::error::PipelineError;
use crate::operation::Operation;
use crate::transcode::{base64_len, base64_text, encode_output};
use vstd::utf8::{
    decode_utf8, decode_utf8_encode_utf8, encode_utf8, encode_utf8_decode_utf8,
    encode_utf8_valid_utf8, valid_utf8,
};

verus! {

/// The length of the four words that precede the text.
pub const HEAD_LEN: usize = 128;

/// The 32-byte big-endian word of a value below 2^64: 24 zero bytes, then
/// the eight bytes of the value, the most significant first.
pub open spec fn word(value: nat) -> Seq<u8> {
    Seq::new(24, |i: int| 0u8) + seq![
        ((value / 0x100_0000_0000_0000) % 256) as u8,
        ((value / 0x1_0000_0000_0000) % 256) as u8,
        ((value / 0x100_0000_0000) % 256) as u8,
        ((value / 0x1_0000_0000) % 256) as u8,
        ((value / 0x100_0000) % 256) as u8,
        ((value / 0x1_0000) % 256) as u8,
        ((value / 0x100) % 256) as u8,
        (value % 256) as u8,
    ]
}

/// Whether `w` is the word of some value below 2^64.
pub open spec fn is_word(w: Seq<u8>) -> bool {
    &&& w.len() == 32
    &&& forall|i: int| 0 <= i < 24 ==> w[i] == 0
}

/// The value that the last eight bytes of a word stand for.
pub open spec fn word_value(w: Seq<u8>) -> nat {
    (w[24] * 0x100_0000_0000_0000 + w[25] * 0x1_0000_0000_0000 + w[26] * 0x100_0000_0000 + w[27]
        * 0x1_0000_0000 + w[28] * 0x100_0000 + w[29] * 0x1_0000 + w[30] * 0x100 + w[31]) as nat
}

/// The number of zero bytes that pad a text of `len` bytes to a multiple of
/// 32.
pub open spec fn padding_len(len: int) -> int {
    (32 - len % 32) % 32
}

/// The bytes of the record `(text, operation)`.
pub open spec fn encoded_record(text: Seq<char>, operation: u8) -> Seq<u8> {
    let body = encode_utf8(text);
    word(32) + word(64) + word(operation as nat) + word(body.len()) + body + Seq::new(
        padding_len(body.len() as int) as nat,
        |i: int| 0u8,
    )
}

/// What a record is made of.
pub struct RecordView {
    pub text: Seq<char>,
    pub operation: u8,
}

/// The record that `bytes` hold, or `None` where they are not the bytes of
/// a record: every word must be a word, the two offsets must be 32 and 64,
/// the operation must fit in eight bits, the length must account for every
/// byte that follows, the padding must be zeros and the text UTF-8.
pub open spec fn decoded_record(bytes: Seq<u8>) -> Option<RecordView> {
    if bytes.len() < 128 {
        None
    } else {
        let outer = bytes.subrange(0, 32);
        let inner = bytes.subrange(32, 64);
        let operation = bytes.subrange(64, 96);
        let length = bytes.subrange(96, 128);
        let len = word_value(length) as int;
        if is_word(outer) && word_value(outer) == 32 && is_word(inner) && word_value(inner) == 64
            && is_word(operation) && word_value(operation) < 256 && is_word(length) && bytes.len()
            == 128 + len + padding_len(len) && (forall|i: int|
            128 + len <= i < bytes.len() ==> bytes[i] == 0) && valid_utf8(
            bytes.subrange(128, 128 + len),
        ) {
            Some(
                RecordView {
                    text: decode_utf8(bytes.subrange(128, 128 + len)),
                    operation: word_value(operation) as u8,
                },
            )
        } else {
            None
        }
    }
}

/// The eight base-256 digits of a value add up to the value.
proof fn lemma_limbs_of_value(v: u64)
    by (bit_vector)
    ensures
        ((v / 0x100_0000_0000_0000) % 256) * 0x100_0000_0000_0000 + ((v / 0x1_0000_0000_0000)
            % 256) * 0x1_0000_0000_0000 + ((v / 0x100_0000_0000) % 256) * 0x100_0000_0000 + ((v
            / 0x1_0000_0000) % 256) * 0x1_0000_0000 + ((v / 0x100_0000) % 256) * 0x100_0000 + ((v
            / 0x1_0000) % 256) * 0x1_0000 + ((v / 0x100) % 256) * 0x100 + (v % 256) == v,
{
}

/// Eight bytes are the base-256 digits of the value they add up to.
proof fn lemma_value_of_limbs(b0: u8, b1: u8, b2: u8, b3: u8, b4: u8, b5: u8, b6: u8, b7: u8)
    by (bit_vector)
    ensures
        ({
            let v = b0 * 0x100_0000_0000_0000 + b1 * 0x1_0000_0000_0000 + b2 * 0x100_0000_0000 + b3
                * 0x1_0000_0000 + b4 * 0x100_0000 + b5 * 0x1_0000 + b6 * 0x100 + b7;
            &&& v < 0x1_0000_0000_0000_0000
            &&& (v / 0x100_0000_0000_0000) % 256 == b0
            &&& (v / 0x1_0000_0000_0000) % 256 == b1
            &&& (v / 0x100_0000_0000) % 256 == b2
            &&& (v / 0x1_0000_0000) % 256 == b3
            &&& (v / 0x100_0000) % 256 == b4
            &&& (v / 0x1_0000) % 256 == b5
            &&& (v / 0x100) % 256 == b6
            &&& v % 256 == b7
        }),
{
}

/// A word holds its value.
pub proof fn lemma_word_of_value(value: nat)
    requires
        value < 0x1_0000_0000_0000_0000,
    ensures
        is_word(word(value)),
        word_value(word(value)) == value,
{
    lemma_limbs_of_value(value as u64);
}

/// A word is the word of its value, which is below 2^64.
pub proof fn lemma_value_of_word(w: Seq<u8>)
    requires
        is_word(w),
    ensures
        word_value(w) < 0x1_0000_0000_0000_0000,
        word(word_value(w)) == w,
{
    lemma_value_of_limbs(w[24], w[25], w[26], w[27], w[28], w[29], w[30], w[31]);
    assert(word(word_value(w)) =~= w);
}

/// Decoding the bytes of a record gives the record back, whatever the text
/// (the empty text too) and whatever the code (255 too).
pub proof fn lemma_record_round_trip(text: Seq<char>, operation: u8)
    requires
        encode_utf8(text).len() < 0x1_0000_0000_0000_0000,
    ensures
        decoded_record(encoded_record(text, operation)) == Some(RecordView { text, operation }),
{
    let body = encode_utf8(text);
    let bytes = encoded_record(text, operation);
    let len = body.len() as int;
    lemma_word_of_value(32);
    lemma_word_of_value(64);
    lemma_word_of_value(operation as nat);
    lemma_word_of_value(body.len());
    assert(bytes.subrange(0, 32) =~= word(32));
    assert(bytes.subrange(32, 64) =~= word(64));
    assert(bytes.subrange(64, 96) =~= word(operation as nat));
    assert(bytes.subrange(96, 128) =~= word(body.len()));
    assert(bytes.subrange(128, 128 + len) =~= body);
    encode_utf8_valid_utf8(text);
    encode_utf8_decode_utf8(text);
}

/// Bytes that hold a record are the bytes of that record and of no other:
/// the layout leaves no freedom.
pub proof fn lemma_decoded_is_canonical(bytes: Seq<u8>)
    requires
        decoded_record(bytes) is Some,
    ensures
        encoded_record(decoded_record(bytes)->0.text, decoded_record(bytes)->0.operation) == bytes,
{
    let length = bytes.subrange(96, 128);
    let len = word_value(length) as int;
    let body = bytes.subrange(128, 128 + len);
    let record = decoded_record(bytes)->0;
    lemma_value_of_word(bytes.subrange(0, 32));
    lemma_value_of_word(bytes.subrange(32, 64));
    lemma_value_of_word(bytes.subrange(64, 96));
    lemma_value_of_word(length);
    decode_utf8_encode_utf8(body);
    assert(encode_utf8(record.text) == body);
    assert(encoded_record(record.text, record.operation) =~= bytes);
}

/// The record of a run: the output bitstream as text and the operation
/// code. A record never changes after it is made.
#[derive(Clone, Debug, PartialEq, Eq)]
pub struct PublicRecord {
    text: String,
    operation: u8,
}

impl View for PublicRecord {
    type V = RecordView;

    closed spec fn view(&self) -> RecordView {
        RecordView { text: self.text@, operation: self.operation }
    }
}

/// The error of `String::from_utf8`.
#[verifier::external_type_specification]
#[verifier::external_body]
pub struct ExFromUtf8Error(std::string::FromUtf8Error);

/// `String::from_utf8`, which gives the string that the bytes encode where
/// they are UTF-8 and an error where they are not.
#[verifier::external_body]
fn string_from_utf8(bytes: Vec<u8>) -> (r: Result<String, std::string::FromUtf8Error>)
    ensures
        r is Ok <==> valid_utf8(bytes@),
        r matches Ok(text) ==> text@ == decode_utf8(bytes@),
{
    String::from_utf8(bytes)
}

/// Appends the word of `value`.
fn push_word(out: &mut Vec<u8>, value: u64)
    ensures
        final(out)@ == old(out)@ + word(value as nat),
{
    let mut i: usize = 0;
    while i < 24
        invariant
            i <= 24,
            out@ == old(out)@ + Seq::new(i as nat, |k: int| 0u8),
        decreases 24 - i,
    {
        out.push(0);
        i = i + 1;
    }
    out.push(((value / 0x100_0000_0000_0000) % 256) as u8);
    out.push(((value / 0x1_0000_0000_0000) % 256) as u8);
    out.push(((value / 0x100_0000_0000) % 256) as u8);
    out.push(((value / 0x1_0000_0000) % 256) as u8);
    out.push(((value / 0x100_0000) % 256) as u8);
    out.push(((value / 0x1_0000) % 256) as u8);
    out.push(((value / 0x100) % 256) as u8);
    out.push((value % 256) as u8);
    assert(out@ =~= old(out)@ + word(value as nat));
}

/// The value of the word that starts at `at`, or `None` where the 32
/// bytes there are not a word.
fn read_word(bytes: &[u8], at: usize) -> (r: Option<u64>)
    requires
        at + 32 <= bytes@.len(),
    ensures
        match r {
            Some(value) => is_word(bytes@.subrange(at as int, at + 32)) && word_value(
                bytes@.subrange(at as int, at + 32),
            ) == value,
            None => !is_word(bytes@.subrange(at as int, at + 32)),
        },
{
    let ghost w = bytes@.subrange(at as int, at + 32);
    assert(bytes.len() == bytes@.len());
    let mut i: usize = 0;
    while i < 24
        invariant
            i <= 24,
            at + 32 <= bytes@.len() <= usize::MAX,
            w == bytes@.subrange(at as int, at + 32),
            forall|k: int| 0 <= k < i ==> w[k] == 0,
        decreases 24 - i,
    {
        if bytes[at + i] != 0 {
            assert(w[i as int] != 0);
            return None;
        }
        i = i + 1;
    }
    let value: u64 = (bytes[at + 24] as u64) * 0x100_0000_0000_0000 + (bytes[at + 25] as u64)
        * 0x1_0000_0000_0000 + (bytes[at + 26] as u64) * 0x100_0000_0000 + (bytes[at + 27] as u64)
        * 0x1_0000_0000 + (bytes[at + 28] as u64) * 0x100_0000 + (bytes[at + 29] as u64) * 0x1_0000
        + (bytes[at + 30] as u64) * 0x100 + (bytes[at + 31] as u64);
    Some(value)
}

impl PublicRecord {
    /// The record of the output `text` and the operation code of its run.
    /// Any code is taken, also one that no run would accept.
    pub fn new(text: String, operation: u8) -> (record: PublicRecord)
        ensures
            record@ == (RecordView { text: text@, operation }),
    {
        PublicRecord { text, operation }
    }

    /// The record that commits a run to its output: the output bitstream
    /// as base64 text, and the code of the run's operation. An encode
    /// failure where the text would be too long to hold.
    pub fn for_output(operation: Operation, bitstream: &[u8]) -> (r: Result<
        PublicRecord,
        PipelineError,
    >)
        ensures
            base64_len(bitstream@.len() as int) <= usize::MAX ==> (r matches Ok(record) && record@
                == (RecordView { text: base64_text(bitstream@), operation: operation.code_of() })),
            base64_len(bitstream@.len() as int) > usize::MAX ==> (r matches Err(e) && e
                == PipelineError::EncodeFailure),
    {
        match encode_output(bitstream) {
            Ok(text) => Ok(PublicRecord { text, operation: operation.code() }),
            Err(e) => Err(e),
        }
    }

    /// The output bitstream as text.
    pub fn text(&self) -> (text: &str)
        ensures
            text@ == self@.text,
    {
        self.text.as_str()
    }

    /// The operation code.
    pub fn operation(&self) -> (operation: u8)
        ensures
            operation == self@.operation,
    {
        self.operation
    }

    /// The bytes of the record. Decoding them gives the record back.
    pub fn encode(&self) -> (out: Vec<u8>)
        ensures
            out@ == encoded_record(self@.text, self@.operation),
            decoded_record(out@) == Some(self@),
    {
        let body = self.text.as_str().as_bytes();
        let mut out: Vec<u8> = Vec::new();
        push_word(&mut out, 32);
        push_word(&mut out, 64);
        push_word(&mut out, self.operation as u64);
        push_word(&mut out, body.len() as u64);
        out.extend_from_slice(body);
        let ghost filled = out@;
        let padding: usize = (32 - body.len() % 32) % 32;
        let mut i: usize = 0;
        while i < padding
            invariant
                i <= padding,
                out@ == filled + Seq::new(i as nat, |k: int| 0u8),
            decreases padding - i,
        {
            out.push(0);
            i = i + 1;
        }
        assert(out@ =~= encoded_record(self@.text, self@.operation));
        proof {
            lemma_record_round_trip(self@.text, self@.operation);
        }
        out
    }

    /// The record that `bytes` hold; `None` where they are not exactly the
    /// bytes of a record.
    pub fn decode(bytes: &[u8]) -> (r: Option<PublicRecord>)
        ensures
            match decoded_record(bytes@) {
                Some(expected) => r matches Some(record) && record@ == expected,
                None => r is None,
            },
    {
        if bytes.len() < HEAD_LEN {
            return None;
        }
        match read_word(bytes, 0) {
            Some(offset) => {
                if offset != 32 {
                    return None;
                }
            },
            None => {
                return None;
            },
        }
        match read_word(bytes, 32) {
            Some(offset) => {
                if offset != 64 {
                    return None;
                }
            },
            None => {
                return None;
            },
        }
        let operation: u8 = match read_word(bytes, 64) {
            Some(code) => {
                if code > 255 {
                    return None;
                }
                code as u8
            },
            None => {
                return None;
            },
        };
        let declared: u64 = match read_word(bytes, 96) {
            Some(len) => len,
            None => {
                return None;
            },
        };
        let rest: usize = bytes.len() - HEAD_LEN;
        if declared > rest as u64 {
            return None;
        }
        let len: usize = declared as usize;
        let padding: usize = (32 - len % 32) % 32;
        if rest - len != padding {
            return None;
        }
        let mut i: usize = HEAD_LEN + len;
        while i < bytes.len()
            invariant
                HEAD_LEN + len <= i <= bytes.len(),
                len == word_value(bytes@.subrange(96, 128)),
                forall|k: int| 128 + len <= k < i ==> bytes@[k] == 0,
            decreases bytes.len() - i,
        {
            if bytes[i] != 0 {
                assert(bytes@[i as int] != 0);
                return None;
            }
            i = i + 1;
        }
        let body = slice_to_vec(slice_subrange(bytes, HEAD_LEN, HEAD_LEN + len));
        match string_from_utf8(body) {
            Ok(text) => Some(PublicRecord { text, operation }),
            Err(_) => None,
        }
    }
}

} // verus!
