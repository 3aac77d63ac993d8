//! Base64 at the two ends of a run: the input arrives as base64 text and
//! the output bitstream leaves as base64 text.

use vstd::prelude::*;
use crate::error::PipelineError;

verus! {

/// The error of `base64::decode`.
#[verifier::external_type_specification]
#[verifier::external_body]
pub struct ExDecodeError(base64::DecodeError);

/// The bytes that `text` stands for in standard base64 with padding, or
/// `None` where `text` is not such an encoding.
pub uninterp spec fn base64_bytes(text: Seq<char>) -> Option<Seq<u8>>;

/// The standard base64 text, with padding, of `bytes`.
pub uninterp spec fn base64_text(bytes: Seq<u8>) -> Seq<char>;

/// The length of the base64 text of `len` bytes: four characters for every
/// three bytes begun.
pub open spec fn base64_len(len: int) -> int {
    (len / 3) * 4 + if len % 3 > 0 {
        4int
    } else {
        0int
    }
}

/// `base64::decode`, which decodes with the crate's standard engine. The
/// outcome depends on the text alone; nothing of it is proved here but
/// that it is the value named `base64_bytes`.
#[allow(deprecated)]
#[verifier::external_body]
fn base64_decode(text: &str) -> (r: Result<Vec<u8>, base64::DecodeError>)
    ensures
        match r {
            Ok(bytes) => base64_bytes(text@) == Some(bytes@),
            Err(_) => base64_bytes(text@) is None,
        },
{
    base64::decode(text)
}

/// `base64::encode`, which encodes with the crate's standard engine and
/// panics where the length of the text would not fit in `usize`. The text
/// depends on the bytes alone; nothing of it is proved here but that it is
/// the value named `base64_text`.
#[allow(deprecated)]
#[verifier::external_body]
fn base64_encode(bytes: &[u8]) -> (text: String)
    requires
        base64_len(bytes@.len() as int) <= usize::MAX,
    ensures
        text@ == base64_text(bytes@),
{
    base64::encode(bytes)
}

/// What a run makes of a decoding attempt: the bytes, or a decode failure
/// whatever the reason the text was refused for.
pub fn decoded_or_failure(attempt: Result<Vec<u8>, base64::DecodeError>) -> (r: Result<
    Vec<u8>,
    PipelineError,
>)
    ensures
        match attempt {
            Ok(bytes) => r == Ok::<Vec<u8>, PipelineError>(bytes),
            Err(_) => r == Err::<Vec<u8>, PipelineError>(PipelineError::DecodeFailure),
        },
{
    match attempt {
        Ok(bytes) => Ok(bytes),
        Err(_) => Err(PipelineError::DecodeFailure),
    }
}

/// The encoded video that the base64 `text` holds; a decode failure where
/// `text` is not base64.
pub fn decode_input(text: &str) -> (r: Result<Vec<u8>, PipelineError>)
    ensures
        match base64_bytes(text@) {
            Some(bytes) => r matches Ok(v) && v@ == bytes,
            None => r == Err::<Vec<u8>, PipelineError>(PipelineError::DecodeFailure),
        },
{
    decoded_or_failure(base64_decode(text))
}

/// The output bitstream as base64 text; an encode failure where the text
/// would be too long to hold.
pub fn encode_output(bytes: &[u8]) -> (r: Result<String, PipelineError>)
    ensures
        base64_len(bytes@.len() as int) <= usize::MAX ==> (r matches Ok(text) && text@
            == base64_text(bytes@)),
        base64_len(bytes@.len() as int) > usize::MAX ==> r == Err::<String, PipelineError>(
            PipelineError::EncodeFailure,
        ),
{
    let len = bytes.len();
    let groups = len / 3;
    if groups > usize::MAX / 4 {
        return Err(PipelineError::EncodeFailure);
    }
    if len % 3 > 0 && groups * 4 > usize::MAX - 4 {
        return Err(PipelineError::EncodeFailure);
    }
    Ok(base64_encode(bytes))
}

} // verus!
