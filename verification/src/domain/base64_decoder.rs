//! Decoding of the Base64 payload (standard alphabet, padded) with `base64_simd`.
use vstd::prelude::*;
use crate::domain::model::{DomainError, PdfBytes};

verus! {

#[verifier::external_type_specification]
#[verifier::external_body]
pub struct ExBase64Error(base64_simd::Error);

/// The exact decoded length that `base64_simd::STANDARD` computes from the length of `data`
/// and its trailing `=` padding, or `None` where the length cannot be that of padded Base64.
pub open spec fn standard_decoded_length(data: Seq<u8>) -> Option<nat> {
    let len = data.len();
    if len == 0 {
        Some(0)
    } else if len % 4 != 0 {
        None
    } else {
        let pad: nat = if data[len - 1] == 0x3du8 {
            if data[len - 2] == 0x3du8 {
                2
            } else {
                1
            }
        } else {
            0
        };
        let n = (len - pad) as nat;
        if n % 4 == 0 {
            Some(n / 4 * 3)
        } else if n % 4 == 2 {
            Some(n / 4 * 3 + 1)
        } else if n % 4 == 3 {
            Some(n / 4 * 3 + 2)
        } else {
            None
        }
    }
}

/// What `base64_simd::STANDARD` decodes `data` to, or `None` where it rejects the content.
pub uninterp spec fn standard_base64_decode(data: Seq<u8>) -> Option<Seq<u8>>;

/// The bytes that a payload decodes to, or `None` where it is not valid padded Base64.
pub open spec fn decoded_payload_spec(payload: Seq<u8>) -> Option<Seq<u8>> {
    match standard_decoded_length(payload) {
        Some(_) => standard_base64_decode(payload),
        None => None,
    }
}

/// Decoding accepts exactly what `base64_simd`'s standard decoder accepts at a valid padded
/// length, and yields exactly its bytes: no further condition on the payload narrows it.
pub proof fn lemma_decoded_payload_is_standard_decoding(payload: Seq<u8>)
    ensures
        standard_decoded_length(payload) is Some ==> decoded_payload_spec(payload)
            == standard_base64_decode(payload),
        standard_decoded_length(payload) is None ==> decoded_payload_spec(payload) is None,
        decoded_payload_spec(payload) is Some ==> decoded_payload_spec(payload)
            == standard_base64_decode(payload),
{
}

/// The decoded length of padded Base64: three bytes per four characters, less one per `=`.
pub proof fn lemma_standard_decoded_length(payload: Seq<u8>)
    ensures
        payload.len() % 4 != 0 ==> standard_decoded_length(payload) is None,
        payload.len() == 0 ==> standard_decoded_length(payload) == Some(0nat),
        payload.len() > 0 && payload.len() % 4 == 0 && payload.last() != 0x3du8
            ==> standard_decoded_length(payload) == Some(payload.len() / 4 * 3),
        payload.len() > 0 && payload.len() % 4 == 0 && payload.last() == 0x3du8
            && payload[payload.len() - 2] != 0x3du8 ==> standard_decoded_length(payload) == Some(
            (payload.len() / 4 * 3 - 1) as nat,
        ),
        payload.len() > 0 && payload.len() % 4 == 0 && payload.last() == 0x3du8
            && payload[payload.len() - 2] == 0x3du8 ==> standard_decoded_length(payload) == Some(
            (payload.len() / 4 * 3 - 2) as nat,
        ),
{
}

/// Calls `base64_simd::STANDARD.decoded_length`, which, per its source, checks only the length
/// and the trailing padding of `data` and returns the exact number of decoded bytes.
#[verifier::external_body]
fn standard_length(data: &[u8]) -> (r: Result<usize, base64_simd::Error>)
    ensures
        r is Ok <==> standard_decoded_length(data@) is Some,
        r matches Ok(m) ==> standard_decoded_length(data@) == Some(m as nat),
{
    base64_simd::STANDARD.decoded_length(data)
}

/// Calls `base64_simd::STANDARD.decode` into `out`, which must be exactly as long as the decoded
/// length (`decode` panics on a shorter buffer). It succeeds exactly when the content decodes,
/// and then `out` holds the decoded bytes; what it leaves in `out` on failure is not stated.
#[verifier::external_body]
fn standard_decode_into(data: &[u8], out: &mut Vec<u8>) -> (r: Result<(), base64_simd::Error>)
    requires
        standard_decoded_length(data@) == Some(old(out)@.len()),
    ensures
        final(out)@.len() == old(out)@.len(),
        r is Ok <==> standard_base64_decode(data@) is Some,
        r is Ok ==> final(out)@ == standard_base64_decode(data@).unwrap(),
{
    match base64_simd::STANDARD.decode(data, base64_simd::Out::from_slice(out.as_mut_slice())) {
        Ok(_) => Ok(()),
        Err(e) => Err(e),
    }
}

/// Turns the outcome of decoding into `buffer` into the decoded bytes or the domain error.
pub fn decoded_bytes(outcome: Result<(), base64_simd::Error>, buffer: Vec<u8>) -> (r: Result<
    Vec<u8>,
    DomainError,
>)
    ensures
        outcome is Ok ==> r == Ok::<Vec<u8>, DomainError>(buffer),
        outcome is Err ==> r == Err::<Vec<u8>, DomainError>(DomainError::Base64Decode),
{
    match outcome {
        Ok(()) => Ok(buffer),
        Err(_) => Err(DomainError::Base64Decode),
    }
}

/// Decodes `payload` into a buffer allocated at exactly the decoded length.
pub fn decode_base64_vec(payload: &[u8]) -> (r: Result<Vec<u8>, DomainError>)
    ensures
        r matches Ok(bytes) ==> decoded_payload_spec(payload@) == Some(bytes@) && bytes@.len()
            == standard_decoded_length(payload@).unwrap(),
        standard_decoded_length(payload@) is Some && standard_base64_decode(payload@) is Some ==> (r matches Ok(bytes) && Some(bytes@) == standard_base64_decode(payload@)),
        r matches Err(e) ==> decoded_payload_spec(payload@) is None && e
            == DomainError::Base64Decode,
{
    let size = match standard_length(payload) {
        Ok(size) => size,
        Err(_) => return Err(DomainError::Base64Decode),
    };
    let mut bytes = vec![0u8; size];
    let outcome = standard_decode_into(payload, &mut bytes);
    decoded_bytes(outcome, bytes)
}

/// Decodes a Base64 payload into PDF bytes.
pub fn decode_base64(payload: &[u8]) -> (r: Result<PdfBytes, DomainError>)
    ensures
        r matches Ok(pdf) ==> decoded_payload_spec(payload@) == Some(pdf@) && pdf@.len()
            == standard_decoded_length(payload@).unwrap(),
        standard_decoded_length(payload@) is Some && standard_base64_decode(payload@) is Some ==> (r matches Ok(pdf) && Some(pdf@) == standard_base64_decode(payload@)),
        r matches Err(e) ==> decoded_payload_spec(payload@) is None && e
            == DomainError::Base64Decode,
{
    match decode_base64_vec(payload) {
        Ok(bytes) => Ok(PdfBytes::new(bytes)),
        Err(e) => Err(e),
    }
}

} // verus!
