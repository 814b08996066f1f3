use vstd::prelude::*;

verus! {

#[verifier::external_type_specification]
#[verifier::external_body]
pub struct ExDecodeError(base64::DecodeError);

/// The bytes that the standard base64 alphabet, with padding, decodes from
/// `text`, where `text` is valid base64.
pub uninterp spec fn base64_decoded(text: Seq<char>) -> Option<Seq<u8>>;

/// The standard base64 encoding, with padding, of `bytes`.
pub uninterp spec fn base64_encoded(bytes: Seq<u8>) -> Seq<char>;

/// Decodes `text` from standard base64 with padding (`base64::decode`).
/// It succeeds exactly where `base64_decoded` has bytes, and gives them.
#[verifier::external_body]
pub(crate) fn decode_base64(text: &str) -> (r: Result<Vec<u8>, base64::DecodeError>)
    ensures
        r is Ok <==> base64_decoded(text@) is Some,
        r is Ok ==> r->Ok_0@ == base64_decoded(text@)->Some_0,
{
    base64::decode(text)
}

/// Encodes `bytes` in standard base64 with padding (`base64::encode`).
/// Decoding the encoding gives the bytes back.
#[verifier::external_body]
pub(crate) fn encode_base64(bytes: &[u8]) -> (r: String)
    ensures
        r@ == base64_encoded(bytes@),
        base64_decoded(r@) == Some(bytes@),
{
    base64::encode(bytes)
}

/// The text of a base64 decoding error (its `Display`).
#[verifier::external_body]
pub(crate) fn decode_error_text(e: &base64::DecodeError) -> String {
    e.to_string()
}

} // verus!
