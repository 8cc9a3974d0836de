//! The outside functions that the library calls, each with what is claimed of it.

use vstd::prelude::*;

use crate::encoding;

verus! {

/// `Uuid`'s `Display`: the hyphenated form in lower case.
#[verifier::external_body]
pub(crate) fn uuid_display(uuid: &[u8; 16]) -> (text: String)
    ensures
        text@ == encoding::uuid_text(uuid@),
{
    uuid::Uuid::from_bytes(*uuid).to_string()
}

/// `Engine::encode` of the engine `BASE64_STANDARD`: the standard alphabet, padded with `=`.
#[verifier::external_body]
pub(crate) fn base64_encode(bytes: &[u8; 32]) -> (text: String)
    ensures
        text@ == encoding::base64_text(bytes@),
{
    base64::Engine::encode(&base64::prelude::BASE64_STANDARD, bytes)
}

/// The SHA-256 digest of a message.
pub uninterp spec fn sha256_digest(message: Seq<u8>) -> Seq<u8>;

/// `Sha256`, fed the message once and finished: thirty-two bytes that depend on the message alone.
#[verifier::external_body]
pub(crate) fn sha256(message: &[u8]) -> (digest: Vec<u8>)
    ensures
        digest@ == sha256_digest(message@),
        digest@.len() == 32,
{
    <sha2::Sha256 as sha2::Digest>::digest(message).to_vec()
}

/// The bytes that a JSON text lists as an array of numbers, if it is such a text.
pub uninterp spec fn json_byte_array(text: Seq<u8>) -> Option<Seq<u8>>;

/// `serde_json::from_slice` at `Vec<u8>`: whether it succeeds and what it gives depend on the
/// text alone. What the error says is left open.
#[verifier::external_body]
pub(crate) fn json_bytes(text: &[u8]) -> (bytes: Result<Vec<u8>, serde_json::Error>)
    ensures
        bytes is Ok <==> json_byte_array(text@) is Some,
        bytes is Ok ==> json_byte_array(text@) == Some(bytes->Ok_0@),
{
    serde_json::from_slice(text)
}

} // verus!
