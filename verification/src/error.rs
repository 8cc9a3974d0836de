//! What can go wrong in the store.

use vstd::prelude::*;

verus! {

/// An error of the tree database; carried through unread.
#[verifier::external_type_specification]
#[verifier::external_body]
pub struct ExSledError(sled::Error);

/// An error of the JSON parser; carried through unread.
#[verifier::external_type_specification]
#[verifier::external_body]
pub struct ExJsonError(serde_json::Error);

/// An error of the protobuf parser; carried through unread.
#[verifier::external_type_specification]
#[verifier::external_body]
pub struct ExDecodeError(prost::DecodeError);

/// Why a value could not be encrypted or decrypted.
#[derive(Debug)]
pub struct CipherError {
    pub message: String,
}

/// Why an operation of the store failed.
#[derive(Debug)]
pub enum SledStoreError {
    /// The tree database failed.
    Db(sled::Error),
    /// The cipher refused a value.
    StoreCipher(CipherError),
    /// A value is not the JSON text of what it should hold.
    Json(serde_json::Error),
    /// A message is not the protobuf form of what it should hold.
    ProtobufDecode(prost::DecodeError),
    /// A message was parsed and does not stand for any content.
    Content(String),
    /// A key in the tree of groups is not a group master key.
    GroupDecryption,
}

impl From<sled::Error> for SledStoreError {
    fn from(e: sled::Error) -> (r: SledStoreError) {
        SledStoreError::Db(e)
    }
}

impl vstd::std_specs::convert::FromSpecImpl<sled::Error> for SledStoreError {
    open spec fn obeys_from_spec() -> bool {
        true
    }

    open spec fn from_spec(e: sled::Error) -> SledStoreError {
        SledStoreError::Db(e)
    }
}

impl From<CipherError> for SledStoreError {
    fn from(e: CipherError) -> (r: SledStoreError) {
        SledStoreError::StoreCipher(e)
    }
}

impl vstd::std_specs::convert::FromSpecImpl<CipherError> for SledStoreError {
    open spec fn obeys_from_spec() -> bool {
        true
    }

    open spec fn from_spec(e: CipherError) -> SledStoreError {
        SledStoreError::StoreCipher(e)
    }
}

impl From<serde_json::Error> for SledStoreError {
    fn from(e: serde_json::Error) -> (r: SledStoreError) {
        SledStoreError::Json(e)
    }
}

impl vstd::std_specs::convert::FromSpecImpl<serde_json::Error> for SledStoreError {
    open spec fn obeys_from_spec() -> bool {
        true
    }

    open spec fn from_spec(e: serde_json::Error) -> SledStoreError {
        SledStoreError::Json(e)
    }
}

impl From<prost::DecodeError> for SledStoreError {
    fn from(e: prost::DecodeError) -> (r: SledStoreError) {
        SledStoreError::ProtobufDecode(e)
    }
}

impl vstd::std_specs::convert::FromSpecImpl<prost::DecodeError> for SledStoreError {
    open spec fn obeys_from_spec() -> bool {
        true
    }

    open spec fn from_spec(e: prost::DecodeError) -> SledStoreError {
        SledStoreError::ProtobufDecode(e)
    }
}

} // verus!
