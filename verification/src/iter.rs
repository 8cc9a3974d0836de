//! Walks over the contents of a tree, and how the values met there are read.
//!
//! A walk holds the database's cursor and hands on what the cursor yields. A value is read in
//! stages: each stage says what is to be done next, and takes what came of it.

use std::sync::Arc;

use vstd::prelude::*;

use crate::error::{CipherError, SledStoreError};
use crate::outside;

verus! {

/// How far the reading of a stored value has come.
pub enum Reading<K, T> {
    /// The value is to be decrypted.
    Decrypt { cipher: Arc<K>, value: Vec<u8> },
    /// The value is to be parsed as JSON.
    ParseJson(Vec<u8>),
    /// The value has been read, or cannot be.
    Done(Result<T, SledStoreError>),
}

/// How a stored value is read: decrypted where there is a cipher, else parsed as JSON.
pub open spec fn reading_of<K, T>(cipher: Option<Arc<K>>, value: Vec<u8>) -> Reading<K, T> {
    match cipher {
        Some(cipher) => Reading::Decrypt { cipher, value },
        None => Reading::ParseJson(value),
    }
}

/// Starts the reading of a stored value.
pub fn start_reading<K, T>(cipher: &Option<Arc<K>>, value: Vec<u8>) -> (reading: Reading<K, T>)
    ensures
        reading == reading_of::<K, T>(*cipher, value),
{
    match cipher {
        Some(cipher) => Reading::Decrypt { cipher: Arc::clone(cipher), value },
        None => Reading::ParseJson(value),
    }
}

/// Hands on what a cursor yielded: the end, a failure, or the reading of a value.
fn read_element<K, T>(
    cipher: &Option<Arc<K>>,
    element: Option<Result<(Vec<u8>, Vec<u8>), sled::Error>>,
) -> (reading: Option<Reading<K, T>>)
    ensures
        reading == element_reading::<K, T>(*cipher, element),
{
    match element {
        None => None,
        Some(Err(e)) => Some(Reading::Done(Err(SledStoreError::from(e)))),
        Some(Ok((_key, value))) => Some(start_reading(cipher, value)),
    }
}

/// What becomes of what a cursor yielded: nothing at the end of the walk, the error where the
/// database failed, else the reading of the value.
pub open spec fn element_reading<K, T>(
    cipher: Option<Arc<K>>,
    element: Option<Result<(Vec<u8>, Vec<u8>), sled::Error>>,
) -> Option<Reading<K, T>> {
    match element {
        None => None,
        Some(Err(e)) => Some(Reading::Done(Err(SledStoreError::Db(e)))),
        Some(Ok((_, value))) => Some(reading_of(cipher, value)),
    }
}

impl<K, T> Reading<K, T> {
    /// What follows on what the cipher gave: the end, with its value or its failure.
    pub open spec fn after_cipher(opened: Result<T, CipherError>) -> Reading<K, T> {
        Reading::Done(
            match opened {
                Ok(value) => Ok(value),
                Err(e) => Err(SledStoreError::StoreCipher(e)),
            },
        )
    }

    /// What follows on what the JSON parser gave: the end, with its value or its failure.
    pub open spec fn after_json(parsed: Result<T, serde_json::Error>) -> Reading<K, T> {
        Reading::Done(
            match parsed {
                Ok(value) => Ok(value),
                Err(e) => Err(SledStoreError::Json(e)),
            },
        )
    }

    /// Goes on with what the cipher gave.
    pub fn decrypted(opened: Result<T, CipherError>) -> (reading: Reading<K, T>)
        ensures
            reading == Self::after_cipher(opened),
    {
        match opened {
            Ok(value) => Reading::Done(Ok(value)),
            Err(e) => Reading::Done(Err(SledStoreError::from(e))),
        }
    }

    /// Goes on with what the JSON parser gave.
    pub fn parsed(parsed: Result<T, serde_json::Error>) -> (reading: Reading<K, T>)
        ensures
            reading == Self::after_json(parsed),
    {
        match parsed {
            Ok(value) => Reading::Done(Ok(value)),
            Err(e) => Reading::Done(Err(SledStoreError::from(e))),
        }
    }
}

/// A walk over the contacts.
pub struct SledContactsIter<I, K> {
    pub cipher: Option<Arc<K>>,
    pub iter: I,
}

impl<I, K> SledContactsIter<I, K> {
    /// Starts the reading of a stored contact.
    pub fn decrypt_value<C>(&self, value: Vec<u8>) -> (reading: Reading<K, C>)
        ensures
            reading == reading_of::<K, C>(self.cipher, value),
    {
        start_reading(&self.cipher, value)
    }

    /// Hands on what the cursor yielded.
    pub fn next<C>(
        &self,
        element: Option<Result<(Vec<u8>, Vec<u8>), sled::Error>>,
    ) -> (reading: Option<Reading<K, C>>)
        ensures
            reading == element_reading::<K, C>(self.cipher, element),
    {
        match element {
            None => None,
            Some(Err(e)) => Some(Reading::Done(Err(SledStoreError::from(e)))),
            Some(Ok((_key, value))) => Some(self.decrypt_value(value)),
        }
    }
}

/// A walk over the sticker packs.
pub struct SledStickerPacksIter<I, K> {
    pub cipher: Option<Arc<K>>,
    pub iter: I,
}

impl<I, K> SledStickerPacksIter<I, K> {
    /// Hands on what the cursor yielded.
    pub fn next<P>(
        &self,
        element: Option<Result<(Vec<u8>, Vec<u8>), sled::Error>>,
    ) -> (reading: Option<Reading<K, P>>)
        ensures
            reading == element_reading::<K, P>(self.cipher, element),
    {
        read_element(&self.cipher, element)
    }
}

/// A walk over the metadata of conversations.
pub struct SledThreadMetadataIter<I, K> {
    pub cipher: Option<Arc<K>>,
    pub iter: I,
}

impl<I, K> SledThreadMetadataIter<I, K> {
    /// Hands on what the cursor yielded.
    pub fn next<M>(
        &self,
        element: Option<Result<(Vec<u8>, Vec<u8>), sled::Error>>,
    ) -> (reading: Option<Reading<K, M>>)
        ensures
            reading == element_reading::<K, M>(self.cipher, element),
    {
        read_element(&self.cipher, element)
    }
}

/// A walk over the groups.
pub struct SledGroupsIter<I, K> {
    pub cipher: Option<Arc<K>>,
    pub iter: I,
}

impl<I, K> SledGroupsIter<I, K> {
    /// Starts the reading of a stored group.
    pub fn decrypt_value<G>(&self, value: Vec<u8>) -> (reading: Reading<K, G>)
        ensures
            reading == reading_of::<K, G>(self.cipher, value),
    {
        start_reading(&self.cipher, value)
    }

    /// Hands on what the cursor yielded: the end, a failure, or a key and the reading of the group
    /// under it.
    pub fn next<G>(
        &self,
        element: Option<Result<(Vec<u8>, Vec<u8>), sled::Error>>,
    ) -> (entry: Option<Result<(Vec<u8>, Reading<K, G>), SledStoreError>>)
        ensures
            entry == match element {
                None => None,
                Some(Err(e)) => Some(Err(SledStoreError::Db(e))),
                Some(Ok((key, value))) => Some(
                    Ok::<(Vec<u8>, Reading<K, G>), SledStoreError>(
                        (key, reading_of(self.cipher, value)),
                    ),
                ),
            },
    {
        match element {
            None => None,
            Some(Err(e)) => Some(Err(SledStoreError::from(e))),
            Some(Ok((key, value))) => Some(Ok((key, self.decrypt_value(value)))),
        }
    }

    /// Puts a group that has been read beside its master key. A group that cannot be read is the
    /// error whatever its key; a key that is no master key comes after that.
    pub fn keyed<G>(key: &[u8], group: Result<G, SledStoreError>) -> (item: Result<
        ([u8; 32], G),
        SledStoreError,
    >)
        ensures
            match group {
                Err(e) => item == Err::<([u8; 32], G), SledStoreError>(e),
                Ok(group) => if key@.len() == 32 {
                    item matches Ok(pair) && pair.0@ == key@ && pair.1 == group
                } else {
                    item == Err::<([u8; 32], G), SledStoreError>(SledStoreError::GroupDecryption)
                },
            },
    {
        let group = match group {
            Ok(group) => group,
            Err(e) => {
                return Err(e);
            },
        };
        match master_key(key) {
            Some(master_key) => Ok((master_key, group)),
            None => Err(SledStoreError::GroupDecryption),
        }
    }
}

/// The master key that a key of the tree of groups is, if it has the length of one.
fn master_key(key: &[u8]) -> (master_key: Option<[u8; 32]>)
    ensures
        master_key is Some <==> key@.len() == 32,
        master_key matches Some(bytes) ==> bytes@ == key@,
{
    if key.len() != 32 {
        return None;
    }
    let mut bytes: [u8; 32] = [0; 32];
    let mut i: usize = 0;
    while i < 32
        invariant
            i <= 32,
            key@.len() == 32,
            forall|k: int| 0 <= k < i ==> bytes@[k] == key@[k],
        decreases 32 - i,
    {
        bytes[i] = key[i];
        i = i + 1;
    }
    assert(bytes@ =~= key@);
    Some(bytes)
}

/// How far the reading of a message has come.
pub enum Decoding<K, P, C> {
    /// The stored value is to be decrypted into the bytes of the message.
    Decrypt { cipher: Arc<K>, value: Vec<u8> },
    /// The bytes of the message are to be parsed as protobuf.
    Parse(Vec<u8>),
    /// The parsed message is to be turned into content.
    Convert(P),
    /// The content has been read, or cannot be.
    Done(Result<C, SledStoreError>),
}

impl<K, P, C> Decoding<K, P, C> {
    /// What follows on what the cipher gave: its data is to be parsed, its failure is the end.
    pub open spec fn after_cipher(opened: Result<Vec<u8>, CipherError>) -> Decoding<K, P, C> {
        match opened {
            Ok(data) => Decoding::Parse(data),
            Err(e) => Decoding::Done(Err(SledStoreError::StoreCipher(e))),
        }
    }

    /// What follows on what the JSON parser gave: its data is to be parsed, its failure is the end.
    pub open spec fn after_json(unwrapped: Result<Vec<u8>, serde_json::Error>) -> Decoding<K, P, C> {
        match unwrapped {
            Ok(data) => Decoding::Parse(data),
            Err(e) => Decoding::Done(Err(SledStoreError::Json(e))),
        }
    }

    /// What follows on what the protobuf parser gave: its message is to be turned into content, its
    /// failure is the end.
    pub open spec fn after_protobuf(parsed: Result<P, prost::DecodeError>) -> Decoding<K, P, C> {
        match parsed {
            Ok(message) => Decoding::Convert(message),
            Err(e) => Decoding::Done(Err(SledStoreError::ProtobufDecode(e))),
        }
    }

    /// Goes on with what the cipher gave.
    pub fn decrypted(opened: Result<Vec<u8>, CipherError>) -> (decoding: Decoding<K, P, C>)
        ensures
            decoding == Self::after_cipher(opened),
    {
        match opened {
            Ok(data) => Decoding::Parse(data),
            Err(e) => Decoding::Done(Err(SledStoreError::from(e))),
        }
    }

    /// Goes on with what the JSON parser gave.
    pub fn unwrapped(unwrapped: Result<Vec<u8>, serde_json::Error>) -> (decoding: Decoding<K, P, C>)
        ensures
            decoding == Self::after_json(unwrapped),
    {
        match unwrapped {
            Ok(data) => Decoding::Parse(data),
            Err(e) => Decoding::Done(Err(SledStoreError::from(e))),
        }
    }

    /// Goes on with what the protobuf parser gave.
    pub fn parsed(parsed: Result<P, prost::DecodeError>) -> (decoding: Decoding<K, P, C>)
        ensures
            decoding == Self::after_protobuf(parsed),
    {
        match parsed {
            Ok(message) => Decoding::Convert(message),
            Err(e) => Decoding::Done(Err(SledStoreError::from(e))),
        }
    }

    /// Goes on with what the message was turned into.
    pub fn converted(converted: Result<C, SledStoreError>) -> (decoding: Decoding<K, P, C>)
        ensures
            decoding == Decoding::<K, P, C>::Done(converted),
    {
        Decoding::Done(converted)
    }
}

/// Whether `decoding` is the reading of a stored message: decrypted where there is a cipher, else
/// unwrapped from JSON.
pub open spec fn is_decoding_of<K, P, C>(
    cipher: Option<Arc<K>>,
    value: Vec<u8>,
    decoding: Decoding<K, P, C>,
) -> bool {
    match cipher {
        Some(cipher) => decoding == Decoding::<K, P, C>::Decrypt { cipher, value },
        None => match outside::json_byte_array(value@) {
            Some(data) => decoding matches Decoding::Parse(bytes) && bytes@ == data,
            None => decoding matches Decoding::Done(Err(SledStoreError::Json(_))),
        },
    }
}

/// A walk over the messages of a conversation, from either end.
pub struct SledMessagesIter<I, K> {
    pub cipher: Option<Arc<K>>,
    pub iter: I,
}

impl<I, K> SledMessagesIter<I, K> {
    /// Starts the reading of a stored message.
    pub fn decrypt_value<P, C>(&self, value: Vec<u8>) -> (decoding: Decoding<K, P, C>)
        ensures
            is_decoding_of(self.cipher, value, decoding),
    {
        match &self.cipher {
            Some(cipher) => Decoding::Decrypt { cipher: Arc::clone(cipher), value },
            None => Decoding::unwrapped(outside::json_bytes(value.as_slice())),
        }
    }

    /// Starts the reading of the message that the cursor yielded.
    pub fn decode<P, C>(&self, element: Result<(Vec<u8>, Vec<u8>), sled::Error>) -> (decoding:
        Decoding<K, P, C>)
        ensures
            match element {
                Err(e) => decoding == Decoding::<K, P, C>::Done(Err(SledStoreError::Db(e))),
                Ok((_, value)) => is_decoding_of(self.cipher, value, decoding),
            },
    {
        match element {
            Err(e) => Decoding::Done(Err(SledStoreError::from(e))),
            Ok((_key, value)) => self.decrypt_value(value),
        }
    }

    /// Hands on what the cursor yielded at its front.
    pub fn next<P, C>(
        &self,
        element: Option<Result<(Vec<u8>, Vec<u8>), sled::Error>>,
    ) -> (decoding: Option<Decoding<K, P, C>>)
        ensures
            match element {
                None => decoding is None,
                Some(Err(e)) => decoding == Some(
                    Decoding::<K, P, C>::Done(Err(SledStoreError::Db(e))),
                ),
                Some(Ok((_, value))) => decoding matches Some(started) && is_decoding_of(
                    self.cipher,
                    value,
                    started,
                ),
            },
    {
        match element {
            None => None,
            Some(element) => Some(self.decode(element)),
        }
    }

    /// Hands on what the cursor yielded at its back.
    pub fn next_back<P, C>(
        &self,
        element: Option<Result<(Vec<u8>, Vec<u8>), sled::Error>>,
    ) -> (decoding: Option<Decoding<K, P, C>>)
        ensures
            match element {
                None => decoding is None,
                Some(Err(e)) => decoding == Some(
                    Decoding::<K, P, C>::Done(Err(SledStoreError::Db(e))),
                ),
                Some(Ok((_, value))) => decoding matches Some(started) && is_decoding_of(
                    self.cipher,
                    value,
                    started,
                ),
            },
    {
        match element {
            None => None,
            Some(element) => Some(self.decode(element)),
        }
    }
}

} // verus!
