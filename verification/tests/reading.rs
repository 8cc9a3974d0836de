use std::sync::Arc;

use prost::Message;
use sled_contents::error::{CipherError, SledStoreError};
use sled_contents::iter::{
    start_reading, Decoding, Reading, SledContactsIter, SledGroupsIter, SledMessagesIter,
    SledStickerPacksIter, SledThreadMetadataIter,
};

type Element = Option<Result<(Vec<u8>, Vec<u8>), sled::Error>>;

fn element(key: &[u8], value: &[u8]) -> Element {
    Some(Ok((key.to_vec(), value.to_vec())))
}

fn failure() -> sled::Error {
    sled::Error::ReportableBug("disk".to_string())
}

fn refusal() -> CipherError {
    CipherError {
        message: "wrong key".to_string(),
    }
}

fn json_error() -> serde_json::Error {
    serde_json::from_slice::<u8>(b"x").unwrap_err()
}

#[test]
fn value_is_parsed_where_there_is_no_cipher() {
    let contacts: SledContactsIter<(), u8> = SledContactsIter {
        cipher: None,
        iter: (),
    };
    assert!(matches!(
        contacts.next::<u8>(element(b"k", b"\"v\"")),
        Some(Reading::ParseJson(value)) if value == b"\"v\""
    ));
    assert!(matches!(
        contacts.decrypt_value::<u8>(vec![1]),
        Reading::ParseJson(value) if value == [1]
    ));
    let packs: SledStickerPacksIter<(), u8> = SledStickerPacksIter {
        cipher: None,
        iter: (),
    };
    assert!(matches!(
        packs.next::<u8>(element(b"k", b"v")),
        Some(Reading::ParseJson(value)) if value == b"v"
    ));
    let metadata: SledThreadMetadataIter<(), u8> = SledThreadMetadataIter {
        cipher: None,
        iter: (),
    };
    assert!(matches!(
        metadata.next::<u8>(element(b"k", b"v")),
        Some(Reading::ParseJson(value)) if value == b"v"
    ));
}

#[test]
fn value_is_decrypted_where_there_is_a_cipher() {
    let contacts = SledContactsIter {
        cipher: Some(Arc::new(7u8)),
        iter: (),
    };
    assert!(matches!(
        contacts.next::<u8>(element(b"k", b"v")),
        Some(Reading::Decrypt { cipher, value }) if *cipher == 7 && value == b"v"
    ));
    let packs = SledStickerPacksIter {
        cipher: Some(Arc::new(7u8)),
        iter: (),
    };
    assert!(matches!(
        packs.next::<u8>(element(b"k", b"v")),
        Some(Reading::Decrypt { cipher, value }) if *cipher == 7 && value == b"v"
    ));
    let metadata = SledThreadMetadataIter {
        cipher: Some(Arc::new(7u8)),
        iter: (),
    };
    assert!(matches!(
        metadata.next::<u8>(element(b"k", b"v")),
        Some(Reading::Decrypt { cipher, value }) if *cipher == 7 && value == b"v"
    ));
}

#[test]
fn walks_end_and_fail_with_the_cursor() {
    let contacts: SledContactsIter<(), u8> = SledContactsIter {
        cipher: None,
        iter: (),
    };
    assert!(contacts.next::<u8>(None).is_none());
    assert!(matches!(
        contacts.next::<u8>(Some(Err(failure()))),
        Some(Reading::Done(Err(SledStoreError::Db(e)))) if e == failure()
    ));
    let packs: SledStickerPacksIter<(), u8> = SledStickerPacksIter {
        cipher: None,
        iter: (),
    };
    assert!(packs.next::<u8>(None).is_none());
    assert!(matches!(
        packs.next::<u8>(Some(Err(failure()))),
        Some(Reading::Done(Err(SledStoreError::Db(_))))
    ));
    let metadata: SledThreadMetadataIter<(), u8> = SledThreadMetadataIter {
        cipher: None,
        iter: (),
    };
    assert!(metadata.next::<u8>(None).is_none());
    assert!(matches!(
        metadata.next::<u8>(Some(Err(failure()))),
        Some(Reading::Done(Err(SledStoreError::Db(_))))
    ));
    let groups: SledGroupsIter<(), u8> = SledGroupsIter {
        cipher: None,
        iter: (),
    };
    assert!(groups.next::<u8>(None).is_none());
    assert!(matches!(
        groups.next::<u8>(Some(Err(failure()))),
        Some(Err(SledStoreError::Db(_)))
    ));
    let messages: SledMessagesIter<(), u8> = SledMessagesIter {
        cipher: None,
        iter: (),
    };
    assert!(messages.next::<u32, ()>(None).is_none());
    assert!(messages.next_back::<u32, ()>(None).is_none());
    assert!(matches!(
        messages.next::<u32, ()>(Some(Err(failure()))),
        Some(Decoding::Done(Err(SledStoreError::Db(_))))
    ));
    assert!(matches!(
        messages.next_back::<u32, ()>(Some(Err(failure()))),
        Some(Decoding::Done(Err(SledStoreError::Db(_))))
    ));
}

#[test]
fn value_that_was_opened_is_read() {
    assert!(matches!(
        Reading::<u8, u16>::decrypted(Ok(3)),
        Reading::Done(Ok(3))
    ));
    assert!(matches!(
        Reading::<u8, u16>::decrypted(Err(refusal())),
        Reading::Done(Err(SledStoreError::StoreCipher(e))) if e.message == "wrong key"
    ));
    assert!(matches!(
        Reading::<u8, u16>::parsed(Ok(3)),
        Reading::Done(Ok(3))
    ));
    assert!(matches!(
        Reading::<u8, u16>::parsed(Err(json_error())),
        Reading::Done(Err(SledStoreError::Json(_)))
    ));
}

#[test]
fn group_is_read_beside_its_master_key() {
    let groups: SledGroupsIter<(), u8> = SledGroupsIter {
        cipher: None,
        iter: (),
    };
    assert!(matches!(
        groups.next::<u8>(element(&[1; 32], b"group")),
        Some(Ok((key, Reading::ParseJson(value)))) if key == [1; 32] && value == b"group"
    ));
    assert!(matches!(
        groups.decrypt_value::<u8>(vec![1]),
        Reading::ParseJson(value) if value == [1]
    ));
    let mut key = [0u8; 32];
    for (i, byte) in key.iter_mut().enumerate() {
        *byte = i as u8;
    }
    let (master_key, group) = SledGroupsIter::<(), u8>::keyed(&key, Ok("group")).unwrap();
    assert_eq!(master_key, key);
    assert_eq!(group, "group");
}

#[test]
fn key_of_another_length_is_no_master_key() {
    for length in [0, 16, 31, 33] {
        let key = vec![0u8; length];
        assert!(matches!(
            SledGroupsIter::<(), u8>::keyed(&key, Ok("group")),
            Err(SledStoreError::GroupDecryption)
        ));
    }
}

#[test]
fn group_that_cannot_be_read_comes_before_its_key() {
    assert!(matches!(
        SledGroupsIter::<(), u8>::keyed::<()>(&[], Err(SledStoreError::Json(json_error()))),
        Err(SledStoreError::Json(_))
    ));
    assert!(matches!(
        SledGroupsIter::<(), u8>::keyed::<()>(
            &[0; 32],
            Err(SledStoreError::StoreCipher(refusal()))
        ),
        Err(SledStoreError::StoreCipher(_))
    ));
}

#[test]
fn message_is_unwrapped_from_json() {
    let messages: SledMessagesIter<(), u8> = SledMessagesIter {
        cipher: None,
        iter: (),
    };
    let text = serde_json::to_vec(&vec![8u8, 150, 1]).unwrap();
    assert_eq!(text, b"[8,150,1]");
    assert!(matches!(
        messages.next::<u32, ()>(element(b"k", &text)),
        Some(Decoding::Parse(data)) if data == [8, 150, 1]
    ));
    assert!(matches!(
        messages.next_back::<u32, ()>(element(b"k", b" [ ] ")),
        Some(Decoding::Parse(data)) if data.is_empty()
    ));
    for text in [&b"[256]"[..], b"[1", b"\"abc\"", b"", b"[1] 2", b"[-1]"] {
        assert!(matches!(
            messages.decrypt_value::<u32, ()>(text.to_vec()),
            Decoding::Done(Err(SledStoreError::Json(_)))
        ));
    }
}

#[test]
fn message_is_decrypted_where_there_is_a_cipher() {
    let messages = SledMessagesIter {
        cipher: Some(Arc::new(7u8)),
        iter: (),
    };
    assert!(matches!(
        messages.decode::<u32, ()>(Ok((vec![], vec![1, 2]))),
        Decoding::Decrypt { cipher, value } if *cipher == 7 && value == [1, 2]
    ));
    assert!(matches!(
        Decoding::<u8, u32, ()>::decrypted(Ok(vec![5])),
        Decoding::Parse(data) if data == [5]
    ));
    assert!(matches!(
        Decoding::<u8, u32, ()>::decrypted(Err(refusal())),
        Decoding::Done(Err(SledStoreError::StoreCipher(_)))
    ));
}

#[test]
fn message_goes_through_all_stages() {
    let messages: SledMessagesIter<(), u8> = SledMessagesIter {
        cipher: None,
        iter: (),
    };
    let text = serde_json::to_vec(&77u32.encode_to_vec()).unwrap();
    let data = match messages.next::<u32, String>(element(b"k", &text)) {
        Some(Decoding::Parse(data)) => data,
        _ => panic!("not to be parsed"),
    };
    let parsed = match Decoding::<u8, u32, String>::parsed(u32::decode(&data[..])) {
        Decoding::Convert(parsed) => parsed,
        _ => panic!("not to be converted"),
    };
    assert_eq!(parsed, 77);
    assert!(matches!(
        Decoding::<u8, u32, String>::converted(Ok(parsed.to_string())),
        Decoding::Done(Ok(content)) if content == "77"
    ));
}

#[test]
fn message_that_cannot_be_parsed_or_converted_is_an_error() {
    let parsed = u32::decode(&[0xffu8][..]);
    assert!(parsed.is_err());
    assert!(matches!(
        Decoding::<u8, u32, ()>::parsed(parsed),
        Decoding::Done(Err(SledStoreError::ProtobufDecode(_)))
    ));
    assert!(matches!(
        Decoding::<u8, u32, ()>::converted(Err(SledStoreError::Content("empty".to_string()))),
        Decoding::Done(Err(SledStoreError::Content(_)))
    ));
    assert!(matches!(
        Decoding::<u8, u32, ()>::unwrapped(Ok(vec![4])),
        Decoding::Parse(data) if data == [4]
    ));
    assert!(matches!(
        Decoding::<u8, u32, ()>::unwrapped(Err(json_error())),
        Decoding::Done(Err(SledStoreError::Json(_)))
    ));
}

#[test]
fn message_is_read_alike_on_a_walk_and_looked_up() {
    let messages: SledMessagesIter<(), u8> = SledMessagesIter {
        cipher: None,
        iter: (),
    };
    let store = sled_contents::store::SledStore::<u8> { cipher: None };
    let message = vec![8u8, 77];
    let text = serde_json::to_vec(&message).unwrap();
    let met = messages.decode::<u32, ()>(Ok((vec![], text)));
    let looked_up = store.message_found::<u32, ()>(Ok(Some(message)));
    match (met, looked_up) {
        (Decoding::Parse(a), Ok(Some(Decoding::Parse(b)))) => assert_eq!(a, b),
        _ => panic!("not to be parsed"),
    }
}

/// A cipher that adds its key to every byte, and refuses what is empty.
fn unlock(key: u8, value: &[u8]) -> Result<Vec<u8>, CipherError> {
    if value.is_empty() {
        return Err(refusal());
    }
    Ok(value.iter().map(|byte| byte.wrapping_sub(key)).collect())
}

fn decode(decoding: Decoding<u8, u32, String>) -> Result<String, SledStoreError> {
    let mut decoding = decoding;
    loop {
        decoding = match decoding {
            Decoding::Decrypt { cipher, value } => Decoding::decrypted(unlock(*cipher, &value)),
            Decoding::Parse(data) => Decoding::parsed(u32::decode(&data[..])),
            Decoding::Convert(parsed) => Decoding::converted(Ok(parsed.to_string())),
            Decoding::Done(result) => return result,
        };
    }
}

/// What looking a message up gives, where `value` is what is kept.
fn look_up(cipher: &Option<Arc<u8>>, value: Vec<u8>) -> Result<Option<String>, SledStoreError> {
    let store = sled_contents::store::SledStore {
        cipher: cipher.clone(),
    };
    let found = match start_reading::<u8, Vec<u8>>(cipher, value) {
        Reading::Decrypt { cipher, value } => Reading::decrypted(unlock(*cipher, &value)),
        Reading::ParseJson(value) => Reading::parsed(serde_json::from_slice(&value)),
        done => done,
    };
    let found: Result<Vec<u8>, SledStoreError> = match found {
        Reading::<u8, Vec<u8>>::Done(found) => found,
        _ => panic!("not to be read further"),
    };
    match store.message_found(found.map(Some))? {
        Some(decoding) => store.message_decoded(decode(decoding)),
        None => Ok(None),
    }
}

#[test]
fn message_has_one_content_on_a_walk_and_looked_up() {
    let message = 77u32.encode_to_vec();
    let locked: Vec<u8> = message.iter().map(|byte| byte.wrapping_add(7)).collect();
    let text = serde_json::to_vec(&message).unwrap();
    for (cipher, value) in [(Some(Arc::new(7u8)), locked), (None, text)] {
        let messages = SledMessagesIter {
            cipher: cipher.clone(),
            iter: (),
        };
        assert_eq!(decode(messages.decrypt_value(value.clone())).unwrap(), "77");
        assert_eq!(look_up(&cipher, value).unwrap().unwrap(), "77");
        assert!(decode(messages.decrypt_value(vec![])).is_err());
        assert!(look_up(&cipher, vec![]).is_err());
    }
}

#[test]
fn message_that_the_cipher_refuses_fails_with_its_refusal() {
    let cipher = Some(Arc::new(7u8));
    let messages = SledMessagesIter {
        cipher: cipher.clone(),
        iter: (),
    };
    assert!(matches!(
        decode(messages.decrypt_value(vec![])),
        Err(SledStoreError::StoreCipher(e)) if e.message == refusal().message
    ));
    assert!(matches!(
        look_up(&cipher, vec![]),
        Err(SledStoreError::StoreCipher(e)) if e.message == refusal().message
    ));
}
