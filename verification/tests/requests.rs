use std::sync::Arc;

use sled_contents::error::{CipherError, SledStoreError};
use sled_contents::iter::Decoding;
use sled_contents::store::{removed, replaced, saved, Get, Insert, Remove, Scan, SledStore};
use sled_contents::trees::{messages_thread_tree_name, Thread};

fn store() -> SledStore<u8> {
    SledStore { cipher: None }
}

fn place<V>(request: Insert<V>) -> (String, Vec<u8>, V) {
    (request.tree, request.key, request.value)
}

fn read(request: Get) -> (String, Vec<u8>) {
    (request.tree, request.key)
}

fn removal(request: Remove) -> (String, Vec<u8>) {
    (request.tree, request.key)
}

fn walk(request: Scan) -> String {
    request.tree
}

fn failure() -> sled::Error {
    sled::Error::Unsupported("no".to_string())
}

#[test]
fn contacts_are_kept_under_their_uuid() {
    assert_eq!(
        place(store().save_contact(&[1; 16], "alice")),
        ("contacts".to_string(), vec![1; 16], "alice")
    );
    assert_eq!(
        read(store().contact_by_id(&[1; 16])),
        ("contacts".to_string(), vec![1; 16])
    );
    assert_eq!(walk(store().contacts()), "contacts");
}

#[test]
fn groups_and_avatars_are_kept_under_the_master_key() {
    assert_eq!(
        place(store().save_group(&[2; 32], 5u8)),
        ("groups".to_string(), vec![2; 32], 5u8)
    );
    assert_eq!(
        read(store().group(&[2; 32])),
        ("groups".to_string(), vec![2; 32])
    );
    assert_eq!(
        place(store().save_group_avatar(&[2; 32], vec![9u8])),
        ("group_avatars".to_string(), vec![2; 32], vec![9u8])
    );
    assert_eq!(
        read(store().group_avatar(&[2; 32])),
        ("group_avatars".to_string(), vec![2; 32])
    );
    assert_eq!(walk(store().groups()), "groups");
}

#[test]
fn messages_are_kept_under_their_timestamp() {
    let thread = Thread::Group([4; 32]);
    let tree = messages_thread_tree_name(&thread);
    let key = vec![0, 0, 1, 0x8b, 0xcf, 0xe5, 0x68, 0x7b];
    let timestamp = 1_700_000_000_123;
    assert_eq!(
        place(store().save_message(&thread, timestamp, vec![1, 2])),
        (tree.clone(), key.clone(), vec![1, 2])
    );
    assert_eq!(
        read(store().message(&thread, timestamp)),
        (tree.clone(), key.clone())
    );
    assert_eq!(removal(store().delete_message(&thread, timestamp)), (tree, key));
}

#[test]
fn profiles_are_kept_under_what_names_them() {
    assert_eq!(
        place(store().upsert_profile_key(&[6; 16], 1u8)),
        ("profile_keys".to_string(), vec![6; 16], 1u8)
    );
    assert_eq!(
        read(store().profile_key(&[6; 16])),
        ("profile_keys".to_string(), vec![6; 16])
    );
    assert_eq!(
        place(store().save_profile(b"derived", 2u8)),
        ("profiles".to_string(), b"derived".to_vec(), 2u8)
    );
    assert_eq!(
        read(store().profile(b"derived")),
        ("profiles".to_string(), b"derived".to_vec())
    );
    assert_eq!(
        place(store().save_profile_avatar(b"derived", 3u8)),
        ("profile_avatars".to_string(), b"derived".to_vec(), 3u8)
    );
    assert_eq!(
        read(store().profile_avatar(b"derived")),
        ("profile_avatars".to_string(), b"derived".to_vec())
    );
}

#[test]
fn sticker_packs_are_kept_under_their_identifier() {
    assert_eq!(
        place(store().add_sticker_pack(&[8, 9], "pack")),
        ("sticker_packs".to_string(), vec![8, 9], "pack")
    );
    assert_eq!(
        read(store().sticker_pack(&[8, 9])),
        ("sticker_packs".to_string(), vec![8, 9])
    );
    assert_eq!(
        removal(store().remove_sticker_pack(&[8, 9])),
        ("sticker_packs".to_string(), vec![8, 9])
    );
    assert_eq!(walk(store().sticker_packs()), "sticker_packs");
}

#[test]
fn metadata_is_kept_under_the_derived_key() {
    assert_eq!(
        place(store().save_thread_metadata(b"key", "metadata")),
        ("threads_metadata".to_string(), b"key".to_vec(), "metadata")
    );
    assert_eq!(
        read(store().thread_metadata(b"key")),
        ("threads_metadata".to_string(), b"key".to_vec())
    );
    assert_eq!(walk(store().thread_metadatas()), "threads_metadata");
}

#[test]
fn saving_tells_only_whether_it_failed() {
    assert!(matches!(saved(Ok(true)), Ok(())));
    assert!(matches!(saved(Ok(false)), Ok(())));
    assert!(matches!(
        saved(Err(SledStoreError::GroupDecryption)),
        Err(SledStoreError::GroupDecryption)
    ));
    let refused = CipherError {
        message: "no".to_string(),
    };
    assert!(matches!(
        saved(Err(SledStoreError::from(refused))),
        Err(SledStoreError::StoreCipher(e)) if e.message == "no"
    ));
}

#[test]
fn walks_keep_the_cipher_and_the_cursor() {
    let cipher = Arc::new(5u8);
    let store = SledStore {
        cipher: Some(cipher.clone()),
    };
    let walk = store.contacts_opened(Ok("cursor")).unwrap();
    assert_eq!(walk.iter, "cursor");
    assert!(Arc::ptr_eq(&walk.cipher.unwrap(), &cipher));
    assert!(Arc::ptr_eq(
        &store.groups_opened(Ok(1)).unwrap().cipher.unwrap(),
        &cipher
    ));
    assert!(Arc::ptr_eq(
        &store.messages_opened(Ok(1)).unwrap().cipher.unwrap(),
        &cipher
    ));
    assert!(Arc::ptr_eq(
        &store.sticker_packs_opened(Ok(1)).unwrap().cipher.unwrap(),
        &cipher
    ));
    assert!(Arc::ptr_eq(
        &store.thread_metadatas_opened(Ok(1)).unwrap().cipher.unwrap(),
        &cipher
    ));
    assert!(self::store().contacts_opened(Ok(1)).unwrap().cipher.is_none());
}

#[test]
fn tree_that_cannot_be_opened_is_an_error_of_the_database() {
    assert!(matches!(
        store().contacts_opened::<()>(Err(failure())),
        Err(SledStoreError::Db(e)) if e == failure()
    ));
    assert!(matches!(
        store().groups_opened::<()>(Err(failure())),
        Err(SledStoreError::Db(e)) if e == failure()
    ));
    assert!(matches!(
        store().messages_opened::<()>(Err(failure())),
        Err(SledStoreError::Db(e)) if e == failure()
    ));
    assert!(matches!(
        store().sticker_packs_opened::<()>(Err(failure())),
        Err(SledStoreError::Db(e)) if e == failure()
    ));
    assert!(matches!(
        store().thread_metadatas_opened::<()>(Err(failure())),
        Err(SledStoreError::Db(e)) if e == failure()
    ));
}

#[test]
fn message_that_was_found_is_parsed() {
    let found = store().message_found::<u32, ()>(Ok(Some(vec![8, 1])));
    assert!(matches!(found, Ok(Some(Decoding::Parse(data))) if data == [8, 1]));
    assert!(matches!(
        store().message_found::<u32, ()>(Ok(None)),
        Ok(None)
    ));
    assert!(matches!(
        store().message_found::<u32, ()>(Err(SledStoreError::Db(failure()))),
        Err(SledStoreError::Db(_))
    ));
    assert!(matches!(store().message_decoded(Ok(7)), Ok(Some(7))));
    assert!(matches!(
        store().message_decoded::<()>(Err(SledStoreError::Content("empty".to_string()))),
        Err(SledStoreError::Content(why)) if why == "empty"
    ));
}

#[test]
fn answers_tell_whether_something_was_there() {
    assert!(matches!(removed(Ok(Some(vec![1]))), Ok(true)));
    assert!(matches!(removed(Ok(Some(vec![]))), Ok(true)));
    assert!(matches!(removed(Ok(None)), Ok(false)));
    assert!(matches!(
        removed(Err(failure())),
        Err(SledStoreError::Db(e)) if e == failure()
    ));
    assert!(matches!(replaced(Ok(Some(vec![]))), Ok(true)));
    assert!(matches!(replaced(Ok(None)), Ok(false)));
    assert!(matches!(
        replaced(Err(failure())),
        Err(SledStoreError::Db(e)) if e == failure()
    ));
}
