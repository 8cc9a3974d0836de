//! What the store asks for, done on a real database.

use std::ops::Bound as StdBound;

use sled_contents::clear::{Action, Clearing, Event};
use sled_contents::error::SledStoreError;
use sled_contents::keys::Bound;
use sled_contents::store::{removed, replaced, Get, Insert, Remove, Scan, SledStore};
use sled_contents::trees::Thread;

fn open() -> sled::Db {
    sled::Config::new().temporary(true).open().unwrap()
}

fn store() -> SledStore<()> {
    SledStore { cipher: None }
}

fn plain(value: Option<sled::IVec>) -> Option<Vec<u8>> {
    value.map(|value| value.to_vec())
}

fn insert(db: &sled::Db, request: Insert<&[u8]>) -> bool {
    let tree = db.open_tree(request.tree).unwrap();
    replaced(tree.insert(request.key, request.value).map(plain)).unwrap()
}

fn get(db: &sled::Db, request: Get) -> Option<Vec<u8>> {
    let tree = db.open_tree(request.tree).unwrap();
    tree.get(request.key).unwrap().map(|value| value.to_vec())
}

fn remove(db: &sled::Db, request: Remove) -> bool {
    let tree = db.open_tree(request.tree).unwrap();
    removed(tree.remove(request.key).map(plain)).unwrap()
}

fn std_bound(bound: Bound<[u8; 8]>) -> StdBound<[u8; 8]> {
    match bound {
        Bound::Included(key) => StdBound::Included(key),
        Bound::Excluded(key) => StdBound::Excluded(key),
        Bound::Unbounded => StdBound::Unbounded,
    }
}

fn walk(db: &sled::Db, request: Scan) -> Vec<Vec<u8>> {
    let tree = db.open_tree(request.tree).unwrap();
    let range = (std_bound(request.range.start), std_bound(request.range.end));
    tree.range::<[u8; 8], _>(range)
        .map(|element| element.unwrap().1.to_vec())
        .collect()
}

fn clear(db: &sled::Db, clearing: Clearing) -> Result<(), SledStoreError> {
    clear_until(db, clearing, usize::MAX)
}

/// Clears, where the database fails after it has done `n` things.
fn clear_until(db: &sled::Db, clearing: Clearing, n: usize) -> Result<(), SledStoreError> {
    let failure = || sled::Error::Unsupported("no".to_string());
    let mut clearing = clearing;
    let mut done = 0;
    loop {
        let event = match clearing.action() {
            Action::DropTree(_) if done == n => Event::Dropped(Err(failure())),
            Action::Flush if done == n => Event::Flushed(Err(failure())),
            Action::DropTree(name) => Event::Dropped(db.drop_tree(name)),
            Action::ListTrees => {
                Event::Listed(db.tree_names().iter().map(|name| name.to_vec()).collect())
            }
            Action::Flush => Event::Flushed(db.flush()),
            Action::Finish => return Ok(()),
        };
        clearing = clearing.resume(event)?;
        done += 1;
    }
}

const ALICE: Thread = Thread::Contact([1; 16]);
const FAMILY: Thread = Thread::Group([2; 32]);

fn message(db: &sled::Db, thread: &Thread, timestamp: u64, text: &[u8]) {
    let request = store().save_message(thread, timestamp, text.to_vec());
    let tree = db.open_tree(request.tree).unwrap();
    tree.insert(request.key, request.value).unwrap();
}

/// One entry of each kind, and a message in two conversations.
fn fill(db: &sled::Db) {
    let store = store();
    insert(db, store.save_contact(&[1; 16], &b"contact"[..]));
    insert(db, store.save_group(&[2; 32], &b"group"[..]));
    insert(db, store.save_group_avatar(&[2; 32], &b"group avatar"[..]));
    insert(db, store.upsert_profile_key(&[1; 16], &b"profile key"[..]));
    insert(db, store.save_profile(b"p", &b"profile"[..]));
    insert(db, store.save_profile_avatar(b"p", &b"profile avatar"[..]));
    insert(db, store.add_sticker_pack(b"s", &b"pack"[..]));
    insert(db, store.save_thread_metadata(b"m", &b"metadata"[..]));
    message(db, &ALICE, 10, b"to alice");
    message(db, &FAMILY, 10, b"to family");
}

/// Which entries of `fill` are there.
fn present(db: &sled::Db) -> Vec<&'static str> {
    let store = store();
    let entries = [
        ("contact", store.contact_by_id(&[1; 16])),
        ("group", store.group(&[2; 32])),
        ("group avatar", store.group_avatar(&[2; 32])),
        ("profile key", store.profile_key(&[1; 16])),
        ("profile", store.profile(b"p")),
        ("profile avatar", store.profile_avatar(b"p")),
        ("pack", store.sticker_pack(b"s")),
        ("metadata", store.thread_metadata(b"m")),
        ("to alice", store.message(&ALICE, 10)),
        ("to family", store.message(&FAMILY, 10)),
    ];
    let mut found = Vec::new();
    for (name, request) in entries {
        match get(db, request) {
            Some(value) => {
                assert_eq!(value, name.as_bytes());
                found.push(name);
            }
            None => {}
        }
    }
    found
}

#[test]
fn saved_entries_are_read_back() {
    let db = open();
    assert!(present(&db).is_empty());
    fill(&db);
    assert_eq!(present(&db).len(), 10);
}

#[test]
fn saving_replaces_and_leaves_the_rest() {
    let db = open();
    fill(&db);
    let store = store();
    assert!(insert(&db, store.save_contact(&[1; 16], &b"other"[..])));
    assert!(!insert(&db, store.save_contact(&[3; 16], &b"third"[..])));
    assert_eq!(
        get(&db, store.contact_by_id(&[1; 16])),
        Some(b"other".to_vec())
    );
    assert!(insert(&db, store.save_contact(&[1; 16], &b"contact"[..])));
    assert_eq!(present(&db).len(), 10);
}

#[test]
fn removed_entries_are_gone_and_the_rest_stays() {
    let db = open();
    fill(&db);
    assert!(remove(&db, store().delete_message(&ALICE, 10)));
    assert!(!remove(&db, store().delete_message(&ALICE, 10)));
    assert!(remove(&db, store().remove_sticker_pack(b"s")));
    let left = present(&db);
    assert_eq!(left.len(), 8);
    assert!(!left.contains(&"to alice"));
    assert!(!left.contains(&"pack"));
}

#[test]
fn clear_profiles_clears_profiles_keys_and_avatars() {
    let db = open();
    fill(&db);
    clear(&db, store().clear_profiles()).unwrap();
    assert_eq!(
        present(&db),
        ["contact", "group", "group avatar", "pack", "metadata", "to alice", "to family"]
    );
}

#[test]
fn clear_contents_clears_contacts_groups_and_conversations() {
    let db = open();
    fill(&db);
    clear(&db, store().clear_contents()).unwrap();
    assert_eq!(
        present(&db),
        ["group avatar", "profile key", "profile", "profile avatar", "pack"]
    );
}

#[test]
fn clear_contacts_clears_contacts_alone() {
    let db = open();
    fill(&db);
    clear(&db, store().clear_contacts()).unwrap();
    assert_eq!(present(&db).len(), 9);
    assert!(!present(&db).contains(&"contact"));
}

#[test]
fn clear_groups_leaves_the_avatars() {
    let db = open();
    fill(&db);
    clear(&db, store().clear_groups()).unwrap();
    assert_eq!(present(&db).len(), 9);
    assert!(!present(&db).contains(&"group"));
    assert!(present(&db).contains(&"group avatar"));
}

#[test]
fn clear_messages_clears_messages_and_metadata() {
    let db = open();
    fill(&db);
    clear(&db, store().clear_messages()).unwrap();
    let left = present(&db);
    assert_eq!(left.len(), 7);
    assert!(!left.contains(&"to alice"));
    assert!(!left.contains(&"to family"));
    assert!(!left.contains(&"metadata"));
}

#[test]
fn clear_thread_clears_one_conversation() {
    let db = open();
    fill(&db);
    message(&db, &ALICE, 11, b"again");
    clear(&db, store().clear_thread(&ALICE)).unwrap();
    assert_eq!(present(&db).len(), 9);
    assert!(!present(&db).contains(&"to alice"));
    assert_eq!(get(&db, store().message(&ALICE, 11)), None);
}

#[test]
fn clearing_an_empty_database_succeeds() {
    let db = open();
    clear(&db, store().clear_profiles()).unwrap();
    clear(&db, store().clear_contents()).unwrap();
    clear(&db, store().clear_contacts()).unwrap();
    clear(&db, store().clear_groups()).unwrap();
    clear(&db, store().clear_messages()).unwrap();
    clear(&db, store().clear_thread(&ALICE)).unwrap();
}

#[test]
fn messages_come_in_the_order_of_their_timestamps() {
    let db = open();
    for timestamp in [300, 2, 70_000, 256, 255] {
        message(&db, &ALICE, timestamp, timestamp.to_string().as_bytes());
    }
    message(&db, &FAMILY, 256, b"elsewhere");
    let texts = |start, end| -> Vec<String> {
        walk(&db, store().messages(&ALICE, start, end))
            .into_iter()
            .map(|text| String::from_utf8(text).unwrap())
            .collect()
    };
    assert_eq!(
        texts(Bound::Unbounded, Bound::Unbounded),
        ["2", "255", "256", "300", "70000"]
    );
    assert_eq!(
        texts(Bound::Included(255), Bound::Excluded(300)),
        ["255", "256"]
    );
    assert_eq!(
        texts(Bound::Included(255), Bound::Included(300)),
        ["255", "256", "300"]
    );
    assert_eq!(texts(Bound::Included(301), Bound::Unbounded), ["70000"]);
    assert_eq!(texts(Bound::Unbounded, Bound::Excluded(255)), ["2"]);
    assert_eq!(texts(Bound::Unbounded, Bound::Included(255)), ["2", "255"]);
    assert_eq!(
        texts(Bound::Included(257), Bound::Excluded(300)),
        Vec::<String>::new()
    );
}

#[test]
fn walks_meet_all_of_a_tree() {
    let db = open();
    fill(&db);
    insert(&db, store().save_contact(&[0; 16], &b"first"[..]));
    assert_eq!(
        walk(&db, store().contacts()),
        [b"first".to_vec(), b"contact".to_vec()]
    );
    assert_eq!(walk(&db, store().groups()), [b"group".to_vec()]);
    assert_eq!(walk(&db, store().sticker_packs()), [b"pack".to_vec()]);
    assert_eq!(walk(&db, store().thread_metadatas()), [b"metadata".to_vec()]);
}

#[test]
fn clearing_that_fails_leaves_what_it_has_not_dropped() {
    let db = open();
    fill(&db);
    assert!(matches!(
        clear_until(&db, store().clear_profiles(), 0),
        Err(SledStoreError::Db(_))
    ));
    assert_eq!(present(&db).len(), 10);
    assert!(clear_until(&db, store().clear_profiles(), 2).is_err());
    let left = present(&db);
    assert_eq!(left.len(), 8);
    assert!(!left.contains(&"profile"));
    assert!(!left.contains(&"profile key"));
    assert!(left.contains(&"profile avatar"));
    assert!(clear_until(&db, store().clear_contents(), 1).is_err());
    let left = present(&db);
    assert_eq!(left.len(), 7);
    assert!(!left.contains(&"contact"));
    assert!(left.contains(&"group"));
    assert!(clear_until(&db, store().clear_thread(&ALICE), 1).is_err());
    assert!(!present(&db).contains(&"to alice"));
    assert!(present(&db).contains(&"to family"));
}

#[test]
fn trees_of_conversations_hold_messages_alone() {
    let db = open();
    fill(&db);
    message(&db, &ALICE, 11, b"again");
    for thread in [&ALICE, &FAMILY] {
        let scan = store().messages(thread, Bound::Unbounded, Bound::Unbounded);
        for key in db.open_tree(scan.tree).unwrap().iter().keys() {
            let key = key.unwrap();
            let timestamp = u64::from_be_bytes(key.as_ref().try_into().unwrap());
            assert!(timestamp == 10 || timestamp == 11);
        }
    }
}

#[test]
fn bounds_that_admit_the_same_timestamps_walk_alike() {
    let db = open();
    for timestamp in [u64::MAX, 0, 7, u64::MAX - 1] {
        message(&db, &ALICE, timestamp, timestamp.to_string().as_bytes());
    }
    let texts = |start, end| walk(&db, store().messages(&ALICE, start, end));
    let all = texts(Bound::Unbounded, Bound::Unbounded);
    assert_eq!(
        all,
        [0, 7, u64::MAX - 1, u64::MAX].map(|t| t.to_string().into_bytes())
    );
    assert_eq!(texts(Bound::Included(0), Bound::Unbounded), all);
    assert_eq!(texts(Bound::Unbounded, Bound::Included(u64::MAX)), all);
    assert_eq!(texts(Bound::Included(0), Bound::Included(u64::MAX)), all);
    assert_eq!(texts(Bound::Unbounded, Bound::Excluded(u64::MAX)), all[..3]);
    assert_eq!(
        texts(Bound::Unbounded, Bound::Excluded(7)),
        texts(Bound::Included(0), Bound::Excluded(7))
    );
    assert_eq!(
        texts(Bound::Unbounded, Bound::Included(7)),
        texts(Bound::Included(0), Bound::Included(7))
    );
    assert_eq!(
        texts(Bound::Unbounded, Bound::Included(7)),
        texts(Bound::Unbounded, Bound::Excluded(8))
    );
}

#[test]
fn lookup_finds_what_a_walk_over_its_timestamp_meets() {
    let db = open();
    for timestamp in [0, 9, 10, u64::MAX] {
        message(&db, &ALICE, timestamp, timestamp.to_string().as_bytes());
    }
    for timestamp in [0, 1, 8, 9, 10, 11, u64::MAX - 1, u64::MAX] {
        let only = Bound::Included(timestamp);
        let met = walk(&db, store().messages(&ALICE, only, Bound::Included(timestamp)));
        let found = get(&db, store().message(&ALICE, timestamp));
        assert_eq!(found.is_some(), [0, 9, 10, u64::MAX].contains(&timestamp));
        assert_eq!(met, found.into_iter().collect::<Vec<_>>());
    }
}

#[test]
fn walk_takes_older_messages_from_the_front_and_newer_from_the_back() {
    let db = open();
    for timestamp in [300, 2, 70_000, 256, 255] {
        message(&db, &ALICE, timestamp, timestamp.to_string().as_bytes());
    }
    let scan = store().messages(&ALICE, Bound::Included(255), Bound::Unbounded);
    let tree = db.open_tree(scan.tree).unwrap();
    let range = (std_bound(scan.range.start), std_bound(scan.range.end));
    let mut cursor = tree.range::<[u8; 8], _>(range);
    let text = |element: Option<Result<(sled::IVec, sled::IVec), sled::Error>>| {
        element.map(|element| String::from_utf8(element.unwrap().1.to_vec()).unwrap())
    };
    assert_eq!(text(cursor.next_back()).as_deref(), Some("70000"));
    assert_eq!(text(cursor.next()).as_deref(), Some("255"));
    assert_eq!(text(cursor.next_back()).as_deref(), Some("300"));
    assert_eq!(text(cursor.next()).as_deref(), Some("256"));
    assert_eq!(text(cursor.next()), None);
    assert_eq!(text(cursor.next_back()), None);
}

#[test]
fn walks_meet_saved_messages_until_they_are_deleted() {
    let db = open();
    let texts = || walk(&db, store().messages(&ALICE, Bound::Included(4), Bound::Included(6)));
    message(&db, &ALICE, 6, b"six");
    assert_eq!(texts(), [b"six".to_vec()]);
    message(&db, &ALICE, 5, b"five");
    message(&db, &ALICE, 7, b"seven");
    assert_eq!(texts(), [b"five".to_vec(), b"six".to_vec()]);
    message(&db, &ALICE, 5, b"again");
    assert_eq!(texts(), [b"again".to_vec(), b"six".to_vec()]);
    assert!(remove(&db, store().delete_message(&ALICE, 6)));
    assert_eq!(texts(), [b"again".to_vec()]);
}

#[test]
fn removing_tells_whether_it_was_there() {
    let db = open();
    fill(&db);
    message(&db, &ALICE, 11, b"again");
    let store = store();
    insert(&db, store.add_sticker_pack(b"st", &b"longer"[..]));
    assert!(!remove(&db, store.delete_message(&ALICE, 12)));
    assert!(remove(&db, store.delete_message(&ALICE, 11)));
    assert!(!remove(&db, store.delete_message(&ALICE, 11)));
    assert!(!remove(&db, store.remove_sticker_pack(b"")));
    assert!(remove(&db, store.remove_sticker_pack(b"s")));
    assert!(!remove(&db, store.remove_sticker_pack(b"s")));
    assert_eq!(
        get(&db, store.sticker_pack(b"st")),
        Some(b"longer".to_vec())
    );
    let left = present(&db);
    assert_eq!(left.len(), 9);
    assert!(left.contains(&"to alice"));
    assert!(left.contains(&"to family"));
}

#[test]
fn upserting_tells_whether_something_was_replaced() {
    let db = open();
    let store = store();
    assert!(!insert(&db, store.upsert_profile_key(&[1; 16], &b"one"[..])));
    assert!(insert(&db, store.upsert_profile_key(&[1; 16], &b"two"[..])));
    assert!(!insert(&db, store.upsert_profile_key(&[2; 16], &b"one"[..])));
    assert_eq!(get(&db, store.profile_key(&[1; 16])), Some(b"two".to_vec()));
}

#[test]
fn deleting_what_was_just_saved_restores_the_conversation() {
    let db = open();
    let texts = || walk(&db, store().messages(&ALICE, Bound::Unbounded, Bound::Unbounded));
    message(&db, &ALICE, 3, b"three");
    message(&db, &ALICE, 9, b"nine");
    let before = texts();
    message(&db, &ALICE, 5, b"five");
    assert_eq!(texts().len(), 3);
    assert!(remove(&db, store().delete_message(&ALICE, 5)));
    assert_eq!(texts(), before);
}
