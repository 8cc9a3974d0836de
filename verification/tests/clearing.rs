use sled_contents::clear::{Action, Clearing, Event};
use sled_contents::error::SledStoreError;
use sled_contents::store::SledStore;
use sled_contents::trees::{messages_thread_tree_name, Thread};

fn store() -> SledStore<()> {
    SledStore { cipher: None }
}

fn failure() -> sled::Error {
    sled::Error::Unsupported("no".to_string())
}

/// What clearing asks for, where nothing fails and the trees are listed as given.
fn asked(clearing: Clearing, names: &[&str]) -> Vec<String> {
    let mut clearing = clearing;
    let mut asked = Vec::new();
    loop {
        let event = match clearing.action() {
            Action::DropTree(name) => {
                asked.push(format!("drop {}", String::from_utf8(name).unwrap()));
                Event::Dropped(Ok(asked.len() % 2 == 0))
            }
            Action::ListTrees => {
                asked.push("list".to_string());
                Event::Listed(names.iter().map(|name| name.as_bytes().to_vec()).collect())
            }
            Action::Flush => {
                asked.push("flush".to_string());
                Event::Flushed(Ok(0))
            }
            Action::Finish => return asked,
        };
        clearing = clearing.resume(event).unwrap();
    }
}

#[test]
fn trees_are_dropped_in_order_and_flushed() {
    assert_eq!(
        asked(store().clear_profiles(), &[]),
        ["drop profiles", "drop profile_keys", "drop profile_avatars", "flush"]
    );
    assert_eq!(
        asked(store().clear_groups(), &[]),
        ["drop groups", "flush"]
    );
    assert_eq!(asked(store().clear_contacts(), &[]), ["drop contacts"]);
    let thread = Thread::Contact([9; 16]);
    assert_eq!(
        asked(store().clear_thread(&thread), &[]),
        [
            format!("drop {}", messages_thread_tree_name(&thread)),
            "flush".to_string()
        ]
    );
}

#[test]
fn listed_trees_of_conversations_are_dropped() {
    let names = [
        "threads:b",
        "__sled__default",
        "threads_metadata",
        "group_avatars",
        "threads:a",
    ];
    assert_eq!(
        asked(store().clear_messages(), &names),
        ["list", "drop threads:b", "drop threads_metadata", "drop threads:a", "flush"]
    );
    assert_eq!(
        asked(store().clear_contents(), &names),
        [
            "drop contacts",
            "drop groups",
            "list",
            "drop threads:b",
            "drop threads_metadata",
            "drop threads:a",
            "flush"
        ]
    );
    assert_eq!(asked(store().clear_messages(), &[]), ["list", "flush"]);
}

#[test]
fn first_failure_ends_clearing() {
    assert!(matches!(
        store().clear_profiles().resume(Event::Dropped(Err(failure()))),
        Err(SledStoreError::Db(e)) if e == failure()
    ));
    let listed = store()
        .clear_messages()
        .resume(Event::Listed(vec![b"threads:a".to_vec()]))
        .unwrap();
    assert!(matches!(
        listed.resume(Event::Dropped(Err(failure()))),
        Err(SledStoreError::Db(_))
    ));
    let flushing = store()
        .clear_groups()
        .resume(Event::Dropped(Ok(true)))
        .unwrap();
    assert!(matches!(
        flushing.resume(Event::Flushed(Err(failure()))),
        Err(SledStoreError::Db(_))
    ));
}
