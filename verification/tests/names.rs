use sled_contents::encoding::hex_text;
use sled_contents::trees::{
    has_thread_prefix, messages_thread_tree_name, thread_key, tree_name_of_digest, Thread,
};

const UUID: [u8; 16] = [0, 1, 2, 3, 4, 5, 6, 7, 8, 9, 10, 11, 12, 13, 14, 15];

const GROUP: [u8; 32] = [
    200, 207, 214, 221, 228, 235, 242, 249, 0, 7, 14, 21, 28, 35, 42, 49, 56, 63, 70, 77, 84, 91,
    98, 105, 112, 119, 126, 133, 140, 147, 154, 161,
];

#[test]
fn hexadecimal_is_lower_case_and_padded() {
    assert_eq!(hex_text(&[]), "");
    assert_eq!(hex_text(&[0x00, 0x0f, 0xa0, 0xff]), "000fa0ff");
    assert_eq!(
        hex_text(&[0x01, 0x23, 0x45, 0x67, 0x89, 0xab, 0xcd, 0xef]),
        "0123456789abcdef"
    );
}

#[test]
fn contact_is_named_by_hyphenated_uuid() {
    assert_eq!(
        thread_key(&Thread::Contact(UUID)),
        "threads:contact:00010203-0405-0607-0809-0a0b0c0d0e0f"
    );
    assert_eq!(
        thread_key(&Thread::Contact([0xfe; 16])),
        "threads:contact:fefefefe-fefe-fefe-fefe-fefefefefefe"
    );
}

#[test]
fn group_is_named_by_padded_base64() {
    assert_eq!(
        thread_key(&Thread::Group(GROUP)),
        "threads:group:yM/W3eTr8vkABw4VHCMqMTg/Rk1UW2JpcHd+hYyTmqE="
    );
}

#[test]
fn tree_of_messages_is_named_by_digest() {
    assert_eq!(
        messages_thread_tree_name(&Thread::Contact(UUID)),
        "threads:029959505ed93ee5473e76bdd63862dd2421c4e22ceb4e97c0eeeeb47cc58d5a"
    );
    assert_eq!(
        messages_thread_tree_name(&Thread::Group(GROUP)),
        "threads:4454bfae0d354d5c7f92de5eaddee5358be0424aaf856deb91621e72f65bc003"
    );
}

#[test]
fn tree_names_of_messages_have_one_length() {
    for byte in [0, 7, 255] {
        assert_eq!(messages_thread_tree_name(&Thread::Contact([byte; 16])).len(), 72);
        assert_eq!(messages_thread_tree_name(&Thread::Group([byte; 32])).len(), 72);
    }
}

#[test]
fn tree_name_follows_digest() {
    assert_eq!(tree_name_of_digest(&[0xab, 0x01]), "threads:ab01");
    assert_eq!(tree_name_of_digest(&[]), "threads:");
}

#[test]
fn conversations_have_texts_and_trees_of_their_own() {
    let threads = [
        Thread::Contact(UUID),
        Thread::Contact([7; 16]),
        Thread::Group(GROUP),
        Thread::Group([7; 32]),
    ];
    for (i, t) in threads.iter().enumerate() {
        for (j, u) in threads.iter().enumerate() {
            assert_eq!(thread_key(t) == thread_key(u), i == j);
            assert_eq!(
                messages_thread_tree_name(t) == messages_thread_tree_name(u),
                i == j
            );
        }
    }
}

#[test]
fn prefix_marks_trees_of_conversations() {
    assert!(has_thread_prefix(b"threads"));
    assert!(has_thread_prefix(b"threads_metadata"));
    assert!(has_thread_prefix(
        messages_thread_tree_name(&Thread::Contact(UUID)).as_bytes()
    ));
    assert!(!has_thread_prefix(b""));
    assert!(!has_thread_prefix(b"thread"));
    assert!(!has_thread_prefix(b"Threads"));
    assert!(!has_thread_prefix(b"contacts"));
    assert!(!has_thread_prefix(b"__sled__default"));
}
