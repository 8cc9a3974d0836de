use sled_contents::keys::{timestamp_key, Bound, KeyRange};
use sled_contents::store::SledStore;
use sled_contents::trees::{messages_thread_tree_name, Thread};

fn store() -> SledStore<()> {
    SledStore { cipher: None }
}

#[test]
fn key_is_big_endian() {
    assert_eq!(timestamp_key(0), [0; 8]);
    assert_eq!(
        timestamp_key(0x0102_0304_0506_0708),
        [1, 2, 3, 4, 5, 6, 7, 8]
    );
    assert_eq!(timestamp_key(256), [0, 0, 0, 0, 0, 0, 1, 0]);
    assert_eq!(timestamp_key(u64::MAX), [255; 8]);
    for t in [0, 1, 255, 1_700_000_000_123, u64::MAX - 1] {
        assert_eq!(timestamp_key(t), t.to_be_bytes());
    }
}

#[test]
fn keys_are_ordered_as_timestamps() {
    let timestamps = [
        0,
        1,
        255,
        256,
        65_535,
        65_536,
        1_700_000_000_000,
        1_700_000_000_001,
        u64::MAX,
    ];
    for a in timestamps {
        for b in timestamps {
            assert_eq!(timestamp_key(a) < timestamp_key(b), a < b);
        }
    }
}

#[test]
fn range_of_all_keys_is_unbounded() {
    let range = KeyRange::all();
    assert!(matches!(range.start, Bound::Unbounded));
    assert!(matches!(range.end, Bound::Unbounded));
}

#[test]
fn bounds_of_messages_become_bounds_of_keys() {
    let thread = Thread::Contact([3; 16]);
    let name = messages_thread_tree_name(&thread);

    let scan = store().messages(&thread, Bound::Included(5), Bound::Unbounded);
    assert_eq!(scan.tree, name);
    assert!(matches!(scan.range.start, Bound::Included([0, 0, 0, 0, 0, 0, 0, 5])));
    assert!(matches!(scan.range.end, Bound::Unbounded));

    let scan = store().messages(&thread, Bound::Included(5), Bound::Excluded(9));
    assert!(matches!(scan.range.start, Bound::Included([0, 0, 0, 0, 0, 0, 0, 5])));
    assert!(matches!(scan.range.end, Bound::Excluded([0, 0, 0, 0, 0, 0, 0, 9])));

    let scan = store().messages(&thread, Bound::Included(5), Bound::Included(9));
    assert!(matches!(scan.range.end, Bound::Included([0, 0, 0, 0, 0, 0, 0, 9])));

    let scan = store().messages(&thread, Bound::Unbounded, Bound::Included(258));
    assert!(matches!(scan.range.start, Bound::Unbounded));
    assert!(matches!(scan.range.end, Bound::Included([0, 0, 0, 0, 0, 0, 1, 2])));

    let scan = store().messages(&thread, Bound::Unbounded, Bound::Excluded(9));
    assert!(matches!(scan.range.end, Bound::Excluded([0, 0, 0, 0, 0, 0, 0, 9])));

    let scan = store().messages(&thread, Bound::Unbounded, Bound::Unbounded);
    assert_eq!(scan.tree, name);
    assert!(matches!(scan.range.start, Bound::Unbounded));
    assert!(matches!(scan.range.end, Bound::Unbounded));
}
