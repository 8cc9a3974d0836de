//! What holds of walks: what a cursor yields, in which order, and how it is read.
//!
//! A cursor over a range of a tree yields the keys that the tree holds in that range, in the order
//! of keys, each once, with its value. A message is kept under the bytes of its timestamp, so a
//! walk over a conversation is a walk through time.

use std::sync::Arc;

use vstd::prelude::*;

use crate::clear::ClearingView;
use crate::error::{CipherError, SledStoreError};
use crate::iter;
use crate::iter::{Decoding, Reading};
use crate::keys;
use crate::keys::Bound;
use crate::laws;
use crate::laws::Trees;
use crate::outside;
use crate::store::{Entry, Insert, Remove, Scan};
use crate::trees;
use crate::trees::Thread;

verus! {

/// What a walk meets: the keys of its tree that lie in its range, with their values.
pub open spec fn walked<V>(db: Trees<V>, scan: Scan) -> Map<Seq<u8>, V> {
    laws::contents(db, trees::tree_id(scan.tree@)).restrict(
        Set::new(|key: Seq<u8>| scan.range.covers(key)),
    )
}

/// A walk over all of a tree meets every entry that is kept there, and meets it as it is stored.
pub proof fn law_walk_meets_what_is_stored<V>(db: Trees<V>, scan: Scan, entry: Entry)
    requires
        scan.walks_all_of(entry.tree_name()),
    ensures
        walked(db, scan).contains_key(entry.key()) <==> laws::stored(db, entry.slot()) is Some,
        laws::stored(db, entry.slot()) matches Some(value) ==> walked(db, scan)[entry.key()] == value,
{
}

/// A walk over the messages of a conversation meets those whose timestamps lie between the bounds,
/// and meets them as they are stored.
pub proof fn law_walk_meets_messages_between_bounds<V>(
    db: Trees<V>,
    thread: Thread,
    start: Bound<u64>,
    end: Bound<u64>,
    scan: Scan,
    timestamp: u64,
)
    requires
        scan.walks_messages(thread, start, end),
    ensures
        ({
            let entry = Entry::Message(thread, timestamp);
            &&& walked(db, scan).contains_key(entry.key()) <==> (laws::stored(
                db,
                entry.slot(),
            ) is Some && keys::timestamp_between(start, end, timestamp))
            &&& walked(db, scan).contains_key(entry.key()) ==> laws::stored(db, entry.slot())
                == Some(walked(db, scan)[entry.key()])
        }),
{
    keys::law_range_of_keys_is_range_of_timestamps(start, end, scan.range, timestamp);
}

/// Whether a key is the key of a message.
pub open spec fn is_message_key(key: Seq<u8>) -> bool {
    exists|timestamp: u64| key == #[trigger] keys::big_endian(timestamp)
}

/// Whether the trees of conversations hold nothing but messages.
pub open spec fn conversations_hold_messages_alone<V>(db: Trees<V>) -> bool {
    forall|thread: Thread, key: Seq<u8>| #[trigger]
        laws::contents(db, trees::tree_id(thread.tree_name())).contains_key(key) ==> is_message_key(
            key,
        )
}

/// In an empty database the trees of conversations hold nothing but messages.
pub proof fn law_empty_database_holds_messages_alone<V>()
    ensures
        conversations_hold_messages_alone(Map::<Seq<u8>, Map<Seq<u8>, V>>::empty()),
{
}

/// Whatever is saved, the trees of conversations still hold nothing but messages.
pub proof fn law_saving_keeps_to_messages<V>(
    db: Trees<V>,
    entry: Entry,
    value: V,
    save: Insert<V>,
)
    requires
        conversations_hold_messages_alone(db),
        save.writes(entry, value),
    ensures
        conversations_hold_messages_alone(laws::inserted(db, save.slot(), save.value)),
{
    let after = laws::inserted(db, save.slot(), save.value);
    assert forall|thread: Thread, key: Seq<u8>| #[trigger]
        laws::contents(after, trees::tree_id(thread.tree_name())).contains_key(
            key,
        ) implies is_message_key(key) by {
        let tree = trees::tree_id(thread.tree_name());
        laws::lemma_kept_in(Entry::Message(thread, 0), entry);
        if !laws::contents(db, tree).contains_key(key) {
            match entry {
                Entry::Message(_, timestamp) => {
                    assert(key == keys::big_endian(timestamp));
                },
                _ => {},
            }
        }
    }
}

/// Whatever is removed, the trees of conversations still hold nothing but messages.
pub proof fn law_removing_keeps_to_messages<V>(db: Trees<V>, remove: Remove)
    requires
        conversations_hold_messages_alone(db),
    ensures
        conversations_hold_messages_alone(laws::removed(db, remove.slot())),
{
    let after = laws::removed(db, remove.slot());
    assert forall|thread: Thread, key: Seq<u8>| #[trigger]
        laws::contents(after, trees::tree_id(thread.tree_name())).contains_key(
            key,
        ) implies is_message_key(key) by {
        assert(laws::contents(db, trees::tree_id(thread.tree_name())).contains_key(key));
    }
}

/// Whatever is cleared, to its end or cut short after `n` things, the trees of conversations still
/// hold nothing but messages.
pub proof fn law_clearing_keeps_to_messages<V>(
    clearing: ClearingView,
    db: Trees<V>,
    names: Seq<Seq<u8>>,
    n: nat,
)
    requires
        conversations_hold_messages_alone(db),
        n <= laws::asked(clearing, names).len(),
    ensures
        conversations_hold_messages_alone(
            laws::performed(db, laws::asked(clearing, names).take(n as int)),
        ),
        conversations_hold_messages_alone(laws::cleared(clearing, db, names)),
{
    let all = laws::asked(clearing, names);
    lemma_doing_keeps_to_messages(db, all.take(n as int));
    lemma_doing_keeps_to_messages(db, all);
    laws::law_clearing_does_all_it_asks(clearing, db, names);
}

proof fn lemma_doing_keeps_to_messages<V>(db: Trees<V>, things: Seq<laws::Asked>)
    requires
        conversations_hold_messages_alone(db),
    ensures
        conversations_hold_messages_alone(laws::performed(db, things)),
{
    let after = laws::performed(db, things);
    assert forall|thread: Thread, key: Seq<u8>| #[trigger]
        laws::contents(after, trees::tree_id(thread.tree_name())).contains_key(
            key,
        ) implies is_message_key(key) by {
        let tree = trees::tree_id(thread.tree_name());
        laws::lemma_performed(db, things, tree);
        assert(laws::contents(db, tree).contains_key(key));
    }
}

/// Whether a key is among some elements.
pub open spec fn has_key<V>(elements: Seq<(Seq<u8>, V)>, key: Seq<u8>) -> bool {
    exists|i: int| 0 <= i < elements.len() && #[trigger] elements[i].0 == key
}

/// Whether some elements are what a map holds, in the order of keys, each once.
pub open spec fn in_order<V>(map: Map<Seq<u8>, V>, elements: Seq<(Seq<u8>, V)>) -> bool {
    &&& forall|i: int, j: int|
        0 <= i < j < elements.len() ==> keys::key_before(
            #[trigger] elements[i].0,
            #[trigger] elements[j].0,
        )
    &&& forall|i: int|
        0 <= i < elements.len() ==> map.contains_key(#[trigger] elements[i].0)
            && map[elements[i].0] == elements[i].1
    &&& forall|key: Seq<u8>| #[trigger] map.contains_key(key) ==> has_key(elements, key)
}

/// Whether some elements are what a cursor yields, from its front to its end.
pub open spec fn yields<V>(db: Trees<V>, scan: Scan, elements: Seq<(Seq<u8>, V)>) -> bool {
    in_order(walked(db, scan), elements)
}

/// There is one way only to put what a map holds in order.
proof fn lemma_one_order<V>(map: Map<Seq<u8>, V>, xs: Seq<(Seq<u8>, V)>, ys: Seq<(Seq<u8>, V)>)
    requires
        in_order(map, xs),
        in_order(map, ys),
    ensures
        xs == ys,
    decreases xs.len(),
{
    if xs.len() == 0 {
        if ys.len() > 0 {
            assert(map.contains_key(ys[0].0));
        }
        assert(xs =~= ys);
    } else {
        assert(map.contains_key(xs[0].0));
        let m = xs.len() - 1;
        let n = ys.len() - 1;
        let a = xs[m].0;
        let b = ys[n].0;
        assert(has_key(ys, a) && has_key(xs, b));
        let i = choose|i: int| 0 <= i < xs.len() && #[trigger] xs[i].0 == b;
        let j = choose|j: int| 0 <= j < ys.len() && #[trigger] ys[j].0 == a;
        keys::law_keys_are_ordered_strictly(a, b);
        assert(a == b);
        lemma_without_the_last(map, xs);
        lemma_without_the_last(map, ys);
        lemma_one_order(map.remove(a), xs.drop_last(), ys.drop_last());
        assert(xs =~= xs.drop_last().push(xs[m]));
        assert(ys =~= ys.drop_last().push(ys[n]));
    }
}

proof fn lemma_without_the_last<V>(map: Map<Seq<u8>, V>, xs: Seq<(Seq<u8>, V)>)
    requires
        in_order(map, xs),
        xs.len() > 0,
    ensures
        in_order(map.remove(xs.last().0), xs.drop_last()),
{
    let last = xs.last().0;
    let rest = xs.drop_last();
    let less = map.remove(last);
    assert forall|i: int| 0 <= i < rest.len() implies less.contains_key(#[trigger] rest[i].0)
        && less[rest[i].0] == rest[i].1 by {
        assert(map.contains_key(xs[i].0));
        assert(keys::key_before(xs[i].0, xs[xs.len() - 1].0));
        keys::law_keys_are_ordered_strictly(last, last);
    }
    assert forall|key: Seq<u8>| #[trigger] less.contains_key(key) implies has_key(rest, key) by {
        assert(map.contains_key(key));
        let i = choose|i: int| 0 <= i < xs.len() && #[trigger] xs[i].0 == key;
        assert(rest[i].0 == key);
    }
    assert forall|i: int, j: int| 0 <= i < j < rest.len() implies keys::key_before(
        #[trigger] rest[i].0,
        #[trigger] rest[j].0,
    ) by {
        assert(keys::key_before(xs[i].0, xs[j].0));
    }
}

/// What a cursor yields is determined by what the tree holds in the range.
pub proof fn law_walk_is_determined<V>(
    db: Trees<V>,
    scan: Scan,
    other: Scan,
    elements: Seq<(Seq<u8>, V)>,
    others: Seq<(Seq<u8>, V)>,
)
    requires
        walked(db, scan) == walked(db, other),
        yields(db, scan, elements),
        yields(db, other, others),
    ensures
        elements == others,
{
    lemma_one_order(walked(db, scan), elements, others);
}

/// The timestamp whose key this is.
pub open spec fn timestamp_of(key: Seq<u8>) -> u64 {
    choose|timestamp: u64| key == #[trigger] keys::big_endian(timestamp)
}

/// A timestamp is what its key says.
pub proof fn law_key_tells_its_timestamp(timestamp: u64)
    ensures
        timestamp_of(keys::big_endian(timestamp)) == timestamp,
{
    let key = keys::big_endian(timestamp);
    assert(key == keys::big_endian(timestamp_of(key)));
    keys::law_keys_differ_as_timestamps_do(timestamp, timestamp_of(key));
}

/// Elements of a walk over messages, by timestamp.
pub open spec fn as_messages<V>(elements: Seq<(Seq<u8>, V)>) -> Seq<(u64, V)> {
    elements.map_values(|element: (Seq<u8>, V)| (timestamp_of(element.0), element.1))
}

/// Whether a timestamp is among some messages.
pub open spec fn has_timestamp<V>(messages: Seq<(u64, V)>, timestamp: u64) -> bool {
    exists|i: int| 0 <= i < messages.len() && #[trigger] messages[i].0 == timestamp
}

/// Whether these are the messages of a conversation whose timestamps lie between two bounds: in
/// ascending order, each once, as it is stored, none missing and none besides.
pub open spec fn are_messages_between<V>(
    db: Trees<V>,
    thread: Thread,
    start: Bound<u64>,
    end: Bound<u64>,
    messages: Seq<(u64, V)>,
) -> bool {
    &&& forall|i: int, j: int|
        0 <= i < j < messages.len() ==> #[trigger] messages[i].0 < #[trigger] messages[j].0
    &&& forall|i: int|
        0 <= i < messages.len() ==> keys::timestamp_between(start, end, #[trigger] messages[i].0)
            && laws::stored(db, Entry::Message(thread, messages[i].0).slot()) == Some(messages[i].1)
    &&& forall|timestamp: u64|
        keys::timestamp_between(start, end, timestamp) && laws::stored(
            db,
            #[trigger] Entry::Message(thread, timestamp).slot(),
        ) is Some ==> has_timestamp(messages, timestamp)
}

/// A walk over the messages of a conversation yields those between the bounds in ascending order of
/// their timestamps, each once and as it is stored, and nothing else.
pub proof fn law_walk_gives_messages_in_order<V>(
    db: Trees<V>,
    thread: Thread,
    start: Bound<u64>,
    end: Bound<u64>,
    scan: Scan,
    elements: Seq<(Seq<u8>, V)>,
)
    requires
        conversations_hold_messages_alone(db),
        scan.walks_messages(thread, start, end),
        yields(db, scan, elements),
    ensures
        are_messages_between(db, thread, start, end, as_messages(elements)),
        forall|i: int|
            0 <= i < elements.len() ==> (#[trigger] elements[i]).0 == keys::big_endian(
                as_messages(elements)[i].0,
            ),
{
    let messages = as_messages(elements);
    let tree = trees::tree_id(thread.tree_name());
    assert forall|i: int| 0 <= i < elements.len() implies (#[trigger] elements[i]).0
        == keys::big_endian(messages[i].0) by {
        assert(walked(db, scan).contains_key(elements[i].0));
        assert(laws::contents(db, tree).contains_key(elements[i].0));
    }
    assert forall|i: int, j: int| 0 <= i < j < messages.len() implies #[trigger] messages[i].0
        < #[trigger] messages[j].0 by {
        assert(keys::key_before(elements[i].0, elements[j].0));
        keys::law_keys_are_ordered_as_timestamps(messages[i].0, messages[j].0);
    }
    assert forall|i: int| 0 <= i < messages.len() implies keys::timestamp_between(
        start,
        end,
        #[trigger] messages[i].0,
    ) && laws::stored(db, Entry::Message(thread, messages[i].0).slot()) == Some(
        messages[i].1,
    ) by {
        assert(walked(db, scan).contains_key(elements[i].0));
        law_walk_meets_messages_between_bounds(db, thread, start, end, scan, messages[i].0);
    }
    assert forall|timestamp: u64|
        keys::timestamp_between(start, end, timestamp) && laws::stored(
            db,
            #[trigger] Entry::Message(thread, timestamp).slot(),
        ) is Some implies has_timestamp(messages, timestamp) by {
        law_walk_meets_messages_between_bounds(db, thread, start, end, scan, timestamp);
        let key = keys::big_endian(timestamp);
        assert(walked(db, scan).contains_key(key));
        let i = choose|i: int| 0 <= i < elements.len() && #[trigger] elements[i].0 == key;
        law_key_tells_its_timestamp(timestamp);
        assert(messages[i].0 == timestamp);
    }
}

/// A walk may take from both ends till they meet. What it took is then each message between the
/// bounds once: from the front in ascending order, from the back in descending order, and what came
/// from the front is older than what came from the back.
pub proof fn law_walk_from_both_ends<V>(
    db: Trees<V>,
    thread: Thread,
    start: Bound<u64>,
    end: Bound<u64>,
    scan: Scan,
    front: Seq<(Seq<u8>, V)>,
    back: Seq<(Seq<u8>, V)>,
)
    requires
        conversations_hold_messages_alone(db),
        scan.walks_messages(thread, start, end),
        yields(db, scan, front + back.reverse()),
    ensures
        ({
            let older = as_messages(front);
            let newer = as_messages(back);
            &&& are_messages_between(db, thread, start, end, older + newer.reverse())
            &&& forall|i: int, j: int|
                0 <= i < j < older.len() ==> #[trigger] older[i].0 < #[trigger] older[j].0
            &&& forall|i: int, j: int|
                0 <= i < j < newer.len() ==> #[trigger] newer[i].0 > #[trigger] newer[j].0
            &&& forall|i: int, j: int|
                0 <= i < older.len() && 0 <= j < newer.len() ==> #[trigger] older[i].0
                    < #[trigger] newer[j].0
        }),
{
    let older = as_messages(front);
    let newer = as_messages(back);
    let all = older + newer.reverse();
    law_walk_gives_messages_in_order(db, thread, start, end, scan, front + back.reverse());
    assert(as_messages(front + back.reverse()) =~= all);
    let n = all.len() - 1;
    assert forall|i: int| 0 <= i < older.len() implies older[i] == #[trigger] all[i] by {}
    assert forall|j: int| 0 <= j < newer.len() implies #[trigger] newer[j] == all[n - j] by {}
    assert forall|i: int, j: int| 0 <= i < j < older.len() implies #[trigger] older[i].0
        < #[trigger] older[j].0 by {
        assert(all[i].0 < all[j].0);
    }
    assert forall|i: int, j: int| 0 <= i < j < newer.len() implies #[trigger] newer[i].0
        > #[trigger] newer[j].0 by {
        assert(all[n - j].0 < all[n - i].0);
    }
    assert forall|i: int, j: int|
        0 <= i < older.len() && 0 <= j < newer.len() implies #[trigger] older[i].0
        < #[trigger] newer[j].0 by {
        assert(all[i].0 < all[n - j].0);
    }
}

/// A message that was saved is met, as it was saved, on every walk whose bounds admit it.
pub proof fn law_saved_message_is_met<V>(
    db: Trees<V>,
    thread: Thread,
    timestamp: u64,
    value: V,
    save: Insert<V>,
    start: Bound<u64>,
    end: Bound<u64>,
    scan: Scan,
    elements: Seq<(Seq<u8>, V)>,
)
    requires
        conversations_hold_messages_alone(db),
        save.writes(Entry::Message(thread, timestamp), value),
        keys::timestamp_between(start, end, timestamp),
        scan.walks_messages(thread, start, end),
        yields(laws::inserted(db, save.slot(), save.value), scan, elements),
    ensures
        as_messages(elements).contains((timestamp, value)),
{
    let entry = Entry::Message(thread, timestamp);
    let after = laws::inserted(db, save.slot(), save.value);
    law_saving_keeps_to_messages(db, entry, value, save);
    law_walk_gives_messages_in_order(after, thread, start, end, scan, elements);
    let messages = as_messages(elements);
    assert(laws::stored(after, entry.slot()) == Some(value));
    assert(has_timestamp(messages, timestamp));
    let i = choose|i: int| 0 <= i < messages.len() && #[trigger] messages[i].0 == timestamp;
    assert(messages[i] == (timestamp, value));
}

/// A message that was deleted is met on no walk.
pub proof fn law_deleted_message_is_met_no_more<V>(
    db: Trees<V>,
    thread: Thread,
    timestamp: u64,
    remove: Remove,
    start: Bound<u64>,
    end: Bound<u64>,
    scan: Scan,
    elements: Seq<(Seq<u8>, V)>,
)
    requires
        conversations_hold_messages_alone(db),
        remove.removes(Entry::Message(thread, timestamp)),
        scan.walks_messages(thread, start, end),
        yields(laws::removed(db, remove.slot()), scan, elements),
    ensures
        !has_timestamp(as_messages(elements), timestamp),
{
    let entry = Entry::Message(thread, timestamp);
    let after = laws::removed(db, remove.slot());
    law_removing_keeps_to_messages(db, remove);
    law_walk_gives_messages_in_order(after, thread, start, end, scan, elements);
    assert(laws::stored(after, entry.slot()) is None);
}

/// Two walks over a conversation whose bounds admit the same timestamps yield the same.
pub proof fn law_bounds_that_admit_alike_walk_alike<V>(
    db: Trees<V>,
    thread: Thread,
    scan: Scan,
    start: Bound<u64>,
    end: Bound<u64>,
    elements: Seq<(Seq<u8>, V)>,
    other: Scan,
    other_start: Bound<u64>,
    other_end: Bound<u64>,
    others: Seq<(Seq<u8>, V)>,
)
    requires
        conversations_hold_messages_alone(db),
        scan.walks_messages(thread, start, end),
        other.walks_messages(thread, other_start, other_end),
        forall|timestamp: u64| #[trigger]
            keys::timestamp_between(start, end, timestamp) <==> keys::timestamp_between(
                other_start,
                other_end,
                timestamp,
            ),
        yields(db, scan, elements),
        yields(db, other, others),
    ensures
        elements == others,
{
    let tree = trees::tree_id(thread.tree_name());
    assert forall|key: Seq<u8>| walked(db, scan).contains_key(key) <==> walked(
        db,
        other,
    ).contains_key(key) by {
        if laws::contents(db, tree).contains_key(key) {
            let timestamp = timestamp_of(key);
            assert(key == keys::big_endian(timestamp));
            keys::law_range_of_keys_is_range_of_timestamps(start, end, scan.range, timestamp);
            keys::law_range_of_keys_is_range_of_timestamps(
                other_start,
                other_end,
                other.range,
                timestamp,
            );
            assert(keys::timestamp_between(start, end, timestamp) <==> keys::timestamp_between(
                other_start,
                other_end,
                timestamp,
            ));
        }
    }
    assert(walked(db, scan) =~= walked(db, other));
    law_walk_is_determined(db, scan, other, elements, others);
}

/// A walk without bounds yields what a walk from the first timestamp to the last yields: every
/// message of the conversation.
pub proof fn law_walk_without_bounds_is_over_all_timestamps<V>(
    db: Trees<V>,
    thread: Thread,
    scan: Scan,
    elements: Seq<(Seq<u8>, V)>,
    other: Scan,
    start: Bound<u64>,
    end: Bound<u64>,
    others: Seq<(Seq<u8>, V)>,
)
    requires
        conversations_hold_messages_alone(db),
        scan.walks_messages(thread, Bound::Unbounded, Bound::Unbounded),
        other.walks_messages(thread, start, end),
        start is Unbounded || start == Bound::<u64>::Included(0),
        end is Unbounded || end == Bound::<u64>::Included(u64::MAX),
        yields(db, scan, elements),
        yields(db, other, others),
    ensures
        elements == others,
        forall|timestamp: u64|
            laws::stored(db, #[trigger] Entry::Message(thread, timestamp).slot()) is Some
                ==> has_timestamp(as_messages(others), timestamp),
{
    law_bounds_that_admit_alike_walk_alike(
        db,
        thread,
        scan,
        Bound::Unbounded,
        Bound::Unbounded,
        elements,
        other,
        start,
        end,
        others,
    );
    law_walk_gives_messages_in_order(
        db,
        thread,
        Bound::Unbounded,
        Bound::Unbounded,
        scan,
        elements,
    );
}

/// A walk without a start yields what a walk from the first timestamp on yields.
pub proof fn law_walk_without_a_start_begins_at_the_first_timestamp<V>(
    db: Trees<V>,
    thread: Thread,
    end: Bound<u64>,
    scan: Scan,
    elements: Seq<(Seq<u8>, V)>,
    other: Scan,
    others: Seq<(Seq<u8>, V)>,
)
    requires
        conversations_hold_messages_alone(db),
        scan.walks_messages(thread, Bound::Unbounded, end),
        other.walks_messages(thread, Bound::Included(0), end),
        yields(db, scan, elements),
        yields(db, other, others),
    ensures
        elements == others,
{
    law_bounds_that_admit_alike_walk_alike(
        db,
        thread,
        scan,
        Bound::Unbounded,
        end,
        elements,
        other,
        Bound::Included(0),
        end,
        others,
    );
}

/// A walk that stops short of the last timestamp lacks just the message at that timestamp, where
/// there is one, of what a walk without an end yields.
pub proof fn law_walk_short_of_the_last_timestamp<V>(
    db: Trees<V>,
    thread: Thread,
    start: Bound<u64>,
    scan: Scan,
    elements: Seq<(Seq<u8>, V)>,
    short: Scan,
    fewer: Seq<(Seq<u8>, V)>,
)
    requires
        conversations_hold_messages_alone(db),
        !(start is Excluded),
        scan.walks_messages(thread, start, Bound::Unbounded),
        short.walks_messages(thread, start, Bound::Excluded(u64::MAX)),
        yields(db, scan, elements),
        yields(db, short, fewer),
    ensures
        elements == match laws::stored(db, Entry::Message(thread, u64::MAX).slot()) {
            Some(value) => fewer.push((keys::big_endian(u64::MAX), value)),
            None => fewer,
        },
{
    let tree = trees::tree_id(thread.tree_name());
    let last = keys::big_endian(u64::MAX);
    assert forall|key: Seq<u8>|
        walked(db, scan).contains_key(key) <==> (walked(db, short).contains_key(key) || (key == last
            && laws::contents(db, tree).contains_key(last))) by {
        if laws::contents(db, tree).contains_key(key) {
            let timestamp = timestamp_of(key);
            assert(key == keys::big_endian(timestamp));
            keys::law_range_of_keys_is_range_of_timestamps(
                start,
                Bound::Unbounded,
                scan.range,
                timestamp,
            );
            keys::law_range_of_keys_is_range_of_timestamps(
                start,
                Bound::Excluded(u64::MAX),
                short.range,
                timestamp,
            );
            keys::law_keys_differ_as_timestamps_do(timestamp, u64::MAX);
        }
    }
    match laws::stored(db, Entry::Message(thread, u64::MAX).slot()) {
        Some(value) => {
            assert(walked(db, scan) =~= walked(db, short).insert(last, value));
            law_walk_gives_messages_in_order(
                db,
                thread,
                start,
                Bound::Excluded(u64::MAX),
                short,
                fewer,
            );
            assert forall|i: int| 0 <= i < fewer.len() implies keys::key_before(
                #[trigger] fewer[i].0,
                last,
            ) by {
                let timestamp = as_messages(fewer)[i].0;
                keys::law_keys_are_ordered_as_timestamps(timestamp, u64::MAX);
                assert(fewer[i].0 == keys::big_endian(timestamp));
            }
            lemma_with_one_more(walked(db, short), fewer, last, value);
            lemma_one_order(walked(db, scan), elements, fewer.push((last, value)));
        },
        None => {
            assert(walked(db, scan) =~= walked(db, short));
            lemma_one_order(walked(db, scan), elements, fewer);
        },
    }
}

proof fn lemma_with_one_more<V>(
    map: Map<Seq<u8>, V>,
    xs: Seq<(Seq<u8>, V)>,
    key: Seq<u8>,
    value: V,
)
    requires
        in_order(map, xs),
        forall|i: int| 0 <= i < xs.len() ==> keys::key_before(#[trigger] xs[i].0, key),
    ensures
        in_order(map.insert(key, value), xs.push((key, value))),
{
    let more = map.insert(key, value);
    let ys = xs.push((key, value));
    keys::law_keys_are_ordered_strictly(key, key);
    assert forall|i: int, j: int| 0 <= i < j < ys.len() implies keys::key_before(
        #[trigger] ys[i].0,
        #[trigger] ys[j].0,
    ) by {
        assert(ys[i] == xs[i]);
        assert(keys::key_before(xs[i].0, key));
        if j < xs.len() {
            assert(keys::key_before(xs[i].0, xs[j].0));
        }
    }
    assert forall|i: int| 0 <= i < ys.len() implies more.contains_key(#[trigger] ys[i].0)
        && more[ys[i].0] == ys[i].1 by {
        if i < xs.len() {
            assert(ys[i] == xs[i]);
            assert(map.contains_key(xs[i].0));
            assert(keys::key_before(xs[i].0, key));
        }
    }
    assert forall|k: Seq<u8>| #[trigger] more.contains_key(k) implies has_key(ys, k) by {
        if k == key {
            assert(ys[xs.len() as int].0 == key);
        } else {
            assert(map.contains_key(k));
            let i = choose|i: int| 0 <= i < xs.len() && #[trigger] xs[i].0 == k;
            assert(ys[i].0 == k);
        }
    }
}

/// A walk over one timestamp alone yields the message at that timestamp, where there is one, and
/// nothing else: only the very timestamp matches.
pub proof fn law_walk_over_one_timestamp<V>(
    db: Trees<V>,
    thread: Thread,
    timestamp: u64,
    scan: Scan,
    elements: Seq<(Seq<u8>, V)>,
)
    requires
        scan.walks_messages(thread, Bound::Included(timestamp), Bound::Included(timestamp)),
        yields(db, scan, elements),
    ensures
        elements == match laws::stored(db, Entry::Message(thread, timestamp).slot()) {
            Some(value) => seq![(keys::big_endian(timestamp), value)],
            None => Seq::empty(),
        },
{
    let only = keys::big_endian(timestamp);
    assert forall|key: Seq<u8>| #[trigger] walked(db, scan).contains_key(key) implies key
        == only by {
        keys::law_keys_are_ordered_strictly(key, only);
    }
    keys::law_keys_are_ordered_strictly(only, only);
    let empty = Map::<Seq<u8>, V>::empty();
    let none = Seq::<(Seq<u8>, V)>::empty();
    assert(in_order(empty, none));
    match laws::stored(db, Entry::Message(thread, timestamp).slot()) {
        Some(value) => {
            assert(walked(db, scan) =~= empty.insert(only, value));
            lemma_with_one_more(empty, none, only, value);
            assert(none.push((only, value)) =~= seq![(only, value)]);
            lemma_one_order(walked(db, scan), elements, seq![(only, value)]);
        },
        None => {
            assert(walked(db, scan) =~= empty);
            lemma_one_order(empty, elements, none);
        },
    }
}

/// How many stages a message still has before it.
pub open spec fn stages_left<K, P, C>(decoding: Decoding<K, P, C>) -> nat {
    match decoding {
        Decoding::Decrypt { .. } => 3,
        Decoding::Parse(_) => 2,
        Decoding::Convert(_) => 1,
        Decoding::Done(_) => 0,
    }
}

/// What comes of the reading of a message that is taken through its stages, where `decrypt` is what
/// the cipher gives, `parse` what the protobuf parser gives and `convert` what a parsed message is
/// turned into.
pub open spec fn decoded<K, P, C>(
    decoding: Decoding<K, P, C>,
    decrypt: spec_fn(Arc<K>, Seq<u8>) -> Result<Vec<u8>, CipherError>,
    parse: spec_fn(Seq<u8>) -> Result<P, prost::DecodeError>,
    convert: spec_fn(P) -> Result<C, SledStoreError>,
) -> Result<C, SledStoreError>
    decreases stages_left(decoding),
{
    match decoding {
        Decoding::Decrypt { cipher, value } => decoded(
            Decoding::after_cipher(decrypt(cipher, value@)),
            decrypt,
            parse,
            convert,
        ),
        Decoding::Parse(data) => decoded(
            Decoding::after_protobuf(parse(data@)),
            decrypt,
            parse,
            convert,
        ),
        Decoding::Convert(message) => convert(message),
        Decoding::Done(result) => result,
    }
}

/// The bytes of the message that a stored value holds: what the cipher opens it to where there is
/// one, else what its JSON lists; none where that fails.
pub open spec fn opened<K>(
    cipher: Option<Arc<K>>,
    decrypt: spec_fn(Arc<K>, Seq<u8>) -> Result<Vec<u8>, CipherError>,
    value: Vec<u8>,
) -> Option<Seq<u8>> {
    match cipher {
        Some(cipher) => match decrypt(cipher, value@) {
            Ok(data) => Some(data@),
            Err(_) => None,
        },
        None => outside::json_byte_array(value@),
    }
}

/// Whether `found` is what looking up the bytes of a message gives, where `kept` is what is kept at
/// its place.
pub open spec fn is_found<K>(
    cipher: Option<Arc<K>>,
    decrypt: spec_fn(Arc<K>, Seq<u8>) -> Result<Vec<u8>, CipherError>,
    kept: Option<Vec<u8>>,
    found: Result<Option<Vec<u8>>, SledStoreError>,
) -> bool {
    match kept {
        None => found == Ok::<Option<Vec<u8>>, SledStoreError>(None),
        Some(value) => match opened(cipher, decrypt, value) {
            Some(data) => found matches Ok(Some(bytes)) && bytes@ == data,
            None => found is Err,
        },
    }
}

/// Looking up the bytes of a message gives those that the value kept at its place holds: by the
/// stages in which a stored value is read, where `decrypt` is what the cipher gives and `parsed`
/// what the JSON parser gave.
pub proof fn law_lookup_opens_what_is_kept<K>(
    cipher: Option<Arc<K>>,
    decrypt: spec_fn(Arc<K>, Seq<u8>) -> Result<Vec<u8>, CipherError>,
    value: Vec<u8>,
    parsed: Result<Vec<u8>, serde_json::Error>,
    read: Reading<K, Vec<u8>>,
)
    requires
        match parsed {
            Ok(bytes) => outside::json_byte_array(value@) == Some(bytes@),
            Err(_) => outside::json_byte_array(value@) is None,
        },
        read == match iter::reading_of::<K, Vec<u8>>(cipher, value) {
            Reading::Decrypt { cipher, value } => Reading::<K, Vec<u8>>::after_cipher(
                decrypt(cipher, value@),
            ),
            Reading::ParseJson(_) => Reading::after_json(parsed),
            Reading::Done(result) => Reading::Done(result),
        },
    ensures
        read matches Reading::Done(result) && is_found(
            cipher,
            decrypt,
            Some(value),
            match result {
                Ok(bytes) => Ok(Some(bytes)),
                Err(e) => Err(e),
            },
        ),
{
}

/// What reading a message gives, where `found` is what looking up its bytes gave.
pub open spec fn looked_up<K, P, C>(
    found: Result<Option<Vec<u8>>, SledStoreError>,
    decrypt: spec_fn(Arc<K>, Seq<u8>) -> Result<Vec<u8>, CipherError>,
    parse: spec_fn(Seq<u8>) -> Result<P, prost::DecodeError>,
    convert: spec_fn(P) -> Result<C, SledStoreError>,
) -> Result<Option<C>, SledStoreError> {
    match found {
        Ok(Some(message)) => match decoded(
            Decoding::<K, P, C>::Parse(message),
            decrypt,
            parse,
            convert,
        ) {
            Ok(content) => Ok(Some(content)),
            Err(e) => Err(e),
        },
        Ok(None) => Ok(None),
        Err(e) => Err(e),
    }
}

/// A message is read alike whether it is looked up or met on a walk, in a store with a cipher and in
/// one without: the bytes that the stored value holds are what is parsed.
pub proof fn law_walk_reads_what_a_lookup_reads<K, P, C>(
    cipher: Option<Arc<K>>,
    unlocked: Result<Vec<u8>, CipherError>,
    value: Vec<u8>,
    message: Vec<u8>,
    met: Decoding<K, P, C>,
    looked_up: Decoding<K, P, C>,
)
    requires
        iter::is_decoding_of(cipher, value, met),
        cipher is Some ==> unlocked == Ok::<Vec<u8>, CipherError>(message),
        cipher is None ==> outside::json_byte_array(value@) == Some(message@),
        looked_up == Decoding::<K, P, C>::Parse(message),
    ensures
        match cipher {
            Some(cipher) => met == Decoding::<K, P, C>::Decrypt { cipher, value } && Decoding::<
                K,
                P,
                C,
            >::after_cipher(unlocked) == looked_up,
            None => met matches Decoding::Parse(bytes) && bytes@ == message@,
        },
{
}

/// Whatever cipher, parser and conversion do, a message that is met on a walk gives the content
/// that looking it up gives, and fails where looking it up fails.
pub proof fn law_walk_gives_what_a_lookup_gives<K, P, C>(
    cipher: Option<Arc<K>>,
    decrypt: spec_fn(Arc<K>, Seq<u8>) -> Result<Vec<u8>, CipherError>,
    parse: spec_fn(Seq<u8>) -> Result<P, prost::DecodeError>,
    convert: spec_fn(P) -> Result<C, SledStoreError>,
    value: Vec<u8>,
    met: Decoding<K, P, C>,
    found: Result<Option<Vec<u8>>, SledStoreError>,
)
    requires
        iter::is_decoding_of(cipher, value, met),
        is_found(cipher, decrypt, Some(value), found),
    ensures
        ({
            let walk = decoded(met, decrypt, parse, convert);
            let lookup = looked_up::<K, P, C>(found, decrypt, parse, convert);
            &&& match walk {
                Ok(content) => lookup == Ok::<Option<C>, SledStoreError>(Some(content)),
                Err(_) => lookup is Err,
            }
            &&& opened(cipher, decrypt, value) is Some ==> lookup == match walk {
                Ok(content) => Ok::<Option<C>, SledStoreError>(Some(content)),
                Err(e) => Err(e),
            }
        }),
{
    reveal_with_fuel(decoded, 4);
}

/// Whether `results` are what a walk gives whose cursor yields `elements`.
pub open spec fn walk_gives<K, P, C>(
    cipher: Option<Arc<K>>,
    decrypt: spec_fn(Arc<K>, Seq<u8>) -> Result<Vec<u8>, CipherError>,
    parse: spec_fn(Seq<u8>) -> Result<P, prost::DecodeError>,
    convert: spec_fn(P) -> Result<C, SledStoreError>,
    elements: Seq<(Seq<u8>, Vec<u8>)>,
    results: Seq<Result<C, SledStoreError>>,
) -> bool {
    &&& results.len() == elements.len()
    &&& forall|i: int|
        0 <= i < elements.len() ==> comes_of(
            cipher,
            decrypt,
            parse,
            convert,
            elements[i].1,
            #[trigger] results[i],
        )
}

/// Whether `result` is what comes of a stored message that is met on a walk.
pub open spec fn comes_of<K, P, C>(
    cipher: Option<Arc<K>>,
    decrypt: spec_fn(Arc<K>, Seq<u8>) -> Result<Vec<u8>, CipherError>,
    parse: spec_fn(Seq<u8>) -> Result<P, prost::DecodeError>,
    convert: spec_fn(P) -> Result<C, SledStoreError>,
    value: Vec<u8>,
    result: Result<C, SledStoreError>,
) -> bool {
    exists|met: Decoding<K, P, C>| #[trigger]
        iter::is_decoding_of(cipher, value, met) && result == decoded(met, decrypt, parse, convert)
}

/// What a walk between two bounds gives, element by element, is what looking up the messages
/// between the bounds gives, in ascending order of their timestamps: `timestamp` is that of the
/// `i`th, and `found` is what looking up its bytes gave.
pub proof fn law_walk_gives_contents_in_order<K, P, C>(
    db: Trees<Vec<u8>>,
    thread: Thread,
    start: Bound<u64>,
    end: Bound<u64>,
    scan: Scan,
    elements: Seq<(Seq<u8>, Vec<u8>)>,
    cipher: Option<Arc<K>>,
    decrypt: spec_fn(Arc<K>, Seq<u8>) -> Result<Vec<u8>, CipherError>,
    parse: spec_fn(Seq<u8>) -> Result<P, prost::DecodeError>,
    convert: spec_fn(P) -> Result<C, SledStoreError>,
    results: Seq<Result<C, SledStoreError>>,
    i: int,
    timestamp: u64,
    found: Result<Option<Vec<u8>>, SledStoreError>,
)
    requires
        conversations_hold_messages_alone(db),
        scan.walks_messages(thread, start, end),
        yields(db, scan, elements),
        walk_gives(cipher, decrypt, parse, convert, elements, results),
        0 <= i < results.len(),
        timestamp == as_messages(elements)[i].0,
        is_found(
            cipher,
            decrypt,
            laws::stored(db, Entry::Message(thread, timestamp).slot()),
            found,
        ),
    ensures
        are_messages_between(db, thread, start, end, as_messages(elements)),
        match results[i] {
            Ok(content) => looked_up::<K, P, C>(found, decrypt, parse, convert) == Ok::<
                Option<C>,
                SledStoreError,
            >(Some(content)),
            Err(_) => looked_up::<K, P, C>(found, decrypt, parse, convert) is Err,
        },
{
    law_walk_gives_messages_in_order(db, thread, start, end, scan, elements);
    assert(as_messages(elements)[i].1 == elements[i].1);
    let value = elements[i].1;
    assert(comes_of(cipher, decrypt, parse, convert, value, results[i]));
    let met = choose|met: Decoding<K, P, C>| #[trigger]
        iter::is_decoding_of(cipher, value, met) && results[i] == decoded(
            met,
            decrypt,
            parse,
            convert,
        );
    law_walk_gives_what_a_lookup_gives(cipher, decrypt, parse, convert, value, met, found);
}

/// Looking up a message finds a content exactly if a walk over its timestamp alone gives just that
/// content, and finds nothing exactly if that walk gives nothing.
pub proof fn law_lookup_is_the_walk_over_its_timestamp<K, P, C>(
    db: Trees<Vec<u8>>,
    thread: Thread,
    timestamp: u64,
    scan: Scan,
    elements: Seq<(Seq<u8>, Vec<u8>)>,
    cipher: Option<Arc<K>>,
    decrypt: spec_fn(Arc<K>, Seq<u8>) -> Result<Vec<u8>, CipherError>,
    parse: spec_fn(Seq<u8>) -> Result<P, prost::DecodeError>,
    convert: spec_fn(P) -> Result<C, SledStoreError>,
    results: Seq<Result<C, SledStoreError>>,
    found: Result<Option<Vec<u8>>, SledStoreError>,
)
    requires
        scan.walks_messages(thread, Bound::Included(timestamp), Bound::Included(timestamp)),
        yields(db, scan, elements),
        walk_gives(cipher, decrypt, parse, convert, elements, results),
        is_found(
            cipher,
            decrypt,
            laws::stored(db, Entry::Message(thread, timestamp).slot()),
            found,
        ),
    ensures
        ({
            let lookup = looked_up::<K, P, C>(found, decrypt, parse, convert);
            &&& forall|content: C|
                lookup == Ok::<Option<C>, SledStoreError>(Some(content)) <==> results
                    == #[trigger] seq![Ok::<C, SledStoreError>(content)]
            &&& lookup == Ok::<Option<C>, SledStoreError>(None) <==> results.len() == 0
            &&& lookup is Err <==> results.len() == 1 && results[0] is Err
        }),
{
    law_walk_over_one_timestamp(db, thread, timestamp, scan, elements);
    let lookup = looked_up::<K, P, C>(found, decrypt, parse, convert);
    match laws::stored(db, Entry::Message(thread, timestamp).slot()) {
        Some(value) => {
            assert(elements[0].1 == value);
            assert(comes_of(cipher, decrypt, parse, convert, value, results[0]));
            let met = choose|met: Decoding<K, P, C>| #[trigger]
                iter::is_decoding_of(cipher, value, met) && results[0] == decoded(
                    met,
                    decrypt,
                    parse,
                    convert,
                );
            law_walk_gives_what_a_lookup_gives(cipher, decrypt, parse, convert, value, met, found);
            assert forall|content: C|
                lookup == Ok::<Option<C>, SledStoreError>(Some(content)) <==> results
                    == #[trigger] seq![Ok::<C, SledStoreError>(content)] by {
                let just = seq![Ok::<C, SledStoreError>(content)];
                assert(just[0] == Ok::<C, SledStoreError>(content));
                if results[0] == Ok::<C, SledStoreError>(content) {
                    assert(results =~= just);
                }
            }
        },
        None => {
            assert forall|content: C| results != #[trigger] seq![
                Ok::<C, SledStoreError>(content),
            ] by {
                assert(seq![Ok::<C, SledStoreError>(content)].len() == 1);
            }
        },
    }
}

} // verus!
