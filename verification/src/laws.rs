//! What holds of the store as a whole, over a database that keeps named trees of keys and values.

use vstd::prelude::*;

use crate::clear;
use crate::clear::ClearingView;
use crate::encoding;
use crate::error::SledStoreError;
use crate::keys;
use crate::outside;
use crate::store;
use crate::store::{Entry, Get, Insert, Remove, Slot};
use crate::trees;
use crate::trees::Thread;

verus! {

/// A database: its trees by name, each a map from keys to values. A tree that is not there is as
/// good as an empty one, since to open it is to create it.
pub type Trees<V> = Map<Seq<u8>, Map<Seq<u8>, V>>;

/// What a tree holds.
pub open spec fn contents<V>(db: Trees<V>, tree: Seq<u8>) -> Map<Seq<u8>, V> {
    if db.contains_key(tree) {
        db[tree]
    } else {
        Map::empty()
    }
}

/// What is kept at a place.
pub open spec fn stored<V>(db: Trees<V>, slot: Slot) -> Option<V> {
    if contents(db, slot.tree).contains_key(slot.key) {
        Some(contents(db, slot.tree)[slot.key])
    } else {
        None
    }
}

/// The database after a value was put at a place.
pub open spec fn inserted<V>(db: Trees<V>, slot: Slot, value: V) -> Trees<V> {
    db.insert(slot.tree, contents(db, slot.tree).insert(slot.key, value))
}

/// The database after a place was emptied.
pub open spec fn removed<V>(db: Trees<V>, slot: Slot) -> Trees<V> {
    db.insert(slot.tree, contents(db, slot.tree).remove(slot.key))
}

/// Whether two conversations have the same digest, and so share a tree.
pub open spec fn digests_agree(t: Thread, u: Thread) -> bool {
    outside::sha256_digest(vstd::utf8::encode_utf8(t.key_text())) == outside::sha256_digest(
        vstd::utf8::encode_utf8(u.key_text()),
    )
}

/// Whether two entries are messages of two conversations that share a tree.
pub open spec fn collide(e: Entry, f: Entry) -> bool {
    match (e, f) {
        (Entry::Message(t, _), Entry::Message(u, _)) => t != u && digests_agree(t, u),
        _ => false,
    }
}

/// Whether two entries are of one kind.
pub open spec fn same_kind(e: Entry, f: Entry) -> bool {
    match e {
        Entry::Contact(_) => f is Contact,
        Entry::Group(_) => f is Group,
        Entry::GroupAvatar(_) => f is GroupAvatar,
        Entry::Message(..) => f is Message,
        Entry::ProfileKey(_) => f is ProfileKey,
        Entry::Profile(_) => f is Profile,
        Entry::ProfileAvatar(_) => f is ProfileAvatar,
        Entry::StickerPack(_) => f is StickerPack,
        Entry::ThreadMetadata(_) => f is ThreadMetadata,
    }
}

/// How the names of trees begin, and how long they are.
proof fn lemma_names_of_trees(e: Entry)
    ensures
        ({
            let name = e.tree_name();
            match e {
                Entry::Contact(_) => name.len() == 8 && name[0] == 'c',
                Entry::Group(_) => name.len() == 6 && name[0] == 'g',
                Entry::GroupAvatar(_) => name.len() == 13 && name[0] == 'g',
                Entry::Message(..) => name.len() > 7 && name[0] == 't' && name[7] == ':',
                Entry::ProfileKey(_) => name.len() == 12 && name[0] == 'p',
                Entry::Profile(_) => name.len() == 8 && name[0] == 'p',
                Entry::ProfileAvatar(_) => name.len() == 15 && name[0] == 'p',
                Entry::StickerPack(_) => name.len() == 13 && name[0] == 's',
                Entry::ThreadMetadata(_) => name.len() == 16 && name[0] == 't' && name[7] == '_',
            }
        }),
        e is Message || e is ThreadMetadata ==> trees::SLED_TREE_THREADS_PREFIX@.is_prefix_of(
            e.tree_name(),
        ),
        vstd::utf8::is_ascii_chars(e.tree_name()),
        vstd::utf8::is_ascii_chars(trees::SLED_TREE_THREADS_PREFIX@),
        trees::SLED_TREE_THREADS_PREFIX@.len() == 7,
        trees::SLED_TREE_THREADS_PREFIX@[0] == 't',
{
    reveal_strlit("contacts");
    reveal_strlit("groups");
    reveal_strlit("group_avatars");
    reveal_strlit("profiles");
    reveal_strlit("profile_keys");
    reveal_strlit("profile_avatars");
    reveal_strlit("sticker_packs");
    reveal_strlit("threads");
    reveal_strlit("threads_metadata");
    reveal_strlit(":");
    match e {
        Entry::Message(thread, _) => {
            let digest = outside::sha256_digest(vstd::utf8::encode_utf8(thread.key_text()));
            encoding::lemma_lower_hex_is_ascii(digest);
        },
        _ => {},
    }
}

/// Different names have different identifiers.
proof fn lemma_tree_id_is_injective(a: Seq<char>, b: Seq<char>)
    requires
        trees::tree_id(a) == trees::tree_id(b),
    ensures
        a == b,
{
    vstd::utf8::encode_utf8_decode_utf8(a);
    vstd::utf8::encode_utf8_decode_utf8(b);
}

/// Different conversations have different texts, so that only a collision of digests can make them
/// share a tree.
pub proof fn law_threads_have_different_texts(t: Thread, u: Thread)
    requires
        t != u,
    ensures
        t.key_text() != u.key_text(),
        vstd::utf8::encode_utf8(t.key_text()) != vstd::utf8::encode_utf8(u.key_text()),
{
    reveal_strlit("threads");
    reveal_strlit(":contact:");
    reveal_strlit(":group:");
    if t.key_text() == u.key_text() {
        assert(t.key_text()[8] == u.key_text()[8]);
        match (t, u) {
            (Thread::Contact(a), Thread::Contact(b)) => {
                assert(t.key_text().skip(16) =~= encoding::uuid_text(a@));
                assert(u.key_text().skip(16) =~= encoding::uuid_text(b@));
                encoding::lemma_uuid_text_is_injective(a@, b@);
                assert(a =~= b);
            },
            (Thread::Group(a), Thread::Group(b)) => {
                assert(t.key_text().skip(14) =~= encoding::base64_text(a@));
                assert(u.key_text().skip(14) =~= encoding::base64_text(b@));
                encoding::lemma_base64_text_is_injective(a@, b@);
                assert(a =~= b);
            },
            _ => {},
        }
    }
    if vstd::utf8::encode_utf8(t.key_text()) == vstd::utf8::encode_utf8(u.key_text()) {
        lemma_tree_id_is_injective(t.key_text(), u.key_text());
    }
}

/// Two conversations have one tree exactly if their digests agree.
pub proof fn law_thread_trees_differ_as_digests_do(t: Thread, u: Thread)
    ensures
        t.tree_name() == u.tree_name() <==> digests_agree(t, u),
{
    let prefix = trees::SLED_TREE_THREADS_PREFIX@ + ":"@;
    let d = outside::sha256_digest(vstd::utf8::encode_utf8(t.key_text()));
    let e = outside::sha256_digest(vstd::utf8::encode_utf8(u.key_text()));
    if t.tree_name() == u.tree_name() {
        let n = prefix.len() as int;
        assert(t.tree_name().skip(n) =~= encoding::lower_hex(d));
        assert(u.tree_name().skip(n) =~= encoding::lower_hex(e));
        encoding::lemma_lower_hex_is_injective(d, e);
    }
}

/// Different entries are kept at different places, unless they are messages of two conversations
/// whose digests agree.
pub proof fn law_entries_are_kept_apart(e: Entry, f: Entry)
    requires
        e != f,
        !collide(e, f),
    ensures
        e.slot() != f.slot(),
{
    if e.slot() == f.slot() {
        lemma_tree_id_is_injective(e.tree_name(), f.tree_name());
        lemma_names_of_trees(e);
        lemma_names_of_trees(f);
        assert(same_kind(e, f));
        match (e, f) {
            (Entry::Message(t, a), Entry::Message(u, b)) => {
                law_thread_trees_differ_as_digests_do(t, u);
                keys::law_keys_differ_as_timestamps_do(a, b);
            },
            _ => {},
        }
    }
}

/// What was saved is read back.
pub proof fn law_saved_is_read_back<V>(
    db: Trees<V>,
    entry: Entry,
    value: V,
    save: Insert<V>,
    read: Get,
)
    requires
        save.writes(entry, value),
        read.reads(entry),
    ensures
        stored(inserted(db, save.slot(), save.value), read.slot()) == Some(value),
{
}

/// Saving leaves every other entry as it was.
pub proof fn law_saving_leaves_the_rest<V>(
    db: Trees<V>,
    entry: Entry,
    value: V,
    save: Insert<V>,
    other: Entry,
)
    requires
        save.writes(entry, value),
        entry != other,
        !collide(entry, other),
    ensures
        stored(inserted(db, save.slot(), save.value), other.slot()) == stored(db, other.slot()),
{
    law_entries_are_kept_apart(entry, other);
}

/// What was removed is there no more.
pub proof fn law_removed_is_gone<V>(db: Trees<V>, entry: Entry, remove: Remove, read: Get)
    requires
        remove.removes(entry),
        read.reads(entry),
    ensures
        stored(removed(db, remove.slot()), read.slot()) is None,
{
}

/// Removing leaves every other entry as it was.
pub proof fn law_removing_leaves_the_rest<V>(
    db: Trees<V>,
    entry: Entry,
    remove: Remove,
    other: Entry,
)
    requires
        remove.removes(entry),
        entry != other,
        !collide(entry, other),
    ensures
        stored(removed(db, remove.slot()), other.slot()) == stored(db, other.slot()),
{
    law_entries_are_kept_apart(entry, other);
}

/// Removing tells whether there was something to remove; removing once more tells that there was
/// not. `previous` and `again` are what the database gives back, the values kept before.
pub proof fn law_removing_tells_what_was_there(
    db: Trees<Vec<u8>>,
    entry: Entry,
    remove: Remove,
    previous: Option<Vec<u8>>,
    again: Option<Vec<u8>>,
)
    requires
        remove.removes(entry),
        previous == stored(db, remove.slot()),
        again == stored(removed(db, remove.slot()), remove.slot()),
    ensures
        store::told(Ok(previous)) == Ok::<bool, SledStoreError>(stored(db, entry.slot()) is Some),
        store::told(Ok(again)) == Ok::<bool, SledStoreError>(false),
{
}

/// Putting a value at a place tells whether there was something before; putting one there once more
/// tells that there was. `kept` is the form in which the database keeps the value, `previous` and
/// `again` are what it gives back, the values kept before.
pub proof fn law_saving_tells_what_was_there<V>(
    db: Trees<Vec<u8>>,
    entry: Entry,
    value: V,
    save: Insert<V>,
    kept: Vec<u8>,
    previous: Option<Vec<u8>>,
    again: Option<Vec<u8>>,
)
    requires
        save.writes(entry, value),
        previous == stored(db, save.slot()),
        again == stored(inserted(db, save.slot(), kept), save.slot()),
    ensures
        store::told(Ok(previous)) == Ok::<bool, SledStoreError>(stored(db, entry.slot()) is Some),
        store::told(Ok(again)) == Ok::<bool, SledStoreError>(true),
{
}

/// To remove what was just saved at a free place leaves every tree with what it held before.
pub proof fn law_removing_undoes_saving<V>(
    db: Trees<V>,
    entry: Entry,
    value: V,
    save: Insert<V>,
    remove: Remove,
    tree: Seq<u8>,
)
    requires
        save.writes(entry, value),
        remove.removes(entry),
        stored(db, entry.slot()) is None,
    ensures
        contents(removed(inserted(db, save.slot(), save.value), remove.slot()), tree) == contents(
            db,
            tree,
        ),
{
    let after = removed(inserted(db, save.slot(), save.value), remove.slot());
    assert(contents(after, tree) =~= contents(db, tree));
}

/// Deleting a message tells whether it was there, leaves none at its timestamp, and leaves all else
/// as it was: the other messages of the conversation, the other conversations but for one whose
/// digest agrees, and every other entry. Deleting it once more tells that it was not there.
pub proof fn law_delete_message(
    db: Trees<Vec<u8>>,
    thread: Thread,
    timestamp: u64,
    remove: Remove,
    previous: Option<Vec<u8>>,
    again: Option<Vec<u8>>,
    other: Entry,
)
    requires
        remove.removes(Entry::Message(thread, timestamp)),
        previous == stored(db, remove.slot()),
        again == stored(removed(db, remove.slot()), remove.slot()),
    ensures
        ({
            let entry = Entry::Message(thread, timestamp);
            let after = removed(db, remove.slot());
            &&& store::told(Ok(previous)) == Ok::<bool, SledStoreError>(
                stored(db, entry.slot()) is Some,
            )
            &&& store::told(Ok(again)) == Ok::<bool, SledStoreError>(false)
            &&& stored(after, entry.slot()) is None
            &&& other != entry && !collide(entry, other) ==> stored(after, other.slot()) == stored(
                db,
                other.slot(),
            )
        }),
{
    let entry = Entry::Message(thread, timestamp);
    law_removing_tells_what_was_there(db, entry, remove, previous, again);
    if other != entry && !collide(entry, other) {
        law_removing_leaves_the_rest(db, entry, remove, other);
    }
}

/// Removing a sticker pack tells whether it was there, leaves none under its identifier, and leaves
/// every other entry as it was, the other packs among them. Removing it once more tells that it was
/// not there.
pub proof fn law_remove_sticker_pack(
    db: Trees<Vec<u8>>,
    id: Seq<u8>,
    remove: Remove,
    previous: Option<Vec<u8>>,
    again: Option<Vec<u8>>,
    other: Entry,
)
    requires
        remove.removes(Entry::StickerPack(id)),
        previous == stored(db, remove.slot()),
        again == stored(removed(db, remove.slot()), remove.slot()),
    ensures
        ({
            let entry = Entry::StickerPack(id);
            let after = removed(db, remove.slot());
            &&& store::told(Ok(previous)) == Ok::<bool, SledStoreError>(
                stored(db, entry.slot()) is Some,
            )
            &&& store::told(Ok(again)) == Ok::<bool, SledStoreError>(false)
            &&& stored(after, entry.slot()) is None
            &&& other != entry ==> stored(after, other.slot()) == stored(db, other.slot())
        }),
{
    let entry = Entry::StickerPack(id);
    law_removing_tells_what_was_there(db, entry, remove, previous, again);
    if other != entry {
        law_removing_leaves_the_rest(db, entry, remove, other);
    }
}

/// The database after clearing has run to its end without a failure, where `names` is how the
/// database listed its trees when it was asked to.
pub open spec fn cleared<V>(
    clearing: ClearingView,
    db: Trees<V>,
    names: Seq<Seq<u8>>,
) -> Trees<V>
    decreases
            if clearing.sweep {
                1int
            } else {
                0
            },
            clearing.drops.len(),
            if clearing.flush {
                1int
            } else {
                0
            },
{
    if clearing.drops.len() > 0 {
        cleared(clearing.after_drop(), db.remove(clearing.drops[0]), names)
    } else if clearing.sweep {
        cleared(clearing.after_listing(names), db, names)
    } else if clearing.flush {
        cleared(clearing.after_flush(), db, names)
    } else {
        db
    }
}

/// Whether `names` lists the trees that a database has once clearing has dropped the trees it
/// names itself.
pub open spec fn lists_the_rest<V>(
    clearing: ClearingView,
    db: Trees<V>,
    names: Seq<Seq<u8>>,
) -> bool {
    forall|name: Seq<u8>| #[trigger]
        names.contains(name) <==> db.contains_key(name) && !clearing.drops.contains(name)
}

/// Whether clearing drops a tree.
pub open spec fn drops_tree(clearing: ClearingView, tree: Seq<u8>) -> bool {
    clearing.drops.contains(tree) || (clearing.sweep && trees::is_thread_tree(tree))
}

/// Clearing drops the trees it names and, if it sweeps, all that belong to conversations; every
/// other tree is as it was.
pub proof fn law_clearing_drops_its_trees_alone<V>(
    clearing: ClearingView,
    db: Trees<V>,
    names: Seq<Seq<u8>>,
    tree: Seq<u8>,
)
    requires
        clearing.sweep ==> lists_the_rest(clearing, db, names),
    ensures
        cleared(clearing, db, names).contains_key(tree) <==> db.contains_key(tree) && !drops_tree(
            clearing,
            tree,
        ),
        !drops_tree(clearing, tree) ==> contents(cleared(clearing, db, names), tree) == contents(
            db,
            tree,
        ),
    decreases
            if clearing.sweep {
                1int
            } else {
                0
            },
            clearing.drops.len(),
            if clearing.flush {
                1int
            } else {
                0
            },
{
    let drops = clearing.drops;
    if drops.len() > 0 {
        let next = clearing.after_drop();
        let rest = db.remove(drops[0]);
        assert forall|name: Seq<u8>| #[trigger]
            drops.contains(name) <==> name == drops[0] || next.drops.contains(name) by {
            if drops.contains(name) && name != drops[0] {
                let i = choose|i: int| 0 <= i < drops.len() && drops[i] == name;
                assert(next.drops[i - 1] == name);
            }
            if next.drops.contains(name) {
                let i = choose|i: int| 0 <= i < next.drops.len() && next.drops[i] == name;
                assert(drops[i + 1] == name);
            }
        }
        law_clearing_drops_its_trees_alone(next, rest, names, tree);
    } else if clearing.sweep {
        let next = clearing.after_listing(names);
        lemma_thread_trees(names, tree);
        law_clearing_drops_its_trees_alone(next, db, names, tree);
    } else if clearing.flush {
        law_clearing_drops_its_trees_alone(clearing.after_flush(), db, names, tree);
    }
}

proof fn lemma_thread_trees(names: Seq<Seq<u8>>, name: Seq<u8>)
    ensures
        clear::thread_trees(names).contains(name) <==> names.contains(name) && trees::is_thread_tree(name),
{
    let belongs = |name: Seq<u8>| trees::is_thread_tree(name);
    let kept = names.filter(belongs);
    if kept.contains(name) {
        names.lemma_filter_contains_rev(belongs, name);
        let i = choose|i: int| 0 <= i < kept.len() && kept[i] == name;
        names.lemma_filter_pred(belongs, i);
    }
    if names.contains(name) && trees::is_thread_tree(name) {
        let i = choose|i: int| 0 <= i < names.len() && names[i] == name;
        names.lemma_filter_contains(belongs, i);
    }
}

/// A thing that clearing asks of the database.
pub enum Asked {
    Drop(Seq<u8>),
    List,
    Flush,
}

/// All that clearing asks of the database, in order, where nothing fails and the trees are listed
/// as `names`.
pub open spec fn asked(clearing: ClearingView, names: Seq<Seq<u8>>) -> Seq<Asked> {
    let named = clearing.drops.map_values(|name: Seq<u8>| Asked::Drop(name));
    let swept = clear::thread_trees(names).map_values(|name: Seq<u8>| Asked::Drop(name));
    named + (if clearing.sweep {
        seq![Asked::List] + swept
    } else {
        Seq::empty()
    }) + (if clearing.flush {
        seq![Asked::Flush]
    } else {
        Seq::empty()
    })
}

/// Clearing asks for one thing after the other: the trees it names, then the list of trees and
/// those in it that belong to conversations, then the flush.
pub proof fn law_clearing_asks_in_order(clearing: ClearingView, names: Seq<Seq<u8>>)
    ensures
        clearing.drops.len() > 0 ==> asked(clearing, names) == seq![Asked::Drop(clearing.drops[0])]
            + asked(clearing.after_drop(), names),
        clearing.drops.len() == 0 && clearing.sweep ==> asked(clearing, names) == seq![Asked::List]
            + asked(clearing.after_listing(names), names),
        clearing.drops.len() == 0 && !clearing.sweep && clearing.flush ==> asked(clearing, names)
            == seq![Asked::Flush] + asked(clearing.after_flush(), names),
        clearing.drops.len() == 0 && !clearing.sweep && !clearing.flush ==> asked(clearing, names)
            == Seq::<Asked>::empty(),
{
    if clearing.drops.len() > 0 {
        assert(asked(clearing, names) =~= seq![Asked::Drop(clearing.drops[0])] + asked(
            clearing.after_drop(),
            names,
        ));
    } else if clearing.sweep {
        assert(asked(clearing, names) =~= seq![Asked::List] + asked(
            clearing.after_listing(names),
            names,
        ));
    } else if clearing.flush {
        assert(asked(clearing, names) =~= seq![Asked::Flush] + asked(
            clearing.after_flush(),
            names,
        ));
    } else {
        assert(asked(clearing, names) =~= Seq::<Asked>::empty());
    }
}

/// What is left to clear once the first `n` things asked for are done.
pub open spec fn advanced(clearing: ClearingView, names: Seq<Seq<u8>>, n: nat) -> ClearingView
    decreases n,
{
    if n == 0 {
        clearing
    } else {
        let m = (n - 1) as nat;
        if clearing.drops.len() > 0 {
            advanced(clearing.after_drop(), names, m)
        } else if clearing.sweep {
            advanced(clearing.after_listing(names), names, m)
        } else if clearing.flush {
            advanced(clearing.after_flush(), names, m)
        } else {
            clearing
        }
    }
}

/// The database after things asked of it were done, in order.
pub open spec fn performed<V>(db: Trees<V>, things: Seq<Asked>) -> Trees<V>
    decreases things.len(),
{
    if things.len() == 0 {
        db
    } else {
        let before = performed(db, things.drop_last());
        match things.last() {
            Asked::Drop(tree) => before.remove(tree),
            Asked::List | Asked::Flush => before,
        }
    }
}

/// Things done in order drop the trees that are among them; every other tree is as it was.
pub(crate) proof fn lemma_performed<V>(db: Trees<V>, things: Seq<Asked>, tree: Seq<u8>)
    ensures
        performed(db, things).contains_key(tree) <==> db.contains_key(tree) && !things.contains(
            Asked::Drop(tree),
        ),
        !things.contains(Asked::Drop(tree)) ==> contents(performed(db, things), tree) == contents(
            db,
            tree,
        ),
    decreases things.len(),
{
    if things.len() > 0 {
        let before = things.drop_last();
        lemma_performed(db, before, tree);
        let thing = Asked::Drop(tree);
        assert(things.contains(thing) <==> before.contains(thing) || things.last() == thing) by {
            if things.contains(thing) && things.last() != thing {
                let i = choose|i: int| 0 <= i < things.len() && things[i] == thing;
                assert(before[i] == thing);
            }
            if before.contains(thing) {
                let i = choose|i: int| 0 <= i < before.len() && before[i] == thing;
                assert(things[i] == thing);
            }
            if things.last() == thing {
                assert(things[things.len() - 1] == thing);
            }
        }
    }
}

/// The first thing may as well be done by itself.
proof fn lemma_performed_from_the_first<V>(db: Trees<V>, first: Asked, rest: Seq<Asked>)
    ensures
        performed(db, seq![first] + rest) == performed(performed(db, seq![first]), rest),
    decreases rest.len(),
{
    let things = seq![first] + rest;
    if rest.len() == 0 {
        assert(things =~= seq![first]);
    } else {
        assert(things.drop_last() =~= seq![first] + rest.drop_last());
        assert(things.last() == rest.last());
        lemma_performed_from_the_first(db, first, rest.drop_last());
    }
}

/// Clearing that fails leaves its work half done. Where the first `n` things it asked for were done
/// and the next one failed without effect, the trees dropped till then are gone and every other
/// tree is as it was; what it would still have asked for is the rest of what it asks for.
pub proof fn law_clearing_cut_short<V>(
    clearing: ClearingView,
    db: Trees<V>,
    names: Seq<Seq<u8>>,
    n: nat,
    tree: Seq<u8>,
)
    requires
        n <= asked(clearing, names).len(),
    ensures
        ({
            let done = asked(clearing, names).take(n as int);
            let left = performed(db, done);
            &&& left.contains_key(tree) <==> db.contains_key(tree) && !done.contains(
                Asked::Drop(tree),
            )
            &&& !done.contains(Asked::Drop(tree)) ==> contents(left, tree) == contents(db, tree)
            &&& done.contains(Asked::Drop(tree)) ==> contents(left, tree) == Map::<
                Seq<u8>,
                V,
            >::empty()
        }),
        asked(advanced(clearing, names, n), names) == asked(clearing, names).skip(n as int),
{
    lemma_performed(db, asked(clearing, names).take(n as int), tree);
    lemma_advanced(clearing, names, n);
}

proof fn lemma_advanced(clearing: ClearingView, names: Seq<Seq<u8>>, n: nat)
    requires
        n <= asked(clearing, names).len(),
    ensures
        asked(advanced(clearing, names, n), names) == asked(clearing, names).skip(n as int),
    decreases n,
{
    let all = asked(clearing, names);
    if n == 0 {
        assert(all.skip(0) =~= all);
    } else {
        let next = advanced(clearing, names, 1);
        reveal_with_fuel(advanced, 2);
        law_clearing_asks_in_order(clearing, names);
        assert(all =~= seq![all[0]] + asked(next, names));
        lemma_advanced(next, names, (n - 1) as nat);
        assert(all.skip(n as int) =~= asked(next, names).skip(n - 1));
    }
}

/// Clearing that runs to its end has done all that it asks for.
pub proof fn law_clearing_does_all_it_asks<V>(
    clearing: ClearingView,
    db: Trees<V>,
    names: Seq<Seq<u8>>,
)
    ensures
        cleared(clearing, db, names) == performed(db, asked(clearing, names)),
    decreases
            if clearing.sweep {
                1int
            } else {
                0
            },
            clearing.drops.len(),
            if clearing.flush {
                1int
            } else {
                0
            },
{
    law_clearing_asks_in_order(clearing, names);
    reveal_with_fuel(performed, 2);
    if clearing.drops.len() > 0 {
        let first = Asked::Drop(clearing.drops[0]);
        let next = clearing.after_drop();
        lemma_performed_from_the_first(db, first, asked(next, names));
        assert(seq![first].drop_last() =~= Seq::<Asked>::empty());
        law_clearing_does_all_it_asks(next, db.remove(clearing.drops[0]), names);
    } else if clearing.sweep {
        let next = clearing.after_listing(names);
        lemma_performed_from_the_first(db, Asked::List, asked(next, names));
        assert(seq![Asked::List].drop_last() =~= Seq::<Asked>::empty());
        law_clearing_does_all_it_asks(next, db, names);
    } else if clearing.flush {
        let next = clearing.after_flush();
        lemma_performed_from_the_first(db, Asked::Flush, asked(next, names));
        assert(seq![Asked::Flush].drop_last() =~= Seq::<Asked>::empty());
        law_clearing_does_all_it_asks(next, db, names);
    }
}

/// The trees that belong to conversations are those of messages and that of metadata.
pub proof fn law_thread_trees_hold_messages_and_metadata(entry: Entry)
    ensures
        trees::is_thread_tree(entry.slot().tree) <==> entry is Message || entry is ThreadMetadata,
{
    let prefix = trees::SLED_TREE_THREADS_PREFIX@;
    let name = entry.tree_name();
    lemma_names_of_trees(entry);
    vstd::utf8::is_ascii_chars_encode_utf8(prefix);
    vstd::utf8::is_ascii_chars_encode_utf8(name);
    let p = trees::tree_id(prefix);
    let t = trees::tree_id(name);
    if entry is Message || entry is ThreadMetadata {
        assert forall|i: int| 0 <= i < p.len() implies p[i] == t[i] by {
            assert(prefix[i] == name.subrange(0, prefix.len() as int)[i]);
        }
        assert(p =~= t.subrange(0, p.len() as int));
    } else if trees::is_thread_tree(t) {
        assert(p[0] == t.subrange(0, p.len() as int)[0]);
        assert(prefix[0] as u8 == name[0] as u8);
    }
}

/// What clearing leaves of an entry.
proof fn lemma_cleared_entry<V>(
    clearing: ClearingView,
    db: Trees<V>,
    names: Seq<Seq<u8>>,
    entry: Entry,
)
    requires
        clearing.sweep ==> lists_the_rest(clearing, db, names),
    ensures
        stored(cleared(clearing, db, names), entry.slot()) == if drops_tree(
            clearing,
            entry.slot().tree,
        ) {
            None
        } else {
            stored(db, entry.slot())
        },
{
    law_clearing_drops_its_trees_alone(clearing, db, names, entry.slot().tree);
}

/// An entry is kept in a tree with a fixed name exactly if it is of the kind kept there.
pub(crate) proof fn lemma_kept_in(entry: Entry, sample: Entry)
    ensures
        !(sample is Message) ==> (entry.slot().tree == trees::tree_id(sample.tree_name())
            <==> same_kind(entry, sample)),
{
    lemma_names_of_trees(entry);
    lemma_names_of_trees(sample);
    if entry.slot().tree == trees::tree_id(sample.tree_name()) {
        lemma_tree_id_is_injective(entry.tree_name(), sample.tree_name());
    }
}

/// Clearing the profiles leaves no profile, profile key or profile avatar, and all else.
pub proof fn law_clear_profiles<V>(db: Trees<V>, names: Seq<Seq<u8>>, entry: Entry)
    ensures
        stored(cleared(clear::profiles_clearing(), db, names), entry.slot()) == if entry is Profile
            || entry is ProfileKey || entry is ProfileAvatar {
            None
        } else {
            stored(db, entry.slot())
        },
{
    let clearing = clear::profiles_clearing();
    lemma_cleared_entry(clearing, db, names, entry);
    let key = Seq::<u8>::empty();
    lemma_kept_in(entry, Entry::Profile(key));
    lemma_kept_in(entry, Entry::ProfileKey(key));
    lemma_kept_in(entry, Entry::ProfileAvatar(key));
    assert(clearing.drops[0] == trees::tree_id(Entry::Profile(key).tree_name()));
    assert(clearing.drops[1] == trees::tree_id(Entry::ProfileKey(key).tree_name()));
    assert(clearing.drops[2] == trees::tree_id(Entry::ProfileAvatar(key).tree_name()));
}

/// Clearing the contents leaves no contact, group, message or metadata of a conversation, and all
/// else.
pub proof fn law_clear_contents<V>(db: Trees<V>, names: Seq<Seq<u8>>, entry: Entry)
    requires
        lists_the_rest(clear::contents_clearing(), db, names),
    ensures
        stored(cleared(clear::contents_clearing(), db, names), entry.slot()) == if entry is Contact
            || entry is Group || entry is Message || entry is ThreadMetadata {
            None
        } else {
            stored(db, entry.slot())
        },
{
    let clearing = clear::contents_clearing();
    lemma_cleared_entry(clearing, db, names, entry);
    law_thread_trees_hold_messages_and_metadata(entry);
    let key = Seq::<u8>::empty();
    lemma_kept_in(entry, Entry::Contact(key));
    lemma_kept_in(entry, Entry::Group(key));
    assert(clearing.drops[0] == trees::tree_id(Entry::Contact(key).tree_name()));
    assert(clearing.drops[1] == trees::tree_id(Entry::Group(key).tree_name()));
}

/// Clearing the contacts leaves no contact, and all else.
pub proof fn law_clear_contacts<V>(db: Trees<V>, names: Seq<Seq<u8>>, entry: Entry)
    ensures
        stored(cleared(clear::contacts_clearing(), db, names), entry.slot())
            == if entry is Contact {
            None
        } else {
            stored(db, entry.slot())
        },
{
    let clearing = clear::contacts_clearing();
    lemma_cleared_entry(clearing, db, names, entry);
    let key = Seq::<u8>::empty();
    lemma_kept_in(entry, Entry::Contact(key));
    assert(clearing.drops[0] == trees::tree_id(Entry::Contact(key).tree_name()));
}

/// Clearing the groups leaves no group, and all else, the groups' avatars among it.
pub proof fn law_clear_groups<V>(db: Trees<V>, names: Seq<Seq<u8>>, entry: Entry)
    ensures
        stored(cleared(clear::groups_clearing(), db, names), entry.slot()) == if entry is Group {
            None
        } else {
            stored(db, entry.slot())
        },
{
    let clearing = clear::groups_clearing();
    lemma_cleared_entry(clearing, db, names, entry);
    let key = Seq::<u8>::empty();
    lemma_kept_in(entry, Entry::Group(key));
    assert(clearing.drops[0] == trees::tree_id(Entry::Group(key).tree_name()));
}

/// Clearing the messages leaves no message of any conversation and none of their metadata, and all
/// else.
pub proof fn law_clear_messages<V>(db: Trees<V>, names: Seq<Seq<u8>>, entry: Entry)
    requires
        lists_the_rest(clear::messages_clearing(), db, names),
    ensures
        stored(cleared(clear::messages_clearing(), db, names), entry.slot()) == if entry is Message
            || entry is ThreadMetadata {
            None
        } else {
            stored(db, entry.slot())
        },
{
    lemma_cleared_entry(clear::messages_clearing(), db, names, entry);
    law_thread_trees_hold_messages_and_metadata(entry);
}

/// Clearing a conversation leaves no message of it, nor of one whose digest agrees with its own,
/// and all else.
pub proof fn law_clear_thread<V>(
    db: Trees<V>,
    names: Seq<Seq<u8>>,
    thread: Thread,
    entry: Entry,
)
    ensures
        stored(cleared(clear::thread_clearing(thread), db, names), entry.slot()) == match entry {
            Entry::Message(other, _) => if digests_agree(thread, other) {
                None
            } else {
                stored(db, entry.slot())
            },
            _ => stored(db, entry.slot()),
        },
{
    let clearing = clear::thread_clearing(thread);
    lemma_cleared_entry(clearing, db, names, entry);
    assert(clearing.drops[0] == trees::tree_id(thread.tree_name()));
    lemma_names_of_trees(entry);
    lemma_names_of_trees(Entry::Message(thread, 0));
    if entry.slot().tree == clearing.drops[0] {
        lemma_tree_id_is_injective(entry.tree_name(), thread.tree_name());
    }
    match entry {
        Entry::Message(other, _) => law_thread_trees_differ_as_digests_do(thread, other),
        _ => {},
    }
}

} // verus!
