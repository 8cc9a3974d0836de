//! What the store asks of its trees: which tree, which key, which value.

use std::sync::Arc;

use vstd::prelude::*;
use vstd::slice::slice_to_vec;
use vstd::string::StringExecFns;

use crate::error::SledStoreError;
use crate::iter::{
    Decoding, SledContactsIter, SledGroupsIter, SledMessagesIter, SledStickerPacksIter,
    SledThreadMetadataIter,
};
use crate::keys;
use crate::keys::{timestamp_key, Bound, KeyRange};
use crate::trees;
use crate::trees::{
    messages_thread_tree_name, Thread, SLED_TREE_CONTACTS, SLED_TREE_GROUPS,
    SLED_TREE_GROUP_AVATARS, SLED_TREE_PROFILES, SLED_TREE_PROFILE_AVATARS, SLED_TREE_PROFILE_KEYS,
    SLED_TREE_STICKER_PACKS, SLED_TREE_THREADS_METADATA,
};

verus! {

/// A place in the database: a tree and a key in it.
#[verifier::ext_equal]
pub struct Slot {
    pub tree: Seq<u8>,
    pub key: Seq<u8>,
}

/// What the store keeps. Profiles, their avatars and the metadata of conversations are named by
/// the key that the store derives for them.
pub enum Entry {
    Contact(Seq<u8>),
    Group(Seq<u8>),
    GroupAvatar(Seq<u8>),
    Message(Thread, u64),
    ProfileKey(Seq<u8>),
    Profile(Seq<u8>),
    ProfileAvatar(Seq<u8>),
    StickerPack(Seq<u8>),
    ThreadMetadata(Seq<u8>),
}

impl Entry {
    /// The name of the tree that the entry is kept in.
    pub open spec fn tree_name(self) -> Seq<char> {
        match self {
            Entry::Contact(_) => SLED_TREE_CONTACTS@,
            Entry::Group(_) => SLED_TREE_GROUPS@,
            Entry::GroupAvatar(_) => SLED_TREE_GROUP_AVATARS@,
            Entry::Message(thread, _) => thread.tree_name(),
            Entry::ProfileKey(_) => SLED_TREE_PROFILE_KEYS@,
            Entry::Profile(_) => SLED_TREE_PROFILES@,
            Entry::ProfileAvatar(_) => SLED_TREE_PROFILE_AVATARS@,
            Entry::StickerPack(_) => SLED_TREE_STICKER_PACKS@,
            Entry::ThreadMetadata(_) => SLED_TREE_THREADS_METADATA@,
        }
    }

    /// The key that the entry is kept under.
    pub open spec fn key(self) -> Seq<u8> {
        match self {
            Entry::Contact(uuid) => uuid,
            Entry::Group(master_key) => master_key,
            Entry::GroupAvatar(master_key) => master_key,
            Entry::Message(_, timestamp) => keys::big_endian(timestamp),
            Entry::ProfileKey(uuid) => uuid,
            Entry::Profile(key) => key,
            Entry::ProfileAvatar(key) => key,
            Entry::StickerPack(id) => id,
            Entry::ThreadMetadata(key) => key,
        }
    }

    /// Where the entry is kept.
    pub open spec fn slot(self) -> Slot {
        Slot { tree: trees::tree_id(self.tree_name()), key: self.key() }
    }
}

/// To put a value under a key of a tree, in place of what is there.
pub struct Insert<V> {
    pub tree: String,
    pub key: Vec<u8>,
    pub value: V,
}

impl<V> Insert<V> {
    pub open spec fn slot(self) -> Slot {
        Slot { tree: trees::tree_id(self.tree@), key: self.key@ }
    }

    /// Whether this puts `value` where `entry` is kept.
    pub open spec fn writes(self, entry: Entry, value: V) -> bool {
        &&& self.tree@ == entry.tree_name()
        &&& self.key@ == entry.key()
        &&& self.value == value
    }
}

/// To read what is under a key of a tree.
pub struct Get {
    pub tree: String,
    pub key: Vec<u8>,
}

impl Get {
    pub open spec fn slot(self) -> Slot {
        Slot { tree: trees::tree_id(self.tree@), key: self.key@ }
    }

    /// Whether this reads where `entry` is kept.
    pub open spec fn reads(self, entry: Entry) -> bool {
        &&& self.tree@ == entry.tree_name()
        &&& self.key@ == entry.key()
    }
}

/// To remove what is under a key of a tree.
pub struct Remove {
    pub tree: String,
    pub key: Vec<u8>,
}

impl Remove {
    pub open spec fn slot(self) -> Slot {
        Slot { tree: trees::tree_id(self.tree@), key: self.key@ }
    }

    /// Whether this removes what is kept as `entry`.
    pub open spec fn removes(self, entry: Entry) -> bool {
        &&& self.tree@ == entry.tree_name()
        &&& self.key@ == entry.key()
    }
}

/// To walk over the keys of a tree that lie in a range.
pub struct Scan {
    pub tree: String,
    pub range: KeyRange,
}

impl Scan {
    /// Whether this walks over all of the tree with a name.
    pub open spec fn walks_all_of(self, tree: Seq<char>) -> bool {
        &&& self.tree@ == tree
        &&& self.range.start is Unbounded
        &&& self.range.end is Unbounded
    }

    /// Whether this walks over the messages of a conversation whose timestamps lie between two
    /// bounds.
    pub open spec fn walks_messages(
        self,
        thread: Thread,
        start: Bound<u64>,
        end: Bound<u64>,
    ) -> bool {
        &&& self.tree@ == thread.tree_name()
        &&& keys::is_key_bound(self.range.start, start)
        &&& keys::is_key_bound(self.range.end, end)
    }
}

/// The store, as far as it decides: whether its values are encrypted, and with what.
pub struct SledStore<K> {
    pub cipher: Option<Arc<K>>,
}

/// A request to put a value under a key of a tree.
fn insert<V>(tree: &str, key: &[u8], value: V) -> (request: Insert<V>)
    ensures
        request.tree@ == tree@,
        request.key@ == key@,
        request.value == value,
{
    Insert { tree: String::from_str(tree), key: slice_to_vec(key), value }
}

/// A request to read what is under a key of a tree.
fn get(tree: &str, key: &[u8]) -> (request: Get)
    ensures
        request.tree@ == tree@,
        request.key@ == key@,
{
    Get { tree: String::from_str(tree), key: slice_to_vec(key) }
}

/// A request to remove what is under a key of a tree.
fn remove(tree: &str, key: &[u8]) -> (request: Remove)
    ensures
        request.tree@ == tree@,
        request.key@ == key@,
{
    Remove { tree: String::from_str(tree), key: slice_to_vec(key) }
}

/// A request to walk over all of a tree.
fn scan(tree: &str) -> (request: Scan)
    ensures
        request.walks_all_of(tree@),
{
    Scan { tree: String::from_str(tree), range: KeyRange::all() }
}

/// What saving gives, once the database has answered: whether something was replaced is not told.
pub fn saved(replaced: Result<bool, SledStoreError>) -> (done: Result<(), SledStoreError>)
    ensures
        done == match replaced {
            Ok(_) => Ok::<(), SledStoreError>(()),
            Err(e) => Err(e),
        },
{
    match replaced {
        Ok(_) => Ok(()),
        Err(e) => Err(e),
    }
}

/// What the database's answer tells, where it gives back what was kept at a place before: whether
/// there was something, or its failure.
pub open spec fn told(previous: Result<Option<Vec<u8>>, sled::Error>) -> Result<
    bool,
    SledStoreError,
> {
    match previous {
        Ok(value) => Ok(value is Some),
        Err(e) => Err(SledStoreError::Db(e)),
    }
}

/// What removing gives, once the database has answered: whether something was removed.
pub fn removed(previous: Result<Option<Vec<u8>>, sled::Error>) -> (answer: Result<
    bool,
    SledStoreError,
>)
    ensures
        answer == told(previous),
{
    match previous {
        Ok(value) => Ok(value.is_some()),
        Err(e) => Err(SledStoreError::from(e)),
    }
}

/// What putting a value at a place gives, once the database has answered: whether something was
/// replaced.
pub fn replaced(previous: Result<Option<Vec<u8>>, sled::Error>) -> (answer: Result<
    bool,
    SledStoreError,
>)
    ensures
        answer == told(previous),
{
    match previous {
        Ok(value) => Ok(value.is_some()),
        Err(e) => Err(SledStoreError::from(e)),
    }
}

impl<K> SledStore<K> {
    /// Another handle on the cipher.
    fn shared_cipher(&self) -> (cipher: Option<Arc<K>>)
        ensures
            cipher == self.cipher,
    {
        match &self.cipher {
            Some(cipher) => Some(Arc::clone(cipher)),
            None => None,
        }
    }

    /// To save a contact under its UUID.
    pub fn save_contact<C>(&self, uuid: &[u8; 16], contact: C) -> (request: Insert<C>)
        ensures
            request.writes(Entry::Contact(uuid@), contact),
    {
        insert(SLED_TREE_CONTACTS, uuid.as_slice(), contact)
    }

    /// To walk over all contacts.
    pub fn contacts(&self) -> (request: Scan)
        ensures
            request.walks_all_of(SLED_TREE_CONTACTS@),
    {
        scan(SLED_TREE_CONTACTS)
    }

    /// The walk, once the database has opened the tree and given a cursor.
    pub fn contacts_opened<I>(&self, opened: Result<I, sled::Error>) -> (walk: Result<
        SledContactsIter<I, K>,
        SledStoreError,
    >)
        ensures
            walk == match opened {
                Ok(iter) => Ok(SledContactsIter { cipher: self.cipher, iter }),
                Err(e) => Err(SledStoreError::Db(e)),
            },
    {
        match opened {
            Ok(iter) => Ok(SledContactsIter { cipher: self.shared_cipher(), iter }),
            Err(e) => Err(SledStoreError::from(e)),
        }
    }

    /// To read the contact with a UUID.
    pub fn contact_by_id(&self, id: &[u8; 16]) -> (request: Get)
        ensures
            request.reads(Entry::Contact(id@)),
    {
        get(SLED_TREE_CONTACTS, id.as_slice())
    }

    /// To walk over all groups.
    pub fn groups(&self) -> (request: Scan)
        ensures
            request.walks_all_of(SLED_TREE_GROUPS@),
    {
        scan(SLED_TREE_GROUPS)
    }

    /// The walk, once the database has opened the tree and given a cursor.
    pub fn groups_opened<I>(&self, opened: Result<I, sled::Error>) -> (walk: Result<
        SledGroupsIter<I, K>,
        SledStoreError,
    >)
        ensures
            walk == match opened {
                Ok(iter) => Ok(SledGroupsIter { cipher: self.cipher, iter }),
                Err(e) => Err(SledStoreError::Db(e)),
            },
    {
        match opened {
            Ok(iter) => Ok(SledGroupsIter { cipher: self.shared_cipher(), iter }),
            Err(e) => Err(SledStoreError::from(e)),
        }
    }

    /// To read the group with a master key.
    pub fn group(&self, master_key_bytes: &[u8; 32]) -> (request: Get)
        ensures
            request.reads(Entry::Group(master_key_bytes@)),
    {
        get(SLED_TREE_GROUPS, master_key_bytes.as_slice())
    }

    /// To save a group under its master key.
    pub fn save_group<G>(&self, master_key: &[u8; 32], group: G) -> (request: Insert<G>)
        ensures
            request.writes(Entry::Group(master_key@), group),
    {
        insert(SLED_TREE_GROUPS, master_key.as_slice(), group)
    }

    /// To read the avatar of the group with a master key.
    pub fn group_avatar(&self, master_key_bytes: &[u8; 32]) -> (request: Get)
        ensures
            request.reads(Entry::GroupAvatar(master_key_bytes@)),
    {
        get(SLED_TREE_GROUP_AVATARS, master_key_bytes.as_slice())
    }

    /// To save a group's avatar under the group's master key.
    pub fn save_group_avatar<A>(&self, master_key: &[u8; 32], avatar: A) -> (request: Insert<A>)
        ensures
            request.writes(Entry::GroupAvatar(master_key@), avatar),
    {
        insert(SLED_TREE_GROUP_AVATARS, master_key.as_slice(), avatar)
    }

    /// To save a message, in its protobuf form, under its timestamp in its conversation.
    pub fn save_message(&self, thread: &Thread, timestamp: u64, message: Vec<u8>) -> (request:
        Insert<Vec<u8>>)
        ensures
            request.writes(Entry::Message(*thread, timestamp), message),
    {
        let tree = messages_thread_tree_name(thread);
        let key = timestamp_key(timestamp);
        insert(tree.as_str(), key.as_slice(), message)
    }

    /// To delete the message with a timestamp from a conversation.
    pub fn delete_message(&self, thread: &Thread, timestamp: u64) -> (request: Remove)
        ensures
            request.removes(Entry::Message(*thread, timestamp)),
    {
        let tree = messages_thread_tree_name(thread);
        let key = timestamp_key(timestamp);
        remove(tree.as_str(), key.as_slice())
    }

    /// To read the message with a timestamp in a conversation.
    pub fn message(&self, thread: &Thread, timestamp: u64) -> (request: Get)
        ensures
            request.reads(Entry::Message(*thread, timestamp)),
    {
        let tree = messages_thread_tree_name(thread);
        let key = timestamp_key(timestamp);
        get(tree.as_str(), key.as_slice())
    }

    /// What is to be done with the protobuf form that was found, if one was.
    pub fn message_found<P, C>(&self, found: Result<Option<Vec<u8>>, SledStoreError>) -> (decoding:
        Result<Option<Decoding<K, P, C>>, SledStoreError>)
        ensures
            decoding == match found {
                Ok(Some(message)) => Ok::<_, SledStoreError>(
                    Some(Decoding::<K, P, C>::Parse(message)),
                ),
                Ok(None) => Ok(None),
                Err(e) => Err(e),
            },
    {
        match found {
            Ok(Some(message)) => Ok(Some(Decoding::Parse(message))),
            Ok(None) => Ok(None),
            Err(e) => Err(e),
        }
    }

    /// What reading a message gives, once it has been decoded.
    pub fn message_decoded<C>(&self, decoded: Result<C, SledStoreError>) -> (content: Result<
        Option<C>,
        SledStoreError,
    >)
        ensures
            content == match decoded {
                Ok(content) => Ok::<_, SledStoreError>(Some(content)),
                Err(e) => Err(e),
            },
    {
        match decoded {
            Ok(content) => Ok(Some(content)),
            Err(e) => Err(e),
        }
    }

    /// To walk over the messages of a conversation whose timestamps lie between two bounds.
    pub fn messages(&self, thread: &Thread, start: Bound<u64>, end: Bound<u64>) -> (request: Scan)
        requires
            !(start is Excluded),
        ensures
            request.walks_messages(*thread, start, end),
            forall|timestamp: u64|
                request.range.covers(#[trigger] keys::big_endian(timestamp))
                    <==> keys::timestamp_between(start, end, timestamp),
    {
        let low = match start {
            Bound::Included(low) => Bound::Included(timestamp_key(low)),
            Bound::Excluded(low) => Bound::Excluded(timestamp_key(low)),
            Bound::Unbounded => Bound::Unbounded,
        };
        let high = match end {
            Bound::Included(high) => Bound::Included(timestamp_key(high)),
            Bound::Excluded(high) => Bound::Excluded(timestamp_key(high)),
            Bound::Unbounded => Bound::Unbounded,
        };
        let range = KeyRange { start: low, end: high };
        proof {
            assert forall|timestamp: u64|
                range.covers(#[trigger] keys::big_endian(timestamp)) <==> keys::timestamp_between(
                    start,
                    end,
                    timestamp,
                ) by {
                keys::law_range_of_keys_is_range_of_timestamps(start, end, range, timestamp);
            }
        }
        Scan { tree: messages_thread_tree_name(thread), range }
    }

    /// The walk, once the database has opened the tree and given a cursor.
    pub fn messages_opened<I>(&self, opened: Result<I, sled::Error>) -> (walk: Result<
        SledMessagesIter<I, K>,
        SledStoreError,
    >)
        ensures
            walk == match opened {
                Ok(iter) => Ok(SledMessagesIter { cipher: self.cipher, iter }),
                Err(e) => Err(SledStoreError::Db(e)),
            },
    {
        match opened {
            Ok(iter) => Ok(SledMessagesIter { cipher: self.shared_cipher(), iter }),
            Err(e) => Err(SledStoreError::from(e)),
        }
    }

    /// To save a profile key under the UUID it belongs to. The answer, whether one was replaced, is the result.
    pub fn upsert_profile_key<P>(&self, uuid: &[u8; 16], key: P) -> (request: Insert<P>)
        ensures
            request.writes(Entry::ProfileKey(uuid@), key),
    {
        insert(SLED_TREE_PROFILE_KEYS, uuid.as_slice(), key)
    }

    /// To read the profile key of a UUID.
    pub fn profile_key(&self, uuid: &[u8; 16]) -> (request: Get)
        ensures
            request.reads(Entry::ProfileKey(uuid@)),
    {
        get(SLED_TREE_PROFILE_KEYS, uuid.as_slice())
    }

    /// To save a profile under the key derived for it.
    pub fn save_profile<P>(&self, key: &[u8], profile: P) -> (request: Insert<P>)
        ensures
            request.writes(Entry::Profile(key@), profile),
    {
        insert(SLED_TREE_PROFILES, key, profile)
    }

    /// To read the profile under a derived key.
    pub fn profile(&self, key: &[u8]) -> (request: Get)
        ensures
            request.reads(Entry::Profile(key@)),
    {
        get(SLED_TREE_PROFILES, key)
    }

    /// To save a profile's avatar under the key derived for the profile.
    pub fn save_profile_avatar<A>(&self, key: &[u8], avatar: A) -> (request: Insert<A>)
        ensures
            request.writes(Entry::ProfileAvatar(key@), avatar),
    {
        insert(SLED_TREE_PROFILE_AVATARS, key, avatar)
    }

    /// To read the avatar of the profile under a derived key.
    pub fn profile_avatar(&self, key: &[u8]) -> (request: Get)
        ensures
            request.reads(Entry::ProfileAvatar(key@)),
    {
        get(SLED_TREE_PROFILE_AVATARS, key)
    }

    /// To save a sticker pack under its identifier.
    pub fn add_sticker_pack<P>(&self, id: &[u8], pack: P) -> (request: Insert<P>)
        ensures
            request.writes(Entry::StickerPack(id@), pack),
    {
        insert(SLED_TREE_STICKER_PACKS, id, pack)
    }

    /// To remove the sticker pack with an identifier.
    pub fn remove_sticker_pack(&self, id: &[u8]) -> (request: Remove)
        ensures
            request.removes(Entry::StickerPack(id@)),
    {
        remove(SLED_TREE_STICKER_PACKS, id)
    }

    /// To read the sticker pack with an identifier.
    pub fn sticker_pack(&self, id: &[u8]) -> (request: Get)
        ensures
            request.reads(Entry::StickerPack(id@)),
    {
        get(SLED_TREE_STICKER_PACKS, id)
    }

    /// To walk over all sticker packs.
    pub fn sticker_packs(&self) -> (request: Scan)
        ensures
            request.walks_all_of(SLED_TREE_STICKER_PACKS@),
    {
        scan(SLED_TREE_STICKER_PACKS)
    }

    /// The walk, once the database has opened the tree and given a cursor.
    pub fn sticker_packs_opened<I>(&self, opened: Result<I, sled::Error>) -> (walk: Result<
        SledStickerPacksIter<I, K>,
        SledStoreError,
    >)
        ensures
            walk == match opened {
                Ok(iter) => Ok(SledStickerPacksIter { cipher: self.cipher, iter }),
                Err(e) => Err(SledStoreError::Db(e)),
            },
    {
        match opened {
            Ok(iter) => Ok(SledStickerPacksIter { cipher: self.shared_cipher(), iter }),
            Err(e) => Err(SledStoreError::from(e)),
        }
    }

    /// To save a conversation's metadata under the key derived for it.
    pub fn save_thread_metadata<M>(&self, key: &[u8], metadata: M) -> (request: Insert<M>)
        ensures
            request.writes(Entry::ThreadMetadata(key@), metadata),
    {
        insert(SLED_TREE_THREADS_METADATA, key, metadata)
    }

    /// To read the metadata of a conversation under the key derived for it.
    pub fn thread_metadata(&self, key: &[u8]) -> (request: Get)
        ensures
            request.reads(Entry::ThreadMetadata(key@)),
    {
        get(SLED_TREE_THREADS_METADATA, key)
    }

    /// To walk over the metadata of all conversations.
    pub fn thread_metadatas(&self) -> (request: Scan)
        ensures
            request.walks_all_of(SLED_TREE_THREADS_METADATA@),
    {
        scan(SLED_TREE_THREADS_METADATA)
    }

    /// The walk, once the database has opened the tree and given a cursor.
    pub fn thread_metadatas_opened<I>(&self, opened: Result<I, sled::Error>) -> (walk: Result<
        SledThreadMetadataIter<I, K>,
        SledStoreError,
    >)
        ensures
            walk == match opened {
                Ok(iter) => Ok(SledThreadMetadataIter { cipher: self.cipher, iter }),
                Err(e) => Err(SledStoreError::Db(e)),
            },
    {
        match opened {
            Ok(iter) => Ok(SledThreadMetadataIter { cipher: self.shared_cipher(), iter }),
            Err(e) => Err(SledStoreError::from(e)),
        }
    }
}

} // verus!
