//! The names of the trees.

use vstd::prelude::*;
use vstd::string::StringExecFns;

use crate::encoding;
use crate::outside;

verus! {

pub const SLED_TREE_PROFILE_AVATARS: &'static str = "profile_avatars";

pub const SLED_TREE_PROFILE_KEYS: &'static str = "profile_keys";

pub const SLED_TREE_STICKER_PACKS: &'static str = "sticker_packs";

pub const SLED_TREE_CONTACTS: &'static str = "contacts";

pub const SLED_TREE_GROUP_AVATARS: &'static str = "group_avatars";

pub const SLED_TREE_GROUPS: &'static str = "groups";

pub const SLED_TREE_PROFILES: &'static str = "profiles";

pub const SLED_TREE_THREADS_PREFIX: &'static str = "threads";

pub const SLED_TREE_THREADS_METADATA: &'static str = "threads_metadata";

/// The bytes by which the database knows the tree with a name.
pub open spec fn tree_id(name: Seq<char>) -> Seq<u8> {
    vstd::utf8::encode_utf8(name)
}

/// A conversation: with one contact, named by its UUID, or with a group, named by its master key.
pub enum Thread {
    Contact([u8; 16]),
    Group([u8; 32]),
}

impl Thread {
    /// The text that names the conversation.
    pub open spec fn key_text(self) -> Seq<char> {
        match self {
            Thread::Contact(uuid) => SLED_TREE_THREADS_PREFIX@ + ":contact:"@ + encoding::uuid_text(uuid@),
            Thread::Group(group_id) => SLED_TREE_THREADS_PREFIX@ + ":group:"@ + encoding::base64_text(
                group_id@,
            ),
        }
    }

    /// The name of the tree that holds the conversation's messages.
    pub open spec fn tree_name(self) -> Seq<char> {
        hashed_tree_name(outside::sha256_digest(vstd::utf8::encode_utf8(self.key_text())))
    }
}

/// The name of the tree of messages for a digest.
pub open spec fn hashed_tree_name(digest: Seq<u8>) -> Seq<char> {
    SLED_TREE_THREADS_PREFIX@ + ":"@ + encoding::lower_hex(digest)
}

/// The text that names a conversation.
pub fn thread_key(t: &Thread) -> (key: String)
    ensures
        key@ == t.key_text(),
{
    let mut key = String::from_str(SLED_TREE_THREADS_PREFIX);
    match t {
        Thread::Contact(uuid) => {
            key.append(":contact:");
            key.append(outside::uuid_display(uuid).as_str());
        },
        Thread::Group(group_id) => {
            key.append(":group:");
            key.append(outside::base64_encode(group_id).as_str());
        },
    }
    key
}

/// The name of the tree of messages for a digest.
pub fn tree_name_of_digest(digest: &[u8]) -> (name: String)
    ensures
        name@ == hashed_tree_name(digest@),
{
    let mut name = String::from_str(SLED_TREE_THREADS_PREFIX);
    name.append(":");
    name.append(encoding::hex_text(digest).as_str());
    name
}

/// The name of the tree that holds a conversation's messages.
pub fn messages_thread_tree_name(t: &Thread) -> (name: String)
    ensures
        name@ == t.tree_name(),
        name@.len() == 72,
{
    proof {
        reveal_strlit("threads");
        reveal_strlit(":");
    }
    let key = thread_key(t);
    let digest = outside::sha256(key.as_str().as_bytes());
    tree_name_of_digest(digest.as_slice())
}

/// Whether a tree's name marks it as one that belongs to conversations.
pub open spec fn is_thread_tree(name: Seq<u8>) -> bool {
    tree_id(SLED_TREE_THREADS_PREFIX@).is_prefix_of(name)
}

/// Whether a tree's name begins as those of conversations do.
pub fn has_thread_prefix(name: &[u8]) -> (yes: bool)
    ensures
        yes == is_thread_tree(name@),
{
    let prefix = SLED_TREE_THREADS_PREFIX.as_bytes();
    if name.len() < prefix.len() {
        return false;
    }
    let mut i: usize = 0;
    while i < prefix.len()
        invariant
            i <= prefix@.len() <= name@.len(),
            prefix@.take(i as int) =~= name@.take(i as int),
            prefix@ == tree_id(SLED_TREE_THREADS_PREFIX@),
        decreases prefix@.len() - i,
    {
        if prefix[i] != name[i] {
            assert(prefix@[i as int] != name@.take(prefix@.len() as int)[i as int]);
            return false;
        }
        assert(prefix@.take(i + 1) =~= prefix@.take(i as int).push(prefix@[i as int]));
        assert(name@.take(i + 1) =~= name@.take(i as int).push(name@[i as int]));
        i = i + 1;
    }
    assert(prefix@.take(i as int) =~= prefix@);
    true
}

} // verus!
