//! What the operations do, told by what their calls take and give.
//!
//! Each law takes values that calls of the library's functions gave, and says how they relate to
//! what went into the calls, to the results of other calls, and to plain text and bytes.

use std::sync::Arc;

use vstd::prelude::*;

use crate::clear;
use crate::clear::{Action, Clearing, ClearingView, Event};
use crate::encoding;
use crate::encoding::hex_text;
use crate::error::{CipherError, SledStoreError};
use crate::iter::{
    start_reading, Decoding, Reading, SledContactsIter, SledGroupsIter, SledMessagesIter,
    SledStickerPacksIter, SledThreadMetadataIter,
};
use crate::keys::{timestamp_key, Bound, KeyRange};
use crate::laws;
use crate::laws::{Asked, Trees};
use crate::outside;
use crate::store;
use crate::store::{Get, Insert, Remove, Scan, SledStore};
use crate::trees;
use crate::trees::{
    has_thread_prefix, messages_thread_tree_name, thread_key, tree_name_of_digest, Thread,
};

verus! {

/// The first seven bytes of the names of trees that belong to conversations are `threads`.
proof fn lemma_thread_letters(name: Seq<u8>)
    ensures
        trees::is_thread_tree(name) <==> name.len() >= 7 && name.take(7) == seq![
            0x74u8,
            0x68,
            0x72,
            0x65,
            0x61,
            0x64,
            0x73,
        ],
{
    reveal_strlit("threads");
    let letters = vstd::utf8::encode_utf8("threads"@);
    vstd::utf8::is_ascii_chars_encode_utf8("threads"@);
    assert(letters =~= seq![0x74u8, 0x68, 0x72, 0x65, 0x61, 0x64, 0x73]);
    if name.len() >= 7 {
        assert(name.take(7) =~= name.subrange(0, 7));
    }
}

/// A tree belongs to conversations exactly if the first seven bytes of its name are the letters
/// `threads`.
pub proof fn law_thread_prefix_is_seven_letters(name: &[u8], yes: bool)
    requires
        call_ensures(has_thread_prefix, (name,), yes),
    ensures
        yes <==> name@.len() >= 7 && name@.take(7) == seq![
            0x74u8,
            0x68,
            0x72,
            0x65,
            0x61,
            0x64,
            0x73,
        ],
{
    lemma_thread_letters(name@);
}

/// Hexadecimal text has two digits for each byte, the high half first, from `0` to `f`.
pub proof fn law_hex_text_is_digits(bytes: &[u8], text: String)
    requires
        call_ensures(hex_text, (bytes,), text),
    ensures
        text@.len() == 2 * bytes@.len(),
        forall|i: int|
            0 <= i < bytes@.len() ==> {
                &&& text@[2 * i] == "0123456789abcdef"@[#[trigger] bytes@[i] as int / 16]
                &&& text@[2 * i + 1] == "0123456789abcdef"@[bytes@[i] as int % 16]
            },
{
    lemma_hex_digits(bytes@);
}

proof fn lemma_hex_digits(bytes: Seq<u8>)
    ensures
        encoding::lower_hex(bytes).len() == 2 * bytes.len(),
        forall|i: int|
            0 <= i < bytes.len() ==> {
                &&& encoding::lower_hex(bytes)[2 * i]
                    == "0123456789abcdef"@[#[trigger] bytes[i] as int / 16]
                &&& encoding::lower_hex(bytes)[2 * i + 1]
                    == "0123456789abcdef"@[bytes[i] as int % 16]
            },
{
    assert forall|i: int| 0 <= i < bytes.len() implies {
        &&& encoding::lower_hex(bytes)[2 * i] == "0123456789abcdef"@[#[trigger] bytes[i] as int / 16]
        &&& encoding::lower_hex(bytes)[2 * i + 1] == "0123456789abcdef"@[bytes[i] as int % 16]
    } by {
        assert(2 * i / 2 == i && (2 * i + 1) / 2 == i);
        assert(2 * i % 2 == 0 && (2 * i + 1) % 2 == 1);
        lemma_hex_digit(bytes[i] as int / 16);
        lemma_hex_digit(bytes[i] as int % 16);
    }
}

proof fn lemma_hex_digit(n: int)
    requires
        0 <= n < 16,
    ensures
        encoding::hex_digit(n) == "0123456789abcdef"@[n],
{
    reveal_strlit("0123456789abcdef");
}

/// The name of a tree of messages is `threads:` and the digest's hexadecimal digits.
pub proof fn law_tree_name_spells_the_digest(digest: &[u8], name: String)
    requires
        call_ensures(tree_name_of_digest, (digest,), name),
    ensures
        name@.len() == 8 + 2 * digest@.len(),
        name@.take(8) == "threads:"@,
        forall|i: int|
            0 <= i < digest@.len() ==> {
                &&& name@[8 + 2 * i] == "0123456789abcdef"@[#[trigger] digest@[i] as int / 16]
                &&& name@[8 + 2 * i + 1] == "0123456789abcdef"@[digest@[i] as int % 16]
            },
{
    lemma_hashed_name(digest@);
}

proof fn lemma_hashed_name(digest: Seq<u8>)
    ensures
        ({
            let name = trees::hashed_tree_name(digest);
            &&& name.len() == 8 + 2 * digest.len()
            &&& name.take(8) == "threads:"@
            &&& forall|i: int|
                0 <= i < digest.len() ==> {
                    &&& name[8 + 2 * i] == "0123456789abcdef"@[#[trigger] digest[i] as int / 16]
                    &&& name[8 + 2 * i + 1] == "0123456789abcdef"@[digest[i] as int % 16]
                }
        }),
{
    reveal_strlit("threads");
    reveal_strlit(":");
    reveal_strlit("threads:");
    lemma_hex_digits(digest);
    let name = trees::hashed_tree_name(digest);
    let hex = encoding::lower_hex(digest);
    assert(name.take(8) =~= "threads:"@);
    assert(forall|j: int| 0 <= j < hex.len() ==> name[8 + j] == #[trigger] hex[j]);
    assert forall|i: int| 0 <= i < digest.len() implies {
        &&& name[8 + 2 * i] == "0123456789abcdef"@[#[trigger] digest[i] as int / 16]
        &&& name[8 + 2 * i + 1] == "0123456789abcdef"@[digest[i] as int % 16]
    } by {
        assert(name[8 + 2 * i] == hex[2 * i]);
        assert(name[8 + (2 * i + 1)] == hex[2 * i + 1]);
    }
}

/// The name of the tree of a conversation's messages is `threads:` and the sixty-four hexadecimal
/// digits of the SHA-256 digest of the text that names the conversation.
pub proof fn law_messages_tree_is_named_by_the_digest_of_the_text(
    thread: &Thread,
    text: String,
    name: String,
)
    requires
        call_ensures(thread_key, (thread,), text),
        call_ensures(messages_thread_tree_name, (thread,), name),
    ensures
        ({
            let digest = outside::sha256_digest(vstd::utf8::encode_utf8(text@));
            &&& digest.len() == 32
            &&& name@.len() == 72
            &&& name@.take(8) == "threads:"@
            &&& forall|i: int|
                0 <= i < 32 ==> {
                    &&& name@[8 + 2 * i] == "0123456789abcdef"@[#[trigger] digest[i] as int / 16]
                    &&& name@[8 + 2 * i + 1] == "0123456789abcdef"@[digest[i] as int % 16]
                }
        }),
{
    lemma_hashed_name(outside::sha256_digest(vstd::utf8::encode_utf8(text@)));
}

/// The text of a conversation with a contact is `threads:contact:` and the UUID: its hexadecimal
/// digits in runs of eight, four, four, four and twelve, with hyphens between the runs.
pub proof fn law_contact_text_spells_the_uuid(uuid: [u8; 16], text: String)
    requires
        call_ensures(thread_key, (&Thread::Contact(uuid),), text),
    ensures
        text@.len() == 52,
        text@.take(16) == "threads:contact:"@,
        ({
            let t = text@.skip(16);
            let digits = t.take(8) + t.subrange(9, 13) + t.subrange(14, 18) + t.subrange(19, 23)
                + t.subrange(24, 36);
            &&& t[8] == '-' && t[13] == '-' && t[18] == '-' && t[23] == '-'
            &&& forall|i: int|
                0 <= i < 16 ==> {
                    &&& digits[2 * i] == "0123456789abcdef"@[#[trigger] uuid@[i] as int / 16]
                    &&& digits[2 * i + 1] == "0123456789abcdef"@[uuid@[i] as int % 16]
                }
        }),
{
    reveal_strlit("threads");
    reveal_strlit(":contact:");
    reveal_strlit("threads:contact:");
    let t = text@.skip(16);
    let b = uuid@;
    assert(text@.take(16) =~= "threads:contact:"@);
    assert(t =~= encoding::uuid_text(b));
    let digits = t.take(8) + t.subrange(9, 13) + t.subrange(14, 18) + t.subrange(19, 23)
        + t.subrange(24, 36);
    let runs = encoding::lower_hex(b.subrange(0, 4)) + encoding::lower_hex(b.subrange(4, 6))
        + encoding::lower_hex(b.subrange(6, 8)) + encoding::lower_hex(b.subrange(8, 10))
        + encoding::lower_hex(b.subrange(10, 16));
    assert(digits =~= runs);
    assert(runs =~= encoding::lower_hex(b)) by {
        assert forall|j: int| 0 <= j < 32 implies runs[j] == encoding::lower_hex(b)[j] by {
            assert(b.subrange(0, 4).len() == 4 && b.subrange(10, 16).len() == 6);
        }
    }
    lemma_hex_digits(b);
}

proof fn lemma_base64_symbol(n: int)
    requires
        0 <= n < 64,
    ensures
        encoding::base64_symbol(n)
            == "ABCDEFGHIJKLMNOPQRSTUVWXYZabcdefghijklmnopqrstuvwxyz0123456789+/"@[n],
{
    reveal_strlit("ABCDEFGHIJKLMNOPQRSTUVWXYZabcdefghijklmnopqrstuvwxyz0123456789+/");
}

/// The four symbols of the `k`th three bytes.
proof fn lemma_base64_of_three(bytes: Seq<u8>, k: int)
    requires
        0 <= k,
        3 * k + 2 < bytes.len(),
    ensures
        ({
            let symbols = "ABCDEFGHIJKLMNOPQRSTUVWXYZabcdefghijklmnopqrstuvwxyz0123456789+/"@;
            let t = encoding::base64_text(bytes);
            let (a, b, c) = (bytes[3 * k] as int, bytes[3 * k + 1] as int, bytes[3 * k + 2] as int);
            &&& t.len() >= 4 * k + 4
            &&& t[4 * k] == symbols[a / 4]
            &&& t[4 * k + 1] == symbols[a % 4 * 16 + b / 16]
            &&& t[4 * k + 2] == symbols[b % 16 * 4 + c / 64]
            &&& t[4 * k + 3] == symbols[c % 64]
        }),
    decreases k,
{
    let t = encoding::base64_text(bytes);
    if k == 0 {
        let (a, b, c) = (bytes[0] as int, bytes[1] as int, bytes[2] as int);
        lemma_base64_symbol(a / 4);
        lemma_base64_symbol(a % 4 * 16 + b / 16);
        lemma_base64_symbol(b % 16 * 4 + c / 64);
        lemma_base64_symbol(c % 64);
    } else {
        lemma_base64_of_three(bytes.skip(3), k - 1);
        let rest = encoding::base64_text(bytes.skip(3));
        assert(t.skip(4) =~= rest);
        assert(rest[4 * (k - 1)] == t[4 * k]);
        assert(rest[4 * (k - 1) + 1] == t[4 * k + 1]);
        assert(rest[4 * (k - 1) + 2] == t[4 * k + 2]);
        assert(rest[4 * (k - 1) + 3] == t[4 * k + 3]);
    }
}

/// The four symbols of the last two bytes, where there are two over.
proof fn lemma_base64_of_two(bytes: Seq<u8>, k: int)
    requires
        0 <= k,
        bytes.len() == 3 * k + 2,
    ensures
        ({
            let symbols = "ABCDEFGHIJKLMNOPQRSTUVWXYZabcdefghijklmnopqrstuvwxyz0123456789+/"@;
            let t = encoding::base64_text(bytes);
            let (a, b) = (bytes[3 * k] as int, bytes[3 * k + 1] as int);
            &&& t.len() == 4 * k + 4
            &&& t[4 * k] == symbols[a / 4]
            &&& t[4 * k + 1] == symbols[a % 4 * 16 + b / 16]
            &&& t[4 * k + 2] == symbols[b % 16 * 4]
            &&& t[4 * k + 3] == '='
        }),
    decreases k,
{
    let t = encoding::base64_text(bytes);
    if k == 0 {
        let (a, b) = (bytes[0] as int, bytes[1] as int);
        lemma_base64_symbol(a / 4);
        lemma_base64_symbol(a % 4 * 16 + b / 16);
        lemma_base64_symbol(b % 16 * 4);
    } else {
        lemma_base64_of_two(bytes.skip(3), k - 1);
        let rest = encoding::base64_text(bytes.skip(3));
        assert(t.skip(4) =~= rest);
        assert(rest[4 * (k - 1)] == t[4 * k]);
        assert(rest[4 * (k - 1) + 1] == t[4 * k + 1]);
        assert(rest[4 * (k - 1) + 2] == t[4 * k + 2]);
        assert(rest[4 * (k - 1) + 3] == t[4 * k + 3]);
    }
}

/// The text of a conversation with a group is `threads:group:` and the master key in base64: six
/// bits for each symbol of the standard alphabet, and one `=` at the end.
pub proof fn law_group_text_spells_the_master_key(group_id: [u8; 32], text: String)
    requires
        call_ensures(thread_key, (&Thread::Group(group_id),), text),
    ensures
        text@.len() == 58,
        text@.take(14) == "threads:group:"@,
        ({
            let symbols = "ABCDEFGHIJKLMNOPQRSTUVWXYZabcdefghijklmnopqrstuvwxyz0123456789+/"@;
            let t = text@.skip(14);
            let key = group_id@;
            &&& forall|k: int|
                0 <= k < 10 ==> {
                    &&& t[4 * k] == symbols[#[trigger] key[3 * k] as int / 4]
                    &&& t[4 * k + 1] == symbols[key[3 * k] as int % 4 * 16 + key[3 * k + 1] as int / 16]
                    &&& t[4 * k + 2] == symbols[key[3 * k + 1] as int % 16 * 4 + key[3 * k
                        + 2] as int / 64]
                    &&& t[4 * k + 3] == symbols[key[3 * k + 2] as int % 64]
                }
            &&& t[40] == symbols[key[30] as int / 4]
            &&& t[41] == symbols[key[30] as int % 4 * 16 + key[31] as int / 16]
            &&& t[42] == symbols[key[31] as int % 16 * 4]
            &&& t[43] == '='
        }),
{
    reveal_strlit("threads");
    reveal_strlit(":group:");
    reveal_strlit("threads:group:");
    let key = group_id@;
    let symbols = "ABCDEFGHIJKLMNOPQRSTUVWXYZabcdefghijklmnopqrstuvwxyz0123456789+/"@;
    lemma_base64_of_two(key, 10);
    assert(text@.take(14) =~= "threads:group:"@);
    let t = text@.skip(14);
    assert(t =~= encoding::base64_text(key));
    assert forall|k: int| 0 <= k < 10 implies {
        &&& t[4 * k] == symbols[#[trigger] key[3 * k] as int / 4]
        &&& t[4 * k + 1] == symbols[key[3 * k] as int % 4 * 16 + key[3 * k + 1] as int / 16]
        &&& t[4 * k + 2] == symbols[key[3 * k + 1] as int % 16 * 4 + key[3 * k + 2] as int / 64]
        &&& t[4 * k + 3] == symbols[key[3 * k + 2] as int % 64]
    } by {
        lemma_base64_of_three(key, k);
    }
}

/// The key of a message is its timestamp as a number of eight bytes, the most significant first.
pub proof fn law_key_is_the_timestamp_as_a_number(timestamp: u64, key: [u8; 8])
    requires
        call_ensures(timestamp_key, (timestamp,), key),
    ensures
        timestamp == key@[0] * 0x100_0000_0000_0000 + key@[1] * 0x1_0000_0000_0000 + key@[2]
            * 0x100_0000_0000 + key@[3] * 0x1_0000_0000 + key@[4] * 0x100_0000 + key@[5] * 0x1_0000
            + key@[6] * 0x100 + key@[7],
{
    lemma_bytes_of_number(timestamp);
    assert(key@ =~= crate::keys::big_endian(timestamp));
}

proof fn lemma_bytes_of_number(n: u64)
    ensures
        ({
            let k = crate::keys::big_endian(n);
            &&& k.len() == 8
            &&& n == k[0] * 0x100_0000_0000_0000 + k[1] * 0x1_0000_0000_0000 + k[2]
                * 0x100_0000_0000 + k[3] * 0x1_0000_0000 + k[4] * 0x100_0000 + k[5] * 0x1_0000
                + k[6] * 0x100 + k[7]
        }),
{
    let i = n as int;
    lemma_next_byte(i, 0x100);
    lemma_next_byte(i, 0x1_0000);
    lemma_next_byte(i, 0x100_0000);
    lemma_next_byte(i, 0x1_0000_0000);
    lemma_next_byte(i, 0x100_0000_0000);
    lemma_next_byte(i, 0x1_0000_0000_0000);
    lemma_number_of_bytes(
        i,
        i / 0x100,
        i / 0x1_0000,
        i / 0x100_0000,
        i / 0x1_0000_0000,
        i / 0x100_0000_0000,
        i / 0x1_0000_0000_0000,
        i / 0x100_0000_0000_0000,
    );
}

/// A quotient is made of the next quotient and a byte.
proof fn lemma_next_byte(n: int, w: int)
    requires
        0 <= n,
        0 < w,
    ensures
        n / w == 256 * (n / (w * 256)) + n / w % 256,
{
    vstd::arithmetic::div_mod::lemma_div_denominator(n, w, 256);
    let q = n / w;
    assert(q == 256 * (q / 256) + q % 256);
}

/// A number is made of the bytes that are left over as it is divided again and again.
proof fn lemma_number_of_bytes(
    n: int,
    a: int,
    b: int,
    c: int,
    d: int,
    e: int,
    f: int,
    g: int,
)
    requires
        a == n / 256,
        a == 256 * b + a % 256,
        b == 256 * c + b % 256,
        c == 256 * d + c % 256,
        d == 256 * e + d % 256,
        e == 256 * f + e % 256,
        f == 256 * g + f % 256,
    ensures
        n == g * 0x100_0000_0000_0000 + f % 256 * 0x1_0000_0000_0000 + e % 256 * 0x100_0000_0000 + d
            % 256 * 0x1_0000_0000 + c % 256 * 0x100_0000 + b % 256 * 0x1_0000 + a % 256 * 0x100 + n
            % 256,
{
}

/// The range of all keys has no ends.
pub proof fn law_range_of_all_keys_has_no_ends(range: KeyRange)
    requires
        call_ensures(KeyRange::all, (), range),
    ensures
        range.start is Unbounded,
        range.end is Unbounded,
{
}

/// A contact is saved, as it is, in the tree `contacts` under the sixteen bytes of its UUID; there
/// it is looked up, and the walk over the contacts goes over all of that tree.
pub proof fn law_contacts_are_kept_under_their_uuid<K, V>(
    store: SledStore<K>,
    other: SledStore<K>,
    key: [u8; 16],
    value: V,
    save: Insert<V>,
    read: Get,
    scan: Scan,
)
    requires
        call_ensures(SledStore::<K>::save_contact::<V>, (&store, &key, value), save),
        call_ensures(SledStore::<K>::contact_by_id, (&other, &key), read),
        call_ensures(SledStore::<K>::contacts, (&other,), scan),
    ensures
        save.tree@ == "contacts"@,
        save.key@ == key@,
        save.value == value,
        read.tree@ == "contacts"@,
        read.key@ == key@,
        scan.tree@ == "contacts"@,
        scan.range.start is Unbounded,
        scan.range.end is Unbounded,
{
}

/// A group is saved, as it is, in the tree `groups` under the thirty-two bytes of its master key;
/// there it is looked up, and the walk over the groups goes over all of that tree.
pub proof fn law_groups_are_kept_under_their_master_key<K, V>(
    store: SledStore<K>,
    other: SledStore<K>,
    key: [u8; 32],
    value: V,
    save: Insert<V>,
    read: Get,
    scan: Scan,
)
    requires
        call_ensures(SledStore::<K>::save_group::<V>, (&store, &key, value), save),
        call_ensures(SledStore::<K>::group, (&other, &key), read),
        call_ensures(SledStore::<K>::groups, (&other,), scan),
    ensures
        save.tree@ == "groups"@,
        save.key@ == key@,
        save.value == value,
        read.tree@ == "groups"@,
        read.key@ == key@,
        scan.tree@ == "groups"@,
        scan.range.start is Unbounded,
        scan.range.end is Unbounded,
{
}

/// A group's avatar is saved, as it is, in the tree `group_avatars` under the group's master key,
/// and looked up there.
pub proof fn law_group_avatars_are_kept_under_the_master_key<K, V>(
    store: SledStore<K>,
    other: SledStore<K>,
    key: [u8; 32],
    value: V,
    save: Insert<V>,
    read: Get,
)
    requires
        call_ensures(SledStore::<K>::save_group_avatar::<V>, (&store, &key, value), save),
        call_ensures(SledStore::<K>::group_avatar, (&other, &key), read),
    ensures
        save.tree@ == "group_avatars"@,
        save.key@ == key@,
        save.value == value,
        read.tree@ == "group_avatars"@,
        read.key@ == key@,
{
}

/// A profile key is saved, as it is, in the tree `profile_keys` under the sixteen bytes of the
/// UUID, and looked up there.
pub proof fn law_profile_keys_are_kept_under_the_uuid<K, V>(
    store: SledStore<K>,
    other: SledStore<K>,
    key: [u8; 16],
    value: V,
    save: Insert<V>,
    read: Get,
)
    requires
        call_ensures(SledStore::<K>::upsert_profile_key::<V>, (&store, &key, value), save),
        call_ensures(SledStore::<K>::profile_key, (&other, &key), read),
    ensures
        save.tree@ == "profile_keys"@,
        save.key@ == key@,
        save.value == value,
        read.tree@ == "profile_keys"@,
        read.key@ == key@,
{
}

/// A profile is saved, as it is, in the tree `profiles` under the key given for it, and looked up
/// there.
pub proof fn law_profiles_are_kept_under_their_key<K, V>(
    store: SledStore<K>,
    other: SledStore<K>,
    key: &[u8],
    value: V,
    save: Insert<V>,
    read: Get,
)
    requires
        call_ensures(SledStore::<K>::save_profile::<V>, (&store, key, value), save),
        call_ensures(SledStore::<K>::profile, (&other, key), read),
    ensures
        save.tree@ == "profiles"@,
        save.key@ == key@,
        save.value == value,
        read.tree@ == "profiles"@,
        read.key@ == key@,
{
}

/// A profile's avatar is saved, as it is, in the tree `profile_avatars` under the key given for it,
/// and looked up there.
pub proof fn law_profile_avatars_are_kept_under_their_key<K, V>(
    store: SledStore<K>,
    other: SledStore<K>,
    key: &[u8],
    value: V,
    save: Insert<V>,
    read: Get,
)
    requires
        call_ensures(SledStore::<K>::save_profile_avatar::<V>, (&store, key, value), save),
        call_ensures(SledStore::<K>::profile_avatar, (&other, key), read),
    ensures
        save.tree@ == "profile_avatars"@,
        save.key@ == key@,
        save.value == value,
        read.tree@ == "profile_avatars"@,
        read.key@ == key@,
{
}

/// A sticker pack is saved, as it is, in the tree `sticker_packs` under its identifier; there it is
/// looked up and removed, and the walk over the packs goes over all of that tree.
pub proof fn law_sticker_packs_are_kept_under_their_identifier<K, V>(
    store: SledStore<K>,
    other: SledStore<K>,
    key: &[u8],
    value: V,
    save: Insert<V>,
    read: Get,
    remove: Remove,
    scan: Scan,
)
    requires
        call_ensures(SledStore::<K>::add_sticker_pack::<V>, (&store, key, value), save),
        call_ensures(SledStore::<K>::sticker_pack, (&other, key), read),
        call_ensures(SledStore::<K>::remove_sticker_pack, (&other, key), remove),
        call_ensures(SledStore::<K>::sticker_packs, (&other,), scan),
    ensures
        save.tree@ == "sticker_packs"@,
        save.key@ == key@,
        save.value == value,
        read.tree@ == "sticker_packs"@,
        read.key@ == key@,
        remove.tree@ == "sticker_packs"@,
        remove.key@ == key@,
        scan.tree@ == "sticker_packs"@,
        scan.range.start is Unbounded,
        scan.range.end is Unbounded,
{
}

/// A conversation's metadata is saved, as it is, in the tree `threads_metadata` under the key given
/// for it; there it is looked up, and the walk over the metadata goes over all of that tree.
pub proof fn law_metadata_is_kept_under_its_key<K, V>(
    store: SledStore<K>,
    other: SledStore<K>,
    key: &[u8],
    value: V,
    save: Insert<V>,
    read: Get,
    scan: Scan,
)
    requires
        call_ensures(SledStore::<K>::save_thread_metadata::<V>, (&store, key, value), save),
        call_ensures(SledStore::<K>::thread_metadata, (&other, key), read),
        call_ensures(SledStore::<K>::thread_metadatas, (&other,), scan),
    ensures
        save.tree@ == "threads_metadata"@,
        save.key@ == key@,
        save.value == value,
        read.tree@ == "threads_metadata"@,
        read.key@ == key@,
        scan.tree@ == "threads_metadata"@,
        scan.range.start is Unbounded,
        scan.range.end is Unbounded,
{
}

/// A message is saved, looked up and deleted in one place: in the tree that the conversation's name
/// gives, under the timestamp as a number of eight bytes, the most significant first. It is saved
/// as it is.
pub proof fn law_messages_are_kept_under_their_timestamp<K>(
    store: SledStore<K>,
    other: SledStore<K>,
    thread: Thread,
    timestamp: u64,
    message: Vec<u8>,
    name: String,
    save: Insert<Vec<u8>>,
    read: Get,
    remove: Remove,
)
    requires
        call_ensures(messages_thread_tree_name, (&thread,), name),
        call_ensures(SledStore::<K>::save_message, (&store, &thread, timestamp, message), save),
        call_ensures(SledStore::<K>::message, (&other, &thread, timestamp), read),
        call_ensures(SledStore::<K>::delete_message, (&other, &thread, timestamp), remove),
    ensures
        save.tree@ == name@,
        read.tree@ == name@,
        remove.tree@ == name@,
        save.value == message,
        read.key@ == save.key@,
        remove.key@ == save.key@,
        ({
            let k = save.key@;
            &&& k.len() == 8
            &&& timestamp == k[0] * 0x100_0000_0000_0000 + k[1] * 0x1_0000_0000_0000 + k[2]
                * 0x100_0000_0000 + k[3] * 0x1_0000_0000 + k[4] * 0x100_0000 + k[5] * 0x1_0000
                + k[6] * 0x100 + k[7]
        }),
{
    lemma_bytes_of_number(timestamp);
}

/// A walk over messages goes over the tree in which the conversation's messages are saved, between
/// the keys under which messages at the bounds are saved: an included bound is included, an
/// excluded one excluded, and where there is no bound the range has none. It can be asked for with
/// any bounds but an excluded start.
pub proof fn law_walk_over_messages_lies_between_the_keys_of_its_bounds<K>(
    store: SledStore<K>,
    other: SledStore<K>,
    thread: Thread,
    start: Bound<u64>,
    end: Bound<u64>,
    timestamp: u64,
    message: Vec<u8>,
    save: Insert<Vec<u8>>,
    scan: Scan,
)
    requires
        call_ensures(SledStore::<K>::save_message, (&store, &thread, timestamp, message), save),
        call_ensures(SledStore::<K>::messages, (&other, &thread, start, end), scan),
    ensures
        !(start is Excluded) ==> call_requires(
            SledStore::<K>::messages,
            (&other, &thread, start, end),
        ),
        scan.tree@ == save.tree@,
        match start {
            Bound::Included(low) => scan.range.start matches Bound::Included(key) && (low
                == timestamp ==> key@ == save.key@),
            Bound::Excluded(low) => scan.range.start matches Bound::Excluded(key) && (low
                == timestamp ==> key@ == save.key@),
            Bound::Unbounded => scan.range.start is Unbounded,
        },
        match end {
            Bound::Included(high) => scan.range.end matches Bound::Included(key) && (high
                == timestamp ==> key@ == save.key@),
            Bound::Excluded(high) => scan.range.end matches Bound::Excluded(key) && (high
                == timestamp ==> key@ == save.key@),
            Bound::Unbounded => scan.range.end is Unbounded,
        },
{
}

/// A walk has the store's cipher and the cursor that the database gave; where the tree cannot be
/// opened, the database's failure is the error.
pub proof fn law_walks_have_the_cipher_and_the_cursor<K, I>(
    store: SledStore<K>,
    opened: Result<I, sled::Error>,
    contacts: Result<SledContactsIter<I, K>, SledStoreError>,
    groups: Result<SledGroupsIter<I, K>, SledStoreError>,
    messages: Result<SledMessagesIter<I, K>, SledStoreError>,
    packs: Result<SledStickerPacksIter<I, K>, SledStoreError>,
    metadata: Result<SledThreadMetadataIter<I, K>, SledStoreError>,
)
    requires
        call_ensures(SledStore::<K>::contacts_opened::<I>, (&store, opened), contacts),
        call_ensures(SledStore::<K>::groups_opened::<I>, (&store, opened), groups),
        call_ensures(SledStore::<K>::messages_opened::<I>, (&store, opened), messages),
        call_ensures(SledStore::<K>::sticker_packs_opened::<I>, (&store, opened), packs),
        call_ensures(SledStore::<K>::thread_metadatas_opened::<I>, (&store, opened), metadata),
    ensures
        match opened {
            Ok(iter) => {
                &&& contacts matches Ok(walk) && walk.cipher == store.cipher && walk.iter == iter
                &&& groups matches Ok(walk) && walk.cipher == store.cipher && walk.iter == iter
                &&& messages matches Ok(walk) && walk.cipher == store.cipher && walk.iter == iter
                &&& packs matches Ok(walk) && walk.cipher == store.cipher && walk.iter == iter
                &&& metadata matches Ok(walk) && walk.cipher == store.cipher && walk.iter == iter
            },
            Err(e) => {
                &&& contacts matches Err(SledStoreError::Db(failure)) && failure == e
                &&& groups matches Err(SledStoreError::Db(failure)) && failure == e
                &&& messages matches Err(SledStoreError::Db(failure)) && failure == e
                &&& packs matches Err(SledStoreError::Db(failure)) && failure == e
                &&& metadata matches Err(SledStoreError::Db(failure)) && failure == e
            },
        },
{
}

/// Removing and replacing answer whether the database gave something back, saving answers nothing,
/// and each fails with the failure it was handed.
pub proof fn law_answers_tell_what_the_database_gave_back(
    previous: Result<Option<Vec<u8>>, sled::Error>,
    answered: Result<bool, SledStoreError>,
    removal: Result<bool, SledStoreError>,
    replacement: Result<bool, SledStoreError>,
    done: Result<(), SledStoreError>,
)
    requires
        call_ensures(store::removed, (previous,), removal),
        call_ensures(store::replaced, (previous,), replacement),
        call_ensures(store::saved, (answered,), done),
    ensures
        match previous {
            Ok(Some(_)) => removal matches Ok(true) && replacement matches Ok(true),
            Ok(None) => removal matches Ok(false) && replacement matches Ok(false),
            Err(e) => {
                &&& removal matches Err(SledStoreError::Db(failure)) && failure == e
                &&& replacement matches Err(SledStoreError::Db(failure)) && failure == e
            },
        },
        match answered {
            Ok(_) => done is Ok,
            Err(e) => done matches Err(failure) && failure == e,
        },
{
}

/// Each failure from outside becomes the error of its own kind, and is kept in it.
pub proof fn law_errors_keep_what_failed(
    of_database: sled::Error,
    of_cipher: CipherError,
    of_json: serde_json::Error,
    of_protobuf: prost::DecodeError,
    database: SledStoreError,
    cipher: SledStoreError,
    json: SledStoreError,
    protobuf: SledStoreError,
)
    requires
        call_ensures(<SledStoreError as From<sled::Error>>::from, (of_database,), database),
        call_ensures(<SledStoreError as From<CipherError>>::from, (of_cipher,), cipher),
        call_ensures(<SledStoreError as From<serde_json::Error>>::from, (of_json,), json),
        call_ensures(<SledStoreError as From<prost::DecodeError>>::from, (of_protobuf,), protobuf),
    ensures
        database == SledStoreError::Db(of_database),
        cipher == SledStoreError::StoreCipher(of_cipher),
        json == SledStoreError::Json(of_json),
        protobuf == SledStoreError::ProtobufDecode(of_protobuf),
{
}

/// What comes of the reading of a value, where `decrypt` is what the cipher gives and `parse` what
/// the JSON parser gives for the bytes they are handed.
pub open spec fn outcome<K, T>(
    reading: Reading<K, T>,
    decrypt: spec_fn(Arc<K>, Seq<u8>) -> Result<T, CipherError>,
    parse: spec_fn(Seq<u8>) -> Result<T, serde_json::Error>,
) -> Result<T, SledStoreError> {
    match reading {
        Reading::Decrypt { cipher, value } => match decrypt(cipher, value@) {
            Ok(read) => Ok(read),
            Err(e) => Err(SledStoreError::StoreCipher(e)),
        },
        Reading::ParseJson(value) => match parse(value@) {
            Ok(read) => Ok(read),
            Err(e) => Err(SledStoreError::Json(e)),
        },
        Reading::Done(result) => result,
    }
}

/// To go on with what the cipher or the JSON parser gave does not change what comes of a reading.
pub proof fn law_stages_of_reading_keep_the_outcome<K, T>(
    decrypt: spec_fn(Arc<K>, Seq<u8>) -> Result<T, CipherError>,
    parse: spec_fn(Seq<u8>) -> Result<T, serde_json::Error>,
    cipher: Arc<K>,
    value: Vec<u8>,
    decrypted: Reading<K, T>,
    parsed: Reading<K, T>,
)
    requires
        call_ensures(Reading::<K, T>::decrypted, (decrypt(cipher, value@),), decrypted),
        call_ensures(Reading::<K, T>::parsed, (parse(value@),), parsed),
    ensures
        decrypted is Done,
        parsed is Done,
        outcome(decrypted, decrypt, parse) == outcome(
            Reading::<K, T>::Decrypt { cipher, value },
            decrypt,
            parse,
        ),
        outcome(parsed, decrypt, parse) == outcome(
            Reading::<K, T>::ParseJson(value),
            decrypt,
            parse,
        ),
{
}

/// A stored value of whatever type is read by handing exactly its bytes to the JSON parser where
/// there is no cipher, else to the cipher, and what that gives is the result, whatever it is.
pub proof fn law_stored_value_is_what_its_bytes_are_read_as<K, T>(
    cipher: Option<Arc<K>>,
    value: Vec<u8>,
    reading: Reading<K, T>,
    decrypt: spec_fn(Arc<K>, Seq<u8>) -> Result<T, CipherError>,
    parse: spec_fn(Seq<u8>) -> Result<T, serde_json::Error>,
)
    requires
        call_ensures(start_reading::<K, T>, (&cipher, value), reading),
    ensures
        match cipher {
            None => reading matches Reading::ParseJson(bytes) && bytes@ == value@,
            Some(key) => reading matches Reading::Decrypt { cipher, value: bytes } && cipher == key
                && bytes@ == value@,
        },
        match cipher {
            None => match parse(value@) {
                Ok(read) => outcome(reading, decrypt, parse) == Ok::<T, SledStoreError>(read),
                Err(e) => outcome(reading, decrypt, parse) == Err::<T, SledStoreError>(
                    SledStoreError::Json(e),
                ),
            },
            Some(key) => match decrypt(key, value@) {
                Ok(read) => outcome(reading, decrypt, parse) == Ok::<T, SledStoreError>(read),
                Err(e) => outcome(reading, decrypt, parse) == Err::<T, SledStoreError>(
                    SledStoreError::StoreCipher(e),
                ),
            },
        },
{
}

/// A walk over the contacts ends where the cursor ends and nowhere else, fails where the cursor
/// fails, and gives for every value that the cursor yields what looking that value up gives: a tree
/// of `n` values gives `n` items, the `i`th being the `i`th value read.
pub proof fn law_walk_over_contacts_gives_every_value<K, T, I>(
    walk: SledContactsIter<I, K>,
    yielded: Seq<Option<Result<(Vec<u8>, Vec<u8>), sled::Error>>>,
    met: Seq<Option<Reading<K, T>>>,
    looked_up: Seq<Reading<K, T>>,
    decrypt: spec_fn(Arc<K>, Seq<u8>) -> Result<T, CipherError>,
    parse: spec_fn(Seq<u8>) -> Result<T, serde_json::Error>,
)
    requires
        met.len() == yielded.len(),
        looked_up.len() == yielded.len(),
        forall|i: int|
            0 <= i < yielded.len() ==> call_ensures(
                SledContactsIter::<I, K>::next::<T>,
                (&walk, yielded[i]),
                #[trigger] met[i],
            ),
        forall|i: int|
            0 <= i < yielded.len() ==> (yielded[i] matches Some(Ok(element)) ==> call_ensures(
                start_reading::<K, T>,
                (&walk.cipher, element.1),
                #[trigger] looked_up[i],
            )),
    ensures
        forall|i: int|
            0 <= i < yielded.len() ==> match #[trigger] yielded[i] {
                None => met[i] is None,
                Some(Err(e)) => met[i] == Some(Reading::<K, T>::Done(Err(SledStoreError::Db(e)))),
                Some(Ok((_, value))) => {
                    &&& met[i] == Some(looked_up[i])
                    &&& outcome(met[i]->0, decrypt, parse) == match walk.cipher {
                        Some(key) => match decrypt(key, value@) {
                            Ok(read) => Ok::<T, SledStoreError>(read),
                            Err(e) => Err(SledStoreError::StoreCipher(e)),
                        },
                        None => match parse(value@) {
                            Ok(read) => Ok::<T, SledStoreError>(read),
                            Err(e) => Err(SledStoreError::Json(e)),
                        },
                    }
                },
            },
{
}

/// A walk over the sticker packs ends where the cursor ends and nowhere else, fails where the
/// cursor fails, and gives for every value that the cursor yields what looking that value up gives:
/// a tree of `n` values gives `n` items, the `i`th being the `i`th value read.
pub proof fn law_walk_over_sticker_packs_gives_every_value<K, T, I>(
    walk: SledStickerPacksIter<I, K>,
    yielded: Seq<Option<Result<(Vec<u8>, Vec<u8>), sled::Error>>>,
    met: Seq<Option<Reading<K, T>>>,
    looked_up: Seq<Reading<K, T>>,
    decrypt: spec_fn(Arc<K>, Seq<u8>) -> Result<T, CipherError>,
    parse: spec_fn(Seq<u8>) -> Result<T, serde_json::Error>,
)
    requires
        met.len() == yielded.len(),
        looked_up.len() == yielded.len(),
        forall|i: int|
            0 <= i < yielded.len() ==> call_ensures(
                SledStickerPacksIter::<I, K>::next::<T>,
                (&walk, yielded[i]),
                #[trigger] met[i],
            ),
        forall|i: int|
            0 <= i < yielded.len() ==> (yielded[i] matches Some(Ok(element)) ==> call_ensures(
                start_reading::<K, T>,
                (&walk.cipher, element.1),
                #[trigger] looked_up[i],
            )),
    ensures
        forall|i: int|
            0 <= i < yielded.len() ==> match #[trigger] yielded[i] {
                None => met[i] is None,
                Some(Err(e)) => met[i] == Some(Reading::<K, T>::Done(Err(SledStoreError::Db(e)))),
                Some(Ok((_, value))) => {
                    &&& met[i] == Some(looked_up[i])
                    &&& outcome(met[i]->0, decrypt, parse) == match walk.cipher {
                        Some(key) => match decrypt(key, value@) {
                            Ok(read) => Ok::<T, SledStoreError>(read),
                            Err(e) => Err(SledStoreError::StoreCipher(e)),
                        },
                        None => match parse(value@) {
                            Ok(read) => Ok::<T, SledStoreError>(read),
                            Err(e) => Err(SledStoreError::Json(e)),
                        },
                    }
                },
            },
{
}

/// A walk over the metadata of conversations ends where the cursor ends and nowhere else, fails
/// where the cursor fails, and gives for every value that the cursor yields what looking that value
/// up gives: a tree of `n` values gives `n` items, the `i`th being the `i`th value read.
pub proof fn law_walk_over_metadata_gives_every_value<K, T, I>(
    walk: SledThreadMetadataIter<I, K>,
    yielded: Seq<Option<Result<(Vec<u8>, Vec<u8>), sled::Error>>>,
    met: Seq<Option<Reading<K, T>>>,
    looked_up: Seq<Reading<K, T>>,
    decrypt: spec_fn(Arc<K>, Seq<u8>) -> Result<T, CipherError>,
    parse: spec_fn(Seq<u8>) -> Result<T, serde_json::Error>,
)
    requires
        met.len() == yielded.len(),
        looked_up.len() == yielded.len(),
        forall|i: int|
            0 <= i < yielded.len() ==> call_ensures(
                SledThreadMetadataIter::<I, K>::next::<T>,
                (&walk, yielded[i]),
                #[trigger] met[i],
            ),
        forall|i: int|
            0 <= i < yielded.len() ==> (yielded[i] matches Some(Ok(element)) ==> call_ensures(
                start_reading::<K, T>,
                (&walk.cipher, element.1),
                #[trigger] looked_up[i],
            )),
    ensures
        forall|i: int|
            0 <= i < yielded.len() ==> match #[trigger] yielded[i] {
                None => met[i] is None,
                Some(Err(e)) => met[i] == Some(Reading::<K, T>::Done(Err(SledStoreError::Db(e)))),
                Some(Ok((_, value))) => {
                    &&& met[i] == Some(looked_up[i])
                    &&& outcome(met[i]->0, decrypt, parse) == match walk.cipher {
                        Some(key) => match decrypt(key, value@) {
                            Ok(read) => Ok::<T, SledStoreError>(read),
                            Err(e) => Err(SledStoreError::StoreCipher(e)),
                        },
                        None => match parse(value@) {
                            Ok(read) => Ok::<T, SledStoreError>(read),
                            Err(e) => Err(SledStoreError::Json(e)),
                        },
                    }
                },
            },
{
}

/// What contacts and groups are read as by themselves is what any stored value is read as.
pub proof fn law_values_of_walks_are_read_as_stored_values<K, T, I>(
    contacts: SledContactsIter<I, K>,
    groups: SledGroupsIter<I, K>,
    value: Vec<u8>,
    contact: Reading<K, T>,
    group: Reading<K, T>,
    decrypt: spec_fn(Arc<K>, Seq<u8>) -> Result<T, CipherError>,
    parse: spec_fn(Seq<u8>) -> Result<T, serde_json::Error>,
)
    requires
        contacts.cipher == groups.cipher,
        call_ensures(SledContactsIter::<I, K>::decrypt_value::<T>, (&contacts, value), contact),
        call_ensures(SledGroupsIter::<I, K>::decrypt_value::<T>, (&groups, value), group),
    ensures
        outcome(contact, decrypt, parse) == match contacts.cipher {
            Some(key) => match decrypt(key, value@) {
                Ok(read) => Ok::<T, SledStoreError>(read),
                Err(e) => Err(SledStoreError::StoreCipher(e)),
            },
            None => match parse(value@) {
                Ok(read) => Ok::<T, SledStoreError>(read),
                Err(e) => Err(SledStoreError::Json(e)),
            },
        },
        outcome(group, decrypt, parse) == outcome(contact, decrypt, parse),
{
}

/// A walk over the groups ends where the cursor ends and nowhere else, fails where the cursor
/// fails, and gives for every entry that the cursor yields its key, byte for byte, and what looking
/// its value up gives.
pub proof fn law_walk_over_groups_gives_every_key_and_value<K, T, I>(
    walk: SledGroupsIter<I, K>,
    yielded: Seq<Option<Result<(Vec<u8>, Vec<u8>), sled::Error>>>,
    met: Seq<Option<Result<(Vec<u8>, Reading<K, T>), SledStoreError>>>,
    decrypt: spec_fn(Arc<K>, Seq<u8>) -> Result<T, CipherError>,
    parse: spec_fn(Seq<u8>) -> Result<T, serde_json::Error>,
)
    requires
        met.len() == yielded.len(),
        forall|i: int|
            0 <= i < yielded.len() ==> call_ensures(
                SledGroupsIter::<I, K>::next::<T>,
                (&walk, yielded[i]),
                #[trigger] met[i],
            ),
    ensures
        forall|i: int|
            0 <= i < yielded.len() ==> match #[trigger] yielded[i] {
                None => met[i] is None,
                Some(Err(e)) => met[i] matches Some(Err(SledStoreError::Db(failure))) && failure
                    == e,
                Some(Ok((key, value))) => {
                    &&& met[i] matches Some(Ok(entry)) && entry.0@ == key@ && outcome(
                        entry.1,
                        decrypt,
                        parse,
                    ) == match walk.cipher {
                        Some(cipher) => match decrypt(cipher, value@) {
                            Ok(read) => Ok::<T, SledStoreError>(read),
                            Err(e) => Err(SledStoreError::StoreCipher(e)),
                        },
                        None => match parse(value@) {
                            Ok(read) => Ok::<T, SledStoreError>(read),
                            Err(e) => Err(SledStoreError::Json(e)),
                        },
                    }
                },
            },
{
}

/// A group that was read is put beside the bytes of its key where these are thirty-two, and is an
/// error where they are not; a group that could not be read is its own error.
pub proof fn law_group_is_put_beside_the_bytes_of_its_key<K, G, I>(
    key: &[u8],
    group: Result<G, SledStoreError>,
    item: Result<([u8; 32], G), SledStoreError>,
)
    requires
        call_ensures(SledGroupsIter::<I, K>::keyed::<G>, (key, group), item),
    ensures
        match group {
            Err(e) => item matches Err(failure) && failure == e,
            Ok(group) => if key@.len() == 32 {
                item matches Ok(pair) && pair.0@ == key@ && pair.1 == group
            } else {
                item matches Err(SledStoreError::GroupDecryption)
            },
        },
{
}

/// A group that was saved is met on a walk beside the master key it was saved under, and looking up
/// the master key that the walk gave looks where the group was saved. `key` and `value` are the
/// entry as the cursor yields it, where the value is the form that reads as the group.
pub proof fn law_saved_group_is_met_beside_its_master_key<K, G, I>(
    store: SledStore<K>,
    walk: SledGroupsIter<I, K>,
    master_key: [u8; 32],
    group: G,
    save: Insert<G>,
    key: Vec<u8>,
    value: Vec<u8>,
    decrypt: spec_fn(Arc<K>, Seq<u8>) -> Result<G, CipherError>,
    parse: spec_fn(Seq<u8>) -> Result<G, serde_json::Error>,
    met: Option<Result<(Vec<u8>, Reading<K, G>), SledStoreError>>,
    met_key: &[u8],
    item: Result<([u8; 32], G), SledStoreError>,
    read: Get,
)
    requires
        call_ensures(SledStore::<K>::save_group::<G>, (&store, &master_key, group), save),
        key@ == save.key@,
        match walk.cipher {
            Some(cipher) => decrypt(cipher, value@) == Ok::<G, CipherError>(save.value),
            None => parse(value@) == Ok::<G, serde_json::Error>(save.value),
        },
        call_ensures(
            SledGroupsIter::<I, K>::next::<G>,
            (&walk, Some(Ok::<(Vec<u8>, Vec<u8>), sled::Error>((key, value)))),
            met,
        ),
        met matches Some(Ok(entry)) ==> met_key@ == entry.0@ && call_ensures(
            SledGroupsIter::<I, K>::keyed::<G>,
            (met_key, outcome(entry.1, decrypt, parse)),
            item,
        ),
        item matches Ok(pair) ==> call_ensures(SledStore::<K>::group, (&store, &pair.0), read),
    ensures
        item == Ok::<([u8; 32], G), SledStoreError>((master_key, group)),
        read.tree@ == save.tree@,
        read.key@ == save.key@,
{
    assert(item is Ok);
    assert(item->Ok_0.0@ =~= master_key@);
    assert(item->Ok_0.0 =~= master_key);
}

/// What comes of the bytes of a message, where `parse` is what the protobuf parser gives and
/// `convert` what a parsed message is turned into.
pub open spec fn content_of_bytes<P, C>(
    data: Seq<u8>,
    parse: spec_fn(Seq<u8>) -> Result<P, prost::DecodeError>,
    convert: spec_fn(P) -> Result<C, SledStoreError>,
) -> Result<C, SledStoreError> {
    match parse(data) {
        Ok(message) => convert(message),
        Err(e) => Err(SledStoreError::ProtobufDecode(e)),
    }
}

/// What comes of the reading of a message, where `decrypt` is what the cipher gives.
pub open spec fn content_of<K, P, C>(
    decoding: Decoding<K, P, C>,
    decrypt: spec_fn(Arc<K>, Seq<u8>) -> Result<Vec<u8>, CipherError>,
    parse: spec_fn(Seq<u8>) -> Result<P, prost::DecodeError>,
    convert: spec_fn(P) -> Result<C, SledStoreError>,
) -> Result<C, SledStoreError> {
    match decoding {
        Decoding::Decrypt { cipher, value } => match decrypt(cipher, value@) {
            Ok(data) => content_of_bytes(data@, parse, convert),
            Err(e) => Err(SledStoreError::StoreCipher(e)),
        },
        Decoding::Parse(data) => content_of_bytes(data@, parse, convert),
        Decoding::Convert(message) => convert(message),
        Decoding::Done(result) => result,
    }
}

/// To go on with what the cipher, the protobuf parser or the conversion gave does not change what
/// comes of a message; and each step is a step nearer to the end.
pub proof fn law_stages_of_decoding_keep_the_content<K, P, C>(
    decrypt: spec_fn(Arc<K>, Seq<u8>) -> Result<Vec<u8>, CipherError>,
    parse: spec_fn(Seq<u8>) -> Result<P, prost::DecodeError>,
    convert: spec_fn(P) -> Result<C, SledStoreError>,
    cipher: Arc<K>,
    value: Vec<u8>,
    message: P,
    decrypted: Decoding<K, P, C>,
    parsed: Decoding<K, P, C>,
    converted: Decoding<K, P, C>,
)
    requires
        call_ensures(Decoding::<K, P, C>::decrypted, (decrypt(cipher, value@),), decrypted),
        call_ensures(Decoding::<K, P, C>::parsed, (parse(value@),), parsed),
        call_ensures(Decoding::<K, P, C>::converted, (convert(message),), converted),
    ensures
        decrypted is Parse || decrypted is Done,
        parsed is Convert || parsed is Done,
        converted is Done,
        content_of(decrypted, decrypt, parse, convert) == content_of(
            Decoding::<K, P, C>::Decrypt { cipher, value },
            decrypt,
            parse,
            convert,
        ),
        content_of(parsed, decrypt, parse, convert) == content_of_bytes(value@, parse, convert),
        content_of(converted, decrypt, parse, convert) == convert(message),
{
}

/// To go on with what the JSON parser gave is to parse its bytes, or to end with its failure.
pub proof fn law_unwrapped_bytes_are_parsed<K, P, C>(
    unwrapped: Result<Vec<u8>, serde_json::Error>,
    decoding: Decoding<K, P, C>,
    decrypt: spec_fn(Arc<K>, Seq<u8>) -> Result<Vec<u8>, CipherError>,
    parse: spec_fn(Seq<u8>) -> Result<P, prost::DecodeError>,
    convert: spec_fn(P) -> Result<C, SledStoreError>,
)
    requires
        call_ensures(Decoding::<K, P, C>::unwrapped, (unwrapped,), decoding),
    ensures
        content_of(decoding, decrypt, parse, convert) == match unwrapped {
            Ok(data) => content_of_bytes(data@, parse, convert),
            Err(e) => Err::<C, SledStoreError>(SledStoreError::Json(e)),
        },
{
}

/// A walk over messages ends where the cursor ends and nowhere else, at its front as at its back,
/// fails where the cursor fails, and gives for every value that the cursor yields the content of
/// the bytes that looking that value up gives. Where these cannot be had, it fails for the same
/// reason. `json` is what the JSON parser gives for a list of bytes.
pub proof fn law_walk_over_messages_gives_every_message<K, P, C, I>(
    walk: SledMessagesIter<I, K>,
    yielded: Seq<Option<Result<(Vec<u8>, Vec<u8>), sled::Error>>>,
    front: Seq<Option<Decoding<K, P, C>>>,
    back: Seq<Option<Decoding<K, P, C>>>,
    looked_up: Seq<Reading<K, Vec<u8>>>,
    decrypt: spec_fn(Arc<K>, Seq<u8>) -> Result<Vec<u8>, CipherError>,
    json: spec_fn(Seq<u8>) -> Result<Vec<u8>, serde_json::Error>,
    parse: spec_fn(Seq<u8>) -> Result<P, prost::DecodeError>,
    convert: spec_fn(P) -> Result<C, SledStoreError>,
)
    requires
        forall|text: Seq<u8>|
            match #[trigger] json(text) {
                Ok(bytes) => outside::json_byte_array(text) == Some(bytes@),
                Err(_) => outside::json_byte_array(text) is None,
            },
        front.len() == yielded.len(),
        back.len() == yielded.len(),
        looked_up.len() == yielded.len(),
        forall|i: int|
            0 <= i < yielded.len() ==> call_ensures(
                SledMessagesIter::<I, K>::next::<P, C>,
                (&walk, yielded[i]),
                #[trigger] front[i],
            ),
        forall|i: int|
            0 <= i < yielded.len() ==> call_ensures(
                SledMessagesIter::<I, K>::next_back::<P, C>,
                (&walk, yielded[i]),
                #[trigger] back[i],
            ),
        forall|i: int|
            0 <= i < yielded.len() ==> (yielded[i] matches Some(Ok(element)) ==> call_ensures(
                start_reading::<K, Vec<u8>>,
                (&walk.cipher, element.1),
                #[trigger] looked_up[i],
            )),
    ensures
        forall|i: int|
            0 <= i < yielded.len() ==> match #[trigger] yielded[i] {
                None => front[i] is None && back[i] is None,
                Some(Err(e)) => {
                    &&& front[i] == Some(Decoding::<K, P, C>::Done(Err(SledStoreError::Db(e))))
                    &&& back[i] == Some(Decoding::<K, P, C>::Done(Err(SledStoreError::Db(e))))
                },
                Some(Ok(_)) => {
                    &&& front[i] is Some
                    &&& back[i] is Some
                    &&& match outcome(looked_up[i], decrypt, json) {
                        Ok(data) => {
                            &&& content_of(front[i]->0, decrypt, parse, convert)
                                == content_of_bytes(data@, parse, convert)
                            &&& content_of(back[i]->0, decrypt, parse, convert)
                                == content_of_bytes(data@, parse, convert)
                        },
                        Err(SledStoreError::Json(_)) => {
                            &&& content_of(front[i]->0, decrypt, parse, convert) matches Err(
                                SledStoreError::Json(_),
                            )
                            &&& content_of(back[i]->0, decrypt, parse, convert) matches Err(
                                SledStoreError::Json(_),
                            )
                        },
                        Err(e) => {
                            &&& content_of(front[i]->0, decrypt, parse, convert) == Err::<
                                C,
                                SledStoreError,
                            >(e)
                            &&& content_of(back[i]->0, decrypt, parse, convert) == Err::<
                                C,
                                SledStoreError,
                            >(e)
                        },
                    }
                },
            },
{
}

/// A message is read from its value alone, whatever its key: the bytes that the cipher opens the
/// value to where there is one, else those that its JSON lists, are what its content comes of.
/// Where the cursor failed, its failure is the error.
pub proof fn law_message_is_read_from_its_value<K, P, C, I>(
    walk: SledMessagesIter<I, K>,
    key: Vec<u8>,
    value: Vec<u8>,
    failure: sled::Error,
    begun: Decoding<K, P, C>,
    failed: Decoding<K, P, C>,
    of_value: Decoding<K, P, C>,
    decrypt: spec_fn(Arc<K>, Seq<u8>) -> Result<Vec<u8>, CipherError>,
    parse: spec_fn(Seq<u8>) -> Result<P, prost::DecodeError>,
    convert: spec_fn(P) -> Result<C, SledStoreError>,
)
    requires
        call_ensures(
            SledMessagesIter::<I, K>::decode::<P, C>,
            (&walk, Ok::<(Vec<u8>, Vec<u8>), sled::Error>((key, value))),
            begun,
        ),
        call_ensures(
            SledMessagesIter::<I, K>::decode::<P, C>,
            (&walk, Err::<(Vec<u8>, Vec<u8>), sled::Error>(failure)),
            failed,
        ),
        call_ensures(SledMessagesIter::<I, K>::decrypt_value::<P, C>, (&walk, value), of_value),
    ensures
        content_of(failed, decrypt, parse, convert) == Err::<C, SledStoreError>(
            SledStoreError::Db(failure),
        ),
        ({
            let met = content_of(begun, decrypt, parse, convert);
            let read = content_of(of_value, decrypt, parse, convert);
            match walk.cipher {
                Some(cipher) => match decrypt(cipher, value@) {
                    Ok(data) => met == content_of_bytes(data@, parse, convert) && read == met,
                    Err(e) => met == Err::<C, SledStoreError>(SledStoreError::StoreCipher(e))
                        && read == met,
                },
                None => match outside::json_byte_array(value@) {
                    Some(data) => met == content_of_bytes(data, parse, convert) && read == met,
                    None => {
                        &&& met matches Err(SledStoreError::Json(_))
                        &&& read matches Err(SledStoreError::Json(_))
                    },
                },
            }
        }),
{
}

/// A message that was looked up gives the content of the bytes that were found, nothing where none
/// were, and the failure where the lookup failed.
pub proof fn law_message_found_gives_its_content<K, P, C>(
    store: SledStore<K>,
    found: Result<Option<Vec<u8>>, SledStoreError>,
    decoding: Result<Option<Decoding<K, P, C>>, SledStoreError>,
    result: Result<C, SledStoreError>,
    content: Result<Option<C>, SledStoreError>,
    decrypt: spec_fn(Arc<K>, Seq<u8>) -> Result<Vec<u8>, CipherError>,
    parse: spec_fn(Seq<u8>) -> Result<P, prost::DecodeError>,
    convert: spec_fn(P) -> Result<C, SledStoreError>,
)
    requires
        call_ensures(SledStore::<K>::message_found::<P, C>, (&store, found), decoding),
        call_ensures(SledStore::<K>::message_decoded::<C>, (&store, result), content),
    ensures
        match found {
            Ok(Some(bytes)) => decoding matches Ok(Some(begun)) && content_of(
                begun,
                decrypt,
                parse,
                convert,
            ) == content_of_bytes(bytes@, parse, convert),
            Ok(None) => decoding matches Ok(None),
            Err(e) => decoding matches Err(failure) && failure == e,
        },
        match result {
            Ok(c) => content matches Ok(Some(given)) && given == c,
            Err(e) => content matches Err(failure) && failure == e,
        },
{
}

/// A thing that clearing asks of the database, or that it has no more to ask.
pub enum Step {
    Drop(Seq<u8>),
    List,
    Flush,
    Finish,
}

/// What an action asks for.
pub open spec fn step(action: Action) -> Step {
    match action {
        Action::DropTree(name) => Step::Drop(name@),
        Action::ListTrees => Step::List,
        Action::Flush => Step::Flush,
        Action::Finish => Step::Finish,
    }
}

/// Whether an event says that what an action asks for was done, where `names` is how the database
/// lists its trees.
pub open spec fn is_done(action: Action, event: Event, names: Seq<Seq<u8>>) -> bool {
    match event {
        Event::Dropped(Ok(_)) => action is DropTree,
        Event::Listed(listed) => action is ListTrees && listed@.map_values(|name: Vec<u8>| name@)
            == names,
        Event::Flushed(Ok(_)) => action is Flush,
        _ => false,
    }
}

/// Whether these are the states, the actions and the events of clearing that has come some way:
/// each state told its action, and went on to the next state with the event that it was done.
pub open spec fn is_run(
    states: Seq<Clearing>,
    actions: Seq<Action>,
    events: Seq<Event>,
    names: Seq<Seq<u8>>,
) -> bool {
    &&& states.len() == actions.len()
    &&& actions.len() == events.len() + 1
    &&& forall|i: int|
        0 <= i < states.len() ==> call_ensures(
            Clearing::action,
            (&(#[trigger] states[i]),),
            actions[i],
        )
    &&& forall|i: int|
        0 <= i < events.len() ==> is_done(actions[i], #[trigger] events[i], names) && call_ensures(
            Clearing::resume,
            (states[i], events[i]),
            Ok(states[i + 1]),
        )
}

/// What clearing asks for, as steps, and the end.
spec fn steps_of(clearing: ClearingView, names: Seq<Seq<u8>>) -> Seq<Step> {
    laws::asked(clearing, names).map_values(
        |thing: Asked|
            match thing {
                Asked::Drop(name) => Step::Drop(name),
                Asked::List => Step::List,
                Asked::Flush => Step::Flush,
            },
    ).push(Step::Finish)
}

proof fn lemma_run(
    states: Seq<Clearing>,
    actions: Seq<Action>,
    events: Seq<Event>,
    names: Seq<Seq<u8>>,
)
    requires
        is_run(states, actions, events, names),
    ensures
        actions.len() <= steps_of(states[0]@, names).len(),
        forall|i: int|
            0 <= i < actions.len() ==> step(#[trigger] actions[i]) == steps_of(
                states[0]@,
                names,
            )[i],
    decreases actions.len(),
{
    let view = states[0]@;
    let all = steps_of(view, names);
    laws::law_clearing_asks_in_order(view, names);
    assert(call_ensures(Clearing::action, (&states[0],), actions[0]));
    assert(step(actions[0]) == all[0]);
    if events.len() > 0 {
        assert(is_done(actions[0], events[0], names));
        assert(call_ensures(Clearing::resume, (states[0], events[0]), Ok(states[1])));
        let next = states[1]@;
        match events[0] {
            Event::Listed(listed) => {
                assert(clear::names_of(listed@) =~= names);
            },
            _ => {},
        }
        let (later, acts, evs) = (states.skip(1), actions.skip(1), events.skip(1));
        assert forall|i: int| 0 <= i < later.len() implies call_ensures(
            Clearing::action,
            (&(#[trigger] later[i]),),
            acts[i],
        ) by {
            assert(later[i] == states[i + 1]);
        }
        assert forall|i: int| 0 <= i < evs.len() implies is_done(
            acts[i],
            #[trigger] evs[i],
            names,
        ) && call_ensures(Clearing::resume, (later[i], evs[i]), Ok(later[i + 1])) by {
            assert(evs[i] == events[i + 1]);
        }
        lemma_run(later, acts, evs, names);
        assert(later[0] == states[1]);
        let rest = steps_of(next, names);
        assert(all =~= seq![all[0]] + rest);
        assert forall|i: int| 0 <= i < actions.len() implies step(#[trigger] actions[i])
            == all[i] by {
            if i > 0 {
                assert(acts[i - 1] == actions[i]);
                assert(all[i] == rest[i - 1]);
            }
        }
    }
}

/// Clearing one conversation asks for two things, whatever conversation it is: to drop the tree in
/// which the conversation's messages are saved, and then to flush.
pub proof fn law_clear_thread_drops_its_tree_and_flushes<K>(
    store: SledStore<K>,
    thread: Thread,
    timestamp: u64,
    message: Vec<u8>,
    save: Insert<Vec<u8>>,
    states: Seq<Clearing>,
    actions: Seq<Action>,
    events: Seq<Event>,
    names: Seq<Seq<u8>>,
)
    requires
        call_ensures(SledStore::<K>::save_message, (&store, &thread, timestamp, message), save),
        is_run(states, actions, events, names),
        call_ensures(SledStore::<K>::clear_thread, (&store, &thread), states[0]),
    ensures
        actions.len() <= 3,
        actions.len() > 0 ==> (actions[0] matches Action::DropTree(name) && name@
            == vstd::utf8::encode_utf8(save.tree@)),
        actions.len() > 1 ==> actions[1] is Flush,
        actions.len() > 2 ==> actions[2] is Finish,
{
    lemma_run(states, actions, events, names);
    assert(steps_of(states[0]@, names) =~= seq![
        Step::Drop(vstd::utf8::encode_utf8(save.tree@)),
        Step::Flush,
        Step::Finish,
    ]);
}

/// Clearing the profiles asks for four things: to drop the trees `profiles`, `profile_keys` and
/// `profile_avatars`, in this order, and then to flush.
pub proof fn law_clear_profiles_drops_three_trees_and_flushes<K>(
    store: SledStore<K>,
    states: Seq<Clearing>,
    actions: Seq<Action>,
    events: Seq<Event>,
    names: Seq<Seq<u8>>,
)
    requires
        is_run(states, actions, events, names),
        call_ensures(SledStore::<K>::clear_profiles, (&store,), states[0]),
    ensures
        actions.len() <= 5,
        actions.len() > 0 ==> (actions[0] matches Action::DropTree(name) && name@
            == vstd::utf8::encode_utf8("profiles"@)),
        actions.len() > 1 ==> (actions[1] matches Action::DropTree(name) && name@
            == vstd::utf8::encode_utf8("profile_keys"@)),
        actions.len() > 2 ==> (actions[2] matches Action::DropTree(name) && name@
            == vstd::utf8::encode_utf8("profile_avatars"@)),
        actions.len() > 3 ==> actions[3] is Flush,
        actions.len() > 4 ==> actions[4] is Finish,
{
    lemma_run(states, actions, events, names);
    assert(steps_of(states[0]@, names) =~= seq![
        Step::Drop(vstd::utf8::encode_utf8("profiles"@)),
        Step::Drop(vstd::utf8::encode_utf8("profile_keys"@)),
        Step::Drop(vstd::utf8::encode_utf8("profile_avatars"@)),
        Step::Flush,
        Step::Finish,
    ]);
}

/// Clearing the contacts asks for one thing: to drop the tree `contacts`.
pub proof fn law_clear_contacts_drops_one_tree<K>(
    store: SledStore<K>,
    states: Seq<Clearing>,
    actions: Seq<Action>,
    events: Seq<Event>,
    names: Seq<Seq<u8>>,
)
    requires
        is_run(states, actions, events, names),
        call_ensures(SledStore::<K>::clear_contacts, (&store,), states[0]),
    ensures
        actions.len() <= 2,
        actions.len() > 0 ==> (actions[0] matches Action::DropTree(name) && name@
            == vstd::utf8::encode_utf8("contacts"@)),
        actions.len() > 1 ==> actions[1] is Finish,
{
    lemma_run(states, actions, events, names);
    assert(steps_of(states[0]@, names) =~= seq![
        Step::Drop(vstd::utf8::encode_utf8("contacts"@)),
        Step::Finish,
    ]);
}

/// Clearing the groups asks for two things: to drop the tree `groups`, and then to flush.
pub proof fn law_clear_groups_drops_one_tree_and_flushes<K>(
    store: SledStore<K>,
    states: Seq<Clearing>,
    actions: Seq<Action>,
    events: Seq<Event>,
    names: Seq<Seq<u8>>,
)
    requires
        is_run(states, actions, events, names),
        call_ensures(SledStore::<K>::clear_groups, (&store,), states[0]),
    ensures
        actions.len() <= 3,
        actions.len() > 0 ==> (actions[0] matches Action::DropTree(name) && name@
            == vstd::utf8::encode_utf8("groups"@)),
        actions.len() > 1 ==> actions[1] is Flush,
        actions.len() > 2 ==> actions[2] is Finish,
{
    lemma_run(states, actions, events, names);
    assert(steps_of(states[0]@, names) =~= seq![
        Step::Drop(vstd::utf8::encode_utf8("groups"@)),
        Step::Flush,
        Step::Finish,
    ]);
}

/// The trees that a sweep drops are those listed whose names begin with `threads`.
proof fn lemma_swept(names: Seq<Seq<u8>>)
    ensures
        clear::thread_trees(names) == names.filter(
            |name: Seq<u8>|
                name.len() >= 7 && name.take(7) == seq![0x74u8, 0x68, 0x72, 0x65, 0x61, 0x64, 0x73],
        ),
{
    let letters = |name: Seq<u8>|
        name.len() >= 7 && name.take(7) == seq![0x74u8, 0x68, 0x72, 0x65, 0x61, 0x64, 0x73];
    let belongs = |name: Seq<u8>| trees::is_thread_tree(name);
    assert forall|name: Seq<u8>| #[trigger] belongs(name) == letters(name) by {
        lemma_thread_letters(name);
    }
    assert(belongs =~= letters);
}

/// Clearing the messages asks for the list of trees, then to drop each listed tree whose name's
/// first seven bytes are the letters `threads`, in the order of the list, and no other tree, and
/// then to flush.
pub proof fn law_clear_messages_drops_what_begins_with_threads<K>(
    store: SledStore<K>,
    states: Seq<Clearing>,
    actions: Seq<Action>,
    events: Seq<Event>,
    names: Seq<Seq<u8>>,
)
    requires
        is_run(states, actions, events, names),
        call_ensures(SledStore::<K>::clear_messages, (&store,), states[0]),
    ensures
        ({
            let swept = names.filter(
                |name: Seq<u8>|
                    name.len() >= 7 && name.take(7) == seq![
                        0x74u8,
                        0x68,
                        0x72,
                        0x65,
                        0x61,
                        0x64,
                        0x73,
                    ],
            );
            let all = seq![Step::List] + swept.map_values(|name: Seq<u8>| Step::Drop(name)) + seq![
                Step::Flush,
                Step::Finish,
            ];
            &&& actions.len() <= all.len()
            &&& forall|i: int|
                0 <= i < actions.len() ==> step(#[trigger] actions[i]) == all[i]
        }),
{
    lemma_run(states, actions, events, names);
    lemma_swept(names);
    assert(steps_of(states[0]@, names) =~= seq![Step::List] + clear::thread_trees(names).map_values(
        |name: Seq<u8>| Step::Drop(name),
    ) + seq![Step::Flush, Step::Finish]);
}

/// Clearing the contents asks to drop the trees `contacts` and `groups`, then for the list of
/// trees, then to drop each listed tree whose name's first seven bytes are the letters `threads`,
/// in the order of the list, and no other tree, and then to flush.
pub proof fn law_clear_contents_drops_two_trees_and_what_begins_with_threads<K>(
    store: SledStore<K>,
    states: Seq<Clearing>,
    actions: Seq<Action>,
    events: Seq<Event>,
    names: Seq<Seq<u8>>,
)
    requires
        is_run(states, actions, events, names),
        call_ensures(SledStore::<K>::clear_contents, (&store,), states[0]),
    ensures
        ({
            let swept = names.filter(
                |name: Seq<u8>|
                    name.len() >= 7 && name.take(7) == seq![
                        0x74u8,
                        0x68,
                        0x72,
                        0x65,
                        0x61,
                        0x64,
                        0x73,
                    ],
            );
            let all = seq![
                Step::Drop(vstd::utf8::encode_utf8("contacts"@)),
                Step::Drop(vstd::utf8::encode_utf8("groups"@)),
                Step::List,
            ] + swept.map_values(|name: Seq<u8>| Step::Drop(name)) + seq![
                Step::Flush,
                Step::Finish,
            ];
            &&& actions.len() <= all.len()
            &&& forall|i: int|
                0 <= i < actions.len() ==> step(#[trigger] actions[i]) == all[i]
        }),
{
    lemma_run(states, actions, events, names);
    lemma_swept(names);
    assert(steps_of(states[0]@, names) =~= seq![
        Step::Drop(vstd::utf8::encode_utf8("contacts"@)),
        Step::Drop(vstd::utf8::encode_utf8("groups"@)),
        Step::List,
    ] + clear::thread_trees(names).map_values(|name: Seq<u8>| Step::Drop(name)) + seq![
        Step::Flush,
        Step::Finish,
    ]);
}

/// Every answer to dropping a tree is taken: clearing goes on exactly if the database did not fail,
/// whether or not there was a tree to drop, and ends with the failure if it did.
pub proof fn law_clearing_goes_on_once_a_tree_is_dropped(
    clearing: Clearing,
    action: Action,
    answer: Result<bool, sled::Error>,
    next: Result<Clearing, SledStoreError>,
)
    requires
        call_ensures(Clearing::action, (&clearing,), action),
        action is DropTree,
        call_ensures(Clearing::resume, (clearing, Event::Dropped(answer)), next),
    ensures
        call_requires(Clearing::resume, (clearing, Event::Dropped(answer))),
        match answer {
            Ok(_) => next is Ok,
            Err(e) => next matches Err(SledStoreError::Db(failure)) && failure == e,
        },
{
}

/// Every list of trees is taken, and clearing goes on with it.
pub proof fn law_clearing_goes_on_with_every_list(
    clearing: Clearing,
    action: Action,
    answer: Vec<Vec<u8>>,
    next: Result<Clearing, SledStoreError>,
)
    requires
        call_ensures(Clearing::action, (&clearing,), action),
        action is ListTrees,
        call_ensures(Clearing::resume, (clearing, Event::Listed(answer)), next),
    ensures
        call_requires(Clearing::resume, (clearing, Event::Listed(answer))),
        next is Ok,
{
}

/// Every answer to flushing is taken: clearing goes on exactly if the database did not fail, and
/// ends with the failure if it did.
pub proof fn law_clearing_goes_on_once_flushed(
    clearing: Clearing,
    action: Action,
    answer: Result<usize, sled::Error>,
    next: Result<Clearing, SledStoreError>,
)
    requires
        call_ensures(Clearing::action, (&clearing,), action),
        action is Flush,
        call_ensures(Clearing::resume, (clearing, Event::Flushed(answer)), next),
    ensures
        call_requires(Clearing::resume, (clearing, Event::Flushed(answer))),
        match answer {
            Ok(_) => next is Ok,
            Err(e) => next matches Err(SledStoreError::Db(failure)) && failure == e,
        },
{
}

/// What a tree of whatever name holds once the messages were cleared: nothing if the first seven
/// bytes of its name are the letters `threads`, else what it held before. It does not matter
/// whether the store keeps anything in that tree.
pub proof fn law_clearing_messages_empties_what_begins_with_threads<V>(
    db: Trees<V>,
    names: Seq<Seq<u8>>,
    tree: Seq<u8>,
)
    requires
        forall|name: Seq<u8>| #[trigger] names.contains(name) <==> db.contains_key(name),
    ensures
        ({
            let after = laws::cleared(clear::messages_clearing(), db, names);
            let begins = tree.len() >= 7 && tree.take(7) == seq![
                0x74u8,
                0x68,
                0x72,
                0x65,
                0x61,
                0x64,
                0x73,
            ];
            &&& after.contains_key(tree) <==> db.contains_key(tree) && !begins
            &&& !begins ==> laws::contents(after, tree) == laws::contents(db, tree)
        }),
{
    laws::law_clearing_drops_its_trees_alone(clear::messages_clearing(), db, names, tree);
    lemma_thread_letters(tree);
}

/// What a tree of whatever name holds once one conversation was cleared: nothing if it is the tree
/// in which the conversation's messages are saved, else what it held before.
pub proof fn law_clearing_a_thread_empties_its_tree_alone<K, V>(
    db: Trees<V>,
    names: Seq<Seq<u8>>,
    store: SledStore<K>,
    thread: Thread,
    timestamp: u64,
    message: Vec<u8>,
    save: Insert<Vec<u8>>,
    tree: Seq<u8>,
)
    requires
        call_ensures(SledStore::<K>::save_message, (&store, &thread, timestamp, message), save),
    ensures
        ({
            let after = laws::cleared(clear::thread_clearing(thread), db, names);
            let own = vstd::utf8::encode_utf8(save.tree@);
            &&& after.contains_key(tree) <==> db.contains_key(tree) && tree != own
            &&& tree != own ==> laws::contents(after, tree) == laws::contents(db, tree)
        }),
{
    let clearing = clear::thread_clearing(thread);
    laws::law_clearing_drops_its_trees_alone(clearing, db, names, tree);
    assert(clearing.drops[0] == vstd::utf8::encode_utf8(save.tree@));
}

/// What a tree of whatever name holds once the contents were cleared: nothing if it is `contacts`
/// or `groups` or the first seven bytes of its name are the letters `threads`, else what it held
/// before.
pub proof fn law_clearing_contents_empties_two_trees_and_what_begins_with_threads<V>(
    db: Trees<V>,
    names: Seq<Seq<u8>>,
    tree: Seq<u8>,
)
    requires
        forall|name: Seq<u8>| #[trigger]
            names.contains(name) <==> db.contains_key(name) && name != vstd::utf8::encode_utf8(
                "contacts"@,
            ) && name != vstd::utf8::encode_utf8("groups"@),
    ensures
        ({
            let after = laws::cleared(clear::contents_clearing(), db, names);
            let dropped = tree == vstd::utf8::encode_utf8("contacts"@) || tree
                == vstd::utf8::encode_utf8("groups"@) || (tree.len() >= 7 && tree.take(7) == seq![
                0x74u8,
                0x68,
                0x72,
                0x65,
                0x61,
                0x64,
                0x73,
            ]);
            &&& after.contains_key(tree) <==> db.contains_key(tree) && !dropped
            &&& !dropped ==> laws::contents(after, tree) == laws::contents(db, tree)
        }),
{
    let clearing = clear::contents_clearing();
    assert(clearing.drops[0] == vstd::utf8::encode_utf8("contacts"@));
    assert(clearing.drops[1] == vstd::utf8::encode_utf8("groups"@));
    assert forall|name: Seq<u8>| #[trigger]
        names.contains(name) <==> db.contains_key(name) && !clearing.drops.contains(name) by {
        if clearing.drops.contains(name) {
            let i = choose|i: int| 0 <= i < clearing.drops.len() && clearing.drops[i] == name;
            assert(i == 0 || i == 1);
        }
    }
    laws::law_clearing_drops_its_trees_alone(clearing, db, names, tree);
    lemma_thread_letters(tree);
}

/// Requests can be made with any arguments; walks over messages are the one exception.
pub proof fn law_requests_can_be_made_with_any_arguments<K, V>(
    store: SledStore<K>,
    uuid: [u8; 16],
    master_key: [u8; 32],
    key: &[u8],
    thread: Thread,
    timestamp: u64,
    message: Vec<u8>,
    value: V,
)
    ensures
        call_requires(SledStore::<K>::save_contact::<V>, (&store, &uuid, value)),
        call_requires(SledStore::<K>::contact_by_id, (&store, &uuid)),
        call_requires(SledStore::<K>::contacts, (&store,)),
        call_requires(SledStore::<K>::save_group::<V>, (&store, &master_key, value)),
        call_requires(SledStore::<K>::group, (&store, &master_key)),
        call_requires(SledStore::<K>::groups, (&store,)),
        call_requires(SledStore::<K>::save_group_avatar::<V>, (&store, &master_key, value)),
        call_requires(SledStore::<K>::group_avatar, (&store, &master_key)),
        call_requires(SledStore::<K>::save_message, (&store, &thread, timestamp, message)),
        call_requires(SledStore::<K>::message, (&store, &thread, timestamp)),
        call_requires(SledStore::<K>::delete_message, (&store, &thread, timestamp)),
        call_requires(SledStore::<K>::upsert_profile_key::<V>, (&store, &uuid, value)),
        call_requires(SledStore::<K>::profile_key, (&store, &uuid)),
        call_requires(SledStore::<K>::save_profile::<V>, (&store, key, value)),
        call_requires(SledStore::<K>::profile, (&store, key)),
        call_requires(SledStore::<K>::save_profile_avatar::<V>, (&store, key, value)),
        call_requires(SledStore::<K>::profile_avatar, (&store, key)),
        call_requires(SledStore::<K>::add_sticker_pack::<V>, (&store, key, value)),
        call_requires(SledStore::<K>::sticker_pack, (&store, key)),
        call_requires(SledStore::<K>::remove_sticker_pack, (&store, key)),
        call_requires(SledStore::<K>::sticker_packs, (&store,)),
        call_requires(SledStore::<K>::save_thread_metadata::<V>, (&store, key, value)),
        call_requires(SledStore::<K>::thread_metadata, (&store, key)),
        call_requires(SledStore::<K>::thread_metadatas, (&store,)),
        call_requires(SledStore::<K>::clear_profiles, (&store,)),
        call_requires(SledStore::<K>::clear_contents, (&store,)),
        call_requires(SledStore::<K>::clear_contacts, (&store,)),
        call_requires(SledStore::<K>::clear_groups, (&store,)),
        call_requires(SledStore::<K>::clear_messages, (&store,)),
        call_requires(SledStore::<K>::clear_thread, (&store, &thread)),
        call_requires(thread_key, (&thread,)),
        call_requires(messages_thread_tree_name, (&thread,)),
        call_requires(tree_name_of_digest, (key,)),
        call_requires(has_thread_prefix, (key,)),
        call_requires(hex_text, (key,)),
        call_requires(timestamp_key, (timestamp,)),
        call_requires(KeyRange::all, ()),
{
}

/// Whatever comes back from the database, the cipher and the parsers is taken.
pub proof fn law_whatever_comes_back_is_taken<K, I, T, P, C>(
    store: SledStore<K>,
    clearing: Clearing,
    contacts: SledContactsIter<I, K>,
    groups: SledGroupsIter<I, K>,
    messages: SledMessagesIter<I, K>,
    packs: SledStickerPacksIter<I, K>,
    metadata: SledThreadMetadataIter<I, K>,
    opened: Result<I, sled::Error>,
    previous: Result<Option<Vec<u8>>, sled::Error>,
    answered: Result<bool, SledStoreError>,
    element: Result<(Vec<u8>, Vec<u8>), sled::Error>,
    yielded: Option<Result<(Vec<u8>, Vec<u8>), sled::Error>>,
    value: Vec<u8>,
    key: &[u8],
    unlocked: Result<T, CipherError>,
    json: Result<T, serde_json::Error>,
    read: Result<T, SledStoreError>,
    unlocked_bytes: Result<Vec<u8>, CipherError>,
    json_bytes: Result<Vec<u8>, serde_json::Error>,
    protobuf: Result<P, prost::DecodeError>,
    content: Result<C, SledStoreError>,
    found: Result<Option<Vec<u8>>, SledStoreError>,
)
    ensures
        call_requires(Clearing::action, (&clearing,)),
        call_requires(SledStore::<K>::contacts_opened::<I>, (&store, opened)),
        call_requires(SledStore::<K>::groups_opened::<I>, (&store, opened)),
        call_requires(SledStore::<K>::messages_opened::<I>, (&store, opened)),
        call_requires(SledStore::<K>::sticker_packs_opened::<I>, (&store, opened)),
        call_requires(SledStore::<K>::thread_metadatas_opened::<I>, (&store, opened)),
        call_requires(SledStore::<K>::message_found::<P, C>, (&store, found)),
        call_requires(SledStore::<K>::message_decoded::<C>, (&store, content)),
        call_requires(store::removed, (previous,)),
        call_requires(store::replaced, (previous,)),
        call_requires(store::saved, (answered,)),
        call_requires(start_reading::<K, T>, (&store.cipher, value)),
        call_requires(Reading::<K, T>::decrypted, (unlocked,)),
        call_requires(Reading::<K, T>::parsed, (json,)),
        call_requires(Decoding::<K, P, C>::decrypted, (unlocked_bytes,)),
        call_requires(Decoding::<K, P, C>::unwrapped, (json_bytes,)),
        call_requires(Decoding::<K, P, C>::parsed, (protobuf,)),
        call_requires(Decoding::<K, P, C>::converted, (content,)),
        call_requires(SledContactsIter::<I, K>::decrypt_value::<T>, (&contacts, value)),
        call_requires(SledContactsIter::<I, K>::next::<T>, (&contacts, yielded)),
        call_requires(SledStickerPacksIter::<I, K>::next::<T>, (&packs, yielded)),
        call_requires(SledThreadMetadataIter::<I, K>::next::<T>, (&metadata, yielded)),
        call_requires(SledGroupsIter::<I, K>::decrypt_value::<T>, (&groups, value)),
        call_requires(SledGroupsIter::<I, K>::next::<T>, (&groups, yielded)),
        call_requires(SledGroupsIter::<I, K>::keyed::<T>, (key, read)),
        call_requires(SledMessagesIter::<I, K>::decrypt_value::<P, C>, (&messages, value)),
        call_requires(SledMessagesIter::<I, K>::decode::<P, C>, (&messages, element)),
        call_requires(SledMessagesIter::<I, K>::next::<P, C>, (&messages, yielded)),
        call_requires(SledMessagesIter::<I, K>::next_back::<P, C>, (&messages, yielded)),
{
}

} // verus!
