//! Keys of messages and ranges of keys.

use vstd::prelude::*;

verus! {

/// The eight bytes of a number, the most significant first.
pub open spec fn big_endian(n: u64) -> Seq<u8> {
    seq![
        (n / 0x100_0000_0000_0000 % 0x100) as u8,
        (n / 0x1_0000_0000_0000 % 0x100) as u8,
        (n / 0x100_0000_0000 % 0x100) as u8,
        (n / 0x1_0000_0000 % 0x100) as u8,
        (n / 0x100_0000 % 0x100) as u8,
        (n / 0x1_0000 % 0x100) as u8,
        (n / 0x100 % 0x100) as u8,
        (n % 0x100) as u8,
    ]
}

/// `256` to the power of `i`: what the byte with `i` bytes behind it is worth.
spec fn weight(i: nat) -> nat
    decreases i,
{
    if i == 0 {
        1
    } else {
        256 * weight((i - 1) as nat)
    }
}

/// The eight bytes of a number, each told by what it is worth.
spec fn bytes_by_weight(n: u64) -> Seq<u8> {
    Seq::new(8, |i: int| (n as nat / weight((7 - i) as nat) % 256) as u8)
}

proof fn lemma_bytes_by_weight(n: u64)
    ensures
        bytes_by_weight(n) == big_endian(n),
{
    reveal_with_fuel(weight, 8);
    let bytes = bytes_by_weight(n);
    assert(weight(7) == 0x100_0000_0000_0000);
    assert(bytes[0] == (n as nat / weight(7) % 256) as u8);
    assert(weight(6) == 0x1_0000_0000_0000);
    assert(bytes[1] == (n as nat / weight(6) % 256) as u8);
    assert(weight(5) == 0x100_0000_0000);
    assert(bytes[2] == (n as nat / weight(5) % 256) as u8);
    assert(weight(4) == 0x1_0000_0000);
    assert(bytes[3] == (n as nat / weight(4) % 256) as u8);
    assert(weight(3) == 0x100_0000);
    assert(bytes[4] == (n as nat / weight(3) % 256) as u8);
    assert(weight(2) == 0x1_0000);
    assert(bytes[5] == (n as nat / weight(2) % 256) as u8);
    assert(weight(1) == 0x100);
    assert(bytes[6] == (n as nat / weight(1) % 256) as u8);
    assert(weight(0) == 1);
    assert(bytes[7] == (n as nat / weight(0) % 256) as u8);
    assert(bytes =~= big_endian(n));
}

/// The key of the message with this timestamp. Trees order their keys byte by byte, so the most
/// significant byte comes first.
pub fn timestamp_key(timestamp: u64) -> (key: [u8; 8])
    ensures
        key@ == big_endian(timestamp),
{
    let mut key: [u8; 8] = [0; 8];
    let mut rest: u64 = timestamp;
    let mut i: usize = 8;
    assert(timestamp as nat / weight(0) == timestamp) by {
        vstd::arithmetic::div_mod::lemma_div_basics(timestamp as int);
    }
    while i > 0
        invariant
            i <= 8,
            rest as nat == timestamp as nat / weight((8 - i) as nat),
            forall|k: int| i <= k < 8 ==> key@[k] == bytes_by_weight(timestamp)[k],
        decreases i,
    {
        i = i - 1;
        key[i] = (rest % 256) as u8;
        proof {
            let w = weight((7 - i) as nat);
            lemma_weight_positive((7 - i) as nat);
            vstd::arithmetic::div_mod::lemma_div_denominator(timestamp as int, w as int, 256);
            assert(w * 256 == 256 * w);
        }
        rest = rest / 256;
    }
    proof {
        lemma_bytes_by_weight(timestamp);
        assert(key@ =~= bytes_by_weight(timestamp));
    }
    key
}

proof fn lemma_weight_positive(i: nat)
    ensures
        weight(i) > 0,
    decreases i,
{
    if i > 0 {
        lemma_weight_positive((i - 1) as nat);
    }
}

/// Byte strings as a dictionary orders them: by the first byte in which they differ, and a proper
/// prefix before what it begins.
pub open spec fn key_before(a: Seq<u8>, b: Seq<u8>) -> bool
    decreases a.len(),
{
    if b.len() == 0 {
        false
    } else if a.len() == 0 {
        true
    } else if a[0] != b[0] {
        a[0] < b[0]
    } else {
        key_before(a.drop_first(), b.drop_first())
    }
}

/// One end of a range.
pub enum Bound<T> {
    Included(T),
    Excluded(T),
    Unbounded,
}

/// A range of keys.
pub struct KeyRange {
    pub start: Bound<[u8; 8]>,
    pub end: Bound<[u8; 8]>,
}

impl KeyRange {
    /// Whether a key lies in the range, in the order of keys.
    pub open spec fn covers(self, key: Seq<u8>) -> bool {
        &&& match self.start {
            Bound::Included(low) => !key_before(key, low@),
            Bound::Excluded(low) => key_before(low@, key),
            Bound::Unbounded => true,
        }
        &&& match self.end {
            Bound::Included(high) => !key_before(high@, key),
            Bound::Excluded(high) => key_before(key, high@),
            Bound::Unbounded => true,
        }
    }

    /// The range of all keys.
    pub fn all() -> (range: KeyRange)
        ensures
            range.start is Unbounded,
            range.end is Unbounded,
    {
        KeyRange { start: Bound::Unbounded, end: Bound::Unbounded }
    }
}

/// Whether a timestamp lies between two bounds.
pub open spec fn timestamp_between(start: Bound<u64>, end: Bound<u64>, timestamp: u64) -> bool {
    &&& match start {
        Bound::Included(low) => low <= timestamp,
        Bound::Excluded(low) => low < timestamp,
        Bound::Unbounded => true,
    }
    &&& match end {
        Bound::Included(high) => timestamp <= high,
        Bound::Excluded(high) => timestamp < high,
        Bound::Unbounded => true,
    }
}

/// Numbers below `256 * w` are ordered by their quotients by `w`, and where these agree, by the
/// remainders.
proof fn lemma_order_by_quotient(a: int, b: int, w: int)
    requires
        0 <= a,
        0 <= b,
        w > 0,
    ensures
        a % (256 * w) < b % (256 * w) <==> (a / w % 256 < b / w % 256 || (a / w % 256 == b / w % 256
            && a % w < b % w)),
{
    vstd::arithmetic::div_mod::lemma_mod_breakdown(a, w, 256);
    vstd::arithmetic::div_mod::lemma_mod_breakdown(b, w, 256);
    let p = a / w % 256;
    let q = b / w % 256;
    assert(p < q ==> w * p + w <= w * q) by (nonlinear_arith)
        requires
            w > 0,
    ;
    assert(q < p ==> w * q + w <= w * p) by (nonlinear_arith)
        requires
            w > 0,
    ;
    assert(0 <= a % w < w && 0 <= b % w < w) by (nonlinear_arith)
        requires
            w > 0,
    ;
    assert(w * 256 == 256 * w);
}

/// The last `i` bytes of two numbers are ordered as what those bytes are worth.
proof fn lemma_last_bytes_are_ordered(a: u64, b: u64, i: nat)
    requires
        i <= 8,
    ensures
        key_before(bytes_by_weight(a).skip(8 - i), bytes_by_weight(b).skip(8 - i)) <==> (a as int) % (weight(
            i,
        ) as int) < (b as int) % (weight(i) as int),
    decreases i,
{
    let x = bytes_by_weight(a).skip(8 - i);
    let y = bytes_by_weight(b).skip(8 - i);
    if i > 0 {
        let j = (i - 1) as nat;
        lemma_last_bytes_are_ordered(a, b, j);
        assert(x.drop_first() =~= bytes_by_weight(a).skip(8 - j));
        assert(y.drop_first() =~= bytes_by_weight(b).skip(8 - j));
        lemma_weight_positive(j);
        lemma_order_by_quotient(a as int, b as int, weight(j) as int);
    }
}

/// Keys of messages are ordered as the timestamps are.
pub proof fn law_keys_are_ordered_as_timestamps(a: u64, b: u64)
    ensures
        key_before(big_endian(a), big_endian(b)) <==> a < b,
{
    assert(weight(8) == 0x1_0000_0000_0000_0000) by {
        reveal_with_fuel(weight, 9);
    }
    lemma_last_bytes_are_ordered(a, b, 8);
    assert(bytes_by_weight(a).skip(0) =~= bytes_by_weight(a));
    assert(bytes_by_weight(b).skip(0) =~= bytes_by_weight(b));
    lemma_bytes_by_weight(a);
    lemma_bytes_by_weight(b);
}

/// Whether a bound on keys is a bound on timestamps, put as a key.
pub open spec fn is_key_bound(key: Bound<[u8; 8]>, timestamp: Bound<u64>) -> bool {
    match timestamp {
        Bound::Included(t) => key matches Bound::Included(k) && k@ == big_endian(t),
        Bound::Excluded(t) => key matches Bound::Excluded(k) && k@ == big_endian(t),
        Bound::Unbounded => key is Unbounded,
    }
}

/// A range whose ends are the keys of two timestamps covers the keys of the timestamps between
/// the two, and no other timestamp's.
pub proof fn law_range_of_keys_is_range_of_timestamps(
    start: Bound<u64>,
    end: Bound<u64>,
    range: KeyRange,
    timestamp: u64,
)
    requires
        is_key_bound(range.start, start),
        is_key_bound(range.end, end),
    ensures
        range.covers(big_endian(timestamp)) <==> timestamp_between(start, end, timestamp),
{
    match start {
        Bound::Included(low) => law_keys_are_ordered_as_timestamps(timestamp, low),
        Bound::Excluded(low) => law_keys_are_ordered_as_timestamps(low, timestamp),
        Bound::Unbounded => {},
    }
    match end {
        Bound::Included(high) => law_keys_are_ordered_as_timestamps(high, timestamp),
        Bound::Excluded(high) => law_keys_are_ordered_as_timestamps(timestamp, high),
        Bound::Unbounded => {},
    }
}

/// No key comes before itself, and of two different keys exactly one comes before the other.
pub proof fn law_keys_are_ordered_strictly(a: Seq<u8>, b: Seq<u8>)
    ensures
        !key_before(a, a),
        key_before(a, b) ==> !key_before(b, a),
        a == b || key_before(a, b) || key_before(b, a),
    decreases a.len(),
{
    if a.len() > 0 && b.len() > 0 {
        law_keys_are_ordered_strictly(a.drop_first(), b.drop_first());
        if a[0] == b[0] && a.drop_first() == b.drop_first() {
            assert(a =~= seq![a[0]] + a.drop_first());
            assert(b =~= seq![b[0]] + b.drop_first());
        }
    } else if a.len() > 0 {
        law_keys_are_ordered_strictly(a.drop_first(), b);
    } else if b.len() == 0 {
        assert(a =~= b);
    }
}

/// Different timestamps have different keys.
pub proof fn law_keys_differ_as_timestamps_do(a: u64, b: u64)
    ensures
        big_endian(a) == big_endian(b) <==> a == b,
{
    law_keys_are_ordered_as_timestamps(a, b);
    law_keys_are_ordered_as_timestamps(b, a);
    law_keys_are_ordered_as_timestamps(a, a);
}

/// Keys are ordered by the first byte in which they differ, and a key comes before every longer key
/// that it begins.
pub proof fn law_first_difference_orders_keys(a: Seq<u8>, b: Seq<u8>, i: int)
    requires
        0 <= i <= a.len(),
        i <= b.len(),
        a.take(i) == b.take(i),
    ensures
        i < a.len() && i < b.len() && a[i] != b[i] ==> (key_before(a, b) <==> a[i] < b[i]),
        i == a.len() ==> (key_before(a, b) <==> i < b.len()),
        i == b.len() ==> !key_before(a, b),
    decreases i,
{
    if i > 0 {
        assert(a[0] == a.take(i)[0] && b[0] == b.take(i)[0]);
        assert(a.drop_first().take(i - 1) =~= a.take(i).drop_first());
        assert(b.drop_first().take(i - 1) =~= b.take(i).drop_first());
        law_first_difference_orders_keys(a.drop_first(), b.drop_first(), i - 1);
    }
}

} // verus!
