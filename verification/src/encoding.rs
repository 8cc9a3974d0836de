//! Text and byte forms of the identifiers that name trees and keys.

use vstd::prelude::*;
use vstd::string::StringExecFns;

verus! {

/// The lower-case hexadecimal digit for `n`, which is below sixteen.
pub open spec fn hex_digit(n: int) -> char {
    if n < 10 {
        ('0' as int + n) as char
    } else {
        ('a' as int + n - 10) as char
    }
}

/// Two lower-case hexadecimal digits for each byte, the high half first.
pub open spec fn lower_hex(bytes: Seq<u8>) -> Seq<char> {
    Seq::new(
        2 * bytes.len(),
        |i: int|
            hex_digit(
                if i % 2 == 0 {
                    bytes[i / 2] as int / 16
                } else {
                    bytes[i / 2] as int % 16
                },
            ),
    )
}

/// The text of one hexadecimal digit.
fn hex_digit_text(n: u8) -> (text: &'static str)
    requires
        n < 16,
    ensures
        text@ == seq![hex_digit(n as int)],
{
    proof {
        reveal_strlit("0");
        reveal_strlit("1");
        reveal_strlit("2");
        reveal_strlit("3");
        reveal_strlit("4");
        reveal_strlit("5");
        reveal_strlit("6");
        reveal_strlit("7");
        reveal_strlit("8");
        reveal_strlit("9");
        reveal_strlit("a");
        reveal_strlit("b");
        reveal_strlit("c");
        reveal_strlit("d");
        reveal_strlit("e");
        reveal_strlit("f");
    }
    match n {
        0 => "0",
        1 => "1",
        2 => "2",
        3 => "3",
        4 => "4",
        5 => "5",
        6 => "6",
        7 => "7",
        8 => "8",
        9 => "9",
        10 => "a",
        11 => "b",
        12 => "c",
        13 => "d",
        14 => "e",
        _ => "f",
    }
}

/// Writes bytes as lower-case hexadecimal text.
pub fn hex_text(bytes: &[u8]) -> (text: String)
    ensures
        text@ == lower_hex(bytes@),
{
    let mut text = String::new();
    let mut i: usize = 0;
    while i < bytes.len()
        invariant
            i <= bytes@.len(),
            text@ == lower_hex(bytes@.take(i as int)),
        decreases bytes@.len() - i,
    {
        let byte: u8 = bytes[i];
        text.append(hex_digit_text(byte / 16));
        text.append(hex_digit_text(byte % 16));
        i = i + 1;
        proof {
            let done = bytes@.take(i as int);
            assert(done.drop_last() =~= bytes@.take(i - 1));
            assert forall|j: int| 0 <= j < 2 * (i - 1) implies lower_hex(bytes@.take(i - 1))[j]
                == lower_hex(done)[j] by {
                assert(done[j / 2] == bytes@.take(i - 1)[j / 2]);
            }
            assert(text@ =~= lower_hex(done));
        }
    }
    assert(bytes@.take(i as int) =~= bytes@);
    text
}

/// The hyphenated form of a UUID: five runs of hexadecimal digits.
pub open spec fn uuid_text(bytes: Seq<u8>) -> Seq<char> {
    lower_hex(bytes.subrange(0, 4)) + seq!['-'] + lower_hex(bytes.subrange(4, 6)) + seq!['-']
        + lower_hex(bytes.subrange(6, 8)) + seq!['-'] + lower_hex(bytes.subrange(8, 10)) + seq!['-']
        + lower_hex(bytes.subrange(10, 16))
}

/// The symbol for `n`, which is below sixty-four, in the standard base64 alphabet.
pub open spec fn base64_symbol(n: int) -> char {
    if n < 26 {
        ('A' as int + n) as char
    } else if n < 52 {
        ('a' as int + n - 26) as char
    } else if n < 62 {
        ('0' as int + n - 52) as char
    } else if n == 62 {
        '+'
    } else {
        '/'
    }
}

/// Bytes in base64: four symbols for each three bytes, six bits each, the last group padded.
pub open spec fn base64_text(bytes: Seq<u8>) -> Seq<char>
    decreases bytes.len(),
{
    if bytes.len() == 0 {
        Seq::empty()
    } else {
        let a = bytes[0] as int;
        let b = if bytes.len() > 1 { bytes[1] as int } else { 0 };
        let c = if bytes.len() > 2 { bytes[2] as int } else { 0 };
        seq![
            base64_symbol(a / 4),
            base64_symbol(a % 4 * 16 + b / 16),
            if bytes.len() > 1 { base64_symbol(b % 16 * 4 + c / 64) } else { '=' },
            if bytes.len() > 2 { base64_symbol(c % 64) } else { '=' },
        ] + (if bytes.len() > 3 { base64_text(bytes.skip(3)) } else { Seq::empty() })
    }
}

pub proof fn lemma_lower_hex_is_ascii(bytes: Seq<u8>)
    ensures
        vstd::utf8::is_ascii_chars(lower_hex(bytes)),
{
}

proof fn lemma_hex_digit_is_injective(m: int, n: int)
    requires
        0 <= m < 16,
        0 <= n < 16,
        hex_digit(m) == hex_digit(n),
    ensures
        m == n,
{
}

proof fn lemma_digits_of_byte(bytes: Seq<u8>, i: int)
    requires
        0 <= i < bytes.len(),
    ensures
        lower_hex(bytes)[2 * i] == hex_digit(bytes[i] as int / 16),
        lower_hex(bytes)[2 * i + 1] == hex_digit(bytes[i] as int % 16),
{
    assert(2 * i / 2 == i && (2 * i + 1) / 2 == i);
    assert(2 * i % 2 == 0 && (2 * i + 1) % 2 == 1);
}

/// Different bytes have different hexadecimal forms.
pub proof fn lemma_lower_hex_is_injective(a: Seq<u8>, b: Seq<u8>)
    requires
        lower_hex(a) == lower_hex(b),
    ensures
        a == b,
{
    assert(2 * a.len() == lower_hex(a).len() && 2 * b.len() == lower_hex(b).len());
    assert forall|i: int| 0 <= i < a.len() implies a[i] == b[i] by {
        lemma_digits_of_byte(a, i);
        lemma_digits_of_byte(b, i);
        lemma_hex_digit_is_injective(a[i] as int / 16, b[i] as int / 16);
        lemma_hex_digit_is_injective(a[i] as int % 16, b[i] as int % 16);
    }
    assert(a =~= b);
}

/// Different UUIDs have different hyphenated forms.
pub proof fn lemma_uuid_text_is_injective(a: Seq<u8>, b: Seq<u8>)
    requires
        a.len() == 16,
        b.len() == 16,
        uuid_text(a) == uuid_text(b),
    ensures
        a == b,
{
    assert forall|s: Seq<u8>| s.len() == 16 implies {
        &&& (#[trigger] uuid_text(s)).subrange(0, 8) == lower_hex(s.subrange(0, 4))
        &&& uuid_text(s).subrange(9, 13) == lower_hex(s.subrange(4, 6))
        &&& uuid_text(s).subrange(14, 18) == lower_hex(s.subrange(6, 8))
        &&& uuid_text(s).subrange(19, 23) == lower_hex(s.subrange(8, 10))
        &&& uuid_text(s).subrange(24, 36) == lower_hex(s.subrange(10, 16))
    } by {
        assert(uuid_text(s).subrange(0, 8) =~= lower_hex(s.subrange(0, 4)));
        assert(uuid_text(s).subrange(9, 13) =~= lower_hex(s.subrange(4, 6)));
        assert(uuid_text(s).subrange(14, 18) =~= lower_hex(s.subrange(6, 8)));
        assert(uuid_text(s).subrange(19, 23) =~= lower_hex(s.subrange(8, 10)));
        assert(uuid_text(s).subrange(24, 36) =~= lower_hex(s.subrange(10, 16)));
    }
    lemma_lower_hex_is_injective(a.subrange(0, 4), b.subrange(0, 4));
    lemma_lower_hex_is_injective(a.subrange(4, 6), b.subrange(4, 6));
    lemma_lower_hex_is_injective(a.subrange(6, 8), b.subrange(6, 8));
    lemma_lower_hex_is_injective(a.subrange(8, 10), b.subrange(8, 10));
    lemma_lower_hex_is_injective(a.subrange(10, 16), b.subrange(10, 16));
    assert(a =~= a.subrange(0, 4) + a.subrange(4, 6) + a.subrange(6, 8) + a.subrange(8, 10)
        + a.subrange(10, 16));
    assert(b =~= b.subrange(0, 4) + b.subrange(4, 6) + b.subrange(6, 8) + b.subrange(8, 10)
        + b.subrange(10, 16));
}

proof fn lemma_base64_symbol_is_injective(m: int, n: int)
    requires
        0 <= m < 64,
        0 <= n < 64,
        base64_symbol(m) == base64_symbol(n),
    ensures
        m == n,
{
}

/// Different byte strings of one length have different base64 forms.
pub proof fn lemma_base64_text_is_injective(a: Seq<u8>, b: Seq<u8>)
    requires
        a.len() == b.len(),
        base64_text(a) == base64_text(b),
    ensures
        a == b,
    decreases a.len(),
{
    if a.len() == 0 {
        assert(a =~= b);
    } else {
        let x = base64_text(a);
        let y = base64_text(b);
        let (a0, b0) = (a[0] as int, b[0] as int);
        let (a1, b1) = if a.len() > 1 { (a[1] as int, b[1] as int) } else { (0, 0) };
        let (a2, b2) = if a.len() > 2 { (a[2] as int, b[2] as int) } else { (0, 0) };
        assert(x[0] == y[0] && x[1] == y[1] && x[2] == y[2] && x[3] == y[3]);
        lemma_base64_symbol_is_injective(a0 / 4, b0 / 4);
        lemma_base64_symbol_is_injective(a0 % 4 * 16 + a1 / 16, b0 % 4 * 16 + b1 / 16);
        if a.len() > 1 {
            lemma_base64_symbol_is_injective(a1 % 16 * 4 + a2 / 64, b1 % 16 * 4 + b2 / 64);
        }
        if a.len() > 2 {
            lemma_base64_symbol_is_injective(a2 % 64, b2 % 64);
        }
        if a.len() > 3 {
            assert(x.skip(4) =~= base64_text(a.skip(3)));
            assert(y.skip(4) =~= base64_text(b.skip(3)));
            lemma_base64_text_is_injective(a.skip(3), b.skip(3));
            assert forall|i: int| 3 <= i < a.len() implies a[i] == b[i] by {
                assert(a.skip(3)[i - 3] == b.skip(3)[i - 3]);
            }
        }
        assert(a =~= b);
    }
}

} // verus!
