//! Bytes in hexadecimal.

use crate::text::{chars_of, string_of};
use vstd::prelude::*;

verus! {

/// The hexadecimal digit of `n`, in small letters.
pub open spec fn hex_digit(n: nat) -> char {
    if n < 10 {
        (('0' as u32 + n) as u8) as char
    } else {
        (('a' as u32 + n - 10) as u8) as char
    }
}

/// The value of a hexadecimal digit, in small letters or capitals.
pub open spec fn hex_value(c: char) -> Option<nat> {
    if '0' <= c <= '9' {
        Some((c as u32 - '0' as u32) as nat)
    } else if 'a' <= c <= 'f' {
        Some((c as u32 - 'a' as u32 + 10) as nat)
    } else if 'A' <= c <= 'F' {
        Some((c as u32 - 'A' as u32 + 10) as nat)
    } else {
        None
    }
}

/// Two small hexadecimal digits for each byte.
pub open spec fn hex_text(b: Seq<u8>) -> Seq<char>
    decreases b.len(),
{
    if b.len() == 0 {
        Seq::empty()
    } else {
        hex_text(b.drop_last()).push(hex_digit(b.last() as nat / 16)).push(hex_digit(b.last() as nat % 16))
    }
}

/// Every character of `s` is a hexadecimal digit.
pub open spec fn all_hex(s: Seq<char>) -> bool {
    forall|i: int| 0 <= i < s.len() ==> hex_value(#[trigger] s[i]) is Some
}

/// A text of `n` pairs of hexadecimal digits.
pub open spec fn is_hex(s: Seq<char>, n: nat) -> bool {
    s.len() == 2 * n && all_hex(s)
}

/// The bytes that pairs of hexadecimal digits stand for.
pub open spec fn hex_bytes(s: Seq<char>) -> Seq<u8> {
    Seq::new(
        s.len() / 2,
        |i: int| (hex_value(s[2 * i])->0 * 16 + hex_value(s[2 * i + 1])->0) as u8,
    )
}

/// The hexadecimal digit of `n`.
pub fn digit_of(n: u8) -> (r: char)
    requires
        n < 16,
    ensures
        r == hex_digit(n as nat),
{
    if n < 10 {
        (('0' as u32 + n as u32) as u8) as char
    } else {
        (('a' as u32 + n as u32 - 10) as u8) as char
    }
}

/// The value of a hexadecimal digit.
pub fn value_of(c: char) -> (r: Option<u8>)
    ensures
        match r {
            Some(v) => hex_value(c) == Some(v as nat) && v < 16,
            None => hex_value(c) is None,
        },
{
    if '0' <= c && c <= '9' {
        Some((c as u32 - '0' as u32) as u8)
    } else if 'a' <= c && c <= 'f' {
        Some((c as u32 - 'a' as u32 + 10) as u8)
    } else if 'A' <= c && c <= 'F' {
        Some((c as u32 - 'A' as u32 + 10) as u8)
    } else {
        None
    }
}

/// Two small hexadecimal digits for each byte.
pub fn to_hex(bytes: &[u8]) -> (r: String)
    ensures
        r@ == hex_text(bytes@),
{
    let mut out: Vec<char> = Vec::new();
    let mut i: usize = 0;
    while i < bytes.len()
        invariant
            i <= bytes@.len(),
            out@ == hex_text(bytes@.take(i as int)),
        decreases bytes@.len() - i,
    {
        let b: u8 = bytes[i];
        out.push(digit_of(b / 16));
        out.push(digit_of(b % 16));
        i = i + 1;
        proof {
            let t = bytes@.take(i as int);
            assert(t.drop_last() =~= bytes@.take(i - 1));
            assert(t.last() == b);
        }
    }
    proof {
        assert(bytes@.take(i as int) =~= bytes@);
    }
    string_of(&out)
}

/// The bytes of a text that is `2 * n` hexadecimal digits, none for any other text.
pub fn from_hex(s: &str, n: usize) -> (r: Option<Vec<u8>>)
    ensures
        match r {
            Some(b) => is_hex(s@, n as nat) && b@ == hex_bytes(s@),
            None => !is_hex(s@, n as nat),
        },
{
    let chars = chars_of(s);
    if n > chars.len() / 2 || chars.len() != 2 * n {
        return None;
    }
    let mut out: Vec<u8> = Vec::new();
    let mut i: usize = 0;
    while i < n
        invariant
            i <= n,
            chars@ == s@,
            s@.len() == 2 * n <= usize::MAX,
            out@ == hex_bytes(s@).take(i as int),
            forall|k: int| 0 <= k < 2 * i ==> hex_value(#[trigger] s@[k]) is Some,
        decreases n - i,
    {
        match (value_of(chars[2 * i]), value_of(chars[2 * i + 1])) {
            (Some(a), Some(b)) => {
                out.push(a * 16 + b);
            },
            _ => {
                proof {
                    assert(hex_value(s@[2 * i]) is None || hex_value(s@[2 * i + 1]) is None);
                }
                return None;
            },
        }
        i = i + 1;
        proof {
            assert(out@ =~= hex_bytes(s@).take(i as int));
        }
    }
    proof {
        assert(out@ =~= hex_bytes(s@));
    }
    Some(out)
}

/// What [`hex_text`] writes: two digits a byte, each the digit of its half.
pub proof fn lemma_hex_text(b: Seq<u8>)
    ensures
        hex_text(b).len() == 2 * b.len(),
        forall|i: int| 0 <= i < b.len() ==> #[trigger] hex_text(b)[2 * i] == hex_digit(b[i] as nat / 16),
        forall|i: int| 0 <= i < b.len() ==> #[trigger] hex_text(b)[2 * i + 1] == hex_digit(b[i] as nat % 16),
    decreases b.len(),
{
    if b.len() > 0 {
        let t = b.drop_last();
        lemma_hex_text(t);
        assert forall|i: int| 0 <= i < b.len() implies #[trigger] hex_text(b)[2 * i] == hex_digit(b[i] as nat / 16) by {
            if i < t.len() {
                assert(hex_text(b)[2 * i] == hex_text(t)[2 * i]);
                assert(t[i] == b[i]);
            }
        }
        assert forall|i: int| 0 <= i < b.len() implies #[trigger] hex_text(b)[2 * i + 1] == hex_digit(
            b[i] as nat % 16,
        ) by {
            if i < t.len() {
                assert(hex_text(b)[2 * i + 1] == hex_text(t)[2 * i + 1]);
                assert(t[i] == b[i]);
            }
        }
    }
}

/// Reading back what was written in hexadecimal gives the bytes.
pub proof fn lemma_hex_round_trip(b: Seq<u8>)
    ensures
        is_hex(hex_text(b), b.len()),
        hex_bytes(hex_text(b)) == b,
{
    lemma_hex_text(b);
    let s = hex_text(b);
    assert forall|k: int| 0 <= k < s.len() implies hex_value(#[trigger] s[k]) is Some by {
        let i = k / 2;
        if k % 2 == 0 {
            assert(s[2 * i] == hex_digit(b[i] as nat / 16));
        } else {
            assert(s[2 * i + 1] == hex_digit(b[i] as nat % 16));
        }
    }
    assert forall|i: int| 0 <= i < b.len() implies #[trigger] hex_bytes(s)[i] == b[i] by {
        assert(s[2 * i] == hex_digit(b[i] as nat / 16));
        assert(s[2 * i + 1] == hex_digit(b[i] as nat % 16));
        assert(hex_value(s[2 * i]) == Some(b[i] as nat / 16));
        assert(hex_value(s[2 * i + 1]) == Some(b[i] as nat % 16));
    }
    assert(hex_bytes(s) =~= b);
}

/// No byte is written with a `:` or any other character that is not a small
/// hexadecimal digit.
pub proof fn lemma_hex_text_small(b: Seq<u8>)
    ensures
        forall|k: int|
            0 <= k < hex_text(b).len() ==> ('0' <= #[trigger] hex_text(b)[k] <= '9' || 'a' <= hex_text(b)[k] <= 'f'),
{
    lemma_hex_text(b);
    let s = hex_text(b);
    assert forall|k: int| 0 <= k < s.len() implies ('0' <= #[trigger] s[k] <= '9' || 'a' <= s[k] <= 'f') by {
        let i = k / 2;
        if k % 2 == 0 {
            assert(s[2 * i] == hex_digit(b[i] as nat / 16));
        } else {
            assert(s[2 * i + 1] == hex_digit(b[i] as nat % 16));
        }
    }
}

/// Hexadecimal digits are written in small letters and read in either case, the high half of a byte first.
pub proof fn law_hexadecimal(b: u8, n: nat)
    requires
        n < 16,
    ensures
        n < 10 ==> hex_digit(n) as u32 == '0' as u32 + n,
        n >= 10 ==> hex_digit(n) as u32 == 'a' as u32 + (n - 10),
        hex_value(hex_digit(n)) == Some(n),
        hex_text(seq![b]) == seq![hex_digit(b as nat / 16), hex_digit(b as nat % 16)],
        hex_value('a') == Some(10nat) && hex_value('A') == Some(10nat) && hex_value('f') == Some(15nat) && hex_value('F')
            == Some(15nat) && hex_value('g') is None && hex_value('-') is None && hex_value(' ') is None,
{
    let one = seq![b];
    assert(one.drop_last() =~= Seq::<u8>::empty());
    assert(hex_text(one.drop_last()) =~= Seq::<char>::empty());
    assert(hex_text(one) =~= seq![hex_digit(b as nat / 16), hex_digit(b as nat % 16)]);
}

} // verus!
