//! The forms that dates, release ids and tag keys have.

use crate::hex::{all_hex, hex_value, value_of};
use crate::split::split;
use crate::text::{
    all_digits, chars_of, decimal_value, digits_of_len, joined, law_split_at_the_first_separator,
    law_split_is_undone_by_join, law_trimming_cuts_the_ends, law_unsplit_text, parse_decimal,
    same_text, slice_text, split_on, texts, trim, trimmed,
};
use crate::unicode::{capital_text, to_capitals};
use vstd::prelude::*;
use vstd::string::*;

verus! {

/// Two digits that make a number from `lo` to `hi`.
pub open spec fn two_digits_within(s: Seq<char>, lo: nat, hi: nat) -> bool {
    s.len() == 2 && all_digits(s) && lo <= decimal_value(s) <= hi
}

/// A year, a year and a month, or a year, a month and a day, with `-` between.
pub open spec fn valid_date(s: Seq<char>) -> bool {
    let p = split_on(s, '-');
    &&& 1 <= p.len() <= 3
    &&& p[0].len() == 4 && all_digits(p[0])
    &&& p.len() > 1 ==> two_digits_within(p[1], 1, 12)
    &&& p.len() > 2 ==> two_digits_within(p[2], 1, 31)
}

fn two_digits(s: &str, lo: u64, hi: u64) -> (r: bool)
    ensures
        r == two_digits_within(s@, lo as nat, hi as nat),
{
    if !digits_of_len(s, 2) {
        return false;
    }
    let chars = chars_of(s);
    match parse_decimal(&chars, hi) {
        Some(v) => lo <= v,
        None => false,
    }
}

/// Whether `s` is a date (see [`valid_date`]).
pub fn is_valid_date(s: &str) -> (r: bool)
    ensures
        r == valid_date(s@),
{
    let parts = split(s, '-');
    let ghost p = texts(parts@);
    proof {
        assert(p.len() == parts@.len());
        assert(forall|i: int| 0 <= i < parts@.len() ==> p[i] == (#[trigger] parts@[i])@);
    }
    if parts.len() > 3 {
        return false;
    }
    if !digits_of_len(&parts[0], 4) {
        return false;
    }
    if parts.len() > 1 && !two_digits(&parts[1], 1, 12) {
        return false;
    }
    if parts.len() > 2 && !two_digits(&parts[2], 1, 31) {
        return false;
    }
    true
}

/// The lengths of the parts of a release id.
pub open spec fn mbid_part_len(i: int) -> nat {
    if i == 0 {
        8
    } else if i == 4 {
        12
    } else {
        4
    }
}

/// Five groups of hexadecimal digits with `-` between, in either case.
pub open spec fn valid_mbid(s: Seq<char>) -> bool {
    let p = split_on(s, '-');
    &&& p.len() == 5
    &&& forall|i: int| 0 <= i < 5 ==> (#[trigger] p[i]).len() == mbid_part_len(i) && all_hex(p[i])
}

fn hex_of_len(s: &str, n: usize) -> (r: bool)
    ensures
        r == (s@.len() == n && all_hex(s@)),
{
    let chars = chars_of(s);
    if chars.len() != n {
        return false;
    }
    let mut i: usize = 0;
    while i < chars.len()
        invariant
            i <= chars@.len(),
            chars@ == s@,
            forall|k: int| 0 <= k < i ==> hex_value(#[trigger] s@[k]) is Some,
        decreases chars@.len() - i,
    {
        if value_of(chars[i]).is_none() {
            proof {
                assert(hex_value(s@[i as int]) is None);
            }
            return false;
        }
        i = i + 1;
    }
    true
}

/// Whether `s` is the id of a release (see [`valid_mbid`]).
pub fn is_mbid(s: &str) -> (r: bool)
    ensures
        r == valid_mbid(s@),
{
    let parts = split(s, '-');
    let ghost p = texts(parts@);
    proof {
        assert(p.len() == parts@.len());
        assert(forall|i: int| 0 <= i < parts@.len() ==> p[i] == (#[trigger] parts@[i])@);
    }
    if parts.len() != 5 {
        return false;
    }
    let mut i: usize = 0;
    while i < 5
        invariant
            i <= 5,
            parts@.len() == 5,
            p == texts(parts@),
            p == split_on(s@, '-'),
            forall|k: int| 0 <= k < i ==> (#[trigger] p[k]).len() == mbid_part_len(k) && all_hex(p[k]),
        decreases 5 - i,
    {
        let n: usize = if i == 0 {
            8
        } else if i == 4 {
            12
        } else {
            4
        };
        proof {
            assert(p[i as int] == parts@[i as int]@);
        }
        if !hex_of_len(&parts[i], n) {
            return false;
        }
        i = i + 1;
    }
    true
}

/// Every character is printable ASCII up to `}` and none is `=`.
pub open spec fn tag_key_chars(s: Seq<char>) -> bool {
    forall|i: int| 0 <= i < s.len() ==> ' ' <= #[trigger] s[i] <= '}' && s[i] != '='
}

/// Whether every character may stand in a tag key.
pub fn has_tag_key_chars(s: &str) -> (r: bool)
    ensures
        r == tag_key_chars(s@),
{
    let chars = chars_of(s);
    let mut i: usize = 0;
    while i < chars.len()
        invariant
            i <= chars@.len(),
            chars@ == s@,
            forall|k: int| 0 <= k < i ==> ' ' <= #[trigger] s@[k] <= '}' && s@[k] != '=',
        decreases chars@.len() - i,
    {
        let c: char = chars[i];
        if !(' ' <= c && c <= '}' && c != '=') {
            proof {
                assert(!(' ' <= s@[i as int] <= '}' && s@[i as int] != '='));
            }
            return false;
        }
        i = i + 1;
    }
    true
}

/// A tag key as it is stored: not empty, no space around it, in capitals, of
/// characters that may stand there.
pub open spec fn valid_tag_key(key: Seq<char>) -> bool {
    key.len() > 0 && key == trimmed(key) && key == capital_text(key) && tag_key_chars(key)
}

/// Whether `key` is a tag key as it is stored (see [`valid_tag_key`]).
pub fn is_valid_tag_key(key: &str) -> (r: bool)
    ensures
        r == valid_tag_key(key@),
{
    if key.is_empty() {
        return false;
    }
    let t = trim(key);
    if !same_text(key, &t) {
        return false;
    }
    let c = to_capitals(key);
    same_text(key, &c) && has_tag_key_chars(key)
}

/// The year that a text starts with: four digits.
pub open spec fn year_text(s: Seq<char>) -> Option<Seq<char>> {
    if s.len() >= 4 && all_digits(s.take(4)) {
        Some(s.take(4))
    } else {
        None
    }
}

/// The year that a text starts with.
pub fn year_of(s: &str) -> (r: Option<String>)
    ensures
        match r {
            Some(y) => year_text(s@) == Some(y@),
            None => year_text(s@) is None,
        },
{
    let chars = chars_of(s);
    if chars.len() < 4 {
        return None;
    }
    let y = slice_text(&chars, 0, 4);
    proof {
        assert(s@.subrange(0, 4) =~= s@.take(4));
    }
    if digits_of_len(&y, 4) {
        Some(y)
    } else {
        None
    }
}

/// A year is what the first four characters say where they are digits; nothing else is one.
pub proof fn law_year_is_four_digits(y: Seq<char>, rest: Seq<char>)
    requires
        y.len() == 4,
    ensures
        all_digits(y) ==> year_text(y + rest) == Some(y),
        !all_digits(y) ==> year_text(y + rest) is None,
        rest.len() < 4 ==> year_text(rest) is None,
{
    assert((y + rest).take(4) =~= y);
}

/// A date is a year, a year and a month, or a year, a month and a day, with dashes between them: four digits
/// and twice two, the month from 1 to 12 and the day from 1 to 31.
pub proof fn law_forms_of_a_date(y: Seq<char>, m: Seq<char>, d: Seq<char>)
    requires
        !y.contains('-'),
        !m.contains('-'),
        !d.contains('-'),
    ensures
        valid_date(y) <==> y.len() == 4 && all_digits(y),
        valid_date(y + seq!['-'] + m) <==> y.len() == 4 && all_digits(y) && m.len() == 2 && all_digits(m) && 1
            <= decimal_value(m) <= 12,
        valid_date(y + seq!['-'] + (m + seq!['-'] + d)) <==> y.len() == 4 && all_digits(y) && m.len() == 2 && all_digits(
            m,
        ) && 1 <= decimal_value(m) <= 12 && d.len() == 2 && all_digits(d) && 1 <= decimal_value(d) <= 31,
{
    law_unsplit_text(y, '-');
    law_unsplit_text(m, '-');
    law_unsplit_text(d, '-');
    law_split_at_the_first_separator(y, m, '-');
    law_split_at_the_first_separator(m, d, '-');
    law_split_at_the_first_separator(y, m + seq!['-'] + d, '-');
    let two = split_on(y + seq!['-'] + m, '-');
    assert(two.len() == 2 && two[0] == y && two[1] == m);
    let three = split_on(y + seq!['-'] + (m + seq!['-'] + d), '-');
    assert(three.len() == 3 && three[0] == y && three[1] == m && three[2] == d);
}

/// An id of MusicBrainz is five groups of hexadecimal digits with dashes between them, of 8, 4, 4, 4 and 12
/// digits: 36 characters in all.
pub proof fn law_forms_of_an_id(s: Seq<char>)
    ensures
        valid_mbid(s) <==> split_on(s, '-').len() == 5 && split_on(s, '-')[0].len() == 8 && split_on(s, '-')[1].len()
            == 4 && split_on(s, '-')[2].len() == 4 && split_on(s, '-')[3].len() == 4 && split_on(s, '-')[4].len() == 12
            && (forall|i: int| 0 <= i < 5 ==> all_hex(#[trigger] split_on(s, '-')[i])),
        valid_mbid(s) ==> s.len() == 36 && s[8] == '-' && s[13] == '-' && s[18] == '-' && s[23] == '-',
{
    let p = split_on(s, '-');
    law_split_is_undone_by_join(s, '-');
    if p.len() == 5 {
        let c = seq!['-'];
        let p4 = p.drop_last();
        let p3 = p4.drop_last();
        let p2 = p3.drop_last();
        let p1 = p2.drop_last();
        assert(joined(p1, c) == p[0]);
        assert(joined(p2, c) == p[0] + c + p[1]);
        assert(joined(p3, c) == p[0] + c + p[1] + c + p[2]);
        assert(joined(p4, c) == p[0] + c + p[1] + c + p[2] + c + p[3]);
        assert(joined(p, c) == p[0] + c + p[1] + c + p[2] + c + p[3] + c + p[4]);
    }
}

/// A key of a tag says something, has no space at its ends, no small letter and no equals sign.
pub proof fn law_forms_of_a_key(key: Seq<char>, i: int)
    requires
        valid_tag_key(key),
        0 <= i < key.len(),
    ensures
        key[i] != '=',
        ' ' <= key[i] <= '}',
        key[0] != ' ' && key[key.len() - 1] != ' ',
        key == capital_text(key),
{
    let cut = law_trimming_cuts_the_ends(key);
    assert(cut.1 - cut.0 == key.len());
}

} // verus!
