//! Text as a sequence of characters: the handful of string operations that the
//! rules of the library are written with, each with an exact contract.

use vstd::prelude::*;
use vstd::string::*;

verus! {

// ---------------------------------------------------------------- models

/// The views of a sequence of strings.
pub open spec fn texts(v: Seq<String>) -> Seq<Seq<char>> {
    v.map_values(|s: String| s@)
}

/// The view of an optional string.
pub open spec fn opt_text(o: Option<String>) -> Option<Seq<char>> {
    match o {
        Some(s) => Some(s@),
        None => None,
    }
}

/// The view of an optional string slice.
pub open spec fn opt_str(o: Option<&str>) -> Option<Seq<char>> {
    match o {
        Some(s) => Some(s@),
        None => None,
    }
}

/// White space as Unicode defines it (`White_Space`).
pub open spec fn is_white(c: char) -> bool {
    ||| '\u{9}' <= c <= '\u{d}'
    ||| c == ' '
    ||| c == '\u{85}'
    ||| c == '\u{a0}'
    ||| c == '\u{1680}'
    ||| '\u{2000}' <= c <= '\u{200a}'
    ||| c == '\u{2028}'
    ||| c == '\u{2029}'
    ||| c == '\u{202f}'
    ||| c == '\u{205f}'
    ||| c == '\u{3000}'
}

/// A control character (general category `Cc`).
pub open spec fn is_control(c: char) -> bool {
    c <= '\u{1f}' || '\u{7f}' <= c <= '\u{9f}'
}

/// An ASCII digit.
pub open spec fn is_digit(c: char) -> bool {
    '0' <= c <= '9'
}

/// Every character of `s` is an ASCII digit.
pub open spec fn all_digits(s: Seq<char>) -> bool {
    forall|i: int| 0 <= i < s.len() ==> is_digit(#[trigger] s[i])
}

/// `s` without the white space it starts with.
pub open spec fn trim_start(s: Seq<char>) -> Seq<char>
    decreases s.len(),
{
    if s.len() > 0 && is_white(s[0]) {
        trim_start(s.drop_first())
    } else {
        s
    }
}

/// `s` without the white space it ends with.
pub open spec fn trim_end(s: Seq<char>) -> Seq<char>
    decreases s.len(),
{
    if s.len() > 0 && is_white(s.last()) {
        trim_end(s.drop_last())
    } else {
        s
    }
}

/// `s` without the white space around it.
pub open spec fn trimmed(s: Seq<char>) -> Seq<char> {
    trim_end(trim_start(s))
}

/// `s` holds nothing but white space.
pub open spec fn is_blank(s: Seq<char>) -> bool {
    trimmed(s).len() == 0
}

/// An ASCII capital becomes its small letter, every other character stays.
pub open spec fn lower_char(c: char) -> char {
    if 'A' <= c <= 'Z' {
        ((c as u32 + 32) as u8) as char
    } else {
        c
    }
}

/// An ASCII small letter becomes its capital, every other character stays.
pub open spec fn upper_char(c: char) -> char {
    if 'a' <= c <= 'z' {
        ((c as u32 - 32) as u8) as char
    } else {
        c
    }
}

/// `s` with its ASCII capitals as small letters.
pub open spec fn ascii_lower(s: Seq<char>) -> Seq<char> {
    s.map_values(|c: char| lower_char(c))
}

/// `s` with its ASCII small letters as capitals.
pub open spec fn ascii_upper(s: Seq<char>) -> Seq<char> {
    s.map_values(|c: char| upper_char(c))
}

/// The decimal digit of `d`.
pub open spec fn digit_char(d: nat) -> char {
    (('0' as u32 + d) as u8) as char
}

/// `n` in decimal.
pub open spec fn nat_text(n: nat) -> Seq<char>
    decreases n,
{
    if n < 10 {
        seq![digit_char(n)]
    } else {
        nat_text(n / 10).push(digit_char(n % 10))
    }
}

/// `n` in decimal, with a minus sign where it is negative.
pub open spec fn int_text(n: int) -> Seq<char> {
    if n < 0 {
        seq!['-'] + nat_text((-n) as nat)
    } else {
        nat_text(n as nat)
    }
}

/// The number that a sequence of digits stands for in decimal.
pub open spec fn decimal_value(s: Seq<char>) -> nat
    decreases s.len(),
{
    if s.len() == 0 {
        0
    } else {
        decimal_value(s.drop_last()) * 10 + (s.last() as u32 - '0' as u32) as nat
    }
}

/// The longest prefix of `s` that is made of digits.
pub open spec fn leading_digits(s: Seq<char>) -> Seq<char>
    decreases s.len(),
{
    if s.len() > 0 && is_digit(s[0]) {
        seq![s[0]] + leading_digits(s.drop_first())
    } else {
        Seq::empty()
    }
}

/// The integer that `s` starts with, white space aside; none where there is no
/// digit or the number does not fit.
pub open spec fn leading_number(s: Seq<char>) -> Option<i64> {
    let d = leading_digits(trimmed(s));
    if d.len() > 0 && decimal_value(d) <= i64::MAX {
        Some(decimal_value(d) as i64)
    } else {
        None
    }
}

/// The parts of `s` between the separators `c`; one part more than separators.
pub open spec fn split_on(s: Seq<char>, c: char) -> Seq<Seq<char>>
    decreases s.len(),
{
    if s.len() == 0 {
        seq![Seq::<char>::empty()]
    } else {
        let p = split_on(s.drop_last(), c);
        if s.last() == c {
            p.push(Seq::empty())
        } else {
            p.update(p.len() - 1, p.last().push(s.last()))
        }
    }
}

/// `parts` with `sep` between them.
pub open spec fn joined(parts: Seq<Seq<char>>, sep: Seq<char>) -> Seq<char>
    decreases parts.len(),
{
    if parts.len() == 0 {
        Seq::empty()
    } else if parts.len() == 1 {
        parts[0]
    } else {
        joined(parts.drop_last(), sep) + sep + parts.last()
    }
}

/// The words of `s`: its maximal runs of characters that are not white space.
pub open spec fn words(s: Seq<char>) -> Seq<Seq<char>>
    decreases s.len(),
{
    if s.len() == 0 {
        Seq::empty()
    } else {
        let w = words(s.drop_last());
        if is_white(s.last()) {
            w
        } else if s.len() == 1 || is_white(s[s.len() - 2]) {
            w.push(seq![s.last()])
        } else {
            w.update(w.len() - 1, w.last().push(s.last()))
        }
    }
}

/// Where `c` occurs last in `s`.
pub open spec fn last_index(s: Seq<char>, c: char) -> Option<int>
    decreases s.len(),
{
    if s.len() == 0 {
        None
    } else if s.last() == c {
        Some(s.len() - 1)
    } else {
        last_index(s.drop_last(), c)
    }
}

/// `s` starts with `p`.
pub open spec fn starts_with(s: Seq<char>, p: Seq<char>) -> bool {
    p.len() <= s.len() && s.take(p.len() as int) == p
}

/// `s` ends with `p`.
pub open spec fn ends_with(s: Seq<char>, p: Seq<char>) -> bool {
    p.len() <= s.len() && s.skip(s.len() - p.len()) == p
}

/// `p` occurs in `s` at position `at`.
pub open spec fn occurs_at(s: Seq<char>, p: Seq<char>, at: int) -> bool {
    0 <= at <= s.len() && starts_with(s.skip(at), p)
}

/// `p` occurs in `s`.
pub open spec fn contains_text(s: Seq<char>, p: Seq<char>) -> bool {
    exists|at: int| #[trigger] occurs_at(s, p, at)
}

/// The order of two texts by their characters, as in a dictionary.
pub open spec fn text_less(a: Seq<char>, b: Seq<char>) -> bool
    decreases a.len(),
{
    if b.len() == 0 {
        false
    } else if a.len() == 0 {
        true
    } else if a[0] != b[0] {
        a[0] < b[0]
    } else {
        text_less(a.drop_first(), b.drop_first())
    }
}

// ---------------------------------------------------------------- conversions

/// The characters of `s`.
pub fn chars_of(s: &str) -> (r: Vec<char>)
    ensures
        r@ == s@,
{
    let mut out: Vec<char> = Vec::new();
    for c in it: s.chars()
        invariant
            it.seq() == s@,
            out@ == s@.take(it.index()),
    {
        proof {
            assert(s@.take(it.index() + 1) =~= s@.take(it.index()).push(c));
        }
        out.push(c);
    }
    proof {
        assert(s@.take(s@.len() as int) =~= s@);
    }
    out
}

/// Collects characters into a string, by `String::from_iter`: the string holds
/// these characters in this order.
#[verifier::external_body]
pub(crate) fn string_of(chars: &Vec<char>) -> (r: String)
    ensures
        r@ == chars@,
{
    String::from_iter(chars)
}

/// Whether two texts are the same.
pub fn same_text(a: &str, b: &str) -> (r: bool)
    ensures
        r == (a@ == b@),
{
    if a.len() != b.len() {
        return false;
    }
    a.to_owned() == b.to_owned()
}

/// `a` followed by `b`.
pub fn concat2(a: &str, b: &str) -> (r: String)
    ensures
        r@ == a@ + b@,
{
    let mut s = a.to_owned();
    s.append(b);
    s
}

/// `a` followed by `b` and `c`.
pub fn concat3(a: &str, b: &str, c: &str) -> (r: String)
    ensures
        r@ == a@ + b@ + c@,
{
    let mut s = a.to_owned();
    s.append(b);
    s.append(c);
    s
}

/// `a` followed by `b`, `c` and `d`.
pub fn concat4(a: &str, b: &str, c: &str, d: &str) -> (r: String)
    ensures
        r@ == a@ + b@ + c@ + d@,
{
    let mut s = a.to_owned();
    s.append(b);
    s.append(c);
    s.append(d);
    s
}

/// `a` followed by `b`, `c`, `d` and `e`.
pub fn concat5(a: &str, b: &str, c: &str, d: &str, e: &str) -> (r: String)
    ensures
        r@ == a@ + b@ + c@ + d@ + e@,
{
    let mut s = a.to_owned();
    s.append(b);
    s.append(c);
    s.append(d);
    s.append(e);
    s
}

/// The part of `chars` from `from` up to `to`, as a string.
pub fn slice_text(chars: &Vec<char>, from: usize, to: usize) -> (r: String)
    requires
        from <= to <= chars@.len(),
    ensures
        r@ == chars@.subrange(from as int, to as int),
{
    let mut out: Vec<char> = Vec::new();
    let mut i: usize = from;
    while i < to
        invariant
            from <= i <= to <= chars@.len(),
            out@ == chars@.subrange(from as int, i as int),
        decreases to - i,
    {
        proof {
            assert(chars@.subrange(from as int, i + 1) =~= chars@.subrange(from as int, i as int).push(chars@[i as int]));
        }
        out.push(chars[i]);
        i = i + 1;
    }
    string_of(&out)
}

// ---------------------------------------------------------------- characters

/// Whether `c` is white space.
pub fn white(c: char) -> (r: bool)
    ensures
        r == is_white(c),
{
    ('\u{9}' <= c && c <= '\u{d}') || c == ' ' || c == '\u{85}' || c == '\u{a0}' || c == '\u{1680}'
        || ('\u{2000}' <= c && c <= '\u{200a}') || c == '\u{2028}' || c == '\u{2029}'
        || c == '\u{202f}' || c == '\u{205f}' || c == '\u{3000}'
}

/// Whether `c` is a control character.
pub fn control(c: char) -> (r: bool)
    ensures
        r == is_control(c),
{
    c <= '\u{1f}' || ('\u{7f}' <= c && c <= '\u{9f}')
}

/// Whether `c` is an ASCII digit.
pub fn digit(c: char) -> (r: bool)
    ensures
        r == is_digit(c),
{
    '0' <= c && c <= '9'
}

/// The small letter of an ASCII capital.
pub fn to_lower(c: char) -> (r: char)
    ensures
        r == lower_char(c),
{
    if 'A' <= c && c <= 'Z' {
        ((c as u32 + 32) as u8) as char
    } else {
        c
    }
}

/// The capital of an ASCII small letter.
pub fn to_upper(c: char) -> (r: char)
    ensures
        r == upper_char(c),
{
    if 'a' <= c && c <= 'z' {
        ((c as u32 - 32) as u8) as char
    } else {
        c
    }
}

/// `s` with its ASCII capitals as small letters.
pub fn lower_text(s: &str) -> (r: String)
    ensures
        r@ == ascii_lower(s@),
{
    let chars = chars_of(s);
    let mut out: Vec<char> = Vec::new();
    let mut i: usize = 0;
    while i < chars.len()
        invariant
            i <= chars@.len(),
            chars@ == s@,
            out@ == ascii_lower(s@.take(i as int)),
        decreases chars@.len() - i,
    {
        out.push(to_lower(chars[i]));
        i = i + 1;
        proof {
            assert(ascii_lower(s@.take(i as int)) =~= ascii_lower(s@.take(i - 1)).push(lower_char(s@[i - 1])));
        }
    }
    proof {
        assert(s@.take(i as int) =~= s@);
    }
    string_of(&out)
}

/// `s` with its ASCII small letters as capitals.
pub fn upper_text(s: &str) -> (r: String)
    ensures
        r@ == ascii_upper(s@),
{
    let chars = chars_of(s);
    let mut out: Vec<char> = Vec::new();
    let mut i: usize = 0;
    while i < chars.len()
        invariant
            i <= chars@.len(),
            chars@ == s@,
            out@ == ascii_upper(s@.take(i as int)),
        decreases chars@.len() - i,
    {
        out.push(to_upper(chars[i]));
        i = i + 1;
        proof {
            assert(ascii_upper(s@.take(i as int)) =~= ascii_upper(s@.take(i - 1)).push(upper_char(s@[i - 1])));
        }
    }
    proof {
        assert(s@.take(i as int) =~= s@);
    }
    string_of(&out)
}

// ---------------------------------------------------------------- trimming

proof fn lemma_trim_start_step(s: Seq<char>, i: int)
    requires
        0 <= i < s.len(),
        is_white(s[i]),
        trim_start(s) == trim_start(s.skip(i)),
    ensures
        trim_start(s) == trim_start(s.skip(i + 1)),
{
    assert(s.skip(i).drop_first() =~= s.skip(i + 1));
}

/// `s` without the white space around it.
pub fn trim(s: &str) -> (r: String)
    ensures
        r@ == trimmed(s@),
{
    let chars = chars_of(s);
    let n: usize = chars.len();
    let mut i: usize = 0;
    proof {
        assert(s@.skip(0) =~= s@);
    }
    while i < n && white(chars[i])
        invariant
            i <= n,
            n == chars@.len(),
            chars@ == s@,
            trim_start(s@) == trim_start(s@.skip(i as int)),
        decreases n - i,
    {
        proof {
            lemma_trim_start_step(s@, i as int);
        }
        i = i + 1;
    }
    let ghost t = s@.skip(i as int);
    assert(trim_start(s@) == t);
    let mut j: usize = n;
    proof {
        assert(s@.subrange(i as int, n as int) =~= t);
    }
    while i < j && white(chars[j - 1])
        invariant
            i <= j <= n,
            n == chars@.len(),
            chars@ == s@,
            trim_end(t) == trim_end(s@.subrange(i as int, j as int)),
        decreases j,
    {
        proof {
            let u = s@.subrange(i as int, j as int);
            assert(u.drop_last() =~= s@.subrange(i as int, j - 1));
        }
        j = j - 1;
    }
    slice_text(&chars, i, j)
}

/// `s` without the white space it ends with.
pub fn trim_tail(s: &str) -> (r: String)
    ensures
        r@ == trim_end(s@),
{
    let chars = chars_of(s);
    let mut j: usize = chars.len();
    proof {
        assert(s@.take(j as int) =~= s@);
    }
    while 0 < j && white(chars[j - 1])
        invariant
            j <= chars@.len(),
            chars@ == s@,
            trim_end(s@) == trim_end(s@.take(j as int)),
        decreases j,
    {
        proof {
            assert(s@.take(j as int).drop_last() =~= s@.take(j - 1));
        }
        j = j - 1;
    }
    proof {
        assert(s@.subrange(0, j as int) =~= s@.take(j as int));
    }
    slice_text(&chars, 0, j)
}

/// Whether `s` is empty or nothing but white space.
pub fn blank(s: &str) -> (r: bool)
    ensures
        r == is_blank(s@),
{
    trim(s).as_str().is_empty()
}

// ---------------------------------------------------------------- numbers

proof fn lemma_nat_text_digits(n: nat)
    ensures
        nat_text(n).len() > 0,
        all_digits(nat_text(n)),
        decimal_value(nat_text(n)) == n,
    decreases n,
{
    if n < 10 {
        let t = nat_text(n);
        assert(t.drop_last() =~= Seq::<char>::empty());
        assert(decimal_value(t.drop_last()) == 0);
    } else {
        lemma_nat_text_digits(n / 10);
        let t = nat_text(n);
        assert(t.drop_last() =~= nat_text(n / 10));
        assert(t.last() == digit_char(n % 10));
    }
}

/// Two numbers that read the same in decimal are the same.
pub proof fn lemma_int_text_injective(a: int, b: int)
    requires
        int_text(a) == int_text(b),
    ensures
        a == b,
{
    lemma_nat_text_digits((if a < 0 { -a } else { a }) as nat);
    lemma_nat_text_digits((if b < 0 { -b } else { b }) as nat);
    if a < 0 && b >= 0 {
        assert(int_text(a)[0] == '-');
        assert(is_digit(nat_text(b as nat)[0]));
    } else if a >= 0 && b < 0 {
        assert(int_text(b)[0] == '-');
        assert(is_digit(nat_text(a as nat)[0]));
    } else if a < 0 {
        assert(nat_text((-a) as nat) =~= int_text(a).drop_first());
        assert(nat_text((-b) as nat) =~= int_text(b).drop_first());
    }
}

/// The characters of a decimal number: a minus sign or digits, never empty.
pub proof fn lemma_int_text_chars(n: int)
    ensures
        int_text(n).len() > 0,
        forall|i: int| 0 <= i < int_text(n).len() ==> #[trigger] int_text(n)[i] == '-' || is_digit(int_text(n)[i]),
{
    lemma_nat_text_digits((if n < 0 { -n } else { n }) as nat);
}

fn nat_to_text(n: u64) -> (r: Vec<char>)
    ensures
        r@ == nat_text(n as nat),
    decreases n,
{
    if n < 10 {
        let mut v: Vec<char> = Vec::new();
        v.push((('0' as u32 + n as u32) as u8) as char);
        proof {
            assert(v@ =~= nat_text(n as nat));
        }
        v
    } else {
        let mut v = nat_to_text(n / 10);
        v.push((('0' as u32 + (n % 10) as u32) as u8) as char);
        v
    }
}

/// `n` in decimal.
pub fn unsigned_to_text(n: u64) -> (r: String)
    ensures
        r@ == int_text(n as int),
{
    string_of(&nat_to_text(n))
}

/// `n` in decimal, with a minus sign where it is negative.
pub fn int_to_text(n: i64) -> (r: String)
    ensures
        r@ == int_text(n as int),
{
    if n < 0 {
        let m: u64 = if n == i64::MIN { 9223372036854775808u64 } else { (-n) as u64 };
        let digits = nat_to_text(m);
        let d = string_of(&digits);
        proof {
            reveal_strlit("-");
            assert("-"@ =~= seq!['-']);
        }
        concat2("-", &d)
    } else {
        string_of(&nat_to_text(n as u64))
    }
}

proof fn lemma_leading_digits(s: Seq<char>, i: int)
    requires
        0 <= i <= s.len(),
        forall|k: int| 0 <= k < i ==> is_digit(#[trigger] s[k]),
        i == s.len() || !is_digit(s[i]),
    ensures
        leading_digits(s) == s.take(i),
    decreases s.len(),
{
    if i == 0 {
        assert(s.take(0) =~= Seq::<char>::empty());
    } else {
        let t = s.drop_first();
        assert forall|k: int| 0 <= k < i - 1 implies is_digit(#[trigger] t[k]) by {
            assert(t[k] == s[k + 1]);
        }
        lemma_leading_digits(t, i - 1);
        assert(s.take(i) =~= seq![s[0]] + t.take(i - 1));
    }
}

proof fn lemma_decimal_prefix(s: Seq<char>, i: int)
    requires
        0 <= i <= s.len(),
        all_digits(s),
    ensures
        decimal_value(s.take(i)) <= decimal_value(s),
    decreases s.len(),
{
    if i < s.len() {
        let t = s.drop_last();
        assert(t.take(i) =~= s.take(i));
        assert(is_digit(s.last()));
        assert(all_digits(t));
        lemma_decimal_prefix(t, i);
    } else {
        assert(s.take(i) =~= s);
    }
}

/// The value of a run of digits, none where it exceeds `limit`.
pub fn parse_decimal(digits: &Vec<char>, limit: u64) -> (r: Option<u64>)
    requires
        all_digits(digits@),
    ensures
        r == (if decimal_value(digits@) <= limit { Some(decimal_value(digits@) as u64) } else { None::<u64> }),
{
    let mut value: u64 = 0;
    let mut i: usize = 0;
    while i < digits.len()
        invariant
            i <= digits@.len(),
            all_digits(digits@),
            value == decimal_value(digits@.take(i as int)),
            value <= limit,
        decreases digits@.len() - i,
    {
        proof {
            lemma_decimal_prefix(digits@, i + 1);
            assert(digits@.take(i + 1).drop_last() =~= digits@.take(i as int));
            assert(is_digit(digits@[i as int]));
        }
        let d: u64 = digits[i] as u64 - '0' as u64;
        if value > limit / 10 {
            return None;
        }
        if d > limit || value * 10 > limit - d {
            return None;
        }
        value = value * 10 + d;
        i = i + 1;
    }
    proof {
        assert(digits@.take(i as int) =~= digits@);
    }
    Some(value)
}

/// The integer that `s` starts with (`"3/12"` gives 3).
pub fn leading_int(s: &str) -> (r: Option<i64>)
    ensures
        r == leading_number(s@),
{
    let t = trim(s);
    let chars = chars_of(&t);
    let mut digits: Vec<char> = Vec::new();
    let mut i: usize = 0;
    while i < chars.len() && digit(chars[i])
        invariant
            i <= chars@.len(),
            chars@ == trimmed(s@),
            digits@ == chars@.take(i as int),
            forall|k: int| 0 <= k < i ==> is_digit(#[trigger] chars@[k]),
        decreases chars@.len() - i,
    {
        digits.push(chars[i]);
        proof {
            assert(chars@.take(i + 1) =~= chars@.take(i as int).push(chars@[i as int]));
        }
        i = i + 1;
    }
    proof {
        lemma_leading_digits(chars@, i as int);
        assert(all_digits(digits@));
    }
    if digits.len() == 0 {
        return None;
    }
    match parse_decimal(&digits, i64::MAX as u64) {
        Some(v) => Some(v as i64),
        None => None,
    }
}

/// Whether `s` is `n` ASCII digits.
pub fn digits_of_len(s: &str, n: usize) -> (r: bool)
    ensures
        r == (s@.len() == n && all_digits(s@)),
{
    let chars = chars_of(s);
    if chars.len() != n {
        return false;
    }
    let mut i: usize = 0;
    while i < chars.len()
        invariant
            i <= chars@.len(),
            chars@ == s@,
            forall|k: int| 0 <= k < i ==> is_digit(#[trigger] s@[k]),
        decreases chars@.len() - i,
    {
        if !digit(chars[i]) {
            proof {
                assert(!is_digit(s@[i as int]));
            }
            return false;
        }
        i = i + 1;
    }
    true
}

// ---------------------------------------------------------------- laws

proof fn lemma_trim_start(s: Seq<char>) -> (a: int)
    ensures
        0 <= a <= s.len(),
        trim_start(s) == s.skip(a),
        forall|i: int| 0 <= i < a ==> is_white(#[trigger] s[i]),
        a < s.len() ==> !is_white(s[a]),
    decreases s.len(),
{
    if s.len() > 0 && is_white(s[0]) {
        let t = s.drop_first();
        let b = lemma_trim_start(t);
        assert(t.skip(b) =~= s.skip(b + 1));
        assert forall|i: int| 0 <= i < b + 1 implies is_white(#[trigger] s[i]) by {
            if i > 0 {
                assert(is_white(t[i - 1]));
            }
        }
        if b + 1 < s.len() {
            assert(t[b] == s[b + 1]);
        }
        b + 1
    } else {
        assert(s.skip(0) =~= s);
        0
    }
}

proof fn lemma_trim_end(s: Seq<char>) -> (b: int)
    ensures
        0 <= b <= s.len(),
        trim_end(s) == s.take(b),
        forall|i: int| b <= i < s.len() ==> is_white(#[trigger] s[i]),
        b > 0 ==> !is_white(s[b - 1]),
    decreases s.len(),
{
    if s.len() > 0 && is_white(s.last()) {
        let t = s.drop_last();
        let b = lemma_trim_end(t);
        assert(t.take(b) =~= s.take(b));
        assert forall|i: int| b <= i < s.len() implies is_white(#[trigger] s[i]) by {
            if i < t.len() {
                assert(is_white(t[i]));
            }
        }
        b
    } else {
        assert(s.take(s.len() as int) =~= s);
        s.len() as int
    }
}

/// Trimming cuts white space off both ends and nothing else: what is left is a stretch of the text,
/// all around it is white, and it neither starts nor ends with white space.
pub proof fn law_trimming_cuts_the_ends(s: Seq<char>) -> (cut: (int, int))
    ensures
        0 <= cut.0 <= cut.1 <= s.len(),
        trimmed(s) == s.subrange(cut.0, cut.1),
        forall|i: int| 0 <= i < cut.0 ==> is_white(#[trigger] s[i]),
        forall|i: int| cut.1 <= i < s.len() ==> is_white(#[trigger] s[i]),
        cut.0 < cut.1 ==> !is_white(s[cut.0]) && !is_white(s[cut.1 - 1]),
        is_blank(s) <==> cut.0 == cut.1,
{
    let a = lemma_trim_start(s);
    let t = s.skip(a);
    let b = lemma_trim_end(t);
    assert(t.take(b) =~= s.subrange(a, a + b));
    assert forall|i: int| a + b <= i < s.len() implies is_white(#[trigger] s[i]) by {
        assert(t[i - a] == s[i]);
    }
    if b > 0 {
        assert(t[b - 1] == s[a + b - 1]);
    }
    (a, a + b)
}

/// White space is what separates words; a letter, a digit or a mark is not.
pub proof fn law_printable_is_not_white(c: char)
    ensures
        '!' <= c <= '~' ==> !is_white(c) && !is_control(c),
        c == ' ' ==> is_white(c) && !is_control(c),
        c == '\n' || c == '\r' || c == '\t' ==> is_white(c) && is_control(c),
        c == '\u{3000}' ==> is_white(c),
{
}

/// A number that is written in decimal is read back, whatever follows its digits.
pub proof fn law_written_number_is_read_back(n: i64, rest: Seq<char>)
    requires
        n >= 0,
        rest.len() > 0 ==> !is_digit(rest[0]) && !is_white(rest.last()),
    ensures
        leading_number(int_text(n as int) + rest) == Some(n),
{
    let d = int_text(n as int);
    let s = d + rest;
    lemma_nat_text_digits(n as nat);
    assert(s[0] == d[0]);
    assert(is_digit(d[0]) && is_digit(d.last()));
    assert(s.last() == if rest.len() > 0 { rest.last() } else { d.last() });
    assert(trimmed(s) == s);
    assert forall|k: int| 0 <= k < d.len() implies is_digit(#[trigger] s[k]) by {
        assert(s[k] == d[k]);
    }
    if d.len() < s.len() {
        assert(s[d.len() as int] == rest[0]);
    }
    lemma_leading_digits(s, d.len() as int);
    assert(s.take(d.len() as int) =~= d);
}

/// A text that starts with no digit gives no number.
pub proof fn law_no_digit_no_number(s: Seq<char>)
    requires
        s.len() > 0 ==> !is_digit(s[0]) && !is_white(s[0]),
    ensures
        leading_number(s) is None,
{
    if s.len() > 0 {
        let b = lemma_trim_end(s);
        assert(b == 0 || s.take(b)[0] == s[0]);
    }
}

/// Lower and upper case undo each other on the letters and leave everything else alone.
pub proof fn law_case_of_letters(c: char)
    ensures
        'A' <= c <= 'Z' ==> 'a' <= lower_char(c) <= 'z' && upper_char(lower_char(c)) == c && upper_char(c) == c,
        'a' <= c <= 'z' ==> 'A' <= upper_char(c) <= 'Z' && lower_char(upper_char(c)) == c && lower_char(c) == c,
        !('A' <= c <= 'Z') && !('a' <= c <= 'z') ==> lower_char(c) == c && upper_char(c) == c,
{
}

/// Splitting a text loses nothing: its parts hold no separator, and put together they are the text.
pub proof fn law_split_is_undone_by_join(s: Seq<char>, c: char)
    ensures
        split_on(s, c).len() > 0,
        forall|i: int| 0 <= i < split_on(s, c).len() ==> !(#[trigger] split_on(s, c)[i]).contains(c),
        joined(split_on(s, c), seq![c]) == s,
    decreases s.len(),
{
    let parts = split_on(s, c);
    if s.len() > 0 {
        let t = s.drop_last();
        let p = split_on(t, c);
        law_split_is_undone_by_join(t, c);
        if s.last() == c {
            assert(parts.drop_last() =~= p);
            assert(joined(parts, seq![c]) =~= s);
            assert forall|i: int| 0 <= i < parts.len() implies !(#[trigger] parts[i]).contains(c) by {
                if i < p.len() {
                    assert(parts[i] == p[i]);
                }
            }
        } else {
            let x = p.last().push(s.last());
            assert forall|i: int| 0 <= i < parts.len() implies !(#[trigger] parts[i]).contains(c) by {
                if i < p.len() - 1 {
                    assert(parts[i] == p[i]);
                } else {
                    assert(parts[i] == x);
                    assert(!p[p.len() - 1].contains(c));
                    if x.contains(c) {
                        let k = choose|k: int| 0 <= k < x.len() && x[k] == c;
                        assert(p.last()[k] == c);
                    }
                }
            }
            assert(parts.drop_last() =~= p.drop_last());
            assert(parts.last() == x);
            if p.len() == 1 {
                assert(joined(p, seq![c]) == p[0]);
                assert(joined(parts, seq![c]) == x);
                assert(x =~= s);
            } else {
                assert(joined(parts, seq![c]) =~= joined(p, seq![c]).push(s.last()));
                assert(joined(parts, seq![c]) =~= s);
            }
        }
    } else {
        assert(parts[0] =~= s);
        assert(joined(parts, seq![c]) == parts[0]);
    }
}

/// The words of a text are the stretches without white space in it: none is empty, and none holds
/// white space.
pub proof fn law_words_hold_no_white(s: Seq<char>)
    ensures
        forall|i: int| 0 <= i < words(s).len() ==> (#[trigger] words(s)[i]).len() > 0,
        forall|i: int, k: int|
            0 <= i < words(s).len() && 0 <= k < words(s)[i].len() ==> !is_white(#[trigger] words(s)[i][k]),
        s.len() > 0 && !is_white(s.last()) ==> words(s).len() > 0 && words(s).last().last() == s.last(),
    decreases s.len(),
{
    if s.len() > 0 {
        let t = s.drop_last();
        let w = words(t);
        law_words_hold_no_white(t);
        if !is_white(s.last()) {
            if s.len() > 1 && !is_white(s[s.len() - 2]) {
                assert(t.last() == s[s.len() - 2]);
            }
            assert forall|i: int| 0 <= i < words(s).len() implies (#[trigger] words(s)[i]).len() > 0 by {
                if i < words(s).len() - 1 {
                    assert(words(s)[i] == w[i]);
                }
            }
            assert forall|i: int, k: int| 0 <= i < words(s).len() && 0 <= k < words(s)[i].len() implies !is_white(
                #[trigger] words(s)[i][k],
            ) by {
                if i < words(s).len() - 1 {
                    assert(words(s)[i] == w[i]);
                    assert(!is_white(w[i][k]));
                } else if k < words(s)[i].len() - 1 {
                    assert(words(s)[i][k] == w[i][k]);
                }
            }
        }
    }
}

/// A text without the separator is its own only part.
pub proof fn law_unsplit_text(s: Seq<char>, c: char)
    requires
        !s.contains(c),
    ensures
        split_on(s, c) == seq![s],
    decreases s.len(),
{
    if s.len() > 0 {
        let t = s.drop_last();
        if t.contains(c) {
            let k = choose|k: int| 0 <= k < t.len() && t[k] == c;
            assert(s[k] == c);
        }
        law_unsplit_text(t, c);
        assert(s.last() == s[s.len() - 1]);
        assert(t.push(s.last()) =~= s);
        assert(split_on(s, c) =~= seq![s]);
    } else {
        assert(s =~= Seq::<char>::empty());
        assert(split_on(s, c) =~= seq![s]);
    }
}

/// What stands before the first separator is the first part; the others are those of the rest.
pub proof fn law_split_at_the_first_separator(head: Seq<char>, rest: Seq<char>, c: char)
    requires
        !head.contains(c),
    ensures
        split_on(head + seq![c] + rest, c) == seq![head] + split_on(rest, c),
    decreases rest.len(),
{
    let s = head + seq![c] + rest;
    law_split_is_undone_by_join(rest, c);
    if rest.len() == 0 {
        law_unsplit_text(head, c);
        assert(s.drop_last() =~= head);
        assert(split_on(s, c) =~= seq![head] + split_on(rest, c));
    } else {
        let t = rest.drop_last();
        law_split_is_undone_by_join(t, c);
        assert(s.drop_last() =~= head + seq![c] + t);
        law_split_at_the_first_separator(head, t, c);
        assert(s.last() == rest.last());
        assert(split_on(s, c) =~= seq![head] + split_on(rest, c));
    }
}

/// A text holds another one where it stands somewhere in it.
pub proof fn law_text_within(a: Seq<char>, p: Seq<char>, b: Seq<char>)
    ensures
        contains_text(a + p + b, p),
        starts_with(p + b, p),
        ends_with(a + p, p),
        contains_text(a, p) ==> p.len() <= a.len(),
{
    let s = a + p + b;
    assert(s.skip(a.len() as int).take(p.len() as int) =~= p);
    assert(occurs_at(s, p, a.len() as int));
    assert((p + b).take(p.len() as int) =~= p);
    let e = a + p;
    assert(e.skip(e.len() - p.len()) =~= p);
}

} // verus!
