//! Splitting, joining, searching and ordering texts.

use crate::text::{
    chars_of, contains_text, ends_with, is_white, joined, last_index, occurs_at, same_text, slice_text,
    split_on, starts_with, string_of, text_less, texts, white, words,
};
use vstd::prelude::*;
use vstd::string::*;

verus! {

// ---------------------------------------------------------------- splitting

/// The parts of `s` between the separators `c`.
pub fn split(s: &str, c: char) -> (r: Vec<String>)
    ensures
        texts(r@) == split_on(s@, c),
        r@.len() > 0,
{
    let chars = chars_of(s);
    let mut out: Vec<String> = Vec::new();
    let mut part: Vec<char> = Vec::new();
    let mut i: usize = 0;
    proof {
        assert(split_on(s@.take(0), c) =~= seq![Seq::<char>::empty()]);
        assert(texts(out@).push(part@) =~= seq![Seq::<char>::empty()]);
    }
    while i < chars.len()
        invariant
            i <= chars@.len(),
            chars@ == s@,
            texts(out@).push(part@) == split_on(s@.take(i as int), c),
        decreases chars@.len() - i,
    {
        proof {
            assert(s@.take(i + 1).drop_last() =~= s@.take(i as int));
            assert(s@.take(i + 1).last() == chars@[i as int]);
        }
        let ghost before = texts(out@);
        let ghost p = split_on(s@.take(i as int), c);
        if chars[i] == c {
            let ghost done = part@;
            let text = string_of(&part);
            out.push(text);
            part = Vec::new();
            proof {
                assert(texts(out@) =~= before.push(done));
                assert(texts(out@).push(part@) =~= p.push(Seq::empty()));
            }
        } else {
            let ghost done = part@;
            part.push(chars[i]);
            proof {
                assert(before.push(part@) =~= p.update(p.len() - 1, p.last().push(chars@[i as int])));
            }
        }
        i = i + 1;
    }
    let ghost before = texts(out@);
    let text = string_of(&part);
    out.push(text);
    proof {
        assert(s@.take(i as int) =~= s@);
        assert(texts(out@) =~= before.push(part@));
    }
    out
}

/// `parts` with `sep` between them.
pub fn join(parts: &Vec<String>, sep: &str) -> (r: String)
    ensures
        r@ == joined(texts(parts@), sep@),
{
    let mut out = String::new();
    let mut i: usize = 0;
    let ghost t = texts(parts@);
    proof {
        assert(t.take(0) =~= Seq::<Seq<char>>::empty());
    }
    while i < parts.len()
        invariant
            i <= parts@.len(),
            t == texts(parts@),
            out@ == joined(t.take(i as int), sep@),
        decreases parts@.len() - i,
    {
        if i > 0 {
            out.append(sep);
        }
        out.append(parts[i].as_str());
        i = i + 1;
        proof {
            assert(t.take(i as int).drop_last() =~= t.take(i - 1));
            assert(t.take(i as int).last() == parts@[i - 1]@);
            if i == 1 {
                assert(out@ =~= parts@[0]@);
            }
        }
    }
    proof {
        assert(t.take(i as int) =~= t);
    }
    out
}

/// The words of `s`.
pub fn split_words(s: &str) -> (r: Vec<String>)
    ensures
        texts(r@) == words(s@),
{
    let chars = chars_of(s);
    let mut out: Vec<String> = Vec::new();
    let mut word: Vec<char> = Vec::new();
    let mut i: usize = 0;
    proof {
        assert(texts(out@) =~= words(s@.take(0)));
    }
    while i < chars.len()
        invariant
            i <= chars@.len(),
            chars@ == s@,
            word@.len() == 0 <==> (i == 0 || is_white(s@[i - 1])),
            word@.len() == 0 ==> texts(out@) == words(s@.take(i as int)),
            word@.len() > 0 ==> texts(out@).push(word@) == words(s@.take(i as int)),
        decreases chars@.len() - i,
    {
        let ghost before = texts(out@);
        let ghost w = words(s@.take(i as int));
        let ghost t = s@.take(i + 1);
        proof {
            assert(t.drop_last() =~= s@.take(i as int));
            assert(t.last() == s@[i as int]);
            if i > 0 {
                assert(t[t.len() - 2] == s@[i - 1]);
            }
        }
        if white(chars[i]) {
            if word.len() > 0 {
                let ghost done = word@;
                let text = string_of(&word);
                out.push(text);
                word = Vec::new();
                proof {
                    assert(texts(out@) =~= before.push(done));
                }
            }
        } else {
            let ghost done = word@;
            word.push(chars[i]);
            proof {
                if done.len() == 0 {
                    assert(word@ =~= seq![t.last()]);
                } else {
                    assert(before.push(word@) =~= w.update(w.len() - 1, w.last().push(t.last())));
                }
            }
        }
        i = i + 1;
    }
    proof {
        assert(s@.take(i as int) =~= s@);
    }
    if word.len() > 0 {
        let ghost before = texts(out@);
        let text = string_of(&word);
        out.push(text);
        proof {
            assert(texts(out@) =~= before.push(word@));
        }
    }
    out
}

/// Where `c` occurs last in `chars`.
pub fn find_last(chars: &Vec<char>, c: char) -> (r: Option<usize>)
    ensures
        match r {
            Some(i) => last_index(chars@, c) == Some(i as int) && i < chars@.len() && chars@[i as int] == c,
            None => last_index(chars@, c) is None,
        },
{
    let mut j: usize = chars.len();
    proof {
        assert(chars@.take(j as int) =~= chars@);
    }
    while j > 0
        invariant
            j <= chars@.len(),
            last_index(chars@, c) == last_index(chars@.take(j as int), c),
        decreases j,
    {
        proof {
            let t = chars@.take(j as int);
            assert(t.last() == chars@[j - 1]);
            assert(t.drop_last() =~= chars@.take(j - 1));
        }
        if chars[j - 1] == c {
            return Some(j - 1);
        }
        j = j - 1;
    }
    None
}

/// What `last_index` finds: the position holds the character and none after it does.
pub proof fn lemma_last_index(s: Seq<char>, c: char)
    ensures
        match last_index(s, c) {
            Some(i) => 0 <= i < s.len() && s[i] == c && forall|k: int| i < k < s.len() ==> #[trigger] s[k] != c,
            None => forall|k: int| 0 <= k < s.len() ==> #[trigger] s[k] != c,
        },
    decreases s.len(),
{
    if s.len() > 0 && s.last() != c {
        lemma_last_index(s.drop_last(), c);
        assert forall|k: int| 0 <= k < s.len() - 1 implies #[trigger] s[k] == s.drop_last()[k] by {}
    }
}

/// A position that holds the character with none after it is the one found.
pub proof fn lemma_last_index_is(s: Seq<char>, c: char, i: int)
    requires
        0 <= i < s.len(),
        s[i] == c,
        forall|k: int| i < k < s.len() ==> #[trigger] s[k] != c,
    ensures
        last_index(s, c) == Some(i),
{
    lemma_last_index(s, c);
}

/// What stands before and after the last `c` of `s`.
pub fn rsplit_once(s: &str, c: char) -> (r: Option<(String, String)>)
    ensures
        match r {
            Some(p) => last_index(s@, c) matches Some(i) && p.0@ == s@.take(i) && p.1@ == s@.skip(i + 1),
            None => last_index(s@, c) is None,
        },
{
    let chars = chars_of(s);
    match find_last(&chars, c) {
        Some(i) => {
            let n: usize = chars.len();
            let a = slice_text(&chars, 0, i);
            let b = slice_text(&chars, i + 1, n);
            proof {
                assert(s@.subrange(0, i as int) =~= s@.take(i as int));
                assert(s@.subrange(i + 1, n as int) =~= s@.skip(i + 1));
            }
            Some((a, b))
        },
        None => None,
    }
}

// ---------------------------------------------------------------- searching

/// Whether `p` stands in `chars` from position `at` on.
fn stands_at(chars: &Vec<char>, p: &Vec<char>, at: usize) -> (r: bool)
    requires
        at <= chars@.len(),
    ensures
        r == starts_with(chars@.skip(at as int), p@),
{
    if p.len() > chars.len() - at {
        return false;
    }
    let n: usize = chars.len();
    let ghost t = chars@.skip(at as int);
    let mut i: usize = 0;
    while i < p.len()
        invariant
            n == chars@.len(),
            at <= chars@.len(),
            t == chars@.skip(at as int),
            p@.len() <= t.len(),
            i <= p@.len(),
            forall|k: int| 0 <= k < i ==> #[trigger] t[k] == p@[k],
        decreases p@.len() - i,
    {
        proof {
            assert(t[i as int] == chars@[at + i]);
        }
        if chars[at + i] != p[i] {
            proof {
                assert(t.take(p@.len() as int)[i as int] != p@[i as int]);
            }
            return false;
        }
        i = i + 1;
    }
    proof {
        assert(t.take(p@.len() as int) =~= p@);
    }
    true
}

/// Whether `s` starts with `p`.
pub fn has_prefix(s: &str, p: &str) -> (r: bool)
    ensures
        r == starts_with(s@, p@),
{
    let chars = chars_of(s);
    let pat = chars_of(p);
    proof {
        assert(s@.skip(0) =~= s@);
    }
    stands_at(&chars, &pat, 0)
}

/// Whether `s` ends with `p`.
pub fn has_suffix(s: &str, p: &str) -> (r: bool)
    ensures
        r == ends_with(s@, p@),
{
    let chars = chars_of(s);
    let pat = chars_of(p);
    if pat.len() > chars.len() {
        return false;
    }
    let at: usize = chars.len() - pat.len();
    proof {
        let t = s@.skip(at as int);
        assert(t.take(p@.len() as int) =~= t);
    }
    stands_at(&chars, &pat, at)
}

/// Whether `p` occurs in `s`.
pub fn has_text(s: &str, p: &str) -> (r: bool)
    ensures
        r == contains_text(s@, p@),
{
    let chars = chars_of(s);
    let pat = chars_of(p);
    let mut at: usize = 0;
    while at < chars.len()
        invariant
            at <= chars@.len(),
            chars@ == s@,
            pat@ == p@,
            forall|k: int| 0 <= k < at ==> !#[trigger] occurs_at(s@, p@, k),
        decreases chars@.len() - at,
    {
        if stands_at(&chars, &pat, at) {
            proof {
                assert(occurs_at(s@, p@, at as int));
            }
            return true;
        }
        at = at + 1;
    }
    let last = stands_at(&chars, &pat, at);
    proof {
        assert(last == occurs_at(s@, p@, at as int));
    }
    last
}

/// Whether the character `c` occurs in `s`.
pub fn has_char(s: &str, c: char) -> (r: bool)
    ensures
        r == s@.contains(c),
{
    let chars = chars_of(s);
    let mut i: usize = 0;
    while i < chars.len()
        invariant
            i <= chars@.len(),
            chars@ == s@,
            forall|k: int| 0 <= k < i ==> #[trigger] s@[k] != c,
        decreases chars@.len() - i,
    {
        if chars[i] == c {
            proof {
                assert(s@[i as int] == c);
            }
            return true;
        }
        i = i + 1;
    }
    false
}

/// Whether `list` holds `s`.
pub fn has_member(list: &Vec<String>, s: &str) -> (r: bool)
    ensures
        r == texts(list@).contains(s@),
{
    let mut i: usize = 0;
    while i < list.len()
        invariant
            i <= list@.len(),
            forall|k: int| 0 <= k < i ==> #[trigger] texts(list@)[k] != s@,
        decreases list@.len() - i,
    {
        if same_text(list[i].as_str(), s) {
            proof {
                assert(texts(list@)[i as int] == s@);
            }
            return true;
        }
        i = i + 1;
    }
    false
}

// ---------------------------------------------------------------- ordering

/// The order of texts is total.
pub proof fn lemma_text_total(a: Seq<char>, b: Seq<char>)
    ensures
        text_less(a, b) || text_less(b, a) || a == b,
    decreases a.len(),
{
    if a.len() == 0 || b.len() == 0 {
        if a.len() == 0 && b.len() == 0 {
            assert(a =~= b);
        }
    } else if a[0] == b[0] {
        lemma_text_total(a.drop_first(), b.drop_first());
        if a.drop_first() == b.drop_first() {
            assert(a =~= seq![a[0]] + a.drop_first());
            assert(b =~= seq![b[0]] + b.drop_first());
        }
    }
}

/// The order of texts is transitive.
pub proof fn lemma_text_transitive(a: Seq<char>, b: Seq<char>, c: Seq<char>)
    requires
        text_less(a, b),
        text_less(b, c),
    ensures
        text_less(a, c),
    decreases a.len(),
{
    if a.len() > 0 && b.len() > 0 && c.len() > 0 && a[0] == b[0] && b[0] == c[0] {
        lemma_text_transitive(a.drop_first(), b.drop_first(), c.drop_first());
    }
}

/// No text comes before itself.
pub proof fn lemma_text_irreflexive(a: Seq<char>)
    ensures
        !text_less(a, a),
    decreases a.len(),
{
    if a.len() > 0 {
        lemma_text_irreflexive(a.drop_first());
    }
}

/// Whether `a` comes before `b`.
pub fn less(a: &str, b: &str) -> (r: bool)
    ensures
        r == text_less(a@, b@),
{
    let x = chars_of(a);
    let y = chars_of(b);
    let mut i: usize = 0;
    proof {
        assert(a@.skip(0) =~= a@);
        assert(b@.skip(0) =~= b@);
    }
    while i < x.len() && i < y.len() && x[i] == y[i]
        invariant
            i <= x@.len(),
            i <= y@.len(),
            x@ == a@,
            y@ == b@,
            text_less(a@, b@) == text_less(a@.skip(i as int), b@.skip(i as int)),
        decreases x@.len() - i,
    {
        proof {
            assert(a@.skip(i as int).drop_first() =~= a@.skip(i + 1));
            assert(b@.skip(i as int).drop_first() =~= b@.skip(i + 1));
        }
        i = i + 1;
    }
    if i >= y.len() {
        false
    } else if i >= x.len() {
        true
    } else {
        x[i] < y[i]
    }
}

/// Whether two lists hold the same texts.
pub fn same_texts(a: &Vec<String>, b: &Vec<String>) -> (r: bool)
    ensures
        r == (texts(a@) == texts(b@)),
{
    proof {
        assert(texts(a@).len() == a@.len());
        assert(texts(b@).len() == b@.len());
    }
    if a.len() != b.len() {
        return false;
    }
    let ghost ta = texts(a@);
    let ghost tb = texts(b@);
    let mut i: usize = 0;
    while i < a.len()
        invariant
            i <= a@.len(),
            a@.len() == b@.len(),
            ta == texts(a@),
            tb == texts(b@),
            forall|k: int| 0 <= k < i ==> #[trigger] ta[k] == tb[k],
        decreases a@.len() - i,
    {
        if !same_text(&a[i], &b[i]) {
            proof {
                assert(ta[i as int] != tb[i as int]);
            }
            return false;
        }
        i = i + 1;
    }
    proof {
        assert(ta =~= tb);
    }
    true
}

} // verus!
