//! Lists of texts in order, each text once.

use crate::split::{lemma_text_irreflexive, lemma_text_total, lemma_text_transitive, less};
use crate::text::{same_text, text_less, texts};
use vstd::prelude::*;
use vstd::string::*;

verus! {

/// `v` goes strictly upwards in the order of texts.
pub open spec fn ascending(v: Seq<Seq<char>>) -> bool {
    forall|i: int, j: int| 0 <= i < j < v.len() ==> text_less(#[trigger] v[i], #[trigger] v[j])
}

/// `r` holds the members of `v`, each once, in order.
pub open spec fn ordered_set_of(r: Seq<Seq<char>>, v: Seq<Seq<char>>) -> bool {
    &&& ascending(r)
    &&& forall|x: Seq<char>| #[trigger] r.contains(x) <==> v.contains(x)
}

/// Where `x` belongs in an ascending list: behind the texts that come before it.
fn place_for(v: &Vec<String>, x: &str) -> (r: usize)
    requires
        ascending(texts(v@)),
    ensures
        r <= v@.len(),
        forall|k: int| 0 <= k < r ==> text_less(#[trigger] texts(v@)[k], x@),
        forall|k: int| r <= k < v@.len() ==> !text_less(#[trigger] texts(v@)[k], x@),
{
    let mut i: usize = 0;
    while i < v.len() && less(v[i].as_str(), x)
        invariant
            i <= v@.len(),
            forall|k: int| 0 <= k < i ==> text_less(#[trigger] texts(v@)[k], x@),
        decreases v@.len() - i,
    {
        i = i + 1;
    }
    proof {
        let t = texts(v@);
        assert forall|k: int| i <= k < v@.len() implies !text_less(#[trigger] t[k], x@) by {
            if k > i && text_less(t[k], x@) {
                assert(text_less(t[i as int], t[k]));
                lemma_text_transitive(t[i as int], t[k], x@);
            }
        }
    }
    i
}

/// Adds `x` to an ascending list that may hold it already.
pub fn insert_text(v: &mut Vec<String>, x: String)
    requires
        ascending(texts(old(v)@)),
    ensures
        ascending(texts(final(v)@)),
        forall|y: Seq<char>|
            #[trigger] texts(final(v)@).contains(y) <==> texts(old(v)@).contains(y) || y == x@,
{
    let at = place_for(v, &x);
    let ghost before = texts(v@);
    let ghost xv = x@;
    if at < v.len() && same_text(v[at].as_str(), &x) {
        proof {
            assert(before[at as int] == xv);
        }
        return;
    }
    v.insert(at, x);
    proof {
        let after = texts(v@);
        assert(after =~= before.insert(at as int, xv));
        assert forall|i: int, j: int| 0 <= i < j < after.len() implies text_less(
            #[trigger] after[i],
            #[trigger] after[j],
        ) by {
            if j < at {
                assert(text_less(before[i], before[j]));
            } else if j == at {
                assert(text_less(before[i], xv));
            } else if i < at {
                assert(text_less(before[i], before[j - 1]));
            } else if i == at {
                assert(!text_less(before[j - 1], xv));
                lemma_text_total(before[j - 1], xv);
                lemma_text_total(before[at as int], xv);
                assert(before[at as int] != xv);
                if j - 1 > at {
                    assert(!text_less(before[at as int], xv));
                    assert(text_less(before[at as int], before[j - 1]));
                    if before[j - 1] == xv {
                        assert(false);
                    }
                }
            } else {
                assert(text_less(before[i - 1], before[j - 1]));
            }
        }
        assert forall|y: Seq<char>| #[trigger] after.contains(y) <==> before.contains(y) || y == xv by {
            if before.contains(y) {
                let k = choose|k: int| 0 <= k < before.len() && before[k] == y;
                if k < at {
                    assert(after[k] == y);
                } else {
                    assert(after[k + 1] == y);
                }
            }
            if y == xv {
                assert(after[at as int] == xv);
            }
            if after.contains(y) && y != xv {
                let k = choose|k: int| 0 <= k < after.len() && after[k] == y;
                if k < at {
                    assert(before[k] == y);
                } else {
                    assert(before[k - 1] == y);
                }
            }
        }
    }
}

/// The members of `v`, each once, in order.
pub fn sorted_texts(v: &Vec<String>) -> (r: Vec<String>)
    ensures
        ordered_set_of(texts(r@), texts(v@)),
{
    let mut out: Vec<String> = Vec::new();
    let mut i: usize = 0;
    let ghost t = texts(v@);
    while i < v.len()
        invariant
            i <= v@.len(),
            t == texts(v@),
            ascending(texts(out@)),
            forall|x: Seq<char>| #[trigger] texts(out@).contains(x) <==> t.take(i as int).contains(x),
        decreases v@.len() - i,
    {
        insert_text(&mut out, v[i].clone());
        proof {
            let a = t.take(i as int);
            let b = t.take(i + 1);
            assert(b =~= a.push(t[i as int]));
            assert forall|x: Seq<char>| #[trigger] texts(out@).contains(x) <==> b.contains(x) by {
                if a.contains(x) {
                    let k = choose|k: int| 0 <= k < a.len() && a[k] == x;
                    assert(b[k] == x);
                }
                if b.contains(x) && x != t[i as int] {
                    let k = choose|k: int| 0 <= k < b.len() && b[k] == x;
                    assert(a[k] == x);
                }
                if x == t[i as int] {
                    assert(b[i as int] == x);
                }
            }
        }
        i = i + 1;
    }
    proof {
        assert(t.take(i as int) =~= t);
    }
    out
}

/// Two ascending lists with the same members are the same list.
pub proof fn law_ascending_is_unique(a: Seq<Seq<char>>, b: Seq<Seq<char>>)
    requires
        ascending(a),
        ascending(b),
        forall|x: Seq<char>| #[trigger] a.contains(x) <==> b.contains(x),
    ensures
        a == b,
    decreases a.len(),
{
    if a.len() == 0 {
        if b.len() > 0 {
            assert(b.contains(b[0]));
            assert(a.contains(b[0]));
        }
        assert(a =~= b);
    } else if b.len() == 0 {
        assert(a.contains(a[0]));
    } else {
        let x = a.last();
        let y = b.last();
        assert(a.contains(x));
        assert(b.contains(y));
        assert(a.contains(y));
        let i = choose|i: int| 0 <= i < b.len() && b[i] == x;
        let j = choose|j: int| 0 <= j < a.len() && a[j] == y;
        if x != y {
            assert(text_less(b[i], b[b.len() - 1]));
            assert(text_less(a[j], a[a.len() - 1]));
            lemma_text_transitive(x, y, x);
            lemma_text_irreflexive(x);
        }
        let a1 = a.drop_last();
        let b1 = b.drop_last();
        assert forall|z: Seq<char>| #[trigger] a1.contains(z) <==> b1.contains(z) by {
            lemma_text_irreflexive(z);
            if a1.contains(z) {
                let k = choose|k: int| 0 <= k < a1.len() && a1[k] == z;
                assert(text_less(a[k], a[a.len() - 1]));
                assert(a.contains(z));
                assert(b.contains(z));
                let m = choose|m: int| 0 <= m < b.len() && b[m] == z;
                assert(b1[m] == z);
            }
            if b1.contains(z) {
                let k = choose|k: int| 0 <= k < b1.len() && b1[k] == z;
                assert(text_less(b[k], b[b.len() - 1]));
                assert(b.contains(z));
                assert(a.contains(z));
                let m = choose|m: int| 0 <= m < a.len() && a[m] == z;
                assert(a1[m] == z);
            }
        }
        law_ascending_is_unique(a1, b1);
        assert(a =~= a1.push(x));
        assert(b =~= b1.push(y));
    }
}

// ---------------------------------------------------------------- modes

/// How often `x` occurs in `v`.
pub open spec fn times(v: Seq<Seq<char>>, x: Seq<char>) -> nat
    decreases v.len(),
{
    if v.len() == 0 {
        0
    } else {
        times(v.drop_last(), x) + if v.last() == x { 1nat } else { 0nat }
    }
}

/// `x` is the mode of `v`: nothing occurs more often, and what occurs as often
/// comes after it.
pub open spec fn is_mode(v: Seq<Seq<char>>, x: Seq<char>) -> bool {
    &&& v.contains(x)
    &&& forall|y: Seq<char>| #[trigger] times(v, y) <= times(v, x)
    &&& forall|y: Seq<char>| #[trigger] times(v, y) == times(v, x) && y != x ==> text_less(x, y)
}

/// What occurs is a member.
pub proof fn lemma_times_member(v: Seq<Seq<char>>, x: Seq<char>)
    ensures
        times(v, x) > 0 <==> v.contains(x),
        times(v, x) <= v.len(),
    decreases v.len(),
{
    if v.len() > 0 {
        let t = v.drop_last();
        lemma_times_member(t, x);
        if t.contains(x) {
            let k = choose|k: int| 0 <= k < t.len() && t[k] == x;
            assert(v[k] == x);
        }
        if v.contains(x) && v.last() != x {
            let k = choose|k: int| 0 <= k < v.len() && v[k] == x;
            assert(t[k] == x);
        }
        if v.last() == x {
            assert(v[v.len() - 1] == x);
        }
    }
}

/// There is one mode only.
pub proof fn law_mode_is_unique(v: Seq<Seq<char>>, x: Seq<char>, y: Seq<char>)
    requires
        is_mode(v, x),
        is_mode(v, y),
    ensures
        x == y,
{
    assert(times(v, y) <= times(v, x));
    assert(times(v, x) <= times(v, y));
    if x != y {
        assert(text_less(x, y));
        assert(text_less(y, x));
        lemma_text_transitive(x, y, x);
        lemma_text_irreflexive(x);
    }
}

/// How often `x` occurs in `v`.
pub fn count_text(v: &Vec<String>, x: &str) -> (r: usize)
    ensures
        r == times(texts(v@), x@),
{
    let mut n: usize = 0;
    let mut i: usize = 0;
    let ghost t = texts(v@);
    while i < v.len()
        invariant
            i <= v@.len(),
            t == texts(v@),
            n <= i,
            n == times(t.take(i as int), x@),
        decreases v@.len() - i,
    {
        proof {
            assert(t.take(i + 1).drop_last() =~= t.take(i as int));
            assert(t.take(i + 1).last() == v@[i as int]@);
        }
        if same_text(v[i].as_str(), x) {
            n = n + 1;
        }
        i = i + 1;
    }
    proof {
        assert(t.take(i as int) =~= t);
    }
    n
}

/// The mode of `v`, none where `v` is empty.
pub fn mode_of(v: &Vec<String>) -> (r: Option<String>)
    ensures
        match r {
            Some(x) => is_mode(texts(v@), x@),
            None => v@.len() == 0,
        },
{
    if v.len() == 0 {
        return None;
    }
    let ghost t = texts(v@);
    let mut best: usize = 0;
    let mut best_n: usize = count_text(v, v[0].as_str());
    let mut i: usize = 1;
    proof {
        lemma_text_irreflexive(t[0]);
    }
    while i < v.len()
        invariant
            1 <= i <= v@.len(),
            t == texts(v@),
            best < v@.len(),
            best_n == times(t, t[best as int]),
            forall|k: int| 0 <= k < i ==> times(t, #[trigger] t[k]) <= best_n,
            forall|k: int|
                0 <= k < i && times(t, #[trigger] t[k]) == best_n && t[k] != t[best as int] ==> text_less(
                    t[best as int],
                    t[k],
                ),
        decreases v@.len() - i,
    {
        let n: usize = count_text(v, v[i].as_str());
        let ghost b0 = best;
        if n > best_n || (n == best_n && less(v[i].as_str(), v[best].as_str())) {
            proof {
                assert forall|k: int|
                    0 <= k < i + 1 && times(t, #[trigger] t[k]) == n && t[k] != t[i as int] implies text_less(
                    t[i as int],
                    t[k],
                ) by {
                    if n == best_n && t[k] != t[b0 as int] {
                        lemma_text_transitive(t[i as int], t[b0 as int], t[k]);
                    }
                }
            }
            best = i;
            best_n = n;
        } else {
            proof {
                lemma_text_total(t[b0 as int], t[i as int]);
            }
        }
        i = i + 1;
    }
    proof {
        let x = t[best as int];
        assert(t.contains(x));
        lemma_times_member(t, x);
        assert forall|y: Seq<char>| #[trigger] times(t, y) <= times(t, x) by {
            lemma_times_member(t, y);
            if t.contains(y) {
                let k = choose|k: int| 0 <= k < t.len() && t[k] == y;
                assert(times(t, t[k]) <= best_n);
            }
        }
        assert forall|y: Seq<char>| #[trigger] times(t, y) == times(t, x) && y != x implies text_less(x, y) by {
            lemma_times_member(t, y);
            let k = choose|k: int| 0 <= k < t.len() && t[k] == y;
            assert(times(t, t[k]) == best_n);
        }
    }
    Some(v[best].clone())
}

} // verus!
