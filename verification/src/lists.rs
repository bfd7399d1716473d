//! Small lists of integers as sets, and lists in increasing order.

use vstd::prelude::*;

verus! {

/// `v` goes strictly upwards.
pub open spec fn increasing(v: Seq<i64>) -> bool {
    forall|i: int, j: int| 0 <= i < j < v.len() ==> #[trigger] v[i] < #[trigger] v[j]
}

/// `r` holds the members of `v`, each once, in increasing order.
pub open spec fn sorted_set_of(r: Seq<i64>, v: Seq<i64>) -> bool {
    &&& increasing(r)
    &&& forall|x: i64| #[trigger] r.contains(x) <==> v.contains(x)
}

/// How often `x` occurs in `v`.
pub open spec fn count_of(v: Seq<i64>, x: i64) -> nat
    decreases v.len(),
{
    if v.len() == 0 {
        0
    } else {
        count_of(v.drop_last(), x) + if v.last() == x { 1nat } else { 0nat }
    }
}

/// Whether `v` holds `x`.
pub fn has_id(v: &Vec<i64>, x: i64) -> (r: bool)
    ensures
        r == v@.contains(x),
{
    let mut i: usize = 0;
    while i < v.len()
        invariant
            i <= v@.len(),
            forall|k: int| 0 <= k < i ==> #[trigger] v@[k] != x,
        decreases v@.len() - i,
    {
        if v[i] == x {
            proof {
                assert(v@[i as int] == x);
            }
            return true;
        }
        i = i + 1;
    }
    false
}

/// How often `x` occurs in `v`.
pub fn count_id(v: &Vec<i64>, x: i64) -> (r: usize)
    ensures
        r == count_of(v@, x),
        r <= v@.len(),
{
    let mut n: usize = 0;
    let mut i: usize = 0;
    while i < v.len()
        invariant
            i <= v@.len(),
            n <= i,
            n == count_of(v@.take(i as int), x),
        decreases v@.len() - i,
    {
        proof {
            assert(v@.take(i + 1).drop_last() =~= v@.take(i as int));
        }
        if v[i] == x {
            n = n + 1;
        }
        i = i + 1;
    }
    proof {
        assert(v@.take(i as int) =~= v@);
    }
    n
}

/// A count above zero means membership.
pub proof fn lemma_count_member(v: Seq<i64>, x: i64)
    ensures
        count_of(v, x) > 0 <==> v.contains(x),
        count_of(v, x) <= v.len(),
    decreases v.len(),
{
    if v.len() > 0 {
        let t = v.drop_last();
        lemma_count_member(t, x);
        if t.contains(x) {
            let k = choose|k: int| 0 <= k < t.len() && t[k] == x;
            assert(v[k] == x);
        }
        if v.contains(x) && v.last() != x {
            let k = choose|k: int| 0 <= k < v.len() && v[k] == x;
            assert(t[k] == x);
        }
        if v.last() == x {
            assert(v[v.len() - 1] == x);
        }
    }
}

/// Two members share the length of the list.
pub proof fn lemma_count_two(v: Seq<i64>, x: i64, y: i64)
    requires
        x != y,
    ensures
        count_of(v, x) + count_of(v, y) <= v.len(),
    decreases v.len(),
{
    if v.len() > 0 {
        lemma_count_two(v.drop_last(), x, y);
    }
}

/// Where `x` belongs in an increasing list: the number of smaller members.
fn place_for(v: &Vec<i64>, x: i64) -> (r: usize)
    requires
        increasing(v@),
    ensures
        r <= v@.len(),
        forall|k: int| 0 <= k < r ==> #[trigger] v@[k] < x,
        forall|k: int| r <= k < v@.len() ==> #[trigger] v@[k] >= x,
{
    let mut i: usize = 0;
    while i < v.len() && v[i] < x
        invariant
            i <= v@.len(),
            forall|k: int| 0 <= k < i ==> #[trigger] v@[k] < x,
        decreases v@.len() - i,
    {
        i = i + 1;
    }
    proof {
        assert forall|k: int| i <= k < v@.len() implies #[trigger] v@[k] >= x by {
            if k > i {
                assert(v@[i as int] < v@[k]);
            }
        }
    }
    i
}

/// Adds `x` to an increasing list that may hold it already.
pub fn insert_id(v: &mut Vec<i64>, x: i64)
    requires
        increasing(old(v)@),
    ensures
        increasing(final(v)@),
        forall|y: i64| #[trigger] final(v)@.contains(y) <==> old(v)@.contains(y) || y == x,
{
    let at = place_for(v, x);
    let ghost before = v@;
    if at < v.len() && v[at] == x {
        proof {
            assert(before[at as int] == x);
        }
        return;
    }
    v.insert(at, x);
    proof {
        let after = v@;
        assert(after == before.insert(at as int, x));
        assert forall|i: int, j: int| 0 <= i < j < after.len() implies #[trigger] after[i] < #[trigger] after[j] by {
            if j < at {
                assert(before[i] < before[j]);
            } else if j == at {
                assert(before[i] < x);
            } else if i < at {
                assert(before[i] < before[j - 1]);
            } else if i == at {
                assert(before[j - 1] >= x);
                assert(before[at as int] != x);
                if j - 1 > at {
                    assert(before[at as int] < before[j - 1]);
                }
            } else {
                assert(before[i - 1] < before[j - 1]);
            }
        }
        assert forall|y: i64| #[trigger] after.contains(y) <==> before.contains(y) || y == x by {
            if before.contains(y) {
                let k = choose|k: int| 0 <= k < before.len() && before[k] == y;
                if k < at {
                    assert(after[k] == y);
                } else {
                    assert(after[k + 1] == y);
                }
            }
            if y == x {
                assert(after[at as int] == x);
            }
            if after.contains(y) && y != x {
                let k = choose|k: int| 0 <= k < after.len() && after[k] == y;
                if k < at {
                    assert(before[k] == y);
                } else {
                    assert(before[k - 1] == y);
                }
            }
        }
    }
}

/// The members of `v`, each once, in increasing order.
pub fn sorted_ids(v: &Vec<i64>) -> (r: Vec<i64>)
    ensures
        sorted_set_of(r@, v@),
{
    let mut out: Vec<i64> = Vec::new();
    let mut i: usize = 0;
    while i < v.len()
        invariant
            i <= v@.len(),
            increasing(out@),
            forall|x: i64| #[trigger] out@.contains(x) <==> v@.take(i as int).contains(x),
        decreases v@.len() - i,
    {
        let ghost before = out@;
        insert_id(&mut out, v[i]);
        proof {
            let t = v@.take(i as int);
            let u = v@.take(i + 1);
            assert(u =~= t.push(v@[i as int]));
            assert forall|x: i64| #[trigger] out@.contains(x) <==> u.contains(x) by {
                if t.contains(x) {
                    let k = choose|k: int| 0 <= k < t.len() && t[k] == x;
                    assert(u[k] == x);
                }
                if u.contains(x) && x != v@[i as int] {
                    let k = choose|k: int| 0 <= k < u.len() && u[k] == x;
                    assert(t[k] == x);
                }
                if x == v@[i as int] {
                    assert(u[i as int] == x);
                }
            }
        }
        i = i + 1;
    }
    proof {
        assert(v@.take(i as int) =~= v@);
    }
    out
}

/// The increasing list of a set of members is determined by the set.
pub proof fn law_sorted_set_is_unique(a: Seq<i64>, b: Seq<i64>, v: Seq<i64>)
    requires
        sorted_set_of(a, v),
        sorted_set_of(b, v),
    ensures
        a == b,
    decreases a.len(),
{
    lemma_sorted_same_members(a, b);
}

/// Two increasing lists with the same members are the same list.
pub proof fn lemma_sorted_same_members(a: Seq<i64>, b: Seq<i64>)
    requires
        increasing(a),
        increasing(b),
        forall|x: i64| #[trigger] a.contains(x) <==> b.contains(x),
    ensures
        a == b,
    decreases a.len(),
{
    if a.len() == 0 {
        if b.len() > 0 {
            assert(b.contains(b[0]));
            assert(a.contains(b[0]));
        }
        assert(a =~= b);
    } else if b.len() == 0 {
        assert(a.contains(a[0]));
    } else {
        let x = a.last();
        let y = b.last();
        assert(a.contains(x));
        assert(b.contains(y));
        assert(a.contains(y));
        let i = choose|i: int| 0 <= i < b.len() && b[i] == x;
        let j = choose|j: int| 0 <= j < a.len() && a[j] == y;
        assert(x == y);
        let a1 = a.drop_last();
        let b1 = b.drop_last();
        assert forall|z: i64| #[trigger] a1.contains(z) <==> b1.contains(z) by {
            if a1.contains(z) {
                let k = choose|k: int| 0 <= k < a1.len() && a1[k] == z;
                assert(a[k] == z && a[k] < a[a.len() - 1]);
                assert(a.contains(z));
                assert(b.contains(z));
                let m = choose|m: int| 0 <= m < b.len() && b[m] == z;
                assert(b1[m] == z);
            }
            if b1.contains(z) {
                let k = choose|k: int| 0 <= k < b1.len() && b1[k] == z;
                assert(b[k] == z && b[k] < b[b.len() - 1]);
                assert(b.contains(z));
                assert(a.contains(z));
                let m = choose|m: int| 0 <= m < a.len() && a[m] == z;
                assert(a1[m] == z);
            }
        }
        lemma_sorted_same_members(a1, b1);
        assert(a =~= a1.push(x));
        assert(b =~= b1.push(y));
    }
}

} // verus!
