//! What of the inbox tells that something changed: its audio files, whatever the
//! order in which they are seen.

use crate::import::inbox::SeenFile;
use crate::split::{lemma_text_irreflexive, lemma_text_total, lemma_text_transitive, less};
use crate::text::text_less;
use crate::unicode::{canonical, canonical_key};
use vstd::multiset::*;
use vstd::prelude::*;
use vstd::relations::*;
use vstd::seq_lib::*;
use vstd::string::*;

verus! {

/// What is noted of a file.
#[derive(Debug, PartialEq, Eq, Hash)]
pub struct FileMark {
    pub key: String,
    pub inode: u64,
    pub size: u64,
    pub mtime_ns: i64,
    pub ctime_ns: i64,
}

/// A mark in mathematical terms.
#[verifier::ext_equal]
pub struct Mark {
    pub key: Seq<char>,
    pub inode: u64,
    pub size: u64,
    pub mtime_ns: i64,
    pub ctime_ns: i64,
}

impl View for FileMark {
    type V = Mark;

    open spec fn view(&self) -> Mark {
        Mark {
            key: self.key@,
            inode: self.inode,
            size: self.size,
            mtime_ns: self.mtime_ns,
            ctime_ns: self.ctime_ns,
        }
    }
}

/// What is noted of a file that was seen.
pub open spec fn mark_of(s: SeenFile) -> Mark {
    Mark {
        key: canonical(s.rel@),
        inode: s.st.inode,
        size: s.st.size,
        mtime_ns: s.st.mtime_ns,
        ctime_ns: s.st.ctime_ns,
    }
}

/// What is noted of files that were seen.
pub open spec fn marks_of(v: Seq<SeenFile>) -> Seq<Mark> {
    v.map_values(|s: SeenFile| mark_of(s))
}

/// The views of marks.
pub open spec fn mark_views(v: Seq<FileMark>) -> Seq<Mark> {
    v.map_values(|m: FileMark| m@)
}

/// The numbers of `a` come before those of `b`, the first that differ deciding.
pub open spec fn numbers_less(a: Mark, b: Mark) -> bool {
    if a.inode != b.inode {
        a.inode < b.inode
    } else if a.size != b.size {
        a.size < b.size
    } else if a.mtime_ns != b.mtime_ns {
        a.mtime_ns < b.mtime_ns
    } else {
        a.ctime_ns < b.ctime_ns
    }
}

/// `a` comes before `b`: by the key, then by the numbers.
pub open spec fn mark_less(a: Mark, b: Mark) -> bool {
    if a.key != b.key {
        text_less(a.key, b.key)
    } else {
        numbers_less(a, b)
    }
}

/// `a` does not come after `b`.
pub open spec fn not_after() -> spec_fn(Mark, Mark) -> bool {
    |a: Mark, b: Mark| !mark_less(b, a)
}

proof fn lemma_total(a: Mark, b: Mark)
    ensures
        mark_less(a, b) || mark_less(b, a) || a == b,
{
    lemma_text_total(a.key, b.key);
}

proof fn lemma_not_both(a: Mark, b: Mark)
    requires
        mark_less(a, b),
    ensures
        !mark_less(b, a),
{
    if a.key != b.key && mark_less(b, a) {
        lemma_text_transitive(a.key, b.key, a.key);
        lemma_text_irreflexive(a.key);
    }
}

proof fn lemma_transitive(a: Mark, b: Mark, c: Mark)
    requires
        mark_less(a, b),
        mark_less(b, c),
    ensures
        mark_less(a, c),
{
    if a.key != b.key && b.key != c.key {
        lemma_text_transitive(a.key, b.key, c.key);
        if a.key == c.key {
            lemma_text_irreflexive(a.key);
        }
    }
}

proof fn lemma_order()
    ensures
        total_ordering(not_after()),
{
    let leq = not_after();
    assert forall|a: Mark| #[trigger] leq(a, a) by {
        if mark_less(a, a) {
            lemma_not_both(a, a);
        }
    }
    assert forall|a: Mark, b: Mark| #[trigger] leq(a, b) && #[trigger] leq(b, a) implies a == b by {
        lemma_total(a, b);
    }
    assert forall|a: Mark, b: Mark, c: Mark| #[trigger] leq(a, b) && #[trigger] leq(b, c) implies leq(a, c) by {
        lemma_total(a, b);
        lemma_total(b, c);
        if mark_less(c, a) {
            if a == b || b == c {
            } else {
                lemma_transitive(a, b, c);
                lemma_not_both(a, c);
            }
        }
    }
    assert forall|a: Mark, b: Mark| #[trigger] leq(a, b) || #[trigger] leq(b, a) by {
        if mark_less(b, a) {
            lemma_not_both(b, a);
        }
    }
}

/// Whether `a` comes before `b`.
fn comes_before(a: &FileMark, b: &FileMark) -> (r: bool)
    ensures
        r == mark_less(a@, b@),
{
    if less(&a.key, &b.key) {
        proof {
            lemma_text_irreflexive(a.key@);
        }
        return true;
    }
    if less(&b.key, &a.key) {
        proof {
            lemma_text_irreflexive(a.key@);
            if text_less(a.key@, b.key@) {
                lemma_text_transitive(a.key@, b.key@, a.key@);
            }
        }
        return false;
    }
    proof {
        lemma_text_total(a.key@, b.key@);
    }
    if a.inode != b.inode {
        a.inode < b.inode
    } else if a.size != b.size {
        a.size < b.size
    } else if a.mtime_ns != b.mtime_ns {
        a.mtime_ns < b.mtime_ns
    } else {
        a.ctime_ns < b.ctime_ns
    }
}

proof fn lemma_insert_counts(s: Seq<Mark>, at: int, x: Mark)
    requires
        0 <= at <= s.len(),
    ensures
        s.insert(at, x).to_multiset() =~= s.to_multiset().insert(x),
{
    let w = s.insert(at, x);
    to_multiset_remove(w, at);
    assert(w.remove(at) =~= s);
    assert(w[at] == x);
    w.to_multiset_ensures();
    assert(w.contains(x));
    assert(w.to_multiset().count(x) > 0);
    assert(w.to_multiset().remove(x).insert(x) =~= w.to_multiset());
}

fn insert_mark(v: &mut Vec<FileMark>, x: FileMark)
    requires
        sorted_by(mark_views(old(v)@), not_after()),
    ensures
        sorted_by(mark_views(final(v)@), not_after()),
        mark_views(final(v)@).to_multiset() == mark_views(old(v)@).to_multiset().insert(x@),
{
    let ghost before = mark_views(v@);
    let ghost leq = not_after();
    let mut at: usize = 0;
    while at < v.len() && comes_before(&v[at], &x)
        invariant
            at <= v@.len(),
            before == mark_views(v@),
            forall|k: int| 0 <= k < at ==> mark_less(#[trigger] before[k], x@),
        decreases v@.len() - at,
    {
        proof {
            assert(before[at as int] == v@[at as int]@);
        }
        at = at + 1;
    }
    let ghost xv = x@;
    proof {
        lemma_order();
        if at < v@.len() {
            assert(before[at as int] == v@[at as int]@);
            assert(leq(xv, before[at as int]));
        }
        lemma_insert_counts(before, at as int, xv);
    }
    v.insert(at, x);
    proof {
        let after = mark_views(v@);
        assert(after =~= before.insert(at as int, xv));
        assert forall|i: int, j: int| 0 <= i < j < after.len() implies #[trigger] leq(after[i], after[j]) by {
            if j < at {
                assert(leq(before[i], before[j]));
            } else if j == at {
                assert(mark_less(before[i], xv));
                lemma_not_both(before[i], xv);
            } else if i < at {
                assert(leq(before[i], before[j - 1]));
            } else if i == at {
                if j - 1 > at {
                    assert(leq(before[at as int], before[j - 1]));
                }
                assert(leq(xv, before[at as int]));
                assert(leq(xv, before[j - 1]));
            } else {
                assert(leq(before[i - 1], before[j - 1]));
            }
        }
    }
}

/// `r` is the snapshot of the files: what is noted of each, in order.
pub open spec fn snapshot_of(r: Seq<Mark>, files: Seq<SeenFile>) -> bool {
    &&& sorted_by(r, not_after())
    &&& r.to_multiset() == marks_of(files).to_multiset()
}

/// What is noted of the files that a walk saw, in order.
pub fn snapshot(files: &Vec<SeenFile>) -> (r: Vec<FileMark>)
    ensures
        snapshot_of(mark_views(r@), files@),
{
    let mut out: Vec<FileMark> = Vec::new();
    let ghost m = marks_of(files@);
    let mut i: usize = 0;
    proof {
        assert(mark_views(out@) =~= m.take(0));
    }
    while i < files.len()
        invariant
            i <= files@.len(),
            m == marks_of(files@),
            sorted_by(mark_views(out@), not_after()),
            mark_views(out@).to_multiset() == m.take(i as int).to_multiset(),
        decreases files@.len() - i,
    {
        let f = &files[i];
        let x = FileMark {
            key: canonical_key(&f.rel),
            inode: f.st.inode,
            size: f.st.size,
            mtime_ns: f.st.mtime_ns,
            ctime_ns: f.st.ctime_ns,
        };
        proof {
            assert(x@ == m[i as int]);
            assert(m.take(i + 1) =~= m.take(i as int).push(m[i as int]));
            to_multiset_build(m.take(i as int), m[i as int]);
        }
        insert_mark(&mut out, x);
        i = i + 1;
    }
    proof {
        assert(m.take(i as int) =~= m);
    }
    out
}

/// The snapshot depends on the files alone and not on the order in which they
/// were seen: it is the same exactly where the same is noted of the same files.
pub proof fn law_snapshot_ignores_order(a: Seq<SeenFile>, b: Seq<SeenFile>, ra: Seq<Mark>, rb: Seq<Mark>)
    requires
        snapshot_of(ra, a),
        snapshot_of(rb, b),
    ensures
        ra == rb <==> marks_of(a).to_multiset() == marks_of(b).to_multiset(),
{
    if marks_of(a).to_multiset() == marks_of(b).to_multiset() {
        lemma_order();
        lemma_sorted_unique(ra, rb, not_after());
    }
}

/// A file that changed in any of its marks gives another snapshot: its key, its inode, its size and its times
/// are all in it.
pub proof fn law_marks_tell_changes(a: SeenFile, b: SeenFile)
    ensures
        mark_of(a) == mark_of(b) ==> canonical(a.rel@) == canonical(b.rel@) && a.st.inode == b.st.inode && a.st.size
            == b.st.size && a.st.mtime_ns == b.st.mtime_ns && a.st.ctime_ns == b.st.ctime_ns,
        canonical(a.rel@) == canonical(b.rel@) && a.st.inode == b.st.inode && a.st.size == b.st.size && a.st.mtime_ns
            == b.st.mtime_ns && a.st.ctime_ns == b.st.ctime_ns ==> mark_of(a) == mark_of(b),
{
}

} // verus!
