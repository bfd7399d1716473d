//! Grouping the files of the inbox by the directories that they lie in.

use crate::import::inbox::SeenFile;
use crate::order::ascending;
use crate::relpath::{parent, parent_of};
use crate::split::{
    lemma_last_index, lemma_last_index_is, lemma_text_irreflexive, lemma_text_total,
    lemma_text_transitive, less,
};
use crate::text::{last_index, same_text, text_less};
use crate::unicode::{canonical, canonical_key};
use vstd::prelude::*;
use vstd::string::*;

verus! {

/// The files of a directory.
#[derive(Debug)]
pub struct DirFiles {
    /// Its path, empty for the inbox itself.
    pub dir: String,
    /// The key of its path.
    pub key: String,
    /// Which of the files lie in it.
    pub files: Vec<usize>,
}

/// The directory of a file, empty for a file of the inbox itself.
pub open spec fn dir_of_file(f: SeenFile) -> Seq<char> {
    match parent_of(f.rel@) {
        Some(d) => d,
        None => Seq::empty(),
    }
}

/// The key of the directory of a file.
pub open spec fn dir_key_of(f: SeenFile) -> Seq<char> {
    canonical(dir_of_file(f))
}

/// Which of the first `n` files lie in the directory with this key.
pub open spec fn lying_in(seen: Seq<SeenFile>, key: Seq<char>, n: int) -> Seq<usize>
    decreases n,
{
    if n <= 0 {
        Seq::empty()
    } else if dir_key_of(seen[n - 1]) == key {
        lying_in(seen, key, n - 1).push((n - 1) as usize)
    } else {
        lying_in(seen, key, n - 1)
    }
}

/// The keys of the directories.
pub open spec fn dir_keys(v: Seq<DirFiles>) -> Seq<Seq<char>> {
    v.map_values(|g: DirFiles| g.key@)
}

/// The group holds the files of its directory among the first `n`, and has the
/// path that the first of them has.
pub open spec fn is_group(g: DirFiles, seen: Seq<SeenFile>, n: int) -> bool {
    &&& g.files@ == lying_in(seen, g.key@, n)
    &&& g.files@.len() > 0
    &&& g.dir@ == dir_of_file(seen[g.files@[0] as int])
}

/// The groups are the directories of the first `n` files, in the order of their
/// keys.
pub open spec fn grouped(v: Seq<DirFiles>, seen: Seq<SeenFile>, n: int) -> bool {
    &&& ascending(dir_keys(v))
    &&& forall|g: int| 0 <= g < v.len() ==> is_group(#[trigger] v[g], seen, n)
    &&& forall|i: int| 0 <= i < n ==> dir_keys(v).contains(dir_key_of(#[trigger] seen[i]))
}

/// What [`lying_in`] holds.
proof fn lemma_lying_in(seen: Seq<SeenFile>, key: Seq<char>, n: int)
    requires
        0 <= n <= seen.len() <= usize::MAX,
    ensures
        forall|k: int|
            0 <= k < lying_in(seen, key, n).len() ==> (#[trigger] lying_in(seen, key, n)[k]) < n && dir_key_of(
                seen[lying_in(seen, key, n)[k] as int],
            ) == key,
    decreases n,
{
    if n > 0 {
        lemma_lying_in(seen, key, n - 1);
        let l = lying_in(seen, key, n);
        let p = lying_in(seen, key, n - 1);
        assert forall|k: int| 0 <= k < l.len() implies (#[trigger] l[k]) < n && dir_key_of(seen[l[k] as int]) == key by {
            if k < p.len() {
                assert(l[k] == p[k]);
            }
        }
    }
}

fn dir_text(f: &SeenFile) -> (r: String)
    ensures
        r@ == dir_of_file(*f),
{
    match parent(&f.rel) {
        Some(d) => d,
        None => {
            let e = "".to_owned();
            proof {
                reveal_strlit("");
                assert(e@ =~= Seq::<char>::empty());
            }
            e
        },
    }
}

/// The file `i` joins the group of its directory.
proof fn lemma_joined(before: Seq<DirFiles>, after: Seq<DirFiles>, seen: Seq<SeenFile>, i: int, at: int)
    requires
        0 <= i < seen.len() <= usize::MAX,
        grouped(before, seen, i),
        0 <= at < before.len(),
        before[at].key@ == dir_key_of(seen[i]),
        after.len() == before.len(),
        after[at].key == before[at].key,
        after[at].dir == before[at].dir,
        after[at].files@ == before[at].files@.push(i as usize),
        forall|g: int| 0 <= g < before.len() && g != at ==> #[trigger] after[g] == before[g],
    ensures
        grouped(after, seen, i + 1),
{
    let kb = dir_keys(before);
    assert(dir_keys(after) =~= kb);
    assert forall|g: int| 0 <= g < after.len() implies is_group(#[trigger] after[g], seen, i + 1) by {
        assert(is_group(before[g], seen, i));
        if g != at {
            lemma_text_irreflexive(kb[at]);
            if g < at {
                assert(text_less(kb[g], kb[at]));
            } else {
                assert(text_less(kb[at], kb[g]));
            }
        }
    }
    assert forall|j: int| 0 <= j < i + 1 implies dir_keys(after).contains(dir_key_of(#[trigger] seen[j])) by {
        if j == i {
            assert(kb[at] == dir_key_of(seen[i]));
        }
    }
}

/// The file `i` begins the group of its directory.
proof fn lemma_begun(before: Seq<DirFiles>, after: Seq<DirFiles>, seen: Seq<SeenFile>, i: int, at: int, g: DirFiles)
    requires
        0 <= i < seen.len() <= usize::MAX,
        grouped(before, seen, i),
        0 <= at <= before.len(),
        g.key@ == dir_key_of(seen[i]),
        g.dir@ == dir_of_file(seen[i]),
        g.files@ == seq![i as usize],
        forall|k: int| 0 <= k < at ==> text_less(#[trigger] dir_keys(before)[k], g.key@),
        at < before.len() ==> text_less(g.key@, dir_keys(before)[at]),
        after == before.insert(at, g),
    ensures
        grouped(after, seen, i + 1),
{
    let kb = dir_keys(before);
    let ka = dir_keys(after);
    assert(ka =~= kb.insert(at, g.key@));
    assert forall|k: int| at <= k < kb.len() implies text_less(g.key@, #[trigger] kb[k]) by {
        if k > at {
            assert(text_less(kb[at], kb[k]));
            lemma_text_transitive(g.key@, kb[at], kb[k]);
        }
    }
    assert(!kb.contains(g.key@)) by {
        if kb.contains(g.key@) {
            let k = choose|k: int| 0 <= k < kb.len() && kb[k] == g.key@;
            lemma_text_irreflexive(g.key@);
            if k < at {
                assert(text_less(kb[k], g.key@));
            } else {
                assert(text_less(g.key@, kb[k]));
            }
        }
    }
    assert(ascending(ka)) by {
        assert forall|a: int, b: int| 0 <= a < b < ka.len() implies text_less(#[trigger] ka[a], #[trigger] ka[b]) by {
            if b < at {
                assert(text_less(kb[a], kb[b]));
            } else if b == at {
                assert(text_less(kb[a], g.key@));
            } else if a < at {
                assert(text_less(kb[a], kb[b - 1]));
            } else if a == at {
                assert(text_less(g.key@, kb[b - 1]));
            } else {
                assert(text_less(kb[a - 1], kb[b - 1]));
            }
        }
    }
    assert(lying_in(seen, g.key@, i).len() == 0) by {
        lemma_lying_in(seen, g.key@, i);
        let l = lying_in(seen, g.key@, i);
        if l.len() > 0 {
            assert(dir_key_of(seen[l[0] as int]) == g.key@);
            assert(kb.contains(dir_key_of(seen[l[0] as int])));
        }
    }
    assert(lying_in(seen, g.key@, i + 1) =~= seq![i as usize]);
    assert forall|k: int| 0 <= k < after.len() implies is_group(#[trigger] after[k], seen, i + 1) by {
        if k != at {
            let o = if k < at {
                k
            } else {
                k - 1
            };
            assert(after[k] == before[o]);
            assert(is_group(before[o], seen, i));
            assert(kb.contains(kb[o]));
        }
    }
    assert forall|j: int| 0 <= j < i + 1 implies ka.contains(dir_key_of(#[trigger] seen[j])) by {
        if j == i {
            assert(ka[at] == dir_key_of(seen[i]));
        } else {
            let k = choose|k: int| 0 <= k < kb.len() && kb[k] == dir_key_of(seen[j]);
            if k < at {
                assert(ka[k] == kb[k]);
            } else {
                assert(ka[k + 1] == kb[k]);
            }
        }
    }
}

/// The directories of the files that were seen, in the order of their keys, each
/// with its files in the order in which they were seen. Directories whose paths
/// have one key are one, under the path that came first.
pub fn group_by_dir(seen: &Vec<SeenFile>) -> (r: Vec<DirFiles>)
    ensures
        grouped(r@, seen@, seen@.len() as int),
{
    let mut out: Vec<DirFiles> = Vec::new();
    let n: usize = seen.len();
    let mut i: usize = 0;
    while i < n
        invariant
            i <= n == seen@.len(),
            grouped(out@, seen@, i as int),
        decreases n - i,
    {
        let dir = dir_text(&seen[i]);
        let key = canonical_key(&dir);
        let ghost before = out@;
        let mut at: usize = 0;
        while at < out.len() && less(out[at].key.as_str(), &key)
            invariant
                out@ == before,
                at <= before.len(),
                forall|k: int| 0 <= k < at ==> text_less(#[trigger] dir_keys(before)[k], key@),
            decreases before.len() - at,
        {
            at = at + 1;
        }
        if at < out.len() && same_text(out[at].key.as_str(), &key) {
            let mut g = out.remove(at);
            g.files.push(i);
            out.insert(at, g);
            proof {
                lemma_joined(before, out@, seen@, i as int, at as int);
            }
        } else {
            proof {
                if at < before.len() {
                    lemma_text_total(dir_keys(before)[at as int], key@);
                }
            }
            let mut files: Vec<usize> = Vec::new();
            files.push(i);
            let g = DirFiles { dir, key, files };
            let ghost gg = g;
            out.insert(at, g);
            proof {
                assert(gg.files@ =~= seq![i]);
                lemma_begun(before, out@, seen@, i as int, at as int, gg);
            }
        }
        i = i + 1;
    }
    out
}

/// Every file that was seen is in one group, and in that group once.
pub proof fn law_every_file_is_in_one_group(v: Seq<DirFiles>, seen: Seq<SeenFile>, i: int)
    requires
        seen.len() <= usize::MAX,
        grouped(v, seen, seen.len() as int),
        0 <= i < seen.len(),
    ensures
        exists|g: int| 0 <= g < v.len() && (#[trigger] v[g]).files@.contains(i as usize),
        forall|g: int, h: int|
            0 <= g < v.len() && 0 <= h < v.len() && (#[trigger] v[g]).files@.contains(i as usize) && (
            #[trigger] v[h]).files@.contains(i as usize) ==> g == h,
        forall|g: int| 0 <= g < v.len() ==> (#[trigger] v[g]).files@.no_duplicates(),
{
    let n = seen.len() as int;
    let keys = dir_keys(v);
    let own = choose|g: int| 0 <= g < keys.len() && keys[g] == dir_key_of(seen[i]);
    lemma_lies_in(seen, i, n);
    assert(is_group(v[own], seen, n));
    assert(v[own].files@.contains(i as usize));
    assert forall|g: int, h: int|
        0 <= g < v.len() && 0 <= h < v.len() && (#[trigger] v[g]).files@.contains(i as usize) && (
        #[trigger] v[h]).files@.contains(i as usize) implies g == h by {
        assert(is_group(v[g], seen, n) && is_group(v[h], seen, n));
        lemma_lying_in(seen, v[g].key@, n);
        lemma_lying_in(seen, v[h].key@, n);
        let a = choose|a: int| 0 <= a < v[g].files@.len() && v[g].files@[a] == i as usize;
        let b = choose|b: int| 0 <= b < v[h].files@.len() && v[h].files@[b] == i as usize;
        assert(keys[g] == dir_key_of(seen[i]) && keys[h] == dir_key_of(seen[i]));
        lemma_text_irreflexive(keys[g]);
        if g < h {
            assert(text_less(keys[g], keys[h]));
        } else if h < g {
            assert(text_less(keys[h], keys[g]));
        }
    }
    assert forall|g: int| 0 <= g < v.len() implies (#[trigger] v[g]).files@.no_duplicates() by {
        assert(is_group(v[g], seen, n));
        lemma_lying_in_once(seen, v[g].key@, n);
    }
}

proof fn lemma_lies_in(seen: Seq<SeenFile>, i: int, n: int)
    requires
        0 <= i < n <= seen.len(),
    ensures
        lying_in(seen, dir_key_of(seen[i]), n).contains(i as usize),
    decreases n,
{
    let key = dir_key_of(seen[i]);
    let l = lying_in(seen, key, n);
    if i == n - 1 {
        assert(l[l.len() - 1] == i as usize);
    } else {
        lemma_lies_in(seen, i, n - 1);
        let p = lying_in(seen, key, n - 1);
        let k = choose|k: int| 0 <= k < p.len() && p[k] == i as usize;
        assert(l[k] == p[k]);
    }
}

proof fn lemma_lying_in_once(seen: Seq<SeenFile>, key: Seq<char>, n: int)
    requires
        0 <= n <= seen.len() <= usize::MAX,
    ensures
        lying_in(seen, key, n).no_duplicates(),
    decreases n,
{
    if n > 0 {
        lemma_lying_in_once(seen, key, n - 1);
        lemma_lying_in(seen, key, n - 1);
    }
}

/// The files of a directory are those whose path has it as its parent; those at the top have none.
pub proof fn law_directory_of_a_file(f: SeenFile, dir: Seq<char>, name: Seq<char>)
    requires
        !name.contains('/'),
    ensures
        f.rel@ == dir + seq!['/'] + name ==> dir_of_file(f) == dir,
        f.rel@ == name ==> dir_of_file(f).len() == 0,
{
    let path = dir + seq!['/'] + name;
    assert forall|k: int| dir.len() < k < path.len() implies #[trigger] path[k] != '/' by {
        assert(path[k] == name[k - dir.len() - 1]);
        assert(name.contains(name[k - dir.len() - 1]));
    }
    lemma_last_index_is(path, '/', dir.len() as int);
    assert(path.take(dir.len() as int) =~= dir);
    lemma_last_index(name, '/');
    if last_index(name, '/') is Some {
        assert(name.contains(name[last_index(name, '/')->0]));
    }
}

} // verus!
