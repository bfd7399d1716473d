//! Editing tags: what a batch records, and what becomes of each operation.

use crate::catalog::{
    change_views, clone_pair, pair_views, values_of, Fingerprint, PictureState, TagChange, TagSet,
};
use crate::edit::batch::BatchEvent;
use crate::edit::error::EditError;
use crate::edit::history::{
    clone_precondition, edit_at, edit_views, find_edit, json_values, mismatch_names, mismatches, no_edit,
    opt_bytes, recorded_values, same_precondition, values_json, values_recorded, Edit, JsonText, JsonValue, Precondition,
};
use crate::edit::picture::PICTURE_KEY;
use crate::fsroot::{FsError, Stat};
use crate::import::commit::one_if;
use crate::import::placement::{is_same_state, same_state};
use crate::import::scanner::{audio_changed, effective_fingerprint, kept_fingerprint, sound_changed};
use crate::lists::{
    count_id, count_of, has_id, increasing, insert_id, lemma_count_member, sorted_ids,
    sorted_set_of,
};
use crate::order::{ascending, insert_text};
use crate::split::{join, same_texts};
use crate::text::{concat2, concat5, int_text, int_to_text, joined, same_text, texts};
use vstd::prelude::*;
use vstd::string::*;

verus! {

// ---------------------------------------------------------------- replacing values

/// The pairs whose key is not `key`.
pub open spec fn without_key(items: Seq<(Seq<char>, Seq<char>)>, key: Seq<char>) -> Seq<(Seq<char>, Seq<char>)>
    decreases items.len(),
{
    if items.len() == 0 {
        Seq::empty()
    } else {
        let r = without_key(items.drop_last(), key);
        if items.last().0 == key {
            r
        } else {
            r.push(items.last())
        }
    }
}

/// `values` under `key`.
pub open spec fn under(key: Seq<char>, values: Seq<Seq<char>>) -> Seq<(Seq<char>, Seq<char>)> {
    values.map_values(|v: Seq<char>| (key, v))
}

/// The pairs with `values` for what stood under `key`, at the end.
pub open spec fn key_replaced(
    items: Seq<(Seq<char>, Seq<char>)>,
    key: Seq<char>,
    values: Seq<Seq<char>>,
) -> Seq<(Seq<char>, Seq<char>)> {
    without_key(items, key) + under(key, values)
}

/// The pairs after the first `n` replacements.
pub open spec fn replaced(
    items: Seq<(Seq<char>, Seq<char>)>,
    changes: Seq<(Seq<char>, Seq<Seq<char>>)>,
    n: int,
) -> Seq<(Seq<char>, Seq<char>)>
    decreases n,
{
    if n <= 0 {
        items
    } else {
        key_replaced(replaced(items, changes, n - 1), changes[n - 1].0, changes[n - 1].1)
    }
}

/// The views of replacements.
pub open spec fn replacement_views(v: Seq<(String, Vec<String>)>) -> Seq<(Seq<char>, Seq<Seq<char>>)> {
    v.map_values(|p: (String, Vec<String>)| (p.0@, texts(p.1@)))
}

fn replace_key(items: &Vec<(String, String)>, key: &str, values: &Vec<String>) -> (r: Vec<(String, String)>)
    ensures
        pair_views(r@) == key_replaced(pair_views(items@), key@, texts(values@)),
{
    let ghost v = pair_views(items@);
    let mut out: Vec<(String, String)> = Vec::new();
    let mut i: usize = 0;
    proof {
        assert(pair_views(out@) =~= without_key(v.take(0), key@));
    }
    while i < items.len()
        invariant
            i <= items@.len(),
            v == pair_views(items@),
            pair_views(out@) == without_key(v.take(i as int), key@),
        decreases items@.len() - i,
    {
        let ghost before = pair_views(out@);
        proof {
            assert(v.take(i + 1).last() == (items@[i as int].0@, items@[i as int].1@));
            assert(v.take(i + 1).drop_last() =~= v.take(i as int));
        }
        if !same_text(&items[i].0, key) {
            out.push(clone_pair(&items[i]));
            proof {
                assert(pair_views(out@) =~= before.push((items@[i as int].0@, items@[i as int].1@)));
            }
        }
        i = i + 1;
    }
    let ghost rest = pair_views(out@);
    let ghost added = under(key@, texts(values@));
    let mut j: usize = 0;
    proof {
        assert(v.take(i as int) =~= v);
        assert(rest + added.take(0) =~= rest);
    }
    while j < values.len()
        invariant
            j <= values@.len(),
            added == under(key@, texts(values@)),
            pair_views(out@) == rest + added.take(j as int),
        decreases values@.len() - j,
    {
        let ghost before = pair_views(out@);
        out.push((key.to_owned(), values[j].clone()));
        proof {
            assert(pair_views(out@) =~= before.push((key@, values@[j as int]@)));
            assert(added[j as int] == (key@, values@[j as int]@));
            assert(pair_views(out@) =~= rest + added.take(j + 1));
        }
        j = j + 1;
    }
    proof {
        assert(added.take(j as int) =~= added);
    }
    out
}

/// The tags with the values of some keys replaced, one key after the other. The
/// pairs are not put in the normal form of tag sets: that is the caller's to do.
pub fn with_replaced(set: &TagSet, changes: &Vec<(String, Vec<String>)>) -> (r: TagSet)
    ensures
        r@ == replaced(set@, replacement_views(changes@), changes@.len() as int),
{
    let ghost c = replacement_views(changes@);
    let mut items: Vec<(String, String)> = Vec::new();
    let mut k: usize = 0;
    while k < set.items.len()
        invariant
            k <= set.items@.len(),
            items@ == set.items@.take(k as int),
        decreases set.items@.len() - k,
    {
        items.push(clone_pair(&set.items[k]));
        proof {
            assert(set.items@.take(k + 1) =~= set.items@.take(k as int).push(set.items@[k as int]));
        }
        k = k + 1;
    }
    let mut i: usize = 0;
    proof {
        assert(set.items@.take(k as int) =~= set.items@);
    }
    while i < changes.len()
        invariant
            i <= changes@.len(),
            c == replacement_views(changes@),
            pair_views(items@) == replaced(set@, c, i as int),
        decreases changes@.len() - i,
    {
        items = replace_key(&items, &changes[i].0, &changes[i].1);
        i = i + 1;
    }
    TagSet { items }
}

proof fn lemma_without_key(items: Seq<(Seq<char>, Seq<char>)>, key: Seq<char>, k: Seq<char>)
    ensures
        values_of(without_key(items, key), k) == (if k == key {
            Seq::empty()
        } else {
            values_of(items, k)
        }),
    decreases items.len(),
{
    if items.len() > 0 {
        lemma_without_key(items.drop_last(), key, k);
        let r = without_key(items.drop_last(), key);
        if items.last().0 != key {
            assert(r.push(items.last()).drop_last() =~= r);
        }
    }
}

proof fn lemma_values_concat(a: Seq<(Seq<char>, Seq<char>)>, b: Seq<(Seq<char>, Seq<char>)>, k: Seq<char>)
    ensures
        values_of(a + b, k) == values_of(a, k) + values_of(b, k),
    decreases b.len(),
{
    if b.len() == 0 {
        assert(a + b =~= a);
        assert(values_of(a, k) + values_of(b, k) =~= values_of(a, k));
    } else {
        assert((a + b).drop_last() =~= a + b.drop_last());
        lemma_values_concat(a, b.drop_last(), k);
        assert((a + b).last() == b.last());
        if b.last().0 == k {
            assert(values_of(a + b, k) =~= values_of(a, k) + values_of(b, k));
        }
    }
}

proof fn lemma_values_under(key: Seq<char>, values: Seq<Seq<char>>, k: Seq<char>)
    ensures
        values_of(under(key, values), k) == (if k == key {
            values
        } else {
            Seq::empty()
        }),
    decreases values.len(),
{
    let u = under(key, values);
    if values.len() == 0 {
        assert(values_of(u, k) =~= Seq::empty());
        assert(values =~= Seq::empty());
    } else {
        assert(u.drop_last() =~= under(key, values.drop_last()));
        lemma_values_under(key, values.drop_last(), k);
        assert(u.last() == (key, values.last()));
        if k == key {
            assert(values_of(u, k) =~= values);
        }
    }
}

/// After a replacement the key has the new values, and every other key those it
/// had.
pub proof fn law_replacement_sets_its_key(
    items: Seq<(Seq<char>, Seq<char>)>,
    key: Seq<char>,
    values: Seq<Seq<char>>,
    k: Seq<char>,
)
    ensures
        values_of(key_replaced(items, key, values), k) == (if k == key {
            values
        } else {
            values_of(items, k)
        }),
{
    lemma_without_key(items, key, k);
    lemma_values_under(key, values, k);
    lemma_values_concat(without_key(items, key), under(key, values), k);
    assert(Seq::<Seq<char>>::empty() + values =~= values);
    assert(values_of(items, k) + Seq::<Seq<char>>::empty() =~= values_of(items, k));
}

/// No two replacements are of one key.
pub open spec fn distinct_keys(changes: Seq<(Seq<char>, Seq<Seq<char>>)>) -> bool {
    forall|i: int, j: int|
        0 <= i < changes.len() && 0 <= j < changes.len() && i != j ==> (#[trigger] changes[i]).0 != (
        #[trigger] changes[j]).0
}

proof fn lemma_replaced_values(
    items: Seq<(Seq<char>, Seq<char>)>,
    changes: Seq<(Seq<char>, Seq<Seq<char>>)>,
    n: int,
    k: Seq<char>,
)
    requires
        0 <= n <= changes.len(),
        distinct_keys(changes),
    ensures
        (forall|i: int| 0 <= i < n ==> (#[trigger] changes[i]).0 != k) ==> values_of(replaced(items, changes, n), k)
            == values_of(items, k),
        forall|i: int| 0 <= i < n && (#[trigger] changes[i]).0 == k ==> values_of(replaced(items, changes, n), k)
            == changes[i].1,
    decreases n,
{
    if n > 0 {
        lemma_replaced_values(items, changes, n - 1, k);
        law_replacement_sets_its_key(replaced(items, changes, n - 1), changes[n - 1].0, changes[n - 1].1, k);
        if forall|i: int| 0 <= i < n ==> (#[trigger] changes[i]).0 != k {
            assert(changes[n - 1].0 != k);
        }
        assert forall|i: int| 0 <= i < n && (#[trigger] changes[i]).0 == k implies values_of(
            replaced(items, changes, n),
            k,
        ) == changes[i].1 by {
            if i < n - 1 {
                assert(changes[n - 1].0 != changes[i].0);
            }
        }
    }
}

/// Putting the old values back undoes a replacement: every key has the values
/// it had. `changes` and `back` name the same keys, each once, and `back` holds
/// what stood under them.
pub proof fn law_restoring_undoes_replacing(
    items: Seq<(Seq<char>, Seq<char>)>,
    changes: Seq<(Seq<char>, Seq<Seq<char>>)>,
    back: Seq<(Seq<char>, Seq<Seq<char>>)>,
    k: Seq<char>,
)
    requires
        changes.len() == back.len(),
        distinct_keys(changes),
        forall|i: int|
            0 <= i < changes.len() ==> (#[trigger] back[i]).0 == changes[i].0 && back[i].1 == values_of(
                items,
                changes[i].0,
            ),
    ensures
        values_of(
            replaced(replaced(items, changes, changes.len() as int), back, back.len() as int),
            k,
        ) == values_of(items, k),
{
    let n = changes.len() as int;
    assert(distinct_keys(back)) by {
        assert forall|i: int, j: int| 0 <= i < back.len() && 0 <= j < back.len() && i != j implies (
        #[trigger] back[i]).0 != (#[trigger] back[j]).0 by {
            assert(changes[i].0 != changes[j].0);
        }
    }
    let mid = replaced(items, changes, n);
    lemma_replaced_values(items, changes, n, k);
    lemma_replaced_values(mid, back, n, k);
    if exists|i: int| 0 <= i < n && (#[trigger] back[i]).0 == k {
        let i = choose|i: int| 0 <= i < n && (#[trigger] back[i]).0 == k;
        assert(values_of(replaced(mid, back, n), k) == back[i].1);
    } else {
        assert forall|i: int| 0 <= i < n implies (#[trigger] changes[i]).0 != k by {
            assert(back[i].0 == changes[i].0);
        }
    }
}

// ---------------------------------------------------------------- differences

/// The keys of what an edit records.
pub open spec fn diff_keys(r: Seq<(Seq<char>, JsonText, JsonText)>) -> Seq<Seq<char>> {
    r.map_values(|e: (Seq<char>, JsonText, JsonText)| e.0)
}

/// What an edit between two sets of tags records: the keys that differ, in
/// order, with their values before and after.
pub open spec fn diff_is(
    r: Seq<(Seq<char>, JsonText, JsonText)>,
    current: Seq<(Seq<char>, Seq<char>)>,
    new: Seq<(Seq<char>, Seq<char>)>,
) -> bool {
    &&& ascending(diff_keys(r))
    &&& forall|k: Seq<char>|
        #[trigger] diff_keys(r).contains(k) <==> values_of(current, k)
            != values_of(new, k)
    &&& forall|i: int|
        0 <= i < r.len() ==> (#[trigger] r[i]).1 == values_recorded(values_of(current, r[i].0)) && r[i].2
            == values_recorded(values_of(new, r[i].0))
}

proof fn lemma_key_has_values(items: Seq<(Seq<char>, Seq<char>)>, k: Seq<char>)
    ensures
        values_of(items, k).len() > 0 ==> exists|i: int| 0 <= i < items.len() && (#[trigger] items[i]).0 == k,
    decreases items.len(),
{
    if items.len() > 0 {
        let t = items.drop_last();
        lemma_key_has_values(t, k);
        if values_of(items, k).len() > 0 {
            if items.last().0 == k {
                assert(items[items.len() - 1].0 == k);
            } else {
                let i = choose|i: int| 0 <= i < t.len() && (#[trigger] t[i]).0 == k;
                assert(items[i].0 == k);
            }
        }
    }
}

fn push_keys(out: &mut Vec<String>, items: &Vec<(String, String)>)
    requires
        ascending(texts(old(out)@)),
    ensures
        ascending(texts(final(out)@)),
        forall|k: Seq<char>|
            texts(old(out)@).contains(k) || (exists|i: int|
                0 <= i < items@.len() && (#[trigger] pair_views(items@)[i]).0 == k) ==> #[trigger] texts(
                final(out)@,
            ).contains(k),
{
    let ghost v = pair_views(items@);
    let ghost first = texts(out@);
    let mut i: usize = 0;
    while i < items.len()
        invariant
            i <= items@.len(),
            v == pair_views(items@),
            ascending(texts(out@)),
            forall|k: Seq<char>|
                first.contains(k) || (exists|j: int| 0 <= j < i && (#[trigger] v[j]).0 == k) ==> #[trigger] texts(
                    out@,
                ).contains(k),
        decreases items@.len() - i,
    {
        let ghost before = texts(out@);
        insert_text(out, items[i].0.clone());
        proof {
            assert forall|k: Seq<char>|
                first.contains(k) || (exists|j: int| 0 <= j < i + 1 && (#[trigger] v[j]).0 == k) implies #[trigger] texts(
                out@,
            ).contains(k) by {
                if exists|j: int| 0 <= j < i + 1 && (#[trigger] v[j]).0 == k {
                    let j = choose|j: int| 0 <= j < i + 1 && (#[trigger] v[j]).0 == k;
                    if j < i {
                        assert(before.contains(k));
                    } else {
                        assert(k == items@[i as int].0@);
                    }
                } else {
                    assert(before.contains(k));
                }
            }
        }
        i = i + 1;
    }
}

/// What an edit between two sets of tags records (see [`diff_is`]).
pub fn diff_sets(current: &TagSet, new: &TagSet) -> (r: Vec<Edit>)
    ensures
        diff_is(edit_views(r@), current@, new@),
{
    let mut keys: Vec<String> = Vec::new();
    proof {
        assert(texts(keys@) =~= Seq::empty());
    }
    push_keys(&mut keys, &current.items);
    push_keys(&mut keys, &new.items);
    let ghost all = texts(keys@);
    let mut out: Vec<Edit> = Vec::new();
    let mut i: usize = 0;
    while i < keys.len()
        invariant
            i <= keys@.len(),
            all == texts(keys@),
            ascending(all),
            forall|a: int| 0 <= a < out@.len() ==> {
                let e = #[trigger] out@[a];
                &&& e.old_value@ == values_recorded(values_of(current@, e.key@))
                &&& e.new_value@ == values_recorded(values_of(new@, e.key@))
                &&& values_of(current@, e.key@) != values_of(new@, e.key@)
                &&& exists|x: int| 0 <= x < i && #[trigger] all[x] == e.key@
            },
            forall|a: int, b: int|
                0 <= a < b < out@.len() ==> crate::text::text_less(
                    (#[trigger] out@[a]).key@,
                    (#[trigger] out@[b]).key@,
                ),
            forall|x: int|
                0 <= x < i && values_of(current@, #[trigger] all[x]) != values_of(new@, all[x]) ==> exists|a: int|
                    0 <= a < out@.len() && (#[trigger] out@[a]).key@ == all[x],
        decreases keys@.len() - i,
    {
        let before_values = current.values(&keys[i]);
        let after_values = new.values(&keys[i]);
        let ghost prior = out@;
        if !same_texts(&before_values, &after_values) {
            let old_value = values_json(&before_values);
            let new_value = values_json(&after_values);
            out.push(Edit { key: keys[i].clone(), old_value, new_value });
            proof {
                let now = out@;
                assert(now.len() == prior.len() + 1);
                assert(all[i as int] == keys@[i as int]@);
                assert forall|a: int, b: int| 0 <= a < b < now.len() implies crate::text::text_less(
                    (#[trigger] now[a]).key@,
                    (#[trigger] now[b]).key@,
                ) by {
                    if b < prior.len() {
                        assert(now[a] == prior[a] && now[b] == prior[b]);
                    } else {
                        assert(now[a] == prior[a]);
                        let x = choose|x: int| 0 <= x < i && #[trigger] all[x] == prior[a].key@;
                        assert(crate::text::text_less(all[x], all[i as int]));
                    }
                }
                assert forall|x: int|
                    0 <= x < i + 1 && values_of(current@, #[trigger] all[x]) != values_of(new@, all[x]) implies exists|
                    a: int,
                | 0 <= a < now.len() && (#[trigger] now[a]).key@ == all[x] by {
                    if x < i {
                        let a = choose|a: int| 0 <= a < prior.len() && (#[trigger] prior[a]).key@ == all[x];
                        assert(now[a].key@ == all[x]);
                    } else {
                        assert(now[prior.len() as int].key@ == all[x]);
                    }
                }
                assert forall|a: int| 0 <= a < now.len() implies {
                    let e = #[trigger] now[a];
                    &&& e.old_value@ == values_recorded(values_of(current@, e.key@))
                    &&& e.new_value@ == values_recorded(values_of(new@, e.key@))
                    &&& values_of(current@, e.key@) != values_of(new@, e.key@)
                    &&& exists|x: int| 0 <= x < i + 1 && #[trigger] all[x] == e.key@
                } by {
                    if a < prior.len() {
                        assert(now[a] == prior[a]);
                        let x = choose|x: int| 0 <= x < i && #[trigger] all[x] == prior[a].key@;
                        assert(all[x] == now[a].key@);
                    } else {
                        assert(all[i as int] == now[a].key@);
                    }
                }
            }
        } else {
            proof {
                assert forall|a: int| 0 <= a < out@.len() implies exists|x: int|
                    0 <= x < i + 1 && #[trigger] all[x] == (#[trigger] out@[a]).key@ by {
                    let x = choose|x: int| 0 <= x < i && #[trigger] all[x] == out@[a].key@;
                    assert(all[x] == out@[a].key@);
                }
                assert(all[i as int] == keys@[i as int]@);
            }
        }
        i = i + 1;
    }
    proof {
        let v = edit_views(out@);
        let k = diff_keys(v);
        assert forall|a: int, b: int| 0 <= a < b < k.len() implies crate::text::text_less(
            #[trigger] k[a],
            #[trigger] k[b],
        ) by {
            assert(k[a] == out@[a].key@ && k[b] == out@[b].key@);
        }
        assert forall|x: Seq<char>| #[trigger] k.contains(x) <==> values_of(current@, x) != values_of(new@, x) by {
            if k.contains(x) {
                let a = choose|a: int| 0 <= a < k.len() && k[a] == x;
                assert(out@[a].key@ == x);
            }
            if values_of(current@, x) != values_of(new@, x) {
                lemma_key_has_values(current@, x);
                lemma_key_has_values(new@, x);
                if values_of(current@, x).len() == 0 && values_of(new@, x).len() == 0 {
                    assert(values_of(current@, x) =~= values_of(new@, x));
                }
                assert(all.contains(x));
                let y = choose|y: int| 0 <= y < all.len() && all[y] == x;
                assert(values_of(current@, all[y]) != values_of(new@, all[y]));
                let a = choose|a: int| 0 <= a < out@.len() && (#[trigger] out@[a]).key@ == all[y];
                assert(k[a] == x);
            }
        }
        assert forall|a: int| 0 <= a < v.len() implies (#[trigger] v[a]).1 == values_recorded(
            values_of(current@, v[a].0),
        ) && v[a].2 == values_recorded(values_of(new@, v[a].0)) by {
            assert(v[a] == (out@[a].key@, out@[a].old_value@, out@[a].new_value@));
        }
    }
    out
}

/// An edit records nothing exactly where every key keeps its values.
pub proof fn law_no_diff_means_same_values(
    r: Seq<(Seq<char>, JsonText, JsonText)>,
    current: Seq<(Seq<char>, Seq<char>)>,
    new: Seq<(Seq<char>, Seq<char>)>,
)
    requires
        diff_is(r, current, new),
    ensures
        r.len() == 0 <==> forall|k: Seq<char>| #[trigger] values_of(current, k) == values_of(new, k),
{
    let keys = diff_keys(r);
    if r.len() == 0 {
        assert forall|k: Seq<char>| #[trigger] values_of(current, k) == values_of(new, k) by {
            assert(!keys.contains(k));
        }
    } else {
        assert(keys[0] == r[0].0);
        assert(keys.contains(r[0].0));
    }
}

// ---------------------------------------------------------------- preparing a batch

/// A change to the tags of a track that is asked for.
#[derive(Debug)]
pub struct NewTagOp {
    pub track_id: i64,
    pub changes: Vec<TagChange>,
}

/// A track of a batch.
#[derive(Debug)]
pub struct PlanTarget {
    pub track_id: i64,
    /// The version of the tags that the user saw.
    pub expected_tag_version: Option<i64>,
    /// The place of the track in the selection.
    pub index: usize,
    /// How the file looked when the user saw it.
    pub expected: Option<Precondition>,
    /// Why the track cannot be edited, where that is known already.
    pub conflict: Option<String>,
}

/// What is known of a track of a batch: how its file looks and the version of its
/// tags, none where there is no such track; its tags; and the tags it would get,
/// or why these cannot be told.
#[derive(Debug)]
pub struct TargetState {
    pub precondition: Option<Precondition>,
    pub tag_version: Option<i64>,
    pub current: TagSet,
    pub new: Result<TagSet, String>,
}

/// What came of preparing a batch.
#[derive(Debug)]
pub struct Prepared {
    pub batch_id: i64,
    /// How many operations were recorded.
    pub affected: usize,
    /// Tracks that have the values already.
    pub unchanged: usize,
    /// Operations that were recorded as conflicts.
    pub conflict: usize,
    pub job_ids: Vec<i64>,
    /// What is told of the batch where it ended at once.
    pub event: Option<BatchEvent>,
}

/// An operation that is recorded and carried out.
#[derive(Debug)]
pub struct PlannedOp {
    /// The position of the target.
    pub target: usize,
    /// How the file has to look when it is written.
    pub expected: Precondition,
    pub tag_version: i64,
    pub changes: Vec<Edit>,
}

/// An operation that is recorded as a conflict.
#[derive(Debug)]
pub struct ConflictOp {
    pub target: usize,
    pub expected: Precondition,
    pub error: String,
    pub changes: Vec<Edit>,
}

/// What a batch records.
#[derive(Debug)]
pub struct TagBatch {
    pub planned: Vec<PlannedOp>,
    pub conflicts: Vec<ConflictOp>,
    pub unchanged: usize,
}

/// What becomes of a track of a batch.
pub enum TargetOutcome {
    NotFound,
    /// A conflict for this reason; the changes that were meant are recorded too
    /// where they are known.
    Conflict(Seq<char>),
    Fault(Seq<char>),
    Unchanged,
    Planned,
}

/// The version of the tags is another one than the user saw.
pub open spec fn version_moved(t: PlanTarget, version: i64) -> bool {
    t.expected_tag_version is Some && t.expected_tag_version->0 != version
}

/// Every key keeps its values.
pub open spec fn same_values(a: Seq<(Seq<char>, Seq<char>)>, b: Seq<(Seq<char>, Seq<char>)>) -> bool {
    forall|k: Seq<char>| #[trigger] values_of(a, k) == values_of(b, k)
}

/// What becomes of a track of a batch.
pub open spec fn target_outcome(t: PlanTarget, s: TargetState) -> TargetOutcome {
    match if s.precondition is Some {
        s.tag_version
    } else {
        None
    } {
        None => TargetOutcome::NotFound,
        Some(version) => match t.conflict {
            Some(reason) => TargetOutcome::Conflict(reason@),
            None => if version_moved(t, version) {
                TargetOutcome::Conflict(
                    "プレビューの後に変更された（tag_version "@ + int_text(t.expected_tag_version->0 as int) + " → "@
                        + int_text(version as int) + "）"@,
                )
            } else {
                match s.new {
                    Err(e) => TargetOutcome::Fault(e@),
                    Ok(new) => if same_values(s.current@, new@) {
                        TargetOutcome::Unchanged
                    } else {
                        TargetOutcome::Planned
                    },
                }
            },
        },
    }
}

/// The positions of the first `n` targets that are carried out.
pub open spec fn planned_upto(t: Seq<PlanTarget>, s: Seq<TargetState>, n: int) -> Seq<usize>
    decreases n,
{
    if n <= 0 {
        Seq::empty()
    } else {
        let r = planned_upto(t, s, n - 1);
        if target_outcome(t[n - 1], s[n - 1]) is Planned {
            r.push((n - 1) as usize)
        } else {
            r
        }
    }
}

/// The positions of the first `n` targets that are conflicts.
pub open spec fn conflicts_upto(t: Seq<PlanTarget>, s: Seq<TargetState>, n: int) -> Seq<usize>
    decreases n,
{
    if n <= 0 {
        Seq::empty()
    } else {
        let r = conflicts_upto(t, s, n - 1);
        if target_outcome(t[n - 1], s[n - 1]) is Conflict {
            r.push((n - 1) as usize)
        } else {
            r
        }
    }
}

/// How many of the first `n` targets have the values already.
pub open spec fn unchanged_upto(t: Seq<PlanTarget>, s: Seq<TargetState>, n: int) -> nat
    decreases n,
{
    if n <= 0 {
        0
    } else {
        unchanged_upto(t, s, n - 1) + if target_outcome(t[n - 1], s[n - 1]) is Unchanged {
            1nat
        } else {
            0nat
        }
    }
}

/// The first target that stops the batch.
pub open spec fn first_stop(t: Seq<PlanTarget>, s: Seq<TargetState>, i: int) -> bool {
    &&& 0 <= i < t.len()
    &&& target_outcome(t[i], s[i]) is NotFound || target_outcome(t[i], s[i]) is Fault
    &&& forall|k: int|
        0 <= k < i ==> !(target_outcome(#[trigger] t[k], s[k]) is NotFound) && !(target_outcome(t[k], s[k]) is Fault)
}

/// How the file of a target has to look: as the user saw it, else as it looks now.
pub open spec fn expected_of(t: PlanTarget, s: TargetState) -> Precondition {
    match t.expected {
        Some(e) => e,
        None => s.precondition->0,
    }
}

/// `op` is the operation on the target `i`.
pub open spec fn planned_is(op: PlannedOp, i: int, t: PlanTarget, s: TargetState) -> bool {
    &&& op.target == i
    &&& same_precondition(op.expected, expected_of(t, s))
    &&& op.tag_version == s.tag_version->0 + 1
    &&& s.new is Ok
    &&& diff_is(edit_views(op.changes@), s.current@, s.new->Ok_0@)
}

/// `op` is the conflict of the target `i`. A target that was a conflict from the
/// start records what was meant; one whose version moved is not looked into.
pub open spec fn conflict_is(op: ConflictOp, i: int, t: PlanTarget, s: TargetState) -> bool {
    &&& op.target == i
    &&& same_precondition(op.expected, expected_of(t, s))
    &&& target_outcome(t, s) == TargetOutcome::Conflict(op.error@)
    &&& if t.conflict is Some && s.new is Ok {
        diff_is(edit_views(op.changes@), s.current@, s.new->Ok_0@)
    } else {
        op.changes@.len() == 0
    }
}

/// An id that occurs more than once, the lowest of them.
pub open spec fn lowest_duplicate(ids: Seq<i64>, d: i64) -> bool {
    count_of(ids, d) >= 2 && forall|x: i64| #[trigger] count_of(ids, x) >= 2 ==> d <= x
}

/// Some id occurs more than once.
pub open spec fn has_duplicate(ids: Seq<i64>) -> bool {
    exists|x: i64| #[trigger] count_of(ids, x) >= 2
}

/// The lowest id that occurs more than once.
pub fn find_duplicate(ids: &Vec<i64>) -> (r: Option<i64>)
    ensures
        match r {
            Some(d) => lowest_duplicate(ids@, d),
            None => !has_duplicate(ids@),
        },
{
    let mut found: Option<i64> = None;
    let mut i: usize = 0;
    while i < ids.len()
        invariant
            i <= ids@.len(),
            found matches Some(d) ==> count_of(ids@, d) >= 2,
            forall|k: int|
                0 <= k < i && count_of(ids@, #[trigger] ids@[k]) >= 2 ==> found is Some && found->0 <= ids@[k],
        decreases ids@.len() - i,
    {
        if count_id(ids, ids[i]) >= 2 {
            let lower = match found {
                Some(d) => ids[i] < d,
                None => true,
            };
            if lower {
                found = Some(ids[i]);
            }
        }
        i = i + 1;
    }
    proof {
        assert forall|x: i64| #[trigger] count_of(ids@, x) >= 2 implies found is Some && found->0 <= x by {
            lemma_count_member(ids@, x);
            let k = choose|k: int| 0 <= k < ids@.len() && ids@[k] == x;
            assert(count_of(ids@, ids@[k]) >= 2);
        }
    }
    found
}

/// The tracks of the targets.
pub open spec fn target_ids(t: Seq<PlanTarget>) -> Seq<i64> {
    t.map_values(|x: PlanTarget| x.track_id)
}

fn ids_of(targets: &Vec<PlanTarget>) -> (r: Vec<i64>)
    ensures
        r@ == target_ids(targets@),
{
    let mut out: Vec<i64> = Vec::new();
    let mut i: usize = 0;
    while i < targets.len()
        invariant
            i <= targets@.len(),
            out@ == target_ids(targets@).take(i as int),
        decreases targets@.len() - i,
    {
        out.push(targets[i].track_id);
        proof {
            assert(target_ids(targets@).take(i + 1) =~= target_ids(targets@).take(i as int).push(
                targets@[i as int].track_id,
            ));
        }
        i = i + 1;
    }
    proof {
        assert(target_ids(targets@).take(i as int) =~= target_ids(targets@));
    }
    out
}

/// `b` is what a batch records for its targets.
pub open spec fn batch_is(b: TagBatch, targets: Seq<PlanTarget>, states: Seq<TargetState>) -> bool {
    let n = targets.len() as int;
    let planned = planned_upto(targets, states, n);
    let conflicts = conflicts_upto(targets, states, n);
    &&& b.planned@.len() == planned.len()
    &&& forall|k: int|
        0 <= k < b.planned@.len() ==> planned_is(
            #[trigger] b.planned@[k],
            planned[k] as int,
            targets[planned[k] as int],
            states[planned[k] as int],
        )
    &&& b.conflicts@.len() == conflicts.len()
    &&& forall|k: int|
        0 <= k < b.conflicts@.len() ==> conflict_is(
            #[trigger] b.conflicts@[k],
            conflicts[k] as int,
            targets[conflicts[k] as int],
            states[conflicts[k] as int],
        )
    &&& b.unchanged == unchanged_upto(targets, states, n)
}

/// Refuses a batch that names a track twice, or one for which an operation
/// waits. `pending` are the tracks for which one does.
pub fn check_selection(ids: &Vec<i64>, pending: Vec<i64>) -> (r: Result<(), EditError>)
    ensures
        if has_duplicate(ids@) {
            r matches Err(EditError::DuplicateTrack(d)) && lowest_duplicate(ids@, d)
        } else if pending@.len() > 0 {
            r == Err::<(), EditError>(EditError::Pending { track_ids: pending })
        } else {
            r is Ok
        },
{
    if let Some(d) = find_duplicate(ids) {
        return Err(EditError::DuplicateTrack(d));
    }
    if pending.len() > 0 {
        return Err(EditError::Pending { track_ids: pending });
    }
    Ok(())
}

/// What a batch records for its targets: the operations that are carried out,
/// each with the next version of the tags, and those that are conflicts. A
/// target that is not there, or whose new tags cannot be told, stops the batch,
/// and so does a batch that would record nothing.
pub fn prepare_tags(targets: &Vec<PlanTarget>, states: &Vec<TargetState>, pending: Vec<i64>) -> (r: Result<
    TagBatch,
    EditError,
>)
    requires
        states@.len() == targets@.len(),
        forall|i: int|
            0 <= i < states@.len() ==> ((#[trigger] states@[i]).tag_version matches Some(v) ==> v < i64::MAX),
    ensures
        if has_duplicate(target_ids(targets@)) {
            r matches Err(EditError::DuplicateTrack(d)) && lowest_duplicate(target_ids(targets@), d)
        } else if pending@.len() > 0 {
            r == Err::<TagBatch, EditError>(EditError::Pending { track_ids: pending })
        } else if exists|i: int| first_stop(targets@, states@, i) {
            exists|i: int| #[trigger]
                first_stop(targets@, states@, i) && (match target_outcome(targets@[i], states@[i]) {
                    TargetOutcome::Fault(e) => r matches Err(EditError::Internal(m)) && m@ == e,
                    _ => r == Err::<TagBatch, EditError>(EditError::TrackNotFound(targets@[i].track_id)),
                })
        } else if planned_upto(targets@, states@, targets@.len() as int).len() == 0 && conflicts_upto(
            targets@,
            states@,
            targets@.len() as int,
        ).len() == 0 {
            r == Err::<TagBatch, EditError>(EditError::NoChanges)
        } else {
            r matches Ok(b) && batch_is(b, targets@, states@)
        },
{
    let ids = ids_of(targets);
    match check_selection(&ids, pending) {
        Ok(()) => {},
        Err(e) => {
            return Err(e);
        },
    }
    let mut planned: Vec<PlannedOp> = Vec::new();
    let mut conflicts: Vec<ConflictOp> = Vec::new();
    let mut unchanged: usize = 0;
    let mut i: usize = 0;
    while i < targets.len()
        invariant
            i <= targets@.len(),
            !has_duplicate(target_ids(targets@)),
            pending@.len() == 0,
            states@.len() == targets@.len(),
            forall|k: int|
                0 <= k < states@.len() ==> ((#[trigger] states@[k]).tag_version matches Some(v) ==> v < i64::MAX),
            unchanged <= i,
            planned@.len() == planned_upto(targets@, states@, i as int).len(),
            forall|k: int|
                0 <= k < planned@.len() ==> planned_is(
                    #[trigger] planned@[k],
                    planned_upto(targets@, states@, i as int)[k] as int,
                    targets@[planned_upto(targets@, states@, i as int)[k] as int],
                    states@[planned_upto(targets@, states@, i as int)[k] as int],
                ),
            conflicts@.len() == conflicts_upto(targets@, states@, i as int).len(),
            forall|k: int|
                0 <= k < conflicts@.len() ==> conflict_is(
                    #[trigger] conflicts@[k],
                    conflicts_upto(targets@, states@, i as int)[k] as int,
                    targets@[conflicts_upto(targets@, states@, i as int)[k] as int],
                    states@[conflicts_upto(targets@, states@, i as int)[k] as int],
                ),
            unchanged == unchanged_upto(targets@, states@, i as int),
            forall|k: int|
                0 <= k < i ==> !(target_outcome(#[trigger] targets@[k], states@[k]) is NotFound) && !(target_outcome(
                    targets@[k],
                    states@[k],
                ) is Fault),
        decreases targets@.len() - i,
    {
        let t = &targets[i];
        let s = &states[i];
        let (version, expected): (i64, Precondition) = match (s.tag_version, &s.precondition) {
            (Some(v), Some(now)) => {
                let e = match &t.expected {
                    Some(shown) => clone_precondition(shown),
                    None => clone_precondition(now),
                };
                (v, e)
            },
            _ => {
                proof {
                    assert(first_stop(targets@, states@, i as int));
                }
                return Err(EditError::TrackNotFound(t.track_id));
            },
        };
        if let Some(reason) = &t.conflict {
            let changes: Vec<Edit> = match &s.new {
                Ok(new) => diff_sets(&s.current, new),
                Err(_) => Vec::new(),
            };
            conflicts.push(ConflictOp { target: i, expected, error: reason.clone(), changes });
        } else {
            let moved = match t.expected_tag_version {
                Some(v) => v != version,
                None => false,
            };
            if moved {
                if let Some(v) = t.expected_tag_version {
                    let a = int_to_text(v);
                    let b = int_to_text(version);
                    let error = concat5("プレビューの後に変更された（tag_version ", &a, " → ", &b, "）");
                    conflicts.push(ConflictOp { target: i, expected, error, changes: Vec::new() });
                }
            } else {
                match &s.new {
                    Err(e) => {
                        proof {
                            assert(first_stop(targets@, states@, i as int));
                        }
                        return Err(EditError::Internal(e.clone()));
                    },
                    Ok(new) => {
                        let changes = diff_sets(&s.current, new);
                        proof {
                            law_no_diff_means_same_values(edit_views(changes@), s.current@, new@);
                            assert(edit_views(changes@).len() == changes@.len());
                        }
                        if changes.len() == 0 {
                            unchanged = unchanged + 1;
                        } else {
                            planned.push(PlannedOp { target: i, expected, tag_version: version + 1, changes });
                        }
                    },
                }
            }
        }
        i = i + 1;
    }
    proof {
        assert forall|k: int| !first_stop(targets@, states@, k) by {}
    }
    if planned.len() == 0 && conflicts.len() == 0 {
        return Err(EditError::NoChanges);
    }
    Ok(TagBatch { planned, conflicts, unchanged })
}

/// Where a target stands among those that are carried out, and among the conflicts.
proof fn lemma_upto(t: Seq<PlanTarget>, s: Seq<TargetState>, n: int)
    requires
        0 <= n <= t.len(),
        n <= usize::MAX,
    ensures
        forall|i: int|
            0 <= i < n && target_outcome(#[trigger] t[i], s[i]) is Planned ==> planned_upto(t, s, n).contains(i as usize),
        forall|i: int|
            0 <= i < n && target_outcome(#[trigger] t[i], s[i]) is Conflict ==> conflicts_upto(t, s, n).contains(
                i as usize,
            ),
        forall|k: int|
            0 <= k < planned_upto(t, s, n).len() ==> (#[trigger] planned_upto(t, s, n)[k]) < n && target_outcome(
                t[planned_upto(t, s, n)[k] as int],
                s[planned_upto(t, s, n)[k] as int],
            ) is Planned,
        forall|k: int|
            0 <= k < conflicts_upto(t, s, n).len() ==> (#[trigger] conflicts_upto(t, s, n)[k]) < n && target_outcome(
                t[conflicts_upto(t, s, n)[k] as int],
                s[conflicts_upto(t, s, n)[k] as int],
            ) is Conflict,
    decreases n,
{
    if n > 0 {
        lemma_upto(t, s, n - 1);
        let p = planned_upto(t, s, n);
        let p0 = planned_upto(t, s, n - 1);
        let c = conflicts_upto(t, s, n);
        let c0 = conflicts_upto(t, s, n - 1);
        assert forall|i: int| 0 <= i < n && target_outcome(#[trigger] t[i], s[i]) is Planned implies p.contains(
            i as usize,
        ) by {
            if i < n - 1 {
                let k = choose|k: int| 0 <= k < p0.len() && p0[k] == i as usize;
                assert(p[k] == p0[k]);
            } else {
                assert(p[p.len() - 1] == i as usize);
            }
        }
        assert forall|i: int| 0 <= i < n && target_outcome(#[trigger] t[i], s[i]) is Conflict implies c.contains(
            i as usize,
        ) by {
            if i < n - 1 {
                let k = choose|k: int| 0 <= k < c0.len() && c0[k] == i as usize;
                assert(c[k] == c0[k]);
            } else {
                assert(c[c.len() - 1] == i as usize);
            }
        }
        assert forall|k: int| 0 <= k < p.len() implies (#[trigger] p[k]) < n && target_outcome(
            t[p[k] as int],
            s[p[k] as int],
        ) is Planned by {
            if k < p0.len() {
                assert(p[k] == p0[k]);
            }
        }
        assert forall|k: int| 0 <= k < c.len() implies (#[trigger] c[k]) < n && target_outcome(
            t[c[k] as int],
            s[c[k] as int],
        ) is Conflict by {
            if k < c0.len() {
                assert(c[k] == c0[k]);
            }
        }
    }
}

/// The track is there, with a version of its tags and with tags to write.
pub open spec fn is_ready(t: PlanTarget, s: TargetState) -> bool {
    s.precondition is Some && s.tag_version is Some && s.new is Ok && t.conflict is None
}

/// A track that nobody changed since the user saw it is written: it has an operation
/// with the next version and every change that was asked for, and is no conflict.
pub proof fn law_unchanged_tracks_are_written(
    b: TagBatch,
    targets: Seq<PlanTarget>,
    states: Seq<TargetState>,
    i: int,
    key: Seq<char>,
)
    requires
        batch_is(b, targets, states),
        states.len() == targets.len() <= usize::MAX,
        0 <= i < targets.len(),
        is_ready(targets[i], states[i]),
        targets[i].expected_tag_version is None || targets[i].expected_tag_version == states[i].tag_version,
        values_of(states[i].current@, key) != values_of(states[i].new->Ok_0@, key),
    ensures
        exists|k: int|
            0 <= k < b.planned@.len() && (#[trigger] b.planned@[k]).target == i && b.planned@[k].tag_version
                == states[i].tag_version->0 + 1 && diff_keys(edit_views(b.planned@[k].changes@)).contains(key),
        forall|k: int| 0 <= k < b.conflicts@.len() ==> (#[trigger] b.conflicts@[k]).target != i,
{
    let n = targets.len() as int;
    lemma_upto(targets, states, n);
    assert(!same_values(states[i].current@, states[i].new->Ok_0@));
    assert(target_outcome(targets[i], states[i]) is Planned);
    let p = planned_upto(targets, states, n);
    assert(p.contains(i as usize));
    let k = choose|k: int| 0 <= k < p.len() && p[k] == i as usize;
    assert(planned_is(b.planned@[k], p[k] as int, targets[p[k] as int], states[p[k] as int]));
    let c = conflicts_upto(targets, states, n);
    assert forall|j: int| 0 <= j < b.conflicts@.len() implies (#[trigger] b.conflicts@[j]).target != i by {
        assert(conflict_is(b.conflicts@[j], c[j] as int, targets[c[j] as int], states[c[j] as int]));
        assert(c[j] < n);
    }
}

/// A track whose tags have another version than the user saw is never written; it is a
/// conflict. So is one that was a conflict from the start, with that reason.
pub proof fn law_changed_tracks_are_conflicts(
    b: TagBatch,
    targets: Seq<PlanTarget>,
    states: Seq<TargetState>,
    i: int,
)
    requires
        batch_is(b, targets, states),
        states.len() == targets.len() <= usize::MAX,
        0 <= i < targets.len(),
        states[i].precondition is Some,
        states[i].tag_version is Some,
        targets[i].conflict is Some || (targets[i].expected_tag_version is Some && targets[i].expected_tag_version
            != states[i].tag_version),
    ensures
        forall|k: int| 0 <= k < b.planned@.len() ==> (#[trigger] b.planned@[k]).target != i,
        exists|k: int|
            0 <= k < b.conflicts@.len() && (#[trigger] b.conflicts@[k]).target == i && (targets[i].conflict is Some
                ==> b.conflicts@[k].error@ == targets[i].conflict->0@),
{
    let n = targets.len() as int;
    lemma_upto(targets, states, n);
    assert(target_outcome(targets[i], states[i]) is Conflict);
    let c = conflicts_upto(targets, states, n);
    assert(c.contains(i as usize));
    let k = choose|k: int| 0 <= k < c.len() && c[k] == i as usize;
    assert(conflict_is(b.conflicts@[k], c[k] as int, targets[c[k] as int], states[c[k] as int]));
    let p = planned_upto(targets, states, n);
    assert forall|j: int| 0 <= j < b.planned@.len() implies (#[trigger] b.planned@[j]).target != i by {
        assert(planned_is(b.planned@[j], p[j] as int, targets[p[j] as int], states[p[j] as int]));
        assert(p[j] < n);
    }
}

/// Every operation of a batch has a ground. One that is written changes the values of
/// some key of a track that nobody changed, and expects the file as the user saw it, or
/// else as it looks now. A conflict is one from the start, or the version differs.
pub proof fn law_operations_have_a_ground(b: TagBatch, targets: Seq<PlanTarget>, states: Seq<TargetState>, k: int)
    requires
        batch_is(b, targets, states),
        states.len() == targets.len() <= usize::MAX,
    ensures
        0 <= k < b.planned@.len() ==> ({
            let op = b.planned@[k];
            let t = targets[op.target as int];
            let s = states[op.target as int];
            &&& op.target < targets.len()
            &&& t.conflict is None
            &&& t.expected_tag_version is None || t.expected_tag_version == s.tag_version
            &&& s.new is Ok
            &&& op.changes@.len() > 0
            &&& op.expected.inode == (match t.expected {
                Some(e) => e.inode,
                None => s.precondition->0.inode,
            })
            &&& op.expected.mtime_ns == (match t.expected {
                Some(e) => e.mtime_ns,
                None => s.precondition->0.mtime_ns,
            })
        }),
        0 <= k < b.conflicts@.len() ==> ({
            let op = b.conflicts@[k];
            let t = targets[op.target as int];
            let s = states[op.target as int];
            &&& op.target < targets.len()
            &&& t.conflict is Some || (t.expected_tag_version is Some && t.expected_tag_version != s.tag_version)
            &&& t.conflict is None ==> op.changes@.len() == 0
        }),
{
    let n = targets.len() as int;
    lemma_upto(targets, states, n);
    let p = planned_upto(targets, states, n);
    let c = conflicts_upto(targets, states, n);
    if 0 <= k < b.planned@.len() {
        let op = b.planned@[k];
        assert(planned_is(op, p[k] as int, targets[p[k] as int], states[p[k] as int]));
        assert(p[k] < n);
        let s = states[p[k] as int];
        assert(target_outcome(targets[p[k] as int], s) is Planned);
        law_no_diff_means_same_values(edit_views(op.changes@), s.current@, s.new->Ok_0@);
        assert(edit_views(op.changes@).len() == op.changes@.len());
    }
    if 0 <= k < b.conflicts@.len() {
        assert(conflict_is(b.conflicts@[k], c[k] as int, targets[c[k] as int], states[c[k] as int]));
        assert(c[k] < n);
    }
}

/// Every target of a batch is written, a conflict, or has the values already, and no
/// more than one of these.
pub proof fn law_every_target_is_counted(b: TagBatch, targets: Seq<PlanTarget>, states: Seq<TargetState>)
    requires
        batch_is(b, targets, states),
        states.len() == targets.len(),
        forall|i: int|
            0 <= i < targets.len() ==> (#[trigger] states[i]).precondition is Some && states[i].tag_version is Some
                && states[i].new is Ok,
    ensures
        b.planned@.len() + b.conflicts@.len() + b.unchanged == targets.len(),
{
    lemma_counted(targets, states, targets.len() as int);
}

proof fn lemma_counted(t: Seq<PlanTarget>, s: Seq<TargetState>, n: int)
    requires
        0 <= n <= t.len(),
        s.len() == t.len(),
        forall|i: int|
            0 <= i < t.len() ==> (#[trigger] s[i]).precondition is Some && s[i].tag_version is Some && s[i].new is Ok,
    ensures
        planned_upto(t, s, n).len() + conflicts_upto(t, s, n).len() + unchanged_upto(t, s, n) == n,
    decreases n,
{
    if n > 0 {
        lemma_counted(t, s, n - 1);
        assert(s[n - 1].new is Ok);
    }
}

/// What stops a batch: a track that is not there, or whose new tags cannot be told, and
/// nothing else. A track that is a conflict from the start, or whose version moved, does
/// not have its new tags looked into.
pub proof fn law_what_stops_a_batch(t: PlanTarget, s: TargetState)
    ensures
        target_outcome(t, s) is NotFound <==> s.precondition is None || s.tag_version is None,
        target_outcome(t, s) is Fault <==> s.precondition is Some && s.tag_version is Some && s.new is Err && t.conflict
            is None && (t.expected_tag_version is None || t.expected_tag_version == s.tag_version),
        is_ready(t, s) && t.expected_tag_version == s.tag_version && (forall|k: Seq<char>| #[trigger]
            values_of(s.current@, k) == values_of(s.new->Ok_0@, k)) ==> target_outcome(t, s) is Unchanged,
{
}

/// What came of preparing a batch that was recorded under this id.
pub fn tags_prepared(batch_id: i64, b: &TagBatch, job_ids: Vec<i64>, event: Option<BatchEvent>) -> (r: Prepared)
    requires
        b.planned@.len() + b.conflicts@.len() <= usize::MAX,
    ensures
        r.batch_id == batch_id,
        r.affected == b.planned@.len() + b.conflicts@.len(),
        r.unchanged == b.unchanged,
        r.conflict == b.conflicts@.len(),
        r.job_ids == job_ids,
        r.event == event,
{
    Prepared {
        batch_id,
        affected: b.planned.len() + b.conflicts.len(),
        unchanged: b.unchanged,
        conflict: b.conflicts.len(),
        job_ids,
        event,
    }
}

// ---------------------------------------------------------------- loudness

/// What came of preparing to write loudness tags.
#[derive(Debug)]
pub struct RgWritePrepared {
    /// The batch, none where nothing is to be written.
    pub batch_id: Option<i64>,
    pub affected: usize,
    /// Tracks that have the tags already.
    pub unchanged: usize,
    /// Tracks that were not measured.
    pub unscanned: usize,
    /// Tracks without a file.
    pub missing: usize,
    pub job_ids: Vec<i64>,
    /// What is told of the batch where it ended at once.
    pub event: Option<BatchEvent>,
}

/// A track whose loudness is to be written.
#[derive(Debug, Clone, Copy, PartialEq, Eq, Structural)]
pub struct LoudnessRow {
    pub id: i64,
    pub missing: bool,
    pub scanned: bool,
}

/// What is written of loudness.
#[derive(Debug)]
pub struct LoudnessSelection {
    /// The tracks that are written, in increasing order.
    pub targets: Vec<i64>,
    pub missing: usize,
    pub unscanned: usize,
}

/// How many of the rows have no file.
pub open spec fn missing_rows(rows: Seq<LoudnessRow>) -> nat
    decreases rows.len(),
{
    if rows.len() == 0 {
        0
    } else {
        missing_rows(rows.drop_last()) + if rows.last().missing {
            1nat
        } else {
            0nat
        }
    }
}

/// How many of the rows have a file but were not measured.
pub open spec fn unscanned_rows(rows: Seq<LoudnessRow>) -> nat
    decreases rows.len(),
{
    if rows.len() == 0 {
        0
    } else {
        unscanned_rows(rows.drop_last()) + if !rows.last().missing && !rows.last().scanned {
            1nat
        } else {
            0nat
        }
    }
}

/// The track is written: it has a file and was measured.
pub open spec fn is_written(rows: Seq<LoudnessRow>, id: i64) -> bool {
    exists|i: int| 0 <= i < rows.len() && (#[trigger] rows[i]).id == id && !rows[i].missing && rows[i].scanned
}

/// The first of the ids that has no row, the ids in increasing order.
pub open spec fn first_unknown(ids: Seq<i64>, rows: Seq<LoudnessRow>, id: i64) -> bool {
    &&& ids.contains(id)
    &&& forall|i: int| 0 <= i < rows.len() ==> (#[trigger] rows[i]).id != id
    &&& forall|x: i64| #[trigger] ids.contains(x) && x < id ==> exists|i: int| 0 <= i < rows.len() && (#[trigger] rows[i]).id == x
}

fn has_row(rows: &Vec<LoudnessRow>, id: i64) -> (r: bool)
    ensures
        r == exists|i: int| 0 <= i < rows@.len() && (#[trigger] rows@[i]).id == id,
{
    let mut i: usize = 0;
    while i < rows.len()
        invariant
            i <= rows@.len(),
            forall|k: int| 0 <= k < i ==> (#[trigger] rows@[k]).id != id,
        decreases rows@.len() - i,
    {
        if rows[i].id == id {
            return true;
        }
        i = i + 1;
    }
    false
}

/// Which tracks get loudness tags: those that have a file and were measured. A
/// selection with a track twice, with one that an operation waits for, or with
/// one that is not there, is refused.
pub fn prepare_rg_write(ids: &Vec<i64>, pending: Vec<i64>, rows: &Vec<LoudnessRow>) -> (r: Result<
    LoudnessSelection,
    EditError,
>)
    ensures
        if has_duplicate(ids@) {
            r matches Err(EditError::DuplicateTrack(d)) && lowest_duplicate(ids@, d)
        } else if pending@.len() > 0 {
            r == Err::<LoudnessSelection, EditError>(EditError::Pending { track_ids: pending })
        } else if exists|x: i64| first_unknown(ids@, rows@, x) {
            r matches Err(EditError::TrackNotFound(id)) && first_unknown(ids@, rows@, id)
        } else {
            r matches Ok(s) && s.missing == missing_rows(rows@) && s.unscanned == unscanned_rows(rows@) && increasing(
                s.targets@,
            ) && (forall|x: i64| #[trigger] s.targets@.contains(x) <==> is_written(rows@, x))
        },
{
    match check_selection(ids, pending) {
        Ok(()) => {},
        Err(e) => {
            return Err(e);
        },
    }
    let ordered = sorted_ids(ids);
    let mut k: usize = 0;
    while k < ordered.len()
        invariant
            k <= ordered@.len(),
            !has_duplicate(ids@),
            pending@.len() == 0,
            sorted_set_of(ordered@, ids@),
            forall|x: int|
                0 <= x < k ==> exists|i: int| 0 <= i < rows@.len() && (#[trigger] rows@[i]).id == #[trigger] ordered@[x],
        decreases ordered@.len() - k,
    {
        if !has_row(rows, ordered[k]) {
            proof {
                let id = ordered@[k as int];
                assert(ordered@.contains(id));
                assert(ids@.contains(id));
                assert forall|x: i64| #[trigger] ids@.contains(x) && x < id implies exists|i: int|
                    0 <= i < rows@.len() && (#[trigger] rows@[i]).id == x by {
                    assert(ordered@.contains(x));
                    let j = choose|j: int| 0 <= j < ordered@.len() && ordered@[j] == x;
                    assert(j < k);
                    assert(exists|i: int| 0 <= i < rows@.len() && (#[trigger] rows@[i]).id == ordered@[j]);
                }
                assert(first_unknown(ids@, rows@, id));
            }
            return Err(EditError::TrackNotFound(ordered[k]));
        }
        k = k + 1;
    }
    proof {
        assert forall|x: i64| !first_unknown(ids@, rows@, x) by {
            if ids@.contains(x) {
                assert(ordered@.contains(x));
                let j = choose|j: int| 0 <= j < ordered@.len() && ordered@[j] == x;
                assert(exists|i: int| 0 <= i < rows@.len() && (#[trigger] rows@[i]).id == ordered@[j]);
            }
        }
    }
    let mut targets: Vec<i64> = Vec::new();
    let mut missing: usize = 0;
    let mut unscanned: usize = 0;
    let mut i: usize = 0;
    while i < rows.len()
        invariant
            i <= rows@.len(),
            missing + unscanned <= i,
            missing == missing_rows(rows@.take(i as int)),
            unscanned == unscanned_rows(rows@.take(i as int)),
            increasing(targets@),
            forall|x: i64| #[trigger] targets@.contains(x) <==> is_written(rows@.take(i as int), x),
        decreases rows@.len() - i,
    {
        let row = rows[i];
        let ghost before = targets@;
        let ghost t = rows@.take(i as int);
        let ghost u = rows@.take(i + 1);
        proof {
            assert(u.last() == row);
            assert(u.drop_last() =~= t);
            assert forall|x: i64| is_written(u, x) <==> is_written(t, x) || (row.id == x && !row.missing && row.scanned) by {
                if is_written(t, x) {
                    let j = choose|j: int|
                        0 <= j < t.len() && (#[trigger] t[j]).id == x && !t[j].missing && t[j].scanned;
                    assert(u[j] == t[j]);
                }
                if row.id == x && !row.missing && row.scanned {
                    assert(u[i as int] == row);
                }
                if is_written(u, x) {
                    let j = choose|j: int|
                        0 <= j < u.len() && (#[trigger] u[j]).id == x && !u[j].missing && u[j].scanned;
                    if j < i {
                        assert(t[j] == u[j]);
                    }
                }
            }
        }
        if row.missing {
            missing = missing + 1;
        } else if !row.scanned {
            unscanned = unscanned + 1;
        } else {
            insert_id(&mut targets, row.id);
        }
        proof {
            assert forall|x: i64| #[trigger] targets@.contains(x) <==> is_written(u, x) by {
                assert(before.contains(x) <==> is_written(t, x));
            }
        }
        i = i + 1;
    }
    proof {
        assert(rows@.take(i as int) =~= rows@);
    }
    Ok(LoudnessSelection { targets, missing, unscanned })
}

/// What came of preparing to write loudness tags. `batch` is what was recorded,
/// none where nothing changes; `unchanged` how many rows have their tags already.
pub fn rg_prepared(selection: &LoudnessSelection, batch: Option<Prepared>, unchanged: usize) -> (r: RgWritePrepared)
    ensures
        r.unscanned == selection.unscanned,
        r.missing == selection.missing,
        r.unchanged == unchanged,
        match batch {
            Some(b) => r.batch_id == Some(b.batch_id) && r.affected == b.affected && r.job_ids == b.job_ids && r.event
                == b.event,
            None => r.batch_id is None && r.affected == 0 && r.job_ids@.len() == 0 && r.event is None,
        },
{
    match batch {
        Some(b) => RgWritePrepared {
            batch_id: Some(b.batch_id),
            affected: b.affected,
            unchanged,
            unscanned: selection.unscanned,
            missing: selection.missing,
            job_ids: b.job_ids,
            event: b.event,
        },
        None => RgWritePrepared {
            batch_id: None,
            affected: 0,
            unchanged,
            unscanned: selection.unscanned,
            missing: selection.missing,
            job_ids: Vec::new(),
            event: None,
        },
    }
}

/// The tracks that were written without an operation: those of the selection
/// that have the tags already. `ops` are the tracks with an operation.
pub fn written_without_op(targets: &Vec<i64>, ops: &Vec<i64>) -> (r: Vec<i64>)
    ensures
        r@ == targets@.filter(|id: i64| !ops@.contains(id)),
{
    let mut out: Vec<i64> = Vec::new();
    let mut i: usize = 0;
    proof {
        reveal(Seq::filter);
        assert(targets@.take(0).filter(|id: i64| !ops@.contains(id)) =~= Seq::empty());
    }
    while i < targets.len()
        invariant
            i <= targets@.len(),
            out@ == targets@.take(i as int).filter(|id: i64| !ops@.contains(id)),
        decreases targets@.len() - i,
    {
        proof {
            reveal(Seq::filter);
            assert(targets@.take(i + 1).drop_last() =~= targets@.take(i as int));
            assert(targets@.take(i + 1).last() == targets@[i as int]);
        }
        if !has_id(ops, targets[i]) {
            out.push(targets[i]);
        }
        i = i + 1;
    }
    proof {
        assert(targets@.take(i as int) =~= targets@);
    }
    out
}

// ---------------------------------------------------------------- writing a file

/// Every edit finds its new values in the tags.
pub open spec fn has_new_values(tags: Seq<(Seq<char>, Seq<char>)>, edits: Seq<Edit>) -> bool {
    forall|i: int|
        0 <= i < edits.len() ==> values_of(tags, (#[trigger] edits[i]).key@) == recorded_values(edits[i].new_value@)
}

fn edit_applied(tags: &TagSet, e: &Edit) -> (r: bool)
    ensures
        r == (values_of(tags@, e.key@) == recorded_values(e.new_value@)),
{
    let now = tags.values(&e.key);
    let want = json_values(&e.new_value);
    same_texts(&now, &want)
}

/// Whether every edit finds its new values in the tags of a file.
pub fn file_matches_new_values(tags: &TagSet, edits: &Vec<Edit>) -> (r: bool)
    ensures
        r == has_new_values(tags@, edits@),
{
    let mut i: usize = 0;
    while i < edits.len()
        invariant
            i <= edits@.len(),
            forall|k: int|
                0 <= k < i ==> values_of(tags@, (#[trigger] edits@[k]).key@) == recorded_values(edits@[k].new_value@),
        decreases edits@.len() - i,
    {
        if !edit_applied(tags, &edits[i]) {
            proof {
                assert(values_of(tags@, edits@[i as int].key@) != recorded_values(edits@[i as int].new_value@));
            }
            return false;
        }
        i = i + 1;
    }
    true
}

/// What a look at the file of an operation leads to.
#[derive(Debug)]
pub enum TagStep {
    /// Write it.
    Write,
    /// It has the new values already.
    AlreadyMatches,
    Conflict(String),
    Failed(String),
}

/// How an operation on tags ends.
#[derive(Debug)]
pub struct TagEnd {
    pub step: TagStep,
    /// It is known what the file says now.
    pub current_known: bool,
}

/// `end` is a conflict for this reason, with the file read or not.
pub open spec fn ends_in_conflict(end: TagEnd, reason: Seq<char>, current_known: bool) -> bool {
    end.current_known == current_known && (end.step matches TagStep::Conflict(m) && m@ == reason)
}

/// `end` is a failure for this reason, with the file read or not.
pub open spec fn ends_in_failure(end: TagEnd, reason: Seq<char>, current_known: bool) -> bool {
    end.current_known == current_known && (end.step matches TagStep::Failed(m) && m@ == reason)
}

fn conflict_end(reason: String, current_known: bool) -> (r: TagEnd)
    ensures
        ends_in_conflict(r, reason@, current_known),
{
    TagEnd { step: TagStep::Conflict(reason), current_known }
}

fn failure_end(reason: String, current_known: bool) -> (r: TagEnd)
    ensures
        ends_in_failure(r, reason@, current_known),
{
    TagEnd { step: TagStep::Failed(reason), current_known }
}

/// What failing to open the file of an operation means: a file that is gone or
/// out of reach is a conflict, anything else may pass. Nothing is known of what
/// such a file says.
pub fn open_failed(e: FsError, rel_path: &str) -> (r: Result<TagEnd, EditError>)
    ensures
        match e {
            FsError::NotFound | FsError::Symlink | FsError::Escaped => r matches Ok(end) && ends_in_conflict(
                end,
                "ファイルを開けない: "@ + rel_path@,
                false,
            ),
            _ => r == Err::<TagEnd, EditError>(EditError::Fs(e)),
        },
{
    match e {
        FsError::NotFound => Ok(conflict_end(concat2("ファイルを開けない: ", rel_path), false)),
        FsError::Symlink => Ok(conflict_end(concat2("ファイルを開けない: ", rel_path), false)),
        FsError::Escaped => Ok(conflict_end(concat2("ファイルを開けない: ", rel_path), false)),
        other => Err(EditError::Fs(other)),
    }
}

/// What failing to read the tags of the file means.
pub fn tags_unreadable(fault: &str) -> (r: TagEnd)
    ensures
        ends_in_conflict(r, "タグを読めない: "@ + fault@, false),
{
    conflict_end(concat2("タグを読めない: ", fault), false)
}

/// Whether the file of an operation may be written: it looks as it did when the
/// operation was recorded. A file that does not, but has the new values, needs
/// no writing; any other is a conflict. The file was read in each case.
pub fn stage_tags(
    expected: &Precondition,
    st: &Stat,
    hash: &[u8; 32],
    rel_path: &str,
    tags: &TagSet,
    edits: &Vec<Edit>,
) -> (r: TagEnd)
    ensures
        r.current_known,
        ({
            let diff = mismatch_names(*expected, *st, hash@, rel_path@);
            if diff.len() == 0 {
                r.step is Write
            } else if has_new_values(tags@, edits@) {
                r.step is AlreadyMatches
            } else {
                ends_in_conflict(r, "事前条件不一致: "@ + joined(diff, ", "@), true)
            }
        }),
{
    let diff = mismatches(expected, st, hash, rel_path);
    proof {
        assert(texts(diff@).len() == diff@.len());
    }
    if diff.len() == 0 {
        return TagEnd { step: TagStep::Write, current_known: true };
    }
    if file_matches_new_values(tags, edits) {
        return TagEnd { step: TagStep::AlreadyMatches, current_known: true };
    }
    let names = join(&diff, ", ");
    conflict_end(concat2("事前条件不一致: ", &names), true)
}

/// The position of the edit of the picture, none where there is none.
pub fn picture_edit(edits: &Vec<Edit>) -> (r: Option<usize>)
    ensures
        match r {
            Some(i) => edit_at(edits@, PICTURE_KEY@, i as int),
            None => no_edit(edits@, PICTURE_KEY@),
        },
{
    find_edit(edits, PICTURE_KEY)
}

/// Whether the pictures that an edit writes are at hand: `store` says that there
/// is a store, `found` of each value whether it has the picture. The file was
/// read before.
pub fn pictures_ready(store: bool, values: &Vec<String>, found: &Vec<bool>) -> (r: Option<TagEnd>)
    requires
        found@.len() == values@.len(),
    ensures
        match r {
            None => store && forall|i: int| 0 <= i < found@.len() ==> #[trigger] found@[i],
            Some(end) => if !store {
                ends_in_failure(end, "アートワークのキャッシュが無いので画像を書けない"@, true)
            } else {
                exists|i: int|
                    0 <= i < found@.len() && !(#[trigger] found@[i]) && ends_in_failure(
                        end,
                        "画像がキャッシュに無い: "@ + values@[i]@,
                        true,
                    ) && forall|k: int| 0 <= k < i ==> #[trigger] found@[k]
            },
        },
{
    if !store {
        return Some(failure_end("アートワークのキャッシュが無いので画像を書けない".to_owned(), true));
    }
    let mut i: usize = 0;
    while i < values.len()
        invariant
            i <= values@.len(),
            store,
            found@.len() == values@.len(),
            forall|k: int| 0 <= k < i ==> #[trigger] found@[k],
        decreases values@.len() - i,
    {
        if !found[i] {
            proof {
                assert(!found@[i as int]);
            }
            return Some(failure_end(concat2("画像がキャッシュに無い: ", &values[i]), true));
        }
        i = i + 1;
    }
    None
}

/// What is written for an edit: nothing where the value is none, else its texts.
pub open spec fn written_values(v: JsonText) -> Option<Seq<Seq<char>>> {
    match v {
        JsonText::Null => None,
        _ => Some(recorded_values(v)),
    }
}

/// The changes that the first `n` edits write, pictures aside.
pub open spec fn written_changes(edits: Seq<Edit>, n: int) -> Seq<(Seq<char>, Option<Seq<Seq<char>>>)>
    decreases n,
{
    if n <= 0 {
        Seq::empty()
    } else {
        let r = written_changes(edits, n - 1);
        if edits[n - 1].key@ == PICTURE_KEY@ {
            r
        } else {
            r.push((edits[n - 1].key@, written_values(edits[n - 1].new_value@)))
        }
    }
}

/// The changes that edits write, pictures aside.
pub fn changes_to_write(edits: &Vec<Edit>) -> (r: Vec<TagChange>)
    ensures
        change_views(r@) == written_changes(edits@, edits@.len() as int),
{
    let mut out: Vec<TagChange> = Vec::new();
    let mut i: usize = 0;
    proof {
        assert(change_views(out@) =~= written_changes(edits@, 0));
    }
    while i < edits.len()
        invariant
            i <= edits@.len(),
            change_views(out@) == written_changes(edits@, i as int),
        decreases edits@.len() - i,
    {
        let e = &edits[i];
        let ghost before = change_views(out@);
        if !same_text(&e.key, PICTURE_KEY) {
            let values: Option<Vec<String>> = match &e.new_value {
                JsonValue::Null => None,
                v => Some(json_values(v)),
            };
            let ghost gv = crate::import::draft::opt_texts(values);
            out.push(TagChange { key: e.key.clone(), values });
            proof {
                assert(change_views(out@) =~= before.push((e.key@, gv)));
                assert(gv == written_values(e.new_value@));
            }
        }
        i = i + 1;
    }
    out
}

/// The keys of the first `n` edits whose new values the tags do not have.
pub open spec fn keys_not_written(tags: Seq<(Seq<char>, Seq<char>)>, edits: Seq<Edit>, n: int) -> Seq<Seq<char>>
    decreases n,
{
    if n <= 0 {
        Seq::empty()
    } else {
        let r = keys_not_written(tags, edits, n - 1);
        let e = edits[n - 1];
        if values_of(tags, e.key@) != recorded_values(e.new_value@) {
            r.push(e.key@)
        } else {
            r
        }
    }
}

/// Whether what was written reads back as it was meant. A form that cannot say
/// it is not written. The file itself was read before and stays as it is.
pub fn check_written(tags: &TagSet, edits: &Vec<Edit>) -> (r: Option<TagEnd>)
    ensures
        ({
            let lost = keys_not_written(tags@, edits@, edits@.len() as int);
            match r {
                None => lost.len() == 0,
                Some(end) => lost.len() > 0 && ends_in_failure(
                    end,
                    "書き込み結果が意図と一致しない（この形式では表現できない）: "@ + joined(lost, ", "@),
                    true,
                ),
            }
        }),
{
    let mut lost: Vec<String> = Vec::new();
    let mut i: usize = 0;
    proof {
        assert(texts(lost@) =~= keys_not_written(tags@, edits@, 0));
    }
    while i < edits.len()
        invariant
            i <= edits@.len(),
            texts(lost@) == keys_not_written(tags@, edits@, i as int),
        decreases edits@.len() - i,
    {
        if !edit_applied(tags, &edits[i]) {
            let ghost before = texts(lost@);
            lost.push(edits[i].key.clone());
            proof {
                assert(texts(lost@) =~= before.push(edits@[i as int].key@));
            }
        }
        i = i + 1;
    }
    proof {
        assert(texts(lost@).len() == lost@.len());
    }
    if lost.len() == 0 {
        None
    } else {
        let names = join(&lost, ", ");
        Some(
            failure_end(
                concat2("書き込み結果が意図と一致しない（この形式では表現できない）: ", &names),
                true,
            ),
        )
    }
}

/// What a last look at the file leads to: it may be replaced only if it is
/// still there in the state in which it was looked at first. `now` is what a
/// stat says, none where the file is gone; `readable` says that the tags of the
/// file that is there now can be read.
pub fn recheck(st: &Stat, now: &Option<Stat>, readable: bool) -> (r: Option<TagEnd>)
    ensures
        match *now {
            None => r matches Some(end) && ends_in_conflict(end, "反映の直前にファイルが無くなった"@, false),
            Some(n) => if same_state(*st, n) {
                r is None
            } else {
                r matches Some(end) && ends_in_conflict(end, "反映の直前に外部で更新された"@, readable)
            },
        },
{
    match now {
        None => Some(conflict_end("反映の直前にファイルが無くなった".to_owned(), false)),
        Some(n) => {
            if same_stat(st, n) {
                None
            } else {
                Some(conflict_end("反映の直前に外部で更新された".to_owned(), readable))
            }
        },
    }
}

/// The steps of writing the tags of a file.
#[derive(Debug, Clone, Copy, PartialEq, Eq, Structural)]
pub enum TagStage {
    /// Open the file and compare it with what was recorded.
    Look,
    /// See that the new pictures are there.
    Pictures,
    /// Make a temporary file beside it.
    MakeTemp,
    /// Keep the old pictures, copy the file and write the changes to the copy.
    Fill,
    /// Read the copy back.
    Check,
    /// Look at the file once more.
    LastLook,
    /// Put the copy in its place.
    Replace,
}

/// What follows a step.
#[derive(Debug)]
pub enum TagNext {
    Go(TagStage),
    End(TagEnd),
    Fault(EditError),
    /// Remove the temporary file, and end so.
    RemoveAndEnd(TagEnd),
    /// Remove the temporary file, and report the fault.
    RemoveAndFault(EditError),
}

/// The temporary file is there while the step is carried out.
pub open spec fn has_temp(stage: TagStage) -> bool {
    stage == TagStage::Fill || stage == TagStage::Check || stage == TagStage::LastLook || stage == TagStage::Replace
}

/// What follows a step: `outcome` is none where it was carried out, else how the
/// operation ends or what went wrong.
pub open spec fn after_tag_stage(stage: TagStage, outcome: Result<Option<TagEnd>, EditError>) -> TagNext {
    match outcome {
        Err(e) => if has_temp(stage) {
            TagNext::RemoveAndFault(e)
        } else {
            TagNext::Fault(e)
        },
        Ok(Some(end)) => if has_temp(stage) {
            TagNext::RemoveAndEnd(end)
        } else {
            TagNext::End(end)
        },
        Ok(None) => match stage {
            TagStage::Look => TagNext::Go(TagStage::Pictures),
            TagStage::Pictures => TagNext::Go(TagStage::MakeTemp),
            TagStage::MakeTemp => TagNext::Go(TagStage::Fill),
            TagStage::Fill => TagNext::Go(TagStage::Check),
            TagStage::Check => TagNext::Go(TagStage::LastLook),
            TagStage::LastLook => TagNext::Go(TagStage::Replace),
            TagStage::Replace => TagNext::End(TagEnd { step: TagStep::Write, current_known: true }),
        },
    }
}

/// What follows a step of writing the tags of a file (see [`after_tag_stage`]).
pub fn tag_stage(stage: TagStage, outcome: Result<Option<TagEnd>, EditError>) -> (r: TagNext)
    ensures
        r == after_tag_stage(stage, outcome),
{
    let temp = stage == TagStage::Fill || stage == TagStage::Check || stage == TagStage::LastLook || stage
        == TagStage::Replace;
    match outcome {
        Err(e) => {
            if temp {
                TagNext::RemoveAndFault(e)
            } else {
                TagNext::Fault(e)
            }
        },
        Ok(Some(end)) => {
            if temp {
                TagNext::RemoveAndEnd(end)
            } else {
                TagNext::End(end)
            }
        },
        Ok(None) => match stage {
            TagStage::Look => TagNext::Go(TagStage::Pictures),
            TagStage::Pictures => TagNext::Go(TagStage::MakeTemp),
            TagStage::MakeTemp => TagNext::Go(TagStage::Fill),
            TagStage::Fill => TagNext::Go(TagStage::Check),
            TagStage::Check => TagNext::Go(TagStage::LastLook),
            TagStage::LastLook => TagNext::Go(TagStage::Replace),
            TagStage::Replace => TagNext::End(TagEnd { step: TagStep::Write, current_known: true }),
        },
    }
}

/// A file is replaced only after a last look at it, by a copy that was read back;
/// and no end but that leaves the temporary file behind.
pub proof fn law_tags_are_written_last(stage: TagStage, outcome: Result<Option<TagEnd>, EditError>)
    ensures
        after_tag_stage(stage, outcome) == TagNext::Go(TagStage::Replace) ==> stage == TagStage::LastLook,
        after_tag_stage(stage, outcome) == TagNext::Go(TagStage::LastLook) ==> stage == TagStage::Check,
        has_temp(stage) && (after_tag_stage(stage, outcome) is End || after_tag_stage(stage, outcome) is Fault) ==> stage
            == TagStage::Replace && outcome == Ok::<Option<TagEnd>, EditError>(None),
{
}

/// Whether two stats are of one file in one state.
pub fn same_stat(a: &Stat, b: &Stat) -> (r: bool)
    ensures
        r == same_state(*a, *b),
{
    is_same_state(a, b)
}

/// A file is written only where it looks as it did when the operation was
/// recorded, and is replaced only where nobody touched it in between.
pub proof fn law_written_file_was_untouched(
    expected: Precondition,
    st: Stat,
    now: Stat,
    hash: Seq<u8>,
    rel_path: Seq<char>,
)
    requires
        mismatch_names(expected, st, hash, rel_path).len() == 0,
        same_state(st, now),
    ensures
        expected.inode == Some(now.inode as i64),
        expected.size == Some(now.size as i64),
        expected.mtime_ns == Some(now.mtime_ns),
{
    crate::edit::history::law_no_mismatch_means_untouched(expected, st, hash, rel_path);
}

// ---------------------------------------------------------------- following the file

/// What a row takes over when it follows a file that others may have changed.
#[derive(Debug, Clone, Copy)]
pub struct FollowFile {
    /// The sound is another one: what was measured of it is dropped.
    pub reset_analysis: bool,
    pub fingerprint: Fingerprint,
    pub audio_version: i64,
}

/// What a row takes over of the sound of a file that others may have changed.
pub fn sync_track_to_file(
    fp: Fingerprint,
    audio_md5: Option<[u8; 16]>,
    audio_fp: Option<[u8; 32]>,
    audio_version: i64,
) -> (r: FollowFile)
    requires
        audio_version < i64::MAX,
    ensures
        r.reset_analysis == sound_changed(fp, audio_md5, audio_fp),
        r.fingerprint == kept_fingerprint(fp, audio_md5, audio_fp),
        r.audio_version == audio_version + one_if(sound_changed(fp, audio_md5, audio_fp)),
{
    let changed = audio_changed(fp, audio_md5, audio_fp);
    FollowFile {
        reset_analysis: changed,
        fingerprint: effective_fingerprint(fp, audio_md5, audio_fp),
        audio_version: if changed {
            audio_version + 1
        } else {
            audio_version
        },
    }
}

/// What follows a change of the picture of a track.
#[derive(Debug, Clone, Copy, PartialEq, Eq, Structural)]
pub struct FollowPicture {
    /// Small versions have to be made.
    pub thumbnails: bool,
    /// The picture of the album has to be chosen again.
    pub rescan: bool,
}

/// What follows a change of the picture of a track. `stored` says that the
/// picture is in the catalogue; `before` and `after` are what the row refers to.
pub fn follow_picture_change(picture: &PictureState, stored: bool, before: Option<i64>, after: Option<i64>) -> (r:
    FollowPicture)
    ensures
        r.thumbnails == (picture matches PictureState::Found(p) && p.needs_thumbs && stored),
        r.rescan == (!(picture is Unread) && before != after),
{
    let thumbnails = match picture {
        PictureState::Found(p) => p.needs_thumbs && stored,
        _ => false,
    };
    let unread = match picture {
        PictureState::Unread => true,
        _ => false,
    };
    FollowPicture { thumbnails, rescan: !unread && before != after }
}

/// The replacements that put the old values of edits back.
pub open spec fn old_values(edits: Seq<Edit>) -> Seq<(Seq<char>, Seq<Seq<char>>)> {
    edits.map_values(|e: Edit| (e.key@, recorded_values(e.old_value@)))
}

/// The tags of a row with the old values of edits put back. The pairs are not put
/// in the normal form of tag sets: that is the caller's to do.
pub fn with_old_values(now: &TagSet, edits: &Vec<Edit>) -> (r: TagSet)
    ensures
        r@ == replaced(now@, old_values(edits@), edits@.len() as int),
{
    let mut changes: Vec<(String, Vec<String>)> = Vec::new();
    let mut i: usize = 0;
    while i < edits.len()
        invariant
            i <= edits@.len(),
            changes@.len() == i,
            forall|k: int|
                0 <= k < i ==> (#[trigger] changes@[k]).0@ == edits@[k].key@ && texts(changes@[k].1@)
                    == recorded_values(edits@[k].old_value@),
        decreases edits@.len() - i,
    {
        changes.push((edits[i].key.clone(), json_values(&edits[i].old_value)));
        i = i + 1;
    }
    proof {
        assert(replacement_views(changes@) =~= old_values(edits@));
    }
    with_replaced(now, &changes)
}

/// How a file looked when an operation on it was recorded, as a row keeps it.
#[derive(Debug, Clone, Copy, PartialEq, Eq, Structural)]
pub struct RecordedStat {
    pub dev: Option<i64>,
    pub inode: Option<i64>,
    pub size: Option<i64>,
    pub mtime_ns: Option<i64>,
    pub ctime_ns: Option<i64>,
}

/// How the file looked, by a precondition.
pub open spec fn recorded_stat(p: Precondition) -> RecordedStat {
    RecordedStat { dev: p.dev, inode: p.inode, size: p.size, mtime_ns: p.mtime_ns, ctime_ns: p.ctime_ns }
}

/// What a row goes back to where its file cannot be read.
#[derive(Debug)]
pub struct Restored {
    pub tags: TagSet,
    pub tag_hash: Option<Vec<u8>>,
    pub stat: RecordedStat,
}

/// What becomes of what a row took over in advance.
#[derive(Debug)]
pub enum Resolved {
    /// The row follows the file.
    FollowFile,
    /// The row goes back to what was recorded.
    Restore(Restored),
}

/// What becomes of what a row took over for an operation that was not carried
/// out: the row follows the file where it could be read, and else goes back to the
/// old values and to how the file looked when the operation was recorded. The
/// version of its tags stays.
pub fn resolve_overlay(current_known: bool, now: &TagSet, expected: &Precondition, edits: &Vec<Edit>) -> (r: Resolved)
    ensures
        if current_known {
            r is FollowFile
        } else {
            r matches Resolved::Restore(x) && x.tags@ == replaced(now@, old_values(edits@), edits@.len() as int)
                && opt_bytes(x.tag_hash) == opt_bytes(expected.tag_hash) && x.stat == recorded_stat(*expected)
        },
{
    if current_known {
        return Resolved::FollowFile;
    }
    let p = clone_precondition(expected);
    Resolved::Restore(
        Restored {
            tags: with_old_values(now, edits),
            tag_hash: p.tag_hash,
            stat: RecordedStat {
                dev: p.dev,
                inode: p.inode,
                size: p.size,
                mtime_ns: p.mtime_ns,
                ctime_ns: p.ctime_ns,
            },
        },
    )
}

/// An operation that was recorded, overlaid and then given up leaves every key
/// with the values it had.
pub proof fn law_giving_up_restores_tags(
    current: Seq<(Seq<char>, Seq<char>)>,
    new: Seq<(Seq<char>, Seq<char>)>,
    edits: Seq<Edit>,
    k: Seq<char>,
)
    requires
        diff_is(edit_views(edits), current, new),
    ensures
        values_of(replaced(new, old_values(edits), edits.len() as int), k) == values_of(current, k),
{
    let o = old_values(edits);
    let v = edit_views(edits);
    let keys = diff_keys(v);
    assert(distinct_keys(o)) by {
        assert forall|i: int, j: int| 0 <= i < o.len() && 0 <= j < o.len() && i != j implies (#[trigger] o[i]).0 != (
        #[trigger] o[j]).0 by {
            assert(o[i].0 == keys[i] && o[j].0 == keys[j]);
            crate::split::lemma_text_irreflexive(keys[i]);
            if i < j {
                assert(crate::text::text_less(keys[i], keys[j]));
            } else {
                assert(crate::text::text_less(keys[j], keys[i]));
            }
        }
    }
    lemma_replaced_values(new, o, o.len() as int, k);
    if exists|i: int| 0 <= i < o.len() && (#[trigger] o[i]).0 == k {
        let i = choose|i: int| 0 <= i < o.len() && (#[trigger] o[i]).0 == k;
        assert(v[i].0 == k);
        assert(v[i].1 == values_recorded(values_of(current, k)));
        crate::edit::history::law_values_round_trip(values_of(current, k));
        assert(o[i].1 == recorded_values(v[i].1));
    } else {
        assert forall|i: int| 0 <= i < o.len() implies (#[trigger] o[i]).0 != k by {}
        assert(!keys.contains(k)) by {
            if keys.contains(k) {
                let i = choose|i: int| 0 <= i < keys.len() && keys[i] == k;
                assert(o[i].0 == k);
            }
        }
    }
}

/// Tags are written step by step, each only after the one before it went well, and a fault or an end in
/// between takes the temporary file away where there is one.
pub proof fn law_writing_in_order(e: EditError, end: TagEnd)
    ensures
        after_tag_stage(TagStage::Look, Ok(None)) == TagNext::Go(TagStage::Pictures),
        after_tag_stage(TagStage::Pictures, Ok(None)) == TagNext::Go(TagStage::MakeTemp),
        after_tag_stage(TagStage::MakeTemp, Ok(None)) == TagNext::Go(TagStage::Fill),
        after_tag_stage(TagStage::Fill, Ok(None)) == TagNext::Go(TagStage::Check),
        after_tag_stage(TagStage::Check, Ok(None)) == TagNext::Go(TagStage::LastLook),
        after_tag_stage(TagStage::LastLook, Ok(None)) == TagNext::Go(TagStage::Replace),
        after_tag_stage(TagStage::Replace, Ok(None)) matches TagNext::End(x) && x.step is Write && x.current_known,
        after_tag_stage(TagStage::Look, Ok(Some(end))) == TagNext::End(end),
        after_tag_stage(TagStage::Look, Err(e)) == TagNext::Fault(e),
        after_tag_stage(TagStage::MakeTemp, Err(e)) == TagNext::Fault(e),
        after_tag_stage(TagStage::Fill, Err(e)) == TagNext::RemoveAndFault(e),
        after_tag_stage(TagStage::Check, Ok(Some(end))) == TagNext::RemoveAndEnd(end),
        after_tag_stage(TagStage::LastLook, Ok(Some(end))) == TagNext::RemoveAndEnd(end),
        after_tag_stage(TagStage::Replace, Err(e)) == TagNext::RemoveAndFault(e),
{
}

/// Each edit but that of a picture is written: with its new values, and as a removal where it has none.
pub proof fn law_edits_are_written(edits: Seq<Edit>, n: int, i: int)
    requires
        0 <= i < n <= edits.len(),
    ensures
        edits[i].key@ != "PICTURE"@ && edits[i].new_value@ is Null ==> written_changes(edits, n).contains(
            (edits[i].key@, None::<Seq<Seq<char>>>),
        ),
        edits[i].key@ != "PICTURE"@ && !(edits[i].new_value@ is Null) ==> written_changes(edits, n).contains(
            (edits[i].key@, Some(recorded_values(edits[i].new_value@))),
        ),
        (forall|k: int| 0 <= k < n ==> (#[trigger] edits[k]).key@ == "PICTURE"@) ==> written_changes(edits, n).len() == 0,
    decreases n,
{
    let r = written_changes(edits, n - 1);
    let c = (edits[i].key@, written_values(edits[i].new_value@));
    if n - 1 > 0 {
        law_edits_are_written(edits, n - 1, if i < n - 1 {
            i
        } else {
            0
        });
    }
    if edits[i].key@ != "PICTURE"@ {
        if i < n - 1 {
            let k = choose|k: int| 0 <= k < r.len() && r[k] == c;
            assert(written_changes(edits, n)[k] == c);
        } else {
            assert(written_changes(edits, n).last() == c);
        }
    }
}

/// A write is checked key by key: each one whose values are not those that were meant is reported.
pub proof fn law_lost_values_are_reported(tags: Seq<(Seq<char>, Seq<char>)>, edits: Seq<Edit>, n: int, i: int)
    requires
        0 <= i < n <= edits.len(),
    ensures
        values_of(tags, edits[i].key@) != recorded_values(edits[i].new_value@) ==> keys_not_written(
            tags,
            edits,
            n,
        ).contains(edits[i].key@),
        (forall|k: int|
            0 <= k < n ==> values_of(tags, (#[trigger] edits[k]).key@) == recorded_values(edits[k].new_value@))
            ==> keys_not_written(tags, edits, n).len() == 0,
    decreases n,
{
    let r = keys_not_written(tags, edits, n - 1);
    if n - 1 > 0 {
        law_lost_values_are_reported(tags, edits, n - 1, if i < n - 1 {
            i
        } else {
            0
        });
    }
    if values_of(tags, edits[i].key@) != recorded_values(edits[i].new_value@) {
        if i < n - 1 {
            let k = choose|k: int| 0 <= k < r.len() && r[k] == edits[i].key@;
            assert(keys_not_written(tags, edits, n)[k] == edits[i].key@);
        } else {
            assert(keys_not_written(tags, edits, n).last() == edits[i].key@);
        }
    }
}

/// The tracks whose loudness is written are those whose file is there and was analysed; the others are counted
/// as missing or as not analysed, never as both.
pub proof fn law_loudness_of_analysed_files(rows: Seq<LoudnessRow>, i: int)
    requires
        0 <= i < rows.len(),
    ensures
        !rows[i].missing && rows[i].scanned ==> is_written(rows, rows[i].id),
        missing_rows(rows) + unscanned_rows(rows) <= rows.len(),
        (forall|k: int| 0 <= k < rows.len() ==> (#[trigger] rows[k]).missing) ==> missing_rows(rows) == rows.len()
            && unscanned_rows(rows) == 0,
        (forall|k: int| 0 <= k < rows.len() ==> !(#[trigger] rows[k]).missing && !rows[k].scanned) ==> missing_rows(rows)
            == 0 && unscanned_rows(rows) == rows.len(),
        (forall|k: int| 0 <= k < rows.len() ==> !(#[trigger] rows[k]).missing && rows[k].scanned) ==> missing_rows(rows)
            == 0 && unscanned_rows(rows) == 0,
    decreases rows.len(),
{
    let d = rows.drop_last();
    assert(rows.last() == rows[rows.len() - 1]);
    assert forall|k: int| 0 <= k < d.len() implies #[trigger] d[k] == rows[k] by {}
    if d.len() > 0 {
        law_loudness_of_analysed_files(d, 0);
    }
}

/// A row that goes back says of its file what was recorded.
pub proof fn law_recorded_stat(p: Precondition)
    ensures
        recorded_stat(p).dev == p.dev,
        recorded_stat(p).inode == p.inode,
        recorded_stat(p).size == p.size,
        recorded_stat(p).mtime_ns == p.mtime_ns,
        recorded_stat(p).ctime_ns == p.ctime_ns,
{
}

/// An edit of a track goes by the version of its tags: an operation is recorded for the next one, and a
/// preview of another one than the present is out of date.
pub proof fn law_versions_of_a_preview(t: PlanTarget, version: i64, shown: i64)
    ensures
        t.expected_tag_version is None ==> !version_moved(t, version),
        t.expected_tag_version == Some(shown) ==> (version_moved(t, version) <==> shown != version),
{
}

/// A track that was named twice is found, the lowest such track first.
pub proof fn law_tracks_named_twice(t: Seq<PlanTarget>, ids: Seq<i64>, i: int, j: int, d: i64)
    requires
        0 <= i < j < ids.len(),
    ensures
        ids[i] == ids[j] ==> has_duplicate(ids),
        lowest_duplicate(ids, d) ==> ids.contains(d) && (ids[i] == ids[j] ==> d <= ids[i]),
        0 <= i < t.len() ==> target_ids(t)[i] == t[i].track_id,
{
    if ids[i] == ids[j] {
        lemma_twice(ids, i, j);
        assert(count_of(ids, ids[i]) >= 2);
    }
    if lowest_duplicate(ids, d) {
        lemma_count_member(ids, d);
    }
}

proof fn lemma_twice(ids: Seq<i64>, i: int, j: int)
    requires
        0 <= i < j < ids.len(),
        ids[i] == ids[j],
    ensures
        count_of(ids, ids[i]) >= 2,
    decreases ids.len(),
{
    let d = ids.drop_last();
    if j < d.len() {
        assert(d[i] == ids[i] && d[j] == ids[j]);
        lemma_twice(d, i, j);
    } else {
        assert(d[i] == ids[i]);
        lemma_once(d, i);
    }
}

proof fn lemma_once(ids: Seq<i64>, i: int)
    requires
        0 <= i < ids.len(),
    ensures
        count_of(ids, ids[i]) >= 1,
    decreases ids.len(),
{
    let d = ids.drop_last();
    if i < d.len() {
        assert(d[i] == ids[i]);
        lemma_once(d, i);
    }
}

/// A file holds what was meant for it where each edited key has its new values.
pub proof fn law_new_values_are_there(tags: Seq<(Seq<char>, Seq<char>)>, edits: Seq<Edit>, i: int)
    requires
        0 <= i < edits.len(),
    ensures
        values_of(tags, edits[i].key@) != recorded_values(edits[i].new_value@) ==> !has_new_values(tags, edits),
        has_new_values(tags, edits) ==> keys_not_written(tags, edits, edits.len() as int).len() == 0,
        keys_not_written(tags, edits, edits.len() as int).len() == 0 ==> has_new_values(tags, edits),
{
    law_lost_values_are_reported(tags, edits, edits.len() as int, i);
    if keys_not_written(tags, edits, edits.len() as int).len() == 0 {
        assert forall|k: int| 0 <= k < edits.len() implies values_of(tags, (#[trigger] edits[k]).key@) == recorded_values(
            edits[k].new_value@,
        ) by {
            law_lost_values_are_reported(tags, edits, edits.len() as int, k);
        }
    }
}

/// A track that was named and is not known is found, the lowest such track.
pub proof fn law_unknown_tracks(ids: Seq<i64>, rows: Seq<LoudnessRow>, id: i64, i: int)
    requires
        first_unknown(ids, rows, id),
    ensures
        ids.contains(id),
        0 <= i < rows.len() ==> rows[i].id != id,
        0 <= i < ids.len() && (forall|k: int| 0 <= k < rows.len() ==> (#[trigger] rows[k]).id != ids[i]) ==> id <= ids[i],
{
    if 0 <= i < ids.len() && ids[i] < id {
        assert(ids.contains(ids[i]));
    }
}

/// A conflict and a failure say which they are, why, and whether the file could be read.
pub proof fn law_ends_of_writing(end: TagEnd, reason: Seq<char>, known: bool)
    ensures
        ends_in_conflict(end, reason, known) ==> end.step is Conflict && end.current_known == known,
        ends_in_failure(end, reason, known) ==> end.step is Failed && end.current_known == known,
        !(ends_in_conflict(end, reason, known) && ends_in_failure(end, reason, known)),
{
}

/// A batch in which a track cannot be found, or its new tags cannot be told, is stopped, and at the first such track.
pub proof fn law_batch_stops_at_the_first(t: Seq<PlanTarget>, s: Seq<TargetState>, i: int) -> (j: int)
    requires
        s.len() == t.len(),
        0 <= i < t.len(),
        target_outcome(t[i], s[i]) is NotFound || target_outcome(t[i], s[i]) is Fault,
    ensures
        0 <= j <= i,
        first_stop(t, s, j),
        target_outcome(t[j], s[j]) is NotFound || target_outcome(t[j], s[j]) is Fault,
        forall|k: int|
            0 <= k < j ==> !(target_outcome(#[trigger] t[k], s[k]) is NotFound) && !(target_outcome(t[k], s[k]) is Fault),
    decreases i,
{
    if exists|k: int|
        0 <= k < i && (target_outcome(#[trigger] t[k], s[k]) is NotFound || target_outcome(t[k], s[k]) is Fault) {
        let k = choose|k: int|
            0 <= k < i && (target_outcome(#[trigger] t[k], s[k]) is NotFound || target_outcome(t[k], s[k]) is Fault);
        law_batch_stops_at_the_first(t, s, k)
    } else {
        i
    }
}

/// A batch that has a place at which it stops stops for a reason.
pub proof fn law_batch_stops_for_a_reason(t: Seq<PlanTarget>, s: Seq<TargetState>, i: int)
    requires
        first_stop(t, s, i),
    ensures
        0 <= i < t.len(),
        target_outcome(t[i], s[i]) is NotFound || target_outcome(t[i], s[i]) is Fault,
{
}

} // verus!
