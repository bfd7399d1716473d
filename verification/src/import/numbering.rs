//! Numbering the tracks of a draft that have no number.

use crate::import::draft::{DraftTrack, InboxDraft};
use crate::split::{lemma_text_irreflexive, lemma_text_total, lemma_text_transitive, less};
use crate::text::{same_text, text_less};
use vstd::prelude::*;
use vstd::string::*;

verus! {

/// A track with a number has these numbers.
pub open spec fn number_used(tracks: Seq<DraftTrack>, disc: u32, n: int) -> bool {
    exists|i: int|
        0 <= i < tracks.len() && (#[trigger] tracks[i]).track_no != 0 && tracks[i].disc_no == disc
            && tracks[i].track_no == n
}

/// The track `a` comes before the track `b`: by path, and in their order where
/// they share one.
pub open spec fn precedes(tracks: Seq<DraftTrack>, a: int, b: int) -> bool {
    text_less(tracks[a].rel_path@, tracks[b].rel_path@) || (tracks[a].rel_path@ == tracks[b].rel_path@ && a < b)
}

/// `order` holds the tracks without a number, in the order of their paths.
pub open spec fn numbering_order(tracks: Seq<DraftTrack>, order: Seq<usize>) -> bool {
    &&& forall|i: int, j: int|
        0 <= i < j < order.len() ==> precedes(tracks, #[trigger] order[i] as int, #[trigger] order[j] as int)
    &&& forall|i: usize|
        #[trigger] order.contains(i) <==> i < tracks.len() && tracks[i as int].track_no == 0
}

/// `v` is the first number from `from` on that no track of the disc has.
pub open spec fn first_free(tracks: Seq<DraftTrack>, disc: u32, from: int, v: int) -> bool {
    &&& from <= v
    &&& !number_used(tracks, disc, v)
    &&& forall|w: int| from <= w < v ==> #[trigger] number_used(tracks, disc, w)
}

/// Where numbering begins.
pub open spec fn start_from(start: u32) -> int {
    if start == 0 {
        1
    } else {
        start as int
    }
}

/// `after` is `before` with the tracks of `order` numbered: each with the first
/// number that is free on its disc, behind the one given before.
pub open spec fn numbered(before: Seq<DraftTrack>, after: Seq<DraftTrack>, order: Seq<usize>, start: u32) -> bool {
    &&& numbering_order(before, order)
    &&& after.len() == before.len()
    &&& forall|k: int|
        0 <= k < order.len() ==> first_free(
            before,
            before[order[k] as int].disc_no,
            if k == 0 {
                start_from(start)
            } else {
                after[order[k - 1] as int].track_no + 1
            },
            after[#[trigger] order[k] as int].track_no as int,
        )
    &&& forall|i: int|
        0 <= i < before.len() ==> {
            let a = #[trigger] after[i];
            let b = before[i];
            &&& a.rel_path == b.rel_path
            &&& a.disc_no == b.disc_no
            &&& a.title == b.title
            &&& a.artist == b.artist
            &&& a.keep_artists == b.keep_artists
            &&& a.tags == b.tags
            &&& a.picture == b.picture
            &&& b.track_no != 0 ==> a.track_no == b.track_no
        }
}

// ---------------------------------------------------------------- ordering

proof fn lemma_precedes_transitive(tracks: Seq<DraftTrack>, a: int, b: int, c: int)
    requires
        precedes(tracks, a, b),
        precedes(tracks, b, c),
    ensures
        precedes(tracks, a, c),
{
    let x = tracks[a].rel_path@;
    let y = tracks[b].rel_path@;
    let z = tracks[c].rel_path@;
    if text_less(x, y) && text_less(y, z) {
        lemma_text_transitive(x, y, z);
    }
}

fn comes_before(tracks: &Vec<DraftTrack>, a: usize, b: usize) -> (r: bool)
    requires
        a < tracks@.len(),
        b < tracks@.len(),
    ensures
        r == precedes(tracks@, a as int, b as int),
{
    less(&tracks[a].rel_path, &tracks[b].rel_path) || (same_text(&tracks[a].rel_path, &tracks[b].rel_path) && a < b)
}

fn order_missing(tracks: &Vec<DraftTrack>) -> (r: Vec<usize>)
    ensures
        numbering_order(tracks@, r@),
{
    let mut order: Vec<usize> = Vec::new();
    let mut i: usize = 0;
    while i < tracks.len()
        invariant
            i <= tracks@.len(),
            forall|a: int, b: int|
                0 <= a < b < order@.len() ==> precedes(
                    tracks@,
                    #[trigger] order@[a] as int,
                    #[trigger] order@[b] as int,
                ),
            forall|x: usize| #[trigger] order@.contains(x) <==> x < i && tracks@[x as int].track_no == 0,
        decreases tracks@.len() - i,
    {
        if tracks[i].track_no == 0 {
            let ghost before = order@;
            proof {
                assert forall|k: int| 0 <= k < before.len() implies #[trigger] before[k] < i by {
                    assert(before.contains(before[k]));
                }
            }
            let mut at: usize = 0;
            while at < order.len() && comes_before(tracks, order[at], i)
                invariant
                    i < tracks@.len(),
                    order@ == before,
                    at <= before.len(),
                    forall|k: int| 0 <= k < before.len() ==> #[trigger] before[k] < i,
                    forall|k: int| 0 <= k < at ==> precedes(tracks@, #[trigger] before[k] as int, i as int),
                decreases before.len() - at,
            {
                at = at + 1;
            }
            order.insert(at, i);
            proof {
                let after = order@;
                assert(after == before.insert(at as int, i));
                assert forall|k: int| at <= k < before.len() implies precedes(
                    tracks@,
                    i as int,
                    #[trigger] before[k] as int,
                ) by {
                    let x = tracks@[before[at as int] as int].rel_path@;
                    let y = tracks@[i as int].rel_path@;
                    lemma_text_total(x, y);
                    assert(before[at as int] < i);
                    assert(precedes(tracks@, i as int, before[at as int] as int));
                    if k > at {
                        assert(precedes(tracks@, before[at as int] as int, before[k] as int));
                        lemma_precedes_transitive(tracks@, i as int, before[at as int] as int, before[k] as int);
                    }
                }
                assert forall|a: int, b: int| 0 <= a < b < after.len() implies precedes(
                    tracks@,
                    #[trigger] after[a] as int,
                    #[trigger] after[b] as int,
                ) by {
                    if b < at {
                        assert(precedes(tracks@, before[a] as int, before[b] as int));
                    } else if b == at {
                        assert(precedes(tracks@, before[a] as int, i as int));
                    } else if a < at {
                        assert(precedes(tracks@, before[a] as int, before[b - 1] as int));
                    } else if a == at {
                        assert(precedes(tracks@, i as int, before[b - 1] as int));
                    } else {
                        assert(precedes(tracks@, before[a - 1] as int, before[b - 1] as int));
                    }
                }
                assert forall|x: usize| #[trigger] after.contains(x) <==> x < i + 1 && tracks@[x as int].track_no
                    == 0 by {
                    if after.contains(x) {
                        let k = choose|k: int| 0 <= k < after.len() && after[k] == x;
                        if k < at {
                            assert(before[k] == x);
                            assert(before.contains(x));
                        } else if k > at {
                            assert(before[k - 1] == x);
                            assert(before.contains(x));
                        }
                    }
                    if before.contains(x) {
                        let k = choose|k: int| 0 <= k < before.len() && before[k] == x;
                        if k < at {
                            assert(after[k] == x);
                        } else {
                            assert(after[k + 1] == x);
                        }
                    }
                    if x == i {
                        assert(after[at as int] == x);
                    }
                }
            }
        }
        i = i + 1;
    }
    order
}

// ---------------------------------------------------------------- room

/// The first number from `from` on that no track of the disc has.
pub open spec fn free_from(tracks: Seq<DraftTrack>, disc: u32, from: int) -> int
    decreases u32::MAX + 1 - from,
{
    if from <= u32::MAX && number_used(tracks, disc, from) {
        free_from(tracks, disc, from + 1)
    } else {
        from
    }
}

/// The number that the track at `order[k]` gets.
pub open spec fn given(tracks: Seq<DraftTrack>, order: Seq<usize>, start: u32, k: int) -> int
    decreases k,
{
    free_from(
        tracks,
        tracks[order[k] as int].disc_no,
        if k <= 0 {
            start_from(start)
        } else {
            given(tracks, order, start, k - 1) + 1
        },
    )
}

/// There are numbers enough: behind the last one that is given there is another.
pub open spec fn has_room(tracks: Seq<DraftTrack>, start: u32) -> bool {
    forall|order: Seq<usize>| #[trigger]
        numbering_order(tracks, order) && order.len() > 0 ==> given(tracks, order, start, order.len() - 1) < u32::MAX
}

proof fn lemma_free_from(tracks: Seq<DraftTrack>, disc: u32, from: int)
    requires
        0 <= from,
    ensures
        first_free(tracks, disc, from, free_from(tracks, disc, from)),
    decreases u32::MAX + 1 - from,
{
    if from <= u32::MAX && number_used(tracks, disc, from) {
        lemma_free_from(tracks, disc, from + 1);
        assert forall|w: int| from <= w < free_from(tracks, disc, from) implies #[trigger] number_used(
            tracks,
            disc,
            w,
        ) by {}
    } else {
        assert(!number_used(tracks, disc, from));
    }
}

/// Each number that is given is higher than those given before.
proof fn lemma_given_rises(tracks: Seq<DraftTrack>, order: Seq<usize>, start: u32, j: int, k: int)
    requires
        0 <= j <= k,
    ensures
        start_from(start) <= given(tracks, order, start, j) <= given(tracks, order, start, k),
        j < k ==> given(tracks, order, start, j) < given(tracks, order, start, k),
    decreases k,
{
    let disc = tracks[order[k] as int].disc_no;
    if k == 0 {
        lemma_free_from(tracks, disc, start_from(start));
    } else {
        lemma_given_rises(tracks, order, start, if j < k { j } else { k - 1 }, k - 1);
        lemma_free_from(tracks, disc, given(tracks, order, start, k - 1) + 1);
    }
}

/// The number `v` stands at the position `p`: a track has it, or it was given to
/// one of the first `k + 1` tracks of `order`.
spec fn stands_at(tracks: Seq<DraftTrack>, order: Seq<usize>, start: u32, k: int, v: int, p: int) -> bool {
    0 <= p < tracks.len() && ((tracks[p].track_no != 0 && tracks[p].track_no == v) || (tracks[p].track_no == 0 && exists|
        j: int,
    |
        0 <= j <= k && order[j] == p && #[trigger] given(tracks, order, start, j) == v))
}

/// Every number from the start to the last one that was given stands somewhere.
proof fn lemma_stands(tracks: Seq<DraftTrack>, order: Seq<usize>, start: u32, k: int, v: int) -> (p: int)
    requires
        numbering_order(tracks, order),
        0 <= k < order.len(),
        start_from(start) <= v <= given(tracks, order, start, k),
    ensures
        stands_at(tracks, order, start, k, v, p),
    decreases k,
{
    let disc = tracks[order[k] as int].disc_no;
    let from = if k == 0 {
        start_from(start)
    } else {
        given(tracks, order, start, k - 1) + 1
    };
    if k > 0 {
        lemma_given_rises(tracks, order, start, k - 1, k - 1);
    }
    lemma_free_from(tracks, disc, from);
    if v < from {
        let p = lemma_stands(tracks, order, start, k - 1, v);
        p
    } else if v == given(tracks, order, start, k) {
        assert(order.contains(order[k]));
        order[k] as int
    } else {
        assert(number_used(tracks, disc, v));
        choose|i: int|
            0 <= i < tracks.len() && (#[trigger] tracks[i]).track_no != 0 && tracks[i].disc_no == disc
                && tracks[i].track_no == v
    }
}

/// No two numbers stand at one position.
proof fn lemma_stands_once(
    tracks: Seq<DraftTrack>,
    order: Seq<usize>,
    start: u32,
    k: int,
    v: int,
    w: int,
    p: int,
)
    requires
        numbering_order(tracks, order),
        0 <= k < order.len(),
        stands_at(tracks, order, start, k, v, p),
        stands_at(tracks, order, start, k, w, p),
    ensures
        v == w,
{
    if tracks[p].track_no == 0 {
        let a = choose|j: int| 0 <= j <= k && order[j] == p && #[trigger] given(tracks, order, start, j) == v;
        let b = choose|j: int| 0 <= j <= k && order[j] == p && #[trigger] given(tracks, order, start, j) == w;
        lemma_text_irreflexive(tracks[p].rel_path@);
        if a < b {
            assert(precedes(tracks, order[a] as int, order[b] as int));
        } else if b < a {
            assert(precedes(tracks, order[b] as int, order[a] as int));
        }
    }
}

/// There are numbers enough wherever the start and the number of tracks together
/// are a number.
pub proof fn law_short_drafts_have_room(tracks: Seq<DraftTrack>, start: u32)
    requires
        start_from(start) + tracks.len() <= u32::MAX,
    ensures
        has_room(tracks, start),
{
    assert forall|order: Seq<usize>| #[trigger] numbering_order(tracks, order) && order.len() > 0 implies given(
        tracks,
        order,
        start,
        order.len() - 1,
    ) < u32::MAX by {
        let k = order.len() - 1;
        let last = given(tracks, order, start, k);
        lemma_given_rises(tracks, order, start, k, k);
        let f = |v: int| choose|p: int| stands_at(tracks, order, start, k, v, p);
        let numbers = vstd::set_lib::set_int_range(start_from(start), last + 1);
        let positions = vstd::set_lib::set_int_range(0, tracks.len() as int);
        vstd::set_lib::lemma_int_range(start_from(start), last + 1);
        vstd::set_lib::lemma_int_range(0, tracks.len() as int);
        assert forall|v: int| numbers.contains(v) implies stands_at(tracks, order, start, k, v, #[trigger] f(v)) by {
            let p = lemma_stands(tracks, order, start, k, v);
        }
        assert(vstd::relations::injective_on(f, numbers)) by {
            assert forall|v: int, w: int|
                numbers.contains(v) && numbers.contains(w) && #[trigger] f(v) == #[trigger] f(w) implies v == w by {
                lemma_stands_once(tracks, order, start, k, v, w, f(v));
            }
        }
        let image = numbers.map(f);
        vstd::set_lib::lemma_map_size(numbers, image, f);
        assert forall|p: int| image.contains(p) implies positions.contains(p) by {
            let v = choose|v: int| numbers.contains(v) && f(v) == p;
            assert(stands_at(tracks, order, start, k, v, f(v)));
        }
        vstd::set_lib::lemma_len_subset(image, positions);
    }
}

// ---------------------------------------------------------------- numbering

fn used_pairs(tracks: &Vec<DraftTrack>) -> (r: Vec<(u32, u32)>)
    ensures
        forall|d: u32, n: u32| #[trigger] r@.contains((d, n)) <==> n != 0 && number_used(tracks@, d, n as int),
{
    let mut out: Vec<(u32, u32)> = Vec::new();
    let mut i: usize = 0;
    while i < tracks.len()
        invariant
            i <= tracks@.len(),
            forall|d: u32, n: u32|
                #[trigger] out@.contains((d, n)) <==> exists|k: int|
                    0 <= k < i && (#[trigger] tracks@[k]).track_no != 0 && tracks@[k].disc_no == d
                        && tracks@[k].track_no == n,
        decreases tracks@.len() - i,
    {
        if tracks[i].track_no != 0 {
            let ghost before = out@;
            out.push((tracks[i].disc_no, tracks[i].track_no));
            proof {
                let p = (tracks@[i as int].disc_no, tracks@[i as int].track_no);
                assert forall|d: u32, n: u32| #[trigger] out@.contains((d, n)) <==> exists|k: int|
                    0 <= k < i + 1 && (#[trigger] tracks@[k]).track_no != 0 && tracks@[k].disc_no == d
                        && tracks@[k].track_no == n by {
                    if out@.contains((d, n)) {
                        let k = choose|k: int| 0 <= k < out@.len() && out@[k] == (d, n);
                        if k < before.len() {
                            assert(before[k] == (d, n));
                            assert(before.contains((d, n)));
                        } else {
                            assert(tracks@[i as int].track_no == n);
                        }
                    }
                    if before.contains((d, n)) {
                        let k = choose|k: int| 0 <= k < before.len() && before[k] == (d, n);
                        assert(out@[k] == (d, n));
                    }
                    if (d, n) == p {
                        assert(out@[before.len() as int] == (d, n));
                    }
                    if exists|k: int|
                        0 <= k < i + 1 && (#[trigger] tracks@[k]).track_no != 0 && tracks@[k].disc_no == d
                            && tracks@[k].track_no == n {
                        let k = choose|k: int|
                            0 <= k < i + 1 && (#[trigger] tracks@[k]).track_no != 0 && tracks@[k].disc_no == d
                                && tracks@[k].track_no == n;
                        if k < i {
                            assert(before.contains((d, n)));
                        }
                    }
                }
            }
        }
        i = i + 1;
    }
    proof {
        assert forall|d: u32, n: u32| #[trigger] out@.contains((d, n)) <==> n != 0 && number_used(
            tracks@,
            d,
            n as int,
        ) by {
            if number_used(tracks@, d, n as int) {
                let k = choose|k: int|
                    0 <= k < tracks@.len() && (#[trigger] tracks@[k]).track_no != 0 && tracks@[k].disc_no == d
                        && tracks@[k].track_no == n as int;
                assert(tracks@[k].track_no == n);
            }
        }
    }
    out
}

fn has_pair(v: &Vec<(u32, u32)>, d: u32, n: u32) -> (r: bool)
    ensures
        r == v@.contains((d, n)),
{
    let mut i: usize = 0;
    while i < v.len()
        invariant
            i <= v@.len(),
            forall|k: int| 0 <= k < i ==> #[trigger] v@[k] != (d, n),
        decreases v@.len() - i,
    {
        if v[i].0 == d && v[i].1 == n {
            proof {
                assert(v@[i as int] == (d, n));
            }
            return true;
        }
        i = i + 1;
    }
    false
}

/// Gives numbers from `start` on to the tracks without one, in the order of
/// their paths. Numbers that other tracks of the disc have are passed over. The
/// order of the tracks stays.
pub fn number_missing(draft: &mut InboxDraft, start: u32)
    requires
        has_room(old(draft).tracks@, start),
    ensures
        exists|order: Seq<usize>| #[trigger] numbered(old(draft).tracks@, final(draft).tracks@, order, start),
        old(draft).wf() ==> final(draft).wf(),
        final(draft).category == old(draft).category,
        final(draft).albumartist == old(draft).albumartist,
        final(draft).album == old(draft).album,
        final(draft).date == old(draft).date,
        final(draft).album_gain == old(draft).album_gain,
        final(draft).release_id == old(draft).release_id,
        final(draft).release_group_id == old(draft).release_group_id,
{
    let used = used_pairs(&draft.tracks);
    let order = order_missing(&draft.tracks);
    let ghost before = draft.tracks@;
    let ghost total = before.len() as int;
    let n_tracks: usize = draft.tracks.len();
    let mut next: u32 = if start == 0 {
        1
    } else {
        start
    };
    let mut k: usize = 0;
    while k < order.len()
        invariant
            n_tracks == draft.tracks@.len(),
            before.len() == draft.tracks@.len(),
            total == before.len(),
            has_room(before, start),
            numbering_order(before, order@),
            forall|d: u32, n: u32| #[trigger] used@.contains((d, n)) <==> n != 0 && number_used(before, d, n as int),
            k <= order@.len(),
            next == (if k == 0 {
                start_from(start)
            } else {
                given(before, order@, start, k - 1) + 1
            }),
            next == (if k == 0 {
                start_from(start)
            } else {
                draft.tracks@[order@[k - 1] as int].track_no + 1
            }),
            forall|j: int|
                0 <= j < k ==> first_free(
                    before,
                    before[order@[j] as int].disc_no,
                    if j == 0 {
                        start_from(start)
                    } else {
                        draft.tracks@[order@[j - 1] as int].track_no + 1
                    },
                    draft.tracks@[#[trigger] order@[j] as int].track_no as int,
                ),
            forall|i: int|
                0 <= i < total ==> {
                    let a = #[trigger] draft.tracks@[i];
                    let b = before[i];
                    &&& a.rel_path == b.rel_path
                    &&& a.disc_no == b.disc_no
                    &&& a.title == b.title
                    &&& a.artist == b.artist
                    &&& a.keep_artists == b.keep_artists
                    &&& a.tags == b.tags
                    &&& a.picture == b.picture
                    &&& b.track_no != 0 ==> a.track_no == b.track_no
                },
            draft.category == old(draft).category,
            draft.albumartist == old(draft).albumartist,
            draft.album == old(draft).album,
            draft.date == old(draft).date,
            draft.album_gain == old(draft).album_gain,
            draft.release_id == old(draft).release_id,
            draft.release_group_id == old(draft).release_group_id,
        decreases order@.len() - k,
    {
        let i: usize = order[k];
        proof {
            assert(order@.contains(i));
        }
        let disc: u32 = draft.tracks[i].disc_no;
        let ghost from = next as int;
        proof {
            assert(draft.tracks@[i as int].disc_no == before[i as int].disc_no);
            assert(given(before, order@, start, order@.len() - 1) < u32::MAX);
            lemma_given_rises(before, order@, start, k as int, order@.len() - 1);
            assert(given(before, order@, start, k as int) == free_from(before, disc, from));
            lemma_free_from(before, disc, from);
        }
        while has_pair(&used, disc, next)
            invariant
                forall|d: u32, n: u32|
                    #[trigger] used@.contains((d, n)) <==> n != 0 && number_used(before, d, n as int),
                first_free(before, disc, from, free_from(before, disc, from)),
                free_from(before, disc, from) < u32::MAX,
                1 <= from <= next <= free_from(before, disc, from),
            decreases u32::MAX - next,
        {
            proof {
                assert(used@.contains((disc, next)));
                assert(number_used(before, disc, next as int));
            }
            next = next + 1;
        }
        proof {
            assert(!used@.contains((disc, next)));
            assert(!number_used(before, disc, next as int));
            assert(next == free_from(before, disc, from));
        }
        let ghost prior = draft.tracks@;
        let mut t = draft.tracks.remove(i);
        t.track_no = next;
        draft.tracks.insert(i, t);
        proof {
            let now = draft.tracks@;
            assert(now.len() == prior.len());
            assert forall|x: int| 0 <= x < total && x != i implies #[trigger] now[x] == prior[x] by {}
            assert forall|j: int| 0 <= j < k implies #[trigger] order@[j] != i by {
                lemma_text_irreflexive(before[i as int].rel_path@);
                assert(precedes(before, order@[j] as int, order@[k as int] as int));
            }
            assert forall|j: int| 0 <= j < k + 1 implies first_free(
                before,
                before[order@[j] as int].disc_no,
                if j == 0 {
                    start_from(start)
                } else {
                    now[order@[j - 1] as int].track_no + 1
                },
                now[#[trigger] order@[j] as int].track_no as int,
            ) by {
                if j < k {
                    assert(order@.contains(order@[j]));
                    assert(now[order@[j] as int] == prior[order@[j] as int]);
                    if j > 0 {
                        assert(order@[j - 1] != i);
                        assert(order@.contains(order@[j - 1]));
                        assert(now[order@[j - 1] as int] == prior[order@[j - 1] as int]);
                    }
                } else if j > 0 {
                    assert(order@[j - 1] != i);
                    assert(order@.contains(order@[j - 1]));
                    assert(now[order@[j - 1] as int] == prior[order@[j - 1] as int]);
                }
            }
        }
        next = next + 1;
        k = k + 1;
    }
    proof {
        assert(numbered(before, draft.tracks@, order@, start));
        if old(draft).wf() {
            assert forall|i: int| 0 <= i < draft.tracks@.len() implies (#[trigger] draft.tracks@[i])@.wf() by {
                assert(before[i]@.wf());
                assert(draft.tracks@[i]@.tags == before[i]@.tags);
            }
        }
    }
}

// ---------------------------------------------------------------- laws

proof fn lemma_numbers_rise(before: Seq<DraftTrack>, after: Seq<DraftTrack>, order: Seq<usize>, start: u32, j: int, k: int)
    requires
        numbered(before, after, order, start),
        0 <= j <= k < order.len(),
    ensures
        start_from(start) <= after[order[j] as int].track_no,
        j < k ==> after[order[j] as int].track_no < after[order[k] as int].track_no,
    decreases k,
{
    if j == k {
        if k > 0 {
            lemma_numbers_rise(before, after, order, start, k - 1, k - 1);
        }
        assert(first_free(
            before,
            before[order[k] as int].disc_no,
            if k == 0 {
                start_from(start)
            } else {
                after[order[k - 1] as int].track_no + 1
            },
            after[order[k] as int].track_no as int,
        ));
    } else {
        lemma_numbers_rise(before, after, order, start, j, k - 1);
        assert(first_free(
            before,
            before[order[k] as int].disc_no,
            after[order[k - 1] as int].track_no + 1,
            after[order[k] as int].track_no as int,
        ));
    }
}

/// After numbering every track has a number, and where no two tracks shared
/// their numbers before, none do.
pub proof fn law_numbering_completes(before: Seq<DraftTrack>, after: Seq<DraftTrack>, order: Seq<usize>, start: u32)
    requires
        numbered(before, after, order, start),
        before.len() <= usize::MAX,
        forall|i: int, j: int|
            0 <= i < j < before.len() && (#[trigger] before[i]).track_no != 0 && (#[trigger] before[j]).track_no != 0
                ==> before[i].disc_no != before[j].disc_no || before[i].track_no != before[j].track_no,
    ensures
        forall|i: int| 0 <= i < after.len() ==> (#[trigger] after[i]).track_no != 0,
        forall|i: int, j: int|
            0 <= i < j < after.len() ==> (#[trigger] after[i]).disc_no != (#[trigger] after[j]).disc_no
                || after[i].track_no != after[j].track_no,
{
    assert forall|i: int| 0 <= i < after.len() implies (#[trigger] after[i]).track_no != 0 by {
        if before[i].track_no == 0 {
            assert(order.contains(i as usize));
            let k = choose|k: int| 0 <= k < order.len() && order[k] == i as usize;
            lemma_numbers_rise(before, after, order, start, k, k);
        }
    }
    assert forall|i: int, j: int| 0 <= i < j < after.len() implies (#[trigger] after[i]).disc_no != (
    #[trigger] after[j]).disc_no || after[i].track_no != after[j].track_no by {
        lemma_pair_distinct(before, after, order, start, i, j);
    }
}

proof fn lemma_pair_distinct(
    before: Seq<DraftTrack>,
    after: Seq<DraftTrack>,
    order: Seq<usize>,
    start: u32,
    i: int,
    j: int,
)
    requires
        numbered(before, after, order, start),
        before.len() <= usize::MAX,
        0 <= i < j < before.len(),
        before[i].track_no != 0 && before[j].track_no != 0 ==> before[i].disc_no != before[j].disc_no
            || before[i].track_no != before[j].track_no,
    ensures
        after[i].disc_no != after[j].disc_no || after[i].track_no != after[j].track_no,
{
    if before[i].track_no == 0 && before[j].track_no == 0 {
        assert(order.contains(i as usize));
        assert(order.contains(j as usize));
        let a = choose|k: int| 0 <= k < order.len() && order[k] == i as usize;
        let b = choose|k: int| 0 <= k < order.len() && order[k] == j as usize;
        if a < b {
            lemma_numbers_rise(before, after, order, start, a, b);
        } else {
            lemma_numbers_rise(before, after, order, start, b, a);
        }
    } else if before[i].track_no == 0 {
        lemma_given_is_free(before, after, order, start, i);
        if after[i].disc_no == after[j].disc_no && after[i].track_no == after[j].track_no {
            assert(number_used(before, before[i].disc_no, after[i].track_no as int)) by {
                assert(before[j].track_no != 0);
            }
        }
    } else if before[j].track_no == 0 {
        lemma_given_is_free(before, after, order, start, j);
        if after[i].disc_no == after[j].disc_no && after[i].track_no == after[j].track_no {
            assert(number_used(before, before[j].disc_no, after[j].track_no as int)) by {
                assert(before[i].track_no != 0);
            }
        }
    }
}

proof fn lemma_given_is_free(before: Seq<DraftTrack>, after: Seq<DraftTrack>, order: Seq<usize>, start: u32, i: int)
    requires
        numbered(before, after, order, start),
        before.len() <= usize::MAX,
        0 <= i < before.len(),
        before[i].track_no == 0,
    ensures
        !number_used(before, before[i].disc_no, after[i].track_no as int),
{
    assert(order.contains(i as usize));
    let k = choose|k: int| 0 <= k < order.len() && order[k] == i as usize;
    assert(after[order[k] as int].track_no == after[i].track_no);
    assert(first_free(
        before,
        before[order[k] as int].disc_no,
        if k == 0 {
            start_from(start)
        } else {
            after[order[k - 1] as int].track_no + 1
        },
        after[order[k] as int].track_no as int,
    ));
}

/// Numbering a second time changes nothing, wherever it begins.
pub proof fn law_numbering_twice_changes_nothing(
    before: Seq<DraftTrack>,
    once: Seq<DraftTrack>,
    twice: Seq<DraftTrack>,
    order: Seq<usize>,
    order2: Seq<usize>,
    start: u32,
    start2: u32,
)
    requires
        before.len() <= usize::MAX,
        numbered(before, once, order, start),
        numbered(once, twice, order2, start2),
    ensures
        has_room(once, start2),
        twice == once,
{
    assert forall|i: int| 0 <= i < once.len() implies (#[trigger] once[i]).track_no != 0 by {
        if before[i].track_no == 0 {
            assert(order.contains(i as usize));
            let k = choose|k: int| 0 <= k < order.len() && order[k] == i as usize;
            lemma_numbers_rise(before, once, order, start, k, k);
        }
    }
    assert forall|o: Seq<usize>| #[trigger] numbering_order(once, o) implies o.len() == 0 by {
        if o.len() > 0 {
            assert(o.contains(o[0]));
        }
    }
    assert forall|i: int| 0 <= i < once.len() implies #[trigger] twice[i] == once[i] by {
        assert(once[i].track_no != 0);
    }
    assert(twice =~= once);
}

/// Where numbering begins: behind the highest number of the album that the
/// tracks go to, at 1 where there is none.
pub fn numbering_start(max_track_no: Option<i64>) -> (r: u32)
    requires
        max_track_no != Some(u32::MAX as i64),
    ensures
        r == (match max_track_no {
            Some(n) => if 0 <= n < u32::MAX {
                n + 1
            } else {
                1
            },
            None => 1,
        }),
{
    match max_track_no {
        Some(n) => {
            if 0 <= n && n < u32::MAX as i64 {
                (n + 1) as u32
            } else {
                1
            }
        },
        None => 1,
    }
}

} // verus!
