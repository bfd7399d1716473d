//! Which album the files of a directory belong to.

use crate::catalog::{pair_views, values_of, AlbumMeta};
use crate::import::scanner::number_of;
use crate::import::walk::InvEntry;
use crate::lists::{count_id, count_of, has_id, lemma_count_member, lemma_count_two};
use crate::order::{ascending, is_mode, mode_of, ordered_set_of, sorted_texts};
use crate::split::{
    has_member, lemma_text_irreflexive, lemma_text_total, lemma_text_transitive, less, split,
};
use crate::text::{
    ascii_lower, concat2, int_text, int_to_text, law_split_at_the_first_separator,
    law_split_is_undone_by_join, law_unsplit_text, leading_int, lower_text, opt_text, same_text,
    split_on, text_less, texts,
};
use crate::unicode::{canonical, canonical_key};
use vstd::prelude::*;
use vstd::string::*;

verus! {

// ---------------------------------------------------------------- groups

/// The files of a directory.
#[derive(Debug)]
pub struct DirGroup {
    pub dir_key: String,
    /// The directory, none at the root.
    pub dir: Option<String>,
    pub track_ids: Vec<i64>,
    /// The albums that the tracks belonged to before.
    pub previous_albums: Vec<i64>,
    /// Something changed in the directory.
    pub dirty: bool,
}

/// The keys of the groups.
pub open spec fn group_keys(g: Seq<DirGroup>) -> Seq<Seq<char>> {
    g.map_values(|x: DirGroup| x.dir_key@)
}

/// The groups go upwards by key, and no group has more former albums than tracks.
pub open spec fn groups_wf(g: Seq<DirGroup>) -> bool {
    &&& ascending(group_keys(g))
    &&& forall|i: int| 0 <= i < g.len() ==> (#[trigger] g[i]).previous_albums@.len() <= g[i].track_ids@.len()
}

/// Where the group with key `k` stands.
pub open spec fn group_index(g: Seq<DirGroup>, k: Seq<char>) -> Option<int>
    decreases g.len(),
{
    if g.len() == 0 {
        None
    } else if g.last().dir_key@ == k {
        Some(g.len() - 1)
    } else {
        group_index(g.drop_last(), k)
    }
}

/// What a group lookup gives lies within the groups and has the key.
pub proof fn lemma_group_index(g: Seq<DirGroup>, k: Seq<char>)
    ensures
        match group_index(g, k) {
            Some(i) => 0 <= i < g.len() && g[i].dir_key@ == k,
            None => forall|i: int| 0 <= i < g.len() ==> (#[trigger] g[i]).dir_key@ != k,
        },
    decreases g.len(),
{
    if g.len() > 0 && g.last().dir_key@ != k {
        lemma_group_index(g.drop_last(), k);
        assert forall|i: int| 0 <= i < g.len() - 1 implies #[trigger] g[i] == g.drop_last()[i] by {}
    }
}

/// Keys of ascending groups are distinct.
pub proof fn lemma_group_keys_distinct(g: Seq<DirGroup>, i: int, j: int)
    requires
        groups_wf(g),
        0 <= i < g.len(),
        0 <= j < g.len(),
        g[i].dir_key@ == g[j].dir_key@,
    ensures
        i == j,
{
    let k = group_keys(g);
    lemma_text_irreflexive(k[i]);
    if i < j {
        assert(text_less(k[i], k[j]));
    } else if j < i {
        assert(text_less(k[j], k[i]));
    }
}

/// Where the group with key `k` stands.
fn find_group(g: &Vec<DirGroup>, k: &str) -> (r: Option<usize>)
    ensures
        match r {
            Some(i) => group_index(g@, k@) == Some(i as int) && i < g@.len() && g@[i as int].dir_key@ == k@,
            None => group_index(g@, k@) is None,
        },
{
    let mut j: usize = g.len();
    proof {
        assert(g@.take(j as int) =~= g@);
    }
    while j > 0
        invariant
            j <= g@.len(),
            group_index(g@, k@) == group_index(g@.take(j as int), k@),
        decreases j,
    {
        proof {
            assert(g@.take(j as int).last() == g@[j - 1]);
            assert(g@.take(j as int).drop_last() =~= g@.take(j - 1));
        }
        if same_text(g[j - 1].dir_key.as_str(), k) {
            return Some(j - 1);
        }
        j = j - 1;
    }
    None
}

/// The ids with one more, where there is one.
pub open spec fn with_id(v: Seq<i64>, id: Option<i64>) -> Seq<i64> {
    match id {
        Some(x) => v.push(x),
        None => v,
    }
}

/// `g` is the group that `e` belongs to, after the track of `e` joined: `before`
/// is the group as it was, none where it is new.
pub open spec fn group_after(
    g: DirGroup,
    before: Option<DirGroup>,
    e: InvEntry,
    track: Option<i64>,
    album: Option<i64>,
    dirty: bool,
) -> bool {
    &&& g.dir_key@ == e.dir_key@
    &&& match before {
        Some(b) => {
            &&& g.dir == b.dir
            &&& g.track_ids@ == with_id(b.track_ids@, track)
            &&& g.previous_albums@ == with_id(b.previous_albums@, album)
            &&& g.dirty == (b.dirty || dirty)
        },
        None => {
            &&& opt_text(g.dir) == opt_text(e.dir)
            &&& g.track_ids@ == with_id(Seq::empty(), track)
            &&& g.previous_albums@ == with_id(Seq::empty(), album)
            &&& g.dirty == dirty
        },
    }
}

/// Lets a file join the group of its directory, with its track and the album the
/// track belonged to, where it has them.
pub fn join_group(
    groups: &mut Vec<DirGroup>,
    e: &InvEntry,
    track: Option<i64>,
    album: Option<i64>,
    dirty: bool,
) -> (at: usize)
    requires
        groups_wf(old(groups)@),
        album is Some ==> track is Some,
    ensures
        groups_wf(final(groups)@),
        at < final(groups)@.len(),
        match group_index(old(groups)@, e.dir_key@) {
            Some(i) => {
                &&& at == i
                &&& final(groups)@ == old(groups)@.update(i, final(groups)@[i])
                &&& group_after(final(groups)@[i], Some(old(groups)@[i]), *e, track, album, dirty)
            },
            None => {
                &&& at <= old(groups)@.len()
                &&& final(groups)@ == old(groups)@.insert(at as int, final(groups)@[at as int])
                &&& group_after(final(groups)@[at as int], None, *e, track, album, dirty)
            },
        },
{
    let ghost before = groups@;
    proof {
        lemma_group_index(before, e.dir_key@);
    }
    match find_group(groups, &e.dir_key) {
        Some(i) => {
            let old_group = groups.remove(i);
            let ghost og = old_group;
            let mut g = old_group;
            if let Some(t) = track {
                g.track_ids.push(t);
            }
            if let Some(a) = album {
                g.previous_albums.push(a);
            }
            if dirty {
                g.dirty = true;
            }
            groups.insert(i, g);
            proof {
                let after = groups@;
                assert(after =~= before.update(i as int, after[i as int]));
                assert(group_keys(after) =~= group_keys(before));
                assert forall|k: int| 0 <= k < after.len() implies (#[trigger] after[k]).previous_albums@.len()
                    <= after[k].track_ids@.len() by {
                    if k != i {
                        assert(after[k] == before[k]);
                    } else {
                        assert(before[k].previous_albums@.len() <= before[k].track_ids@.len());
                    }
                }
            }
            i
        },
        None => {
            let mut at: usize = 0;
            while at < groups.len() && less(groups[at].dir_key.as_str(), &e.dir_key)
                invariant
                    groups@ == before,
                    groups_wf(before),
                    at <= before.len(),
                    forall|k: int| 0 <= k < at ==> text_less(#[trigger] group_keys(before)[k], e.dir_key@),
                decreases before.len() - at,
            {
                at = at + 1;
            }
            let mut g = DirGroup {
                dir_key: e.dir_key.clone(),
                dir: e.dir.clone(),
                track_ids: Vec::new(),
                previous_albums: Vec::new(),
                dirty,
            };
            if let Some(t) = track {
                g.track_ids.push(t);
            }
            if let Some(a) = album {
                g.previous_albums.push(a);
            }
            let ghost gg = g;
            groups.insert(at, g);
            proof {
                let after = groups@;
                let kb = group_keys(before);
                let ka = group_keys(after);
                assert(after == before.insert(at as int, gg));
                assert(ka =~= kb.insert(at as int, gg.dir_key@));
                assert forall|k: int| at <= k < kb.len() implies text_less(gg.dir_key@, #[trigger] kb[k]) by {
                    assert(before[k].dir_key@ != e.dir_key@);
                    lemma_text_total(kb[k], gg.dir_key@);
                    if k > at {
                        assert(text_less(kb[at as int], kb[k]));
                        if text_less(kb[k], gg.dir_key@) {
                            lemma_text_transitive(kb[at as int], kb[k], gg.dir_key@);
                        }
                    }
                }
                assert forall|i: int, j: int| 0 <= i < j < ka.len() implies text_less(
                    #[trigger] ka[i],
                    #[trigger] ka[j],
                ) by {
                    if j < at {
                        assert(text_less(kb[i], kb[j]));
                    } else if j == at {
                        assert(text_less(kb[i], gg.dir_key@));
                    } else if i < at {
                        assert(text_less(kb[i], kb[j - 1]));
                    } else if i == at {
                        assert(text_less(gg.dir_key@, kb[j - 1]));
                    } else {
                        assert(text_less(kb[i - 1], kb[j - 1]));
                    }
                }
                assert forall|k: int| 0 <= k < after.len() implies (#[trigger] after[k]).previous_albums@.len()
                    <= after[k].track_ids@.len() by {
                    if k < at {
                        assert(after[k] == before[k]);
                    } else if k > at {
                        assert(after[k] == before[k - 1]);
                    }
                }
            }
            at
        },
    }
}

// ---------------------------------------------------------------- majorities

/// More than half of a group of `size` tracks belonged to the album `id`.
pub open spec fn has_majority(previous: Seq<i64>, size: nat, id: i64) -> bool {
    count_of(previous, id) * 2 > size
}

/// The album that more than half of a group belonged to.
pub open spec fn majority_of(previous: Seq<i64>, size: nat) -> Option<i64> {
    if exists|id: i64| has_majority(previous, size, id) {
        Some(choose|id: i64| has_majority(previous, size, id))
    } else {
        None
    }
}

/// A group whose former albums are no more than its tracks has one majority at most.
pub proof fn lemma_majority_unique(previous: Seq<i64>, size: nat, a: i64, b: i64)
    requires
        previous.len() <= size,
        has_majority(previous, size, a),
        has_majority(previous, size, b),
    ensures
        a == b,
{
    if a != b {
        lemma_count_two(previous, a, b);
    }
}

/// The album that more than half of a group of `group_size` tracks belonged to:
/// of several, one with the most.
pub fn majority_album(previous: &Vec<i64>, group_size: usize) -> (r: Option<i64>)
    ensures
        match r {
            Some(id) => has_majority(previous@, group_size as nat, id) && forall|x: i64|
                #[trigger] count_of(previous@, x) <= count_of(previous@, id),
            None => forall|x: i64| !#[trigger] has_majority(previous@, group_size as nat, x),
        },
        previous@.len() <= group_size ==> r == majority_of(previous@, group_size as nat),
{
    let mut best: Option<i64> = None;
    let mut best_n: usize = 0;
    let mut i: usize = 0;
    while i < previous.len()
        invariant
            i <= previous@.len(),
            match best {
                Some(id) => best_n == count_of(previous@, id) && best_n > 0,
                None => best_n == 0,
            },
            forall|k: int| 0 <= k < i ==> count_of(previous@, #[trigger] previous@[k]) <= best_n,
        decreases previous@.len() - i,
    {
        let n: usize = count_id(previous, previous[i]);
        if n > best_n {
            best = Some(previous[i]);
            best_n = n;
        }
        i = i + 1;
    }
    proof {
        assert forall|x: i64| #[trigger] count_of(previous@, x) <= best_n by {
            lemma_count_member(previous@, x);
            if previous@.contains(x) {
                let k = choose|k: int| 0 <= k < previous@.len() && previous@[k] == x;
                assert(count_of(previous@, previous@[k]) <= best_n);
            }
        }
    }
    let half: usize = group_size / 2;
    if best_n > half {
        proof {
            let id = best->0;
            assert(has_majority(previous@, group_size as nat, id));
            if previous@.len() <= group_size {
                lemma_majority_unique(
                    previous@,
                    group_size as nat,
                    id,
                    choose|id: i64| has_majority(previous@, group_size as nat, id),
                );
            }
        }
        best
    } else {
        proof {
            assert forall|x: i64| !#[trigger] has_majority(previous@, group_size as nat, x) by {
                assert(count_of(previous@, x) <= best_n);
            }
        }
        None
    }
}

// ---------------------------------------------------------------- albums

/// An album as it was when the scan began.
#[derive(Debug)]
pub struct AlbumSnap {
    pub id: i64,
    pub rel_dir_key: String,
    pub mb_release_id: Option<String>,
}

/// The album that a directory is given to.
#[derive(Debug, Clone, Copy, PartialEq, Eq, Structural)]
pub enum AlbumTarget {
    /// The album that stands there.
    Existing(i64),
    /// An album that stood elsewhere.
    Rename(i64),
    New,
}

/// The album that stands at the key `k`.
pub open spec fn album_at(albums: Seq<AlbumSnap>, k: Seq<char>) -> Option<int>
    decreases albums.len(),
{
    if albums.len() == 0 {
        None
    } else if albums.last().rel_dir_key@ == k {
        Some(albums.len() - 1)
    } else {
        album_at(albums.drop_last(), k)
    }
}

/// The album with the id.
pub open spec fn album_with(albums: Seq<AlbumSnap>, id: i64) -> Option<int>
    decreases albums.len(),
{
    if albums.len() == 0 {
        None
    } else if albums.last().id == id {
        Some(albums.len() - 1)
    } else {
        album_with(albums.drop_last(), id)
    }
}

proof fn lemma_album_at(albums: Seq<AlbumSnap>, k: Seq<char>)
    ensures
        album_at(albums, k) matches Some(i) ==> 0 <= i < albums.len() && albums[i].rel_dir_key@ == k,
        album_at(albums, k) is None ==> (forall|i: int|
            0 <= i < albums.len() ==> (#[trigger] albums[i]).rel_dir_key@ != k),
    decreases albums.len(),
{
    if albums.len() > 0 && albums.last().rel_dir_key@ != k {
        lemma_album_at(albums.drop_last(), k);
        assert forall|i: int| 0 <= i < albums.len() - 1 implies #[trigger] albums[i] == albums.drop_last()[i] by {}
    }
}

proof fn lemma_album_with(albums: Seq<AlbumSnap>, id: i64)
    ensures
        album_with(albums, id) matches Some(i) ==> 0 <= i < albums.len() && albums[i].id == id,
        album_with(albums, id) is None ==> (forall|i: int| 0 <= i < albums.len() ==> (#[trigger] albums[i]).id != id),
    decreases albums.len(),
{
    if albums.len() > 0 && albums.last().id != id {
        lemma_album_with(albums.drop_last(), id);
        assert forall|i: int| 0 <= i < albums.len() - 1 implies #[trigger] albums[i] == albums.drop_last()[i] by {}
    }
}

fn find_album_at(albums: &Vec<AlbumSnap>, k: &str) -> (r: Option<usize>)
    ensures
        match r {
            Some(i) => album_at(albums@, k@) == Some(i as int) && i < albums@.len(),
            None => album_at(albums@, k@) is None,
        },
{
    let mut j: usize = albums.len();
    proof {
        assert(albums@.take(j as int) =~= albums@);
    }
    while j > 0
        invariant
            j <= albums@.len(),
            album_at(albums@, k@) == album_at(albums@.take(j as int), k@),
        decreases j,
    {
        proof {
            assert(albums@.take(j as int).last() == albums@[j - 1]);
            assert(albums@.take(j as int).drop_last() =~= albums@.take(j - 1));
        }
        if same_text(albums[j - 1].rel_dir_key.as_str(), k) {
            return Some(j - 1);
        }
        j = j - 1;
    }
    None
}

fn find_album_with(albums: &Vec<AlbumSnap>, id: i64) -> (r: Option<usize>)
    ensures
        match r {
            Some(i) => album_with(albums@, id) == Some(i as int) && i < albums@.len(),
            None => album_with(albums@, id) is None,
        },
{
    let mut j: usize = albums.len();
    proof {
        assert(albums@.take(j as int) =~= albums@);
    }
    while j > 0
        invariant
            j <= albums@.len(),
            album_with(albums@, id) == album_with(albums@.take(j as int), id),
        decreases j,
    {
        proof {
            assert(albums@.take(j as int).last() == albums@[j - 1]);
            assert(albums@.take(j as int).drop_last() =~= albums@.take(j - 1));
        }
        if albums[j - 1].id == id {
            return Some(j - 1);
        }
        j = j - 1;
    }
    None
}

/// The album that most of the group `g` belonged to.
pub open spec fn group_majority(g: DirGroup) -> Option<i64> {
    majority_of(g.previous_albums@, g.track_ids@.len())
}

/// The album may leave its directory: nothing is found there any more, or most
/// of what is found there belonged to another album.
pub open spec fn available(groups: Seq<DirGroup>, a: AlbumSnap) -> bool {
    match group_index(groups, a.rel_dir_key@) {
        None => true,
        Some(i) => match group_majority(groups[i]) {
            Some(other) => other != a.id,
            None => false,
        },
    }
}

/// The album may be given to the directory `k`: no directory has it yet, and it
/// stands there or may leave where it stands.
pub open spec fn eligible(groups: Seq<DirGroup>, taken: Seq<i64>, k: Seq<char>, a: AlbumSnap) -> bool {
    !taken.contains(a.id) && (a.rel_dir_key@ == k || available(groups, a))
}

/// Two release ids are the same but for the case of their letters.
pub open spec fn same_release(a: Option<Seq<char>>, b: Option<Seq<char>>) -> bool {
    a is Some && b is Some && ascii_lower(a->0) == ascii_lower(b->0)
}

/// The eligible albums of the release `mb`, in order.
pub open spec fn release_matches(
    groups: Seq<DirGroup>,
    albums: Seq<AlbumSnap>,
    taken: Seq<i64>,
    k: Seq<char>,
    mb: Option<Seq<char>>,
) -> Seq<usize>
    decreases albums.len(),
{
    if albums.len() == 0 {
        Seq::empty()
    } else {
        let r = release_matches(groups, albums.drop_last(), taken, k, mb);
        let a = albums.last();
        if eligible(groups, taken, k, a) && same_release(mb, opt_text(a.mb_release_id)) {
            r.push((albums.len() - 1) as usize)
        } else {
            r
        }
    }
}

/// How the album `a` comes to the directory `k`.
pub open spec fn target_for(a: AlbumSnap, k: Seq<char>) -> AlbumTarget {
    if a.rel_dir_key@ == k {
        AlbumTarget::Existing(a.id)
    } else {
        AlbumTarget::Rename(a.id)
    }
}

/// The album for the directory of the group `g`: the one of its release if it
/// is the only one, else the one that most of its tracks belonged to, else the
/// one that stands there, else a new one.
pub open spec fn chosen(
    groups: Seq<DirGroup>,
    albums: Seq<AlbumSnap>,
    taken: Seq<i64>,
    g: DirGroup,
    mb: Option<Seq<char>>,
) -> AlbumTarget {
    let k = g.dir_key@;
    let m = release_matches(groups, albums, taken, k, mb);
    let by_majority = match group_majority(g) {
        Some(id) => album_with(albums, id),
        None => None,
    };
    let here = album_at(albums, k);
    if m.len() == 1 {
        target_for(albums[m[0] as int], k)
    } else if by_majority is Some && eligible(groups, taken, k, albums[by_majority->0]) {
        target_for(albums[by_majority->0], k)
    } else if here is Some && !taken.contains(albums[here->0].id) {
        AlbumTarget::Existing(albums[here->0].id)
    } else {
        AlbumTarget::New
    }
}

/// The album of a target, where it is one that exists.
pub open spec fn target_id(t: AlbumTarget) -> Option<i64> {
    match t {
        AlbumTarget::Existing(id) => Some(id),
        AlbumTarget::Rename(id) => Some(id),
        AlbumTarget::New => None,
    }
}

/// The albums of the first `n` directories in which nothing changed: they keep them.
pub open spec fn kept_albums(groups: Seq<DirGroup>, albums: Seq<AlbumSnap>, n: int) -> Seq<i64>
    decreases n,
{
    if n <= 0 {
        Seq::empty()
    } else {
        let r = kept_albums(groups, albums, n - 1);
        let here = album_at(albums, groups[n - 1].dir_key@);
        if !groups[n - 1].dirty && here is Some {
            r.push(albums[here->0].id)
        } else {
            r
        }
    }
}

/// An album has to be found for the group: it is in a directory, and something
/// changed there or no album stands there.
pub open spec fn is_placed(g: DirGroup, albums: Seq<AlbumSnap>) -> bool {
    g.dir is Some && (g.dirty || album_at(albums, g.dir_key@) is None)
}

/// The albums that are given away after the first `n` groups.
pub open spec fn taken_after(
    groups: Seq<DirGroup>,
    albums: Seq<AlbumSnap>,
    releases: Seq<Option<String>>,
    n: int,
) -> Seq<i64>
    decreases n,
{
    if n <= 0 {
        kept_albums(groups, albums, groups.len() as int)
    } else {
        let taken = taken_after(groups, albums, releases, n - 1);
        let g = groups[n - 1];
        if is_placed(g, albums) {
            with_id(taken, target_id(chosen(groups, albums, taken, g, opt_text(releases[n - 1]))))
        } else {
            taken
        }
    }
}

/// The album for the group `i`; none where none has to be found.
pub open spec fn placement(
    groups: Seq<DirGroup>,
    albums: Seq<AlbumSnap>,
    releases: Seq<Option<String>>,
    i: int,
) -> Option<AlbumTarget> {
    if is_placed(groups[i], albums) {
        Some(
            chosen(groups, albums, taken_after(groups, albums, releases, i), groups[i], opt_text(releases[i])),
        )
    } else {
        None
    }
}

fn is_available(groups: &Vec<DirGroup>, a: &AlbumSnap) -> (r: bool)
    requires
        groups_wf(groups@),
    ensures
        r == available(groups@, *a),
{
    match find_group(groups, &a.rel_dir_key) {
        None => true,
        Some(i) => {
            let g = &groups[i];
            proof {
                assert(groups@[i as int].previous_albums@.len() <= groups@[i as int].track_ids@.len());
            }
            match majority_album(&g.previous_albums, g.track_ids.len()) {
                Some(other) => other != a.id,
                None => false,
            }
        },
    }
}

fn is_eligible(groups: &Vec<DirGroup>, taken: &Vec<i64>, k: &str, a: &AlbumSnap) -> (r: bool)
    requires
        groups_wf(groups@),
    ensures
        r == eligible(groups@, taken@, k@, *a),
{
    !has_id(taken, a.id) && (same_text(a.rel_dir_key.as_str(), k) || is_available(groups, a))
}

fn is_same_release(a: &Option<String>, b: &Option<String>) -> (r: bool)
    ensures
        r == same_release(opt_text(*a), opt_text(*b)),
{
    match (a, b) {
        (Some(x), Some(y)) => {
            let p = lower_text(x);
            let q = lower_text(y);
            same_text(&p, &q)
        },
        _ => false,
    }
}

fn exec_target(a: &AlbumSnap, k: &str) -> (r: AlbumTarget)
    ensures
        r == target_for(*a, k@),
{
    if same_text(a.rel_dir_key.as_str(), k) {
        AlbumTarget::Existing(a.id)
    } else {
        AlbumTarget::Rename(a.id)
    }
}

proof fn lemma_release_matches(
    groups: Seq<DirGroup>,
    albums: Seq<AlbumSnap>,
    taken: Seq<i64>,
    k: Seq<char>,
    mb: Option<Seq<char>>,
)
    requires
        albums.len() <= usize::MAX,
    ensures
        forall|i: int|
            0 <= i < release_matches(groups, albums, taken, k, mb).len() ==> {
                let x = #[trigger] release_matches(groups, albums, taken, k, mb)[i];
                0 <= x < albums.len() && eligible(groups, taken, k, albums[x as int])
            },
    decreases albums.len(),
{
    if albums.len() > 0 {
        lemma_release_matches(groups, albums.drop_last(), taken, k, mb);
        let m = release_matches(groups, albums, taken, k, mb);
        let p = release_matches(groups, albums.drop_last(), taken, k, mb);
        assert forall|i: int| 0 <= i < m.len() implies {
            let x = #[trigger] m[i];
            0 <= x < albums.len() && eligible(groups, taken, k, albums[x as int])
        } by {
            if i < p.len() {
                assert(m[i] == p[i]);
                assert(albums.drop_last()[p[i] as int] == albums[p[i] as int]);
            }
        }
    }
}

/// The album for the directory of the group `i` (see [`chosen`]).
fn choose_album(
    groups: &Vec<DirGroup>,
    albums: &Vec<AlbumSnap>,
    taken: &Vec<i64>,
    i: usize,
    mb: &Option<String>,
) -> (r: AlbumTarget)
    requires
        groups_wf(groups@),
        i < groups@.len(),
    ensures
        r == chosen(groups@, albums@, taken@, groups@[i as int], opt_text(*mb)),
{
    let g = &groups[i];
    let k = &g.dir_key;
    let mut matches: Vec<usize> = Vec::new();
    let n: usize = albums.len();
    let mut j: usize = 0;
    while j < albums.len()
        invariant
            groups_wf(groups@),
            i < groups@.len(),
            *k == groups@[i as int].dir_key,
            j <= albums@.len(),
            matches@ == release_matches(groups@, albums@.take(j as int), taken@, k@, opt_text(*mb)),
        decreases albums@.len() - j,
    {
        proof {
            assert(albums@.take(j + 1).last() == albums@[j as int]);
            assert(albums@.take(j + 1).drop_last() =~= albums@.take(j as int));
        }
        let a = &albums[j];
        if is_eligible(groups, taken, k, a) && is_same_release(mb, &a.mb_release_id) {
            matches.push(j);
        }
        j = j + 1;
    }
    proof {
        assert(albums@.take(j as int) =~= albums@);
        lemma_release_matches(groups@, albums@, taken@, k@, opt_text(*mb));
        assert(groups@[i as int].previous_albums@.len() <= groups@[i as int].track_ids@.len());
        lemma_album_at(albums@, k@);
    }
    if matches.len() == 1 {
        let at: usize = matches[0];
        return exec_target(&albums[at], k);
    }
    if let Some(id) = majority_album(&g.previous_albums, g.track_ids.len()) {
        proof {
            lemma_album_with(albums@, id);
        }
        if let Some(at) = find_album_with(albums, id) {
            if is_eligible(groups, taken, k, &albums[at]) {
                return exec_target(&albums[at], k);
            }
        }
    }
    if let Some(at) = find_album_at(albums, k) {
        if !has_id(taken, albums[at].id) {
            return AlbumTarget::Existing(albums[at].id);
        }
    }
    AlbumTarget::New
}

/// The album for each directory that needs one, and the albums that are given
/// away in the end. `releases` holds the release of each group.
pub fn resolve_albums(groups: &Vec<DirGroup>, albums: &Vec<AlbumSnap>, releases: &Vec<Option<String>>) -> (r: (
    Vec<Option<AlbumTarget>>,
    Vec<i64>,
))
    requires
        groups_wf(groups@),
        releases@.len() == groups@.len(),
    ensures
        r.0@.len() == groups@.len(),
        forall|i: int| 0 <= i < groups@.len() ==> #[trigger] r.0@[i] == placement(groups@, albums@, releases@, i),
        r.1@ == taken_after(groups@, albums@, releases@, groups@.len() as int),
{
    let mut taken: Vec<i64> = Vec::new();
    let mut n: usize = 0;
    while n < groups.len()
        invariant
            n <= groups@.len(),
            taken@ == kept_albums(groups@, albums@, n as int),
        decreases groups@.len() - n,
    {
        if !groups[n].dirty {
            if let Some(at) = find_album_at(albums, &groups[n].dir_key) {
                taken.push(albums[at].id);
            }
        }
        n = n + 1;
    }
    let mut out: Vec<Option<AlbumTarget>> = Vec::new();
    let mut i: usize = 0;
    while i < groups.len()
        invariant
            groups_wf(groups@),
            releases@.len() == groups@.len(),
            i <= groups@.len(),
            out@.len() == i,
            taken@ == taken_after(groups@, albums@, releases@, i as int),
            forall|k: int| 0 <= k < i ==> #[trigger] out@[k] == placement(groups@, albums@, releases@, k),
        decreases groups@.len() - i,
    {
        let g = &groups[i];
        let here = find_album_at(albums, &g.dir_key);
        if g.dir.is_some() && (g.dirty || here.is_none()) {
            let t = choose_album(groups, albums, &taken, i, &releases[i]);
            match t {
                AlbumTarget::Existing(id) => taken.push(id),
                AlbumTarget::Rename(id) => taken.push(id),
                AlbumTarget::New => {},
            }
            out.push(Some(t));
        } else {
            out.push(None);
        }
        i = i + 1;
    }
    (out, taken)
}

/// No two albums share an id or a directory.
pub open spec fn albums_wf(albums: Seq<AlbumSnap>) -> bool {
    &&& albums.len() <= usize::MAX
    &&& forall|i: int, j: int|
        0 <= i < albums.len() && 0 <= j < albums.len() && i != j ==> (#[trigger] albums[i]).id != (
        #[trigger] albums[j]).id && albums[i].rel_dir_key@ != albums[j].rel_dir_key@
}

proof fn lemma_kept_origin(groups: Seq<DirGroup>, albums: Seq<AlbumSnap>, n: int, id: i64)
    requires
        albums_wf(albums),
        0 <= n <= groups.len(),
        kept_albums(groups, albums, n).contains(id),
    ensures
        exists|g: int|
            0 <= g < n && !(#[trigger] groups[g]).dirty && album_at(albums, groups[g].dir_key@) is Some
                && albums[album_at(albums, groups[g].dir_key@)->0].id == id,
    decreases n,
{
    if n > 0 {
        let r = kept_albums(groups, albums, n - 1);
        let all = kept_albums(groups, albums, n);
        let x = choose|x: int| 0 <= x < all.len() && all[x] == id;
        if x < r.len() {
            assert(r[x] == id);
            lemma_kept_origin(groups, albums, n - 1, id);
        } else {
            assert(!groups[n - 1].dirty);
        }
    }
}

proof fn lemma_kept_distinct(groups: Seq<DirGroup>, albums: Seq<AlbumSnap>, n: int)
    requires
        groups_wf(groups),
        albums_wf(albums),
        0 <= n <= groups.len(),
    ensures
        kept_albums(groups, albums, n).no_duplicates(),
    decreases n,
{
    if n > 0 {
        lemma_kept_distinct(groups, albums, n - 1);
        let r = kept_albums(groups, albums, n - 1);
        let here = album_at(albums, groups[n - 1].dir_key@);
        lemma_album_at(albums, groups[n - 1].dir_key@);
        if !groups[n - 1].dirty && here is Some {
            let id = albums[here->0].id;
            if r.contains(id) {
                lemma_kept_origin(groups, albums, n - 1, id);
                let g = choose|g: int|
                    0 <= g < n - 1 && !(#[trigger] groups[g]).dirty && album_at(albums, groups[g].dir_key@) is Some
                        && albums[album_at(albums, groups[g].dir_key@)->0].id == id;
                lemma_album_at(albums, groups[g].dir_key@);
                assert(album_at(albums, groups[g].dir_key@)->0 == here->0);
                lemma_group_keys_distinct(groups, g, n - 1);
            }
        }
    }
}

proof fn lemma_chosen_is_free(
    groups: Seq<DirGroup>,
    albums: Seq<AlbumSnap>,
    taken: Seq<i64>,
    g: DirGroup,
    mb: Option<Seq<char>>,
)
    requires
        albums.len() <= usize::MAX,
    ensures
        target_id(chosen(groups, albums, taken, g, mb)) matches Some(id) ==> !taken.contains(id),
{
    lemma_release_matches(groups, albums, taken, g.dir_key@, mb);
    let m = release_matches(groups, albums, taken, g.dir_key@, mb);
    if m.len() == 1 {
        assert(eligible(groups, taken, g.dir_key@, albums[m[0] as int]));
    }
}

/// No album is given to two directories.
pub proof fn law_album_given_once(
    groups: Seq<DirGroup>,
    albums: Seq<AlbumSnap>,
    releases: Seq<Option<String>>,
    n: int,
)
    requires
        groups_wf(groups),
        albums_wf(albums),
        releases.len() == groups.len(),
        0 <= n <= groups.len(),
    ensures
        taken_after(groups, albums, releases, n).no_duplicates(),
    decreases n,
{
    if n == 0 {
        lemma_kept_distinct(groups, albums, groups.len() as int);
    } else {
        law_album_given_once(groups, albums, releases, n - 1);
        let taken = taken_after(groups, albums, releases, n - 1);
        lemma_chosen_is_free(groups, albums, taken, groups[n - 1], opt_text(releases[n - 1]));
    }
}

/// An album leaves its directory only where nothing is found there any more, or
/// most of what is found there belonged to another album.
pub proof fn law_only_available_albums_move(
    groups: Seq<DirGroup>,
    albums: Seq<AlbumSnap>,
    taken: Seq<i64>,
    g: DirGroup,
    mb: Option<Seq<char>>,
)
    requires
        albums_wf(albums),
    ensures
        chosen(groups, albums, taken, g, mb) matches AlbumTarget::Rename(id) ==> exists|i: int|
            0 <= i < albums.len() && (#[trigger] albums[i]).id == id && available(groups, albums[i])
                && albums[i].rel_dir_key@ != g.dir_key@,
{
    lemma_release_matches(groups, albums, taken, g.dir_key@, mb);
    let m = release_matches(groups, albums, taken, g.dir_key@, mb);
    if m.len() == 1 {
        assert(eligible(groups, taken, g.dir_key@, albums[m[0] as int]));
        assert(albums[m[0] as int].id == target_id(target_for(albums[m[0] as int], g.dir_key@))->0);
    } else {
        match group_majority(g) {
            Some(id) => {
                lemma_album_with(albums, id);
            },
            None => {},
        }
    }
}

/// An album that takes another directory.
#[derive(Debug)]
pub struct AlbumMove {
    pub album_id: i64,
    pub rel_dir: String,
    pub key: String,
}

/// The views of album moves.
pub open spec fn album_move_views(v: Seq<AlbumMove>) -> Seq<(i64, Seq<char>, Seq<char>)> {
    v.map_values(|m: AlbumMove| (m.album_id, m.rel_dir@, m.key@))
}

/// The directory of an album that lost its own: no path of a file.
pub open spec fn displaced_text(id: i64) -> Seq<char> {
    "\0displaced:"@ + int_text(id as int)
}

/// The text of a directory, empty at the root.
pub open spec fn dir_text(dir: Option<String>) -> Seq<char> {
    match dir {
        Some(d) => d@,
        None => Seq::empty(),
    }
}

/// The albums that are given to another directory, among the first `n` groups.
pub open spec fn renamed_albums(groups: Seq<DirGroup>, plan: Seq<Option<AlbumTarget>>, n: int) -> Seq<
    (i64, Seq<char>, Seq<char>),
>
    decreases n,
{
    if n <= 0 {
        Seq::empty()
    } else {
        let r = renamed_albums(groups, plan, n - 1);
        match plan[n - 1] {
            Some(AlbumTarget::Rename(id)) => r.push((id, dir_text(groups[n - 1].dir), groups[n - 1].dir_key@)),
            _ => r,
        }
    }
}

/// The album that stands at the directory of the group `i`, which goes to
/// another album, while it is given to none itself.
pub open spec fn displaced_at(
    groups: Seq<DirGroup>,
    albums: Seq<AlbumSnap>,
    plan: Seq<Option<AlbumTarget>>,
    taken: Seq<i64>,
    i: int,
) -> Option<i64> {
    match (plan[i], album_at(albums, groups[i].dir_key@)) {
        (Some(t), Some(a)) => if t != AlbumTarget::Existing(albums[a].id) && !taken.contains(albums[a].id) {
            Some(albums[a].id)
        } else {
            None
        },
        _ => None,
    }
}

/// The albums that lose their directory, among the first `n` groups.
pub open spec fn displaced_albums(
    groups: Seq<DirGroup>,
    albums: Seq<AlbumSnap>,
    plan: Seq<Option<AlbumTarget>>,
    taken: Seq<i64>,
    n: int,
) -> Seq<(i64, Seq<char>, Seq<char>)>
    decreases n,
{
    if n <= 0 {
        Seq::empty()
    } else {
        let r = displaced_albums(groups, albums, plan, taken, n - 1);
        match displaced_at(groups, albums, plan, taken, n - 1) {
            Some(id) => r.push((id, displaced_text(id), displaced_text(id))),
            None => r,
        }
    }
}

/// The directories that albums take: those given to them, and for albums that
/// lost theirs a text that is no path.
pub fn album_moves(
    groups: &Vec<DirGroup>,
    albums: &Vec<AlbumSnap>,
    plan: &Vec<Option<AlbumTarget>>,
    taken: &Vec<i64>,
) -> (r: Vec<AlbumMove>)
    requires
        plan@.len() == groups@.len(),
    ensures
        album_move_views(r@) == renamed_albums(groups@, plan@, groups@.len() as int) + displaced_albums(
            groups@,
            albums@,
            plan@,
            taken@,
            groups@.len() as int,
        ),
{
    let mut out: Vec<AlbumMove> = Vec::new();
    let mut i: usize = 0;
    proof {
        assert(album_move_views(out@) =~= renamed_albums(groups@, plan@, 0));
    }
    while i < groups.len()
        invariant
            plan@.len() == groups@.len(),
            i <= groups@.len(),
            album_move_views(out@) == renamed_albums(groups@, plan@, i as int),
        decreases groups@.len() - i,
    {
        if let Some(AlbumTarget::Rename(id)) = plan[i] {
            let ghost before = album_move_views(out@);
            let rel_dir = match &groups[i].dir {
                Some(d) => d.clone(),
                None => String::new(),
            };
            out.push(AlbumMove { album_id: id, rel_dir, key: groups[i].dir_key.clone() });
            proof {
                assert(album_move_views(out@) =~= before.push(
                    (id, dir_text(groups@[i as int].dir), groups@[i as int].dir_key@),
                ));
            }
        }
        i = i + 1;
    }
    let ghost renamed = album_move_views(out@);
    let mut j: usize = 0;
    proof {
        assert(renamed + displaced_albums(groups@, albums@, plan@, taken@, 0) =~= renamed);
    }
    while j < groups.len()
        invariant
            plan@.len() == groups@.len(),
            j <= groups@.len(),
            album_move_views(out@) == renamed + displaced_albums(groups@, albums@, plan@, taken@, j as int),
        decreases groups@.len() - j,
    {
        proof {
            lemma_album_at(albums@, groups@[j as int].dir_key@);
        }
        if let Some(t) = plan[j] {
            if let Some(at) = find_album_at(albums, &groups[j].dir_key) {
                let id: i64 = albums[at].id;
                if t != AlbumTarget::Existing(id) && !has_id(taken, id) {
                    let ghost before = album_move_views(out@);
                    let n = int_to_text(id);
                    let text = concat2("\0displaced:", &n);
                    let key = text.clone();
                    out.push(AlbumMove { album_id: id, rel_dir: text, key });
                    proof {
                        assert(album_move_views(out@) =~= before.push(
                            (id, displaced_text(id), displaced_text(id)),
                        ));
                        assert(before.push((id, displaced_text(id), displaced_text(id))) =~= renamed
                            + displaced_albums(groups@, albums@, plan@, taken@, j as int).push(
                            (id, displaced_text(id), displaced_text(id)),
                        ));
                    }
                }
            }
        }
        j = j + 1;
    }
    out
}

/// The tracks that belong to no album: those of a changed group at the root.
pub open spec fn loose_tracks(groups: Seq<DirGroup>) -> Seq<i64>
    decreases groups.len(),
{
    if groups.len() == 0 {
        Seq::empty()
    } else {
        let g = groups.last();
        loose_tracks(groups.drop_last()) + if g.dir is None && g.dirty {
            g.track_ids@
        } else {
            Seq::empty()
        }
    }
}

/// The tracks that belong to no album: those of a changed group at the root.
pub fn tracks_without_album(groups: &Vec<DirGroup>) -> (r: Vec<i64>)
    ensures
        r@ == loose_tracks(groups@),
{
    let mut out: Vec<i64> = Vec::new();
    let mut i: usize = 0;
    while i < groups.len()
        invariant
            i <= groups@.len(),
            out@ == loose_tracks(groups@.take(i as int)),
        decreases groups@.len() - i,
    {
        proof {
            assert(groups@.take(i + 1).last() == groups@[i as int]);
            assert(groups@.take(i + 1).drop_last() =~= groups@.take(i as int));
        }
        let ghost before = out@;
        if groups[i].dir.is_none() && groups[i].dirty {
            crate::import::commit::extend_ids(&mut out, &groups[i].track_ids);
        } else {
            proof {
                assert(before + Seq::<i64>::empty() =~= before);
            }
        }
        i = i + 1;
    }
    proof {
        assert(groups@.take(i as int) =~= groups@);
    }
    out
}

// ---------------------------------------------------------------- what an album says

/// The value that the most tracks have under `key`, the first in order of several.
pub open spec fn mode_is(r: Option<Seq<char>>, values: Seq<(Seq<char>, Seq<char>)>, key: Seq<char>) -> bool {
    match r {
        Some(x) => is_mode(values_of(values, key), x),
        None => values_of(values, key).len() == 0,
    }
}

fn mode(values: &Vec<(String, String)>, key: &str) -> (r: Option<String>)
    ensures
        mode_is(opt_text(r), pair_views(values@), key@),
{
    let v = values_under(values, key);
    let r = mode_of(&v);
    proof {
        assert(texts(v@).len() == v@.len());
    }
    r
}

/// The values that stand under `key`, in order.
pub fn values_under(values: &Vec<(String, String)>, key: &str) -> (r: Vec<String>)
    ensures
        texts(r@) == values_of(pair_views(values@), key@),
{
    let mut out: Vec<String> = Vec::new();
    let mut i: usize = 0;
    let ghost p = pair_views(values@);
    proof {
        assert(texts(out@) =~= values_of(p.take(0), key@));
    }
    while i < values.len()
        invariant
            i <= values@.len(),
            p == pair_views(values@),
            texts(out@) == values_of(p.take(i as int), key@),
        decreases values@.len() - i,
    {
        let ghost before = texts(out@);
        proof {
            assert(p.take(i + 1).drop_last() =~= p.take(i as int));
            assert(p.take(i + 1).last() == (values@[i as int].0@, values@[i as int].1@));
        }
        if same_text(values[i].0.as_str(), key) {
            out.push(values[i].1.clone());
            proof {
                assert(texts(out@) =~= before.push(values@[i as int].1@));
            }
        }
        i = i + 1;
    }
    proof {
        assert(p.take(i as int) =~= p);
    }
    out
}

/// The first component of a path.
pub open spec fn top_of(dir: Seq<char>) -> Seq<char> {
    split_on(dir, '/')[0]
}

/// A path has more than one component.
pub open spec fn is_nested(dir: Seq<char>) -> bool {
    split_on(dir, '/').len() > 1
}

/// The first category with the key `k`.
pub open spec fn category_with(categories: Seq<(i64, String)>, k: Seq<char>) -> Option<i64>
    decreases categories.len(),
{
    if categories.len() == 0 {
        None
    } else if categories[0].1@ == k {
        Some(categories[0].0)
    } else {
        category_with(categories.drop_first(), k)
    }
}

/// The category that the genre with the key `k` stands for.
pub open spec fn genre_with(map: Seq<(String, i64)>, k: Seq<char>) -> Option<i64>
    decreases map.len(),
{
    if map.len() == 0 {
        None
    } else if map[0].0@ == k {
        Some(map[0].1)
    } else {
        genre_with(map.drop_first(), k)
    }
}

/// The category of the first genre that stands for one.
pub open spec fn genre_category(genres: Seq<Seq<char>>, map: Seq<(String, i64)>) -> Option<i64>
    decreases genres.len(),
{
    if genres.len() == 0 {
        None
    } else {
        match genre_with(map, canonical(genres[0])) {
            Some(id) => Some(id),
            None => genre_category(genres.drop_first(), map),
        }
    }
}

/// The category of an album: the one that the first component of its directory
/// names, else the one of the first genre that stands for one.
pub open spec fn inferred_category(
    dir: Seq<char>,
    values: Seq<(Seq<char>, Seq<char>)>,
    categories: Seq<(i64, String)>,
    map: Seq<(String, i64)>,
) -> Option<i64> {
    match category_with(categories, canonical(top_of(dir))) {
        Some(id) => Some(id),
        None => genre_category(values_of(values, "GENRE"@), map),
    }
}

/// The first category with the key `k`.
pub fn find_category(categories: &Vec<(i64, String)>, k: &str) -> (r: Option<i64>)
    ensures
        r == category_with(categories@, k@),
{
    let mut i: usize = 0;
    proof {
        assert(categories@.skip(0) =~= categories@);
    }
    while i < categories.len()
        invariant
            i <= categories@.len(),
            category_with(categories@, k@) == category_with(categories@.skip(i as int), k@),
        decreases categories@.len() - i,
    {
        proof {
            assert(categories@.skip(i as int)[0] == categories@[i as int]);
            assert(categories@.skip(i as int).drop_first() =~= categories@.skip(i + 1));
        }
        if same_text(categories[i].1.as_str(), k) {
            return Some(categories[i].0);
        }
        i = i + 1;
    }
    None
}

fn find_genre(map: &Vec<(String, i64)>, k: &str) -> (r: Option<i64>)
    ensures
        r == genre_with(map@, k@),
{
    let mut i: usize = 0;
    proof {
        assert(map@.skip(0) =~= map@);
    }
    while i < map.len()
        invariant
            i <= map@.len(),
            genre_with(map@, k@) == genre_with(map@.skip(i as int), k@),
        decreases map@.len() - i,
    {
        proof {
            assert(map@.skip(i as int)[0] == map@[i as int]);
            assert(map@.skip(i as int).drop_first() =~= map@.skip(i + 1));
        }
        if same_text(map[i].0.as_str(), k) {
            return Some(map[i].1);
        }
        i = i + 1;
    }
    None
}

/// The first component of a path.
pub fn first_component(dir: &str) -> (r: String)
    ensures
        r@ == top_of(dir@),
{
    let parts = split(dir, '/');
    proof {
        assert(texts(parts@)[0] == parts@[0]@);
    }
    parts[0].clone()
}

/// The category of an album in `dir` (see [`inferred_category`]).
pub fn infer_category(
    dir: &str,
    values: &Vec<(String, String)>,
    categories: &Vec<(i64, String)>,
    genre_map: &Vec<(String, i64)>,
) -> (r: Option<i64>)
    ensures
        r == inferred_category(dir@, pair_views(values@), categories@, genre_map@),
{
    let top = first_component(dir);
    let key = canonical_key(&top);
    if let Some(id) = find_category(categories, &key) {
        return Some(id);
    }
    let genres = values_under(values, "GENRE");
    let ghost g = texts(genres@);
    let mut i: usize = 0;
    proof {
        assert(g.skip(0) =~= g);
    }
    while i < genres.len()
        invariant
            i <= genres@.len(),
            g == texts(genres@),
            g == values_of(pair_views(values@), "GENRE"@),
            category_with(categories@, canonical(top_of(dir@))) is None,
            genre_category(g, genre_map@) == genre_category(g.skip(i as int), genre_map@),
        decreases genres@.len() - i,
    {
        proof {
            assert(g.skip(i as int)[0] == genres@[i as int]@);
            assert(g.skip(i as int).drop_first() =~= g.skip(i + 1));
        }
        let k = canonical_key(&genres[i]);
        if let Some(id) = find_genre(genre_map, &k) {
            return Some(id);
        }
        i = i + 1;
    }
    None
}

/// What the tags of its tracks say of an album in `dir`: for each column the
/// value that the most tracks have. `values` holds the first value of each key
/// of each track.
pub fn album_meta(
    dir: &str,
    values: &Vec<(String, String)>,
    categories: &Vec<(i64, String)>,
    genre_map: &Vec<(String, i64)>,
) -> (r: AlbumMeta)
    ensures
        r.category_id == inferred_category(dir@, pair_views(values@), categories@, genre_map@),
        values_of(pair_views(values@), "ALBUMARTIST"@).len() > 0 ==> mode_is(
            opt_text(r.albumartist),
            pair_views(values@),
            "ALBUMARTIST"@,
        ),
        values_of(pair_views(values@), "ALBUMARTIST"@).len() == 0 ==> mode_is(
            opt_text(r.albumartist),
            pair_views(values@),
            "ARTIST"@,
        ),
        mode_is(opt_text(r.album), pair_views(values@), "ALBUM"@),
        mode_is(opt_text(r.date), pair_views(values@), "DATE"@),
        mode_is(opt_text(r.original_date), pair_views(values@), "ORIGINALDATE"@),
        mode_is(opt_text(r.mb_release_id), pair_views(values@), "MUSICBRAINZ_ALBUMID"@),
        exists|total: Option<Seq<char>>| #[trigger]
            mode_is(total, pair_views(values@), "DISCTOTAL"@) && r.disc_count == number_of(total),
{
    let albumartist = match mode(values, "ALBUMARTIST") {
        Some(a) => Some(a),
        None => mode(values, "ARTIST"),
    };
    let category_id = infer_category(dir, values, categories, genre_map);
    let total = mode(values, "DISCTOTAL");
    let disc_count = match &total {
        Some(t) => leading_int(t),
        None => None,
    };
    proof {
        let p = pair_views(values@);
        assert(mode_is(opt_text(total), p, "DISCTOTAL"@));
    }
    AlbumMeta {
        category_id,
        albumartist,
        album: mode(values, "ALBUM"),
        date: mode(values, "DATE"),
        original_date: mode(values, "ORIGINALDATE"),
        mb_release_id: mode(values, "MUSICBRAINZ_ALBUMID"),
        disc_count,
    }
}

// ---------------------------------------------------------------- categories

/// The first components of the directories that hold tracks one level or more
/// below them.
pub open spec fn tops_of(groups: Seq<DirGroup>) -> Seq<Seq<char>>
    decreases groups.len(),
{
    if groups.len() == 0 {
        Seq::empty()
    } else {
        let r = tops_of(groups.drop_last());
        let g = groups.last();
        if g.track_ids@.len() > 0 && g.dir is Some && is_nested(g.dir->0@) {
            r.push(top_of(g.dir->0@))
        } else {
            r
        }
    }
}

/// The names of `tops` whose key is none of `known` nor that of an earlier one.
pub open spec fn fresh_names(tops: Seq<Seq<char>>, known: Seq<Seq<char>>) -> Seq<Seq<char>>
    decreases tops.len(),
{
    if tops.len() == 0 {
        Seq::empty()
    } else {
        let r = fresh_names(tops.drop_last(), known);
        let k = canonical(tops.last());
        if known.contains(k) || r.map_values(|n: Seq<char>| canonical(n)).contains(k) {
            r
        } else {
            r.push(tops.last())
        }
    }
}

/// The keys of the categories.
pub open spec fn category_keys(categories: Seq<(i64, String)>) -> Seq<Seq<char>> {
    categories.map_values(|c: (i64, String)| c.1@)
}

/// The first components of the directories that become categories, in order:
/// those that hold albums, that are not set apart, and that are no category yet.
pub fn new_categories(groups: &Vec<DirGroup>, categories: &Vec<(i64, String)>, skip: &Vec<String>) -> (r: Vec<String>)
    ensures
        exists|tops: Seq<Seq<char>>|
            ordered_set_of(tops, tops_of(groups@)) && texts(r@) == #[trigger] fresh_names(
                tops,
                category_keys(categories@) + texts(skip@),
            ),
{
    let mut tops: Vec<String> = Vec::new();
    let mut i: usize = 0;
    proof {
        assert(texts(tops@) =~= tops_of(groups@.take(0)));
    }
    while i < groups.len()
        invariant
            i <= groups@.len(),
            texts(tops@) == tops_of(groups@.take(i as int)),
        decreases groups@.len() - i,
    {
        proof {
            assert(groups@.take(i + 1).last() == groups@[i as int]);
            assert(groups@.take(i + 1).drop_last() =~= groups@.take(i as int));
        }
        let g = &groups[i];
        let ghost before = texts(tops@);
        if g.track_ids.len() > 0 {
            if let Some(d) = &g.dir {
                let parts = split(d, '/');
                proof {
                    assert(texts(parts@).len() == parts@.len());
                    assert(texts(parts@)[0] == parts@[0]@);
                }
                if parts.len() > 1 {
                    tops.push(parts[0].clone());
                    proof {
                        assert(texts(tops@) =~= before.push(top_of(d@)));
                    }
                }
            }
        }
        i = i + 1;
    }
    proof {
        assert(groups@.take(i as int) =~= groups@);
    }
    let ordered = sorted_texts(&tops);
    let mut known: Vec<String> = Vec::new();
    let mut c: usize = 0;
    proof {
        assert(texts(known@) =~= category_keys(categories@).take(0));
    }
    while c < categories.len()
        invariant
            c <= categories@.len(),
            texts(known@) == category_keys(categories@).take(c as int),
        decreases categories@.len() - c,
    {
        let ghost before = texts(known@);
        known.push(categories[c].1.clone());
        proof {
            assert(texts(known@) =~= before.push(categories@[c as int].1@));
            assert(category_keys(categories@).take(c + 1) =~= category_keys(categories@).take(c as int).push(
                categories@[c as int].1@,
            ));
        }
        c = c + 1;
    }
    let ghost t = texts(ordered@);
    let ghost ck = category_keys(categories@);
    let ghost sk = texts(skip@);
    proof {
        assert(ck.take(c as int) =~= ck);
    }
    let mut out: Vec<String> = Vec::new();
    let mut chosen_keys: Vec<String> = Vec::new();
    let mut j: usize = 0;
    proof {
        assert(texts(out@) =~= fresh_names(t.take(0), ck + sk));
        assert(texts(chosen_keys@) =~= texts(out@).map_values(|n: Seq<char>| canonical(n)));
    }
    while j < ordered.len()
        invariant
            j <= ordered@.len(),
            t == texts(ordered@),
            ck == texts(known@),
            sk == texts(skip@),
            texts(out@) == fresh_names(t.take(j as int), ck + sk),
            texts(chosen_keys@) == texts(out@).map_values(|n: Seq<char>| canonical(n)),
        decreases ordered@.len() - j,
    {
        proof {
            assert(t.take(j + 1).last() == ordered@[j as int]@);
            assert(t.take(j + 1).drop_last() =~= t.take(j as int));
        }
        let key = canonical_key(&ordered[j]);
        let ghost k = key@;
        let ghost before = texts(out@);
        let ghost keys_before = texts(chosen_keys@);
        proof {
            assert((ck + sk).contains(k) <==> ck.contains(k) || sk.contains(k)) by {
                if ck.contains(k) {
                    let x = choose|x: int| 0 <= x < ck.len() && ck[x] == k;
                    assert((ck + sk)[x] == k);
                }
                if sk.contains(k) {
                    let x = choose|x: int| 0 <= x < sk.len() && sk[x] == k;
                    assert((ck + sk)[ck.len() + x] == k);
                }
                if (ck + sk).contains(k) {
                    let x = choose|x: int| 0 <= x < (ck + sk).len() && (ck + sk)[x] == k;
                    if x < ck.len() {
                        assert(ck[x] == k);
                    } else {
                        assert(sk[x - ck.len()] == k);
                    }
                }
            }
        }
        if !has_member(skip, &key) && !has_member(&known, &key) && !has_member(&chosen_keys, &key) {
            out.push(ordered[j].clone());
            chosen_keys.push(key);
            proof {
                assert(texts(out@) =~= before.push(t[j as int]));
                assert(texts(chosen_keys@) =~= keys_before.push(k));
                assert(texts(chosen_keys@) =~= texts(out@).map_values(|n: Seq<char>| canonical(n)));
            }
        }
        j = j + 1;
    }
    proof {
        assert(t.take(j as int) =~= t);
    }
    out
}

/// The category that an album without one gets: that of the first component of
/// its directory, unless the album stands right in it or it is set apart.
pub open spec fn category_for(dir: Seq<char>, categories: Seq<(i64, String)>, skip: Seq<Seq<char>>) -> Option<i64> {
    if is_nested(dir) && !skip.contains(canonical(top_of(dir))) {
        category_with(categories, canonical(top_of(dir)))
    } else {
        None
    }
}

/// The albums among the first `n` that get a category, with the category.
pub open spec fn filled_categories(
    albums: Seq<(i64, String)>,
    categories: Seq<(i64, String)>,
    skip: Seq<Seq<char>>,
    n: int,
) -> Seq<(i64, i64)>
    decreases n,
{
    if n <= 0 {
        Seq::empty()
    } else {
        let r = filled_categories(albums, categories, skip, n - 1);
        match category_for(albums[n - 1].1@, categories, skip) {
            Some(c) => r.push((albums[n - 1].0, c)),
            None => r,
        }
    }
}

/// The categories for albums that have none (id and directory of each), taken
/// from the first components of their directories.
pub fn fill_album_categories(
    albums: &Vec<(i64, String)>,
    categories: &Vec<(i64, String)>,
    skip: &Vec<String>,
) -> (r: Vec<(i64, i64)>)
    ensures
        r@ == filled_categories(albums@, categories@, texts(skip@), albums@.len() as int),
{
    let mut out: Vec<(i64, i64)> = Vec::new();
    let mut i: usize = 0;
    while i < albums.len()
        invariant
            i <= albums@.len(),
            out@ == filled_categories(albums@, categories@, texts(skip@), i as int),
        decreases albums@.len() - i,
    {
        let parts = split(&albums[i].1, '/');
        proof {
            assert(texts(parts@).len() == parts@.len());
            assert(texts(parts@)[0] == parts@[0]@);
        }
        if parts.len() > 1 {
            let key = canonical_key(&parts[0]);
            if !has_member(skip, &key) {
                if let Some(c) = find_category(categories, &key) {
                    out.push((albums[i].0, c));
                }
            }
        }
        i = i + 1;
    }
    out
}

// ---------------------------------------------------------------- laws

/// Most of the files of a directory came from one album where more than half of them did; no other one has
/// the majority then.
pub proof fn law_majority_is_more_than_half(previous: Seq<i64>, size: nat, id: i64)
    requires
        previous.len() <= size,
    ensures
        majority_of(previous, size) == Some(id) <==> 2 * count_of(previous, id) > size,
        majority_of(previous, size) is None <==> (forall|x: i64| 2 * #[trigger] count_of(previous, x) <= size),
{
    if exists|x: i64| has_majority(previous, size, x) {
        let m = majority_of(previous, size)->0;
        assert(has_majority(previous, size, m));
        assert(2 * count_of(previous, m) > size);
        if has_majority(previous, size, id) {
            lemma_majority_unique(previous, size, m, id);
        }
    } else {
        assert(!has_majority(previous, size, id));
        assert forall|x: i64| 2 * #[trigger] count_of(previous, x) <= size by {
            assert(!has_majority(previous, size, x));
        }
    }
}

/// An album is free for a directory where it was not given away and stands in that directory, or where
/// nothing is found in its own; it is not where it was given away, or where the files in its own directory
/// are still its own for the most part, or nobody's.
pub proof fn law_free_albums(groups: Seq<DirGroup>, taken: Seq<i64>, k: Seq<char>, a: AlbumSnap, g: int)
    requires
        groups_wf(groups),
    ensures
        taken.contains(a.id) ==> !eligible(groups, taken, k, a),
        !taken.contains(a.id) && a.rel_dir_key@ == k ==> eligible(groups, taken, k, a),
        !taken.contains(a.id) && (forall|j: int| 0 <= j < groups.len() ==> (#[trigger] groups[j]).dir_key@
            != a.rel_dir_key@) ==> eligible(groups, taken, k, a),
        0 <= g < groups.len() && groups[g].dir_key@ == a.rel_dir_key@ && a.rel_dir_key@ != k && !taken.contains(a.id)
            ==> (eligible(groups, taken, k, a) <==> (exists|x: i64|
            x != a.id && 2 * #[trigger] count_of(groups[g].previous_albums@, x) > groups[g].track_ids@.len())),
{
    lemma_group_index(groups, a.rel_dir_key@);
    if 0 <= g < groups.len() && groups[g].dir_key@ == a.rel_dir_key@ {
        let i = group_index(groups, a.rel_dir_key@)->0;
        if i != g {
            lemma_group_keys_distinct(groups, i, g);
        }
        let p = groups[g].previous_albums@;
        let n = groups[g].track_ids@.len();
        law_majority_is_more_than_half(p, n, a.id);
        if group_majority(groups[g]) is Some {
            let m = group_majority(groups[g])->0;
            law_majority_is_more_than_half(p, n, m);
            if exists|x: i64| x != a.id && 2 * #[trigger] count_of(p, x) > n {
                let x = choose|x: i64| x != a.id && 2 * #[trigger] count_of(p, x) > n;
                law_majority_is_more_than_half(p, n, x);
            }
        }
    }
}

proof fn lemma_one_release(
    groups: Seq<DirGroup>,
    albums: Seq<AlbumSnap>,
    taken: Seq<i64>,
    k: Seq<char>,
    mb: Option<Seq<char>>,
    only: Option<int>,
)
    requires
        albums.len() <= usize::MAX,
        forall|i: int|
            0 <= i < albums.len() ==> ((eligible(groups, taken, k, #[trigger] albums[i]) && same_release(
                mb,
                opt_text(albums[i].mb_release_id),
            )) <==> only == Some(i)),
    ensures
        match only {
            Some(i) => 0 <= i < albums.len() ==> release_matches(groups, albums, taken, k, mb) == seq![i as usize],
            None => release_matches(groups, albums, taken, k, mb).len() == 0,
        },
        only matches Some(i) && !(0 <= i < albums.len()) ==> release_matches(groups, albums, taken, k, mb).len() == 0,
    decreases albums.len(),
{
    if albums.len() > 0 {
        let d = albums.drop_last();
        assert forall|i: int| 0 <= i < d.len() implies ((eligible(groups, taken, k, #[trigger] d[i]) && same_release(
            mb,
            opt_text(d[i].mb_release_id),
        )) <==> only == Some(i)) by {
            assert(d[i] == albums[i]);
        }
        lemma_one_release(groups, d, taken, k, mb, only);
        assert(albums.last() == albums[albums.len() - 1]);
        if only == Some(albums.len() - 1) {
            assert(release_matches(groups, albums, taken, k, mb) =~= seq![(albums.len() - 1) as usize]);
        }
    }
}

/// Where one free album has the release that the files of a directory name, in whatever case of letters,
/// they belong to it: it stays where it stands in the directory already, and moves there else.
pub proof fn law_release_decides(
    groups: Seq<DirGroup>,
    albums: Seq<AlbumSnap>,
    taken: Seq<i64>,
    g: DirGroup,
    mb: Seq<char>,
    a: int,
)
    requires
        albums_wf(albums),
        0 <= a < albums.len(),
        forall|i: int|
            0 <= i < albums.len() ==> ((eligible(groups, taken, g.dir_key@, #[trigger] albums[i])
                && albums[i].mb_release_id is Some && ascii_lower(albums[i].mb_release_id->0@) == ascii_lower(mb)) <==> i
                == a),
    ensures
        albums[a].rel_dir_key@ == g.dir_key@ ==> chosen(groups, albums, taken, g, Some(mb)) == AlbumTarget::Existing(
            albums[a].id,
        ),
        albums[a].rel_dir_key@ != g.dir_key@ ==> chosen(groups, albums, taken, g, Some(mb)) == AlbumTarget::Rename(
            albums[a].id,
        ),
{
    lemma_one_release(groups, albums, taken, g.dir_key@, Some(mb), Some(a));
}

/// Where the files of a directory name no release, most of them decide: they take the album along that more
/// than half of them came from, where it is free.
pub proof fn law_majority_decides(
    groups: Seq<DirGroup>,
    albums: Seq<AlbumSnap>,
    taken: Seq<i64>,
    g: DirGroup,
    a: int,
)
    requires
        albums_wf(albums),
        0 <= a < albums.len(),
        g.previous_albums@.len() <= g.track_ids@.len(),
        2 * count_of(g.previous_albums@, albums[a].id) > g.track_ids@.len(),
        eligible(groups, taken, g.dir_key@, albums[a]),
    ensures
        albums[a].rel_dir_key@ == g.dir_key@ ==> chosen(groups, albums, taken, g, None) == AlbumTarget::Existing(
            albums[a].id,
        ),
        albums[a].rel_dir_key@ != g.dir_key@ ==> chosen(groups, albums, taken, g, None) == AlbumTarget::Rename(
            albums[a].id,
        ),
{
    law_majority_is_more_than_half(g.previous_albums@, g.track_ids@.len(), albums[a].id);
    lemma_album_with(albums, albums[a].id);
    lemma_one_release(groups, albums, taken, g.dir_key@, None, None);
}

/// Where neither a release nor a majority decides, a directory keeps the album that stands in it; where
/// none does, or it was given away, it gets a new one.
pub proof fn law_directory_decides_last(
    groups: Seq<DirGroup>,
    albums: Seq<AlbumSnap>,
    taken: Seq<i64>,
    g: DirGroup,
    a: int,
)
    requires
        albums_wf(albums),
        0 <= a < albums.len(),
        g.previous_albums@.len() <= g.track_ids@.len(),
        forall|x: i64| 2 * #[trigger] count_of(g.previous_albums@, x) <= g.track_ids@.len(),
    ensures
        albums[a].rel_dir_key@ == g.dir_key@ && !taken.contains(albums[a].id) ==> chosen(
            groups,
            albums,
            taken,
            g,
            None,
        ) == AlbumTarget::Existing(albums[a].id),
        albums[a].rel_dir_key@ == g.dir_key@ && taken.contains(albums[a].id) ==> chosen(
            groups,
            albums,
            taken,
            g,
            None,
        ) == AlbumTarget::New,
        (forall|i: int| 0 <= i < albums.len() ==> (#[trigger] albums[i]).rel_dir_key@ != g.dir_key@) ==> chosen(
            groups,
            albums,
            taken,
            g,
            None,
        ) == AlbumTarget::New,
{
    law_majority_is_more_than_half(g.previous_albums@, g.track_ids@.len(), 0);
    lemma_album_at(albums, g.dir_key@);
    lemma_one_release(groups, albums, taken, g.dir_key@, None, None);
}

/// Files that stand in no directory get no album, and a directory in which nothing changed keeps the one it
/// has: only the others are given one.
pub proof fn law_settled_directories_are_left(g: DirGroup, albums: Seq<AlbumSnap>, a: int)
    ensures
        g.dir is None ==> !is_placed(g, albums),
        g.dir is Some && g.dirty ==> is_placed(g, albums),
        0 <= a < albums.len() && albums[a].rel_dir_key@ == g.dir_key@ && !g.dirty ==> !is_placed(g, albums),
        g.dir is Some && (forall|i: int| 0 <= i < albums.len() ==> (#[trigger] albums[i]).rel_dir_key@ != g.dir_key@)
            ==> is_placed(g, albums),
{
    lemma_album_at(albums, g.dir_key@);
}

/// The category of a release is that of the directory at the top of its path, wherever there is one of that
/// name; the genres are asked only where there is none.
pub proof fn law_category_of_the_top_directory(
    top: Seq<char>,
    rest: Seq<char>,
    values: Seq<(Seq<char>, Seq<char>)>,
    categories: Seq<(i64, String)>,
    map: Seq<(String, i64)>,
    c: int,
)
    requires
        !top.contains('/'),
    ensures
        0 <= c < categories.len() && categories[c].1@ == canonical(top) && (forall|j: int|
            0 <= j < c ==> (#[trigger] categories[j]).1@ != canonical(top)) ==> inferred_category(
            top + seq!['/'] + rest,
            values,
            categories,
            map,
        ) == Some(categories[c].0),
        (forall|j: int| 0 <= j < categories.len() ==> (#[trigger] categories[j]).1@ != canonical(top))
            ==> inferred_category(top + seq!['/'] + rest, values, categories, map) == genre_category(
            values_of(values, "GENRE"@),
            map,
        ),
{
    law_split_at_the_first_separator(top, rest, '/');
    law_split_is_undone_by_join(rest, '/');
    lemma_category_with(categories, canonical(top), c);
}

proof fn lemma_category_with(categories: Seq<(i64, String)>, k: Seq<char>, c: int)
    ensures
        0 <= c < categories.len() && categories[c].1@ == k && (forall|j: int|
            0 <= j < c ==> (#[trigger] categories[j]).1@ != k) ==> category_with(categories, k) == Some(categories[c].0),
        (forall|j: int| 0 <= j < categories.len() ==> (#[trigger] categories[j]).1@ != k) ==> category_with(
            categories,
            k,
        ) is None,
    decreases categories.len(),
{
    if categories.len() > 0 {
        let d = categories.drop_first();
        lemma_category_with(d, k, c - 1);
        assert forall|j: int| 0 <= j < d.len() implies #[trigger] d[j] == categories[j + 1] by {}
    }
}

proof fn lemma_genre_with(map: Seq<(String, i64)>, k: Seq<char>, c: int)
    ensures
        0 <= c < map.len() && map[c].0@ == k && (forall|j: int| 0 <= j < c ==> (#[trigger] map[j]).0@ != k)
            ==> genre_with(map, k) == Some(map[c].1),
        (forall|j: int| 0 <= j < map.len() ==> (#[trigger] map[j]).0@ != k) ==> genre_with(map, k) is None,
    decreases map.len(),
{
    if map.len() > 0 {
        let d = map.drop_first();
        lemma_genre_with(d, k, c - 1);
        assert forall|j: int| 0 <= j < d.len() implies #[trigger] d[j] == map[j + 1] by {}
    }
}

/// Of the genres of a release the first one that stands for a category decides.
pub proof fn law_first_known_genre_decides(genres: Seq<Seq<char>>, map: Seq<(String, i64)>, g: int, c: int)
    requires
        0 <= g < genres.len(),
        0 <= c < map.len(),
        map[c].0@ == canonical(genres[g]),
        forall|j: int| 0 <= j < c ==> (#[trigger] map[j]).0@ != map[c].0@,
        forall|h: int, j: int|
            0 <= h < g && 0 <= j < map.len() ==> (#[trigger] map[j]).0@ != canonical(#[trigger] genres[h]),
    ensures
        genre_category(genres, map) == Some(map[c].1),
    decreases genres.len(),
{
    if g == 0 {
        lemma_genre_with(map, canonical(genres[0]), c);
    } else {
        lemma_genre_with(map, canonical(genres[0]), 0);
        let d = genres.drop_first();
        assert forall|h: int, j: int| 0 <= h < g - 1 && 0 <= j < map.len() implies (#[trigger] map[j]).0@ != canonical(
            #[trigger] d[h],
        ) by {
            assert(d[h] == genres[h + 1]);
        }
        law_first_known_genre_decides(d, map, g - 1, c);
    }
}

/// An album gets the category of the directory at the top of its path; one that stands at the top itself, or
/// below a directory that holds what is not sorted yet, gets none.
pub proof fn law_category_needs_a_directory(
    top: Seq<char>,
    rest: Seq<char>,
    categories: Seq<(i64, String)>,
    skip: Seq<Seq<char>>,
    c: int,
)
    requires
        !top.contains('/'),
    ensures
        category_for(top, categories, skip) is None,
        skip.contains(canonical(top)) ==> category_for(top + seq!['/'] + rest, categories, skip) is None,
        !skip.contains(canonical(top)) && 0 <= c < categories.len() && categories[c].1@ == canonical(top) && (forall|
            j: int,
        | 0 <= j < c ==> (#[trigger] categories[j]).1@ != canonical(top)) ==> category_for(
            top + seq!['/'] + rest,
            categories,
            skip,
        ) == Some(categories[c].0),
{
    law_unsplit_text(top, '/');
    law_split_at_the_first_separator(top, rest, '/');
    law_split_is_undone_by_join(rest, '/');
    lemma_category_with(categories, canonical(top), c);
}

/// A directory at the top becomes a category once, and only where there is none of its name yet.
pub proof fn law_new_categories_are_new(tops: Seq<Seq<char>>, known: Seq<Seq<char>>, t: int, i: int, j: int)
    ensures
        0 <= i < fresh_names(tops, known).len() ==> tops.contains(fresh_names(tops, known)[i]) && !known.contains(
            canonical(fresh_names(tops, known)[i]),
        ),
        0 <= i < j < fresh_names(tops, known).len() ==> canonical(fresh_names(tops, known)[i]) != canonical(
            fresh_names(tops, known)[j],
        ),
        0 <= t < tops.len() && !known.contains(canonical(tops[t])) ==> exists|x: int|
            0 <= x < fresh_names(tops, known).len() && canonical(#[trigger] fresh_names(tops, known)[x]) == canonical(
                tops[t],
            ),
    decreases tops.len(),
{
    if tops.len() > 0 {
        let d = tops.drop_last();
        let r = fresh_names(d, known);
        let f = fresh_names(tops, known);
        let k = canonical(tops.last());
        let keys = r.map_values(|n: Seq<char>| canonical(n));
        law_new_categories_are_new(d, known, t, i, j);
        law_new_categories_are_new(d, known, t, i, r.len() as int);
        assert(tops.last() == tops[tops.len() - 1]);
        if 0 <= i < r.len() {
            let x = choose|x: int| 0 <= x < d.len() && d[x] == r[i];
            assert(tops[x] == r[i]);
            assert(keys[i] == canonical(r[i]));
        }
        if 0 <= t < tops.len() && !known.contains(canonical(tops[t])) {
            if t < d.len() {
                assert(d[t] == tops[t]);
                let x = choose|x: int| 0 <= x < r.len() && canonical(#[trigger] r[x]) == canonical(tops[t]);
                assert(f[x] == r[x]);
            } else if keys.contains(k) {
                let x = choose|x: int| 0 <= x < keys.len() && keys[x] == k;
                assert(f[x] == r[x]);
                assert(canonical(f[x]) == k);
            } else {
                assert(f[f.len() - 1] == tops.last());
            }
        }
    }
}

/// The moves of albums name the album, its new directory and the key of that.
pub proof fn law_album_moves(v: Seq<AlbumMove>, i: int)
    ensures
        album_move_views(v).len() == v.len(),
        0 <= i < v.len() ==> album_move_views(v)[i] == (v[i].album_id, v[i].rel_dir@, v[i].key@),
{
}

/// An album that a directory takes along moves to that directory; one that has to give way is set aside under a name
/// of its own, which no directory can have.
pub proof fn law_albums_that_move(
    groups: Seq<DirGroup>,
    albums: Seq<AlbumSnap>,
    plan: Seq<Option<AlbumTarget>>,
    taken: Seq<i64>,
    n: int,
    i: int,
    id: i64,
)
    requires
        0 <= i < n,
    ensures
        plan[i] == Some(AlbumTarget::Rename(id)) && groups[i].dir is Some ==> renamed_albums(groups, plan, n).contains(
            (id, groups[i].dir->0@, groups[i].dir_key@),
        ),
        displaced_at(groups, albums, plan, taken, i) == Some(id) ==> displaced_albums(
            groups,
            albums,
            plan,
            taken,
            n,
        ).contains((id, displaced_text(id), displaced_text(id))),
        displaced_text(id) == "\0displaced:"@ + int_text(id as int),
    decreases n,
{
    let r = renamed_albums(groups, plan, n - 1);
    let d = displaced_albums(groups, albums, plan, taken, n - 1);
    let m = (id, groups[i].dir->0@, groups[i].dir_key@);
    let x = (id, displaced_text(id), displaced_text(id));
    if i < n - 1 {
        law_albums_that_move(groups, albums, plan, taken, n - 1, i, id);
        if r.contains(m) {
            let k = choose|k: int| 0 <= k < r.len() && r[k] == m;
            assert(renamed_albums(groups, plan, n)[k] == m);
        }
        if d.contains(x) {
            let k = choose|k: int| 0 <= k < d.len() && d[k] == x;
            assert(displaced_albums(groups, albums, plan, taken, n)[k] == x);
        }
    } else {
        if plan[i] == Some(AlbumTarget::Rename(id)) && groups[i].dir is Some {
            assert(renamed_albums(groups, plan, n).last() == m);
        }
        if displaced_at(groups, albums, plan, taken, i) == Some(id) {
            assert(displaced_albums(groups, albums, plan, taken, n).last() == x);
        }
    }
}

/// An album has to give way where its directory gets another one and nobody took it along.
pub proof fn law_albums_that_give_way(
    groups: Seq<DirGroup>,
    albums: Seq<AlbumSnap>,
    plan: Seq<Option<AlbumTarget>>,
    taken: Seq<i64>,
    i: int,
    a: int,
)
    requires
        albums_wf(albums),
        0 <= a < albums.len(),
        albums[a].rel_dir_key@ == groups[i].dir_key@,
    ensures
        plan[i] == Some(AlbumTarget::New) && !taken.contains(albums[a].id) ==> displaced_at(
            groups,
            albums,
            plan,
            taken,
            i,
        ) == Some(albums[a].id),
        taken.contains(albums[a].id) ==> displaced_at(groups, albums, plan, taken, i) is None,
        plan[i] == Some(AlbumTarget::Existing(albums[a].id)) ==> displaced_at(groups, albums, plan, taken, i) is None,
        plan[i] is None ==> displaced_at(groups, albums, plan, taken, i) is None,
{
    lemma_album_at(albums, groups[i].dir_key@);
}

/// The files at the top, where something changed, lose the album they had.
pub proof fn law_loose_tracks(groups: Seq<DirGroup>, g: int, t: int)
    requires
        0 <= g < groups.len(),
        groups[g].dir is None,
        groups[g].dirty,
        0 <= t < groups[g].track_ids@.len(),
    ensures
        loose_tracks(groups).contains(groups[g].track_ids@[t]),
    decreases groups.len(),
{
    let d = groups.drop_last();
    let r = loose_tracks(d);
    let all = loose_tracks(groups);
    let id = groups[g].track_ids@[t];
    if g < d.len() {
        assert(d[g] == groups[g]);
        law_loose_tracks(d, g, t);
        let k = choose|k: int| 0 <= k < r.len() && r[k] == id;
        assert(all[k] == id);
    } else {
        assert(all[r.len() + t] == id);
    }
}

/// Only a directory that holds files below another one names a category: the one at the top of its path.
pub proof fn law_tops_of_nested_directories(groups: Seq<DirGroup>, g: int, top: Seq<char>, rest: Seq<char>)
    requires
        0 <= g < groups.len(),
        !top.contains('/'),
        groups[g].track_ids@.len() > 0,
        groups[g].dir is Some,
        groups[g].dir->0@ == top + seq!['/'] + rest,
    ensures
        tops_of(groups).contains(top),
    decreases groups.len(),
{
    let d = groups.drop_last();
    let r = tops_of(d);
    if g < d.len() {
        assert(d[g] == groups[g]);
        law_tops_of_nested_directories(d, g, top, rest);
        let k = choose|k: int| 0 <= k < r.len() && r[k] == top;
        assert(tops_of(groups)[k] == top);
    } else {
        law_split_at_the_first_separator(top, rest, '/');
        law_split_is_undone_by_join(rest, '/');
        assert(tops_of(groups).last() == top);
    }
}

/// A file joins its directory: with its row, with the album that it came from, and with its mark.
pub proof fn law_joining_a_directory(
    g: DirGroup,
    before: DirGroup,
    e: InvEntry,
    track: i64,
    album: i64,
    dirty: bool,
)
    ensures
        group_after(g, Some(before), e, Some(track), Some(album), dirty) ==> g.dir_key@ == e.dir_key@ && g.dir == before.dir
            && g.track_ids@ == before.track_ids@.push(track) && g.previous_albums@ == before.previous_albums@.push(album)
            && (g.dirty <==> before.dirty || dirty),
        group_after(g, Some(before), e, Some(track), None, dirty) ==> g.track_ids@ == before.track_ids@.push(track)
            && g.previous_albums@ == before.previous_albums@,
        group_after(g, None, e, Some(track), None, dirty) ==> g.dir_key@ == e.dir_key@ && opt_text(g.dir) == opt_text(e.dir)
            && g.track_ids@ == seq![track] && g.previous_albums@.len() == 0 && g.dirty == dirty,
        group_after(g, None, e, None, None, dirty) ==> g.track_ids@.len() == 0,
{
    assert(Seq::<i64>::empty().push(track) =~= seq![track]);
}

/// What an album says is what most of its files say: where all of them agree, that.
pub proof fn law_albums_say_what_their_files_say(
    r: Option<Seq<char>>,
    values: Seq<(Seq<char>, Seq<char>)>,
    key: Seq<char>,
    x: Seq<char>,
)
    requires
        mode_is(r, values, key),
    ensures
        values_of(values, key).len() == 0 ==> r is None,
        values_of(values, key).len() > 0 && (forall|i: int|
            0 <= i < values_of(values, key).len() ==> #[trigger] values_of(values, key)[i] == x) ==> r == Some(x),
{
    let v = values_of(values, key);
    if r is Some {
        let i = choose|i: int| 0 <= i < v.len() && v[i] == r->0;
        assert(v[i] == r->0);
    }
}

/// Each album that can be told its category is told it.
pub proof fn law_albums_get_their_category(
    albums: Seq<(i64, String)>,
    categories: Seq<(i64, String)>,
    skip: Seq<Seq<char>>,
    n: int,
    i: int,
)
    requires
        0 <= i < n <= albums.len(),
    ensures
        category_for(albums[i].1@, categories, skip) matches Some(c) ==> filled_categories(
            albums,
            categories,
            skip,
            n,
        ).contains((albums[i].0, c)),
    decreases n,
{
    let r = filled_categories(albums, categories, skip, n - 1);
    let c = category_for(albums[i].1@, categories, skip);
    if c is Some {
        let m = (albums[i].0, c->0);
        if i < n - 1 {
            law_albums_get_their_category(albums, categories, skip, n - 1, i);
            let k = choose|k: int| 0 <= k < r.len() && r[k] == m;
            assert(filled_categories(albums, categories, skip, n)[k] == m);
        } else {
            assert(filled_categories(albums, categories, skip, n).last() == m);
        }
    }
}

} // verus!
