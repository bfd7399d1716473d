//! Albums follow their tracks: a directory is an album, also after its tracks
//! moved.

use crate::catalog::AlbumMeta;
use crate::import::albums::{displaced_text, first_component, top_of};
use crate::lists::{sorted_ids, sorted_set_of};
use crate::order::{is_mode, mode_of, ordered_set_of, sorted_texts};
use crate::relpath::{parent, parent_of};
use crate::text::{concat2, int_to_text, opt_text, same_text, texts};
use crate::unicode::{canonical, canonical_key};
use vstd::prelude::*;
use vstd::string::*;

verus! {

/// A track that moved.
#[derive(Debug)]
pub struct TrackMove {
    pub track_id: i64,
    /// The album it was in.
    pub old_album: Option<i64>,
    /// The directory it is in now, none at the root.
    pub new_dir: Option<String>,
}

/// A track that moved to a path.
pub fn track_move(track_id: i64, new_path: &str, old_album: Option<i64>) -> (r: TrackMove)
    ensures
        r.track_id == track_id,
        r.old_album == old_album,
        opt_text(r.new_dir) == parent_of(new_path@),
{
    TrackMove { track_id, old_album, new_dir: parent(new_path) }
}

/// The albums that tracks left.
pub open spec fn left_albums(v: Seq<TrackMove>) -> Seq<i64>
    decreases v.len(),
{
    if v.len() == 0 {
        Seq::empty()
    } else {
        let r = left_albums(v.drop_last());
        match v.last().old_album {
            Some(a) => r.push(a),
            None => r,
        }
    }
}

/// The albums that tracks left, each once. Those that have no track any more are
/// missing from now on.
pub fn old_albums(moves: &Vec<TrackMove>) -> (r: Vec<i64>)
    ensures
        sorted_set_of(r@, left_albums(moves@)),
{
    let mut out: Vec<i64> = Vec::new();
    let mut i: usize = 0;
    while i < moves.len()
        invariant
            i <= moves@.len(),
            out@ == left_albums(moves@.take(i as int)),
        decreases moves@.len() - i,
    {
        proof {
            assert(moves@.take(i + 1).last() == moves@[i as int]);
            assert(moves@.take(i + 1).drop_last() =~= moves@.take(i as int));
        }
        if let Some(a) = moves[i].old_album {
            out.push(a);
        }
        i = i + 1;
    }
    proof {
        assert(moves@.take(i as int) =~= moves@);
    }
    sorted_ids(&out)
}

/// The tracks that moved to the root: they have no album.
pub open spec fn root_tracks(v: Seq<TrackMove>) -> Seq<i64>
    decreases v.len(),
{
    if v.len() == 0 {
        Seq::empty()
    } else {
        let r = root_tracks(v.drop_last());
        if v.last().new_dir is None {
            r.push(v.last().track_id)
        } else {
            r
        }
    }
}

/// The keys of the directories that tracks moved to.
pub open spec fn dir_keys(v: Seq<TrackMove>) -> Seq<Seq<char>>
    decreases v.len(),
{
    if v.len() == 0 {
        Seq::empty()
    } else {
        let r = dir_keys(v.drop_last());
        match v.last().new_dir {
            Some(d) => r.push(canonical(d@)),
            None => r,
        }
    }
}

/// The move goes to the directory with this key.
pub open spec fn goes_to(m: TrackMove, key: Seq<char>) -> bool {
    m.new_dir is Some && canonical(m.new_dir->0@) == key
}

/// The moves to the directory with this key, by position.
pub open spec fn members(v: Seq<TrackMove>, key: Seq<char>, n: int) -> Seq<int>
    decreases n,
{
    if n <= 0 {
        Seq::empty()
    } else {
        let r = members(v, key, n - 1);
        if goes_to(v[n - 1], key) {
            r.push(n - 1)
        } else {
            r
        }
    }
}

/// Tracks that moved to one directory.
#[derive(Debug)]
pub struct MoveGroup {
    pub key: String,
    /// The directory as the first of them spells it.
    pub dir: String,
    /// The moves, by position.
    pub moves: Vec<usize>,
}

/// The positions as numbers.
pub open spec fn numbers(v: Seq<usize>) -> Seq<int> {
    v.map_values(|x: usize| x as int)
}

/// The keys of groups.
pub open spec fn group_keys(g: Seq<MoveGroup>) -> Seq<Seq<char>> {
    g.map_values(|x: MoveGroup| x.key@)
}

/// The group holds the moves to its directory.
pub open spec fn group_is(g: MoveGroup, v: Seq<TrackMove>) -> bool {
    &&& numbers(g.moves@) == members(v, g.key@, v.len() as int)
    &&& g.moves@.len() > 0
    &&& g.moves@[0] < v.len()
    &&& opt_text(v[g.moves@[0] as int].new_dir) == Some(g.dir@)
}

proof fn lemma_members_in(v: Seq<TrackMove>, key: Seq<char>, n: int)
    requires
        0 <= n <= v.len(),
    ensures
        forall|i: int|
            0 <= i < members(v, key, n).len() ==> 0 <= #[trigger] members(v, key, n)[i] < n && goes_to(
                v[members(v, key, n)[i]],
                key,
            ),
        forall|i: int| 0 <= i < n && goes_to(#[trigger] v[i], key) ==> members(v, key, n).contains(i),
    decreases n,
{
    if n > 0 {
        lemma_members_in(v, key, n - 1);
        let r = members(v, key, n - 1);
        assert forall|i: int| 0 <= i < n && goes_to(#[trigger] v[i], key) implies members(v, key, n).contains(i) by {
            if i < n - 1 {
                assert(r.contains(i));
                let k = choose|k: int| 0 <= k < r.len() && r[k] == i;
                assert(members(v, key, n)[k] == i);
            } else {
                assert(members(v, key, n)[r.len() as int] == i);
            }
        }
    }
}

proof fn lemma_dir_key_at(v: Seq<TrackMove>, k: Seq<char>)
    requires
        dir_keys(v).contains(k),
    ensures
        exists|i: int| 0 <= i < v.len() && goes_to(#[trigger] v[i], k),
    decreases v.len(),
{
    if v.len() > 0 {
        let r = dir_keys(v.drop_last());
        let last = v[v.len() - 1];
        if goes_to(last, k) {
        } else {
            let i = choose|i: int| 0 <= i < dir_keys(v).len() && dir_keys(v)[i] == k;
            assert(r.contains(k)) by {
                assert(i < r.len());
                assert(r[i] == k);
            }
            lemma_dir_key_at(v.drop_last(), k);
            let j = choose|j: int| 0 <= j < v.drop_last().len() && goes_to(#[trigger] v.drop_last()[j], k);
            assert(goes_to(v[j], k));
        }
    }
}

/// The moves to one directory.
fn group_of(moves: &Vec<TrackMove>, key: String) -> (r: MoveGroup)
    requires
        dir_keys(moves@).contains(key@),
    ensures
        r.key == key,
        group_is(r, moves@),
{
    let mut found: Vec<usize> = Vec::new();
    let mut dir: Option<String> = None;
    let mut i: usize = 0;
    proof {
        assert(numbers(found@) =~= Seq::<int>::empty());
    }
    while i < moves.len()
        invariant
            i <= moves@.len(),
            numbers(found@) == members(moves@, key@, i as int),
            found@.len() > 0 ==> found@[0] < moves@.len() && dir is Some && opt_text(moves@[found@[0] as int].new_dir)
                == opt_text(dir),
        decreases moves@.len() - i,
    {
        if let Some(d) = &moves[i].new_dir {
            let k = canonical_key(d);
            if same_text(&k, &key) {
                if found.len() == 0 {
                    dir = Some(d.clone());
                }
                let ghost before = numbers(found@);
                found.push(i);
                proof {
                    assert(numbers(found@) =~= before.push(i as int));
                }
            }
        }
        i = i + 1;
    }
    proof {
        lemma_dir_key_at(moves@, key@);
        lemma_members_in(moves@, key@, moves@.len() as int);
        let j = choose|j: int| 0 <= j < moves@.len() && goes_to(#[trigger] moves@[j], key@);
        assert(members(moves@, key@, moves@.len() as int).contains(j));
        assert(numbers(found@).len() == found@.len());
    }
    let dir = match dir {
        Some(d) => d,
        None => String::new(),
    };
    MoveGroup { key, dir, moves: found }
}

/// The moves by directory, in the order of the keys, and the tracks at the root.
pub fn group_moves(moves: &Vec<TrackMove>) -> (r: (Vec<MoveGroup>, Vec<i64>))
    ensures
        ordered_set_of(group_keys(r.0@), dir_keys(moves@)),
        forall|i: int| 0 <= i < r.0@.len() ==> group_is(#[trigger] r.0@[i], moves@),
        r.1@ == root_tracks(moves@),
{
    let mut keys: Vec<String> = Vec::new();
    let mut loose: Vec<i64> = Vec::new();
    let mut i: usize = 0;
    proof {
        assert(texts(keys@) =~= Seq::<Seq<char>>::empty());
    }
    while i < moves.len()
        invariant
            i <= moves@.len(),
            texts(keys@) == dir_keys(moves@.take(i as int)),
            loose@ == root_tracks(moves@.take(i as int)),
        decreases moves@.len() - i,
    {
        proof {
            assert(moves@.take(i + 1).last() == moves@[i as int]);
            assert(moves@.take(i + 1).drop_last() =~= moves@.take(i as int));
        }
        match &moves[i].new_dir {
            Some(d) => {
                let k = canonical_key(d);
                let ghost before = texts(keys@);
                let ghost kt = k@;
                keys.push(k);
                proof {
                    assert(texts(keys@) =~= before.push(kt));
                }
            },
            None => {
                loose.push(moves[i].track_id);
            },
        }
        i = i + 1;
    }
    proof {
        assert(moves@.take(i as int) =~= moves@);
    }
    let ordered = sorted_texts(&keys);
    let ghost o = texts(ordered@);
    let mut groups: Vec<MoveGroup> = Vec::new();
    let mut k: usize = 0;
    proof {
        assert(group_keys(groups@) =~= o.take(0));
    }
    while k < ordered.len()
        invariant
            k <= ordered@.len(),
            o == texts(ordered@),
            ordered_set_of(o, dir_keys(moves@)),
            group_keys(groups@) == o.take(k as int),
            forall|i: int| 0 <= i < groups@.len() ==> group_is(#[trigger] groups@[i], moves@),
        decreases ordered@.len() - k,
    {
        proof {
            assert(o[k as int] == ordered@[k as int]@);
            assert(o.contains(o[k as int]));
            assert(dir_keys(moves@).contains(o[k as int]));
        }
        let ghost before = group_keys(groups@);
        let g = group_of(moves, ordered[k].clone());
        groups.push(g);
        proof {
            assert(group_keys(groups@) =~= before.push(o[k as int]));
            assert(o.take(k + 1) =~= o.take(k as int).push(o[k as int]));
        }
        k = k + 1;
    }
    proof {
        assert(o.take(k as int) =~= o);
    }
    (groups, loose)
}

// ---------------------------------------------------------------- whole albums

/// How many of the tracks come from an album.
pub open spec fn coming_from(old: Seq<Option<i64>>, a: i64) -> nat
    decreases old.len(),
{
    if old.len() == 0 {
        0
    } else {
        coming_from(old.drop_last(), a) + if old.last() == Some(a) {
            1nat
        } else {
            0nat
        }
    }
}

/// The album that the track at `i` comes from moved as a whole: it has as many
/// tracks as come from it.
pub open spec fn came_whole(old: Seq<Option<i64>>, active: Seq<i64>, i: int) -> bool {
    &&& 0 <= i < old.len()
    &&& old[i] is Some
    &&& active[i] == coming_from(old, old[i]->0)
}

/// The album with the most tracks of those that moved as a whole, the first of
/// several.
pub open spec fn is_largest_whole(old: Seq<Option<i64>>, active: Seq<i64>, i: int) -> bool {
    &&& came_whole(old, active, i)
    &&& forall|j: int| #[trigger] came_whole(old, active, j) ==> coming_from(old, old[j]->0) <= coming_from(old, old[i]->0)
    &&& forall|j: int|
        #[trigger] came_whole(old, active, j) && j < i ==> coming_from(old, old[j]->0) < coming_from(old, old[i]->0)
}

fn count_from(old: &Vec<Option<i64>>, a: i64) -> (r: usize)
    ensures
        r == coming_from(old@, a),
{
    let mut n: usize = 0;
    let mut i: usize = 0;
    while i < old.len()
        invariant
            i <= old@.len(),
            n <= i,
            n == coming_from(old@.take(i as int), a),
        decreases old@.len() - i,
    {
        proof {
            assert(old@.take(i + 1).last() == old@[i as int]);
            assert(old@.take(i + 1).drop_last() =~= old@.take(i as int));
        }
        if old[i] == Some(a) {
            n = n + 1;
        }
        i = i + 1;
    }
    proof {
        assert(old@.take(i as int) =~= old@);
    }
    n
}

/// The album that moved to a directory as a whole. `old` is the album that each
/// of the tracks comes from, `active` how many tracks that album has.
pub fn whole_album(old: &Vec<Option<i64>>, active: &Vec<i64>) -> (r: Option<i64>)
    requires
        active@.len() == old@.len(),
    ensures
        match r {
            Some(a) => exists|i: int| #[trigger] is_largest_whole(old@, active@, i) && old@[i] == Some(a),
            None => forall|i: int| !came_whole(old@, active@, i),
        },
{
    let mut best: Option<usize> = None;
    let mut most: usize = 0;
    let mut i: usize = 0;
    while i < old.len()
        invariant
            i <= old@.len(),
            active@.len() == old@.len(),
            best matches Some(b) ==> b < i && came_whole(old@, active@, b as int) && most == coming_from(
                old@,
                old@[b as int]->0,
            ) && (forall|j: int| #[trigger]
                came_whole(old@, active@, j) && j < i ==> coming_from(old@, old@[j]->0) <= most) && (forall|j: int|
                #[trigger] came_whole(old@, active@, j) && j < b ==> coming_from(old@, old@[j]->0) < most),
            best is None ==> (forall|j: int| j < i ==> !#[trigger] came_whole(old@, active@, j)),
        decreases old@.len() - i,
    {
        if let Some(a) = old[i] {
            let n: usize = count_from(old, a);
            let whole = active[i] >= 0 && active[i] as u64 == n as u64;
            proof {
                assert(whole == came_whole(old@, active@, i as int));
            }
            if whole && (best.is_none() || n > most) {
                best = Some(i);
                most = n;
            }
        }
        i = i + 1;
    }
    match best {
        Some(b) => {
            proof {
                assert(is_largest_whole(old@, active@, b as int));
            }
            old[b]
        },
        None => {
            proof {
                assert forall|i: int| !came_whole(old@, active@, i) by {
                    if i < old@.len() {
                        assert(!came_whole(old@, active@, i));
                    }
                }
            }
            None
        },
    }
}

/// The album of a directory that tracks moved to.
#[derive(Debug, Clone, Copy, PartialEq, Eq, Structural)]
pub enum AlbumStep {
    /// The album that is there.
    Join(i64),
    /// The album that is there is missing and comes back.
    Revive(i64),
    /// The album that moved as a whole keeps its identity.
    Move(i64),
    /// The album that moved as a whole keeps its identity; a missing one gives
    /// up the directory.
    Displace { stale: i64, album: i64 },
    Create,
}

/// The album of a directory that tracks moved to. `existing` is the album whose
/// directory it is, and that it is missing; `whole` the album that moved there as
/// a whole.
pub fn album_step(existing: Option<(i64, bool)>, whole: Option<i64>) -> (r: AlbumStep)
    ensures
        r == (match (existing, whole) {
            (Some(e), w) => if !e.1 {
                AlbumStep::Join(e.0)
            } else {
                match w {
                    Some(a) => AlbumStep::Displace { stale: e.0, album: a },
                    None => AlbumStep::Revive(e.0),
                }
            },
            (None, Some(a)) => AlbumStep::Move(a),
            (None, None) => AlbumStep::Create,
        }),
{
    match (existing, whole) {
        (Some(e), w) => {
            if !e.1 {
                AlbumStep::Join(e.0)
            } else {
                match w {
                    Some(a) => AlbumStep::Displace { stale: e.0, album: a },
                    None => AlbumStep::Revive(e.0),
                }
            }
        },
        (None, Some(a)) => AlbumStep::Move(a),
        (None, None) => AlbumStep::Create,
    }
}

/// The directory of an album that gave up its own.
pub fn displaced_dir(id: i64) -> (r: String)
    ensures
        r@ == displaced_text(id),
{
    let n = int_to_text(id);
    concat2("\0displaced:", &n)
}

// ---------------------------------------------------------------- new albums

/// What a track says of its album.
#[derive(Debug)]
pub struct AlbumHint {
    pub albumartist: Option<String>,
    pub album: Option<String>,
    pub date: Option<String>,
    /// The category of the album it comes from.
    pub category_id: Option<i64>,
}

/// The values that are there.
pub open spec fn said_values(v: Seq<Option<Seq<char>>>) -> Seq<Seq<char>>
    decreases v.len(),
{
    if v.len() == 0 {
        Seq::empty()
    } else {
        let r = said_values(v.drop_last());
        match v.last() {
            Some(x) => r.push(x),
            None => r,
        }
    }
}

/// The album artists that tracks name.
pub open spec fn albumartists(v: Seq<AlbumHint>) -> Seq<Option<Seq<char>>> {
    v.map_values(|h: AlbumHint| opt_text(h.albumartist))
}

/// The albums that tracks name.
pub open spec fn album_names(v: Seq<AlbumHint>) -> Seq<Option<Seq<char>>> {
    v.map_values(|h: AlbumHint| opt_text(h.album))
}

/// The dates that tracks name.
pub open spec fn dates(v: Seq<AlbumHint>) -> Seq<Option<Seq<char>>> {
    v.map_values(|h: AlbumHint| opt_text(h.date))
}

/// `r` is the most frequent of the values that are there.
pub open spec fn is_usual(r: Option<Seq<char>>, v: Seq<Option<Seq<char>>>) -> bool {
    match r {
        Some(x) => is_mode(said_values(v), x),
        None => said_values(v).len() == 0,
    }
}

/// The category of the first track that comes from an album with one.
pub open spec fn first_category(v: Seq<AlbumHint>) -> Option<i64>
    decreases v.len(),
{
    if v.len() == 0 {
        None
    } else {
        match v[0].category_id {
            Some(c) => Some(c),
            None => first_category(v.drop_first()),
        }
    }
}

/// The first category whose name has this key.
pub open spec fn category_named(categories: Seq<(i64, String)>, key: Seq<char>) -> Option<i64>
    decreases categories.len(),
{
    if categories.len() == 0 {
        None
    } else if canonical(categories[0].1@) == key {
        Some(categories[0].0)
    } else {
        category_named(categories.drop_first(), key)
    }
}

fn find_named(categories: &Vec<(i64, String)>, key: &str) -> (r: Option<i64>)
    ensures
        r == category_named(categories@, key@),
{
    let mut i: usize = 0;
    proof {
        assert(categories@.skip(0) =~= categories@);
    }
    while i < categories.len()
        invariant
            i <= categories@.len(),
            category_named(categories@, key@) == category_named(categories@.skip(i as int), key@),
        decreases categories@.len() - i,
    {
        proof {
            assert(categories@.skip(i as int)[0] == categories@[i as int]);
            assert(categories@.skip(i as int).drop_first() =~= categories@.skip(i + 1));
        }
        let k = canonical_key(&categories[i].1);
        if same_text(&k, key) {
            return Some(categories[i].0);
        }
        i = i + 1;
    }
    None
}

/// What a new album in `dir` is said to be: what most of its tracks say. Its
/// category is the one that its top directory names, else that of the albums
/// that its tracks come from.
pub fn album_meta_from_tracks(dir: &str, tracks: &Vec<AlbumHint>, categories: &Vec<(i64, String)>) -> (r: AlbumMeta)
    ensures
        is_usual(opt_text(r.albumartist), albumartists(tracks@)),
        is_usual(opt_text(r.album), album_names(tracks@)),
        is_usual(opt_text(r.date), dates(tracks@)),
        r.category_id == (match category_named(categories@, canonical(top_of(dir@))) {
            Some(c) => Some(c),
            None => first_category(tracks@),
        }),
        r.original_date is None,
        r.mb_release_id is None,
        r.disc_count is None,
{
    let mut aa: Vec<String> = Vec::new();
    let mut al: Vec<String> = Vec::new();
    let mut da: Vec<String> = Vec::new();
    let mut old_category: Option<i64> = None;
    let mut i: usize = 0;
    let ghost v = tracks@;
    proof {
        assert(texts(aa@) =~= said_values(albumartists(v).take(0)));
        assert(texts(al@) =~= said_values(album_names(v).take(0)));
        assert(texts(da@) =~= said_values(dates(v).take(0)));
        assert(v.skip(0) =~= v);
    }
    while i < tracks.len()
        invariant
            i <= tracks@.len(),
            v == tracks@,
            texts(aa@) == said_values(albumartists(v).take(i as int)),
            texts(al@) == said_values(album_names(v).take(i as int)),
            texts(da@) == said_values(dates(v).take(i as int)),
            first_category(v) == (match old_category {
                Some(c) => Some(c),
                None => first_category(v.skip(i as int)),
            }),
        decreases tracks@.len() - i,
    {
        let t = &tracks[i];
        push_said(&mut aa, &t.albumartist, Ghost(albumartists(v)), i);
        push_said(&mut al, &t.album, Ghost(album_names(v)), i);
        push_said(&mut da, &t.date, Ghost(dates(v)), i);
        proof {
            assert(v.skip(i as int)[0] == v[i as int]);
            assert(v.skip(i as int).drop_first() =~= v.skip(i + 1));
        }
        if old_category.is_none() {
            old_category = t.category_id;
        }
        i = i + 1;
    }
    proof {
        assert(albumartists(v).take(i as int) =~= albumartists(v));
        assert(album_names(v).take(i as int) =~= album_names(v));
        assert(dates(v).take(i as int) =~= dates(v));
        assert(texts(aa@).len() == aa@.len());
        assert(texts(al@).len() == al@.len());
        assert(texts(da@).len() == da@.len());
    }
    let top = first_component(dir);
    let key = canonical_key(&top);
    let category_id = match find_named(categories, &key) {
        Some(c) => Some(c),
        None => old_category,
    };
    AlbumMeta {
        category_id,
        albumartist: mode_of(&aa),
        album: mode_of(&al),
        date: mode_of(&da),
        original_date: None,
        mb_release_id: None,
        disc_count: None,
    }
}

fn push_said(out: &mut Vec<String>, value: &Option<String>, all: Ghost<Seq<Option<Seq<char>>>>, i: usize)
    requires
        i < all@.len(),
        all@[i as int] == opt_text(*value),
        texts(old(out)@) == said_values(all@.take(i as int)),
    ensures
        texts(final(out)@) == said_values(all@.take(i + 1)),
{
    proof {
        assert(all@.take(i + 1).last() == all@[i as int]);
        assert(all@.take(i + 1).drop_last() =~= all@.take(i as int));
    }
    if let Some(x) = value {
        let ghost before = texts(out@);
        out.push(x.clone());
        proof {
            assert(texts(out@) =~= before.push(x@));
        }
    }
}

// ---------------------------------------------------------------- laws

/// The albums that tracks left, the tracks that came to stand at the top, and the directories that the others
/// came to: each track counts where it belongs.
pub proof fn law_where_tracks_came_to(v: Seq<TrackMove>, i: int)
    requires
        0 <= i < v.len(),
    ensures
        v[i].old_album matches Some(a) ==> left_albums(v).contains(a),
        v[i].new_dir is None ==> root_tracks(v).contains(v[i].track_id),
        v[i].new_dir matches Some(d) ==> dir_keys(v).contains(canonical(d@)),
    decreases v.len(),
{
    let d = v.drop_last();
    let a = left_albums(d);
    let b = root_tracks(d);
    let c = dir_keys(d);
    if i < d.len() {
        assert(d[i] == v[i]);
        law_where_tracks_came_to(d, i);
        if v[i].old_album is Some {
            let k = choose|k: int| 0 <= k < a.len() && a[k] == v[i].old_album->0;
            assert(left_albums(v)[k] == v[i].old_album->0);
        }
        if v[i].new_dir is None {
            let k = choose|k: int| 0 <= k < b.len() && b[k] == v[i].track_id;
            assert(root_tracks(v)[k] == v[i].track_id);
        } else {
            let x = canonical(v[i].new_dir->0@);
            let k = choose|k: int| 0 <= k < c.len() && c[k] == x;
            assert(dir_keys(v)[k] == x);
        }
    } else {
        if v[i].old_album is Some {
            assert(left_albums(v).last() == v[i].old_album->0);
        }
        if v[i].new_dir is None {
            assert(root_tracks(v).last() == v[i].track_id);
        } else {
            assert(dir_keys(v).last() == canonical(v[i].new_dir->0@));
        }
    }
}

/// The tracks of a directory are those that came to it.
pub proof fn law_members_came_to_the_directory(v: Seq<TrackMove>, key: Seq<char>, n: int, i: int)
    requires
        n <= v.len(),
    ensures
        members(v, key, n).contains(i) <==> 0 <= i < n && v[i].new_dir is Some && canonical(v[i].new_dir->0@) == key,
    decreases n,
{
    if n > 0 {
        let r = members(v, key, n - 1);
        let m = members(v, key, n);
        law_members_came_to_the_directory(v, key, n - 1, i);
        if r.contains(i) {
            let k = choose|k: int| 0 <= k < r.len() && r[k] == i;
            assert(m[k] == i);
        }
        if m.contains(i) {
            let k = choose|k: int| 0 <= k < m.len() && m[k] == i;
            if k < r.len() {
                assert(r[k] == i);
            }
        }
        if i == n - 1 && goes_to(v[i], key) {
            assert(m.last() == i);
        }
    }
}

/// An album came whole where each of its tracks did: as many came from it as it has.
pub proof fn law_whole_albums(old: Seq<Option<i64>>, a: i64)
    ensures
        coming_from(old, a) <= old.len(),
        (forall|i: int| 0 <= i < old.len() ==> #[trigger] old[i] == Some(a)) ==> coming_from(old, a) == old.len(),
        (forall|i: int| 0 <= i < old.len() ==> #[trigger] old[i] != Some(a)) ==> coming_from(old, a) == 0,
    decreases old.len(),
{
    if old.len() > 0 {
        let d = old.drop_last();
        assert(old.last() == old[old.len() - 1]);
        assert forall|i: int| 0 <= i < d.len() implies #[trigger] d[i] == old[i] by {}
        law_whole_albums(d, a);
    }
}

/// Only what tracks say counts for their album.
pub proof fn law_what_tracks_say(v: Seq<Option<Seq<char>>>, i: int, x: Seq<char>)
    ensures
        0 <= i < v.len() && v[i] == Some(x) ==> said_values(v).contains(x),
        (forall|k: int| 0 <= k < v.len() ==> #[trigger] v[k] is None) ==> said_values(v).len() == 0,
        said_values(v).len() <= v.len(),
    decreases v.len(),
{
    if v.len() > 0 {
        let d = v.drop_last();
        let r = said_values(d);
        assert(v.last() == v[v.len() - 1]);
        assert forall|k: int| 0 <= k < d.len() implies #[trigger] d[k] == v[k] by {}
        law_what_tracks_say(d, i, x);
        if 0 <= i < v.len() && v[i] == Some(x) {
            if i < d.len() {
                let k = choose|k: int| 0 <= k < r.len() && r[k] == x;
                assert(said_values(v)[k] == x);
            } else {
                assert(said_values(v).last() == x);
            }
        }
    }
}

/// The category of a new album: that of the directory at the top where there is one of that name, else the
/// first one that a track brings along.
pub proof fn law_category_of_a_new_album(v: Seq<AlbumHint>, categories: Seq<(i64, String)>, key: Seq<char>, i: int)
    ensures
        0 <= i < v.len() && v[i].category_id is Some && (forall|j: int|
            0 <= j < i ==> (#[trigger] v[j]).category_id is None) ==> first_category(v) == v[i].category_id,
        (forall|j: int| 0 <= j < v.len() ==> (#[trigger] v[j]).category_id is None) ==> first_category(v) is None,
        0 <= i < categories.len() && canonical(categories[i].1@) == key && (forall|j: int|
            0 <= j < i ==> canonical((#[trigger] categories[j]).1@) != key) ==> category_named(categories, key) == Some(
            categories[i].0,
        ),
        (forall|j: int| 0 <= j < categories.len() ==> canonical((#[trigger] categories[j]).1@) != key)
            ==> category_named(categories, key) is None,
    decreases v.len() + categories.len(),
{
    if v.len() > 0 {
        let d = v.drop_first();
        assert forall|j: int| 0 <= j < d.len() implies #[trigger] d[j] == v[j + 1] by {}
        law_category_of_a_new_album(d, Seq::empty(), key, i - 1);
    }
    if categories.len() > 0 {
        let d = categories.drop_first();
        assert forall|j: int| 0 <= j < d.len() implies #[trigger] d[j] == categories[j + 1] by {}
        law_category_of_a_new_album(Seq::empty(), d, key, i - 1);
    }
}

/// The tracks of a group came to its directory, each of them, and no other is in it.
pub proof fn law_group_of_a_directory(g: MoveGroup, v: Seq<TrackMove>, i: int)
    requires
        group_is(g, v),
        0 <= i < v.len(),
    ensures
        g.moves@.len() > 0,
        v[i].new_dir is Some && canonical(v[i].new_dir->0@) == g.key@ ==> exists|k: int|
            0 <= k < g.moves@.len() && (#[trigger] g.moves@[k]) == i,
        0 <= i < g.moves@.len() ==> g.moves@[i] < v.len() && (v[g.moves@[i] as int].new_dir matches Some(d) && canonical(d@)
            == g.key@),
        v[g.moves@[0] as int].new_dir matches Some(d) && d@ == g.dir@,
{
    let n = numbers(g.moves@);
    assert(n.len() == g.moves@.len());
    law_members_came_to_the_directory(v, g.key@, v.len() as int, i);
    if goes_to(v[i], g.key@) {
        let k = choose|k: int| 0 <= k < n.len() && n[k] == i;
        assert(g.moves@[k] == i);
    }
    if 0 <= i < g.moves@.len() {
        assert(n[i] == g.moves@[i] as int);
        assert(members(v, g.key@, v.len() as int).contains(n[i]));
        law_members_came_to_the_directory(v, g.key@, v.len() as int, n[i]);
    }
    assert(opt_text(v[g.moves@[0] as int].new_dir) == Some(g.dir@));
}

/// An album goes along with its tracks where all that it had came; of several such albums the largest does.
pub proof fn law_album_goes_along(old: Seq<Option<i64>>, active: Seq<i64>, i: int, j: int)
    requires
        is_largest_whole(old, active, i),
    ensures
        old[i] matches Some(a) && active[i] == coming_from(old, a),
        0 <= j < old.len() && old[j] is Some && active[j] == coming_from(old, old[j]->0) ==> coming_from(old, old[j]->0)
            <= coming_from(old, old[i]->0),
{
    if 0 <= j < old.len() && old[j] is Some && active[j] == coming_from(old, old[j]->0) {
        assert(came_whole(old, active, j));
    }
}

/// What is usual for an album is what its tracks say most: where all agree, that.
pub proof fn law_usual_value(r: Option<Seq<char>>, v: Seq<Option<Seq<char>>>, x: Seq<char>)
    requires
        is_usual(r, v),
    ensures
        said_values(v).len() == 0 ==> r is None,
        said_values(v).len() > 0 && (forall|i: int| 0 <= i < said_values(v).len() ==> #[trigger] said_values(v)[i] == x)
            ==> r == Some(x),
{
    let s = said_values(v);
    if r is Some {
        let i = choose|i: int| 0 <= i < s.len() && s[i] == r->0;
        assert(s[i] == r->0);
    }
}

/// Tracks say what their album is called, by whom it is and when it came out.
pub proof fn law_hints_of_tracks(v: Seq<AlbumHint>, i: int)
    requires
        0 <= i < v.len(),
    ensures
        albumartists(v)[i] == opt_text(v[i].albumartist),
        album_names(v)[i] == opt_text(v[i].album),
        dates(v)[i] == opt_text(v[i].date),
{
}

} // verus!
