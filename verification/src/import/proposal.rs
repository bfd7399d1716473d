//! What is proposed for a directory of the inbox: a draft made of the tags of
//! its files.

use crate::catalog::{first_of, law_first_value, law_no_value, pair_views, values_of};
use crate::fsroot::Stat;
use crate::import::albums::values_under;
use crate::import::draft::{
    problem_text, problems_of, track_texts, DraftTrack, InboxDraft, Problem, TrackText,
};
use crate::import::sidecar::RipEntry;
use crate::order::{count_text, times};
use crate::split::join;
use crate::text::{
    chars_of, concat3, decimal_value, int_text, is_blank, joined, law_written_number_is_read_back,
    leading_digits, leading_int, leading_number, opt_text, same_text, texts, trim, trimmed,
    unsigned_to_text,
};
use crate::unicode::{canonical, canonical_key};
use vstd::prelude::*;
use vstd::string::*;

verus! {

/// A file of the inbox as the catalogue has it.
#[derive(Debug)]
pub struct FileRow {
    pub rel_path: String,
    pub inode: i64,
    pub size: i64,
    pub mtime_ns: i64,
    pub ctime_ns: i64,
    pub codec: String,
    pub lossless: bool,
    pub sample_rate: Option<u32>,
    pub bit_depth: Option<u8>,
    pub channels: Option<u8>,
    pub duration_ms: Option<u64>,
    pub tags: Vec<(String, String)>,
}

/// Whether a file still looks as its row says.
pub fn stat_matches(row: &FileRow, st: &Stat) -> (r: bool)
    ensures
        r == (row.inode == st.inode as i64 && row.size == st.size as i64 && row.mtime_ns == st.mtime_ns
            && row.ctime_ns == st.ctime_ns),
{
    row.inode == st.inode as i64 && row.size == st.size as i64 && row.mtime_ns == st.mtime_ns && row.ctime_ns
        == st.ctime_ns
}

// ---------------------------------------------------------------- artists and pictures

/// What stands between several artists where a draft shows them.
pub const ARTIST_JOIN: &'static str = "; ";

/// The artists of a file, in order.
pub fn artist_values(tags: &Vec<(String, String)>) -> (r: Vec<String>)
    ensures
        texts(r@) == values_of(pair_views(tags@), "ARTIST"@),
{
    values_under(tags, "ARTIST")
}

/// The artists of a file as a draft shows them.
pub fn joined_artist(tags: &Vec<(String, String)>) -> (r: String)
    ensures
        r@ == joined(values_of(pair_views(tags@), "ARTIST"@), ARTIST_JOIN@),
{
    let v = artist_values(tags);
    join(&v, ARTIST_JOIN)
}

/// The artists of a file stay as they are. A draft that does not say keeps
/// several artists whose first is the one it shows.
pub open spec fn artists_kept(keep_artists: Option<bool>, effective: Seq<char>, artists: Seq<Seq<char>>) -> bool {
    match keep_artists {
        Some(keep) => keep,
        None => artists.len() > 1 && artists[0] == effective,
    }
}

/// Whether the artists of a file stay as they are. A draft that does not say
/// keeps several artists whose first is the one it shows.
pub fn keeps_artists(keep_artists: Option<bool>, effective: &str, tags: &Vec<(String, String)>) -> (r: bool)
    ensures
        r == artists_kept(keep_artists, effective@, values_of(pair_views(tags@), "ARTIST"@)),
{
    match keep_artists {
        Some(keep) => keep,
        None => {
            let v = artist_values(tags);
            proof {
                assert(texts(v@).len() == v@.len());
                if v@.len() > 0 {
                    assert(texts(v@)[0] == v@[0]@);
                }
            }
            v.len() > 1 && same_text(&v[0], effective)
        },
    }
}

/// Where `c` occurs first.
pub open spec fn first_index(s: Seq<char>, c: char) -> Option<int>
    decreases s.len(),
{
    if s.len() == 0 {
        None
    } else if s[0] == c {
        Some(0)
    } else {
        match first_index(s.drop_first(), c) {
            Some(i) => Some(i + 1),
            None => None,
        }
    }
}

/// What stands before and after the first `c`.
pub open spec fn split_first(s: Seq<char>, c: char) -> Option<(Seq<char>, Seq<char>)> {
    match first_index(s, c) {
        Some(i) => Some((s.take(i), s.skip(i + 1))),
        None => None,
    }
}

proof fn lemma_first_index(s: Seq<char>, c: char, i: int)
    requires
        0 <= i <= s.len(),
        forall|k: int| 0 <= k < i ==> #[trigger] s[k] != c,
    ensures
        i < s.len() && s[i] == c ==> first_index(s, c) == Some(i),
        i == s.len() ==> first_index(s, c) is None,
    decreases s.len(),
{
    if s.len() > 0 && i > 0 {
        let t = s.drop_first();
        assert forall|k: int| 0 <= k < i - 1 implies #[trigger] t[k] != c by {
            assert(t[k] == s[k + 1]);
        }
        lemma_first_index(t, c, i - 1);
        if i < s.len() {
            assert(t[i - 1] == s[i]);
        }
    }
}

/// What stands before and after the first `c`.
pub fn split_once(s: &str, c: char) -> (r: Option<(String, String)>)
    ensures
        match r {
            Some(p) => split_first(s@, c) == Some((p.0@, p.1@)),
            None => split_first(s@, c) is None,
        },
{
    let chars = chars_of(s);
    let n: usize = chars.len();
    let mut i: usize = 0;
    while i < n && chars[i] != c
        invariant
            i <= n,
            n == chars@.len(),
            chars@ == s@,
            forall|k: int| 0 <= k < i ==> #[trigger] s@[k] != c,
        decreases n - i,
    {
        i = i + 1;
    }
    proof {
        lemma_first_index(s@, c, i as int);
    }
    if i < n {
        let a = crate::text::slice_text(&chars, 0, i);
        let b = crate::text::slice_text(&chars, i + 1, n);
        proof {
            assert(s@.subrange(0, i as int) =~= s@.take(i as int));
            assert(s@.subrange(i + 1, n as int) =~= s@.skip(i + 1));
        }
        Some((a, b))
    } else {
        None
    }
}

/// The types and digests of the pictures of a file, in order.
pub open spec fn pictures_of(values: Seq<Seq<char>>) -> Seq<(Seq<char>, Seq<char>)>
    decreases values.len(),
{
    if values.len() == 0 {
        Seq::empty()
    } else {
        let r = pictures_of(values.drop_last());
        match split_first(values.last(), ':') {
            Some(p) => r.push(p),
            None => r,
        }
    }
}

/// The types and digests of the pictures of a file, in order.
pub fn picture_hashes(tags: &Vec<(String, String)>) -> (r: Vec<(String, String)>)
    ensures
        pair_views(r@) == pictures_of(values_of(pair_views(tags@), "PICTURE"@)),
{
    let values = values_under(tags, "PICTURE");
    let ghost v = texts(values@);
    let mut out: Vec<(String, String)> = Vec::new();
    let mut i: usize = 0;
    proof {
        assert(pair_views(out@) =~= pictures_of(v.take(0)));
    }
    while i < values.len()
        invariant
            i <= values@.len(),
            v == texts(values@),
            pair_views(out@) == pictures_of(v.take(i as int)),
        decreases values@.len() - i,
    {
        let ghost before = pair_views(out@);
        proof {
            assert(v.take(i + 1).last() == values@[i as int]@);
            assert(v.take(i + 1).drop_last() =~= v.take(i as int));
        }
        if let Some(p) = split_once(&values[i], ':') {
            let ghost gp = (p.0@, p.1@);
            out.push(p);
            proof {
                assert(pair_views(out@) =~= before.push(gp));
            }
        }
        i = i + 1;
    }
    proof {
        assert(v.take(i as int) =~= v);
    }
    out
}

/// The file has a picture with the digest.
pub open spec fn has_picture(f: FileRow, hash: Seq<char>) -> bool {
    let p = pictures_of(values_of(pair_views(f.tags@), "PICTURE"@));
    exists|i: int| 0 <= i < p.len() && (#[trigger] p[i]).1 == hash
}

/// The positions of the files that have the picture, in order.
pub open spec fn files_with_picture(files: Seq<FileRow>, hash: Seq<char>) -> Seq<usize>
    decreases files.len(),
{
    if files.len() == 0 {
        Seq::empty()
    } else {
        let r = files_with_picture(files.drop_last(), hash);
        if has_picture(files.last(), hash) {
            r.push((files.len() - 1) as usize)
        } else {
            r
        }
    }
}

/// The positions of the files in which a picture is looked for, in order: those
/// whose tags name its digest.
pub fn picture_candidates(files: &Vec<FileRow>, hash: &str) -> (r: Vec<usize>)
    ensures
        r@ == files_with_picture(files@, hash@),
{
    let mut out: Vec<usize> = Vec::new();
    let mut i: usize = 0;
    while i < files.len()
        invariant
            i <= files@.len(),
            out@ == files_with_picture(files@.take(i as int), hash@),
        decreases files@.len() - i,
    {
        proof {
            assert(files@.take(i + 1).last() == files@[i as int]);
            assert(files@.take(i + 1).drop_last() =~= files@.take(i as int));
        }
        let p = picture_hashes(&files[i].tags);
        let ghost pv = pair_views(p@);
        let mut found = false;
        let mut j: usize = 0;
        while j < p.len()
            invariant
                j <= p@.len(),
                pv == pair_views(p@),
                found == exists|k: int| 0 <= k < j && (#[trigger] pv[k]).1 == hash@,
            decreases p@.len() - j,
        {
            proof {
                assert(pv[j as int] == (p@[j as int].0@, p@[j as int].1@));
            }
            if same_text(&p[j].1, hash) {
                found = true;
                proof {
                    assert(pv[j as int].1 == hash@);
                }
            }
            j = j + 1;
        }
        if found {
            out.push(i);
        }
        i = i + 1;
    }
    proof {
        assert(files@.take(i as int) =~= files@);
    }
    out
}

/// Where the chosen picture of a file goes among its pictures: to their front.
/// `first` is where the first picture stands, `at` where the chosen one does.
pub open spec fn fronted(tags: Seq<(Seq<char>, Seq<char>)>, first: int, at: int) -> Seq<(Seq<char>, Seq<char>)> {
    tags.remove(at).insert(first, tags[at])
}

/// Where the first tag with the key stands, and for pictures the one with the
/// digest.
pub open spec fn first_picture(tags: Seq<(Seq<char>, Seq<char>)>, i: int) -> bool {
    &&& 0 <= i < tags.len()
    &&& tags[i].0 == "PICTURE"@
    &&& forall|k: int| 0 <= k < i ==> (#[trigger] tags[k]).0 != "PICTURE"@
}

/// The tag is the picture with the digest.
pub open spec fn is_picture_with(tag: (Seq<char>, Seq<char>), hash: Seq<char>) -> bool {
    tag.0 == "PICTURE"@ && split_first(tag.1, ':') is Some && (split_first(tag.1, ':')->0).1 == hash
}

/// Where the picture with the digest stands first.
pub open spec fn chosen_picture(tags: Seq<(Seq<char>, Seq<char>)>, hash: Seq<char>, i: int) -> bool {
    &&& 0 <= i < tags.len()
    &&& is_picture_with(tags[i], hash)
    &&& forall|k: int| 0 <= k < i ==> !is_picture_with(#[trigger] tags[k], hash)
}

/// Puts the picture with the digest before the other pictures. Without such a
/// picture nothing changes.
pub fn front_picture(tags: &mut Vec<(String, String)>, hash: &str)
    ensures
        forall|first: int, at: int| #[trigger]
            first_picture(pair_views(old(tags)@), first) && #[trigger] chosen_picture(
                pair_views(old(tags)@),
                hash@,
                at,
            ) ==> pair_views(final(tags)@) == fronted(pair_views(old(tags)@), first, at),
        (forall|at: int| !#[trigger] chosen_picture(pair_views(old(tags)@), hash@, at)) ==> final(tags)@ == old(
            tags,
        )@,
{
    let ghost v = pair_views(tags@);
    let n: usize = tags.len();
    let mut first: usize = 0;
    while first < n && !same_text(&tags[first].0, "PICTURE")
        invariant
            first <= n,
            n == tags@.len(),
            v == pair_views(tags@),
            forall|k: int| 0 <= k < first ==> (#[trigger] v[k]).0 != "PICTURE"@,
        decreases n - first,
    {
        first = first + 1;
    }
    let mut at: usize = 0;
    let mut found = false;
    while at < n && !found
        invariant
            at <= n,
            n == tags@.len(),
            v == pair_views(tags@),
            found ==> at < n && is_picture_with(v[at as int], hash@),
            forall|k: int| 0 <= k < at ==> !is_picture_with(#[trigger] v[k], hash@),
        decreases n - at + (if found { 0int } else { 1 }),
    {
        proof {
            assert(v[at as int] == (tags@[at as int].0@, tags@[at as int].1@));
        }
        if same_text(&tags[at].0, "PICTURE") {
            if let Some(p) = split_once(&tags[at].1, ':') {
                if same_text(&p.1, hash) {
                    found = true;
                }
            }
        }
        if !found {
            at = at + 1;
        }
    }
    if !found {
        proof {
            assert forall|x: int| !#[trigger] chosen_picture(v, hash@, x) by {}
        }
        return;
    }
    proof {
        assert(chosen_picture(v, hash@, at as int));
        assert(v[at as int].0 == "PICTURE"@);
        assert(first <= at);
        assert(first_picture(v, first as int));
        assert forall|f: int, a: int| #[trigger] first_picture(v, f) && #[trigger] chosen_picture(v, hash@, a) implies f
            == first && a == at by {
            if f < first {
                assert(v[f].0 != "PICTURE"@);
            } else if f > first {
                assert(v[first as int].0 != "PICTURE"@);
            }
            if a < at {
                assert(!is_picture_with(v[a], hash@));
            } else if a > at {
                assert(!is_picture_with(v[at as int], hash@));
            }
        }
    }
    let picked = tags.remove(at);
    tags.insert(first, picked);
    proof {
        assert(pair_views(tags@) =~= fronted(v, first as int, at as int));
    }
}

// ---------------------------------------------------------------- the proposal

/// The texts that say something, trimmed.
pub open spec fn cleaned(v: Seq<Seq<char>>) -> Seq<Seq<char>>
    decreases v.len(),
{
    if v.len() == 0 {
        Seq::empty()
    } else {
        let r = cleaned(v.drop_last());
        if is_blank(v.last()) {
            r
        } else {
            r.push(trimmed(v.last()))
        }
    }
}

/// `i` is where `x` occurs first.
pub open spec fn occurs_first(v: Seq<Seq<char>>, x: Seq<char>, i: int) -> bool {
    &&& 0 <= i < v.len()
    &&& v[i] == x
    &&& forall|k: int| 0 <= k < i ==> #[trigger] v[k] != x
}

/// `x` occurs most often, and of what does so it occurs first.
pub open spec fn is_first_mode(v: Seq<Seq<char>>, x: Seq<char>) -> bool {
    &&& exists|i: int| #[trigger]
        occurs_first(v, x, i) && forall|k: int| 0 <= k < i ==> times(v, #[trigger] v[k]) < times(v, x)
    &&& forall|k: int| 0 <= k < v.len() ==> times(v, #[trigger] v[k]) <= times(v, x)
}

pub(crate) fn clean_values(values: &Vec<String>) -> (r: Vec<String>)
    ensures
        texts(r@) == cleaned(texts(values@)),
{
    let ghost v = texts(values@);
    let mut out: Vec<String> = Vec::new();
    let mut i: usize = 0;
    proof {
        assert(texts(out@) =~= cleaned(v.take(0)));
    }
    while i < values.len()
        invariant
            i <= values@.len(),
            v == texts(values@),
            texts(out@) == cleaned(v.take(i as int)),
        decreases values@.len() - i,
    {
        let ghost before = texts(out@);
        proof {
            assert(v.take(i + 1).last() == values@[i as int]@);
            assert(v.take(i + 1).drop_last() =~= v.take(i as int));
        }
        let t = trim(&values[i]);
        if !t.as_str().is_empty() {
            let ghost tv = t@;
            out.push(t);
            proof {
                assert(texts(out@) =~= before.push(tv));
            }
        }
        i = i + 1;
    }
    proof {
        assert(v.take(i as int) =~= v);
    }
    out
}

/// `r` is the value that occurs most often, blanks aside; the first of several.
pub open spec fn mode_of_column(r: Option<Seq<char>>, column: Seq<Seq<char>>) -> bool {
    match r {
        Some(x) => is_first_mode(cleaned(column), x),
        None => cleaned(column).len() == 0,
    }
}

pub(crate) fn mode(values: &Vec<String>) -> (r: Option<String>)
    ensures
        mode_of_column(opt_text(r), texts(values@)),
{
    let v = clean_values(values);
    let ghost t = texts(v@);
    if v.len() == 0 {
        proof {
            assert(t.len() == 0);
        }
        return None;
    }
    let mut best: usize = 0;
    let mut best_n: usize = count_text(&v, &v[0]);
    let mut i: usize = 1;
    proof {
        assert(occurs_first(t, t[0], 0));
    }
    while i < v.len()
        invariant
            1 <= i <= v@.len(),
            t == texts(v@),
            best < i,
            best_n == times(t, t[best as int]),
            occurs_first(t, t[best as int], best as int),
            forall|k: int| 0 <= k < best ==> times(t, #[trigger] t[k]) < best_n,
            forall|k: int| 0 <= k < i ==> times(t, #[trigger] t[k]) <= best_n,
        decreases v@.len() - i,
    {
        let n: usize = count_text(&v, &v[i]);
        if n > best_n {
            proof {
                assert forall|k: int| 0 <= k < i implies #[trigger] t[k] != t[i as int] by {
                    assert(times(t, t[k]) <= best_n);
                }
                assert(occurs_first(t, t[i as int], i as int));
            }
            best = i;
            best_n = n;
        }
        i = i + 1;
    }
    proof {
        assert(occurs_first(t, t[best as int], best as int));
        assert(is_first_mode(t, t[best as int]));
    }
    Some(v[best].clone())
}

/// The first value of the key in each file that has one.
pub open spec fn tag_column(files: Seq<FileRow>, key: Seq<char>) -> Seq<Seq<char>>
    decreases files.len(),
{
    if files.len() == 0 {
        Seq::empty()
    } else {
        let r = tag_column(files.drop_last(), key);
        match first_of(pair_views(files.last().tags@), key) {
            Some(v) => r.push(v),
            None => r,
        }
    }
}

/// The first value of the key in a file.
pub fn tag(f: &FileRow, key: &str) -> (r: Option<String>)
    ensures
        opt_text(r) == first_of(pair_views(f.tags@), key@),
{
    let v = values_under(&f.tags, key);
    proof {
        assert(texts(v@).len() == v@.len());
    }
    if v.len() > 0 {
        proof {
            assert(texts(v@)[0] == v@[0]@);
        }
        Some(v[0].clone())
    } else {
        None
    }
}

pub(crate) fn column(files: &Vec<FileRow>, key: &str) -> (r: Vec<String>)
    ensures
        texts(r@) == tag_column(files@, key@),
{
    let mut out: Vec<String> = Vec::new();
    let mut i: usize = 0;
    proof {
        assert(texts(out@) =~= tag_column(files@.take(0), key@));
    }
    while i < files.len()
        invariant
            i <= files@.len(),
            texts(out@) == tag_column(files@.take(i as int), key@),
        decreases files@.len() - i,
    {
        let ghost before = texts(out@);
        proof {
            assert(files@.take(i + 1).last() == files@[i as int]);
            assert(files@.take(i + 1).drop_last() =~= files@.take(i as int));
        }
        if let Some(v) = tag(&files[i], key) {
            let ghost gv = v@;
            out.push(v);
            proof {
                assert(texts(out@) =~= before.push(gv));
            }
        }
        i = i + 1;
    }
    proof {
        assert(files@.take(i as int) =~= files@);
    }
    out
}

/// The genre stands for a category.
pub open spec fn genre_mapped(map: Seq<(String, i64)>, genre: Seq<char>) -> bool {
    crate::import::albums::genre_with(map, canonical(genre)) is Some
}

/// The genres that stand for a category.
pub open spec fn mapped_genres(genres: Seq<Seq<char>>, map: Seq<(String, i64)>) -> Seq<Seq<char>>
    decreases genres.len(),
{
    if genres.len() == 0 {
        Seq::empty()
    } else {
        let r = mapped_genres(genres.drop_last(), map);
        if genre_mapped(map, genres.last()) {
            r.push(genres.last())
        } else {
            r
        }
    }
}

/// All genres of the files, in order.
pub open spec fn all_genres(files: Seq<FileRow>) -> Seq<Seq<char>>
    decreases files.len(),
{
    if files.len() == 0 {
        Seq::empty()
    } else {
        all_genres(files.drop_last()) + values_of(pair_views(files.last().tags@), "GENRE"@)
    }
}

fn collect_genres(files: &Vec<FileRow>) -> (r: Vec<String>)
    ensures
        texts(r@) == all_genres(files@),
{
    let mut out: Vec<String> = Vec::new();
    let mut i: usize = 0;
    proof {
        assert(texts(out@) =~= all_genres(files@.take(0)));
    }
    while i < files.len()
        invariant
            i <= files@.len(),
            texts(out@) == all_genres(files@.take(i as int)),
        decreases files@.len() - i,
    {
        proof {
            assert(files@.take(i + 1).last() == files@[i as int]);
            assert(files@.take(i + 1).drop_last() =~= files@.take(i as int));
        }
        let g = values_under(&files[i].tags, "GENRE");
        let ghost before = texts(out@);
        let ghost gv = texts(g@);
        let mut j: usize = 0;
        proof {
            assert(before + gv.take(0) =~= before);
        }
        while j < g.len()
            invariant
                j <= g@.len(),
                gv == texts(g@),
                texts(out@) == before + gv.take(j as int),
            decreases g@.len() - j,
        {
            let ghost so_far = texts(out@);
            out.push(g[j].clone());
            proof {
                assert(texts(out@) =~= so_far.push(gv[j as int]));
                assert(texts(out@) =~= before + gv.take(j + 1));
            }
            j = j + 1;
        }
        proof {
            assert(gv.take(j as int) =~= gv);
        }
        i = i + 1;
    }
    proof {
        assert(files@.take(i as int) =~= files@);
    }
    out
}

fn find_genre_id(map: &Vec<(String, i64)>, k: &str) -> (r: Option<i64>)
    ensures
        r == crate::import::albums::genre_with(map@, k@),
{
    let mut i: usize = 0;
    proof {
        assert(map@.skip(0) =~= map@);
    }
    while i < map.len()
        invariant
            i <= map@.len(),
            crate::import::albums::genre_with(map@, k@) == crate::import::albums::genre_with(map@.skip(i as int), k@),
        decreases map@.len() - i,
    {
        proof {
            assert(map@.skip(i as int)[0] == map@[i as int]);
            assert(map@.skip(i as int).drop_first() =~= map@.skip(i + 1));
        }
        if same_text(&map[i].0, k) {
            return Some(map[i].1);
        }
        i = i + 1;
    }
    None
}

fn keep_mapped(genres: &Vec<String>, map: &Vec<(String, i64)>) -> (r: Vec<String>)
    ensures
        texts(r@) == mapped_genres(texts(genres@), map@),
{
    let ghost v = texts(genres@);
    let mut out: Vec<String> = Vec::new();
    let mut i: usize = 0;
    proof {
        assert(texts(out@) =~= mapped_genres(v.take(0), map@));
    }
    while i < genres.len()
        invariant
            i <= genres@.len(),
            v == texts(genres@),
            texts(out@) == mapped_genres(v.take(i as int), map@),
        decreases genres@.len() - i,
    {
        let ghost before = texts(out@);
        proof {
            assert(v.take(i + 1).last() == genres@[i as int]@);
            assert(v.take(i + 1).drop_last() =~= v.take(i as int));
        }
        let key = canonical_key(&genres[i]);
        if find_genre_id(map, &key).is_some() {
            out.push(genres[i].clone());
            proof {
                assert(texts(out@) =~= before.push(v[i as int]));
            }
        }
        i = i + 1;
    }
    proof {
        assert(v.take(i as int) =~= v);
    }
    out
}

/// The name of the first category with the id.
pub open spec fn category_name(categories: Seq<(i64, String)>, id: i64) -> Option<Seq<char>>
    decreases categories.len(),
{
    if categories.len() == 0 {
        None
    } else if categories[0].0 == id {
        Some(categories[0].1@)
    } else {
        category_name(categories.drop_first(), id)
    }
}

fn find_category_name(categories: &Vec<(i64, String)>, id: i64) -> (r: Option<String>)
    ensures
        opt_text(r) == category_name(categories@, id),
{
    let mut i: usize = 0;
    proof {
        assert(categories@.skip(0) =~= categories@);
    }
    while i < categories.len()
        invariant
            i <= categories@.len(),
            category_name(categories@, id) == category_name(categories@.skip(i as int), id),
        decreases categories@.len() - i,
    {
        proof {
            assert(categories@.skip(i as int)[0] == categories@[i as int]);
            assert(categories@.skip(i as int).drop_first() =~= categories@.skip(i + 1));
        }
        if categories[i].0 == id {
            return Some(categories[i].1.clone());
        }
        i = i + 1;
    }
    None
}

/// The category that a genre stands for, by name.
pub open spec fn category_of_genre(
    genre: Option<Seq<char>>,
    map: Seq<(String, i64)>,
    categories: Seq<(i64, String)>,
) -> Option<Seq<char>> {
    match genre {
        Some(g) => match crate::import::albums::genre_with(map, canonical(g)) {
            Some(id) => category_name(categories, id),
            None => None,
        },
        None => None,
    }
}

/// The number that a text starts with, none where it does not fit into 32 bits.
pub open spec fn small_number(s: Seq<char>) -> Option<u32> {
    match leading_number(s) {
        Some(n) => if n <= u32::MAX {
            Some(n as u32)
        } else {
            None
        },
        None => None,
    }
}

/// The number of a tag, `otherwise` where there is none.
pub open spec fn number_tag(v: Option<Seq<char>>, otherwise: u32) -> u32 {
    match v {
        Some(s) => match small_number(s) {
            Some(n) => n,
            None => otherwise,
        },
        None => otherwise,
    }
}

fn read_number(v: &Option<String>, otherwise: u32) -> (r: u32)
    ensures
        r == number_tag(opt_text(*v), otherwise),
{
    match v {
        Some(s) => match leading_int(s) {
            Some(n) => {
                proof {
                    crate::import::proposal::lemma_leading_nonnegative(s@);
                }
                if n <= u32::MAX as i64 {
                    n as u32
                } else {
                    otherwise
                }
            },
            None => otherwise,
        },
        None => otherwise,
    }
}

/// A number that a text starts with is not negative.
pub proof fn lemma_leading_nonnegative(s: Seq<char>)
    ensures
        leading_number(s) matches Some(n) ==> n >= 0,
{
    let d = leading_digits(trimmed(s));
    if d.len() > 0 && decimal_value(d) <= i64::MAX {
        assert(decimal_value(d) as i64 >= 0);
    }
}

/// What is proposed for a file.
pub open spec fn track_proposal(f: FileRow) -> TrackText {
    let t = pair_views(f.tags@);
    TrackText {
        rel_path: f.rel_path@,
        disc_no: number_tag(first_of(t, "DISCNUMBER"@), 1),
        track_no: number_tag(first_of(t, "TRACKNUMBER"@), 0),
        title: match first_of(t, "TITLE"@) {
            Some(x) => trimmed(x),
            None => Seq::empty(),
        },
        artist: joined(values_of(t, "ARTIST"@), ARTIST_JOIN@),
        keep_artists: Some(values_of(t, "ARTIST"@).len() > 1),
        tags: Seq::empty(),
        picture: None,
    }
}

fn propose_track(f: &FileRow) -> (r: DraftTrack)
    ensures
        r@ == track_proposal(*f),
{
    let disc = tag(f, "DISCNUMBER");
    let no = tag(f, "TRACKNUMBER");
    let title = match tag(f, "TITLE") {
        Some(x) => trim(&x),
        None => String::new(),
    };
    let artists = artist_values(&f.tags);
    proof {
        assert(texts(artists@).len() == artists@.len());
    }
    let r = DraftTrack {
        rel_path: f.rel_path.clone(),
        disc_no: read_number(&disc, 1),
        track_no: read_number(&no, 0),
        title,
        artist: joined_artist(&f.tags),
        keep_artists: Some(artists.len() > 1),
        tags: Vec::new(),
        picture: None,
    };
    proof {
        assert(r@.tags =~= Seq::empty());
        assert(r@ =~= track_proposal(*f));
    }
    r
}

/// The value of a column, or nothing.
pub open spec fn mode_or_empty(r: Seq<char>, first: Seq<Seq<char>>, second: Seq<Seq<char>>) -> bool {
    if cleaned(first).len() > 0 {
        is_first_mode(cleaned(first), r)
    } else if cleaned(second).len() > 0 {
        is_first_mode(cleaned(second), r)
    } else {
        r.len() == 0
    }
}

/// The draft that the tags of the files give: for the album what most files
/// say, for each track what its file says.
pub fn proposal(files: &Vec<FileRow>, categories: &Vec<(i64, String)>, genre_map: &Vec<(String, i64)>) -> (r: InboxDraft)
    ensures
        mode_or_empty(r.albumartist@, tag_column(files@, "ALBUMARTIST"@), tag_column(files@, "ARTIST"@)),
        mode_or_empty(r.album@, tag_column(files@, "ALBUM"@), Seq::empty()),
        mode_of_column(opt_text(r.date), tag_column(files@, "DATE"@)),
        exists|genre: Option<Seq<char>>| #[trigger]
            mode_of_column(genre, mapped_genres(all_genres(files@), genre_map@)) && opt_text(r.category)
                == category_of_genre(genre, genre_map@, categories@),
        mode_of_column(opt_text(r.release_id), tag_column(files@, "MUSICBRAINZ_ALBUMID"@)),
        mode_of_column(opt_text(r.release_group_id), tag_column(files@, "MUSICBRAINZ_RELEASEGROUPID"@)),
        !r.album_gain,
        track_texts(r.tracks@) == files@.map_values(|f: FileRow| track_proposal(f)),
        r.wf(),
{
    let artists = column(files, "ALBUMARTIST");
    let albumartist = match mode(&artists) {
        Some(a) => a,
        None => {
            let others = column(files, "ARTIST");
            match mode(&others) {
                Some(a) => a,
                None => String::new(),
            }
        },
    };
    let albums = column(files, "ALBUM");
    let album = match mode(&albums) {
        Some(a) => a,
        None => String::new(),
    };
    let dates = column(files, "DATE");
    let date = mode(&dates);
    let genres = collect_genres(files);
    let mapped = keep_mapped(&genres, genre_map);
    let genre = mode(&mapped);
    let category = match &genre {
        Some(g) => {
            let key = canonical_key(g);
            match find_genre_id(genre_map, &key) {
                Some(id) => find_category_name(categories, id),
                None => None,
            }
        },
        None => None,
    };
    proof {
        let m = mapped_genres(all_genres(files@), genre_map@);
        assert(mode_of_column(opt_text(genre), m));
        assert(cleaned(Seq::<Seq<char>>::empty()).len() == 0);
    }
    let mut tracks: Vec<DraftTrack> = Vec::new();
    let ghost want = files@.map_values(|f: FileRow| track_proposal(f));
    let mut i: usize = 0;
    proof {
        assert(track_texts(tracks@) =~= want.take(0));
    }
    while i < files.len()
        invariant
            i <= files@.len(),
            want == files@.map_values(|f: FileRow| track_proposal(f)),
            track_texts(tracks@) == want.take(i as int),
        decreases files@.len() - i,
    {
        let ghost before = track_texts(tracks@);
        tracks.push(propose_track(&files[i]));
        proof {
            assert(track_texts(tracks@) =~= before.push(want[i as int]));
            assert(want.take(i + 1) =~= want.take(i as int).push(want[i as int]));
        }
        i = i + 1;
    }
    proof {
        assert(want.take(i as int) =~= want);
        assert forall|k: int| 0 <= k < tracks@.len() implies (#[trigger] tracks@[k])@.wf() by {
            assert(track_texts(tracks@)[k] == tracks@[k]@);
        }
    }
    let releases = column(files, "MUSICBRAINZ_ALBUMID");
    let release_groups = column(files, "MUSICBRAINZ_RELEASEGROUPID");
    InboxDraft {
        category,
        albumartist,
        album,
        date,
        tracks,
        album_gain: false,
        release_id: mode(&releases),
        release_group_id: mode(&release_groups),
    }
}

// ---------------------------------------------------------------- merging

/// The first saved track of the file.
pub open spec fn saved_at(saved: Seq<DraftTrack>, path: Seq<char>) -> Option<int>
    decreases saved.len(),
{
    if saved.len() == 0 {
        None
    } else if canonical(saved[0].rel_path@) == canonical(path) {
        Some(0)
    } else {
        match saved_at(saved.drop_first(), path) {
            Some(i) => Some(i + 1),
            None => None,
        }
    }
}

/// A track of the proposal, as it was saved where it was.
pub open spec fn merged_track(saved: Seq<DraftTrack>, p: DraftTrack) -> TrackText {
    match saved_at(saved, p.rel_path@) {
        Some(i) => saved[i]@,
        None => p@,
    }
}

proof fn lemma_saved_at(saved: Seq<DraftTrack>, path: Seq<char>, i: int)
    requires
        0 <= i <= saved.len(),
        forall|k: int| 0 <= k < i ==> canonical((#[trigger] saved[k]).rel_path@) != canonical(path),
    ensures
        i < saved.len() && canonical(saved[i].rel_path@) == canonical(path) ==> saved_at(saved, path) == Some(i),
        i == saved.len() ==> saved_at(saved, path) is None,
    decreases saved.len(),
{
    if saved.len() > 0 && i > 0 {
        let t = saved.drop_first();
        assert(canonical(saved[0].rel_path@) != canonical(path));
        assert forall|k: int| 0 <= k < i - 1 implies canonical((#[trigger] t[k]).rel_path@) != canonical(path) by {
            assert(t[k] == saved[k + 1]);
        }
        lemma_saved_at(t, path, i - 1);
        if i < saved.len() {
            assert(t[i - 1] == saved[i]);
        }
    }
}

fn merge_track(saved: &Vec<DraftTrack>, p: &DraftTrack) -> (r: DraftTrack)
    ensures
        r@ == merged_track(saved@, *p),
{
    let key = canonical_key(&p.rel_path);
    let mut i: usize = 0;
    while i < saved.len()
        invariant
            i <= saved@.len(),
            key@ == canonical(p.rel_path@),
            forall|k: int| 0 <= k < i ==> canonical((#[trigger] saved@[k]).rel_path@) != canonical(p.rel_path@),
        decreases saved@.len() - i,
    {
        let k = canonical_key(&saved[i].rel_path);
        if same_text(&k, &key) {
            proof {
                lemma_saved_at(saved@, p.rel_path@, i as int);
            }
            return saved[i].copy();
        }
        i = i + 1;
    }
    proof {
        lemma_saved_at(saved@, p.rel_path@, i as int);
    }
    p.copy()
}

/// `o` where there is one, else `otherwise`.
pub open spec fn or_text(o: Option<String>, otherwise: Option<String>) -> Option<Seq<char>> {
    if o is Some {
        opt_text(o)
    } else {
        opt_text(otherwise)
    }
}

/// A draft that was saved, brought up to the files that are there now: what was
/// corrected stays, files that came since are as proposed, files that are gone
/// leave. The order is that of the proposal.
pub fn merge_saved(saved: &InboxDraft, proposed: &InboxDraft) -> (r: InboxDraft)
    ensures
        opt_text(r.category) == opt_text(saved.category),
        r.albumartist@ == saved.albumartist@,
        r.album@ == saved.album@,
        opt_text(r.date) == opt_text(saved.date),
        r.album_gain == saved.album_gain,
        opt_text(r.release_id) == or_text(saved.release_id, proposed.release_id),
        opt_text(r.release_group_id) == or_text(saved.release_group_id, proposed.release_group_id),
        track_texts(r.tracks@) == proposed.tracks@.map_values(|p: DraftTrack| merged_track(saved.tracks@, p)),
        saved.wf() && proposed.wf() ==> r.wf(),
{
    let mut tracks: Vec<DraftTrack> = Vec::new();
    let ghost want = proposed.tracks@.map_values(|p: DraftTrack| merged_track(saved.tracks@, p));
    let mut i: usize = 0;
    proof {
        assert(track_texts(tracks@) =~= want.take(0));
    }
    while i < proposed.tracks.len()
        invariant
            i <= proposed.tracks@.len(),
            want == proposed.tracks@.map_values(|p: DraftTrack| merged_track(saved.tracks@, p)),
            track_texts(tracks@) == want.take(i as int),
        decreases proposed.tracks@.len() - i,
    {
        let ghost before = track_texts(tracks@);
        tracks.push(merge_track(&saved.tracks, &proposed.tracks[i]));
        proof {
            assert(track_texts(tracks@) =~= before.push(want[i as int]));
            assert(want.take(i + 1) =~= want.take(i as int).push(want[i as int]));
        }
        i = i + 1;
    }
    proof {
        assert(want.take(i as int) =~= want);
        if saved.wf() && proposed.wf() {
            assert forall|k: int| 0 <= k < tracks@.len() implies (#[trigger] tracks@[k])@.wf() by {
                assert(track_texts(tracks@)[k] == tracks@[k]@);
                assert(want[k] == merged_track(saved.tracks@, proposed.tracks@[k]));
                assert(proposed.tracks@[k]@.wf());
                lemma_saved_found(saved.tracks@, proposed.tracks@[k].rel_path@);
            }
        }
    }
    InboxDraft {
        category: saved.category.clone(),
        albumartist: saved.albumartist.clone(),
        album: saved.album.clone(),
        date: saved.date.clone(),
        tracks,
        album_gain: saved.album_gain,
        release_id: if saved.release_id.is_some() {
            saved.release_id.clone()
        } else {
            proposed.release_id.clone()
        },
        release_group_id: if saved.release_group_id.is_some() {
            saved.release_group_id.clone()
        } else {
            proposed.release_group_id.clone()
        },
    }
}

/// Merging keeps the files of the proposal, in their order, under the keys they
/// have.
pub proof fn law_merge_keeps_files(saved: Seq<DraftTrack>, p: DraftTrack)
    ensures
        canonical(merged_track(saved, p).rel_path) == canonical(p.rel_path@),
    decreases saved.len(),
{
    lemma_saved_found(saved, p.rel_path@);
}

proof fn lemma_saved_found(saved: Seq<DraftTrack>, path: Seq<char>)
    ensures
        saved_at(saved, path) matches Some(i) ==> 0 <= i < saved.len() && canonical(saved[i].rel_path@) == canonical(
            path,
        ),
    decreases saved.len(),
{
    if saved.len() > 0 && canonical(saved[0].rel_path@) != canonical(path) {
        lemma_saved_found(saved.drop_first(), path);
    }
}

// ---------------------------------------------------------------- warnings

/// The problems of a draft for the user to read.
pub fn warnings(files: &Vec<FileRow>, draft: &InboxDraft) -> (r: Vec<String>)
    ensures
        texts(r@) == problems_of(*draft, files@.map_values(|f: FileRow| f.rel_path@)).map_values(
            |p: Problem| problem_text(p),
        ),
{
    let mut names: Vec<String> = Vec::new();
    let ghost want = files@.map_values(|f: FileRow| f.rel_path@);
    let mut i: usize = 0;
    proof {
        assert(texts(names@) =~= want.take(0));
    }
    while i < files.len()
        invariant
            i <= files@.len(),
            want == files@.map_values(|f: FileRow| f.rel_path@),
            texts(names@) == want.take(i as int),
        decreases files@.len() - i,
    {
        let ghost before = texts(names@);
        names.push(files[i].rel_path.clone());
        proof {
            assert(texts(names@) =~= before.push(want[i as int]));
            assert(want.take(i + 1) =~= want.take(i as int).push(want[i as int]));
        }
        i = i + 1;
    }
    proof {
        assert(want.take(i as int) =~= want);
    }
    let errors = draft.problems(&names);
    let ghost problems = problems_of(*draft, want);
    let ghost said = problems.map_values(|p: Problem| problem_text(p));
    let mut out: Vec<String> = Vec::new();
    let mut j: usize = 0;
    proof {
        assert(texts(out@) =~= said.take(0));
    }
    while j < errors.len()
        invariant
            j <= errors@.len(),
            problems == crate::import::draft::problem_views(errors@),
            said == problems.map_values(|p: Problem| problem_text(p)),
            texts(out@) == said.take(j as int),
        decreases errors@.len() - j,
    {
        let ghost before = texts(out@);
        out.push(errors[j].message());
        proof {
            assert(problems[j as int] == errors@[j as int]@);
            assert(texts(out@) =~= before.push(said[j as int]));
            assert(said.take(j + 1) =~= said.take(j as int).push(said[j as int]));
        }
        j = j + 1;
    }
    proof {
        assert(said.take(j as int) =~= said);
    }
    out
}

/// The number of the audio track at index `i`: the one of the table of contents,
/// else counted from 1.
pub open spec fn audio_number(numbers: Seq<u8>, i: int) -> int {
    if i < numbers.len() {
        numbers[i] as int
    } else {
        i + 1
    }
}

/// A line for each of the first `n` tracks at which the position slipped.
pub open spec fn slip_lines(slips: Seq<u64>, numbers: Seq<u8>, n: int) -> Seq<Seq<char>>
    decreases n,
{
    if n <= 0 {
        Seq::empty()
    } else {
        let r = slip_lines(slips, numbers, n - 1);
        if slips[n - 1] > 0 {
            r.push(
                "トラック "@ + int_text(audio_number(numbers, n - 1)) + ": "@ + int_text(slips[n - 1] as int) + " 回"@,
            )
        } else {
            r
        }
    }
}

/// The disc agrees with one of the databases.
pub open spec fn is_verified(e: RipEntry) -> bool {
    ||| e.report.ctdb is Some && e.report.ctdb->0.verified
    ||| e.report.accuraterip is Some && e.report.accuraterip->0.verified
}

/// The warning where the position slipped while a disc was read and it agrees
/// with no database.
pub open spec fn slip_text(e: RipEntry, numbers: Seq<u8>) -> Option<Seq<char>> {
    let lines = slip_lines(e.report.slips@, numbers, e.report.slips@.len() as int);
    if is_verified(e) || lines.len() == 0 {
        None
    } else {
        Some(
            "吸い出しで読み取り位置のずれ（ドライブのジッター）を補正した箇所がある（"@ + joined(lines, "、"@)
                + "）。照合が通らないのはこのためかもしれない（別のドライブで吸い直すと確かめられる）"@,
        )
    }
}

/// What to warn of where the position slipped while a disc was read and it
/// agrees with no database. `numbers` are the numbers of the audio tracks, none
/// where the table of contents cannot be read.
pub fn slip_warning(e: &RipEntry, numbers: &Vec<u8>) -> (r: Option<String>)
    ensures
        opt_text(r) == slip_text(*e, numbers@),
{
    let verified = (match &e.report.ctdb {
        Some(m) => m.verified,
        None => false,
    }) || (match &e.report.accuraterip {
        Some(m) => m.verified,
        None => false,
    });
    let slips = &e.report.slips;
    let mut lines: Vec<String> = Vec::new();
    let n: usize = slips.len();
    let mut i: usize = 0;
    proof {
        assert(texts(lines@) =~= slip_lines(slips@, numbers@, 0));
    }
    while i < n
        invariant
            i <= n,
            n == slips@.len(),
            texts(lines@) == slip_lines(slips@, numbers@, i as int),
        decreases n - i,
    {
        if slips[i] > 0 {
            let no: u64 = if i < numbers.len() {
                numbers[i] as u64
            } else {
                (i + 1) as u64
            };
            let a = unsigned_to_text(no);
            let b = unsigned_to_text(slips[i]);
            let ghost before = texts(lines@);
            lines.push(crate::text::concat5("トラック ", &a, ": ", &b, " 回"));
            proof {
                assert(texts(lines@) =~= before.push(
                    "トラック "@ + int_text(audio_number(numbers@, i as int)) + ": "@ + int_text(slips@[i as int] as int)
                        + " 回"@,
                ));
            }
        }
        i = i + 1;
    }
    proof {
        assert(texts(lines@).len() == lines@.len());
    }
    if verified || lines.len() == 0 {
        return None;
    }
    let all = join(&lines, "、");
    Some(
        concat3(
            "吸い出しで読み取り位置のずれ（ドライブのジッター）を補正した箇所がある（",
            &all,
            "）。照合が通らないのはこのためかもしれない（別のドライブで吸い直すと確かめられる）",
        ),
    )
}

// ---------------------------------------------------------------- laws

proof fn lemma_split_first(a: Seq<char>, b: Seq<char>, c: char)
    requires
        !a.contains(c),
    ensures
        first_index(a + seq![c] + b, c) == Some(a.len() as int),
    decreases a.len(),
{
    let s = a + seq![c] + b;
    if a.len() > 0 {
        assert(s[0] == a[0]);
        assert(a.contains(a[0]));
        let t = a.drop_first();
        if t.contains(c) {
            let k = choose|k: int| 0 <= k < t.len() && t[k] == c;
            assert(a[k + 1] == c);
        }
        lemma_split_first(t, b, c);
        assert(s.drop_first() =~= t + seq![c] + b);
    }
}

/// A text is cut at its first separator: what stands before it and what stands behind it.
pub proof fn law_cut_at_the_first(a: Seq<char>, b: Seq<char>, c: char)
    requires
        !a.contains(c),
    ensures
        split_first(a + seq![c] + b, c) == Some((a, b)),
        split_first(a, c) is None,
{
    let s = a + seq![c] + b;
    lemma_split_first(a, b, c);
    assert(s.take(a.len() as int) =~= a);
    assert(s.skip(a.len() as int + 1) =~= b);
    lemma_no_index(a, c);
}

proof fn lemma_no_index(a: Seq<char>, c: char)
    requires
        !a.contains(c),
    ensures
        first_index(a, c) is None,
    decreases a.len(),
{
    if a.len() > 0 {
        assert(a.contains(a[0]));
        let t = a.drop_first();
        if t.contains(c) {
            let k = choose|k: int| 0 <= k < t.len() && t[k] == c;
            assert(a[k + 1] == c);
        }
        lemma_no_index(t, c);
    }
}

/// A track is proposed with what its own file says: its title without the space around it, and its numbers.
pub proof fn law_proposed_as_tagged(f: FileRow, i: int, n: u32)
    requires
        0 <= i < f.tags@.len(),
        forall|j: int| 0 <= j < i ==> (#[trigger] pair_views(f.tags@)[j]).0 != pair_views(f.tags@)[i].0,
    ensures
        track_proposal(f).rel_path == f.rel_path@,
        f.tags@[i].0@ == "TITLE"@ ==> track_proposal(f).title == trimmed(f.tags@[i].1@),
        f.tags@[i].0@ == "TRACKNUMBER"@ && f.tags@[i].1@ == int_text(n as int) ==> track_proposal(f).track_no == n,
        f.tags@[i].0@ == "DISCNUMBER"@ && f.tags@[i].1@ == int_text(n as int) ==> track_proposal(f).disc_no == n,
        track_proposal(f).tags.len() == 0 && track_proposal(f).picture is None,
{
    let t = pair_views(f.tags@);
    law_first_value(t, t[i].0, i);
    law_written_number_is_read_back(n as i64, Seq::empty());
    assert(int_text(n as int) + Seq::<char>::empty() =~= int_text(n as int));
}

/// A file without a number is proposed for the first disc and without a number there, and one without a
/// title without one.
pub proof fn law_proposed_without_tags(f: FileRow, key: Seq<char>)
    requires
        forall|j: int| 0 <= j < f.tags@.len() ==> (#[trigger] pair_views(f.tags@)[j]).0 != key,
    ensures
        key == "TITLE"@ ==> track_proposal(f).title.len() == 0,
        key == "TRACKNUMBER"@ ==> track_proposal(f).track_no == 0,
        key == "DISCNUMBER"@ ==> track_proposal(f).disc_no == 1,
        key == "ARTIST"@ ==> track_proposal(f).artist.len() == 0 && track_proposal(f).keep_artists == Some(false),
{
    law_no_value(pair_views(f.tags@), key);
}

/// The artists of a file are proposed as one text, with a semicolon between two of them; two or more of them are
/// kept as they are.
pub proof fn law_proposed_artists(f: FileRow, a: Seq<char>, b: Seq<char>)
    ensures
        values_of(pair_views(f.tags@), "ARTIST"@) == seq![a] ==> track_proposal(f).artist == a && track_proposal(
            f,
        ).keep_artists == Some(false),
        values_of(pair_views(f.tags@), "ARTIST"@) == seq![a, b] ==> track_proposal(f).artist == a + seq![';', ' '] + b
            && track_proposal(f).keep_artists == Some(true),
{
    reveal_strlit("; ");
    assert(ARTIST_JOIN@ =~= seq![';', ' ']);
    let two = seq![a, b];
    assert(two.drop_last() =~= seq![a]);
    assert(joined(seq![a], ARTIST_JOIN@) == a);
    assert(joined(two, ARTIST_JOIN@) == a + ARTIST_JOIN@ + b);
}

/// What a person saved for a file goes before what is proposed for it, and the other way round where nothing
/// was saved for it.
pub proof fn law_saved_goes_before_proposed(saved: Seq<DraftTrack>, p: DraftTrack, i: int)
    ensures
        0 <= i < saved.len() && canonical(saved[i].rel_path@) == canonical(p.rel_path@) && (forall|j: int|
            0 <= j < i ==> canonical((#[trigger] saved[j]).rel_path@) != canonical(p.rel_path@)) ==> merged_track(
            saved,
            p,
        ) == saved[i]@,
        (forall|j: int| 0 <= j < saved.len() ==> canonical((#[trigger] saved[j]).rel_path@) != canonical(p.rel_path@))
            ==> merged_track(saved, p) == p@,
{
    lemma_saved_first(saved, p.rel_path@, i);
}

proof fn lemma_saved_first(saved: Seq<DraftTrack>, path: Seq<char>, i: int)
    ensures
        0 <= i < saved.len() && canonical(saved[i].rel_path@) == canonical(path) && (forall|j: int|
            0 <= j < i ==> canonical((#[trigger] saved[j]).rel_path@) != canonical(path)) ==> saved_at(saved, path)
            == Some(i),
        (forall|j: int| 0 <= j < saved.len() ==> canonical((#[trigger] saved[j]).rel_path@) != canonical(path))
            ==> saved_at(saved, path) is None,
    decreases saved.len(),
{
    if saved.len() > 0 {
        let d = saved.drop_first();
        lemma_saved_first(d, path, i - 1);
        assert forall|j: int| 0 <= j < d.len() implies #[trigger] d[j] == saved[j + 1] by {}
    }
}

/// Of a column of tags the texts that say something are looked at, without the space around them; each of
/// them, and nothing else.
pub proof fn law_blank_values_say_nothing(v: Seq<Seq<char>>, i: int)
    ensures
        0 <= i < v.len() && trimmed(v[i]).len() > 0 ==> cleaned(v).contains(trimmed(v[i])),
        0 <= i < cleaned(v).len() ==> cleaned(v)[i].len() > 0 && exists|k: int|
            0 <= k < v.len() && trimmed(#[trigger] v[k]) == cleaned(v)[i],
        cleaned(v).len() <= v.len(),
    decreases v.len(),
{
    if v.len() > 0 {
        let d = v.drop_last();
        let r = cleaned(d);
        law_blank_values_say_nothing(d, i);
        assert(v.last() == v[v.len() - 1]);
        if 0 <= i < v.len() && trimmed(v[i]).len() > 0 {
            if i < d.len() {
                assert(d[i] == v[i]);
                let k = choose|k: int| 0 <= k < r.len() && r[k] == trimmed(v[i]);
                assert(cleaned(v)[k] == trimmed(v[i]));
            } else {
                assert(cleaned(v).last() == trimmed(v[i]));
            }
        }
        if 0 <= i < cleaned(v).len() {
            if i < r.len() {
                let k = choose|k: int| 0 <= k < d.len() && trimmed(#[trigger] d[k]) == r[i];
                assert(trimmed(v[k]) == cleaned(v)[i]);
            } else {
                assert(trimmed(v[v.len() - 1]) == cleaned(v)[i]);
            }
        }
    }
}

/// A column holds the first value of each file that has the tag.
pub proof fn law_column_of_the_files(files: Seq<FileRow>, key: Seq<char>, i: int)
    requires
        0 <= i < files.len(),
    ensures
        first_of(pair_views(files[i].tags@), key) matches Some(v) ==> tag_column(files, key).contains(v),
        (forall|f: int| 0 <= f < files.len() ==> first_of(pair_views((#[trigger] files[f]).tags@), key) is Some)
            ==> tag_column(files, key).len() == files.len() && Some(tag_column(files, key)[i]) == first_of(
            pair_views(files[i].tags@),
            key,
        ),
    decreases files.len(),
{
    let d = files.drop_last();
    let r = tag_column(d, key);
    assert(files.last() == files[files.len() - 1]);
    if i < files.len() - 1 {
        assert(d[i] == files[i]);
        law_column_of_the_files(d, key, i);
        if first_of(pair_views(files[i].tags@), key) is Some {
            let v = first_of(pair_views(files[i].tags@), key)->0;
            let k = choose|k: int| 0 <= k < r.len() && r[k] == v;
            assert(tag_column(files, key)[k] == v);
        }
        if forall|f: int| 0 <= f < files.len() ==> first_of(pair_views((#[trigger] files[f]).tags@), key) is Some {
            assert forall|f: int| 0 <= f < d.len() implies first_of(
                pair_views((#[trigger] d[f]).tags@),
                key,
            ) is Some by {
                assert(d[f] == files[f]);
            }
        }
    } else {
        if first_of(pair_views(files[i].tags@), key) is Some {
            assert(tag_column(files, key).last() == first_of(pair_views(files[i].tags@), key)->0);
        }
        if forall|f: int| 0 <= f < files.len() ==> first_of(pair_views((#[trigger] files[f]).tags@), key) is Some {
            assert forall|f: int| 0 <= f < d.len() implies first_of(
                pair_views((#[trigger] d[f]).tags@),
                key,
            ) is Some by {
                assert(d[f] == files[f]);
            }
            if d.len() > 0 {
                law_column_of_the_files(d, key, 0);
            }
        }
    }
}

/// Where all files agree on a value it is the one that is proposed.
pub proof fn law_agreed_value_is_proposed(r: Seq<char>, v: Seq<Seq<char>>, x: Seq<char>)
    requires
        is_first_mode(v, r),
        forall|i: int| 0 <= i < v.len() ==> #[trigger] v[i] == x,
    ensures
        r == x,
{
    let i = choose|i: int| #[trigger]
        occurs_first(v, r, i) && forall|k: int| 0 <= k < i ==> times(v, #[trigger] v[k]) < times(v, r);
    assert(v[i] == r);
}

/// Several artists are kept where a person says so, and else where the first of them is the artist of the
/// track.
pub proof fn law_when_artists_are_kept(keep: bool, effective: Seq<char>, artists: Seq<Seq<char>>, a: Seq<char>)
    ensures
        artists_kept(Some(keep), effective, artists) == keep,
        artists.len() <= 1 ==> !artists_kept(None, effective, artists),
        artists.len() > 1 && artists[0] == a ==> (artists_kept(None, effective, artists) <==> effective == a),
{
}

/// The category that is proposed is the one that the genre stands for.
pub proof fn law_category_of_a_genre(genre: Seq<char>, map: Seq<(String, i64)>, categories: Seq<(i64, String)>, c: int, id: i64)
    requires
        crate::import::albums::genre_with(map, canonical(genre)) == Some(id),
    ensures
        0 <= c < categories.len() && categories[c].0 == id && (forall|j: int|
            0 <= j < c ==> (#[trigger] categories[j]).0 != id) ==> category_of_genre(Some(genre), map, categories) == Some(
            categories[c].1@,
        ),
        (forall|j: int| 0 <= j < categories.len() ==> (#[trigger] categories[j]).0 != id) ==> category_of_genre(
            Some(genre),
            map,
            categories,
        ) is None,
        category_of_genre(None, map, categories) is None,
        mapped_genres(seq![genre], map) == seq![genre],
{
    lemma_category_name(categories, id, c);
    let one = seq![genre];
    assert(one.drop_last() =~= Seq::empty());
    assert(mapped_genres(one.drop_last(), map) =~= Seq::empty());
    assert(mapped_genres(one, map) =~= one);
}

proof fn lemma_category_name(categories: Seq<(i64, String)>, id: i64, c: int)
    ensures
        0 <= c < categories.len() && categories[c].0 == id && (forall|j: int|
            0 <= j < c ==> (#[trigger] categories[j]).0 != id) ==> category_name(categories, id) == Some(categories[c].1@),
        (forall|j: int| 0 <= j < categories.len() ==> (#[trigger] categories[j]).0 != id) ==> category_name(
            categories,
            id,
        ) is None,
    decreases categories.len(),
{
    if categories.len() > 0 {
        let d = categories.drop_first();
        lemma_category_name(d, id, c - 1);
        assert forall|j: int| 0 <= j < d.len() implies #[trigger] d[j] == categories[j + 1] by {}
    }
}

/// The genres of all files count, those that stand for no category left aside.
pub proof fn law_genres_of_the_files(files: Seq<FileRow>, f: int, g: int)
    requires
        0 <= f < files.len(),
        0 <= g < values_of(pair_views(files[f].tags@), "GENRE"@).len(),
    ensures
        all_genres(files).contains(values_of(pair_views(files[f].tags@), "GENRE"@)[g]),
    decreases files.len(),
{
    let d = files.drop_last();
    let r = all_genres(d);
    let all = all_genres(files);
    let x = values_of(pair_views(files[f].tags@), "GENRE"@)[g];
    if f < d.len() {
        assert(d[f] == files[f]);
        law_genres_of_the_files(d, f, g);
        let k = choose|k: int| 0 <= k < r.len() && r[k] == x;
        assert(all[k] == x);
    } else {
        assert(all[r.len() + g] == x);
    }
}

/// The pictures of a file are told by their sort and their hash, which stand before and behind the first colon; a
/// picture is looked for in each file that has it.
pub proof fn law_pictures_of_a_file(files: Seq<FileRow>, f: int, mime: Seq<char>, hash: Seq<char>, i: usize)
    requires
        0 <= f < files.len() <= usize::MAX,
        f == i,
        !mime.contains(':'),
        values_of(pair_views(files[f].tags@), "PICTURE"@) == seq![mime + seq![':'] + hash],
    ensures
        pictures_of(values_of(pair_views(files[f].tags@), "PICTURE"@)) == seq![(mime, hash)],
        files_with_picture(files, hash).contains(i),
        is_picture_with(("PICTURE"@, mime + seq![':'] + hash), hash),
    decreases files.len(),
{
    let v = seq![mime + seq![':'] + hash];
    law_cut_at_the_first(mime, hash, ':');
    assert(v.drop_last() =~= Seq::empty());
    assert(pictures_of(v.drop_last()) =~= Seq::empty());
    assert(pictures_of(v) =~= seq![(mime, hash)]);
    assert(seq![(mime, hash)][0].1 == hash);
    assert(has_picture(files[f], hash));
    let d = files.drop_last();
    let r = files_with_picture(d, hash);
    if f < d.len() {
        assert(d[f] == files[f]);
        law_pictures_of_a_file(d, f, mime, hash, i);
        let k = choose|k: int| 0 <= k < r.len() && r[k] == i;
        assert(files_with_picture(files, hash)[k] == i);
    } else {
        assert(files_with_picture(files, hash).last() == i);
    }
}

/// A picture that is chosen comes to stand before all others, and the rest keeps its order.
pub proof fn law_chosen_picture_comes_first(tags: Seq<(Seq<char>, Seq<char>)>, hash: Seq<char>, first: int, at: int)
    requires
        first_picture(tags, first),
        chosen_picture(tags, hash, at),
    ensures
        fronted(tags, first, at).len() == tags.len(),
        fronted(tags, first, at)[first] == tags[at],
        tags[at].0 == "PICTURE"@,
        forall|k: int| 0 <= k < first ==> (#[trigger] fronted(tags, first, at)[k]) == tags[k] && tags[k].0 != "PICTURE"@,
        forall|k: int| at < k < tags.len() ==> (#[trigger] fronted(tags, first, at)[k]) == tags[k],
{
    assert(first <= at);
}

/// An id that a person saved goes before the one of the tags.
pub proof fn law_saved_id_goes_first(a: Option<String>, b: Option<String>)
    ensures
        a is Some ==> or_text(a, b) == opt_text(a),
        a is None ==> or_text(a, b) == opt_text(b),
{
}

/// What is proposed for a release is what most of its files say: where all that say something agree, that; where the
/// first column says nothing, the second counts.
pub proof fn law_proposed_for_a_release(r: Seq<char>, first: Seq<Seq<char>>, second: Seq<Seq<char>>, x: Seq<char>)
    requires
        mode_or_empty(r, first, second),
    ensures
        cleaned(first).len() > 0 && (forall|i: int| 0 <= i < cleaned(first).len() ==> #[trigger] cleaned(first)[i] == x)
            ==> r == x,
        cleaned(first).len() == 0 && cleaned(second).len() > 0 && (forall|i: int|
            0 <= i < cleaned(second).len() ==> #[trigger] cleaned(second)[i] == x) ==> r == x,
        cleaned(first).len() == 0 && cleaned(second).len() == 0 ==> r.len() == 0,
{
    if cleaned(first).len() > 0 {
        if forall|i: int| 0 <= i < cleaned(first).len() ==> #[trigger] cleaned(first)[i] == x {
            law_agreed_value_is_proposed(r, cleaned(first), x);
        }
    } else if cleaned(second).len() > 0 {
        if forall|i: int| 0 <= i < cleaned(second).len() ==> #[trigger] cleaned(second)[i] == x {
            law_agreed_value_is_proposed(r, cleaned(second), x);
        }
    }
}

/// The same of a value that may be missing.
pub proof fn law_usual_value_of_a_column(r: Option<Seq<char>>, column: Seq<Seq<char>>, x: Seq<char>)
    requires
        mode_of_column(r, column),
    ensures
        cleaned(column).len() == 0 ==> r is None,
        cleaned(column).len() > 0 && (forall|i: int| 0 <= i < cleaned(column).len() ==> #[trigger] cleaned(column)[i] == x)
            ==> r == Some(x),
{
    if cleaned(column).len() > 0 && r is Some {
        if forall|i: int| 0 <= i < cleaned(column).len() ==> #[trigger] cleaned(column)[i] == x {
            law_agreed_value_is_proposed(r->0, cleaned(column), x);
        }
    }
    if cleaned(column).len() == 0 && r is Some {
        let i = choose|i: int| #[trigger] occurs_first(cleaned(column), r->0, i);
    }
}

/// A disc whose sound was found to be right is not warned of, nor one whose drive never slipped; any other is.
pub proof fn law_when_slips_are_warned_of(e: RipEntry, numbers: Seq<u8>, i: int)
    ensures
        e.report.ctdb matches Some(c) ==> (c.verified ==> slip_text(e, numbers) is None),
        e.report.accuraterip matches Some(a) ==> (a.verified ==> slip_text(e, numbers) is None),
        (forall|k: int| 0 <= k < e.report.slips@.len() ==> #[trigger] e.report.slips@[k] == 0) ==> slip_text(e, numbers)
            is None,
        0 <= i < e.report.slips@.len() && e.report.slips@[i] > 0 && (e.report.ctdb matches Some(c) ==> !c.verified) && (
        e.report.accuraterip matches Some(a) ==> !a.verified) ==> slip_text(e, numbers) is Some,
{
    lemma_slip_lines(e.report.slips@, numbers, e.report.slips@.len() as int, i);
}

proof fn lemma_slip_lines(slips: Seq<u64>, numbers: Seq<u8>, n: int, i: int)
    ensures
        (forall|k: int| 0 <= k < n ==> #[trigger] slips[k] == 0) ==> slip_lines(slips, numbers, n).len() == 0,
        0 <= i < n && slips[i] > 0 ==> slip_lines(slips, numbers, n).len() > 0,
    decreases n,
{
    if n > 0 {
        lemma_slip_lines(slips, numbers, n - 1, i);
    }
}

/// A track of a disc has the number that the disc gives it, and its place where the disc gives none.
pub proof fn law_numbers_of_a_disc(numbers: Seq<u8>, i: int)
    requires
        0 <= i,
    ensures
        i < numbers.len() ==> audio_number(numbers, i) == numbers[i],
        i >= numbers.len() ==> audio_number(numbers, i) == i + 1,
{
}

} // verus!
