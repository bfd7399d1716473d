//! Planning: what of a track decides its path, and which paths are taken.

use crate::catalog::TrackFields;
use crate::edit::error::EditError;
use crate::forms::{year_of, year_text};
use crate::import::destination::{layout_name, LayoutKind};
use crate::import::place::Planned;
use crate::import::placement::{mb_key, mb_key_text, release_key, release_key_text};
use crate::lists::has_id;
use crate::relpath::{file_name, file_name_of};
use crate::split::{lemma_last_index, rsplit_once};
use crate::text::{
    concat2, concat4, int_text, int_to_text, last_index, lemma_int_text_injective, opt_text, texts,
};
use vstd::prelude::*;
use vstd::string::*;

verus! {

/// A track with what its album says of it.
#[derive(Debug)]
pub struct TrackRow {
    pub rel_path: String,
    pub title: Option<String>,
    pub albumartist: Option<String>,
    pub artist_display: Option<String>,
    pub album: Option<String>,
    pub track_no: Option<i64>,
    pub disc_no: Option<i64>,
    pub date: Option<String>,
    pub album_id: Option<i64>,
    pub category: Option<String>,
    pub album_date: Option<String>,
    pub edition: Option<String>,
    pub mb_release_id: Option<String>,
    pub disc_count: Option<i64>,
    /// The highest disc number among the tracks of the album.
    pub max_disc: Option<i64>,
}

/// A track as its path is planned.
#[derive(Debug)]
pub struct TrackForPlan {
    pub id: i64,
    pub rel_path: String,
    pub fields: TrackFields,
    pub release: String,
    pub multi_disc: bool,
}

/// What tells one release from another: the key of the release of its album (see
/// [`release_key_text`]), and for a track without album its release id, else the
/// track itself. The identifier of a disc is no key: an album has one for each
/// disc.
pub open spec fn release_text(mb: Option<String>, album_id: Option<i64>, id: i64) -> Seq<char> {
    match album_id {
        Some(a) => release_key_text(a, opt_text(mb)),
        None => if mb is Some && mb->0@.len() > 0 {
            mb_key_text(mb->0@)
        } else {
            "track:"@ + int_text(id as int)
        },
    }
}

/// What tells one release from another (see [`release_text`]).
pub fn release_of(mb: &Option<String>, album_id: Option<i64>, id: i64) -> (r: String)
    ensures
        r@ == release_text(*mb, album_id, id),
{
    match album_id {
        Some(a) => release_key(a, mb),
        None => {
            if let Some(m) = mb {
                if !m.as_str().is_empty() {
                    return mb_key(m);
                }
            }
            let n = int_to_text(id);
            concat2("track:", &n)
        },
    }
}

/// The name of a file without its extension, and the extension. A name without
/// a dot has no extension, and the whole path stands for the name.
pub open spec fn name_parts(rel_path: Seq<char>) -> (Seq<char>, Seq<char>) {
    let name = file_name_of(rel_path);
    match last_index(name, '.') {
        Some(i) => (name.take(i), name.skip(i + 1)),
        None => (rel_path, Seq::empty()),
    }
}

fn parts_of(rel_path: &str) -> (r: (String, String))
    ensures
        (r.0@, r.1@) == name_parts(rel_path@),
{
    let name = file_name(rel_path);
    match rsplit_once(&name, '.') {
        Some(p) => p,
        None => (rel_path.to_owned(), String::new()),
    }
}

/// The year of a date, where there is one.
pub open spec fn year_in(date: Option<String>) -> Option<Seq<char>> {
    match date {
        Some(d) => year_text(d@),
        None => None,
    }
}

fn find_year(date: &Option<String>) -> (r: Option<String>)
    ensures
        opt_text(r) == year_in(*date),
{
    match date {
        Some(d) => year_of(d),
        None => None,
    }
}

/// More than one.
pub open spec fn several(n: Option<i64>) -> bool {
    n is Some && n->0 > 1
}

/// `t` is the track `id` with this row as its path is planned. The year is that
/// of the album, else that of the track; an album has several discs where it
/// says so or a track is on a later one.
pub open spec fn is_for_plan(t: TrackForPlan, id: i64, row: TrackRow) -> bool {
    &&& t.id == id
    &&& t.rel_path@ == row.rel_path@
    &&& t.release@ == release_text(row.mb_release_id, row.album_id, id)
    &&& t.multi_disc == (several(row.disc_count) || several(row.max_disc))
    &&& opt_text(t.fields.category) == opt_text(row.category)
    &&& opt_text(t.fields.albumartist) == opt_text(row.albumartist)
    &&& opt_text(t.fields.artist) == opt_text(row.artist_display)
    &&& opt_text(t.fields.album) == opt_text(row.album)
    &&& opt_text(t.fields.title) == opt_text(row.title)
    &&& t.fields.disc_no == row.disc_no
    &&& t.fields.track_no == row.track_no
    &&& opt_text(t.fields.year) == (match year_in(row.album_date) {
        Some(y) => Some(y),
        None => year_in(row.date),
    })
    &&& opt_text(t.fields.edition) == opt_text(row.edition)
    &&& (t.fields.stem@, t.fields.ext@) == name_parts(row.rel_path@)
}

/// What of a track decides its path (see [`is_for_plan`]).
pub fn track_for_plan(id: i64, row: &TrackRow) -> (r: TrackForPlan)
    ensures
        is_for_plan(r, id, *row),
        r.id == id,
        r.rel_path@ == row.rel_path@,
        opt_text(r.fields.title) == opt_text(row.title),
        opt_text(r.fields.album) == opt_text(row.album),
        opt_text(r.fields.albumartist) == opt_text(row.albumartist),
        opt_text(r.fields.artist) == opt_text(row.artist_display),
        opt_text(r.fields.category) == opt_text(row.category),
        opt_text(r.fields.edition) == opt_text(row.edition),
        r.fields.track_no == row.track_no,
        r.fields.disc_no == row.disc_no,
{
    let release = release_of(&row.mb_release_id, row.album_id, id);
    let parts = parts_of(&row.rel_path);
    let year = match find_year(&row.album_date) {
        Some(y) => Some(y),
        None => find_year(&row.date),
    };
    let declared = match row.disc_count {
        Some(n) => n > 1,
        None => false,
    };
    let seen = match row.max_disc {
        Some(n) => n > 1,
        None => false,
    };
    TrackForPlan {
        id,
        rel_path: row.rel_path.clone(),
        fields: TrackFields {
            category: row.category.clone(),
            albumartist: row.albumartist.clone(),
            artist: row.artist_display.clone(),
            album: row.album.clone(),
            title: row.title.clone(),
            disc_no: row.disc_no,
            track_no: row.track_no,
            year,
            edition: row.edition.clone(),
            ext: parts.1,
            stem: parts.0,
        },
        release,
        multi_disc: declared || seen,
    }
}

/// Tracks whose rows agree on the album and its artist agree on them as their paths
/// are planned, whatever their titles; and each keeps its own title, artist and
/// numbers.
pub proof fn law_tracks_of_an_album_are_planned_alike(
    a: TrackForPlan,
    b: TrackForPlan,
    id_a: i64,
    id_b: i64,
    row_a: TrackRow,
    row_b: TrackRow,
)
    requires
        is_for_plan(a, id_a, row_a),
        is_for_plan(b, id_b, row_b),
    ensures
        opt_text(row_a.album) == opt_text(row_b.album) ==> opt_text(a.fields.album) == opt_text(b.fields.album),
        opt_text(row_a.album) != opt_text(row_b.album) ==> opt_text(a.fields.album) != opt_text(b.fields.album),
        opt_text(row_a.albumartist) == opt_text(row_b.albumartist) <==> opt_text(a.fields.albumartist) == opt_text(
            b.fields.albumartist,
        ),
        opt_text(row_a.category) == opt_text(row_b.category) <==> opt_text(a.fields.category) == opt_text(
            b.fields.category,
        ),
        opt_text(row_a.edition) == opt_text(row_b.edition) <==> opt_text(a.fields.edition) == opt_text(b.fields.edition),
        opt_text(row_a.title) == opt_text(row_b.title) <==> opt_text(a.fields.title) == opt_text(b.fields.title),
        opt_text(row_a.artist_display) == opt_text(row_b.artist_display) <==> opt_text(a.fields.artist) == opt_text(
            b.fields.artist,
        ),
        a.fields.title is Some ==> a.fields.title->0@ == row_a.title->0@,
        a.fields.album is Some ==> a.fields.album->0@ == row_a.album->0@,
        a.fields.albumartist is Some ==> a.fields.albumartist->0@ == row_a.albumartist->0@,
        a.fields.artist is Some ==> a.fields.artist->0@ == row_a.artist_display->0@,
        a.fields.category is Some ==> a.fields.category->0@ == row_a.category->0@,
        a.fields.track_no == row_a.track_no,
        a.fields.disc_no == row_a.disc_no,
        a.fields.title is Some <==> row_a.title is Some,
        a.fields.album is Some <==> row_a.album is Some,
{
}

/// The year of a track is the first four digits of the date of its album; only where
/// that has none it is that of its own date.
pub proof fn law_year_is_that_of_the_album(t: TrackForPlan, id: i64, row: TrackRow, y: Seq<char>, rest: Seq<char>)
    requires
        is_for_plan(t, id, row),
        y.len() == 4,
        forall|i: int| 0 <= i < 4 ==> '0' <= #[trigger] y[i] <= '9',
    ensures
        row.album_date is Some && row.album_date->0@ == y + rest ==> opt_text(t.fields.year) == Some(y),
        row.album_date is None && row.date is Some && row.date->0@ == y + rest ==> opt_text(t.fields.year) == Some(y),
        row.album_date is None && row.date is None ==> t.fields.year is None,
{
    assert((y + rest).take(4) =~= y);
    assert(crate::text::all_digits(y)) by {
        assert forall|i: int| 0 <= i < y.len() implies crate::text::is_digit(#[trigger] y[i]) by {}
    }
}

/// The name and the extension of a file are those of its path: with a dot between and
/// the directory before them they are the path again. An album is one of several discs
/// where it says so, or where a track stands on a disc behind the first.
pub proof fn law_name_and_extension_are_those_of_the_path(t: TrackForPlan, id: i64, row: TrackRow)
    requires
        is_for_plan(t, id, row),
    ensures
        file_name_of(row.rel_path@).contains('.') ==> t.fields.stem@ + seq!['.'] + t.fields.ext@ == file_name_of(
            row.rel_path@,
        ) && !t.fields.ext@.contains('.'),
        !file_name_of(row.rel_path@).contains('.') ==> t.fields.ext@.len() == 0,
        t.multi_disc <==> (row.disc_count is Some && row.disc_count->0 >= 2) || (row.max_disc is Some && row.max_disc->0
            >= 2),
{
    let name = file_name_of(row.rel_path@);
    lemma_last_index(name, '.');
    match last_index(name, '.') {
        Some(i) => {
            assert(name.take(i) + seq!['.'] + name.skip(i + 1) =~= name);
            let ext = name.skip(i + 1);
            if ext.contains('.') {
                let k = choose|k: int| 0 <= k < ext.len() && ext[k] == '.';
                assert(name[i + 1 + k] == '.');
            }
        },
        None => {
            if name.contains('.') {
                let k = choose|k: int| 0 <= k < name.len() && name[k] == '.';
                assert(name[k] != '.');
            }
        },
    }
}

/// The layout that places a track.
pub open spec fn layout_of(category_known: bool, multi_disc: bool) -> LayoutKind {
    if !category_known {
        LayoutKind::Unsorted
    } else if multi_disc {
        LayoutKind::MultiDisc
    } else {
        LayoutKind::SingleDisc
    }
}

/// The layout that places a track.
pub fn for_track(t: &TrackForPlan) -> (r: LayoutKind)
    ensures
        r == layout_of(t.fields.category is Some, t.multi_disc),
{
    if t.fields.category.is_none() {
        LayoutKind::Unsorted
    } else if t.multi_disc {
        LayoutKind::MultiDisc
    } else {
        LayoutKind::SingleDisc
    }
}

/// The fault of a layout that cannot be read.
pub open spec fn layout_fault(kind: LayoutKind, fault: Seq<char>) -> Seq<char> {
    "[layout]."@ + layout_name(kind) + " が不正: "@ + fault
}

/// The layouts have to be readable. The faults are those of reading each of
/// them; the first is reported.
pub fn check_layouts(single: Option<&str>, multi: Option<&str>, unsorted: Option<&str>) -> (r: Result<(), EditError>)
    ensures
        match (single, multi, unsorted) {
            (Some(f), _, _) => r matches Err(EditError::Internal(m)) && m@ == layout_fault(LayoutKind::SingleDisc, f@),
            (None, Some(f), _) => r matches Err(EditError::Internal(m)) && m@ == layout_fault(
                LayoutKind::MultiDisc,
                f@,
            ),
            (None, None, Some(f)) => r matches Err(EditError::Internal(m)) && m@ == layout_fault(
                LayoutKind::Unsorted,
                f@,
            ),
            (None, None, None) => r is Ok,
        },
{
    if let Some(f) = single {
        return Err(EditError::Internal(concat4("[layout].", "single_disc", " が不正: ", f)));
    }
    if let Some(f) = multi {
        return Err(EditError::Internal(concat4("[layout].", "multi_disc", " が不正: ", f)));
    }
    if let Some(f) = unsorted {
        return Err(EditError::Internal(concat4("[layout].", "unsorted", " が不正: ", f)));
    }
    Ok(())
}

/// The track at `i` is the first that is not there.
pub open spec fn first_gap(rows: Seq<Option<TrackRow>>, i: int) -> bool {
    &&& 0 <= i < rows.len()
    &&& rows[i] is None
    &&& forall|j: int| 0 <= j < i ==> #[trigger] rows[j] is Some
}

/// The track at `i` is there, and is in the list as its path is planned.
pub open spec fn is_at(v: Seq<TrackForPlan>, i: int, ids: Seq<i64>, rows: Seq<Option<TrackRow>>) -> bool {
    &&& rows[i] is Some
    &&& is_for_plan(v[i], ids[i], rows[i]->0)
}

/// The tracks whose paths are planned, in the order of the selection. `rows`
/// holds for each of the ids what is known of the track, none where there is no
/// such track.
pub fn tracks_for_plan(ids: &Vec<i64>, rows: &Vec<Option<TrackRow>>) -> (r: Result<Vec<TrackForPlan>, EditError>)
    requires
        rows@.len() == ids@.len(),
    ensures
        match r {
            Ok(v) => v@.len() == ids@.len() && forall|i: int|
                0 <= i < ids@.len() ==> #[trigger] is_at(v@, i, ids@, rows@),
            Err(e) => exists|i: int| #[trigger] first_gap(rows@, i) && e == EditError::TrackNotFound(ids@[i]),
        },
{
    let mut out: Vec<TrackForPlan> = Vec::new();
    let mut i: usize = 0;
    while i < ids.len()
        invariant
            i <= ids@.len(),
            rows@.len() == ids@.len(),
            out@.len() == i,
            forall|k: int| 0 <= k < i ==> #[trigger] is_at(out@, k, ids@, rows@),
        decreases ids@.len() - i,
    {
        match &rows[i] {
            Some(row) => {
                let ghost before = out@;
                let t = track_for_plan(ids[i], row);
                out.push(t);
                proof {
                    assert forall|k: int| 0 <= k < i + 1 implies #[trigger] is_at(out@, k, ids@, rows@) by {
                        if k < i {
                            assert(is_at(before, k, ids@, rows@));
                        }
                    }
                }
            },
            None => {
                proof {
                    assert forall|j: int| 0 <= j < i implies #[trigger] rows@[j] is Some by {
                        assert(is_at(out@, j, ids@, rows@));
                    }
                    assert(first_gap(rows@, i as int));
                }
                return Err(EditError::TrackNotFound(ids[i]));
            },
        }
        i = i + 1;
    }
    Ok(out)
}

// ---------------------------------------------------------------- taken paths

/// A track that is there, with its album.
#[derive(Debug)]
pub struct Occupant {
    pub id: i64,
    pub rel_path_key: String,
    pub album_id: Option<i64>,
    pub mb_release_id: Option<String>,
    pub rel_dir_key: Option<String>,
}

/// What is taken outside the selection.
#[derive(Debug)]
pub struct Occupancy {
    /// The keys of paths.
    pub path_keys: Vec<String>,
    /// The keys of directories, each with a release whose tracks stand there.
    pub dir_releases: Vec<(String, String)>,
}

/// The keys of the tracks outside the selection.
pub open spec fn taken_paths(rows: Seq<Occupant>, selected: Seq<i64>) -> Seq<Seq<char>>
    decreases rows.len(),
{
    if rows.len() == 0 {
        Seq::empty()
    } else {
        let r = taken_paths(rows.drop_last(), selected);
        if selected.contains(rows.last().id) {
            r
        } else {
            r.push(rows.last().rel_path_key@)
        }
    }
}

/// The directories of the tracks outside the selection, with the release of
/// each.
pub open spec fn taken_dirs(rows: Seq<Occupant>, selected: Seq<i64>) -> Seq<(Seq<char>, Seq<char>)>
    decreases rows.len(),
{
    if rows.len() == 0 {
        Seq::empty()
    } else {
        let r = taken_dirs(rows.drop_last(), selected);
        let x = rows.last();
        if selected.contains(x.id) {
            r
        } else {
            match x.rel_dir_key {
                Some(d) => r.push((d@, release_text(x.mb_release_id, x.album_id, x.id))),
                None => r,
            }
        }
    }
}

/// What is taken by the tracks outside the selection.
pub fn occupancy(rows: &Vec<Occupant>, selected: &Vec<i64>) -> (r: Occupancy)
    ensures
        texts(r.path_keys@) == taken_paths(rows@, selected@),
        crate::catalog::pair_views(r.dir_releases@) == taken_dirs(rows@, selected@),
{
    let mut path_keys: Vec<String> = Vec::new();
    let mut dir_releases: Vec<(String, String)> = Vec::new();
    let mut i: usize = 0;
    proof {
        assert(texts(path_keys@) =~= Seq::<Seq<char>>::empty());
        assert(crate::catalog::pair_views(dir_releases@) =~= Seq::<(Seq<char>, Seq<char>)>::empty());
    }
    while i < rows.len()
        invariant
            i <= rows@.len(),
            texts(path_keys@) == taken_paths(rows@.take(i as int), selected@),
            crate::catalog::pair_views(dir_releases@) == taken_dirs(rows@.take(i as int), selected@),
        decreases rows@.len() - i,
    {
        let row = &rows[i];
        proof {
            assert(rows@.take(i + 1).last() == *row);
            assert(rows@.take(i + 1).drop_last() =~= rows@.take(i as int));
        }
        if !has_id(selected, row.id) {
            let ghost p0 = texts(path_keys@);
            let ghost d0 = crate::catalog::pair_views(dir_releases@);
            if let Some(d) = &row.rel_dir_key {
                let release = release_of(&row.mb_release_id, row.album_id, row.id);
                let ghost rt = release@;
                dir_releases.push((d.clone(), release));
                proof {
                    assert(crate::catalog::pair_views(dir_releases@) =~= d0.push((d@, rt)));
                }
            }
            path_keys.push(row.rel_path_key.clone());
            proof {
                assert(texts(path_keys@) =~= p0.push(row.rel_path_key@));
            }
        }
        i = i + 1;
    }
    proof {
        assert(rows@.take(i as int) =~= rows@);
    }
    Occupancy { path_keys, dir_releases }
}

/// The tracks of an album are of the release that placing a file into its
/// directory compares with: what stands there is never another release.
pub proof fn law_own_directory_is_own_release(x: Occupant, album_id: i64)
    requires
        x.album_id == Some(album_id),
    ensures
        release_text(x.mb_release_id, x.album_id, x.id) == release_key_text(album_id, opt_text(x.mb_release_id)),
{
}

// ---------------------------------------------------------------- the plan

/// The path that is planned for a track.
#[derive(Debug)]
pub struct PlannedRename {
    pub track_id: i64,
    pub current_rel_path: String,
    pub planned: Planned,
}

/// The track with the path planned for it.
pub fn planned_rename(t: TrackForPlan, planned: Planned) -> (r: PlannedRename)
    ensures
        r.track_id == t.id,
        r.current_rel_path == t.rel_path,
        r.planned == planned,
{
    PlannedRename { track_id: t.id, current_rel_path: t.rel_path, planned }
}

/// The layout of a path: what has no category is kept apart, and a release of several discs has a directory
/// for each.
pub proof fn law_layout(known: bool, multi: bool)
    ensures
        layout_of(false, multi) == LayoutKind::Unsorted,
        layout_of(true, true) == LayoutKind::MultiDisc,
        layout_of(true, false) == LayoutKind::SingleDisc,
        layout_of(known, multi) == LayoutKind::Unsorted <==> !known,
{
}

/// The paths that are taken are those of all other tracks: not that of a track that is to be renamed itself.
pub proof fn law_taken_paths(rows: Seq<Occupant>, selected: Seq<i64>, i: int)
    requires
        0 <= i < rows.len(),
    ensures
        !selected.contains(rows[i].id) ==> taken_paths(rows, selected).contains(rows[i].rel_path_key@),
        !selected.contains(rows[i].id) && rows[i].rel_dir_key is Some ==> taken_dirs(rows, selected).contains(
            (rows[i].rel_dir_key->0@, release_text(rows[i].mb_release_id, rows[i].album_id, rows[i].id)),
        ),
        (forall|k: int| 0 <= k < rows.len() ==> selected.contains((#[trigger] rows[k]).id)) ==> taken_paths(
            rows,
            selected,
        ).len() == 0 && taken_dirs(rows, selected).len() == 0,
    decreases rows.len(),
{
    let d = rows.drop_last();
    let p = taken_paths(d, selected);
    let q = taken_dirs(d, selected);
    assert(rows.last() == rows[rows.len() - 1]);
    assert forall|k: int| 0 <= k < d.len() implies #[trigger] d[k] == rows[k] by {}
    if d.len() > 0 {
        law_taken_paths(d, selected, if i < d.len() {
            i
        } else {
            0
        });
    }
    if !selected.contains(rows[i].id) {
        let key = rows[i].rel_path_key@;
        if i < d.len() {
            let k = choose|k: int| 0 <= k < p.len() && p[k] == key;
            assert(taken_paths(rows, selected)[k] == key);
        } else {
            assert(taken_paths(rows, selected).last() == key);
        }
        if rows[i].rel_dir_key is Some {
            let m = (rows[i].rel_dir_key->0@, release_text(rows[i].mb_release_id, rows[i].album_id, rows[i].id));
            if i < d.len() {
                let k = choose|k: int| 0 <= k < q.len() && q[k] == m;
                assert(taken_dirs(rows, selected)[k] == m);
            } else {
                assert(taken_dirs(rows, selected).last() == m);
            }
        }
    }
}

/// The release of a track is that of its album; a track without an album goes by the id of its own release,
/// and else is a release of its own.
pub proof fn law_release_of_a_track(mb: Option<String>, album: i64, id: i64, other: i64)
    ensures
        release_text(mb, Some(album), id) == release_text(mb, Some(album), other),
        mb is None ==> (release_text(mb, None, id) == release_text(mb, None, other) <==> id == other),
        mb matches Some(m) ==> (m@.len() > 0 ==> release_text(mb, None, id) == release_text(mb, Some(album), other)),
{
    let p = "track:"@;
    let a = p + int_text(id as int);
    let b = p + int_text(other as int);
    assert(a.skip(p.len() as int) =~= int_text(id as int));
    assert(b.skip(p.len() as int) =~= int_text(other as int));
    if a == b {
        lemma_int_text_injective(id as int, other as int);
    }
}

/// Planning names the first track that is not there any more.
pub proof fn law_first_gap(rows: Seq<Option<TrackRow>>, i: int) -> (j: int)
    requires
        0 <= i < rows.len(),
        rows[i] is None,
    ensures
        0 <= j <= i,
        first_gap(rows, j),
        rows[j] is None,
        forall|x: int| first_gap(rows, x) ==> x == j,
    decreases i,
{
    if exists|k: int| 0 <= k < i && #[trigger] rows[k] is None {
        let k = choose|k: int| 0 <= k < i && #[trigger] rows[k] is None;
        law_first_gap(rows, k)
    } else {
        assert forall|x: int| first_gap(rows, x) implies x == i by {
            assert(rows[x] is None);
        }
        i
    }
}

} // verus!
