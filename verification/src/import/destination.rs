//! Where an item of the inbox goes: the tags its files get, the path of each
//! track, and the album that takes them.

use crate::catalog::{
    change_views, first_of, law_first_value, pair_views, values_of, TagChange, TrackFields,
};
use crate::forms::year_text;
use crate::import::albums::values_under;
use crate::import::draft::{disc_total, opt_texts, DraftTrack, InboxDraft};
use crate::import::inbox::InboxError;
use crate::import::placement::{mb_key, mb_key_text, release_key, release_key_text};
use crate::import::proposal::{
    artist_values, artists_kept, clean_values, cleaned, column, keeps_artists,
    law_usual_value_of_a_column, mode, mode_of_column, tag, tag_column, FileRow,
};
use crate::import::scanner::{number_of, ARTIST_SEPARATOR};
use crate::import::ytmusic::metadata::pair_if;
use crate::relpath::{file_name, file_name_of};
use crate::split::{
    has_member, has_prefix, join, lemma_last_index, lemma_last_index_is, rsplit_once, same_texts,
};
use crate::text::{
    ascii_lower, concat2, concat3, concat4, int_text, int_to_text, is_blank, joined, last_index,
    law_written_number_is_read_back, lower_text, opt_str, opt_text, same_text, starts_with, texts,
    trim, trimmed, unsigned_to_text,
};
use crate::unicode::{canonical, canonical_key};
use vstd::prelude::*;
use vstd::string::*;

verus! {

// ---------------------------------------------------------------- tags

/// A text that says something, trimmed.
pub open spec fn said_text(o: Option<String>) -> Option<Seq<char>> {
    match o {
        Some(s) => if is_blank(s@) {
            None
        } else {
            Some(trimmed(s@))
        },
        None => None,
    }
}

/// A text that says something, trimmed.
pub fn said(o: &Option<String>) -> (r: Option<String>)
    ensures
        opt_text(r) == said_text(*o),
{
    match o {
        Some(s) => {
            let t = trim(s);
            if t.as_str().is_empty() {
                None
            } else {
                Some(t)
            }
        },
        None => None,
    }
}

/// The tags that the fields of a draft ask for in the file of the track `i`.
pub open spec fn desired_tags(d: InboxDraft, i: int) -> Seq<(Seq<char>, Seq<char>)> {
    let t = d.tracks@[i];
    seq![
        ("ALBUMARTIST"@, trimmed(d.albumartist@)),
        ("ALBUM"@, trimmed(d.album@)),
        ("TITLE"@, trimmed(t.title@)),
        ("ARTIST"@, d.artist_of(i)),
        ("TRACKNUMBER"@, int_text(t.track_no as int)),
        ("DISCNUMBER"@, int_text(t.disc_no as int)),
    ] + pair_if("DATE"@, said_text(d.date)) + pair_if(
        "DISCTOTAL"@,
        if disc_total(d.tracks@) > 1 {
            Some(int_text(disc_total(d.tracks@) as int))
        } else {
            None
        },
    ) + pair_if("MUSICBRAINZ_ALBUMID"@, said_text(d.release_id)) + pair_if(
        "MUSICBRAINZ_RELEASEGROUPID"@,
        said_text(d.release_group_id),
    )
}

/// A tag that is asked for has to be written: the file has not that one value,
/// and it is not one of artists that are kept.
pub open spec fn is_written(
    p: (Seq<char>, Seq<char>),
    current: Seq<(Seq<char>, Seq<char>)>,
    keeps: bool,
) -> bool {
    !(p.0 == "ARTIST"@ && keeps) && values_of(current, p.0) != seq![p.1]
}

/// The changes that write what is asked for, as far as the file differs.
pub open spec fn field_changes(
    desired: Seq<(Seq<char>, Seq<char>)>,
    current: Seq<(Seq<char>, Seq<char>)>,
    keeps: bool,
) -> Seq<(Seq<char>, Option<Seq<Seq<char>>>)>
    decreases desired.len(),
{
    if desired.len() == 0 {
        Seq::empty()
    } else {
        let r = field_changes(desired.drop_last(), current, keeps);
        let p = desired.last();
        if is_written(p, current, keeps) {
            r.push((p.0, Some(seq![p.1])))
        } else {
            r
        }
    }
}

/// The values that a corrected tag gets: those that say something, none where
/// there are none.
pub open spec fn corrected_values(values: Option<Vec<String>>) -> Option<Seq<Seq<char>>> {
    match values {
        Some(v) => if cleaned(texts(v@)).len() > 0 {
            Some(cleaned(texts(v@)))
        } else {
            None
        },
        None => None,
    }
}

/// The file has the values already.
pub open spec fn has_values(current: Seq<(Seq<char>, Seq<char>)>, key: Seq<char>, values: Option<Seq<Seq<char>>>) -> bool {
    match values {
        Some(v) => values_of(current, key) == v,
        None => values_of(current, key).len() == 0,
    }
}

/// The changes that write the corrected tags, as far as the file differs.
pub open spec fn corrected_changes(
    tags: Seq<(String, Option<Vec<String>>)>,
    current: Seq<(Seq<char>, Seq<char>)>,
    n: int,
) -> Seq<(Seq<char>, Option<Seq<Seq<char>>>)>
    decreases n,
{
    if n <= 0 {
        Seq::empty()
    } else {
        let r = corrected_changes(tags, current, n - 1);
        let values = corrected_values(tags[n - 1].1);
        if has_values(current, tags[n - 1].0@, values) {
            r
        } else {
            r.push((tags[n - 1].0@, values))
        }
    }
}

/// All changes that a draft makes to the file of the track `i`.
pub open spec fn all_changes(d: InboxDraft, i: int, current: Seq<(Seq<char>, Seq<char>)>) -> Seq<
    (Seq<char>, Option<Seq<Seq<char>>>),
> {
    let t = d.tracks@[i];
    field_changes(
        desired_tags(d, i),
        current,
        artists_kept(t.keep_artists, d.artist_of(i), values_of(current, "ARTIST"@)),
    ) + corrected_changes(t.tags@, current, t.tags@.len() as int)
}

fn push_desired(out: &mut Vec<(String, String)>, key: &str, value: String)
    ensures
        pair_views(final(out)@) == pair_views(old(out)@) + seq![(key@, value@)],
{
    let ghost before = pair_views(out@);
    let ghost v = value@;
    out.push((key.to_owned(), value));
    proof {
        assert(pair_views(out@) =~= before + seq![(key@, v)]);
    }
}

fn push_optional(out: &mut Vec<(String, String)>, key: &str, value: Option<String>)
    ensures
        pair_views(final(out)@) == pair_views(old(out)@) + pair_if(key@, opt_text(value)),
{
    proof {
        assert(pair_views(out@) + Seq::<(Seq<char>, Seq<char>)>::empty() =~= pair_views(out@));
    }
    if let Some(v) = value {
        push_desired(out, key, v);
    }
}

fn collect_desired(draft: &InboxDraft, i: usize) -> (r: Vec<(String, String)>)
    requires
        i < draft.tracks@.len(),
    ensures
        pair_views(r@) == desired_tags(*draft, i as int),
{
    let t = &draft.tracks[i];
    let mut out: Vec<(String, String)> = Vec::new();
    proof {
        assert(pair_views(out@) =~= Seq::empty());
    }
    push_desired(&mut out, "ALBUMARTIST", trim(&draft.albumartist));
    push_desired(&mut out, "ALBUM", trim(&draft.album));
    push_desired(&mut out, "TITLE", trim(&t.title));
    push_desired(&mut out, "ARTIST", draft.track_artist(i));
    push_desired(&mut out, "TRACKNUMBER", unsigned_to_text(t.track_no as u64));
    push_desired(&mut out, "DISCNUMBER", unsigned_to_text(t.disc_no as u64));
    proof {
        let d = *draft;
        assert(pair_views(out@) =~= seq![
            ("ALBUMARTIST"@, trimmed(d.albumartist@)),
            ("ALBUM"@, trimmed(d.album@)),
            ("TITLE"@, trimmed(t.title@)),
            ("ARTIST"@, d.artist_of(i as int)),
            ("TRACKNUMBER"@, int_text(t.track_no as int)),
            ("DISCNUMBER"@, int_text(t.disc_no as int)),
        ]);
    }
    push_optional(&mut out, "DATE", said(&draft.date));
    let discs = draft.disc_count();
    let total = if discs > 1 {
        Some(unsigned_to_text(discs as u64))
    } else {
        None
    };
    push_optional(&mut out, "DISCTOTAL", total);
    push_optional(&mut out, "MUSICBRAINZ_ALBUMID", said(&draft.release_id));
    push_optional(&mut out, "MUSICBRAINZ_RELEASEGROUPID", said(&draft.release_group_id));
    out
}

/// The changes that a draft makes to the file of the track `index`, whose tags
/// are `current`: only what differs is written.
pub fn tag_changes(draft: &InboxDraft, index: usize, current: &Vec<(String, String)>) -> (r: Vec<TagChange>)
    requires
        index < draft.tracks@.len(),
    ensures
        change_views(r@) == all_changes(*draft, index as int, pair_views(current@)),
{
    let t = &draft.tracks[index];
    let ghost cur = pair_views(current@);
    let artist = draft.track_artist(index);
    let keeps = keeps_artists(t.keep_artists, &artist, current);
    let desired = collect_desired(draft, index);
    let ghost want = pair_views(desired@);
    let mut out: Vec<TagChange> = Vec::new();
    let mut i: usize = 0;
    proof {
        assert(change_views(out@) =~= field_changes(want.take(0), cur, keeps));
    }
    while i < desired.len()
        invariant
            i <= desired@.len(),
            want == pair_views(desired@),
            cur == pair_views(current@),
            change_views(out@) == field_changes(want.take(i as int), cur, keeps),
        decreases desired@.len() - i,
    {
        proof {
            assert(want.take(i + 1).last() == (desired@[i as int].0@, desired@[i as int].1@));
            assert(want.take(i + 1).drop_last() =~= want.take(i as int));
        }
        let kept = same_text(&desired[i].0, "ARTIST") && keeps;
        let now = values_under(current, &desired[i].0);
        let ghost before = change_views(out@);
        let mut values: Vec<String> = Vec::new();
        values.push(desired[i].1.clone());
        proof {
            assert(texts(values@) =~= seq![desired@[i as int].1@]);
        }
        if !kept && !same_texts(&now, &values) {
            out.push(TagChange { key: desired[i].0.clone(), values: Some(values) });
            proof {
                assert(change_views(out@) =~= before.push(
                    (desired@[i as int].0@, Some(seq![desired@[i as int].1@])),
                ));
            }
        }
        i = i + 1;
    }
    let ghost fields = change_views(out@);
    let mut j: usize = 0;
    proof {
        assert(want.take(i as int) =~= want);
        assert(fields + corrected_changes(t.tags@, cur, 0) =~= fields);
    }
    while j < t.tags.len()
        invariant
            j <= t.tags@.len(),
            cur == pair_views(current@),
            change_views(out@) == fields + corrected_changes(t.tags@, cur, j as int),
        decreases t.tags@.len() - j,
    {
        let ghost before = change_views(out@);
        let values: Option<Vec<String>> = match &t.tags[j].1 {
            Some(v) => {
                let c = clean_values(v);
                proof {
                    assert(texts(c@).len() == c@.len());
                }
                if c.len() > 0 {
                    Some(c)
                } else {
                    None
                }
            },
            None => None,
        };
        let now = values_under(current, &t.tags[j].0);
        proof {
            assert(texts(now@).len() == now@.len());
        }
        let same = match &values {
            Some(v) => same_texts(&now, v),
            None => now.len() == 0,
        };
        if !same {
            let ghost gv = opt_texts(values);
            out.push(TagChange { key: t.tags[j].0.clone(), values });
            proof {
                assert(change_views(out@) =~= before.push((t.tags@[j as int].0@, gv)));
                assert(before.push((t.tags@[j as int].0@, gv)) =~= fields + corrected_changes(
                    t.tags@,
                    cur,
                    j as int,
                ).push((t.tags@[j as int].0@, gv)));
            }
        }
        j = j + 1;
    }
    out
}

/// A file that has what the draft asks for is not written: each field as the
/// only value of its tag, artists aside where they are kept, and each corrected
/// tag as it was corrected.
pub proof fn law_no_changes_where_tags_agree(d: InboxDraft, i: int, current: Seq<(Seq<char>, Seq<char>)>)
    requires
        0 <= i < d.tracks@.len(),
        forall|k: int|
            0 <= k < desired_tags(d, i).len() ==> values_of(current, (#[trigger] desired_tags(d, i)[k]).0) == seq![
                desired_tags(d, i)[k].1,
            ],
        forall|k: int|
            0 <= k < d.tracks@[i].tags@.len() ==> has_values(
                current,
                (#[trigger] d.tracks@[i].tags@[k]).0@,
                corrected_values(d.tracks@[i].tags@[k].1),
            ),
    ensures
        all_changes(d, i, current) == Seq::<(Seq<char>, Option<Seq<Seq<char>>>)>::empty(),
{
    let keeps = artists_kept(d.tracks@[i].keep_artists, d.artist_of(i), values_of(current, "ARTIST"@));
    lemma_no_field_changes(desired_tags(d, i), current, keeps);
    lemma_no_corrected_changes(d.tracks@[i].tags@, current, d.tracks@[i].tags@.len() as int);
    assert(all_changes(d, i, current) =~= Seq::empty());
}

proof fn lemma_no_field_changes(
    desired: Seq<(Seq<char>, Seq<char>)>,
    current: Seq<(Seq<char>, Seq<char>)>,
    keeps: bool,
)
    requires
        forall|k: int| 0 <= k < desired.len() ==> values_of(current, (#[trigger] desired[k]).0) == seq![desired[k].1],
    ensures
        field_changes(desired, current, keeps).len() == 0,
    decreases desired.len(),
{
    if desired.len() > 0 {
        let t = desired.drop_last();
        assert forall|k: int| 0 <= k < t.len() implies values_of(current, (#[trigger] t[k]).0) == seq![t[k].1] by {
            assert(t[k] == desired[k]);
        }
        lemma_no_field_changes(t, current, keeps);
        assert(values_of(current, desired[desired.len() - 1].0) == seq![desired[desired.len() - 1].1]);
    }
}

/// A file that has every correction needs none.
pub proof fn lemma_no_corrected_changes(
    tags: Seq<(String, Option<Vec<String>>)>,
    current: Seq<(Seq<char>, Seq<char>)>,
    n: int,
)
    requires
        0 <= n <= tags.len(),
        forall|k: int|
            0 <= k < tags.len() ==> has_values(current, (#[trigger] tags[k]).0@, corrected_values(tags[k].1)),
    ensures
        corrected_changes(tags, current, n).len() == 0,
    decreases n,
{
    if n > 0 {
        lemma_no_corrected_changes(tags, current, n - 1);
        assert(has_values(current, tags[n - 1].0@, corrected_values(tags[n - 1].1)));
    }
}

// ---------------------------------------------------------------- paths

/// The name of a file without its extension, and the extension in small
/// letters. A name without a dot is its own stem.
pub open spec fn stem_and_ext(rel_path: Seq<char>) -> (Seq<char>, Seq<char>) {
    let name = file_name_of(rel_path);
    match last_index(name, '.') {
        Some(i) => (name.take(i), ascii_lower(name.skip(i + 1))),
        None => (name, Seq::empty()),
    }
}

/// The stem and the extension of a file.
pub fn split_name(rel_path: &str) -> (r: (String, String))
    ensures
        (r.0@, r.1@) == stem_and_ext(rel_path@),
{
    let name = file_name(rel_path);
    match rsplit_once(&name, '.') {
        Some(p) => {
            let e = lower_text(&p.1);
            (p.0, e)
        },
        None => (name, String::new()),
    }
}

/// The first file with the key of the path.
pub open spec fn file_of(files: Seq<FileRow>, path: Seq<char>) -> Option<int>
    decreases files.len(),
{
    if files.len() == 0 {
        None
    } else if canonical(files[0].rel_path@) == canonical(path) {
        Some(0)
    } else {
        match file_of(files.drop_first(), path) {
            Some(i) => Some(i + 1),
            None => None,
        }
    }
}

proof fn lemma_file_of(files: Seq<FileRow>, path: Seq<char>, i: int)
    requires
        0 <= i <= files.len(),
        forall|k: int| 0 <= k < i ==> canonical((#[trigger] files[k]).rel_path@) != canonical(path),
    ensures
        i < files.len() && canonical(files[i].rel_path@) == canonical(path) ==> file_of(files, path) == Some(i),
        i == files.len() ==> file_of(files, path) is None,
    decreases files.len(),
{
    if files.len() > 0 && i > 0 {
        let t = files.drop_first();
        assert(canonical(files[0].rel_path@) != canonical(path));
        assert forall|k: int| 0 <= k < i - 1 implies canonical((#[trigger] t[k]).rel_path@) != canonical(path) by {
            assert(t[k] == files[k + 1]);
        }
        lemma_file_of(t, path, i - 1);
        if i < files.len() {
            assert(t[i - 1] == files[i]);
        }
    }
}

/// The first file with the key of the path.
pub fn find_file(files: &Vec<FileRow>, path: &str) -> (r: Option<usize>)
    ensures
        match r {
            Some(i) => file_of(files@, path@) == Some(i as int) && i < files@.len(),
            None => file_of(files@, path@) is None,
        },
{
    let key = canonical_key(path);
    let mut i: usize = 0;
    while i < files.len()
        invariant
            i <= files@.len(),
            key@ == canonical(path@),
            forall|k: int| 0 <= k < i ==> canonical((#[trigger] files@[k]).rel_path@) != canonical(path@),
        decreases files@.len() - i,
    {
        let k = canonical_key(&files[i].rel_path);
        if same_text(&k, &key) {
            proof {
                lemma_file_of(files@, path@, i as int);
            }
            return Some(i);
        }
        i = i + 1;
    }
    proof {
        lemma_file_of(files@, path@, i as int);
    }
    None
}

/// The artist that stands in the path of the track `i`: where the artists of
/// the file are kept, all of them.
pub open spec fn path_artist(d: InboxDraft, i: int, files: Seq<FileRow>) -> Seq<char> {
    let t = d.tracks@[i];
    match file_of(files, t.rel_path@) {
        Some(f) => {
            let artists = values_of(pair_views(files[f].tags@), "ARTIST"@);
            if artists_kept(t.keep_artists, d.artist_of(i), artists) && artists.len() > 0 {
                joined(artists, ARTIST_SEPARATOR@)
            } else {
                d.artist_of(i)
            }
        },
        None => d.artist_of(i),
    }
}

/// What the path of the track `i` of a draft is made of.
pub fn track_fields(draft: &InboxDraft, category: Option<&str>, i: usize, files: &Vec<FileRow>) -> (r: TrackFields)
    requires
        i < draft.tracks@.len(),
    ensures
        opt_text(r.category) == (match category {
            Some(c) => Some(c@),
            None => None,
        }),
        opt_text(r.albumartist) == Some(trimmed(draft.albumartist@)),
        opt_text(r.artist) == Some(path_artist(*draft, i as int, files@)),
        opt_text(r.album) == Some(trimmed(draft.album@)),
        opt_text(r.title) == Some(trimmed(draft.tracks@[i as int].title@)),
        r.disc_no == Some(draft.tracks@[i as int].disc_no as i64),
        r.track_no == Some(draft.tracks@[i as int].track_no as i64),
        opt_text(r.year) == (match draft.date {
            Some(d) => year_text(trimmed(d@)),
            None => None,
        }),
        r.edition is None,
        (r.stem@, r.ext@) == stem_and_ext(draft.tracks@[i as int].rel_path@),
{
    let t = &draft.tracks[i];
    let (stem, ext) = split_name(&t.rel_path);
    let own = draft.track_artist(i);
    let artist = match find_file(files, &t.rel_path) {
        Some(f) => {
            let artists = artist_values(&files[f].tags);
            proof {
                assert(texts(artists@).len() == artists@.len());
            }
            if keeps_artists(t.keep_artists, &own, &files[f].tags) && artists.len() > 0 {
                join(&artists, ARTIST_SEPARATOR)
            } else {
                own
            }
        },
        None => own,
    };
    TrackFields {
        category: match category {
            Some(c) => Some(c.to_owned()),
            None => None,
        },
        albumartist: Some(trim(&draft.albumartist)),
        artist: Some(artist),
        album: Some(trim(&draft.album)),
        title: Some(trim(&t.title)),
        disc_no: Some(t.disc_no as i64),
        track_no: Some(t.track_no as i64),
        year: draft.year(),
        edition: None,
        ext,
        stem,
    }
}

/// The layouts of paths.
#[derive(Debug, Clone, Copy, PartialEq, Eq, Structural)]
pub enum LayoutKind {
    Unsorted,
    MultiDisc,
    SingleDisc,
}

/// The layout of the paths of a draft: by whether its category is known and
/// whether it has several discs.
pub fn resolve_template(category_known: bool, draft: &InboxDraft) -> (r: LayoutKind)
    ensures
        r == (if !category_known {
            LayoutKind::Unsorted
        } else if disc_total(draft.tracks@) > 1 {
            LayoutKind::MultiDisc
        } else {
            LayoutKind::SingleDisc
        }),
{
    if !category_known {
        LayoutKind::Unsorted
    } else if draft.disc_count() > 1 {
        LayoutKind::MultiDisc
    } else {
        LayoutKind::SingleDisc
    }
}

/// The name of a layout in the settings.
pub open spec fn layout_name(k: LayoutKind) -> Seq<char> {
    match k {
        LayoutKind::Unsorted => "unsorted"@,
        LayoutKind::MultiDisc => "multi_disc"@,
        LayoutKind::SingleDisc => "single_disc"@,
    }
}

/// Why a layout that cannot be read keeps a draft from its place.
pub fn parse_template(kind: LayoutKind, fault: &str) -> (r: InboxError)
    ensures
        r matches InboxError::Conflict(m) && m@ == "[layout]."@ + layout_name(kind) + " が不正: "@ + fault@,
{
    let name = match kind {
        LayoutKind::Unsorted => "unsorted",
        LayoutKind::MultiDisc => "multi_disc",
        LayoutKind::SingleDisc => "single_disc",
    };
    InboxError::Conflict(concat4("[layout].", name, " が不正: ", fault))
}

// ---------------------------------------------------------------- albums

/// The tag that tells that a file comes from a disc.
pub const DISCID_KEY: &'static str = "MUSICBRAINZ_DISCID";

/// A track of an album.
#[derive(Debug, Clone, Copy, PartialEq, Eq, Structural)]
pub struct AlbumRow {
    pub disc_no: i64,
    /// It comes from a disc.
    pub cd: bool,
    /// An earlier run put it there.
    pub own: bool,
}

/// Some file comes from a disc.
pub open spec fn files_from_disc(files: Seq<FileRow>) -> bool {
    exists|i: int|
        0 <= i < files.len() && values_of(pair_views((#[trigger] files[i]).tags@), DISCID_KEY@).len() > 0
}

/// Whether what waits comes from a disc.
pub fn incoming_is_cd(files: &Vec<FileRow>) -> (r: bool)
    ensures
        r == files_from_disc(files@),
{
    let mut i: usize = 0;
    while i < files.len()
        invariant
            i <= files@.len(),
            forall|k: int|
                0 <= k < i ==> values_of(pair_views((#[trigger] files@[k]).tags@), DISCID_KEY@).len() == 0,
        decreases files@.len() - i,
    {
        if tag(&files[i], DISCID_KEY).is_some() {
            proof {
                assert(values_of(pair_views(files@[i as int].tags@), DISCID_KEY@).len() > 0);
            }
            return true;
        }
        i = i + 1;
    }
    false
}

/// Some track comes from a disc.
pub open spec fn rows_from_disc(rows: Seq<AlbumRow>) -> bool {
    exists|i: int| 0 <= i < rows.len() && (#[trigger] rows[i]).cd
}

/// Whether an album comes from a disc.
pub fn album_is_cd(rows: &Vec<AlbumRow>) -> (r: bool)
    ensures
        r == rows_from_disc(rows@),
{
    let mut i: usize = 0;
    while i < rows.len()
        invariant
            i <= rows@.len(),
            forall|k: int| 0 <= k < i ==> !(#[trigger] rows@[k]).cd,
        decreases rows@.len() - i,
    {
        if rows[i].cd {
            return true;
        }
        i = i + 1;
    }
    false
}

/// A track that is not of an earlier run is on the disc.
pub open spec fn disc_taken(rows: Seq<AlbumRow>, d: u32) -> bool {
    exists|i: int| 0 <= i < rows.len() && !(#[trigger] rows[i]).own && rows[i].disc_no == d as i64
}

fn is_disc_taken(rows: &Vec<AlbumRow>, d: u32) -> (r: bool)
    ensures
        r == disc_taken(rows@, d),
{
    let mut i: usize = 0;
    while i < rows.len()
        invariant
            i <= rows@.len(),
            forall|k: int| 0 <= k < i ==> !(!(#[trigger] rows@[k]).own && rows@[k].disc_no == d as i64),
        decreases rows@.len() - i,
    {
        if !rows[i].own && rows[i].disc_no == d as i64 {
            return true;
        }
        i = i + 1;
    }
    false
}

/// The first of the discs that the album has already.
pub open spec fn first_taken(rows: Seq<AlbumRow>, discs: Seq<u32>, i: int) -> bool {
    &&& 0 <= i < discs.len()
    &&& disc_taken(rows, discs[i])
    &&& forall|k: int| 0 <= k < i ==> !disc_taken(rows, #[trigger] discs[k])
}

/// An album without a release takes what waits: it is empty, or both come from
/// discs and no disc is there twice, or neither does.
pub open spec fn fits(rows: Seq<AlbumRow>, incoming_cd: bool, discs: Seq<u32>) -> bool {
    ||| rows.len() == 0
    ||| {
        &&& incoming_cd == rows_from_disc(rows)
        &&& incoming_cd ==> forall|i: int| 0 <= i < discs.len() ==> !disc_taken(rows, #[trigger] discs[i])
    }
}

/// Whether an album without a release takes what waits, or why it does not.
pub fn fits_plain_album(rows: &Vec<AlbumRow>, incoming_cd: bool, discs: &Vec<u32>) -> (r: Result<(), String>)
    ensures
        match r {
            Ok(()) => fits(rows@, incoming_cd, discs@),
            Err(m) => !fits(rows@, incoming_cd, discs@) && (if incoming_cd != rows_from_disc(rows@) {
                m@ == (if incoming_cd {
                    "CD の件を CD でない album に入れない"@
                } else {
                    "CD でない件を CD の album に入れない"@
                })
            } else {
                exists|i: int| #[trigger]
                    first_taken(rows@, discs@, i) && m@ == "album に同じディスク番号 "@ + int_text(
                        discs@[i] as int,
                    ) + " の盤が既にある"@
            }),
        },
{
    if rows.len() == 0 {
        return Ok(());
    }
    let album_cd = album_is_cd(rows);
    if incoming_cd != album_cd {
        return Err(
            if incoming_cd {
                "CD の件を CD でない album に入れない".to_owned()
            } else {
                "CD でない件を CD の album に入れない".to_owned()
            },
        );
    }
    if incoming_cd {
        let mut i: usize = 0;
        while i < discs.len()
            invariant
                i <= discs@.len(),
                rows@.len() > 0,
                incoming_cd,
                rows_from_disc(rows@),
                forall|k: int| 0 <= k < i ==> !disc_taken(rows@, #[trigger] discs@[k]),
            decreases discs@.len() - i,
        {
            if is_disc_taken(rows, discs[i]) {
                proof {
                    assert(first_taken(rows@, discs@, i as int));
                }
                let n = unsigned_to_text(discs[i] as u64);
                return Err(concat3("album に同じディスク番号 ", &n, " の盤が既にある"));
            }
            i = i + 1;
        }
    }
    Ok(())
}

/// `r` is the release of what waits: the one that was chosen, else the one that
/// most files name.
pub open spec fn release_is(r: Option<Seq<char>>, d: InboxDraft, files: Seq<FileRow>) -> bool {
    match said_text(d.release_id) {
        Some(id) => r == Some(id),
        None => mode_of_column(r, tag_column(files, "MUSICBRAINZ_ALBUMID"@)),
    }
}

/// The release of what waits.
pub fn incoming_release_id(draft: &InboxDraft, files: &Vec<FileRow>) -> (r: Option<String>)
    ensures
        release_is(opt_text(r), *draft, files@),
{
    match said(&draft.release_id) {
        Some(id) => Some(id),
        None => {
            let c = column(files, "MUSICBRAINZ_ALBUMID");
            mode(&c)
        },
    }
}

/// The album that stands at the directory of a draft.
#[derive(Debug)]
pub struct FoundAlbum {
    pub album_id: i64,
    pub album: Option<String>,
    pub album_gain: bool,
    pub rows: Vec<AlbumRow>,
    /// Disc and number of each track.
    pub numbers: Vec<(Option<i64>, Option<i64>)>,
}

/// The album that takes what waits.
#[derive(Debug)]
pub struct Destination {
    pub album_id: i64,
    pub album: Option<String>,
    pub track_count: i64,
    /// The highest number of a track, zero where there is none.
    pub max_track_no: i64,
    pub album_gain: bool,
    /// The numbers that are taken: disc and track.
    pub numbers: Vec<(u32, u32)>,
}

impl Destination {
    /// The key of the release of an album without one.
    pub fn release_key(&self) -> (r: String)
        ensures
            r@ == release_key_text(self.album_id, None),
    {
        let n = int_to_text(self.album_id);
        concat2("album:", &n)
    }
}

/// The number of a track.
pub open spec fn number_or(n: Option<i64>, otherwise: i64) -> i64 {
    match n {
        Some(x) => x,
        None => otherwise,
    }
}

/// The highest number of a track, zero at least.
pub open spec fn max_number(numbers: Seq<(Option<i64>, Option<i64>)>) -> i64
    decreases numbers.len(),
{
    if numbers.len() == 0 {
        0
    } else {
        let r = max_number(numbers.drop_last());
        let n = number_or(numbers.last().1, 0);
        if n > r {
            n
        } else {
            r
        }
    }
}

/// The track has these numbers.
pub open spec fn has_numbers(p: (Option<i64>, Option<i64>), d: u32, t: u32) -> bool {
    number_or(p.0, 1) == d && number_or(p.1, 0) == t
}

/// Some track has these numbers.
pub open spec fn numbers_taken(numbers: Seq<(Option<i64>, Option<i64>)>, d: u32, t: u32) -> bool {
    exists|i: int| 0 <= i < numbers.len() && has_numbers(#[trigger] numbers[i], d, t)
}

fn number_value(n: &Option<i64>, otherwise: i64) -> (r: i64)
    ensures
        r == number_or(*n, otherwise),
{
    match n {
        Some(x) => *x,
        None => otherwise,
    }
}

fn collect_numbers(numbers: &Vec<(Option<i64>, Option<i64>)>) -> (r: (Vec<(u32, u32)>, i64))
    ensures
        forall|d: u32, t: u32| #[trigger] r.0@.contains((d, t)) <==> numbers_taken(numbers@, d, t),
        r.1 == max_number(numbers@),
{
    let mut out: Vec<(u32, u32)> = Vec::new();
    let mut max: i64 = 0;
    let mut i: usize = 0;
    proof {
        assert(numbers@.take(0).len() == 0);
    }
    while i < numbers.len()
        invariant
            i <= numbers@.len(),
            max == max_number(numbers@.take(i as int)),
            forall|d: u32, t: u32|
                #[trigger] out@.contains((d, t)) <==> exists|k: int|
                    0 <= k < i && has_numbers(#[trigger] numbers@[k], d, t),
        decreases numbers@.len() - i,
    {
        proof {
            assert(numbers@.take(i + 1).last() == numbers@[i as int]);
            assert(numbers@.take(i + 1).drop_last() =~= numbers@.take(i as int));
        }
        let d = number_value(&numbers[i].0, 1);
        let t = number_value(&numbers[i].1, 0);
        if t > max {
            max = t;
        }
        let ghost before = out@;
        if 0 <= d && d <= u32::MAX as i64 && 0 <= t && t <= u32::MAX as i64 {
            out.push((d as u32, t as u32));
        }
        proof {
            assert forall|x: u32, y: u32| #[trigger] out@.contains((x, y)) <==> exists|k: int|
                0 <= k < i + 1 && has_numbers(#[trigger] numbers@[k], x, y) by {
                if before.contains((x, y)) {
                    let k = choose|k: int| 0 <= k < before.len() && before[k] == (x, y);
                    assert(out@[k] == (x, y));
                }
                if has_numbers(numbers@[i as int], x, y) {
                    assert(d == x && t == y);
                    assert(out@[before.len() as int] == (x, y));
                }
                if out@.contains((x, y)) {
                    let k = choose|k: int| 0 <= k < out@.len() && out@[k] == (x, y);
                    if k < before.len() {
                        assert(before[k] == (x, y));
                        assert(before.contains((x, y)));
                    } else {
                        assert(has_numbers(numbers@[i as int], x, y));
                    }
                }
                if exists|k: int| 0 <= k < i + 1 && has_numbers(#[trigger] numbers@[k], x, y) {
                    let k = choose|k: int| 0 <= k < i + 1 && has_numbers(#[trigger] numbers@[k], x, y);
                    if k < i {
                        assert(before.contains((x, y)));
                    }
                }
            }
        }
        i = i + 1;
    }
    proof {
        assert(numbers@.take(i as int) =~= numbers@);
    }
    (out, max)
}

fn discs_of(draft: &InboxDraft) -> (r: Vec<u32>)
    ensures
        r@ == draft.tracks@.map_values(|t: DraftTrack| t.disc_no),
{
    let mut out: Vec<u32> = Vec::new();
    let ghost want = draft.tracks@.map_values(|t: DraftTrack| t.disc_no);
    let mut i: usize = 0;
    while i < draft.tracks.len()
        invariant
            i <= draft.tracks@.len(),
            want == draft.tracks@.map_values(|t: DraftTrack| t.disc_no),
            out@ == want.take(i as int),
        decreases draft.tracks@.len() - i,
    {
        out.push(draft.tracks[i].disc_no);
        proof {
            assert(want.take(i + 1) =~= want.take(i as int).push(want[i as int]));
        }
        i = i + 1;
    }
    proof {
        assert(want.take(i as int) =~= want);
    }
    out
}

/// The discs of a draft.
pub open spec fn draft_discs(d: InboxDraft) -> Seq<u32> {
    d.tracks@.map_values(|t: DraftTrack| t.disc_no)
}

/// Whether an album that takes what waits is looked for at all: not for a draft
/// without tracks, nor for one of a release.
pub fn wants_destination(draft: &InboxDraft, files: &Vec<FileRow>) -> (r: bool)
    ensures
        r ==> draft.tracks@.len() > 0 && release_is(None, *draft, files@),
        !r ==> draft.tracks@.len() == 0 || exists|id: Seq<char>| #[trigger] release_is(Some(id), *draft, files@),
{
    if draft.tracks.len() == 0 {
        return false;
    }
    let release = incoming_release_id(draft, files);
    proof {
        if release is Some {
            assert(release_is(Some(release->0@), *draft, files@));
        }
    }
    release.is_none()
}

/// The album that takes what waits: the one that stands at its directory, which
/// has no release, if it fits.
pub fn destination(draft: &InboxDraft, files: &Vec<FileRow>, found: Option<FoundAlbum>) -> (r: Option<Destination>)
    ensures
        match found {
            None => r is None,
            Some(f) => match r {
                None => !fits(f.rows@, files_from_disc(files@), draft_discs(*draft)),
                Some(d) => {
                    &&& fits(f.rows@, files_from_disc(files@), draft_discs(*draft))
                    &&& d.album_id == f.album_id
                    &&& d.album == f.album
                    &&& d.album_gain == f.album_gain
                    &&& d.track_count == f.numbers@.len() as i64
                    &&& d.max_track_no == max_number(f.numbers@)
                    &&& forall|x: u32, y: u32|
                        #[trigger] d.numbers@.contains((x, y)) <==> numbers_taken(f.numbers@, x, y)
                },
            },
        },
{
    match found {
        None => None,
        Some(f) => {
            let cd = incoming_is_cd(files);
            let discs = discs_of(draft);
            match fits_plain_album(&f.rows, cd, &discs) {
                Err(_) => None,
                Ok(()) => {
                    let (numbers, max_track_no) = collect_numbers(&f.numbers);
                    Some(
                        Destination {
                            album_id: f.album_id,
                            album: f.album,
                            track_count: f.numbers.len() as i64,
                            max_track_no,
                            album_gain: f.album_gain,
                            numbers,
                        },
                    )
                },
            }
        },
    }
}

/// The draft by which the album for a subscription is looked for: one track on
/// one disc.
pub fn destination_of(category: Option<&str>, albumartist: &str, album: &str) -> (r: InboxDraft)
    ensures
        opt_text(r.category) == (match category {
            Some(c) => Some(c@),
            None => None,
        }),
        r.albumartist@ == albumartist@,
        r.album@ == album@,
        r.date is None,
        !r.album_gain,
        r.release_id is None,
        r.release_group_id is None,
        r.tracks@.len() == 1,
        r.tracks@[0].rel_path@ == "x.opus"@,
        r.tracks@[0].disc_no == 1,
        r.tracks@[0].track_no == 1,
        r.tracks@[0].title@ == "x"@,
        r.tracks@[0].artist@.len() == 0,
        r.tracks@[0].keep_artists is None,
        r.tracks@[0].tags@.len() == 0,
        r.tracks@[0].picture is None,
        r.wf(),
{
    let mut tracks: Vec<DraftTrack> = Vec::new();
    tracks.push(
        DraftTrack {
            rel_path: "x.opus".to_owned(),
            disc_no: 1,
            track_no: 1,
            title: "x".to_owned(),
            artist: String::new(),
            keep_artists: None,
            tags: Vec::new(),
            picture: None,
        },
    );
    InboxDraft {
        category: match category {
            Some(c) => Some(c.to_owned()),
            None => None,
        },
        albumartist: albumartist.to_owned(),
        album: album.to_owned(),
        date: None,
        tracks,
        album_gain: false,
        release_id: None,
        release_group_id: None,
    }
}

// ---------------------------------------------------------------- earlier runs

/// An album with tracks of the same sound as what waits.
#[derive(Debug)]
pub struct SelfCandidate {
    pub album_id: i64,
    pub release: String,
    /// The keys of those tracks.
    pub keys: Vec<String>,
}

/// A track of the same sound as a file that waits.
#[derive(Debug)]
pub struct SoundMatch {
    pub key: String,
    pub album_id: i64,
    pub mb_release_id: Option<String>,
}

/// The first match in the album.
pub open spec fn first_match(rows: Seq<SoundMatch>, album_id: i64, i: int) -> bool {
    &&& 0 <= i < rows.len()
    &&& rows[i].album_id == album_id
    &&& forall|k: int| 0 <= k < i ==> (#[trigger] rows[k]).album_id != album_id
}

/// Some match in the album has the key.
pub open spec fn match_has_key(rows: Seq<SoundMatch>, album_id: i64, key: Seq<char>) -> bool {
    exists|i: int| 0 <= i < rows.len() && (#[trigger] rows[i]).album_id == album_id && rows[i].key@ == key
}

/// `c` holds the matches in its album.
pub open spec fn candidate_is(c: SelfCandidate, rows: Seq<SoundMatch>) -> bool {
    &&& exists|i: int| #[trigger]
        first_match(rows, c.album_id, i) && c.release@ == release_key_text(c.album_id, opt_text(rows[i].mb_release_id))
    &&& forall|k: Seq<char>| #[trigger] texts(c.keys@).contains(k) <==> match_has_key(rows, c.album_id, k)
}

proof fn lemma_key_push(rows: Seq<SoundMatch>, r: SoundMatch, album_id: i64, key: Seq<char>)
    ensures
        match_has_key(rows.push(r), album_id, key) <==> match_has_key(rows, album_id, key) || (r.album_id == album_id
            && r.key@ == key),
{
    let all = rows.push(r);
    if match_has_key(rows, album_id, key) {
        let i = choose|i: int| 0 <= i < rows.len() && (#[trigger] rows[i]).album_id == album_id && rows[i].key@ == key;
        assert(all[i].album_id == album_id);
    }
    if r.album_id == album_id && r.key@ == key {
        assert(all[rows.len() as int].album_id == album_id);
    }
    if match_has_key(all, album_id, key) {
        let i = choose|i: int| 0 <= i < all.len() && (#[trigger] all[i]).album_id == album_id && all[i].key@ == key;
        if i < rows.len() {
            assert(rows[i].album_id == album_id);
        }
    }
}

/// The albums of matches, in the order in which they occur first.
pub open spec fn albums_seen(rows: Seq<SoundMatch>) -> Seq<i64>
    decreases rows.len(),
{
    if rows.len() == 0 {
        Seq::empty()
    } else {
        let r = albums_seen(rows.drop_last());
        if r.contains(rows.last().album_id) {
            r
        } else {
            r.push(rows.last().album_id)
        }
    }
}

/// The albums of candidates.
pub open spec fn candidate_albums(v: Seq<SelfCandidate>) -> Seq<i64> {
    v.map_values(|c: SelfCandidate| c.album_id)
}

/// The matches by album: one candidate for each album, in the order in which
/// the albums occur first.
pub fn self_candidates(rows: &Vec<SoundMatch>) -> (r: Vec<SelfCandidate>)
    ensures
        candidate_albums(r@) == albums_seen(rows@),
        forall|i: int| 0 <= i < r@.len() ==> candidate_is(#[trigger] r@[i], rows@),
        forall|i: int, j: int|
            0 <= i < r@.len() && 0 <= j < r@.len() && i != j ==> (#[trigger] r@[i]).album_id != (
            #[trigger] r@[j]).album_id,
        forall|k: int|
            0 <= k < rows@.len() ==> exists|i: int|
                0 <= i < r@.len() && (#[trigger] r@[i]).album_id == (#[trigger] rows@[k]).album_id,
{
    let mut out: Vec<SelfCandidate> = Vec::new();
    let mut n: usize = 0;
    proof {
        assert(candidate_albums(out@) =~= Seq::<i64>::empty());
    }
    while n < rows.len()
        invariant
            n <= rows@.len(),
            candidate_albums(out@) == albums_seen(rows@.take(n as int)),
            forall|i: int| 0 <= i < out@.len() ==> candidate_is(#[trigger] out@[i], rows@.take(n as int)),
            forall|i: int, j: int|
                0 <= i < out@.len() && 0 <= j < out@.len() && i != j ==> (#[trigger] out@[i]).album_id != (
                #[trigger] out@[j]).album_id,
            forall|k: int|
                0 <= k < n ==> exists|i: int|
                    0 <= i < out@.len() && (#[trigger] out@[i]).album_id == (#[trigger] rows@[k]).album_id,
        decreases rows@.len() - n,
    {
        let row = &rows[n];
        let ghost t = rows@.take(n as int);
        let ghost u = rows@.take(n + 1);
        let ghost before = out@;
        proof {
            assert(u =~= t.push(*row));
            assert(u.drop_last() =~= t);
            assert(u.last() == *row);
            // A candidate of another album is not touched by the row.
            assert forall|c: SelfCandidate| #[trigger] candidate_is(c, t) && c.album_id != row.album_id implies candidate_is(
                c,
                u,
            ) by {
                let i = choose|i: int| #[trigger]
                    first_match(t, c.album_id, i) && c.release@ == release_key_text(
                        c.album_id,
                        opt_text(t[i].mb_release_id),
                    );
                assert(u[i] == t[i]);
                assert forall|k: int| 0 <= k < i implies (#[trigger] u[k]).album_id != c.album_id by {
                    assert(t[k] == u[k]);
                }
                assert(first_match(u, c.album_id, i));
                assert forall|k: Seq<char>| #[trigger] texts(c.keys@).contains(k) <==> match_has_key(u, c.album_id, k) by {
                    lemma_key_push(t, *row, c.album_id, k);
                }
            }
        }
        let mut at: usize = 0;
        while at < out.len() && out[at].album_id != row.album_id
            invariant
                at <= out@.len(),
                out@ == before,
                forall|k: int| 0 <= k < at ==> (#[trigger] out@[k]).album_id != row.album_id,
            decreases out@.len() - at,
        {
            at = at + 1;
        }
        if at < out.len() {
            let old_candidate = out.remove(at);
            let ghost oc = old_candidate;
            let mut keys = old_candidate.keys;
            let ghost k0 = texts(keys@);
            if !has_member(&keys, &row.key) {
                keys.push(row.key.clone());
                proof {
                    assert(texts(keys@) =~= k0.push(row.key@));
                }
            }
            let c = SelfCandidate { album_id: old_candidate.album_id, release: old_candidate.release, keys };
            let ghost gc = c;
            out.insert(at, c);
            proof {
                let now = out@;
                assert(oc == before[at as int]);
                assert(candidate_is(oc, t));
                assert(now =~= before.update(at as int, gc));
                assert(candidate_albums(before)[at as int] == row.album_id);
                assert(candidate_albums(now) =~= candidate_albums(before));
                let i = choose|i: int| #[trigger]
                    first_match(t, oc.album_id, i) && oc.release@ == release_key_text(
                        oc.album_id,
                        opt_text(t[i].mb_release_id),
                    );
                assert(u[i] == t[i]);
                assert forall|k: int| 0 <= k < i implies (#[trigger] u[k]).album_id != gc.album_id by {
                    assert(t[k] == u[k]);
                }
                assert(first_match(u, gc.album_id, i));
                assert forall|k: Seq<char>| #[trigger] texts(gc.keys@).contains(k) <==> match_has_key(
                    u,
                    gc.album_id,
                    k,
                ) by {
                    lemma_key_push(t, *row, gc.album_id, k);
                    let kk = texts(gc.keys@);
                    assert(k0.contains(k) <==> match_has_key(t, oc.album_id, k));
                    if k0.contains(k) {
                        let x = choose|x: int| 0 <= x < k0.len() && k0[x] == k;
                        assert(kk[x] == k);
                    }
                    if kk.contains(k) && !k0.contains(k) {
                        let x = choose|x: int| 0 <= x < kk.len() && kk[x] == k;
                        if x < k0.len() {
                            assert(k0[x] == k);
                        }
                    }
                    if k == row.key@ && !k0.contains(k) {
                        assert(kk[k0.len() as int] == k);
                    }
                }
                assert(candidate_is(gc, u));
                assert forall|x: int| 0 <= x < now.len() implies candidate_is(#[trigger] now[x], u) by {
                    if x != at {
                        assert(now[x] == before[x]);
                        assert(before[x].album_id != before[at as int].album_id);
                        assert(candidate_is(before[x], t));
                    }
                }
                assert forall|x: int, y: int| 0 <= x < now.len() && 0 <= y < now.len() && x != y implies (
                #[trigger] now[x]).album_id != (#[trigger] now[y]).album_id by {
                    assert(before[x].album_id != before[y].album_id);
                }
                assert forall|k: int| 0 <= k < n + 1 implies exists|x: int|
                    0 <= x < now.len() && (#[trigger] now[x]).album_id == (#[trigger] rows@[k]).album_id by {
                    if k < n {
                        let x = choose|x: int|
                            0 <= x < before.len() && (#[trigger] before[x]).album_id == rows@[k].album_id;
                        assert(now[x].album_id == rows@[k].album_id);
                    } else {
                        assert(now[at as int].album_id == rows@[k].album_id);
                    }
                }
            }
        } else {
            let mut keys: Vec<String> = Vec::new();
            keys.push(row.key.clone());
            proof {
                assert(texts(keys@) =~= seq![row.key@]);
            }
            let c = SelfCandidate {
                album_id: row.album_id,
                release: release_key(row.album_id, &row.mb_release_id),
                keys,
            };
            let ghost gc = c;
            out.push(c);
            proof {
                let now = out@;
                assert(!candidate_albums(before).contains(row.album_id)) by {
                    if candidate_albums(before).contains(row.album_id) {
                        let x = choose|x: int| 0 <= x < before.len() && candidate_albums(before)[x] == row.album_id;
                        assert(before[x].album_id == row.album_id);
                    }
                }
                assert(candidate_albums(now) =~= candidate_albums(before).push(row.album_id));
                assert forall|k: int| 0 <= k < n implies (#[trigger] u[k]).album_id != row.album_id by {
                    assert(u[k] == rows@[k]);
                    let x = choose|x: int|
                        0 <= x < before.len() && (#[trigger] before[x]).album_id == rows@[k].album_id;
                    assert(before[x].album_id != row.album_id);
                }
                assert(first_match(u, gc.album_id, n as int));
                assert forall|k: Seq<char>| #[trigger] texts(gc.keys@).contains(k) <==> match_has_key(
                    u,
                    gc.album_id,
                    k,
                ) by {
                    if texts(gc.keys@).contains(k) {
                        assert(k == row.key@);
                        assert(u[n as int].album_id == gc.album_id);
                    }
                    if match_has_key(u, gc.album_id, k) {
                        let x = choose|x: int|
                            0 <= x < u.len() && (#[trigger] u[x]).album_id == gc.album_id && u[x].key@ == k;
                        assert(x == n);
                        assert(texts(gc.keys@)[0] == k);
                    }
                }
                assert(candidate_is(gc, u));
                assert forall|x: int| 0 <= x < now.len() implies candidate_is(#[trigger] now[x], u) by {
                    if x < before.len() {
                        assert(now[x] == before[x]);
                        assert(candidate_is(before[x], t));
                        assert(before[x].album_id != row.album_id);
                    }
                }
                assert forall|x: int, y: int| 0 <= x < now.len() && 0 <= y < now.len() && x != y implies (
                #[trigger] now[x]).album_id != (#[trigger] now[y]).album_id by {
                    if x < before.len() && y < before.len() {
                        assert(before[x].album_id != before[y].album_id);
                    } else if x < before.len() {
                        assert(before[x].album_id != row.album_id);
                    } else {
                        assert(before[y].album_id != row.album_id);
                    }
                }
                assert forall|k: int| 0 <= k < n + 1 implies exists|x: int|
                    0 <= x < now.len() && (#[trigger] now[x]).album_id == (#[trigger] rows@[k]).album_id by {
                    if k < n {
                        let x = choose|x: int|
                            0 <= x < before.len() && (#[trigger] before[x]).album_id == rows@[k].album_id;
                        assert(now[x].album_id == rows@[k].album_id);
                    } else {
                        assert(now[before.len() as int].album_id == rows@[k].album_id);
                    }
                }
            }
        }
        n = n + 1;
    }
    proof {
        assert(rows@.take(n as int) =~= rows@);
    }
    out
}

/// An album may be that of an earlier run: the one of the release, or one
/// without a release that takes what waits.
pub open spec fn is_own_album(
    release: Seq<char>,
    rows: Seq<AlbumRow>,
    incoming_mb: Option<Seq<char>>,
    incoming_cd: bool,
    discs: Seq<u32>,
) -> bool {
    match incoming_mb {
        Some(m) => release == mb_key_text(m),
        None => starts_with(release, "album:"@) && fits(rows, incoming_cd, discs),
    }
}

/// The candidate `i` may be the album of an earlier run. `rows` are the tracks
/// of each candidate.
pub open spec fn may_be_own(
    candidates: Seq<SelfCandidate>,
    rows: Seq<Vec<AlbumRow>>,
    incoming_mb: Option<Seq<char>>,
    incoming_cd: bool,
    discs: Seq<u32>,
    i: int,
) -> bool {
    is_own_album(candidates[i].release@, rows[i]@, incoming_mb, incoming_cd, discs)
}

/// The candidate `i` is the only one that may be the album of an earlier run.
pub open spec fn only_own(
    candidates: Seq<SelfCandidate>,
    rows: Seq<Vec<AlbumRow>>,
    incoming_mb: Option<Seq<char>>,
    incoming_cd: bool,
    discs: Seq<u32>,
    i: int,
) -> bool {
    &&& 0 <= i < candidates.len()
    &&& may_be_own(candidates, rows, incoming_mb, incoming_cd, discs, i)
    &&& forall|k: int|
        0 <= k < candidates.len() && k != i ==> !#[trigger] may_be_own(
            candidates,
            rows,
            incoming_mb,
            incoming_cd,
            discs,
            k,
        )
}

/// The album of an earlier run: the only candidate that may be it. The same
/// sound alone does not make an album one's own.
pub fn pick_self_album(
    candidates: &Vec<SelfCandidate>,
    rows: &Vec<Vec<AlbumRow>>,
    incoming_mb: Option<&str>,
    incoming_cd: bool,
    discs: &Vec<u32>,
) -> (r: Option<usize>)
    requires
        rows@.len() == candidates@.len(),
    ensures
        match r {
            Some(i) => only_own(candidates@, rows@, opt_str(incoming_mb), incoming_cd, discs@, i as int),
            None => forall|i: int| !only_own(candidates@, rows@, opt_str(incoming_mb), incoming_cd, discs@, i),
        },
{
    let ghost mb = opt_str(incoming_mb);
    let mut found: Option<usize> = None;
    let mut many = false;
    let ghost mut other: int = 0;
    let mut i: usize = 0;
    while i < candidates.len()
        invariant
            i <= candidates@.len(),
            rows@.len() == candidates@.len(),
            mb == opt_str(incoming_mb),
            found is None ==> !many && forall|k: int|
                0 <= k < i ==> !#[trigger] may_be_own(candidates@, rows@, mb, incoming_cd, discs@, k),
            found matches Some(x) ==> x < i && may_be_own(candidates@, rows@, mb, incoming_cd, discs@, x as int),
            found is Some && !many ==> forall|k: int|
                0 <= k < i && k != found->0 ==> !#[trigger] may_be_own(
                    candidates@,
                    rows@,
                    mb,
                    incoming_cd,
                    discs@,
                    k,
                ),
            many ==> found is Some && 0 <= other < i && other != found->0 && may_be_own(
                candidates@,
                rows@,
                mb,
                incoming_cd,
                discs@,
                other,
            ),
        decreases candidates@.len() - i,
    {
        let ok = match incoming_mb {
            Some(m) => {
                let key = mb_key(m);
                same_text(&candidates[i].release, &key)
            },
            None => has_prefix(&candidates[i].release, "album:") && fits_plain_album(
                &rows[i],
                incoming_cd,
                discs,
            ).is_ok(),
        };
        proof {
            assert(ok == may_be_own(candidates@, rows@, mb, incoming_cd, discs@, i as int));
        }
        if ok {
            if found.is_some() {
                many = true;
                proof {
                    other = i as int;
                }
            } else {
                found = Some(i);
            }
        }
        i = i + 1;
    }
    if many {
        proof {
            let a = found->0 as int;
            assert forall|x: int| !only_own(candidates@, rows@, mb, incoming_cd, discs@, x) by {
                assert(may_be_own(candidates@, rows@, mb, incoming_cd, discs@, a));
                assert(may_be_own(candidates@, rows@, mb, incoming_cd, discs@, other));
            }
        }
        None
    } else {
        found
    }
}

// ---------------------------------------------------------------- laws

/// A file is told by its name: what stands before the last dot of it, and what stands behind it in small
/// letters.
pub proof fn law_stem_and_extension(dir: Seq<char>, stem: Seq<char>, ext: Seq<char>)
    requires
        !stem.contains('/'),
        !ext.contains('/'),
        !ext.contains('.'),
    ensures
        stem_and_ext(dir + seq!['/'] + (stem + seq!['.'] + ext)) == (stem, ascii_lower(ext)),
        stem_and_ext(dir + seq!['/'] + ext) == (ext, Seq::<char>::empty()),
{
    let name = stem + seq!['.'] + ext;
    let path = dir + seq!['/'] + name;
    lemma_none_in_sum(stem, ext);
    assert forall|k: int| dir.len() < k < path.len() implies #[trigger] path[k] != '/' by {
        assert(path[k] == name[k - dir.len() - 1]);
    }
    lemma_last_index_is(path, '/', dir.len() as int);
    assert(path.skip(dir.len() as int + 1) =~= name);
    assert forall|k: int| stem.len() < k < name.len() implies #[trigger] name[k] != '.' by {
        assert(name[k] == ext[k - stem.len() - 1]);
        assert(ext.contains(ext[k - stem.len() - 1]));
    }
    lemma_last_index_is(name, '.', stem.len() as int);
    assert(name.take(stem.len() as int) =~= stem);
    assert(name.skip(stem.len() as int + 1) =~= ext);
    let bare = dir + seq!['/'] + ext;
    assert forall|k: int| dir.len() < k < bare.len() implies #[trigger] bare[k] != '/' by {
        assert(bare[k] == ext[k - dir.len() - 1]);
    }
    lemma_last_index_is(bare, '/', dir.len() as int);
    assert(bare.skip(dir.len() as int + 1) =~= ext);
    lemma_last_index(ext, '.');
}

proof fn lemma_none_in_sum(stem: Seq<char>, ext: Seq<char>)
    requires
        !stem.contains('/'),
        !ext.contains('/'),
    ensures
        forall|k: int|
            0 <= k < (stem + seq!['.'] + ext).len() ==> #[trigger] (stem + seq!['.'] + ext)[k] != '/',
        forall|k: int| 0 <= k < ext.len() ==> #[trigger] ext[k] != '/',
{
    let s = stem + seq!['.'] + ext;
    assert forall|k: int| 0 <= k < s.len() implies #[trigger] s[k] != '/' by {
        if k < stem.len() {
            assert(stem.contains(stem[k]));
        } else if k > stem.len() {
            assert(ext.contains(ext[k - stem.len() - 1]));
        }
    }
    assert forall|k: int| 0 <= k < ext.len() implies #[trigger] ext[k] != '/' by {
        assert(ext.contains(ext[k]));
    }
}

/// A file is placed by what its tags will say: the title, the numbers and the artist of the release are the
/// same in the path and in the tags that the draft has written.
pub proof fn law_placed_by_the_written_tags(d: InboxDraft, i: int)
    requires
        0 <= i < d.tracks@.len(),
    ensures
        first_of(desired_tags(d, i), "TITLE"@) == Some(trimmed(d.tracks@[i].title@)),
        first_of(desired_tags(d, i), "ALBUM"@) == Some(trimmed(d.album@)),
        first_of(desired_tags(d, i), "ALBUMARTIST"@) == Some(trimmed(d.albumartist@)),
        first_of(desired_tags(d, i), "ARTIST"@) == Some(d.artist_of(i)),
        number_of(first_of(desired_tags(d, i), "TRACKNUMBER"@)) == Some(d.tracks@[i].track_no as i64),
        number_of(first_of(desired_tags(d, i), "DISCNUMBER"@)) == Some(d.tracks@[i].disc_no as i64),
{
    let t = desired_tags(d, i);
    reveal_strlit("ALBUMARTIST");
    reveal_strlit("ALBUM");
    reveal_strlit("TITLE");
    reveal_strlit("ARTIST");
    reveal_strlit("TRACKNUMBER");
    reveal_strlit("DISCNUMBER");
    assert("ALBUMARTIST"@.len() == 11 && "ALBUM"@.len() == 5 && "TITLE"@.len() == 5 && "ARTIST"@.len() == 6
        && "TRACKNUMBER"@.len() == 11 && "DISCNUMBER"@.len() == 10);
    assert("ALBUM"@[0] == 'A' && "TITLE"@[0] == 'T' && "ALBUMARTIST"@[0] == 'A' && "TRACKNUMBER"@[0] == 'T');
    assert(t[0] == ("ALBUMARTIST"@, trimmed(d.albumartist@)));
    assert(t[1] == ("ALBUM"@, trimmed(d.album@)));
    assert(t[2] == ("TITLE"@, trimmed(d.tracks@[i].title@)));
    assert(t[3] == ("ARTIST"@, d.artist_of(i)));
    assert(t[4] == ("TRACKNUMBER"@, int_text(d.tracks@[i].track_no as int)));
    assert(t[5] == ("DISCNUMBER"@, int_text(d.tracks@[i].disc_no as int)));
    law_first_value(t, "ALBUMARTIST"@, 0);
    law_first_value(t, "ALBUM"@, 1);
    law_first_value(t, "TITLE"@, 2);
    law_first_value(t, "ARTIST"@, 3);
    law_first_value(t, "TRACKNUMBER"@, 4);
    law_first_value(t, "DISCNUMBER"@, 5);
    law_written_number_is_read_back(d.tracks@[i].track_no as i64, Seq::empty());
    law_written_number_is_read_back(d.tracks@[i].disc_no as i64, Seq::empty());
    assert(int_text(d.tracks@[i].track_no as int) + Seq::<char>::empty() =~= int_text(d.tracks@[i].track_no as int));
    assert(int_text(d.tracks@[i].disc_no as int) + Seq::<char>::empty() =~= int_text(d.tracks@[i].disc_no as int));
}

/// A text that says nothing is none; any other is taken without the space around it.
pub proof fn law_said(s: String)
    ensures
        trimmed(s@).len() == 0 ==> said_text(Some(s)) is None,
        trimmed(s@).len() > 0 ==> said_text(Some(s)) == Some(trimmed(s@)),
        said_text(None) is None,
{
}

/// The path of a file names its own artists where they are kept, and the artist of the draft else.
pub proof fn law_artist_in_the_path(d: InboxDraft, i: int, files: Seq<FileRow>, f: int, a: Seq<char>, b: Seq<char>)
    requires
        0 <= i < d.tracks@.len(),
        0 <= f < files.len(),
        canonical(files[f].rel_path@) == canonical(d.tracks@[i].rel_path@),
        forall|g: int|
            0 <= g < f ==> canonical((#[trigger] files[g]).rel_path@) != canonical(d.tracks@[i].rel_path@),
    ensures
        values_of(pair_views(files[f].tags@), "ARTIST"@) == seq![a, b] && d.tracks@[i].keep_artists == Some(true)
            ==> path_artist(d, i, files) == a + seq![',', ' '] + b,
        d.tracks@[i].keep_artists == Some(false) ==> path_artist(d, i, files) == d.artist_of(i),
{
    lemma_file_first(files, d.tracks@[i].rel_path@, f);
    reveal_strlit(", ");
    assert(ARTIST_SEPARATOR@ =~= seq![',', ' ']);
    let two = seq![a, b];
    assert(two.drop_last() =~= seq![a]);
    assert(joined(seq![a], ARTIST_SEPARATOR@) == a);
    assert(joined(two, ARTIST_SEPARATOR@) == a + ARTIST_SEPARATOR@ + b);
}

proof fn lemma_file_first(files: Seq<FileRow>, path: Seq<char>, f: int)
    requires
        0 <= f < files.len(),
        canonical(files[f].rel_path@) == canonical(path),
        forall|g: int| 0 <= g < f ==> canonical((#[trigger] files[g]).rel_path@) != canonical(path),
    ensures
        file_of(files, path) == Some(f),
    decreases files.len(),
{
    if f > 0 {
        let d = files.drop_first();
        assert forall|g: int| 0 <= g < f - 1 implies canonical((#[trigger] d[g]).rel_path@) != canonical(path) by {
            assert(d[g] == files[g + 1]);
        }
        lemma_file_first(d, path, f - 1);
    }
}

/// An empty album takes anything. Any other takes what is of its own sort only, from a disc or not; and of a
/// disc only one whose number none of its other tracks has.
pub proof fn law_what_fits_an_album(rows: Seq<AlbumRow>, incoming_cd: bool, discs: Seq<u32>, i: int, k: int)
    ensures
        rows.len() == 0 ==> fits(rows, incoming_cd, discs),
        0 <= i < rows.len() && rows[i].cd && !incoming_cd ==> !fits(rows, incoming_cd, discs),
        0 < rows.len() && (forall|r: int| 0 <= r < rows.len() ==> !(#[trigger] rows[r]).cd) ==> (fits(
            rows,
            incoming_cd,
            discs,
        ) <==> !incoming_cd),
        incoming_cd && 0 <= i < rows.len() && 0 <= k < discs.len() && !rows[i].own && rows[i].disc_no == discs[k]
            ==> !fits(rows, incoming_cd, discs),
        incoming_cd && 0 <= i < rows.len() && rows[i].cd && (forall|r: int, x: int|
            0 <= r < rows.len() && 0 <= x < discs.len() ==> (#[trigger] rows[r]).own || rows[r].disc_no
                != #[trigger] discs[x]) ==> fits(rows, incoming_cd, discs),
{
    if incoming_cd && 0 <= i < rows.len() && 0 <= k < discs.len() && !rows[i].own && rows[i].disc_no == discs[k] {
        assert(disc_taken(rows, discs[k]));
    }
}

/// The highest number of an album: no track has a higher one, and one has it where it is above 0.
pub proof fn law_highest_number(numbers: Seq<(Option<i64>, Option<i64>)>)
    ensures
        max_number(numbers) >= 0,
        forall|i: int| 0 <= i < numbers.len() ==> ((#[trigger] numbers[i]).1 matches Some(n) ==> n <= max_number(numbers)),
        max_number(numbers) > 0 ==> exists|i: int|
            0 <= i < numbers.len() && (#[trigger] numbers[i]).1 == Some(max_number(numbers)),
    decreases numbers.len(),
{
    if numbers.len() > 0 {
        let d = numbers.drop_last();
        law_highest_number(d);
        assert forall|i: int| 0 <= i < numbers.len() implies ((#[trigger] numbers[i]).1 matches Some(n) ==> n
            <= max_number(numbers)) by {
            if i < d.len() {
                assert(d[i] == numbers[i]);
            }
        }
        if max_number(numbers) > 0 {
            if number_or(numbers.last().1, 0) > max_number(d) {
                assert(numbers[numbers.len() - 1].1 == Some(max_number(numbers)));
            } else {
                let i = choose|i: int| 0 <= i < d.len() && (#[trigger] d[i]).1 == Some(max_number(d));
                assert(numbers[i] == d[i]);
            }
        }
    }
}

/// A number is taken where a track of the album has it on the disc; a track without a disc counts for the
/// first one.
pub proof fn law_numbers_taken(numbers: Seq<(Option<i64>, Option<i64>)>, i: int, d: u32, t: u32)
    ensures
        0 <= i < numbers.len() && numbers[i] == (Some(d as i64), Some(t as i64)) ==> numbers_taken(numbers, d, t),
        0 <= i < numbers.len() && numbers[i] == (None::<i64>, Some(t as i64)) ==> numbers_taken(numbers, 1, t),
        d > 1 && (forall|k: int| 0 <= k < numbers.len() ==> (#[trigger] numbers[k]).0 != Some(d as i64))
            ==> !numbers_taken(numbers, d, t),
        t > 0 && (forall|k: int| 0 <= k < numbers.len() ==> (#[trigger] numbers[k]).1 != Some(t as i64))
            ==> !numbers_taken(numbers, d, t),
{
    if 0 <= i < numbers.len() && numbers[i] == (Some(d as i64), Some(t as i64)) {
        assert(has_numbers(numbers[i], d, t));
    }
    if 0 <= i < numbers.len() && numbers[i] == (None::<i64>, Some(t as i64)) {
        assert(has_numbers(numbers[i], 1, t));
    }
}

/// What names a release belongs to the album of that release and to no other; what names none belongs to an
/// album without one, where it fits.
pub proof fn law_own_album(
    album_id: i64,
    mb: Seq<char>,
    rows: Seq<AlbumRow>,
    incoming: Seq<char>,
    incoming_cd: bool,
    discs: Seq<u32>,
)
    requires
        mb.len() > 0,
    ensures
        is_own_album(release_key_text(album_id, Some(mb)), rows, Some(incoming), incoming_cd, discs) <==> ascii_lower(
            trimmed(mb),
        ) == ascii_lower(trimmed(incoming)),
        !is_own_album(release_key_text(album_id, None), rows, Some(incoming), incoming_cd, discs),
        !is_own_album(release_key_text(album_id, Some(mb)), rows, None, incoming_cd, discs),
        is_own_album(release_key_text(album_id, None), rows, None, incoming_cd, discs) <==> fits(
            rows,
            incoming_cd,
            discs,
        ),
{
    reveal_strlit("mb:");
    reveal_strlit("album:");
    let m = "mb:"@;
    let a = "album:"@;
    assert(m.len() == 3 && a.len() == 6 && m[0] == 'm' && a[0] == 'a');
    let x = mb_key_text(mb);
    let y = mb_key_text(incoming);
    let z = release_key_text(album_id, None);
    assert(x.skip(3) =~= ascii_lower(trimmed(mb)));
    assert(y.skip(3) =~= ascii_lower(trimmed(incoming)));
    assert(x[0] == 'm' && y[0] == 'm' && z[0] == 'a');
    assert(z.take(6) =~= a);
    if starts_with(x, a) {
        assert(x.take(6)[0] == 'm');
    }
}

/// The release that comes in is the one that the draft names, and else the one that most of its files name.
pub proof fn law_release_that_comes_in(r: Option<Seq<char>>, d: InboxDraft, files: Seq<FileRow>)
    requires
        release_is(r, d, files),
    ensures
        d.release_id matches Some(id) ==> (trimmed(id@).len() > 0 ==> r == Some(trimmed(id@))),
        d.release_id is None && cleaned(tag_column(files, "MUSICBRAINZ_ALBUMID"@)).len() == 0 ==> r is None,
        d.release_id is None && cleaned(tag_column(files, "MUSICBRAINZ_ALBUMID"@)).len() > 0 ==> r is Some,
{
    if d.release_id is None && cleaned(tag_column(files, "MUSICBRAINZ_ALBUMID"@)).len() == 0 && r is Some {
        law_usual_value_of_a_column(r, tag_column(files, "MUSICBRAINZ_ALBUMID"@), Seq::empty());
    }
}

/// Files are from a disc where one of them has the id of a disc in its tags; an album is where one of its tracks is.
pub proof fn law_from_a_disc(files: Seq<FileRow>, rows: Seq<AlbumRow>, i: int, j: int)
    ensures
        0 <= i < files.len() && 0 <= j < files[i].tags@.len() && pair_views(files[i].tags@)[j].0 == "MUSICBRAINZ_DISCID"@
            && (forall|k: int| 0 <= k < j ==> (#[trigger] pair_views(files[i].tags@)[k]).0 != "MUSICBRAINZ_DISCID"@)
            ==> files_from_disc(files),
        files.len() == 0 ==> !files_from_disc(files),
        0 <= i < rows.len() && rows[i].cd ==> rows_from_disc(rows),
        (forall|k: int| 0 <= k < rows.len() ==> !(#[trigger] rows[k]).cd) ==> !rows_from_disc(rows),
{
    if 0 <= i < files.len() && 0 <= j < files[i].tags@.len() && pair_views(files[i].tags@)[j].0 == "MUSICBRAINZ_DISCID"@
        && (forall|k: int| 0 <= k < j ==> (#[trigger] pair_views(files[i].tags@)[k]).0 != "MUSICBRAINZ_DISCID"@) {
        law_first_value(pair_views(files[i].tags@), "MUSICBRAINZ_DISCID"@, j);
        assert(values_of(pair_views(files[i].tags@), DISCID_KEY@).len() > 0);
    }
}

/// The albums that hold the sound of a file are told once each, and each of them with the keys of all its matches.
pub proof fn law_albums_with_the_sound(rows: Seq<SoundMatch>, c: SelfCandidate, i: int)
    requires
        0 <= i < rows.len(),
    ensures
        albums_seen(rows).contains(rows[i].album_id),
        albums_seen(rows).no_duplicates(),
        candidate_is(c, rows) && rows[i].album_id == c.album_id ==> texts(c.keys@).contains(rows[i].key@),
    decreases rows.len(),
{
    let d = rows.drop_last();
    let r = albums_seen(d);
    let all = albums_seen(rows);
    if d.len() > 0 {
        law_albums_with_the_sound(d, c, if i < d.len() {
            i
        } else {
            0
        });
    } else {
        assert(r =~= Seq::empty());
    }
    let id = rows[i].album_id;
    if i < d.len() {
        assert(d[i] == rows[i]);
        let k = choose|k: int| 0 <= k < r.len() && r[k] == id;
        assert(all[k] == id);
    } else if r.contains(id) {
        let k = choose|k: int| 0 <= k < r.len() && r[k] == id;
        assert(all[k] == id);
    } else {
        assert(all.last() == id);
    }
    if candidate_is(c, rows) && rows[i].album_id == c.album_id {
        assert(match_has_key(rows, c.album_id, rows[i].key@));
        assert(texts(c.keys@).contains(rows[i].key@));
    }
}

/// Of the albums that may be its own, an item takes one only where there is no other.
pub proof fn law_one_own_album(
    candidates: Seq<SelfCandidate>,
    rows: Seq<Vec<AlbumRow>>,
    mb: Option<Seq<char>>,
    cd: bool,
    discs: Seq<u32>,
    i: int,
    j: int,
)
    requires
        0 <= i < candidates.len(),
        0 <= j < candidates.len(),
        only_own(candidates, rows, mb, cd, discs, i),
    ensures
        is_own_album(candidates[i].release@, rows[i]@, mb, cd, discs),
        j != i ==> !is_own_album(candidates[j].release@, rows[j]@, mb, cd, discs),
{
    assert(may_be_own(candidates, rows, mb, cd, discs, i));
    if j != i {
        assert(!may_be_own(candidates, rows, mb, cd, discs, j));
    }
}

/// The layouts have their names, and the discs of a draft are those of its tracks.
pub proof fn law_names_of_layouts(d: InboxDraft, i: int)
    ensures
        layout_name(LayoutKind::Unsorted) == "unsorted"@,
        layout_name(LayoutKind::MultiDisc) == "multi_disc"@,
        layout_name(LayoutKind::SingleDisc) == "single_disc"@,
        0 <= i < d.tracks@.len() ==> draft_discs(d)[i] == d.tracks@[i].disc_no,
        draft_discs(d).len() == d.tracks@.len(),
{
}

} // verus!
