//! The draft of what waits in the inbox: what is proposed from the tags, what a
//! person corrects, and what has to hold before it is taken in.

use crate::catalog::clone_strings;
use crate::edit::picture::{parse_picture_value, picture_parts};
use crate::forms::{is_mbid, is_valid_date, is_valid_tag_key, valid_date, valid_mbid, valid_tag_key, year_of, year_text};
use crate::split::has_prefix;
use crate::text::{
    blank, concat2, concat3, concat5, int_text, is_blank, opt_text, same_text, starts_with, text_less, texts, trim, trimmed,
    unsigned_to_text,
};
use crate::unicode::{canonical, canonical_key};
use vstd::prelude::*;
use vstd::string::*;

verus! {

// ---------------------------------------------------------------- drafts

/// A track of a draft.
#[derive(Debug)]
pub struct DraftTrack {
    /// The file, below the inbox.
    pub rel_path: String,
    pub disc_no: u32,
    pub track_no: u32,
    pub title: String,
    /// Empty for the artist of the album. Shown only where the artists of the
    /// file are kept.
    pub artist: String,
    /// The artists of the file are kept as they are. Drafts of an older form do
    /// not say.
    pub keep_artists: Option<bool>,
    /// The tags that change: the values a key gets, none to remove it. In the
    /// order of the keys.
    pub tags: Vec<(String, Option<Vec<String>>)>,
    /// The picture that replaces those of the file.
    pub picture: Option<String>,
}

/// A draft.
#[derive(Debug)]
pub struct InboxDraft {
    /// The category, by name; none is unsorted.
    pub category: Option<String>,
    pub albumartist: String,
    pub album: String,
    pub date: Option<String>,
    pub tracks: Vec<DraftTrack>,
    /// The album is levelled as a whole.
    pub album_gain: bool,
    pub release_id: Option<String>,
    pub release_group_id: Option<String>,
}

/// What a draft of a track says.
#[verifier::ext_equal]
pub struct TrackText {
    pub rel_path: Seq<char>,
    pub disc_no: u32,
    pub track_no: u32,
    pub title: Seq<char>,
    pub artist: Seq<char>,
    pub keep_artists: Option<bool>,
    pub tags: Seq<(Seq<char>, Option<Seq<Seq<char>>>)>,
    pub picture: Option<Seq<char>>,
}

impl TrackText {
    /// The corrected tags stand in the order of their keys, each key once.
    pub open spec fn wf(self) -> bool {
        forall|i: int, j: int|
            0 <= i < j < self.tags.len() ==> text_less((#[trigger] self.tags[i]).0, (#[trigger] self.tags[j]).0)
    }
}

/// The view of the values of a change.
pub open spec fn opt_texts(o: Option<Vec<String>>) -> Option<Seq<Seq<char>>> {
    match o {
        Some(v) => Some(texts(v@)),
        None => None,
    }
}

/// The views of changes.
pub open spec fn change_list(v: Seq<(String, Option<Vec<String>>)>) -> Seq<(Seq<char>, Option<Seq<Seq<char>>>)> {
    v.map_values(|p: (String, Option<Vec<String>>)| (p.0@, opt_texts(p.1)))
}

impl View for DraftTrack {
    type V = TrackText;

    open spec fn view(&self) -> TrackText {
        TrackText {
            rel_path: self.rel_path@,
            disc_no: self.disc_no,
            track_no: self.track_no,
            title: self.title@,
            artist: self.artist@,
            keep_artists: self.keep_artists,
            tags: change_list(self.tags@),
            picture: opt_text(self.picture),
        }
    }
}

/// The views of the tracks of a draft.
pub open spec fn track_texts(v: Seq<DraftTrack>) -> Seq<TrackText> {
    v.map_values(|t: DraftTrack| t@)
}

impl InboxDraft {
    /// The corrected tags of each track stand in the order of their keys, each key
    /// once.
    pub open spec fn wf(&self) -> bool {
        forall|i: int| 0 <= i < self.tracks@.len() ==> (#[trigger] self.tracks@[i])@.wf()
    }
}

impl DraftTrack {
    /// A track that says the same.
    pub fn copy(&self) -> (r: DraftTrack)
        ensures
            r@ == self@,
    {
        let mut tags: Vec<(String, Option<Vec<String>>)> = Vec::new();
        let mut i: usize = 0;
        proof {
            assert(change_list(tags@) =~= change_list(self.tags@).take(0));
        }
        while i < self.tags.len()
            invariant
                i <= self.tags@.len(),
                change_list(tags@) == change_list(self.tags@).take(i as int),
            decreases self.tags@.len() - i,
        {
            let ghost before = change_list(tags@);
            let values = match &self.tags[i].1 {
                Some(v) => Some(clone_strings(v)),
                None => None,
            };
            tags.push((self.tags[i].0.clone(), values));
            proof {
                assert(change_list(tags@) =~= before.push(change_list(self.tags@)[i as int]));
                assert(change_list(self.tags@).take(i + 1) =~= change_list(self.tags@).take(i as int).push(
                    change_list(self.tags@)[i as int],
                ));
            }
            i = i + 1;
        }
        proof {
            assert(change_list(self.tags@).take(i as int) =~= change_list(self.tags@));
        }
        DraftTrack {
            rel_path: self.rel_path.clone(),
            disc_no: self.disc_no,
            track_no: self.track_no,
            title: self.title.clone(),
            artist: self.artist.clone(),
            keep_artists: self.keep_artists,
            tags,
            picture: self.picture.clone(),
        }
    }
}

// ---------------------------------------------------------------- keys

/// A key that a field of the draft stands for.
pub open spec fn covered_key(key: Seq<char>) -> bool {
    ||| key == "TITLE"@
    ||| key == "ARTIST"@
    ||| key == "ALBUM"@
    ||| key == "ALBUMARTIST"@
    ||| key == "DATE"@
    ||| key == "TRACKNUMBER"@
    ||| key == "DISCNUMBER"@
    ||| key == "DISCTOTAL"@
    ||| key == "PICTURE"@
}

/// Whether a field of the draft stands for the key: there is one way only to
/// correct a tag.
pub fn is_covered_tag_key(key: &str) -> (r: bool)
    ensures
        r == covered_key(key@),
{
    same_text(key, "TITLE") || same_text(key, "ARTIST") || same_text(key, "ALBUM") || same_text(key, "ALBUMARTIST")
        || same_text(key, "DATE") || same_text(key, "TRACKNUMBER") || same_text(key, "DISCNUMBER")
        || same_text(key, "DISCTOTAL") || same_text(key, "PICTURE")
}

/// A key by which tracks and discs are told apart.
pub open spec fn locked_key(key: Seq<char>) -> bool {
    key == "SOURCE_URL"@ || starts_with(key, "MUSICBRAINZ_"@)
}

/// Whether tracks and discs are told apart by the key: it is not to be changed
/// by hand.
pub fn is_locked_tag_key(key: &str) -> (r: bool)
    ensures
        r == locked_key(key@),
{
    same_text(key, "SOURCE_URL") || has_prefix(key, "MUSICBRAINZ_")
}

/// A type of picture that a draft may name.
pub open spec fn draft_mime(mime: Seq<char>) -> bool {
    mime == "image/jpeg"@ || mime == "image/png"@ || mime == "image/webp"@
}

/// A picture that a draft may name.
pub open spec fn draft_picture(value: Seq<char>) -> bool {
    picture_parts(value) is Some && draft_mime((picture_parts(value)->0).0)
}

fn is_draft_picture(value: &str) -> (r: bool)
    ensures
        r == draft_picture(value@),
{
    match parse_picture_value(value) {
        Some(p) => same_text(&p.0, "image/jpeg") || same_text(&p.0, "image/png") || same_text(&p.0, "image/webp"),
        None => false,
    }
}

// ---------------------------------------------------------------- problems

/// What is wrong with a draft.
#[derive(Debug)]
pub enum DraftError {
    EmptyAlbum,
    EmptyAlbumArtist,
    EmptyTitle { rel_path: String },
    BadNumber { rel_path: String },
    DuplicateNumber { disc_no: u32, track_no: u32 },
    UnknownFile(String),
    MissingFile(String),
    DuplicateFile(String),
    BadDate(String),
    EmptyCategory,
    BadReleaseId(String),
    BadReleaseGroupId(String),
    BadTagKey { rel_path: String, key: String },
    CoveredTagKey { rel_path: String, key: String },
    LockedTagKey { rel_path: String, key: String },
    BadPicture { rel_path: String, value: String },
}

/// What is wrong with a draft, by its texts.
pub enum Problem {
    EmptyAlbum,
    EmptyAlbumArtist,
    EmptyTitle(Seq<char>),
    BadNumber(Seq<char>),
    DuplicateNumber(u32, u32),
    UnknownFile(Seq<char>),
    MissingFile(Seq<char>),
    DuplicateFile(Seq<char>),
    BadDate(Seq<char>),
    EmptyCategory,
    BadReleaseId(Seq<char>),
    BadReleaseGroupId(Seq<char>),
    BadTagKey(Seq<char>, Seq<char>),
    CoveredTagKey(Seq<char>, Seq<char>),
    LockedTagKey(Seq<char>, Seq<char>),
    BadPicture(Seq<char>, Seq<char>),
}

impl View for DraftError {
    type V = Problem;

    open spec fn view(&self) -> Problem {
        match self {
            DraftError::EmptyAlbum => Problem::EmptyAlbum,
            DraftError::EmptyAlbumArtist => Problem::EmptyAlbumArtist,
            DraftError::EmptyTitle { rel_path } => Problem::EmptyTitle(rel_path@),
            DraftError::BadNumber { rel_path } => Problem::BadNumber(rel_path@),
            DraftError::DuplicateNumber { disc_no, track_no } => Problem::DuplicateNumber(*disc_no, *track_no),
            DraftError::UnknownFile(f) => Problem::UnknownFile(f@),
            DraftError::MissingFile(f) => Problem::MissingFile(f@),
            DraftError::DuplicateFile(f) => Problem::DuplicateFile(f@),
            DraftError::BadDate(d) => Problem::BadDate(d@),
            DraftError::EmptyCategory => Problem::EmptyCategory,
            DraftError::BadReleaseId(i) => Problem::BadReleaseId(i@),
            DraftError::BadReleaseGroupId(i) => Problem::BadReleaseGroupId(i@),
            DraftError::BadTagKey { rel_path, key } => Problem::BadTagKey(rel_path@, key@),
            DraftError::CoveredTagKey { rel_path, key } => Problem::CoveredTagKey(rel_path@, key@),
            DraftError::LockedTagKey { rel_path, key } => Problem::LockedTagKey(rel_path@, key@),
            DraftError::BadPicture { rel_path, value } => Problem::BadPicture(rel_path@, value@),
        }
    }
}

/// The text of a problem.
pub open spec fn problem_text(p: Problem) -> Seq<char> {
    match p {
        Problem::EmptyAlbum => "アルバム名が空"@,
        Problem::EmptyAlbumArtist => "アルバムアーティストが空"@,
        Problem::EmptyTitle(f) => "タイトルが空: "@ + f,
        Problem::BadNumber(f) => "トラック番号 / ディスク番号は 1 以上: "@ + f,
        Problem::DuplicateNumber(d, t) => "番号が重複: disc "@ + int_text(d as int) + " track "@ + int_text(t as int),
        Problem::UnknownFile(f) => "件に無いファイル: "@ + f,
        Problem::MissingFile(f) => "下書きに無いファイル: "@ + f,
        Problem::DuplicateFile(f) => "下書きに同じファイルが 2 回: "@ + f,
        Problem::BadDate(d) => "日付の形が不正: "@ + d + "（YYYY / YYYY-MM / YYYY-MM-DD）"@,
        Problem::EmptyCategory => "category が空"@,
        Problem::BadReleaseId(i) => "MusicBrainz のリリース ID の形が不正: "@ + i,
        Problem::BadReleaseGroupId(i) => "MusicBrainz のリリースグループ ID の形が不正: "@ + i,
        Problem::BadTagKey(f, k) => "タグのキーが不正: "@ + k + "（"@ + f
            + "。空・小文字・= や制御文字は使えない）"@,
        Problem::CoveredTagKey(f, k) => k + " は上の欄で直す（"@ + f + "）"@,
        Problem::LockedTagKey(f, k) => k + " は曲・盤の識別に使うので直せない（"@ + f + "）"@,
        Problem::BadPicture(f, v) => "画像の指定が不正: "@ + v + "（"@ + f + "）"@,
    }
}

impl DraftError {
    /// The text that a user reads.
    pub fn message(&self) -> (r: String)
        ensures
            r@ == problem_text(self@),
    {
        match self {
            DraftError::EmptyAlbum => "アルバム名が空".to_owned(),
            DraftError::EmptyAlbumArtist => "アルバムアーティストが空".to_owned(),
            DraftError::EmptyTitle { rel_path } => concat2("タイトルが空: ", rel_path),
            DraftError::BadNumber { rel_path } => concat2("トラック番号 / ディスク番号は 1 以上: ", rel_path),
            DraftError::DuplicateNumber { disc_no, track_no } => {
                let d = unsigned_to_text(*disc_no as u64);
                let t = unsigned_to_text(*track_no as u64);
                crate::text::concat4("番号が重複: disc ", &d, " track ", &t)
            },
            DraftError::UnknownFile(f) => concat2("件に無いファイル: ", f),
            DraftError::MissingFile(f) => concat2("下書きに無いファイル: ", f),
            DraftError::DuplicateFile(f) => concat2("下書きに同じファイルが 2 回: ", f),
            DraftError::BadDate(d) => concat3("日付の形が不正: ", d, "（YYYY / YYYY-MM / YYYY-MM-DD）"),
            DraftError::EmptyCategory => "category が空".to_owned(),
            DraftError::BadReleaseId(i) => concat2("MusicBrainz のリリース ID の形が不正: ", i),
            DraftError::BadReleaseGroupId(i) => concat2("MusicBrainz のリリースグループ ID の形が不正: ", i),
            DraftError::BadTagKey { rel_path, key } => concat5(
                "タグのキーが不正: ",
                key,
                "（",
                rel_path,
                "。空・小文字・= や制御文字は使えない）",
            ),
            DraftError::CoveredTagKey { rel_path, key } => crate::text::concat4(
                key,
                " は上の欄で直す（",
                rel_path,
                "）",
            ),
            DraftError::LockedTagKey { rel_path, key } => crate::text::concat4(
                key,
                " は曲・盤の識別に使うので直せない（",
                rel_path,
                "）",
            ),
            DraftError::BadPicture { rel_path, value } => concat5(
                "画像の指定が不正: ",
                value,
                "（",
                rel_path,
                "）",
            ),
        }
    }
}

/// The views of errors.
pub open spec fn problem_views(v: Seq<DraftError>) -> Seq<Problem> {
    v.map_values(|e: DraftError| e@)
}

/// A problem where there is one.
pub open spec fn only_if(cond: bool, p: Problem) -> Seq<Problem> {
    if cond {
        seq![p]
    } else {
        Seq::empty()
    }
}

/// The problems of the draft of an album.
pub open spec fn album_problems(d: InboxDraft) -> Seq<Problem> {
    only_if(is_blank(d.album@), Problem::EmptyAlbum) + only_if(is_blank(d.albumartist@), Problem::EmptyAlbumArtist)
        + only_if(d.category is Some && is_blank(d.category->0@), Problem::EmptyCategory) + only_if(
        d.date is Some && !valid_date(trimmed(d.date->0@)),
        Problem::BadDate(d.date->0@),
    )
}

/// The key of a file is among the keys of `files`.
pub open spec fn file_known(files: Seq<Seq<char>>, path: Seq<char>) -> bool {
    exists|i: int| 0 <= i < files.len() && canonical(#[trigger] files[i]) == canonical(path)
}

/// One of the first `n` tracks is of the file.
pub open spec fn file_drafted(tracks: Seq<DraftTrack>, n: int, path: Seq<char>) -> bool {
    exists|j: int| 0 <= j < n && canonical((#[trigger] tracks[j]).rel_path@) == canonical(path)
}

/// One of the first `n` tracks has the numbers.
pub open spec fn number_drafted(tracks: Seq<DraftTrack>, n: int, disc_no: u32, track_no: u32) -> bool {
    exists|j: int| 0 <= j < n && (#[trigger] tracks[j]).disc_no == disc_no && tracks[j].track_no == track_no
}

/// The problem of a key of a track.
pub open spec fn key_problem(rel_path: Seq<char>, key: Seq<char>) -> Seq<Problem> {
    if !valid_tag_key(key) {
        seq![Problem::BadTagKey(rel_path, key)]
    } else if covered_key(key) {
        seq![Problem::CoveredTagKey(rel_path, key)]
    } else if locked_key(key) {
        seq![Problem::LockedTagKey(rel_path, key)]
    } else {
        Seq::empty()
    }
}

/// The problems of the first `n` keys of a track.
pub open spec fn key_problems(rel_path: Seq<char>, tags: Seq<(String, Option<Vec<String>>)>, n: int) -> Seq<Problem>
    decreases n,
{
    if n <= 0 {
        Seq::empty()
    } else {
        key_problems(rel_path, tags, n - 1) + key_problem(rel_path, tags[n - 1].0@)
    }
}

/// The problem of the numbers of the track `i`.
pub open spec fn number_problem(tracks: Seq<DraftTrack>, i: int) -> Seq<Problem> {
    let t = tracks[i];
    if t.disc_no == 0 || t.track_no == 0 {
        seq![Problem::BadNumber(t.rel_path@)]
    } else if number_drafted(tracks, i, t.disc_no, t.track_no) {
        seq![Problem::DuplicateNumber(t.disc_no, t.track_no)]
    } else {
        Seq::empty()
    }
}

/// The problems of the track `i`.
pub open spec fn track_problems(tracks: Seq<DraftTrack>, files: Seq<Seq<char>>, i: int) -> Seq<Problem> {
    let t = tracks[i];
    only_if(!file_known(files, t.rel_path@), Problem::UnknownFile(t.rel_path@)) + only_if(
        file_drafted(tracks, i, t.rel_path@),
        Problem::DuplicateFile(t.rel_path@),
    ) + only_if(is_blank(t.title@), Problem::EmptyTitle(t.rel_path@)) + key_problems(
        t.rel_path@,
        t.tags@,
        t.tags@.len() as int,
    ) + only_if(
        t.picture is Some && !draft_picture(t.picture->0@),
        Problem::BadPicture(t.rel_path@, t.picture->0@),
    ) + number_problem(tracks, i)
}

/// The problems of the first `n` tracks.
pub open spec fn tracks_problems(tracks: Seq<DraftTrack>, files: Seq<Seq<char>>, n: int) -> Seq<Problem>
    decreases n,
{
    if n <= 0 {
        Seq::empty()
    } else {
        tracks_problems(tracks, files, n - 1) + track_problems(tracks, files, n - 1)
    }
}

/// The first `n` files that the draft lacks.
pub open spec fn missing_problems(tracks: Seq<DraftTrack>, files: Seq<Seq<char>>, n: int) -> Seq<Problem>
    decreases n,
{
    if n <= 0 {
        Seq::empty()
    } else {
        missing_problems(tracks, files, n - 1) + only_if(
            !file_drafted(tracks, tracks.len() as int, files[n - 1]),
            Problem::MissingFile(files[n - 1]),
        )
    }
}

/// All problems of a draft for these files, in order.
pub open spec fn problems_of(d: InboxDraft, files: Seq<Seq<char>>) -> Seq<Problem> {
    album_problems(d) + tracks_problems(d.tracks@, files, d.tracks@.len() as int) + missing_problems(
        d.tracks@,
        files,
        files.len() as int,
    ) + only_if(
        d.release_id is Some && !valid_mbid(d.release_id->0@),
        Problem::BadReleaseId(d.release_id->0@),
    ) + only_if(
        d.release_group_id is Some && !valid_mbid(d.release_group_id->0@),
        Problem::BadReleaseGroupId(d.release_group_id->0@),
    )
}

/// The highest number of a disc, and one at least.
pub open spec fn disc_total(tracks: Seq<DraftTrack>) -> u32
    decreases tracks.len(),
{
    if tracks.len() == 0 {
        1
    } else {
        let r = disc_total(tracks.drop_last());
        if tracks.last().disc_no > r {
            tracks.last().disc_no
        } else {
            r
        }
    }
}

fn push_error(out: &mut Vec<DraftError>, e: DraftError)
    ensures
        problem_views(final(out)@) == problem_views(old(out)@) + seq![e@],
{
    let ghost before = problem_views(out@);
    out.push(e);
    proof {
        assert(problem_views(out@) =~= before + seq![e@]);
    }
}

fn check_keys(out: &mut Vec<DraftError>, t: &DraftTrack)
    ensures
        problem_views(final(out)@) == problem_views(old(out)@) + key_problems(
            t.rel_path@,
            t.tags@,
            t.tags@.len() as int,
        ),
{
    let ghost before = problem_views(out@);
    let mut i: usize = 0;
    proof {
        assert(before + Seq::<Problem>::empty() =~= before);
    }
    while i < t.tags.len()
        invariant
            i <= t.tags@.len(),
            problem_views(out@) == before + key_problems(t.rel_path@, t.tags@, i as int),
        decreases t.tags@.len() - i,
    {
        let key = &t.tags[i].0;
        let ghost so_far = problem_views(out@);
        let ghost added = key_problem(t.rel_path@, key@);
        if !is_valid_tag_key(key) {
            push_error(out, DraftError::BadTagKey { rel_path: t.rel_path.clone(), key: key.clone() });
        } else if is_covered_tag_key(key) {
            push_error(out, DraftError::CoveredTagKey { rel_path: t.rel_path.clone(), key: key.clone() });
        } else if is_locked_tag_key(key) {
            push_error(out, DraftError::LockedTagKey { rel_path: t.rel_path.clone(), key: key.clone() });
        }
        proof {
            assert(problem_views(out@) =~= so_far + added);
            assert(so_far + added =~= before + (key_problems(t.rel_path@, t.tags@, i as int) + added));
        }
        i = i + 1;
    }
}

fn is_drafted(tracks: &Vec<DraftTrack>, n: usize, path: &str) -> (r: bool)
    requires
        n <= tracks@.len(),
    ensures
        r == file_drafted(tracks@, n as int, path@),
{
    let key = canonical_key(path);
    let mut j: usize = 0;
    while j < n
        invariant
            j <= n <= tracks@.len(),
            key@ == canonical(path@),
            forall|k: int| 0 <= k < j ==> canonical((#[trigger] tracks@[k]).rel_path@) != canonical(path@),
        decreases n - j,
    {
        let k = canonical_key(&tracks[j].rel_path);
        if same_text(&k, &key) {
            proof {
                assert(canonical(tracks@[j as int].rel_path@) == canonical(path@));
            }
            return true;
        }
        j = j + 1;
    }
    false
}

fn is_file_known(files: &Vec<String>, path: &str) -> (r: bool)
    ensures
        r == file_known(texts(files@), path@),
{
    let key = canonical_key(path);
    let ghost t = texts(files@);
    let mut j: usize = 0;
    while j < files.len()
        invariant
            j <= files@.len(),
            t == texts(files@),
            key@ == canonical(path@),
            forall|k: int| 0 <= k < j ==> canonical(#[trigger] t[k]) != canonical(path@),
        decreases files@.len() - j,
    {
        let k = canonical_key(&files[j]);
        if same_text(&k, &key) {
            proof {
                assert(canonical(t[j as int]) == canonical(path@));
            }
            return true;
        }
        j = j + 1;
    }
    false
}

fn has_number(tracks: &Vec<DraftTrack>, n: usize, disc_no: u32, track_no: u32) -> (r: bool)
    requires
        n <= tracks@.len(),
    ensures
        r == number_drafted(tracks@, n as int, disc_no, track_no),
{
    let mut j: usize = 0;
    while j < n
        invariant
            j <= n <= tracks@.len(),
            forall|k: int|
                0 <= k < j ==> !((#[trigger] tracks@[k]).disc_no == disc_no && tracks@[k].track_no == track_no),
        decreases n - j,
    {
        if tracks[j].disc_no == disc_no && tracks[j].track_no == track_no {
            return true;
        }
        j = j + 1;
    }
    false
}

proof fn lemma_plus_assoc(x: Seq<Problem>, y: Seq<Problem>, z: Seq<Problem>)
    ensures
        x + y + z == x + (y + z),
{
    assert(x + y + z =~= x + (y + z));
}

proof fn lemma_plus_empty(x: Seq<Problem>)
    ensures
        x + Seq::<Problem>::empty() == x,
{
    assert(x + Seq::<Problem>::empty() =~= x);
}

fn check_file(out: &mut Vec<DraftError>, tracks: &Vec<DraftTrack>, files: &Vec<String>, i: usize)
    requires
        i < tracks@.len(),
    ensures
        problem_views(final(out)@) == problem_views(old(out)@) + only_if(
            !file_known(texts(files@), tracks@[i as int].rel_path@),
            Problem::UnknownFile(tracks@[i as int].rel_path@),
        ) + only_if(
            file_drafted(tracks@, i as int, tracks@[i as int].rel_path@),
            Problem::DuplicateFile(tracks@[i as int].rel_path@),
        ) + only_if(is_blank(tracks@[i as int].title@), Problem::EmptyTitle(tracks@[i as int].rel_path@)),
{
    let t = &tracks[i];
    proof {
        lemma_plus_empty(problem_views(out@));
    }
    if !is_file_known(files, &t.rel_path) {
        push_error(out, DraftError::UnknownFile(t.rel_path.clone()));
    }
    proof {
        lemma_plus_empty(problem_views(out@));
    }
    if is_drafted(tracks, i, &t.rel_path) {
        push_error(out, DraftError::DuplicateFile(t.rel_path.clone()));
    }
    proof {
        lemma_plus_empty(problem_views(out@));
    }
    if blank(&t.title) {
        push_error(out, DraftError::EmptyTitle { rel_path: t.rel_path.clone() });
    }
}

fn check_picture_and_number(out: &mut Vec<DraftError>, tracks: &Vec<DraftTrack>, i: usize)
    requires
        i < tracks@.len(),
    ensures
        problem_views(final(out)@) == problem_views(old(out)@) + only_if(
            tracks@[i as int].picture is Some && !draft_picture(tracks@[i as int].picture->0@),
            Problem::BadPicture(tracks@[i as int].rel_path@, tracks@[i as int].picture->0@),
        ) + number_problem(tracks@, i as int),
{
    let t = &tracks[i];
    proof {
        lemma_plus_empty(problem_views(out@));
    }
    if let Some(p) = &t.picture {
        if !is_draft_picture(p) {
            push_error(out, DraftError::BadPicture { rel_path: t.rel_path.clone(), value: p.clone() });
        }
    }
    proof {
        lemma_plus_empty(problem_views(out@));
    }
    if t.disc_no == 0 || t.track_no == 0 {
        push_error(out, DraftError::BadNumber { rel_path: t.rel_path.clone() });
    } else if has_number(tracks, i, t.disc_no, t.track_no) {
        push_error(out, DraftError::DuplicateNumber { disc_no: t.disc_no, track_no: t.track_no });
    }
}

fn check_track(out: &mut Vec<DraftError>, tracks: &Vec<DraftTrack>, files: &Vec<String>, i: usize)
    requires
        i < tracks@.len(),
    ensures
        problem_views(final(out)@) == problem_views(old(out)@) + track_problems(tracks@, texts(files@), i as int),
{
    let ghost v = problem_views(out@);
    let ghost t = tracks@[i as int];
    let ghost a = only_if(!file_known(texts(files@), t.rel_path@), Problem::UnknownFile(t.rel_path@));
    let ghost b = only_if(file_drafted(tracks@, i as int, t.rel_path@), Problem::DuplicateFile(t.rel_path@));
    let ghost c = only_if(is_blank(t.title@), Problem::EmptyTitle(t.rel_path@));
    let ghost d = key_problems(t.rel_path@, t.tags@, t.tags@.len() as int);
    let ghost e = only_if(
        t.picture is Some && !draft_picture(t.picture->0@),
        Problem::BadPicture(t.rel_path@, t.picture->0@),
    );
    let ghost g = number_problem(tracks@, i as int);
    check_file(out, tracks, files, i);
    check_keys(out, &tracks[i]);
    check_picture_and_number(out, tracks, i);
    proof {
        assert(problem_views(out@) == v + a + b + c + d + e + g);
        lemma_plus_assoc(v, a, b);
        lemma_plus_assoc(v, a + b, c);
        lemma_plus_assoc(v, a + b + c, d);
        lemma_plus_assoc(v, a + b + c + d, e);
        lemma_plus_assoc(v, a + b + c + d + e, g);
    }
}

impl InboxDraft {
    /// All problems of the draft for these files, in order.
    pub fn problems(&self, files: &Vec<String>) -> (r: Vec<DraftError>)
        ensures
            problem_views(r@) == problems_of(*self, texts(files@)),
    {
        let mut out: Vec<DraftError> = Vec::new();
        let ghost f = texts(files@);
        proof {
            assert(problem_views(out@) =~= Seq::empty());
        }
        if blank(&self.album) {
            push_error(&mut out, DraftError::EmptyAlbum);
        }
        if blank(&self.albumartist) {
            push_error(&mut out, DraftError::EmptyAlbumArtist);
        }
        if let Some(c) = &self.category {
            if blank(c) {
                push_error(&mut out, DraftError::EmptyCategory);
            }
        }
        if let Some(d) = &self.date {
            let t = trim(d);
            if !is_valid_date(&t) {
                push_error(&mut out, DraftError::BadDate(d.clone()));
            }
        }
        let ghost head = album_problems(*self);
        proof {
            assert(problem_views(out@) =~= head);
            assert(head + tracks_problems(self.tracks@, f, 0) =~= head);
        }
        let mut i: usize = 0;
        while i < self.tracks.len()
            invariant
                i <= self.tracks@.len(),
                f == texts(files@),
                problem_views(out@) == head + tracks_problems(self.tracks@, f, i as int),
            decreases self.tracks@.len() - i,
        {
            let ghost so_far = problem_views(out@);
            check_track(&mut out, &self.tracks, files, i);
            proof {
                let p = tracks_problems(self.tracks@, f, i as int);
                let q = track_problems(self.tracks@, f, i as int);
                assert(head + p + q =~= head + (p + q));
            }
            i = i + 1;
        }
        let ghost body = head + tracks_problems(self.tracks@, f, self.tracks@.len() as int);
        let n: usize = self.tracks.len();
        let mut j: usize = 0;
        proof {
            assert(body + missing_problems(self.tracks@, f, 0) =~= body);
        }
        while j < files.len()
            invariant
                j <= files@.len(),
                n == self.tracks@.len(),
                f == texts(files@),
                problem_views(out@) == body + missing_problems(self.tracks@, f, j as int),
            decreases files@.len() - j,
        {
            let ghost so_far = problem_views(out@);
            let ghost added = only_if(
                !file_drafted(self.tracks@, n as int, f[j as int]),
                Problem::MissingFile(f[j as int]),
            );
            if !is_drafted(&self.tracks, n, &files[j]) {
                push_error(&mut out, DraftError::MissingFile(files[j].clone()));
            }
            proof {
                assert(problem_views(out@) =~= so_far + added);
                let p = missing_problems(self.tracks@, f, j as int);
                assert(body + p + added =~= body + (p + added));
            }
            j = j + 1;
        }
        let ghost v1 = problem_views(out@);
        let ghost a = only_if(
            self.release_id is Some && !valid_mbid(self.release_id->0@),
            Problem::BadReleaseId(self.release_id->0@),
        );
        if let Some(id) = &self.release_id {
            if !is_mbid(id) {
                push_error(&mut out, DraftError::BadReleaseId(id.clone()));
            }
        }
        proof {
            assert(problem_views(out@) =~= v1 + a);
        }
        let ghost b = only_if(
            self.release_group_id is Some && !valid_mbid(self.release_group_id->0@),
            Problem::BadReleaseGroupId(self.release_group_id->0@),
        );
        if let Some(id) = &self.release_group_id {
            if !is_mbid(id) {
                push_error(&mut out, DraftError::BadReleaseGroupId(id.clone()));
            }
        }
        proof {
            assert(problem_views(out@) =~= v1 + a + b);
        }
        out
    }

    /// The first problem of the draft, if there is one.
    pub fn validate(&self, files: &Vec<String>) -> (r: Result<(), DraftError>)
        ensures
            match r {
                Ok(()) => problems_of(*self, texts(files@)).len() == 0,
                Err(e) => problems_of(*self, texts(files@)).len() > 0 && e@ == problems_of(*self, texts(files@))[0],
            },
    {
        let mut p = self.problems(files);
        let ghost v = problem_views(p@);
        if p.len() == 0 {
            Ok(())
        } else {
            let e = p.remove(0);
            proof {
                assert(v[0] == e@);
            }
            Err(e)
        }
    }

    /// The number of discs: the highest number of a disc, and one at least.
    pub fn disc_count(&self) -> (r: u32)
        ensures
            r == disc_total(self.tracks@),
    {
        let mut n: u32 = 1;
        let mut i: usize = 0;
        while i < self.tracks.len()
            invariant
                i <= self.tracks@.len(),
                n == disc_total(self.tracks@.take(i as int)),
            decreases self.tracks@.len() - i,
        {
            proof {
                assert(self.tracks@.take(i + 1).last() == self.tracks@[i as int]);
                assert(self.tracks@.take(i + 1).drop_last() =~= self.tracks@.take(i as int));
            }
            if self.tracks[i].disc_no > n {
                n = self.tracks[i].disc_no;
            }
            i = i + 1;
        }
        proof {
            assert(self.tracks@.take(i as int) =~= self.tracks@);
        }
        n
    }

    /// The artist of the track `index`: its own, or that of the album where it
    /// has none.
    pub open spec fn artist_of(&self, index: int) -> Seq<char> {
        if 0 <= index < self.tracks@.len() && !is_blank(self.tracks@[index].artist@) {
            trimmed(self.tracks@[index].artist@)
        } else {
            trimmed(self.albumartist@)
        }
    }

    /// The artist of the track `index`: its own, or that of the album where it
    /// has none.
    pub fn track_artist(&self, index: usize) -> (r: String)
        ensures
            r@ == self.artist_of(index as int),
    {
        if index < self.tracks.len() {
            let a = trim(&self.tracks[index].artist);
            if !a.as_str().is_empty() {
                return a;
            }
        }
        trim(&self.albumartist)
    }

    /// The year of the draft.
    pub fn year(&self) -> (r: Option<String>)
        ensures
            opt_text(r) == (match self.date {
                Some(d) => year_text(trimmed(d@)),
                None => None,
            }),
    {
        match &self.date {
            Some(d) => {
                let t = trim(d);
                year_of(&t)
            },
            None => None,
        }
    }
}

// ---------------------------------------------------------------- laws

proof fn lemma_no_track_problems(tracks: Seq<DraftTrack>, files: Seq<Seq<char>>, n: int, i: int)
    requires
        0 <= i < n <= tracks.len(),
        tracks_problems(tracks, files, n).len() == 0,
    ensures
        track_problems(tracks, files, i).len() == 0,
    decreases n,
{
    if i < n - 1 {
        lemma_no_track_problems(tracks, files, n - 1, i);
    }
}

proof fn lemma_no_missing(tracks: Seq<DraftTrack>, files: Seq<Seq<char>>, n: int, i: int)
    requires
        0 <= i < n <= files.len(),
        missing_problems(tracks, files, n).len() == 0,
    ensures
        file_drafted(tracks, tracks.len() as int, files[i]),
    decreases n,
{
    if i < n - 1 {
        lemma_no_missing(tracks, files, n - 1, i);
    }
}

proof fn lemma_no_key_problems(rel_path: Seq<char>, tags: Seq<(String, Option<Vec<String>>)>, n: int, k: int)
    requires
        0 <= k < n <= tags.len(),
        key_problems(rel_path, tags, n).len() == 0,
    ensures
        key_problem(rel_path, tags[k].0@).len() == 0,
    decreases n,
{
    if k < n - 1 {
        lemma_no_key_problems(rel_path, tags, n - 1, k);
    }
}

/// A draft without problems corrects no tag that a field stands for and none by
/// which tracks are told apart.
pub proof fn law_valid_corrections(d: InboxDraft, files: Seq<Seq<char>>, i: int, k: int)
    requires
        problems_of(d, files).len() == 0,
        0 <= i < d.tracks@.len(),
        0 <= k < d.tracks@[i].tags@.len(),
    ensures
        valid_tag_key(d.tracks@[i].tags@[k].0@),
        !covered_key(d.tracks@[i].tags@[k].0@),
        !locked_key(d.tracks@[i].tags@[k].0@),
{
    let t = d.tracks@[i];
    lemma_no_track_problems(d.tracks@, files, d.tracks@.len() as int, i);
    assert(key_problems(t.rel_path@, t.tags@, t.tags@.len() as int).len() == 0);
    lemma_no_key_problems(t.rel_path@, t.tags@, t.tags@.len() as int, k);
}

/// A draft without problems names its album and the artist of it, has a title
/// for each track, gives each track a number of its own from 1 on, and has each
/// file once and no other.
pub proof fn law_valid_draft(d: InboxDraft, files: Seq<Seq<char>>)
    requires
        problems_of(d, files).len() == 0,
    ensures
        !is_blank(d.album@) && !is_blank(d.albumartist@),
        forall|i: int|
            0 <= i < d.tracks@.len() ==> {
                let t = #[trigger] d.tracks@[i];
                !is_blank(t.title@) && t.disc_no > 0 && t.track_no > 0 && file_known(files, t.rel_path@)
            },
        forall|i: int, j: int|
            0 <= i < j < d.tracks@.len() ==> canonical((#[trigger] d.tracks@[i]).rel_path@) != canonical(
                (#[trigger] d.tracks@[j]).rel_path@,
            ) && (d.tracks@[i].disc_no != d.tracks@[j].disc_no || d.tracks@[i].track_no != d.tracks@[j].track_no),
        forall|i: int|
            0 <= i < files.len() ==> file_drafted(d.tracks@, d.tracks@.len() as int, #[trigger] files[i]),
{
    let n = d.tracks@.len() as int;
    assert forall|i: int| 0 <= i < n implies {
        let t = #[trigger] d.tracks@[i];
        !is_blank(t.title@) && t.disc_no > 0 && t.track_no > 0 && file_known(files, t.rel_path@)
    } by {
        lemma_no_track_problems(d.tracks@, files, n, i);
        assert(number_problem(d.tracks@, i).len() == 0);
    }
    assert forall|i: int, j: int| 0 <= i < j < n implies canonical((#[trigger] d.tracks@[i]).rel_path@) != canonical(
        (#[trigger] d.tracks@[j]).rel_path@,
    ) && (d.tracks@[i].disc_no != d.tracks@[j].disc_no || d.tracks@[i].track_no != d.tracks@[j].track_no) by {
        lemma_no_track_problems(d.tracks@, files, n, j);
        assert(!file_drafted(d.tracks@, j, d.tracks@[j].rel_path@));
        assert(number_problem(d.tracks@, j).len() == 0);
    }
    assert forall|i: int| 0 <= i < files.len() implies file_drafted(d.tracks@, n, #[trigger] files[i]) by {
        lemma_no_missing(d.tracks@, files, files.len() as int, i);
    }
}

proof fn lemma_in_sum(a: Seq<Problem>, b: Seq<Problem>, p: Problem)
    ensures
        a.contains(p) || b.contains(p) ==> (a + b).contains(p),
{
    if a.contains(p) {
        let k = choose|k: int| 0 <= k < a.len() && a[k] == p;
        assert((a + b)[k] == p);
    } else if b.contains(p) {
        let k = choose|k: int| 0 <= k < b.len() && b[k] == p;
        assert((a + b)[a.len() + k] == p);
    }
}

proof fn lemma_one(cond: bool, p: Problem)
    ensures
        cond ==> only_if(cond, p).contains(p),
        seq![p].contains(p),
{
    assert(seq![p][0] == p);
}

proof fn lemma_problem_listed(d: InboxDraft, files: Seq<Seq<char>>, p: Problem)
    ensures
        album_problems(d).contains(p) ==> problems_of(d, files).contains(p),
        tracks_problems(d.tracks@, files, d.tracks@.len() as int).contains(p) ==> problems_of(d, files).contains(p),
        missing_problems(d.tracks@, files, files.len() as int).contains(p) ==> problems_of(d, files).contains(p),
{
    let a = album_problems(d);
    let t = tracks_problems(d.tracks@, files, d.tracks@.len() as int);
    let m = missing_problems(d.tracks@, files, files.len() as int);
    let r = only_if(
        d.release_id is Some && !valid_mbid(d.release_id->0@),
        Problem::BadReleaseId(d.release_id->0@),
    );
    let g = only_if(
        d.release_group_id is Some && !valid_mbid(d.release_group_id->0@),
        Problem::BadReleaseGroupId(d.release_group_id->0@),
    );
    lemma_in_sum(a, t, p);
    lemma_in_sum(a + t, m, p);
    lemma_in_sum(a + t + m, r, p);
    lemma_in_sum(a + t + m + r, g, p);
}

/// What is wrong with a release as a whole is reported: a name that is missing, a date or an id that is
/// malformed.
pub proof fn law_faults_of_a_release_are_reported(d: InboxDraft, files: Seq<Seq<char>>)
    ensures
        is_blank(d.album@) ==> problems_of(d, files).contains(Problem::EmptyAlbum),
        is_blank(d.albumartist@) ==> problems_of(d, files).contains(Problem::EmptyAlbumArtist),
        d.category matches Some(c) ==> (is_blank(c@) ==> problems_of(d, files).contains(Problem::EmptyCategory)),
        d.date matches Some(x) ==> (!valid_date(trimmed(x@)) ==> problems_of(d, files).contains(Problem::BadDate(x@))),
        d.release_id matches Some(x) ==> (!valid_mbid(x@) ==> problems_of(d, files).contains(
            Problem::BadReleaseId(x@),
        )),
        d.release_group_id matches Some(x) ==> (!valid_mbid(x@) ==> problems_of(d, files).contains(
            Problem::BadReleaseGroupId(x@),
        )),
{
    let p0 = Problem::EmptyAlbum;
    let p1 = Problem::EmptyAlbumArtist;
    let p2 = Problem::EmptyCategory;
    let p3 = Problem::BadDate(d.date->0@);
    let s0 = only_if(is_blank(d.album@), p0);
    let s1 = only_if(is_blank(d.albumartist@), p1);
    let s2 = only_if(d.category is Some && is_blank(d.category->0@), p2);
    let s3 = only_if(d.date is Some && !valid_date(trimmed(d.date->0@)), p3);
    lemma_one(is_blank(d.album@), p0);
    lemma_in_sum(s0, s1, p0);
    lemma_in_sum(s0 + s1, s2, p0);
    lemma_in_sum(s0 + s1 + s2, s3, p0);
    lemma_problem_listed(d, files, p0);
    lemma_one(is_blank(d.albumartist@), p1);
    lemma_in_sum(s0, s1, p1);
    lemma_in_sum(s0 + s1, s2, p1);
    lemma_in_sum(s0 + s1 + s2, s3, p1);
    lemma_problem_listed(d, files, p1);
    lemma_one(d.category is Some && is_blank(d.category->0@), p2);
    lemma_in_sum(s0 + s1, s2, p2);
    lemma_in_sum(s0 + s1 + s2, s3, p2);
    lemma_problem_listed(d, files, p2);
    lemma_one(d.date is Some && !valid_date(trimmed(d.date->0@)), p3);
    lemma_in_sum(s0 + s1 + s2, s3, p3);
    lemma_problem_listed(d, files, p3);
    let all = album_problems(d) + tracks_problems(d.tracks@, files, d.tracks@.len() as int) + missing_problems(
        d.tracks@,
        files,
        files.len() as int,
    );
    let pr = Problem::BadReleaseId(d.release_id->0@);
    let pg = Problem::BadReleaseGroupId(d.release_group_id->0@);
    let sr = only_if(d.release_id is Some && !valid_mbid(d.release_id->0@), pr);
    let sg = only_if(d.release_group_id is Some && !valid_mbid(d.release_group_id->0@), pg);
    lemma_one(d.release_id is Some && !valid_mbid(d.release_id->0@), pr);
    lemma_one(d.release_group_id is Some && !valid_mbid(d.release_group_id->0@), pg);
    lemma_in_sum(all, sr, pr);
    lemma_in_sum(all + sr, sg, pr);
    lemma_in_sum(all + sr, sg, pg);
}

proof fn lemma_track_listed(d: InboxDraft, files: Seq<Seq<char>>, n: int, i: int, p: Problem)
    requires
        0 <= i < n,
        track_problems(d.tracks@, files, i).contains(p),
    ensures
        tracks_problems(d.tracks@, files, n).contains(p),
    decreases n,
{
    if i < n - 1 {
        lemma_track_listed(d, files, n - 1, i, p);
    }
    lemma_in_sum(tracks_problems(d.tracks@, files, n - 1), track_problems(d.tracks@, files, n - 1), p);
}

proof fn lemma_key_listed(rel_path: Seq<char>, tags: Seq<(String, Option<Vec<String>>)>, n: int, k: int, p: Problem)
    requires
        0 <= k < n,
        key_problem(rel_path, tags[k].0@).contains(p),
    ensures
        key_problems(rel_path, tags, n).contains(p),
    decreases n,
{
    if k < n - 1 {
        lemma_key_listed(rel_path, tags, n - 1, k, p);
    }
    lemma_in_sum(key_problems(rel_path, tags, n - 1), key_problem(rel_path, tags[n - 1].0@), p);
}

/// What is wrong with a track is reported, with its file: a file that is not there or was named before, a
/// title that is missing, a number below 1 or one that an earlier track has, a picture that is malformed.
pub proof fn law_faults_of_a_track_are_reported(d: InboxDraft, files: Seq<Seq<char>>, i: int, j: int)
    requires
        0 <= j < i < d.tracks@.len() || (j == -1 && 0 <= i < d.tracks@.len()),
    ensures
        ({
            let t = d.tracks@[i];
            let all = problems_of(d, files);
            &&& (forall|f: int| 0 <= f < files.len() ==> canonical(#[trigger] files[f]) != canonical(t.rel_path@))
                ==> all.contains(Problem::UnknownFile(t.rel_path@))
            &&& j >= 0 && canonical(d.tracks@[j].rel_path@) == canonical(t.rel_path@) ==> all.contains(
                Problem::DuplicateFile(t.rel_path@),
            )
            &&& is_blank(t.title@) ==> all.contains(Problem::EmptyTitle(t.rel_path@))
            &&& t.disc_no == 0 || t.track_no == 0 ==> all.contains(Problem::BadNumber(t.rel_path@))
            &&& j >= 0 && t.disc_no > 0 && t.track_no > 0 && d.tracks@[j].disc_no == t.disc_no && d.tracks@[j].track_no
                == t.track_no ==> all.contains(Problem::DuplicateNumber(t.disc_no, t.track_no))
            &&& t.picture matches Some(v) ==> (!draft_picture(v@) ==> all.contains(
                Problem::BadPicture(t.rel_path@, v@),
            ))
        }),
{
    let tr = d.tracks@;
    let t = tr[i];
    let p0 = Problem::UnknownFile(t.rel_path@);
    let p1 = Problem::DuplicateFile(t.rel_path@);
    let p2 = Problem::EmptyTitle(t.rel_path@);
    let p3 = Problem::BadPicture(t.rel_path@, t.picture->0@);
    let p4 = Problem::BadNumber(t.rel_path@);
    let p5 = Problem::DuplicateNumber(t.disc_no, t.track_no);
    let s0 = only_if(!file_known(files, t.rel_path@), p0);
    let s1 = only_if(file_drafted(tr, i, t.rel_path@), p1);
    let s2 = only_if(is_blank(t.title@), p2);
    let sk = key_problems(t.rel_path@, t.tags@, t.tags@.len() as int);
    let s3 = only_if(t.picture is Some && !draft_picture(t.picture->0@), p3);
    let sn = number_problem(tr, i);
    lemma_one(!file_known(files, t.rel_path@), p0);
    lemma_one(file_drafted(tr, i, t.rel_path@), p1);
    lemma_one(is_blank(t.title@), p2);
    lemma_one(t.picture is Some && !draft_picture(t.picture->0@), p3);
    lemma_one(true, p4);
    lemma_one(true, p5);
    let faults = seq![p0, p1, p2, p3, p4, p5];
    assert forall|k: int| 0 <= k < 6 && track_problems(tr, files, i).contains(#[trigger] faults[k]) implies problems_of(
        d,
        files,
    ).contains(faults[k]) by {
        lemma_track_listed(d, files, tr.len() as int, i, faults[k]);
        lemma_problem_listed(d, files, faults[k]);
    }
    assert forall|k: int| #![trigger faults[k]]
        0 <= k < 6 && (s0.contains(faults[k]) || s1.contains(faults[k]) || s2.contains(faults[k]) || s3.contains(
            faults[k],
        ) || sn.contains(faults[k])) implies track_problems(tr, files, i).contains(faults[k]) by {
        lemma_in_sum(s0, s1, faults[k]);
        lemma_in_sum(s0 + s1, s2, faults[k]);
        lemma_in_sum(s0 + s1 + s2, sk, faults[k]);
        lemma_in_sum(s0 + s1 + s2 + sk, s3, faults[k]);
        lemma_in_sum(s0 + s1 + s2 + sk + s3, sn, faults[k]);
    }
    assert(faults[0] == p0 && faults[1] == p1 && faults[2] == p2 && faults[3] == p3 && faults[4] == p4 && faults[5]
        == p5);
}

/// A correction of a tag that is malformed, that a field of the draft stands for or that tells tracks apart
/// is reported.
pub proof fn law_faulty_corrections_are_reported(d: InboxDraft, files: Seq<Seq<char>>, i: int, k: int)
    requires
        0 <= i < d.tracks@.len(),
        0 <= k < d.tracks@[i].tags@.len(),
    ensures
        ({
            let f = d.tracks@[i].rel_path@;
            let key = d.tracks@[i].tags@[k].0@;
            let all = problems_of(d, files);
            &&& !valid_tag_key(key) ==> all.contains(Problem::BadTagKey(f, key))
            &&& valid_tag_key(key) && covered_key(key) ==> all.contains(Problem::CoveredTagKey(f, key))
            &&& valid_tag_key(key) && !covered_key(key) && locked_key(key) ==> all.contains(
                Problem::LockedTagKey(f, key),
            )
        }),
{
    let tr = d.tracks@;
    let t = tr[i];
    let key = t.tags@[k].0@;
    let kp = key_problem(t.rel_path@, key);
    if kp.len() > 0 {
        let p = kp[0];
        assert(kp.contains(p));
        let s0 = only_if(!file_known(files, t.rel_path@), Problem::UnknownFile(t.rel_path@));
        let s1 = only_if(file_drafted(tr, i, t.rel_path@), Problem::DuplicateFile(t.rel_path@));
        let s2 = only_if(is_blank(t.title@), Problem::EmptyTitle(t.rel_path@));
        let sk = key_problems(t.rel_path@, t.tags@, t.tags@.len() as int);
        let s3 = only_if(
            t.picture is Some && !draft_picture(t.picture->0@),
            Problem::BadPicture(t.rel_path@, t.picture->0@),
        );
        let sn = number_problem(tr, i);
        lemma_key_listed(t.rel_path@, t.tags@, t.tags@.len() as int, k, p);
        lemma_in_sum(s0 + s1 + s2, sk, p);
        lemma_in_sum(s0 + s1 + s2 + sk, s3, p);
        lemma_in_sum(s0 + s1 + s2 + sk + s3, sn, p);
        lemma_track_listed(d, files, tr.len() as int, i, p);
        lemma_problem_listed(d, files, p);
    }
}

/// A file that no track names is reported.
pub proof fn law_forgotten_files_are_reported(d: InboxDraft, files: Seq<Seq<char>>, f: int)
    requires
        0 <= f < files.len(),
        forall|j: int|
            0 <= j < d.tracks@.len() ==> canonical((#[trigger] d.tracks@[j]).rel_path@) != canonical(files[f]),
    ensures
        problems_of(d, files).contains(Problem::MissingFile(files[f])),
{
    lemma_missing_listed(d, files, files.len() as int, f);
    lemma_problem_listed(d, files, Problem::MissingFile(files[f]));
}

proof fn lemma_missing_listed(d: InboxDraft, files: Seq<Seq<char>>, n: int, f: int)
    requires
        0 <= f < n,
        !file_drafted(d.tracks@, d.tracks@.len() as int, files[f]),
    ensures
        missing_problems(d.tracks@, files, n).contains(Problem::MissingFile(files[f])),
    decreases n,
{
    let p = Problem::MissingFile(files[f]);
    let s = only_if(
        !file_drafted(d.tracks@, d.tracks@.len() as int, files[n - 1]),
        Problem::MissingFile(files[n - 1]),
    );
    if f < n - 1 {
        lemma_missing_listed(d, files, n - 1, f);
    } else {
        lemma_one(true, p);
    }
    lemma_in_sum(missing_problems(d.tracks@, files, n - 1), s, p);
}

/// A draft that names its release, whose tracks have titles, numbers of their own and one file each, and
/// whose corrections are all in order, has no problem.
pub proof fn law_faultless_draft_is_accepted(d: InboxDraft, files: Seq<Seq<char>>)
    requires
        !is_blank(d.album@),
        !is_blank(d.albumartist@),
        d.category matches Some(c) ==> !is_blank(c@),
        d.date matches Some(x) ==> valid_date(trimmed(x@)),
        d.release_id matches Some(x) ==> valid_mbid(x@),
        d.release_group_id matches Some(x) ==> valid_mbid(x@),
        forall|i: int|
            0 <= i < d.tracks@.len() ==> {
                let t = #[trigger] d.tracks@[i];
                &&& !is_blank(t.title@)
                &&& t.disc_no > 0
                &&& t.track_no > 0
                &&& file_known(files, t.rel_path@)
                &&& t.picture matches Some(v) ==> draft_picture(v@)
            },
        forall|i: int, k: int|
            0 <= i < d.tracks@.len() && 0 <= k < d.tracks@[i].tags@.len() ==> {
                let key = (#[trigger] d.tracks@[i].tags@[k]).0@;
                valid_tag_key(key) && !covered_key(key) && !locked_key(key)
            },
        forall|i: int, j: int|
            0 <= i < j < d.tracks@.len() ==> canonical((#[trigger] d.tracks@[i]).rel_path@) != canonical(
                (#[trigger] d.tracks@[j]).rel_path@,
            ) && (d.tracks@[i].disc_no != d.tracks@[j].disc_no || d.tracks@[i].track_no != d.tracks@[j].track_no),
        forall|i: int|
            0 <= i < files.len() ==> file_drafted(d.tracks@, d.tracks@.len() as int, #[trigger] files[i]),
    ensures
        problems_of(d, files).len() == 0,
{
    lemma_faultless_tracks(d, files, d.tracks@.len() as int);
    lemma_faultless_files(d, files, files.len() as int);
}

proof fn lemma_faultless_keys(rel_path: Seq<char>, tags: Seq<(String, Option<Vec<String>>)>, n: int)
    requires
        n <= tags.len(),
        forall|k: int|
            0 <= k < tags.len() ==> {
                let key = (#[trigger] tags[k]).0@;
                valid_tag_key(key) && !covered_key(key) && !locked_key(key)
            },
    ensures
        key_problems(rel_path, tags, n).len() == 0,
    decreases n,
{
    if n > 0 {
        lemma_faultless_keys(rel_path, tags, n - 1);
        assert(key_problem(rel_path, tags[n - 1].0@).len() == 0);
    }
}

proof fn lemma_faultless_tracks(d: InboxDraft, files: Seq<Seq<char>>, n: int)
    requires
        n <= d.tracks@.len(),
        forall|i: int|
            0 <= i < d.tracks@.len() ==> {
                let t = #[trigger] d.tracks@[i];
                &&& !is_blank(t.title@)
                &&& t.disc_no > 0
                &&& t.track_no > 0
                &&& file_known(files, t.rel_path@)
                &&& t.picture matches Some(v) ==> draft_picture(v@)
            },
        forall|i: int, k: int|
            0 <= i < d.tracks@.len() && 0 <= k < d.tracks@[i].tags@.len() ==> {
                let key = (#[trigger] d.tracks@[i].tags@[k]).0@;
                valid_tag_key(key) && !covered_key(key) && !locked_key(key)
            },
        forall|i: int, j: int|
            0 <= i < j < d.tracks@.len() ==> canonical((#[trigger] d.tracks@[i]).rel_path@) != canonical(
                (#[trigger] d.tracks@[j]).rel_path@,
            ) && (d.tracks@[i].disc_no != d.tracks@[j].disc_no || d.tracks@[i].track_no != d.tracks@[j].track_no),
    ensures
        tracks_problems(d.tracks@, files, n).len() == 0,
    decreases n,
{
    if n > 0 {
        lemma_faultless_tracks(d, files, n - 1);
        let t = d.tracks@[n - 1];
        lemma_faultless_keys(t.rel_path@, t.tags@, t.tags@.len() as int);
        assert(track_problems(d.tracks@, files, n - 1).len() == 0);
    }
}

proof fn lemma_faultless_files(d: InboxDraft, files: Seq<Seq<char>>, n: int)
    requires
        n <= files.len(),
        forall|i: int|
            0 <= i < files.len() ==> file_drafted(d.tracks@, d.tracks@.len() as int, #[trigger] files[i]),
    ensures
        missing_problems(d.tracks@, files, n).len() == 0,
    decreases n,
{
    if n > 0 {
        lemma_faultless_files(d, files, n - 1);
        assert(file_drafted(d.tracks@, d.tracks@.len() as int, files[n - 1]));
    }
}

/// A release has as many discs as the highest disc number of its tracks, and one at least.
pub proof fn law_disc_total_is_the_highest(tracks: Seq<DraftTrack>)
    ensures
        disc_total(tracks) >= 1,
        forall|i: int| 0 <= i < tracks.len() ==> (#[trigger] tracks[i]).disc_no <= disc_total(tracks),
        disc_total(tracks) > 1 ==> exists|i: int|
            0 <= i < tracks.len() && (#[trigger] tracks[i]).disc_no == disc_total(tracks),
    decreases tracks.len(),
{
    if tracks.len() > 0 {
        let d = tracks.drop_last();
        law_disc_total_is_the_highest(d);
        assert forall|i: int| 0 <= i < tracks.len() implies (#[trigger] tracks[i]).disc_no <= disc_total(tracks) by {
            if i < d.len() {
                assert(tracks[i] == d[i]);
            }
        }
        if disc_total(tracks) > 1 {
            if tracks.last().disc_no > disc_total(d) {
                assert(tracks[tracks.len() - 1].disc_no == disc_total(tracks));
            } else {
                let i = choose|i: int| 0 <= i < d.len() && (#[trigger] d[i]).disc_no == disc_total(d);
                assert(tracks[i].disc_no == disc_total(tracks));
            }
        }
    }
}

/// A track is by its own artist where the draft names one, and by the artist of the release else.
pub proof fn law_artist_of_a_track(d: InboxDraft, i: int)
    requires
        0 <= i < d.tracks@.len(),
    ensures
        trimmed(d.tracks@[i].artist@).len() > 0 ==> d.artist_of(i) == trimmed(d.tracks@[i].artist@),
        trimmed(d.tracks@[i].artist@).len() == 0 ==> d.artist_of(i) == trimmed(d.albumartist@),
{
}

/// The tags that the fields of a draft stand for, and those by which tracks are told apart.
pub proof fn law_keys_out_of_reach(key: Seq<char>, name: Seq<char>)
    ensures
        covered_key(key) <==> seq![
            "TITLE"@,
            "ARTIST"@,
            "ALBUM"@,
            "ALBUMARTIST"@,
            "DATE"@,
            "TRACKNUMBER"@,
            "DISCNUMBER"@,
            "DISCTOTAL"@,
            "PICTURE"@,
        ].contains(key),
        locked_key("SOURCE_URL"@),
        locked_key("MUSICBRAINZ_"@ + name),
        locked_key(key) && key != "SOURCE_URL"@ ==> key == "MUSICBRAINZ_"@ + key.skip("MUSICBRAINZ_"@.len() as int),
{
    let all = seq![
        "TITLE"@,
        "ARTIST"@,
        "ALBUM"@,
        "ALBUMARTIST"@,
        "DATE"@,
        "TRACKNUMBER"@,
        "DISCNUMBER"@,
        "DISCTOTAL"@,
        "PICTURE"@,
    ];
    assert(all[0] == "TITLE"@ && all[1] == "ARTIST"@ && all[2] == "ALBUM"@ && all[3] == "ALBUMARTIST"@ && all[4]
        == "DATE"@ && all[5] == "TRACKNUMBER"@ && all[6] == "DISCNUMBER"@ && all[7] == "DISCTOTAL"@ && all[8]
        == "PICTURE"@);
    let m = "MUSICBRAINZ_"@;
    assert((m + name).take(m.len() as int) =~= m);
    if starts_with(key, m) {
        assert(key =~= key.take(m.len() as int) + key.skip(m.len() as int));
    }
}

/// What a draft says of a track is what stands in it.
pub proof fn law_text_of_a_track(t: DraftTrack)
    ensures
        t@.rel_path == t.rel_path@,
        t@.disc_no == t.disc_no,
        t@.track_no == t.track_no,
        t@.title == t.title@,
        t@.artist == t.artist@,
        t@.keep_artists == t.keep_artists,
        t@.picture == opt_text(t.picture),
        t@.tags.len() == t.tags@.len(),
        forall|i: int| 0 <= i < t.tags@.len() ==> (#[trigger] t@.tags[i]).0 == t.tags@[i].0@,
{
}

/// Each problem names what it is about.
pub proof fn law_problems_name_their_file(f: String, k: String, d: u32, t: u32)
    ensures
        (DraftError::EmptyTitle { rel_path: f })@ == Problem::EmptyTitle(f@),
        (DraftError::BadNumber { rel_path: f })@ == Problem::BadNumber(f@),
        (DraftError::DuplicateNumber { disc_no: d, track_no: t })@ == Problem::DuplicateNumber(d, t),
        DraftError::UnknownFile(f)@ == Problem::UnknownFile(f@),
        DraftError::MissingFile(f)@ == Problem::MissingFile(f@),
        DraftError::DuplicateFile(f)@ == Problem::DuplicateFile(f@),
        DraftError::BadDate(f)@ == Problem::BadDate(f@),
        (DraftError::BadTagKey { rel_path: f, key: k })@ == Problem::BadTagKey(f@, k@),
        (DraftError::CoveredTagKey { rel_path: f, key: k })@ == Problem::CoveredTagKey(f@, k@),
        (DraftError::LockedTagKey { rel_path: f, key: k })@ == Problem::LockedTagKey(f@, k@),
        (DraftError::BadPicture { rel_path: f, value: k })@ == Problem::BadPicture(f@, k@),
        DraftError::BadReleaseId(f)@ == Problem::BadReleaseId(f@),
        DraftError::BadReleaseGroupId(f)@ == Problem::BadReleaseGroupId(f@),
        DraftError::EmptyAlbum@ == Problem::EmptyAlbum,
        DraftError::EmptyAlbumArtist@ == Problem::EmptyAlbumArtist,
        DraftError::EmptyCategory@ == Problem::EmptyCategory,
{
}

} // verus!
