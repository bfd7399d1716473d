//! Scanning the library: what was found on disk against what the catalogue
//! says.

use crate::catalog::{
    first_of, law_first_value, law_no_value, same16, same32, values_of, AudioFile, CacheColumns,
    Codec, Fingerprint, PictureState, StoredPicture, TagSet, TrackContent,
};
use crate::fsroot::{FileKind, FsError, Stat};
use crate::split::{has_char, has_member, join, split};
use crate::text::{
    concat2, concat4, int_text, joined, law_split_at_the_first_separator,
    law_split_is_undone_by_join, law_written_number_is_read_back, leading_int, leading_number,
    opt_text, split_on, texts,
};
use crate::unicode::{canonical, canonical_key};
use vstd::prelude::*;
use vstd::string::*;

verus! {

/// A temporary file older than this is a leftover. Younger ones may belong to a
/// write that is going on.
pub const TMP_RECLAIM_AGE_SECS: i64 = 3600;

/// What stands between several artists where they are shown as one text.
pub const ARTIST_SEPARATOR: &'static str = ", ";

/// The phases that report progress.
#[derive(Debug, Clone, Copy, PartialEq, Eq, Structural)]
pub enum ScanPhase {
    /// The digests that telling files apart asked for.
    Md5,
    /// Reading what is new or changed.
    Read,
}

/// Why a path is left out.
#[derive(Debug, Clone, Copy, PartialEq, Eq, Structural, PartialOrd, Ord, Hash)]
pub enum SkipReason {
    Symlink,
    InvalidName,
    /// Another file of this scan has the same key.
    DuplicateKey,
}

/// A path that is left out.
#[derive(Debug, Clone)]
pub struct Skipped {
    pub path: String,
    pub reason: SkipReason,
}

/// What a scan did.
#[derive(Debug)]
pub struct ScanReport {
    pub run_id: i64,
    pub files_seen: u64,
    pub new: u64,
    pub updated: u64,
    pub unchanged: u64,
    pub moved: u64,
    pub revived: u64,
    pub missing_marked: u64,
    pub errors: u64,
    pub tmp_removed: u64,
    /// Rows that another job changed after the snapshot: only seen.
    pub overtaken: u64,
    pub skipped: Vec<Skipped>,
    /// Rows whose content changed, in increasing order.
    pub changed_ids: Vec<i64>,
    pub artwork_resolved: u64,
    pub enqueued_jobs: Vec<i64>,
    pub artwork_error: Option<String>,
    pub categories_registered: u64,
    pub albums_categorized: u64,
}

/// Why a scan did not complete.
#[derive(Debug)]
pub enum ScanError {
    Cancelled,
    Walk { path: String, source: FsError },
    Db(String),
    Internal(String),
}

/// The state in which a run ends.
#[derive(Debug, Clone, Copy, PartialEq, Eq, Structural)]
pub enum RunState {
    Completed,
    Cancelled,
    Failed,
}

impl ScanError {
    /// The text that a user reads.
    pub open spec fn text(&self) -> Seq<char> {
        match self {
            ScanError::Cancelled => "キャンセルされた"@,
            ScanError::Walk { path, source } => "走査に失敗: "@ + path@ + ": "@ + source.text(),
            ScanError::Db(e) => e@,
            ScanError::Internal(e) => "内部エラー: "@ + e@,
        }
    }

    /// The text that a user reads.
    pub fn message(&self) -> (r: String)
        ensures
            r@ == self.text(),
    {
        match self {
            ScanError::Cancelled => "キャンセルされた".to_owned(),
            ScanError::Walk { path, source } => {
                let s = source.message();
                concat4("走査に失敗: ", path, ": ", &s)
            },
            ScanError::Db(e) => e.clone(),
            ScanError::Internal(e) => concat2("内部エラー: ", e),
        }
    }

    /// The state that a run which stopped for this reason is left in.
    pub fn run_state(&self) -> (r: RunState)
        ensures
            r == (if self is Cancelled { RunState::Cancelled } else { RunState::Failed }),
    {
        match self {
            ScanError::Cancelled => RunState::Cancelled,
            _ => RunState::Failed,
        }
    }
}

// ---------------------------------------------------------------- settings

/// The directory of what has no category.
pub const DEFAULT_UNSORTED_DIR: &'static str = "_Unsorted";

/// The settings of a scan.
#[derive(Debug)]
pub struct Scanner {
    /// How many files are read at once, one at least.
    pub parallelism: usize,
    /// The keys of the first components that never become categories.
    pub category_skip: Vec<String>,
}

/// The fixed first component of a layout, none where it is empty or has a
/// placeholder in it.
pub open spec fn fixed_top(template: Seq<char>) -> Option<Seq<char>> {
    let first = split_on(template, '/')[0];
    if first.len() > 0 && !first.contains('{') {
        Some(first)
    } else {
        None
    }
}

impl Scanner {
    /// A scan that reads `parallelism` files at once, and one where that is zero.
    pub fn new(parallelism: usize) -> (r: Scanner)
        ensures
            r.parallelism == (if parallelism == 0 { 1 } else { parallelism as int }),
            texts(r.category_skip@) == seq![canonical(DEFAULT_UNSORTED_DIR@)],
    {
        let mut category_skip: Vec<String> = Vec::new();
        category_skip.push(canonical_key(DEFAULT_UNSORTED_DIR));
        proof {
            assert(texts(category_skip@) =~= seq![canonical(DEFAULT_UNSORTED_DIR@)]);
        }
        Scanner { parallelism: if parallelism == 0 { 1 } else { parallelism }, category_skip }
    }

    /// The same scan with the fixed first component of the layout of what has no
    /// category set apart too.
    pub fn with_unsorted_layout(self, template: &str) -> (r: Scanner)
        ensures
            r.parallelism == self.parallelism,
            texts(r.category_skip@) == (match fixed_top(template@) {
                Some(first) => if texts(self.category_skip@).contains(canonical(first)) {
                    texts(self.category_skip@)
                } else {
                    texts(self.category_skip@).push(canonical(first))
                },
                None => texts(self.category_skip@),
            }),
    {
        let parts = split(template, '/');
        proof {
            assert(texts(parts@)[0] == parts@[0]@);
        }
        let first = parts[0].as_str();
        let mut skip = self.category_skip;
        if !first.is_empty() && !has_char(first, '{') {
            let key = canonical_key(first);
            if !has_member(&skip, &key) {
                let ghost before = texts(skip@);
                let ghost k = key@;
                skip.push(key);
                proof {
                    assert(texts(skip@) =~= before.push(k));
                }
            }
        }
        Scanner { parallelism: self.parallelism, category_skip: skip }
    }
}

// ---------------------------------------------------------------- fingerprints

/// The sound changed: a digest of the same sort differs, or the sort changed
/// (a lossless file in place of a lossy one, or the other way round).
pub open spec fn sound_changed(new: Fingerprint, old_md5: Option<[u8; 16]>, old_fp: Option<[u8; 32]>) -> bool {
    match new {
        Fingerprint::Md5(Some(n)) => match old_md5 {
            Some(o) => n != o,
            None => old_fp is Some,
        },
        Fingerprint::Fp(Some(n)) => match old_fp {
            Some(o) => n != o,
            None => old_md5 is Some,
        },
        _ => false,
    }
}

/// Whether the sound of a file changed (see [`sound_changed`]).
pub fn audio_changed(new: Fingerprint, old_md5: Option<[u8; 16]>, old_fp: Option<[u8; 32]>) -> (r: bool)
    ensures
        r == sound_changed(new, old_md5, old_fp),
        new matches Fingerprint::Md5(Some(n)) ==> (old_md5 matches Some(o) ==> r == (n != o)),
        new matches Fingerprint::Fp(Some(n)) ==> (old_fp matches Some(o) ==> r == (n != o)),
        (new matches Fingerprint::Md5(Some(_))) && old_md5 is None ==> r == old_fp is Some,
        (new matches Fingerprint::Fp(Some(_))) && old_fp is None ==> r == old_md5 is Some,
        new matches Fingerprint::Md5(None) ==> !r,
        new matches Fingerprint::Fp(None) ==> !r,
{
    match (new, old_md5, old_fp) {
        (Fingerprint::Md5(Some(n)), Some(o), _) => !same16(&n, &o),
        (Fingerprint::Fp(Some(n)), _, Some(o)) => !same32(&n, &o),
        (Fingerprint::Md5(Some(_)), None, Some(_)) => true,
        (Fingerprint::Fp(Some(_)), Some(_), None) => true,
        _ => false,
    }
}

/// The fingerprint to keep: where none could be computed, the old one of its sort.
pub open spec fn kept_fingerprint(
    new: Fingerprint,
    old_md5: Option<[u8; 16]>,
    old_fp: Option<[u8; 32]>,
) -> Fingerprint {
    match new {
        Fingerprint::Md5(None) => Fingerprint::Md5(old_md5),
        Fingerprint::Fp(None) => Fingerprint::Fp(old_fp),
        _ => new,
    }
}

/// The fingerprint to keep (see [`kept_fingerprint`]).
pub fn effective_fingerprint(
    new: Fingerprint,
    old_md5: Option<[u8; 16]>,
    old_fp: Option<[u8; 32]>,
) -> (r: Fingerprint)
    ensures
        r == kept_fingerprint(new, old_md5, old_fp),
{
    match new {
        Fingerprint::Md5(None) => Fingerprint::Md5(old_md5),
        Fingerprint::Fp(None) => Fingerprint::Fp(old_fp),
        other => other,
    }
}

/// A fingerprint that was kept counts as no change when it is read again.
pub proof fn law_kept_fingerprint_is_unchanged(
    new: Fingerprint,
    old_md5: Option<[u8; 16]>,
    old_fp: Option<[u8; 32]>,
)
    ensures
        ({
            let kept = kept_fingerprint(new, old_md5, old_fp);
            match kept {
                Fingerprint::Md5(m) => !sound_changed(new, m, None),
                Fingerprint::Fp(f) => !sound_changed(new, None, f),
            }
        }),
{
}

/// Another sound is noticed whatever else the row holds: a digest that differs from
/// the known one of its sort, and only such a one, and a digest of the sort that the
/// row has not.
pub proof fn law_another_sound_is_noticed(
    a: [u8; 16],
    b: [u8; 16],
    x: [u8; 32],
    y: [u8; 32],
    md5: Option<[u8; 16]>,
    fp: Option<[u8; 32]>,
)
    requires
        a != b,
        x != y,
    ensures
        sound_changed(Fingerprint::Md5(Some(a)), Some(b), fp),
        sound_changed(Fingerprint::Fp(Some(x)), md5, Some(y)),
        sound_changed(Fingerprint::Md5(Some(a)), None, Some(x)),
        sound_changed(Fingerprint::Fp(Some(x)), Some(a), None),
        !sound_changed(Fingerprint::Md5(Some(a)), Some(a), fp),
        !sound_changed(Fingerprint::Fp(Some(x)), md5, Some(x)),
{
}

/// A sound that could not be told is no change and loses nothing: the row keeps the
/// digest of that sort. A sound that could be told replaces it. And nothing counts as
/// a change for a row that has no digest at all.
pub proof fn law_unknown_sound_changes_nothing(
    a: [u8; 16],
    x: [u8; 32],
    md5: Option<[u8; 16]>,
    fp: Option<[u8; 32]>,
    any: Fingerprint,
)
    ensures
        !sound_changed(Fingerprint::Md5(None), md5, fp),
        !sound_changed(Fingerprint::Fp(None), md5, fp),
        !sound_changed(any, None, None),
        kept_fingerprint(Fingerprint::Md5(None), md5, fp) == Fingerprint::Md5(md5),
        kept_fingerprint(Fingerprint::Fp(None), md5, fp) == Fingerprint::Fp(fp),
        kept_fingerprint(Fingerprint::Md5(Some(a)), md5, fp) == Fingerprint::Md5(Some(a)),
        kept_fingerprint(Fingerprint::Fp(Some(x)), md5, fp) == Fingerprint::Fp(Some(x)),
{
}

/// How the digest of a lossless file is to be had.
#[derive(Debug, Clone, Copy, PartialEq, Eq, Structural)]
pub enum Md5Source {
    /// The file carries it.
    StreamInfo,
    /// From the decoded samples.
    Decoded,
    /// There is none.
    Nowhere,
}

/// How the digest of a file is to be had, by the codec of its name and, for the
/// container that may hold either sort, by the codec inside (none where it
/// could not be read).
pub fn md5_source(ext_codec: Codec, inside: Option<Codec>) -> (r: Md5Source)
    ensures
        r == (match ext_codec {
            Codec::Flac => Md5Source::StreamInfo,
            Codec::Wav | Codec::Aiff => Md5Source::Decoded,
            Codec::Aac => if inside == Some(Codec::Alac) {
                Md5Source::Decoded
            } else {
                Md5Source::Nowhere
            },
            _ => Md5Source::Nowhere,
        }),
        r is StreamInfo <==> ext_codec == Codec::Flac,
        ext_codec == Codec::Wav || ext_codec == Codec::Aiff ==> r is Decoded,
        ext_codec == Codec::Aac ==> (r is Decoded <==> inside == Some(Codec::Alac)),
        r is Decoded ==> ext_codec == Codec::Wav || ext_codec == Codec::Aiff || ext_codec == Codec::Aac,
{
    match ext_codec {
        Codec::Flac => Md5Source::StreamInfo,
        Codec::Wav | Codec::Aiff => Md5Source::Decoded,
        Codec::Aac => match inside {
            Some(Codec::Alac) => Md5Source::Decoded,
            _ => Md5Source::Nowhere,
        },
        _ => Md5Source::Nowhere,
    }
}

/// The fingerprint of a file that was read: a digest computed before stands
/// for a lossless file, else what was computed now.
pub fn read_fingerprint(
    lossless: bool,
    cached_md5: Option<Option<[u8; 16]>>,
    md5: Option<[u8; 16]>,
    fp: Option<[u8; 32]>,
) -> (r: Fingerprint)
    ensures
        r == (if lossless {
            match cached_md5 {
                Some(m) => Fingerprint::Md5(m),
                None => Fingerprint::Md5(md5),
            }
        } else {
            Fingerprint::Fp(fp)
        }),
        lossless ==> r is Md5,
        !lossless ==> r is Fp,
        lossless && cached_md5 is None ==> r == Fingerprint::Md5(md5),
        !lossless ==> r == Fingerprint::Fp(fp),
        cached_md5 matches Some(m) ==> (lossless ==> r == Fingerprint::Md5(m)),
{
    if lossless {
        match cached_md5 {
            Some(m) => Fingerprint::Md5(m),
            None => Fingerprint::Md5(md5),
        }
    } else {
        Fingerprint::Fp(fp)
    }
}

// ---------------------------------------------------------------- content

/// What a first value gives for a number column.
pub open spec fn number_of(v: Option<Seq<char>>) -> Option<i64> {
    match v {
        Some(s) => leading_number(s),
        None => None,
    }
}

/// `c` holds the columns that lists show of the tags `t`.
pub open spec fn columns_of(c: CacheColumns, t: Seq<(Seq<char>, Seq<char>)>) -> bool {
    let artists = values_of(t, "ARTIST"@);
    &&& opt_text(c.title) == first_of(t, "TITLE"@)
    &&& opt_text(c.artist_display) == (if artists.len() > 0 {
        Some(joined(artists, ARTIST_SEPARATOR@))
    } else {
        None
    })
    &&& opt_text(c.albumartist) == (match first_of(t, "ALBUMARTIST"@) {
        Some(a) => Some(a),
        None => first_of(t, "ARTIST"@),
    })
    &&& c.track_no == number_of(first_of(t, "TRACKNUMBER"@))
    &&& c.disc_no == number_of(first_of(t, "DISCNUMBER"@))
    &&& opt_text(c.date) == first_of(t, "DATE"@)
}

fn number_column(v: &Option<String>) -> (r: Option<i64>)
    ensures
        r == number_of(opt_text(*v)),
{
    match v {
        Some(s) => leading_int(s),
        None => None,
    }
}

/// The columns that lists are shown and sorted by, from the tags.
pub fn cache_columns(tags: &TagSet) -> (r: CacheColumns)
    ensures
        columns_of(r, tags@),
{
    let artists = tags.values("ARTIST");
    let artist_display = if artists.len() > 0 {
        Some(join(&artists, ARTIST_SEPARATOR))
    } else {
        None
    };
    let albumartist = match tags.first("ALBUMARTIST") {
        Some(a) => Some(a),
        None => tags.first("ARTIST"),
    };
    proof {
        assert(texts(artists@).len() == artists@.len());
    }
    let track = tags.first("TRACKNUMBER");
    let disc = tags.first("DISCNUMBER");
    CacheColumns {
        title: tags.first("TITLE"),
        artist_display,
        albumartist,
        track_no: number_column(&track),
        disc_no: number_column(&disc),
        date: tags.first("DATE"),
    }
}

/// What a row takes over from a file whose tags hash to `tag_hash`. The picture
/// counts as not looked at.
pub fn track_content(af: AudioFile, tag_hash: [u8; 32]) -> (r: TrackContent)
    ensures
        r.codec == af.codec,
        r.lossless == af.lossless,
        r.sample_rate == af.sample_rate,
        r.bit_depth == af.bit_depth,
        r.channels == af.channels,
        r.bitrate == af.bitrate,
        r.duration_ms == af.duration_ms,
        r.tag_hash == tag_hash,
        r.tags == af.tags,
        columns_of(r.cache, af.tags@),
        r.picture is Unread,
{
    let cache = cache_columns(&af.tags);
    TrackContent {
        codec: af.codec,
        lossless: af.lossless,
        sample_rate: af.sample_rate,
        bit_depth: af.bit_depth,
        channels: af.channels,
        bitrate: af.bitrate,
        duration_ms: af.duration_ms,
        tag_hash,
        tags: af.tags,
        cache,
        picture: PictureState::Unread,
    }
}

/// What storing the picture of a file gave: none where no store is at hand.
#[derive(Debug)]
pub enum PictureStored {
    NoStore,
    Stored(Option<StoredPicture>),
    Failed(String),
}

/// What a row takes over from a file, with what became of its picture.
pub fn track_content_with_pictures(af: AudioFile, tag_hash: [u8; 32], stored: PictureStored) -> (r: TrackContent)
    ensures
        r.codec == af.codec,
        r.lossless == af.lossless,
        r.sample_rate == af.sample_rate,
        r.bit_depth == af.bit_depth,
        r.channels == af.channels,
        r.bitrate == af.bitrate,
        r.duration_ms == af.duration_ms,
        r.tag_hash == tag_hash,
        r.tags == af.tags,
        columns_of(r.cache, af.tags@),
        r.picture == (match stored {
            PictureStored::NoStore => PictureState::Unread,
            PictureStored::Stored(Some(p)) => PictureState::Found(p),
            PictureStored::Stored(None) => PictureState::Absent,
            PictureStored::Failed(e) => PictureState::Failed(e),
        }),
{
    let mut c = track_content(af, tag_hash);
    c.picture = match stored {
        PictureStored::NoStore => PictureState::Unread,
        PictureStored::Stored(Some(p)) => PictureState::Found(p),
        PictureStored::Stored(None) => PictureState::Absent,
        PictureStored::Failed(e) => PictureState::Failed(e),
    };
    c
}

/// The same file with the same content: inode, size and both times.
pub fn same_cover(a: &Stat, b: &Stat) -> (r: bool)
    ensures
        r == (a.inode == b.inode && a.size == b.size && a.mtime_ns == b.mtime_ns && a.ctime_ns == b.ctime_ns),
{
    a.inode == b.inode && a.size == b.size && a.mtime_ns == b.mtime_ns && a.ctime_ns == b.ctime_ns
}

/// `name` below `dir` as shown to a user; the name alone at the root.
pub fn join_display(dir: &str, name: &str) -> (r: String)
    ensures
        r@ == (if dir@.len() == 0 { name@ } else { dir@ + "/"@ + name@ }),
{
    if dir.is_empty() {
        name.to_owned()
    } else {
        crate::text::concat3(dir, "/", name)
    }
}

/// Whether the start of a log carries the signature: the signature itself and
/// the end of its line.
pub fn is_signed_log(head: &Vec<u8>, signature: &Vec<u8>) -> (r: bool)
    ensures
        r == (head@.len() > signature@.len() && head@.take(signature@.len() as int) == signature@ && (
        head@[signature@.len() as int] == 10 || head@[signature@.len() as int] == 13)),
{
    if head.len() <= signature.len() {
        return false;
    }
    let mut i: usize = 0;
    while i < signature.len()
        invariant
            i <= signature@.len() < head@.len(),
            forall|k: int| 0 <= k < i ==> #[trigger] head@[k] == signature@[k],
        decreases signature@.len() - i,
    {
        if head[i] != signature[i] {
            proof {
                assert(head@.take(signature@.len() as int)[i as int] != signature@[i as int]);
            }
            return false;
        }
        i = i + 1;
    }
    proof {
        assert(head@.take(signature@.len() as int) =~= signature@);
    }
    head[i] == 10 || head[i] == 13
}

/// Whether a temporary file is a leftover: a plain file of at least
/// [`TMP_RECLAIM_AGE_SECS`] seconds, counted in whole seconds.
pub fn tmp_is_stale(now: i64, st: &Stat) -> (r: bool)
    ensures
        r == (st.kind == FileKind::File && now - whole_seconds(st.mtime_ns) >= TMP_RECLAIM_AGE_SECS),
        st.kind == FileKind::File && st.mtime_ns >= 0 ==> (r <==> st.mtime_ns < (now - 3600 + 1) * 1_000_000_000),
        st.kind != FileKind::File ==> !r,
{
    if st.kind != FileKind::File {
        return false;
    }
    let ns: i128 = st.mtime_ns as i128;
    let secs: i128 = if ns >= 0 {
        ns / 1_000_000_000
    } else {
        -((-ns) / 1_000_000_000)
    };
    now as i128 - secs >= TMP_RECLAIM_AGE_SECS as i128
}

/// Nanoseconds in whole seconds, towards zero.
pub open spec fn whole_seconds(ns: i64) -> int {
    if ns >= 0 {
        ns as int / 1_000_000_000
    } else {
        -((-ns) / 1_000_000_000)
    }
}

// ---------------------------------------------------------------- laws

/// The columns of a track are those of its tags: a title, a date, an artist of the release and the numbers
/// stand under their own keys, and a tag that the file lacks leaves its column empty.
pub proof fn law_columns_are_those_of_the_tags(c: CacheColumns, t: Seq<(Seq<char>, Seq<char>)>, i: int, n: i64)
    requires
        columns_of(c, t),
        0 <= i < t.len(),
        forall|j: int| 0 <= j < i ==> (#[trigger] t[j]).0 != t[i].0,
        n >= 0,
    ensures
        t[i].0 == "TITLE"@ ==> opt_text(c.title) == Some(t[i].1),
        t[i].0 == "DATE"@ ==> opt_text(c.date) == Some(t[i].1),
        t[i].0 == "ALBUMARTIST"@ ==> opt_text(c.albumartist) == Some(t[i].1),
        t[i].0 == "ARTIST"@ && (forall|j: int| 0 <= j < t.len() ==> (#[trigger] t[j]).0 != "ALBUMARTIST"@)
            ==> opt_text(c.albumartist) == Some(t[i].1),
        t[i] == ("TRACKNUMBER"@, int_text(n as int)) ==> c.track_no == Some(n),
        t[i] == ("DISCNUMBER"@, int_text(n as int)) ==> c.disc_no == Some(n),
{
    law_first_value(t, t[i].0, i);
    law_written_number_is_read_back(n, Seq::empty());
    assert(int_text(n as int) + Seq::<char>::empty() =~= int_text(n as int));
    if forall|j: int| 0 <= j < t.len() ==> (#[trigger] t[j]).0 != "ALBUMARTIST"@ {
        law_no_value(t, "ALBUMARTIST"@);
    }
}

/// A column is empty where the file has no such tag.
pub proof fn law_missing_tags_leave_columns_empty(c: CacheColumns, t: Seq<(Seq<char>, Seq<char>)>, key: Seq<char>)
    requires
        columns_of(c, t),
        forall|j: int| 0 <= j < t.len() ==> (#[trigger] t[j]).0 != key,
    ensures
        key == "TITLE"@ ==> c.title is None,
        key == "DATE"@ ==> c.date is None,
        key == "ARTIST"@ ==> c.artist_display is None,
        key == "TRACKNUMBER"@ ==> c.track_no is None,
        key == "DISCNUMBER"@ ==> c.disc_no is None,
{
    law_no_value(t, key);
}

/// The artists of a track are shown one after the other, with a comma between them.
pub proof fn law_artists_are_shown_in_order(c: CacheColumns, t: Seq<(Seq<char>, Seq<char>)>, a: Seq<char>, b: Seq<char>)
    requires
        columns_of(c, t),
    ensures
        values_of(t, "ARTIST"@) == seq![a] ==> opt_text(c.artist_display) == Some(a),
        values_of(t, "ARTIST"@) == seq![a, b] ==> opt_text(c.artist_display) == Some(a + seq![',', ' '] + b),
{
    reveal_strlit(", ");
    assert(ARTIST_SEPARATOR@ =~= seq![',', ' ']);
    let two = seq![a, b];
    assert(two.drop_last() =~= seq![a]);
    assert(joined(seq![a], ARTIST_SEPARATOR@) == a);
    assert(joined(two, ARTIST_SEPARATOR@) == a + ARTIST_SEPARATOR@ + b);
}

/// Tracks without a place of their own are kept below the first part of their layout, where that is a fixed
/// name; a layout that starts with a field has none.
pub proof fn law_fixed_top(top: Seq<char>, rest: Seq<char>)
    requires
        top.len() > 0,
        !top.contains('/'),
    ensures
        !top.contains('{') ==> fixed_top(top + seq!['/'] + rest) == Some(top),
        top.contains('{') ==> fixed_top(top + seq!['/'] + rest) is None,
{
    law_split_at_the_first_separator(top, rest, '/');
    law_split_is_undone_by_join(rest, '/');
}

/// Nanoseconds are counted in whole seconds, towards zero.
pub proof fn law_whole_seconds(ns: i64)
    ensures
        ns >= 0 ==> whole_seconds(ns) * 1_000_000_000 <= ns < (whole_seconds(ns) + 1) * 1_000_000_000,
        ns < 0 ==> (whole_seconds(ns) - 1) * 1_000_000_000 < ns <= whole_seconds(ns) * 1_000_000_000,
{
}

} // verus!
