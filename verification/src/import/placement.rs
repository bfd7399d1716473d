//! Putting new files into the library and registering them: what each step of
//! it leads to.

use crate::catalog::{same16, same32, Fingerprint};
use crate::fsroot::{FsError, Stat};
use crate::import::albums::displaced_text;
use crate::text::{
    ascii_lower, concat2, concat4, int_text, int_to_text, lemma_int_text_injective, lower_text,
    opt_text, same_text, trim, trimmed,
};
use vstd::prelude::*;
use vstd::string::*;

verus! {

/// Why a file could not be put in its place.
#[derive(Debug)]
pub enum PlacementError {
    Conflict(String),
    Fs(FsError),
    Db(String),
    Io(String),
}

impl PlacementError {
    /// The text that a user reads.
    pub open spec fn text(&self) -> Seq<char> {
        match self {
            PlacementError::Conflict(e) => "配置先が衝突: "@ + e@,
            PlacementError::Fs(e) => e.text(),
            PlacementError::Db(e) => e@,
            PlacementError::Io(e) => e@,
        }
    }

    /// The text that a user reads.
    pub fn message(&self) -> (r: String)
        ensures
            r@ == self.text(),
    {
        match self {
            PlacementError::Conflict(e) => concat2("配置先が衝突: ", e),
            PlacementError::Fs(e) => e.message(),
            PlacementError::Db(e) => e.clone(),
            PlacementError::Io(e) => e.clone(),
        }
    }
}

/// What became of a file.
#[derive(Debug, Clone, Copy, PartialEq, Eq, Structural)]
pub enum PlacedFile {
    New,
    /// The file of an earlier run stands there.
    Reused,
}

// ---------------------------------------------------------------- files

/// Two stats are of one file in one state: device, inode, size and both times.
pub open spec fn same_state(a: Stat, b: Stat) -> bool {
    a.dev == b.dev && a.inode == b.inode && a.size == b.size && a.mtime_ns == b.mtime_ns && a.ctime_ns == b.ctime_ns
}

/// Whether two stats are of one file in one state.
pub fn is_same_state(a: &Stat, b: &Stat) -> (r: bool)
    ensures
        r == same_state(*a, *b),
{
    a.dev == b.dev && a.inode == b.inode && a.size == b.size && a.mtime_ns == b.mtime_ns && a.ctime_ns == b.ctime_ns
}

/// What happened while a file was put in its place from a temporary file.
#[derive(Debug)]
pub enum PlaceEvent {
    /// The temporary file could not be written.
    WriteFailed(PlacementError),
    /// It was moved to its place.
    Moved,
    /// Something stands there: whether it is the file of an earlier run, what a
    /// stat of it said, and what one says now.
    Occupied { own: bool, checked: Stat, now: Option<Stat> },
    /// What stands there could not be looked at, or moving failed otherwise.
    Failed(PlacementError),
}

/// What follows. Everything but a move and a replacement removes the temporary
/// file.
#[derive(Debug)]
pub enum PlaceStep {
    Done(PlacedFile),
    /// Put the temporary file in place of what stands there.
    Replace,
    /// Remove the temporary file, and keep what stands there.
    Keep,
    /// Remove the temporary file, and give up.
    Fail(PlacementError),
}

/// What follows an event while a file is put in its place at `target`. What
/// stands there is kept if it is the file of an earlier run, or replaced by the
/// new one where `refresh` asks for it and nobody touched it since it was
/// looked at. Anything else is never touched.
pub fn place(event: PlaceEvent, refresh: bool, target: &str) -> (r: PlaceStep)
    ensures
        match event {
            PlaceEvent::WriteFailed(e) => r == PlaceStep::Fail(e),
            PlaceEvent::Failed(e) => r == PlaceStep::Fail(e),
            PlaceEvent::Moved => r == PlaceStep::Done(PlacedFile::New),
            PlaceEvent::Occupied { own, checked, now } => if !own {
                r matches PlaceStep::Fail(PlacementError::Conflict(m)) && m@ == target@
                    + ": 別の内容のファイルが既にある"@
            } else if !refresh {
                r is Keep
            } else if now is Some && same_state(now->0, checked) {
                r is Replace
            } else {
                r matches PlaceStep::Fail(PlacementError::Conflict(m)) && m@ == target@
                    + ": 確かめている間に宛先が変わった"@
            },
        },
{
    match event {
        PlaceEvent::WriteFailed(e) => PlaceStep::Fail(e),
        PlaceEvent::Failed(e) => PlaceStep::Fail(e),
        PlaceEvent::Moved => PlaceStep::Done(PlacedFile::New),
        PlaceEvent::Occupied { own, checked, now } => {
            if !own {
                return PlaceStep::Fail(
                    PlacementError::Conflict(concat2(target, ": 別の内容のファイルが既にある")),
                );
            }
            if !refresh {
                return PlaceStep::Keep;
            }
            let same = match &now {
                Some(st) => is_same_state(st, &checked),
                None => false,
            };
            if same {
                PlaceStep::Replace
            } else {
                PlaceStep::Fail(
                    PlacementError::Conflict(concat2(target, ": 確かめている間に宛先が変わった")),
                )
            }
        },
    }
}

// ---------------------------------------------------------------- albums

/// The key of a release: letters count in either case.
pub open spec fn mb_key_text(mbid: Seq<char>) -> Seq<char> {
    "mb:"@ + ascii_lower(trimmed(mbid))
}

/// The key of the release of an album: that of its release id, else one of its
/// own.
pub open spec fn release_key_text(id: i64, mb: Option<Seq<char>>) -> Seq<char> {
    if mb is Some && mb->0.len() > 0 {
        mb_key_text(mb->0)
    } else {
        "album:"@ + int_text(id as int)
    }
}

/// The key of a release.
pub fn mb_key(mbid: &str) -> (r: String)
    ensures
        r@ == mb_key_text(mbid@),
{
    let t = trim(mbid);
    let low = lower_text(&t);
    concat2("mb:", &low)
}

/// The key of the release of an album.
pub fn release_key(id: i64, mb: &Option<String>) -> (r: String)
    ensures
        r@ == release_key_text(id, opt_text(*mb)),
{
    if let Some(m) = mb {
        if !m.as_str().is_empty() {
            return mb_key(m);
        }
    }
    let n = int_to_text(id);
    concat2("album:", &n)
}

/// An album that stands at a directory.
#[derive(Debug)]
pub struct ExistingAlbum {
    pub id: i64,
    pub missing: bool,
    pub mb_release_id: Option<String>,
}

/// Which album a directory gets.
#[derive(Debug)]
pub enum AlbumDecision {
    Use(i64),
    /// The album was missing and is back.
    Revive(i64),
    Insert,
    /// The album leaves for a text that is no path, and another one is made.
    Displace(i64, String),
    Conflict(String),
}

/// Which album the directory gets for the release that was planned: the one
/// that stands there if it is of that release, else a new one, unless the one
/// that stands there is in use.
pub fn find_or_create_album(existing: Option<ExistingAlbum>, rel_dir: &str, release: &str) -> (r: AlbumDecision)
    ensures
        match existing {
            None => r is Insert,
            Some(e) => {
                let same = release_key_text(e.id, opt_text(e.mb_release_id)) == release@;
                if same && !e.missing {
                    r == AlbumDecision::Use(e.id)
                } else if same {
                    r == AlbumDecision::Revive(e.id)
                } else if e.missing {
                    r matches AlbumDecision::Displace(id, text) && id == e.id && text@ == displaced_text(e.id)
                } else {
                    r matches AlbumDecision::Conflict(m) && m@ == rel_dir@
                        + ": 計画の後に別のリリースの album "@ + int_text(e.id as int) + " が入った"@
                }
            },
        },
{
    match existing {
        None => AlbumDecision::Insert,
        Some(e) => {
            let key = release_key(e.id, &e.mb_release_id);
            let same = same_text(&key, release);
            let n = int_to_text(e.id);
            if same && !e.missing {
                AlbumDecision::Use(e.id)
            } else if same {
                AlbumDecision::Revive(e.id)
            } else if e.missing {
                AlbumDecision::Displace(e.id, concat2("\0displaced:", &n))
            } else {
                AlbumDecision::Conflict(
                    concat4(rel_dir, ": 計画の後に別のリリースの album ", &n, " が入った"),
                )
            }
        },
    }
}

// ---------------------------------------------------------------- tracks

/// A row that was registered.
#[derive(Debug, Clone, Copy, PartialEq, Eq, Structural)]
pub struct Registered {
    pub id: i64,
    /// The row was there before.
    pub adopted: bool,
    pub audio_version: i64,
}

/// A row at the path of a file.
#[derive(Debug, Clone, Copy)]
pub struct ExistingTrack {
    pub id: i64,
    pub audio_md5: Option<[u8; 16]>,
    pub audio_fp: Option<[u8; 32]>,
    pub audio_version: i64,
}

/// The sound is that of the row. What cannot be told is not the same.
pub open spec fn sounds_like(fp: Fingerprint, row: ExistingTrack) -> bool {
    match fp {
        Fingerprint::Md5(Some(m)) => row.audio_md5 == Some(m),
        Fingerprint::Fp(Some(f)) => row.audio_fp == Some(f),
        _ => false,
    }
}

fn is_sound_of(fp: Fingerprint, row: &ExistingTrack) -> (r: bool)
    ensures
        r == sounds_like(fp, *row),
{
    match fp {
        Fingerprint::Md5(Some(m)) => match &row.audio_md5 {
            Some(x) => same16(x, &m),
            None => false,
        },
        Fingerprint::Fp(Some(f)) => match &row.audio_fp {
            Some(x) => same32(x, &f),
            None => false,
        },
        _ => false,
    }
}

/// Which row a file gets.
#[derive(Debug)]
pub enum TrackDecision {
    /// A new one, of the first version.
    Insert,
    Adopt(Registered),
    Conflict(String),
}

/// Which row a file at `rel` gets: the one at its path if that has the same
/// sound, a new one where there is none.
pub fn register_track(existing: Option<ExistingTrack>, fp: Fingerprint, rel: &str) -> (r: TrackDecision)
    ensures
        match existing {
            None => r is Insert,
            Some(e) => if sounds_like(fp, e) {
                r == TrackDecision::Adopt(
                    Registered { id: e.id, adopted: true, audio_version: e.audio_version },
                )
            } else {
                r matches TrackDecision::Conflict(m) && m@ == rel@ + ": 別の音声の行（track "@ + int_text(
                    e.id as int,
                ) + "）が既にある"@
            },
        },
{
    match existing {
        None => TrackDecision::Insert,
        Some(e) => {
            if is_sound_of(fp, &e) {
                TrackDecision::Adopt(Registered { id: e.id, adopted: true, audio_version: e.audio_version })
            } else {
                let n = int_to_text(e.id);
                TrackDecision::Conflict(concat4(rel, ": 別の音声の行（track ", &n, "）が既にある"))
            }
        },
    }
}

/// Two release ids that differ in the case of their letters only have one key.
pub proof fn law_release_keys_ignore_case(a: Seq<char>, b: Seq<char>)
    requires
        ascii_lower(trimmed(a)) == ascii_lower(trimmed(b)),
    ensures
        mb_key_text(a) == mb_key_text(b),
{
}

/// Albums without a release id never share a key, and never have that of a
/// release.
pub proof fn law_plain_albums_distinct(a: i64, b: i64, mb: Seq<char>)
    requires
        a != b,
        mb.len() > 0,
    ensures
        release_key_text(a, None) != release_key_text(b, None),
        release_key_text(a, None) != release_key_text(b, Some(mb)),
{
    reveal_strlit("album:");
    reveal_strlit("mb:");
    let x = release_key_text(a, None);
    let y = release_key_text(b, None);
    if x == y {
        let p = "album:"@;
        assert((p + int_text(a as int)).skip(p.len() as int) =~= int_text(a as int));
        assert((p + int_text(b as int)).skip(p.len() as int) =~= int_text(b as int));
        crate::text::lemma_int_text_injective(a as int, b as int);
    }
    let z = release_key_text(b, Some(mb));
    assert(x[0] == 'a');
    assert(z[0] == 'm');
}

/// A release is told by the id it has at MusicBrainz where it has one, and by its own number else; so two
/// albums without such an id are never one release, and one with an id is never one without.
pub proof fn law_releases_told_apart(a: i64, b: i64, x: Seq<char>, y: Seq<char>)
    requires
        x.len() > 0,
        y.len() > 0,
    ensures
        release_key_text(a, Some(x)) == release_key_text(b, Some(y)) <==> ascii_lower(trimmed(x)) == ascii_lower(
            trimmed(y),
        ),
        release_key_text(a, None) == release_key_text(b, None) <==> a == b,
        release_key_text(a, Some(Seq::empty())) == release_key_text(a, None),
        release_key_text(a, Some(x)) != release_key_text(b, None),
{
    reveal_strlit("mb:");
    reveal_strlit("album:");
    let m = "mb:"@;
    let n = "album:"@;
    assert(m[0] == 'm' && n[0] == 'a' && m.len() == 3 && n.len() == 6);
    assert(release_key_text(a, Some(x)).skip(3) =~= ascii_lower(trimmed(x)));
    assert(release_key_text(b, Some(y)).skip(3) =~= ascii_lower(trimmed(y)));
    assert(release_key_text(a, None).skip(6) =~= int_text(a as int));
    assert(release_key_text(b, None).skip(6) =~= int_text(b as int));
    if release_key_text(a, None) == release_key_text(b, None) {
        lemma_int_text_injective(a as int, b as int);
    }
    assert(release_key_text(a, Some(x))[0] == 'm' && release_key_text(b, None)[0] == 'a');
}

/// Two states of a file are one where it is the same file of the same size and its times did not change.
pub proof fn law_same_state(a: Stat, b: Stat)
    ensures
        same_state(a, b) ==> a.dev == b.dev && a.inode == b.inode && a.size == b.size && a.mtime_ns == b.mtime_ns
            && a.ctime_ns == b.ctime_ns,
        same_state(a, a),
        same_state(a, b) == same_state(b, a),
{
}

/// A row sounds like a file where it has the fingerprint of the file; of a fingerprint that is not known
/// nothing is concluded.
pub proof fn law_row_sounds_alike(m: [u8; 16], f: [u8; 32], row: ExistingTrack)
    ensures
        sounds_like(Fingerprint::Md5(Some(m)), row) <==> row.audio_md5 == Some(m),
        sounds_like(Fingerprint::Fp(Some(f)), row) <==> row.audio_fp == Some(f),
        !sounds_like(Fingerprint::Md5(None), row),
        !sounds_like(Fingerprint::Fp(None), row),
{
}

} // verus!
