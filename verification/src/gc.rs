//! Collecting garbage: what is removed for good, and what is counted of it.

use crate::fsroot::{FileKind, FsError, Stat, TMP_PREFIX};
use crate::hex::is_hex;
use crate::split::{
    has_member, has_prefix, lemma_text_irreflexive, lemma_text_total, lemma_text_transitive, less,
};
use crate::text::{chars_of, concat3, opt_str, same_text, starts_with, text_less, texts};
use crate::unicode::{canonical, canonical_key};
use vstd::prelude::*;
use vstd::string::*;
use vstd::utf8::{encode_scalar, encode_utf8};

verus! {

/// How long a file that belongs to nothing is left alone: someone may be
/// writing it.
pub const ORPHAN_GRACE_SECS: i64 = 86400;

/// How many names a preview shows of each sort.
pub const PREVIEW_SAMPLE: usize = 50;

/// Why garbage could not be collected.
#[derive(Debug)]
pub enum GcError {
    Db(String),
    Fs { what: String, source: FsError },
    Cancelled,
    Join(String),
}

impl GcError {
    /// The text that a user reads.
    pub open spec fn text(&self) -> Seq<char> {
        match self {
            GcError::Db(e) => e@,
            GcError::Fs { what, source } => what@ + "を読めない: "@ + source.text(),
            GcError::Cancelled => "キャンセルされた"@,
            GcError::Join(e) => "ブロッキングタスクが異常終了: "@ + e@,
        }
    }

    /// The text that a user reads.
    pub fn message(&self) -> (r: String)
        ensures
            r@ == self.text(),
    {
        match self {
            GcError::Db(e) => e.clone(),
            GcError::Fs { what, source } => {
                let m = source.message();
                concat3(what, "を読めない: ", &m)
            },
            GcError::Cancelled => "キャンセルされた".to_owned(),
            GcError::Join(e) => crate::text::concat2("ブロッキングタスクが異常終了: ", e),
        }
    }
}

// ---------------------------------------------------------------- the plan

#[derive(Debug)]
pub struct PlannedTrack {
    pub id: i64,
    pub rel_path: String,
}

#[derive(Debug)]
pub struct PlannedAlbum {
    pub id: i64,
    pub rel_dir: String,
}

#[derive(Debug)]
pub struct PlannedArchive {
    pub id: i64,
    pub rel_path: String,
    /// Zero where the file is gone.
    pub bytes: u64,
}

#[derive(Debug)]
pub struct PlannedFile {
    pub rel_path: String,
    pub bytes: u64,
    pub inode: u64,
    pub mtime_ns: i64,
}

#[derive(Debug)]
pub struct PlannedArtwork {
    pub id: i64,
    pub hex: String,
}

/// What is removed. Making the plan changes nothing.
#[derive(Debug)]
pub struct Plan {
    pub now: i64,
    /// What was missed since then or before is removed.
    pub cutoff: i64,
    pub tracks: Vec<PlannedTrack>,
    pub albums: Vec<PlannedAlbum>,
    pub archived: Vec<PlannedArchive>,
    pub derived: Vec<PlannedFile>,
    /// The directories below derived files, children before their parents.
    pub derived_dirs: Vec<String>,
    pub artwork_rows: Vec<PlannedArtwork>,
    /// Directories of pictures that no row knows.
    pub artwork_dirs: Vec<String>,
}

/// `a - b`, no lower than the lowest number.
pub open spec fn floor_sub(a: i64, b: i64) -> int {
    if a - b < i64::MIN {
        i64::MIN as int
    } else if a - b > i64::MAX {
        i64::MAX as int
    } else {
        a - b
    }
}

/// `a - b`, kept within the numbers there are.
pub fn saturating_sub(a: i64, b: i64) -> (r: i64)
    ensures
        r == floor_sub(a, b),
{
    let d: i128 = a as i128 - b as i128;
    if d < i64::MIN as i128 {
        i64::MIN
    } else if d > i64::MAX as i128 {
        i64::MAX
    } else {
        d as i64
    }
}

/// The time since which a track has to be missing to be removed.
pub fn cutoff(now: i64, retention_secs: i64) -> (r: i64)
    ensures
        r == floor_sub(now, retention_secs),
{
    saturating_sub(now, retention_secs)
}

/// What a look at the place of a missing track gave.
#[derive(Debug, Clone, Copy, PartialEq, Eq, Structural)]
pub enum Probe {
    /// The file is not there.
    Gone,
    /// The file is back; the next scan takes it up.
    Back,
    /// It could not be told.
    Unknown,
}

/// A track that has been missing long enough.
#[derive(Debug)]
pub struct MissingTrack {
    pub id: i64,
    pub rel_path: String,
    pub probe: Probe,
}

/// The views of planned tracks.
pub open spec fn track_views(v: Seq<PlannedTrack>) -> Seq<(i64, Seq<char>)> {
    v.map_values(|t: PlannedTrack| (t.id, t.rel_path@))
}

/// The tracks whose files are certainly gone.
pub open spec fn gone_tracks(v: Seq<MissingTrack>) -> Seq<(i64, Seq<char>)>
    decreases v.len(),
{
    if v.len() == 0 {
        Seq::empty()
    } else {
        let r = gone_tracks(v.drop_last());
        if v.last().probe == Probe::Gone {
            r.push((v.last().id, v.last().rel_path@))
        } else {
            r
        }
    }
}

/// The tracks that are removed: those whose files are certainly gone.
pub fn plan_tracks(missing: &Vec<MissingTrack>) -> (r: Vec<PlannedTrack>)
    ensures
        track_views(r@) == gone_tracks(missing@),
{
    let mut out: Vec<PlannedTrack> = Vec::new();
    let mut i: usize = 0;
    proof {
        assert(track_views(out@) =~= gone_tracks(missing@.take(0)));
    }
    while i < missing.len()
        invariant
            i <= missing@.len(),
            track_views(out@) == gone_tracks(missing@.take(i as int)),
        decreases missing@.len() - i,
    {
        let ghost before = track_views(out@);
        proof {
            assert(missing@.take(i + 1).last() == missing@[i as int]);
            assert(missing@.take(i + 1).drop_last() =~= missing@.take(i as int));
        }
        if missing[i].probe == Probe::Gone {
            out.push(PlannedTrack { id: missing[i].id, rel_path: missing[i].rel_path.clone() });
            proof {
                assert(track_views(out@) =~= before.push((missing@[i as int].id, missing@[i as int].rel_path@)));
            }
        }
        i = i + 1;
    }
    proof {
        assert(missing@.take(i as int) =~= missing@);
    }
    out
}

/// An album that has been missing long enough, with its tracks.
#[derive(Debug)]
pub struct MissingAlbum {
    pub id: i64,
    pub rel_dir: String,
    pub members: Vec<i64>,
}

/// The track is one of those that are removed.
pub open spec fn is_planned(tracks: Seq<PlannedTrack>, id: i64) -> bool {
    exists|i: int| 0 <= i < tracks.len() && (#[trigger] tracks[i]).id == id
}

/// All tracks of the album are removed.
pub open spec fn all_planned(tracks: Seq<PlannedTrack>, members: Seq<i64>) -> bool {
    forall|i: int| 0 <= i < members.len() ==> is_planned(tracks, #[trigger] members[i])
}

/// The views of planned albums.
pub open spec fn album_views(v: Seq<PlannedAlbum>) -> Seq<(i64, Seq<char>)> {
    v.map_values(|a: PlannedAlbum| (a.id, a.rel_dir@))
}

/// The albums whose tracks are all removed.
pub open spec fn empty_albums(v: Seq<MissingAlbum>, tracks: Seq<PlannedTrack>) -> Seq<(i64, Seq<char>)>
    decreases v.len(),
{
    if v.len() == 0 {
        Seq::empty()
    } else {
        let r = empty_albums(v.drop_last(), tracks);
        if all_planned(tracks, v.last().members@) {
            r.push((v.last().id, v.last().rel_dir@))
        } else {
            r
        }
    }
}

fn holds_track(tracks: &Vec<PlannedTrack>, id: i64) -> (r: bool)
    ensures
        r == is_planned(tracks@, id),
{
    let mut i: usize = 0;
    while i < tracks.len()
        invariant
            i <= tracks@.len(),
            forall|k: int| 0 <= k < i ==> (#[trigger] tracks@[k]).id != id,
        decreases tracks@.len() - i,
    {
        if tracks[i].id == id {
            return true;
        }
        i = i + 1;
    }
    false
}

fn holds_all(tracks: &Vec<PlannedTrack>, members: &Vec<i64>) -> (r: bool)
    ensures
        r == all_planned(tracks@, members@),
{
    let mut i: usize = 0;
    while i < members.len()
        invariant
            i <= members@.len(),
            forall|k: int| 0 <= k < i ==> is_planned(tracks@, #[trigger] members@[k]),
        decreases members@.len() - i,
    {
        if !holds_track(tracks, members[i]) {
            proof {
                assert(!is_planned(tracks@, members@[i as int]));
            }
            return false;
        }
        i = i + 1;
    }
    true
}

/// The albums that are removed: those whose tracks are all removed.
pub fn plan_albums(missing: &Vec<MissingAlbum>, tracks: &Vec<PlannedTrack>) -> (r: Vec<PlannedAlbum>)
    ensures
        album_views(r@) == empty_albums(missing@, tracks@),
{
    let mut out: Vec<PlannedAlbum> = Vec::new();
    let mut i: usize = 0;
    proof {
        assert(album_views(out@) =~= empty_albums(missing@.take(0), tracks@));
    }
    while i < missing.len()
        invariant
            i <= missing@.len(),
            album_views(out@) == empty_albums(missing@.take(i as int), tracks@),
        decreases missing@.len() - i,
    {
        let ghost before = album_views(out@);
        proof {
            assert(missing@.take(i + 1).last() == missing@[i as int]);
            assert(missing@.take(i + 1).drop_last() =~= missing@.take(i as int));
        }
        if holds_all(tracks, &missing[i].members) {
            out.push(PlannedAlbum { id: missing[i].id, rel_dir: missing[i].rel_dir.clone() });
            proof {
                assert(album_views(out@) =~= before.push((missing@[i as int].id, missing@[i as int].rel_dir@)));
            }
        }
        i = i + 1;
    }
    proof {
        assert(missing@.take(i as int) =~= missing@);
    }
    out
}

/// A file of the archive whose time is over, with its size where it is there.
pub fn plan_archived(id: i64, rel_path: String, size: Option<u64>) -> (r: PlannedArchive)
    ensures
        r.id == id,
        r.rel_path == rel_path,
        r.bytes == (match size {
            Some(n) => n,
            None => 0,
        }),
{
    PlannedArchive {
        id,
        rel_path,
        bytes: match size {
            Some(n) => n,
            None => 0,
        },
    }
}

/// The time up to which a derived file has to be untouched to be removed, in
/// nanoseconds.
pub open spec fn grace_ns(now: i64) -> int {
    let n = floor_sub(now, ORPHAN_GRACE_SECS) * 1_000_000_000;
    if n < i64::MIN {
        i64::MIN as int
    } else if n > i64::MAX {
        i64::MAX as int
    } else {
        n
    }
}

/// The time up to which a derived file has to be untouched to be removed.
pub fn derived_grace(now: i64) -> (r: i64)
    ensures
        r == grace_ns(now),
{
    let s: i128 = saturating_sub(now, ORPHAN_GRACE_SECS) as i128;
    let n: i128 = s * 1_000_000_000;
    if n < i64::MIN as i128 {
        i64::MIN
    } else if n > i64::MAX as i128 {
        i64::MAX
    } else {
        n as i64
    }
}

/// What an entry below the derived files is.
#[derive(Debug, Clone, Copy, PartialEq, Eq, Structural)]
pub enum DerivedEntry {
    Ignored,
    Directory,
    /// A file that no row knows, if it is old enough.
    Candidate,
}

/// What an entry below the derived files is, by its name, its path and the keys
/// that rows know.
pub open spec fn derived_class(
    name: Option<Seq<char>>,
    kind: FileKind,
    valid: bool,
    rel: Seq<char>,
    keys: Seq<Seq<char>>,
) -> DerivedEntry {
    match name {
        None => DerivedEntry::Ignored,
        Some(n) => if !valid {
            DerivedEntry::Ignored
        } else if kind == FileKind::Dir {
            DerivedEntry::Directory
        } else if kind == FileKind::File && !starts_with(n, TMP_PREFIX@) && !keys.contains(canonical(rel)) {
            DerivedEntry::Candidate
        } else {
            DerivedEntry::Ignored
        },
    }
}

/// What an entry below the derived files is. `keys` are the keys of the files
/// that rows know; temporary files and names that cannot stand in a path are
/// left alone.
pub fn derived_entry(name: Option<&str>, kind: FileKind, valid: bool, rel: &str, keys: &Vec<String>) -> (r: DerivedEntry)
    ensures
        r == derived_class(opt_str(name), kind, valid, rel@, texts(keys@)),
{
    match name {
        None => DerivedEntry::Ignored,
        Some(n) => {
            if !valid {
                return DerivedEntry::Ignored;
            }
            if kind == FileKind::Dir {
                return DerivedEntry::Directory;
            }
            if kind == FileKind::File && !has_prefix(n, TMP_PREFIX) {
                let key = canonical_key(rel);
                if !has_member(keys, &key) {
                    return DerivedEntry::Candidate;
                }
            }
            DerivedEntry::Ignored
        },
    }
}

/// The grace in nanoseconds, where the numbers hold it.
proof fn lemma_grace(now: i64, mtime_ns: i64)
    requires
        now * 1_000_000_000 - 86_400_000_000_000 >= i64::MIN,
    ensures
        mtime_ns <= grace_ns(now) <==> mtime_ns + 86_400_000_000_000 <= now * 1_000_000_000,
{
    assert(floor_sub(now, ORPHAN_GRACE_SECS) == now - 86400);
    assert((now - 86400) * 1_000_000_000 == now * 1_000_000_000 - 86_400_000_000_000) by (nonlinear_arith);
}

/// A candidate that is removed: it has not been touched within the grace.
pub fn plan_derived(rel: String, st: &Stat, now: i64) -> (r: Option<PlannedFile>)
    ensures
        match r {
            Some(f) => st.mtime_ns <= grace_ns(now) && f.rel_path == rel && f.bytes == st.size && f.inode == st.inode
                && f.mtime_ns == st.mtime_ns,
            None => st.mtime_ns > grace_ns(now),
        },
        now * 1_000_000_000 - 86_400_000_000_000 >= i64::MIN ==> (r is Some <==> st.mtime_ns + 86_400_000_000_000 <= now
            * 1_000_000_000),
{
    proof {
        if now * 1_000_000_000 - 86_400_000_000_000 >= i64::MIN {
            lemma_grace(now, st.mtime_ns);
        }
    }
    if st.mtime_ns > derived_grace(now) {
        None
    } else {
        Some(PlannedFile { rel_path: rel, bytes: st.size, inode: st.inode, mtime_ns: st.mtime_ns })
    }
}

/// What failing to list a directory of derived files means: without the root
/// nothing can be planned, a directory below it is passed over.
pub fn derived_unreadable(is_root: bool, e: FsError) -> (r: Option<GcError>)
    ensures
        match r {
            Some(x) => is_root && (x matches GcError::Fs { what, source } && what@ == "Derived"@ && source == e),
            None => !is_root,
        },
{
    if is_root {
        Some(GcError::Fs { what: "Derived".to_owned(), source: e })
    } else {
        None
    }
}

// ---------------------------------------------------------------- directories

/// The directory `a` is removed before the directory `b`: the longer path first,
/// and in the order of the paths where they are as long.
pub open spec fn removed_before(a: Seq<char>, b: Seq<char>) -> bool {
    encode_utf8(a).len() > encode_utf8(b).len() || (encode_utf8(a).len() == encode_utf8(b).len() && text_less(a, b))
}

/// `r` is in the order in which directories are removed.
pub open spec fn removal_order(r: Seq<Seq<char>>) -> bool {
    forall|i: int, j: int| 0 <= i < j < r.len() ==> !removed_before(#[trigger] r[j], #[trigger] r[i])
}

fn goes_first(a: &str, b: &str) -> (r: bool)
    ensures
        r == removed_before(a@, b@),
{
    let x: usize = a.as_bytes().len();
    let y: usize = b.as_bytes().len();
    x > y || (x == y && less(a, b))
}

proof fn lemma_removed_transitive(a: Seq<char>, b: Seq<char>, c: Seq<char>)
    requires
        !removed_before(b, a),
        !removed_before(c, b),
    ensures
        !removed_before(c, a),
{
    lemma_text_total(a, b);
    lemma_text_total(b, c);
    if text_less(c, a) {
        if text_less(a, b) {
            lemma_text_transitive(c, a, b);
        }
        if text_less(b, c) {
            lemma_text_transitive(b, c, a);
        }
    }
}

/// Puts directories in the order in which they are removed: the longer path
/// first. Nothing is lost and nothing is added.
pub fn sort_dirs(dirs: &Vec<String>) -> (r: Vec<String>)
    ensures
        removal_order(texts(r@)),
        texts(r@).to_multiset() =~= texts(dirs@).to_multiset(),
{
    let ghost d = texts(dirs@);
    let mut out: Vec<String> = Vec::new();
    let mut i: usize = 0;
    proof {
        assert(texts(out@) =~= d.take(0));
    }
    while i < dirs.len()
        invariant
            i <= dirs@.len(),
            d == texts(dirs@),
            removal_order(texts(out@)),
            texts(out@).to_multiset() == d.take(i as int).to_multiset(),
        decreases dirs@.len() - i,
    {
        let ghost before = texts(out@);
        let ghost x = d[i as int];
        let mut at: usize = out.len();
        while at > 0 && goes_first(&dirs[i], &out[at - 1])
            invariant
                i < dirs@.len(),
                x == dirs@[i as int]@,
                before == texts(out@),
                at <= before.len(),
                removal_order(before),
                forall|k: int| at <= k < before.len() ==> removed_before(x, #[trigger] before[k]),
            decreases at,
        {
            at = at - 1;
        }
        out.insert(at, dirs[i].clone());
        proof {
            let after = texts(out@);
            assert(after =~= before.insert(at as int, x));
            assert forall|k: int| 0 <= k < at implies !removed_before(x, #[trigger] before[k]) by {
                assert(!removed_before(x, before[at - 1]));
                if k < at - 1 {
                    assert(!removed_before(before[at - 1], before[k]));
                    lemma_removed_transitive(before[k], before[at - 1], x);
                }
            }
            assert forall|a: int, b: int| 0 <= a < b < after.len() implies !removed_before(
                #[trigger] after[b],
                #[trigger] after[a],
            ) by {
                if b < at {
                    assert(!removed_before(before[b], before[a]));
                } else if b == at {
                    assert(!removed_before(x, before[a]));
                } else if a < at {
                    assert(!removed_before(before[b - 1], before[a]));
                } else if a == at {
                    assert(removed_before(x, before[b - 1]));
                    lemma_removed_asymmetric(x, before[b - 1]);
                } else {
                    assert(!removed_before(before[b - 1], before[a - 1]));
                }
            }
            vstd::seq_lib::to_multiset_insert(before, at as int, x);
            assert(d.take(i + 1) =~= d.take(i as int).push(x));
            vstd::seq_lib::to_multiset_insert(d.take(i as int), i as int, x);
            assert(d.take(i as int).insert(i as int, x) =~= d.take(i as int).push(x));
        }
        i = i + 1;
    }
    proof {
        assert(d.take(i as int) =~= d);
    }
    out
}

proof fn lemma_removed_asymmetric(a: Seq<char>, b: Seq<char>)
    requires
        removed_before(a, b),
    ensures
        !removed_before(b, a),
{
    if text_less(a, b) && text_less(b, a) {
        lemma_text_transitive(a, b, a);
        lemma_text_irreflexive(a);
    }
}

proof fn lemma_bytes_of_longer(a: Seq<char>, b: Seq<char>)
    requires
        b.len() > 0,
    ensures
        encode_utf8(a + b).len() > encode_utf8(a).len(),
    decreases a.len(),
{
    if a.len() == 0 {
        assert(a + b =~= b);
        assert(encode_utf8(b) == encode_scalar(b[0] as u32) + encode_utf8(b.drop_first()));
    } else {
        let c = a + b;
        assert(c.drop_first() =~= a.drop_first() + b);
        lemma_bytes_of_longer(a.drop_first(), b);
        assert(encode_utf8(c) == encode_scalar(c[0] as u32) + encode_utf8(c.drop_first()));
        assert(encode_utf8(a) == encode_scalar(a[0] as u32) + encode_utf8(a.drop_first()));
    }
}

/// A directory is removed before the one it is in.
pub proof fn law_children_before_parents(parent: Seq<char>, name: Seq<char>)
    ensures
        removed_before(parent + seq!['/'] + name, parent),
{
    let tail = seq!['/'] + name;
    assert(parent + seq!['/'] + name =~= parent + tail);
    lemma_bytes_of_longer(parent, tail);
}

// ---------------------------------------------------------------- pictures

/// The name of a directory of a picture: 64 hexadecimal digits in small letters.
pub open spec fn hex64(s: Seq<char>) -> bool {
    s.len() == 64 && forall|i: int|
        0 <= i < s.len() ==> ('0' <= #[trigger] s[i] <= '9' || 'a' <= s[i] <= 'f')
}

/// Whether a name is that of a directory of a picture.
pub fn is_hex64(s: &str) -> (r: bool)
    ensures
        r == hex64(s@),
{
    let chars = chars_of(s);
    if chars.len() != 64 {
        return false;
    }
    let mut i: usize = 0;
    while i < chars.len()
        invariant
            i <= chars@.len(),
            chars@ == s@,
            forall|k: int| 0 <= k < i ==> ('0' <= #[trigger] s@[k] <= '9' || 'a' <= s@[k] <= 'f'),
        decreases chars@.len() - i,
    {
        let c: char = chars[i];
        if !(('0' <= c && c <= '9') || ('a' <= c && c <= 'f')) {
            proof {
                assert(!('0' <= s@[i as int] <= '9' || 'a' <= s@[i as int] <= 'f'));
            }
            return false;
        }
        i = i + 1;
    }
    true
}

/// The seconds since the epoch up to which a picture has to be untouched to be
/// removed.
pub fn grace_boundary(now: i64) -> (r: u64)
    ensures
        r == (if floor_sub(now, ORPHAN_GRACE_SECS) < 0 {
            0
        } else {
            floor_sub(now, ORPHAN_GRACE_SECS)
        }),
        now >= 86_400 ==> r == now - 24 * 60 * 60,
        now < 86_400 ==> r == 0,
{
    let s: i64 = saturating_sub(now, ORPHAN_GRACE_SECS);
    if s < 0 {
        0
    } else {
        s as u64
    }
}

/// Whether the row of a picture may be removed: its directory is gone, or has
/// not been touched within the grace. `aged` says so where there is one, none
/// where there is none.
pub fn thumb_dir_is_collectable(aged: Option<bool>) -> (r: bool)
    ensures
        r == (match aged {
            Some(a) => a,
            None => true,
        }),
{
    match aged {
        Some(a) => a,
        None => true,
    }
}

/// A picture that nothing refers to.
#[derive(Debug)]
pub struct LoosePicture {
    pub id: i64,
    pub hex: String,
    /// Its directory is there.
    pub dir_exists: bool,
}

/// The views of planned pictures.
pub open spec fn artwork_views(v: Seq<PlannedArtwork>) -> Seq<(i64, Seq<char>)> {
    v.map_values(|a: PlannedArtwork| (a.id, a.hex@))
}

/// The pictures whose rows are removed: those whose directory is aged or gone.
pub open spec fn dropped_pictures(v: Seq<LoosePicture>, aged: Seq<Seq<char>>) -> Seq<(i64, Seq<char>)>
    decreases v.len(),
{
    if v.len() == 0 {
        Seq::empty()
    } else {
        let r = dropped_pictures(v.drop_last(), aged);
        if aged.contains(v.last().hex@) || !v.last().dir_exists {
            r.push((v.last().id, v.last().hex@))
        } else {
            r
        }
    }
}

/// The pictures whose rows are removed. `aged` are the directories that have not
/// been touched within the grace.
pub fn plan_artwork_rows(loose: &Vec<LoosePicture>, aged: &Vec<String>) -> (r: Vec<PlannedArtwork>)
    ensures
        artwork_views(r@) == dropped_pictures(loose@, texts(aged@)),
{
    let mut out: Vec<PlannedArtwork> = Vec::new();
    let mut i: usize = 0;
    proof {
        assert(artwork_views(out@) =~= dropped_pictures(loose@.take(0), texts(aged@)));
    }
    while i < loose.len()
        invariant
            i <= loose@.len(),
            artwork_views(out@) == dropped_pictures(loose@.take(i as int), texts(aged@)),
        decreases loose@.len() - i,
    {
        let ghost before = artwork_views(out@);
        proof {
            assert(loose@.take(i + 1).last() == loose@[i as int]);
            assert(loose@.take(i + 1).drop_last() =~= loose@.take(i as int));
        }
        if !loose[i].dir_exists || has_member(aged, &loose[i].hex) {
            out.push(PlannedArtwork { id: loose[i].id, hex: loose[i].hex.clone() });
            proof {
                assert(artwork_views(out@) =~= before.push((loose@[i as int].id, loose@[i as int].hex@)));
            }
        }
        i = i + 1;
    }
    proof {
        assert(loose@.take(i as int) =~= loose@);
    }
    out
}

/// The picture is one whose row is removed.
pub open spec fn is_dropped(rows: Seq<PlannedArtwork>, hex: Seq<char>) -> bool {
    exists|i: int| 0 <= i < rows.len() && (#[trigger] rows[i]).hex@ == hex
}

/// The aged directories that no row knows, or whose row is removed.
pub open spec fn dropped_dirs(aged: Seq<Seq<char>>, live: Seq<Seq<char>>, rows: Seq<PlannedArtwork>) -> Seq<Seq<char>>
    decreases aged.len(),
{
    if aged.len() == 0 {
        Seq::empty()
    } else {
        let r = dropped_dirs(aged.drop_last(), live, rows);
        if !live.contains(aged.last()) || is_dropped(rows, aged.last()) {
            r.push(aged.last())
        } else {
            r
        }
    }
}

fn holds_hex(rows: &Vec<PlannedArtwork>, hex: &str) -> (r: bool)
    ensures
        r == is_dropped(rows@, hex@),
{
    let mut i: usize = 0;
    while i < rows.len()
        invariant
            i <= rows@.len(),
            forall|k: int| 0 <= k < i ==> (#[trigger] rows@[k]).hex@ != hex@,
        decreases rows@.len() - i,
    {
        if same_text(&rows[i].hex, hex) {
            return true;
        }
        i = i + 1;
    }
    false
}

/// The directories of pictures that are removed: of the aged ones those that no
/// row knows, and those whose row is removed.
pub fn plan_artwork_dirs(aged: &Vec<String>, live: &Vec<String>, rows: &Vec<PlannedArtwork>) -> (r: Vec<String>)
    ensures
        texts(r@) == dropped_dirs(texts(aged@), texts(live@), rows@),
{
    let ghost a = texts(aged@);
    let mut out: Vec<String> = Vec::new();
    let mut i: usize = 0;
    proof {
        assert(texts(out@) =~= dropped_dirs(a.take(0), texts(live@), rows@));
    }
    while i < aged.len()
        invariant
            i <= aged@.len(),
            a == texts(aged@),
            texts(out@) == dropped_dirs(a.take(i as int), texts(live@), rows@),
        decreases aged@.len() - i,
    {
        let ghost before = texts(out@);
        proof {
            assert(a.take(i + 1).last() == aged@[i as int]@);
            assert(a.take(i + 1).drop_last() =~= a.take(i as int));
        }
        if !has_member(live, &aged[i]) || holds_hex(rows, &aged[i]) {
            out.push(aged[i].clone());
            proof {
                assert(texts(out@) =~= before.push(a[i as int]));
            }
        }
        i = i + 1;
    }
    proof {
        assert(a.take(i as int) =~= a);
    }
    out
}

// ---------------------------------------------------------------- counts

/// What was counted of one sort.
#[derive(Debug, Clone, Copy, PartialEq, Eq, Structural)]
pub struct Counts {
    pub planned: usize,
    pub deleted: usize,
    /// Zero for rows.
    pub bytes: u64,
    /// Left alone since something changed after the plan.
    pub skipped: usize,
    pub failed: usize,
}

/// What was counted of every sort.
#[derive(Debug, Clone, Copy, PartialEq, Eq, Structural)]
pub struct Summary {
    pub tracks: Counts,
    pub albums: Counts,
    pub archived: Counts,
    pub derived: Counts,
    pub artwork_rows: Counts,
    pub artwork_dirs: Counts,
}

impl Counts {
    /// Nothing done yet of what was planned.
    pub fn planned(n: usize) -> (r: Counts)
        ensures
            r == (Counts { planned: n, deleted: 0, bytes: 0, skipped: 0, failed: 0 }),
    {
        Counts { planned: n, deleted: 0, bytes: 0, skipped: 0, failed: 0 }
    }

    /// Every item that was taken up is counted once, and there is room for the
    /// others.
    pub open spec fn consistent(&self) -> bool {
        self.deleted + self.skipped + self.failed <= self.planned
    }
}

impl Summary {
    /// All that was removed.
    pub open spec fn deleted_sum(&self) -> int {
        self.tracks.deleted + self.albums.deleted + self.archived.deleted + self.derived.deleted
            + self.artwork_rows.deleted + self.artwork_dirs.deleted
    }

    /// All bytes that were removed.
    pub open spec fn bytes_sum(&self) -> int {
        self.archived.bytes + self.derived.bytes + self.artwork_dirs.bytes
    }

    /// All that was removed.
    pub fn total_deleted(&self) -> (r: usize)
        requires
            self.deleted_sum() <= usize::MAX,
        ensures
            r == self.deleted_sum(),
    {
        self.tracks.deleted + self.albums.deleted + self.archived.deleted + self.derived.deleted
            + self.artwork_rows.deleted + self.artwork_dirs.deleted
    }

    /// All bytes that were removed.
    pub fn total_bytes(&self) -> (r: u64)
        requires
            self.bytes_sum() <= u64::MAX,
        ensures
            r == self.bytes_sum(),
    {
        self.archived.bytes + self.derived.bytes + self.artwork_dirs.bytes
    }
}

/// What is counted of rows: those that were not removed changed after the plan.
pub fn row_counts(planned: usize, deleted: usize) -> (r: Counts)
    requires
        deleted <= planned,
    ensures
        r == (Counts { planned, deleted, bytes: 0, skipped: (planned - deleted) as usize, failed: 0 }),
        r.consistent(),
{
    Counts { planned, deleted, bytes: 0, skipped: planned - deleted, failed: 0 }
}

/// What removing an item came to.
#[derive(Debug, Clone, Copy, PartialEq, Eq, Structural)]
pub enum ItemEnd {
    /// It is gone, with so many bytes.
    Removed(u64),
    /// It was gone already, or was no longer to be removed; so many bytes went.
    Left(u64),
    Failed,
}

/// Counts what removing an item came to.
pub fn count_item(c: Counts, end: ItemEnd) -> (r: Counts)
    requires
        c.deleted + c.skipped + c.failed < c.planned,
        match end {
            ItemEnd::Removed(n) => c.bytes + n <= u64::MAX,
            ItemEnd::Left(n) => c.bytes + n <= u64::MAX,
            ItemEnd::Failed => true,
        },
    ensures
        r.consistent(),
        r.planned == c.planned,
        r.deleted + r.skipped + r.failed == c.deleted + c.skipped + c.failed + 1,
        match end {
            ItemEnd::Removed(n) => r.deleted == c.deleted + 1 && r.skipped == c.skipped && r.failed == c.failed
                && r.bytes == c.bytes + n,
            ItemEnd::Left(n) => r.deleted == c.deleted && r.skipped == c.skipped + 1 && r.failed == c.failed
                && r.bytes == c.bytes + n,
            ItemEnd::Failed => r.deleted == c.deleted && r.skipped == c.skipped && r.failed == c.failed + 1
                && r.bytes == c.bytes,
        },
{
    let mut n = c;
    match end {
        ItemEnd::Removed(b) => {
            n.deleted = n.deleted + 1;
            n.bytes = n.bytes + b;
        },
        ItemEnd::Left(b) => {
            n.skipped = n.skipped + 1;
            n.bytes = n.bytes + b;
        },
        ItemEnd::Failed => {
            n.failed = n.failed + 1;
        },
    }
    n
}

/// What removing a file of the archive came to: `held` says that its row still
/// waits for it, `unlinked` how removing went (the size where the file was
/// there), `marked` that the row could be closed.
pub fn archive_end(held: bool, unlinked: Result<Option<u64>, FsError>, marked: bool) -> (r: ItemEnd)
    ensures
        r == (if !held {
            ItemEnd::Left(0)
        } else {
            match unlinked {
                Ok(size) => {
                    let n = match size {
                        Some(x) => x,
                        None => 0,
                    };
                    if marked {
                        ItemEnd::Removed(n)
                    } else {
                        ItemEnd::Left(n)
                    }
                },
                Err(_) => ItemEnd::Failed,
            }
        }),
{
    if !held {
        return ItemEnd::Left(0);
    }
    match unlinked {
        Ok(size) => {
            let n: u64 = match size {
                Some(x) => x,
                None => 0,
            };
            if marked {
                ItemEnd::Removed(n)
            } else {
                ItemEnd::Left(n)
            }
        },
        Err(_) => ItemEnd::Failed,
    }
}

/// Whether a derived file is still the one that was planned.
pub fn still_planned(f: &PlannedFile, st: &Stat) -> (r: bool)
    ensures
        r == (st.inode == f.inode && st.mtime_ns == f.mtime_ns),
{
    st.inode == f.inode && st.mtime_ns == f.mtime_ns
}

/// What removing a derived file came to: `locked` says that nothing else claims
/// its path, `removed` how removing went (the size where it was the planned
/// one and is gone).
pub fn derived_end(locked: bool, removed: Result<Option<u64>, FsError>) -> (r: ItemEnd)
    ensures
        r == (if !locked {
            ItemEnd::Left(0)
        } else {
            match removed {
                Ok(Some(n)) => ItemEnd::Removed(n),
                Ok(None) => ItemEnd::Left(0),
                Err(FsError::NotFound) => ItemEnd::Left(0),
                Err(_) => ItemEnd::Failed,
            }
        }),
{
    if !locked {
        return ItemEnd::Left(0);
    }
    match removed {
        Ok(Some(n)) => ItemEnd::Removed(n),
        Ok(None) => ItemEnd::Left(0),
        Err(FsError::NotFound) => ItemEnd::Left(0),
        Err(_) => ItemEnd::Failed,
    }
}

/// What removing the directory of a picture came to. It is left where its name
/// is no name of one, where a row knows it by now, where it was touched since
/// (`removed` is none), and where it is gone.
pub fn artwork_dir_end(hex: &str, orphan: bool, removed: Result<Option<u64>, FsError>) -> (r: ItemEnd)
    ensures
        r == (if !hex64(hex@) || !orphan {
            ItemEnd::Left(0)
        } else {
            match removed {
                Ok(Some(n)) => ItemEnd::Removed(n),
                Ok(None) => ItemEnd::Left(0),
                Err(FsError::NotFound) => ItemEnd::Left(0),
                Err(_) => ItemEnd::Failed,
            }
        }),
{
    if !is_hex64(hex) || !orphan {
        return ItemEnd::Left(0);
    }
    match removed {
        Ok(Some(n)) => ItemEnd::Removed(n),
        Ok(None) => ItemEnd::Left(0),
        Err(FsError::NotFound) => ItemEnd::Left(0),
        Err(_) => ItemEnd::Failed,
    }
}

/// What is logged of a summary besides what was removed.
#[derive(Debug, Clone, Copy, PartialEq, Eq, Structural)]
pub struct SummaryLog {
    pub skipped: usize,
    pub failed: usize,
}

/// All that was left alone, and all that failed.
pub fn log_summary(s: &Summary) -> (r: SummaryLog)
    requires
        s.tracks.skipped + s.albums.skipped + s.archived.skipped + s.derived.skipped + s.artwork_rows.skipped
            + s.artwork_dirs.skipped <= usize::MAX,
        s.archived.failed + s.derived.failed + s.artwork_dirs.failed <= usize::MAX,
    ensures
        r.skipped == s.tracks.skipped + s.albums.skipped + s.archived.skipped + s.derived.skipped
            + s.artwork_rows.skipped + s.artwork_dirs.skipped,
        r.failed == s.archived.failed + s.derived.failed + s.artwork_dirs.failed,
{
    SummaryLog {
        skipped: s.tracks.skipped + s.albums.skipped + s.archived.skipped + s.derived.skipped
            + s.artwork_rows.skipped + s.artwork_dirs.skipped,
        failed: s.archived.failed + s.derived.failed + s.artwork_dirs.failed,
    }
}

// ---------------------------------------------------------------- jobs

/// How long jobs that ended are kept; none is for ever.
#[derive(Debug, Clone, Copy, PartialEq, Eq, Structural)]
pub struct JobsRetention {
    pub done_secs: Option<i64>,
    pub failed_secs: Option<i64>,
}

/// Days in seconds; none for zero days.
pub open spec fn days_in_secs(d: u32) -> Option<i64> {
    if d > 0 {
        Some((d * 86400) as i64)
    } else {
        None
    }
}

fn secs_of_days(d: u32) -> (r: Option<i64>)
    ensures
        r == days_in_secs(d),
{
    if d > 0 {
        Some(d as i64 * 86400)
    } else {
        None
    }
}

/// The time before which something ended to be removed.
pub open spec fn cutoff_of(now: i64, secs: Option<i64>) -> Option<i64> {
    match secs {
        Some(s) => Some(floor_sub(now, s) as i64),
        None => None,
    }
}

fn cutoff_at(now: i64, secs: Option<i64>) -> (r: Option<i64>)
    ensures
        r == cutoff_of(now, secs),
{
    match secs {
        Some(s) => Some(saturating_sub(now, s)),
        None => None,
    }
}

impl JobsRetention {
    /// From days; zero days is for ever.
    pub fn from_days(done_days: u32, failed_days: u32) -> (r: JobsRetention)
        ensures
            r.done_secs == days_in_secs(done_days),
            r.failed_secs == days_in_secs(failed_days),
    {
        JobsRetention { done_secs: secs_of_days(done_days), failed_secs: secs_of_days(failed_days) }
    }

    /// The times before which jobs ended to be removed.
    pub fn cutoffs(&self, now: i64) -> (r: (Option<i64>, Option<i64>))
        ensures
            r.0 == cutoff_of(now, self.done_secs),
            r.1 == cutoff_of(now, self.failed_secs),
    {
        (cutoff_at(now, self.done_secs), cutoff_at(now, self.failed_secs))
    }
}

// ---------------------------------------------------------------- previews

/// What a preview shows of one sort.
#[derive(Debug)]
pub struct PreviewSection {
    pub count: usize,
    pub bytes: u64,
    pub sample: Vec<String>,
}

/// How many jobs would be removed.
#[derive(Debug, Clone, Copy, PartialEq, Eq, Structural)]
pub struct PreviewJobs {
    pub done: usize,
    pub failed: usize,
}

/// What would be removed.
#[derive(Debug)]
pub struct Preview {
    pub now: i64,
    pub cutoff: i64,
    pub tracks: PreviewSection,
    pub albums: PreviewSection,
    pub archived: PreviewSection,
    pub derived: PreviewSection,
    pub artwork_rows: PreviewSection,
    pub artwork_dirs: PreviewSection,
    pub jobs: PreviewJobs,
}

/// The first names of a list, as many as a preview shows.
pub open spec fn sample_of(names: Seq<Seq<char>>) -> Seq<Seq<char>> {
    if names.len() <= PREVIEW_SAMPLE {
        names
    } else {
        names.take(PREVIEW_SAMPLE as int)
    }
}

/// `s` shows a list of names of so many bytes.
pub open spec fn section_is(s: PreviewSection, names: Seq<Seq<char>>, bytes: int) -> bool {
    s.count == names.len() && s.bytes == bytes && texts(s.sample@) == sample_of(names)
}

fn section(names: Vec<String>, bytes: u64) -> (r: PreviewSection)
    ensures
        section_is(r, texts(names@), bytes as int),
{
    let ghost t = texts(names@);
    let n: usize = names.len();
    let most: usize = if n <= PREVIEW_SAMPLE {
        n
    } else {
        PREVIEW_SAMPLE
    };
    let mut sample: Vec<String> = Vec::new();
    let mut i: usize = 0;
    proof {
        assert(t.len() == n);
        assert(texts(sample@) =~= t.take(0));
    }
    while i < most
        invariant
            i <= most <= n,
            n == names@.len(),
            t == texts(names@),
            texts(sample@) == t.take(i as int),
        decreases most - i,
    {
        let ghost before = texts(sample@);
        sample.push(names[i].clone());
        proof {
            assert(texts(sample@) =~= before.push(t[i as int]));
            assert(t.take(i + 1) =~= t.take(i as int).push(t[i as int]));
        }
        i = i + 1;
    }
    proof {
        if n <= PREVIEW_SAMPLE {
            assert(t.take(n as int) =~= t);
        }
    }
    PreviewSection { count: n, bytes, sample }
}

/// The bytes of the archive that are removed.
pub open spec fn archived_bytes(v: Seq<PlannedArchive>) -> int
    decreases v.len(),
{
    if v.len() == 0 {
        0
    } else {
        archived_bytes(v.drop_last()) + v.last().bytes
    }
}

/// The bytes of derived files that are removed.
pub open spec fn derived_bytes(v: Seq<PlannedFile>) -> int
    decreases v.len(),
{
    if v.len() == 0 {
        0
    } else {
        derived_bytes(v.drop_last()) + v.last().bytes
    }
}

proof fn lemma_archived_bytes(v: Seq<PlannedArchive>, i: int)
    requires
        0 <= i <= v.len(),
    ensures
        0 <= archived_bytes(v.take(i)) <= archived_bytes(v),
    decreases v.len(),
{
    if v.len() == 0 {
        assert(v.take(i) =~= v);
    } else if i == v.len() {
        assert(v.take(i) =~= v);
        lemma_archived_bytes(v.drop_last(), v.len() - 1);
        assert(v.drop_last().take(v.len() - 1) =~= v.drop_last());
    } else {
        lemma_archived_bytes(v.drop_last(), i);
        assert(v.drop_last().take(i) =~= v.take(i));
    }
}

proof fn lemma_derived_bytes(v: Seq<PlannedFile>, i: int)
    requires
        0 <= i <= v.len(),
    ensures
        0 <= derived_bytes(v.take(i)) <= derived_bytes(v),
    decreases v.len(),
{
    if v.len() == 0 {
        assert(v.take(i) =~= v);
    } else if i == v.len() {
        assert(v.take(i) =~= v);
        lemma_derived_bytes(v.drop_last(), v.len() - 1);
        assert(v.drop_last().take(v.len() - 1) =~= v.drop_last());
    } else {
        lemma_derived_bytes(v.drop_last(), i);
        assert(v.drop_last().take(i) =~= v.take(i));
    }
}

/// The paths of planned tracks.
pub open spec fn track_paths(v: Seq<PlannedTrack>) -> Seq<Seq<char>> {
    v.map_values(|t: PlannedTrack| t.rel_path@)
}

/// The directories of planned albums.
pub open spec fn album_dirs(v: Seq<PlannedAlbum>) -> Seq<Seq<char>> {
    v.map_values(|t: PlannedAlbum| t.rel_dir@)
}

/// The paths of planned files of the archive.
pub open spec fn archive_paths(v: Seq<PlannedArchive>) -> Seq<Seq<char>> {
    v.map_values(|t: PlannedArchive| t.rel_path@)
}

/// The paths of planned derived files.
pub open spec fn derived_paths(v: Seq<PlannedFile>) -> Seq<Seq<char>> {
    v.map_values(|t: PlannedFile| t.rel_path@)
}

/// The names of planned pictures.
pub open spec fn artwork_names(v: Seq<PlannedArtwork>) -> Seq<Seq<char>> {
    v.map_values(|t: PlannedArtwork| t.hex@)
}

fn names_of_tracks(v: &Vec<PlannedTrack>) -> (r: Vec<String>)
    ensures
        texts(r@) == track_paths(v@),
{
    let mut out: Vec<String> = Vec::new();
    let mut i: usize = 0;
    while i < v.len()
        invariant
            i <= v@.len(),
            out@.len() == i,
            forall|k: int| 0 <= k < i ==> (#[trigger] out@[k])@ == v@[k].rel_path@,
        decreases v@.len() - i,
    {
        out.push(v[i].rel_path.clone());
        i = i + 1;
    }
    proof {
        assert(texts(out@) =~= track_paths(v@));
    }
    out
}

fn names_of_albums(v: &Vec<PlannedAlbum>) -> (r: Vec<String>)
    ensures
        texts(r@) == album_dirs(v@),
{
    let mut out: Vec<String> = Vec::new();
    let mut i: usize = 0;
    while i < v.len()
        invariant
            i <= v@.len(),
            out@.len() == i,
            forall|k: int| 0 <= k < i ==> (#[trigger] out@[k])@ == v@[k].rel_dir@,
        decreases v@.len() - i,
    {
        out.push(v[i].rel_dir.clone());
        i = i + 1;
    }
    proof {
        assert(texts(out@) =~= album_dirs(v@));
    }
    out
}

fn names_of_archived(v: &Vec<PlannedArchive>) -> (r: (Vec<String>, u64))
    requires
        archived_bytes(v@) <= u64::MAX,
    ensures
        texts(r.0@) == archive_paths(v@),
        r.1 == archived_bytes(v@),
{
    let mut out: Vec<String> = Vec::new();
    let mut bytes: u64 = 0;
    let mut i: usize = 0;
    while i < v.len()
        invariant
            i <= v@.len(),
            archived_bytes(v@) <= u64::MAX,
            bytes == archived_bytes(v@.take(i as int)),
            out@.len() == i,
            forall|k: int| 0 <= k < i ==> (#[trigger] out@[k])@ == v@[k].rel_path@,
        decreases v@.len() - i,
    {
        proof {
            assert(v@.take(i + 1).last() == v@[i as int]);
            assert(v@.take(i + 1).drop_last() =~= v@.take(i as int));
            lemma_archived_bytes(v@, i + 1);
        }
        bytes = bytes + v[i].bytes;
        out.push(v[i].rel_path.clone());
        i = i + 1;
    }
    proof {
        assert(v@.take(i as int) =~= v@);
        assert(texts(out@) =~= archive_paths(v@));
    }
    (out, bytes)
}

fn names_of_derived(v: &Vec<PlannedFile>) -> (r: (Vec<String>, u64))
    requires
        derived_bytes(v@) <= u64::MAX,
    ensures
        texts(r.0@) == derived_paths(v@),
        r.1 == derived_bytes(v@),
{
    let mut out: Vec<String> = Vec::new();
    let mut bytes: u64 = 0;
    let mut i: usize = 0;
    while i < v.len()
        invariant
            i <= v@.len(),
            derived_bytes(v@) <= u64::MAX,
            bytes == derived_bytes(v@.take(i as int)),
            out@.len() == i,
            forall|k: int| 0 <= k < i ==> (#[trigger] out@[k])@ == v@[k].rel_path@,
        decreases v@.len() - i,
    {
        proof {
            assert(v@.take(i + 1).last() == v@[i as int]);
            assert(v@.take(i + 1).drop_last() =~= v@.take(i as int));
            lemma_derived_bytes(v@, i + 1);
        }
        bytes = bytes + v[i].bytes;
        out.push(v[i].rel_path.clone());
        i = i + 1;
    }
    proof {
        assert(v@.take(i as int) =~= v@);
        assert(texts(out@) =~= derived_paths(v@));
    }
    (out, bytes)
}

fn names_of_artwork(v: &Vec<PlannedArtwork>) -> (r: Vec<String>)
    ensures
        texts(r@) == artwork_names(v@),
{
    let mut out: Vec<String> = Vec::new();
    let mut i: usize = 0;
    while i < v.len()
        invariant
            i <= v@.len(),
            out@.len() == i,
            forall|k: int| 0 <= k < i ==> (#[trigger] out@[k])@ == v@[k].hex@,
        decreases v@.len() - i,
    {
        out.push(v[i].hex.clone());
        i = i + 1;
    }
    proof {
        assert(texts(out@) =~= artwork_names(v@));
    }
    out
}

impl Preview {
    /// The same preview with the jobs that would be removed.
    pub fn with_jobs(self, jobs: (usize, usize)) -> (r: Preview)
        ensures
            r == (Preview { jobs: PreviewJobs { done: jobs.0, failed: jobs.1 }, ..self }),
    {
        Preview {
            now: self.now,
            cutoff: self.cutoff,
            tracks: self.tracks,
            albums: self.albums,
            archived: self.archived,
            derived: self.derived,
            artwork_rows: self.artwork_rows,
            artwork_dirs: self.artwork_dirs,
            jobs: PreviewJobs { done: jobs.0, failed: jobs.1 },
        }
    }

    /// What a plan would remove: how many of each sort, their bytes, and the
    /// first names.
    pub fn of(plan: &Plan) -> (r: Preview)
        requires
            archived_bytes(plan.archived@) <= u64::MAX,
            derived_bytes(plan.derived@) <= u64::MAX,
        ensures
            r.now == plan.now,
            r.cutoff == plan.cutoff,
            section_is(r.tracks, track_paths(plan.tracks@), 0),
            section_is(r.albums, album_dirs(plan.albums@), 0),
            section_is(r.archived, archive_paths(plan.archived@), archived_bytes(plan.archived@)),
            section_is(r.derived, derived_paths(plan.derived@), derived_bytes(plan.derived@)),
            section_is(r.artwork_rows, artwork_names(plan.artwork_rows@), 0),
            section_is(r.artwork_dirs, texts(plan.artwork_dirs@), 0),
            r.jobs == (PreviewJobs { done: 0, failed: 0 }),
    {
        let (archived, a_bytes) = names_of_archived(&plan.archived);
        let (derived, d_bytes) = names_of_derived(&plan.derived);
        Preview {
            now: plan.now,
            cutoff: plan.cutoff,
            tracks: section(names_of_tracks(&plan.tracks), 0),
            albums: section(names_of_albums(&plan.albums), 0),
            archived: section(archived, a_bytes),
            derived: section(derived, d_bytes),
            artwork_rows: section(names_of_artwork(&plan.artwork_rows), 0),
            artwork_dirs: section(crate::catalog::clone_strings(&plan.artwork_dirs), 0),
            jobs: PreviewJobs { done: 0, failed: 0 },
        }
    }
}

// ---------------------------------------------------------------- laws

/// What may be removed of derived files is a plain file, no temporary one, and
/// known to no row.
pub proof fn law_candidates_are_orphans(
    name: Option<Seq<char>>,
    kind: FileKind,
    valid: bool,
    rel: Seq<char>,
    keys: Seq<Seq<char>>,
)
    requires
        derived_class(name, kind, valid, rel, keys) == DerivedEntry::Candidate,
    ensures
        kind == FileKind::File,
        name is Some && !starts_with(name->0, TMP_PREFIX@),
        !keys.contains(canonical(rel)),
{
}

/// What is old enough to be removed stays so at any later time.
pub proof fn law_grace_is_monotone(earlier: i64, later: i64, mtime_ns: i64)
    requires
        earlier <= later,
        mtime_ns <= grace_ns(earlier),
    ensures
        mtime_ns <= grace_ns(later),
{
    assert(floor_sub(earlier, ORPHAN_GRACE_SECS) <= floor_sub(later, ORPHAN_GRACE_SECS));
    assert(floor_sub(earlier, ORPHAN_GRACE_SECS) * 1_000_000_000 <= floor_sub(later, ORPHAN_GRACE_SECS)
        * 1_000_000_000) by (nonlinear_arith)
        requires
            floor_sub(earlier, ORPHAN_GRACE_SECS) <= floor_sub(later, ORPHAN_GRACE_SECS),
    ;
}

/// A derived file is old enough a day after it was touched and no earlier, wherever the
/// numbers hold the time: `now` counts seconds, the time of the file nanoseconds.
pub proof fn law_derived_files_are_kept_a_day(now: i64, mtime_ns: i64)
    requires
        now * 1_000_000_000 - 86_400_000_000_000 >= i64::MIN,
    ensures
        now * 1_000_000_000 - mtime_ns >= 24 * 60 * 60 * 1_000_000_000 <==> mtime_ns <= grace_ns(now),
{
    lemma_grace(now, mtime_ns);
}

/// An album goes only with all of its tracks.
pub proof fn law_albums_go_with_their_tracks(v: Seq<MissingAlbum>, tracks: Seq<PlannedTrack>, i: int)
    requires
        0 <= i < empty_albums(v, tracks).len(),
    ensures
        exists|k: int|
            0 <= k < v.len() && all_planned(tracks, (#[trigger] v[k]).members@) && empty_albums(v, tracks)[i] == (
                v[k].id,
                v[k].rel_dir@,
            ),
    decreases v.len(),
{
    if v.len() > 0 {
        let t = v.drop_last();
        let r = empty_albums(t, tracks);
        if i < r.len() {
            law_albums_go_with_their_tracks(t, tracks, i);
            let k = choose|k: int|
                0 <= k < t.len() && all_planned(tracks, (#[trigger] t[k]).members@) && r[i] == (t[k].id, t[k].rel_dir@);
            assert(v[k] == t[k]);
        } else {
            assert(all_planned(tracks, v[v.len() - 1].members@));
        }
    }
}

// ---------------------------------------------------------------- what is collected

/// A time in the past is counted back from now; where no number holds it, it is the earliest or the latest there is.
pub proof fn law_counting_back(now: i64, secs: i64)
    ensures
        i64::MIN <= now - secs <= i64::MAX ==> floor_sub(now, secs) == now - secs,
        now - secs < i64::MIN ==> floor_sub(now, secs) == i64::MIN,
        now - secs > i64::MAX ==> floor_sub(now, secs) == i64::MAX,
        i64::MIN <= floor_sub(now, secs) <= i64::MAX,
{
}

/// What is collected of the missing tracks are those whose file was looked for and not found; one that could not be
/// looked for stays.
pub proof fn law_only_gone_tracks_are_collected(v: Seq<MissingTrack>, i: int)
    requires
        0 <= i < v.len(),
    ensures
        v[i].probe == Probe::Gone ==> gone_tracks(v).contains((v[i].id, v[i].rel_path@)),
        (forall|k: int| 0 <= k < v.len() ==> (#[trigger] v[k]).probe != Probe::Gone) ==> gone_tracks(v).len() == 0,
        gone_tracks(v).len() <= v.len(),
    decreases v.len(),
{
    let d = v.drop_last();
    let r = gone_tracks(d);
    assert(v.last() == v[v.len() - 1]);
    assert forall|k: int| 0 <= k < d.len() implies #[trigger] d[k] == v[k] by {}
    if d.len() > 0 {
        law_only_gone_tracks_are_collected(d, if i < d.len() {
            i
        } else {
            0
        });
    }
    if v[i].probe == Probe::Gone {
        let m = (v[i].id, v[i].rel_path@);
        if i < d.len() {
            let k = choose|k: int| 0 <= k < r.len() && r[k] == m;
            assert(gone_tracks(v)[k] == m);
        } else {
            assert(gone_tracks(v).last() == m);
        }
    }
}

/// An album whose tracks are all collected is collected with them.
pub proof fn law_emptied_albums_are_collected(v: Seq<MissingAlbum>, tracks: Seq<PlannedTrack>, i: int)
    requires
        0 <= i < v.len(),
        forall|m: int|
            0 <= m < v[i].members@.len() ==> exists|t: int|
                0 <= t < tracks.len() && (#[trigger] tracks[t]).id == (#[trigger] v[i].members@[m]),
    ensures
        empty_albums(v, tracks).contains((v[i].id, v[i].rel_dir@)),
{
    assert forall|m: int| 0 <= m < v[i].members@.len() implies is_planned(tracks, #[trigger] v[i].members@[m]) by {
        let t = choose|t: int| 0 <= t < tracks.len() && (#[trigger] tracks[t]).id == v[i].members@[m];
        assert(tracks[t].id == v[i].members@[m]);
    }
    lemma_emptied(v, tracks, i);
}

proof fn lemma_emptied(v: Seq<MissingAlbum>, tracks: Seq<PlannedTrack>, i: int)
    requires
        0 <= i < v.len(),
        all_planned(tracks, v[i].members@),
    ensures
        empty_albums(v, tracks).contains((v[i].id, v[i].rel_dir@)),
    decreases v.len(),
{
    let d = v.drop_last();
    let r = empty_albums(d, tracks);
    let a = (v[i].id, v[i].rel_dir@);
    if i < d.len() {
        assert(d[i] == v[i]);
        lemma_emptied(d, tracks, i);
        let k = choose|k: int| 0 <= k < r.len() && r[k] == a;
        assert(empty_albums(v, tracks)[k] == a);
    } else {
        assert(empty_albums(v, tracks).last() == a);
    }
}

/// A derived file may be collected where it is a plain file, no leftover of a write, and no track has it; a directory
/// is walked, and anything else is left alone.
pub proof fn law_derived_files(n: Seq<char>, valid: bool, rel: Seq<char>, keys: Seq<Seq<char>>)
    ensures
        derived_class(None, FileKind::File, valid, rel, keys) == DerivedEntry::Ignored,
        derived_class(Some(n), FileKind::File, false, rel, keys) == DerivedEntry::Ignored,
        derived_class(Some(n), FileKind::Dir, true, rel, keys) == DerivedEntry::Directory,
        derived_class(Some(n), FileKind::Symlink, true, rel, keys) == DerivedEntry::Ignored,
        keys.contains(canonical(rel)) ==> derived_class(Some(n), FileKind::File, true, rel, keys) == DerivedEntry::Ignored,
        starts_with(n, ".spindle-tmp-"@) ==> derived_class(Some(n), FileKind::File, true, rel, keys)
            == DerivedEntry::Ignored,
        !keys.contains(canonical(rel)) && !starts_with(n, ".spindle-tmp-"@) ==> derived_class(
            Some(n),
            FileKind::File,
            true,
            rel,
            keys,
        ) == DerivedEntry::Candidate,
{
}

/// A picture that nothing uses is dropped where its files are old enough or gone; the directory of a picture is
/// dropped where it is old enough and no picture that stays is kept in it.
pub proof fn law_dropped_artwork(v: Seq<LoosePicture>, aged: Seq<Seq<char>>, i: int)
    requires
        0 <= i < v.len(),
    ensures
        aged.contains(v[i].hex@) || !v[i].dir_exists ==> dropped_pictures(v, aged).contains((v[i].id, v[i].hex@)),
        (forall|k: int| 0 <= k < v.len() ==> (#[trigger] v[k]).dir_exists && !aged.contains(v[k].hex@)) ==> dropped_pictures(
            v,
            aged,
        ).len() == 0,
    decreases v.len(),
{
    let d = v.drop_last();
    let r = dropped_pictures(d, aged);
    assert(v.last() == v[v.len() - 1]);
    assert forall|k: int| 0 <= k < d.len() implies #[trigger] d[k] == v[k] by {}
    if d.len() > 0 {
        law_dropped_artwork(d, aged, if i < d.len() {
            i
        } else {
            0
        });
    }
    if aged.contains(v[i].hex@) || !v[i].dir_exists {
        let m = (v[i].id, v[i].hex@);
        if i < d.len() {
            let k = choose|k: int| 0 <= k < r.len() && r[k] == m;
            assert(dropped_pictures(v, aged)[k] == m);
        } else {
            assert(dropped_pictures(v, aged).last() == m);
        }
    }
}

/// The directory of a picture is dropped where it is old enough and no picture has it, or the one that has it is
/// dropped too; that of a picture which stays is kept.
pub proof fn law_dropped_directories(
    aged: Seq<Seq<char>>,
    live: Seq<Seq<char>>,
    rows: Seq<PlannedArtwork>,
    hex: Seq<char>,
)
    ensures
        dropped_dirs(aged, live, rows).contains(hex) <==> aged.contains(hex) && (!live.contains(hex) || (exists|i: int|
            0 <= i < rows.len() && (#[trigger] rows[i]).hex@ == hex)),
    decreases aged.len(),
{
    if aged.len() > 0 {
        let d = aged.drop_last();
        let r = dropped_dirs(d, live, rows);
        let c = dropped_dirs(aged, live, rows);
        law_dropped_directories(d, live, rows, hex);
        assert(aged.last() == aged[aged.len() - 1]);
        if r.contains(hex) {
            let k = choose|k: int| 0 <= k < r.len() && r[k] == hex;
            assert(c[k] == hex);
        }
        if d.contains(hex) {
            let k = choose|k: int| 0 <= k < d.len() && d[k] == hex;
            assert(aged[k] == hex);
        }
        if aged.contains(hex) && !d.contains(hex) {
            let k = choose|k: int| 0 <= k < aged.len() && aged[k] == hex;
            if k < d.len() {
                assert(d[k] == hex);
            }
            assert(aged.last() == hex);
        }
        if c.contains(hex) {
            let k = choose|k: int| 0 <= k < c.len() && c[k] == hex;
            if k < r.len() {
                assert(r[k] == hex);
            }
        }
        if aged.last() == hex && (!live.contains(hex) || is_dropped(rows, hex)) {
            assert(c.last() == hex);
        }
    } else {
        assert(!aged.contains(hex));
    }
}

/// A picture is kept under 64 hexadecimal digits in small letters; no other name is touched.
pub proof fn law_names_of_pictures(s: Seq<char>, i: int)
    requires
        hex64(s),
        0 <= i < s.len(),
    ensures
        s.len() == 64,
        is_hex(s, 32),
        !('A' <= s[i] <= 'F') && s[i] != '/' && s[i] != '.',
{
}

/// Jobs are kept for the days that are set, and for ever where none is: a day has 86400 seconds.
pub proof fn law_jobs_are_kept_for_days(now: i64, days: u32)
    ensures
        days_in_secs(0) is None,
        days > 0 ==> (days_in_secs(days) matches Some(s) && s == days * 24 * 60 * 60),
        cutoff_of(now, None) is None,
        days > 0 && now - days * 86400 >= i64::MIN ==> (cutoff_of(now, days_in_secs(days)) matches Some(c) && now - c
            == days * 86400),
{
}

/// A preview shows the first 50 names of a section and counts them all.
pub proof fn law_preview_of_a_section(s: PreviewSection, names: Seq<Seq<char>>, bytes: int, i: int)
    requires
        section_is(s, names, bytes),
    ensures
        s.count == names.len(),
        s.bytes == bytes,
        s.sample@.len() == (if names.len() <= 50 { names.len() } else { 50 }),
        0 <= i < s.sample@.len() ==> s.sample@[i]@ == names[i],
{
    assert(texts(s.sample@).len() == s.sample@.len());
    if 0 <= i < s.sample@.len() {
        assert(texts(s.sample@)[i] == s.sample@[i]@);
    }
}

/// The bytes of a plan are those of each of its files.
pub proof fn law_bytes_of_a_plan(v: Seq<PlannedArchive>, w: Seq<PlannedFile>, a: PlannedArchive, f: PlannedFile)
    ensures
        archived_bytes(Seq::empty()) == 0,
        derived_bytes(Seq::empty()) == 0,
        archived_bytes(v.push(a)) == archived_bytes(v) + a.bytes,
        derived_bytes(w.push(f)) == derived_bytes(w) + f.bytes,
{
    assert(v.push(a).drop_last() =~= v);
    assert(w.push(f).drop_last() =~= w);
}

/// What is deleted in all is what is deleted of each sort; bytes count for the sorts that hold files.
pub proof fn law_totals_of_a_summary(s: Summary)
    ensures
        s.deleted_sum() == s.tracks.deleted + s.albums.deleted + s.archived.deleted + s.derived.deleted
            + s.artwork_rows.deleted + s.artwork_dirs.deleted,
        s.bytes_sum() == s.archived.bytes + s.derived.bytes + s.artwork_dirs.bytes,
{
}

/// What is planned is named as it is: tracks and albums by their number and their place, pictures by their number and
/// their hash.
pub proof fn law_what_is_planned(p: Plan, t: Seq<PlannedTrack>, a: Seq<PlannedAlbum>, w: Seq<PlannedArtwork>, i: int)
    ensures
        0 <= i < t.len() ==> track_views(t)[i] == (t[i].id, t[i].rel_path@) && track_paths(t)[i] == t[i].rel_path@,
        0 <= i < a.len() ==> album_views(a)[i] == (a[i].id, a[i].rel_dir@) && album_dirs(a)[i] == a[i].rel_dir@,
        0 <= i < w.len() ==> artwork_views(w)[i] == (w[i].id, w[i].hex@) && artwork_names(w)[i] == w[i].hex@,
        0 <= i < p.archived@.len() ==> archive_paths(p.archived@)[i] == p.archived@[i].rel_path@,
        0 <= i < p.derived@.len() ==> derived_paths(p.derived@)[i] == p.derived@[i].rel_path@,
        track_paths(t).len() == t.len() && album_dirs(a).len() == a.len() && artwork_names(w).len() == w.len(),
        archive_paths(p.archived@).len() == p.archived@.len() && derived_paths(p.derived@).len() == p.derived@.len(),
{
}

/// The longer of two paths is removed first; no count goes beyond what was planned.
pub proof fn law_longer_paths_first(r: Seq<Seq<char>>, i: int, j: int, c: Counts)
    requires
        removal_order(r),
        0 <= i < j < r.len(),
    ensures
        encode_utf8(r[i]).len() >= encode_utf8(r[j]).len(),
        c.consistent() <==> c.deleted + c.skipped + c.failed <= c.planned,
{
    assert(!removed_before(r[j], r[i]));
}

} // verus!
