//! Rows of the catalogue and what is read from files, as plain values.

use crate::fsroot::Stat;
use crate::text::{opt_text, same_text, texts};
use vstd::prelude::*;
use vstd::string::*;

verus! {

// ---------------------------------------------------------------- tags

/// The views of key and value pairs.
pub open spec fn pair_views(v: Seq<(String, String)>) -> Seq<(Seq<char>, Seq<char>)> {
    v.map_values(|p: (String, String)| (p.0@, p.1@))
}

/// The values that stand under `key`, in order.
pub open spec fn values_of(items: Seq<(Seq<char>, Seq<char>)>, key: Seq<char>) -> Seq<Seq<char>>
    decreases items.len(),
{
    if items.len() == 0 {
        Seq::empty()
    } else {
        let r = values_of(items.drop_last(), key);
        if items.last().0 == key {
            r.push(items.last().1)
        } else {
            r
        }
    }
}

/// The first value that stands under `key`.
pub open spec fn first_of(items: Seq<(Seq<char>, Seq<char>)>, key: Seq<char>) -> Option<Seq<char>> {
    let v = values_of(items, key);
    if v.len() > 0 {
        Some(v[0])
    } else {
        None
    }
}

/// The tags of a file: keys and values in order, a key once for each value.
#[derive(Debug, Clone)]
pub struct TagSet {
    pub items: Vec<(String, String)>,
}

impl View for TagSet {
    type V = Seq<(Seq<char>, Seq<char>)>;

    open spec fn view(&self) -> Seq<(Seq<char>, Seq<char>)> {
        pair_views(self.items@)
    }
}

/// A pair with the same texts.
pub fn clone_pair(p: &(String, String)) -> (r: (String, String))
    ensures
        r == *p,
{
    (p.0.clone(), p.1.clone())
}

/// A list with the same strings.
pub fn clone_strings(v: &Vec<String>) -> (r: Vec<String>)
    ensures
        r@ == v@,
{
    let r = v.clone();
    proof {
        assert(r@ =~= v@);
    }
    r
}

impl TagSet {
    /// The values under `key`, in order.
    pub fn values(&self, key: &str) -> (r: Vec<String>)
        ensures
            texts(r@) == values_of(self@, key@),
    {
        let mut out: Vec<String> = Vec::new();
        let mut i: usize = 0;
        proof {
            assert(texts(out@) =~= values_of(self@.take(0), key@));
        }
        while i < self.items.len()
            invariant
                i <= self.items@.len(),
                texts(out@) == values_of(self@.take(i as int), key@),
            decreases self.items@.len() - i,
        {
            let ghost before = texts(out@);
            proof {
                assert(self@.take(i + 1).drop_last() =~= self@.take(i as int));
                assert(self@.take(i + 1).last() == (self.items@[i as int].0@, self.items@[i as int].1@));
            }
            if same_text(self.items[i].0.as_str(), key) {
                out.push(self.items[i].1.clone());
                proof {
                    assert(texts(out@) =~= before.push(self.items@[i as int].1@));
                }
            }
            i = i + 1;
        }
        proof {
            assert(self@.take(i as int) =~= self@);
        }
        out
    }

    /// The first value under `key`.
    pub fn first(&self, key: &str) -> (r: Option<String>)
        ensures
            opt_text(r) == first_of(self@, key@),
    {
        let v = self.values(key);
        if v.len() > 0 {
            proof {
                assert(texts(v@)[0] == v@[0]@);
            }
            Some(v[0].clone())
        } else {
            proof {
                assert(texts(v@).len() == 0);
            }
            None
        }
    }
}

/// A change to a tag: the values that a key gets, none to remove the key.
#[derive(Debug, Clone)]
pub struct TagChange {
    pub key: String,
    pub values: Option<Vec<String>>,
}

/// The views of changes.
pub open spec fn change_views(v: Seq<TagChange>) -> Seq<(Seq<char>, Option<Seq<Seq<char>>>)> {
    v.map_values(
        |c: TagChange|
            (
                c.key@,
                match c.values {
                    Some(x) => Some(texts(x@)),
                    None => None,
                },
            ),
    )
}

// ---------------------------------------------------------------- files

/// Where a file is and how it looked.
#[derive(Debug, Clone, Copy, PartialEq, Eq, Structural)]
pub struct Physical {
    pub dev: u64,
    pub inode: u64,
    pub nlink: u64,
    pub size: u64,
    pub mtime_ns: i64,
    pub ctime_ns: i64,
}

impl Physical {
    /// What a stat says, without the kind of the file.
    pub fn of(st: &Stat) -> (r: Physical)
        ensures
            r.dev == st.dev,
            r.inode == st.inode,
            r.nlink == st.nlink,
            r.size == st.size,
            r.mtime_ns == st.mtime_ns,
            r.ctime_ns == st.ctime_ns,
    {
        Physical {
            dev: st.dev,
            inode: st.inode,
            nlink: st.nlink,
            size: st.size,
            mtime_ns: st.mtime_ns,
            ctime_ns: st.ctime_ns,
        }
    }
}

/// What identifies the sound of a file: a digest of the decoded samples where
/// the codec is lossless, one of the packets where it is not. None inside where
/// it could not be computed.
#[derive(Debug, Clone, Copy)]
pub enum Fingerprint {
    Md5(Option<[u8; 16]>),
    Fp(Option<[u8; 32]>),
}

/// The codecs that the library tells apart.
#[derive(Debug, Clone, Copy, PartialEq, Eq, Structural)]
pub enum Codec {
    Flac,
    Alac,
    Wav,
    Aiff,
    Aac,
    Mp3,
    Opus,
    Vorbis,
}

/// What was read of the picture inside a file.
#[derive(Debug)]
pub enum PictureState {
    /// Not looked at: the row keeps what it has.
    Unread,
    /// There is none.
    Absent,
    /// It could not be stored; the next scan reads it again.
    Failed(String),
    /// It is stored under this digest.
    Found(StoredPicture),
}

/// A stored picture.
#[derive(Debug, Clone, Copy)]
pub struct StoredPicture {
    pub sha256: [u8; 32],
    pub needs_thumbs: bool,
}

/// What was read of an audio file.
#[derive(Debug)]
pub struct AudioFile {
    pub codec: String,
    pub lossless: bool,
    pub sample_rate: Option<u32>,
    pub bit_depth: Option<u8>,
    pub channels: Option<u8>,
    pub bitrate: Option<u32>,
    pub duration_ms: Option<u64>,
    pub tags: TagSet,
}

/// The columns that lists are shown and sorted by.
#[derive(Debug, Clone)]
pub struct CacheColumns {
    pub title: Option<String>,
    pub artist_display: Option<String>,
    pub albumartist: Option<String>,
    pub track_no: Option<i64>,
    pub disc_no: Option<i64>,
    pub date: Option<String>,
}

/// What a row takes over from a file.
#[derive(Debug)]
pub struct TrackContent {
    pub codec: String,
    pub lossless: bool,
    pub sample_rate: Option<u32>,
    pub bit_depth: Option<u8>,
    pub channels: Option<u8>,
    pub bitrate: Option<u32>,
    pub duration_ms: Option<u64>,
    pub tag_hash: [u8; 32],
    pub tags: TagSet,
    pub cache: CacheColumns,
    pub picture: PictureState,
}

/// What an album row says of its album.
#[derive(Debug, Clone)]
pub struct AlbumMeta {
    pub category_id: Option<i64>,
    pub albumartist: Option<String>,
    pub album: Option<String>,
    pub date: Option<String>,
    pub original_date: Option<String>,
    pub mb_release_id: Option<String>,
    pub disc_count: Option<i64>,
}

/// What the path of a track is made of.
#[derive(Debug, Clone)]
pub struct TrackFields {
    pub category: Option<String>,
    pub albumartist: Option<String>,
    pub artist: Option<String>,
    pub album: Option<String>,
    pub title: Option<String>,
    pub disc_no: Option<i64>,
    pub track_no: Option<i64>,
    pub year: Option<String>,
    pub edition: Option<String>,
    pub ext: String,
    pub stem: String,
}

// ---------------------------------------------------------------- operations

/// What an operation of a batch does.
#[derive(Debug, Clone, Copy, PartialEq, Eq, Structural)]
pub enum OpKind {
    /// Writes tags.
    Tags,
    /// Moves a file.
    Rename,
    /// Removes a track.
    Delete,
    /// Replaces a file by another codec and keeps the source in the archive.
    Archive,
    /// Fills in a digest.
    Md5,
}

// ---------------------------------------------------------------- bytes

/// Whether two byte strings are the same.
pub fn same_bytes(a: &[u8], b: &[u8]) -> (r: bool)
    ensures
        r == (a@ == b@),
{
    if a.len() != b.len() {
        return false;
    }
    let mut i: usize = 0;
    while i < a.len()
        invariant
            i <= a@.len(),
            a@.len() == b@.len(),
            forall|k: int| 0 <= k < i ==> #[trigger] a@[k] == b@[k],
        decreases a@.len() - i,
    {
        if a[i] != b[i] {
            return false;
        }
        i = i + 1;
    }
    proof {
        assert(a@ =~= b@);
    }
    true
}

/// Whether two digests of 16 bytes are the same.
pub fn same16(a: &[u8; 16], b: &[u8; 16]) -> (r: bool)
    ensures
        r == (a == b),
{
    let r = same_bytes(a.as_slice(), b.as_slice());
    proof {
        if r {
            assert(*a =~= *b);
        }
    }
    r
}

/// Whether two digests of 32 bytes are the same.
pub fn same32(a: &[u8; 32], b: &[u8; 32]) -> (r: bool)
    ensures
        r == (a == b),
{
    let r = same_bytes(a.as_slice(), b.as_slice());
    proof {
        if r {
            assert(*a =~= *b);
        }
    }
    r
}

/// The first value of a key is that of the first pair with the key; there is none where no pair has it.
pub proof fn law_first_value(items: Seq<(Seq<char>, Seq<char>)>, key: Seq<char>, i: int)
    requires
        0 <= i < items.len(),
        items[i].0 == key,
        forall|j: int| 0 <= j < i ==> (#[trigger] items[j]).0 != key,
    ensures
        first_of(items, key) == Some(items[i].1),
        values_of(items, key)[0] == items[i].1,
    decreases items.len(),
{
    let t = items.drop_last();
    if i < items.len() - 1 {
        assert(t[i] == items[i]);
        law_first_value(t, key, i);
    } else {
        law_no_value(t, key);
    }
}

/// A key that no pair has has no value.
pub proof fn law_no_value(items: Seq<(Seq<char>, Seq<char>)>, key: Seq<char>)
    requires
        forall|j: int| 0 <= j < items.len() ==> (#[trigger] items[j]).0 != key,
    ensures
        first_of(items, key) is None,
        values_of(items, key).len() == 0,
    decreases items.len(),
{
    if items.len() > 0 {
        assert(items.last() == items[items.len() - 1]);
        law_no_value(items.drop_last(), key);
    }
}

/// The values of two lists of pairs, one behind the other, are those of the one and then those of the
/// other; a single pair has one value, under its own key only.
pub proof fn law_values_in_order(
    a: Seq<(Seq<char>, Seq<char>)>,
    b: Seq<(Seq<char>, Seq<char>)>,
    k: Seq<char>,
    v: Seq<char>,
    key: Seq<char>,
)
    ensures
        values_of(a + b, key) == values_of(a, key) + values_of(b, key),
        values_of(seq![(k, v)], key) == (if k == key { seq![v] } else { Seq::<Seq<char>>::empty() }),
    decreases b.len(),
{
    let one = seq![(k, v)];
    assert(one.drop_last() =~= Seq::empty());
    assert(values_of(one.drop_last(), key).len() == 0);
    assert(values_of(one, key) =~= (if k == key { seq![v] } else { Seq::<Seq<char>>::empty() }));
    if b.len() == 0 {
        assert(a + b =~= a);
        assert(values_of(a, key) + values_of(b, key) =~= values_of(a, key));
    } else {
        law_values_in_order(a, b.drop_last(), k, v, key);
        assert((a + b).drop_last() =~= a + b.drop_last());
        assert(values_of(a + b, key) =~= values_of(a, key) + values_of(b, key));
    }
}

/// Pairs and changes are read as they stand: a key with its value, a key with its new values or with none.
pub proof fn law_pairs_and_changes(p: Seq<(String, String)>, c: Seq<TagChange>, i: int)
    ensures
        pair_views(p).len() == p.len() && change_views(c).len() == c.len(),
        0 <= i < p.len() ==> pair_views(p)[i] == (p[i].0@, p[i].1@),
        0 <= i < c.len() ==> change_views(c)[i].0 == c[i].key@,
        0 <= i < c.len() ==> (c[i].values matches Some(v) ==> change_views(c)[i].1 == Some(texts(v@))),
        0 <= i < c.len() && c[i].values is None ==> change_views(c)[i].1 is None,
{
}

} // verus!
