//! Which picture an album gets: a cover image beside its files, or one inside
//! them.

use crate::fsroot::Stat;
use crate::import::commit::extend_ids;
use crate::import::scanner::{same_cover, ScanReport};
use crate::import::walk::{cover_of, find_cover_at, CoverEntry, CoverStat};
use vstd::prelude::*;
use vstd::string::*;

verus! {

// ---------------------------------------------------------------- which albums

/// What the catalogue knows of the picture of an album.
#[derive(Debug)]
pub struct AlbumArtworkState {
    pub id: i64,
    pub rel_dir_key: String,
    pub missing: bool,
    /// How the cover beside the files looked when the picture was chosen.
    pub cover: Option<CoverStat>,
    /// The picture was chosen since the album changed.
    pub resolved: bool,
    /// The album has a picture, and the original of it is gone or damaged.
    pub original_lost: bool,
}

/// The cover beside the files is another one than it was.
pub open spec fn cover_changed(known: Option<CoverStat>, found: Option<CoverEntry>) -> bool {
    match (known, found) {
        (None, None) => false,
        (Some(a), Some(b)) => a != b.stat,
        _ => true,
    }
}

/// The picture of the album has to be chosen again.
pub open spec fn is_candidate(s: AlbumArtworkState, covers: Seq<(String, CoverEntry)>, deep: bool) -> bool {
    !s.missing && (deep || !s.resolved || cover_changed(s.cover, cover_of(covers, s.rel_dir_key@))
        || s.original_lost)
}

/// The positions of the candidates, in order.
pub open spec fn candidates_of(
    states: Seq<AlbumArtworkState>,
    covers: Seq<(String, CoverEntry)>,
    deep: bool,
) -> Seq<usize>
    decreases states.len(),
{
    if states.len() == 0 {
        Seq::empty()
    } else {
        let r = candidates_of(states.drop_last(), covers, deep);
        if is_candidate(states.last(), covers, deep) {
            r.push((states.len() - 1) as usize)
        } else {
            r
        }
    }
}

/// The albums whose picture has to be chosen again: all that are not missing
/// in a deep scan, else those not chosen yet, those whose cover changed and
/// those whose original is lost.
pub fn artwork_candidates(
    states: &Vec<AlbumArtworkState>,
    covers: &Vec<(String, CoverEntry)>,
    deep: bool,
) -> (r: Vec<usize>)
    ensures
        r@ == candidates_of(states@, covers@, deep),
{
    let mut out: Vec<usize> = Vec::new();
    let mut i: usize = 0;
    while i < states.len()
        invariant
            i <= states@.len(),
            out@ == candidates_of(states@.take(i as int), covers@, deep),
        decreases states@.len() - i,
    {
        proof {
            assert(states@.take(i + 1).last() == states@[i as int]);
            assert(states@.take(i + 1).drop_last() =~= states@.take(i as int));
        }
        let s = &states[i];
        if !s.missing {
            let changed = match (&s.cover, find_cover_at(covers, &s.rel_dir_key)) {
                (None, None) => false,
                (Some(a), Some(b)) => *a != covers[b].1.stat,
                _ => true,
            };
            if deep || !s.resolved || changed || s.original_lost {
                out.push(i);
            }
        }
        i = i + 1;
    }
    proof {
        assert(states@.take(i as int) =~= states@);
    }
    out
}

// ---------------------------------------------------------------- which picture

/// What reading the cover beside the files gave.
#[derive(Debug, Clone, Copy, PartialEq, Eq, Structural)]
pub enum CoverProbe {
    /// There is none, or it is gone.
    Absent,
    /// It could not be read, or changed while it was.
    Undecided,
    /// It is too large or no picture.
    Unusable(CoverStat),
    Image(CoverStat),
}

/// What reading a cover gave: `st` and `after` are what a stat said before and
/// after, `len` is what was read, `image` whether it is a picture. A cover
/// larger than `max` is not read.
pub fn probe_cover(st: &Stat, after: &Stat, len: u64, image: bool, max: u64) -> (r: CoverProbe)
    ensures
        ({
            let same = st.inode == after.inode && st.size == after.size && st.mtime_ns == after.mtime_ns
                && st.ctime_ns == after.ctime_ns;
            if st.size > max {
                r matches CoverProbe::Unusable(c) && c.inode == st.inode as i64 && c.size == st.size as i64
                    && c.mtime_ns == st.mtime_ns && c.ctime_ns == st.ctime_ns
            } else if !same || len != st.size {
                r is Undecided
            } else if image {
                r matches CoverProbe::Image(c) && c.inode == st.inode as i64 && c.size == st.size as i64
                    && c.mtime_ns == st.mtime_ns && c.ctime_ns == st.ctime_ns
            } else {
                r matches CoverProbe::Unusable(c) && c.inode == st.inode as i64 && c.size == st.size as i64
                    && c.mtime_ns == st.mtime_ns && c.ctime_ns == st.ctime_ns
            }
        }),
{
    let c = CoverStat::of(st);
    if st.size > max {
        CoverProbe::Unusable(c)
    } else if !same_cover(st, after) || len != st.size {
        CoverProbe::Undecided
    } else if image {
        CoverProbe::Image(c)
    } else {
        CoverProbe::Unusable(c)
    }
}

/// What reading the picture inside a track gave.
#[derive(Debug, Clone, Copy, PartialEq, Eq, Structural)]
pub enum TrackProbe {
    Unreadable,
    /// There is none, or it is no picture.
    NoPicture,
    Image,
}

/// What to do next to choose the picture of an album. The stat is that of the
/// cover beside the files, where there is one.
#[derive(Debug, Clone, Copy, PartialEq, Eq, Structural)]
pub enum ArtworkStep {
    /// It cannot be told now; the album stays as it is.
    Undecided,
    TakeCover(CoverStat),
    TakeTrack(usize, Option<CoverStat>),
    /// Look into this track.
    ReadTrack(usize),
    /// The album has no picture.
    Nothing(Option<CoverStat>),
}

/// What a cover that is no picture leaves behind.
pub open spec fn cover_stat_of(cover: CoverProbe) -> Option<CoverStat> {
    match cover {
        CoverProbe::Unusable(c) => Some(c),
        CoverProbe::Image(c) => Some(c),
        _ => None,
    }
}

/// The first track that settles the choice: one with a picture, or one that
/// cannot be read.
pub open spec fn settles(probes: Seq<TrackProbe>, i: int) -> bool {
    &&& 0 <= i < probes.len()
    &&& probes[i] != TrackProbe::NoPicture
    &&& forall|k: int| 0 <= k < i ==> #[trigger] probes[k] == TrackProbe::NoPicture
}

/// What to do next to choose the picture of an album with `tracks` tracks,
/// given the cover beside the files and what the first tracks hold. The cover
/// comes before the tracks, the tracks come in order, and a track that cannot
/// be read leaves everything open.
pub fn resolve_album_artwork(cover: CoverProbe, probes: &Vec<TrackProbe>, tracks: usize) -> (r: ArtworkStep)
    ensures
        cover is Undecided ==> r is Undecided,
        cover matches CoverProbe::Image(c) ==> r == ArtworkStep::TakeCover(c),
        cover is Absent || cover is Unusable ==> {
            &&& forall|i: int| #[trigger] settles(probes@, i) ==> r == (if probes@[i] == TrackProbe::Image {
                ArtworkStep::TakeTrack(i as usize, cover_stat_of(cover))
            } else {
                ArtworkStep::Undecided
            })
            &&& (forall|i: int| 0 <= i < probes@.len() ==> #[trigger] probes@[i] == TrackProbe::NoPicture) ==> r
                == (if probes@.len() < tracks {
                ArtworkStep::ReadTrack(probes@.len() as usize)
            } else {
                ArtworkStep::Nothing(cover_stat_of(cover))
            })
        },
{
    let stat = match cover {
        CoverProbe::Undecided => {
            return ArtworkStep::Undecided;
        },
        CoverProbe::Image(c) => {
            return ArtworkStep::TakeCover(c);
        },
        CoverProbe::Unusable(c) => Some(c),
        CoverProbe::Absent => None,
    };
    let mut i: usize = 0;
    while i < probes.len()
        invariant
            i <= probes@.len(),
            cover is Absent || cover is Unusable,
            stat == cover_stat_of(cover),
            forall|k: int| 0 <= k < i ==> #[trigger] probes@[k] == TrackProbe::NoPicture,
        decreases probes@.len() - i,
    {
        match probes[i] {
            TrackProbe::Unreadable => {
                return ArtworkStep::Undecided;
            },
            TrackProbe::Image => {
                return ArtworkStep::TakeTrack(i, stat);
            },
            TrackProbe::NoPicture => {},
        }
        i = i + 1;
    }
    if probes.len() < tracks {
        ArtworkStep::ReadTrack(probes.len())
    } else {
        ArtworkStep::Nothing(stat)
    }
}

/// A picture that is in the store.
#[derive(Debug, Clone, Copy)]
pub struct FoundArtwork {
    pub hash: [u8; 32],
    pub bytes: usize,
    /// The picture stood beside the files, not inside one.
    pub from_file: bool,
    pub needs_thumbs: bool,
}

/// What is known of a picture once it is put into the store: nothing where it
/// could not be put there.
pub fn register_artwork(
    hash: [u8; 32],
    bytes: usize,
    from_file: bool,
    stored: bool,
    missing_thumbs: usize,
) -> (r: Option<FoundArtwork>)
    ensures
        r == (if stored {
            Some(FoundArtwork { hash, bytes, from_file, needs_thumbs: missing_thumbs > 0 })
        } else {
            None
        }),
{
    if stored {
        Some(FoundArtwork { hash, bytes, from_file, needs_thumbs: missing_thumbs > 0 })
    } else {
        None
    }
}

/// How choosing the pictures ended.
#[derive(Debug)]
pub enum ArtworkEnd {
    /// So many albums, with the jobs that were queued.
    Done(u64, Vec<i64>),
    Cancelled,
    Failed(String),
}

/// Notes in the report how choosing the pictures ended. Neither a cancellation
/// nor a failure undoes the scan.
pub fn note_artwork(report: &mut ScanReport, end: ArtworkEnd)
    ensures
        match end {
            ArtworkEnd::Done(n, jobs) => final(report).artwork_resolved == n && final(report).enqueued_jobs@ == old(
                report,
            ).enqueued_jobs@ + jobs@ && final(report).artwork_error == old(report).artwork_error,
            ArtworkEnd::Cancelled => *final(report) == *old(report),
            ArtworkEnd::Failed(e) => final(report).artwork_error == Some(e) && final(report).artwork_resolved == old(
                report,
            ).artwork_resolved && final(report).enqueued_jobs == old(report).enqueued_jobs,
        },
        final(report).run_id == old(report).run_id,
        final(report).files_seen == old(report).files_seen,
        final(report).new == old(report).new,
        final(report).updated == old(report).updated,
        final(report).unchanged == old(report).unchanged,
        final(report).moved == old(report).moved,
        final(report).revived == old(report).revived,
        final(report).missing_marked == old(report).missing_marked,
        final(report).errors == old(report).errors,
        final(report).tmp_removed == old(report).tmp_removed,
        final(report).overtaken == old(report).overtaken,
        final(report).skipped == old(report).skipped,
        final(report).changed_ids == old(report).changed_ids,
        final(report).categories_registered == old(report).categories_registered,
        final(report).albums_categorized == old(report).albums_categorized,
{
    match end {
        ArtworkEnd::Done(n, jobs) => {
            report.artwork_resolved = n;
            extend_ids(&mut report.enqueued_jobs, &jobs);
        },
        ArtworkEnd::Cancelled => {},
        ArtworkEnd::Failed(e) => {
            report.artwork_error = Some(e);
        },
    }
}

/// The picture of an album is looked for again where its files are there and something calls for it: a deep
/// scan, a picture that was never looked for or was lost, or a cover that came, went or changed.
pub proof fn law_when_artwork_is_looked_for(
    s: AlbumArtworkState,
    covers: Seq<(String, CoverEntry)>,
    deep: bool,
    c: CoverStat,
    e: CoverEntry,
)
    ensures
        s.missing ==> !is_candidate(s, covers, deep),
        !s.missing && deep ==> is_candidate(s, covers, deep),
        !s.missing && !s.resolved ==> is_candidate(s, covers, deep),
        !s.missing && s.original_lost ==> is_candidate(s, covers, deep),
        !s.missing && s.cover is None && cover_of(covers, s.rel_dir_key@) is Some ==> is_candidate(s, covers, deep),
        !s.missing && s.cover is Some && cover_of(covers, s.rel_dir_key@) is None ==> is_candidate(s, covers, deep),
        !s.missing && s.resolved && !s.original_lost && !deep && s.cover is None && cover_of(
            covers,
            s.rel_dir_key@,
        ) is None ==> !is_candidate(s, covers, deep),
        !s.missing && s.resolved && !s.original_lost && !deep && s.cover == Some(c) && cover_of(
            covers,
            s.rel_dir_key@,
        ) == Some(e) ==> (is_candidate(s, covers, deep) <==> c.inode != e.stat.inode || c.size != e.stat.size
            || c.mtime_ns != e.stat.mtime_ns || c.ctime_ns != e.stat.ctime_ns),
{
}

/// Every album for which something calls is looked at, and no other.
pub proof fn law_candidates_are_all_looked_at(
    states: Seq<AlbumArtworkState>,
    covers: Seq<(String, CoverEntry)>,
    deep: bool,
    i: usize,
)
    requires
        states.len() <= usize::MAX,
    ensures
        candidates_of(states, covers, deep).contains(i) <==> i < states.len() && is_candidate(
            states[i as int],
            covers,
            deep,
        ),
    decreases states.len(),
{
    if states.len() > 0 {
        let d = states.drop_last();
        let r = candidates_of(d, covers, deep);
        let c = candidates_of(states, covers, deep);
        law_candidates_are_all_looked_at(d, covers, deep, i);
        assert(states.last() == states[states.len() - 1]);
        if r.contains(i) {
            let k = choose|k: int| 0 <= k < r.len() && r[k] == i;
            assert(c[k] == i);
        }
        if c.contains(i) {
            let k = choose|k: int| 0 <= k < c.len() && c[k] == i;
            if k < r.len() {
                assert(r[k] == i);
            }
        }
        if i == states.len() - 1 && is_candidate(states[i as int], covers, deep) {
            assert(c.last() == i);
        }
    }
}

} // verus!
