//! Committing a scan: what each file that was found means for its row.

use crate::catalog::{same32, Fingerprint, OpKind};
use crate::edit::naming::{in_progress_keys, normalize_in_progress_keys, working_keys};
use crate::import::scanner::{
    audio_changed, effective_fingerprint, kept_fingerprint, sound_changed, ScanReport,
};
use crate::import::walk::InvEntry;
use crate::lists::{has_id, sorted_ids, sorted_set_of};
use crate::split::has_member;
use crate::text::{concat3, same_text, texts};
use crate::unicode::canonical;
use vstd::prelude::*;
use vstd::string::*;

verus! {

// ---------------------------------------------------------------- values

/// How a file was told to be a known one.
#[derive(Debug, Clone, Copy, PartialEq, Eq, Structural)]
pub enum Via {
    Inode,
    Path,
    Md5,
}

/// Which row a file belongs to.
#[derive(Debug, Clone, Copy, PartialEq, Eq, Structural)]
pub enum Identity {
    New,
    Existing { track_id: i64, via: Via, changed: bool, revived: bool },
}

/// What was decided of a file.
#[derive(Debug, Clone, Copy, PartialEq, Eq, Structural)]
pub struct Decision {
    pub identity: Identity,
    pub hardlink: bool,
}

/// A row as it was when the scan began.
#[derive(Debug)]
pub struct TrackSnap {
    pub id: i64,
    pub rel_path: String,
    pub rel_path_key: String,
    pub dev: Option<u64>,
    pub album_id: Option<i64>,
    pub tag_hash: Option<[u8; 32]>,
    pub tag_version: i64,
    pub audio_version: i64,
    pub audio_md5: Option<[u8; 16]>,
    pub audio_fp: Option<[u8; 32]>,
    /// The picture of the track could not be stored.
    pub artwork_dirty: bool,
}

/// An operation that waits to be carried out.
#[derive(Debug)]
pub struct PendingOp {
    pub op_id: i64,
    pub track_id: i64,
    pub kind: OpKind,
    pub expected_rel_path: Option<String>,
    pub target_rel_path: Option<String>,
    /// The path that it was recorded with is valid and stays so with the name
    /// between.
    pub fits: bool,
}

/// Where the row `id` stands in a snapshot.
pub open spec fn row_at(tracks: Seq<TrackSnap>, id: i64) -> Option<int>
    decreases tracks.len(),
{
    if tracks.len() == 0 {
        None
    } else if tracks.last().id == id {
        Some(tracks.len() - 1)
    } else {
        row_at(tracks.drop_last(), id)
    }
}

/// The operation that waits for the track `id`.
pub open spec fn pending_at(pending: Seq<PendingOp>, id: i64) -> Option<int>
    decreases pending.len(),
{
    if pending.len() == 0 {
        None
    } else if pending.last().track_id == id {
        Some(pending.len() - 1)
    } else {
        pending_at(pending.drop_last(), id)
    }
}

/// Where the row `id` stands in a snapshot.
pub fn find_row(tracks: &Vec<TrackSnap>, id: i64) -> (r: Option<usize>)
    ensures
        match r {
            Some(i) => row_at(tracks@, id) == Some(i as int) && i < tracks@.len() && tracks@[i as int].id == id,
            None => row_at(tracks@, id) is None,
        },
{
    let mut j: usize = tracks.len();
    proof {
        assert(tracks@.take(j as int) =~= tracks@);
    }
    while j > 0
        invariant
            j <= tracks@.len(),
            row_at(tracks@, id) == row_at(tracks@.take(j as int), id),
        decreases j,
    {
        proof {
            assert(tracks@.take(j as int).last() == tracks@[j - 1]);
            assert(tracks@.take(j as int).drop_last() =~= tracks@.take(j - 1));
        }
        if tracks[j - 1].id == id {
            return Some(j - 1);
        }
        j = j - 1;
    }
    None
}

/// The operation that waits for the track `id`.
pub fn find_pending(pending: &Vec<PendingOp>, id: i64) -> (r: Option<usize>)
    ensures
        match r {
            Some(i) => pending_at(pending@, id) == Some(i as int) && i < pending@.len() && pending@[i as int].track_id
                == id,
            None => pending_at(pending@, id) is None,
        },
{
    let mut j: usize = pending.len();
    proof {
        assert(pending@.take(j as int) =~= pending@);
    }
    while j > 0
        invariant
            j <= pending@.len(),
            pending_at(pending@, id) == pending_at(pending@.take(j as int), id),
        decreases j,
    {
        proof {
            assert(pending@.take(j as int).last() == pending@[j - 1]);
            assert(pending@.take(j as int).drop_last() =~= pending@.take(j - 1));
        }
        if pending[j - 1].track_id == id {
            return Some(j - 1);
        }
        j = j - 1;
    }
    None
}

/// What a row lookup gives lies within the snapshot and has the id.
pub proof fn lemma_row_at(tracks: Seq<TrackSnap>, id: i64)
    ensures
        match row_at(tracks, id) {
            Some(i) => 0 <= i < tracks.len() && tracks[i].id == id,
            None => forall|i: int| 0 <= i < tracks.len() ==> (#[trigger] tracks[i]).id != id,
        },
    decreases tracks.len(),
{
    if tracks.len() > 0 && tracks.last().id != id {
        lemma_row_at(tracks.drop_last(), id);
        assert forall|i: int| 0 <= i < tracks.len() - 1 implies #[trigger] tracks[i] == tracks.drop_last()[i] by {}
    }
}

// ---------------------------------------------------------------- what to read

/// A decision on a row whose picture is yet to be stored counts as changed.
pub open spec fn with_dirty_picture(d: Decision, tracks: Seq<TrackSnap>) -> Decision {
    match d.identity {
        Identity::New => d,
        Identity::Existing { track_id, via, changed, revived } => Decision {
            identity: Identity::Existing {
                track_id,
                via,
                changed: changed || (exists|i: int|
                    0 <= i < tracks.len() && (#[trigger] tracks[i]).id == track_id && tracks[i].artwork_dirty),
                revived,
            },
            hardlink: d.hardlink,
        },
    }
}

/// Whether the picture of the row `id` is yet to be stored.
fn has_dirty_picture(tracks: &Vec<TrackSnap>, id: i64) -> (r: bool)
    ensures
        r == (exists|i: int| 0 <= i < tracks@.len() && (#[trigger] tracks@[i]).id == id && tracks@[i].artwork_dirty),
{
    let mut i: usize = 0;
    while i < tracks.len()
        invariant
            i <= tracks@.len(),
            forall|k: int| 0 <= k < i ==> !((#[trigger] tracks@[k]).id == id && tracks@[k].artwork_dirty),
        decreases tracks@.len() - i,
    {
        if tracks[i].id == id && tracks[i].artwork_dirty {
            return true;
        }
        i = i + 1;
    }
    false
}

/// Rows whose picture is yet to be stored are read again, though their files
/// look the same.
pub fn mark_dirty_pictures(decisions: &Vec<Decision>, tracks: &Vec<TrackSnap>) -> (r: Vec<Decision>)
    ensures
        r@ == decisions@.map_values(|d: Decision| with_dirty_picture(d, tracks@)),
{
    let mut out: Vec<Decision> = Vec::new();
    let mut i: usize = 0;
    while i < decisions.len()
        invariant
            i <= decisions@.len(),
            out@ == decisions@.take(i as int).map_values(|d: Decision| with_dirty_picture(d, tracks@)),
        decreases decisions@.len() - i,
    {
        let d: Decision = decisions[i];
        let m: Decision = match d.identity {
            Identity::New => d,
            Identity::Existing { track_id, via, changed, revived } => Decision {
                identity: Identity::Existing {
                    track_id,
                    via,
                    changed: changed || has_dirty_picture(tracks, track_id),
                    revived,
                },
                hardlink: d.hardlink,
            },
        };
        out.push(m);
        i = i + 1;
        proof {
            assert(out@ =~= decisions@.take(i as int).map_values(|d: Decision| with_dirty_picture(d, tracks@)));
        }
    }
    proof {
        assert(decisions@.take(i as int) =~= decisions@);
    }
    out
}

/// A file is read where it is new, has changed, or everything is read.
pub open spec fn is_read(d: Decision, deep: bool) -> bool {
    match d.identity {
        Identity::New => true,
        Identity::Existing { changed, .. } => changed || deep,
    }
}

/// The positions of the files to read, in order.
pub open spec fn reads_of(decisions: Seq<Decision>, deep: bool) -> Seq<usize>
    decreases decisions.len(),
{
    if decisions.len() == 0 {
        Seq::empty()
    } else {
        let r = reads_of(decisions.drop_last(), deep);
        if is_read(decisions.last(), deep) {
            r.push((decisions.len() - 1) as usize)
        } else {
            r
        }
    }
}

/// The positions of the files to read, in order.
pub fn need_read(decisions: &Vec<Decision>, deep: bool) -> (r: Vec<usize>)
    ensures
        r@ == reads_of(decisions@, deep),
{
    let mut out: Vec<usize> = Vec::new();
    let mut i: usize = 0;
    while i < decisions.len()
        invariant
            i <= decisions@.len(),
            out@ == reads_of(decisions@.take(i as int), deep),
        decreases decisions@.len() - i,
    {
        proof {
            assert(decisions@.take(i + 1).drop_last() =~= decisions@.take(i as int));
            assert(decisions@.take(i + 1).last() == decisions@[i as int]);
        }
        let wanted = match decisions[i].identity {
            Identity::New => true,
            Identity::Existing { changed, .. } => changed || deep,
        };
        if wanted {
            out.push(i);
        }
        i = i + 1;
    }
    proof {
        assert(decisions@.take(i as int) =~= decisions@);
    }
    out
}

/// A scan in which nothing changed reads nothing, and a deep one reads all.
pub proof fn law_reads(decisions: Seq<Decision>)
    requires
        decisions.len() <= usize::MAX,
    ensures
        (forall|i: int| 0 <= i < decisions.len() ==> !is_read(#[trigger] decisions[i], false)) ==> reads_of(
            decisions,
            false,
        ) == Seq::<usize>::empty(),
        reads_of(decisions, true) == Seq::new(decisions.len(), |i: int| i as usize),
    decreases decisions.len(),
{
    if decisions.len() > 0 {
        let t = decisions.drop_last();
        law_reads(t);
        if forall|i: int| 0 <= i < decisions.len() ==> !is_read(#[trigger] decisions[i], false) {
            assert forall|i: int| 0 <= i < t.len() implies !is_read(#[trigger] t[i], false) by {
                assert(t[i] == decisions[i]);
            }
            assert(!is_read(decisions[decisions.len() - 1], false));
        }
        assert(reads_of(decisions, true) =~= Seq::new(decisions.len(), |i: int| i as usize));
    } else {
        assert(reads_of(decisions, true) =~= Seq::new(decisions.len(), |i: int| i as usize));
    }
}

// ---------------------------------------------------------------- work in progress

/// The keys that a list of waiting operations works at, each with its track.
pub open spec fn progress_of(ops: Seq<PendingOp>) -> Seq<(Seq<char>, i64)>
    decreases ops.len(),
{
    if ops.len() == 0 {
        Seq::empty()
    } else {
        let r = progress_of(ops.drop_last());
        let op = ops.last();
        if op.kind == OpKind::Archive && op.expected_rel_path is Some && op.target_rel_path is Some {
            r + working_keys(
                "spindle-normalize-"@,
                op.op_id as int,
                op.expected_rel_path->0@,
                op.target_rel_path->0@,
                op.fits,
            ).map_values(|k: Seq<char>| (k, op.track_id))
        } else {
            r
        }
    }
}

/// The track that works at `key`.
pub open spec fn worker_at(progress: Seq<(Seq<char>, i64)>, key: Seq<char>) -> Option<i64>
    decreases progress.len(),
{
    if progress.len() == 0 {
        None
    } else if progress.last().0 == key {
        Some(progress.last().1)
    } else {
        worker_at(progress.drop_last(), key)
    }
}

/// The views of keys and tracks.
pub open spec fn key_views(v: Seq<(String, i64)>) -> Seq<(Seq<char>, i64)> {
    v.map_values(|p: (String, i64)| (p.0@, p.1))
}

/// The keys at which normalisations work right now. They leave source and
/// result in the library for a while without telling the catalogue.
pub fn work_in_progress(pending: &Vec<PendingOp>) -> (r: Vec<(String, i64)>)
    ensures
        key_views(r@) == progress_of(pending@),
{
    let mut out: Vec<(String, i64)> = Vec::new();
    let mut i: usize = 0;
    proof {
        assert(key_views(out@) =~= progress_of(pending@.take(0)));
    }
    while i < pending.len()
        invariant
            i <= pending@.len(),
            key_views(out@) == progress_of(pending@.take(i as int)),
        decreases pending@.len() - i,
    {
        let op = &pending[i];
        let ghost before = key_views(out@);
        proof {
            assert(pending@.take(i + 1).drop_last() =~= pending@.take(i as int));
            assert(pending@.take(i + 1).last() == pending@[i as int]);
        }
        if op.kind == OpKind::Archive {
            if let (Some(expected), Some(target)) = (&op.expected_rel_path, &op.target_rel_path) {
                let keys = normalize_in_progress_keys(op.op_id, expected, target, op.fits);
                let ghost added = texts(keys@).map_values(|k: Seq<char>| (k, op.track_id));
                let mut j: usize = 0;
                proof {
                    assert(added.take(0) =~= Seq::empty());
                    assert(before + added.take(0) =~= before);
                }
                while j < keys.len()
                    invariant
                        j <= keys@.len(),
                        added == texts(keys@).map_values(|k: Seq<char>| (k, op.track_id)),
                        key_views(out@) == before + added.take(j as int),
                    decreases keys@.len() - j,
                {
                    let ghost so_far = key_views(out@);
                    out.push((keys[j].clone(), op.track_id));
                    proof {
                        assert(key_views(out@) =~= so_far.push((keys@[j as int]@, op.track_id)));
                        assert(added.take(j + 1) =~= added.take(j as int).push(added[j as int]));
                        assert(key_views(out@) =~= before + added.take(j + 1));
                    }
                    j = j + 1;
                }
                proof {
                    assert(added.take(j as int) =~= added);
                }
            }
        }
        i = i + 1;
    }
    proof {
        assert(pending@.take(i as int) =~= pending@);
    }
    out
}

/// For each file, the track whose normalisation works at its key. Such a file
/// is not registered, moved or missed: its track only counts as seen.
pub fn held_entries(entries: &Vec<InvEntry>, progress: &Vec<(String, i64)>) -> (r: Vec<Option<i64>>)
    ensures
        r@.len() == entries@.len(),
        forall|i: int|
            0 <= i < entries@.len() ==> #[trigger] r@[i] == worker_at(key_views(progress@), entries@[i].key@),
{
    let mut out: Vec<Option<i64>> = Vec::new();
    let mut i: usize = 0;
    while i < entries.len()
        invariant
            i <= entries@.len(),
            out@.len() == i,
            forall|k: int|
                0 <= k < i ==> #[trigger] out@[k] == worker_at(key_views(progress@), entries@[k].key@),
        decreases entries@.len() - i,
    {
        let mut found: Option<i64> = None;
        let mut j: usize = progress.len();
        let ghost views = key_views(progress@);
        let ghost key = entries@[i as int].key@;
        proof {
            assert(views.take(j as int) =~= views);
        }
        while j > 0 && found.is_none()
            invariant
                j <= progress@.len(),
                i < entries@.len(),
                key == entries@[i as int].key@,
                views == key_views(progress@),
                found is None ==> worker_at(views, key) == worker_at(views.take(j as int), key),
                found is Some ==> worker_at(views, key) == found,
            decreases j,
        {
            proof {
                assert(views.take(j as int).last() == (progress@[j - 1].0@, progress@[j - 1].1));
                assert(views.take(j as int).drop_last() =~= views.take(j - 1));
            }
            if same_text(progress[j - 1].0.as_str(), entries[i].key.as_str()) {
                found = Some(progress[j - 1].1);
            }
            j = j - 1;
        }
        out.push(found);
        i = i + 1;
    }
    out
}

// ---------------------------------------------------------------- the scan so far

/// A scan after its files are read.
#[derive(Debug)]
pub struct Scanned {
    pub entries: Vec<InvEntry>,
    pub decisions: Vec<Decision>,
    pub tracks: Vec<TrackSnap>,
    pub pending: Vec<PendingOp>,
    pub deep: bool,
}

impl Scanned {
    /// There is a decision for each file, and every row that a decision speaks
    /// of is in the snapshot.
    pub open spec fn wf(&self) -> bool {
        &&& self.entries@.len() == self.decisions@.len()
        &&& forall|i: int|
            0 <= i < self.decisions@.len() ==> match (#[trigger] self.decisions@[i]).identity {
                Identity::Existing { track_id, .. } => row_at(self.tracks@, track_id) is Some,
                Identity::New => true,
            }
    }

    /// The row of the file `i`, which belongs to a known track.
    pub open spec fn row(&self, i: int) -> TrackSnap {
        self.tracks@[row_at(self.tracks@, self.id(i))->0]
    }

    /// The track of the file `i`.
    pub open spec fn id(&self, i: int) -> i64 {
        self.decisions@[i].identity->track_id
    }

    /// The file `i` belongs to a known track.
    pub open spec fn known(&self, i: int) -> bool {
        self.decisions@[i].identity is Existing
    }

    /// The path of the file differs from that of its row.
    pub open spec fn path_differs(&self, i: int) -> bool {
        self.row(i).rel_path@ != self.entries@[i].rel@
    }

    /// The device of the file differs from that of its row.
    pub open spec fn dev_differs(&self, i: int) -> bool {
        self.row(i).dev != Some(self.entries@[i].ph.dev)
    }

    /// What was found for the file `i` would be written to its row, so the row
    /// has to be as it was in the snapshot.
    pub open spec fn checked(&self, i: int, held: Seq<Option<i64>>) -> bool {
        &&& held[i] is None
        &&& self.known(i)
        &&& self.decisions@[i].identity->changed || self.deep || self.path_differs(i) || self.dev_differs(i)
    }
}

/// The positions of the files whose rows have to be compared with the snapshot,
/// among the first `n`.
pub open spec fn checks_of(s: Scanned, held: Seq<Option<i64>>, n: int) -> Seq<usize>
    decreases n,
{
    if n <= 0 {
        Seq::empty()
    } else {
        let r = checks_of(s, held, n - 1);
        if s.checked(n - 1, held) {
            r.push((n - 1) as usize)
        } else {
            r
        }
    }
}

/// The position in the snapshot of the row of a known file.
fn row_of(s: &Scanned, i: usize, id: i64) -> (r: usize)
    requires
        s.wf(),
        i < s.decisions@.len(),
        s.known(i as int),
        id == s.id(i as int),
    ensures
        r < s.tracks@.len(),
        s.tracks@[r as int] == s.row(i as int),
{
    proof {
        assert(row_at(s.tracks@, s.decisions@[i as int].identity->track_id) is Some);
    }
    match find_row(&s.tracks, id) {
        Some(r) => r,
        None => 0,
    }
}

/// The positions of the files whose rows have to be compared with the snapshot,
/// since something of them would be written.
pub fn rows_to_check(s: &Scanned, held: &Vec<Option<i64>>) -> (r: Vec<usize>)
    requires
        s.wf(),
        held@.len() == s.entries@.len(),
    ensures
        r@ == checks_of(*s, held@, s.decisions@.len() as int),
{
    let mut out: Vec<usize> = Vec::new();
    let mut i: usize = 0;
    while i < s.decisions.len()
        invariant
            s.wf(),
            held@.len() == s.entries@.len(),
            i <= s.decisions@.len(),
            out@ == checks_of(*s, held@, i as int),
        decreases s.decisions@.len() - i,
    {
        if held[i].is_none() {
            if let Identity::Existing { track_id, changed, .. } = s.decisions[i].identity {
                let at = row_of(s, i, track_id);
                let row = &s.tracks[at];
                let e = &s.entries[i];
                let same_path = same_text(row.rel_path.as_str(), e.rel.as_str());
                if changed || s.deep || !same_path || row.dev != Some(e.ph.dev) {
                    out.push(i);
                }
            }
        }
        i = i + 1;
    }
    out
}

// ---------------------------------------------------------------- moves

/// What a file does to the path of its row.
#[derive(Debug, Clone, Copy, PartialEq, Eq, Structural)]
pub struct MoveStep {
    /// The rename that waits for the track lost: someone else moved the file.
    pub conflict: bool,
    /// The row takes the path of the file.
    pub moves: bool,
}

/// The keys at which the rename `op` may have left the file of its row.
pub open spec fn rename_keys(op: PendingOp, row: TrackSnap) -> Seq<Seq<char>> {
    working_keys(
        "spindle-rename-"@,
        op.op_id as int,
        match op.expected_rel_path {
            Some(p) => p@,
            None => row.rel_path@,
        },
        row.rel_path@,
        op.fits,
    )
}

/// What the file `i` does to the path of its row.
pub open spec fn move_step(s: Scanned, held: Seq<Option<i64>>, overtaken: Seq<i64>, i: int) -> MoveStep {
    if held[i] is Some || !s.known(i) || overtaken.contains(s.id(i)) {
        MoveStep { conflict: false, moves: false }
    } else {
        let op = pending_at(s.pending@, s.id(i));
        if op is Some && s.pending@[op->0].kind == OpKind::Rename {
            if rename_keys(s.pending@[op->0], s.row(i)).contains(s.entries@[i].key@) {
                MoveStep { conflict: false, moves: false }
            } else {
                MoveStep { conflict: true, moves: s.path_differs(i) }
            }
        } else {
            MoveStep { conflict: false, moves: s.path_differs(i) }
        }
    }
}

/// A row that takes another path.
#[derive(Debug)]
pub struct PathMove {
    pub track_id: i64,
    pub rel_path: String,
    pub key: String,
}

/// A rename that lost against another one.
#[derive(Debug)]
pub struct RenameConflict {
    pub op_id: i64,
    pub track_id: i64,
    pub reason: String,
}

/// The views of moves.
pub open spec fn move_views(v: Seq<PathMove>) -> Seq<(i64, Seq<char>, Seq<char>)> {
    v.map_values(|m: PathMove| (m.track_id, m.rel_path@, m.key@))
}

/// The views of conflicts.
pub open spec fn conflict_views(v: Seq<RenameConflict>) -> Seq<(i64, i64, Seq<char>)> {
    v.map_values(|c: RenameConflict| (c.op_id, c.track_id, c.reason@))
}

/// The moves of the first `n` files.
pub open spec fn moves_of(s: Scanned, held: Seq<Option<i64>>, overtaken: Seq<i64>, n: int) -> Seq<
    (i64, Seq<char>, Seq<char>),
>
    decreases n,
{
    if n <= 0 {
        Seq::empty()
    } else {
        let r = moves_of(s, held, overtaken, n - 1);
        if move_step(s, held, overtaken, n - 1).moves {
            r.push((s.id(n - 1), s.entries@[n - 1].rel@, s.entries@[n - 1].key@))
        } else {
            r
        }
    }
}

/// The conflicts of the first `n` files.
pub open spec fn conflicts_of(s: Scanned, held: Seq<Option<i64>>, overtaken: Seq<i64>, n: int) -> Seq<
    (i64, i64, Seq<char>),
>
    decreases n,
{
    if n <= 0 {
        Seq::empty()
    } else {
        let r = conflicts_of(s, held, overtaken, n - 1);
        if move_step(s, held, overtaken, n - 1).conflict {
            r.push(
                (
                    s.pending@[pending_at(s.pending@, s.id(n - 1))->0].op_id,
                    s.id(n - 1),
                    "外部で "@ + s.entries@[n - 1].rel@ + " へ移動されていた"@,
                ),
            )
        } else {
            r
        }
    }
}

/// What the file `i` does to the path of its row.
fn decide_move(s: &Scanned, held: &Vec<Option<i64>>, overtaken: &Vec<i64>, i: usize) -> (r: MoveStep)
    requires
        s.wf(),
        held@.len() == s.entries@.len(),
        i < s.entries@.len(),
    ensures
        r == move_step(*s, held@, overtaken@, i as int),
{
    if held[i].is_some() {
        return MoveStep { conflict: false, moves: false };
    }
    let id: i64 = match s.decisions[i].identity {
        Identity::Existing { track_id, .. } => track_id,
        Identity::New => {
            return MoveStep { conflict: false, moves: false };
        },
    };
    if has_id(overtaken, id) {
        return MoveStep { conflict: false, moves: false };
    }
    let at = row_of(s, i, id);
    let row = &s.tracks[at];
    let e = &s.entries[i];
    let differs = !same_text(row.rel_path.as_str(), e.rel.as_str());
    match find_pending(&s.pending, id) {
        Some(p) => {
            let op = &s.pending[p];
            if op.kind == OpKind::Rename {
                let ours = match &op.expected_rel_path {
                    Some(x) => in_progress_keys(op.op_id, x, &row.rel_path, op.fits),
                    None => in_progress_keys(op.op_id, &row.rel_path, &row.rel_path, op.fits),
                };
                if has_member(&ours, &e.key) {
                    MoveStep { conflict: false, moves: false }
                } else {
                    MoveStep { conflict: true, moves: differs }
                }
            } else {
                MoveStep { conflict: false, moves: differs }
            }
        },
        None => MoveStep { conflict: false, moves: differs },
    }
}

/// Which rows take the path of their file, and which waiting renames lost
/// against a move by someone else. A row with a rename of its own keeps its
/// path while the file stands where that rename may have left it.
pub fn plan_moves(s: &Scanned, held: &Vec<Option<i64>>, overtaken: &Vec<i64>) -> (r: (
    Vec<PathMove>,
    Vec<RenameConflict>,
))
    requires
        s.wf(),
        held@.len() == s.entries@.len(),
    ensures
        move_views(r.0@) == moves_of(*s, held@, overtaken@, s.entries@.len() as int),
        conflict_views(r.1@) == conflicts_of(*s, held@, overtaken@, s.entries@.len() as int),
{
    let mut moves: Vec<PathMove> = Vec::new();
    let mut conflicts: Vec<RenameConflict> = Vec::new();
    let mut i: usize = 0;
    proof {
        assert(move_views(moves@) =~= moves_of(*s, held@, overtaken@, 0));
        assert(conflict_views(conflicts@) =~= conflicts_of(*s, held@, overtaken@, 0));
    }
    while i < s.entries.len()
        invariant
            s.wf(),
            held@.len() == s.entries@.len(),
            i <= s.entries@.len(),
            move_views(moves@) == moves_of(*s, held@, overtaken@, i as int),
            conflict_views(conflicts@) == conflicts_of(*s, held@, overtaken@, i as int),
        decreases s.entries@.len() - i,
    {
        let step = decide_move(s, held, overtaken, i);
        let ghost m0 = move_views(moves@);
        let ghost c0 = conflict_views(conflicts@);
        if let Identity::Existing { track_id, .. } = s.decisions[i].identity {
            if step.conflict {
                if let Some(p) = find_pending(&s.pending, track_id) {
                    let reason = concat3("外部で ", &s.entries[i].rel, " へ移動されていた");
                    conflicts.push(RenameConflict { op_id: s.pending[p].op_id, track_id, reason });
                    proof {
                        assert(conflict_views(conflicts@) =~= c0.push(
                            (
                                s.pending@[p as int].op_id,
                                track_id,
                                "外部で "@ + s.entries@[i as int].rel@ + " へ移動されていた"@,
                            ),
                        ));
                    }
                }
            }
            if step.moves {
                moves.push(
                    PathMove { track_id, rel_path: s.entries[i].rel.clone(), key: s.entries[i].key.clone() },
                );
                proof {
                    assert(move_views(moves@) =~= m0.push(
                        (track_id, s.entries@[i as int].rel@, s.entries@[i as int].key@),
                    ));
                }
            }
        }
        i = i + 1;
    }
    (moves, conflicts)
}

/// The row whose key is `key`: the last one of the snapshot.
pub open spec fn holder_of(tracks: Seq<TrackSnap>, key: Seq<char>) -> Option<i64>
    decreases tracks.len(),
{
    if tracks.len() == 0 {
        None
    } else if tracks.last().rel_path_key@ == key {
        Some(tracks.last().id)
    } else {
        holder_of(tracks.drop_last(), key)
    }
}

/// Some file of the scan belongs to the track `id`.
pub open spec fn claimed(decisions: Seq<Decision>, id: i64) -> bool {
    exists|i: int|
        0 <= i < decisions.len() && (#[trigger] decisions[i]).identity is Existing && decisions[i].identity->track_id
            == id
}

/// The rows that give up their key to one of the first `n` moves: they hold it,
/// are another track, and no file of the scan belongs to them.
pub open spec fn evicted_by(
    moves: Seq<(i64, Seq<char>, Seq<char>)>,
    tracks: Seq<TrackSnap>,
    decisions: Seq<Decision>,
    n: int,
) -> Seq<i64>
    decreases n,
{
    if n <= 0 {
        Seq::empty()
    } else {
        let r = evicted_by(moves, tracks, decisions, n - 1);
        let m = moves[n - 1];
        match holder_of(tracks, m.2) {
            Some(h) => if h != m.0 && !claimed(decisions, h) {
                r.push(h)
            } else {
                r
            },
            None => r,
        }
    }
}

fn find_holder(tracks: &Vec<TrackSnap>, key: &str) -> (r: Option<i64>)
    ensures
        r == holder_of(tracks@, key@),
{
    let mut j: usize = tracks.len();
    proof {
        assert(tracks@.take(j as int) =~= tracks@);
    }
    while j > 0
        invariant
            j <= tracks@.len(),
            holder_of(tracks@, key@) == holder_of(tracks@.take(j as int), key@),
        decreases j,
    {
        proof {
            assert(tracks@.take(j as int).last() == tracks@[j - 1]);
            assert(tracks@.take(j as int).drop_last() =~= tracks@.take(j - 1));
        }
        if same_text(tracks[j - 1].rel_path_key.as_str(), key) {
            return Some(tracks[j - 1].id);
        }
        j = j - 1;
    }
    None
}

fn is_claimed(decisions: &Vec<Decision>, id: i64) -> (r: bool)
    ensures
        r == claimed(decisions@, id),
{
    let mut i: usize = 0;
    while i < decisions.len()
        invariant
            i <= decisions@.len(),
            forall|k: int|
                0 <= k < i ==> !((#[trigger] decisions@[k]).identity is Existing && decisions@[k].identity->track_id
                    == id),
        decreases decisions@.len() - i,
    {
        if let Identity::Existing { track_id, .. } = decisions[i].identity {
            if track_id == id {
                return true;
            }
        }
        i = i + 1;
    }
    false
}

/// The rows that give up their key to a moved one. They stay, and will be
/// missing.
pub fn evictions(moves: &Vec<PathMove>, s: &Scanned) -> (r: Vec<i64>)
    ensures
        r@ == evicted_by(move_views(moves@), s.tracks@, s.decisions@, moves@.len() as int),
{
    let mut out: Vec<i64> = Vec::new();
    let mut i: usize = 0;
    while i < moves.len()
        invariant
            i <= moves@.len(),
            out@ == evicted_by(move_views(moves@), s.tracks@, s.decisions@, i as int),
        decreases moves@.len() - i,
    {
        if let Some(h) = find_holder(&s.tracks, &moves[i].key) {
            if h != moves[i].track_id && !is_claimed(&s.decisions, h) {
                out.push(h);
            }
        }
        i = i + 1;
    }
    out
}

/// A row that gives up its key is no row that the scan found.
pub proof fn law_evicted_rows_were_not_found(
    moves: Seq<(i64, Seq<char>, Seq<char>)>,
    tracks: Seq<TrackSnap>,
    decisions: Seq<Decision>,
    n: int,
    id: i64,
)
    requires
        0 <= n <= moves.len(),
        evicted_by(moves, tracks, decisions, n).contains(id),
    ensures
        !claimed(decisions, id),
    decreases n,
{
    if n > 0 {
        let r = evicted_by(moves, tracks, decisions, n - 1);
        let all = evicted_by(moves, tracks, decisions, n);
        let k = choose|k: int| 0 <= k < all.len() && all[k] == id;
        if k < r.len() {
            assert(r[k] == id);
            law_evicted_rows_were_not_found(moves, tracks, decisions, n - 1, id);
        }
    }
}

/// A row that someone else changed during the scan, or at whose key a
/// normalisation works, keeps its path.
pub proof fn law_overtaken_rows_do_not_move(
    s: Scanned,
    held: Seq<Option<i64>>,
    overtaken: Seq<i64>,
    n: int,
    k: int,
)
    requires
        s.wf(),
        held.len() == s.entries@.len(),
        0 <= n <= s.entries@.len(),
        0 <= k < moves_of(s, held, overtaken, n).len(),
    ensures
        !overtaken.contains(moves_of(s, held, overtaken, n)[k].0),
    decreases n,
{
    if n > 0 {
        let r = moves_of(s, held, overtaken, n - 1);
        if k < r.len() {
            law_overtaken_rows_do_not_move(s, held, overtaken, n - 1, k);
        }
    }
}

// ---------------------------------------------------------------- rows

/// What came of reading a file.
#[derive(Debug, Clone, Copy, PartialEq, Eq, Structural)]
pub enum ReadState {
    NotRead,
    Read,
    Failed,
}

/// What is written to the row of a file.
#[derive(Debug, Clone, Copy, PartialEq, Eq, Structural)]
pub enum RowAction {
    Nothing,
    /// The row `id` was seen.
    Touch(i64),
    /// The row was seen, and the file stands as this one now.
    Physical(i64),
    /// The same, and the content of the file is taken over.
    Content(i64),
    /// A row is made; from a CD where a signed log stands beside the file.
    Insert(bool),
}

/// What a file means for its row, the counts of the scan and its directory.
#[derive(Debug, Clone, Copy, PartialEq, Eq, Structural)]
pub struct RowEffect {
    pub action: RowAction,
    pub new: bool,
    pub updated: bool,
    pub unchanged: bool,
    pub revived: bool,
    pub error: bool,
    /// Someone made a row for the path after the snapshot.
    pub overtaken: bool,
    /// The row counts as changed.
    pub changed: bool,
    /// The file has a place in the group of its directory.
    pub grouped: bool,
    /// The directory has to be looked at again.
    pub dirty: bool,
}

/// Nothing happens.
pub open spec fn no_effect() -> RowEffect {
    RowEffect {
        action: RowAction::Nothing,
        new: false,
        updated: false,
        unchanged: false,
        revived: false,
        error: false,
        overtaken: false,
        changed: false,
        grouped: false,
        dirty: false,
    }
}

/// What a file of a known track means. `moved`: its row took another path.
pub open spec fn known_effect(
    id: i64,
    via: Via,
    changed: bool,
    revived: bool,
    deep: bool,
    moved: bool,
    dev_differs: bool,
    read: ReadState,
) -> RowEffect {
    if !changed && !deep {
        let dirty = revived || moved || via != Via::Inode;
        RowEffect {
            action: if dev_differs {
                RowAction::Physical(id)
            } else {
                RowAction::Touch(id)
            },
            unchanged: !dirty,
            revived,
            changed: revived && !moved,
            grouped: true,
            dirty,
            ..no_effect()
        }
    } else {
        RowEffect {
            action: if read == ReadState::Read {
                RowAction::Content(id)
            } else {
                RowAction::Physical(id)
            },
            updated: read == ReadState::Read,
            unchanged: read == ReadState::NotRead,
            error: read == ReadState::Failed,
            revived,
            changed: match read {
                ReadState::Read => !moved,
                ReadState::Failed => true,
                ReadState::NotRead => revived && !moved,
            },
            grouped: true,
            dirty: true,
            ..no_effect()
        }
    }
}

/// What a file of no known track means. `holder`: a row that has its key by now.
pub open spec fn new_effect(holder: Option<i64>, read: ReadState, rip_dir: bool) -> RowEffect {
    match holder {
        Some(h) => RowEffect { action: RowAction::Touch(h), overtaken: true, grouped: true, ..no_effect() },
        None => if read == ReadState::Read {
            RowEffect {
                action: RowAction::Insert(rip_dir),
                new: true,
                changed: true,
                grouped: true,
                dirty: true,
                ..no_effect()
            }
        } else {
            RowEffect { error: true, grouped: true, dirty: true, ..no_effect() }
        },
    }
}

/// What is known of a file when its row is written.
#[derive(Debug, Clone, Copy, PartialEq, Eq, Structural)]
pub struct RowFacts {
    pub read: ReadState,
    /// The row that holds the key of the file now.
    pub holder: Option<i64>,
    /// A signed log stands in the directory of the file.
    pub rip_dir: bool,
}

/// What the file `i` means for its row.
pub open spec fn row_effect(
    s: Scanned,
    held: Seq<Option<i64>>,
    overtaken: Seq<i64>,
    moved: Seq<i64>,
    i: int,
    facts: RowFacts,
) -> RowEffect {
    if held[i] is Some {
        RowEffect { action: RowAction::Touch(held[i]->0), ..no_effect() }
    } else {
        match s.decisions@[i].identity {
            Identity::Existing { track_id, via, changed, revived } => if overtaken.contains(track_id) {
                RowEffect { action: RowAction::Touch(track_id), ..no_effect() }
            } else {
                known_effect(
                    track_id,
                    via,
                    changed,
                    revived,
                    s.deep,
                    moved.contains(track_id),
                    s.dev_differs(i),
                    facts.read,
                )
            },
            Identity::New => new_effect(facts.holder, facts.read, facts.rip_dir),
        }
    }
}

fn nothing() -> (r: RowEffect)
    ensures
        r == no_effect(),
{
    RowEffect {
        action: RowAction::Nothing,
        new: false,
        updated: false,
        unchanged: false,
        revived: false,
        error: false,
        overtaken: false,
        changed: false,
        grouped: false,
        dirty: false,
    }
}

/// What the file `i` means for its row, given the tracks whose rows moved.
pub fn decide_row(
    s: &Scanned,
    held: &Vec<Option<i64>>,
    overtaken: &Vec<i64>,
    moved: &Vec<i64>,
    i: usize,
    facts: RowFacts,
) -> (r: RowEffect)
    requires
        s.wf(),
        held@.len() == s.entries@.len(),
        i < s.entries@.len(),
    ensures
        r == row_effect(*s, held@, overtaken@, moved@, i as int, facts),
{
    let mut e = nothing();
    if let Some(id) = held[i] {
        e.action = RowAction::Touch(id);
        return e;
    }
    match s.decisions[i].identity {
        Identity::Existing { track_id, via, changed, revived } => {
            if has_id(overtaken, track_id) {
                e.action = RowAction::Touch(track_id);
                return e;
            }
            let at = row_of(s, i, track_id);
            let dev_differs = s.tracks[at].dev != Some(s.entries[i].ph.dev);
            let is_moved = has_id(moved, track_id);
            e.revived = revived;
            e.grouped = true;
            if !changed && !s.deep {
                let dirty = revived || is_moved || via != Via::Inode;
                e.action = if dev_differs {
                    RowAction::Physical(track_id)
                } else {
                    RowAction::Touch(track_id)
                };
                e.unchanged = !dirty;
                e.changed = revived && !is_moved;
                e.dirty = dirty;
                return e;
            }
            e.dirty = true;
            match facts.read {
                ReadState::Read => {
                    e.action = RowAction::Content(track_id);
                    e.updated = true;
                    e.changed = !is_moved;
                },
                ReadState::Failed => {
                    e.action = RowAction::Physical(track_id);
                    e.error = true;
                    e.changed = true;
                },
                ReadState::NotRead => {
                    e.action = RowAction::Physical(track_id);
                    e.unchanged = true;
                    e.changed = revived && !is_moved;
                },
            }
            e
        },
        Identity::New => {
            e.grouped = true;
            if let Some(h) = facts.holder {
                e.action = RowAction::Touch(h);
                e.overtaken = true;
                return e;
            }
            e.dirty = true;
            if facts.read == ReadState::Read {
                e.action = RowAction::Insert(facts.rip_dir);
                e.new = true;
                e.changed = true;
            } else {
                e.error = true;
            }
            e
        },
    }
}

/// One where the flag is set.
pub open spec fn one_if(b: bool) -> int {
    if b {
        1
    } else {
        0
    }
}

/// Adds what a file means to the report. `id` is its row, where it has one by
/// now.
pub fn count_row(report: &mut ScanReport, e: RowEffect, id: Option<i64>)
    requires
        old(report).new < u64::MAX,
        old(report).updated < u64::MAX,
        old(report).unchanged < u64::MAX,
        old(report).revived < u64::MAX,
        old(report).errors < u64::MAX,
        old(report).overtaken < u64::MAX,
    ensures
        final(report).new == old(report).new + one_if(e.new),
        final(report).updated == old(report).updated + one_if(e.updated),
        final(report).unchanged == old(report).unchanged + one_if(e.unchanged),
        final(report).revived == old(report).revived + one_if(e.revived),
        final(report).errors == old(report).errors + one_if(e.error),
        final(report).overtaken == old(report).overtaken + one_if(e.overtaken),
        final(report).changed_ids@ == (if e.changed && id is Some {
            old(report).changed_ids@.push(id->0)
        } else {
            old(report).changed_ids@
        }),
        final(report).run_id == old(report).run_id,
        final(report).files_seen == old(report).files_seen,
        final(report).moved == old(report).moved,
        final(report).missing_marked == old(report).missing_marked,
        final(report).tmp_removed == old(report).tmp_removed,
        final(report).skipped == old(report).skipped,
        final(report).artwork_resolved == old(report).artwork_resolved,
        final(report).enqueued_jobs == old(report).enqueued_jobs,
        final(report).artwork_error == old(report).artwork_error,
        final(report).categories_registered == old(report).categories_registered,
        final(report).albums_categorized == old(report).albums_categorized,
{
    if e.new {
        report.new = report.new + 1;
    }
    if e.updated {
        report.updated = report.updated + 1;
    }
    if e.unchanged {
        report.unchanged = report.unchanged + 1;
    }
    if e.revived {
        report.revived = report.revived + 1;
    }
    if e.error {
        report.errors = report.errors + 1;
    }
    if e.overtaken {
        report.overtaken = report.overtaken + 1;
    }
    if e.changed {
        if let Some(x) = id {
            report.changed_ids.push(x);
        }
    }
}

/// A file counts once at most among the new, the updated, the unchanged, the
/// unreadable and the overtaken ones, and where its content is written the row
/// counts as updated.
pub proof fn law_row_counts_once(
    s: Scanned,
    held: Seq<Option<i64>>,
    overtaken: Seq<i64>,
    moved: Seq<i64>,
    i: int,
    facts: RowFacts,
)
    requires
        s.wf(),
        held.len() == s.entries@.len(),
        0 <= i < s.entries@.len(),
    ensures
        ({
            let e = row_effect(s, held, overtaken, moved, i, facts);
            &&& one_if(e.new) + one_if(e.updated) + one_if(e.unchanged) + one_if(e.error) + one_if(e.overtaken) <= 1
            &&& e.action is Content <==> e.updated
            &&& e.action is Insert <==> e.new
            &&& e.new || e.updated || e.error ==> e.dirty
        }),
{
}

/// A file at which a normalisation works, and one whose row another job
/// changed, only mark their row as seen.
pub proof fn law_overtaken_rows_are_only_seen(
    s: Scanned,
    held: Seq<Option<i64>>,
    overtaken: Seq<i64>,
    moved: Seq<i64>,
    i: int,
    facts: RowFacts,
)
    requires
        s.wf(),
        held.len() == s.entries@.len(),
        0 <= i < s.entries@.len(),
        held[i] is Some || (s.known(i) && overtaken.contains(s.id(i))),
    ensures
        ({
            let e = row_effect(s, held, overtaken, moved, i, facts);
            e.action is Touch && !e.changed && !e.grouped && !e.dirty
        }),
{
}

// ---------------------------------------------------------------- content

/// What a file that was read changes in its row.
#[derive(Debug, Clone, Copy)]
pub struct ContentUpdate {
    /// The version of the tags that is written with them; none where a tag
    /// operation waits and the row keeps its tags.
    pub tag_version: Option<i64>,
    /// Whether the loudness tags have to be compared with the analysis again.
    pub sync_loudness: bool,
    /// Whether the analysis is dropped and made anew: the sound is another one.
    pub reanalyze: bool,
    pub fingerprint: Fingerprint,
    pub audio_version: i64,
}

/// The tags differ from those the row knows.
pub open spec fn tags_changed(row: TrackSnap, tag_hash: [u8; 32]) -> bool {
    row.tag_hash is Some && row.tag_hash->0 != tag_hash
}

/// What a file that was read changes in its row.
pub fn content_update(row: &TrackSnap, pending: Option<OpKind>, tag_hash: [u8; 32], fp: Fingerprint) -> (r:
    ContentUpdate)
    requires
        row.tag_version < i64::MAX,
        row.audio_version < i64::MAX,
    ensures
        pending == Some(OpKind::Tags) ==> r.tag_version is None && !r.sync_loudness,
        pending != Some(OpKind::Tags) ==> {
            &&& r.tag_version == Some((row.tag_version + one_if(tags_changed(*row, tag_hash))) as i64)
            &&& r.sync_loudness == tags_changed(*row, tag_hash)
        },
        r.reanalyze == sound_changed(fp, row.audio_md5, row.audio_fp),
        r.fingerprint == kept_fingerprint(fp, row.audio_md5, row.audio_fp),
        r.audio_version == row.audio_version + one_if(sound_changed(fp, row.audio_md5, row.audio_fp)),
        pending != Some(OpKind::Tags) ==> (row.tag_hash matches Some(h) ==> {
            &&& h != tag_hash ==> r.tag_version == Some((row.tag_version + 1) as i64) && r.sync_loudness
            &&& h == tag_hash ==> r.tag_version == Some(row.tag_version) && !r.sync_loudness
        }),
        pending != Some(OpKind::Tags) && row.tag_hash is None ==> r.tag_version == Some(row.tag_version)
            && !r.sync_loudness,
        r.reanalyze ==> r.audio_version == row.audio_version + 1,
        !r.reanalyze ==> r.audio_version == row.audio_version,
        fp matches Fingerprint::Md5(Some(n)) ==> (row.audio_md5 matches Some(o) ==> r.reanalyze == (n != o)),
        fp matches Fingerprint::Fp(Some(n)) ==> (row.audio_fp matches Some(o) ==> r.reanalyze == (n != o)),
        fp matches Fingerprint::Md5(Some(n)) ==> r.fingerprint == Fingerprint::Md5(Some(n)),
        fp matches Fingerprint::Fp(Some(n)) ==> r.fingerprint == Fingerprint::Fp(Some(n)),
{
    let changed = match &row.tag_hash {
        Some(h) => !same32(h, &tag_hash),
        None => false,
    };
    let tags_pending = match pending {
        Some(OpKind::Tags) => true,
        _ => false,
    };
    let tag_version = if tags_pending {
        None
    } else if changed {
        Some(row.tag_version + 1)
    } else {
        Some(row.tag_version)
    };
    let reanalyze = audio_changed(fp, row.audio_md5, row.audio_fp);
    let fingerprint = effective_fingerprint(fp, row.audio_md5, row.audio_fp);
    let audio_version: i64 = if reanalyze {
        row.audio_version + 1
    } else {
        row.audio_version
    };
    ContentUpdate { tag_version, sync_loudness: !tags_pending && changed, reanalyze, fingerprint, audio_version }
}

// ---------------------------------------------------------------- after the rows

/// The albums that the changed rows belonged to when the scan began.
pub open spec fn former_albums(changed: Seq<i64>, tracks: Seq<TrackSnap>) -> Seq<i64>
    decreases changed.len(),
{
    if changed.len() == 0 {
        Seq::empty()
    } else {
        let r = former_albums(changed.drop_last(), tracks);
        match row_at(tracks, changed.last()) {
            Some(i) => match tracks[i].album_id {
                Some(a) => r.push(a),
                None => r,
            },
            None => r,
        }
    }
}

/// The albums whose picture has to be found again, in increasing order: those
/// that changed rows belonged to and those they belong to now.
pub fn dirty_albums(changed: &Vec<i64>, s: &Scanned, current: &Vec<i64>) -> (r: Vec<i64>)
    ensures
        sorted_set_of(r@, former_albums(changed@, s.tracks@) + current@),
{
    let mut all: Vec<i64> = Vec::new();
    let mut i: usize = 0;
    while i < changed.len()
        invariant
            i <= changed@.len(),
            all@ == former_albums(changed@.take(i as int), s.tracks@),
        decreases changed@.len() - i,
    {
        proof {
            assert(changed@.take(i + 1).drop_last() =~= changed@.take(i as int));
            assert(changed@.take(i + 1).last() == changed@[i as int]);
            lemma_row_at(s.tracks@, changed@[i as int]);
        }
        if let Some(at) = find_row(&s.tracks, changed[i]) {
            if let Some(a) = s.tracks[at].album_id {
                all.push(a);
            }
        }
        i = i + 1;
    }
    proof {
        assert(changed@.take(i as int) =~= changed@);
    }
    let ghost former = all@;
    let mut j: usize = 0;
    proof {
        assert(former + current@.take(0) =~= former);
    }
    while j < current.len()
        invariant
            j <= current@.len(),
            all@ == former + current@.take(j as int),
        decreases current@.len() - j,
    {
        all.push(current[j]);
        proof {
            assert(all@ =~= former + current@.take(j + 1));
        }
        j = j + 1;
    }
    proof {
        assert(current@.take(j as int) =~= current@);
    }
    sorted_ids(&all)
}

/// Completes the report of a scan: the rows that were moved, that gave up their
/// key and that are missing join the changed ones, each once, in order.
pub fn close_report(report: &mut ScanReport, evicted: &Vec<i64>, moved: &Vec<i64>, missing: &Vec<i64>)
    ensures
        sorted_set_of(final(report).changed_ids@, old(report).changed_ids@ + evicted@ + moved@ + missing@),
        final(report).moved == moved@.len(),
        final(report).missing_marked == missing@.len(),
        final(report).run_id == old(report).run_id,
        final(report).files_seen == old(report).files_seen,
        final(report).new == old(report).new,
        final(report).updated == old(report).updated,
        final(report).unchanged == old(report).unchanged,
        final(report).revived == old(report).revived,
        final(report).errors == old(report).errors,
        final(report).tmp_removed == old(report).tmp_removed,
        final(report).overtaken == old(report).overtaken,
        final(report).skipped == old(report).skipped,
        final(report).artwork_resolved == old(report).artwork_resolved,
        final(report).enqueued_jobs == old(report).enqueued_jobs,
        final(report).artwork_error == old(report).artwork_error,
        final(report).categories_registered == old(report).categories_registered,
        final(report).albums_categorized == old(report).albums_categorized,
{
    let mut all: Vec<i64> = Vec::new();
    extend_ids(&mut all, &report.changed_ids);
    extend_ids(&mut all, evicted);
    extend_ids(&mut all, moved);
    extend_ids(&mut all, missing);
    proof {
        assert(all@ =~= report.changed_ids@ + evicted@ + moved@ + missing@);
    }
    report.changed_ids = sorted_ids(&all);
    report.moved = moved.len() as u64;
    report.missing_marked = missing.len() as u64;
}

/// Adds `more` to the end of `v`.
pub fn extend_ids(v: &mut Vec<i64>, more: &Vec<i64>)
    ensures
        final(v)@ == old(v)@ + more@,
{
    let ghost before = v@;
    let mut i: usize = 0;
    proof {
        assert(before + more@.take(0) =~= before);
    }
    while i < more.len()
        invariant
            i <= more@.len(),
            v@ == before + more@.take(i as int),
        decreases more@.len() - i,
    {
        v.push(more[i]);
        proof {
            assert(v@ =~= before + more@.take(i + 1));
        }
        i = i + 1;
    }
    proof {
        assert(more@.take(i as int) =~= more@);
    }
}

// ---------------------------------------------------------------- laws

proof fn lemma_pending_at(pending: Seq<PendingOp>, id: i64)
    ensures
        match pending_at(pending, id) {
            Some(i) => 0 <= i < pending.len() && pending[i].track_id == id,
            None => forall|i: int| 0 <= i < pending.len() ==> (#[trigger] pending[i]).track_id != id,
        },
    decreases pending.len(),
{
    if pending.len() > 0 && pending.last().track_id != id {
        lemma_pending_at(pending.drop_last(), id);
        assert forall|i: int| 0 <= i < pending.len() - 1 implies #[trigger] pending[i] == pending.drop_last()[i] by {}
    }
}

/// A known file that was read is taken over into its own row and counts as updated, once; one that could
/// not be read leaves the content of its row, and counts as an error. Either way the row holds where the
/// file stands now, and its directory is looked at again.
pub proof fn law_read_files_are_taken_over(
    s: Scanned,
    held: Seq<Option<i64>>,
    overtaken: Seq<i64>,
    moved: Seq<i64>,
    i: int,
    facts: RowFacts,
    id: i64,
)
    requires
        held[i] is None,
        s.decisions@[i].identity is Existing,
        s.decisions@[i].identity->track_id == id,
        s.decisions@[i].identity->changed || s.deep,
        !overtaken.contains(id),
    ensures
        ({
            let e = row_effect(s, held, overtaken, moved, i, facts);
            &&& facts.read == ReadState::Read ==> e.action == RowAction::Content(id) && e.updated && !e.error
                && !e.unchanged && (e.changed <==> !moved.contains(id))
            &&& facts.read == ReadState::Failed ==> e.action == RowAction::Physical(id) && e.error && !e.updated
                && !e.unchanged && e.changed
            &&& facts.read == ReadState::NotRead ==> e.action == RowAction::Physical(id) && !e.error && !e.updated
                && e.unchanged
            &&& e.dirty && e.grouped && !e.new && !e.overtaken
            &&& e.revived == s.decisions@[i].identity->revived
        }),
{
}

/// A known file that stands as its row says is only noted as seen: nothing of its content is written, and
/// where it was neither missing before nor moved, and was found by its inode, it counts as unchanged.
pub proof fn law_quiet_files_are_noted(
    s: Scanned,
    held: Seq<Option<i64>>,
    overtaken: Seq<i64>,
    moved: Seq<i64>,
    i: int,
    facts: RowFacts,
    id: i64,
)
    requires
        held[i] is None,
        s.decisions@[i].identity is Existing,
        s.decisions@[i].identity->track_id == id,
        !s.decisions@[i].identity->changed,
        !s.deep,
        !overtaken.contains(id),
    ensures
        ({
            let e = row_effect(s, held, overtaken, moved, i, facts);
            let d = s.decisions@[i].identity;
            let still = !d->revived && !moved.contains(id) && d->via == Via::Inode;
            &&& s.row(i).dev == Some(s.entries@[i].ph.dev) ==> e.action == RowAction::Touch(id)
            &&& s.row(i).dev != Some(s.entries@[i].ph.dev) ==> e.action == RowAction::Physical(id)
            &&& e.unchanged == still
            &&& e.dirty == !still
            &&& e.changed == (d->revived && !moved.contains(id))
            &&& e.revived == d->revived
            &&& e.grouped && !e.updated && !e.error && !e.new && !e.overtaken
        }),
{
}

/// A file that no row knows becomes a row of its own where it could be read, counts as an error where it
/// could not, and stays with the row that took its place during the scan.
pub proof fn law_new_files_become_rows(
    s: Scanned,
    held: Seq<Option<i64>>,
    overtaken: Seq<i64>,
    moved: Seq<i64>,
    i: int,
    facts: RowFacts,
)
    requires
        held[i] is None,
        s.decisions@[i].identity is New,
    ensures
        ({
            let e = row_effect(s, held, overtaken, moved, i, facts);
            &&& facts.holder is None && facts.read == ReadState::Read ==> e.action == RowAction::Insert(facts.rip_dir)
                && e.new && e.changed && e.dirty && e.grouped && !e.error && !e.overtaken
            &&& facts.holder is None && facts.read != ReadState::Read ==> e.action == RowAction::Nothing && e.error
                && !e.new && !e.changed && e.dirty && e.grouped
            &&& facts.holder matches Some(h) ==> e.action == RowAction::Touch(h) && e.overtaken && !e.new && !e.error
                && !e.changed && !e.dirty && e.grouped
            &&& !e.updated && !e.unchanged && !e.revived
        }),
{
}

/// A file that someone else works on is noted as seen under the row of that work, and counts nowhere.
pub proof fn law_held_files_count_nowhere(
    s: Scanned,
    held: Seq<Option<i64>>,
    overtaken: Seq<i64>,
    moved: Seq<i64>,
    i: int,
    facts: RowFacts,
)
    requires
        held[i] is Some,
    ensures
        ({
            let e = row_effect(s, held, overtaken, moved, i, facts);
            &&& e.action == RowAction::Touch(held[i]->0)
            &&& !e.new && !e.updated && !e.unchanged && !e.revived && !e.error && !e.overtaken
            &&& !e.changed && !e.grouped && !e.dirty
        }),
{
}

/// A known file that was found at another path than its row has takes its row along: the row gets the path
/// and the key of the file. Only a rename that waits for the row, and works at the file's key, keeps it.
pub proof fn law_rows_follow_their_files(s: Scanned, held: Seq<Option<i64>>, overtaken: Seq<i64>, n: int, i: int)
    requires
        s.wf(),
        held.len() == s.entries@.len(),
        0 <= i < n <= s.entries@.len(),
        held[i] is None,
        s.decisions@[i].identity is Existing,
        !overtaken.contains(s.decisions@[i].identity->track_id),
        s.row(i).rel_path@ != s.entries@[i].rel@,
        forall|j: int|
            0 <= j < s.pending@.len() && (#[trigger] s.pending@[j]).track_id == s.decisions@[i].identity->track_id
                ==> s.pending@[j].kind != OpKind::Rename || !rename_keys(s.pending@[j], s.row(i)).contains(
                s.entries@[i].key@,
            ),
    ensures
        moves_of(s, held, overtaken, n).contains(
            (s.decisions@[i].identity->track_id, s.entries@[i].rel@, s.entries@[i].key@),
        ),
    decreases n,
{
    let m = (s.decisions@[i].identity->track_id, s.entries@[i].rel@, s.entries@[i].key@);
    let r = moves_of(s, held, overtaken, n - 1);
    if i < n - 1 {
        law_rows_follow_their_files(s, held, overtaken, n - 1, i);
        let k = choose|k: int| 0 <= k < r.len() && r[k] == m;
        assert(moves_of(s, held, overtaken, n)[k] == m);
    } else {
        lemma_pending_at(s.pending@, s.id(i));
        assert(move_step(s, held, overtaken, i).moves);
        assert(moves_of(s, held, overtaken, n).last() == m);
    }
}

/// No row moves but that of a file that was found elsewhere, and it moves to where the file was found.
pub proof fn law_only_found_files_move(s: Scanned, held: Seq<Option<i64>>, overtaken: Seq<i64>, n: int, k: int) -> (i:
    int)
    requires
        0 <= n,
        0 <= k < moves_of(s, held, overtaken, n).len(),
    ensures
        0 <= i < n,
        s.decisions@[i].identity is Existing,
        held[i] is None,
        s.row(i).rel_path@ != s.entries@[i].rel@,
        moves_of(s, held, overtaken, n)[k] == (
            s.decisions@[i].identity->track_id,
            s.entries@[i].rel@,
            s.entries@[i].key@,
        ),
    decreases n,
{
    let r = moves_of(s, held, overtaken, n - 1);
    if k < r.len() {
        law_only_found_files_move(s, held, overtaken, n - 1, k)
    } else {
        n - 1
    }
}

/// A row that stands where another one moves to, and whose own file was not found, has to give way.
pub proof fn law_rows_in_the_way_are_evicted(
    moves: Seq<(i64, Seq<char>, Seq<char>)>,
    tracks: Seq<TrackSnap>,
    decisions: Seq<Decision>,
    n: int,
    m: int,
    t: int,
)
    requires
        0 <= m < n <= moves.len(),
        0 <= t < tracks.len(),
        tracks[t].rel_path_key@ == moves[m].2,
        forall|u: int| 0 <= u < tracks.len() && u != t ==> (#[trigger] tracks[u]).rel_path_key@ != moves[m].2,
        tracks[t].id != moves[m].0,
        forall|d: int|
            0 <= d < decisions.len() && (#[trigger] decisions[d]).identity is Existing
                ==> decisions[d].identity->track_id != tracks[t].id,
    ensures
        evicted_by(moves, tracks, decisions, n).contains(tracks[t].id),
    decreases n,
{
    let r = evicted_by(moves, tracks, decisions, n - 1);
    if m < n - 1 {
        law_rows_in_the_way_are_evicted(moves, tracks, decisions, n - 1, m, t);
        let k = choose|k: int| 0 <= k < r.len() && r[k] == tracks[t].id;
        assert(evicted_by(moves, tracks, decisions, n)[k] == tracks[t].id);
    } else {
        lemma_holder_is(tracks, moves[m].2, t);
        assert(evicted_by(moves, tracks, decisions, n).last() == tracks[t].id);
    }
}

proof fn lemma_holder_is(tracks: Seq<TrackSnap>, key: Seq<char>, t: int)
    requires
        0 <= t < tracks.len(),
        tracks[t].rel_path_key@ == key,
        forall|u: int| 0 <= u < tracks.len() && u != t ==> (#[trigger] tracks[u]).rel_path_key@ != key,
    ensures
        holder_of(tracks, key) == Some(tracks[t].id),
    decreases tracks.len(),
{
    if t < tracks.len() - 1 {
        assert(tracks.last() == tracks[tracks.len() - 1]);
        let d = tracks.drop_last();
        assert forall|u: int| 0 <= u < d.len() && u != t implies (#[trigger] d[u]).rel_path_key@ != key by {
            assert(d[u] == tracks[u]);
        }
        lemma_holder_is(d, key, t);
    }
}

/// Tags count as changed where the row knows others, and only there: a row that knows none learns them
/// quietly.
pub proof fn law_tags_change_by_their_hash(row: TrackSnap, known: [u8; 32], new: [u8; 32])
    ensures
        row.tag_hash == Some(known) ==> (tags_changed(row, new) <==> known != new),
        row.tag_hash is None ==> !tags_changed(row, new),
{
}

/// Each changed row takes the album that it belonged to along: the album is settled anew.
pub proof fn law_former_albums_are_settled(changed: Seq<i64>, tracks: Seq<TrackSnap>, c: int, t: int)
    requires
        0 <= c < changed.len(),
        0 <= t < tracks.len(),
        tracks[t].id == changed[c],
        forall|u: int| 0 <= u < tracks.len() && u != t ==> (#[trigger] tracks[u]).id != changed[c],
        tracks[t].album_id is Some,
    ensures
        former_albums(changed, tracks).contains(tracks[t].album_id->0),
    decreases changed.len(),
{
    let r = former_albums(changed.drop_last(), tracks);
    let a = tracks[t].album_id->0;
    if c < changed.len() - 1 {
        law_former_albums_are_settled(changed.drop_last(), tracks, c, t);
        let k = choose|k: int| 0 <= k < r.len() && r[k] == a;
        assert(former_albums(changed, tracks)[k] == a);
    } else {
        lemma_row_at(tracks, changed[c]);
        assert(former_albums(changed, tracks).last() == a);
    }
}

/// A file whose row waits for its picture is read again, whatever else was decided of it; nothing else of
/// the decision changes.
pub proof fn law_missing_pictures_are_read(d: Decision, tracks: Seq<TrackSnap>, t: int)
    requires
        0 <= t < tracks.len(),
    ensures
        d.identity is New ==> with_dirty_picture(d, tracks) == d,
        d.identity is Existing && tracks[t].id == d.identity->track_id && tracks[t].artwork_dirty ==> is_read(
            with_dirty_picture(d, tracks),
            false,
        ),
        d.identity is Existing ==> {
            let w = with_dirty_picture(d, tracks);
            &&& w.identity is Existing
            &&& w.hardlink == d.hardlink
            &&& w.identity->track_id == d.identity->track_id
            &&& w.identity->via == d.identity->via
            &&& w.identity->revived == d.identity->revived
            &&& d.identity->changed ==> w.identity->changed
            &&& (forall|u: int| 0 <= u < tracks.len() ==> !(#[trigger] tracks[u]).artwork_dirty) ==> w == d
        },
{
}

/// The moves and conflicts of a scan are those that were planned: each names its track, and the path and the key it
/// gets, or the operation that lost and why.
pub proof fn law_moves_and_conflicts(m: Seq<PathMove>, c: Seq<RenameConflict>, k: Seq<(String, i64)>, i: int)
    ensures
        0 <= i < m.len() ==> move_views(m)[i] == (m[i].track_id, m[i].rel_path@, m[i].key@),
        0 <= i < c.len() ==> conflict_views(c)[i] == (c[i].op_id, c[i].track_id, c[i].reason@),
        0 <= i < k.len() ==> key_views(k)[i] == (k[i].0@, k[i].1),
        move_views(m).len() == m.len() && conflict_views(c).len() == c.len() && key_views(k).len() == k.len(),
{
}

/// A rename that waits, and whose file was found at none of the paths it works at, lost against whoever moved the
/// file: it is reported with the path at which the file was found.
pub proof fn law_lost_renames_are_reported(s: Scanned, held: Seq<Option<i64>>, overtaken: Seq<i64>, n: int, i: int, p: int)
    requires
        s.wf(),
        held.len() == s.entries@.len(),
        0 <= i < n <= s.entries@.len(),
        held[i] is None,
        s.decisions@[i].identity is Existing,
        !overtaken.contains(s.decisions@[i].identity->track_id),
        0 <= p < s.pending@.len(),
        s.pending@[p].track_id == s.decisions@[i].identity->track_id,
        forall|q: int|
            0 <= q < s.pending@.len() && q != p ==> (#[trigger] s.pending@[q]).track_id
                != s.decisions@[i].identity->track_id,
        s.pending@[p].kind == OpKind::Rename,
        !rename_keys(s.pending@[p], s.row(i)).contains(s.entries@[i].key@),
    ensures
        conflicts_of(s, held, overtaken, n).contains(
            (
                s.pending@[p].op_id,
                s.decisions@[i].identity->track_id,
                "外部で "@ + s.entries@[i].rel@ + " へ移動されていた"@,
            ),
        ),
    decreases n,
{
    let r = conflicts_of(s, held, overtaken, n - 1);
    let m = (
        s.pending@[p].op_id,
        s.decisions@[i].identity->track_id,
        "外部で "@ + s.entries@[i].rel@ + " へ移動されていた"@,
    );
    if i < n - 1 {
        law_lost_renames_are_reported(s, held, overtaken, n - 1, i, p);
        let k = choose|k: int| 0 <= k < r.len() && r[k] == m;
        assert(conflicts_of(s, held, overtaken, n)[k] == m);
    } else {
        lemma_pending_at(s.pending@, s.id(i));
        assert(conflicts_of(s, held, overtaken, n).last() == m);
    }
}

/// A row is checked before it is written where its file is read, or was found at another path or on another device.
pub proof fn law_rows_are_checked(s: Scanned, held: Seq<Option<i64>>, n: int, i: usize)
    requires
        0 <= i < n <= usize::MAX,
        held[i as int] is None,
        s.decisions@[i as int].identity is Existing,
        s.decisions@[i as int].identity->changed || s.deep || s.row(i as int).rel_path@ != s.entries@[i as int].rel@
            || s.row(i as int).dev != Some(s.entries@[i as int].ph.dev),
    ensures
        checks_of(s, held, n).contains(i),
    decreases n,
{
    let r = checks_of(s, held, n - 1);
    if i < n - 1 {
        law_rows_are_checked(s, held, n - 1, i);
        let k = choose|k: int| 0 <= k < r.len() && r[k] == i;
        assert(checks_of(s, held, n)[k] == i);
    } else {
        assert(checks_of(s, held, n).last() == i);
    }
}

/// A file at a path at which a normalisation works is left to it.
pub proof fn law_normalised_files_are_left(progress: Seq<(Seq<char>, i64)>, key: Seq<char>, i: int)
    ensures
        0 <= i < progress.len() && progress[i].0 == key && (forall|j: int|
            i < j < progress.len() ==> (#[trigger] progress[j]).0 != key) ==> worker_at(progress, key) == Some(
            progress[i].1,
        ),
        (forall|j: int| 0 <= j < progress.len() ==> (#[trigger] progress[j]).0 != key) ==> worker_at(progress, key) is None,
    decreases progress.len(),
{
    if progress.len() > 0 {
        let d = progress.drop_last();
        assert(progress.last() == progress[progress.len() - 1]);
        law_normalised_files_are_left(d, key, i);
        assert forall|j: int| 0 <= j < d.len() implies #[trigger] d[j] == progress[j] by {}
    }
}

/// Each path at which a normalisation works stands for its track.
pub proof fn law_work_in_progress(ops: Seq<PendingOp>, i: int)
    requires
        0 <= i < ops.len(),
        ops[i].kind == OpKind::Archive,
        ops[i].expected_rel_path is Some,
        ops[i].target_rel_path is Some,
    ensures
        progress_of(ops).contains((canonical(ops[i].expected_rel_path->0@), ops[i].track_id)),
        progress_of(ops).contains((canonical(ops[i].target_rel_path->0@), ops[i].track_id)),
    decreases ops.len(),
{
    let d = ops.drop_last();
    let r = progress_of(d);
    let all = progress_of(ops);
    let a = (canonical(ops[i].expected_rel_path->0@), ops[i].track_id);
    let b = (canonical(ops[i].target_rel_path->0@), ops[i].track_id);
    if i < d.len() {
        assert(d[i] == ops[i]);
        law_work_in_progress(d, i);
        let x = choose|k: int| 0 <= k < r.len() && r[k] == a;
        let y = choose|k: int| 0 <= k < r.len() && r[k] == b;
        assert(all[x] == a);
        assert(all[y] == b);
    } else {
        assert(all[r.len() as int] == a);
        assert(all[r.len() as int + 1] == b);
    }
}

} // verus!
