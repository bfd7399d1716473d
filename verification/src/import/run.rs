//! A whole scan: which phase follows which, and what all its files together do
//! to the catalogue.

use crate::catalog::{PictureState, TrackContent};
use crate::import::albums::{
    group_after, group_index, groups_wf, join_group, lemma_group_index, lemma_group_keys_distinct, with_id,
    DirGroup,
};
use crate::import::commit::{
    checks_of, close_report, conflict_views, conflicts_of, count_row, decide_row, dirty_albums, evicted_by,
    evictions, extend_ids, find_row, former_albums, held_entries, law_row_counts_once, lemma_row_at, move_views,
    moves_of, one_if, plan_moves, progress_of, row_effect, rows_to_check, work_in_progress, worker_at, Identity,
    PathMove, RenameConflict, RowEffect, RowFacts, Scanned, Via,
};
use crate::import::scanner::{RunState, ScanError, ScanReport, Skipped};
use crate::lists::{sorted_ids, sorted_set_of};
use crate::text::opt_text;
use vstd::prelude::*;
use vstd::string::*;

verus! {

// ---------------------------------------------------------------- phases

/// The phases of a scan.
#[derive(Debug, Clone, Copy, PartialEq, Eq, Structural)]
pub enum ScanStage {
    /// List what is on disk.
    Walk,
    /// Read what the catalogue holds.
    Snapshot,
    /// Compute the digests that telling files apart asks for.
    Digests,
    /// Tell which file is which row.
    Resolve,
    /// Read what is new or changed.
    Read,
    /// Write what was found, all at once.
    Commit,
    /// Find the pictures of the albums that were reserved.
    Artwork,
}

/// What follows a phase.
#[derive(Debug)]
pub enum ScanNext {
    Go(ScanStage),
    Done,
    Stop(ScanError),
}

/// A cancellation is looked for at the end of the phase. Computing digests tells of
/// one as its fault, and only where there are digests to compute.
pub open spec fn looks_for_cancel(stage: ScanStage) -> bool {
    stage == ScanStage::Walk || stage == ScanStage::Resolve || stage == ScanStage::Read
}

/// The phase after a phase; none at the end. Pictures are looked for only where
/// there is a store for them.
pub open spec fn stage_after(stage: ScanStage, store: bool) -> Option<ScanStage> {
    match stage {
        ScanStage::Walk => Some(ScanStage::Snapshot),
        ScanStage::Snapshot => Some(ScanStage::Digests),
        ScanStage::Digests => Some(ScanStage::Resolve),
        ScanStage::Resolve => Some(ScanStage::Read),
        ScanStage::Read => Some(ScanStage::Commit),
        ScanStage::Commit => if store {
            Some(ScanStage::Artwork)
        } else {
            None
        },
        ScanStage::Artwork => None,
    }
}

/// What follows a phase that ended with `fault`, or well where there is none.
pub open spec fn after_phase(stage: ScanStage, fault: Option<ScanError>, cancelled: bool, store: bool) -> ScanNext {
    if stage == ScanStage::Artwork {
        ScanNext::Done
    } else if fault is Some {
        ScanNext::Stop(fault->0)
    } else if looks_for_cancel(stage) && cancelled {
        ScanNext::Stop(ScanError::Cancelled)
    } else {
        match stage_after(stage, store) {
            Some(next) => ScanNext::Go(next),
            None => ScanNext::Done,
        }
    }
}

/// What follows a phase of a scan. A fault before the catalogue is written stops
/// the scan; what happens while pictures are looked for no longer does.
pub fn run_stage(stage: ScanStage, fault: Option<ScanError>, cancelled: bool, store: bool) -> (r: ScanNext)
    ensures
        r == after_phase(stage, fault, cancelled, store),
{
    if stage == ScanStage::Artwork {
        return ScanNext::Done;
    }
    if let Some(e) = fault {
        return ScanNext::Stop(e);
    }
    let looks = stage == ScanStage::Walk || stage == ScanStage::Resolve || stage == ScanStage::Read;
    if looks && cancelled {
        return ScanNext::Stop(ScanError::Cancelled);
    }
    match stage {
        ScanStage::Walk => ScanNext::Go(ScanStage::Snapshot),
        ScanStage::Snapshot => ScanNext::Go(ScanStage::Digests),
        ScanStage::Digests => ScanNext::Go(ScanStage::Resolve),
        ScanStage::Resolve => ScanNext::Go(ScanStage::Read),
        ScanStage::Read => ScanNext::Go(ScanStage::Commit),
        ScanStage::Commit => {
            if store {
                ScanNext::Go(ScanStage::Artwork)
            } else {
                ScanNext::Done
            }
        },
        ScanStage::Artwork => ScanNext::Done,
    }
}

/// A scan that wrote to the catalogue is not stopped any more, and one that was
/// cancelled while it read does not get to write.
pub proof fn law_commit_is_final(stage: ScanStage, fault: Option<ScanError>, cancelled: bool, store: bool)
    ensures
        stage == ScanStage::Commit && fault is None ==> after_phase(stage, fault, cancelled, store) !is Stop,
        stage == ScanStage::Artwork ==> after_phase(stage, fault, cancelled, store) is Done,
        after_phase(stage, fault, cancelled, store) == ScanNext::Go(ScanStage::Commit) ==> stage == ScanStage::Read
            && fault is None && !cancelled,
        after_phase(stage, fault, cancelled, store) is Done ==> stage == ScanStage::Commit || stage
            == ScanStage::Artwork,
{
}

// ---------------------------------------------------------------- before the rows

/// What a commit looks at before it writes.
#[derive(Debug)]
pub struct Opened {
    /// For each file, the track whose normalisation works at its key.
    pub held: Vec<Option<i64>>,
    /// The positions of the files whose rows have to be compared with the snapshot.
    pub checks: Vec<usize>,
}

/// For each file, the track whose normalisation works at its key.
pub open spec fn held_of(s: Scanned) -> Seq<Option<i64>> {
    Seq::new(s.entries@.len(), |i: int| worker_at(progress_of(s.pending@), s.entries@[i].key@))
}

/// The first look: which files are left alone, and which rows have to be
/// compared with the snapshot.
pub fn open_commit(s: &Scanned) -> (r: Opened)
    requires
        s.wf(),
    ensures
        r.held@ == held_of(*s),
        r.checks@ == checks_of(*s, r.held@, s.entries@.len() as int),
{
    let progress = work_in_progress(&s.pending);
    let held = held_entries(&s.entries, &progress);
    proof {
        assert(held@ =~= held_of(*s));
    }
    let checks = rows_to_check(s, &held);
    Opened { held, checks }
}

/// The tracks of the files at `checks` whose rows are no longer as they were in
/// the snapshot.
pub open spec fn stale_ids(s: Scanned, checks: Seq<usize>, stale: Seq<bool>) -> Seq<i64>
    decreases checks.len(),
{
    if checks.len() == 0 || stale.len() == 0 {
        Seq::empty()
    } else {
        let r = stale_ids(s, checks.drop_last(), stale.drop_last());
        if stale.last() {
            r.push(s.id(checks.last() as int))
        } else {
            r
        }
    }
}

/// The tracks that another job changed after the snapshot, each once, in order:
/// `stale` says of each row that was compared whether it is another one now.
pub fn overtaken_rows(s: &Scanned, checks: &Vec<usize>, stale: &Vec<bool>) -> (r: Vec<i64>)
    requires
        checks@.len() == stale@.len(),
        forall|k: int| 0 <= k < checks@.len() ==> (#[trigger] checks@[k]) < s.decisions@.len() && s.known(checks@[k] as int),
    ensures
        sorted_set_of(r@, stale_ids(*s, checks@, stale@)),
{
    let mut ids: Vec<i64> = Vec::new();
    let mut i: usize = 0;
    while i < checks.len()
        invariant
            i <= checks@.len(),
            checks@.len() == stale@.len(),
            forall|k: int|
                0 <= k < checks@.len() ==> (#[trigger] checks@[k]) < s.decisions@.len() && s.known(checks@[k] as int),
            ids@ == stale_ids(*s, checks@.take(i as int), stale@.take(i as int)),
        decreases checks@.len() - i,
    {
        proof {
            assert(checks@.take(i + 1).drop_last() =~= checks@.take(i as int));
            assert(stale@.take(i + 1).drop_last() =~= stale@.take(i as int));
            assert(checks@.take(i + 1).last() == checks@[i as int]);
            assert(stale@.take(i + 1).last() == stale@[i as int]);
        }
        let at = checks[i];
        if stale[i] {
            if let Identity::Existing { track_id, .. } = s.decisions[at].identity {
                ids.push(track_id);
            }
        }
        i = i + 1;
    }
    proof {
        assert(checks@.take(i as int) =~= checks@);
        assert(stale@.take(i as int) =~= stale@);
    }
    sorted_ids(&ids)
}

// ---------------------------------------------------------------- the paths

/// What a commit does to the paths of its rows.
#[derive(Debug)]
pub struct Paths {
    pub moves: Vec<PathMove>,
    pub conflicts: Vec<RenameConflict>,
    /// The rows that give up their key.
    pub evicted: Vec<i64>,
    /// The rows that moved.
    pub moved: Vec<i64>,
}

/// The tracks of moves.
pub open spec fn moved_ids(moves: Seq<(i64, Seq<char>, Seq<char>)>) -> Seq<i64> {
    moves.map_values(|m: (i64, Seq<char>, Seq<char>)| m.0)
}

/// What a commit does to the paths of its rows: all of it before any row is
/// written otherwise.
pub fn commit_paths(s: &Scanned, held: &Vec<Option<i64>>, overtaken: &Vec<i64>) -> (r: Paths)
    requires
        s.wf(),
        held@.len() == s.entries@.len(),
    ensures
        ({
            let moves = moves_of(*s, held@, overtaken@, s.entries@.len() as int);
            &&& move_views(r.moves@) == moves
            &&& conflict_views(r.conflicts@) == conflicts_of(*s, held@, overtaken@, s.entries@.len() as int)
            &&& r.evicted@ == evicted_by(moves, s.tracks@, s.decisions@, moves.len() as int)
            &&& r.moved@ == moved_ids(moves)
        }),
{
    let (moves, conflicts) = plan_moves(s, held, overtaken);
    let evicted = evictions(&moves, s);
    let mut moved: Vec<i64> = Vec::new();
    let mut i: usize = 0;
    while i < moves.len()
        invariant
            i <= moves@.len(),
            moved@ == moved_ids(move_views(moves@)).take(i as int),
        decreases moves@.len() - i,
    {
        moved.push(moves[i].track_id);
        i = i + 1;
        proof {
            assert(moved@ =~= moved_ids(move_views(moves@)).take(i as int));
        }
    }
    proof {
        assert(moved_ids(move_views(moves@)).take(i as int) =~= moved_ids(move_views(moves@)));
    }
    Paths { moves, conflicts, evicted, moved }
}

// ---------------------------------------------------------------- the rows

/// What the first `n` files mean for their rows.
pub open spec fn effects_of(
    s: Scanned,
    held: Seq<Option<i64>>,
    overtaken: Seq<i64>,
    moved: Seq<i64>,
    facts: Seq<RowFacts>,
) -> Seq<RowEffect> {
    Seq::new(s.entries@.len(), |i: int| row_effect(s, held, overtaken, moved, i, facts[i]))
}

/// What each file means for its row.
pub fn commit_rows(
    s: &Scanned,
    held: &Vec<Option<i64>>,
    overtaken: &Vec<i64>,
    moved: &Vec<i64>,
    facts: &Vec<RowFacts>,
) -> (r: Vec<RowEffect>)
    requires
        s.wf(),
        held@.len() == s.entries@.len(),
        facts@.len() == s.entries@.len(),
    ensures
        r@ == effects_of(*s, held@, overtaken@, moved@, facts@),
{
    let mut out: Vec<RowEffect> = Vec::new();
    let mut i: usize = 0;
    while i < s.entries.len()
        invariant
            s.wf(),
            held@.len() == s.entries@.len(),
            facts@.len() == s.entries@.len(),
            i <= s.entries@.len(),
            out@ == effects_of(*s, held@, overtaken@, moved@, facts@).take(i as int),
        decreases s.entries@.len() - i,
    {
        let e = decide_row(s, held, overtaken, moved, i, facts[i]);
        out.push(e);
        i = i + 1;
        proof {
            assert(out@ =~= effects_of(*s, held@, overtaken@, moved@, facts@).take(i as int));
        }
    }
    proof {
        assert(effects_of(*s, held@, overtaken@, moved@, facts@).take(i as int) =~= effects_of(
            *s,
            held@,
            overtaken@,
            moved@,
            facts@,
        ));
    }
    out
}

/// What a file is counted among.
pub enum Tally {
    New,
    Updated,
    Unchanged,
    Revived,
    Errors,
    Overtaken,
}

/// The file is counted among those of the sort `t`.
pub open spec fn counts(e: RowEffect, t: Tally) -> bool {
    match t {
        Tally::New => e.new,
        Tally::Updated => e.updated,
        Tally::Unchanged => e.unchanged,
        Tally::Revived => e.revived,
        Tally::Errors => e.error,
        Tally::Overtaken => e.overtaken,
    }
}

/// How many of the first `n` files are counted among those of the sort `t`.
pub open spec fn total(effects: Seq<RowEffect>, t: Tally, n: int) -> int
    decreases n,
{
    if n <= 0 {
        0
    } else {
        total(effects, t, n - 1) + one_if(counts(effects[n - 1], t))
    }
}

/// No more files are counted than there are.
pub proof fn lemma_total(effects: Seq<RowEffect>, t: Tally, n: int)
    ensures
        0 <= total(effects, t, n),
        0 <= n ==> total(effects, t, n) <= n,
    decreases n,
{
    if n > 0 {
        lemma_total(effects, t, n - 1);
    }
}

/// The row of the file `i`: its own where it belongs to a known track, the one
/// that was made for it where it is new.
pub open spec fn row_id(s: Scanned, inserted: Seq<Option<i64>>, i: int) -> Option<i64> {
    match s.decisions@[i].identity {
        Identity::Existing { track_id, .. } => Some(track_id),
        Identity::New => inserted[i],
    }
}

/// The rows that count as changed by the first `n` files, after `first`.
pub open spec fn changed_by(
    s: Scanned,
    effects: Seq<RowEffect>,
    inserted: Seq<Option<i64>>,
    first: Seq<i64>,
    n: int,
) -> Seq<i64>
    decreases n,
{
    if n <= 0 {
        first
    } else {
        let r = changed_by(s, effects, inserted, first, n - 1);
        if effects[n - 1].changed && row_id(s, inserted, n - 1) is Some {
            r.push(row_id(s, inserted, n - 1)->0)
        } else {
            r
        }
    }
}

/// The track that the file `i` brings to its directory: that of its row, or the
/// one that was made for it.
pub open spec fn joins_as(s: Scanned, effects: Seq<RowEffect>, inserted: Seq<Option<i64>>, i: int) -> Option<i64> {
    match s.decisions@[i].identity {
        Identity::Existing { track_id, .. } => Some(track_id),
        Identity::New => if effects[i].new {
            inserted[i]
        } else {
            None
        },
    }
}

/// The album that the track of the file `i` belonged to.
pub open spec fn came_from(s: Scanned, i: int) -> Option<i64> {
    if s.known(i) {
        s.row(i).album_id
    } else {
        None
    }
}

/// What the first `n` files make of the directory with the key `k`: its name,
/// its tracks, the albums they belonged to, and whether something changed.
pub open spec fn dir_of(
    s: Scanned,
    effects: Seq<RowEffect>,
    inserted: Seq<Option<i64>>,
    k: Seq<char>,
    n: int,
) -> Option<(Option<Seq<char>>, Seq<i64>, Seq<i64>, bool)>
    decreases n,
{
    if n <= 0 {
        None
    } else {
        let r = dir_of(s, effects, inserted, k, n - 1);
        let e = s.entries@[n - 1];
        if effects[n - 1].grouped && e.dir_key@ == k {
            let (dir, tracks, albums, dirty) = match r {
                Some(d) => d,
                None => (opt_text(e.dir), Seq::empty(), Seq::empty(), false),
            };
            Some(
                (
                    dir,
                    with_id(tracks, joins_as(s, effects, inserted, n - 1)),
                    with_id(albums, came_from(s, n - 1)),
                    dirty || effects[n - 1].dirty,
                ),
            )
        } else {
            r
        }
    }
}

/// What the groups say of the directory with the key `k`.
pub open spec fn dir_in(groups: Seq<DirGroup>, k: Seq<char>) -> Option<
    (Option<Seq<char>>, Seq<i64>, Seq<i64>, bool),
> {
    match group_index(groups, k) {
        Some(i) => Some(
            (opt_text(groups[i].dir), groups[i].track_ids@, groups[i].previous_albums@, groups[i].dirty),
        ),
        None => None,
    }
}

/// Another group stays as it is when a file joins one.
proof fn lemma_join(
    before: Seq<DirGroup>,
    after: Seq<DirGroup>,
    at: int,
    e: crate::import::walk::InvEntry,
    track: Option<i64>,
    album: Option<i64>,
    dirty: bool,
    k: Seq<char>,
)
    requires
        groups_wf(before),
        groups_wf(after),
        0 <= at < after.len(),
        match group_index(before, e.dir_key@) {
            Some(i) => {
                &&& at == i
                &&& after == before.update(i, after[i])
                &&& group_after(after[i], Some(before[i]), e, track, album, dirty)
            },
            None => {
                &&& after == before.insert(at, after[at])
                &&& group_after(after[at], None, e, track, album, dirty)
                &&& at <= before.len()
            },
        },
    ensures
        dir_in(after, k) == (if k == e.dir_key@ {
            let (dir, tracks, albums, was) = match dir_in(before, k) {
                Some(d) => d,
                None => (opt_text(e.dir), Seq::empty(), Seq::empty(), false),
            };
            Some((dir, with_id(tracks, track), with_id(albums, album), was || dirty))
        } else {
            dir_in(before, k)
        }),
{
    lemma_group_index(before, e.dir_key@);
    lemma_group_index(before, k);
    lemma_group_index(after, k);
    let found = group_index(before, e.dir_key@);
    if k == e.dir_key@ {
        assert(after[at].dir_key@ == k);
        let j = group_index(after, k)->0;
        lemma_group_keys_distinct(after, at, j);
    } else if found is Some {
        let i = found->0;
        match group_index(before, k) {
            Some(b) => {
                assert(b != i);
                assert(after[b] == before[b]);
                lemma_group_keys_distinct(after, b, group_index(after, k)->0);
            },
            None => {
                if group_index(after, k) is Some {
                    let j = group_index(after, k)->0;
                    if j != i {
                        assert(after[j] == before[j]);
                    }
                }
            },
        }
    } else {
        match group_index(before, k) {
            Some(b) => {
                let b2 = if b < at {
                    b
                } else {
                    b + 1
                };
                assert(after[b2] == before[b]);
                lemma_group_keys_distinct(after, b2, group_index(after, k)->0);
            },
            None => {
                if group_index(after, k) is Some {
                    let j = group_index(after, k)->0;
                    if j < at {
                        assert(after[j] == before[j]);
                    } else if j > at {
                        assert(after[j] == before[j - 1]);
                    }
                }
            },
        }
    }
}

/// What all the rows of a scan come to.
#[derive(Debug)]
pub struct Tallied {
    pub report: ScanReport,
    pub groups: Vec<DirGroup>,
}

/// The tracks of lost renames.
pub open spec fn conflict_ids(c: Seq<RenameConflict>) -> Seq<i64> {
    c.map_values(|x: RenameConflict| x.track_id)
}

/// `report` says what the first `n` files come to.
pub open spec fn tallied(
    report: ScanReport,
    s: Scanned,
    effects: Seq<RowEffect>,
    inserted: Seq<Option<i64>>,
    conflicts: Seq<RenameConflict>,
    overtaken: Seq<i64>,
    n: int,
) -> bool {
    &&& report.new == total(effects, Tally::New, n)
    &&& report.updated == total(effects, Tally::Updated, n)
    &&& report.unchanged == total(effects, Tally::Unchanged, n)
    &&& report.revived == total(effects, Tally::Revived, n)
    &&& report.errors == total(effects, Tally::Errors, n)
    &&& report.overtaken == overtaken.len() + total(effects, Tally::Overtaken, n)
    &&& report.changed_ids@ == changed_by(s, effects, inserted, conflict_ids(conflicts), n)
}

/// What all the rows of a scan come to: the counts of the report, the rows that
/// changed, and the directories with their tracks. `inserted` holds the row that
/// was made for each new file.
pub fn tally_rows(
    s: &Scanned,
    effects: &Vec<RowEffect>,
    inserted: &Vec<Option<i64>>,
    conflicts: &Vec<RenameConflict>,
    overtaken: &Vec<i64>,
    run_id: i64,
    tmp_removed: u64,
    skipped: Vec<Skipped>,
) -> (r: Tallied)
    requires
        s.wf(),
        effects@.len() == s.entries@.len(),
        inserted@.len() == s.entries@.len(),
        overtaken@.len() + s.entries@.len() <= u64::MAX,
    ensures
        tallied(r.report, *s, effects@, inserted@, conflicts@, overtaken@, s.entries@.len() as int),
        r.report.run_id == run_id,
        r.report.tmp_removed == tmp_removed,
        r.report.skipped == skipped,
        r.report.files_seen == s.entries@.len(),
        r.report.moved == 0,
        r.report.missing_marked == 0,
        r.report.artwork_resolved == 0,
        r.report.enqueued_jobs@.len() == 0,
        r.report.artwork_error is None,
        r.report.categories_registered == 0,
        r.report.albums_categorized == 0,
        groups_wf(r.groups@),
        forall|k: Seq<char>| #[trigger]
            dir_in(r.groups@, k) == dir_of(*s, effects@, inserted@, k, s.entries@.len() as int),
{
    let mut changed_ids: Vec<i64> = Vec::new();
    let mut c: usize = 0;
    while c < conflicts.len()
        invariant
            c <= conflicts@.len(),
            changed_ids@ == conflict_ids(conflicts@).take(c as int),
        decreases conflicts@.len() - c,
    {
        changed_ids.push(conflicts[c].track_id);
        c = c + 1;
        proof {
            assert(changed_ids@ =~= conflict_ids(conflicts@).take(c as int));
        }
    }
    proof {
        assert(conflict_ids(conflicts@).take(c as int) =~= conflict_ids(conflicts@));
    }
    let mut report = ScanReport {
        run_id,
        files_seen: s.entries.len() as u64,
        new: 0,
        updated: 0,
        unchanged: 0,
        moved: 0,
        revived: 0,
        missing_marked: 0,
        errors: 0,
        tmp_removed,
        overtaken: overtaken.len() as u64,
        skipped,
        changed_ids,
        artwork_resolved: 0,
        enqueued_jobs: Vec::new(),
        artwork_error: None,
        categories_registered: 0,
        albums_categorized: 0,
    };
    let mut groups: Vec<DirGroup> = Vec::new();
    let mut i: usize = 0;
    while i < s.entries.len()
        invariant
            s.wf(),
            effects@.len() == s.entries@.len(),
            inserted@.len() == s.entries@.len(),
            overtaken@.len() + s.entries@.len() <= u64::MAX,
            i <= s.entries@.len(),
            tallied(report, *s, effects@, inserted@, conflicts@, overtaken@, i as int),
            report.run_id == run_id,
            report.tmp_removed == tmp_removed,
            report.skipped == skipped,
            report.files_seen == s.entries@.len(),
            report.moved == 0,
            report.missing_marked == 0,
            report.artwork_resolved == 0,
            report.enqueued_jobs@.len() == 0,
            report.artwork_error is None,
            report.categories_registered == 0,
            report.albums_categorized == 0,
            groups_wf(groups@),
            forall|k: Seq<char>| #[trigger] dir_in(groups@, k) == dir_of(*s, effects@, inserted@, k, i as int),
        decreases s.entries@.len() - i,
    {
        let e = effects[i];
        proof {
            lemma_total(effects@, Tally::New, i as int);
            lemma_total(effects@, Tally::Updated, i as int);
            lemma_total(effects@, Tally::Unchanged, i as int);
            lemma_total(effects@, Tally::Revived, i as int);
            lemma_total(effects@, Tally::Errors, i as int);
            lemma_total(effects@, Tally::Overtaken, i as int);
        }
        let mut id: Option<i64> = inserted[i];
        let mut track: Option<i64> = if e.new {
            inserted[i]
        } else {
            None
        };
        let mut album: Option<i64> = None;
        if let Identity::Existing { track_id, .. } = s.decisions[i].identity {
            id = Some(track_id);
            track = id;
            proof {
                assert(s.known(i as int));
                lemma_row_at(s.tracks@, track_id);
            }
            if let Some(at) = find_row(&s.tracks, track_id) {
                album = s.tracks[at].album_id;
            }
        }
        count_row(&mut report, e, id);
        let ghost before = groups@;
        if e.grouped {
            let at = join_group(&mut groups, &s.entries[i], track, album, e.dirty);
            proof {
                lemma_group_index(before, s.entries@[i as int].dir_key@);
                assert forall|k: Seq<char>| #[trigger]
                    dir_in(groups@, k) == dir_of(*s, effects@, inserted@, k, i + 1) by {
                    lemma_join(before, groups@, at as int, s.entries@[i as int], track, album, e.dirty, k);
                    assert(dir_in(before, k) == dir_of(*s, effects@, inserted@, k, i as int));
                }
            }
        } else {
            proof {
                assert forall|k: Seq<char>| #[trigger]
                    dir_in(groups@, k) == dir_of(*s, effects@, inserted@, k, i + 1) by {
                    assert(dir_in(before, k) == dir_of(*s, effects@, inserted@, k, i as int));
                }
            }
        }
        i = i + 1;
    }
    Tallied { report, groups }
}

// ---------------------------------------------------------------- after the rows

/// At `k` the first digest is the smaller one, and before `k` they are the same.
pub open spec fn less_at(a: [u8; 32], b: [u8; 32], k: int) -> bool {
    0 <= k < 32 && a@[k] < b@[k] && forall|j: int| 0 <= j < k ==> #[trigger] a@[j] == b@[j]
}

/// Digests are ordered by their first byte that differs.
pub open spec fn digest_less(a: [u8; 32], b: [u8; 32]) -> bool {
    exists|k: int| #[trigger] less_at(a, b, k)
}

proof fn lemma_digest_transitive(a: [u8; 32], b: [u8; 32], c: [u8; 32])
    requires
        digest_less(a, b),
        digest_less(b, c),
    ensures
        digest_less(a, c),
{
    let i = choose|k: int| #[trigger] less_at(a, b, k);
    let j = choose|k: int| #[trigger] less_at(b, c, k);
    let m = if i < j {
        i
    } else {
        j
    };
    assert forall|x: int| 0 <= x < m implies #[trigger] a@[x] == c@[x] by {
        assert(a@[x] == b@[x]);
        assert(b@[x] == c@[x]);
    }
    if i < j {
        assert(b@[i] == c@[i]);
    } else if j < i {
        assert(a@[j] == b@[j]);
    }
    assert(less_at(a, c, m));
}

/// Whether `a` comes before `b`: `Some(true)` where it does, none where they are
/// the same.
fn digest_order(a: &[u8; 32], b: &[u8; 32]) -> (r: Option<bool>)
    ensures
        match r {
            Some(true) => digest_less(*a, *b),
            Some(false) => digest_less(*b, *a),
            None => *a == *b,
        },
{
    let mut i: usize = 0;
    while i < 32
        invariant
            i <= 32,
            forall|j: int| 0 <= j < i ==> #[trigger] a@[j] == b@[j],
        decreases 32 - i,
    {
        if a[i] < b[i] {
            proof {
                assert(less_at(*a, *b, i as int));
            }
            return Some(true);
        }
        if b[i] < a[i] {
            proof {
                assert(less_at(*b, *a, i as int));
            }
            return Some(false);
        }
        i = i + 1;
    }
    proof {
        assert(a@ =~= b@);
    }
    None
}

/// The digests go upwards.
pub open spec fn digests_ascend(v: Seq<[u8; 32]>) -> bool {
    forall|i: int, j: int| 0 <= i < j < v.len() ==> #[trigger] digest_less(v[i], v[j])
}

/// Puts a digest where it belongs, unless it is there.
fn insert_digest(v: &mut Vec<[u8; 32]>, x: [u8; 32])
    requires
        digests_ascend(old(v)@),
    ensures
        digests_ascend(final(v)@),
        forall|d: [u8; 32]| #[trigger] final(v)@.contains(d) <==> (old(v)@.contains(d) || d == x),
{
    let ghost before = v@;
    let mut i: usize = 0;
    while i < v.len()
        invariant
            v@ == before,
            before == old(v)@,
            digests_ascend(before),
            i <= v@.len(),
            forall|k: int| 0 <= k < i ==> digest_less(#[trigger] before[k], x),
        decreases v@.len() - i,
    {
        match digest_order(&v[i], &x) {
            Some(true) => {},
            None => {
                proof {
                    assert(before[i as int] == x);
                }
                return;
            },
            Some(false) => {
                proof {
                    assert forall|k: int| i <= k < before.len() implies digest_less(x, #[trigger] before[k]) by {
                        if k > i {
                            assert(digest_less(before[i as int], before[k]));
                            lemma_digest_transitive(x, before[i as int], before[k]);
                        }
                    }
                }
                v.insert(i, x);
                proof {
                    lemma_inserted(before, v@, i as int, x);
                }
                return;
            },
        }
        i = i + 1;
    }
    v.push(x);
    proof {
        assert(v@ =~= before.insert(before.len() as int, x));
        lemma_inserted(before, v@, before.len() as int, x);
    }
}

proof fn lemma_inserted(before: Seq<[u8; 32]>, after: Seq<[u8; 32]>, at: int, x: [u8; 32])
    requires
        0 <= at <= before.len(),
        after == before.insert(at, x),
        digests_ascend(before),
        forall|k: int| 0 <= k < at ==> digest_less(#[trigger] before[k], x),
        forall|k: int| at <= k < before.len() ==> digest_less(x, #[trigger] before[k]),
    ensures
        digests_ascend(after),
        forall|d: [u8; 32]| #[trigger] after.contains(d) <==> (before.contains(d) || d == x),
{
    assert forall|i: int, j: int| 0 <= i < j < after.len() implies #[trigger] digest_less(after[i], after[j]) by {
        let a = if i < at {
            i
        } else {
            i - 1
        };
        let b = if j < at {
            j
        } else {
            j - 1
        };
        if i != at {
            assert(after[i] == before[a]);
        }
        if j != at {
            assert(after[j] == before[b]);
        }
        if i != at && j != at {
            assert(digest_less(before[a], before[b]));
        }
    }
    assert forall|d: [u8; 32]| #[trigger] after.contains(d) <==> (before.contains(d) || d == x) by {
        if before.contains(d) {
            let k = choose|k: int| 0 <= k < before.len() && before[k] == d;
            if k < at {
                assert(after[k] == d);
            } else {
                assert(after[k + 1] == d);
            }
        }
        if d == x {
            assert(after[at] == d);
        }
        if after.contains(d) && d != x {
            let k = choose|k: int| 0 <= k < after.len() && after[k] == d;
            if k < at {
                assert(before[k] == d);
            } else {
                assert(before[k - 1] == d);
            }
        }
    }
}

/// The content was read with a picture that has no thumbnails yet.
pub open spec fn lacks_thumbs(c: TrackContent, sha256: [u8; 32]) -> bool {
    c.picture matches PictureState::Found(p) && p.needs_thumbs && p.sha256 == sha256
}

/// Some of the contents was read with that picture, which has no thumbnails yet.
pub open spec fn some_lacks_thumbs(contents: Seq<TrackContent>, sha256: [u8; 32]) -> bool {
    exists|i: int| 0 <= i < contents.len() && #[trigger] lacks_thumbs(contents[i], sha256)
}

/// The pictures that want thumbnails, each once however many tracks carry it, in
/// order. `contents` holds what was read of the files that could be.
pub fn want_thumbs(contents: &Vec<TrackContent>) -> (r: Vec<[u8; 32]>)
    ensures
        digests_ascend(r@),
        forall|d: [u8; 32]| #[trigger] r@.contains(d) <==> some_lacks_thumbs(contents@, d),
{
    let mut out: Vec<[u8; 32]> = Vec::new();
    let mut i: usize = 0;
    while i < contents.len()
        invariant
            i <= contents@.len(),
            digests_ascend(out@),
            forall|d: [u8; 32]| #[trigger] out@.contains(d) <==> some_lacks_thumbs(contents@.take(i as int), d),
        decreases contents@.len() - i,
    {
        let ghost before = out@;
        if let PictureState::Found(p) = &contents[i].picture {
            if p.needs_thumbs {
                insert_digest(&mut out, p.sha256);
            }
        }
        proof {
            let now = contents@.take(i + 1);
            let was = contents@.take(i as int);
            assert forall|d: [u8; 32]| #[trigger] out@.contains(d) <==> some_lacks_thumbs(now, d) by {
                assert(before.contains(d) <==> some_lacks_thumbs(was, d));
                if some_lacks_thumbs(was, d) {
                    let k = choose|k: int| 0 <= k < was.len() && #[trigger] lacks_thumbs(was[k], d);
                    assert(lacks_thumbs(now[k], d));
                }
                if some_lacks_thumbs(now, d) {
                    let k = choose|k: int| 0 <= k < now.len() && #[trigger] lacks_thumbs(now[k], d);
                    if k < i {
                        assert(lacks_thumbs(was[k], d));
                    }
                }
                if lacks_thumbs(contents@[i as int], d) {
                    assert(lacks_thumbs(now[i as int], d));
                }
            }
        }
        i = i + 1;
    }
    proof {
        assert(contents@.take(i as int) =~= contents@);
    }
    out
}

/// What was written after the rows.
#[derive(Debug)]
pub struct Written {
    /// The rows that were not seen and count as missing now.
    pub missing: Vec<i64>,
    pub categories_registered: u64,
    pub albums_categorized: u64,
    /// The jobs that were queued for rows whose sound changed.
    pub jobs: Vec<i64>,
}

/// What a commit still does before it ends.
#[derive(Debug)]
pub struct Closing {
    /// The albums whose picture is to be found again.
    pub unresolved: Vec<i64>,
    /// All albums are.
    pub all_unresolved: bool,
    /// The pictures that want thumbnails.
    pub thumbs: Vec<[u8; 32]>,
    /// The state that the run is left in, with its files and failures.
    pub state: RunState,
    pub files: u64,
    pub errors: u64,
}

/// Completes the report after the rows are written (see [`close_report`]).
pub fn finish_rows(report: ScanReport, paths: &Paths, written: Written) -> (r: ScanReport)
    ensures
        sorted_set_of(
            r.changed_ids@,
            report.changed_ids@ + paths.evicted@ + paths.moved@ + written.missing@,
        ),
        r.moved == paths.moved@.len(),
        r.missing_marked == written.missing@.len(),
        r.categories_registered == written.categories_registered,
        r.albums_categorized == written.albums_categorized,
        r.enqueued_jobs@ == report.enqueued_jobs@ + written.jobs@,
        r.run_id == report.run_id,
        r.files_seen == report.files_seen,
        r.new == report.new,
        r.updated == report.updated,
        r.unchanged == report.unchanged,
        r.revived == report.revived,
        r.errors == report.errors,
        r.tmp_removed == report.tmp_removed,
        r.overtaken == report.overtaken,
        r.skipped == report.skipped,
        r.artwork_resolved == report.artwork_resolved,
        r.artwork_error == report.artwork_error,
{
    let mut r = report;
    close_report(&mut r, &paths.evicted, &paths.moved, &written.missing);
    r.categories_registered = written.categories_registered;
    r.albums_categorized = written.albums_categorized;
    let mut jobs: Vec<i64> = Vec::new();
    extend_ids(&mut jobs, &r.enqueued_jobs);
    extend_ids(&mut jobs, &written.jobs);
    proof {
        assert(jobs@ =~= report.enqueued_jobs@ + written.jobs@);
    }
    r.enqueued_jobs = jobs;
    r
}

/// What a commit still does before it ends: the albums of the changed rows are
/// reserved, those they belonged to and those they belong to now (`current`), and
/// all albums by a deep scan. The reservations are written with the rows, so that
/// a scan that stops after this leaves them to the next one.
pub fn close_commit(s: &Scanned, report: &ScanReport, current: &Vec<i64>, contents: &Vec<TrackContent>) -> (r: Closing)
    ensures
        sorted_set_of(r.unresolved@, former_albums(report.changed_ids@, s.tracks@) + current@),
        r.all_unresolved == s.deep,
        digests_ascend(r.thumbs@),
        forall|d: [u8; 32]| #[trigger] r.thumbs@.contains(d) <==> some_lacks_thumbs(contents@, d),
        r.state == RunState::Completed,
        r.files == s.entries@.len(),
        r.errors == report.errors,
{
    Closing {
        unresolved: dirty_albums(&report.changed_ids, s, current),
        all_unresolved: s.deep,
        thumbs: want_thumbs(contents),
        state: RunState::Completed,
        files: s.entries.len() as u64,
        errors: report.errors,
    }
}

// ---------------------------------------------------------------- laws

/// A whole scan counts every file once at most among the new, the updated, the
/// unchanged, the unreadable and the overtaken ones.
pub proof fn law_scan_counts_once(
    s: Scanned,
    held: Seq<Option<i64>>,
    overtaken: Seq<i64>,
    moved: Seq<i64>,
    facts: Seq<RowFacts>,
    n: int,
)
    requires
        s.wf(),
        held.len() == s.entries@.len(),
        facts.len() == s.entries@.len(),
        0 <= n <= s.entries@.len(),
    ensures
        ({
            let e = effects_of(s, held, overtaken, moved, facts);
            total(e, Tally::New, n) + total(e, Tally::Updated, n) + total(e, Tally::Unchanged, n) + total(
                e,
                Tally::Errors,
                n,
            ) + total(e, Tally::Overtaken, n) <= n
        }),
    decreases n,
{
    if n > 0 {
        law_scan_counts_once(s, held, overtaken, moved, facts, n - 1);
        law_row_counts_once(s, held, overtaken, moved, n - 1, facts[n - 1]);
    }
}

/// Nothing of the file `i` differs from its row: its track was told by its inode,
/// is where it was, and was neither missing nor changed.
pub open spec fn file_is_quiet(s: Scanned, i: int) -> bool {
    &&& s.known(i)
    &&& s.decisions@[i].identity->via == Via::Inode
    &&& !s.decisions@[i].identity->changed
    &&& !s.decisions@[i].identity->revived
    &&& !s.path_differs(i)
}

/// A scan of a library in which nothing changed since the last one finds every
/// file unchanged, moves nothing, counts no row as changed and has no directory
/// to look at again.
pub proof fn law_quiet_scan_changes_nothing(
    s: Scanned,
    facts: Seq<RowFacts>,
    inserted: Seq<Option<i64>>,
    k: Seq<char>,
    n: int,
)
    requires
        s.wf(),
        !s.deep,
        s.pending@.len() == 0,
        facts.len() == s.entries@.len(),
        inserted.len() == s.entries@.len(),
        0 <= n <= s.entries@.len(),
        forall|i: int| 0 <= i < s.entries@.len() ==> #[trigger] file_is_quiet(s, i),
    ensures
        moves_of(s, held_of(s), Seq::empty(), n) == Seq::<(i64, Seq<char>, Seq<char>)>::empty(),
        conflicts_of(s, held_of(s), Seq::empty(), n) == Seq::<(i64, i64, Seq<char>)>::empty(),
        ({
            let e = effects_of(s, held_of(s), Seq::empty(), Seq::empty(), facts);
            &&& total(e, Tally::Unchanged, n) == n
            &&& changed_by(s, e, inserted, Seq::empty(), n) == Seq::<i64>::empty()
            &&& dir_of(s, e, inserted, k, n) is Some ==> !(dir_of(s, e, inserted, k, n)->0).3
        }),
    decreases n,
{
    if n > 0 {
        law_quiet_scan_changes_nothing(s, facts, inserted, k, n - 1);
        let i = n - 1;
        assert(file_is_quiet(s, i));
        assert(held_of(s)[i] is None);
    }
}

// ---------------------------------------------------------------- laws

/// A scan goes through its stages in one order, and can be cancelled while it walks, resolves and reads, but
/// not once it writes.
pub proof fn law_scan_in_order(store: bool, cancelled: bool, e: ScanError)
    ensures
        after_phase(ScanStage::Walk, None, false, store) == ScanNext::Go(ScanStage::Snapshot),
        after_phase(ScanStage::Snapshot, None, cancelled, store) == ScanNext::Go(ScanStage::Digests),
        after_phase(ScanStage::Digests, None, cancelled, store) == ScanNext::Go(ScanStage::Resolve),
        after_phase(ScanStage::Resolve, None, false, store) == ScanNext::Go(ScanStage::Read),
        after_phase(ScanStage::Read, None, false, store) == ScanNext::Go(ScanStage::Commit),
        after_phase(ScanStage::Commit, None, cancelled, true) == ScanNext::Go(ScanStage::Artwork),
        after_phase(ScanStage::Commit, None, cancelled, false) == ScanNext::Done,
        after_phase(ScanStage::Walk, None, true, store) == ScanNext::Stop(ScanError::Cancelled),
        after_phase(ScanStage::Resolve, None, true, store) == ScanNext::Stop(ScanError::Cancelled),
        after_phase(ScanStage::Read, None, true, store) == ScanNext::Stop(ScanError::Cancelled),
        after_phase(ScanStage::Walk, Some(e), cancelled, store) == ScanNext::Stop(e),
        after_phase(ScanStage::Read, Some(e), cancelled, store) == ScanNext::Stop(e),
        after_phase(ScanStage::Commit, Some(e), cancelled, store) == ScanNext::Stop(e),
        after_phase(ScanStage::Artwork, Some(e), cancelled, store) == ScanNext::Done,
{
}

/// A total of the report is the number of files that have the mark: it grows by one with each that has it,
/// and only with those.
pub proof fn law_totals_count_the_files(effects: Seq<RowEffect>, t: Tally, n: int)
    requires
        0 <= n,
    ensures
        0 <= total(effects, t, n) <= n,
        (forall|i: int| 0 <= i < n ==> !counts(#[trigger] effects[i], t)) ==> total(effects, t, n) == 0,
        (forall|i: int| 0 <= i < n ==> counts(#[trigger] effects[i], t)) ==> total(effects, t, n) == n,
        counts(effects[n], t) ==> total(effects, t, n + 1) == total(effects, t, n) + 1,
        !counts(effects[n], t) ==> total(effects, t, n + 1) == total(effects, t, n),
    decreases n,
{
    if n > 0 {
        law_totals_count_the_files(effects, t, n - 1);
    }
}

/// Each total counts its own mark.
pub proof fn law_each_total_has_its_mark(e: RowEffect)
    ensures
        counts(e, Tally::New) == e.new,
        counts(e, Tally::Updated) == e.updated,
        counts(e, Tally::Unchanged) == e.unchanged,
        counts(e, Tally::Revived) == e.revived,
        counts(e, Tally::Errors) == e.error,
        counts(e, Tally::Overtaken) == e.overtaken,
{
}

/// Each row that changed is reported: that of a known file, the one that was made for a new file, and those
/// that were reported before.
pub proof fn law_changed_rows_are_reported(
    s: Scanned,
    effects: Seq<RowEffect>,
    inserted: Seq<Option<i64>>,
    first: Seq<i64>,
    n: int,
    i: int,
    id: i64,
)
    ensures
        0 <= i < n && effects[i].changed && s.decisions@[i].identity is Existing ==> changed_by(
            s,
            effects,
            inserted,
            first,
            n,
        ).contains(s.decisions@[i].identity->track_id),
        0 <= i < n && effects[i].changed && s.decisions@[i].identity is New && inserted[i] == Some(id) ==> changed_by(
            s,
            effects,
            inserted,
            first,
            n,
        ).contains(id),
        first.contains(id) ==> changed_by(s, effects, inserted, first, n).contains(id),
        (forall|j: int| 0 <= j < n ==> !(#[trigger] effects[j]).changed) ==> changed_by(s, effects, inserted, first, n)
            == first,
    decreases n,
{
    if n > 0 {
        let r = changed_by(s, effects, inserted, first, n - 1);
        let c = changed_by(s, effects, inserted, first, n);
        law_changed_rows_are_reported(s, effects, inserted, first, n - 1, i, id);
        assert forall|x: i64| r.contains(x) implies c.contains(x) by {
            let k = choose|k: int| 0 <= k < r.len() && r[k] == x;
            assert(c[k] == x);
        }
        if i == n - 1 && effects[i].changed && row_id(s, inserted, i) is Some {
            assert(c.last() == row_id(s, inserted, i)->0);
            assert(c.contains(c.last()));
        }
    }
}

/// Each file joins the directory it stands in: with its own row, with the album that the row came from, and
/// with the mark that something changed there.
pub proof fn law_files_join_their_directory(
    s: Scanned,
    effects: Seq<RowEffect>,
    inserted: Seq<Option<i64>>,
    k: Seq<char>,
    n: int,
    i: int,
)
    requires
        0 <= i < n,
        effects[i].grouped,
        s.entries@[i].dir_key@ == k,
    ensures
        dir_of(s, effects, inserted, k, n) is Some,
        ({
            let d = dir_of(s, effects, inserted, k, n)->0;
            &&& s.decisions@[i].identity is Existing ==> d.1.contains(s.decisions@[i].identity->track_id)
            &&& s.decisions@[i].identity is New && effects[i].new && inserted[i] is Some ==> d.1.contains(inserted[i]->0)
            &&& s.decisions@[i].identity is Existing && s.row(i).album_id is Some ==> d.2.contains(
                s.row(i).album_id->0,
            )
            &&& effects[i].dirty ==> d.3
        }),
    decreases n,
{
    if i < n - 1 {
        law_files_join_their_directory(s, effects, inserted, k, n - 1, i);
        let r = dir_of(s, effects, inserted, k, n - 1)->0;
        let d = dir_of(s, effects, inserted, k, n)->0;
        assert forall|x: i64| r.1.contains(x) implies d.1.contains(x) by {
            let j = choose|j: int| 0 <= j < r.1.len() && r.1[j] == x;
            assert(d.1[j] == x);
        }
        assert forall|x: i64| r.2.contains(x) implies d.2.contains(x) by {
            let j = choose|j: int| 0 <= j < r.2.len() && r.2[j] == x;
            assert(d.2[j] == x);
        }
    } else {
        let d = dir_of(s, effects, inserted, k, n)->0;
        if joins_as(s, effects, inserted, i) is Some {
            assert(d.1.last() == joins_as(s, effects, inserted, i)->0);
            assert(d.1.contains(d.1.last()));
        }
        if came_from(s, i) is Some {
            assert(d.2.last() == came_from(s, i)->0);
            assert(d.2.contains(d.2.last()));
        }
    }
}

/// A directory that no file stands in is none of the scan, and one in which nothing changed is not marked.
pub proof fn law_quiet_directories(
    s: Scanned,
    effects: Seq<RowEffect>,
    inserted: Seq<Option<i64>>,
    k: Seq<char>,
    n: int,
)
    ensures
        (forall|j: int| 0 <= j < n ==> !(#[trigger] effects[j]).grouped || s.entries@[j].dir_key@ != k) ==> dir_of(
            s,
            effects,
            inserted,
            k,
            n,
        ) is None,
        (forall|j: int| 0 <= j < n ==> !(#[trigger] effects[j]).dirty) ==> (dir_of(s, effects, inserted, k, n) matches Some(
            d,
        ) ==> !d.3),
    decreases n,
{
    if n > 0 {
        law_quiet_directories(s, effects, inserted, k, n - 1);
    }
}

/// The rows that someone else changed meanwhile are those whose check failed.
pub proof fn law_failed_checks_are_overtaken(s: Scanned, checks: Seq<usize>, stale: Seq<bool>, k: int)
    requires
        checks.len() == stale.len(),
        0 <= k < checks.len(),
    ensures
        stale[k] ==> stale_ids(s, checks, stale).contains(s.decisions@[checks[k] as int].identity->track_id),
        (forall|j: int| 0 <= j < stale.len() ==> !#[trigger] stale[j]) ==> stale_ids(s, checks, stale).len() == 0,
    decreases checks.len(),
{
    let r = stale_ids(s, checks.drop_last(), stale.drop_last());
    let c = stale_ids(s, checks, stale);
    if checks.len() > 1 {
        law_failed_checks_are_overtaken(s, checks.drop_last(), stale.drop_last(), if k < checks.len() - 1 {
            k
        } else {
            0
        });
        assert forall|j: int| 0 <= j < stale.len() - 1 implies #[trigger] stale.drop_last()[j] == stale[j] by {}
    } else {
        assert(r.len() == 0);
    }
    assert(stale.last() == stale[stale.len() - 1]);
    if stale[k] {
        let id = s.decisions@[checks[k] as int].identity->track_id;
        if k < checks.len() - 1 {
            let j = choose|j: int| 0 <= j < r.len() && r[j] == id;
            assert(c[j] == id);
        } else {
            assert(c.last() == id);
        }
    }
}

/// The report counts what happened: where every file is new, or unchanged, so says the report, and each row that
/// someone else changed meanwhile counts as overtaken.
pub proof fn law_report_of_a_scan(
    report: ScanReport,
    s: Scanned,
    effects: Seq<RowEffect>,
    inserted: Seq<Option<i64>>,
    conflicts: Seq<RenameConflict>,
    overtaken: Seq<i64>,
    n: int,
    i: int,
)
    requires
        0 <= n,
        tallied(report, s, effects, inserted, conflicts, overtaken, n),
    ensures
        (forall|k: int| 0 <= k < n ==> (#[trigger] effects[k]).new) ==> report.new == n,
        (forall|k: int| 0 <= k < n ==> !(#[trigger] effects[k]).new) ==> report.new == 0,
        (forall|k: int| 0 <= k < n ==> (#[trigger] effects[k]).updated) ==> report.updated == n,
        (forall|k: int| 0 <= k < n ==> !(#[trigger] effects[k]).updated) ==> report.updated == 0,
        (forall|k: int| 0 <= k < n ==> (#[trigger] effects[k]).unchanged) ==> report.unchanged == n,
        (forall|k: int| 0 <= k < n ==> !(#[trigger] effects[k]).unchanged) ==> report.unchanged == 0,
        (forall|k: int| 0 <= k < n ==> (#[trigger] effects[k]).revived) ==> report.revived == n,
        (forall|k: int| 0 <= k < n ==> (#[trigger] effects[k]).error) ==> report.errors == n,
        (forall|k: int| 0 <= k < n ==> !(#[trigger] effects[k]).error) ==> report.errors == 0,
        (forall|k: int| 0 <= k < n ==> !(#[trigger] effects[k]).overtaken) ==> report.overtaken == overtaken.len(),
        0 <= i < conflicts.len() ==> report.changed_ids@.contains(conflicts[i].track_id),
        0 <= i < n && effects[i].changed && s.decisions@[i].identity is Existing ==> report.changed_ids@.contains(
            s.decisions@[i].identity->track_id,
        ),
{
    law_totals_count_the_files(effects, Tally::New, n);
    law_totals_count_the_files(effects, Tally::Updated, n);
    law_totals_count_the_files(effects, Tally::Unchanged, n);
    law_totals_count_the_files(effects, Tally::Revived, n);
    law_totals_count_the_files(effects, Tally::Errors, n);
    law_totals_count_the_files(effects, Tally::Overtaken, n);
    let first = conflict_ids(conflicts);
    if 0 <= i < conflicts.len() {
        assert(first[i] == conflicts[i].track_id);
        law_changed_rows_are_reported(s, effects, inserted, first, n, 0, conflicts[i].track_id);
    }
    law_changed_rows_are_reported(s, effects, inserted, first, n, i, 0);
}

/// The moved rows are those of the moves, a directory is found under its key, and a picture lacks thumbnails where it
/// was found and says so.
pub proof fn law_parts_of_a_commit(
    moves: Seq<(i64, Seq<char>, Seq<char>)>,
    groups: Seq<DirGroup>,
    contents: Seq<TrackContent>,
    i: int,
    h: [u8; 32],
)
    requires
        groups_wf(groups),
    ensures
        moved_ids(moves).len() == moves.len(),
        0 <= i < moves.len() ==> moved_ids(moves)[i] == moves[i].0,
        0 <= i < groups.len() ==> dir_in(groups, groups[i].dir_key@) == Some(
            (opt_text(groups[i].dir), groups[i].track_ids@, groups[i].previous_albums@, groups[i].dirty),
        ),
        0 <= i < contents.len() && (contents[i].picture matches PictureState::Found(p) && p.needs_thumbs && p.sha256 == h)
            ==> some_lacks_thumbs(contents, h),
        (forall|k: int|
            0 <= k < contents.len() ==> ((#[trigger] contents[k]).picture matches PictureState::Found(p)
                ==> !p.needs_thumbs)) ==> !some_lacks_thumbs(contents, h),
{
    if 0 <= i < groups.len() {
        lemma_group_index(groups, groups[i].dir_key@);
        let j = group_index(groups, groups[i].dir_key@)->0;
        if j != i {
            lemma_group_keys_distinct(groups, i, j);
        }
    }
    if 0 <= i < contents.len() && (contents[i].picture matches PictureState::Found(p) && p.needs_thumbs && p.sha256 == h) {
        assert(lacks_thumbs(contents[i], h));
    }
    if some_lacks_thumbs(contents, h) {
        let k = choose|k: int| 0 <= k < contents.len() && #[trigger] lacks_thumbs(contents[k], h);
        assert(lacks_thumbs(contents[k], h));
    }
}

} // verus!
