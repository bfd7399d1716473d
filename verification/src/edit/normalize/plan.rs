//! Planning and recording: which tracks are normalised, and which are conflicts.

use crate::catalog::Codec;
use crate::edit::error::EditError;
use crate::edit::batch::BatchEvent;
use crate::edit::history::{clone_precondition, same_precondition, Precondition};
use crate::edit::naming::{flac_path, flac_rel_path};
use crate::edit::rename::prepare::{has_moved, hash_moved, path_in};
use crate::edit::tags::{check_selection, has_duplicate, lowest_duplicate, Prepared};
use crate::text::{concat2, same_text};
use vstd::prelude::*;
use vstd::string::*;

verus! {

/// The codecs that are normalised: lossless ones other than FLAC.
pub const NORMALIZE_SOURCES: [Codec; 3] = [Codec::Wav, Codec::Alac, Codec::Aiff];

/// The codec is normalised.
pub open spec fn is_source_codec(c: Codec) -> bool {
    c == Codec::Wav || c == Codec::Alac || c == Codec::Aiff
}

/// The codec is normalised.
pub fn is_normalize_source(c: Codec) -> (r: bool)
    ensures
        r == is_source_codec(c),
{
    let all = NORMALIZE_SOURCES;
    c == all[0] || c == all[1] || c == all[2]
}

/// What is planned for a track.
#[derive(Debug)]
pub enum NormalizePlan {
    /// It is normalised to this path.
    Path(String),
    /// It is none of those that are normalised.
    Unchanged,
    Conflict(String),
}

/// A track with what is planned for it.
#[derive(Debug)]
pub struct PlannedNormalize {
    pub track_id: i64,
    pub current_rel_path: String,
    pub codec: String,
    pub planned: NormalizePlan,
}

/// A track as the catalogue has it.
#[derive(Debug)]
pub struct NormalizeRow {
    pub rel_path: String,
    pub codec: String,
    /// The codec of that name, where it is known.
    pub known: Option<Codec>,
    pub missing: bool,
    /// What is wrong with the path of the FLAC.
    pub invalid: Option<String>,
    /// The track under the key of that path, and that it is missing.
    pub holder: Option<(i64, bool)>,
}

/// `r` is what is planned for a track.
pub open spec fn plan_is(r: Result<NormalizePlan, EditError>, id: i64, row: NormalizeRow) -> bool {
    if row.known is None || !is_source_codec(row.known->0) {
        r == Ok::<NormalizePlan, EditError>(NormalizePlan::Unchanged)
    } else if row.missing {
        r matches Ok(NormalizePlan::Conflict(m)) && m@ == "ファイルが missing"@
    } else if row.invalid is Some {
        r matches Err(EditError::RelPath(e)) && e@ == row.invalid->0@
    } else if row.holder is Some && (row.holder->0).0 != id && !(row.holder->0).1 {
        r matches Ok(NormalizePlan::Conflict(m)) && m@ == "宛先を別のトラックが占有: "@ + flac_path(row.rel_path@)
    } else {
        r matches Ok(NormalizePlan::Path(p)) && p@ == flac_path(row.rel_path@)
    }
}

/// What is planned for a track (see [`plan_is`]).
pub fn plan_one(id: i64, row: &NormalizeRow) -> (r: Result<NormalizePlan, EditError>)
    ensures
        plan_is(r, id, *row),
{
    match row.known {
        Some(c) => {
            if !is_normalize_source(c) {
                return Ok(NormalizePlan::Unchanged);
            }
        },
        None => {
            return Ok(NormalizePlan::Unchanged);
        },
    }
    if row.missing {
        return Ok(NormalizePlan::Conflict("ファイルが missing".to_owned()));
    }
    let new = flac_rel_path(&row.rel_path);
    if let Some(e) = &row.invalid {
        return Err(EditError::RelPath(e.clone()));
    }
    if let Some(h) = row.holder {
        if h.0 != id && !h.1 {
            return Ok(NormalizePlan::Conflict(concat2("宛先を別のトラックが占有: ", &new)));
        }
    }
    Ok(NormalizePlan::Path(new))
}

/// The track at `i` stops the plan: it is not there, or its new path is not
/// valid.
pub open spec fn stops_plan(rows: Seq<Option<NormalizeRow>>, i: int) -> bool {
    match rows[i] {
        None => true,
        Some(row) => row.known is Some && is_source_codec(row.known->0) && !row.missing && row.invalid is Some,
    }
}

/// The track at `i` is the first that stops the plan.
pub open spec fn first_stop(rows: Seq<Option<NormalizeRow>>, i: int) -> bool {
    &&& 0 <= i < rows.len()
    &&& stops_plan(rows, i)
    &&& forall|j: int| 0 <= j < i ==> !#[trigger] stops_plan(rows, j)
}

/// `p` is what is planned for the track at `i`.
pub open spec fn planned_at(p: PlannedNormalize, ids: Seq<i64>, rows: Seq<Option<NormalizeRow>>, i: int) -> bool {
    &&& rows[i] is Some
    &&& p.track_id == ids[i]
    &&& p.current_rel_path@ == rows[i]->0.rel_path@
    &&& p.codec@ == rows[i]->0.codec@
    &&& plan_is(Ok(p.planned), ids[i], rows[i]->0)
}

/// What is planned for the tracks of a selection, in its order. `rows` holds for
/// each of the ids what the catalogue has, none where there is no such track.
pub fn plan_normalize(ids: &Vec<i64>, rows: &Vec<Option<NormalizeRow>>) -> (r: Result<Vec<PlannedNormalize>, EditError>)
    requires
        rows@.len() == ids@.len(),
    ensures
        match r {
            Ok(v) => v@.len() == ids@.len() && forall|i: int|
                0 <= i < ids@.len() ==> planned_at(#[trigger] v@[i], ids@, rows@, i),
            Err(e) => exists|i: int| #[trigger]
                first_stop(rows@, i) && (match rows@[i] {
                    None => e == EditError::TrackNotFound(ids@[i]),
                    Some(row) => e matches EditError::RelPath(m) && m@ == row.invalid->0@,
                }),
        },
{
    let mut out: Vec<PlannedNormalize> = Vec::new();
    let mut i: usize = 0;
    while i < ids.len()
        invariant
            i <= ids@.len(),
            rows@.len() == ids@.len(),
            out@.len() == i,
            forall|k: int| 0 <= k < i ==> planned_at(#[trigger] out@[k], ids@, rows@, k),
            forall|k: int| 0 <= k < i ==> !#[trigger] stops_plan(rows@, k),
        decreases ids@.len() - i,
    {
        match &rows[i] {
            None => {
                proof {
                    assert(stops_plan(rows@, i as int));
                    assert(first_stop(rows@, i as int));
                }
                return Err(EditError::TrackNotFound(ids[i]));
            },
            Some(row) => {
                match plan_one(ids[i], row) {
                    Ok(planned) => {
                        let ghost before = out@;
                        out.push(
                            PlannedNormalize {
                                track_id: ids[i],
                                current_rel_path: row.rel_path.clone(),
                                codec: row.codec.clone(),
                                planned,
                            },
                        );
                        proof {
                            assert forall|k: int| 0 <= k < i + 1 implies planned_at(
                                #[trigger] out@[k],
                                ids@,
                                rows@,
                                k,
                            ) by {
                                if k < i {
                                    assert(planned_at(before[k], ids@, rows@, k));
                                }
                            }
                            assert(!stops_plan(rows@, i as int));
                        }
                    },
                    Err(e) => {
                        proof {
                            assert(stops_plan(rows@, i as int));
                            assert(first_stop(rows@, i as int));
                        }
                        return Err(e);
                    },
                }
            },
        }
        i = i + 1;
    }
    Ok(out)
}

// ---------------------------------------------------------------- recording

/// A track that is to be normalised, or whose normalisation is undone.
#[derive(Debug)]
pub struct NormalizeTarget {
    pub track_id: i64,
    pub new_rel_path: String,
    pub new_codec: String,
    /// How the file looked when this was shown, none where it was not.
    pub expected: Option<Precondition>,
    /// Why planning found no path for it.
    pub planned_conflict: Option<String>,
}

/// The targets of those tracks that a path was planned for.
pub open spec fn targets_planned(v: Seq<PlannedNormalize>) -> Seq<(i64, Seq<char>)>
    decreases v.len(),
{
    if v.len() == 0 {
        Seq::empty()
    } else {
        let r = targets_planned(v.drop_last());
        match v.last().planned {
            NormalizePlan::Path(p) => r.push((v.last().track_id, p@)),
            _ => r,
        }
    }
}

/// The tracks and new paths of targets.
pub open spec fn target_views(v: Seq<NormalizeTarget>) -> Seq<(i64, Seq<char>)> {
    v.map_values(|t: NormalizeTarget| (t.track_id, t.new_rel_path@))
}

/// The targets of those tracks that a path was planned for; the others stay as
/// they are.
pub fn normalize_targets(planned: &Vec<PlannedNormalize>) -> (r: Vec<NormalizeTarget>)
    ensures
        target_views(r@) == targets_planned(planned@),
        forall|i: int|
            0 <= i < r@.len() ==> (#[trigger] r@[i]).new_codec@ == "flac"@ && r@[i].expected is None
                && r@[i].planned_conflict is None,
{
    let mut out: Vec<NormalizeTarget> = Vec::new();
    let mut i: usize = 0;
    proof {
        assert(target_views(out@) =~= Seq::<(i64, Seq<char>)>::empty());
    }
    while i < planned.len()
        invariant
            i <= planned@.len(),
            target_views(out@) == targets_planned(planned@.take(i as int)),
            forall|k: int|
                0 <= k < out@.len() ==> (#[trigger] out@[k]).new_codec@ == "flac"@ && out@[k].expected is None
                    && out@[k].planned_conflict is None,
        decreases planned@.len() - i,
    {
        let p = &planned[i];
        proof {
            assert(planned@.take(i + 1).last() == *p);
            assert(planned@.take(i + 1).drop_last() =~= planned@.take(i as int));
        }
        if let NormalizePlan::Path(path) = &p.planned {
            let ghost before = target_views(out@);
            out.push(
                NormalizeTarget {
                    track_id: p.track_id,
                    new_rel_path: path.clone(),
                    new_codec: "flac".to_owned(),
                    expected: None,
                    planned_conflict: None,
                },
            );
            proof {
                assert(target_views(out@) =~= before.push((p.track_id, path@)));
            }
        }
        i = i + 1;
    }
    proof {
        assert(planned@.take(i as int) =~= planned@);
    }
    out
}

/// What the catalogue says of a target.
#[derive(Debug)]
pub struct NormalizeState {
    /// How the file looks, none where there is no such track.
    pub current: Option<Precondition>,
    pub codec: String,
    /// What is wrong with the new path.
    pub invalid: Option<String>,
    /// The track under the key of the new path, and that it is missing.
    pub holder: Option<(i64, bool)>,
}

/// What becomes of a target.
pub enum NormalizeFate {
    NotFound,
    Conflict(Seq<char>),
    Unchanged,
    /// It is recorded; a missing track gives up its path for it.
    Planned(Option<i64>),
}

/// What becomes of a target.
pub open spec fn fate(t: NormalizeTarget, s: NormalizeState) -> NormalizeFate {
    match s.current {
        None => NormalizeFate::NotFound,
        Some(current) => match t.planned_conflict {
            Some(reason) => NormalizeFate::Conflict(reason@),
            None => if hash_moved(t.expected, current) {
                NormalizeFate::Conflict("プレビューの後に変更された（tag_hash 不一致）"@)
            } else if t.new_rel_path@ == path_in(current) && t.new_codec@ == s.codec@ {
                NormalizeFate::Unchanged
            } else {
                match s.invalid {
                    Some(e) => NormalizeFate::Conflict("宛先が不正: "@ + e@),
                    None => match s.holder {
                        Some(h) => if h.0 == t.track_id {
                            NormalizeFate::Planned(None)
                        } else if !h.1 {
                            NormalizeFate::Conflict("宛先を別のトラックが占有: "@ + t.new_rel_path@)
                        } else {
                            NormalizeFate::Planned(Some(h.0))
                        },
                        None => NormalizeFate::Planned(None),
                    },
                }
            },
        },
    }
}

/// An operation that is recorded for a target.
#[derive(Debug)]
pub struct NormalizeEntry {
    /// The position of the target.
    pub target: usize,
    /// How the file has to look when it is replaced.
    pub expected: Precondition,
    pub old: String,
    pub old_codec: String,
}

/// An operation that is recorded as a conflict.
#[derive(Debug)]
pub struct NormalizeConflict {
    pub entry: NormalizeEntry,
    pub error: String,
}

/// What a batch of normalisations records.
#[derive(Debug)]
pub struct NormalizeBatch {
    pub planned: Vec<NormalizeEntry>,
    pub conflicts: Vec<NormalizeConflict>,
    /// Missing tracks that give up their paths.
    pub vacate: Vec<i64>,
    pub unchanged: usize,
}

/// The ids of the targets.
pub open spec fn normalize_ids(t: Seq<NormalizeTarget>) -> Seq<i64> {
    t.map_values(|x: NormalizeTarget| x.track_id)
}

/// The targets that are recorded, by position.
pub open spec fn recorded(t: Seq<NormalizeTarget>, s: Seq<NormalizeState>, n: int) -> Seq<int>
    decreases n,
{
    if n <= 0 {
        Seq::empty()
    } else {
        let r = recorded(t, s, n - 1);
        if fate(t[n - 1], s[n - 1]) is Planned {
            r.push(n - 1)
        } else {
            r
        }
    }
}

/// The targets that are conflicts, by position, with the reason of each.
pub open spec fn refused(t: Seq<NormalizeTarget>, s: Seq<NormalizeState>, n: int) -> Seq<(int, Seq<char>)>
    decreases n,
{
    if n <= 0 {
        Seq::empty()
    } else {
        let r = refused(t, s, n - 1);
        match fate(t[n - 1], s[n - 1]) {
            NormalizeFate::Conflict(e) => r.push((n - 1, e)),
            _ => r,
        }
    }
}

/// The missing tracks that give up their paths.
pub open spec fn vacated(t: Seq<NormalizeTarget>, s: Seq<NormalizeState>, n: int) -> Seq<i64>
    decreases n,
{
    if n <= 0 {
        Seq::empty()
    } else {
        let r = vacated(t, s, n - 1);
        match fate(t[n - 1], s[n - 1]) {
            NormalizeFate::Planned(Some(h)) => r.push(h),
            _ => r,
        }
    }
}

/// How many targets are as wanted already.
pub open spec fn kept(t: Seq<NormalizeTarget>, s: Seq<NormalizeState>, n: int) -> nat
    decreases n,
{
    if n <= 0 {
        0
    } else {
        kept(t, s, n - 1) + if fate(t[n - 1], s[n - 1]) is Unchanged {
            1nat
        } else {
            0nat
        }
    }
}

/// The entry records the target at its position.
pub open spec fn entry_is(e: NormalizeEntry, t: Seq<NormalizeTarget>, s: Seq<NormalizeState>) -> bool {
    let i = e.target as int;
    &&& e.target < t.len()
    &&& s[i].current is Some
    &&& same_precondition(
        e.expected,
        match t[i].expected {
            Some(x) => x,
            None => s[i].current->0,
        },
    )
    &&& e.old@ == path_in(s[i].current->0)
    &&& e.old_codec@ == s[i].codec@
}

/// The positions of entries.
pub open spec fn positions(v: Seq<NormalizeEntry>) -> Seq<int> {
    v.map_values(|e: NormalizeEntry| e.target as int)
}

/// The positions of conflicts, with their reasons.
pub open spec fn conflict_views(v: Seq<NormalizeConflict>) -> Seq<(int, Seq<char>)> {
    v.map_values(|c: NormalizeConflict| (c.entry.target as int, c.error@))
}

/// The batch records what becomes of the first `n` targets.
pub open spec fn batch_upto(b: NormalizeBatch, t: Seq<NormalizeTarget>, s: Seq<NormalizeState>, n: int) -> bool {
    &&& positions(b.planned@) == recorded(t, s, n)
    &&& conflict_views(b.conflicts@) == refused(t, s, n)
    &&& b.vacate@ == vacated(t, s, n)
    &&& b.unchanged == kept(t, s, n)
    &&& forall|i: int| 0 <= i < b.planned@.len() ==> entry_is(#[trigger] b.planned@[i], t, s)
    &&& forall|i: int| 0 <= i < b.conflicts@.len() ==> entry_is((#[trigger] b.conflicts@[i]).entry, t, s)
}

/// The first target that is not there.
pub open spec fn first_lost(s: Seq<NormalizeState>, i: int) -> bool {
    &&& 0 <= i < s.len()
    &&& s[i].current is None
    &&& forall|j: int| 0 <= j < i ==> (#[trigger] s[j]).current is Some
}

enum Decision {
    Conflict(String),
    Unchanged,
    Planned(Option<i64>),
}

fn decide(t: &NormalizeTarget, s: &NormalizeState, current: &Precondition) -> (r: Decision)
    requires
        s.current == Some(*current),
    ensures
        match fate(*t, *s) {
            NormalizeFate::NotFound => false,
            NormalizeFate::Conflict(e) => r matches Decision::Conflict(m) && m@ == e,
            NormalizeFate::Unchanged => r is Unchanged,
            NormalizeFate::Planned(v) => r == Decision::Planned(v),
        },
{
    if let Some(reason) = &t.planned_conflict {
        return Decision::Conflict(reason.clone());
    }
    if has_moved(&t.expected, current) {
        return Decision::Conflict("プレビューの後に変更された（tag_hash 不一致）".to_owned());
    }
    let same = match &current.rel_path {
        Some(p) => same_text(&t.new_rel_path, p),
        None => t.new_rel_path.as_str().is_empty(),
    };
    proof {
        if same && current.rel_path is None {
            assert(t.new_rel_path@ =~= path_in(*current));
        }
    }
    if same && same_text(&t.new_codec, &s.codec) {
        return Decision::Unchanged;
    }
    if let Some(e) = &s.invalid {
        return Decision::Conflict(concat2("宛先が不正: ", e));
    }
    match s.holder {
        Some(h) => {
            if h.0 == t.track_id {
                Decision::Planned(None)
            } else if !h.1 {
                Decision::Conflict(concat2("宛先を別のトラックが占有: ", &t.new_rel_path))
            } else {
                Decision::Planned(Some(h.0))
            }
        },
        None => Decision::Planned(None),
    }
}

fn entry(i: usize, t: &NormalizeTarget, s: &NormalizeState, current: &Precondition) -> (r: NormalizeEntry)
    ensures
        r.target == i,
        t.expected is Some ==> same_precondition(r.expected, t.expected->0),
        t.expected is None ==> same_precondition(r.expected, *current),
        r.old@ == path_in(*current),
        r.old_codec@ == s.codec@,
{
    let expected = match &t.expected {
        Some(e) => clone_precondition(e),
        None => clone_precondition(current),
    };
    let old = match &current.rel_path {
        Some(p) => p.clone(),
        None => String::new(),
    };
    NormalizeEntry { target: i, expected, old, old_codec: s.codec.clone() }
}

fn ids_of_targets(targets: &Vec<NormalizeTarget>) -> (r: Vec<i64>)
    ensures
        r@ == normalize_ids(targets@),
{
    let mut out: Vec<i64> = Vec::new();
    let mut i: usize = 0;
    while i < targets.len()
        invariant
            i <= targets@.len(),
            out@ == normalize_ids(targets@).take(i as int),
        decreases targets@.len() - i,
    {
        out.push(targets[i].track_id);
        proof {
            assert(normalize_ids(targets@).take(i + 1) =~= normalize_ids(targets@).take(i as int).push(
                targets@[i as int].track_id,
            ));
        }
        i = i + 1;
    }
    proof {
        assert(normalize_ids(targets@).take(i as int) =~= normalize_ids(targets@));
    }
    out
}

/// What a batch records for its targets. `env` says that there is an archive and
/// an encoder; `pending` are the tracks of the selection that operations wait
/// for. A selection with a track twice, with one that an operation waits for or
/// with one that is not there, is refused, and so is one that has nothing to
/// record.
pub fn prepare_normalize(
    env: bool,
    targets: &Vec<NormalizeTarget>,
    states: &Vec<NormalizeState>,
    pending: Vec<i64>,
) -> (r: Result<NormalizeBatch, EditError>)
    requires
        states@.len() == targets@.len(),
    ensures
        if !env {
            r matches Err(EditError::Internal(m)) && m@ == "正規化の環境（Archive / エンコーダ）が無い"@
        } else if has_duplicate(normalize_ids(targets@)) {
            r matches Err(EditError::DuplicateTrack(d)) && lowest_duplicate(normalize_ids(targets@), d)
        } else if pending@.len() > 0 {
            r == Err::<NormalizeBatch, EditError>(EditError::Pending { track_ids: pending })
        } else if exists|i: int| first_lost(states@, i) {
            exists|i: int| #[trigger]
                first_lost(states@, i) && r == Err::<NormalizeBatch, EditError>(
                    EditError::TrackNotFound(targets@[i].track_id),
                )
        } else if recorded(targets@, states@, targets@.len() as int).len() == 0 && refused(
            targets@,
            states@,
            targets@.len() as int,
        ).len() == 0 {
            r == Err::<NormalizeBatch, EditError>(EditError::NoChanges)
        } else {
            r matches Ok(b) && batch_upto(b, targets@, states@, targets@.len() as int)
        },
{
    if !env {
        return Err(EditError::Internal("正規化の環境（Archive / エンコーダ）が無い".to_owned()));
    }
    let ids = ids_of_targets(targets);
    match check_selection(&ids, pending) {
        Ok(()) => {},
        Err(e) => {
            return Err(e);
        },
    }
    let mut b = NormalizeBatch { planned: Vec::new(), conflicts: Vec::new(), vacate: Vec::new(), unchanged: 0 };
    let mut i: usize = 0;
    proof {
        assert(positions(b.planned@) =~= Seq::<int>::empty());
        assert(conflict_views(b.conflicts@) =~= Seq::<(int, Seq<char>)>::empty());
    }
    while i < targets.len()
        invariant
            i <= targets@.len(),
            states@.len() == targets@.len(),
            env,
            !has_duplicate(normalize_ids(targets@)),
            pending@.len() == 0,
            b.unchanged <= i,
            batch_upto(b, targets@, states@, i as int),
            forall|j: int| 0 <= j < i ==> (#[trigger] states@[j]).current is Some,
        decreases targets@.len() - i,
    {
        let t = &targets[i];
        let s = &states[i];
        match &s.current {
            None => {
                proof {
                    assert(first_lost(states@, i as int));
                }
                return Err(EditError::TrackNotFound(t.track_id));
            },
            Some(current) => {
                let ghost p0 = positions(b.planned@);
                let ghost c0 = conflict_views(b.conflicts@);
                match decide(t, s, current) {
                    Decision::Conflict(error) => {
                        let e = entry(i, t, s, current);
                        let ghost et = error@;
                        b.conflicts.push(NormalizeConflict { entry: e, error });
                        proof {
                            assert(conflict_views(b.conflicts@) =~= c0.push((i as int, et)));
                        }
                    },
                    Decision::Unchanged => {
                        b.unchanged = b.unchanged + 1;
                    },
                    Decision::Planned(v) => {
                        let e = entry(i, t, s, current);
                        b.planned.push(e);
                        proof {
                            assert(positions(b.planned@) =~= p0.push(i as int));
                        }
                        if let Some(h) = v {
                            b.vacate.push(h);
                        }
                    },
                }
            },
        }
        i = i + 1;
    }
    proof {
        assert forall|j: int| !first_lost(states@, j) by {
            if 0 <= j < states@.len() {
                assert(states@[j].current is Some);
            }
        }
        assert(positions(b.planned@).len() == b.planned@.len());
        assert(conflict_views(b.conflicts@).len() == b.conflicts@.len());
    }
    if b.planned.len() == 0 && b.conflicts.len() == 0 {
        return Err(EditError::NoChanges);
    }
    Ok(b)
}

/// What came of preparing a batch of normalisations that was recorded under this
/// id.
pub fn normalize_prepared(batch_id: i64, b: &NormalizeBatch, job_ids: Vec<i64>, event: Option<BatchEvent>) -> (r:
    Prepared)
    requires
        b.planned@.len() + b.conflicts@.len() <= usize::MAX,
    ensures
        r.batch_id == batch_id,
        r.affected == b.planned@.len() + b.conflicts@.len(),
        r.unchanged == b.unchanged,
        r.conflict == b.conflicts@.len(),
        r.job_ids == job_ids,
        r.event == event,
{
    Prepared {
        batch_id,
        affected: b.planned.len() + b.conflicts.len(),
        unchanged: b.unchanged,
        conflict: b.conflicts.len(),
        job_ids,
        event,
    }
}

/// Every target is accounted for once: recorded, refused, or left as it is.
pub proof fn law_every_target_accounted(t: Seq<NormalizeTarget>, s: Seq<NormalizeState>, n: int)
    requires
        0 <= n <= t.len(),
        s.len() == t.len(),
        forall|i: int| 0 <= i < n ==> (#[trigger] s[i]).current is Some,
    ensures
        recorded(t, s, n).len() + refused(t, s, n).len() + kept(t, s, n) == n,
    decreases n,
{
    if n > 0 {
        law_every_target_accounted(t, s, n - 1);
        assert(s[n - 1].current is Some);
    }
}

/// What is turned into FLAC is what is stored without loss in another form: WAV, ALAC and AIFF.
pub proof fn law_sources_of_normalising(c: Codec)
    ensures
        is_source_codec(c) <==> !(c is Flac) && !(c is Aac) && !(c is Mp3) && !(c is Opus) && !(c is Vorbis),
        is_source_codec(c) <==> NORMALIZE_SOURCES@.contains(c),
{
    let s = NORMALIZE_SOURCES@;
    assert(s.len() == 3 && s[0] == Codec::Wav && s[1] == Codec::Alac && s[2] == Codec::Aiff);
}

/// What is planned for a track: one of another form is left as it is, one whose file is missing or whose
/// place is held by another track is a conflict, and any other becomes a FLAC beside its file. A place that
/// only a missing file holds is free.
pub proof fn law_plan_of_a_track(r: Result<NormalizePlan, EditError>, id: i64, row: NormalizeRow, other: i64)
    requires
        plan_is(r, id, row),
    ensures
        row.known is None ==> r == Ok::<NormalizePlan, EditError>(NormalizePlan::Unchanged),
        row.known == Some(Codec::Flac) || row.known == Some(Codec::Mp3) ==> r == Ok::<NormalizePlan, EditError>(
            NormalizePlan::Unchanged,
        ),
        row.known == Some(Codec::Wav) || row.known == Some(Codec::Alac) || row.known == Some(Codec::Aiff) ==> {
            &&& row.missing ==> (r matches Ok(NormalizePlan::Conflict(_)))
            &&& !row.missing && row.invalid is Some ==> (r matches Err(EditError::RelPath(_)))
            &&& !row.missing && row.invalid is None && row.holder is None ==> (r matches Ok(NormalizePlan::Path(p)) && p@
                == flac_path(row.rel_path@))
            &&& !row.missing && row.invalid is None && (row.holder == Some((id, false)) || row.holder == Some((other, true)))
                ==> (r matches Ok(NormalizePlan::Path(p)) && p@ == flac_path(row.rel_path@))
            &&& !row.missing && row.invalid is None && row.holder == Some((other, false)) && other != id
                ==> (r matches Ok(NormalizePlan::Conflict(_)))
        },
{
}

/// What becomes of a target whose file is there: what the plan or the path itself rules out is a conflict, a
/// file that is as it should be stays, and any other is turned into its new form. The path may be held by
/// the track itself, or by one whose file is missing, which gives way.
pub proof fn law_fate_of_a_target(t: NormalizeTarget, s: NormalizeState, current: Precondition)
    requires
        s.current == Some(current),
        current.rel_path is Some,
    ensures
        t.planned_conflict matches Some(reason) ==> fate(t, s) == NormalizeFate::Conflict(reason@),
        t.planned_conflict is None && hash_moved(t.expected, current) ==> fate(t, s) is Conflict,
        t.planned_conflict is None && !hash_moved(t.expected, current) ==> {
            let still = t.new_rel_path@ == current.rel_path->0@ && t.new_codec@ == s.codec@;
            &&& still ==> fate(t, s) == NormalizeFate::Unchanged
            &&& !still && s.invalid is Some ==> fate(t, s) is Conflict
            &&& !still && s.invalid is None && s.holder is None ==> fate(t, s) == NormalizeFate::Planned(None)
            &&& !still && s.invalid is None ==> (s.holder matches Some(h) ==> {
                &&& h.0 == t.track_id ==> fate(t, s) == NormalizeFate::Planned(None)
                &&& h.0 != t.track_id && h.1 ==> fate(t, s) == NormalizeFate::Planned(Some(h.0))
                &&& h.0 != t.track_id && !h.1 ==> fate(t, s) is Conflict
            })
        },
        s.current is Some ==> !(fate(t, s) is NotFound),
{
}

/// What is planned is recorded, what is refused is reported with its reason, and a track whose file is missing
/// and whose path is needed gives way.
pub proof fn law_lists_of_a_batch(t: Seq<NormalizeTarget>, s: Seq<NormalizeState>, n: int, i: int)
    requires
        0 <= i < n,
    ensures
        fate(t[i], s[i]) is Planned ==> recorded(t, s, n).contains(i),
        fate(t[i], s[i]) matches NormalizeFate::Conflict(e) ==> refused(t, s, n).contains((i, e)),
        fate(t[i], s[i]) matches NormalizeFate::Planned(Some(h)) ==> vacated(t, s, n).contains(h),
    decreases n,
{
    let a = recorded(t, s, n - 1);
    let b = refused(t, s, n - 1);
    let c = vacated(t, s, n - 1);
    let f = fate(t[i], s[i]);
    if i < n - 1 {
        law_lists_of_a_batch(t, s, n - 1, i);
        if f is Planned {
            let k = choose|k: int| 0 <= k < a.len() && a[k] == i;
            assert(recorded(t, s, n)[k] == i);
        }
        if f is Conflict {
            let e = f->Conflict_0;
            let k = choose|k: int| 0 <= k < b.len() && b[k] == (i, e);
            assert(refused(t, s, n)[k] == (i, e));
        }
        if f matches NormalizeFate::Planned(Some(_)) {
            let h = (f->Planned_0)->0;
            let k = choose|k: int| 0 <= k < c.len() && c[k] == h;
            assert(vacated(t, s, n)[k] == h);
        }
    } else {
        if f is Planned {
            assert(recorded(t, s, n).last() == i);
        }
        if f is Conflict {
            assert(refused(t, s, n).last() == (i, f->Conflict_0));
        }
        if f matches NormalizeFate::Planned(Some(_)) {
            assert(vacated(t, s, n).last() == (f->Planned_0)->0);
        }
    }
}

/// Each track whose path could be planned becomes a target, with that path.
pub proof fn law_planned_tracks_become_targets(v: Seq<PlannedNormalize>, i: int)
    requires
        0 <= i < v.len(),
    ensures
        v[i].planned matches NormalizePlan::Path(p) ==> targets_planned(v).contains((v[i].track_id, p@)),
        (forall|k: int| 0 <= k < v.len() ==> !((#[trigger] v[k]).planned is Path)) ==> targets_planned(v).len() == 0,
    decreases v.len(),
{
    let d = v.drop_last();
    let r = targets_planned(d);
    assert(v.last() == v[v.len() - 1]);
    assert forall|k: int| 0 <= k < d.len() implies #[trigger] d[k] == v[k] by {}
    if d.len() > 0 {
        law_planned_tracks_become_targets(d, if i < d.len() {
            i
        } else {
            0
        });
    }
    if v[i].planned is Path {
        let m = (v[i].track_id, v[i].planned->Path_0@);
        if i < d.len() {
            let k = choose|k: int| 0 <= k < r.len() && r[k] == m;
            assert(targets_planned(v)[k] == m);
        } else {
            assert(targets_planned(v).last() == m);
        }
    }
}

/// A batch of normalisations holds each target that is carried out, with the path and the form its file has, and each
/// that is refused, with the reason.
pub proof fn law_batch_of_normalisations(b: NormalizeBatch, t: Seq<NormalizeTarget>, s: Seq<NormalizeState>, n: int, k: int)
    requires
        batch_upto(b, t, s, n),
        0 <= n,
    ensures
        0 <= k < b.planned@.len() ==> (s[b.planned@[k].target as int].current matches Some(c) && b.planned@[k].old@
            == path_in(c)) && b.planned@[k].old_codec@ == s[b.planned@[k].target as int].codec@,
        0 <= k < n && fate(t[k], s[k]) is Planned ==> exists|x: int|
            0 <= x < b.planned@.len() && (#[trigger] b.planned@[x]).target == k,
        0 <= k < n ==> (fate(t[k], s[k]) matches NormalizeFate::Conflict(e) ==> exists|x: int|
            0 <= x < b.conflicts@.len() && (#[trigger] b.conflicts@[x]).entry.target == k && b.conflicts@[x].error@ == e),
        0 <= k < n ==> (fate(t[k], s[k]) matches NormalizeFate::Planned(Some(h)) ==> b.vacate@.contains(h)),
        b.planned@.len() + b.conflicts@.len() + b.unchanged <= n,
{
    lemma_batch_size(t, s, n);
    let p = positions(b.planned@);
    let c = conflict_views(b.conflicts@);
    assert(p.len() == b.planned@.len() && c.len() == b.conflicts@.len());
    if 0 <= k < b.planned@.len() {
        assert(entry_is(b.planned@[k], t, s));
    }
    if 0 <= k < n {
        law_lists_of_a_batch(t, s, n, k);
        if fate(t[k], s[k]) is Planned {
            let x = choose|x: int| 0 <= x < p.len() && p[x] == k;
            assert(b.planned@[x].target == k);
        }
        if fate(t[k], s[k]) is Conflict {
            let e = fate(t[k], s[k])->Conflict_0;
            let x = choose|x: int| 0 <= x < c.len() && c[x] == (k, e);
            assert(b.conflicts@[x].entry.target == k);
        }
    }
}

proof fn lemma_batch_size(t: Seq<NormalizeTarget>, s: Seq<NormalizeState>, n: int)
    ensures
        0 <= n ==> recorded(t, s, n).len() + refused(t, s, n).len() + kept(t, s, n) <= n,
    decreases n,
{
    if n > 0 {
        lemma_batch_size(t, s, n - 1);
    }
}

/// A plan names the track, the path and the form of its file, and a target the track and the path it gets.
pub proof fn law_planned_as_listed(p: PlannedNormalize, ids: Seq<i64>, rows: Seq<Option<NormalizeRow>>, v: Seq<NormalizeTarget>, i: int)
    ensures
        planned_at(p, ids, rows, i) ==> p.track_id == ids[i] && (rows[i] matches Some(r) && p.current_rel_path@
            == r.rel_path@ && p.codec@ == r.codec@),
        0 <= i < v.len() ==> target_views(v)[i] == (v[i].track_id, v[i].new_rel_path@),
        rows[i] is None ==> stops_plan(rows, i),
        rows[i] matches Some(r) ==> (r.known == Some(Codec::Flac) || r.missing ==> !stops_plan(rows, i)),
        rows[i] matches Some(r) ==> (r.known == Some(Codec::Wav) && !r.missing ==> (stops_plan(rows, i)
            <==> r.invalid is Some)),
{
}

/// A batch with a track that is not there any more is refused, and names the first such track.
pub proof fn law_first_lost_track(s: Seq<NormalizeState>, i: int) -> (j: int)
    requires
        0 <= i < s.len(),
        s[i].current is None,
    ensures
        0 <= j <= i,
        first_lost(s, j),
        s[j].current is None,
        forall|k: int| 0 <= k < j ==> (#[trigger] s[k]).current is Some,
        forall|x: int| first_lost(s, x) ==> x == j,
    decreases i,
{
    if exists|k: int| 0 <= k < i && (#[trigger] s[k]).current is None {
        let k = choose|k: int| 0 <= k < i && (#[trigger] s[k]).current is None;
        law_first_lost_track(s, k)
    } else {
        assert forall|x: int| first_lost(s, x) implies x == i by {
            assert(s[x].current is None);
        }
        i
    }
}

/// Planning stops at the first track that is not there or whose place cannot be named.
pub proof fn law_first_stop_of_a_plan(rows: Seq<Option<NormalizeRow>>, i: int) -> (j: int)
    requires
        0 <= i < rows.len(),
        stops_plan(rows, i),
    ensures
        0 <= j <= i,
        first_stop(rows, j),
        stops_plan(rows, j),
        forall|x: int| first_stop(rows, x) ==> x == j,
    decreases i,
{
    if exists|k: int| 0 <= k < i && #[trigger] stops_plan(rows, k) {
        let k = choose|k: int| 0 <= k < i && #[trigger] stops_plan(rows, k);
        law_first_stop_of_a_plan(rows, k)
    } else {
        assert forall|x: int| first_stop(rows, x) implies x == i by {
            assert(stops_plan(rows, x));
        }
        i
    }
}

} // verus!
