//! Recording a batch of renames: which targets are carried out, and which are
//! conflicts.

use crate::catalog::same_bytes;
use crate::edit::error::EditError;
use crate::edit::batch::BatchEvent;
use crate::edit::history::{clone_precondition, opt_bytes, same_precondition, Precondition};
use crate::edit::naming::rename_dedup_key;
use crate::edit::tags::{check_selection, has_duplicate, lowest_duplicate, Prepared};
use crate::lists::has_id;
use crate::order::{count_text, times};
use crate::text::{concat2, int_text, opt_text, same_text, texts};
use crate::unicode::{canonical, canonical_key};
use vstd::prelude::*;
use vstd::string::*;

verus! {

/// A track that is to be renamed.
#[derive(Debug)]
pub struct RenameTarget {
    pub track_id: i64,
    pub new_rel_path: String,
    /// How the file looked when the rename was shown, none where it was not.
    pub expected: Option<Precondition>,
    /// Why planning found no path for it.
    pub planned_conflict: Option<String>,
}

/// What the catalogue says of a target.
#[derive(Debug)]
pub struct RenameState {
    /// How the file looks, none where there is no such track.
    pub current: Option<Precondition>,
    /// What is wrong with the new path.
    pub invalid: Option<String>,
    /// The track that stands under the key of the new path, and that it is
    /// missing.
    pub holder: Option<(i64, bool)>,
}

/// What becomes of a target.
pub enum RenameFate {
    NotFound,
    Conflict(Seq<char>),
    Unchanged,
    /// It is renamed; a missing track gives up its path for it.
    Planned(Option<i64>),
}

/// The path that a precondition names, empty where it names none.
pub open spec fn path_in(p: Precondition) -> Seq<char> {
    match p.rel_path {
        Some(s) => s@,
        None => Seq::empty(),
    }
}

/// The ids of the targets.
pub open spec fn rename_ids(t: Seq<RenameTarget>) -> Seq<i64> {
    t.map_values(|x: RenameTarget| x.track_id)
}

/// The keys of the new paths that are valid.
pub open spec fn valid_keys(t: Seq<RenameTarget>, s: Seq<RenameState>, n: int) -> Seq<Seq<char>>
    decreases n,
{
    if n <= 0 {
        Seq::empty()
    } else {
        let r = valid_keys(t, s, n - 1);
        if s[n - 1].invalid is None {
            r.push(canonical(t[n - 1].new_rel_path@))
        } else {
            r
        }
    }
}

/// The tags changed since the target was shown.
pub open spec fn hash_moved(shown: Option<Precondition>, current: Precondition) -> bool {
    shown is Some && shown->0.tag_hash is Some && opt_bytes(shown->0.tag_hash) != opt_bytes(current.tag_hash)
}

/// What becomes of a target, where `keys` are the keys of all new paths and
/// `ids` the tracks of the selection.
pub open spec fn fate(t: RenameTarget, s: RenameState, keys: Seq<Seq<char>>, ids: Seq<i64>) -> RenameFate {
    match s.current {
        None => RenameFate::NotFound,
        Some(current) => match t.planned_conflict {
            Some(reason) => RenameFate::Conflict(reason@),
            None => if hash_moved(t.expected, current) {
                RenameFate::Conflict("プレビューの後に変更された（tag_hash 不一致）"@)
            } else if t.new_rel_path@ == path_in(current) {
                RenameFate::Unchanged
            } else {
                match s.invalid {
                    Some(e) => RenameFate::Conflict("宛先が不正: "@ + e@),
                    None => if times(keys, canonical(t.new_rel_path@)) > 1 {
                        RenameFate::Conflict("宛先が選択内の別のトラックと重複: "@ + t.new_rel_path@)
                    } else {
                        match s.holder {
                            Some(h) => if ids.contains(h.0) {
                                RenameFate::Planned(None)
                            } else if !h.1 {
                                RenameFate::Conflict("宛先を別のトラックが占有: "@ + t.new_rel_path@)
                            } else {
                                RenameFate::Planned(Some(h.0))
                            },
                            None => RenameFate::Planned(None),
                        }
                    },
                }
            },
        },
    }
}

/// What becomes of the target at `i`.
pub open spec fn fate_at(t: Seq<RenameTarget>, s: Seq<RenameState>, i: int) -> RenameFate {
    fate(t[i], s[i], valid_keys(t, s, t.len() as int), rename_ids(t))
}

/// The targets that are renamed, by position.
pub open spec fn renamed(t: Seq<RenameTarget>, s: Seq<RenameState>, n: int) -> Seq<int>
    decreases n,
{
    if n <= 0 {
        Seq::empty()
    } else {
        let r = renamed(t, s, n - 1);
        if fate_at(t, s, n - 1) is Planned {
            r.push(n - 1)
        } else {
            r
        }
    }
}

/// The targets that are conflicts, by position, with the reason of each.
pub open spec fn refused(t: Seq<RenameTarget>, s: Seq<RenameState>, n: int) -> Seq<(int, Seq<char>)>
    decreases n,
{
    if n <= 0 {
        Seq::empty()
    } else {
        let r = refused(t, s, n - 1);
        match fate_at(t, s, n - 1) {
            RenameFate::Conflict(e) => r.push((n - 1, e)),
            _ => r,
        }
    }
}

/// The missing tracks that give up their paths.
pub open spec fn vacated(t: Seq<RenameTarget>, s: Seq<RenameState>, n: int) -> Seq<i64>
    decreases n,
{
    if n <= 0 {
        Seq::empty()
    } else {
        let r = vacated(t, s, n - 1);
        match fate_at(t, s, n - 1) {
            RenameFate::Planned(Some(h)) => r.push(h),
            _ => r,
        }
    }
}

/// How many targets have their path already.
pub open spec fn kept(t: Seq<RenameTarget>, s: Seq<RenameState>, n: int) -> nat
    decreases n,
{
    if n <= 0 {
        0
    } else {
        kept(t, s, n - 1) + if fate_at(t, s, n - 1) is Unchanged {
            1nat
        } else {
            0nat
        }
    }
}

/// An operation that is recorded for a target.
#[derive(Debug)]
pub struct RenameEntry {
    /// The position of the target.
    pub target: usize,
    /// How the file has to look when it is renamed.
    pub expected: Precondition,
    pub old: String,
}

/// An operation that is recorded as a conflict.
#[derive(Debug)]
pub struct RenameConflict {
    pub entry: RenameEntry,
    pub error: String,
}

/// What a batch of renames records.
#[derive(Debug)]
pub struct RenameBatch {
    pub planned: Vec<RenameEntry>,
    pub conflicts: Vec<RenameConflict>,
    /// Missing tracks that give up their paths.
    pub vacate: Vec<i64>,
    pub unchanged: usize,
}

/// The precondition that is recorded: the one that was shown, else how the file
/// looks.
pub open spec fn expected_of(t: RenameTarget, s: RenameState) -> Precondition {
    match t.expected {
        Some(e) => e,
        None => s.current->0,
    }
}

/// The entry records the target at its position.
pub open spec fn entry_is(e: RenameEntry, t: Seq<RenameTarget>, s: Seq<RenameState>) -> bool {
    &&& e.target < t.len()
    &&& s[e.target as int].current is Some
    &&& same_precondition(e.expected, expected_of(t[e.target as int], s[e.target as int]))
    &&& e.old@ == path_in(s[e.target as int].current->0)
}

/// The positions of entries.
pub open spec fn positions(v: Seq<RenameEntry>) -> Seq<int> {
    v.map_values(|e: RenameEntry| e.target as int)
}

/// The positions of conflicts, with their reasons.
pub open spec fn conflict_views(v: Seq<RenameConflict>) -> Seq<(int, Seq<char>)> {
    v.map_values(|c: RenameConflict| (c.entry.target as int, c.error@))
}

/// The batch records what becomes of the first `n` targets.
pub open spec fn batch_upto(b: RenameBatch, t: Seq<RenameTarget>, s: Seq<RenameState>, n: int) -> bool {
    &&& positions(b.planned@) == renamed(t, s, n)
    &&& conflict_views(b.conflicts@) == refused(t, s, n)
    &&& b.vacate@ == vacated(t, s, n)
    &&& b.unchanged == kept(t, s, n)
    &&& forall|i: int| 0 <= i < b.planned@.len() ==> entry_is(#[trigger] b.planned@[i], t, s)
    &&& forall|i: int| 0 <= i < b.conflicts@.len() ==> entry_is((#[trigger] b.conflicts@[i]).entry, t, s)
}

/// The first target that is not there.
pub open spec fn first_lost(s: Seq<RenameState>, i: int) -> bool {
    &&& 0 <= i < s.len()
    &&& s[i].current is None
    &&& forall|j: int| 0 <= j < i ==> (#[trigger] s[j]).current is Some
}

/// The tags changed since the target was shown.
pub fn has_moved(shown: &Option<Precondition>, current: &Precondition) -> (r: bool)
    ensures
        r == hash_moved(*shown, *current),
{
    match shown {
        Some(e) => match (&e.tag_hash, &current.tag_hash) {
            (Some(a), Some(b)) => !same_bytes(a.as_slice(), b.as_slice()),
            (Some(_), None) => true,
            _ => false,
        },
        None => false,
    }
}

fn keys_of_targets(targets: &Vec<RenameTarget>, states: &Vec<RenameState>) -> (r: Vec<String>)
    requires
        states@.len() == targets@.len(),
    ensures
        texts(r@) == valid_keys(targets@, states@, targets@.len() as int),
{
    let mut out: Vec<String> = Vec::new();
    let mut i: usize = 0;
    proof {
        assert(texts(out@) =~= Seq::<Seq<char>>::empty());
    }
    while i < targets.len()
        invariant
            i <= targets@.len(),
            states@.len() == targets@.len(),
            texts(out@) == valid_keys(targets@, states@, i as int),
        decreases targets@.len() - i,
    {
        if states[i].invalid.is_none() {
            let k = canonical_key(&targets[i].new_rel_path);
            let ghost before = texts(out@);
            let ghost kt = k@;
            out.push(k);
            proof {
                assert(texts(out@) =~= before.push(kt));
            }
        }
        i = i + 1;
    }
    out
}

fn ids_of_targets(targets: &Vec<RenameTarget>) -> (r: Vec<i64>)
    ensures
        r@ == rename_ids(targets@),
{
    let mut out: Vec<i64> = Vec::new();
    let mut i: usize = 0;
    while i < targets.len()
        invariant
            i <= targets@.len(),
            out@ == rename_ids(targets@).take(i as int),
        decreases targets@.len() - i,
    {
        out.push(targets[i].track_id);
        proof {
            assert(rename_ids(targets@).take(i + 1) =~= rename_ids(targets@).take(i as int).push(
                targets@[i as int].track_id,
            ));
        }
        i = i + 1;
    }
    proof {
        assert(rename_ids(targets@).take(i as int) =~= rename_ids(targets@));
    }
    out
}

/// What becomes of a target that is there.
enum Decision {
    Conflict(String),
    Unchanged,
    Planned(Option<i64>),
}

fn decide(t: &RenameTarget, s: &RenameState, current: &Precondition, keys: &Vec<String>, ids: &Vec<i64>) -> (r: Decision)
    requires
        s.current == Some(*current),
    ensures
        match fate(*t, *s, texts(keys@), ids@) {
            RenameFate::NotFound => false,
            RenameFate::Conflict(e) => r matches Decision::Conflict(m) && m@ == e,
            RenameFate::Unchanged => r is Unchanged,
            RenameFate::Planned(v) => r == Decision::Planned(v),
        },
{
    if let Some(reason) = &t.planned_conflict {
        return Decision::Conflict(reason.clone());
    }
    if has_moved(&t.expected, current) {
        return Decision::Conflict("プレビューの後に変更された（tag_hash 不一致）".to_owned());
    }
    let same = match &current.rel_path {
        Some(p) => same_text(&t.new_rel_path, p),
        None => t.new_rel_path.as_str().is_empty(),
    };
    if same {
        proof {
            assert(t.new_rel_path@ =~= path_in(*current));
        }
        return Decision::Unchanged;
    }
    if let Some(e) = &s.invalid {
        return Decision::Conflict(concat2("宛先が不正: ", e));
    }
    let key = canonical_key(&t.new_rel_path);
    if count_text(keys, &key) > 1 {
        return Decision::Conflict(concat2("宛先が選択内の別のトラックと重複: ", &t.new_rel_path));
    }
    match s.holder {
        Some(h) => {
            if has_id(ids, h.0) {
                Decision::Planned(None)
            } else if !h.1 {
                Decision::Conflict(concat2("宛先を別のトラックが占有: ", &t.new_rel_path))
            } else {
                Decision::Planned(Some(h.0))
            }
        },
        None => Decision::Planned(None),
    }
}

fn entry(i: usize, t: &RenameTarget, current: &Precondition) -> (r: RenameEntry)
    ensures
        r.target == i,
        t.expected is Some ==> same_precondition(r.expected, t.expected->0),
        t.expected is None ==> same_precondition(r.expected, *current),
        r.old@ == path_in(*current),
{
    let expected = match &t.expected {
        Some(e) => clone_precondition(e),
        None => clone_precondition(current),
    };
    let old = match &current.rel_path {
        Some(p) => p.clone(),
        None => String::new(),
    };
    RenameEntry { target: i, expected, old }
}

/// What a batch records for its targets. `pending` are the tracks of the
/// selection that operations wait for. A selection with a track twice, with one
/// that an operation waits for or with one that is not there, is refused, and
/// so is one that has nothing to record.
pub fn prepare_rename(targets: &Vec<RenameTarget>, states: &Vec<RenameState>, pending: Vec<i64>) -> (r: Result<
    RenameBatch,
    EditError,
>)
    requires
        states@.len() == targets@.len(),
    ensures
        if has_duplicate(rename_ids(targets@)) {
            r matches Err(EditError::DuplicateTrack(d)) && lowest_duplicate(rename_ids(targets@), d)
        } else if pending@.len() > 0 {
            r == Err::<RenameBatch, EditError>(EditError::Pending { track_ids: pending })
        } else if exists|i: int| first_lost(states@, i) {
            exists|i: int| #[trigger]
                first_lost(states@, i) && r == Err::<RenameBatch, EditError>(
                    EditError::TrackNotFound(targets@[i].track_id),
                )
        } else if renamed(targets@, states@, targets@.len() as int).len() == 0 && refused(
            targets@,
            states@,
            targets@.len() as int,
        ).len() == 0 {
            r == Err::<RenameBatch, EditError>(EditError::NoChanges)
        } else {
            r matches Ok(b) && batch_upto(b, targets@, states@, targets@.len() as int)
        },
{
    let ids = ids_of_targets(targets);
    match check_selection(&ids, pending) {
        Ok(()) => {},
        Err(e) => {
            return Err(e);
        },
    }
    let keys = keys_of_targets(targets, states);
    let mut b = RenameBatch { planned: Vec::new(), conflicts: Vec::new(), vacate: Vec::new(), unchanged: 0 };
    let mut i: usize = 0;
    proof {
        assert(positions(b.planned@) =~= Seq::<int>::empty());
        assert(conflict_views(b.conflicts@) =~= Seq::<(int, Seq<char>)>::empty());
    }
    while i < targets.len()
        invariant
            i <= targets@.len(),
            states@.len() == targets@.len(),
            !has_duplicate(rename_ids(targets@)),
            pending@.len() == 0,
            ids@ == rename_ids(targets@),
            texts(keys@) == valid_keys(targets@, states@, targets@.len() as int),
            b.unchanged <= i,
            batch_upto(b, targets@, states@, i as int),
            forall|j: int| 0 <= j < i ==> (#[trigger] states@[j]).current is Some,
        decreases targets@.len() - i,
    {
        let t = &targets[i];
        let s = &states[i];
        match &s.current {
            None => {
                proof {
                    assert(first_lost(states@, i as int));
                }
                return Err(EditError::TrackNotFound(t.track_id));
            },
            Some(current) => {
                let ghost p0 = positions(b.planned@);
                let ghost c0 = conflict_views(b.conflicts@);
                let ghost b0 = b;
                match decide(t, s, current, &keys, &ids) {
                    Decision::Conflict(error) => {
                        let e = entry(i, t, current);
                        let ghost et = error@;
                        b.conflicts.push(RenameConflict { entry: e, error });
                        proof {
                            assert(conflict_views(b.conflicts@) =~= c0.push((i as int, et)));
                        }
                    },
                    Decision::Unchanged => {
                        b.unchanged = b.unchanged + 1;
                    },
                    Decision::Planned(v) => {
                        let e = entry(i, t, current);
                        b.planned.push(e);
                        proof {
                            assert(positions(b.planned@) =~= p0.push(i as int));
                        }
                        if let Some(h) = v {
                            b.vacate.push(h);
                        }
                    },
                }
            },
        }
        i = i + 1;
    }
    proof {
        assert forall|j: int| !first_lost(states@, j) by {
            if 0 <= j < states@.len() {
                assert(states@[j].current is Some);
            }
        }
        assert(positions(b.planned@).len() == b.planned@.len());
        assert(conflict_views(b.conflicts@).len() == b.conflicts@.len());
    }
    if b.planned.len() == 0 && b.conflicts.len() == 0 {
        return Err(EditError::NoChanges);
    }
    Ok(b)
}

/// The key of the job that carries out a batch: one job for the whole batch, none
/// where nothing is renamed.
pub fn rename_job_key(batch_id: i64, b: &RenameBatch) -> (r: Option<String>)
    ensures
        opt_text(r) == (if b.planned@.len() == 0 {
            None
        } else {
            Some("rename:batch:"@ + int_text(batch_id as int))
        }),
{
    if b.planned.len() == 0 {
        None
    } else {
        Some(rename_dedup_key(batch_id))
    }
}

/// What came of preparing a batch of renames that was recorded under this id.
pub fn rename_prepared(batch_id: i64, b: &RenameBatch, job_ids: Vec<i64>, event: Option<BatchEvent>) -> (r: Prepared)
    requires
        b.planned@.len() + b.conflicts@.len() <= usize::MAX,
    ensures
        r.batch_id == batch_id,
        r.affected == b.planned@.len() + b.conflicts@.len(),
        r.unchanged == b.unchanged,
        r.conflict == b.conflicts@.len(),
        r.job_ids == job_ids,
        r.event == event,
{
    Prepared {
        batch_id,
        affected: b.planned.len() + b.conflicts.len(),
        unchanged: b.unchanged,
        conflict: b.conflicts.len(),
        job_ids,
        event,
    }
}

/// The tracks that move, each with its new path and the key of that.
pub fn rename_moves(targets: &Vec<RenameTarget>, planned: &Vec<RenameEntry>) -> (r: Vec<(i64, String, String)>)
    requires
        forall|i: int| 0 <= i < planned@.len() ==> (#[trigger] planned@[i]).target < targets@.len(),
    ensures
        r@.len() == planned@.len(),
        forall|i: int|
            0 <= i < planned@.len() ==> (#[trigger] r@[i]).0 == targets@[planned@[i].target as int].track_id && r@[i].1@
                == targets@[planned@[i].target as int].new_rel_path@ && r@[i].2@ == canonical(r@[i].1@),
{
    let mut out: Vec<(i64, String, String)> = Vec::new();
    let mut i: usize = 0;
    while i < planned.len()
        invariant
            i <= planned@.len(),
            out@.len() == i,
            forall|k: int| 0 <= k < planned@.len() ==> (#[trigger] planned@[k]).target < targets@.len(),
            forall|k: int|
                0 <= k < i ==> (#[trigger] out@[k]).0 == targets@[planned@[k].target as int].track_id && out@[k].1@
                    == targets@[planned@[k].target as int].new_rel_path@ && out@[k].2@ == canonical(out@[k].1@),
        decreases planned@.len() - i,
    {
        let t = &targets[planned[i].target];
        let key = canonical_key(&t.new_rel_path);
        out.push((t.track_id, t.new_rel_path.clone(), key));
        i = i + 1;
    }
    out
}

// ---------------------------------------------------------------- laws

proof fn lemma_valid_key_counted(t: Seq<RenameTarget>, s: Seq<RenameState>, n: int, i: int, k: Seq<char>)
    requires
        0 <= i < n <= t.len(),
        s[i].invalid is None,
        canonical(t[i].new_rel_path@) == k,
    ensures
        times(valid_keys(t, s, n), k) >= 1,
    decreases n,
{
    let r = valid_keys(t, s, n - 1);
    if s[n - 1].invalid is None {
        let c = canonical(t[n - 1].new_rel_path@);
        assert(r.push(c).drop_last() =~= r);
        assert(r.push(c).last() == c);
    }
    if i < n - 1 {
        lemma_valid_key_counted(t, s, n - 1, i, k);
    }
}

proof fn lemma_valid_key_twice(t: Seq<RenameTarget>, s: Seq<RenameState>, n: int, i: int, j: int, k: Seq<char>)
    requires
        0 <= i < j < n <= t.len(),
        s[i].invalid is None,
        s[j].invalid is None,
        canonical(t[i].new_rel_path@) == k,
        canonical(t[j].new_rel_path@) == k,
    ensures
        times(valid_keys(t, s, n), k) >= 2,
    decreases n,
{
    let r = valid_keys(t, s, n - 1);
    if s[n - 1].invalid is None {
        let c = canonical(t[n - 1].new_rel_path@);
        assert(r.push(c).drop_last() =~= r);
        assert(r.push(c).last() == c);
    }
    if j < n - 1 {
        lemma_valid_key_twice(t, s, n - 1, i, j, k);
    } else {
        lemma_valid_key_counted(t, s, n - 1, i, k);
    }
}

/// No two tracks of a batch are renamed to paths with the same key.
pub proof fn law_new_paths_distinct(t: Seq<RenameTarget>, s: Seq<RenameState>, i: int, j: int)
    requires
        s.len() == t.len(),
        0 <= i < j < t.len(),
        fate_at(t, s, i) is Planned,
        fate_at(t, s, j) is Planned,
    ensures
        canonical(t[i].new_rel_path@) != canonical(t[j].new_rel_path@),
{
    if canonical(t[i].new_rel_path@) == canonical(t[j].new_rel_path@) {
        lemma_valid_key_twice(t, s, t.len() as int, i, j, canonical(t[i].new_rel_path@));
    }
}

/// A track is renamed only to a path that is free, that a track of the batch
/// leaves, or whose track is missing.
pub proof fn law_no_foreign_path_taken(t: Seq<RenameTarget>, s: Seq<RenameState>, i: int)
    requires
        s.len() == t.len(),
        0 <= i < t.len(),
        fate_at(t, s, i) is Planned,
    ensures
        s[i].holder is Some ==> rename_ids(t).contains((s[i].holder->0).0) || (s[i].holder->0).1,
        s[i].invalid is None,
        s[i].current is Some && t[i].new_rel_path@ != path_in(s[i].current->0),
{
}

/// Every target is accounted for once: renamed, refused, or left as it is.
pub proof fn law_every_target_accounted(t: Seq<RenameTarget>, s: Seq<RenameState>, n: int)
    requires
        0 <= n <= t.len(),
        s.len() == t.len(),
        forall|i: int| 0 <= i < n ==> (#[trigger] s[i]).current is Some,
    ensures
        renamed(t, s, n).len() + refused(t, s, n).len() + kept(t, s, n) == n,
    decreases n,
{
    if n > 0 {
        law_every_target_accounted(t, s, n - 1);
        assert(s[n - 1].current is Some);
    }
}

/// A preview is out of date where the hash of the tags it showed is another one now; one that showed none,
/// and a rename without a preview, are never out of date.
pub proof fn law_outdated_preview(shown: Precondition, current: Precondition)
    ensures
        !hash_moved(None, current),
        shown.tag_hash is None ==> !hash_moved(Some(shown), current),
        shown.tag_hash is Some && current.tag_hash is Some ==> (hash_moved(Some(shown), current) <==> shown.tag_hash->0@
            != current.tag_hash->0@),
        shown.tag_hash is Some && current.tag_hash is None ==> hash_moved(Some(shown), current),
{
}

/// What becomes of a target whose file is there: what the plan or the path itself rules out is a conflict, a
/// file that stands where it should stays, and any other is renamed. The path may be held by a track of the
/// selection, which moves itself, or by one whose file is missing, which gives way.
pub proof fn law_fate_of_a_target(
    t: RenameTarget,
    s: RenameState,
    keys: Seq<Seq<char>>,
    ids: Seq<i64>,
    current: Precondition,
    path: Seq<char>,
)
    requires
        s.current == Some(current),
        current.rel_path is Some,
        current.rel_path->0@ == path,
    ensures
        t.planned_conflict matches Some(reason) ==> fate(t, s, keys, ids) == RenameFate::Conflict(reason@),
        t.planned_conflict is None && hash_moved(t.expected, current) ==> fate(t, s, keys, ids) is Conflict,
        t.planned_conflict is None && !hash_moved(t.expected, current) ==> {
            let f = fate(t, s, keys, ids);
            &&& t.new_rel_path@ == path ==> f == RenameFate::Unchanged
            &&& t.new_rel_path@ != path && s.invalid is Some ==> f is Conflict
            &&& t.new_rel_path@ != path && s.invalid is None && times(keys, canonical(t.new_rel_path@)) > 1 ==> f is Conflict
            &&& t.new_rel_path@ != path && s.invalid is None && times(keys, canonical(t.new_rel_path@)) <= 1 ==> {
                &&& s.holder is None ==> f == RenameFate::Planned(None)
                &&& s.holder matches Some(h) ==> {
                    &&& ids.contains(h.0) ==> f == RenameFate::Planned(None)
                    &&& !ids.contains(h.0) && h.1 ==> f == RenameFate::Planned(Some(h.0))
                    &&& !ids.contains(h.0) && !h.1 ==> f is Conflict
                }
            }
        },
{
}

/// Two targets that would get the same path, whatever its spelling, are both refused.
pub proof fn law_two_targets_one_path(t: Seq<RenameTarget>, s: Seq<RenameState>, i: int, j: int)
    requires
        s.len() == t.len(),
        0 <= i < j < t.len(),
        s[i].invalid is None,
        s[j].invalid is None,
        canonical(t[i].new_rel_path@) == canonical(t[j].new_rel_path@),
    ensures
        !(fate_at(t, s, i) is Planned),
        !(fate_at(t, s, j) is Planned),
{
    lemma_key_times(t, s, t.len() as int, i, j);
}

proof fn lemma_key_times(t: Seq<RenameTarget>, s: Seq<RenameState>, n: int, i: int, j: int)
    requires
        0 <= i < j,
        s[i].invalid is None,
        s[j].invalid is None,
        canonical(t[i].new_rel_path@) == canonical(t[j].new_rel_path@),
    ensures
        i < n ==> times(valid_keys(t, s, n), canonical(t[i].new_rel_path@)) >= 1,
        j < n ==> times(valid_keys(t, s, n), canonical(t[i].new_rel_path@)) >= 2,
    decreases n,
{
    if n > 0 {
        lemma_key_times(t, s, n - 1, i, j);
        let r = valid_keys(t, s, n - 1);
        if s[n - 1].invalid is None {
            assert(valid_keys(t, s, n).drop_last() =~= r);
        }
    }
}

/// What is planned is carried out, what is refused is reported with its reason, and a track whose file is
/// missing and whose path is needed gives way; nothing else happens to a target.
pub proof fn law_lists_of_a_batch(t: Seq<RenameTarget>, s: Seq<RenameState>, n: int, i: int)
    requires
        0 <= i < n,
    ensures
        fate_at(t, s, i) is Planned <==> renamed(t, s, n).contains(i),
        fate_at(t, s, i) matches RenameFate::Conflict(e) ==> refused(t, s, n).contains((i, e)),
        fate_at(t, s, i) matches RenameFate::Planned(Some(h)) ==> vacated(t, s, n).contains(h),
    decreases n,
{
    let a = renamed(t, s, n - 1);
    let b = refused(t, s, n - 1);
    let c = vacated(t, s, n - 1);
    lemma_renamed_below(t, s, n - 1);
    if i < n - 1 {
        law_lists_of_a_batch(t, s, n - 1, i);
        if a.contains(i) {
            let k = choose|k: int| 0 <= k < a.len() && a[k] == i;
            assert(renamed(t, s, n)[k] == i);
        }
        if renamed(t, s, n).contains(i) {
            let k = choose|k: int| 0 <= k < renamed(t, s, n).len() && renamed(t, s, n)[k] == i;
            assert(k < a.len());
            assert(a[k] == i);
        }
        if fate_at(t, s, i) is Conflict {
            let e = fate_at(t, s, i)->Conflict_0;
            let k = choose|k: int| 0 <= k < b.len() && b[k] == (i, e);
            assert(refused(t, s, n)[k] == (i, e));
        }
        if fate_at(t, s, i) matches RenameFate::Planned(Some(h)) {
            let h = (fate_at(t, s, i)->Planned_0)->0;
            let k = choose|k: int| 0 <= k < c.len() && c[k] == h;
            assert(vacated(t, s, n)[k] == h);
        }
    } else {
        if fate_at(t, s, i) is Planned {
            assert(renamed(t, s, n).last() == i);
        } else if renamed(t, s, n).contains(i) {
            let k = choose|k: int| 0 <= k < a.len() && a[k] == i;
            assert(a[k] < n - 1);
        }
        if fate_at(t, s, i) is Conflict {
            assert(refused(t, s, n).last() == (i, fate_at(t, s, i)->Conflict_0));
        }
        if fate_at(t, s, i) matches RenameFate::Planned(Some(h)) {
            assert(vacated(t, s, n).last() == (fate_at(t, s, i)->Planned_0)->0);
        }
    }
}

proof fn lemma_renamed_below(t: Seq<RenameTarget>, s: Seq<RenameState>, n: int)
    ensures
        forall|k: int| 0 <= k < renamed(t, s, n).len() ==> 0 <= #[trigger] renamed(t, s, n)[k] < n,
    decreases n,
{
    if n > 0 {
        lemma_renamed_below(t, s, n - 1);
        let r = renamed(t, s, n - 1);
        assert forall|k: int| 0 <= k < renamed(t, s, n).len() implies 0 <= #[trigger] renamed(t, s, n)[k] < n by {
            if k < r.len() {
                assert(renamed(t, s, n)[k] == r[k]);
            }
        }
    }
}

/// A rename is checked against the file as it was shown, and as it is now where nothing was shown.
pub proof fn law_checked_as_shown(t: RenameTarget, s: RenameState)
    requires
        s.current is Some,
    ensures
        t.expected matches Some(e) ==> expected_of(t, s) == e,
        t.expected is None ==> expected_of(t, s) == s.current->0,
{
}

/// A batch of renames holds each target that is renamed, with the path its file has, and each that is refused, with the
/// reason; and no other.
pub proof fn law_batch_of_renames(b: RenameBatch, t: Seq<RenameTarget>, s: Seq<RenameState>, n: int, k: int)
    requires
        batch_upto(b, t, s, n),
        0 <= n,
    ensures
        0 <= k < b.planned@.len() ==> b.planned@[k].target < n && fate_at(t, s, b.planned@[k].target as int) is Planned
            && (s[b.planned@[k].target as int].current matches Some(c) && b.planned@[k].old@ == path_in(c)),
        0 <= k < n && fate_at(t, s, k) is Planned ==> exists|x: int|
            0 <= x < b.planned@.len() && (#[trigger] b.planned@[x]).target == k,
        0 <= k < n ==> (fate_at(t, s, k) matches RenameFate::Conflict(e) ==> exists|x: int|
            0 <= x < b.conflicts@.len() && (#[trigger] b.conflicts@[x]).entry.target == k && b.conflicts@[x].error@ == e),
        0 <= k < n ==> (fate_at(t, s, k) matches RenameFate::Planned(Some(h)) ==> b.vacate@.contains(h)),
        b.planned@.len() + b.conflicts@.len() + b.unchanged <= n,
{
    lemma_renamed_below(t, s, n);
    lemma_batch_size(t, s, n);
    let p = positions(b.planned@);
    let c = conflict_views(b.conflicts@);
    assert(p.len() == b.planned@.len() && c.len() == b.conflicts@.len());
    if 0 <= k < b.planned@.len() {
        assert(p[k] == b.planned@[k].target as int);
        assert(entry_is(b.planned@[k], t, s));
        assert(0 <= p[k] < n);
        law_lists_of_a_batch(t, s, n, p[k]);
        assert(renamed(t, s, n).contains(p[k]));
    }
    if 0 <= k < n {
        law_lists_of_a_batch(t, s, n, k);
        if fate_at(t, s, k) is Planned {
            let x = choose|x: int| 0 <= x < p.len() && p[x] == k;
            assert(b.planned@[x].target == k);
        }
        if fate_at(t, s, k) is Conflict {
            let e = fate_at(t, s, k)->Conflict_0;
            let x = choose|x: int| 0 <= x < c.len() && c[x] == (k, e);
            assert(b.conflicts@[x].entry.target == k);
        }
    }
}

proof fn lemma_batch_size(t: Seq<RenameTarget>, s: Seq<RenameState>, n: int)
    ensures
        0 <= n ==> renamed(t, s, n).len() + refused(t, s, n).len() + kept(t, s, n) <= n,
    decreases n,
{
    if n > 0 {
        lemma_batch_size(t, s, n - 1);
    }
}

/// A batch with a track that is not there any more is refused, and names the first such track.
pub proof fn law_first_lost_track(s: Seq<RenameState>, i: int) -> (j: int)
    requires
        0 <= i < s.len(),
        s[i].current is None,
    ensures
        0 <= j <= i,
        first_lost(s, j),
        s[j].current is None,
        forall|k: int| 0 <= k < j ==> (#[trigger] s[k]).current is Some,
        forall|x: int| first_lost(s, x) ==> x == j,
    decreases i,
{
    if exists|k: int| 0 <= k < i && (#[trigger] s[k]).current is None {
        let k = choose|k: int| 0 <= k < i && (#[trigger] s[k]).current is None;
        law_first_lost_track(s, k)
    } else {
        assert forall|x: int| first_lost(s, x) implies x == i by {
            assert(s[x].current is None);
        }
        i
    }
}

} // verus!
