//! Carrying out a batch of renames in two phases. First every file moves to a
//! name of its own beside the old one, then every file moves to its new name, so
//! that tracks can take each other's names. No move replaces a file.

use crate::edit::batch::Op;
use crate::edit::error::EditError;
use crate::edit::history::{name_if, note_if, edit_at, find_edit, no_edit, Edit, JsonText, JsonValue, OpResult, Precondition};
use crate::edit::naming::{law_working_paths_distinct, temp_rel_path, working_path};
use crate::fsroot::Stat;
use crate::lists::has_id;
use crate::split::join;
use crate::text::{concat2, concat3, int_text, int_to_text, joined, opt_text, same_text, texts};
use crate::unicode::{canonical, canonical_key};
use vstd::prelude::*;
use vstd::string::*;

verus! {

/// Where the work can be watched.
#[derive(Debug, Clone, Copy, PartialEq, Eq, Structural)]
pub enum RenameStep {
    /// Every file stands under its name between.
    Staged,
    /// The file of this operation is about to get its new name.
    BeforeFinal(i64),
}

/// What came of a batch.
#[derive(Debug, Clone, Copy, PartialEq, Eq, Structural)]
pub struct RenameOutcome {
    pub applied: usize,
    pub conflict: usize,
    pub failed: usize,
    /// The batch was cancelled before any file got its new name.
    pub cancelled: bool,
}

impl Default for RenameOutcome {
    fn default() -> (r: Self)
        ensures
            r == (RenameOutcome { applied: 0, conflict: 0, failed: 0, cancelled: false }),
    {
        RenameOutcome { applied: 0, conflict: 0, failed: 0, cancelled: false }
    }
}

/// A rename that is carried out.
#[derive(Debug)]
pub struct RenameOp {
    pub op: Op,
    pub expected: Precondition,
    pub source: String,
    /// The name between.
    pub temp: String,
    pub final_path: String,
}

/// The new path that is recorded as text.
pub open spec fn new_path(v: JsonText) -> Option<Seq<char>> {
    match v {
        JsonText::Text(s) => Some(s),
        _ => None,
    }
}

/// The rename that an operation records. `source_fault` and `final_fault` say
/// what is wrong with the two paths, `fits` that there is a name between (see
/// [`temp_rel_path`]).
pub fn rename_op(
    op: Op,
    expected: Precondition,
    edits: &Vec<Edit>,
    source_fault: Option<String>,
    final_fault: Option<String>,
    fits: bool,
) -> (r: Result<RenameOp, EditError>)
    ensures
        expected.rel_path is None ==> (r matches Err(EditError::Internal(m)) && m@ == "op "@ + int_text(op.id as int)
            + " に expected_rel_path が無い"@),
        expected.rel_path is Some && no_edit(edits@, "rel_path"@) ==> (r matches Err(EditError::Internal(m)) && m@
            == "op "@ + int_text(op.id as int) + " に rel_path の edit が無い"@),
        forall|i: int|
            expected.rel_path is Some && #[trigger] edit_at(edits@, "rel_path"@, i) ==> match new_path(
                edits@[i].new_value@,
            ) {
                None => r matches Err(EditError::Internal(m)) && m@ == "op "@ + int_text(op.id as int)
                    + " に rel_path の edit が無い"@,
                Some(p) => match (source_fault, final_fault) {
                    (Some(f), _) => r == Err::<RenameOp, EditError>(EditError::RelPath(f)),
                    (None, Some(f)) => r == Err::<RenameOp, EditError>(EditError::RelPath(f)),
                    (None, None) => if fits {
                        r matches Ok(x) && x.op == op && x.expected == expected && x.source@
                            == expected.rel_path->0@ && x.final_path@ == p && x.temp@ == working_path(
                            "spindle-rename-"@,
                            op.id as int,
                            x.source@,
                        )
                    } else {
                        r matches Err(EditError::Internal(m)) && m@ == "op "@ + int_text(op.id as int)
                            + " の一時名を作れない"@
                    },
                },
            },
{
    let id = int_to_text(op.id);
    let source = match &expected.rel_path {
        Some(s) => s.clone(),
        None => {
            return Err(EditError::Internal(concat3("op ", &id, " に expected_rel_path が無い")));
        },
    };
    let at: usize = match find_edit(edits, "rel_path") {
        Some(i) => i,
        None => {
            return Err(EditError::Internal(concat3("op ", &id, " に rel_path の edit が無い")));
        },
    };
    let final_path = match &edits[at].new_value {
        JsonValue::Text(s) => s.clone(),
        _ => {
            return Err(EditError::Internal(concat3("op ", &id, " に rel_path の edit が無い")));
        },
    };
    if let Some(f) = source_fault {
        return Err(EditError::RelPath(f));
    }
    if let Some(f) = final_fault {
        return Err(EditError::RelPath(f));
    }
    let temp = match temp_rel_path(op.id, &source, fits) {
        Some(t) => t,
        None => {
            return Err(EditError::Internal(concat3("op ", &id, " の一時名を作れない")));
        },
    };
    Ok(RenameOp { op, expected, source, temp, final_path })
}

// ---------------------------------------------------------------- where a file is

/// Where the file of a rename was found.
#[derive(Debug)]
pub enum Location {
    Final(Stat),
    Staged(Stat),
    /// Where it was, as it was.
    Source(Stat),
    /// It is not as recorded, or not to be found. An empty reason means that it
    /// was moved back.
    Conflict { reason: String, at: Option<(String, Stat)> },
}

/// A location in mathematical terms.
pub enum Place {
    Final(Stat),
    Staged(Stat),
    Source(Stat),
    Conflict { reason: Seq<char>, at: Option<(Seq<char>, Stat)> },
}

/// A path and what stands there.
pub open spec fn spot(at: Option<(String, Stat)>) -> Option<(Seq<char>, Stat)> {
    match at {
        Some(p) => Some((p.0@, p.1)),
        None => None,
    }
}

impl View for Location {
    type V = Place;

    open spec fn view(&self) -> Place {
        match *self {
            Location::Final(st) => Place::Final(st),
            Location::Staged(st) => Place::Staged(st),
            Location::Source(st) => Place::Source(st),
            Location::Conflict { reason, at } => Place::Conflict { reason: reason@, at: spot(at) },
        }
    }
}

/// The file is the one that was recorded.
pub open spec fn is_same_inode(p: Precondition, st: Stat) -> bool {
    p.dev == Some(st.dev as i64) && p.inode == Some(st.inode as i64)
}

/// The file is the one that was recorded.
pub fn same_inode(p: &Precondition, st: &Stat) -> (r: bool)
    ensures
        r == is_same_inode(*p, *st),
{
    p.dev == Some(st.dev as i64) && p.inode == Some(st.inode as i64)
}

/// What of a file differs from what was recorded.
pub open spec fn differences(p: Precondition, st: Stat) -> Seq<Seq<char>> {
    name_if(!is_same_inode(p, st), "inode"@) + name_if(p.size != Some(st.size as i64), "size"@) + name_if(
        p.mtime_ns != Some(st.mtime_ns),
        "mtime_ns"@,
    ) + name_if(p.ctime_ns != Some(st.ctime_ns), "ctime_ns"@)
}

fn differing(p: &Precondition, st: &Stat) -> (r: Vec<String>)
    ensures
        texts(r@) == differences(*p, *st),
{
    let mut out: Vec<String> = Vec::new();
    proof {
        assert(texts(out@) =~= Seq::<Seq<char>>::empty());
    }
    let same = same_inode(p, st);
    note_if(&mut out, !same, "inode");
    note_if(&mut out, p.size != Some(st.size as i64), "size");
    note_if(&mut out, p.mtime_ns != Some(st.mtime_ns), "mtime_ns");
    note_if(&mut out, p.ctime_ns != Some(st.ctime_ns), "ctime_ns");
    proof {
        assert(texts(out@) =~= differences(*p, *st));
    }
    out
}

/// What to do to find a file.
#[derive(Debug)]
pub enum LocateStep {
    LookAtFinal,
    LookAtTemp,
    LookAtSource,
    Found(Location),
}

/// Where the file is, once all three names were looked at.
pub open spec fn source_place(r: RenameOp, st: Option<Stat>) -> Place {
    match st {
        Some(s) => {
            let diff = differences(r.expected, s);
            if diff.len() == 0 {
                Place::Source(s)
            } else {
                Place::Conflict {
                    reason: "事前条件不一致: "@ + joined(diff, ", "@),
                    at: if is_same_inode(r.expected, s) {
                        Some((r.source@, s))
                    } else {
                        None
                    },
                }
            }
        },
        None => Place::Conflict { reason: "ファイルが無い: "@ + r.source@, at: None },
    }
}

/// The file stands under a name.
pub open spec fn stands(r: RenameOp, st: Option<Stat>) -> bool {
    st is Some && is_same_inode(r.expected, st->0)
}

/// How a file is found: it is looked for under its new name, then under the name
/// between, then under the old one. `looks` holds what was seen so far.
pub open spec fn locate_step(s: LocateStep, r: RenameOp, looks: Seq<Option<Stat>>) -> bool {
    if looks.len() == 0 {
        s is LookAtFinal
    } else if stands(r, looks[0]) {
        s matches LocateStep::Found(l) && l@ == Place::Final(looks[0]->0)
    } else if looks.len() == 1 {
        s is LookAtTemp
    } else if stands(r, looks[1]) {
        s matches LocateStep::Found(l) && l@ == Place::Staged(looks[1]->0)
    } else if looks.len() == 2 {
        s is LookAtSource
    } else {
        s matches LocateStep::Found(l) && l@ == source_place(r, looks[2])
    }
}

fn found_under(r: &RenameOp, st: &Option<Stat>) -> (b: bool)
    ensures
        b == stands(*r, *st),
{
    match st {
        Some(s) => same_inode(&r.expected, s),
        None => false,
    }
}

/// What to do to find a file (see [`locate_step`]).
pub fn locate(r: &RenameOp, looks: &Vec<Option<Stat>>) -> (s: LocateStep)
    ensures
        locate_step(s, *r, looks@),
{
    if looks.len() == 0 {
        return LocateStep::LookAtFinal;
    }
    if let Some(st) = looks[0] {
        if found_under(r, &looks[0]) {
            return LocateStep::Found(Location::Final(st));
        }
    }
    if looks.len() == 1 {
        return LocateStep::LookAtTemp;
    }
    if let Some(st) = looks[1] {
        if found_under(r, &looks[1]) {
            return LocateStep::Found(Location::Staged(st));
        }
    }
    if looks.len() == 2 {
        return LocateStep::LookAtSource;
    }
    match looks[2] {
        Some(st) => {
            let diff = differing(&r.expected, &st);
            proof {
                assert(texts(diff@).len() == diff@.len());
            }
            if diff.len() == 0 {
                return LocateStep::Found(Location::Source(st));
            }
            let names = join(&diff, ", ");
            let at = if same_inode(&r.expected, &st) {
                Some((r.source.clone(), st))
            } else {
                None
            };
            LocateStep::Found(Location::Conflict { reason: concat2("事前条件不一致: ", &names), at })
        },
        None => LocateStep::Found(Location::Conflict { reason: concat2("ファイルが無い: ", &r.source), at: None }),
    }
}

/// Wherever a rename was interrupted, the next try finds the file: under the new
/// name, under the name between, or under the old one, as long as it is the
/// recorded file and, under the old name, was not touched.
pub proof fn law_interrupted_rename_is_found(s: LocateStep, r: RenameOp, looks: Seq<Option<Stat>>)
    requires
        looks.len() == 3,
        locate_step(s, r, looks),
        stands(r, looks[0]) || stands(r, looks[1]) || (looks[2] is Some && differences(r.expected, looks[2]->0).len()
            == 0),
    ensures
        s matches LocateStep::Found(l) && !(l@ is Conflict),
        stands(r, looks[0]) ==> (s matches LocateStep::Found(l) && l@ is Final),
        !stands(r, looks[0]) && stands(r, looks[1]) ==> (s matches LocateStep::Found(l) && l@ is Staged),
        !stands(r, looks[0]) && !stands(r, looks[1]) ==> (s matches LocateStep::Found(l) && l@ is Source),
{
}

// ---------------------------------------------------------------- moving a file

/// How a move that replaces nothing ended.
#[derive(Debug, Clone, Copy, PartialEq, Eq, Structural)]
pub enum MoveEnd {
    /// It moved; what stands under the new name after that.
    Moved(Option<Stat>),
    /// The new name is taken; what stands under the old name.
    Taken(Option<Stat>),
    /// There is no file under the old name.
    Gone,
}

/// A path with what stands there.
fn place_at(path: &str, st: Option<Stat>) -> (r: Option<(String, Stat)>)
    ensures
        spot(r) == (match st {
            Some(s) => Some((path@, s)),
            None => None,
        }),
{
    match st {
        Some(s) => Some((path.to_owned(), s)),
        None => None,
    }
}

/// A path with what stands there.
pub open spec fn spot_at(path: Seq<char>, st: Option<Stat>) -> Option<(Seq<char>, Stat)> {
    match st {
        Some(s) => Some((path, s)),
        None => None,
    }
}

/// Where a file is after it was moved to the name between.
pub open spec fn stage_place(r: RenameOp, end: MoveEnd) -> Place {
    match end {
        MoveEnd::Moved(Some(st)) => Place::Staged(st),
        MoveEnd::Moved(None) => Place::Conflict { reason: "退避の直後にファイルが無くなった"@, at: None },
        MoveEnd::Taken(st) => Place::Conflict {
            reason: "一時名が既に存在する: "@ + r.temp@,
            at: spot_at(r.source@, st),
        },
        MoveEnd::Gone => Place::Conflict { reason: "退避の直前にファイルが無くなった: "@ + r.source@, at: None },
    }
}

/// Where a file is after it was moved to the name between. Only a file that was
/// found where it was, as it was, is moved there.
pub fn stage(r: &RenameOp, end: MoveEnd) -> (l: Location)
    ensures
        l@ == stage_place(*r, end),
{
    match end {
        MoveEnd::Moved(Some(st)) => Location::Staged(st),
        MoveEnd::Moved(None) => Location::Conflict { reason: "退避の直後にファイルが無くなった".to_owned(), at: None },
        MoveEnd::Taken(st) => {
            let reason = concat2("一時名が既に存在する: ", &r.temp);
            Location::Conflict { reason, at: place_at(&r.source, st) }
        },
        MoveEnd::Gone => Location::Conflict {
            reason: concat2("退避の直前にファイルが無くなった: ", &r.source),
            at: None,
        },
    }
}

/// Where a file is after it was moved back from the name between.
pub open spec fn unstage_place(r: RenameOp, end: MoveEnd) -> Place {
    match end {
        MoveEnd::Moved(st) => Place::Conflict { reason: ""@, at: spot_at(r.source@, st) },
        MoveEnd::Taken(st) => Place::Conflict { reason: ""@, at: spot_at(r.temp@, st) },
        MoveEnd::Gone => Place::Conflict { reason: "一時名のファイルが無くなった: "@ + r.temp@, at: None },
    }
}

/// Where a file is after it was moved back from the name between. Where the old
/// name is taken it stays.
pub fn unstage(r: &RenameOp, end: MoveEnd) -> (l: Location)
    ensures
        l@ == unstage_place(*r, end),
{
    match end {
        MoveEnd::Moved(st) => Location::Conflict { reason: "".to_owned(), at: place_at(&r.source, st) },
        MoveEnd::Taken(st) => Location::Conflict { reason: "".to_owned(), at: place_at(&r.temp, st) },
        MoveEnd::Gone => Location::Conflict {
            reason: concat2("一時名のファイルが無くなった: ", &r.temp),
            at: None,
        },
    }
}

/// How the move to the new name ended.
#[derive(Debug, Clone, Copy, PartialEq, Eq, Structural)]
pub enum FinalEnd {
    Moved(Option<Stat>),
    /// The new name is taken; how moving the file back ended.
    Taken(MoveEnd),
    Gone,
}

/// Where a file is after it was moved to its new name.
pub open spec fn final_place(r: RenameOp, end: FinalEnd) -> Place {
    match end {
        FinalEnd::Moved(Some(st)) => Place::Final(st),
        FinalEnd::Moved(None) => Place::Conflict {
            reason: "最終名へ置いた直後にファイルが無くなった"@,
            at: None,
        },
        FinalEnd::Taken(back) => Place::Conflict {
            reason: "宛先が既に存在する: "@ + r.final_path@,
            at: unstage_place(r, back)->at,
        },
        FinalEnd::Gone => Place::Conflict { reason: "一時名のファイルが無くなった: "@ + r.temp@, at: None },
    }
}

/// Where a file is after it was moved to its new name.
pub fn finalize(r: &RenameOp, end: FinalEnd) -> (l: Location)
    ensures
        l@ == final_place(*r, end),
{
    match end {
        FinalEnd::Moved(Some(st)) => Location::Final(st),
        FinalEnd::Moved(None) => Location::Conflict {
            reason: "最終名へ置いた直後にファイルが無くなった".to_owned(),
            at: None,
        },
        FinalEnd::Taken(back) => {
            let at = match back {
                MoveEnd::Moved(st) => place_at(&r.source, st),
                MoveEnd::Taken(st) => place_at(&r.temp, st),
                MoveEnd::Gone => None,
            };
            Location::Conflict { reason: concat2("宛先が既に存在する: ", &r.final_path), at }
        },
        FinalEnd::Gone => Location::Conflict {
            reason: concat2("一時名のファイルが無くなった: ", &r.temp),
            at: None,
        },
    }
}

// ---------------------------------------------------------------- running a batch

/// What a batch of renames begins with.
#[derive(Debug)]
pub enum RenameStart {
    /// The batch has ended.
    Ended,
    /// No operation waits: the batch is summed up.
    Aggregate,
    Run,
}

/// What a batch of renames begins with. `terminal` says that the batch has
/// ended, none where there is no such batch; `waiting` is how many operations
/// wait.
pub fn rename_start(batch_id: i64, terminal: Option<bool>, waiting: usize) -> (r: Result<RenameStart, EditError>)
    ensures
        match terminal {
            None => r matches Err(EditError::Internal(m)) && m@ == "バッチが存在しない: "@ + int_text(batch_id as int),
            Some(t) => r == Ok::<RenameStart, EditError>(
                if t {
                    RenameStart::Ended
                } else if waiting == 0 {
                    RenameStart::Aggregate
                } else {
                    RenameStart::Run
                },
            ),
        },
{
    match terminal {
        None => {
            let n = int_to_text(batch_id);
            Err(EditError::Internal(concat2("バッチが存在しない: ", &n)))
        },
        Some(true) => Ok(RenameStart::Ended),
        Some(false) => {
            if waiting == 0 {
                Ok(RenameStart::Aggregate)
            } else {
                Ok(RenameStart::Run)
            }
        },
    }
}

/// What a batch does next.
#[derive(Debug, Clone, Copy, PartialEq, Eq, Structural)]
pub enum RenameAction {
    /// Find the file of this operation and move it to the name between.
    Stage(usize),
    /// Every file is staged: the last moment to cancel.
    CheckCancel,
    /// Move the file of this operation to its new name.
    Place(usize),
    Finish,
}

/// The first operation from `from` on whose file stands under the name between.
pub open spec fn next_staged(locs: Seq<Location>, from: int, i: int) -> bool {
    &&& from <= i < locs.len()
    &&& locs[i]@ is Staged
    &&& forall|j: int| from <= j < i ==> !((#[trigger] locs[j])@ is Staged)
}

/// `a` is what a batch of `n` operations does next.
pub open spec fn action_is(a: RenameAction, n: nat, locs: Seq<Location>, checked: bool, from: int) -> bool {
    if locs.len() < n {
        a == RenameAction::Stage(locs.len() as usize)
    } else if !checked {
        a == RenameAction::CheckCancel
    } else if exists|i: int| next_staged(locs, from, i) {
        a matches RenameAction::Place(i) && next_staged(locs, from, i as int)
    } else {
        a == RenameAction::Finish
    }
}

/// What a batch of `n` operations does next. `locs` is where the files that were
/// staged so far are; `checked` says that cancelling was asked about; files from
/// `from` on are still to get their new names.
pub fn next_action(n: usize, locs: &Vec<Location>, checked: bool, from: usize) -> (r: RenameAction)
    ensures
        action_is(r, n as nat, locs@, checked, from as int),
{
    if locs.len() < n {
        return RenameAction::Stage(locs.len());
    }
    if !checked {
        return RenameAction::CheckCancel;
    }
    let mut i: usize = from;
    while i < locs.len()
        invariant
            from <= i,
            locs@.len() >= n,
            checked,
            forall|j: int| from <= j < i && j < locs@.len() ==> !((#[trigger] locs@[j])@ is Staged),
        decreases locs@.len() - i,
    {
        if let Location::Staged(_) = locs[i] {
            proof {
                assert(next_staged(locs@, from as int, i as int));
            }
            return RenameAction::Place(i);
        }
        i = i + 1;
    }
    RenameAction::Finish
}

/// No file gets its new name before every file of the batch was looked for and
/// moved to the name between, and before cancelling was asked about.
pub proof fn law_all_staged_before_any_is_placed(
    i: usize,
    n: nat,
    locs: Seq<Location>,
    checked: bool,
    from: int,
)
    requires
        action_is(RenameAction::Place(i), n, locs, checked, from),
    ensures
        locs.len() >= n,
        checked,
        locs[i as int]@ is Staged,
{
}

/// What is done with an operation of a batch that is cancelled.
#[derive(Debug, Clone, Copy, PartialEq, Eq, Structural)]
pub enum CancelAction {
    /// Move the file back.
    Unstage,
    /// It ended already.
    Keep,
    /// It was not begun: find the file.
    Locate,
}

/// What is done with an operation of a batch that is cancelled, where its file
/// was found there.
pub fn cancel_action(loc: Option<&Location>) -> (r: CancelAction)
    ensures
        r == (match loc {
            None => CancelAction::Locate,
            Some(l) => if l@ is Staged {
                CancelAction::Unstage
            } else {
                CancelAction::Keep
            },
        }),
{
    match loc {
        None => CancelAction::Locate,
        Some(Location::Staged(_)) => CancelAction::Unstage,
        Some(_) => CancelAction::Keep,
    }
}

// ---------------------------------------------------------------- how operations end

/// How an operation ended.
#[derive(Debug)]
pub struct Settled {
    pub op: Op,
    /// The path that was recorded.
    pub recorded: Option<String>,
    pub result: OpResult,
    pub error: Option<String>,
    /// Where the file is, none where that is not known.
    pub at: Option<(String, Stat)>,
}

/// How an operation ends whose file is there. `interrupted` is why one that did
/// not come to its end failed.
pub open spec fn settled_as(r: RenameOp, loc: Place, interrupted: Seq<char>) -> (
    OpResult,
    Option<Seq<char>>,
    Option<(Seq<char>, Stat)>,
) {
    match loc {
        Place::Final(st) => (OpResult::Applied, None, Some((r.final_path@, st))),
        Place::Staged(st) => (OpResult::Failed, Some(interrupted), Some((r.temp@, st))),
        Place::Source(st) => (OpResult::Failed, Some(interrupted), Some((r.source@, st))),
        Place::Conflict { reason, at } => if reason.len() == 0 {
            (OpResult::Failed, Some(interrupted), at)
        } else {
            (OpResult::SkippedConflict, Some(reason), at)
        },
    }
}

/// How an operation ends (see [`settled_as`]).
pub fn settle(r: &RenameOp, loc: Location, interrupted: &str) -> (s: Settled)
    ensures
        s.op == r.op,
        opt_text(s.recorded) == opt_text(r.expected.rel_path),
        (s.result, opt_text(s.error), spot(s.at)) == settled_as(*r, loc@, interrupted@),
{
    let recorded = r.expected.rel_path.clone();
    match loc {
        Location::Final(st) => Settled {
            op: r.op,
            recorded,
            result: OpResult::Applied,
            error: None,
            at: Some((r.final_path.clone(), st)),
        },
        Location::Staged(st) => Settled {
            op: r.op,
            recorded,
            result: OpResult::Failed,
            error: Some(interrupted.to_owned()),
            at: Some((r.temp.clone(), st)),
        },
        Location::Source(st) => Settled {
            op: r.op,
            recorded,
            result: OpResult::Failed,
            error: Some(interrupted.to_owned()),
            at: Some((r.source.clone(), st)),
        },
        Location::Conflict { reason, at } => {
            if reason.as_str().is_empty() {
                Settled { op: r.op, recorded, result: OpResult::Failed, error: Some(interrupted.to_owned()), at }
            } else {
                Settled { op: r.op, recorded, result: OpResult::SkippedConflict, error: Some(reason), at }
            }
        },
    }
}

/// A rename counts as carried out exactly where its file stands under the new
/// name.
pub proof fn law_applied_means_final(r: RenameOp, loc: Place, interrupted: Seq<char>)
    ensures
        settled_as(r, loc, interrupted).0 == OpResult::Applied <==> loc is Final,
        settled_as(r, loc, interrupted).0 == OpResult::Applied ==> (settled_as(r, loc, interrupted).2 matches Some(p)
            && p.0 == r.final_path@),
{
}

/// A batch that is cancelled leaves no file under a name between, but where
/// another file took the old name meanwhile.
pub proof fn law_cancelled_files_are_back(r: RenameOp, end: MoveEnd, interrupted: Seq<char>)
    requires
        end matches MoveEnd::Moved(st) && st is Some,
    ensures
        settled_as(r, unstage_place(r, end), interrupted).0 == OpResult::Failed,
        settled_as(r, unstage_place(r, end), interrupted).1 == Some(interrupted),
        settled_as(r, unstage_place(r, end), interrupted).2 matches Some(p) && p.0 == r.source@,
{
    reveal_strlit("");
}

// ---------------------------------------------------------------- the catalogue

/// What the catalogue changes once the operations of a batch ended.
#[derive(Debug)]
pub struct CommitPlan {
    pub outcome: RenameOutcome,
    /// Tracks that stand elsewhere than recorded: the path and its key.
    pub moves: Vec<(i64, String, String)>,
    /// Tracks whose files were not found: the path they go back to.
    pub lost: Vec<(i64, String)>,
}

/// How many of the operations that were closed ended so. `closed` says of each
/// operation that it waited until now.
pub open spec fn ended(v: Seq<Settled>, closed: Seq<bool>, result: OpResult, n: int) -> nat
    decreases n,
{
    if n <= 0 {
        0
    } else {
        ended(v, closed, result, n - 1) + if closed[n - 1] && v[n - 1].result == result {
            1nat
        } else {
            0nat
        }
    }
}

/// How many of the operations that were closed ended otherwise than carried out
/// or as a conflict.
pub open spec fn ended_badly(v: Seq<Settled>, closed: Seq<bool>, n: int) -> nat
    decreases n,
{
    if n <= 0 {
        0
    } else {
        ended_badly(v, closed, n - 1) + if closed[n - 1] && v[n - 1].result != OpResult::Applied && v[n - 1].result
            != OpResult::SkippedConflict {
            1nat
        } else {
            0nat
        }
    }
}

/// The tracks that stand elsewhere than in the catalogue, each with its path and
/// the key of that.
pub open spec fn found_moves(v: Seq<Settled>, closed: Seq<bool>, current: Seq<Seq<char>>, n: int) -> Seq<
    (i64, Seq<char>, Seq<char>),
>
    decreases n,
{
    if n <= 0 {
        Seq::empty()
    } else {
        let r = found_moves(v, closed, current, n - 1);
        match spot(v[n - 1].at) {
            Some(p) => if closed[n - 1] && p.0 != current[n - 1] {
                r.push((v[n - 1].op.track_id, p.0, canonical(p.0)))
            } else {
                r
            },
            None => r,
        }
    }
}

/// The path that a track goes back to whose file was not found: the recorded
/// one, else the one in the catalogue.
pub open spec fn fallback(s: Settled, current: Seq<char>) -> Seq<char> {
    match s.recorded {
        Some(p) => p@,
        None => current,
    }
}

/// The tracks whose files were not found and that go back to another path than
/// the one in the catalogue.
pub open spec fn lost_tracks(v: Seq<Settled>, closed: Seq<bool>, current: Seq<Seq<char>>, n: int) -> Seq<
    (i64, Seq<char>),
>
    decreases n,
{
    if n <= 0 {
        Seq::empty()
    } else {
        let r = lost_tracks(v, closed, current, n - 1);
        if closed[n - 1] && v[n - 1].at is None && fallback(v[n - 1], current[n - 1]) != current[n - 1] {
            r.push((v[n - 1].op.track_id, fallback(v[n - 1], current[n - 1])))
        } else {
            r
        }
    }
}

/// The views of moves.
pub open spec fn move_views(v: Seq<(i64, String, String)>) -> Seq<(i64, Seq<char>, Seq<char>)> {
    v.map_values(|m: (i64, String, String)| (m.0, m.1@, m.2@))
}

/// The views of tracks with a path.
pub open spec fn path_views(v: Seq<(i64, String)>) -> Seq<(i64, Seq<char>)> {
    v.map_values(|m: (i64, String)| (m.0, m.1@))
}

/// The plan for the first `n` operations.
pub open spec fn plan_upto(p: CommitPlan, v: Seq<Settled>, closed: Seq<bool>, current: Seq<Seq<char>>, n: int) -> bool {
    &&& p.outcome.applied == ended(v, closed, OpResult::Applied, n)
    &&& p.outcome.conflict == ended(v, closed, OpResult::SkippedConflict, n)
    &&& p.outcome.failed == ended_badly(v, closed, n)
    &&& p.outcome.cancelled == false
    &&& move_views(p.moves@) == found_moves(v, closed, current, n)
    &&& path_views(p.lost@) == lost_tracks(v, closed, current, n)
}

fn count_end(outcome: &mut RenameOutcome, result: OpResult)
    requires
        old(outcome).applied < usize::MAX,
        old(outcome).conflict < usize::MAX,
        old(outcome).failed < usize::MAX,
    ensures
        *final(outcome) == (match result {
            OpResult::Applied => RenameOutcome { applied: (old(outcome).applied + 1) as usize, ..*old(outcome) },
            OpResult::SkippedConflict => RenameOutcome {
                conflict: (old(outcome).conflict + 1) as usize,
                ..*old(outcome)
            },
            _ => RenameOutcome { failed: (old(outcome).failed + 1) as usize, ..*old(outcome) },
        }),
{
    match result {
        OpResult::Applied => {
            outcome.applied = outcome.applied + 1;
        },
        OpResult::SkippedConflict => {
            outcome.conflict = outcome.conflict + 1;
        },
        _ => {
            outcome.failed = outcome.failed + 1;
        },
    }
}

/// What the catalogue changes once the operations of a batch ended. `closed`
/// says of each that it waited until now (one that the scanner closed meanwhile
/// changes nothing); `current` is the path of its track in the catalogue.
pub fn commit_settled(settled: &Vec<Settled>, closed: &Vec<bool>, current: &Vec<String>) -> (r: CommitPlan)
    requires
        closed@.len() == settled@.len(),
        current@.len() == settled@.len(),
    ensures
        plan_upto(r, settled@, closed@, texts(current@), settled@.len() as int),
{
    let mut p = CommitPlan { outcome: RenameOutcome::default(), moves: Vec::new(), lost: Vec::new() };
    let ghost cur = texts(current@);
    let mut i: usize = 0;
    proof {
        assert(move_views(p.moves@) =~= Seq::<(i64, Seq<char>, Seq<char>)>::empty());
        assert(path_views(p.lost@) =~= Seq::<(i64, Seq<char>)>::empty());
    }
    while i < settled.len()
        invariant
            i <= settled@.len(),
            closed@.len() == settled@.len(),
            current@.len() == settled@.len(),
            cur == texts(current@),
            p.outcome.applied <= i,
            p.outcome.conflict <= i,
            p.outcome.failed <= i,
            plan_upto(p, settled@, closed@, cur, i as int),
        decreases settled@.len() - i,
    {
        let s = &settled[i];
        let here = &current[i];
        if closed[i] {
            count_end(&mut p.outcome, s.result);
            let ghost m0 = move_views(p.moves@);
            let ghost l0 = path_views(p.lost@);
            match &s.at {
                Some(at) => {
                    if !same_text(&at.0, here) {
                        let key = canonical_key(&at.0);
                        let ghost kt = key@;
                        p.moves.push((s.op.track_id, at.0.clone(), key));
                        proof {
                            assert(move_views(p.moves@) =~= m0.push((s.op.track_id, at.0@, kt)));
                        }
                    }
                },
                None => {
                    if let Some(back) = &s.recorded {
                        if !same_text(back, here) {
                            p.lost.push((s.op.track_id, back.clone()));
                            proof {
                                assert(path_views(p.lost@) =~= l0.push((s.op.track_id, back@)));
                            }
                        }
                    }
                },
            }
        }
        i = i + 1;
    }
    p
}

/// Every operation that was closed is counted once.
pub proof fn law_outcome_counts_closed(v: Seq<Settled>, closed: Seq<bool>, n: int)
    requires
        0 <= n <= v.len(),
        closed.len() == v.len(),
    ensures
        ended(v, closed, OpResult::Applied, n) + ended(v, closed, OpResult::SkippedConflict, n) + ended_badly(
            v,
            closed,
            n,
        ) == closed.take(n).filter(|b: bool| b).len(),
    decreases n,
{
    reveal(Seq::filter);
    if n > 0 {
        law_outcome_counts_closed(v, closed, n - 1);
        assert(closed.take(n).drop_last() =~= closed.take(n - 1));
        assert(closed.take(n).last() == closed[n - 1]);
    } else {
        assert(closed.take(0).len() == 0);
    }
}

/// The tracks outside the batch that have to give up their keys.
pub open spec fn evicted(moves: Seq<(i64, Seq<char>, Seq<char>)>, holders: Seq<Option<i64>>, batch: Seq<i64>) -> Seq<i64>
    decreases moves.len(),
{
    if moves.len() == 0 {
        Seq::empty()
    } else {
        let r = evicted(moves.drop_last(), holders.drop_last(), batch);
        match holders.last() {
            Some(h) => if h != moves.last().0 && !batch.contains(h) {
                r.push(h)
            } else {
                r
            },
            None => r,
        }
    }
}

/// The tracks outside the batch that have to give up their keys: where a file
/// is decides. `holders` is for each move the track that has the key.
pub fn evictions(moves: &Vec<(i64, String, String)>, holders: &Vec<Option<i64>>, batch: &Vec<i64>) -> (r: Vec<i64>)
    requires
        holders@.len() == moves@.len(),
    ensures
        r@ == evicted(move_views(moves@), holders@, batch@),
{
    let ghost m = move_views(moves@);
    let mut out: Vec<i64> = Vec::new();
    let mut i: usize = 0;
    while i < moves.len()
        invariant
            i <= moves@.len(),
            m == move_views(moves@),
            holders@.len() == moves@.len(),
            out@ == evicted(m.take(i as int), holders@.take(i as int), batch@),
        decreases moves@.len() - i,
    {
        proof {
            assert(m.take(i + 1).last() == m[i as int]);
            assert(m.take(i + 1).drop_last() =~= m.take(i as int));
            assert(holders@.take(i + 1).last() == holders@[i as int]);
            assert(holders@.take(i + 1).drop_last() =~= holders@.take(i as int));
        }
        if let Some(h) = holders[i] {
            if h != moves[i].0 && !has_id(batch, h) {
                out.push(h);
            }
        }
        i = i + 1;
    }
    proof {
        assert(m.take(i as int) =~= m);
        assert(holders@.take(i as int) =~= holders@);
    }
    out
}

/// A track whose file was not found goes back to its old path, unless another
/// track has that path by now.
pub fn goes_back(track_id: i64, holder: Option<i64>) -> (r: bool)
    ensures
        r == (holder is None || holder == Some(track_id)),
{
    match holder {
        Some(h) => h == track_id,
        None => true,
    }
}

/// The tracks that were renamed.
pub open spec fn renamed_tracks(v: Seq<Settled>) -> Seq<i64>
    decreases v.len(),
{
    if v.len() == 0 {
        Seq::empty()
    } else {
        let r = renamed_tracks(v.drop_last());
        if v.last().result == OpResult::Applied {
            r.push(v.last().op.track_id)
        } else {
            r
        }
    }
}

/// The tracks that were renamed: what was derived from them follows.
pub fn applied_tracks(settled: &Vec<Settled>) -> (r: Vec<i64>)
    ensures
        r@ == renamed_tracks(settled@),
{
    let mut out: Vec<i64> = Vec::new();
    let mut i: usize = 0;
    while i < settled.len()
        invariant
            i <= settled@.len(),
            out@ == renamed_tracks(settled@.take(i as int)),
        decreases settled@.len() - i,
    {
        proof {
            assert(settled@.take(i + 1).last() == settled@[i as int]);
            assert(settled@.take(i + 1).drop_last() =~= settled@.take(i as int));
        }
        if settled[i].result == OpResult::Applied {
            out.push(settled[i].op.track_id);
        }
        i = i + 1;
    }
    proof {
        assert(settled@.take(i as int) =~= settled@);
    }
    out
}

// ---------------------------------------------------------------- names change places

/// The files under their paths after a move that replaces nothing.
pub open spec fn after_move(fs: Map<Seq<char>, int>, from: Seq<char>, to: Seq<char>) -> Map<Seq<char>, int> {
    if fs.dom().contains(from) && !fs.dom().contains(to) {
        fs.remove(from).insert(to, fs[from])
    } else {
        fs
    }
}

/// The files after the first `n` were moved to the names between.
pub open spec fn after_staging(fs: Map<Seq<char>, int>, ops: Seq<RenameOp>, n: int) -> Map<Seq<char>, int>
    decreases n,
{
    if n <= 0 {
        fs
    } else {
        after_move(after_staging(fs, ops, n - 1), ops[n - 1].source@, ops[n - 1].temp@)
    }
}

/// The files after the first `n` were moved from the names between to their new
/// names.
pub open spec fn after_placing(fs: Map<Seq<char>, int>, ops: Seq<RenameOp>, n: int) -> Map<Seq<char>, int>
    decreases n,
{
    if n <= 0 {
        fs
    } else {
        after_move(after_placing(fs, ops, n - 1), ops[n - 1].temp@, ops[n - 1].final_path@)
    }
}

/// The same stands under the path in both.
pub open spec fn same_at(m: Map<Seq<char>, int>, fs: Map<Seq<char>, int>, p: Seq<char>) -> bool {
    &&& m.dom().contains(p) == fs.dom().contains(p)
    &&& fs.dom().contains(p) ==> m[p] == fs[p]
}

/// The path is the old path of a file of the batch.
pub open spec fn is_source(ops: Seq<RenameOp>, p: Seq<char>) -> bool {
    exists|i: int| 0 <= i < ops.len() && (#[trigger] ops[i]).source@ == p
}

/// The path is the new path of a file of the batch.
pub open spec fn is_final(ops: Seq<RenameOp>, p: Seq<char>) -> bool {
    exists|i: int| 0 <= i < ops.len() && (#[trigger] ops[i]).final_path@ == p
}

/// The path is a name between of the batch.
pub open spec fn is_temp(ops: Seq<RenameOp>, p: Seq<char>) -> bool {
    exists|i: int| 0 <= i < ops.len() && (#[trigger] ops[i]).temp@ == p
}

/// The batch can be carried out: its files are there, their new paths differ and
/// each is free or given up by the batch, and the names between are free.
pub open spec fn can_rename(fs: Map<Seq<char>, int>, ops: Seq<RenameOp>) -> bool {
    &&& forall|i: int| 0 <= i < ops.len() ==> fs.dom().contains((#[trigger] ops[i]).source@)
    &&& forall|i: int|
        0 <= i < ops.len() ==> (!fs.dom().contains((#[trigger] ops[i]).final_path@) || is_source(
            ops,
            ops[i].final_path@,
        ))
    &&& forall|i: int| 0 <= i < ops.len() ==> !fs.dom().contains((#[trigger] ops[i]).temp@)
    &&& forall|i: int| 0 <= i < ops.len() ==> !is_temp(ops, (#[trigger] ops[i]).final_path@)
    &&& forall|i: int, j: int|
        0 <= i < j < ops.len() ==> (#[trigger] ops[i]).source@ != (#[trigger] ops[j]).source@ && ops[i].final_path@
            != ops[j].final_path@
    &&& forall|i: int| 0 <= i < ops.len() ==> (#[trigger] ops[i]).temp@ == working_path(
        "spindle-rename-"@,
        ops[i].op.id as int,
        ops[i].source@,
    )
    &&& forall|i: int, j: int| 0 <= i < j < ops.len() ==> (#[trigger] ops[i]).op.id != (#[trigger] ops[j]).op.id
}

proof fn lemma_temps_distinct(fs: Map<Seq<char>, int>, ops: Seq<RenameOp>, i: int, j: int)
    requires
        can_rename(fs, ops),
        0 <= i < j < ops.len(),
    ensures
        ops[i].temp@ != ops[j].temp@,
{
    reveal_strlit("spindle-rename-");
    law_working_paths_distinct(
        "spindle-rename-"@,
        ops[i].op.id as int,
        ops[j].op.id as int,
        ops[i].source@,
        ops[j].source@,
    );
}

proof fn lemma_staged(fs: Map<Seq<char>, int>, ops: Seq<RenameOp>, n: int)
    requires
        can_rename(fs, ops),
        0 <= n <= ops.len(),
    ensures
        ({
            let m = after_staging(fs, ops, n);
            &&& forall|i: int|
                0 <= i < n ==> m.dom().contains((#[trigger] ops[i]).temp@) && m[ops[i].temp@] == fs[ops[i].source@]
                    && !m.dom().contains(ops[i].source@)
            &&& forall|i: int|
                n <= i < ops.len() ==> m.dom().contains((#[trigger] ops[i]).source@) && m[ops[i].source@]
                    == fs[ops[i].source@] && !m.dom().contains(ops[i].temp@)
            &&& forall|p: Seq<char>|
                !is_source(ops, p) && !is_temp(ops, p) ==> #[trigger] same_at(m, fs, p)
        }),
    decreases n,
{
    if n > 0 {
        lemma_staged(fs, ops, n - 1);
        let before = after_staging(fs, ops, n - 1);
        let m = after_staging(fs, ops, n);
        let x = ops[n - 1];
        assert(before.dom().contains(x.source@) && !before.dom().contains(x.temp@));
        assert(m == before.remove(x.source@).insert(x.temp@, before[x.source@]));
        assert forall|i: int| 0 <= i < n implies m.dom().contains((#[trigger] ops[i]).temp@) && m[ops[i].temp@]
            == fs[ops[i].source@] && !m.dom().contains(ops[i].source@) by {
            assert(fs.dom().contains(ops[i].source@));
            assert(!fs.dom().contains(x.temp@));
            assert(!fs.dom().contains(ops[i].temp@));
            if i < n - 1 {
                lemma_temps_distinct(fs, ops, i, n - 1);
            }
        }
        assert forall|i: int| n <= i < ops.len() implies m.dom().contains((#[trigger] ops[i]).source@)
            && m[ops[i].source@] == fs[ops[i].source@] && !m.dom().contains(ops[i].temp@) by {
            lemma_temps_distinct(fs, ops, n - 1, i);
            assert(fs.dom().contains(ops[i].source@));
            assert(!fs.dom().contains(x.temp@));
            assert(ops[n - 1].source@ != ops[i].source@);
        }
        assert forall|p: Seq<char>| !is_source(ops, p) && !is_temp(ops, p) implies #[trigger] same_at(m, fs, p) by {
            assert(same_at(before, fs, p));
            assert(p != ops[n - 1].source@);
            assert(p != ops[n - 1].temp@);
        }
    }
}

proof fn lemma_placed(fs: Map<Seq<char>, int>, ops: Seq<RenameOp>, n: int)
    requires
        can_rename(fs, ops),
        0 <= n <= ops.len(),
    ensures
        ({
            let m = after_placing(after_staging(fs, ops, ops.len() as int), ops, n);
            &&& forall|i: int|
                0 <= i < n ==> m.dom().contains((#[trigger] ops[i]).final_path@) && m[ops[i].final_path@]
                    == fs[ops[i].source@] && !m.dom().contains(ops[i].temp@)
            &&& forall|i: int|
                n <= i < ops.len() ==> m.dom().contains((#[trigger] ops[i]).temp@) && m[ops[i].temp@]
                    == fs[ops[i].source@] && !m.dom().contains(ops[i].final_path@)
            &&& forall|p: Seq<char>|
                is_source(ops, p) && !is_final(ops, p) ==> !(#[trigger] m.dom().contains(p))
            &&& forall|p: Seq<char>|
                !is_source(ops, p) && !is_temp(ops, p) && !is_final(ops, p) ==> #[trigger] same_at(m, fs, p)
        }),
    decreases n,
{
    let all = after_staging(fs, ops, ops.len() as int);
    lemma_staged(fs, ops, ops.len() as int);
    if n <= 0 {
        assert forall|i: int| 0 <= i < ops.len() implies !all.dom().contains((#[trigger] ops[i]).final_path@) by {
            let f = ops[i].final_path@;
            assert(!is_temp(ops, f));
            if is_source(ops, f) {
                let j = choose|j: int| 0 <= j < ops.len() && (#[trigger] ops[j]).source@ == f;
                assert(!all.dom().contains(ops[j].source@));
            } else {
                assert(same_at(all, fs, f));
            }
        }
        assert forall|p: Seq<char>| is_source(ops, p) && !is_final(ops, p) implies !(#[trigger] all.dom().contains(
            p,
        )) by {
            let j = choose|j: int| 0 <= j < ops.len() && (#[trigger] ops[j]).source@ == p;
            assert(!all.dom().contains(ops[j].source@));
        }
    } else {
        lemma_placed(fs, ops, n - 1);
        let before = after_placing(all, ops, n - 1);
        let m = after_placing(all, ops, n);
        let x = ops[n - 1];
        assert(before.dom().contains(x.temp@) && !before.dom().contains(x.final_path@));
        assert(m == before.remove(x.temp@).insert(x.final_path@, before[x.temp@]));
        assert(is_temp(ops, x.temp@));
        assert(!is_temp(ops, x.final_path@));
        assert forall|i: int| 0 <= i < n implies m.dom().contains((#[trigger] ops[i]).final_path@)
            && m[ops[i].final_path@] == fs[ops[i].source@] && !m.dom().contains(ops[i].temp@) by {
            assert(!is_temp(ops, ops[i].final_path@));
            assert(is_temp(ops, ops[i].temp@));
            if i < n - 1 {
                lemma_temps_distinct(fs, ops, i, n - 1);
                assert(ops[i].final_path@ != ops[n - 1].final_path@);
            }
        }
        assert forall|i: int| n <= i < ops.len() implies m.dom().contains((#[trigger] ops[i]).temp@) && m[ops[i].temp@]
            == fs[ops[i].source@] && !m.dom().contains(ops[i].final_path@) by {
            lemma_temps_distinct(fs, ops, n - 1, i);
            assert(is_temp(ops, ops[i].temp@));
            assert(ops[n - 1].final_path@ != ops[i].final_path@);
            assert(!is_temp(ops, ops[i].final_path@));
        }
        assert forall|p: Seq<char>| is_source(ops, p) && !is_final(ops, p) implies !(#[trigger] m.dom().contains(p)) by {
            assert(!before.dom().contains(p));
            assert(is_final(ops, x.final_path@));
        }
        assert forall|p: Seq<char>| !is_source(ops, p) && !is_temp(ops, p) && !is_final(ops, p) implies #[trigger] same_at(m, fs, p) by {
            assert(same_at(before, fs, p));
            assert(is_final(ops, x.final_path@));
        }
    }
}

/// After both phases every file of the batch stands under its new path, also
/// where files take each other's paths, in a ring of any length; no other file
/// is touched, and nothing is left under a path that the batch gave up.
pub proof fn law_names_change_places(fs: Map<Seq<char>, int>, ops: Seq<RenameOp>)
    requires
        can_rename(fs, ops),
    ensures
        ({
            let m = after_placing(after_staging(fs, ops, ops.len() as int), ops, ops.len() as int);
            &&& forall|i: int|
                0 <= i < ops.len() ==> m.dom().contains((#[trigger] ops[i]).final_path@) && m[ops[i].final_path@]
                    == fs[ops[i].source@] && !m.dom().contains(ops[i].temp@)
            &&& forall|p: Seq<char>| is_source(ops, p) && !is_final(ops, p) ==> !(#[trigger] m.dom().contains(p))
            &&& forall|p: Seq<char>|
                !is_source(ops, p) && !is_temp(ops, p) && !is_final(ops, p) ==> #[trigger] same_at(m, fs, p)
        }),
{
    lemma_placed(fs, ops, ops.len() as int);
}

/// A file has not changed since the rename was recorded where nothing of it differs: each of the marks that
/// differ is named.
pub proof fn law_differences(p: Precondition, st: Stat)
    ensures
        differences(p, st).len() == 0 <==> p.dev == Some(st.dev as i64) && p.inode == Some(st.inode as i64) && p.size
            == Some(st.size as i64) && p.mtime_ns == Some(st.mtime_ns) && p.ctime_ns == Some(st.ctime_ns),
        p.dev != Some(st.dev as i64) || p.inode != Some(st.inode as i64) ==> differences(p, st).contains("inode"@),
        p.size != Some(st.size as i64) ==> differences(p, st).contains("size"@),
        p.mtime_ns != Some(st.mtime_ns) ==> differences(p, st).contains("mtime_ns"@),
        p.ctime_ns != Some(st.ctime_ns) ==> differences(p, st).contains("ctime_ns"@),
{
    let a = name_if(!is_same_inode(p, st), "inode"@);
    let b = name_if(p.size != Some(st.size as i64), "size"@);
    let c = name_if(p.mtime_ns != Some(st.mtime_ns), "mtime_ns"@);
    let d = name_if(p.ctime_ns != Some(st.ctime_ns), "ctime_ns"@);
    let all = differences(p, st);
    if a.len() > 0 {
        assert(all[0] == "inode"@);
    }
    if b.len() > 0 {
        assert(all[a.len() as int] == "size"@);
    }
    if c.len() > 0 {
        assert(all[a.len() + b.len() as int] == "mtime_ns"@);
    }
    if d.len() > 0 {
        assert(all[a.len() + b.len() + c.len() as int] == "ctime_ns"@);
    }
}

/// A file that stands untouched under its old name is found there; one that was changed is left alone.
pub proof fn law_only_untouched_files_are_renamed(r: RenameOp, st: Stat)
    ensures
        source_place(r, Some(st)) == Place::Source(st) <==> r.expected.dev == Some(st.dev as i64) && r.expected.inode
            == Some(st.inode as i64) && r.expected.size == Some(st.size as i64) && r.expected.mtime_ns == Some(st.mtime_ns)
            && r.expected.ctime_ns == Some(st.ctime_ns),
        source_place(r, Some(st)) is Source || source_place(r, Some(st)) is Conflict,
        source_place(r, None) is Conflict,
{
    law_differences(r.expected, st);
}

/// How an operation ends is told by where its file stands: under the new name it was carried out; under a
/// name between or the old one it was interrupted; a reason makes it a conflict. The row follows the file.
pub proof fn law_end_of_an_operation(r: RenameOp, st: Stat, reason: Seq<char>, at: Option<(Seq<char>, Stat)>, why: Seq<char>)
    ensures
        settled_as(r, Place::Final(st), why) == (OpResult::Applied, None::<Seq<char>>, Some((r.final_path@, st))),
        settled_as(r, Place::Staged(st), why) == (OpResult::Failed, Some(why), Some((r.temp@, st))),
        settled_as(r, Place::Source(st), why) == (OpResult::Failed, Some(why), Some((r.source@, st))),
        reason.len() > 0 ==> settled_as(r, Place::Conflict { reason, at }, why) == (
            OpResult::SkippedConflict,
            Some(reason),
            at,
        ),
        reason.len() == 0 ==> settled_as(r, Place::Conflict { reason, at }, why) == (OpResult::Failed, Some(why), at),
{
}

/// A move that went well leaves the file under the name it was moved to, and one that did not leaves it where
/// it was: first under the name between, then under the new one, and under the old one again where the batch
/// is given up.
pub proof fn law_where_a_move_leaves_the_file(r: RenameOp, st: Stat, other: Option<Stat>)
    ensures
        stage_place(r, MoveEnd::Moved(Some(st))) == Place::Staged(st),
        final_place(r, FinalEnd::Moved(Some(st))) == Place::Final(st),
        stage_place(r, MoveEnd::Taken(Some(st))) matches Place::Conflict { at, .. } && at == Some((r.source@, st)),
        unstage_place(r, MoveEnd::Moved(Some(st))) matches Place::Conflict { at, .. } && at == Some((r.source@, st)),
        unstage_place(r, MoveEnd::Taken(Some(st))) matches Place::Conflict { at, .. } && at == Some((r.temp@, st)),
        final_place(r, FinalEnd::Taken(MoveEnd::Moved(Some(st)))) matches Place::Conflict { at, reason } && at == Some(
            (r.source@, st),
        ) && reason.len() > 0,
        final_place(r, FinalEnd::Taken(MoveEnd::Taken(Some(st)))) matches Place::Conflict { at, .. } && at == Some(
            (r.temp@, st),
        ),
        stage_place(r, MoveEnd::Gone) is Conflict && final_place(r, FinalEnd::Gone) is Conflict,
{
    reveal_strlit("宛先が既に存在する: ");
}

/// A file that was found elsewhere than its row says takes its row along.
pub proof fn law_rows_follow_renamed_files(
    v: Seq<Settled>,
    closed: Seq<bool>,
    current: Seq<Seq<char>>,
    n: int,
    i: int,
    path: Seq<char>,
    st: Stat,
)
    requires
        0 <= i < n,
        spot(v[i].at) == Some((path, st)),
    ensures
        closed[i] && path != current[i] ==> found_moves(v, closed, current, n).contains(
            (v[i].op.track_id, path, canonical(path)),
        ),
    decreases n,
{
    let r = found_moves(v, closed, current, n - 1);
    let m = (v[i].op.track_id, path, canonical(path));
    if closed[i] && path != current[i] {
        if i < n - 1 {
            law_rows_follow_renamed_files(v, closed, current, n - 1, i, path, st);
            let k = choose|k: int| 0 <= k < r.len() && r[k] == m;
            assert(found_moves(v, closed, current, n)[k] == m);
        } else {
            assert(found_moves(v, closed, current, n).last() == m);
        }
    }
}

/// No row moves but one whose operation was closed and whose file was found elsewhere.
pub proof fn law_no_other_row_moves(
    v: Seq<Settled>,
    closed: Seq<bool>,
    current: Seq<Seq<char>>,
    n: int,
    k: int,
) -> (i: int)
    requires
        0 <= n,
        0 <= k < found_moves(v, closed, current, n).len(),
    ensures
        0 <= i < n,
        closed[i],
        v[i].at is Some,
        found_moves(v, closed, current, n)[k] == (v[i].op.track_id, (v[i].at->0).0@, canonical((v[i].at->0).0@)),
        (v[i].at->0).0@ != current[i],
    decreases n,
{
    if k < found_moves(v, closed, current, n - 1).len() {
        law_no_other_row_moves(v, closed, current, n - 1, k)
    } else {
        n - 1
    }
}

/// A track whose file was found nowhere goes back to the path that was recorded for it.
pub proof fn law_lost_files_go_back(
    v: Seq<Settled>,
    closed: Seq<bool>,
    current: Seq<Seq<char>>,
    n: int,
    i: int,
)
    requires
        0 <= i < n,
        closed[i],
        v[i].at is None,
        v[i].recorded is Some,
        v[i].recorded->0@ != current[i],
    ensures
        lost_tracks(v, closed, current, n).contains((v[i].op.track_id, v[i].recorded->0@)),
    decreases n,
{
    let r = lost_tracks(v, closed, current, n - 1);
    let m = (v[i].op.track_id, v[i].recorded->0@);
    if i < n - 1 {
        law_lost_files_go_back(v, closed, current, n - 1, i);
        let k = choose|k: int| 0 <= k < r.len() && r[k] == m;
        assert(lost_tracks(v, closed, current, n)[k] == m);
    } else {
        assert(lost_tracks(v, closed, current, n).last() == m);
    }
}

/// A track that is in the way of one that moved has to give way, unless it belongs to the batch itself.
pub proof fn law_tracks_in_the_way_give_way(
    moves: Seq<(i64, Seq<char>, Seq<char>)>,
    holders: Seq<Option<i64>>,
    batch: Seq<i64>,
    i: int,
)
    requires
        moves.len() == holders.len(),
        0 <= i < moves.len(),
    ensures
        holders[i] matches Some(h) ==> (h != moves[i].0 && !batch.contains(h) ==> evicted(moves, holders, batch).contains(
            h,
        )),
        (forall|k: int| 0 <= k < holders.len() ==> (#[trigger] holders[k] matches Some(h) ==> batch.contains(h)))
            ==> evicted(moves, holders, batch).len() == 0,
    decreases moves.len(),
{
    let dm = moves.drop_last();
    let dh = holders.drop_last();
    let r = evicted(dm, dh, batch);
    assert(holders.last() == holders[holders.len() - 1]);
    assert(moves.last() == moves[moves.len() - 1]);
    assert forall|k: int| 0 <= k < dh.len() implies #[trigger] dh[k] == holders[k] by {}
    if dm.len() > 0 {
        law_tracks_in_the_way_give_way(dm, dh, batch, if i < dm.len() {
            i
        } else {
            0
        });
    }
    if holders[i] is Some && holders[i]->0 != moves[i].0 && !batch.contains(holders[i]->0) {
        let h = holders[i]->0;
        if i < dm.len() {
            assert(dm[i] == moves[i]);
            let k = choose|k: int| 0 <= k < r.len() && r[k] == h;
            assert(evicted(moves, holders, batch)[k] == h);
        } else {
            assert(evicted(moves, holders, batch).last() == h);
        }
    }
}

/// The tracks that were renamed are those whose operation was carried out.
pub proof fn law_renamed_tracks(v: Seq<Settled>, i: int)
    requires
        0 <= i < v.len(),
    ensures
        v[i].result == OpResult::Applied ==> renamed_tracks(v).contains(v[i].op.track_id),
        (forall|k: int| 0 <= k < v.len() ==> (#[trigger] v[k]).result != OpResult::Applied) ==> renamed_tracks(v).len()
            == 0,
    decreases v.len(),
{
    let d = v.drop_last();
    let r = renamed_tracks(d);
    assert(v.last() == v[v.len() - 1]);
    assert forall|k: int| 0 <= k < d.len() implies #[trigger] d[k] == v[k] by {}
    if d.len() > 0 {
        law_renamed_tracks(d, if i < d.len() {
            i
        } else {
            0
        });
    }
    if v[i].result == OpResult::Applied {
        if i < d.len() {
            let k = choose|k: int| 0 <= k < r.len() && r[k] == v[i].op.track_id;
            assert(renamed_tracks(v)[k] == v[i].op.track_id);
        } else {
            assert(renamed_tracks(v).last() == v[i].op.track_id);
        }
    }
}

/// A batch that was carried out counts each operation it closed once: as carried out, as a conflict, or as failed.
pub proof fn law_counts_of_a_batch(p: CommitPlan, v: Seq<Settled>, closed: Seq<bool>, current: Seq<Seq<char>>, n: int)
    requires
        0 <= n,
        plan_upto(p, v, closed, current, n),
    ensures
        (forall|i: int| 0 <= i < n ==> #[trigger] closed[i]) ==> p.outcome.applied + p.outcome.conflict + p.outcome.failed
            == n,
        (forall|i: int| 0 <= i < n ==> !#[trigger] closed[i]) ==> p.outcome.applied == 0 && p.outcome.conflict == 0
            && p.outcome.failed == 0 && p.moves@.len() == 0 && p.lost@.len() == 0,
        (forall|i: int| 0 <= i < n ==> closed[i] && (#[trigger] v[i]).result == OpResult::Applied) ==> p.outcome.applied
            == n,
        (forall|i: int| 0 <= i < n ==> closed[i] && (#[trigger] v[i]).result == OpResult::SkippedConflict)
            ==> p.outcome.conflict == n,
        (forall|i: int| 0 <= i < n ==> closed[i] && (#[trigger] v[i]).result == OpResult::Failed) ==> p.outcome.failed
            == n,
        !p.outcome.cancelled,
{
    lemma_counts(v, closed, current, n);
    assert(move_views(p.moves@).len() == p.moves@.len());
    assert(path_views(p.lost@).len() == p.lost@.len());
}

proof fn lemma_counts(v: Seq<Settled>, closed: Seq<bool>, current: Seq<Seq<char>>, n: int)
    requires
        0 <= n,
    ensures
        (forall|i: int| 0 <= i < n ==> #[trigger] closed[i]) ==> ended(v, closed, OpResult::Applied, n) + ended(
            v,
            closed,
            OpResult::SkippedConflict,
            n,
        ) + ended_badly(v, closed, n) == n,
        (forall|i: int| 0 <= i < n ==> !#[trigger] closed[i]) ==> ended(v, closed, OpResult::Applied, n) == 0 && ended(
            v,
            closed,
            OpResult::SkippedConflict,
            n,
        ) == 0 && ended_badly(v, closed, n) == 0 && found_moves(v, closed, current, n).len() == 0 && lost_tracks(
            v,
            closed,
            current,
            n,
        ).len() == 0,
        (forall|i: int| 0 <= i < n ==> closed[i] && (#[trigger] v[i]).result == OpResult::Applied) ==> ended(
            v,
            closed,
            OpResult::Applied,
            n,
        ) == n,
        (forall|i: int| 0 <= i < n ==> closed[i] && (#[trigger] v[i]).result == OpResult::SkippedConflict) ==> ended(
            v,
            closed,
            OpResult::SkippedConflict,
            n,
        ) == n,
        (forall|i: int| 0 <= i < n ==> closed[i] && (#[trigger] v[i]).result == OpResult::Failed) ==> ended_badly(
            v,
            closed,
            n,
        ) == n,
    decreases n,
{
    if n > 0 {
        lemma_counts(v, closed, current, n - 1);
        assert(closed[n - 1] || !closed[n - 1]);
        assert(v[n - 1] == v[n - 1]);
    }
}

/// The moves of a batch name the track, the path it came to and the key of that.
pub proof fn law_moves_of_a_batch(m: Seq<(i64, String, String)>, p: Seq<(i64, String)>, i: int)
    ensures
        0 <= i < m.len() ==> move_views(m)[i] == (m[i].0, m[i].1@, m[i].2@),
        0 <= i < p.len() ==> path_views(p)[i] == (p[i].0, p[i].1@),
        move_views(m).len() == m.len() && path_views(p).len() == p.len(),
{
}

/// A file is the one that was recorded where it has the inode of that on the same device.
pub proof fn law_file_that_was_recorded(r: RenameOp, st: Stat)
    ensures
        !stands(r, None),
        stands(r, Some(st)) <==> r.expected.dev == Some(st.dev as i64) && r.expected.inode == Some(st.inode as i64),
{
}

/// The files are placed in order: the next one is the first from here on that stands under its name between.
pub proof fn law_placed_in_order(locs: Seq<Location>, from: int, i: int, j: int)
    requires
        next_staged(locs, from, i),
    ensures
        from <= i < locs.len(),
        locs[i]@ is Staged,
        from <= j < i ==> !(locs[j]@ is Staged),
        0 <= from <= j < locs.len() && locs[j]@ is Staged ==> i <= j,
{
}

} // verus!
