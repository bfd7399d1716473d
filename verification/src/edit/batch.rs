//! Batches: how operations end, and what cancelling and recovering do.

use crate::catalog::{values_of, OpKind};
use crate::edit::error::EditError;
use crate::edit::history::{edit_views, opt_bytes, Edit, JobState, OpResult, Precondition};
use crate::edit::naming::{md5_dedup_key, normalize_dedup_key, rename_dedup_key, tagwrite_dedup_key};
use crate::edit::tags::{
    diff_is, law_giving_up_restores_tags, old_values, recorded_stat, replaced, RecordedStat, TagStep,
};
use crate::text::{int_text, lemma_int_text_injective};
use vstd::prelude::*;
use vstd::string::*;

verus! {

/// Why an operation that was cancelled before it began failed.
pub const CANCELLED_ERROR: &'static str = "cancelled";

/// What is told of a batch that ended.
#[derive(Debug)]
pub struct BatchEvent {
    pub id: i64,
    /// The name of its state.
    pub state: String,
    pub applied: i64,
    pub conflict: i64,
    pub failed: i64,
}

/// An operation of a batch.
#[derive(Debug, Clone, Copy, PartialEq, Eq, Structural)]
pub struct Op {
    pub id: i64,
    pub batch_id: i64,
    pub track_id: i64,
    pub kind: OpKind,
    pub result: OpResult,
    pub job_id: Option<i64>,
}

// ---------------------------------------------------------------- carrying out

/// What an operation came to.
#[derive(Debug)]
pub enum OpOutcome {
    Applied,
    /// The file is not as recorded and was not touched.
    Conflict(String),
    /// It could not be written; the file was not touched.
    Failed(String),
    /// It had ended before.
    AlreadyTerminal(OpResult),
}

/// How an operation is taken up.
#[derive(Debug)]
pub enum ApplyStart {
    /// By writing tags.
    Tags,
    /// By filling in a digest.
    Md5,
    Done(OpOutcome),
}

/// How an operation is taken up by the job that writes tags. One that has ended
/// is left alone; operations of other sorts are not for this job.
pub fn apply_op(op: &Op) -> (r: Result<ApplyStart, EditError>)
    ensures
        if op.result != OpResult::Pending {
            r == Ok::<ApplyStart, EditError>(ApplyStart::Done(OpOutcome::AlreadyTerminal(op.result)))
        } else {
            match op.kind {
                OpKind::Tags => r == Ok::<ApplyStart, EditError>(ApplyStart::Tags),
                OpKind::Md5 => r == Ok::<ApplyStart, EditError>(ApplyStart::Md5),
                k => r == Err::<ApplyStart, EditError>(EditError::UnsupportedKind(k)),
            }
        },
{
    if op.result != OpResult::Pending {
        return Ok(ApplyStart::Done(OpOutcome::AlreadyTerminal(op.result)));
    }
    match op.kind {
        OpKind::Tags => Ok(ApplyStart::Tags),
        OpKind::Md5 => Ok(ApplyStart::Md5),
        k => Err(EditError::UnsupportedKind(k)),
    }
}

/// What an operation leaves in the catalogue.
#[derive(Debug)]
pub struct OpEnd {
    pub result: OpResult,
    pub outcome: OpOutcome,
    /// The row follows the file, as it was written or found.
    pub follow_file: bool,
    /// What the row took over in advance is taken back.
    pub undo_overlay: bool,
}

/// What an operation leaves in the catalogue, by how writing its file ended and
/// whether it is known what the file says: a file that was written, or had the
/// new values, makes it applied; after a conflict or a failure the row follows the
/// file where it could be read, and else goes back to what was recorded.
pub open spec fn tags_ended(end: OpEnd, step: TagStep, current_known: bool) -> bool {
    match step {
        TagStep::Write | TagStep::AlreadyMatches => end.result == OpResult::Applied && end.outcome is Applied
            && end.follow_file && !end.undo_overlay,
        TagStep::Conflict(m) => end.result == OpResult::SkippedConflict && end.outcome == OpOutcome::Conflict(m)
            && end.follow_file == current_known && end.undo_overlay == !current_known,
        TagStep::Failed(m) => end.result == OpResult::Failed && end.outcome == OpOutcome::Failed(m)
            && end.follow_file == current_known && end.undo_overlay == !current_known,
    }
}

/// What an operation leaves in the catalogue (see [`tags_ended`]).
pub fn finish_tags(step: TagStep, current_known: bool) -> (r: OpEnd)
    ensures
        tags_ended(r, step, current_known),
{
    match step {
        TagStep::Write => OpEnd {
            result: OpResult::Applied,
            outcome: OpOutcome::Applied,
            follow_file: true,
            undo_overlay: false,
        },
        TagStep::AlreadyMatches => OpEnd {
            result: OpResult::Applied,
            outcome: OpOutcome::Applied,
            follow_file: true,
            undo_overlay: false,
        },
        TagStep::Conflict(m) => OpEnd {
            result: OpResult::SkippedConflict,
            outcome: OpOutcome::Conflict(m),
            follow_file: current_known,
            undo_overlay: !current_known,
        },
        TagStep::Failed(m) => OpEnd {
            result: OpResult::Failed,
            outcome: OpOutcome::Failed(m),
            follow_file: current_known,
            undo_overlay: !current_known,
        },
    }
}

/// What is done to the row of an operation that ends.
#[derive(Debug, Clone, Copy, PartialEq, Eq, Structural)]
pub enum RowAction {
    Nothing,
    /// It follows the file.
    FollowFile,
    /// What it took over in advance is taken back.
    UndoOverlay,
}

/// What is done to the row. `ended` says that it was this end that ended the
/// operation: one that had ended before leaves the row alone, unless the file has
/// the new values.
pub open spec fn action_of(end: OpEnd, ended: bool) -> RowAction {
    if end.follow_file && (end.result == OpResult::Applied || ended) {
        RowAction::FollowFile
    } else if end.undo_overlay && ended {
        RowAction::UndoOverlay
    } else {
        RowAction::Nothing
    }
}

/// What is done to the row of an operation (see [`action_of`]).
pub fn row_action(end: &OpEnd, ended: bool) -> (r: RowAction)
    ensures
        r == action_of(*end, ended),
{
    if end.follow_file && (end.result == OpResult::Applied || ended) {
        RowAction::FollowFile
    } else if end.undo_overlay && ended {
        RowAction::UndoOverlay
    } else {
        RowAction::Nothing
    }
}

/// How an operation that will not be carried out is closed.
#[derive(Debug, Clone, Copy, PartialEq, Eq, Structural)]
pub enum CloseStep {
    /// It has ended.
    Nothing,
    /// All renames of the batch that wait are closed at once: their paths may
    /// depend on each other.
    CloseRenames,
    /// The source that was put aside goes back; the catalogue knows nothing to
    /// take back.
    RestoreSource,
    /// It is only marked; the catalogue knows nothing to take back.
    MarkOnly,
    /// The row follows the file.
    FollowFile,
    /// What the row took over in advance is taken back.
    UndoOverlay,
}

/// How an operation that will not be carried out is closed, by its sort and, where
/// its row took something over in advance, by whether its file could be read.
pub open spec fn closed_by(op: Op, current_known: bool) -> CloseStep {
    if op.result != OpResult::Pending {
        CloseStep::Nothing
    } else {
        match op.kind {
            OpKind::Rename => CloseStep::CloseRenames,
            OpKind::Archive => CloseStep::RestoreSource,
            OpKind::Md5 => CloseStep::MarkOnly,
            OpKind::Tags | OpKind::Delete => if current_known {
                CloseStep::FollowFile
            } else {
                CloseStep::UndoOverlay
            },
        }
    }
}

/// How an operation that will not be carried out is closed (see [`closed_by`]).
pub fn close_op(op: &Op, current_known: bool) -> (r: CloseStep)
    ensures
        r == closed_by(*op, current_known),
{
    if op.result != OpResult::Pending {
        return CloseStep::Nothing;
    }
    match op.kind {
        OpKind::Rename => CloseStep::CloseRenames,
        OpKind::Archive => CloseStep::RestoreSource,
        OpKind::Md5 => CloseStep::MarkOnly,
        OpKind::Tags | OpKind::Delete => {
            if current_known {
                CloseStep::FollowFile
            } else {
                CloseStep::UndoOverlay
            }
        },
    }
}

/// What a row says of its file.
pub struct RowView {
    pub tags: Seq<(Seq<char>, Seq<char>)>,
    pub tag_hash: Option<Seq<u8>>,
    pub stat: RecordedStat,
}

/// What a row says once its operation has ended. `file` is what its file says,
/// `expected` and `edits` are what was recorded.
pub open spec fn row_after(
    action: RowAction,
    row: RowView,
    file: RowView,
    expected: Precondition,
    edits: Seq<Edit>,
) -> RowView {
    match action {
        RowAction::Nothing => row,
        RowAction::FollowFile => file,
        RowAction::UndoOverlay => RowView {
            tags: replaced(row.tags, old_values(edits), edits.len() as int),
            tag_hash: opt_bytes(expected.tag_hash),
            stat: recorded_stat(expected),
        },
    }
}

/// The row says what the file says where that is known, and else what it said when
/// the operation was recorded. `before` are its tags at that time.
pub open spec fn tells_no_new_values(
    after: RowView,
    file: Option<RowView>,
    before: Seq<(Seq<char>, Seq<char>)>,
    expected: Precondition,
) -> bool {
    match file {
        Some(f) => after == f,
        None => after.tag_hash == opt_bytes(expected.tag_hash) && after.stat == recorded_stat(expected)
            && forall|k: Seq<char>| #[trigger] values_of(after.tags, k) == values_of(before, k),
    }
}

/// An operation on tags that ends other than applied leaves its row with what the
/// file says where the file could be read, and else with the old values and the
/// recorded look of the file.
pub proof fn law_unapplied_tags_show_no_new_values(
    end: OpEnd,
    step: TagStep,
    file: Option<RowView>,
    row: RowView,
    before: Seq<(Seq<char>, Seq<char>)>,
    expected: Precondition,
    edits: Seq<Edit>,
)
    requires
        tags_ended(end, step, file is Some),
        end.result != OpResult::Applied,
        diff_is(edit_views(edits), before, row.tags),
    ensures
        tells_no_new_values(row_after(action_of(end, true), row, file->0, expected, edits), file, before, expected),
{
    lemma_undone(row, file->0, before, expected, edits);
}

/// An operation on tags that is closed without being carried out leaves its row
/// with what the file says where the file could be read, and else with the old
/// values and the recorded look of the file.
pub proof fn law_closed_tags_show_no_new_values(
    op: Op,
    file: Option<RowView>,
    row: RowView,
    before: Seq<(Seq<char>, Seq<char>)>,
    expected: Precondition,
    edits: Seq<Edit>,
)
    requires
        op.result == OpResult::Pending,
        op.kind == OpKind::Tags,
        diff_is(edit_views(edits), before, row.tags),
    ensures
        closed_by(op, file is Some) == CloseStep::FollowFile || closed_by(op, file is Some) == CloseStep::UndoOverlay,
        tells_no_new_values(
            row_after(
                if closed_by(op, file is Some) == CloseStep::FollowFile {
                    RowAction::FollowFile
                } else {
                    RowAction::UndoOverlay
                },
                row,
                file->0,
                expected,
                edits,
            ),
            file,
            before,
            expected,
        ),
{
    lemma_undone(row, file->0, before, expected, edits);
}

proof fn lemma_undone(
    row: RowView,
    file: RowView,
    before: Seq<(Seq<char>, Seq<char>)>,
    expected: Precondition,
    edits: Seq<Edit>,
)
    requires
        diff_is(edit_views(edits), before, row.tags),
    ensures
        tells_no_new_values(row_after(RowAction::UndoOverlay, row, file, expected, edits), None, before, expected),
{
    let after = row_after(RowAction::UndoOverlay, row, file, expected, edits);
    assert forall|k: Seq<char>| #[trigger] values_of(after.tags, k) == values_of(before, k) by {
        law_giving_up_restores_tags(before, row.tags, edits, k);
    }
}

// ---------------------------------------------------------------- cancelling

/// What cancelling a batch came to.
#[derive(Debug, Clone, Copy, PartialEq, Eq, Structural)]
pub enum CancelOutcome {
    NotFound,
    /// The batch has ended.
    NotCancellable,
    Cancelled {
        /// Operations that had not begun.
        ops_cancelled: usize,
        /// Operations that are under way and end by themselves.
        running: usize,
    },
}

/// A waiting operation with the state of its job.
#[derive(Debug, Clone, Copy, PartialEq, Eq, Structural)]
pub struct WaitingOp {
    pub op: Op,
    pub job: Option<JobState>,
}

/// Which operations of a batch are closed and which are let run.
#[derive(Debug)]
pub struct CancelPlan {
    pub to_close: Vec<i64>,
    /// The jobs that are asked to stop.
    pub running: Vec<i64>,
}

/// The operation is under way.
pub open spec fn is_running(w: WaitingOp) -> bool {
    w.job == Some(JobState::Running)
}

/// The operations that are closed, among the waiting ones.
pub open spec fn closed_ops(v: Seq<WaitingOp>) -> Seq<i64>
    decreases v.len(),
{
    if v.len() == 0 {
        Seq::empty()
    } else {
        let r = closed_ops(v.drop_last());
        if is_running(v.last()) {
            r
        } else {
            r.push(v.last().op.id)
        }
    }
}

/// The jobs of the operations that are under way.
pub open spec fn running_jobs(v: Seq<WaitingOp>) -> Seq<i64>
    decreases v.len(),
{
    if v.len() == 0 {
        Seq::empty()
    } else {
        let r = running_jobs(v.drop_last());
        if is_running(v.last()) {
            r.push(
                match v.last().op.job_id {
                    Some(j) => j,
                    None => 0,
                },
            )
        } else {
            r
        }
    }
}

/// Which operations of a batch are closed when it is cancelled, and which are
/// under way. `terminal` says of the batch that it has ended, none where there
/// is no such batch.
pub fn cancel_batch(terminal: Option<bool>, waiting: &Vec<WaitingOp>) -> (r: Result<CancelPlan, CancelOutcome>)
    ensures
        match terminal {
            None => r == Err::<CancelPlan, CancelOutcome>(CancelOutcome::NotFound),
            Some(true) => r == Err::<CancelPlan, CancelOutcome>(CancelOutcome::NotCancellable),
            Some(false) => r matches Ok(p) && p.to_close@ == closed_ops(waiting@) && p.running@ == running_jobs(
                waiting@,
            ),
        },
{
    match terminal {
        None => {
            return Err(CancelOutcome::NotFound);
        },
        Some(true) => {
            return Err(CancelOutcome::NotCancellable);
        },
        Some(false) => {},
    }
    let mut to_close: Vec<i64> = Vec::new();
    let mut running: Vec<i64> = Vec::new();
    let mut i: usize = 0;
    while i < waiting.len()
        invariant
            i <= waiting@.len(),
            to_close@ == closed_ops(waiting@.take(i as int)),
            running@ == running_jobs(waiting@.take(i as int)),
        decreases waiting@.len() - i,
    {
        let w: WaitingOp = waiting[i];
        proof {
            assert(waiting@.take(i + 1).last() == w);
            assert(waiting@.take(i + 1).drop_last() =~= waiting@.take(i as int));
        }
        let under_way = match w.job {
            Some(JobState::Running) => true,
            _ => false,
        };
        if under_way {
            running.push(
                match w.op.job_id {
                    Some(j) => j,
                    None => 0,
                },
            );
        } else {
            to_close.push(w.op.id);
        }
        i = i + 1;
    }
    proof {
        assert(waiting@.take(i as int) =~= waiting@);
    }
    Ok(CancelPlan { to_close, running })
}

/// What a cancellation reports. The batch is summed up at once where nothing is
/// under way.
pub fn cancelled(ops_cancelled: usize, plan: &CancelPlan) -> (r: (CancelOutcome, bool))
    ensures
        r.0 == (CancelOutcome::Cancelled { ops_cancelled, running: plan.running@.len() as usize }),
        r.1 == (plan.running@.len() == 0),
{
    (CancelOutcome::Cancelled { ops_cancelled, running: plan.running.len() }, plan.running.len() == 0)
}

/// Every waiting operation of a batch is either closed or under way.
pub proof fn law_cancel_accounts_for_all(v: Seq<WaitingOp>)
    ensures
        closed_ops(v).len() + running_jobs(v).len() == v.len(),
    decreases v.len(),
{
    if v.len() > 0 {
        law_cancel_accounts_for_all(v.drop_last());
    }
}

// ---------------------------------------------------------------- recovering

/// What recovering did.
#[derive(Debug, Clone, Copy, PartialEq, Eq, Structural)]
pub struct RecoverReport {
    /// Operations whose job was queued again.
    pub requeued: usize,
    /// Operations that were closed since their job had been cancelled.
    pub cancelled_ops: usize,
    /// Batches that were open with nothing left to do.
    pub aggregated: usize,
}

/// An open batch with its waiting operations.
#[derive(Debug)]
pub struct OpenBatch {
    pub batch_id: i64,
    pub waiting: Vec<WaitingOp>,
}

/// What is done at the start for batches that were left open.
#[derive(Debug)]
pub struct RecoverPlan {
    pub to_cancel: Vec<i64>,
    pub to_requeue: Vec<Op>,
    pub to_aggregate: Vec<i64>,
}

/// The operation is queued again: its job has ended or is not there.
pub open spec fn is_requeued(w: WaitingOp) -> bool {
    match w.job {
        Some(JobState::Done) => true,
        Some(JobState::Failed) => true,
        None => true,
        _ => false,
    }
}

/// The operations whose job was cancelled.
pub open spec fn cancelled_ops(v: Seq<WaitingOp>) -> Seq<i64>
    decreases v.len(),
{
    if v.len() == 0 {
        Seq::empty()
    } else {
        let r = cancelled_ops(v.drop_last());
        if v.last().job == Some(JobState::Cancelled) {
            r.push(v.last().op.id)
        } else {
            r
        }
    }
}

/// The operations that are queued again.
pub open spec fn requeued_ops(v: Seq<WaitingOp>) -> Seq<Op>
    decreases v.len(),
{
    if v.len() == 0 {
        Seq::empty()
    } else {
        let r = requeued_ops(v.drop_last());
        if is_requeued(v.last()) {
            r.push(v.last().op)
        } else {
            r
        }
    }
}

/// The same over all batches.
pub open spec fn all_cancelled(b: Seq<OpenBatch>) -> Seq<i64>
    decreases b.len(),
{
    if b.len() == 0 {
        Seq::empty()
    } else {
        all_cancelled(b.drop_last()) + cancelled_ops(b.last().waiting@)
    }
}

/// The same over all batches.
pub open spec fn all_requeued(b: Seq<OpenBatch>) -> Seq<Op>
    decreases b.len(),
{
    if b.len() == 0 {
        Seq::empty()
    } else {
        all_requeued(b.drop_last()) + requeued_ops(b.last().waiting@)
    }
}

/// The batches that wait for nothing.
pub open spec fn idle_batches(b: Seq<OpenBatch>) -> Seq<i64>
    decreases b.len(),
{
    if b.len() == 0 {
        Seq::empty()
    } else {
        let r = idle_batches(b.drop_last());
        if b.last().waiting@.len() == 0 {
            r.push(b.last().batch_id)
        } else {
            r
        }
    }
}

/// What is done at the start for batches that were left open: operations whose
/// job was cancelled are closed, those whose job has ended or is gone are
/// queued again, those whose job waits or runs are left alone, and batches that
/// wait for nothing are summed up.
pub fn recover(open: &Vec<OpenBatch>) -> (r: RecoverPlan)
    ensures
        r.to_cancel@ == all_cancelled(open@),
        r.to_requeue@ == all_requeued(open@),
        r.to_aggregate@ == idle_batches(open@),
{
    let mut to_cancel: Vec<i64> = Vec::new();
    let mut to_requeue: Vec<Op> = Vec::new();
    let mut to_aggregate: Vec<i64> = Vec::new();
    let mut i: usize = 0;
    while i < open.len()
        invariant
            i <= open@.len(),
            to_cancel@ == all_cancelled(open@.take(i as int)),
            to_requeue@ == all_requeued(open@.take(i as int)),
            to_aggregate@ == idle_batches(open@.take(i as int)),
        decreases open@.len() - i,
    {
        proof {
            assert(open@.take(i + 1).last() == open@[i as int]);
            assert(open@.take(i + 1).drop_last() =~= open@.take(i as int));
        }
        let w = &open[i].waiting;
        if w.len() == 0 {
            to_aggregate.push(open[i].batch_id);
        }
        let ghost c0 = to_cancel@;
        let ghost q0 = to_requeue@;
        let mut j: usize = 0;
        proof {
            assert(c0 + cancelled_ops(w@.take(0)) =~= c0);
            assert(q0 + requeued_ops(w@.take(0)) =~= q0);
        }
        while j < w.len()
            invariant
                j <= w@.len(),
                to_cancel@ == c0 + cancelled_ops(w@.take(j as int)),
                to_requeue@ == q0 + requeued_ops(w@.take(j as int)),
            decreases w@.len() - j,
        {
            let x: WaitingOp = w[j];
            proof {
                assert(w@.take(j + 1).last() == x);
                assert(w@.take(j + 1).drop_last() =~= w@.take(j as int));
            }
            let ghost c1 = cancelled_ops(w@.take(j as int));
            let ghost q1 = requeued_ops(w@.take(j as int));
            match x.job {
                Some(JobState::Cancelled) => {
                    to_cancel.push(x.op.id);
                    proof {
                        assert(to_cancel@ =~= c0 + c1.push(x.op.id));
                    }
                },
                Some(JobState::Queued) => {},
                Some(JobState::Running) => {},
                _ => {
                    to_requeue.push(x.op);
                    proof {
                        assert(to_requeue@ =~= q0 + q1.push(x.op));
                    }
                },
            }
            j = j + 1;
        }
        proof {
            assert(w@.take(j as int) =~= w@);
        }
        i = i + 1;
    }
    proof {
        assert(open@.take(i as int) =~= open@);
    }
    RecoverPlan { to_cancel, to_requeue, to_aggregate }
}

/// The key of the job that carries out an operation, none for one that has no
/// job. `tag_version` is the version of the tags of its track, none where the
/// track is gone.
pub open spec fn job_key(op: Op, tag_version: Option<i64>) -> Option<Seq<char>> {
    match op.kind {
        OpKind::Tags => match tag_version {
            Some(v) => Some("tagwrite:"@ + int_text(op.track_id as int) + ":"@ + int_text(v as int)),
            None => None,
        },
        OpKind::Md5 => Some("tagwrite:"@ + int_text(op.track_id as int) + ":md5:"@ + int_text(op.id as int)),
        OpKind::Rename => Some("rename:batch:"@ + int_text(op.batch_id as int)),
        OpKind::Archive => Some("normalize:"@ + int_text(op.track_id as int) + ":"@ + int_text(op.id as int)),
        OpKind::Delete => None,
    }
}

/// The key of the job that carries out an operation.
pub fn requeue_key(op: &Op, tag_version: Option<i64>) -> (r: Option<String>)
    ensures
        match r {
            Some(k) => job_key(*op, tag_version) == Some(k@),
            None => job_key(*op, tag_version) is None,
        },
{
    match op.kind {
        OpKind::Tags => match tag_version {
            Some(v) => Some(tagwrite_dedup_key(op.track_id, v)),
            None => None,
        },
        OpKind::Md5 => Some(md5_dedup_key(op.track_id, op.id)),
        OpKind::Rename => Some(rename_dedup_key(op.batch_id)),
        OpKind::Archive => Some(normalize_dedup_key(op.track_id, op.id)),
        OpKind::Delete => None,
    }
}

// ---------------------------------------------------------------- laws

/// How writing tags ends: written, or found written already, is carried out; the row then follows the file.
/// Any other end leaves the file, and the row follows it where it could be read, and goes back to what it
/// said before where it could not.
pub proof fn law_end_of_writing(end: OpEnd, step: TagStep, current_known: bool)
    requires
        tags_ended(end, step, current_known),
    ensures
        step is Write || step is AlreadyMatches ==> end.result == OpResult::Applied && action_of(end, true)
            == RowAction::FollowFile && action_of(end, false) == RowAction::FollowFile,
        step is Conflict ==> end.result == OpResult::SkippedConflict,
        step is Failed ==> end.result == OpResult::Failed,
        step is Conflict || step is Failed ==> action_of(end, true) == (if current_known {
            RowAction::FollowFile
        } else {
            RowAction::UndoOverlay
        }) && action_of(end, false) == RowAction::Nothing,
{
}

/// An operation that waits is closed by its sort: renames are closed together, a normalisation gives its source
/// back, a digest leaves nothing behind, and tags go back to the file or to what was recorded. One that ended
/// is left alone.
pub proof fn law_closing_an_operation(op: Op, known: bool)
    ensures
        op.result != OpResult::Pending ==> closed_by(op, known) == CloseStep::Nothing,
        op.result == OpResult::Pending && op.kind == OpKind::Rename ==> closed_by(op, known) == CloseStep::CloseRenames,
        op.result == OpResult::Pending && op.kind == OpKind::Archive ==> closed_by(op, known)
            == CloseStep::RestoreSource,
        op.result == OpResult::Pending && op.kind == OpKind::Md5 ==> closed_by(op, known) == CloseStep::MarkOnly,
        op.result == OpResult::Pending && op.kind == OpKind::Tags ==> closed_by(op, true) == CloseStep::FollowFile
            && closed_by(op, false) == CloseStep::UndoOverlay,
        op.result == OpResult::Pending && op.kind == OpKind::Delete ==> closed_by(op, true) == CloseStep::FollowFile
            && closed_by(op, false) == CloseStep::UndoOverlay,
{
}

/// Cancelling closes each operation whose job does not run, and asks each job that runs to stop.
pub proof fn law_what_cancelling_does(v: Seq<WaitingOp>, i: int)
    requires
        0 <= i < v.len(),
    ensures
        v[i].job != Some(JobState::Running) ==> closed_ops(v).contains(v[i].op.id),
        v[i].job == Some(JobState::Running) ==> (v[i].op.job_id matches Some(j) ==> running_jobs(v).contains(j)),
        (forall|k: int| 0 <= k < v.len() ==> (#[trigger] v[k]).job == Some(JobState::Running)) ==> closed_ops(v).len()
            == 0,
        (forall|k: int| 0 <= k < v.len() ==> (#[trigger] v[k]).job != Some(JobState::Running)) ==> running_jobs(v).len()
            == 0,
    decreases v.len(),
{
    let d = v.drop_last();
    let a = closed_ops(d);
    let b = running_jobs(d);
    assert(v.last() == v[v.len() - 1]);
    assert forall|k: int| 0 <= k < d.len() implies #[trigger] d[k] == v[k] by {}
    if d.len() > 0 {
        law_what_cancelling_does(d, if i < d.len() {
            i
        } else {
            0
        });
    }
    if v[i].job != Some(JobState::Running) {
        if i < d.len() {
            let k = choose|k: int| 0 <= k < a.len() && a[k] == v[i].op.id;
            assert(closed_ops(v)[k] == v[i].op.id);
        } else {
            assert(closed_ops(v).last() == v[i].op.id);
        }
    } else if v[i].op.job_id is Some {
        let j = v[i].op.job_id->0;
        if i < d.len() {
            let k = choose|k: int| 0 <= k < b.len() && b[k] == j;
            assert(running_jobs(v)[k] == j);
        } else {
            assert(running_jobs(v).last() == j);
        }
    }
}

/// After a restart an operation whose job was cancelled is closed, one whose job ended without it or is gone
/// gets a new one, and one whose job still waits or runs is left to it.
pub proof fn law_what_recovering_does(v: Seq<WaitingOp>, i: int)
    requires
        0 <= i < v.len(),
    ensures
        v[i].job == Some(JobState::Cancelled) ==> cancelled_ops(v).contains(v[i].op.id),
        v[i].job == Some(JobState::Done) || v[i].job == Some(JobState::Failed) || v[i].job is None ==> requeued_ops(
            v,
        ).contains(v[i].op),
        (forall|k: int|
            0 <= k < v.len() ==> (#[trigger] v[k]).job == Some(JobState::Queued) || v[k].job == Some(JobState::Running))
            ==> cancelled_ops(v).len() == 0 && requeued_ops(v).len() == 0,
        cancelled_ops(v).len() + requeued_ops(v).len() <= v.len(),
    decreases v.len(),
{
    let d = v.drop_last();
    let a = cancelled_ops(d);
    let b = requeued_ops(d);
    assert(v.last() == v[v.len() - 1]);
    assert forall|k: int| 0 <= k < d.len() implies #[trigger] d[k] == v[k] by {}
    if d.len() > 0 {
        law_what_recovering_does(d, if i < d.len() {
            i
        } else {
            0
        });
    }
    if v[i].job == Some(JobState::Cancelled) {
        if i < d.len() {
            let k = choose|k: int| 0 <= k < a.len() && a[k] == v[i].op.id;
            assert(cancelled_ops(v)[k] == v[i].op.id);
        } else {
            assert(cancelled_ops(v).last() == v[i].op.id);
        }
    }
    if is_requeued(v[i]) {
        if i < d.len() {
            let k = choose|k: int| 0 <= k < b.len() && b[k] == v[i].op;
            assert(requeued_ops(v)[k] == v[i].op);
        } else {
            assert(requeued_ops(v).last() == v[i].op);
        }
    }
}

/// A batch for which nothing waits any more is closed.
pub proof fn law_idle_batches_are_closed(b: Seq<OpenBatch>, i: int)
    requires
        0 <= i < b.len(),
    ensures
        b[i].waiting@.len() == 0 ==> idle_batches(b).contains(b[i].batch_id),
        (forall|k: int| 0 <= k < b.len() ==> (#[trigger] b[k]).waiting@.len() > 0) ==> idle_batches(b).len() == 0,
    decreases b.len(),
{
    let d = b.drop_last();
    let r = idle_batches(d);
    assert(b.last() == b[b.len() - 1]);
    assert forall|k: int| 0 <= k < d.len() implies #[trigger] d[k] == b[k] by {}
    if d.len() > 0 {
        law_idle_batches_are_closed(d, if i < d.len() {
            i
        } else {
            0
        });
    }
    if b[i].waiting@.len() == 0 {
        if i < d.len() {
            let k = choose|k: int| 0 <= k < r.len() && r[k] == b[i].batch_id;
            assert(idle_batches(b)[k] == b[i].batch_id);
        } else {
            assert(idle_batches(b).last() == b[i].batch_id);
        }
    }
}

/// The work of two operations is told apart by its key: that on tags by the track and the version it writes,
/// any other by its own number, and renames go by their batch.
pub proof fn law_keys_of_work(a: Op, b: Op, v: i64, w: i64)
    ensures
        a.kind == OpKind::Rename && b.kind == OpKind::Rename ==> (job_key(a, Some(v)) == job_key(b, Some(w)) <==> a.batch_id
            == b.batch_id),
        a.kind == OpKind::Tags && b.kind == OpKind::Tags && a.track_id == b.track_id ==> (job_key(a, Some(v)) == job_key(
            b,
            Some(w),
        ) <==> v == w),
        a.kind == OpKind::Md5 && b.kind == OpKind::Md5 && a.track_id == b.track_id ==> (job_key(a, Some(v)) == job_key(
            b,
            Some(w),
        ) <==> a.id == b.id),
        a.kind == OpKind::Archive && b.kind == OpKind::Archive && a.track_id == b.track_id ==> (job_key(a, Some(v))
            == job_key(b, Some(w)) <==> a.id == b.id),
        a.kind == OpKind::Tags ==> job_key(a, None) is None,
        a.kind == OpKind::Delete ==> job_key(a, Some(v)) is None,
{
    let r = "rename:batch:"@;
    lemma_suffix(r, a.batch_id as int, b.batch_id as int);
    let t = "tagwrite:"@ + int_text(a.track_id as int) + ":"@;
    lemma_suffix(t, v as int, w as int);
    let m = "tagwrite:"@ + int_text(a.track_id as int) + ":md5:"@;
    lemma_suffix(m, a.id as int, b.id as int);
    let n = "normalize:"@ + int_text(a.track_id as int) + ":"@;
    lemma_suffix(n, a.id as int, b.id as int);
}

proof fn lemma_suffix(p: Seq<char>, a: int, b: int)
    ensures
        p + int_text(a) == p + int_text(b) <==> a == b,
{
    let x = p + int_text(a);
    let y = p + int_text(b);
    assert(x.skip(p.len() as int) =~= int_text(a));
    assert(y.skip(p.len() as int) =~= int_text(b));
    if x == y {
        lemma_int_text_injective(a, b);
    }
}

} // verus!
