//! The end of a normalisation: what the catalogue and the ledger of the archive
//! record.

use crate::catalog::{same_bytes, OpKind};
use crate::edit::batch::{Op, OpOutcome};
use crate::edit::error::EditError;
use crate::edit::history::{opt_bytes, OpResult};
use crate::edit::normalize::inspect::{is_conflict, Direction, Placed};
use crate::text::{concat2, same_text};
use vstd::prelude::*;
use vstd::string::*;

verus! {

/// How an operation is carried out.
#[derive(Debug)]
pub enum ArchiveStart {
    /// It ended before.
    Done(OpOutcome),
    Run,
}

/// How an operation is carried out. `env` says that there is an archive and an
/// encoder.
pub fn apply_archive_op(env: bool, op: &Op) -> (r: Result<ArchiveStart, EditError>)
    ensures
        if !env {
            r matches Err(EditError::Internal(m)) && m@ == "正規化の環境（Archive / エンコーダ）が無い"@
        } else if op.result != OpResult::Pending {
            r == Ok::<ArchiveStart, EditError>(ArchiveStart::Done(OpOutcome::AlreadyTerminal(op.result)))
        } else if op.kind != OpKind::Archive {
            r == Err::<ArchiveStart, EditError>(EditError::UnsupportedKind(op.kind))
        } else {
            r == Ok::<ArchiveStart, EditError>(ArchiveStart::Run)
        },
{
    if !env {
        return Err(EditError::Internal("正規化の環境（Archive / エンコーダ）が無い".to_owned()));
    }
    if op.result != OpResult::Pending {
        return Ok(ArchiveStart::Done(OpOutcome::AlreadyTerminal(op.result)));
    }
    if op.kind != OpKind::Archive {
        return Err(EditError::UnsupportedKind(op.kind));
    }
    Ok(ArchiveStart::Run)
}

/// The track must stand where it stood when the operation was recorded.
pub fn check_not_moved(dir: &Direction, current_rel_path: &str) -> (r: Result<(), Placed>)
    ensures
        if current_rel_path@ == dir.old@ {
            r is Ok
        } else {
            r matches Err(p) && is_conflict(p, "記録の後に移動された: "@ + current_rel_path@, None)
        },
{
    if same_text(current_rel_path, &dir.old) {
        Ok(())
    } else {
        Err(Placed::Conflict { reason: concat2("記録の後に移動された: ", current_rel_path), current: None })
    }
}

/// How an operation ends.
#[derive(Debug)]
pub struct ArchiveEnd {
    pub result: OpResult,
    pub outcome: OpOutcome,
    /// A source under the name between goes back to its path.
    pub restore_source: bool,
    /// The catalogue records the new file.
    pub commit: bool,
    /// The row takes over the state of the file at this path.
    pub follow: Option<String>,
}

/// How an operation ends.
pub fn finish_archive(placed: Placed) -> (r: ArchiveEnd)
    ensures
        match placed {
            Placed::Applied => r.result == OpResult::Applied && r.outcome is Applied && !r.restore_source && r.commit
                && r.follow is None,
            Placed::Conflict { reason, current } => r.result == OpResult::SkippedConflict && r.outcome
                == OpOutcome::Conflict(reason) && r.restore_source && !r.commit && r.follow == current,
            Placed::Failed(reason) => r.result == OpResult::Failed && r.outcome == OpOutcome::Failed(reason)
                && r.restore_source && !r.commit && r.follow is None,
        },
{
    match placed {
        Placed::Applied => ArchiveEnd {
            result: OpResult::Applied,
            outcome: OpOutcome::Applied,
            restore_source: false,
            commit: true,
            follow: None,
        },
        Placed::Conflict { reason, current } => ArchiveEnd {
            result: OpResult::SkippedConflict,
            outcome: OpOutcome::Conflict(reason),
            restore_source: true,
            commit: false,
            follow: current,
        },
        Placed::Failed(reason) => ArchiveEnd {
            result: OpResult::Failed,
            outcome: OpOutcome::Failed(reason),
            restore_source: true,
            commit: false,
            follow: None,
        },
    }
}

/// What the catalogue says of the codec a track had.
#[derive(Debug)]
pub enum OriginChange {
    /// It had this one and was normalised now.
    Note(String),
    /// It is what it was.
    Clear,
    Keep,
}

/// Why the archive has a file.
#[derive(Debug, Clone, Copy, PartialEq, Eq, Structural)]
pub enum ArchiveReason {
    Normalize,
    Restore,
}

/// The state of a file in the ledger of the archive.
#[derive(Debug, Clone, Copy, PartialEq, Eq, Structural)]
pub enum ArchiveState {
    Held,
    Restored,
    Other,
}

/// What is recorded of a track whose file was replaced.
#[derive(Debug)]
pub struct AppliedCommit {
    pub tag_version: i64,
    pub origin: OriginChange,
    /// Why the archive has the old file.
    pub reason: ArchiveReason,
    /// The state of the new file in the ledger, where that changes.
    pub new_state: Option<ArchiveState>,
}

/// What is recorded of a track whose file was replaced. The tags have a new
/// version only where the new file does not carry the same ones; the sound is the
/// same, so its version stays. `ledger` is the state of the new file in the ledger
/// of the archive.
pub fn commit_applied(
    dir: &Direction,
    db_tag_hash: &Option<Vec<u8>>,
    tag_hash: &[u8; 32],
    db_tag_version: i64,
    ledger: Option<ArchiveState>,
) -> (r: AppliedCommit)
    requires
        db_tag_version < i64::MAX,
    ensures
        r.tag_version == (if opt_bytes(*db_tag_hash) == Some(tag_hash@) {
            db_tag_version as int
        } else {
            db_tag_version + 1
        }),
        dir.new_codec@ == "flac"@ && dir.old_codec@ != "flac"@ ==> (r.origin matches OriginChange::Note(c) && c@
            == dir.old_codec@),
        dir.old_codec@ == "flac"@ && dir.new_codec@ != "flac"@ ==> r.origin is Clear,
        (dir.old_codec@ == "flac"@) == (dir.new_codec@ == "flac"@) ==> r.origin is Keep,
        r.reason == (if dir.old_codec@ == "flac"@ {
            ArchiveReason::Restore
        } else {
            ArchiveReason::Normalize
        }),
        r.new_state == (if ledger == Some(ArchiveState::Held) {
            Some(ArchiveState::Restored)
        } else {
            None
        }),
{
    let same = match db_tag_hash {
        Some(h) => same_bytes(h.as_slice(), tag_hash.as_slice()),
        None => false,
    };
    let tag_version: i64 = if same {
        db_tag_version
    } else {
        db_tag_version + 1
    };
    let new_is_flac = same_text(&dir.new_codec, "flac");
    let old_is_flac = same_text(&dir.old_codec, "flac");
    let origin = if new_is_flac && !old_is_flac {
        OriginChange::Note(dir.old_codec.clone())
    } else if old_is_flac && !new_is_flac {
        OriginChange::Clear
    } else {
        OriginChange::Keep
    };
    let reason = if old_is_flac {
        ArchiveReason::Restore
    } else {
        ArchiveReason::Normalize
    };
    let new_state = if ledger == Some(ArchiveState::Held) {
        Some(ArchiveState::Restored)
    } else {
        None
    };
    AppliedCommit { tag_version, origin, reason, new_state }
}

} // verus!
