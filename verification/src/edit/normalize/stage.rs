//! Replacing a file: the new file is placed, the source moves to a name between
//! and is copied to the archive, and is removed only once nothing can be lost.

use crate::catalog::{same32, Fingerprint};
use crate::edit::error::EditError;
use crate::edit::naming::{normalize_temp_rel_path, working_path};
use crate::edit::normalize::inspect::{is_conflict, is_failure, replaced_before, AbsentLook, Direction, Placed};
use crate::edit::tags::same_stat;
use crate::fsroot::Stat;
use crate::import::placement::same_state;
use crate::text::{concat2, same_text};
use vstd::prelude::*;
use vstd::string::*;

verus! {

/// Where the work can be watched.
#[derive(Debug, Clone, Copy, PartialEq, Eq, Structural)]
pub enum NormalizeStep {
    /// The new file is placed and the source stands under the name between.
    Staged(i64),
    /// The archive has its copy; the last comparison is to come.
    BeforeUnlink(i64),
    /// The comparison is done; the source is about to be removed.
    Verified(i64),
    /// The source is removed.
    AfterUnlink(i64),
    /// A file that is taken back was looked at.
    UndoChecked(i64),
    /// A file that is taken back was set aside.
    UndoQuarantined(i64),
    /// A file that was set aside is the one that was made.
    UndoVerified(i64),
}

/// A file, whatever its path.
#[derive(Debug, Clone, Copy, PartialEq, Eq, Structural)]
pub struct Ident {
    pub dev: u64,
    pub inode: u64,
}

impl Ident {
    pub open spec fn spec_of(st: Stat) -> Ident {
        Ident { dev: st.dev, inode: st.inode }
    }

    /// The file of a stat.
    pub fn of(st: &Stat) -> (r: Ident)
        ensures
            r == Ident::spec_of(*st),
    {
        Ident { dev: st.dev, inode: st.inode }
    }

    /// The stat is of this file.
    pub fn matches(self, st: &Stat) -> (r: bool)
        ensures
            r == (self == Ident::spec_of(*st)),
    {
        self.dev == st.dev && self.inode == st.inode
    }
}

// ---------------------------------------------------------------- placing

/// The source must not have changed since it was looked at.
pub fn check_unchanged(before: &Stat, now: &Stat, source_rel: &str) -> (r: Result<(), Placed>)
    ensures
        if same_state(*before, *now) {
            r is Ok
        } else {
            r matches Err(p) && is_conflict(p, "変換の間に元ファイルが外部で更新された"@, Some(source_rel@))
        },
{
    if same_stat(before, now) {
        Ok(())
    } else {
        Err(
            Placed::Conflict {
                reason: "変換の間に元ファイルが外部で更新された".to_owned(),
                current: Some(source_rel.to_owned()),
            },
        )
    }
}

/// What the archive has under the path of the source.
#[derive(Debug, Clone, Copy)]
pub enum ArchiveLook {
    /// A file with this digest.
    File([u8; 32]),
    NotFound,
    Symlink,
}

/// The archive has the source already, or nothing in its place.
pub fn check_archive(dir: &Direction, look: &ArchiveLook, source_hash: &[u8; 32]) -> (r: Result<bool, Placed>)
    ensures
        match *look {
            ArchiveLook::File(h) => if h == *source_hash {
                r == Ok::<bool, Placed>(true)
            } else {
                r matches Err(p) && is_failure(p, "Archive に同じパスの別のファイルがある: "@ + dir.old@)
            },
            ArchiveLook::NotFound => r == Ok::<bool, Placed>(false),
            ArchiveLook::Symlink => r matches Err(p) && is_failure(
                p,
                "Archive の退避先を開けない（symlink）: "@ + dir.old@,
            ),
        },
{
    match look {
        ArchiveLook::File(h) => {
            if same32(h, source_hash) {
                Ok(true)
            } else {
                Err(Placed::Failed(concat2("Archive に同じパスの別のファイルがある: ", &dir.old)))
            }
        },
        ArchiveLook::NotFound => Ok(false),
        ArchiveLook::Symlink => Err(
            Placed::Failed(concat2("Archive の退避先を開けない（symlink）: ", &dir.old)),
        ),
    }
}

/// What stands at the new path.
#[derive(Debug, Clone, Copy)]
pub enum DestinationLook {
    /// A file whose sound has this digest, none where it cannot be told.
    File(Option<[u8; 16]>),
    NotFound,
    Symlink,
}

/// The new file is there already, with the sound of the source, or nothing is.
pub fn check_destination(dir: &Direction, look: &DestinationLook, expected: &[u8; 16]) -> (r: Result<bool, Placed>)
    ensures
        match *look {
            DestinationLook::File(m) => if m == Some(*expected) {
                r == Ok::<bool, Placed>(true)
            } else {
                r matches Err(p) && is_conflict(p, "宛先に別のファイルがある: "@ + dir.new@, None)
            },
            DestinationLook::NotFound => r == Ok::<bool, Placed>(false),
            DestinationLook::Symlink => r matches Err(p) && is_conflict(
                p,
                "宛先を開けない（symlink）: "@ + dir.new@,
                None,
            ),
        },
{
    match look {
        DestinationLook::File(m) => {
            let same = match m {
                Some(x) => crate::catalog::same16(x, expected),
                None => false,
            };
            if same {
                Ok(true)
            } else {
                Err(Placed::Conflict { reason: concat2("宛先に別のファイルがある: ", &dir.new), current: None })
            }
        },
        DestinationLook::NotFound => Ok(false),
        DestinationLook::Symlink => Err(
            Placed::Conflict { reason: concat2("宛先を開けない（symlink）: ", &dir.new), current: None },
        ),
    }
}

/// Someone took the new path while the new file was written.
pub fn destination_taken(dir: &Direction) -> (r: Placed)
    ensures
        is_conflict(r, "宛先が反映の直前に取られた: "@ + dir.new@, None),
{
    Placed::Conflict { reason: concat2("宛先が反映の直前に取られた: ", &dir.new), current: None }
}

/// Where the source stands while it is replaced. `fits` says that there is a name
/// between (see [`normalize_temp_rel_path`]).
pub fn staging_path(op_id: i64, dir: &Direction, fits: bool) -> (r: Result<String, Placed>)
    ensures
        match r {
            Ok(p) => fits && p@ == working_path("spindle-normalize-"@, op_id as int, dir.old@),
            Err(p) => !fits && is_failure(p, "一時名を作れないパス: "@ + dir.old@),
        },
{
    match normalize_temp_rel_path(op_id, &dir.old, fits) {
        Some(p) => Ok(p),
        None => Err(Placed::Failed(concat2("一時名を作れないパス: ", &dir.old))),
    }
}

/// The source has to move to the name between: it does not stand there yet.
pub fn needs_staging(source_rel: &str, tmp_rel: &str) -> (r: bool)
    ensures
        r == (source_rel@ != tmp_rel@),
{
    !same_text(source_rel, tmp_rel)
}

/// How moving the source to the name between ended.
#[derive(Debug, Clone, Copy, PartialEq, Eq, Structural)]
pub enum StageMove {
    /// What stands there after that.
    Moved(Stat),
    /// The name is taken, or the source is gone.
    Blocked,
}

/// The file that moved has to be the source. `now` is how the source looked just
/// before.
pub fn check_staged(dir: &Direction, end: &StageMove, now: &Stat, tmp_rel: &str) -> (r: Result<(), Placed>)
    ensures
        match *end {
            StageMove::Blocked => r matches Err(p) && is_conflict(
                p,
                "元ファイルを退避できない（一時名が塞がっている、または元が無い）: "@ + tmp_rel@,
                Some(dir.old@),
            ),
            StageMove::Moved(st) => if Ident::spec_of(st) == Ident::spec_of(*now) {
                r is Ok
            } else {
                r matches Err(p) && is_conflict(p, "反映の直前に元ファイルが差し替えられた"@, Some(dir.old@))
            },
        },
{
    match end {
        StageMove::Blocked => Err(
            Placed::Conflict {
                reason: concat2("元ファイルを退避できない（一時名が塞がっている、または元が無い）: ", tmp_rel),
                current: Some(dir.old.clone()),
            },
        ),
        StageMove::Moved(st) => {
            if Ident::of(st).matches(now) {
                Ok(())
            } else {
                Err(
                    Placed::Conflict {
                        reason: "反映の直前に元ファイルが差し替えられた".to_owned(),
                        current: Some(dir.old.clone()),
                    },
                )
            }
        },
    }
}

// ---------------------------------------------------------------- copying

/// What was copied to the archive has to be the source as it was.
pub fn check_copy(written: &[u8; 32], source_hash: &[u8; 32]) -> (r: Result<(), Placed>)
    ensures
        if *written == *source_hash {
            r is Ok
        } else {
            r matches Err(p) && is_conflict(p, "退避の間に元ファイルが外部で更新された"@, None)
        },
{
    if same32(written, source_hash) {
        Ok(())
    } else {
        Err(Placed::Conflict { reason: "退避の間に元ファイルが外部で更新された".to_owned(), current: None })
    }
}

/// What is read back from the archive has to be what was written.
pub fn check_readback(readback: &[u8; 32], source_hash: &[u8; 32]) -> (r: Result<(), EditError>)
    ensures
        if *readback == *source_hash {
            r is Ok
        } else {
            r matches Err(EditError::Internal(m)) && m@ == "Archive へ書いた内容を読み戻すと元と一致しない"@
        },
{
    if same32(readback, source_hash) {
        Ok(())
    } else {
        Err(EditError::Internal("Archive へ書いた内容を読み戻すと元と一致しない".to_owned()))
    }
}

// ---------------------------------------------------------------- the last comparison

/// What the last look before the source is removed shows.
#[derive(Debug, Clone, Copy)]
pub struct VerifyLook {
    /// How the source looks.
    pub now: Stat,
    /// The digest of its bytes.
    pub hash: [u8; 32],
    /// What stands under the name between.
    pub temp: Option<Stat>,
    /// The fingerprint of the new file, none outside where it cannot be read.
    pub fingerprint: Option<Option<Fingerprint>>,
}

/// The source is as it was when it was set aside, it is what stands under the
/// name between, and the new file has its sound.
pub open spec fn nothing_lost(look: VerifyLook, staged: Stat, source_hash: [u8; 32], expected: [u8; 16]) -> bool {
    &&& same_state(staged, look.now)
    &&& look.hash == source_hash
    &&& look.temp is Some
    &&& Ident::spec_of(look.temp->0) == Ident::spec_of(look.now)
    &&& look.fingerprint == Some(Some(Fingerprint::Md5(Some(expected))))
}

fn carries(fp: &Option<Fingerprint>, expected: &[u8; 16]) -> (r: bool)
    ensures
        r == (*fp == Some(Fingerprint::Md5(Some(*expected)))),
{
    match fp {
        Some(Fingerprint::Md5(Some(m))) => crate::catalog::same16(m, expected),
        _ => false,
    }
}

/// The last comparison before the source is removed. It gives the file that may
/// be removed.
pub fn phase_verify(dir: &Direction, look: &VerifyLook, staged: &Stat, source_hash: &[u8; 32], expected: &[u8; 16]) -> (r:
    Result<Result<Ident, Placed>, EditError>)
    ensures
        if !same_state(*staged, look.now) || look.hash != *source_hash {
            r matches Ok(Err(p)) && is_conflict(p, "退避の間に元ファイルが外部で更新された"@, None)
        } else if look.temp is None || Ident::spec_of(look.temp->0) != Ident::spec_of(look.now) {
            r matches Ok(Err(p)) && is_conflict(p, "退避の間に一時名の元ファイルが差し替えられた"@, None)
        } else if look.fingerprint is None {
            r matches Err(EditError::Internal(m)) && m@ == "置いたファイルを読み直せない: "@ + dir.new@
        } else if look.fingerprint->0 != Some(Fingerprint::Md5(Some(*expected))) {
            r matches Ok(Err(p)) && is_conflict(p, "退避の間に宛先が差し替えられた: "@ + dir.new@, None)
        } else {
            r == Ok::<Result<Ident, Placed>, EditError>(Ok(Ident::spec_of(look.now)))
        },
        (r matches Ok(Ok(_))) == nothing_lost(*look, *staged, *source_hash, *expected),
{
    if !same_stat(staged, &look.now) || !same32(&look.hash, source_hash) {
        return Ok(
            Err(Placed::Conflict { reason: "退避の間に元ファイルが外部で更新された".to_owned(), current: None }),
        );
    }
    let mine = Ident::of(&look.now);
    let there = match &look.temp {
        Some(st) => mine.matches(st),
        None => false,
    };
    if !there {
        return Ok(
            Err(
                Placed::Conflict {
                    reason: "退避の間に一時名の元ファイルが差し替えられた".to_owned(),
                    current: None,
                },
            ),
        );
    }
    match &look.fingerprint {
        None => Err(EditError::Internal(concat2("置いたファイルを読み直せない: ", &dir.new))),
        Some(fp) => {
            if carries(fp, expected) {
                Ok(Ok(mine))
            } else {
                Ok(
                    Err(
                        Placed::Conflict {
                            reason: concat2("退避の間に宛先が差し替えられた: ", &dir.new),
                            current: None,
                        },
                    ),
                )
            }
        },
    }
}

// ---------------------------------------------------------------- the whole

/// How far replacing a file has come.
#[derive(Debug, Clone, Copy, PartialEq, Eq, Structural)]
pub enum ArchiveStage {
    /// Look at the source.
    Inspect,
    /// Make the new file ready.
    Prepare,
    /// Place the new file and set the source aside.
    Place,
    /// Record the digest of the source.
    RecordHash,
    /// Copy the source to the archive.
    Copy,
    /// Compare for the last time.
    Verify,
    /// Look once more at what is removed.
    Unlink,
    /// Remove the source.
    Remove,
    /// The source is removed.
    Done,
}

/// A file that was made: how it looked, and the digest of what was written.
#[derive(Debug, Clone, Copy)]
pub struct Made {
    pub stat: Stat,
    pub sha256: [u8; 32],
}

/// What was done and can be undone.
#[derive(Debug, Clone, Copy)]
pub struct Undo {
    /// The new file, where it was not there before.
    pub placed: Option<Made>,
    /// The source was set aside.
    pub staged: bool,
    /// The copy in the archive, where it was not there before.
    pub archived: Option<Made>,
}

/// The state of replacing a file.
#[derive(Debug, Clone, Copy)]
pub struct ArchiveRun {
    pub stage: ArchiveStage,
    /// The digest of the sound.
    pub expected_md5: Option<[u8; 16]>,
    /// The digest of the source.
    pub source_hash: Option<[u8; 32]>,
    /// How the source looked after it was set aside.
    pub staged_stat: Option<Stat>,
    /// The digest of what the archive has.
    pub copy_hash: Option<[u8; 32]>,
    pub recorded: bool,
    /// The file that may be removed.
    pub verified: Option<Ident>,
    pub undo: Undo,
}

/// How much is known at a stage.
pub open spec fn rank(s: ArchiveStage) -> int {
    match s {
        ArchiveStage::Inspect => 0,
        ArchiveStage::Prepare => 1,
        ArchiveStage::Place => 2,
        ArchiveStage::RecordHash => 3,
        ArchiveStage::Copy => 4,
        ArchiveStage::Verify => 5,
        ArchiveStage::Unlink => 6,
        ArchiveStage::Remove => 7,
        ArchiveStage::Done => 8,
    }
}

impl ArchiveRun {
    /// What is known is what the stage needs. From the last comparison on, the
    /// archive has the source byte by byte, and that is recorded.
    pub open spec fn wf(self) -> bool {
        &&& rank(self.stage) >= 1 ==> self.expected_md5 is Some
        &&& rank(self.stage) >= 3 ==> self.source_hash is Some && self.staged_stat is Some
        &&& rank(self.stage) >= 4 ==> self.recorded
        &&& rank(self.stage) >= 5 ==> self.copy_hash == self.source_hash
        &&& rank(self.stage) >= 6 ==> self.verified is Some
        &&& self.copy_hash is Some ==> self.copy_hash == self.source_hash
    }

    /// Before anything was done.
    pub fn new() -> (r: ArchiveRun)
        ensures
            r.wf(),
            r.stage == ArchiveStage::Inspect,
            r.undo == (Undo { placed: None, staged: false, archived: None }),
            r.copy_hash is None,
            r.source_hash is None,
            r.expected_md5 is None,
            r.staged_stat is None,
            r.verified is None,
            !r.recorded,
    {
        ArchiveRun {
            stage: ArchiveStage::Inspect,
            expected_md5: None,
            source_hash: None,
            staged_stat: None,
            copy_hash: None,
            recorded: false,
            verified: None,
            undo: Undo { placed: None, staged: false, archived: None },
        }
    }
}

/// What a look under the name between shows.
#[derive(Debug)]
pub enum TempLook {
    Seen(Stat),
    NotFound,
    Fault(EditError),
}

/// How removing the source ended.
#[derive(Debug)]
pub enum RemoveEnd {
    Removed,
    NotFound,
    /// It was not removed.
    Fault(EditError),
    /// It was removed, and the directory could not be written out.
    SyncFault(EditError),
}

/// What happened.
#[derive(Debug)]
pub enum ArchiveEvent {
    /// The source is as recorded; the digest of its sound.
    SourceReady([u8; 16]),
    /// The source was replaced before.
    SourceReplaced,
    /// The new file is ready; that the work was cancelled meanwhile.
    IncomingReady { cancelled: bool },
    /// The new file is placed and the source is set aside.
    Placed {
        source_hash: [u8; 32],
        /// The archive has the source already.
        archived_already: bool,
        /// The new file, where it was not there before.
        placed: Option<Made>,
        staged: bool,
        staged_stat: Stat,
    },
    HashRecorded,
    /// The source was copied: the digests of what was written and of what is read
    /// back, and how the copy looks.
    Copied { written: [u8; 32], readback: [u8; 32], stat: Stat },
    Compared(VerifyLook),
    LastLook(TempLook),
    Unlinked(RemoveEnd),
    /// The stage ended so.
    Stopped(Placed),
    /// The stage could not be carried out.
    Fault(EditError),
}

/// What to do next.
#[derive(Debug)]
pub enum ArchiveNext {
    Do(ArchiveStage),
    End(Placed),
    Fault(EditError),
    /// Undo what was done, put the source back, and end so.
    UndoAndEnd(Undo, Placed),
    /// Undo what was done, leave the source under the name between for the next
    /// try, and report the fault.
    UndoAndFault(Undo, EditError),
}

/// The event can happen at the stage.
pub open spec fn fits(stage: ArchiveStage, event: ArchiveEvent) -> bool {
    match event {
        ArchiveEvent::SourceReady(_) | ArchiveEvent::SourceReplaced => stage == ArchiveStage::Inspect,
        ArchiveEvent::IncomingReady { .. } => stage == ArchiveStage::Prepare,
        ArchiveEvent::Placed { .. } => stage == ArchiveStage::Place,
        ArchiveEvent::HashRecorded => stage == ArchiveStage::RecordHash,
        ArchiveEvent::Copied { .. } => stage == ArchiveStage::Copy,
        ArchiveEvent::Compared(_) => stage == ArchiveStage::Verify,
        ArchiveEvent::LastLook(_) => stage == ArchiveStage::Unlink,
        ArchiveEvent::Unlinked(_) => stage == ArchiveStage::Remove,
        ArchiveEvent::Stopped(_) => rank(stage) < 7,
        ArchiveEvent::Fault(_) => stage != ArchiveStage::Remove,
    }
}

/// The stage stops, and what was done so far is undone.
pub open spec fn stops(next: ArchiveNext, run: ArchiveRun, p: Placed) -> bool {
    if rank(run.stage) < 3 {
        next == ArchiveNext::End(p)
    } else {
        next == ArchiveNext::UndoAndEnd(run.undo, p)
    }
}

/// The stage fails. What was done is undone, unless the source is removed.
pub open spec fn faults(next: ArchiveNext, run: ArchiveRun, e: EditError) -> bool {
    if rank(run.stage) < 3 || run.stage == ArchiveStage::Done {
        next == ArchiveNext::Fault(e)
    } else {
        next == ArchiveNext::UndoAndFault(run.undo, e)
    }
}

/// The work ends as a conflict, and what was done is undone.
pub open spec fn stops_as(next: ArchiveNext, run: ArchiveRun, reason: Seq<char>) -> bool {
    next matches ArchiveNext::UndoAndEnd(u, p) && u == run.undo && is_conflict(p, reason, None)
}

/// `run` becomes `after`, and `next` is to be done, once `event` happened.
pub open spec fn advances(
    dir: Direction,
    run: ArchiveRun,
    event: ArchiveEvent,
    after: ArchiveRun,
    next: ArchiveNext,
) -> bool {
    match event {
        ArchiveEvent::SourceReady(m) => after == (ArchiveRun {
            stage: ArchiveStage::Prepare,
            expected_md5: Some(m),
            ..run
        }) && next == ArchiveNext::Do(ArchiveStage::Prepare),
        ArchiveEvent::SourceReplaced => after == run && next == ArchiveNext::End(Placed::Applied),
        ArchiveEvent::IncomingReady { cancelled } => if cancelled {
            after == run && next == ArchiveNext::Fault(EditError::Cancelled)
        } else {
            after == (ArchiveRun { stage: ArchiveStage::Place, ..run }) && next == ArchiveNext::Do(ArchiveStage::Place)
        },
        ArchiveEvent::Placed { source_hash, archived_already, placed, staged, staged_stat } => after == (ArchiveRun {
            stage: ArchiveStage::RecordHash,
            source_hash: Some(source_hash),
            staged_stat: Some(staged_stat),
            copy_hash: if archived_already {
                Some(source_hash)
            } else {
                None
            },
            undo: Undo { placed, staged, archived: None },
            ..run
        }) && next == ArchiveNext::Do(ArchiveStage::RecordHash),
        ArchiveEvent::HashRecorded => {
            let stage = if run.copy_hash is Some {
                ArchiveStage::Verify
            } else {
                ArchiveStage::Copy
            };
            after == (ArchiveRun { stage, recorded: true, ..run }) && next == ArchiveNext::Do(stage)
        },
        ArchiveEvent::Copied { written, readback, stat } => if Some(written) != run.source_hash {
            after == run && stops_as(next, run, "退避の間に元ファイルが外部で更新された"@)
        } else if Some(readback) != run.source_hash {
            after == run && (next matches ArchiveNext::UndoAndFault(u, EditError::Internal(m)) && u == run.undo && m@
                == "Archive へ書いた内容を読み戻すと元と一致しない"@)
        } else {
            after == (ArchiveRun {
                stage: ArchiveStage::Verify,
                copy_hash: Some(readback),
                undo: Undo { archived: Some(Made { stat, sha256: readback }), ..run.undo },
                ..run
            }) && next == ArchiveNext::Do(ArchiveStage::Verify)
        },
        ArchiveEvent::Compared(look) => if nothing_lost(
            look,
            run.staged_stat->0,
            run.source_hash->0,
            run.expected_md5->0,
        ) {
            after == (ArchiveRun {
                stage: ArchiveStage::Unlink,
                verified: Some(Ident::spec_of(look.now)),
                ..run
            }) && next == ArchiveNext::Do(ArchiveStage::Unlink)
        } else {
            after == run && if !same_state(run.staged_stat->0, look.now) || Some(look.hash) != run.source_hash {
                stops_as(next, run, "退避の間に元ファイルが外部で更新された"@)
            } else if look.temp is None || Ident::spec_of(look.temp->0) != Ident::spec_of(look.now) {
                stops_as(next, run, "退避の間に一時名の元ファイルが差し替えられた"@)
            } else if look.fingerprint is None {
                next matches ArchiveNext::UndoAndFault(u, EditError::Internal(m)) && u == run.undo && m@
                    == "置いたファイルを読み直せない: "@ + dir.new@
            } else {
                stops_as(next, run, "退避の間に宛先が差し替えられた: "@ + dir.new@)
            }
        },
        ArchiveEvent::LastLook(look) => match look {
            TempLook::Seen(st) => if run.verified == Some(Ident::spec_of(st)) {
                after == (ArchiveRun { stage: ArchiveStage::Remove, ..run }) && next == ArchiveNext::Do(
                    ArchiveStage::Remove,
                )
            } else {
                after == run && stops_as(next, run, "確定の直前に一時名の元ファイルが差し替えられた"@)
            },
            TempLook::NotFound => after == run && stops_as(
                next,
                run,
                "確定の直前に一時名の元ファイルが無くなった"@,
            ),
            TempLook::Fault(e) => after == run && next == ArchiveNext::UndoAndFault(run.undo, e),
        },
        ArchiveEvent::Unlinked(end) => match end {
            RemoveEnd::Removed => after == (ArchiveRun { stage: ArchiveStage::Done, ..run }) && next == ArchiveNext::End(
                Placed::Applied,
            ),
            RemoveEnd::NotFound => after == run && stops_as(
                next,
                run,
                "確定の直前に一時名の元ファイルが無くなった"@,
            ),
            RemoveEnd::Fault(e) => after == run && next == ArchiveNext::UndoAndFault(run.undo, e),
            RemoveEnd::SyncFault(e) => after == (ArchiveRun { stage: ArchiveStage::Done, ..run }) && next
                == ArchiveNext::Fault(e),
        },
        ArchiveEvent::Stopped(p) => after == run && stops(next, run, p),
        ArchiveEvent::Fault(e) => after == run && faults(next, run, e),
    }
}

fn conflict(reason: &str) -> (r: Placed)
    ensures
        is_conflict(r, reason@, None),
{
    Placed::Conflict { reason: reason.to_owned(), current: None }
}

fn copied(run: ArchiveRun, written: [u8; 32], readback: [u8; 32], stat: Stat) -> (r: (ArchiveRun, ArchiveNext))
    requires
        run.wf(),
        run.stage == ArchiveStage::Copy,
    ensures
        forall|dir: Direction| #[trigger]
            advances(dir, run, ArchiveEvent::Copied { written, readback, stat }, r.0, r.1),
        r.0.wf(),
{
    let hash: [u8; 32] = match run.source_hash {
        Some(h) => h,
        None => [0u8;32],
    };
    match check_copy(&written, &hash) {
        Ok(()) => {},
        Err(p) => {
            return (run, ArchiveNext::UndoAndEnd(run.undo, p));
        },
    }
    match check_readback(&readback, &hash) {
        Ok(()) => {},
        Err(e) => {
            return (run, ArchiveNext::UndoAndFault(run.undo, e));
        },
    }
    let mut after = run;
    after.stage = ArchiveStage::Verify;
    after.copy_hash = Some(readback);
    after.undo.archived = Some(Made { stat, sha256: readback });
    (after, ArchiveNext::Do(ArchiveStage::Verify))
}

fn compared(dir: &Direction, run: ArchiveRun, look: VerifyLook) -> (r: (ArchiveRun, ArchiveNext))
    requires
        run.wf(),
        run.stage == ArchiveStage::Verify,
    ensures
        advances(*dir, run, ArchiveEvent::Compared(look), r.0, r.1),
        r.0.wf(),
{
    let hash: [u8; 32] = match run.source_hash {
        Some(h) => h,
        None => [0u8;32],
    };
    let expected: [u8; 16] = match run.expected_md5 {
        Some(m) => m,
        None => [0u8;16],
    };
    let staged: Stat = match run.staged_stat {
        Some(s) => s,
        None => look.now,
    };
    match phase_verify(dir, &look, &staged, &hash, &expected) {
        Ok(Ok(ident)) => {
            let mut after = run;
            after.stage = ArchiveStage::Unlink;
            after.verified = Some(ident);
            (after, ArchiveNext::Do(ArchiveStage::Unlink))
        },
        Ok(Err(p)) => (run, ArchiveNext::UndoAndEnd(run.undo, p)),
        Err(e) => (run, ArchiveNext::UndoAndFault(run.undo, e)),
    }
}

fn last_look(run: ArchiveRun, look: TempLook) -> (r: (ArchiveRun, ArchiveNext))
    requires
        run.wf(),
        run.stage == ArchiveStage::Unlink,
    ensures
        forall|dir: Direction| #[trigger] advances(dir, run, ArchiveEvent::LastLook(look), r.0, r.1),
        r.0.wf(),
{
    match look {
        TempLook::Seen(st) => {
            let same = match run.verified {
                Some(i) => i.matches(&st),
                None => false,
            };
            if same {
                let mut after = run;
                after.stage = ArchiveStage::Remove;
                (after, ArchiveNext::Do(ArchiveStage::Remove))
            } else {
                let p = conflict("確定の直前に一時名の元ファイルが差し替えられた");
                (run, ArchiveNext::UndoAndEnd(run.undo, p))
            }
        },
        TempLook::NotFound => {
            let p = conflict("確定の直前に一時名の元ファイルが無くなった");
            (run, ArchiveNext::UndoAndEnd(run.undo, p))
        },
        TempLook::Fault(e) => (run, ArchiveNext::UndoAndFault(run.undo, e)),
    }
}

fn unlinked(run: ArchiveRun, end: RemoveEnd) -> (r: (ArchiveRun, ArchiveNext))
    requires
        run.wf(),
        run.stage == ArchiveStage::Remove,
    ensures
        forall|dir: Direction| #[trigger] advances(dir, run, ArchiveEvent::Unlinked(end), r.0, r.1),
        r.0.wf(),
{
    let mut after = run;
    after.stage = ArchiveStage::Done;
    match end {
        RemoveEnd::Removed => (after, ArchiveNext::End(Placed::Applied)),
        RemoveEnd::NotFound => {
            let p = conflict("確定の直前に一時名の元ファイルが無くなった");
            (run, ArchiveNext::UndoAndEnd(run.undo, p))
        },
        RemoveEnd::Fault(e) => (run, ArchiveNext::UndoAndFault(run.undo, e)),
        RemoveEnd::SyncFault(e) => (after, ArchiveNext::Fault(e)),
    }
}

/// Nothing of the library is touched yet.
fn is_early(s: ArchiveStage) -> (r: bool)
    ensures
        r == (rank(s) < 3),
{
    s == ArchiveStage::Inspect || s == ArchiveStage::Prepare || s == ArchiveStage::Place
}

/// What follows once an event happened (see [`advances`]). Placing the new file
/// undoes its own work where it stops; from then on until the source is removed,
/// a stop undoes what was done.
pub fn stage_archive(dir: &Direction, run: ArchiveRun, event: ArchiveEvent) -> (r: (ArchiveRun, ArchiveNext))
    requires
        run.wf(),
        fits(run.stage, event),
    ensures
        advances(*dir, run, event, r.0, r.1),
        r.0.wf(),
{
    match event {
        ArchiveEvent::SourceReady(m) => {
            let mut after = run;
            after.stage = ArchiveStage::Prepare;
            after.expected_md5 = Some(m);
            (after, ArchiveNext::Do(ArchiveStage::Prepare))
        },
        ArchiveEvent::SourceReplaced => (run, ArchiveNext::End(Placed::Applied)),
        ArchiveEvent::IncomingReady { cancelled } => {
            if cancelled {
                (run, ArchiveNext::Fault(EditError::Cancelled))
            } else {
                let mut after = run;
                after.stage = ArchiveStage::Place;
                (after, ArchiveNext::Do(ArchiveStage::Place))
            }
        },
        ArchiveEvent::Placed { source_hash, archived_already, placed, staged, staged_stat } => {
            let mut after = run;
            after.stage = ArchiveStage::RecordHash;
            after.source_hash = Some(source_hash);
            after.staged_stat = Some(staged_stat);
            after.copy_hash = if archived_already {
                Some(source_hash)
            } else {
                None
            };
            after.undo = Undo { placed, staged, archived: None };
            (after, ArchiveNext::Do(ArchiveStage::RecordHash))
        },
        ArchiveEvent::HashRecorded => {
            let mut after = run;
            after.recorded = true;
            after.stage = if run.copy_hash.is_some() {
                ArchiveStage::Verify
            } else {
                ArchiveStage::Copy
            };
            (after, ArchiveNext::Do(after.stage))
        },
        ArchiveEvent::Copied { written, readback, stat } => {
            let r = copied(run, written, readback, stat);
            proof {
                assert(advances(*dir, run, ArchiveEvent::Copied { written, readback, stat }, r.0, r.1));
            }
            r
        },
        ArchiveEvent::Compared(look) => compared(dir, run, look),
        ArchiveEvent::LastLook(look) => {
            let r = last_look(run, look);
            proof {
                assert(advances(*dir, run, ArchiveEvent::LastLook(look), r.0, r.1));
            }
            r
        },
        ArchiveEvent::Unlinked(end) => {
            let r = unlinked(run, end);
            proof {
                assert(advances(*dir, run, ArchiveEvent::Unlinked(end), r.0, r.1));
            }
            r
        },
        ArchiveEvent::Stopped(p) => {
            if is_early(run.stage) {
                (run, ArchiveNext::End(p))
            } else {
                (run, ArchiveNext::UndoAndEnd(run.undo, p))
            }
        },
        ArchiveEvent::Fault(e) => {
            if is_early(run.stage) || run.stage == ArchiveStage::Done {
                (run, ArchiveNext::Fault(e))
            } else {
                (run, ArchiveNext::UndoAndFault(run.undo, e))
            }
        },
    }
}

// ---------------------------------------------------------------- laws

/// The source is removed only while the archive has it byte by byte, its digest
/// is recorded, and the file that is removed is the one that was compared.
pub proof fn law_source_removed_only_when_kept(
    dir: Direction,
    run: ArchiveRun,
    event: ArchiveEvent,
    after: ArchiveRun,
)
    requires
        run.wf(),
        fits(run.stage, event),
        advances(dir, run, event, after, ArchiveNext::Do(ArchiveStage::Remove)),
    ensures
        run.source_hash is Some,
        run.copy_hash == run.source_hash,
        run.recorded,
        event matches ArchiveEvent::LastLook(TempLook::Seen(st)) && run.verified == Some(Ident::spec_of(st)),
{
}

/// A file may be removed only after a look that showed the source as it was set
/// aside and the new file with its sound.
pub proof fn law_removal_is_compared_for(
    dir: Direction,
    run: ArchiveRun,
    event: ArchiveEvent,
    after: ArchiveRun,
)
    requires
        run.wf(),
        fits(run.stage, event),
        advances(dir, run, event, after, ArchiveNext::Do(ArchiveStage::Unlink)),
    ensures
        event matches ArchiveEvent::Compared(look) && nothing_lost(
            look,
            run.staged_stat->0,
            run.source_hash->0,
            run.expected_md5->0,
        ) && after.verified == Some(Ident::spec_of(look.now)),
{
}

/// Once the source is removed nothing is undone: the new file and the archive
/// stay.
pub proof fn law_nothing_undone_after_removal(
    dir: Direction,
    run: ArchiveRun,
    event: ArchiveEvent,
    after: ArchiveRun,
    next: ArchiveNext,
)
    requires
        run.wf(),
        fits(run.stage, event),
        advances(dir, run, event, after, next),
        after.stage == ArchiveStage::Done,
    ensures
        !(next is UndoAndEnd),
        !(next is UndoAndFault),
{
}

/// From the moment the source is set aside until it is removed, whatever stops
/// the work undoes what was done, no more and no less.
pub proof fn law_stops_undo_what_was_done(
    dir: Direction,
    run: ArchiveRun,
    event: ArchiveEvent,
    after: ArchiveRun,
    next: ArchiveNext,
)
    requires
        run.wf(),
        fits(run.stage, event),
        advances(dir, run, event, after, next),
        3 <= rank(run.stage) < 8,
        after.stage != ArchiveStage::Done,
    ensures
        match next {
            ArchiveNext::Do(_) => true,
            ArchiveNext::UndoAndEnd(u, _) => u == run.undo,
            ArchiveNext::UndoAndFault(u, _) => u == run.undo,
            ArchiveNext::End(_) | ArchiveNext::Fault(_) => false,
        },
{
}

/// Work that was interrupted after the source was removed is found done by the
/// next try: the new file has the sound, the archive has the source, and the
/// catalogue knows the digests of both.
pub proof fn law_removed_source_is_found_done(
    run: ArchiveRun,
    look: AbsentLook,
    db_md5: Option<[u8; 16]>,
    recorded: Option<[u8; 32]>,
)
    requires
        run.wf(),
        run.stage == ArchiveStage::Done,
        look.placed == Some(run.expected_md5),
        look.archived_hash == run.copy_hash,
        db_md5 == run.expected_md5,
        recorded == run.source_hash,
    ensures
        replaced_before(look, db_md5, recorded),
{
}

/// The source may be removed only where all of this holds: it stands as it did when it was set aside, its
/// bytes are those that were recorded, it is still the file under the name between, and the file at the new
/// place has its sound.
pub proof fn law_nothing_is_lost(look: VerifyLook, staged: Stat, source_hash: [u8; 32], expected: [u8; 16])
    requires
        nothing_lost(look, staged, source_hash, expected),
    ensures
        look.hash == source_hash,
        look.now.inode == staged.inode && look.now.dev == staged.dev && look.now.size == staged.size && look.now.mtime_ns
            == staged.mtime_ns && look.now.ctime_ns == staged.ctime_ns,
        look.temp matches Some(t) && t.inode == look.now.inode && t.dev == look.now.dev,
        look.fingerprint == Some(Some(Fingerprint::Md5(Some(expected)))),
{
}

/// The stages follow one upon the other; none is skipped but the copy, where the archive holds the file
/// already, and none is gone back to.
pub proof fn law_stages_in_order(dir: Direction, run: ArchiveRun, event: ArchiveEvent, after: ArchiveRun, next: ArchiveNext)
    requires
        fits(run.stage, event),
        advances(dir, run, event, after, next),
    ensures
        after.stage == run.stage || rank(after.stage) == rank(run.stage) + 1 || (run.stage == ArchiveStage::RecordHash
            && after.stage == ArchiveStage::Verify && run.copy_hash is Some),
        next matches ArchiveNext::Do(s) ==> s == after.stage && rank(s) > rank(run.stage),
        event is HashRecorded && run.copy_hash is None ==> next == ArchiveNext::Do(ArchiveStage::Copy),
        event is HashRecorded && run.copy_hash is Some ==> next == ArchiveNext::Do(ArchiveStage::Verify),
        event is SourceReady ==> next == ArchiveNext::Do(ArchiveStage::Prepare),
        event matches ArchiveEvent::IncomingReady { cancelled } ==> (!cancelled ==> next == ArchiveNext::Do(
            ArchiveStage::Place,
        )),
        event is Placed ==> next == ArchiveNext::Do(ArchiveStage::RecordHash),
        event matches ArchiveEvent::Unlinked(RemoveEnd::Removed) ==> next == ArchiveNext::End(Placed::Applied),
{
}

/// A copy in the archive counts only where it holds the bytes of the source, as they were written and as they
/// were read back.
pub proof fn law_copy_holds_the_source(
    dir: Direction,
    run: ArchiveRun,
    written: [u8; 32],
    readback: [u8; 32],
    stat: Stat,
    after: ArchiveRun,
    next: ArchiveNext,
)
    requires
        advances(dir, run, ArchiveEvent::Copied { written, readback, stat }, after, next),
    ensures
        next is Do <==> run.source_hash == Some(written) && run.source_hash == Some(readback),
        next is Do ==> after.copy_hash == run.source_hash && (after.undo.archived matches Some(m) && m.sha256 == readback
            && m.stat == stat),
{
}

} // verus!
