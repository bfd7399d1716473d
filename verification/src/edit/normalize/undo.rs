//! Undoing: the source goes back, and what was made is taken away, but only
//! where it is still what was made. While the source cannot be kept, nothing is
//! taken away.

use crate::catalog::same32;
use crate::edit::history::Precondition;
use crate::edit::naming::{ext_of, path_extension};
use crate::edit::normalize::inspect::{is_conflict, Placed};
use crate::edit::normalize::stage::{Ident, Made, TempLook, Undo};
use crate::edit::tags::same_stat;
use crate::fsroot::{random_bytes, Stat, TMP_PREFIX};
use crate::hex::{hex_text, to_hex};
use crate::import::placement::same_state;
use crate::relpath::{join_path, joined_path, lemma_parts_of_join, parent, parent_of};
use crate::text::{concat2, concat3, concat4, int_text, int_to_text, opt_text, starts_with};
use vstd::prelude::*;
use vstd::string::*;

verus! {

// ---------------------------------------------------------------- names

/// The prefix of the name under which a file is set aside before it is taken
/// away. The name is hidden, and nothing removes such a file by itself: until it
/// is compared it may be someone else's.
pub const UNDO_QUARANTINE_PREFIX: &'static str = ".spindle-undo-";

/// The path in the directory of `rel` with this name.
pub open spec fn beside(rel: Seq<char>, name: Seq<char>) -> Seq<char> {
    joined_path(parent_of(rel), name)
}

fn path_beside(rel: &str, name: &str) -> (r: String)
    ensures
        r@ == beside(rel@, name@),
{
    match parent(rel) {
        Some(dir) => join_path(Some(dir.as_str()), name),
        None => join_path(None, name),
    }
}

/// The path under which a file is set aside.
pub open spec fn quarantine_text(op_id: int, rel: Seq<char>, raw: Seq<u8>) -> Seq<char> {
    beside(rel, UNDO_QUARANTINE_PREFIX@ + int_text(op_id) + "-"@ + hex_text(raw))
}

/// The path under which a file is set aside, made of random bytes.
pub fn quarantine_path_of(op_id: i64, rel: &str, raw: &[u8]) -> (r: String)
    ensures
        r@ == quarantine_text(op_id as int, rel@, raw@),
{
    let n = int_to_text(op_id);
    let h = to_hex(raw);
    let name = concat4(UNDO_QUARANTINE_PREFIX, &n, "-", &h);
    path_beside(rel, &name)
}

/// A fresh path under which a file is set aside, none where no random bytes are
/// to be had.
pub fn undo_quarantine_rel_path(op_id: i64, rel: &str) -> (r: Option<String>)
    ensures
        r matches Some(p) ==> exists|raw: Seq<u8>|
            raw.len() == 4 && p@ == #[trigger] quarantine_text(op_id as int, rel@, raw),
{
    match random_bytes(4) {
        Some(raw) => Some(quarantine_path_of(op_id, rel, raw.as_slice())),
        None => None,
    }
}

/// The path to which a file moves that is about to be removed. Files of such
/// names are removed in time if the work is interrupted.
pub open spec fn disposal_text(op_id: int, rel: Seq<char>, raw: Seq<u8>) -> Seq<char> {
    beside(rel, TMP_PREFIX@ + "undo-"@ + int_text(op_id) + ("-"@ + hex_text(raw)))
}

/// The path to which a file moves that is about to be removed, made of random
/// bytes.
pub fn disposal_path_of(op_id: i64, rel: &str, raw: &[u8]) -> (r: String)
    ensures
        r@ == disposal_text(op_id as int, rel@, raw@),
{
    let n = int_to_text(op_id);
    let h = to_hex(raw);
    let tail = concat2("-", &h);
    let name = concat4(TMP_PREFIX, "undo-", &n, &tail);
    path_beside(rel, &name)
}

/// A fresh path to which a file moves that is about to be removed, none where no
/// random bytes are to be had.
pub fn undo_disposal_rel_path(op_id: i64, rel: &str) -> (r: Option<String>)
    ensures
        r matches Some(p) ==> exists|raw: Seq<u8>|
            raw.len() == 4 && p@ == #[trigger] disposal_text(op_id as int, rel@, raw),
{
    match random_bytes(4) {
        Some(raw) => Some(disposal_path_of(op_id, rel, raw.as_slice())),
        None => None,
    }
}

/// The path where a file is kept whose places are all taken, with the extension
/// it had.
pub open spec fn recovery_text(op_id: int, old: Seq<char>, raw: Seq<u8>) -> Seq<char> {
    let name = "spindle-recovery-"@ + int_text(op_id) + "-"@ + hex_text(raw);
    beside(
        old,
        match path_extension(old) {
            Some(e) => name + "."@ + e,
            None => name,
        },
    )
}

/// The path where a file is kept whose places are all taken, made of random
/// bytes.
pub fn recovery_path_of(op_id: i64, old: &str, raw: &[u8]) -> (r: String)
    ensures
        r@ == recovery_text(op_id as int, old@, raw@),
{
    let n = int_to_text(op_id);
    let h = to_hex(raw);
    let stem = concat4("spindle-recovery-", &n, "-", &h);
    match ext_of(old) {
        Some(e) => {
            let name = concat3(&stem, ".", &e);
            path_beside(old, &name)
        },
        None => path_beside(old, &stem),
    }
}

/// A fresh path where a file is kept whose places are all taken, none where no
/// random bytes are to be had.
pub fn recovery_rel_path(op_id: i64, old: &str) -> (r: Option<String>)
    ensures
        r matches Some(p) ==> exists|raw: Seq<u8>|
            raw.len() == 4 && p@ == #[trigger] recovery_text(op_id as int, old@, raw),
{
    match random_bytes(4) {
        Some(raw) => Some(recovery_path_of(op_id, old, raw.as_slice())),
        None => None,
    }
}

// ---------------------------------------------------------------- taking a file away

/// The file at a path is the one that was made, as it was made.
pub open spec fn unchanged(made: Made, st: Option<Stat>, sha256: Option<[u8; 32]>) -> bool {
    st is Some && same_state(made.stat, st->0) && sha256 == Some(made.sha256)
}

fn has_digest(sha256: &Option<[u8; 32]>, made: &Made) -> (r: bool)
    ensures
        r == (*sha256 == Some(made.sha256)),
{
    match sha256 {
        Some(h) => same32(h, &made.sha256),
        None => false,
    }
}

/// The file at a path is the one that was made, as it was made. The digest counts
/// too: times are coarse.
pub fn is_unchanged(made: &Made, st: &Option<Stat>, sha256: &Option<[u8; 32]>) -> (r: bool)
    ensures
        r == unchanged(*made, *st, *sha256),
{
    match st {
        Some(s) => same_stat(&made.stat, s) && has_digest(sha256, made),
        None => false,
    }
}

/// How far taking a file away has come.
#[derive(Debug)]
pub enum RemoveSeen {
    /// What stands at its path.
    AtPath(TempLook),
    /// It was set aside: how it looks now and the digest of its bytes.
    Aside(Option<Stat>, Option<[u8; 32]>),
    /// It could not be set aside.
    NotMoved,
}

/// What to do with a file that is to be taken away.
#[derive(Debug, Clone, Copy, PartialEq, Eq, Structural)]
pub enum RemoveStep {
    /// Set it aside, and compare.
    SetAside,
    /// It is the one that was made: remove it.
    Remove,
    /// It is another one: put it back, or where its path is taken keep it under a
    /// name of its own.
    PutBack,
    Leave,
}

/// The file that was set aside is the one that was made. Moving it touched the
/// time of its inode, so that time is not compared.
pub open spec fn is_own(made: Made, st: Option<Stat>, sha256: Option<[u8; 32]>) -> bool {
    &&& st is Some
    &&& Ident::spec_of(made.stat) == Ident::spec_of(st->0)
    &&& st->0.size == made.stat.size
    &&& st->0.mtime_ns == made.stat.mtime_ns
    &&& sha256 == Some(made.sha256)
}

/// What to do with a file that is to be taken away, by what was seen of it.
pub open spec fn removal(made: Made, seen: RemoveSeen) -> RemoveStep {
    match seen {
        RemoveSeen::AtPath(TempLook::Seen(st)) => if same_state(made.stat, st) {
            RemoveStep::SetAside
        } else {
            RemoveStep::Leave
        },
        RemoveSeen::AtPath(_) => RemoveStep::Leave,
        RemoveSeen::Aside(st, sha256) => if is_own(made, st, sha256) {
            RemoveStep::Remove
        } else {
            RemoveStep::PutBack
        },
        RemoveSeen::NotMoved => RemoveStep::Leave,
    }
}

/// What to do with a file that is to be taken away (see [`removal`]).
pub fn remove_if_unchanged(made: &Made, seen: &RemoveSeen) -> (r: RemoveStep)
    ensures
        r == removal(*made, *seen),
{
    match seen {
        RemoveSeen::AtPath(TempLook::Seen(st)) => {
            if same_stat(&made.stat, st) {
                RemoveStep::SetAside
            } else {
                RemoveStep::Leave
            }
        },
        RemoveSeen::AtPath(_) => RemoveStep::Leave,
        RemoveSeen::Aside(st, sha256) => {
            let own = match st {
                Some(s) => Ident::of(&made.stat).matches(s) && s.size == made.stat.size && s.mtime_ns
                    == made.stat.mtime_ns && has_digest(sha256, made),
                None => false,
            };
            if own {
                RemoveStep::Remove
            } else {
                RemoveStep::PutBack
            }
        },
        RemoveSeen::NotMoved => RemoveStep::Leave,
    }
}

/// A file is removed only after it was set aside and found to be the one that was
/// made, with the bytes that were written.
pub proof fn law_only_own_files_are_removed(made: Made, seen: RemoveSeen)
    requires
        removal(made, seen) == RemoveStep::Remove,
    ensures
        seen matches RemoveSeen::Aside(st, sha256) && is_own(made, st, sha256),
{
}

// ---------------------------------------------------------------- the source

/// Where the source is after the work was undone.
#[derive(Debug)]
pub enum SourceKept {
    /// At its path, or under the name between for the next try.
    InPlace,
    /// At this path.
    Recovered(String),
    /// Nowhere that lasts.
    Lost,
}

/// What to do with a source that was set aside.
#[derive(Debug, Clone, Copy, PartialEq, Eq, Structural)]
pub enum SourceStep {
    /// It stays where it is.
    Stay,
    /// Move it from the name between to its path.
    MoveBack,
    /// What stands under the name between is another file: write the source out
    /// from the open file.
    WriteBack,
    GiveUp,
}

/// What to do with the source. `restore` says that it goes back to its path;
/// `own` is the file that is open, none where it cannot be told; `seen` is what
/// stands under the name between.
pub open spec fn source_step(staged: bool, restore: bool, own: Option<Ident>, seen: TempLook) -> SourceStep {
    if !staged {
        SourceStep::Stay
    } else {
        match own {
            None => SourceStep::GiveUp,
            Some(mine) => match seen {
                TempLook::Seen(st) => if mine != Ident::spec_of(st) {
                    SourceStep::WriteBack
                } else if restore {
                    SourceStep::MoveBack
                } else {
                    SourceStep::Stay
                },
                TempLook::NotFound => SourceStep::WriteBack,
                TempLook::Fault(_) => if restore {
                    SourceStep::GiveUp
                } else {
                    SourceStep::WriteBack
                },
            },
        }
    }
}

/// What to do with the source (see [`source_step`]).
pub fn undo_source(staged: bool, restore: bool, own: Option<Ident>, seen: &TempLook) -> (r: SourceStep)
    ensures
        r == source_step(staged, restore, own, *seen),
{
    if !staged {
        return SourceStep::Stay;
    }
    match own {
        None => SourceStep::GiveUp,
        Some(mine) => match seen {
            TempLook::Seen(st) => {
                if !mine.matches(st) {
                    SourceStep::WriteBack
                } else if restore {
                    SourceStep::MoveBack
                } else {
                    SourceStep::Stay
                }
            },
            TempLook::NotFound => SourceStep::WriteBack,
            TempLook::Fault(_) => {
                if restore {
                    SourceStep::GiveUp
                } else {
                    SourceStep::WriteBack
                }
            },
        },
    }
}

/// Where the source is after it was moved back. Where its path is taken it stays
/// under the name between.
pub fn moved_back(moved: bool, tmp_rel: &str) -> (r: SourceKept)
    ensures
        if moved {
            r is InPlace
        } else {
            r matches SourceKept::Recovered(p) && p@ == tmp_rel@
        },
{
    if moved {
        SourceKept::InPlace
    } else {
        SourceKept::Recovered(tmp_rel.to_owned())
    }
}

/// How a move that replaces nothing ended.
#[derive(Debug, Clone, Copy, PartialEq, Eq, Structural)]
pub enum MoveTry {
    Moved,
    Taken,
    Fault,
}

/// What to do with the source once it was written to a temporary file.
#[derive(Debug)]
pub enum WriteBackStep {
    /// Move it to its path.
    ToPath,
    /// Move it to a name of its own.
    ToRecovery,
    /// Move it to another name of its own: under a temporary name it would be
    /// removed in time.
    RetryRecovery,
    /// Remove the temporary file.
    Discard,
    Kept(SourceKept),
}

/// What to do with the source once it was written to a temporary file. `path` is
/// how the move to its path ended, `first` and `second` are the names it was
/// moved to then, none inside where that failed.
pub open spec fn write_back_is(
    r: WriteBackStep,
    path: Option<MoveTry>,
    first: Option<Option<String>>,
    second: Option<Option<String>>,
) -> bool {
    match path {
        None => r is ToPath,
        Some(MoveTry::Moved) => r == WriteBackStep::Kept(SourceKept::InPlace),
        Some(MoveTry::Taken) => match first {
            None => r is ToRecovery,
            Some(Some(p)) => r matches WriteBackStep::Kept(SourceKept::Recovered(q)) && q@ == p@,
            Some(None) => retry_is(r, second),
        },
        Some(MoveTry::Fault) => retry_is(r, second),
    }
}

/// What to do once no place was found but one more name can be tried.
pub open spec fn retry_is(r: WriteBackStep, second: Option<Option<String>>) -> bool {
    match second {
        None => r is RetryRecovery,
        Some(Some(p)) => r matches WriteBackStep::Kept(SourceKept::Recovered(q)) && q@ == p@,
        Some(None) => r is Discard,
    }
}

fn retry(second: &Option<Option<String>>) -> (r: WriteBackStep)
    ensures
        retry_is(r, *second),
{
    match second {
        None => WriteBackStep::RetryRecovery,
        Some(Some(p)) => WriteBackStep::Kept(SourceKept::Recovered(p.clone())),
        Some(None) => WriteBackStep::Discard,
    }
}

/// What to do with the source once it was written to a temporary file (see
/// [`write_back_is`]). Where the temporary file is discarded, the source is lost.
pub fn write_back(path: Option<MoveTry>, first: &Option<Option<String>>, second: &Option<Option<String>>) -> (r:
    WriteBackStep)
    ensures
        write_back_is(r, path, *first, *second),
{
    match path {
        None => WriteBackStep::ToPath,
        Some(MoveTry::Moved) => WriteBackStep::Kept(SourceKept::InPlace),
        Some(MoveTry::Taken) => match first {
            None => WriteBackStep::ToRecovery,
            Some(Some(p)) => WriteBackStep::Kept(SourceKept::Recovered(p.clone())),
            Some(None) => retry(second),
        },
        Some(MoveTry::Fault) => retry(second),
    }
}

/// The source is given up only after its path and a name of its own were tried.
pub proof fn law_source_given_up_last(
    r: WriteBackStep,
    path: Option<MoveTry>,
    first: Option<Option<String>>,
    second: Option<Option<String>>,
)
    requires
        write_back_is(r, path, first, second),
        r is Discard,
    ensures
        path == Some(MoveTry::Taken) || path == Some(MoveTry::Fault),
        second == Some(None::<String>),
{
}

/// A source that an operation set aside goes back to its path when the operation
/// is closed, but only where it is the file that was recorded. The device is not
/// compared; its number changes from mount to mount.
pub fn may_restore(expected: &Precondition, seen: &Option<Stat>) -> (r: bool)
    ensures
        r == (seen is Some && expected.inode == Some(seen->0.inode as i64)),
{
    match seen {
        Some(st) => expected.inode == Some(st.inode as i64),
        None => false,
    }
}

// ---------------------------------------------------------------- the result

/// What came of undoing.
#[derive(Debug)]
pub struct UndoResult {
    pub source: SourceKept,
    /// The new file was left as a copy.
    pub kept_flac: bool,
    /// The copy in the archive was left.
    pub kept_archive: bool,
}

/// What undoing takes away once the source is dealt with.
#[derive(Debug)]
pub struct UndoEnd {
    pub result: UndoResult,
    /// The new file is taken away, where it is as it was made.
    pub remove_placed: bool,
    /// So is the copy in the archive.
    pub remove_archived: bool,
}

/// What undoing takes away once the source is dealt with. Where the source was
/// lost nothing is taken away; `placed_same` and `archived_same` say that what was
/// made is still there as it was made.
pub fn undo_end(undo: &Undo, source: SourceKept, placed_same: bool, archived_same: bool) -> (r: UndoEnd)
    ensures
        r.result.source == source,
        source is Lost ==> !r.remove_placed && !r.remove_archived && r.result.kept_flac == (undo.placed is Some
            && placed_same) && r.result.kept_archive == (undo.archived is Some && archived_same),
        !(source is Lost) ==> r.remove_placed == (undo.placed is Some) && r.remove_archived == (undo.archived is Some)
            && !r.result.kept_flac && !r.result.kept_archive,
{
    let lost = match &source {
        SourceKept::Lost => true,
        _ => false,
    };
    if lost {
        UndoEnd {
            result: UndoResult {
                source,
                kept_flac: undo.placed.is_some() && placed_same,
                kept_archive: undo.archived.is_some() && archived_same,
            },
            remove_placed: false,
            remove_archived: false,
        }
    } else {
        UndoEnd {
            result: UndoResult { source, kept_flac: false, kept_archive: false },
            remove_placed: undo.placed.is_some(),
            remove_archived: undo.archived.is_some(),
        }
    }
}

impl UndoResult {
    /// What is said of a source that did not go back.
    pub open spec fn note_text(&self) -> Option<Seq<char>> {
        match self.source {
            SourceKept::InPlace => None,
            SourceKept::Recovered(at) => Some("元ファイルは "@ + at@ + " に残した"@),
            SourceKept::Lost => Some(
                if self.kept_flac && self.kept_archive {
                    "元ファイルを Library に戻せなかった。複製として "@ + "宛先の FLACとArchive のコピー"@ + " を残した"@
                } else if self.kept_flac {
                    "元ファイルを Library に戻せなかった。複製として "@ + "宛先の FLAC"@ + " を残した"@
                } else if self.kept_archive {
                    "元ファイルを Library に戻せなかった。複製として "@ + "Archive のコピー"@ + " を残した"@
                } else {
                    "元ファイルを Library に戻せず、複製も残せなかった"@
                },
            ),
        }
    }

    /// What is said of a source that did not go back: only copies that are there
    /// are named.
    pub fn note(&self) -> (r: Option<String>)
        ensures
            opt_text(r) == self.note_text(),
    {
        match &self.source {
            SourceKept::InPlace => None,
            SourceKept::Recovered(at) => Some(concat3("元ファイルは ", at, " に残した")),
            SourceKept::Lost => {
                let kept = if self.kept_flac && self.kept_archive {
                    "宛先の FLACとArchive のコピー"
                } else if self.kept_flac {
                    "宛先の FLAC"
                } else if self.kept_archive {
                    "Archive のコピー"
                } else {
                    return Some("元ファイルを Library に戻せず、複製も残せなかった".to_owned());
                };
                Some(concat3("元ファイルを Library に戻せなかった。複製として ", kept, " を残した"))
            },
        }
    }
}

/// How work that stopped ends once it was undone: a conflict says what became of
/// the source, and the catalogue takes over the state of the file at its path.
pub fn undo_conflict(placed: Placed, undone: &UndoResult, old: &str) -> (r: Placed)
    ensures
        match placed {
            Placed::Conflict { reason, current: _ } => is_conflict(
                r,
                match undone.note_text() {
                    Some(note) => reason@ + "（"@ + note + "）"@,
                    None => reason@,
                },
                Some(old@),
            ),
            other => r == other,
        },
{
    match placed {
        Placed::Conflict { reason, current: _ } => {
            let reason = match undone.note() {
                Some(note) => concat4(&reason, "（", &note, "）"),
                None => reason,
            };
            Placed::Conflict { reason, current: Some(old.to_owned()) }
        },
        other => other,
    }
}

/// A file that the work made is told by all of its marks and by its bytes: it is its own where it is the same
/// file of the same size and time with the bytes that were written, and it is untouched where its state is
/// that in which it was left.
pub proof fn law_own_files(made: Made, st: Stat, h: [u8; 32])
    ensures
        is_own(made, Some(st), Some(h)) <==> made.stat.dev == st.dev && made.stat.inode == st.inode && made.stat.size
            == st.size && made.stat.mtime_ns == st.mtime_ns && h == made.sha256,
        unchanged(made, Some(st), Some(h)) <==> made.stat.dev == st.dev && made.stat.inode == st.inode && made.stat.size
            == st.size && made.stat.mtime_ns == st.mtime_ns && made.stat.ctime_ns == st.ctime_ns && h == made.sha256,
        !is_own(made, None, Some(h)) && !is_own(made, Some(st), None),
        !unchanged(made, None, Some(h)) && !unchanged(made, Some(st), None),
{
}

/// Taking a file away again: it is set aside only where it stands untouched, removed only where what was set
/// aside is the file that was made, and put back else.
pub proof fn law_taking_away(made: Made, st: Stat, h: [u8; 32])
    ensures
        removal(made, RemoveSeen::AtPath(TempLook::Seen(st))) == RemoveStep::SetAside <==> made.stat.dev == st.dev
            && made.stat.inode == st.inode && made.stat.size == st.size && made.stat.mtime_ns == st.mtime_ns
            && made.stat.ctime_ns == st.ctime_ns,
        removal(made, RemoveSeen::AtPath(TempLook::NotFound)) == RemoveStep::Leave,
        removal(made, RemoveSeen::NotMoved) == RemoveStep::Leave,
        h != made.sha256 ==> removal(made, RemoveSeen::Aside(Some(st), Some(h))) == RemoveStep::PutBack,
        removal(made, RemoveSeen::Aside(Some(made.stat), Some(made.sha256))) == RemoveStep::Remove,
        removal(made, RemoveSeen::Aside(None, Some(h))) == RemoveStep::PutBack,
{
}

/// A source that was set aside goes back where it is still the file it was; where another file stands in its
/// place, or none, it is written back from what is held of it. One that was not set aside stays.
pub proof fn law_source_goes_back(restore: bool, mine: Ident, st: Stat, e: TempLook)
    ensures
        source_step(false, restore, Some(mine), e) == SourceStep::Stay,
        source_step(true, restore, None, e) == SourceStep::GiveUp,
        mine.dev == st.dev && mine.inode == st.inode ==> source_step(true, true, Some(mine), TempLook::Seen(st))
            == SourceStep::MoveBack,
        mine.dev == st.dev && mine.inode == st.inode ==> source_step(true, false, Some(mine), TempLook::Seen(st))
            == SourceStep::Stay,
        mine.dev != st.dev || mine.inode != st.inode ==> source_step(true, restore, Some(mine), TempLook::Seen(st))
            == SourceStep::WriteBack,
        source_step(true, restore, Some(mine), TempLook::NotFound) == SourceStep::WriteBack,
{
}

/// What is set aside, thrown away or recovered stays in the directory of its file, under a name that tells
/// which of these it is.
pub proof fn law_set_aside_in_place(a: int, dir: Seq<char>, name: Seq<char>, raw: Seq<u8>)
    requires
        !name.contains('/'),
    ensures
        starts_with(quarantine_text(a, dir + seq!['/'] + name, raw), dir + seq!['/'] + ".spindle-undo-"@),
        starts_with(disposal_text(a, dir + seq!['/'] + name, raw), dir + seq!['/'] + ".spindle-tmp-"@),
        starts_with(recovery_text(a, dir + seq!['/'] + name, raw), dir + seq!['/'] + "spindle-recovery-"@),
{
    lemma_parts_of_join(dir, name);
    let rel = dir + seq!['/'] + name;
    assert(parent_of(rel) == Some(dir));
    let q = dir + seq!['/'] + ".spindle-undo-"@;
    assert(quarantine_text(a, rel, raw).take(q.len() as int) =~= q);
    let d = dir + seq!['/'] + ".spindle-tmp-"@;
    assert(disposal_text(a, rel, raw).take(d.len() as int) =~= d);
    let r = dir + seq!['/'] + "spindle-recovery-"@;
    assert(recovery_text(a, rel, raw).take(r.len() as int) =~= r);
}

/// Nothing is said of a source that stands in its place; of any other it is said what became of it.
pub proof fn law_note_on_the_source(u: UndoResult)
    ensures
        u.note_text() is None <==> u.source is InPlace,
{
}

} // verus!
