//! Filling in the digest that a FLAC file should carry.

use crate::catalog::same16;
use crate::edit::batch::BatchEvent;
use crate::edit::error::EditError;
use crate::edit::history::{
    edit_at, find_edit, name_if, no_edit, note_if, Edit, JsonText, JsonValue, OpResult, Precondition,
};
use crate::edit::tags::{check_selection, has_duplicate, lowest_duplicate, same_stat};
use crate::fsroot::{FsError, Stat};
use crate::hex::{all_hex, from_hex, hex_bytes, hex_text, is_hex, lemma_hex_round_trip, to_hex};
use crate::import::placement::same_state;
use crate::lists::{sorted_ids, sorted_set_of};
use crate::split::join;
use crate::text::{concat2, concat3, int_text, int_to_text, joined, same_text, texts};
use crate::unicode::{quoted, quoted_text};
use vstd::prelude::*;
use vstd::string::*;

verus! {

/// The key of the edit that records a digest.
pub const MD5_EDIT_KEY: &'static str = "audio_md5";

/// The digest of a file that carries none.
pub const MD5_ZERO_HEX: &'static str = "00000000000000000000000000000000";

/// What came of preparing to fill in digests.
#[derive(Debug)]
pub struct Md5FillPrepared {
    pub batch_id: Option<i64>,
    /// How many operations were recorded.
    pub affected: usize,
    /// Rows that are no FLAC, have no file, or lack no digest.
    pub skipped: usize,
    pub job_ids: Vec<i64>,
    /// What is told of the batch where it ended at once.
    pub event: Option<BatchEvent>,
}

// ---------------------------------------------------------------- digests as text

/// Two small hexadecimal digits for each byte.
pub fn hex(b: &[u8]) -> (r: String)
    ensures
        r@ == hex_text(b@),
{
    to_hex(b)
}

/// The first 16 bytes of a list.
fn to_array16(v: &Vec<u8>) -> (r: [u8; 16])
    requires
        v@.len() == 16,
    ensures
        r@ == v@,
{
    let mut a: [u8; 16] = [0u8;16];
    let mut i: usize = 0;
    while i < 16
        invariant
            i <= 16,
            v@.len() == 16,
            forall|k: int| 0 <= k < i ==> #[trigger] a@[k] == v@[k],
        decreases 16 - i,
    {
        a[i] = v[i];
        i = i + 1;
    }
    proof {
        assert(a@ =~= v@);
    }
    a
}

/// The digest that a text of hexadecimal digits stands for, none for any other
/// text.
pub fn parse_md5_hex(s: &str) -> (r: Option<[u8; 16]>)
    ensures
        match r {
            Some(m) => is_hex(s@, 16) && m@ == hex_bytes(s@),
            None => !is_hex(s@, 16),
        },
{
    match from_hex(s, 16) {
        Some(b) => {
            proof {
                assert(b@.len() == 16);
            }
            Some(to_array16(&b))
        },
        None => None,
    }
}

/// Reading back the text of bytes gives the bytes.
pub proof fn law_hex_round_trip(b: Seq<u8>)
    ensures
        is_hex(hex_text(b), b.len()),
        hex_bytes(hex_text(b)) == b,
{
    lemma_hex_round_trip(b);
}

/// What is wrong with a recorded digest. `shown` is how the value is shown.
pub open spec fn digest_fault(v: JsonText, shown: Seq<char>) -> Option<Seq<char>> {
    match v {
        JsonText::Null => None,
        JsonText::Text(s) => if is_hex(s, 16) {
            None
        } else {
            Some("audio_md5 の値が hex でない: "@ + quoted_text(s))
        },
        _ => Some("audio_md5 の値が文字列でない: "@ + shown),
    }
}

/// `d` is the digest that a recorded value stands for.
pub open spec fn digest_is(d: Option<[u8; 16]>, v: JsonText) -> bool {
    match v {
        JsonText::Text(s) => d matches Some(m) && m@ == hex_bytes(s),
        _ => d is None,
    }
}

/// The digest that a recorded value stands for: none where nothing is recorded.
/// A value that is no text, or no digest, is a fault; `shown` is how it is
/// shown.
pub fn md5_of_value(v: &JsonValue, shown: &str) -> (r: Result<Option<[u8; 16]>, EditError>)
    ensures
        match digest_fault(v@, shown@) {
            Some(f) => r matches Err(EditError::Internal(e)) && e@ == f,
            None => r matches Ok(d) && digest_is(d, v@),
        },
{
    match v {
        JsonValue::Null => Ok(None),
        JsonValue::Text(s) => match parse_md5_hex(s) {
            Some(m) => Ok(Some(m)),
            None => {
                let q = quoted(s);
                Err(EditError::Internal(concat2("audio_md5 の値が hex でない: ", &q)))
            },
        },
        _ => Err(EditError::Internal(concat2("audio_md5 の値が文字列でない: ", shown))),
    }
}

// ---------------------------------------------------------------- preparing

/// A row of the selection.
#[derive(Debug)]
pub struct Candidate {
    pub id: i64,
    pub codec: String,
    pub missing: bool,
    pub flac_check: Option<String>,
}

/// The row is a FLAC that is there and lacks its digest.
pub open spec fn lacks_digest(c: Candidate) -> bool {
    c.codec@ == "flac"@ && !c.missing && c.flac_check is Some && c.flac_check->0@ == "md5_missing"@
}

fn is_lacking(c: &Candidate) -> (r: bool)
    ensures
        r == lacks_digest(*c),
{
    let unset = match &c.flac_check {
        Some(s) => same_text(s, "md5_missing"),
        None => false,
    };
    same_text(&c.codec, "flac") && !c.missing && unset
}

/// The rows that lack their digest.
pub open spec fn lacking_rows(rows: Seq<Candidate>) -> Seq<i64>
    decreases rows.len(),
{
    if rows.len() == 0 {
        Seq::empty()
    } else {
        let r = lacking_rows(rows.drop_last());
        if lacks_digest(rows.last()) {
            r.push(rows.last().id)
        } else {
            r
        }
    }
}

/// The first of the ids that has no row, the ids in increasing order.
pub open spec fn first_absent(ids: Seq<i64>, rows: Seq<Candidate>, id: i64) -> bool {
    &&& ids.contains(id)
    &&& forall|i: int| 0 <= i < rows.len() ==> (#[trigger] rows[i]).id != id
    &&& forall|x: i64| #[trigger] ids.contains(x) && x < id ==> exists|i: int| 0 <= i < rows.len() && (#[trigger] rows[i]).id == x
}

fn has_row(rows: &Vec<Candidate>, id: i64) -> (r: bool)
    ensures
        r == exists|i: int| 0 <= i < rows@.len() && (#[trigger] rows@[i]).id == id,
{
    let mut i: usize = 0;
    while i < rows.len()
        invariant
            i <= rows@.len(),
            forall|k: int| 0 <= k < i ==> (#[trigger] rows@[k]).id != id,
        decreases rows@.len() - i,
    {
        if rows[i].id == id {
            return true;
        }
        i = i + 1;
    }
    false
}

/// Which tracks of a selection get their digest, and how many do not. A
/// selection with a track twice, with one that an operation waits for, with one
/// that is not there, or with none that lacks its digest, is refused.
pub fn prepare_md5_fill(ids: &Vec<i64>, pending: Vec<i64>, rows: &Vec<Candidate>) -> (r: Result<
    (Vec<i64>, usize),
    EditError,
>)
    ensures
        if has_duplicate(ids@) {
            r matches Err(EditError::DuplicateTrack(d)) && lowest_duplicate(ids@, d)
        } else if pending@.len() > 0 {
            r == Err::<(Vec<i64>, usize), EditError>(EditError::Pending { track_ids: pending })
        } else if exists|x: i64| first_absent(ids@, rows@, x) {
            r matches Err(EditError::TrackNotFound(id)) && first_absent(ids@, rows@, id)
        } else if lacking_rows(rows@).len() == 0 {
            r == Err::<(Vec<i64>, usize), EditError>(EditError::NoChanges)
        } else {
            r matches Ok(p) && p.0@ == lacking_rows(rows@) && p.1 == rows@.len() - lacking_rows(rows@).len()
        },
{
    match check_selection(ids, pending) {
        Ok(()) => {},
        Err(e) => {
            return Err(e);
        },
    }
    let ordered = sorted_ids(ids);
    let mut k: usize = 0;
    while k < ordered.len()
        invariant
            k <= ordered@.len(),
            !has_duplicate(ids@),
            pending@.len() == 0,
            sorted_set_of(ordered@, ids@),
            forall|x: int|
                0 <= x < k ==> exists|i: int| 0 <= i < rows@.len() && (#[trigger] rows@[i]).id == #[trigger] ordered@[x],
        decreases ordered@.len() - k,
    {
        if !has_row(rows, ordered[k]) {
            proof {
                let id = ordered@[k as int];
                assert(ordered@.contains(id));
                assert(ids@.contains(id));
                assert forall|x: i64| #[trigger] ids@.contains(x) && x < id implies exists|i: int|
                    0 <= i < rows@.len() && (#[trigger] rows@[i]).id == x by {
                    assert(ordered@.contains(x));
                    let j = choose|j: int| 0 <= j < ordered@.len() && ordered@[j] == x;
                    assert(j < k);
                    assert(exists|i: int| 0 <= i < rows@.len() && (#[trigger] rows@[i]).id == ordered@[j]);
                }
                assert(first_absent(ids@, rows@, id));
            }
            return Err(EditError::TrackNotFound(ordered[k]));
        }
        k = k + 1;
    }
    proof {
        assert forall|x: i64| !first_absent(ids@, rows@, x) by {
            if ids@.contains(x) {
                assert(ordered@.contains(x));
                let j = choose|j: int| 0 <= j < ordered@.len() && ordered@[j] == x;
                assert(exists|i: int| 0 <= i < rows@.len() && (#[trigger] rows@[i]).id == ordered@[j]);
            }
        }
    }
    let mut targets: Vec<i64> = Vec::new();
    let mut i: usize = 0;
    while i < rows.len()
        invariant
            i <= rows@.len(),
            targets@.len() <= i,
            targets@ == lacking_rows(rows@.take(i as int)),
        decreases rows@.len() - i,
    {
        proof {
            assert(rows@.take(i + 1).last() == rows@[i as int]);
            assert(rows@.take(i + 1).drop_last() =~= rows@.take(i as int));
        }
        if is_lacking(&rows[i]) {
            targets.push(rows[i].id);
        }
        i = i + 1;
    }
    proof {
        assert(rows@.take(i as int) =~= rows@);
    }
    if targets.len() == 0 {
        return Err(EditError::NoChanges);
    }
    let skipped: usize = rows.len() - targets.len();
    Ok((targets, skipped))
}

/// What came of preparing to fill in digests, once the batch is recorded.
/// `selection` are the tracks that get theirs, and how many do not.
pub fn md5_prepared(batch_id: i64, selection: &(Vec<i64>, usize), job_ids: Vec<i64>) -> (r: Md5FillPrepared)
    ensures
        r.batch_id == Some(batch_id),
        r.affected == selection.0@.len(),
        r.skipped == selection.1,
        r.job_ids == job_ids,
        r.event is None,
{
    Md5FillPrepared { batch_id: Some(batch_id), affected: selection.0.len(), skipped: selection.1, job_ids, event: None }
}

// ---------------------------------------------------------------- writing a file

/// What a look at the file of an operation leads to.
#[derive(Debug)]
pub enum Md5Step {
    /// Compute the digest and record it before it is written.
    Compute,
    /// Write this digest.
    Write([u8; 16]),
    /// The file carries the digest already.
    Written([u8; 16]),
    Conflict(String),
    Failed(String),
}

/// What of a file differs from what was recorded: how it looked, and the digest
/// it carried.
pub open spec fn md5_mismatches(p: Precondition, st: Stat, same_digest: bool) -> Seq<Seq<char>> {
    name_if(p.inode != Some(st.inode as i64), "inode"@) + name_if(p.size != Some(st.size as i64), "size"@)
        + name_if(p.mtime_ns != Some(st.mtime_ns), "mtime_ns"@) + name_if(p.ctime_ns != Some(st.ctime_ns), "ctime_ns"@)
        + name_if(!same_digest, "audio_md5"@)
}

/// `r` is what a look at the file leads to.
pub open spec fn step_is(
    r: Md5Step,
    expected: Precondition,
    st: Stat,
    current: [u8; 16],
    old_md5: [u8; 16],
    wanted: Option<[u8; 16]>,
) -> bool {
    let diff = md5_mismatches(expected, st, current == old_md5);
    if diff.len() > 0 {
        if wanted == Some(current) {
            r == Md5Step::Written(current)
        } else {
            r matches Md5Step::Conflict(m) && m@ == "事前条件不一致: "@ + joined(diff, ", "@)
        }
    } else {
        match wanted {
            None => r is Compute,
            Some(m) => if m == current {
                r == Md5Step::Written(m)
            } else {
                r == Md5Step::Write(m)
            },
        }
    }
}

/// What a look at the file of an operation leads to. `current` is the digest it
/// carries, `old` the one it carried when the operation was recorded, `wanted`
/// the one it is to get, none where that is yet to be computed. A file that
/// changed but carries the wanted digest needs no writing; any other that
/// changed is a conflict.
pub fn stage_md5(
    expected: &Precondition,
    st: &Stat,
    current: &[u8; 16],
    old_md5: &[u8; 16],
    wanted: &Option<[u8; 16]>,
) -> (r: Md5Step)
    ensures
        step_is(r, *expected, *st, *current, *old_md5, *wanted),
{
    let same = same16(current, old_md5);
    let mut diff: Vec<String> = Vec::new();
    proof {
        assert(texts(diff@) =~= Seq::empty());
    }
    note_if(&mut diff, expected.inode != Some(st.inode as i64), "inode");
    proof {
        assert(texts(diff@) =~= name_if(expected.inode != Some(st.inode as i64), "inode"@));
    }
    note_if(&mut diff, expected.size != Some(st.size as i64), "size");
    note_if(&mut diff, expected.mtime_ns != Some(st.mtime_ns), "mtime_ns");
    note_if(&mut diff, expected.ctime_ns != Some(st.ctime_ns), "ctime_ns");
    note_if(&mut diff, !same, "audio_md5");
    proof {
        assert(texts(diff@) == md5_mismatches(*expected, *st, *current == *old_md5));
        assert(texts(diff@).len() == diff@.len());
    }
    if diff.len() > 0 {
        let done = match wanted {
            Some(m) => same16(m, current),
            None => false,
        };
        if done {
            return Md5Step::Written(*current);
        }
        let names = join(&diff, ", ");
        return Md5Step::Conflict(concat2("事前条件不一致: ", &names));
    }
    match wanted {
        None => Md5Step::Compute,
        Some(m) => {
            if same16(m, current) {
                Md5Step::Written(*m)
            } else {
                Md5Step::Write(*m)
            }
        },
    }
}

/// What happened while the digest of a file was read, computed or written.
#[derive(Debug)]
pub enum Md5Event {
    /// The file could not be opened.
    NotOpened(FsError),
    /// It is no FLAC file.
    NotFlac(String),
    /// Its digest could not be read for another reason.
    Unread(String),
    /// Its sound could not be decoded.
    NotDecoded(String),
    /// A digest was written to a copy, which carries this one now.
    ReadBack { wanted: [u8; 16], got: Result<[u8; 16], String> },
    /// The copy is about to replace the file: how the file looked first, and what
    /// stands there now.
    LastLook { first: Stat, now: Option<Stat> },
}

/// What an event leads to; none where the work goes on. A file that is gone, out of
/// reach or changed is a conflict, and one that holds no digest is a failure.
pub fn md5_event(event: Md5Event, rel_path: &str) -> (r: Result<Option<Md5Step>, EditError>)
    ensures
        match event {
            Md5Event::NotOpened(e) => match e {
                FsError::NotFound | FsError::Symlink | FsError::Escaped => r matches Ok(Some(Md5Step::Conflict(m))) && m@
                    == "ファイルを開けない: "@ + rel_path@,
                _ => r == Err::<Option<Md5Step>, EditError>(EditError::Fs(e)),
            },
            Md5Event::NotFlac(e) => r matches Ok(Some(Md5Step::Failed(m))) && m@ == "FLAC として読めない: "@ + e@,
            Md5Event::Unread(e) => r == Err::<Option<Md5Step>, EditError>(EditError::Internal(e)),
            Md5Event::NotDecoded(e) => r matches Ok(Some(Md5Step::Failed(m))) && m@ == "デコードできない: "@ + e@,
            Md5Event::ReadBack { wanted, got } => match got {
                Ok(d) => if d == wanted {
                    r == Ok::<Option<Md5Step>, EditError>(None)
                } else {
                    r matches Ok(Some(Md5Step::Failed(m))) && m@ == "書き込み結果が意図と一致しない"@
                },
                Err(e) => r matches Err(EditError::Internal(m)) && m@ == "書いた tmp を読み戻せない: "@ + e@,
            },
            Md5Event::LastLook { first, now } => match now {
                None => r matches Ok(Some(Md5Step::Conflict(m))) && m@ == "反映の直前にファイルが無くなった"@,
                Some(n) => if same_state(first, n) {
                    r == Ok::<Option<Md5Step>, EditError>(None)
                } else {
                    r matches Ok(Some(Md5Step::Conflict(m))) && m@ == "反映の直前に外部で更新された"@
                },
            },
        },
{
    match event {
        Md5Event::NotOpened(e) => match e {
            FsError::NotFound => Ok(Some(Md5Step::Conflict(concat2("ファイルを開けない: ", rel_path)))),
            FsError::Symlink => Ok(Some(Md5Step::Conflict(concat2("ファイルを開けない: ", rel_path)))),
            FsError::Escaped => Ok(Some(Md5Step::Conflict(concat2("ファイルを開けない: ", rel_path)))),
            other => Err(EditError::Fs(other)),
        },
        Md5Event::NotFlac(e) => Ok(Some(Md5Step::Failed(concat2("FLAC として読めない: ", &e)))),
        Md5Event::Unread(e) => Err(EditError::Internal(e)),
        Md5Event::NotDecoded(e) => Ok(Some(Md5Step::Failed(concat2("デコードできない: ", &e)))),
        Md5Event::ReadBack { wanted, got } => match got {
            Ok(d) => {
                if same16(&d, &wanted) {
                    Ok(None)
                } else {
                    Ok(Some(Md5Step::Failed("書き込み結果が意図と一致しない".to_owned())))
                }
            },
            Err(e) => Err(EditError::Internal(concat2("書いた tmp を読み戻せない: ", &e))),
        },
        Md5Event::LastLook { first, now } => match now {
            None => Ok(Some(Md5Step::Conflict("反映の直前にファイルが無くなった".to_owned()))),
            Some(n) => {
                if same_stat(&first, &n) {
                    Ok(None)
                } else {
                    Ok(Some(Md5Step::Conflict("反映の直前に外部で更新された".to_owned())))
                }
            },
        },
    }
}

/// The failure of an operation whose digest is still to be computed after it was
/// recorded.
pub fn computed_twice() -> (r: EditError)
    ensures
        r matches EditError::Internal(m) && m@ == "new_value を耐久化した後も計算だけで戻った"@,
{
    EditError::Internal("new_value を耐久化した後も計算だけで戻った".to_owned())
}

/// The digests that an operation records: the one before, which has to be
/// there, and the one it writes. `shown_old` and `shown_new` are how the values
/// are shown.
pub fn recorded_digests(edits: &Vec<Edit>, op_id: i64, shown_old: &str, shown_new: &str) -> (r: Result<
    ([u8; 16], Option<[u8; 16]>),
    EditError,
>)
    ensures
        no_edit(edits@, MD5_EDIT_KEY@) ==> (r matches Err(EditError::Internal(e)) && e@ == "op "@ + int_text(
            op_id as int,
        ) + " に audio_md5 の edit が無い"@),
        forall|i: int| #[trigger]
            edit_at(edits@, MD5_EDIT_KEY@, i) ==> {
                let before = edits@[i].old_value@;
                let after = edits@[i].new_value@;
                match digest_fault(before, shown_old@) {
                    Some(f) => r matches Err(EditError::Internal(e)) && e@ == f,
                    None => if before is Null {
                        r matches Err(EditError::Internal(e)) && e@ == "op "@ + int_text(op_id as int)
                            + " の old_value が null"@
                    } else {
                        match digest_fault(after, shown_new@) {
                            Some(f) => r matches Err(EditError::Internal(e)) && e@ == f,
                            None => r matches Ok(p) && digest_is(Some(p.0), before) && digest_is(p.1, after),
                        }
                    },
                }
            },
{
    match find_edit(edits, MD5_EDIT_KEY) {
        None => {
            let n = int_to_text(op_id);
            Err(EditError::Internal(concat3("op ", &n, " に audio_md5 の edit が無い")))
        },
        Some(i) => {
            let before: [u8; 16] = match md5_of_value(&edits[i].old_value, shown_old) {
                Ok(Some(m)) => m,
                Ok(None) => {
                    let n = int_to_text(op_id);
                    return Err(EditError::Internal(concat3("op ", &n, " の old_value が null")));
                },
                Err(e) => {
                    return Err(e);
                },
            };
            match md5_of_value(&edits[i].new_value, shown_new) {
                Ok(after) => Ok((before, after)),
                Err(e) => Err(e),
            }
        },
    }
}

/// What a digest means for the row of a track: zeros are none, and the file
/// then still lacks it.
pub open spec fn is_zero(m: [u8; 16]) -> bool {
    forall|i: int| 0 <= i < 16 ==> #[trigger] m@[i] == 0
}

/// What a digest means for the row of a track: the digest that is kept, none for
/// zeros, and whether the file lacks one.
pub fn set_md5(md5: &[u8; 16]) -> (r: (Option<[u8; 16]>, bool))
    ensures
        r == (if is_zero(*md5) {
            (None, true)
        } else {
            (Some(*md5), false)
        }),
{
    let mut i: usize = 0;
    while i < 16
        invariant
            i <= 16,
            forall|k: int| 0 <= k < i ==> #[trigger] md5@[k] == 0,
        decreases 16 - i,
    {
        if md5[i] != 0 {
            proof {
                assert(md5@[i as int] != 0);
            }
            return (Some(*md5), false);
        }
        i = i + 1;
    }
    (None, true)
}

/// How an operation ends, by how writing its file ended: the result that is
/// recorded, and whether the row takes over what the file carries.
pub fn finish_md5(step: &Md5Step, current_known: bool) -> (r: Option<(OpResult, bool)>)
    ensures
        r == (match *step {
            Md5Step::Written(_) => Some((OpResult::Applied, true)),
            Md5Step::Write(_) => Some((OpResult::Applied, true)),
            Md5Step::Conflict(_) => Some((OpResult::SkippedConflict, current_known)),
            Md5Step::Failed(_) => Some((OpResult::Failed, false)),
            Md5Step::Compute => None,
        }),
{
    match step {
        Md5Step::Written(_) => Some((OpResult::Applied, true)),
        Md5Step::Write(_) => Some((OpResult::Applied, true)),
        Md5Step::Conflict(_) => Some((OpResult::SkippedConflict, current_known)),
        Md5Step::Failed(_) => Some((OpResult::Failed, false)),
        Md5Step::Compute => None,
    }
}

/// A file that carries the digest it is to get needs no writing, whatever else
/// became of it: an operation that was interrupted after its file was written
/// is completed by carrying it out again.
pub proof fn law_written_digest_is_final(r: Md5Step, expected: Precondition, st: Stat, current: [u8; 16], old_md5: [u8; 16])
    requires
        step_is(r, expected, st, current, old_md5, Some(current)),
    ensures
        r == Md5Step::Written(current),
{
}

/// A file is written only where it is as recorded and carries another digest
/// than the one it gets.
pub proof fn law_only_untouched_files_are_written(
    expected: Precondition,
    st: Stat,
    current: [u8; 16],
    old_md5: [u8; 16],
    wanted: Option<[u8; 16]>,
    m: [u8; 16],
)
    requires
        step_is(Md5Step::Write(m), expected, st, current, old_md5, wanted),
    ensures
        md5_mismatches(expected, st, current == old_md5).len() == 0,
        current == old_md5,
        m != current,
        wanted == Some(m),
{
    if current != old_md5 {
        let all = md5_mismatches(expected, st, false);
        assert(all.last() == "audio_md5"@);
    }
}

/// A digest is filled in for a FLAC whose file is there and was found without one, and for no other.
pub proof fn law_who_lacks_a_digest(rows: Seq<Candidate>, i: int)
    requires
        0 <= i < rows.len(),
    ensures
        lacks_digest(rows[i]) ==> rows[i].codec@ == "flac"@ && !rows[i].missing && (rows[i].flac_check matches Some(c)
            && c@ == "md5_missing"@),
        rows[i].codec@ == "flac"@ && !rows[i].missing && (rows[i].flac_check matches Some(c) && c@ == "md5_missing"@)
            ==> lacking_rows(rows).contains(rows[i].id),
        (forall|k: int| 0 <= k < rows.len() ==> (#[trigger] rows[k]).missing) ==> lacking_rows(rows).len() == 0,
        lacking_rows(rows).len() <= rows.len(),
    decreases rows.len(),
{
    let d = rows.drop_last();
    let r = lacking_rows(d);
    assert(rows.last() == rows[rows.len() - 1]);
    assert forall|k: int| 0 <= k < d.len() implies #[trigger] d[k] == rows[k] by {}
    if d.len() > 0 {
        law_who_lacks_a_digest(d, if i < d.len() {
            i
        } else {
            0
        });
    }
    if lacks_digest(rows[i]) {
        if i < d.len() {
            let k = choose|k: int| 0 <= k < r.len() && r[k] == rows[i].id;
            assert(lacking_rows(rows)[k] == rows[i].id);
        } else {
            assert(lacking_rows(rows).last() == rows[i].id);
        }
    }
}

/// What is done with a file: one that stands as recorded gets its digest computed where it is not known yet,
/// and written where it is; one that carries it is done; one that was changed and does not carry it is a
/// conflict.
pub proof fn law_what_is_done_with_a_file(
    r: Md5Step,
    expected: Precondition,
    st: Stat,
    current: [u8; 16],
    old_md5: [u8; 16],
    wanted: Option<[u8; 16]>,
)
    requires
        step_is(r, expected, st, current, old_md5, wanted),
    ensures
        ({
            let same = expected.inode == Some(st.inode as i64) && expected.size == Some(st.size as i64)
                && expected.mtime_ns == Some(st.mtime_ns) && expected.ctime_ns == Some(st.ctime_ns) && current == old_md5;
            &&& same && wanted is None ==> r is Compute
            &&& same ==> (wanted matches Some(m) ==> (m != current ==> r == Md5Step::Write(m)))
            &&& wanted == Some(current) ==> r == Md5Step::Written(current)
            &&& !same && wanted != Some(current) ==> r is Conflict
        }),
{
    let a = name_if(expected.inode != Some(st.inode as i64), "inode"@);
    let b = name_if(expected.size != Some(st.size as i64), "size"@);
    let c = name_if(expected.mtime_ns != Some(st.mtime_ns), "mtime_ns"@);
    let d = name_if(expected.ctime_ns != Some(st.ctime_ns), "ctime_ns"@);
    let e = name_if(!(current == old_md5), "audio_md5"@);
    assert(md5_mismatches(expected, st, current == old_md5).len() == a.len() + b.len() + c.len() + d.len() + e.len());
}

/// A recorded digest is 32 hexadecimal digits or nothing; anything else is a fault.
pub proof fn law_recorded_digests(s: Seq<char>, shown: Seq<char>)
    ensures
        digest_fault(JsonText::Null, shown) is None,
        digest_fault(JsonText::Text(s), shown) is None <==> s.len() == 32 && all_hex(s),
        digest_fault(JsonText::Other, shown) is Some,
{
}

/// A digest of zeros is none.
pub proof fn law_zero_digest(m: [u8; 16], i: int)
    requires
        0 <= i < 16,
    ensures
        m@[i] != 0 ==> !is_zero(m),
        (forall|k: int| 0 <= k < 16 ==> #[trigger] m@[k] == 0) ==> is_zero(m),
{
}

/// A recorded digest is read as its bytes, and nothing as none.
pub proof fn law_digests_read_back(d: [u8; 16], s: Seq<char>, ids: Seq<i64>, rows: Seq<Candidate>, id: i64, i: int)
    ensures
        digest_is(Some(d), JsonText::Text(s)) <==> d@ == hex_bytes(s),
        !digest_is(None, JsonText::Text(s)),
        digest_is(None, JsonText::Null),
        !digest_is(Some(d), JsonText::Null),
        first_absent(ids, rows, id) ==> ids.contains(id) && (0 <= i < rows.len() ==> rows[i].id != id),
        first_absent(ids, rows, id) && 0 <= i < ids.len() && (forall|k: int|
            0 <= k < rows.len() ==> (#[trigger] rows[k]).id != ids[i]) ==> id <= ids[i],
{
    if first_absent(ids, rows, id) && 0 <= i < ids.len() && ids[i] < id {
        assert(ids.contains(ids[i]));
    }
}

} // verus!
