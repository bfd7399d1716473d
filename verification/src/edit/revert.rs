//! Taking a batch back: the operations that are undone, and what keeps one from
//! being undone.

use crate::catalog::{values_of, OpKind, TagSet};
use crate::edit::batch::Op;
use crate::edit::error::EditError;
use crate::edit::history::{
    edit_at, edit_views, find_edit, json_text, json_values, no_edit, text_of, Edit, JsonText, JsonValue, OpResult,
};
use crate::edit::tags::{diff_is, keys_not_written, old_values, replaced};
use crate::hex::{hex_text, to_hex};
use crate::lists::has_id;
use crate::split::{join, same_texts};
use crate::text::{concat2, concat4, concat5, int_text, int_to_text, joined, opt_text, same_text, texts};
use vstd::prelude::*;
use vstd::string::*;

verus! {

/// Why a batch cannot be taken back.
#[derive(Debug)]
pub enum RevertError {
    NotFound,
    NotTerminal,
    AlreadyReverted,
    Edit(EditError),
}

impl RevertError {
    /// The text that a user reads.
    pub open spec fn text(&self) -> Seq<char> {
        match self {
            RevertError::NotFound => "バッチが存在しない"@,
            RevertError::NotTerminal => "バッチが終端状態ではない（先にキャンセルする）"@,
            RevertError::AlreadyReverted => "戻す op が残っていない（全件戻し済み）"@,
            RevertError::Edit(e) => e.text(),
        }
    }

    /// The text that a user reads.
    pub fn message(&self) -> (r: String)
        ensures
            r@ == self.text(),
    {
        match self {
            RevertError::NotFound => "バッチが存在しない".to_owned(),
            RevertError::NotTerminal => "バッチが終端状態ではない（先にキャンセルする）".to_owned(),
            RevertError::AlreadyReverted => "戻す op が残っていない（全件戻し済み）".to_owned(),
            RevertError::Edit(e) => e.message(),
        }
    }
}

// ---------------------------------------------------------------- which operations

/// The operation is undone: it was carried out, and its track has not been taken
/// back yet.
pub open spec fn is_undone(op: Op, reverted: Seq<i64>) -> bool {
    op.result == OpResult::Applied && !reverted.contains(op.track_id)
}

/// The operations that are undone.
pub open spec fn undone_ops(ops: Seq<Op>, reverted: Seq<i64>) -> Seq<Op>
    decreases ops.len(),
{
    if ops.len() == 0 {
        Seq::empty()
    } else {
        let r = undone_ops(ops.drop_last(), reverted);
        if is_undone(ops.last(), reverted) {
            r.push(ops.last())
        } else {
            r
        }
    }
}

/// The operations of a batch that are undone. `terminal` says that the batch has
/// ended, none where there is no such batch; `reverted` are the tracks that
/// were taken back before.
pub fn targets_of(terminal: Option<bool>, ops: &Vec<Op>, reverted: &Vec<i64>) -> (r: Result<Vec<Op>, RevertError>)
    ensures
        match terminal {
            None => r == Err::<Vec<Op>, RevertError>(RevertError::NotFound),
            Some(false) => r == Err::<Vec<Op>, RevertError>(RevertError::NotTerminal),
            Some(true) => if undone_ops(ops@, reverted@).len() == 0 {
                r == Err::<Vec<Op>, RevertError>(RevertError::AlreadyReverted)
            } else {
                r matches Ok(v) && v@ == undone_ops(ops@, reverted@)
            },
        },
{
    match terminal {
        None => {
            return Err(RevertError::NotFound);
        },
        Some(false) => {
            return Err(RevertError::NotTerminal);
        },
        Some(true) => {},
    }
    let mut out: Vec<Op> = Vec::new();
    let mut i: usize = 0;
    while i < ops.len()
        invariant
            i <= ops@.len(),
            out@ == undone_ops(ops@.take(i as int), reverted@),
        decreases ops@.len() - i,
    {
        proof {
            assert(ops@.take(i + 1).last() == ops@[i as int]);
            assert(ops@.take(i + 1).drop_last() =~= ops@.take(i as int));
        }
        let op: Op = ops[i];
        if op.result == OpResult::Applied && !has_id(reverted, op.track_id) {
            out.push(op);
        }
        i = i + 1;
    }
    proof {
        assert(ops@.take(i as int) =~= ops@);
    }
    if out.len() == 0 {
        return Err(RevertError::AlreadyReverted);
    }
    Ok(out)
}

/// The sort of a batch: that of the first operation that is undone.
pub fn revert_kind(targets: &Vec<Op>) -> (r: OpKind)
    requires
        targets@.len() > 0,
    ensures
        r == targets@[0].kind,
{
    targets[0].kind
}

/// Once every operation that was carried out is taken back, nothing is left to
/// take back.
pub proof fn law_revert_once(ops: Seq<Op>, reverted: Seq<i64>)
    requires
        forall|i: int|
            0 <= i < ops.len() && (#[trigger] ops[i]).result == OpResult::Applied ==> reverted.contains(
                ops[i].track_id,
            ),
    ensures
        undone_ops(ops, reverted).len() == 0,
    decreases ops.len(),
{
    if ops.len() > 0 {
        let t = ops.drop_last();
        assert forall|i: int| 0 <= i < t.len() && (#[trigger] t[i]).result == OpResult::Applied implies reverted.contains(
            t[i].track_id,
        ) by {
            assert(t[i] == ops[i]);
        }
        law_revert_once(t, reverted);
        assert(!is_undone(ops[ops.len() - 1], reverted));
    }
}

/// The fault of an operation that lacks an edit.
pub open spec fn edit_missing_text(op_id: i64, key: Seq<char>) -> Seq<char> {
    "op "@ + int_text(op_id as int) + " に "@ + key + " の edit が無い"@
}

fn edit_missing(op_id: i64, key: &str) -> (r: RevertError)
    ensures
        r matches RevertError::Edit(EditError::Internal(m)) && m@ == edit_missing_text(op_id, key@),
{
    let n = int_to_text(op_id);
    RevertError::Edit(EditError::Internal(concat5("op ", &n, " に ", key, " の edit が無い")))
}

// ---------------------------------------------------------------- tags

/// How an operation on tags is undone.
#[derive(Debug)]
pub struct TagRevert {
    /// Why it is not, where the tags are no longer those it wrote.
    pub conflict: Option<String>,
    /// The tags with the old values put back.
    pub restored: TagSet,
}

/// How an operation on tags is undone: the old values are put back, unless a tag
/// has by now other values than the operation wrote. The restored tags are not put
/// in the normal form of tag sets: that is the caller's to do.
pub fn revert_tags(edits: &Vec<Edit>, current: &TagSet) -> (r: TagRevert)
    ensures
        ({
            let lost = keys_not_written(current@, edits@, edits@.len() as int);
            opt_text(r.conflict) == (if lost.len() == 0 {
                None
            } else {
                Some("現在値が元バッチの新値と違う（外部変更または後続の編集）: "@ + joined(lost, ", "@))
            })
        }),
        r.restored@ == replaced(current@, old_values(edits@), edits@.len() as int),
{
    let mut lost: Vec<String> = Vec::new();
    let mut i: usize = 0;
    proof {
        assert(texts(lost@) =~= keys_not_written(current@, edits@, 0));
    }
    while i < edits.len()
        invariant
            i <= edits@.len(),
            texts(lost@) == keys_not_written(current@, edits@, i as int),
        decreases edits@.len() - i,
    {
        let now = current.values(&edits[i].key);
        let want = json_values(&edits[i].new_value);
        if !same_texts(&now, &want) {
            let ghost before = texts(lost@);
            lost.push(edits[i].key.clone());
            proof {
                assert(texts(lost@) =~= before.push(edits@[i as int].key@));
            }
        }
        i = i + 1;
    }
    proof {
        assert(texts(lost@).len() == lost@.len());
    }
    let conflict = if lost.len() == 0 {
        None
    } else {
        let names = join(&lost, ", ");
        Some(concat2("現在値が元バッチの新値と違う（外部変更または後続の編集）: ", &names))
    };
    let restored = crate::edit::tags::with_old_values(current, edits);
    TagRevert { conflict, restored }
}

/// Taking back an edit gives every key the values it had before the edit, where
/// the tags are still those that the edit left.
pub proof fn law_revert_restores_tags(
    before: Seq<(Seq<char>, Seq<char>)>,
    after: Seq<(Seq<char>, Seq<char>)>,
    edits: Seq<Edit>,
    k: Seq<char>,
)
    requires
        diff_is(edit_views(edits), before, after),
    ensures
        keys_not_written(after, edits, edits.len() as int).len() == 0,
        values_of(replaced(after, old_values(edits), edits.len() as int), k) == values_of(before, k),
{
    crate::edit::tags::law_giving_up_restores_tags(before, after, edits, k);
    lemma_all_written(before, after, edits, edits.len() as int);
}

proof fn lemma_all_written(
    before: Seq<(Seq<char>, Seq<char>)>,
    after: Seq<(Seq<char>, Seq<char>)>,
    edits: Seq<Edit>,
    n: int,
)
    requires
        0 <= n <= edits.len(),
        diff_is(edit_views(edits), before, after),
    ensures
        keys_not_written(after, edits, n).len() == 0,
    decreases n,
{
    if n > 0 {
        lemma_all_written(before, after, edits, n - 1);
        let v = edit_views(edits);
        assert(v[n - 1] == (edits[n - 1].key@, edits[n - 1].old_value@, edits[n - 1].new_value@));
        crate::edit::history::law_values_round_trip(values_of(after, edits[n - 1].key@));
    }
}

// ---------------------------------------------------------------- renames

/// How a rename is undone: the path it goes back to, and why it does not.
#[derive(Debug)]
pub struct RenameRevert {
    pub new_rel_path: String,
    pub conflict: Option<String>,
}

/// How a rename is undone: back to the old path, unless the track stands by now
/// elsewhere than the rename put it. `current` is its path, none where there is
/// no such track.
pub fn revert_rename(op: &Op, edits: &Vec<Edit>, current: Option<&str>) -> (r: Result<RenameRevert, RevertError>)
    ensures
        no_edit(edits@, "rel_path"@) ==> (r matches Err(RevertError::Edit(EditError::Internal(m))) && m@
            == edit_missing_text(op.id, "rel_path"@)),
        forall|i: int| #[trigger]
            edit_at(edits@, "rel_path"@, i) ==> match current {
                None => r == Err::<RenameRevert, RevertError>(
                    RevertError::Edit(EditError::TrackNotFound(op.track_id)),
                ),
                Some(c) => r matches Ok(x) && x.new_rel_path@ == text_of(edits@[i].old_value@) && opt_text(x.conflict)
                    == (if c@ != text_of(edits@[i].new_value@) {
                    Some("現在のパスが元バッチの新値と違う（外部変更または後続の編集）: "@ + c@)
                } else {
                    None
                }),
            },
{
    match find_edit(edits, "rel_path") {
        None => Err(edit_missing(op.id, "rel_path")),
        Some(i) => match current {
            None => Err(RevertError::Edit(EditError::TrackNotFound(op.track_id))),
            Some(c) => {
                let new_rel_path = json_text(&edits[i].old_value);
                let there = json_text(&edits[i].new_value);
                let conflict = if same_text(c, &there) {
                    None
                } else {
                    Some(concat2("現在のパスが元バッチの新値と違う（外部変更または後続の編集）: ", c))
                };
                Ok(RenameRevert { new_rel_path, conflict })
            },
        },
    }
}

// ---------------------------------------------------------------- normalisations

/// What the archive knows of a source.
#[derive(Debug)]
pub enum ArchiveEntry {
    Held,
    /// It is in another state, of this name.
    Other(String),
    Unknown,
}

/// How a normalisation is undone.
#[derive(Debug)]
pub struct ArchiveRevert {
    pub new_rel_path: String,
    pub new_codec: String,
    pub conflict: Option<String>,
}

/// Why a normalisation is not undone: the track is by now another one than it
/// left, or its source is not in the archive.
pub open spec fn archive_conflict(
    path: Seq<char>,
    codec: Seq<char>,
    new_path: Seq<char>,
    new_codec: Seq<char>,
    old_path: Seq<char>,
    entry: ArchiveEntry,
) -> Option<Seq<char>> {
    if path != new_path || codec != new_codec {
        Some("現在値が元バッチの新値と違う（外部変更または後続の編集）: "@ + path + " ("@ + codec + ")"@)
    } else {
        match entry {
            ArchiveEntry::Held => None,
            ArchiveEntry::Other(state) => Some(
                "退避ファイルが Archive に無い（台帳 "@ + state@ + "）: "@ + old_path,
            ),
            ArchiveEntry::Unknown => Some("退避ファイルが台帳に無い: "@ + old_path),
        }
    }
}

/// How a normalisation is undone: to the old path and codec, from the source in
/// the archive. `current` is the path and the codec of the track, none where
/// there is no such track.
pub fn revert_archive(op: &Op, edits: &Vec<Edit>, current: Option<(&str, &str)>, entry: ArchiveEntry) -> (r: Result<
    ArchiveRevert,
    RevertError,
>)
    ensures
        no_edit(edits@, "rel_path"@) ==> (r matches Err(RevertError::Edit(EditError::Internal(m))) && m@
            == edit_missing_text(op.id, "rel_path"@)),
        !no_edit(edits@, "rel_path"@) && no_edit(edits@, "codec"@) ==> (r matches Err(
            RevertError::Edit(EditError::Internal(m)),
        ) && m@ == edit_missing_text(op.id, "codec"@)),
        forall|i: int, j: int| #[trigger]
            edit_at(edits@, "rel_path"@, i) && #[trigger] edit_at(edits@, "codec"@, j) ==> match current {
                None => r == Err::<ArchiveRevert, RevertError>(
                    RevertError::Edit(EditError::TrackNotFound(op.track_id)),
                ),
                Some(c) => r matches Ok(x) && x.new_rel_path@ == text_of(edits@[i].old_value@) && x.new_codec@
                    == text_of(edits@[j].old_value@) && opt_text(x.conflict) == archive_conflict(
                    c.0@,
                    c.1@,
                    text_of(edits@[i].new_value@),
                    text_of(edits@[j].new_value@),
                    text_of(edits@[i].old_value@),
                    entry,
                ),
            },
{
    let i: usize = match find_edit(edits, "rel_path") {
        Some(i) => i,
        None => {
            return Err(edit_missing(op.id, "rel_path"));
        },
    };
    let j: usize = match find_edit(edits, "codec") {
        Some(j) => j,
        None => {
            proof {
                assert(edits@[i as int].key@ == "rel_path"@);
            }
            return Err(edit_missing(op.id, "codec"));
        },
    };
    let old_path = json_text(&edits[i].old_value);
    let new_path = json_text(&edits[i].new_value);
    let old_codec = json_text(&edits[j].old_value);
    let new_codec = json_text(&edits[j].new_value);
    match current {
        None => Err(RevertError::Edit(EditError::TrackNotFound(op.track_id))),
        Some(c) => {
            let conflict = if !same_text(c.0, &new_path) || !same_text(c.1, &new_codec) {
                Some(
                    concat5("現在値が元バッチの新値と違う（外部変更または後続の編集）: ", c.0, " (", c.1, ")"),
                )
            } else {
                match entry {
                    ArchiveEntry::Held => None,
                    ArchiveEntry::Other(state) => Some(
                        concat4("退避ファイルが Archive に無い（台帳 ", &state, "）: ", &old_path),
                    ),
                    ArchiveEntry::Unknown => Some(concat2("退避ファイルが台帳に無い: ", &old_path)),
                }
            };
            Ok(ArchiveRevert { new_rel_path: old_path, new_codec: old_codec, conflict })
        },
    }
}

// ---------------------------------------------------------------- digests and removals

/// The position of the edit that is undone, and why it is not undone.
#[derive(Debug)]
pub struct ValueRevert {
    /// The edit whose values are recorded the other way round.
    pub edit: usize,
    pub conflict: Option<String>,
}

/// The digest of a row as it is recorded: zeros where there is none.
pub open spec fn digest_text(md5: Option<Seq<u8>>) -> Seq<char> {
    match md5 {
        Some(m) => hex_text(m),
        None => crate::edit::md5fill::MD5_ZERO_HEX@,
    }
}

/// How filling in a digest is undone: the digest that was there before is
/// written, unless the row has by now another one than the operation wrote.
/// `current` is the digest of the row, none outside where there is no such track.
pub fn revert_md5(op: &Op, edits: &Vec<Edit>, current: &Option<Option<[u8; 16]>>) -> (r: Result<
    ValueRevert,
    RevertError,
>)
    ensures
        no_edit(edits@, "audio_md5"@) ==> (r matches Err(RevertError::Edit(EditError::Internal(m))) && m@
            == edit_missing_text(op.id, "audio_md5"@)),
        forall|i: int| #[trigger]
            edit_at(edits@, "audio_md5"@, i) ==> match *current {
                None => r == Err::<ValueRevert, RevertError>(RevertError::Edit(EditError::TrackNotFound(op.track_id))),
                Some(md5) => r matches Ok(x) && x.edit == i && opt_text(x.conflict) == (if (
                edits@[i].new_value@ matches JsonText::Text(s) && s == digest_text(
                    match md5 {
                        Some(m) => Some(m@),
                        None => None,
                    },
                )) {
                    None
                } else {
                    Some("現在値が元バッチの新値と違う（外部変更または後続の補填）: audio_md5"@)
                }),
            },
{
    match find_edit(edits, "audio_md5") {
        None => Err(edit_missing(op.id, "audio_md5")),
        Some(i) => {
            let now = match current {
                None => {
                    return Err(RevertError::Edit(EditError::TrackNotFound(op.track_id)));
                },
                Some(Some(m)) => to_hex(m.as_slice()),
                Some(None) => crate::edit::md5fill::MD5_ZERO_HEX.to_owned(),
            };
            let same = match &edits[i].new_value {
                JsonValue::Text(s) => same_text(s, &now),
                _ => false,
            };
            let conflict = if same {
                None
            } else {
                Some("現在値が元バッチの新値と違う（外部変更または後続の補填）: audio_md5".to_owned())
            };
            Ok(ValueRevert { edit: i, conflict })
        },
    }
}

/// How a removal is undone.
#[derive(Debug)]
pub struct DeleteRevert {
    pub edit: usize,
    pub conflict: Option<String>,
    /// The time since which the track is missing after that, none where it is back.
    pub missing_since: Option<i64>,
    /// The album of the track is back too.
    pub revive_album: bool,
}

/// A time as it is recorded.
pub open spec fn time_recorded(t: Option<i64>) -> JsonText {
    match t {
        Some(n) => JsonText::Int(n),
        None => JsonText::Null,
    }
}

/// A time that was recorded, none for anything else.
pub open spec fn recorded_time(v: JsonText) -> Option<i64> {
    match v {
        JsonText::Int(n) => Some(n),
        _ => None,
    }
}

/// How a removal is undone: the track is missing again since the time it was
/// before, or not at all, unless that time is by now another one than the
/// operation recorded. `current` is that time, none outside where there is no
/// such track.
pub fn revert_delete(op: &Op, edits: &Vec<Edit>, current: Option<Option<i64>>) -> (r: Result<DeleteRevert, RevertError>)
    ensures
        no_edit(edits@, "missing_since"@) ==> (r matches Err(RevertError::Edit(EditError::Internal(m))) && m@
            == edit_missing_text(op.id, "missing_since"@)),
        forall|i: int| #[trigger]
            edit_at(edits@, "missing_since"@, i) ==> match current {
                None => r == Err::<DeleteRevert, RevertError>(
                    RevertError::Edit(EditError::TrackNotFound(op.track_id)),
                ),
                Some(since) => r matches Ok(x) && x.edit == i && x.missing_since == recorded_time(
                    edits@[i].old_value@,
                ) && opt_text(x.conflict) == (if edits@[i].new_value@ == time_recorded(since) {
                    None
                } else {
                    Some("現在値が元バッチの新値と違う（外部変更または後続の編集）: missing_since"@)
                }) && x.revive_album == (x.conflict is None && x.missing_since is None),
            },
{
    match find_edit(edits, "missing_since") {
        None => Err(edit_missing(op.id, "missing_since")),
        Some(i) => {
            let since: Option<i64> = match current {
                Some(c) => c,
                None => {
                    return Err(RevertError::Edit(EditError::TrackNotFound(op.track_id)));
                },
            };
            let same = match (&edits[i].new_value, since) {
                (JsonValue::Int(n), Some(c)) => *n == c,
                (JsonValue::Null, None) => true,
                _ => false,
            };
            let missing_since: Option<i64> = match &edits[i].old_value {
                JsonValue::Int(n) => Some(*n),
                _ => None,
            };
            let conflict = if same {
                None
            } else {
                Some("現在値が元バッチの新値と違う（外部変更または後続の編集）: missing_since".to_owned())
            };
            Ok(DeleteRevert { edit: i, conflict, missing_since, revive_album: same && missing_since.is_none() })
        },
    }
}

/// The values of an undone edit: what was after comes before, and the other way
/// round.
pub fn inverse_edit(e: Edit) -> (r: Edit)
    ensures
        r.key == e.key,
        r.old_value == e.new_value,
        r.new_value == e.old_value,
{
    Edit { key: e.key, old_value: e.new_value, new_value: e.old_value }
}

// ---------------------------------------------------------------- laws

/// What is taken back is each operation that was carried out and was not taken back before; nothing else is.
pub proof fn law_what_is_taken_back(ops: Seq<Op>, reverted: Seq<i64>, i: int)
    ensures
        0 <= i < ops.len() && ops[i].result == OpResult::Applied && !reverted.contains(ops[i].track_id) ==> undone_ops(
            ops,
            reverted,
        ).contains(ops[i]),
        0 <= i < undone_ops(ops, reverted).len() ==> undone_ops(ops, reverted)[i].result == OpResult::Applied
            && !reverted.contains(undone_ops(ops, reverted)[i].track_id) && ops.contains(undone_ops(ops, reverted)[i]),
    decreases ops.len(),
{
    if ops.len() > 0 {
        let d = ops.drop_last();
        let r = undone_ops(d, reverted);
        let u = undone_ops(ops, reverted);
        law_what_is_taken_back(d, reverted, i);
        assert(ops.last() == ops[ops.len() - 1]);
        if 0 <= i < ops.len() && ops[i].result == OpResult::Applied && !reverted.contains(ops[i].track_id) {
            if i < d.len() {
                assert(d[i] == ops[i]);
                let k = choose|k: int| 0 <= k < r.len() && r[k] == ops[i];
                assert(u[k] == ops[i]);
            } else {
                assert(u.last() == ops[i]);
            }
        }
        if 0 <= i < u.len() {
            if i < r.len() {
                let k = choose|k: int| 0 <= k < d.len() && d[k] == r[i];
                assert(ops[k] == u[i]);
            } else {
                assert(ops[ops.len() - 1] == u[i]);
            }
        }
    }
}

/// A file that was normalised is brought back where it stands as the batch left it and the archive holds what
/// it replaced; anything else is a conflict.
pub proof fn law_when_an_archive_is_brought_back(
    path: Seq<char>,
    codec: Seq<char>,
    new_path: Seq<char>,
    new_codec: Seq<char>,
    old_path: Seq<char>,
    entry: ArchiveEntry,
)
    ensures
        archive_conflict(path, codec, new_path, new_codec, old_path, entry) is None <==> path == new_path && codec
            == new_codec && entry is Held,
{
}

/// A digest is recorded as its hexadecimal digits, and as zeros where there is none; a time as its number.
pub proof fn law_recorded_values(m: Seq<u8>, t: Option<i64>)
    ensures
        digest_text(Some(m)) == hex_text(m),
        digest_text(None) == "00000000000000000000000000000000"@,
        recorded_time(time_recorded(t)) == t,
        recorded_time(JsonText::Null) is None,
{
}

} // verus!
