//! Looking at a source before it is replaced: what an operation says, whether the
//! file is as recorded, and where the file that takes its place comes from.

use crate::catalog::{same16, same32, Codec};
use crate::edit::error::EditError;
use crate::edit::history::{
    edit_at, find_edit, json_text, mismatch_names, mismatches, no_edit, text_of, Edit, JsonText, JsonValue, Precondition,
};
use crate::edit::naming::{ext_of, path_extension};
use crate::edit::normalize::plan::{is_normalize_source, is_source_codec};
use crate::edit::picture::to_array32;
use crate::edit::revert::edit_missing_text;
use crate::fsroot::Stat;
use crate::hex::{from_hex, hex_bytes, is_hex};
use crate::relpath::lemma_parts_of_join;
use crate::split::{join, lemma_last_index_is};
use crate::text::{
    ascii_lower, concat2, concat4, concat5, int_to_text, joined, lower_text, same_text, texts,
};
use vstd::prelude::*;
use vstd::string::*;

verus! {

/// The key under which the digest of the whole source is recorded.
pub const SOURCE_HASH_KEY: &'static str = "source_sha256";

/// What an operation replaces by what.
#[derive(Debug)]
pub struct Direction {
    pub old: String,
    pub new: String,
    pub old_codec: String,
    pub new_codec: String,
}

fn missing_edit(op_id: i64, key: &str) -> (r: EditError)
    ensures
        r matches EditError::Internal(m) && m@ == edit_missing_text(op_id, key@),
{
    let n = int_to_text(op_id);
    EditError::Internal(concat5("op ", &n, " に ", key, " の edit が無い"))
}

/// What an operation replaces by what. `old_fault` and `new_fault` say what is
/// wrong with the two paths.
pub fn direction_of(op_id: i64, edits: &Vec<Edit>, old_fault: Option<String>, new_fault: Option<String>) -> (r: Result<
    Direction,
    EditError,
>)
    ensures
        no_edit(edits@, "rel_path"@) ==> (r matches Err(EditError::Internal(m)) && m@ == edit_missing_text(
            op_id,
            "rel_path"@,
        )),
        !no_edit(edits@, "rel_path"@) && no_edit(edits@, "codec"@) ==> (r matches Err(EditError::Internal(m)) && m@
            == edit_missing_text(op_id, "codec"@)),
        forall|i: int, j: int| #[trigger]
            edit_at(edits@, "rel_path"@, i) && #[trigger] edit_at(edits@, "codec"@, j) ==> match (old_fault, new_fault) {
                (Some(f), _) => r == Err::<Direction, EditError>(EditError::RelPath(f)),
                (None, Some(f)) => r == Err::<Direction, EditError>(EditError::RelPath(f)),
                (None, None) => r matches Ok(d) && d.old@ == text_of(edits@[i].old_value@) && d.new@ == text_of(
                    edits@[i].new_value@,
                ) && d.old_codec@ == text_of(edits@[j].old_value@) && d.new_codec@ == text_of(edits@[j].new_value@),
            },
{
    let i: usize = match find_edit(edits, "rel_path") {
        Some(i) => i,
        None => {
            return Err(missing_edit(op_id, "rel_path"));
        },
    };
    let j: usize = match find_edit(edits, "codec") {
        Some(j) => j,
        None => {
            proof {
                assert(edits@[i as int].key@ == "rel_path"@);
            }
            return Err(missing_edit(op_id, "codec"));
        },
    };
    if let Some(f) = old_fault {
        return Err(EditError::RelPath(f));
    }
    if let Some(f) = new_fault {
        return Err(EditError::RelPath(f));
    }
    Ok(
        Direction {
            old: json_text(&edits[i].old_value),
            new: json_text(&edits[i].new_value),
            old_codec: json_text(&edits[j].old_value),
            new_codec: json_text(&edits[j].new_value),
        },
    )
}

/// The digest that was recorded of the source, none where there is none that can
/// be read.
pub fn recorded_source_hash(edits: &Vec<Edit>) -> (r: Option<[u8; 32]>)
    ensures
        no_edit(edits@, SOURCE_HASH_KEY@) ==> r is None,
        forall|i: int| #[trigger]
            edit_at(edits@, SOURCE_HASH_KEY@, i) ==> match edits@[i].new_value@ {
                JsonText::Text(s) => if is_hex(s, 32) {
                    r matches Some(h) && h@ == hex_bytes(s)
                } else {
                    r is None
                },
                _ => r is None,
            },
{
    match find_edit(edits, SOURCE_HASH_KEY) {
        None => None,
        Some(i) => match &edits[i].new_value {
            JsonValue::Text(s) => match from_hex(s, 32) {
                Some(v) => Some(to_array32(&v)),
                None => None,
            },
            _ => None,
        },
    }
}

// ---------------------------------------------------------------- looking at the source

/// How replacing a file ended.
#[derive(Debug)]
pub enum Placed {
    Applied,
    /// A file is not as recorded. `current` is the path of the file whose state
    /// the catalogue takes over.
    Conflict { reason: String, current: Option<String> },
    Failed(String),
}

/// `p` is a conflict for this reason.
pub open spec fn is_conflict(p: Placed, reason: Seq<char>, current: Option<Seq<char>>) -> bool {
    p matches Placed::Conflict { reason: m, current: c } && m@ == reason && crate::text::opt_text(c) == current
}

/// `p` is a failure for this reason.
pub open spec fn is_failure(p: Placed, reason: Seq<char>) -> bool {
    p matches Placed::Failed(m) && m@ == reason
}

/// The path is that of a FLAC, by its extension.
pub open spec fn is_flac_path(path: Seq<char>) -> bool {
    path_extension(path) is Some && ascii_lower(path_extension(path)->0) == "flac"@
}

/// The path is that of a FLAC: its digest is the one it carries. Other files are
/// decoded.
pub fn has_flac_extension(path: &str) -> (r: bool)
    ensures
        r == is_flac_path(path@),
{
    match ext_of(path) {
        Some(e) => {
            let l = lower_text(&e);
            same_text(&l, "flac")
        },
        None => false,
    }
}

/// What is known once the source is neither under its name nor under the name
/// between: the digest of what stands at the new path (none inside where it has
/// none), and that of what the archive has.
#[derive(Debug)]
pub struct AbsentLook {
    pub placed: Option<Option<[u8; 16]>>,
    pub archived_hash: Option<[u8; 32]>,
    /// The file at the new path can be read.
    pub readable: bool,
}

fn same_digest(a: &Option<[u8; 16]>, b: &Option<[u8; 16]>) -> (r: bool)
    ensures
        r == (*a == *b),
{
    match (a, b) {
        (Some(x), Some(y)) => same16(x, y),
        (None, None) => true,
        _ => false,
    }
}

fn same_hash(a: &Option<[u8; 32]>, b: &Option<[u8; 32]>) -> (r: bool)
    ensures
        r == (*a == *b),
{
    match (a, b) {
        (Some(x), Some(y)) => same32(x, y),
        (None, None) => true,
        _ => false,
    }
}

/// The new file has the sound of the track, and the archive has the source byte
/// by byte as it was recorded.
pub open spec fn replaced_before(look: AbsentLook, db_md5: Option<[u8; 16]>, recorded: Option<[u8; 32]>) -> bool {
    &&& look.placed is Some
    &&& look.placed->0 is Some
    &&& look.placed->0 == db_md5
    &&& recorded is Some
    &&& look.archived_hash == recorded
}

/// What a missing source means. The operation is done where it was interrupted
/// after the source was removed: the new file has the sound of the track, and
/// the archive has the source as it was recorded.
pub fn inspect_absent(
    dir: &Direction,
    look: &AbsentLook,
    db_md5: &Option<[u8; 16]>,
    recorded: &Option<[u8; 32]>,
) -> (r: Placed)
    ensures
        if look.placed is None {
            is_conflict(r, "元ファイルを開けない: "@ + dir.old@, None)
        } else if !replaced_before(*look, *db_md5, *recorded) {
            is_conflict(r, "元ファイルが無く、宛先と Archive の実体を記録と照合できない: "@ + dir.old@, None)
        } else if !look.readable {
            is_conflict(r, "宛先を読めない: "@ + dir.new@, None)
        } else {
            r is Applied
        },
{
    let placed: Option<[u8; 16]> = match look.placed {
        Some(p) => p,
        None => {
            return Placed::Conflict { reason: concat2("元ファイルを開けない: ", &dir.old), current: None };
        },
    };
    let ok = placed.is_some() && same_digest(&placed, db_md5) && recorded.is_some() && same_hash(
        &look.archived_hash,
        recorded,
    );
    if !ok {
        return Placed::Conflict {
            reason: concat2("元ファイルが無く、宛先と Archive の実体を記録と照合できない: ", &dir.old),
            current: None,
        };
    }
    if !look.readable {
        return Placed::Conflict { reason: concat2("宛先を読めない: ", &dir.new), current: None };
    }
    Placed::Applied
}

/// What was read of a source.
#[derive(Debug)]
pub struct SourceTags {
    pub hash: [u8; 32],
    /// The name of its codec.
    pub codec: String,
}

/// A source is replaced only where it is as recorded: its tags can be read, and
/// it looks and is coded as it was. `source_rel` is where it stands.
pub fn inspect_source(
    dir: &Direction,
    expected: &Precondition,
    st: &Stat,
    read: Result<SourceTags, String>,
    source_rel: &str,
) -> (r: Result<(), Placed>)
    ensures
        match read {
            Err(e) => r matches Err(p) && is_conflict(p, "タグを読めない: "@ + e@, None),
            Ok(t) => {
                let diff = mismatch_names(*expected, *st, t.hash@, source_rel@);
                if diff.len() > 0 {
                    r matches Err(p) && is_conflict(
                        p,
                        "事前条件不一致: "@ + joined(diff, ", "@),
                        Some(source_rel@),
                    )
                } else if t.codec@ != dir.old_codec@ {
                    r matches Err(p) && is_conflict(
                        p,
                        "コーデックが記録と違う（"@ + t.codec@ + " ≠ "@ + dir.old_codec@ + "）"@,
                        Some(source_rel@),
                    )
                } else {
                    r is Ok
                }
            },
        },
{
    let t = match read {
        Err(e) => {
            return Err(Placed::Conflict { reason: concat2("タグを読めない: ", &e), current: None });
        },
        Ok(t) => t,
    };
    let diff = mismatches(expected, st, &t.hash, source_rel);
    proof {
        assert(texts(diff@).len() == diff@.len());
    }
    if diff.len() > 0 {
        let names = join(&diff, ", ");
        return Err(
            Placed::Conflict {
                reason: concat2("事前条件不一致: ", &names),
                current: Some(source_rel.to_owned()),
            },
        );
    }
    if !same_text(&t.codec, &dir.old_codec) {
        return Err(
            Placed::Conflict {
                reason: concat5("コーデックが記録と違う（", &t.codec, " ≠ ", &dir.old_codec, "）"),
                current: Some(source_rel.to_owned()),
            },
        );
    }
    Ok(())
}

/// The digest of the sound of a source: the one that was computed or is carried,
/// else the one of the catalogue.
pub fn source_digest(read: Result<Option<[u8; 16]>, String>, db_md5: Option<[u8; 16]>) -> (r: Result<[u8; 16], Placed>)
    ensures
        match read {
            Err(e) => r matches Err(p) && is_failure(p, "元ファイルをデコードできない: "@ + e@),
            Ok(Some(m)) => r == Ok::<[u8; 16], Placed>(m),
            Ok(None) => match db_md5 {
                Some(m) => r == Ok::<[u8; 16], Placed>(m),
                None => r matches Err(p) && is_failure(p, "元ファイルの音声 MD5 を計算できない"@),
            },
        },
{
    match read {
        Err(e) => Err(Placed::Failed(concat2("元ファイルをデコードできない: ", &e))),
        Ok(Some(m)) => Ok(m),
        Ok(None) => match db_md5 {
            Some(m) => Ok(m),
            None => Err(Placed::Failed("元ファイルの音声 MD5 を計算できない".to_owned())),
        },
    }
}

// ---------------------------------------------------------------- the new file

/// Where the new file comes from.
#[derive(Debug, Clone, Copy, PartialEq, Eq, Structural)]
pub enum Incoming {
    /// The source is encoded with this many bits per sample.
    Encode(u8),
    /// The archive has it: a normalisation is undone.
    Restore,
}

/// Where the new file comes from. `held` says that the archive has the file of
/// the new path; `codec` and `bit_depth` are those of the source.
pub fn incoming_of(held: bool, dir: &Direction, codec: Codec, bit_depth: Option<u8>) -> (r: Result<Incoming, Placed>)
    ensures
        if held {
            r == Ok::<Incoming, Placed>(Incoming::Restore)
        } else if !(is_flac_path(dir.new@) && is_source_codec(codec)) {
            r matches Err(p) && is_failure(p, "復元元が Archive に無い: "@ + dir.new@)
        } else {
            match bit_depth {
                None => r matches Err(p) && is_failure(p, "ビット深度が読めない"@),
                Some(b) => r == Ok::<Incoming, Placed>(Incoming::Encode(b)),
            }
        },
{
    if held {
        return Ok(Incoming::Restore);
    }
    if !(has_flac_extension(&dir.new) && is_normalize_source(codec)) {
        return Err(Placed::Failed(concat2("復元元が Archive に無い: ", &dir.new)));
    }
    match bit_depth {
        None => Err(Placed::Failed("ビット深度が読めない".to_owned())),
        Some(b) => Ok(Incoming::Encode(b)),
    }
}

/// How encoding ended.
#[derive(Debug)]
pub enum EncodeEnd {
    /// The digest that the FLAC carries.
    Encoded(Option<[u8; 16]>),
    Cancelled,
    UnsupportedBitDepth(u8),
    Fault(String),
}

/// An encoded file is taken only where its sound is that of the source.
pub fn check_encoded(end: EncodeEnd, expected: &[u8; 16]) -> (r: Result<Result<(), Placed>, EditError>)
    ensures
        match end {
            EncodeEnd::Encoded(m) => if m == Some(*expected) {
                r == Ok::<Result<(), Placed>, EditError>(Ok(()))
            } else {
                r matches Ok(Err(p)) && is_failure(p, "変換前後の PCM MD5 が一致しない（生成した FLAC は捨てた）"@)
            },
            EncodeEnd::Cancelled => r == Err::<Result<(), Placed>, EditError>(EditError::Cancelled),
            EncodeEnd::UnsupportedBitDepth(b) => r matches Ok(Err(p)) && is_failure(
                p,
                "対応していないビット深度: "@ + crate::text::int_text(b as int),
            ),
            EncodeEnd::Fault(e) => r matches Err(EditError::Internal(m)) && m@ == "エンコードに失敗: "@ + e@,
        },
{
    match end {
        EncodeEnd::Encoded(m) => {
            if same_digest(&m, &Some(*expected)) {
                Ok(Ok(()))
            } else {
                Ok(Err(Placed::Failed("変換前後の PCM MD5 が一致しない（生成した FLAC は捨てた）".to_owned())))
            }
        },
        EncodeEnd::Cancelled => Err(EditError::Cancelled),
        EncodeEnd::UnsupportedBitDepth(b) => {
            let n = int_to_text(b as i64);
            Ok(Err(Placed::Failed(concat2("対応していないビット深度: ", &n))))
        },
        EncodeEnd::Fault(e) => Err(EditError::Internal(concat2("エンコードに失敗: ", &e))),
    }
}

/// A file of the archive is taken only where its sound is that of the track.
pub fn check_restored(dir: &Direction, read: Result<Option<[u8; 16]>, String>, expected: &[u8; 16]) -> (r: Result<
    (),
    Placed,
>)
    ensures
        match read {
            Ok(m) => if m == Some(*expected) {
                r is Ok
            } else {
                r matches Err(p) && is_failure(p, "Archive の退避ファイルの音声が一致しない: "@ + dir.new@)
            },
            Err(e) => r matches Err(p) && is_failure(
                p,
                "Archive の退避ファイルを読めない: "@ + dir.new@ + ": "@ + e@,
            ),
        },
{
    match read {
        Ok(m) => {
            if same_digest(&m, &Some(*expected)) {
                Ok(())
            } else {
                Err(Placed::Failed(concat2("Archive の退避ファイルの音声が一致しない: ", &dir.new)))
            }
        },
        Err(e) => Err(Placed::Failed(concat4("Archive の退避ファイルを読めない: ", &dir.new, ": ", &e))),
    }
}

/// A source that is not there any more was replaced by this very operation where the file at its new place
/// has the sound the catalogue knows, and the archive holds the bytes that were recorded; where any of these
/// is not known, it was not.
pub proof fn law_replaced_before(look: AbsentLook, db_md5: Option<[u8; 16]>, recorded: Option<[u8; 32]>, m: [u8; 16], h: [u8; 32])
    ensures
        look.placed == Some(Some(m)) && db_md5 == Some(m) && recorded == Some(h) && look.archived_hash == Some(h)
            ==> replaced_before(look, db_md5, recorded),
        replaced_before(look, db_md5, recorded) ==> db_md5 is Some && recorded is Some && look.archived_hash == recorded
            && look.placed == Some(db_md5),
        recorded is None || db_md5 is None || look.placed is None ==> !replaced_before(look, db_md5, recorded),
{
}

/// A file is a FLAC by its ending, in whatever case of letters.
pub proof fn law_flac_by_its_ending(dir: Seq<char>, stem: Seq<char>, ext: Seq<char>)
    requires
        !stem.contains('/'),
        !ext.contains('/'),
        !ext.contains('.'),
    ensures
        is_flac_path(dir + seq!['/'] + (stem + seq!['.'] + ext)) <==> ascii_lower(ext) == seq!['f', 'l', 'a', 'c'],
{
    reveal_strlit("flac");
    assert("flac"@ =~= seq!['f', 'l', 'a', 'c']);
    let name = stem + seq!['.'] + ext;
    assert forall|k: int| stem.len() < k < name.len() implies #[trigger] name[k] != '.' by {
        assert(name[k] == ext[k - stem.len() - 1]);
        assert(ext.contains(ext[k - stem.len() - 1]));
    }
    lemma_last_index_is(name, '.', stem.len() as int);
    assert(name.skip(stem.len() as int + 1) =~= ext);
    if name.contains('/') {
        let k = choose|k: int| 0 <= k < name.len() && name[k] == '/';
        if k < stem.len() {
            assert(stem[k] == '/');
        } else if k > stem.len() {
            assert(ext[k - stem.len() - 1] == '/');
        }
    }
    lemma_parts_of_join(dir, name);
}

} // verus!
