//! Why an edit is refused or fails.

use crate::catalog::OpKind;
use crate::fsroot::FsError;
use crate::split::join;
use crate::text::{concat2, concat3, int_text, int_to_text, joined, texts};
use vstd::prelude::*;
use vstd::string::*;

verus! {

/// Why an edit is refused or fails.
#[derive(Debug)]
pub enum EditError {
    /// Operations wait for these tracks.
    Pending { track_ids: Vec<i64> },
    NoChanges,
    DuplicateTrack(i64),
    TrackNotFound(i64),
    OpNotFound(i64),
    UnsupportedKind(OpKind),
    ArtworkUnavailable,
    ArtworkNotFound,
    Cancelled,
    Db(String),
    Fs(FsError),
    RelPath(String),
    Io(String),
    TagRead(String),
    TagWrite(String),
    Internal(String),
}

/// Numbers in decimal.
pub open spec fn number_texts(v: Seq<i64>) -> Seq<Seq<char>> {
    v.map_values(|n: i64| int_text(n as int))
}

/// A list of numbers in square brackets.
pub open spec fn list_text(v: Seq<i64>) -> Seq<char> {
    "["@ + joined(number_texts(v), ", "@) + "]"@
}

/// A list of numbers in square brackets.
pub fn list_of_numbers(v: &Vec<i64>) -> (r: String)
    ensures
        r@ == list_text(v@),
{
    let mut parts: Vec<String> = Vec::new();
    let mut i: usize = 0;
    while i < v.len()
        invariant
            i <= v@.len(),
            parts@.len() == i,
            forall|k: int| 0 <= k < i ==> (#[trigger] parts@[k])@ == int_text(v@[k] as int),
        decreases v@.len() - i,
    {
        parts.push(int_to_text(v[i]));
        i = i + 1;
    }
    proof {
        assert(texts(parts@) =~= number_texts(v@));
    }
    let all = join(&parts, ", ");
    concat3("[", &all, "]")
}

/// The name of a sort of operation.
pub open spec fn kind_name(k: OpKind) -> Seq<char> {
    match k {
        OpKind::Tags => "Tags"@,
        OpKind::Rename => "Rename"@,
        OpKind::Delete => "Delete"@,
        OpKind::Archive => "Archive"@,
        OpKind::Md5 => "Md5"@,
    }
}

impl EditError {
    /// The text that a user reads.
    pub open spec fn text(&self) -> Seq<char> {
        match self {
            EditError::Pending { track_ids } => "反映待ちの op があるトラック: "@ + list_text(track_ids@),
            EditError::NoChanges => "変更が無い"@,
            EditError::DuplicateTrack(id) => "同じトラックが複数回指定された: "@ + int_text(*id as int),
            EditError::TrackNotFound(id) => "トラックが存在しない: "@ + int_text(*id as int),
            EditError::OpNotFound(id) => "op が存在しない: "@ + int_text(*id as int),
            EditError::UnsupportedKind(k) => "この種別の op はまだ反映できない: "@ + kind_name(*k),
            EditError::ArtworkUnavailable => "アートワークのキャッシュが無い"@,
            EditError::ArtworkNotFound => "画像が登録されていない"@,
            EditError::Cancelled => "キャンセルされた"@,
            EditError::Db(e) => e@,
            EditError::Fs(e) => "ファイル操作に失敗: "@ + e.text(),
            EditError::RelPath(e) => "パスが不正: "@ + e@,
            EditError::Io(e) => e@,
            EditError::TagRead(e) => e@,
            EditError::TagWrite(e) => e@,
            EditError::Internal(e) => "内部エラー: "@ + e@,
        }
    }

    /// The text that a user reads.
    pub fn message(&self) -> (r: String)
        ensures
            r@ == self.text(),
    {
        match self {
            EditError::Pending { track_ids } => {
                let l = list_of_numbers(track_ids);
                concat2("反映待ちの op があるトラック: ", &l)
            },
            EditError::NoChanges => "変更が無い".to_owned(),
            EditError::DuplicateTrack(id) => {
                let n = int_to_text(*id);
                concat2("同じトラックが複数回指定された: ", &n)
            },
            EditError::TrackNotFound(id) => {
                let n = int_to_text(*id);
                concat2("トラックが存在しない: ", &n)
            },
            EditError::OpNotFound(id) => {
                let n = int_to_text(*id);
                concat2("op が存在しない: ", &n)
            },
            EditError::UnsupportedKind(k) => {
                let name = match k {
                    OpKind::Tags => "Tags",
                    OpKind::Rename => "Rename",
                    OpKind::Delete => "Delete",
                    OpKind::Archive => "Archive",
                    OpKind::Md5 => "Md5",
                };
                concat2("この種別の op はまだ反映できない: ", name)
            },
            EditError::ArtworkUnavailable => "アートワークのキャッシュが無い".to_owned(),
            EditError::ArtworkNotFound => "画像が登録されていない".to_owned(),
            EditError::Cancelled => "キャンセルされた".to_owned(),
            EditError::Db(e) => e.clone(),
            EditError::Fs(e) => {
                let m = e.message();
                concat2("ファイル操作に失敗: ", &m)
            },
            EditError::RelPath(e) => concat2("パスが不正: ", e),
            EditError::Io(e) => e.clone(),
            EditError::TagRead(e) => e.clone(),
            EditError::TagWrite(e) => e.clone(),
            EditError::Internal(e) => concat2("内部エラー: ", e),
        }
    }
}

/// Numbers are listed in brackets with commas between them.
pub proof fn law_lists_of_numbers(a: i64, b: i64)
    ensures
        list_text(Seq::empty()) == seq!['[', ']'],
        list_text(seq![a]) == seq!['['] + int_text(a as int) + seq![']'],
        list_text(seq![a, b]) == seq!['['] + (int_text(a as int) + seq![',', ' '] + int_text(b as int)) + seq![']'],
{
    reveal_strlit("[");
    reveal_strlit("]");
    reveal_strlit(", ");
    assert("["@ =~= seq!['[']);
    assert("]"@ =~= seq![']']);
    assert(", "@ =~= seq![',', ' ']);
    assert(number_texts(Seq::empty()) =~= Seq::empty());
    assert("["@ + Seq::<char>::empty() + "]"@ =~= seq!['[', ']']);
    let one = number_texts(seq![a]);
    assert(one =~= seq![int_text(a as int)]);
    let two = number_texts(seq![a, b]);
    assert(two =~= seq![int_text(a as int), int_text(b as int)]);
    assert(two.drop_last() =~= one);
    assert(joined(one, ", "@) == int_text(a as int));
    assert(joined(two, ", "@) == int_text(a as int) + ", "@ + int_text(b as int));
}

} // verus!
