//! The pictures inside files as values of a pseudo tag: the type of the picture
//! and the digest of its bytes.

use crate::catalog::TagSet;
use crate::edit::batch::BatchEvent;
use crate::edit::error::EditError;
use crate::edit::tags::{
    first_unknown, has_duplicate, key_replaced, lowest_duplicate, missing_rows, prepare_rg_write, replaced,
    replacement_views, with_replaced, LoudnessRow, Prepared,
};
use crate::hex::{from_hex, hex_bytes, hex_text, is_hex, lemma_hex_round_trip, lemma_hex_text_small, to_hex};
use crate::lists::increasing;
use crate::split::{lemma_last_index_is, rsplit_once};
use crate::text::{concat3, last_index};
use vstd::prelude::*;
use vstd::string::*;

verus! {

/// The key of the pseudo tag.
pub const PICTURE_KEY: &'static str = "PICTURE";

/// What came of preparing the replacement of pictures.
#[derive(Debug)]
pub struct PicturePrepared {
    /// The batch, none where nothing is to be written.
    pub batch_id: Option<i64>,
    /// How many operations were recorded.
    pub affected: usize,
    /// Rows that have that one picture already.
    pub unchanged: usize,
    /// Rows without a file.
    pub missing: usize,
    pub job_ids: Vec<i64>,
    /// What is told of the batch where it ended at once.
    pub event: Option<BatchEvent>,
}

/// The value for a picture: its type, a colon, and its digest in hexadecimal.
pub open spec fn picture_text(mime: Seq<char>, sha256: Seq<u8>) -> Seq<char> {
    mime + ":"@ + hex_text(sha256)
}

/// The type and the digest that a value stands for: what follows the last colon
/// has to be 64 hexadecimal digits.
pub open spec fn picture_parts(value: Seq<char>) -> Option<(Seq<char>, Seq<u8>)> {
    match last_index(value, ':') {
        Some(i) => {
            let h = value.skip(i + 1);
            if is_hex(h, 32) {
                Some((value.take(i), hex_bytes(h)))
            } else {
                None
            }
        },
        None => None,
    }
}

/// The first 32 bytes of a list.
pub fn to_array32(v: &Vec<u8>) -> (r: [u8; 32])
    requires
        v@.len() == 32,
    ensures
        r@ == v@,
{
    let mut a: [u8; 32] = [0u8;32];
    let mut i: usize = 0;
    while i < 32
        invariant
            i <= 32,
            v@.len() == 32,
            forall|k: int| 0 <= k < i ==> #[trigger] a@[k] == v@[k],
        decreases 32 - i,
    {
        a[i] = v[i];
        i = i + 1;
    }
    proof {
        assert(a@ =~= v@);
    }
    a
}

/// The type and the digest that a value stands for.
pub fn parse_picture_value(value: &str) -> (r: Option<(String, [u8; 32])>)
    ensures
        match r {
            Some(p) => picture_parts(value@) == Some((p.0@, p.1@)),
            None => picture_parts(value@) is None,
        },
{
    match rsplit_once(value, ':') {
        Some(p) => match from_hex(&p.1, 32) {
            Some(bytes) => {
                proof {
                    assert(bytes@.len() == 32);
                }
                Some((p.0, to_array32(&bytes)))
            },
            None => None,
        },
        None => None,
    }
}

/// The value for a picture.
pub fn picture_value(mime: &str, sha256: &[u8]) -> (r: String)
    ensures
        r@ == picture_text(mime@, sha256@),
{
    let h = to_hex(sha256);
    concat3(mime, ":", &h)
}

/// Reading back the value of a picture gives its type and its digest.
pub proof fn law_picture_value_round_trip(mime: Seq<char>, sha256: Seq<u8>)
    requires
        sha256.len() == 32,
    ensures
        picture_parts(picture_text(mime, sha256)) == Some((mime, sha256)),
{
    reveal_strlit(":");
    let v = picture_text(mime, sha256);
    let i = mime.len() as int;
    lemma_hex_round_trip(sha256);
    lemma_hex_text_small(sha256);
    assert(v[i] == ':');
    assert forall|k: int| i < k < v.len() implies #[trigger] v[k] != ':' by {
        assert(v[k] == hex_text(sha256)[k - i - 1]);
    }
    lemma_last_index_is(v, ':', i);
    assert(v.take(i) =~= mime);
    assert(v.skip(i + 1) =~= hex_text(sha256));
}

// ---------------------------------------------------------------- replacing pictures

/// What is written when pictures are replaced.
#[derive(Debug)]
pub struct PictureSelection {
    /// The tracks that get the picture, in increasing order.
    pub targets: Vec<i64>,
    /// How many of the rows have no file.
    pub missing: usize,
    /// The value of the pseudo tag that they get.
    pub value: String,
}

/// The track has a row with a file.
pub open spec fn has_file(rows: Seq<LoudnessRow>, id: i64) -> bool {
    exists|i: int| 0 <= i < rows.len() && (#[trigger] rows[i]).id == id && !rows[i].missing
}

/// Whether it was measured does not matter to a row.
fn as_measured(rows: &Vec<LoudnessRow>) -> (r: Vec<LoudnessRow>)
    ensures
        r@.len() == rows@.len(),
        forall|i: int|
            0 <= i < rows@.len() ==> #[trigger] r@[i] == (LoudnessRow {
                id: rows@[i].id,
                missing: rows@[i].missing,
                scanned: true,
            }),
{
    let mut out: Vec<LoudnessRow> = Vec::new();
    let mut i: usize = 0;
    while i < rows.len()
        invariant
            i <= rows@.len(),
            out@.len() == i,
            forall|k: int|
                0 <= k < i ==> #[trigger] out@[k] == (LoudnessRow {
                    id: rows@[k].id,
                    missing: rows@[k].missing,
                    scanned: true,
                }),
        decreases rows@.len() - i,
    {
        out.push(LoudnessRow { id: rows[i].id, missing: rows[i].missing, scanned: true });
        i = i + 1;
    }
    out
}

proof fn lemma_same_missing(a: Seq<LoudnessRow>, b: Seq<LoudnessRow>)
    requires
        a.len() == b.len(),
        forall|i: int| 0 <= i < a.len() ==> (#[trigger] a[i]).missing == b[i].missing,
    ensures
        missing_rows(a) == missing_rows(b),
    decreases a.len(),
{
    if a.len() > 0 {
        assert forall|i: int| 0 <= i < a.drop_last().len() implies (#[trigger] a.drop_last()[i]).missing
            == b.drop_last()[i].missing by {
            assert(a[i].missing == b[i].missing);
        }
        lemma_same_missing(a.drop_last(), b.drop_last());
        assert(a[a.len() - 1].missing == b[b.len() - 1].missing);
    }
}

/// Which tracks of a selection get a picture, and the value they get. `store`
/// says that there is a place for pictures; `mime` is the type of the picture
/// with that digest, none where it is not known or its bytes are not there.
/// `pending` are the tracks of the selection that operations wait for, `rows`
/// the tracks that there are.
pub fn prepare_picture(
    store: bool,
    mime: Option<&str>,
    sha256: &[u8; 32],
    ids: &Vec<i64>,
    pending: Vec<i64>,
    rows: &Vec<LoudnessRow>,
) -> (r: Result<PictureSelection, EditError>)
    ensures
        if !store {
            r == Err::<PictureSelection, EditError>(EditError::ArtworkUnavailable)
        } else if mime is None {
            r == Err::<PictureSelection, EditError>(EditError::ArtworkNotFound)
        } else if has_duplicate(ids@) {
            r matches Err(EditError::DuplicateTrack(d)) && lowest_duplicate(ids@, d)
        } else if pending@.len() > 0 {
            r == Err::<PictureSelection, EditError>(EditError::Pending { track_ids: pending })
        } else if exists|x: i64| first_unknown(ids@, rows@, x) {
            r matches Err(EditError::TrackNotFound(id)) && first_unknown(ids@, rows@, id)
        } else if forall|x: i64| !has_file(rows@, x) {
            r == Err::<PictureSelection, EditError>(EditError::NoChanges)
        } else {
            r matches Ok(s) && s.missing == missing_rows(rows@) && increasing(s.targets@) && (forall|x: i64| #[trigger]
                s.targets@.contains(x) <==> has_file(rows@, x)) && s.value@ == picture_text(mime->0@, sha256@)
        },
{
    if !store {
        return Err(EditError::ArtworkUnavailable);
    }
    let mime = match mime {
        Some(m) => m,
        None => {
            return Err(EditError::ArtworkNotFound);
        },
    };
    let all = as_measured(rows);
    proof {
        lemma_same_missing(all@, rows@);
        assert forall|x: i64| first_unknown(ids@, all@, x) == first_unknown(ids@, rows@, x) by {
            if first_unknown(ids@, all@, x) {
                lemma_same_unknown(ids@, all@, rows@, x);
            }
            if first_unknown(ids@, rows@, x) {
                lemma_same_unknown(ids@, rows@, all@, x);
            }
        }
    }
    match prepare_rg_write(ids, pending, &all) {
        Err(e) => Err(e),
        Ok(s) => {
            proof {
                assert forall|x: i64| #[trigger] s.targets@.contains(x) <==> has_file(rows@, x) by {
                    lemma_written_has_file(all@, rows@, x);
                }
            }
            if s.targets.len() == 0 {
                proof {
                    assert forall|x: i64| !has_file(rows@, x) by {
                        assert(!s.targets@.contains(x));
                    }
                }
                return Err(EditError::NoChanges);
            }
            proof {
                assert(s.targets@.contains(s.targets@[0]));
                assert(has_file(rows@, s.targets@[0]));
            }
            let value = picture_value(mime, sha256);
            Ok(PictureSelection { targets: s.targets, missing: s.missing, value })
        },
    }
}

proof fn lemma_same_unknown(ids: Seq<i64>, a: Seq<LoudnessRow>, b: Seq<LoudnessRow>, x: i64)
    requires
        a.len() == b.len(),
        forall|i: int| 0 <= i < a.len() ==> (#[trigger] a[i]).id == b[i].id,
        first_unknown(ids, a, x),
    ensures
        first_unknown(ids, b, x),
{
    assert forall|i: int| 0 <= i < b.len() implies (#[trigger] b[i]).id != x by {
        assert(a[i].id != x);
    }
    assert forall|y: i64| #[trigger] ids.contains(y) && y < x implies exists|i: int|
        0 <= i < b.len() && (#[trigger] b[i]).id == y by {
        let i = choose|i: int| 0 <= i < a.len() && (#[trigger] a[i]).id == y;
        assert(b[i].id == y);
    }
}

proof fn lemma_written_has_file(all: Seq<LoudnessRow>, rows: Seq<LoudnessRow>, x: i64)
    requires
        all.len() == rows.len(),
        forall|i: int|
            0 <= i < rows.len() ==> #[trigger] all[i] == (LoudnessRow {
                id: rows[i].id,
                missing: rows[i].missing,
                scanned: true,
            }),
    ensures
        crate::edit::tags::is_written(all, x) == has_file(rows, x),
{
    if crate::edit::tags::is_written(all, x) {
        let i = choose|i: int| 0 <= i < all.len() && (#[trigger] all[i]).id == x && !all[i].missing && all[i].scanned;
        assert(rows[i].id == x && !rows[i].missing);
    }
    if has_file(rows, x) {
        let i = choose|i: int| 0 <= i < rows.len() && (#[trigger] rows[i]).id == x && !rows[i].missing;
        assert(all[i].id == x && !all[i].missing && all[i].scanned);
    }
}

/// The tags of a file whose pictures are replaced by one.
pub fn with_picture(current: &TagSet, value: &str) -> (r: TagSet)
    ensures
        r@ == key_replaced(current@, PICTURE_KEY@, seq![value@]),
{
    let mut values: Vec<String> = Vec::new();
    values.push(value.to_owned());
    let mut changes: Vec<(String, Vec<String>)> = Vec::new();
    changes.push((PICTURE_KEY.to_owned(), values));
    proof {
        let c = replacement_views(changes@);
        assert(c[0].0 == PICTURE_KEY@);
        assert(c[0].1 =~= seq![value@]);
        assert(replaced(current@, c, 0) == current@);
        assert(replaced(current@, c, 1) == key_replaced(current@, c[0].0, c[0].1));
    }
    with_replaced(current, &changes)
}

/// What came of preparing the replacement of pictures, once the batch is recorded.
pub fn picture_prepared(selection: &PictureSelection, batch: Prepared) -> (r: PicturePrepared)
    ensures
        r.batch_id == Some(batch.batch_id),
        r.affected == batch.affected,
        r.unchanged == batch.unchanged,
        r.missing == selection.missing,
        r.job_ids == batch.job_ids,
        r.event == batch.event,
{
    PicturePrepared {
        batch_id: Some(batch.batch_id),
        affected: batch.affected,
        unchanged: batch.unchanged,
        missing: selection.missing,
        job_ids: batch.job_ids,
        event: batch.event,
    }
}

/// A track can get a picture where its file is there.
pub proof fn law_tracks_with_files(rows: Seq<LoudnessRow>, i: int)
    requires
        0 <= i < rows.len(),
    ensures
        !rows[i].missing ==> has_file(rows, rows[i].id),
        (forall|k: int| 0 <= k < rows.len() ==> (#[trigger] rows[k]).missing) ==> !has_file(rows, rows[i].id),
{
}

} // verus!
