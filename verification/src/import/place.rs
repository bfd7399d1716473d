//! Placing an item of the inbox in the library: the plan, the files, the
//! registration, and what is left of it in the inbox.

use crate::catalog::{same16, same32, AlbumMeta, Fingerprint};
use crate::edit::picture::{parse_picture_value, picture_parts};
use crate::fsroot::{FileKind, Stat};
use crate::import::destination::{said, said_text, Destination};
use crate::import::draft::{disc_total, DraftTrack, InboxDraft};
use crate::import::inbox::{law_row_of_a_file, row_fits, InboxError};
use crate::import::placement::{mb_key, mb_key_text, release_key_text, PlacedFile, PlacementError};
use crate::import::proposal::{stat_matches, FileRow};
use crate::import::sidecar::{FileEntry, Sidecar, SIDECAR_NAME};
use crate::lists::{sorted_ids, sorted_set_of};
use crate::relpath::{file_name, file_name_of, join_path, joined_path, parent, parent_of};
use crate::split::{has_member, has_prefix, join, lemma_last_index, split};
use crate::text::{
    concat2, concat3, concat4, int_text, int_to_text, joined, last_index,
    law_split_at_the_first_separator, law_unsplit_text, lemma_int_text_injective, opt_str,
    opt_text, same_text, split_on, starts_with, texts, trim, trimmed, unsigned_to_text,
};
use crate::unicode::{canonical, canonical_key};
use vstd::prelude::*;
use vstd::string::*;
use vstd::utf8::encode_utf8;

verus! {

// ---------------------------------------------------------------- the plan

/// What planning a path gives.
#[derive(Debug)]
pub enum Planned {
    Path(String),
    Conflict(String),
    Unchanged,
}

/// Where an item goes.
#[derive(Debug)]
pub struct ItemPlan {
    /// The paths, in the order of the draft.
    pub paths: Vec<String>,
    pub rel_dir: String,
}

/// What is shown of a plan before it is carried out.
#[derive(Debug)]
pub struct PlacePreview {
    pub rel_dir: String,
    pub paths: Vec<String>,
}

/// The key of the release that an item is planned for: that of its release,
/// else that of the album of an earlier run, else that of the album that takes
/// it, else one of its own.
pub open spec fn planned_release(
    mb: Option<Seq<char>>,
    own: Option<Seq<char>>,
    album_id: Option<i64>,
    item_id: i64,
) -> Seq<char> {
    if mb is Some {
        mb_key_text(mb->0)
    } else if own is Some {
        own->0
    } else if album_id is Some {
        release_key_text(album_id->0, None)
    } else {
        "inbox:"@ + int_text(item_id as int)
    }
}

/// The key of the release that an item is planned for (see [`planned_release`]).
pub fn plan_release(mb: Option<&str>, own: Option<&str>, dest: Option<&Destination>, item_id: i64) -> (r: String)
    ensures
        r@ == planned_release(
            opt_str(mb),
            opt_str(own),
            match dest {
                Some(d) => Some(d.album_id),
                None => None,
            },
            item_id,
        ),
{
    match mb {
        Some(m) => mb_key(m),
        None => match own {
            Some(k) => k.to_owned(),
            None => match dest {
                Some(d) => d.release_key(),
                None => {
                    let n = int_to_text(item_id);
                    concat2("inbox:", &n)
                },
            },
        },
    }
}

/// Where the first track without a path stands.
pub open spec fn first_unplanned(planned: Seq<Planned>, i: int) -> bool {
    &&& 0 <= i < planned.len()
    &&& !(planned[i] is Path)
    &&& forall|k: int| 0 <= k < i ==> #[trigger] planned[k] is Path
}

/// The path that was planned for the track `i`.
pub open spec fn path_text(planned: Seq<Planned>, i: int) -> Seq<char> {
    planned[i]->Path_0@
}

/// Some track goes to another directory than the first.
pub open spec fn scattered(planned: Seq<Planned>) -> bool {
    exists|i: int|
        0 <= i < planned.len() && parent_of(#[trigger] path_text(planned, i)) != parent_of(path_text(planned, 0))
}

/// The plan of an item, from the paths of its tracks: all of them have one, and
/// they are in one directory below the root. `tracks` are those of the draft.
pub fn plan_item(planned: Vec<Planned>, tracks: &Vec<DraftTrack>) -> (r: Result<ItemPlan, InboxError>)
    requires
        planned@.len() == tracks@.len(),
    ensures
        match r {
            Ok(p) => {
                &&& planned@.len() > 0
                &&& forall|i: int| 0 <= i < planned@.len() ==> #[trigger] planned@[i] is Path
                &&& texts(p.paths@) == Seq::new(planned@.len(), |i: int| path_text(planned@, i))
                &&& parent_of(path_text(planned@, 0)) == Some(p.rel_dir@)
                &&& !scattered(planned@)
            },
            Err(e) => if exists|i: int| first_unplanned(planned@, i) {
                exists|i: int| #[trigger]
                    first_unplanned(planned@, i) && (e matches InboxError::Conflict(m) && m@ == tracks@[i].rel_path@
                        + ": "@ + (match planned@[i] {
                        Planned::Conflict(why) => why@,
                        _ => "パスを決められない"@,
                    }))
            } else if planned@.len() == 0 || parent_of(path_text(planned@, 0)) is None {
                e matches InboxError::Conflict(m) && m@ == "宛先が root 直下になる"@
            } else {
                scattered(planned@) && (e matches InboxError::Conflict(m) && m@
                    == "トラックの宛先が 1 つのディレクトリに揃わない"@)
            },
        },
{
    let n: usize = planned.len();
    let mut paths: Vec<String> = Vec::new();
    let mut i: usize = 0;
    proof {
        assert(texts(paths@) =~= Seq::new(0, |k: int| path_text(planned@, k)));
    }
    while i < n
        invariant
            i <= n,
            n == planned@.len(),
            n == tracks@.len(),
            forall|k: int| 0 <= k < i ==> #[trigger] planned@[k] is Path,
            texts(paths@) == Seq::new(i as nat, |k: int| path_text(planned@, k)),
        decreases n - i,
    {
        match &planned[i] {
            Planned::Path(p) => {
                let ghost before = texts(paths@);
                paths.push(p.clone());
                proof {
                    assert(texts(paths@) =~= before.push(p@));
                    assert(texts(paths@) =~= Seq::new((i + 1) as nat, |k: int| path_text(planned@, k)));
                }
            },
            Planned::Conflict(why) => {
                proof {
                    assert(first_unplanned(planned@, i as int));
                }
                return Err(InboxError::Conflict(concat3(&tracks[i].rel_path, ": ", why)));
            },
            Planned::Unchanged => {
                proof {
                    assert(first_unplanned(planned@, i as int));
                }
                return Err(InboxError::Conflict(concat3(&tracks[i].rel_path, ": ", "パスを決められない")));
            },
        }
        i = i + 1;
    }
    proof {
        assert forall|k: int| !first_unplanned(planned@, k) by {}
        assert forall|k: int| 0 <= k < n implies (#[trigger] paths@[k])@ == path_text(planned@, k) by {
            assert(texts(paths@)[k] == path_text(planned@, k));
        }
        assert(paths@.len() == texts(paths@).len());
    }
    if n == 0 {
        return Err(InboxError::Conflict("宛先が root 直下になる".to_owned()));
    }
    let rel_dir = match parent(&paths[0]) {
        Some(d) => d,
        None => {
            return Err(InboxError::Conflict("宛先が root 直下になる".to_owned()));
        },
    };
    let mut j: usize = 0;
    while j < n
        invariant
            j <= n,
            n == planned@.len(),
            n > 0,
            paths@.len() == n,
            forall|k: int| 0 <= k < n ==> (#[trigger] paths@[k])@ == path_text(planned@, k),
            forall|k: int| !first_unplanned(planned@, k),
            parent_of(path_text(planned@, 0)) == Some(rel_dir@),
            forall|k: int| 0 <= k < j ==> parent_of(#[trigger] path_text(planned@, k)) == Some(rel_dir@),
        decreases n - j,
    {
        let same = match parent(&paths[j]) {
            Some(d) => same_text(&d, &rel_dir),
            None => false,
        };
        if !same {
            proof {
                assert(parent_of(path_text(planned@, j as int)) != parent_of(path_text(planned@, 0)));
                assert(scattered(planned@));
            }
            return Err(InboxError::Conflict("トラックの宛先が 1 つのディレクトリに揃わない".to_owned()));
        }
        j = j + 1;
    }
    Ok(ItemPlan { paths, rel_dir })
}

/// What is shown of a plan before it is carried out.
pub fn preview(plan: ItemPlan) -> (r: PlacePreview)
    ensures
        r.rel_dir == plan.rel_dir,
        r.paths == plan.paths,
{
    PlacePreview { rel_dir: plan.rel_dir, paths: plan.paths }
}

/// The pictures that the first `n` tracks name and that are not stored, each
/// once. `stored` says of each track whether its picture is.
pub open spec fn lacking_pictures(tracks: Seq<DraftTrack>, stored: Seq<bool>, n: int) -> Seq<Seq<char>>
    decreases n,
{
    if n <= 0 {
        Seq::empty()
    } else {
        let r = lacking_pictures(tracks, stored, n - 1);
        match tracks[n - 1].picture {
            Some(p) => if picture_parts(p@) is Some && !stored[n - 1] && !r.contains(p@) {
                r.push(p@)
            } else {
                r
            },
            None => r,
        }
    }
}

/// The pictures that a draft names and that are not stored, each once.
pub fn missing_pictures(draft: &InboxDraft, stored: &Vec<bool>) -> (r: Vec<String>)
    requires
        stored@.len() == draft.tracks@.len(),
    ensures
        texts(r@) == lacking_pictures(draft.tracks@, stored@, draft.tracks@.len() as int),
{
    let mut out: Vec<String> = Vec::new();
    let mut i: usize = 0;
    proof {
        assert(texts(out@) =~= lacking_pictures(draft.tracks@, stored@, 0));
    }
    while i < draft.tracks.len()
        invariant
            i <= draft.tracks@.len(),
            stored@.len() == draft.tracks@.len(),
            texts(out@) == lacking_pictures(draft.tracks@, stored@, i as int),
        decreases draft.tracks@.len() - i,
    {
        if let Some(p) = &draft.tracks[i].picture {
            if parse_picture_value(p).is_some() && !stored[i] && !has_member(&out, p) {
                let ghost before = texts(out@);
                out.push(p.clone());
                proof {
                    assert(texts(out@) =~= before.push(p@));
                }
            }
        }
        i = i + 1;
    }
    out
}

/// What comes of looking up the picture that a draft names: it has to be there.
pub fn draft_picture_missing(store: bool, rel_path: &str, value: &str) -> (r: InboxError)
    ensures
        r matches InboxError::Conflict(m) && m@ == (if store {
            rel_path@ + ": 画像が見つからない（"@ + value@ + "）。承認画面で選び直す"@
        } else {
            "画像の置き場（artwork）が無いので画像を埋め込めない"@
        }),
{
    if store {
        InboxError::Conflict(concat4(rel_path, ": 画像が見つからない（", value, "）。承認画面で選び直す"))
    } else {
        InboxError::Conflict("画像の置き場（artwork）が無いので画像を埋め込めない".to_owned())
    }
}

// ---------------------------------------------------------------- files

/// Two fingerprints are of one sound. What cannot be told is not the same.
pub open spec fn one_sound(a: Fingerprint, b: Fingerprint) -> bool {
    match (a, b) {
        (Fingerprint::Md5(Some(x)), Fingerprint::Md5(Some(y))) => x == y,
        (Fingerprint::Fp(Some(x)), Fingerprint::Fp(Some(y))) => x == y,
        _ => false,
    }
}

/// Whether two fingerprints are of one sound.
pub fn same_audio(a: Fingerprint, b: Fingerprint) -> (r: bool)
    ensures
        r == one_sound(a, b),
{
    match (a, b) {
        (Fingerprint::Md5(Some(x)), Fingerprint::Md5(Some(y))) => same16(&x, &y),
        (Fingerprint::Fp(Some(x)), Fingerprint::Fp(Some(y))) => same32(&x, &y),
        _ => false,
    }
}

/// A picture inside a file.
#[derive(Debug, Clone, Copy)]
pub struct PlacedPicture {
    pub front: bool,
    pub hash: [u8; 32],
}

/// The file has the picture that is wanted as its front cover.
pub open spec fn picture_in_place(want: Option<[u8; 32]>, pictures: Seq<PlacedPicture>) -> bool {
    match want {
        None => true,
        Some(h) => exists|i: int| 0 <= i < pictures.len() && (#[trigger] pictures[i]).front && pictures[i].hash == h,
    }
}

/// Whether the file has the picture that is wanted as its front cover.
pub fn has_front_picture(want: &Option<[u8; 32]>, pictures: &Vec<PlacedPicture>) -> (r: bool)
    ensures
        r == picture_in_place(*want, pictures@),
{
    match want {
        None => true,
        Some(h) => {
            let mut i: usize = 0;
            while i < pictures.len()
                invariant
                    i <= pictures@.len(),
                    *want == Some(*h),
                    forall|k: int| 0 <= k < i ==> !((#[trigger] pictures@[k]).front && pictures@[k].hash == *h),
                decreases pictures@.len() - i,
            {
                if pictures[i].front && same32(&pictures[i].hash, h) {
                    return true;
                }
                i = i + 1;
            }
            false
        },
    }
}

/// Whether what stands at `target` is the file of an earlier run. It is not
/// where its sound is another one. Where it is, it is never replaced, so it has
/// to have what the draft asks for: `changes` is how many tags still differ.
pub fn existing_file(same_sound: bool, changes: usize, picture_ok: bool, target: &str) -> (r: Result<
    bool,
    PlacementError,
>)
    ensures
        match r {
            Ok(own) => own == same_sound && (same_sound ==> changes == 0 && picture_ok),
            Err(e) => same_sound && (changes > 0 || !picture_ok) && (e matches PlacementError::Conflict(m) && m@
                == target@
                + ": 前回の配置の途中のファイルが宛先にあり、今回の補正（タグ・画像）と違う。Library のこのファイルを確かめて消すか、配置後にライブラリの編集で直す"@),
        },
{
    if !same_sound {
        return Ok(false);
    }
    if changes == 0 && picture_ok {
        Ok(true)
    } else {
        Err(
            PlacementError::Conflict(
                concat2(
                    target,
                    ": 前回の配置の途中のファイルが宛先にあり、今回の補正（タグ・画像）と違う。Library のこのファイルを確かめて消すか、配置後にライブラリの編集で直す",
                ),
            ),
        )
    }
}

/// A file that waits may be copied, or counts as copied, only while it looks as
/// it did when the draft was approved.
pub fn source_unchanged(row: Option<&FileRow>, st: &Stat, rel: &str) -> (r: Result<(), InboxError>)
    ensures
        match r {
            Ok(()) => row is Some && row_fits(*row->0, *st),
            Err(e) => !(row is Some && row_fits(*row->0, *st)) && (e matches InboxError::Changed(m) && m@ == rel@),
        },
{
    match row {
        Some(x) => {
            if stat_matches(x, st) {
                Ok(())
            } else {
                Err(InboxError::Changed(rel.to_owned()))
            }
        },
        None => Err(InboxError::Changed(rel.to_owned())),
    }
}

/// Whether a file that was placed is the one that waited: that did not change while
/// it was copied (`after` is what a stat of it says now), and what stands at
/// `target` can be read and has the sound that was read before.
pub fn check_placed(
    row: Option<&FileRow>,
    after: &Stat,
    read: Result<Fingerprint, String>,
    sound: Fingerprint,
    rel: &str,
    target: &str,
) -> (r: Result<(), InboxError>)
    ensures
        ({
            let unchanged = row is Some && row_fits(*row->0, *after);
            match r {
                Ok(()) => unchanged && read is Ok && one_sound(read->Ok_0, sound),
                Err(InboxError::Changed(m)) => m@ == rel@ && (!unchanged || (read is Ok && !one_sound(
                    read->Ok_0,
                    sound,
                ))),
                Err(InboxError::Conflict(m)) => unchanged && read is Err && m@ == target@ + ": "@ + read->Err_0@,
                Err(_) => false,
            }
        }),
{
    match source_unchanged(row, after, rel) {
        Ok(()) => {},
        Err(e) => {
            return Err(e);
        },
    }
    match read {
        Ok(fp) => {
            if same_audio(fp, sound) {
                Ok(())
            } else {
                Err(InboxError::Changed(rel.to_owned()))
            }
        },
        Err(e) => Err(InboxError::Conflict(concat3(target, ": ", &e))),
    }
}

/// What becomes of a file that travels with the music.
#[derive(Debug, Clone, Copy, PartialEq, Eq, Structural)]
pub enum CompanionStep {
    /// It was placed; it leaves the inbox, and the library if all fails.
    Placed,
    /// It was there; it leaves the inbox.
    Taken,
    /// Something else is there; it stays in the inbox.
    Stays,
    Fail,
}

/// What becomes of a file that travels with the music, by how placing it went.
pub fn companion_step(placed: &Result<PlacedFile, PlacementError>) -> (r: CompanionStep)
    ensures
        r == (match *placed {
            Ok(PlacedFile::New) => CompanionStep::Placed,
            Ok(PlacedFile::Reused) => CompanionStep::Taken,
            Err(PlacementError::Conflict(_)) => CompanionStep::Stays,
            Err(_) => CompanionStep::Fail,
        }),
{
    match placed {
        Ok(PlacedFile::New) => CompanionStep::Placed,
        Ok(PlacedFile::Reused) => CompanionStep::Taken,
        Err(PlacementError::Conflict(_)) => CompanionStep::Stays,
        Err(_) => CompanionStep::Fail,
    }
}

/// A file that travels with the music: where it stands in the inbox, where it goes,
/// and what became of it.
#[derive(Debug)]
pub struct Companion {
    pub from: String,
    pub to: String,
    pub step: CompanionStep,
}

/// The paths among the first `n` where a file was put that was not there.
pub open spec fn newly_placed(paths: Seq<Seq<char>>, placed: Seq<PlacedFile>, n: int) -> Seq<Seq<char>>
    decreases n,
{
    if n <= 0 {
        Seq::empty()
    } else {
        let r = newly_placed(paths, placed, n - 1);
        if placed[n - 1] == PlacedFile::New {
            r.push(paths[n - 1])
        } else {
            r
        }
    }
}

/// The paths in the library of the files that travelled and were not there.
pub open spec fn new_companions(c: Seq<Companion>) -> Seq<Seq<char>>
    decreases c.len(),
{
    if c.len() == 0 {
        Seq::empty()
    } else if c.last().step == CompanionStep::Placed {
        new_companions(c.drop_last()).push(c.last().to@)
    } else {
        new_companions(c.drop_last())
    }
}

/// The files that travelled and leave the inbox.
pub open spec fn leaving_companions(c: Seq<Companion>) -> Seq<Seq<char>>
    decreases c.len(),
{
    if c.len() == 0 {
        Seq::empty()
    } else if c.last().step == CompanionStep::Placed || c.last().step == CompanionStep::Taken {
        leaving_companions(c.drop_last()).push(c.last().from@)
    } else {
        leaving_companions(c.drop_last())
    }
}

/// What placing the files of an item put into the library.
#[derive(Debug)]
pub struct FilesPlaced {
    /// The files that were not there before. They are removed again where what
    /// follows fails.
    pub placed_new: Vec<String>,
    /// The files that travelled and leave the inbox.
    pub companions: Vec<String>,
}

/// What placing the files of an item put into the library: `placed` says of each
/// path of the plan, as far as it was got to, whether the file was there.
pub fn place_files(paths: &Vec<String>, placed: &Vec<PlacedFile>, travelled: &Vec<Companion>) -> (r: FilesPlaced)
    requires
        placed@.len() <= paths@.len(),
    ensures
        texts(r.placed_new@) == newly_placed(texts(paths@), placed@, placed@.len() as int) + new_companions(travelled@),
        texts(r.companions@) == leaving_companions(travelled@),
{
    let mut placed_new: Vec<String> = Vec::new();
    let mut companions: Vec<String> = Vec::new();
    let ghost p = texts(paths@);
    let mut i: usize = 0;
    proof {
        assert(texts(placed_new@) =~= newly_placed(p, placed@, 0));
    }
    while i < placed.len()
        invariant
            placed@.len() <= paths@.len(),
            p == texts(paths@),
            i <= placed@.len(),
            texts(placed_new@) == newly_placed(p, placed@, i as int),
        decreases placed@.len() - i,
    {
        let ghost before = texts(placed_new@);
        if placed[i] == PlacedFile::New {
            placed_new.push(paths[i].clone());
            proof {
                assert(texts(placed_new@) =~= before.push(p[i as int]));
            }
        }
        i = i + 1;
    }
    let ghost tracks = texts(placed_new@);
    let mut j: usize = 0;
    proof {
        assert(texts(placed_new@) =~= tracks + new_companions(travelled@.take(0)));
        assert(texts(companions@) =~= leaving_companions(travelled@.take(0)));
    }
    while j < travelled.len()
        invariant
            j <= travelled@.len(),
            texts(placed_new@) == tracks + new_companions(travelled@.take(j as int)),
            texts(companions@) == leaving_companions(travelled@.take(j as int)),
        decreases travelled@.len() - j,
    {
        let c = &travelled[j];
        let ghost n0 = texts(placed_new@);
        let ghost c0 = texts(companions@);
        proof {
            assert(travelled@.take(j + 1).last() == travelled@[j as int]);
            assert(travelled@.take(j + 1).drop_last() =~= travelled@.take(j as int));
        }
        if c.step == CompanionStep::Placed {
            placed_new.push(c.to.clone());
            proof {
                assert(texts(placed_new@) =~= n0.push(c.to@));
                assert(n0.push(c.to@) =~= tracks + new_companions(travelled@.take(j as int)).push(c.to@));
            }
        }
        if c.step == CompanionStep::Placed || c.step == CompanionStep::Taken {
            companions.push(c.from.clone());
            proof {
                assert(texts(companions@) =~= c0.push(c.from@));
            }
        }
        j = j + 1;
    }
    proof {
        assert(travelled@.take(j as int) =~= travelled@);
    }
    FilesPlaced { placed_new, companions }
}

/// The first `n` components of a path.
pub open spec fn path_prefix(dir: Seq<char>, n: int) -> Seq<char> {
    joined(split_on(dir, '/').take(n), "/"@)
}

/// The first directory on the way to `dir` that is made, so that it can be
/// removed again. `missing` says of each step of the way whether it is missing.
pub fn create_dirs(dir: &str, missing: &Vec<bool>) -> (r: Option<String>)
    requires
        missing@.len() == split_on(dir@, '/').len(),
    ensures
        match r {
            Some(top) => exists|i: int|
                0 <= i < missing@.len() && #[trigger] missing@[i] && top@ == path_prefix(dir@, i + 1) && forall|k: int|
                    0 <= k < i ==> !#[trigger] missing@[k],
            None => forall|k: int| 0 <= k < missing@.len() ==> !#[trigger] missing@[k],
        },
{
    let parts = split(dir, '/');
    let ghost p = texts(parts@);
    proof {
        assert(p.len() == parts@.len());
    }
    let mut prefix: Vec<String> = Vec::new();
    let mut i: usize = 0;
    proof {
        assert(texts(prefix@) =~= p.take(0));
    }
    while i < missing.len()
        invariant
            i <= missing@.len(),
            missing@.len() == parts@.len(),
            p == texts(parts@),
            p == split_on(dir@, '/'),
            texts(prefix@) == p.take(i as int),
            forall|k: int| 0 <= k < i ==> !#[trigger] missing@[k],
        decreases missing@.len() - i,
    {
        let ghost before = texts(prefix@);
        prefix.push(parts[i].clone());
        proof {
            assert(texts(prefix@) =~= before.push(p[i as int]));
            assert(p.take(i + 1) =~= p.take(i as int).push(p[i as int]));
        }
        if missing[i] {
            let top = join(&prefix, "/");
            proof {
                assert(missing@[i as int]);
            }
            return Some(top);
        }
        i = i + 1;
    }
    None
}

/// How long the key of a path is.
pub open spec fn key_len(path: Seq<char>) -> nat {
    encode_utf8(canonical(path)).len()
}

proof fn lemma_parent_shorter(path: Seq<char>)
    ensures
        parent_of(path) matches Some(p) ==> p.len() < path.len(),
{
    lemma_last_index(path, '/');
}

/// The directories above `dir` that go again with it, from the lowest up: those
/// whose key is no shorter than that of the first one that was made.
pub open spec fn dirs_above(dir: Seq<char>, top: Seq<char>) -> Seq<Seq<char>>
    decreases dir.len(),
    via dirs_above_decreases
{
    match parent_of(dir) {
        Some(d) => if key_len(d) < key_len(top) {
            Seq::empty()
        } else {
            seq![d] + dirs_above(d, top)
        },
        None => Seq::empty(),
    }
}

#[via_fn]
proof fn dirs_above_decreases(dir: Seq<char>, top: Seq<char>) {
    lemma_parent_shorter(dir);
}

fn key_bytes(path: &str) -> (r: usize)
    ensures
        r == key_len(path@),
{
    let k = canonical_key(path);
    k.as_str().as_bytes().len()
}

/// The directories above `dir` that are removed again where placing failed, from
/// the lowest up. `top` is the first one that was made.
pub fn cleanup(dir: &str, top: &str) -> (r: Vec<String>)
    ensures
        texts(r@) == dirs_above(dir@, top@),
{
    let floor = key_bytes(top);
    let mut out: Vec<String> = Vec::new();
    let mut cur = dir.to_owned();
    proof {
        assert(texts(out@) + dirs_above(dir@, top@) =~= dirs_above(dir@, top@));
    }
    loop
        invariant
            floor == key_len(top@),
            texts(out@) + dirs_above(cur@, top@) == dirs_above(dir@, top@),
        ensures
            texts(out@) == dirs_above(dir@, top@),
        decreases cur@.len(),
    {
        proof {
            lemma_parent_shorter(cur@);
        }
        match parent(&cur) {
            Some(d) => {
                if key_bytes(&d) < floor {
                    proof {
                        assert(texts(out@) + Seq::<Seq<char>>::empty() =~= texts(out@));
                    }
                    break;
                }
                let ghost before = texts(out@);
                let ghost dv = d@;
                out.push(d.clone());
                proof {
                    assert(texts(out@) =~= before.push(dv));
                    assert(before.push(dv) + dirs_above(dv, top@) =~= before + (seq![dv] + dirs_above(dv, top@)));
                }
                cur = d;
            },
            None => {
                proof {
                    assert(texts(out@) + Seq::<Seq<char>>::empty() =~= texts(out@));
                }
                break;
            },
        }
    }
    out
}

// ---------------------------------------------------------------- registration

/// What the album of an item says.
pub fn item_meta(draft: &InboxDraft, category_id: Option<i64>, release: Option<String>) -> (r: AlbumMeta)
    ensures
        r.category_id == category_id,
        opt_text(r.albumartist) == Some(trimmed(draft.albumartist@)),
        opt_text(r.album) == Some(trimmed(draft.album@)),
        opt_text(r.date) == said_text(draft.date),
        r.original_date is None,
        r.mb_release_id == release,
        r.disc_count == Some(disc_total(draft.tracks@) as i64),
{
    AlbumMeta {
        category_id,
        albumartist: Some(trim(&draft.albumartist)),
        album: Some(trim(&draft.album)),
        date: said(&draft.date),
        original_date: None,
        mb_release_id: release,
        disc_count: Some(draft.disc_count() as i64),
    }
}

/// A track of the album that takes an item.
#[derive(Debug)]
pub struct NumberedRow {
    pub disc_no: Option<i64>,
    pub track_no: Option<i64>,
    pub key: String,
}

/// A track of the album, other than those of the plan, has the numbers.
pub open spec fn number_taken(rows: Seq<NumberedRow>, paths: Seq<Seq<char>>, disc: u32, no: u32) -> bool {
    exists|i: int|
        0 <= i < rows.len() && !is_planned(paths, (#[trigger] rows[i]).key@) && (match rows[i].disc_no {
            Some(d) => d,
            None => 1,
        }) == disc && (match rows[i].track_no {
            Some(t) => t,
            None => 0,
        }) == no
}

/// The key is that of a path of the plan.
pub open spec fn is_planned(paths: Seq<Seq<char>>, key: Seq<char>) -> bool {
    exists|i: int| 0 <= i < paths.len() && canonical(#[trigger] paths[i]) == key
}

fn planned_key(paths: &Vec<String>, key: &str) -> (r: bool)
    ensures
        r == is_planned(texts(paths@), key@),
{
    let ghost p = texts(paths@);
    let mut i: usize = 0;
    while i < paths.len()
        invariant
            i <= paths@.len(),
            p == texts(paths@),
            forall|k: int| 0 <= k < i ==> canonical(#[trigger] p[k]) != key@,
        decreases paths@.len() - i,
    {
        let k = canonical_key(&paths[i]);
        if same_text(&k, key) {
            proof {
                assert(canonical(p[i as int]) == key@);
            }
            return true;
        }
        i = i + 1;
    }
    false
}

fn is_number_taken(rows: &Vec<NumberedRow>, paths: &Vec<String>, disc: u32, no: u32) -> (r: bool)
    ensures
        r == number_taken(rows@, texts(paths@), disc, no),
{
    let mut i: usize = 0;
    while i < rows.len()
        invariant
            i <= rows@.len(),
            forall|k: int|
                0 <= k < i ==> !(!is_planned(texts(paths@), (#[trigger] rows@[k]).key@) && (match rows@[k].disc_no {
                    Some(d) => d,
                    None => 1,
                }) == disc && (match rows@[k].track_no {
                    Some(t) => t,
                    None => 0,
                }) == no),
        decreases rows@.len() - i,
    {
        let d: i64 = match rows[i].disc_no {
            Some(d) => d,
            None => 1,
        };
        let t: i64 = match rows[i].track_no {
            Some(t) => t,
            None => 0,
        };
        if d == disc as i64 && t == no as i64 && !planned_key(paths, &rows[i].key) {
            return true;
        }
        i = i + 1;
    }
    false
}

/// The first track of a draft whose numbers are taken.
pub open spec fn first_number_taken(
    rows: Seq<NumberedRow>,
    paths: Seq<Seq<char>>,
    tracks: Seq<DraftTrack>,
    i: int,
) -> bool {
    &&& 0 <= i < tracks.len()
    &&& number_taken(rows, paths, tracks[i].disc_no, tracks[i].track_no)
    &&& forall|k: int|
        0 <= k < i ==> !number_taken(rows, paths, (#[trigger] tracks[k]).disc_no, tracks[k].track_no)
}

/// Whether no track of the album has the numbers of one of the draft. Tracks at
/// the paths of the plan are those of an earlier run.
pub fn check_numbers_free(rows: &Vec<NumberedRow>, paths: &Vec<String>, draft: &InboxDraft) -> (r: Result<(), String>)
    ensures
        match r {
            Ok(()) => forall|i: int|
                0 <= i < draft.tracks@.len() ==> !number_taken(
                    rows@,
                    texts(paths@),
                    (#[trigger] draft.tracks@[i]).disc_no,
                    draft.tracks@[i].track_no,
                ),
            Err(m) => exists|i: int| #[trigger]
                first_number_taken(rows@, texts(paths@), draft.tracks@, i) && m@
                    == "宛先の album に同じ番号のトラックがある: disc "@ + int_text(draft.tracks@[i].disc_no as int)
                    + " track "@ + int_text(draft.tracks@[i].track_no as int),
        },
{
    let mut i: usize = 0;
    while i < draft.tracks.len()
        invariant
            i <= draft.tracks@.len(),
            forall|k: int|
                0 <= k < i ==> !number_taken(
                    rows@,
                    texts(paths@),
                    (#[trigger] draft.tracks@[k]).disc_no,
                    draft.tracks@[k].track_no,
                ),
        decreases draft.tracks@.len() - i,
    {
        let t = &draft.tracks[i];
        if is_number_taken(rows, paths, t.disc_no, t.track_no) {
            proof {
                assert(first_number_taken(rows@, texts(paths@), draft.tracks@, i as int));
            }
            let d = unsigned_to_text(t.disc_no as u64);
            let n = unsigned_to_text(t.track_no as u64);
            return Err(concat4("宛先の album に同じ番号のトラックがある: disc ", &d, " track ", &n));
        }
        i = i + 1;
    }
    Ok(())
}

/// Where a track comes from.
pub fn source_type(from_disc: bool) -> (r: String)
    ensures
        r@ == (if from_disc {
            "cd_rip"@
        } else {
            "download"@
        }),
{
    if from_disc {
        "cd_rip".to_owned()
    } else {
        "download".to_owned()
    }
}

/// The tracks in the order of the record of a disc. `index` holds the place of
/// each track in the record.
pub fn in_record_order(track_ids: &Vec<i64>, index: &Vec<usize>) -> (r: Vec<i64>)
    requires
        index@.len() == track_ids@.len(),
        index@.no_duplicates(),
        forall|i: int| 0 <= i < index@.len() ==> #[trigger] index@[i] < track_ids@.len(),
    ensures
        r@.len() == track_ids@.len(),
        forall|i: int| 0 <= i < index@.len() ==> r@[#[trigger] index@[i] as int] == track_ids@[i],
{
    let n: usize = track_ids.len();
    let mut ids: Vec<i64> = Vec::new();
    while ids.len() < n
        invariant
            ids@.len() <= n,
        decreases n - ids@.len(),
    {
        ids.push(0);
    }
    let mut i: usize = 0;
    while i < n
        invariant
            i <= n,
            n == track_ids@.len(),
            n == index@.len(),
            ids@.len() == n,
            index@.no_duplicates(),
            forall|k: int| 0 <= k < index@.len() ==> #[trigger] index@[k] < n,
            forall|k: int| 0 <= k < i ==> ids@[#[trigger] index@[k] as int] == track_ids@[k],
        decreases n - i,
    {
        let at: usize = index[i];
        let ghost before = ids@;
        ids.set(at, track_ids[i]);
        proof {
            assert forall|k: int| 0 <= k < i + 1 implies ids@[#[trigger] index@[k] as int] == track_ids@[k] by {
                if k < i {
                    assert(index@[k] != index@[i as int]);
                    assert(ids@[index@[k] as int] == before[index@[k] as int]);
                }
            }
        }
        i = i + 1;
    }
    ids
}

/// A job that measures loudness.
#[derive(Debug, Clone, Copy, PartialEq, Eq, Structural)]
pub enum LoudnessJob {
    Album(i64),
    Track(i64),
}

/// The jobs that measure loudness: one for an album that is levelled as a
/// whole, else one for each track.
pub fn loudness_jobs(album_gain: bool, album_id: i64, track_ids: &Vec<i64>) -> (r: Vec<LoudnessJob>)
    ensures
        r@ == (if album_gain {
            seq![LoudnessJob::Album(album_id)]
        } else {
            track_ids@.map_values(|id: i64| LoudnessJob::Track(id))
        }),
{
    let mut out: Vec<LoudnessJob> = Vec::new();
    if album_gain {
        out.push(LoudnessJob::Album(album_id));
        proof {
            assert(out@ =~= seq![LoudnessJob::Album(album_id)]);
        }
        return out;
    }
    let ghost want = track_ids@.map_values(|id: i64| LoudnessJob::Track(id));
    let mut i: usize = 0;
    while i < track_ids.len()
        invariant
            i <= track_ids@.len(),
            want == track_ids@.map_values(|id: i64| LoudnessJob::Track(id)),
            out@ == want.take(i as int),
        decreases track_ids@.len() - i,
    {
        out.push(LoudnessJob::Track(track_ids[i]));
        proof {
            assert(want.take(i + 1) =~= want.take(i as int).push(want[i as int]));
        }
        i = i + 1;
    }
    proof {
        assert(want.take(i as int) =~= want);
    }
    out
}

/// A file whose codec gives way to another one.
pub open spec fn is_normalized_codec(codec: Seq<char>) -> bool {
    codec == "wav"@ || codec == "alac"@ || codec == "aiff"@
}

/// The tracks among the first `n` whose files are normalised.
pub open spec fn normalized_tracks(
    track_ids: Seq<i64>,
    tracks: Seq<DraftTrack>,
    files: Seq<FileRow>,
    n: int,
) -> Seq<i64>
    decreases n,
{
    if n <= 0 {
        Seq::empty()
    } else {
        let r = normalized_tracks(track_ids, tracks, files, n - 1);
        match crate::import::destination::file_of(files, tracks[n - 1].rel_path@) {
            Some(f) => if is_normalized_codec(files[f].codec@) {
                r.push(track_ids[n - 1])
            } else {
                r
            },
            None => r,
        }
    }
}

/// The tracks whose files are normalised after they were placed.
pub fn tracks_to_normalize(track_ids: &Vec<i64>, draft: &InboxDraft, files: &Vec<FileRow>) -> (r: Vec<i64>)
    requires
        track_ids@.len() == draft.tracks@.len(),
    ensures
        r@ == normalized_tracks(track_ids@, draft.tracks@, files@, draft.tracks@.len() as int),
{
    let mut out: Vec<i64> = Vec::new();
    let mut i: usize = 0;
    while i < draft.tracks.len()
        invariant
            i <= draft.tracks@.len(),
            track_ids@.len() == draft.tracks@.len(),
            out@ == normalized_tracks(track_ids@, draft.tracks@, files@, i as int),
        decreases draft.tracks@.len() - i,
    {
        if let Some(f) = crate::import::destination::find_file(files, &draft.tracks[i].rel_path) {
            let c = &files[f].codec;
            if same_text(c, "wav") || same_text(c, "alac") || same_text(c, "aiff") {
                out.push(track_ids[i]);
            }
        }
        i = i + 1;
    }
    out
}

/// Where the log of a disc stands in the library: nowhere unless it was among
/// the files that came along.
pub fn log_path(companions: &Vec<String>, log: &str, rel_dir: &str) -> (r: Option<String>)
    ensures
        match r {
            Some(p) => p@ == rel_dir@ + "/"@ + log@ && exists|i: int|
                0 <= i < companions@.len() && canonical(file_name_of((#[trigger] companions@[i])@)) == canonical(log@),
            None => forall|i: int|
                0 <= i < companions@.len() ==> canonical(file_name_of((#[trigger] companions@[i])@)) != canonical(
                    log@,
                ),
        },
{
    let key = canonical_key(log);
    let mut i: usize = 0;
    while i < companions.len()
        invariant
            i <= companions@.len(),
            key@ == canonical(log@),
            forall|k: int|
                0 <= k < i ==> canonical(file_name_of((#[trigger] companions@[k])@)) != canonical(log@),
        decreases companions@.len() - i,
    {
        let name = file_name(&companions[i]);
        let k = canonical_key(&name);
        if same_text(&k, &key) {
            return Some(concat3(rel_dir, "/", log));
        }
        i = i + 1;
    }
    None
}

// ---------------------------------------------------------------- the whole of it

/// What came of placing an item.
#[derive(Debug)]
pub struct ItemPlaced {
    pub album_id: i64,
    pub rel_dir: String,
    /// In the order of the draft.
    pub track_ids: Vec<i64>,
    pub job_ids: Vec<i64>,
    pub normalize_batch: Option<i64>,
    /// The subscriptions that asked for something of the item.
    pub subscription_ids: Vec<i64>,
}

/// The steps of placing an item.
#[derive(Debug, Clone, Copy, PartialEq, Eq, Structural)]
pub enum PlaceStage {
    Validate,
    ReadSources,
    LoadPictures,
    BindDisc,
    Plan,
    PlaceFiles,
    /// See that the file which travels with the item is still the one that was read.
    CheckSidecar,
    Register,
    /// Remove the files from the inbox.
    Consume,
}

/// What follows a step.
#[derive(Debug, Clone, Copy, PartialEq, Eq, Structural)]
pub enum PlaceNext {
    Go(PlaceStage),
    Done,
    /// Give up; nothing has to be undone.
    Fail,
    /// Remove what was placed, and give up.
    FailAndCleanUp,
    Cancelled,
}

/// What follows a step of placing an item that succeeded or did not. Where placing
/// the files fails, or a step after it up to the registration, the files that were
/// placed are removed again. A cancellation counts before files are placed only.
pub open spec fn after_stage(stage: PlaceStage, ok: bool, cancelled: bool) -> PlaceNext {
    match stage {
        PlaceStage::Validate => if ok {
            PlaceNext::Go(PlaceStage::ReadSources)
        } else {
            PlaceNext::Fail
        },
        PlaceStage::ReadSources => if ok {
            PlaceNext::Go(PlaceStage::LoadPictures)
        } else {
            PlaceNext::Fail
        },
        PlaceStage::LoadPictures => if ok {
            PlaceNext::Go(PlaceStage::BindDisc)
        } else {
            PlaceNext::Fail
        },
        PlaceStage::BindDisc => if ok {
            PlaceNext::Go(PlaceStage::Plan)
        } else {
            PlaceNext::Fail
        },
        PlaceStage::Plan => if !ok {
            PlaceNext::Fail
        } else if cancelled {
            PlaceNext::Cancelled
        } else {
            PlaceNext::Go(PlaceStage::PlaceFiles)
        },
        PlaceStage::PlaceFiles => if ok {
            PlaceNext::Go(PlaceStage::CheckSidecar)
        } else {
            PlaceNext::FailAndCleanUp
        },
        PlaceStage::CheckSidecar => if ok {
            PlaceNext::Go(PlaceStage::Register)
        } else {
            PlaceNext::FailAndCleanUp
        },
        PlaceStage::Register => if ok {
            PlaceNext::Go(PlaceStage::Consume)
        } else {
            PlaceNext::FailAndCleanUp
        },
        PlaceStage::Consume => PlaceNext::Done,
    }
}

/// What follows a step of placing an item (see [`after_stage`]).
pub fn place_item(stage: PlaceStage, ok: bool, cancelled: bool) -> (r: PlaceNext)
    ensures
        r == after_stage(stage, ok, cancelled),
{
    match stage {
        PlaceStage::Validate => {
            if ok {
                PlaceNext::Go(PlaceStage::ReadSources)
            } else {
                PlaceNext::Fail
            }
        },
        PlaceStage::ReadSources => {
            if ok {
                PlaceNext::Go(PlaceStage::LoadPictures)
            } else {
                PlaceNext::Fail
            }
        },
        PlaceStage::LoadPictures => {
            if ok {
                PlaceNext::Go(PlaceStage::BindDisc)
            } else {
                PlaceNext::Fail
            }
        },
        PlaceStage::BindDisc => {
            if ok {
                PlaceNext::Go(PlaceStage::Plan)
            } else {
                PlaceNext::Fail
            }
        },
        PlaceStage::Plan => {
            if !ok {
                PlaceNext::Fail
            } else if cancelled {
                PlaceNext::Cancelled
            } else {
                PlaceNext::Go(PlaceStage::PlaceFiles)
            }
        },
        PlaceStage::PlaceFiles => {
            if ok {
                PlaceNext::Go(PlaceStage::CheckSidecar)
            } else {
                PlaceNext::FailAndCleanUp
            }
        },
        PlaceStage::CheckSidecar => {
            if ok {
                PlaceNext::Go(PlaceStage::Register)
            } else {
                PlaceNext::FailAndCleanUp
            }
        },
        PlaceStage::Register => {
            if ok {
                PlaceNext::Go(PlaceStage::Consume)
            } else {
                PlaceNext::FailAndCleanUp
            }
        },
        PlaceStage::Consume => PlaceNext::Done,
    }
}

/// Files may stand in the library that no row knows yet.
pub open spec fn files_at_risk(stage: PlaceStage) -> bool {
    stage == PlaceStage::PlaceFiles || stage == PlaceStage::CheckSidecar || stage == PlaceStage::Register
}

/// Giving up never leaves files in the library that no row knows, and the inbox
/// loses its files only after they are registered.
pub proof fn law_placing_leaves_nothing_behind(stage: PlaceStage, ok: bool, cancelled: bool)
    ensures
        files_at_risk(stage) && !ok ==> after_stage(stage, ok, cancelled) == PlaceNext::FailAndCleanUp,
        after_stage(stage, ok, cancelled) == PlaceNext::Fail || after_stage(stage, ok, cancelled)
            == PlaceNext::Cancelled ==> !files_at_risk(stage),
        after_stage(stage, ok, cancelled) == PlaceNext::Go(PlaceStage::Consume) ==> stage == PlaceStage::Register
            && ok,
        after_stage(stage, ok, cancelled) == PlaceNext::Done ==> stage == PlaceStage::Consume,
{
}

/// The failure of a draft that is not there or cannot be read.
pub fn no_draft(fault: Option<&str>) -> (r: InboxError)
    ensures
        r matches InboxError::Conflict(m) && m@ == (match fault {
            Some(e) => "下書きを読めない: "@ + e@,
            None => "下書きが無い"@,
        }),
{
    match fault {
        Some(e) => InboxError::Conflict(concat2("下書きを読めない: ", e)),
        None => InboxError::Conflict("下書きが無い".to_owned()),
    }
}

/// The failure of a record that does not match the item.
pub fn disc_mismatch(reason: &str) -> (r: InboxError)
    ensures
        r matches InboxError::Conflict(m) && m@ == "吸い出しの記録と件が合わない: "@ + reason@,
{
    InboxError::Conflict(concat2("吸い出しの記録と件が合わない: ", reason))
}

/// What a stat tells apart of a file that travels with an item: inode, size and
/// both times.
#[derive(Debug, Clone, Copy, PartialEq, Eq, Structural)]
pub struct SidecarKey {
    pub inode: u64,
    pub size: u64,
    pub mtime_ns: i64,
    pub ctime_ns: i64,
}

/// What a stat tells apart of a file that travels with an item.
pub fn sidecar_key(st: &Stat) -> (r: SidecarKey)
    ensures
        r == (SidecarKey { inode: st.inode, size: st.size, mtime_ns: st.mtime_ns, ctime_ns: st.ctime_ns }),
{
    SidecarKey { inode: st.inode, size: st.size, mtime_ns: st.mtime_ns, ctime_ns: st.ctime_ns }
}

/// Where the file that travels with an item stands; nowhere for what lies at
/// the root of the inbox.
pub fn sidecar_rel(rel_dir: &str) -> (r: Option<String>)
    ensures
        opt_text(r) == (if rel_dir@.len() == 0 {
            None
        } else {
            Some(joined_path(Some(rel_dir@), SIDECAR_NAME@))
        }),
{
    if rel_dir.is_empty() {
        None
    } else {
        Some(join_path(Some(rel_dir), SIDECAR_NAME))
    }
}

/// Whether the file that travels with an item is still the one that was read.
/// Otherwise nothing of it is registered.
pub fn sidecar_unchanged(read: &Option<SidecarKey>, now: &Option<SidecarKey>, rel_dir: &str) -> (r: Result<
    (),
    InboxError,
>)
    ensures
        match r {
            Ok(()) => *read == *now,
            Err(e) => *read != *now && (e matches InboxError::Changed(m) && m@ == rel_dir@ + "/"@ + SIDECAR_NAME@),
        },
{
    let same = match (read, now) {
        (None, None) => true,
        (Some(a), Some(b)) => *a == *b,
        _ => false,
    };
    if same {
        Ok(())
    } else {
        Err(InboxError::Changed(concat3(rel_dir, "/", SIDECAR_NAME)))
    }
}

/// The subscriptions that files of the item are for.
pub open spec fn subscriptions_of(files: Seq<(String, FileEntry)>) -> Seq<i64>
    decreases files.len(),
{
    if files.len() == 0 {
        Seq::empty()
    } else {
        let r = subscriptions_of(files.drop_last());
        match files.last().1.subscription_id {
            Some(id) => r.push(id),
            None => r,
        }
    }
}

/// The subscriptions that files of the item are for, each once, in order.
pub fn subscription_ids(sidecar: &Option<Sidecar>) -> (r: Vec<i64>)
    ensures
        sorted_set_of(
            r@,
            match *sidecar {
                Some(s) => subscriptions_of(s.files@),
                None => Seq::empty(),
            },
        ),
{
    let mut ids: Vec<i64> = Vec::new();
    if let Some(s) = sidecar {
        let mut i: usize = 0;
        while i < s.files.len()
            invariant
                i <= s.files@.len(),
                ids@ == subscriptions_of(s.files@.take(i as int)),
            decreases s.files@.len() - i,
        {
            proof {
                assert(s.files@.take(i + 1).last() == s.files@[i as int]);
                assert(s.files@.take(i + 1).drop_last() =~= s.files@.take(i as int));
            }
            if let Some(id) = s.files[i].1.subscription_id {
                ids.push(id);
            }
            i = i + 1;
        }
        proof {
            assert(s.files@.take(i as int) =~= s.files@);
        }
    }
    sorted_ids(&ids)
}

// ---------------------------------------------------------------- leaving the inbox

/// Whether a file of the inbox may be removed: it still looks as its row says.
pub fn may_remove(row: Option<&FileRow>, st: Option<&Stat>) -> (r: bool)
    ensures
        r == (row is Some && st is Some && row_fits(*row->0, *st->0)),
{
    match (row, st) {
        (Some(x), Some(s)) => stat_matches(x, s),
        _ => false,
    }
}

/// What came of discarding an item.
#[derive(Debug)]
pub enum DiscardOutcome {
    /// So many files of so many bytes are gone.
    Deleted { files: usize, bytes: u64 },
    /// Something changed since the files were listed; nothing was removed.
    Changed(String),
}

/// What an entry of the directory is when an item is discarded.
#[derive(Debug, Clone, Copy, PartialEq, Eq, Structural)]
pub enum DiscardEntry {
    Stays,
    Audio,
    Companion,
}

/// What an entry of the directory is when an item is discarded. Only plain
/// files go: music, and in a directory of its own what travels with it.
pub fn discard_entry(
    name: Option<&str>,
    kind: FileKind,
    valid: bool,
    audio: bool,
    companion: bool,
    in_dir: bool,
) -> (r: DiscardEntry)
    ensures
        r == (match name {
            None => DiscardEntry::Stays,
            Some(n) => if starts_with(n@, "."@) || kind != FileKind::File || !valid {
                DiscardEntry::Stays
            } else if audio {
                DiscardEntry::Audio
            } else if in_dir && companion {
                DiscardEntry::Companion
            } else {
                DiscardEntry::Stays
            },
        }),
{
    match name {
        None => DiscardEntry::Stays,
        Some(n) => {
            if has_prefix(n, ".") || kind != FileKind::File || !valid {
                DiscardEntry::Stays
            } else if audio {
                DiscardEntry::Audio
            } else if in_dir && companion {
                DiscardEntry::Companion
            } else {
                DiscardEntry::Stays
            }
        },
    }
}

/// A piece of music in the directory of an item that is discarded.
#[derive(Debug)]
pub struct DiscardFile {
    pub rel: String,
    pub st: Stat,
}

/// The row of the file with the key of the path, as in
/// [`crate::import::inbox::row_with_key`].
pub open spec fn discard_row(rows: Seq<FileRow>, f: DiscardFile) -> Option<int> {
    crate::import::inbox::row_with_key(rows, canonical(f.rel@))
}

/// The file is as it was listed.
pub open spec fn as_listed(rows: Seq<FileRow>, f: DiscardFile) -> bool {
    discard_row(rows, f) is Some && row_fits(rows[discard_row(rows, f)->0], f.st)
}

/// The first file that is not as it was listed.
pub open spec fn first_unlisted(rows: Seq<FileRow>, files: Seq<DiscardFile>, i: int) -> bool {
    &&& 0 <= i < files.len()
    &&& !as_listed(rows, files[i])
    &&& forall|k: int| 0 <= k < i ==> as_listed(rows, #[trigger] files[k])
}

/// Whether an item may be discarded: every piece of music in its directory is as
/// it was listed. Otherwise nothing is removed.
pub fn discard_item_files(rows: &Vec<FileRow>, files: &Vec<DiscardFile>) -> (r: Result<(), DiscardOutcome>)
    ensures
        match r {
            Ok(()) => forall|i: int| 0 <= i < files@.len() ==> as_listed(rows@, #[trigger] files@[i]),
            Err(o) => exists|i: int| #[trigger]
                first_unlisted(rows@, files@, i) && (o matches DiscardOutcome::Changed(m) && m@ == files@[i].rel@ + (
                if discard_row(rows@, files@[i]) is Some {
                    " が変わっている"@
                } else {
                    " が足されている"@
                })),
        },
{
    let mut i: usize = 0;
    while i < files.len()
        invariant
            i <= files@.len(),
            forall|k: int| 0 <= k < i ==> as_listed(rows@, #[trigger] files@[k]),
        decreases files@.len() - i,
    {
        let f = &files[i];
        let key = canonical_key(&f.rel);
        match crate::import::inbox::find_row_with_key(rows, &key) {
            Some(x) => {
                if !stat_matches(&rows[x], &f.st) {
                    proof {
                        assert(first_unlisted(rows@, files@, i as int));
                    }
                    return Err(DiscardOutcome::Changed(concat2(&f.rel, " が変わっている")));
                }
            },
            None => {
                proof {
                    assert(first_unlisted(rows@, files@, i as int));
                }
                return Err(DiscardOutcome::Changed(concat2(&f.rel, " が足されている")));
            },
        }
        i = i + 1;
    }
    Ok(())
}

/// How removing a file went.
#[derive(Debug, Clone, Copy, PartialEq, Eq, Structural)]
pub enum Removal {
    Removed,
    Gone,
    Failed,
}

/// Counts a file that was removed, with its size.
pub fn count_removal(files: usize, bytes: u64, removal: Removal, size: u64) -> (r: (usize, u64))
    requires
        files < usize::MAX,
        bytes + size <= u64::MAX,
    ensures
        r == (if removal == Removal::Removed {
            ((files + 1) as usize, (bytes + size) as u64)
        } else {
            (files, bytes)
        }),
{
    if removal == Removal::Removed {
        (files + 1, bytes + size)
    } else {
        (files, bytes)
    }
}

// ---------------------------------------------------------------- laws

/// What an item is planned under: the release it names, else that of the album it was in before, else that
/// of the album it joins; two items with none of these are planned under two names.
pub proof fn law_release_of_a_plan(
    mb: Option<Seq<char>>,
    own: Option<Seq<char>>,
    album_id: Option<i64>,
    item_id: i64,
    other: i64,
)
    ensures
        mb matches Some(m) ==> planned_release(mb, own, album_id, item_id) == mb_key_text(m),
        mb is None ==> (own matches Some(o) ==> planned_release(mb, own, album_id, item_id) == o),
        mb is None && own is None ==> (album_id matches Some(a) ==> planned_release(mb, own, album_id, item_id)
            == release_key_text(a, None)),
        mb is None && own is None && album_id is None && item_id != other ==> planned_release(
            mb,
            own,
            album_id,
            item_id,
        ) != planned_release(mb, own, album_id, other),
{
    let p = "inbox:"@;
    let a = p + int_text(item_id as int);
    let b = p + int_text(other as int);
    if item_id != other && a == b {
        assert(a.skip(p.len() as int) =~= int_text(item_id as int));
        assert(b.skip(p.len() as int) =~= int_text(other as int));
        lemma_int_text_injective(item_id as int, other as int);
    }
}

/// Two files sound alike where both were fingerprinted in the same way and the fingerprints agree; of a
/// fingerprint that is not known nothing is concluded.
pub proof fn law_same_sound(x: [u8; 16], y: [u8; 16], u: [u8; 32], v: [u8; 32], a: Fingerprint, b: Fingerprint)
    ensures
        one_sound(Fingerprint::Md5(Some(x)), Fingerprint::Md5(Some(y))) <==> x == y,
        one_sound(Fingerprint::Fp(Some(u)), Fingerprint::Fp(Some(v))) <==> u == v,
        one_sound(a, b) == one_sound(b, a),
        one_sound(a, b) ==> a == b,
        !one_sound(Fingerprint::Md5(None), b) && !one_sound(Fingerprint::Fp(None), b),
        a is Md5 && b is Fp ==> !one_sound(a, b),
{
}

/// Where a front picture was chosen it has to stand in the file as its front picture.
pub proof fn law_chosen_picture_is_in_front(h: [u8; 32], pictures: Seq<PlacedPicture>, i: int)
    ensures
        picture_in_place(None, pictures),
        0 <= i < pictures.len() && pictures[i].front && pictures[i].hash == h ==> picture_in_place(Some(h), pictures),
        (forall|k: int| 0 <= k < pictures.len() ==> !(#[trigger] pictures[k]).front || pictures[k].hash != h)
            ==> !picture_in_place(Some(h), pictures),
{
}

/// A picture that a track asks for and that is not stored is missed, once.
pub proof fn law_lacking_pictures_are_named(tracks: Seq<DraftTrack>, stored: Seq<bool>, n: int, i: int)
    requires
        0 <= i < n <= tracks.len(),
    ensures
        tracks[i].picture matches Some(p) ==> (picture_parts(p@) is Some && !stored[i] ==> lacking_pictures(
            tracks,
            stored,
            n,
        ).contains(p@)),
        lacking_pictures(tracks, stored, n).no_duplicates(),
    decreases n,
{
    let r = lacking_pictures(tracks, stored, n - 1);
    if n - 1 > 0 {
        law_lacking_pictures_are_named(tracks, stored, n - 1, if i < n - 1 {
            i
        } else {
            0
        });
    } else {
        assert(r =~= Seq::empty());
    }
    if tracks[i].picture is Some && picture_parts(tracks[i].picture->0@) is Some && !stored[i] {
        let p = tracks[i].picture->0@;
        if r.contains(p) {
            let k = choose|k: int| 0 <= k < r.len() && r[k] == p;
            assert(lacking_pictures(tracks, stored, n)[k] == p);
        } else {
            assert(lacking_pictures(tracks, stored, n).last() == p);
        }
    }
}

/// Only a picture that a track asks for and that is not stored is missed.
pub proof fn law_stored_pictures_are_not_missed(tracks: Seq<DraftTrack>, stored: Seq<bool>, n: int, k: int) -> (i: int)
    requires
        0 <= n,
        0 <= k < lacking_pictures(tracks, stored, n).len(),
    ensures
        0 <= i < n,
        tracks[i].picture matches Some(p) && p@ == lacking_pictures(tracks, stored, n)[k],
        !stored[i],
    decreases n,
{
    if k < lacking_pictures(tracks, stored, n - 1).len() {
        law_stored_pictures_are_not_missed(tracks, stored, n - 1, k)
    } else {
        n - 1
    }
}

/// What giving up has to take away again: each file that was put in place anew, and none that stood there
/// before.
pub proof fn law_new_files_are_remembered(paths: Seq<Seq<char>>, placed: Seq<PlacedFile>, n: int, i: int)
    requires
        0 <= i < n <= placed.len(),
    ensures
        placed[i] == PlacedFile::New ==> newly_placed(paths, placed, n).contains(paths[i]),
    decreases n,
{
    let r = newly_placed(paths, placed, n - 1);
    if placed[i] == PlacedFile::New {
        if i < n - 1 {
            law_new_files_are_remembered(paths, placed, n - 1, i);
            let k = choose|k: int| 0 <= k < r.len() && r[k] == paths[i];
            assert(newly_placed(paths, placed, n)[k] == paths[i]);
        } else {
            assert(newly_placed(paths, placed, n).last() == paths[i]);
        }
    }
}

/// No file that stood there before is taken away again.
pub proof fn law_reused_files_are_kept(paths: Seq<Seq<char>>, placed: Seq<PlacedFile>, n: int, k: int) -> (i: int)
    requires
        0 <= n,
        0 <= k < newly_placed(paths, placed, n).len(),
    ensures
        0 <= i < n,
        placed[i] == PlacedFile::New,
        newly_placed(paths, placed, n)[k] == paths[i],
    decreases n,
{
    if k < newly_placed(paths, placed, n - 1).len() {
        law_reused_files_are_kept(paths, placed, n - 1, k)
    } else {
        n - 1
    }
}

/// A companion that was put in place anew leaves the inbox and is taken away again where the placing is
/// given up; one that stood there before leaves the inbox only; one that found its place taken does neither.
pub proof fn law_companions_travel(c: Seq<Companion>, i: int)
    requires
        0 <= i < c.len(),
    ensures
        c[i].step == CompanionStep::Placed ==> new_companions(c).contains(c[i].to@) && leaving_companions(c).contains(
            c[i].from@,
        ),
        c[i].step == CompanionStep::Taken ==> leaving_companions(c).contains(c[i].from@),
        (forall|k: int| 0 <= k < c.len() ==> (#[trigger] c[k]).step != CompanionStep::Placed) ==> new_companions(
            c,
        ).len() == 0,
        (forall|k: int|
            0 <= k < c.len() ==> (#[trigger] c[k]).step != CompanionStep::Placed && c[k].step != CompanionStep::Taken)
            ==> leaving_companions(c).len() == 0,
    decreases c.len(),
{
    let d = c.drop_last();
    let a = new_companions(d);
    let b = leaving_companions(d);
    assert(c.last() == c[c.len() - 1]);
    assert forall|k: int| 0 <= k < d.len() implies #[trigger] d[k] == c[k] by {}
    if d.len() > 0 {
        law_companions_travel(d, if i < d.len() {
            i
        } else {
            0
        });
    }
    if i < d.len() {
        if a.contains(c[i].to@) {
            let k = choose|k: int| 0 <= k < a.len() && a[k] == c[i].to@;
            assert(new_companions(c)[k] == c[i].to@);
        }
        if b.contains(c[i].from@) {
            let k = choose|k: int| 0 <= k < b.len() && b[k] == c[i].from@;
            assert(leaving_companions(c)[k] == c[i].from@);
        }
    } else {
        if c[i].step == CompanionStep::Placed {
            assert(new_companions(c).last() == c[i].to@);
        }
        if c[i].step == CompanionStep::Placed || c[i].step == CompanionStep::Taken {
            assert(leaving_companions(c).last() == c[i].from@);
        }
    }
}

/// A number is taken where a track of the album that is not replaced by the plan has it on the disc; a track
/// without a disc counts for the first one.
pub proof fn law_taken_numbers(rows: Seq<NumberedRow>, paths: Seq<Seq<char>>, i: int, disc: u32, no: u32)
    ensures
        0 <= i < rows.len() && rows[i].disc_no == Some(disc as i64) && rows[i].track_no == Some(no as i64) && (forall|
            p: int,
        | 0 <= p < paths.len() ==> canonical(#[trigger] paths[p]) != rows[i].key@) ==> number_taken(
            rows,
            paths,
            disc,
            no,
        ),
        0 <= i < rows.len() && rows[i].disc_no is None && rows[i].track_no == Some(no as i64) && (forall|p: int|
            0 <= p < paths.len() ==> canonical(#[trigger] paths[p]) != rows[i].key@) ==> number_taken(rows, paths, 1, no),
        no > 0 && (forall|k: int| 0 <= k < rows.len() ==> (#[trigger] rows[k]).track_no != Some(no as i64))
            ==> !number_taken(rows, paths, disc, no),
        disc > 1 && (forall|k: int| 0 <= k < rows.len() ==> (#[trigger] rows[k]).disc_no != Some(disc as i64))
            ==> !number_taken(rows, paths, disc, no),
        (forall|k: int|
            0 <= k < rows.len() ==> exists|p: int|
                0 <= p < paths.len() && canonical(#[trigger] paths[p]) == (#[trigger] rows[k]).key@) ==> !number_taken(
            rows,
            paths,
            disc,
            no,
        ),
{
    if number_taken(rows, paths, disc, no) {
        let k = choose|k: int|
            0 <= k < rows.len() && !is_planned(paths, (#[trigger] rows[k]).key@) && (match rows[k].disc_no {
                Some(d) => d,
                None => 1,
            }) == disc && (match rows[k].track_no {
                Some(t) => t,
                None => 0,
            }) == no;
        assert(!is_planned(paths, rows[k].key@));
    }
}

/// The sounds that are turned into FLAC later on are those that are stored without loss in another form.
pub proof fn law_what_is_normalised_after_placing(
    track_ids: Seq<i64>,
    tracks: Seq<DraftTrack>,
    files: Seq<FileRow>,
    n: int,
    i: int,
    f: int,
)
    requires
        0 <= i < n <= tracks.len(),
        0 <= f < files.len(),
        crate::import::destination::file_of(files, tracks[i].rel_path@) == Some(f),
    ensures
        files[f].codec@ == "wav"@ || files[f].codec@ == "alac"@ || files[f].codec@ == "aiff"@ ==> normalized_tracks(
            track_ids,
            tracks,
            files,
            n,
        ).contains(track_ids[i]),
        !is_normalized_codec("flac"@) && !is_normalized_codec("mp3"@) && !is_normalized_codec("aac"@)
            && !is_normalized_codec("opus"@) && !is_normalized_codec("vorbis"@),
    decreases n,
{
    reveal_strlit("wav");
    reveal_strlit("alac");
    reveal_strlit("aiff");
    reveal_strlit("flac");
    reveal_strlit("mp3");
    reveal_strlit("aac");
    reveal_strlit("opus");
    reveal_strlit("vorbis");
    assert("wav"@[0] == 'w' && "alac"@[0] == 'a' && "aiff"@[0] == 'a' && "flac"@[0] == 'f' && "mp3"@[0] == 'm');
    assert("aac"@.len() == 3 && "alac"@.len() == 4 && "aiff"@.len() == 4 && "opus"@[0] == 'o' && "vorbis"@[0] == 'v');
    let r = normalized_tracks(track_ids, tracks, files, n - 1);
    if is_normalized_codec(files[f].codec@) {
        if i < n - 1 {
            law_what_is_normalised_after_placing(track_ids, tracks, files, n - 1, i, f);
            let k = choose|k: int| 0 <= k < r.len() && r[k] == track_ids[i];
            assert(normalized_tracks(track_ids, tracks, files, n)[k] == track_ids[i]);
        } else {
            assert(normalized_tracks(track_ids, tracks, files, n).last() == track_ids[i]);
        }
    }
}

/// An item is placed step by step, each only after the one before it went well: nothing is put in place
/// before it is planned, and nothing is registered before it is in place and the item was found unchanged.
/// It can be cancelled up to the moment in which the first file would be put in place.
pub proof fn law_placing_in_order(stage: PlaceStage, ok: bool, cancelled: bool)
    ensures
        after_stage(PlaceStage::Validate, true, cancelled) == PlaceNext::Go(PlaceStage::ReadSources),
        after_stage(PlaceStage::ReadSources, true, cancelled) == PlaceNext::Go(PlaceStage::LoadPictures),
        after_stage(PlaceStage::LoadPictures, true, cancelled) == PlaceNext::Go(PlaceStage::BindDisc),
        after_stage(PlaceStage::BindDisc, true, cancelled) == PlaceNext::Go(PlaceStage::Plan),
        after_stage(PlaceStage::Plan, true, false) == PlaceNext::Go(PlaceStage::PlaceFiles),
        after_stage(PlaceStage::Plan, true, true) == PlaceNext::Cancelled,
        after_stage(PlaceStage::PlaceFiles, true, cancelled) == PlaceNext::Go(PlaceStage::CheckSidecar),
        after_stage(PlaceStage::CheckSidecar, true, cancelled) == PlaceNext::Go(PlaceStage::Register),
        after_stage(PlaceStage::Register, true, cancelled) == PlaceNext::Go(PlaceStage::Consume),
        after_stage(PlaceStage::Consume, ok, cancelled) == PlaceNext::Done,
        after_stage(stage, ok, cancelled) is Cancelled ==> stage == PlaceStage::Plan && cancelled,
        !ok && stage != PlaceStage::Consume ==> after_stage(stage, ok, cancelled) is Fail || after_stage(
            stage,
            ok,
            cancelled,
        ) is FailAndCleanUp,
{
}

/// The subscriptions of an item are those of its files.
pub proof fn law_subscriptions_of_the_files(files: Seq<(String, FileEntry)>, i: int, id: i64)
    ensures
        0 <= i < files.len() && files[i].1.subscription_id == Some(id) ==> subscriptions_of(files).contains(id),
        subscriptions_of(files).contains(id) ==> exists|k: int|
            0 <= k < files.len() && (#[trigger] files[k]).1.subscription_id == Some(id),
    decreases files.len(),
{
    if files.len() > 0 {
        let d = files.drop_last();
        let r = subscriptions_of(d);
        law_subscriptions_of_the_files(d, i, id);
        assert(files.last() == files[files.len() - 1]);
        if 0 <= i < files.len() && files[i].1.subscription_id == Some(id) {
            if i < d.len() {
                assert(d[i] == files[i]);
                let k = choose|k: int| 0 <= k < r.len() && r[k] == id;
                assert(subscriptions_of(files)[k] == id);
            } else {
                assert(subscriptions_of(files).last() == id);
            }
        }
        if subscriptions_of(files).contains(id) {
            let k = choose|k: int| 0 <= k < subscriptions_of(files).len() && subscriptions_of(files)[k] == id;
            if k < r.len() {
                assert(r[k] == id);
                let x = choose|x: int| 0 <= x < d.len() && (#[trigger] d[x]).1.subscription_id == Some(id);
                assert(files[x] == d[x]);
            }
        }
    }
}

/// An item is discarded only as it was listed: each file has its row, and stands as the row says.
pub proof fn law_discarded_as_listed(rows: Seq<FileRow>, f: DiscardFile)
    requires
        as_listed(rows, f),
    ensures
        exists|i: int|
            0 <= i < rows.len() && canonical((#[trigger] rows[i]).rel_path@) == canonical(f.rel@) && rows[i].size
                == f.st.size as i64 && rows[i].inode == f.st.inode as i64 && rows[i].mtime_ns == f.st.mtime_ns
                && rows[i].ctime_ns == f.st.ctime_ns,
{
    law_row_of_a_file(rows, canonical(f.rel@));
}

/// The directories that are cleared away lie above the one that was left, below or at the topmost one.
pub proof fn law_cleared_directories_lie_above(dir: Seq<char>, top: Seq<char>, k: int)
    requires
        0 <= k < dirs_above(dir, top).len(),
    ensures
        starts_with(dir, dirs_above(dir, top)[k] + seq!['/']),
        key_len(top) <= key_len(dirs_above(dir, top)[k]),
    decreases dir.len(),
{
    let d = parent_of(dir)->0;
    lemma_last_index(dir, '/');
    let i = last_index(dir, '/')->0;
    assert(d + seq!['/'] =~= dir.take(i + 1));
    assert(dir.take((d + seq!['/']).len() as int) =~= d + seq!['/']);
    if k > 0 {
        law_cleared_directories_lie_above(d, top, k - 1);
        let x = dirs_above(d, top)[k - 1] + seq!['/'];
        assert(dirs_above(dir, top)[k] == dirs_above(d, top)[k - 1]);
        assert(dir.take(x.len() as int) =~= d.take(x.len() as int));
    }
}

/// The files of an item stay together: they are scattered where two of them would go to different directories.
pub proof fn law_scattered_files(planned: Seq<Planned>, i: int)
    requires
        0 <= i < planned.len(),
        forall|k: int| 0 <= k < planned.len() ==> #[trigger] planned[k] is Path,
    ensures
        parent_of(planned[i]->Path_0@) != parent_of(planned[0]->Path_0@) ==> scattered(planned),
        (forall|k: int| 0 <= k < planned.len() ==> parent_of((#[trigger] planned[k])->Path_0@) == parent_of(
            planned[0]->Path_0@,
        )) ==> !scattered(planned),
{
    if parent_of(planned[i]->Path_0@) != parent_of(planned[0]->Path_0@) {
        assert(parent_of(path_text(planned, i)) != parent_of(path_text(planned, 0)));
    }
    if scattered(planned) {
        let k = choose|k: int|
            0 <= k < planned.len() && parent_of(#[trigger] path_text(planned, k)) != parent_of(path_text(planned, 0));
        assert(planned[k] is Path);
    }
}

/// The directories above a path are its starts: the first part of it, the first two, and so on.
pub proof fn law_directories_above(top: Seq<char>, rest: Seq<char>)
    requires
        !top.contains('/'),
    ensures
        path_prefix(top + seq!['/'] + rest, 1) == top,
        path_prefix(top, 1) == top,
{
    law_split_at_the_first_separator(top, rest, '/');
    law_unsplit_text(top, '/');
    assert(split_on(top + seq!['/'] + rest, '/').take(1) =~= seq![top]);
    assert(split_on(top, '/').take(1) =~= seq![top]);
    assert(joined(seq![top], "/"@) == top);
}

} // verus!
