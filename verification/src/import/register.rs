//! Registering an item of the inbox: everything that its files become in the
//! catalogue, written at once or not at all.

use crate::catalog::Fingerprint;
use crate::edit::batch::BatchEvent;
use crate::edit::tags::Prepared;
use crate::import::commit::extend_ids;
use crate::import::destination::{
    files_from_disc, first_taken, fits, fits_plain_album, incoming_is_cd, rows_from_disc, AlbumRow,
};
use crate::import::draft::{DraftTrack, InboxDraft};
use crate::import::inbox::{InboxError, RipBinding};
use crate::import::place::{
    check_numbers_free, first_number_taken, in_record_order, number_taken, subscription_ids, subscriptions_of,
    ItemPlaced, NumberedRow,
};
use crate::import::placement::{register_track, sounds_like, ExistingTrack, Registered, TrackDecision};
use crate::import::proposal::FileRow;
use crate::import::sidecar::Sidecar;
use crate::lists::sorted_set_of;
use crate::text::{concat2, concat3, int_text, int_to_text, opt_text, texts};
use vstd::prelude::*;
use vstd::string::*;

verus! {

// ---------------------------------------------------------------- the order of it

/// The steps of registering an item, all in one transaction.
#[derive(Debug, Clone, Copy, PartialEq, Eq, Structural)]
pub enum RegisterStage {
    /// Find the album of the directory, or make one.
    Album,
    /// See that the album takes the tracks.
    Fit,
    /// Find or make the row of each file.
    Tracks,
    /// Keep what the record of the disc says.
    Record,
    /// Set how the album is levelled, and queue what follows from the new tracks.
    Jobs,
    /// Record the batch that normalises them.
    Normalize,
    /// Count the item as placed, and end the transaction.
    Finish,
}

/// What follows a step.
#[derive(Debug)]
pub enum RegisterNext {
    Go(RegisterStage),
    Done,
    /// Undo everything that the transaction wrote.
    Undo(InboxError),
}

/// What the item asks for beside its tracks.
#[derive(Debug, Clone, Copy, PartialEq, Eq, Structural)]
pub struct RegisterWants {
    /// It has the record of a disc that is not kept yet.
    pub record: bool,
    /// Some of its tracks are to be normalised.
    pub normalize: bool,
}

/// The step after a step; none at the end.
pub open spec fn step_after(stage: RegisterStage, wants: RegisterWants) -> Option<RegisterStage> {
    match stage {
        RegisterStage::Album => Some(RegisterStage::Fit),
        RegisterStage::Fit => Some(RegisterStage::Tracks),
        RegisterStage::Tracks => if wants.record {
            Some(RegisterStage::Record)
        } else {
            Some(RegisterStage::Jobs)
        },
        RegisterStage::Record => Some(RegisterStage::Jobs),
        RegisterStage::Jobs => if wants.normalize {
            Some(RegisterStage::Normalize)
        } else {
            Some(RegisterStage::Finish)
        },
        RegisterStage::Normalize => Some(RegisterStage::Finish),
        RegisterStage::Finish => None,
    }
}

/// What follows a step that ended with `fault`, or well where there is none.
pub open spec fn after_step(stage: RegisterStage, fault: Option<InboxError>, wants: RegisterWants) -> RegisterNext {
    match fault {
        Some(e) => RegisterNext::Undo(e),
        None => match step_after(stage, wants) {
            Some(next) => RegisterNext::Go(next),
            None => RegisterNext::Done,
        },
    }
}

/// What follows a step of registering an item. Any fault undoes all of it.
pub fn register_item(stage: RegisterStage, fault: Option<InboxError>, wants: RegisterWants) -> (r: RegisterNext)
    ensures
        r == after_step(stage, fault, wants),
{
    if let Some(e) = fault {
        return RegisterNext::Undo(e);
    }
    match stage {
        RegisterStage::Album => RegisterNext::Go(RegisterStage::Fit),
        RegisterStage::Fit => RegisterNext::Go(RegisterStage::Tracks),
        RegisterStage::Tracks => {
            if wants.record {
                RegisterNext::Go(RegisterStage::Record)
            } else {
                RegisterNext::Go(RegisterStage::Jobs)
            }
        },
        RegisterStage::Record => RegisterNext::Go(RegisterStage::Jobs),
        RegisterStage::Jobs => {
            if wants.normalize {
                RegisterNext::Go(RegisterStage::Normalize)
            } else {
                RegisterNext::Go(RegisterStage::Finish)
            }
        },
        RegisterStage::Normalize => RegisterNext::Go(RegisterStage::Finish),
        RegisterStage::Finish => RegisterNext::Done,
    }
}

/// An item is registered as a whole or not at all: a fault at any step undoes
/// everything, and the end is reached only without one. What the item asks for is
/// never passed over.
pub proof fn law_registered_as_a_whole(stage: RegisterStage, fault: Option<InboxError>, wants: RegisterWants)
    ensures
        fault is Some <==> after_step(stage, fault, wants) is Undo,
        after_step(stage, fault, wants) is Done ==> stage == RegisterStage::Finish && fault is None,
        fault is None && stage == RegisterStage::Tracks && wants.record ==> after_step(stage, fault, wants)
            == RegisterNext::Go(RegisterStage::Record),
        fault is None && stage == RegisterStage::Jobs && wants.normalize ==> after_step(stage, fault, wants)
            == RegisterNext::Go(RegisterStage::Normalize),
{
}

// ---------------------------------------------------------------- the album

/// The album has no release of its own.
pub open spec fn is_plain(mb: Option<Seq<char>>) -> bool {
    mb is None || mb->0.len() == 0
}

/// The discs of the tracks of a draft.
pub open spec fn discs_of(tracks: Seq<DraftTrack>) -> Seq<u32> {
    tracks.map_values(|t: DraftTrack| t.disc_no)
}

/// Some track of the draft has numbers that are taken.
pub open spec fn some_number_taken(rows: Seq<NumberedRow>, paths: Seq<Seq<char>>, tracks: Seq<DraftTrack>) -> bool {
    exists|i: int|
        0 <= i < tracks.len() && number_taken(rows, paths, (#[trigger] tracks[i]).disc_no, tracks[i].track_no)
}

/// `m` says which numbers are taken.
pub open spec fn number_reason(
    m: Seq<char>,
    rows: Seq<NumberedRow>,
    paths: Seq<Seq<char>>,
    tracks: Seq<DraftTrack>,
) -> bool {
    exists|i: int| #[trigger]
        first_number_taken(rows, paths, tracks, i) && m == "宛先の album に同じ番号のトラックがある: disc "@ + int_text(
            tracks[i].disc_no as int,
        ) + " track "@ + int_text(tracks[i].track_no as int)
}

/// `m` says why a plain album does not take the item.
pub open spec fn fit_reason(m: Seq<char>, rows: Seq<AlbumRow>, incoming_cd: bool, discs: Seq<u32>) -> bool {
    if incoming_cd != rows_from_disc(rows) {
        m == (if incoming_cd {
            "CD の件を CD でない album に入れない"@
        } else {
            "CD でない件を CD の album に入れない"@
        })
    } else {
        exists|i: int| #[trigger]
            first_taken(rows, discs, i) && m == "album に同じディスク番号 "@ + int_text(discs[i] as int)
                + " の盤が既にある"@
    }
}

/// Whether the album that was found takes the item: no other track of it has the
/// numbers of one of the item, and an album without a release does not mix what
/// comes from discs with what does not. Both may have changed since the item was
/// planned.
pub fn album_takes(
    numbered: &Vec<NumberedRow>,
    rows: &Vec<AlbumRow>,
    mb: &Option<String>,
    paths: &Vec<String>,
    draft: &InboxDraft,
    files: &Vec<FileRow>,
) -> (r: Result<(), InboxError>)
    ensures
        ({
            let taken = some_number_taken(numbered@, texts(paths@), draft.tracks@);
            let cd = files_from_disc(files@);
            let discs = discs_of(draft.tracks@);
            let mixes = is_plain(opt_text(*mb)) && !fits(rows@, cd, discs);
            match r {
                Ok(()) => !taken && !mixes,
                Err(InboxError::Conflict(m)) => if taken {
                    number_reason(m@, numbered@, texts(paths@), draft.tracks@)
                } else {
                    mixes && fit_reason(m@, rows@, cd, discs)
                },
                Err(_) => false,
            }
        }),
{
    match check_numbers_free(numbered, paths, draft) {
        Err(m) => {
            proof {
                let i = choose|i: int| #[trigger]
                    first_number_taken(numbered@, texts(paths@), draft.tracks@, i) && m@
                        == "宛先の album に同じ番号のトラックがある: disc "@ + int_text(
                        draft.tracks@[i].disc_no as int,
                    ) + " track "@ + int_text(draft.tracks@[i].track_no as int);
                assert(number_taken(
                    numbered@,
                    texts(paths@),
                    draft.tracks@[i].disc_no,
                    draft.tracks@[i].track_no,
                ));
            }
            return Err(InboxError::Conflict(m));
        },
        Ok(()) => {},
    }
    let plain = match mb {
        Some(m) => m.as_str().is_empty(),
        None => true,
    };
    if !plain {
        return Ok(());
    }
    let mut discs: Vec<u32> = Vec::new();
    let mut i: usize = 0;
    while i < draft.tracks.len()
        invariant
            i <= draft.tracks@.len(),
            discs@ == discs_of(draft.tracks@).take(i as int),
        decreases draft.tracks@.len() - i,
    {
        discs.push(draft.tracks[i].disc_no);
        i = i + 1;
        proof {
            assert(discs@ =~= discs_of(draft.tracks@).take(i as int));
        }
    }
    proof {
        assert(discs_of(draft.tracks@).take(i as int) =~= discs_of(draft.tracks@));
    }
    match fits_plain_album(rows, incoming_is_cd(files), &discs) {
        Ok(()) => Ok(()),
        Err(m) => Err(InboxError::Conflict(m)),
    }
}

// ---------------------------------------------------------------- the tracks

/// The row that stands at the path of the file `i` has another sound.
pub open spec fn clashes(existing: Seq<Option<ExistingTrack>>, fps: Seq<Fingerprint>, i: int) -> bool {
    existing[i] is Some && !sounds_like(fps[i], existing[i]->0)
}

/// The first file at whose path a row of another sound stands.
pub open spec fn first_clash(existing: Seq<Option<ExistingTrack>>, fps: Seq<Fingerprint>, i: int) -> bool {
    &&& 0 <= i < existing.len()
    &&& clashes(existing, fps, i)
    &&& forall|k: int| 0 <= k < i ==> !#[trigger] clashes(existing, fps, k)
}

/// The row that a file gets: the one at its path, none where it is to be made.
pub open spec fn adopted(e: Option<ExistingTrack>) -> Option<Registered> {
    match e {
        Some(x) => Some(Registered { id: x.id, adopted: true, audio_version: x.audio_version }),
        None => None,
    }
}

/// The rows that the files of an item get, in order: the one at the path of a file
/// if it has the same sound, none where one is to be made. The first file at whose
/// path another sound stands ends it.
pub fn register_tracks(existing: &Vec<Option<ExistingTrack>>, fps: &Vec<Fingerprint>, paths: &Vec<String>) -> (r: Result<
    Vec<Option<Registered>>,
    InboxError,
>)
    requires
        fps@.len() == existing@.len(),
        paths@.len() == existing@.len(),
    ensures
        match r {
            Ok(v) => {
                &&& v@ == existing@.map_values(|e: Option<ExistingTrack>| adopted(e))
                &&& forall|i: int| 0 <= i < existing@.len() ==> !#[trigger] clashes(existing@, fps@, i)
            },
            Err(InboxError::Conflict(m)) => exists|i: int| #[trigger]
                first_clash(existing@, fps@, i) && m@ == paths@[i]@ + ": 別の音声の行（track "@ + int_text(
                    (existing@[i]->0).id as int,
                ) + "）が既にある"@,
            Err(_) => false,
        },
{
    let mut out: Vec<Option<Registered>> = Vec::new();
    let mut i: usize = 0;
    while i < existing.len()
        invariant
            fps@.len() == existing@.len(),
            paths@.len() == existing@.len(),
            i <= existing@.len(),
            out@ == existing@.map_values(|e: Option<ExistingTrack>| adopted(e)).take(i as int),
            forall|k: int| 0 <= k < i ==> !#[trigger] clashes(existing@, fps@, k),
        decreases existing@.len() - i,
    {
        match register_track(existing[i], fps[i], &paths[i]) {
            TrackDecision::Insert => {
                out.push(None);
            },
            TrackDecision::Adopt(row) => {
                out.push(Some(row));
            },
            TrackDecision::Conflict(m) => {
                proof {
                    assert(first_clash(existing@, fps@, i as int));
                }
                return Err(InboxError::Conflict(m));
            },
        }
        proof {
            assert(!clashes(existing@, fps@, i as int));
            assert(out@ =~= existing@.map_values(|e: Option<ExistingTrack>| adopted(e)).take(i + 1));
        }
        i = i + 1;
    }
    proof {
        assert(out@ =~= existing@.map_values(|e: Option<ExistingTrack>| adopted(e)));
    }
    Ok(out)
}

// ---------------------------------------------------------------- the record of a disc

/// The tracks in the order of the record of the disc, where there is one that is
/// not kept yet. A record that all tracks have is not written again: an earlier run
/// got that far.
pub fn rip_record(rip: &Option<RipBinding>, recorded: bool, track_ids: &Vec<i64>) -> (r: Option<Vec<i64>>)
    requires
        rip matches Some(b) ==> {
            &&& b.index@.len() == track_ids@.len()
            &&& b.index@.no_duplicates()
            &&& forall|i: int| 0 <= i < b.index@.len() ==> #[trigger] b.index@[i] < track_ids@.len()
        },
    ensures
        match r {
            Some(v) => {
                &&& rip is Some && !recorded
                &&& v@.len() == track_ids@.len()
                &&& forall|i: int|
                    0 <= i < track_ids@.len() ==> v@[#[trigger] (rip->0).index@[i] as int] == track_ids@[i]
            },
            None => rip is None || recorded,
        },
{
    match rip {
        Some(b) => {
            if recorded {
                None
            } else {
                Some(in_record_order(track_ids, &b.index))
            }
        },
        None => None,
    }
}

/// The failure of a track whose sound changed while it was registered.
pub fn sound_moved_on(track_id: i64) -> (r: InboxError)
    ensures
        r matches InboxError::Conflict(m) && m@ == "track "@ + int_text(track_id as int)
            + " の音声版が登録の途中で進んだ"@,
{
    let n = int_to_text(track_id);
    InboxError::Conflict(concat3("track ", &n, " の音声版が登録の途中で進んだ"))
}

/// The failure of a batch that could not be recorded.
pub fn normalize_refused(fault: &str) -> (r: InboxError)
    ensures
        r matches InboxError::Conflict(m) && m@ == "normalize を投入できない: "@ + fault@,
{
    InboxError::Conflict(concat2("normalize を投入できない: ", fault))
}

// ---------------------------------------------------------------- what came of it

/// An item that was registered.
#[derive(Debug)]
pub struct RegisteredItem {
    pub album_id: i64,
    /// In the order of the draft.
    pub track_ids: Vec<i64>,
    pub job_ids: Vec<i64>,
    /// The batch that normalises some of the tracks.
    pub normalize_batch: Option<i64>,
    pub batch_event: Option<BatchEvent>,
}

/// The tracks whose derived files are looked at: those of the item, and those that
/// lost a value when the album stopped being levelled as a whole.
pub fn derived_checks(track_ids: &Vec<i64>, cleared: &Vec<i64>) -> (r: Vec<i64>)
    ensures
        r@ == track_ids@ + cleared@,
{
    let mut out: Vec<i64> = Vec::new();
    extend_ids(&mut out, track_ids);
    extend_ids(&mut out, cleared);
    proof {
        assert(out@ =~= track_ids@ + cleared@);
    }
    out
}

/// An item that was registered, with the jobs that were queued for it: those that
/// measure loudness, those for derived files, and those of the batch.
pub fn registered(
    album_id: i64,
    track_ids: Vec<i64>,
    loudness: &Vec<i64>,
    derived: &Vec<i64>,
    batch: Option<Prepared>,
) -> (r: RegisteredItem)
    ensures
        r.album_id == album_id,
        r.track_ids == track_ids,
        match batch {
            Some(p) => {
                &&& r.job_ids@ == loudness@ + derived@ + p.job_ids@
                &&& r.normalize_batch == Some(p.batch_id)
                &&& r.batch_event == p.event
            },
            None => {
                &&& r.job_ids@ == loudness@ + derived@
                &&& r.normalize_batch is None
                &&& r.batch_event is None
            },
        },
{
    let mut job_ids: Vec<i64> = Vec::new();
    extend_ids(&mut job_ids, loudness);
    extend_ids(&mut job_ids, derived);
    proof {
        assert(job_ids@ =~= loudness@ + derived@);
    }
    match batch {
        Some(p) => {
            extend_ids(&mut job_ids, &p.job_ids);
            RegisteredItem { album_id, track_ids, job_ids, normalize_batch: Some(p.batch_id), batch_event: p.event }
        },
        None => RegisteredItem { album_id, track_ids, job_ids, normalize_batch: None, batch_event: None },
    }
}

/// What is told of an item that was placed in `rel_dir`.
pub fn item_placed(item: RegisteredItem, rel_dir: String, sidecar: &Option<Sidecar>) -> (r: ItemPlaced)
    ensures
        r.album_id == item.album_id,
        r.rel_dir == rel_dir,
        r.track_ids == item.track_ids,
        r.job_ids == item.job_ids,
        r.normalize_batch == item.normalize_batch,
        sorted_set_of(
            r.subscription_ids@,
            match *sidecar {
                Some(s) => subscriptions_of(s.files@),
                None => Seq::empty(),
            },
        ),
{
    ItemPlaced {
        album_id: item.album_id,
        rel_dir,
        track_ids: item.track_ids,
        job_ids: item.job_ids,
        normalize_batch: item.normalize_batch,
        subscription_ids: subscription_ids(sidecar),
    }
}

// ---------------------------------------------------------------- laws

/// An item is registered in one order: its album, whether that takes it, its tracks, the record of its disc,
/// the work that follows, and the end.
pub proof fn law_registered_in_order(wants: RegisterWants)
    ensures
        step_after(RegisterStage::Album, wants) == Some(RegisterStage::Fit),
        step_after(RegisterStage::Fit, wants) == Some(RegisterStage::Tracks),
        !wants.record ==> step_after(RegisterStage::Tracks, wants) == Some(RegisterStage::Jobs),
        wants.record ==> step_after(RegisterStage::Tracks, wants) == Some(RegisterStage::Record),
        step_after(RegisterStage::Record, wants) == Some(RegisterStage::Jobs),
        !wants.normalize ==> step_after(RegisterStage::Jobs, wants) == Some(RegisterStage::Finish),
        wants.normalize ==> step_after(RegisterStage::Jobs, wants) == Some(RegisterStage::Normalize),
        step_after(RegisterStage::Normalize, wants) == Some(RegisterStage::Finish),
        step_after(RegisterStage::Finish, wants) is None,
{
}

/// A row that stands at the path of a track is taken over where it sounds alike, and is in the way else: the
/// sound is compared by the fingerprint that is known of both.
pub proof fn law_rows_taken_over(e: ExistingTrack, m: [u8; 16], f: [u8; 32])
    ensures
        clashes(seq![Some(e)], seq![Fingerprint::Md5(Some(m))], 0) <==> e.audio_md5 != Some(m),
        clashes(seq![Some(e)], seq![Fingerprint::Fp(Some(f))], 0) <==> e.audio_fp != Some(f),
        clashes(seq![Some(e)], seq![Fingerprint::Md5(None)], 0) && clashes(seq![Some(e)], seq![Fingerprint::Fp(None)], 0),
        !clashes(seq![None], seq![Fingerprint::Md5(Some(m))], 0),
        adopted(Some(e)) matches Some(r) && r.id == e.id && r.adopted && r.audio_version == e.audio_version,
        adopted(None) is None,
{
}

/// An album is without a release where it names none, or an empty one.
pub proof fn law_plain_albums(mb: Seq<char>)
    ensures
        is_plain(None),
        is_plain(Some(mb)) <==> mb.len() == 0,
{
}

} // verus!
