//! Playlists: what their entries are, and how the numbers of an album are
//! brought in line with the positions in a playlist.

use crate::text::{ascii_lower, blank, concat2, is_blank, lower_text, opt_text, same_text, trim, trimmed};
use vstd::prelude::*;
use vstd::string::*;

verus! {

/// Why an entry cannot be had. Newer listings do not tell.
#[derive(Debug, Clone, Copy, PartialEq, Eq, Structural)]
pub enum UnavailableKind {
    Private,
    Deleted,
    Unknown,
}

/// Whether an entry can be had.
#[derive(Debug, Clone, Copy, PartialEq, Eq, Structural)]
pub enum Availability {
    Available,
    Unavailable(UnavailableKind),
}

/// An entry of a playlist.
#[derive(Debug)]
pub struct PlaylistEntry {
    /// From 1. Entries that cannot be had keep their position.
    pub position: u32,
    pub id: String,
    pub url: String,
    pub title: Option<String>,
    pub availability: Availability,
}

/// A playlist as listed.
#[derive(Debug)]
pub struct PlaylistDump {
    pub title: Option<String>,
    /// How many entries there are said to be.
    pub playlist_count: Option<usize>,
    pub entries: Vec<PlaylistEntry>,
}

impl PlaylistDump {
    /// Whether the listing lacks entries that are said to be there.
    pub fn truncated(&self) -> (r: bool)
        ensures
            r == (self.playlist_count is Some && self.entries@.len() < self.playlist_count->0),
    {
        match self.playlist_count {
            Some(count) => self.entries.len() < count,
            None => false,
        }
    }
}

/// A listing as it comes, before it is interpreted.
#[derive(Debug)]
pub struct RawPlaylist {
    pub kind: Option<String>,
    pub title: Option<String>,
    pub playlist_count: Option<i64>,
    pub entries: Vec<RawPlaylistEntry>,
}

/// An entry as it comes.
#[derive(Debug)]
pub struct RawPlaylistEntry {
    pub id: Option<String>,
    pub title: Option<String>,
}

/// The address of a video.
pub open spec fn watch_address(id: Seq<char>) -> Seq<char> {
    "https://www.youtube.com/watch?v="@ + id
}

/// The address of a video, as it is written into files.
pub fn watch_url(id: &str) -> (r: String)
    ensures
        r@ == watch_address(id@),
{
    concat2("https://www.youtube.com/watch?v=", id)
}

/// A listing is one of a playlist.
pub open spec fn is_playlist_kind(kind: Option<Seq<char>>) -> bool {
    kind == Some("playlist"@) || kind == Some("multi_video"@)
}

/// Whether a listing is one of a playlist.
pub fn playlist_kind(kind: &Option<String>) -> (r: bool)
    ensures
        r == is_playlist_kind(opt_text(*kind)),
{
    match kind {
        Some(k) => same_text(k, "playlist") || same_text(k, "multi_video"),
        None => false,
    }
}

/// The id of an entry: empty where there is none.
pub open spec fn entry_id(e: RawPlaylistEntry) -> Seq<char> {
    match e.id {
        Some(s) => trimmed(s@),
        None => Seq::empty(),
    }
}

/// The title of an entry, none where it is blank.
pub open spec fn entry_title(e: RawPlaylistEntry) -> Option<Seq<char>> {
    match e.title {
        Some(t) => if is_blank(t@) {
            None
        } else {
            Some(trimmed(t@))
        },
        None => None,
    }
}

/// Why an entry cannot be had, none where it can: by its title where that tells,
/// else an entry without a title or an id cannot be had.
pub open spec fn entry_unavailable(e: RawPlaylistEntry) -> Option<UnavailableKind> {
    match entry_title(e) {
        None => Some(UnavailableKind::Unknown),
        Some(t) => {
            let low = ascii_lower(t);
            if low == "[private video]"@ {
                Some(UnavailableKind::Private)
            } else if low == "[deleted video]"@ {
                Some(UnavailableKind::Deleted)
            } else if low == "[unavailable video]"@ || entry_id(e).len() == 0 {
                Some(UnavailableKind::Unknown)
            } else {
                None
            }
        },
    }
}

/// `p` is what the entry `e` at index `i` of a listing is.
pub open spec fn entry_is(p: PlaylistEntry, e: RawPlaylistEntry, i: int) -> bool {
    &&& p.position == (if i + 1 <= u32::MAX {
        i + 1
    } else {
        u32::MAX as int
    })
    &&& p.id@ == entry_id(e)
    &&& p.url@ == watch_address(entry_id(e))
    &&& match entry_unavailable(e) {
        Some(kind) => p.title is None && p.availability == Availability::Unavailable(kind),
        None => opt_text(p.title) == entry_title(e) && p.availability == Availability::Available,
    }
}

fn read_entry(e: &RawPlaylistEntry, i: usize) -> (r: PlaylistEntry)
    requires
        i < usize::MAX,
    ensures
        entry_is(r, *e, i as int),
{
    let position: u32 = if i + 1 <= u32::MAX as usize {
        (i + 1) as u32
    } else {
        u32::MAX
    };
    let id = match &e.id {
        Some(s) => trim(s),
        None => String::new(),
    };
    let title = match &e.title {
        Some(t) => {
            let t = trim(t);
            if t.as_str().is_empty() {
                None
            } else {
                Some(t)
            }
        },
        None => None,
    };
    let unavailable = match &title {
        None => Some(UnavailableKind::Unknown),
        Some(t) => {
            let low = lower_text(t);
            if same_text(&low, "[private video]") {
                Some(UnavailableKind::Private)
            } else if same_text(&low, "[deleted video]") {
                Some(UnavailableKind::Deleted)
            } else if same_text(&low, "[unavailable video]") || id.as_str().is_empty() {
                Some(UnavailableKind::Unknown)
            } else {
                None
            }
        },
    };
    let url = watch_url(&id);
    match unavailable {
        Some(kind) => PlaylistEntry {
            position,
            id,
            url,
            title: None,
            availability: Availability::Unavailable(kind),
        },
        None => PlaylistEntry { position, id, url, title, availability: Availability::Available },
    }
}

/// What a listing says of a playlist. A listing of anything else is refused.
pub fn parse_playlist_dump(raw: RawPlaylist) -> (r: Result<PlaylistDump, String>)
    ensures
        match r {
            Ok(d) => {
                &&& is_playlist_kind(opt_text(raw.kind))
                &&& opt_text(d.title) == (match raw.title {
                    Some(t) => if is_blank(t@) {
                        None
                    } else {
                        Some(t@)
                    },
                    None => None,
                })
                &&& d.playlist_count == (match raw.playlist_count {
                    Some(n) => if 0 <= n <= usize::MAX {
                        Some(n as usize)
                    } else {
                        None
                    },
                    None => None,
                })
                &&& d.entries@.len() == raw.entries@.len()
                &&& forall|i: int|
                    0 <= i < raw.entries@.len() ==> entry_is(#[trigger] d.entries@[i], raw.entries@[i], i)
            },
            Err(e) => !is_playlist_kind(opt_text(raw.kind)) && e@ == "再生リストでない（動画 1 本の URL）"@,
        },
{
    if !playlist_kind(&raw.kind) {
        return Err("再生リストでない（動画 1 本の URL）".to_owned());
    }
    let mut entries: Vec<PlaylistEntry> = Vec::new();
    let n: usize = raw.entries.len();
    let mut i: usize = 0;
    while i < n
        invariant
            i <= n,
            n == raw.entries@.len(),
            entries@.len() == i,
            forall|k: int| 0 <= k < i ==> entry_is(#[trigger] entries@[k], raw.entries@[k], k),
        decreases n - i,
    {
        entries.push(read_entry(&raw.entries[i], i));
        i = i + 1;
    }
    let title = match raw.title {
        Some(t) => {
            if blank(&t) {
                None
            } else {
                Some(t)
            }
        },
        None => None,
    };
    let playlist_count = match raw.playlist_count {
        Some(n) => {
            if 0 <= n && n as u64 <= usize::MAX as u64 {
                Some(n as usize)
            } else {
                None
            }
        },
        None => None,
    };
    Ok(PlaylistDump { title, playlist_count, entries })
}

// ---------------------------------------------------------------- aligning

/// A track of the album that a playlist goes to.
#[derive(Debug)]
pub struct LibraryRow {
    pub track_id: i64,
    /// None counts as 1.
    pub disc_no: Option<i64>,
    pub track_no: Option<i64>,
    pub source_url: Option<String>,
}

/// A track that gets another number.
#[derive(Debug, Clone, Copy, PartialEq, Eq, Structural)]
pub struct AlignMove {
    pub track_id: i64,
    pub position: u32,
    pub current_no: Option<i64>,
    pub target_no: i64,
}

/// Why a track cannot get its number.
#[derive(Debug, Clone, Copy, PartialEq, Eq, Structural)]
pub enum BlockReason {
    /// A track that stays has the number.
    NumberTaken { by_track_id: i64 },
    /// Several tracks have the address.
    DuplicateSourceUrl,
    /// The track is on another disc.
    OtherDisc { disc_no: i64 },
}

/// A track that cannot get its number.
#[derive(Debug, Clone, Copy, PartialEq, Eq, Structural)]
pub struct AlignBlocked {
    pub track_id: i64,
    pub position: u32,
    pub current_no: Option<i64>,
    pub reason: BlockReason,
}

/// How the numbers of an album are brought in line with a playlist.
#[derive(Debug)]
pub struct AlignPlan {
    /// In order of the playlist.
    pub moves: Vec<AlignMove>,
    pub blocked: Vec<AlignBlocked>,
    /// Tracks that have their number already.
    pub unchanged: usize,
    /// The positions of entries that the album does not have.
    pub missing: Vec<u32>,
    /// Tracks with an address that is not in the playlist.
    pub outsiders: usize,
    /// Tracks without an address.
    pub unnumbered: usize,
}

impl AlignPlan {
    /// Whether no track gets another number.
    pub fn is_noop(&self) -> (r: bool)
        ensures
            r == (self.moves@.len() == 0),
    {
        self.moves.len() == 0
    }
}

/// The address is in the playlist.
pub open spec fn in_playlist(entries: Seq<PlaylistEntry>, u: Seq<char>) -> bool {
    exists|i: int| 0 <= i < entries.len() && (#[trigger] entries[i]).url@ == u
}

/// The rows with the address, in order.
pub open spec fn rows_with(rows: Seq<LibraryRow>, u: Seq<char>) -> Seq<int>
    decreases rows.len(),
{
    if rows.len() == 0 {
        Seq::empty()
    } else {
        let r = rows_with(rows.drop_last(), u);
        if opt_text(rows.last().source_url) == Some(u) {
            r.push(rows.len() - 1)
        } else {
            r
        }
    }
}

/// The row can be moved: it is the only one with its address, which is in the
/// playlist.
pub open spec fn is_target(entries: Seq<PlaylistEntry>, rows: Seq<LibraryRow>, r: LibraryRow) -> bool {
    match r.source_url {
        Some(u) => in_playlist(entries, u@) && rows_with(rows, u@).len() == 1,
        None => false,
    }
}

/// The disc of a row.
pub open spec fn disc_of(r: LibraryRow) -> i64 {
    match r.disc_no {
        Some(d) => d,
        None => 1,
    }
}

/// The row stays and blocks the number `n`.
pub open spec fn blocks(entries: Seq<PlaylistEntry>, rows: Seq<LibraryRow>, r: LibraryRow, n: i64) -> bool {
    !is_target(entries, rows, r) && disc_of(r) == 1 && r.track_no == Some(n)
}

/// The first of the first `k` rows that blocks the number `n`.
pub open spec fn blocker(entries: Seq<PlaylistEntry>, rows: Seq<LibraryRow>, n: i64, k: int) -> Option<i64>
    decreases k,
{
    if k <= 0 {
        None
    } else {
        match blocker(entries, rows, n, k - 1) {
            Some(id) => Some(id),
            None => if blocks(entries, rows, rows[k - 1], n) {
                Some(rows[k - 1].track_id)
            } else {
                None
            },
        }
    }
}

/// What becomes of an entry of the playlist.
pub enum EntryOutcome {
    Missing,
    /// Several rows have the address.
    Duplicate,
    OtherDisc,
    Unchanged,
    Taken(i64),
    Moves,
}

/// What becomes of an entry of the playlist.
pub open spec fn outcome_of(entries: Seq<PlaylistEntry>, rows: Seq<LibraryRow>, e: PlaylistEntry) -> EntryOutcome {
    let m = rows_with(rows, e.url@);
    if m.len() == 0 {
        EntryOutcome::Missing
    } else if m.len() > 1 {
        EntryOutcome::Duplicate
    } else {
        let r = rows[m[0]];
        if disc_of(r) != 1 {
            EntryOutcome::OtherDisc
        } else if r.track_no == Some(e.position as i64) {
            EntryOutcome::Unchanged
        } else {
            match blocker(entries, rows, e.position as i64, rows.len() as int) {
                Some(by) => EntryOutcome::Taken(by),
                None => EntryOutcome::Moves,
            }
        }
    }
}

/// The row of an entry that the album has once.
pub open spec fn row_for(rows: Seq<LibraryRow>, e: PlaylistEntry) -> LibraryRow {
    rows[rows_with(rows, e.url@)[0]]
}

/// The moves of the first `n` entries.
pub open spec fn moves_upto(entries: Seq<PlaylistEntry>, rows: Seq<LibraryRow>, n: int) -> Seq<AlignMove>
    decreases n,
{
    if n <= 0 {
        Seq::empty()
    } else {
        let r = moves_upto(entries, rows, n - 1);
        let e = entries[n - 1];
        if outcome_of(entries, rows, e) is Moves {
            let row = row_for(rows, e);
            r.push(
                AlignMove {
                    track_id: row.track_id,
                    position: e.position,
                    current_no: row.track_no,
                    target_no: e.position as i64,
                },
            )
        } else {
            r
        }
    }
}

/// The rows of a list of positions, each blocked for being one of several.
pub open spec fn duplicates_at(rows: Seq<LibraryRow>, at: Seq<int>, position: u32) -> Seq<AlignBlocked> {
    at.map_values(
        |i: int|
            AlignBlocked {
                track_id: rows[i].track_id,
                position,
                current_no: rows[i].track_no,
                reason: BlockReason::DuplicateSourceUrl,
            },
    )
}

/// What an entry blocks.
pub open spec fn blocked_by(entries: Seq<PlaylistEntry>, rows: Seq<LibraryRow>, e: PlaylistEntry) -> Seq<AlignBlocked> {
    match outcome_of(entries, rows, e) {
        EntryOutcome::Duplicate => duplicates_at(rows, rows_with(rows, e.url@), e.position),
        EntryOutcome::OtherDisc => seq![
            AlignBlocked {
                track_id: row_for(rows, e).track_id,
                position: e.position,
                current_no: row_for(rows, e).track_no,
                reason: BlockReason::OtherDisc { disc_no: disc_of(row_for(rows, e)) },
            },
        ],
        EntryOutcome::Taken(by) => seq![
            AlignBlocked {
                track_id: row_for(rows, e).track_id,
                position: e.position,
                current_no: row_for(rows, e).track_no,
                reason: BlockReason::NumberTaken { by_track_id: by },
            },
        ],
        _ => Seq::empty(),
    }
}

/// What the first `n` entries block.
pub open spec fn blocked_upto(entries: Seq<PlaylistEntry>, rows: Seq<LibraryRow>, n: int) -> Seq<AlignBlocked>
    decreases n,
{
    if n <= 0 {
        Seq::empty()
    } else {
        blocked_upto(entries, rows, n - 1) + blocked_by(entries, rows, entries[n - 1])
    }
}

/// The positions among the first `n` entries that the album does not have.
pub open spec fn missing_upto(entries: Seq<PlaylistEntry>, rows: Seq<LibraryRow>, n: int) -> Seq<u32>
    decreases n,
{
    if n <= 0 {
        Seq::empty()
    } else {
        let r = missing_upto(entries, rows, n - 1);
        if outcome_of(entries, rows, entries[n - 1]) is Missing {
            r.push(entries[n - 1].position)
        } else {
            r
        }
    }
}

/// How many of the first `n` entries have their number already.
pub open spec fn unchanged_upto(entries: Seq<PlaylistEntry>, rows: Seq<LibraryRow>, n: int) -> nat
    decreases n,
{
    if n <= 0 {
        0
    } else {
        unchanged_upto(entries, rows, n - 1) + if outcome_of(entries, rows, entries[n - 1]) is Unchanged {
            1nat
        } else {
            0nat
        }
    }
}

/// How many of the first `n` rows have an address that is not in the playlist.
pub open spec fn outsiders_upto(entries: Seq<PlaylistEntry>, rows: Seq<LibraryRow>, n: int) -> nat
    decreases n,
{
    if n <= 0 {
        0
    } else {
        outsiders_upto(entries, rows, n - 1) + match rows[n - 1].source_url {
            Some(u) => if in_playlist(entries, u@) {
                0nat
            } else {
                1nat
            },
            None => 0nat,
        }
    }
}

/// How many of the first `n` rows have no address.
pub open spec fn unnumbered_upto(rows: Seq<LibraryRow>, n: int) -> nat
    decreases n,
{
    if n <= 0 {
        0
    } else {
        unnumbered_upto(rows, n - 1) + if rows[n - 1].source_url is None {
            1nat
        } else {
            0nat
        }
    }
}

fn listed(entries: &Vec<PlaylistEntry>, u: &str) -> (r: bool)
    ensures
        r == in_playlist(entries@, u@),
{
    let mut i: usize = 0;
    while i < entries.len()
        invariant
            i <= entries@.len(),
            forall|k: int| 0 <= k < i ==> (#[trigger] entries@[k]).url@ != u@,
        decreases entries@.len() - i,
    {
        if same_text(entries[i].url.as_str(), u) {
            return true;
        }
        i = i + 1;
    }
    false
}

fn find_rows(rows: &Vec<LibraryRow>, u: &str) -> (r: Vec<usize>)
    ensures
        r@.map_values(|i: usize| i as int) == rows_with(rows@, u@),
        forall|k: int| 0 <= k < r@.len() ==> #[trigger] r@[k] < rows@.len(),
{
    let mut out: Vec<usize> = Vec::new();
    let mut i: usize = 0;
    proof {
        assert(out@.map_values(|i: usize| i as int) =~= rows_with(rows@.take(0), u@));
    }
    while i < rows.len()
        invariant
            i <= rows@.len(),
            out@.map_values(|i: usize| i as int) == rows_with(rows@.take(i as int), u@),
            forall|k: int| 0 <= k < out@.len() ==> #[trigger] out@[k] < i,
        decreases rows@.len() - i,
    {
        proof {
            assert(rows@.take(i + 1).last() == rows@[i as int]);
            assert(rows@.take(i + 1).drop_last() =~= rows@.take(i as int));
        }
        let ghost before = out@.map_values(|i: usize| i as int);
        if let Some(s) = &rows[i].source_url {
            if same_text(s, u) {
                out.push(i);
                proof {
                    assert(out@.map_values(|i: usize| i as int) =~= before.push(i as int));
                }
            }
        }
        i = i + 1;
    }
    proof {
        assert(rows@.take(i as int) =~= rows@);
    }
    out
}

fn target_flags(entries: &Vec<PlaylistEntry>, rows: &Vec<LibraryRow>) -> (r: Vec<bool>)
    ensures
        r@.len() == rows@.len(),
        forall|i: int| 0 <= i < rows@.len() ==> #[trigger] r@[i] == is_target(entries@, rows@, rows@[i]),
{
    let mut out: Vec<bool> = Vec::new();
    let mut i: usize = 0;
    while i < rows.len()
        invariant
            i <= rows@.len(),
            out@.len() == i,
            forall|k: int| 0 <= k < i ==> #[trigger] out@[k] == is_target(entries@, rows@, rows@[k]),
        decreases rows@.len() - i,
    {
        let flag = match &rows[i].source_url {
            Some(u) => {
                let m = find_rows(rows, u);
                proof {
                    assert(rows_with(rows@, u@).len() == m@.len());
                }
                m.len() == 1 && listed(entries, u)
            },
            None => false,
        };
        out.push(flag);
        i = i + 1;
    }
    out
}

fn find_blocker(entries: &Vec<PlaylistEntry>, rows: &Vec<LibraryRow>, targets: &Vec<bool>, n: i64) -> (r: Option<i64>)
    requires
        targets@.len() == rows@.len(),
        forall|i: int| 0 <= i < rows@.len() ==> #[trigger] targets@[i] == is_target(entries@, rows@, rows@[i]),
    ensures
        r == blocker(entries@, rows@, n, rows@.len() as int),
{
    let mut found: Option<i64> = None;
    let mut i: usize = 0;
    while i < rows.len()
        invariant
            targets@.len() == rows@.len(),
            forall|i: int| 0 <= i < rows@.len() ==> #[trigger] targets@[i] == is_target(entries@, rows@, rows@[i]),
            i <= rows@.len(),
            found == blocker(entries@, rows@, n, i as int),
        decreases rows@.len() - i,
    {
        if found.is_none() && !targets[i] && disc_number(&rows[i]) == 1 && rows[i].track_no == Some(n) {
            found = Some(rows[i].track_id);
        }
        i = i + 1;
    }
    found
}

fn disc_number(r: &LibraryRow) -> (d: i64)
    ensures
        d == disc_of(*r),
{
    match r.disc_no {
        Some(d) => d,
        None => 1,
    }
}

/// Brings the numbers of an album in line with a playlist: the number of a
/// track becomes its position. Only tracks found by their address move; all
/// others keep their numbers, and nothing moves to a number that they have.
/// Tracks that move may trade numbers.
pub fn plan_align(entries: &Vec<PlaylistEntry>, rows: &Vec<LibraryRow>) -> (r: AlignPlan)
    ensures
        r.moves@ == moves_upto(entries@, rows@, entries@.len() as int),
        r.blocked@ == blocked_upto(entries@, rows@, entries@.len() as int),
        r.unchanged == unchanged_upto(entries@, rows@, entries@.len() as int),
        r.missing@ == missing_upto(entries@, rows@, entries@.len() as int),
        r.outsiders == outsiders_upto(entries@, rows@, rows@.len() as int),
        r.unnumbered == unnumbered_upto(rows@, rows@.len() as int),
{
    let mut outsiders: usize = 0;
    let mut unnumbered: usize = 0;
    let mut i: usize = 0;
    while i < rows.len()
        invariant
            i <= rows@.len(),
            outsiders + unnumbered <= i,
            outsiders == outsiders_upto(entries@, rows@, i as int),
            unnumbered == unnumbered_upto(rows@, i as int),
        decreases rows@.len() - i,
    {
        match &rows[i].source_url {
            Some(u) => {
                if !listed(entries, u) {
                    outsiders = outsiders + 1;
                }
            },
            None => {
                unnumbered = unnumbered + 1;
            },
        }
        i = i + 1;
    }
    let targets = target_flags(entries, rows);
    let mut moves: Vec<AlignMove> = Vec::new();
    let mut blocked: Vec<AlignBlocked> = Vec::new();
    let mut missing: Vec<u32> = Vec::new();
    let mut unchanged: usize = 0;
    let mut n: usize = 0;
    while n < entries.len()
        invariant
            targets@.len() == rows@.len(),
            forall|i: int| 0 <= i < rows@.len() ==> #[trigger] targets@[i] == is_target(entries@, rows@, rows@[i]),
            n <= entries@.len(),
            unchanged <= n,
            moves@ == moves_upto(entries@, rows@, n as int),
            blocked@ == blocked_upto(entries@, rows@, n as int),
            unchanged == unchanged_upto(entries@, rows@, n as int),
            missing@ == missing_upto(entries@, rows@, n as int),
        decreases entries@.len() - n,
    {
        let e = &entries[n];
        let m = find_rows(rows, &e.url);
        let ghost gm = rows_with(rows@, e.url@);
        let ghost b0 = blocked@;
        proof {
            assert(gm.len() == m@.len());
            assert(forall|k: int| 0 <= k < m@.len() ==> gm[k] == #[trigger] m@[k] as int);
            assert(b0 + Seq::<AlignBlocked>::empty() =~= b0);
        }
        if m.len() == 0 {
            missing.push(e.position);
        } else if m.len() > 1 {
            let ghost dup = duplicates_at(rows@, gm, e.position);
            let mut j: usize = 0;
            proof {
                assert(b0 + dup.take(0) =~= b0);
            }
            while j < m.len()
                invariant
                    j <= m@.len(),
                    gm.len() == m@.len(),
                    forall|k: int| 0 <= k < m@.len() ==> gm[k] == #[trigger] m@[k] as int,
                    forall|k: int| 0 <= k < m@.len() ==> #[trigger] m@[k] < rows@.len(),
                    dup == duplicates_at(rows@, gm, e.position),
                    blocked@ == b0 + dup.take(j as int),
                decreases m@.len() - j,
            {
                let row = &rows[m[j]];
                blocked.push(
                    AlignBlocked {
                        track_id: row.track_id,
                        position: e.position,
                        current_no: row.track_no,
                        reason: BlockReason::DuplicateSourceUrl,
                    },
                );
                proof {
                    assert(dup[j as int] == blocked@.last());
                    assert(blocked@ =~= b0 + dup.take(j + 1));
                }
                j = j + 1;
            }
            proof {
                assert(dup.take(j as int) =~= dup);
            }
        } else {
            let row = &rows[m[0]];
            let target_no: i64 = e.position as i64;
            if disc_number(row) != 1 {
                blocked.push(
                    AlignBlocked {
                        track_id: row.track_id,
                        position: e.position,
                        current_no: row.track_no,
                        reason: BlockReason::OtherDisc { disc_no: disc_number(row) },
                    },
                );
                proof {
                    assert(blocked@ =~= b0 + blocked_by(entries@, rows@, *e));
                }
            } else if row.track_no == Some(target_no) {
                unchanged = unchanged + 1;
            } else {
                match find_blocker(entries, rows, &targets, target_no) {
                    Some(by) => {
                        blocked.push(
                            AlignBlocked {
                                track_id: row.track_id,
                                position: e.position,
                                current_no: row.track_no,
                                reason: BlockReason::NumberTaken { by_track_id: by },
                            },
                        );
                        proof {
                            assert(blocked@ =~= b0 + blocked_by(entries@, rows@, *e));
                        }
                    },
                    None => {
                        moves.push(
                            AlignMove {
                                track_id: row.track_id,
                                position: e.position,
                                current_no: row.track_no,
                                target_no,
                            },
                        );
                    },
                }
            }
        }
        n = n + 1;
    }
    AlignPlan { moves, blocked, unchanged, missing, outsiders, unnumbered }
}

// ---------------------------------------------------------------- laws

proof fn lemma_rows_with(rows: Seq<LibraryRow>, u: Seq<char>)
    ensures
        forall|k: int|
            0 <= k < rows_with(rows, u).len() ==> 0 <= #[trigger] rows_with(rows, u)[k] < rows.len() && opt_text(
                rows[rows_with(rows, u)[k]].source_url,
            ) == Some(u),
        forall|i: int|
            0 <= i < rows.len() && opt_text((#[trigger] rows[i]).source_url) == Some(u) ==> rows_with(rows, u).contains(
                i,
            ),
    decreases rows.len(),
{
    if rows.len() > 0 {
        let t = rows.drop_last();
        lemma_rows_with(t, u);
        let a = rows_with(t, u);
        let b = rows_with(rows, u);
        assert forall|k: int| 0 <= k < b.len() implies 0 <= #[trigger] b[k] < rows.len() && opt_text(
            rows[b[k]].source_url,
        ) == Some(u) by {
            if k < a.len() {
                assert(b[k] == a[k]);
                assert(t[a[k]] == rows[a[k]]);
            }
        }
        assert forall|i: int|
            0 <= i < rows.len() && opt_text((#[trigger] rows[i]).source_url) == Some(u) implies b.contains(i) by {
            if i < t.len() {
                assert(t[i] == rows[i]);
                assert(a.contains(i));
                let k = choose|k: int| 0 <= k < a.len() && a[k] == i;
                assert(b[k] == i);
            } else {
                assert(b[b.len() - 1] == i);
            }
        }
    }
}

proof fn lemma_no_blocker(entries: Seq<PlaylistEntry>, rows: Seq<LibraryRow>, n: i64, k: int)
    requires
        0 <= k <= rows.len(),
    ensures
        blocker(entries, rows, n, k) is None <==> forall|i: int|
            0 <= i < k ==> !blocks(entries, rows, #[trigger] rows[i], n),
    decreases k,
{
    if k > 0 {
        lemma_no_blocker(entries, rows, n, k - 1);
        if blocker(entries, rows, n, k - 1) is Some {
            let i = choose|i: int| 0 <= i < k - 1 && blocks(entries, rows, #[trigger] rows[i], n);
            assert(blocks(entries, rows, rows[i], n));
        } else if blocks(entries, rows, rows[k - 1], n) {
            assert(!(forall|i: int| 0 <= i < k ==> !blocks(entries, rows, #[trigger] rows[i], n)));
        }
    }
}

/// Nothing moves to a number that a track which stays on the first disc has.
pub proof fn law_align_respects_fixed_numbers(
    entries: Seq<PlaylistEntry>,
    rows: Seq<LibraryRow>,
    n: int,
    k: int,
    i: int,
)
    requires
        0 <= n <= entries.len(),
        0 <= k < moves_upto(entries, rows, n).len(),
        0 <= i < rows.len(),
        !is_target(entries, rows, rows[i]),
        disc_of(rows[i]) == 1,
    ensures
        rows[i].track_no != Some(moves_upto(entries, rows, n)[k].target_no),
    decreases n,
{
    if n > 0 {
        let r = moves_upto(entries, rows, n - 1);
        if k < r.len() {
            law_align_respects_fixed_numbers(entries, rows, n - 1, k, i);
        } else {
            lemma_no_blocker(entries, rows, entries[n - 1].position as i64, rows.len() as int);
        }
    }
}

/// Two moves of a playlist with one address at each position give different
/// tracks different numbers.
pub proof fn law_align_numbers_distinct(entries: Seq<PlaylistEntry>, rows: Seq<LibraryRow>, n: int, j: int, k: int)
    requires
        0 <= n <= entries.len(),
        forall|a: int, b: int|
            0 <= a < b < entries.len() ==> (#[trigger] entries[a]).position < (#[trigger] entries[b]).position,
        0 <= j < k < moves_upto(entries, rows, n).len(),
    ensures
        moves_upto(entries, rows, n)[j].target_no < moves_upto(entries, rows, n)[k].target_no,
    decreases n,
{
    if n > 0 {
        let r = moves_upto(entries, rows, n - 1);
        if k < r.len() {
            law_align_numbers_distinct(entries, rows, n - 1, j, k);
        } else {
            lemma_move_origin(entries, rows, n - 1, j);
        }
    }
}

proof fn lemma_move_origin(entries: Seq<PlaylistEntry>, rows: Seq<LibraryRow>, n: int, j: int)
    requires
        0 <= n <= entries.len(),
        0 <= j < moves_upto(entries, rows, n).len(),
    ensures
        exists|x: int|
            0 <= x < n && outcome_of(entries, rows, #[trigger] entries[x]) is Moves && moves_upto(entries, rows, n)[j]
                == (AlignMove {
                track_id: row_for(rows, entries[x]).track_id,
                position: entries[x].position,
                current_no: row_for(rows, entries[x]).track_no,
                target_no: entries[x].position as i64,
            }),
    decreases n,
{
    if n > 0 {
        let r = moves_upto(entries, rows, n - 1);
        if j < r.len() {
            lemma_move_origin(entries, rows, n - 1, j);
        } else {
            assert(outcome_of(entries, rows, entries[n - 1]) is Moves);
        }
    }
}

proof fn lemma_move_listed(entries: Seq<PlaylistEntry>, rows: Seq<LibraryRow>, n: int, x: int)
    requires
        0 <= x < n <= entries.len(),
        outcome_of(entries, rows, entries[x]) is Moves,
    ensures
        exists|j: int|
            0 <= j < moves_upto(entries, rows, n).len() && (#[trigger] moves_upto(entries, rows, n)[j]).track_id
                == row_for(rows, entries[x]).track_id && moves_upto(entries, rows, n)[j].target_no
                == entries[x].position,
    decreases n,
{
    let all = moves_upto(entries, rows, n);
    let r = moves_upto(entries, rows, n - 1);
    if x == n - 1 {
        assert(all[all.len() - 1].track_id == row_for(rows, entries[x]).track_id);
    } else {
        lemma_move_listed(entries, rows, n - 1, x);
        let j = choose|j: int|
            0 <= j < r.len() && (#[trigger] r[j]).track_id == row_for(rows, entries[x]).track_id && r[j].target_no
                == entries[x].position;
        assert(all[j] == r[j]);
    }
}

/// `after` is `before` with the numbers that the moves of the plan give.
pub open spec fn aligned(entries: Seq<PlaylistEntry>, before: Seq<LibraryRow>, after: Seq<LibraryRow>) -> bool {
    let moves = moves_upto(entries, before, entries.len() as int);
    &&& after.len() == before.len()
    &&& forall|i: int|
        0 <= i < before.len() ==> {
            let a = #[trigger] after[i];
            let b = before[i];
            &&& a.track_id == b.track_id
            &&& a.disc_no == b.disc_no
            &&& a.source_url == b.source_url
            &&& forall|j: int|
                0 <= j < moves.len() && (#[trigger] moves[j]).track_id == b.track_id ==> a.track_no == Some(
                    moves[j].target_no,
                )
            &&& (forall|j: int| 0 <= j < moves.len() ==> (#[trigger] moves[j]).track_id != b.track_id) ==> a.track_no
                == b.track_no
        }
}

proof fn lemma_rows_with_same(a: Seq<LibraryRow>, b: Seq<LibraryRow>, u: Seq<char>)
    requires
        a.len() == b.len(),
        forall|i: int| 0 <= i < a.len() ==> (#[trigger] a[i]).source_url == b[i].source_url,
    ensures
        rows_with(a, u) == rows_with(b, u),
    decreases a.len(),
{
    if a.len() > 0 {
        assert(a[a.len() - 1].source_url == b[a.len() - 1].source_url);
        assert forall|i: int| 0 <= i < a.len() - 1 implies (#[trigger] a.drop_last()[i]).source_url
            == b.drop_last()[i].source_url by {
            assert(a.drop_last()[i] == a[i]);
        }
        lemma_rows_with_same(a.drop_last(), b.drop_last(), u);
    }
}

/// The playlist has each address once, and the rows are distinct tracks.
pub open spec fn alignable(entries: Seq<PlaylistEntry>, rows: Seq<LibraryRow>) -> bool {
    &&& forall|a: int, b: int|
        0 <= a < entries.len() && 0 <= b < entries.len() && a != b ==> (#[trigger] entries[a]).url@ != (
        #[trigger] entries[b]).url@
    &&& forall|a: int, b: int|
        0 <= a < rows.len() && 0 <= b < rows.len() && a != b ==> (#[trigger] rows[a]).track_id != (
        #[trigger] rows[b]).track_id
}

/// The row at `i` moves only where it is the row of an entry that moves.
proof fn lemma_row_stays(entries: Seq<PlaylistEntry>, before: Seq<LibraryRow>, after: Seq<LibraryRow>, i: int)
    requires
        aligned(entries, before, after),
        alignable(entries, before),
        0 <= i < before.len(),
        forall|x: int|
            0 <= x < entries.len() && outcome_of(entries, before, #[trigger] entries[x]) is Moves ==> rows_with(
                before,
                entries[x].url@,
            )[0] != i,
    ensures
        after[i] == before[i],
{
    let n = entries.len() as int;
    let moves = moves_upto(entries, before, n);
    assert forall|j: int| 0 <= j < moves.len() implies (#[trigger] moves[j]).track_id != before[i].track_id by {
        lemma_move_origin(entries, before, n, j);
        let x = choose|x: int|
            0 <= x < n && outcome_of(entries, before, #[trigger] entries[x]) is Moves && moves[j] == (AlignMove {
                track_id: row_for(before, entries[x]).track_id,
                position: entries[x].position,
                current_no: row_for(before, entries[x]).track_no,
                target_no: entries[x].position as i64,
            });
        lemma_rows_with(before, entries[x].url@);
        assert(rows_with(before, entries[x].url@)[0] != i);
    }
    assert(after[i].track_no == before[i].track_no);
}

/// A row that is no target stays.
proof fn lemma_fixed_row_stays(entries: Seq<PlaylistEntry>, before: Seq<LibraryRow>, after: Seq<LibraryRow>, i: int)
    requires
        aligned(entries, before, after),
        alignable(entries, before),
        0 <= i < before.len(),
        !is_target(entries, before, before[i]),
    ensures
        after[i] == before[i],
{
    assert forall|x: int| 0 <= x < entries.len() && outcome_of(entries, before, #[trigger] entries[x]) is Moves implies rows_with(
        before,
        entries[x].url@,
    )[0] != i by {
        let u = entries[x].url@;
        lemma_rows_with(before, u);
        let at = rows_with(before, u)[0];
        assert(in_playlist(entries, u));
        assert(is_target(entries, before, before[at]));
    }
    lemma_row_stays(entries, before, after, i);
}

proof fn lemma_same_rows_with(entries: Seq<PlaylistEntry>, before: Seq<LibraryRow>, after: Seq<LibraryRow>, u: Seq<char>)
    requires
        aligned(entries, before, after),
    ensures
        rows_with(after, u) == rows_with(before, u),
{
    assert forall|i: int| 0 <= i < after.len() implies (#[trigger] after[i]).source_url == before[i].source_url by {}
    lemma_rows_with_same(after, before, u);
}

/// The same rows block a number after aligning.
proof fn lemma_same_blocker(
    entries: Seq<PlaylistEntry>,
    before: Seq<LibraryRow>,
    after: Seq<LibraryRow>,
    no: i64,
    k: int,
)
    requires
        aligned(entries, before, after),
        alignable(entries, before),
        0 <= k <= before.len(),
    ensures
        blocker(entries, after, no, k) == blocker(entries, before, no, k),
    decreases k,
{
    if k > 0 {
        lemma_same_blocker(entries, before, after, no, k - 1);
        let a = after[k - 1];
        let b = before[k - 1];
        assert(a.source_url == b.source_url && a.track_id == b.track_id);
        match b.source_url {
            Some(u) => lemma_same_rows_with(entries, before, after, u@),
            None => {},
        }
        assert(is_target(entries, after, a) == is_target(entries, before, b));
        if !is_target(entries, before, b) {
            lemma_fixed_row_stays(entries, before, after, k - 1);
        }
    }
}

/// What becomes of an entry after aligning: one that moved has its number now,
/// and every other one is as it was, with the row it had.
proof fn lemma_outcome_after(entries: Seq<PlaylistEntry>, before: Seq<LibraryRow>, after: Seq<LibraryRow>, x: int)
    requires
        aligned(entries, before, after),
        alignable(entries, before),
        0 <= x < entries.len(),
    ensures
        outcome_of(entries, before, entries[x]) is Moves ==> outcome_of(entries, after, entries[x]) is Unchanged,
        !(outcome_of(entries, before, entries[x]) is Moves) ==> outcome_of(entries, after, entries[x]) == outcome_of(
            entries,
            before,
            entries[x],
        ) && blocked_by(entries, after, entries[x]) == blocked_by(entries, before, entries[x]),
{
    let n = entries.len() as int;
    let e = entries[x];
    let u = e.url@;
    let moves = moves_upto(entries, before, n);
    let m = rows_with(before, u);
    lemma_same_rows_with(entries, before, after, u);
    lemma_rows_with(before, u);
    lemma_same_blocker(entries, before, after, e.position as i64, before.len() as int);
    assert(in_playlist(entries, u));
    if outcome_of(entries, before, e) is Moves {
        lemma_move_listed(entries, before, n, x);
        let j = choose|j: int|
            0 <= j < moves.len() && (#[trigger] moves[j]).track_id == row_for(before, e).track_id && moves[j].target_no
                == e.position;
        assert(before[m[0]].track_id == moves[j].track_id);
        assert(after[m[0]].track_no == Some(e.position as i64));
    } else if m.len() == 1 {
        assert forall|y: int| 0 <= y < n && outcome_of(entries, before, #[trigger] entries[y]) is Moves implies rows_with(
            before,
            entries[y].url@,
        )[0] != m[0] by {
            lemma_rows_with(before, entries[y].url@);
            if rows_with(before, entries[y].url@)[0] == m[0] {
                assert(entries[y].url@ == u);
                assert(y == x);
            }
        }
        lemma_row_stays(entries, before, after, m[0]);
    } else if m.len() > 1 {
        assert forall|k: int| 0 <= k < m.len() implies after[#[trigger] m[k]] == before[m[k]] by {
            assert(!is_target(entries, before, before[m[k]]));
            lemma_fixed_row_stays(entries, before, after, m[k]);
        }
        assert(duplicates_at(after, m, e.position) =~= duplicates_at(before, m, e.position));
    }
}

proof fn lemma_align_counts(entries: Seq<PlaylistEntry>, before: Seq<LibraryRow>, after: Seq<LibraryRow>, n: int)
    requires
        aligned(entries, before, after),
        alignable(entries, before),
        0 <= n <= entries.len(),
    ensures
        moves_upto(entries, after, n) == Seq::<AlignMove>::empty(),
        unchanged_upto(entries, after, n) == unchanged_upto(entries, before, n) + moves_upto(entries, before, n).len(),
        blocked_upto(entries, after, n) == blocked_upto(entries, before, n),
        missing_upto(entries, after, n) == missing_upto(entries, before, n),
    decreases n,
{
    if n > 0 {
        lemma_align_counts(entries, before, after, n - 1);
        lemma_outcome_after(entries, before, after, n - 1);
    }
}

proof fn lemma_align_rows(entries: Seq<PlaylistEntry>, before: Seq<LibraryRow>, after: Seq<LibraryRow>, n: int)
    requires
        aligned(entries, before, after),
        0 <= n <= before.len(),
    ensures
        outsiders_upto(entries, after, n) == outsiders_upto(entries, before, n),
        unnumbered_upto(after, n) == unnumbered_upto(before, n),
    decreases n,
{
    if n > 0 {
        lemma_align_rows(entries, before, after, n - 1);
        assert(after[n - 1].source_url == before[n - 1].source_url);
    }
}

/// Once an album is aligned, aligning it again moves nothing: what moved counts as
/// unchanged, and what was blocked, what is missing, and the rows with another
/// address or none are as they were.
pub proof fn law_align_settles(entries: Seq<PlaylistEntry>, before: Seq<LibraryRow>, after: Seq<LibraryRow>)
    requires
        aligned(entries, before, after),
        alignable(entries, before),
    ensures
        ({
            let n = entries.len() as int;
            let m = before.len() as int;
            &&& moves_upto(entries, after, n) == Seq::<AlignMove>::empty()
            &&& unchanged_upto(entries, after, n) == unchanged_upto(entries, before, n) + moves_upto(
                entries,
                before,
                n,
            ).len()
            &&& blocked_upto(entries, after, n) == blocked_upto(entries, before, n)
            &&& missing_upto(entries, after, n) == missing_upto(entries, before, n)
            &&& outsiders_upto(entries, after, m) == outsiders_upto(entries, before, m)
            &&& unnumbered_upto(after, m) == unnumbered_upto(before, m)
        }),
{
    lemma_align_counts(entries, before, after, entries.len() as int);
    lemma_align_rows(entries, before, after, before.len() as int);
}

/// A video is found under the address of its id.
pub proof fn law_watch_address(a: Seq<char>, b: Seq<char>)
    ensures
        watch_address(a) == "https://www.youtube.com/watch?v="@ + a,
        watch_address(a) == watch_address(b) <==> a == b,
{
    let p = "https://www.youtube.com/watch?v="@;
    assert(watch_address(a).skip(p.len() as int) =~= a);
    assert(watch_address(b).skip(p.len() as int) =~= b);
}

/// Entries keep their places, counted from 1, and those that cannot be had are marked: by the title that stands in
/// for them, or for want of a title or an id.
pub proof fn law_entries_of_a_playlist(p: PlaylistEntry, e: RawPlaylistEntry, i: int)
    requires
        entry_is(p, e, i),
        0 <= i < u32::MAX,
    ensures
        p.position == i + 1,
        e.id matches Some(s) ==> p.id@ == trimmed(s@) && p.url@ == "https://www.youtube.com/watch?v="@ + trimmed(s@),
        e.title is None ==> p.availability == Availability::Unavailable(UnavailableKind::Unknown),
        e.title matches Some(t) ==> (ascii_lower(trimmed(t@)) == "[private video]"@ ==> p.availability
            == Availability::Unavailable(UnavailableKind::Private)),
        e.title matches Some(t) ==> (ascii_lower(trimmed(t@)) == "[deleted video]"@ ==> p.availability
            == Availability::Unavailable(UnavailableKind::Deleted)),
        e.title matches Some(t) ==> (e.id matches Some(s) ==> (trimmed(t@).len() > 0 && trimmed(s@).len() > 0
            && ascii_lower(trimmed(t@)) != "[private video]"@ && ascii_lower(trimmed(t@)) != "[deleted video]"@
            && ascii_lower(trimmed(t@)) != "[unavailable video]"@ ==> p.availability == Availability::Available && opt_text(
            p.title,
        ) == Some(trimmed(t@)))),
        e.id is None ==> p.availability != Availability::Available,
{
    reveal_strlit("[private video]");
    reveal_strlit("[deleted video]");
    assert("[private video]"@.len() == 15 && "[deleted video]"@.len() == 15);
    assert("[private video]"@[1] == 'p' && "[deleted video]"@[1] == 'd');
}

/// The rows of a video are those that name its address.
pub proof fn law_rows_of_a_video(rows: Seq<LibraryRow>, u: Seq<char>, i: int)
    ensures
        rows_with(rows, u).contains(i) <==> 0 <= i < rows.len() && (rows[i].source_url matches Some(s) && s@ == u),
    decreases rows.len(),
{
    if rows.len() > 0 {
        let d = rows.drop_last();
        let r = rows_with(d, u);
        let a = rows_with(rows, u);
        law_rows_of_a_video(d, u, i);
        assert(rows.last() == rows[rows.len() - 1]);
        if r.contains(i) {
            let k = choose|k: int| 0 <= k < r.len() && r[k] == i;
            assert(a[k] == i);
        }
        if a.contains(i) {
            let k = choose|k: int| 0 <= k < a.len() && a[k] == i;
            if k < r.len() {
                assert(r[k] == i);
            }
        }
        if i == rows.len() - 1 && opt_text(rows[i].source_url) == Some(u) {
            assert(a.last() == i);
        }
    }
}

/// What becomes of an entry: without a row it is missing, with several it is left alone; a row on another disc
/// stays, one that has the number already is as it should be, and any other moves to the place of its entry, unless
/// a track that stays has that number.
pub proof fn law_what_becomes_of_an_entry(entries: Seq<PlaylistEntry>, rows: Seq<LibraryRow>, e: PlaylistEntry, i: int, j: int)
    ensures
        (forall|k: int| 0 <= k < rows.len() ==> opt_text((#[trigger] rows[k]).source_url) != Some(e.url@)) ==> outcome_of(
            entries,
            rows,
            e,
        ) is Missing,
        0 <= i < j < rows.len() && opt_text(rows[i].source_url) == Some(e.url@) && opt_text(rows[j].source_url) == Some(
            e.url@,
        ) ==> outcome_of(entries, rows, e) is Duplicate,
        0 <= i < rows.len() && opt_text(rows[i].source_url) == Some(e.url@) && (forall|k: int|
            0 <= k < rows.len() && k != i ==> opt_text((#[trigger] rows[k]).source_url) != Some(e.url@)) ==> {
            let o = outcome_of(entries, rows, e);
            let first = rows[i].disc_no is None || rows[i].disc_no == Some(1i64);
            &&& !first ==> o is OtherDisc
            &&& first && rows[i].track_no == Some(e.position as i64) ==> o is Unchanged
            &&& first && rows[i].track_no != Some(e.position as i64) ==> o is Moves || o is Taken
            &&& first && rows[i].track_no != Some(e.position as i64) && (forall|k: int|
                0 <= k < rows.len() ==> (#[trigger] rows[k]).track_no != Some(e.position as i64)) ==> o is Moves
            &&& row_for(rows, e) == rows[i]
        },
{
    let m = rows_with(rows, e.url@);
    assert forall|k: int| 0 <= k < m.len() implies 0 <= #[trigger] m[k] < rows.len() && opt_text(
        rows[m[k]].source_url,
    ) == Some(e.url@) by {
        assert(m.contains(m[k]));
        law_rows_of_a_video(rows, e.url@, m[k]);
    }
    law_rows_of_a_video(rows, e.url@, i);
    law_rows_of_a_video(rows, e.url@, j);
    lemma_rows_distinct(rows, e.url@);
    if m.len() > 0 {
        assert(opt_text(rows[m[0]].source_url) == Some(e.url@));
    }
    if 0 <= i < j < rows.len() && m.contains(i) && m.contains(j) {
        let a = choose|a: int| 0 <= a < m.len() && m[a] == i;
        let b = choose|b: int| 0 <= b < m.len() && m[b] == j;
        assert(a != b);
    }
    if 0 <= i < rows.len() && m.contains(i) && (forall|k: int|
        0 <= k < rows.len() && k != i ==> opt_text((#[trigger] rows[k]).source_url) != Some(e.url@)) {
        assert(m[0] == i);
        if m.len() > 1 {
            assert(m[1] == i);
            assert(m[0] != m[1]);
        }
        lemma_no_blocker(entries, rows, e.position as i64, rows.len() as int);
    }
}

proof fn lemma_rows_distinct(rows: Seq<LibraryRow>, u: Seq<char>)
    ensures
        forall|a: int, b: int|
            0 <= a < b < rows_with(rows, u).len() ==> #[trigger] rows_with(rows, u)[a] < #[trigger] rows_with(rows, u)[b],
        forall|a: int| 0 <= a < rows_with(rows, u).len() ==> #[trigger] rows_with(rows, u)[a] < rows.len(),
    decreases rows.len(),
{
    if rows.len() > 0 {
        let d = rows.drop_last();
        let r = rows_with(d, u);
        lemma_rows_distinct(d, u);
        let m = rows_with(rows, u);
        assert forall|a: int, b: int| 0 <= a < b < m.len() implies #[trigger] m[a] < #[trigger] m[b] by {
            assert(m[a] == r[a]);
            if b < r.len() {
                assert(m[b] == r[b]);
            }
        }
        assert forall|a: int| 0 <= a < m.len() implies #[trigger] m[a] < rows.len() by {
            if a < r.len() {
                assert(m[a] == r[a]);
            }
        }
    }
}

/// Each entry that is to move is moved, to its own place; each one without a row is reported; and each that is as it
/// should be is counted.
pub proof fn law_plan_of_a_playlist(entries: Seq<PlaylistEntry>, rows: Seq<LibraryRow>, n: int, x: int)
    requires
        0 <= x < n <= entries.len(),
    ensures
        outcome_of(entries, rows, entries[x]) is Moves ==> exists|k: int|
            0 <= k < moves_upto(entries, rows, n).len() && (#[trigger] moves_upto(entries, rows, n)[k]).track_id == row_for(
                rows,
                entries[x],
            ).track_id && moves_upto(entries, rows, n)[k].target_no == entries[x].position,
        outcome_of(entries, rows, entries[x]) is Missing ==> missing_upto(entries, rows, n).contains(
            entries[x].position,
        ),
        outcome_of(entries, rows, entries[x]) is Unchanged ==> unchanged_upto(entries, rows, n) > 0,
        moves_upto(entries, rows, n).len() + missing_upto(entries, rows, n).len() + unchanged_upto(entries, rows, n) <= n,
    decreases n,
{
    let a = moves_upto(entries, rows, n - 1);
    let b = missing_upto(entries, rows, n - 1);
    let o = outcome_of(entries, rows, entries[x]);
    if n - 1 > 0 {
        law_plan_of_a_playlist(entries, rows, n - 1, if x < n - 1 {
            x
        } else {
            0
        });
    } else {
        assert(a.len() == 0 && b.len() == 0 && unchanged_upto(entries, rows, n - 1) == 0);
    }
    if o is Moves {
        if x < n - 1 {
            let k = choose|k: int|
                0 <= k < a.len() && (#[trigger] a[k]).track_id == row_for(rows, entries[x]).track_id && a[k].target_no
                    == entries[x].position;
            assert(moves_upto(entries, rows, n)[k] == a[k]);
        } else {
            let m = moves_upto(entries, rows, n);
            assert(m[m.len() - 1].track_id == row_for(rows, entries[x]).track_id);
        }
    }
    if o is Missing {
        if x < n - 1 {
            let k = choose|k: int| 0 <= k < b.len() && b[k] == entries[x].position;
            assert(missing_upto(entries, rows, n)[k] == entries[x].position);
        } else {
            assert(missing_upto(entries, rows, n).last() == entries[x].position);
        }
    }
}

/// A track stays fixed that no entry names, and one that two tracks of the album claim to be; a fixed track on the
/// first disc keeps its number from others.
pub proof fn law_fixed_tracks(entries: Seq<PlaylistEntry>, rows: Seq<LibraryRow>, r: LibraryRow, n: i64)
    ensures
        r.source_url is None ==> !is_target(entries, rows, r),
        r.source_url matches Some(u) ==> ((forall|i: int| 0 <= i < entries.len() ==> (#[trigger] entries[i]).url@ != u@)
            ==> !is_target(entries, rows, r)),
        r.source_url is None && r.disc_no is None && r.track_no == Some(n) ==> blocks(entries, rows, r, n),
        r.source_url is None && r.disc_no == Some(1i64) && r.track_no == Some(n) ==> blocks(entries, rows, r, n),
        r.disc_no == Some(2i64) ==> !blocks(entries, rows, r, n),
        r.track_no != Some(n) ==> !blocks(entries, rows, r, n),
{
}

/// A listing is a playlist by its kind; anything else is a single video.
pub proof fn law_kinds_of_listings(kind: Seq<char>)
    ensures
        is_playlist_kind(Some("playlist"@)),
        is_playlist_kind(Some("multi_video"@)),
        !is_playlist_kind(None),
        kind != "playlist"@ && kind != "multi_video"@ ==> !is_playlist_kind(Some(kind)),
{
}

} // verus!
