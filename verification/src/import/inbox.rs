//! The inbox: what a look at its files changes, and what is proposed for what
//! waits there.

use crate::fsroot::{FileKind, FsError, Stat};
use crate::import::draft::{problem_text, track_texts, DraftError, DraftTrack, InboxDraft};
use crate::import::placement::PlacementError;
use crate::import::proposal::{merge_saved, merged_track, or_text, stat_matches, FileRow};
use crate::import::sidecar::{rip_fault, rip_ok, same_rip, RipEntry, RipEntryError, Sidecar};
use crate::relpath::{file_name, file_name_of};
use crate::split::{
    has_prefix, lemma_text_irreflexive, lemma_text_total, lemma_text_transitive, less,
};
use crate::text::{concat2, concat5, int_text, opt_text, same_text, starts_with, text_less, unsigned_to_text};
use crate::unicode::{canonical, canonical_key};
use vstd::prelude::*;
use vstd::string::*;

verus! {

/// How long a directory that was placed stays listed.
pub const PLACED_RETENTION_SECS: i64 = 86_400;

/// Why a discard was called off.
pub const DISCARD_CANCELLED_BY_CHANGE: &'static str =
    "破棄待ちの間にファイルが変わったので削除を取り消した（確かめてからもう一度削除する）";

/// Where a directory of the inbox stands on its way into the library.
#[derive(Debug, Clone, Copy, PartialEq, Eq, Structural)]
pub enum ItemState {
    Pending,
    Approved,
    Placing,
    Placed,
    Failed,
    Rejected,
}

/// Why something of the inbox could not be taken in.
#[derive(Debug)]
pub enum InboxError {
    Draft(DraftError),
    Conflict(String),
    Changed(String),
    Placement(PlacementError),
    Tag(String),
    Fs(FsError),
    Db(String),
    Io(String),
    Cancelled,
}

impl InboxError {
    /// The text that a user reads.
    pub open spec fn text(&self) -> Seq<char> {
        match self {
            InboxError::Draft(e) => "下書きが不正: "@ + problem_text(e@),
            InboxError::Conflict(e) => "配置先が衝突: "@ + e@,
            InboxError::Changed(e) => "Inbox 側が変わった: "@ + e@,
            InboxError::Placement(e) => e.text(),
            InboxError::Tag(e) => "タグを書けない: "@ + e@,
            InboxError::Fs(e) => e.text(),
            InboxError::Db(e) => e@,
            InboxError::Io(e) => e@,
            InboxError::Cancelled => "キャンセルされた"@,
        }
    }

    /// The text that a user reads.
    pub fn message(&self) -> (r: String)
        ensures
            r@ == self.text(),
    {
        match self {
            InboxError::Draft(e) => {
                let m = e.message();
                concat2("下書きが不正: ", &m)
            },
            InboxError::Conflict(e) => concat2("配置先が衝突: ", e),
            InboxError::Changed(e) => concat2("Inbox 側が変わった: ", e),
            InboxError::Placement(e) => e.message(),
            InboxError::Tag(e) => concat2("タグを書けない: ", e),
            InboxError::Fs(e) => e.message(),
            InboxError::Db(e) => e.clone(),
            InboxError::Io(e) => e.clone(),
            InboxError::Cancelled => "キャンセルされた".to_owned(),
        }
    }
}

// ---------------------------------------------------------------- looking at files

/// What an entry of the inbox is to the walk.
#[derive(Debug, Clone, Copy, PartialEq, Eq, Structural)]
pub enum InboxEntry {
    Ignored,
    Directory,
    Audio,
}

/// What an entry of the inbox is to the walk. `valid`: its name may stand in a
/// path; `audio`: its extension is that of a known codec. Hidden entries and
/// those without a name that is text are passed over.
pub fn inbox_entry(name: Option<&str>, kind: FileKind, valid: bool, audio: bool) -> (r: InboxEntry)
    ensures
        r == (match name {
            None => InboxEntry::Ignored,
            Some(n) => if starts_with(n@, "."@) || !valid {
                InboxEntry::Ignored
            } else if kind == FileKind::Dir {
                InboxEntry::Directory
            } else if kind == FileKind::File && audio {
                InboxEntry::Audio
            } else {
                InboxEntry::Ignored
            },
        }),
{
    match name {
        None => InboxEntry::Ignored,
        Some(n) => {
            if has_prefix(n, ".") || !valid {
                InboxEntry::Ignored
            } else if kind == FileKind::Dir {
                InboxEntry::Directory
            } else if kind == FileKind::File && audio {
                InboxEntry::Audio
            } else {
                InboxEntry::Ignored
            }
        },
    }
}

/// A file that the walk saw.
#[derive(Debug)]
pub struct SeenFile {
    pub rel: String,
    pub st: Stat,
}

/// The row of the file with the key.
pub open spec fn row_with_key(rows: Seq<FileRow>, key: Seq<char>) -> Option<int>
    decreases rows.len(),
{
    if rows.len() == 0 {
        None
    } else if canonical(rows.last().rel_path@) == key {
        Some(rows.len() - 1)
    } else {
        row_with_key(rows.drop_last(), key)
    }
}

/// The row of a file still says how it looks.
pub open spec fn row_fits(row: FileRow, st: Stat) -> bool {
    row.inode == st.inode as i64 && row.size == st.size as i64 && row.mtime_ns == st.mtime_ns && row.ctime_ns
        == st.ctime_ns
}

/// The row that is kept for a file, none where it has to be read.
pub open spec fn kept_row(rows: Option<Seq<FileRow>>, s: SeenFile) -> Option<int> {
    match rows {
        Some(r) => match row_with_key(r, canonical(s.rel@)) {
            Some(i) => if row_fits(r[i], s.st) {
                Some(i)
            } else {
                None
            },
            None => None,
        },
        None => None,
    }
}

/// The row of the file with the key.
pub fn find_row_with_key(rows: &Vec<FileRow>, key: &str) -> (r: Option<usize>)
    ensures
        match r {
            Some(i) => row_with_key(rows@, key@) == Some(i as int) && i < rows@.len() && canonical(
                rows@[i as int].rel_path@,
            ) == key@,
            None => row_with_key(rows@, key@) is None,
        },
{
    let mut j: usize = rows.len();
    proof {
        assert(rows@.take(j as int) =~= rows@);
    }
    while j > 0
        invariant
            j <= rows@.len(),
            row_with_key(rows@, key@) == row_with_key(rows@.take(j as int), key@),
        decreases j,
    {
        proof {
            assert(rows@.take(j as int).last() == rows@[j - 1]);
            assert(rows@.take(j as int).drop_last() =~= rows@.take(j - 1));
        }
        let k = canonical_key(&rows[j - 1].rel_path);
        if same_text(&k, key) {
            return Some(j - 1);
        }
        j = j - 1;
    }
    None
}

/// The view of the rows of a directory.
pub open spec fn rows_view(rows: Option<Vec<FileRow>>) -> Option<Seq<FileRow>> {
    match rows {
        Some(v) => Some(v@),
        None => None,
    }
}

/// What a look at a directory gives.
#[derive(Debug)]
pub struct DirSync {
    /// For each file that was seen the row that is kept, none where it is read.
    pub kept: Vec<Option<usize>>,
    /// The rows are written anew.
    pub changed: bool,
}

/// Compares the files of a directory with its rows, none where it has none yet.
/// Files whose look is as it was are not read again.
pub fn sync_dir(rows: &Option<Vec<FileRow>>, seen: &Vec<SeenFile>) -> (r: DirSync)
    ensures
        ({
            let known = rows_view(*rows);
            &&& r.kept@.len() == seen@.len()
            &&& forall|i: int|
                0 <= i < seen@.len() ==> (match #[trigger] r.kept@[i] {
                    Some(k) => kept_row(known, seen@[i]) == Some(k as int),
                    None => kept_row(known, seen@[i]) is None,
                })
            &&& r.changed == (known is None || known->0.len() != seen@.len() || exists|i: int|
                0 <= i < seen@.len() && #[trigger] r.kept@[i] is None)
        }),
{
    let mut kept: Vec<Option<usize>> = Vec::new();
    let mut changed = match rows {
        Some(v) => v.len() != seen.len(),
        None => true,
    };
    let ghost known = rows_view(*rows);
    let ghost first = changed;
    let mut i: usize = 0;
    while i < seen.len()
        invariant
            i <= seen@.len(),
            known == rows_view(*rows),
            first == (known is None || known->0.len() != seen@.len()),
            kept@.len() == i,
            forall|k: int|
                0 <= k < i ==> (match #[trigger] kept@[k] {
                    Some(x) => kept_row(known, seen@[k]) == Some(x as int),
                    None => kept_row(known, seen@[k]) is None,
                }),
            changed == (first || exists|k: int| 0 <= k < i && #[trigger] kept@[k] is None),
        decreases seen@.len() - i,
    {
        let key = canonical_key(&seen[i].rel);
        let found: Option<usize> = match rows {
            Some(v) => match find_row_with_key(v, &key) {
                Some(x) => {
                    if stat_matches(&v[x], &seen[i].st) {
                        Some(x)
                    } else {
                        None
                    }
                },
                None => None,
            },
            None => None,
        };
        let ghost before = kept@;
        let ghost was = changed;
        if found.is_none() {
            changed = true;
        }
        kept.push(found);
        proof {
            assert(kept@[i as int] == found);
            assert forall|k: int| 0 <= k < i implies kept@[k] == before[k] by {}
            if was && !first {
                let k = choose|k: int| 0 <= k < i && #[trigger] before[k] is None;
                assert(kept@[k] is None);
            }
            if exists|k: int| 0 <= k < i + 1 && #[trigger] kept@[k] is None {
                let k = choose|k: int| 0 <= k < i + 1 && #[trigger] kept@[k] is None;
                if k < i {
                    assert(before[k] is None);
                }
            }
        }
        i = i + 1;
    }
    DirSync { kept, changed }
}

/// A file of which the catalogue knew nothing, or which looks otherwise, is
/// always read.
pub proof fn law_changed_files_are_read(rows: Seq<FileRow>, s: SeenFile)
    ensures
        kept_row(Some(rows), s) matches Some(i) ==> 0 <= i < rows.len() && canonical(rows[i].rel_path@) == canonical(
            s.rel@,
        ) && row_fits(rows[i], s.st),
{
    lemma_row_with_key(rows, canonical(s.rel@));
}

proof fn lemma_row_with_key(rows: Seq<FileRow>, key: Seq<char>)
    ensures
        row_with_key(rows, key) matches Some(i) ==> 0 <= i < rows.len() && canonical(rows[i].rel_path@) == key,
    decreases rows.len(),
{
    if rows.len() > 0 && canonical(rows.last().rel_path@) != key {
        lemma_row_with_key(rows.drop_last(), key);
    }
}

/// What a look at a directory counted.
#[derive(Debug, Clone, Copy, PartialEq, Eq, Structural)]
pub struct ScanOutcome {
    pub items_seen: usize,
    pub items_new: usize,
    pub items_removed: usize,
    pub files_read: usize,
}

/// Counts a directory, one more where it is new.
pub fn count_item(o: ScanOutcome, new: bool) -> (r: ScanOutcome)
    requires
        o.items_seen < usize::MAX,
        o.items_new < usize::MAX,
    ensures
        r == (ScanOutcome {
            items_seen: (o.items_seen + 1) as usize,
            items_new: if new {
                (o.items_new + 1) as usize
            } else {
                o.items_new
            },
            items_removed: o.items_removed,
            files_read: o.files_read,
        }),
{
    ScanOutcome {
        items_seen: o.items_seen + 1,
        items_new: if new {
            o.items_new + 1
        } else {
            o.items_new
        },
        items_removed: o.items_removed,
        files_read: o.files_read,
    }
}

/// What a look at its files changes in an item.
#[derive(Debug)]
pub struct ItemSync {
    pub replace_files: bool,
    /// A discard that was asked for is called off, for this reason.
    pub cancel_discard: Option<String>,
    /// The state it goes to, with the reason.
    pub state: Option<(ItemState, String)>,
}

/// What a look at its files changes in an item: nothing while it is placed. Files
/// that changed call off a discard and take an approval back; files that are
/// left, or came, after the item was placed bring it back.
pub fn sync_item(state: ItemState, changed: bool, discard_requested: bool) -> (r: ItemSync)
    ensures
        state == ItemState::Placing ==> !r.replace_files && r.cancel_discard is None && r.state is None,
        state != ItemState::Placing ==> {
            &&& r.replace_files == changed
            &&& opt_text(r.cancel_discard) == (if changed && discard_requested {
                Some(DISCARD_CANCELLED_BY_CHANGE@)
            } else {
                None
            })
            &&& if state == ItemState::Placed {
                r.state matches Some(s) && s.0 == ItemState::Pending && s.1@
                    == "配置の後も Inbox に音声が残っている（再承認で配置し直す）"@
            } else if state == ItemState::Approved && changed {
                r.state matches Some(s) && s.0 == ItemState::Pending && s.1@ == "ファイルが変わったので再承認が必要"@
            } else {
                r.state is None
            }
        },
{
    if state == ItemState::Placing {
        return ItemSync { replace_files: false, cancel_discard: None, state: None };
    }
    let cancel_discard = if changed && discard_requested {
        Some(DISCARD_CANCELLED_BY_CHANGE.to_owned())
    } else {
        None
    };
    let next = if state == ItemState::Placed {
        Some(
            (
                ItemState::Pending,
                "配置の後も Inbox に音声が残っている（再承認で配置し直す）".to_owned(),
            ),
        )
    } else if state == ItemState::Approved && changed {
        Some((ItemState::Pending, "ファイルが変わったので再承認が必要".to_owned()))
    } else {
        None
    };
    ItemSync { replace_files: changed, cancel_discard, state: next }
}

/// Whether an item whose directory is gone is dropped: not while it is placed.
pub fn drops_stale(state: ItemState) -> (r: bool)
    ensures
        r == (state != ItemState::Placing),
{
    state != ItemState::Placing
}

/// What a look at a directory comes to.
#[derive(Debug, Clone, Copy, PartialEq, Eq, Structural)]
pub enum DirOutcome {
    /// None of its files could be read: it is passed over.
    Skip,
    /// It is seen, and its rows stay.
    Keep,
    /// It is seen, and its rows are written anew.
    Replace,
}

/// What a look at a directory comes to. `read` says of each file that was to be
/// read whether it could be.
pub open spec fn outcome_of(kept: Seq<Option<usize>>, changed: bool, read: Seq<bool>) -> DirOutcome {
    if (forall|i: int| 0 <= i < kept.len() ==> #[trigger] kept[i] is None) && (forall|i: int|
        0 <= i < read.len() ==> !#[trigger] read[i]) {
        DirOutcome::Skip
    } else if changed {
        DirOutcome::Replace
    } else {
        DirOutcome::Keep
    }
}

/// What a look at a directory comes to (see [`outcome_of`]).
pub fn dir_outcome(sync: &DirSync, read: &Vec<bool>) -> (r: DirOutcome)
    ensures
        r == outcome_of(sync.kept@, sync.changed, read@),
{
    let after = if sync.changed {
        DirOutcome::Replace
    } else {
        DirOutcome::Keep
    };
    let mut i: usize = 0;
    while i < sync.kept.len()
        invariant
            i <= sync.kept@.len(),
            after == (if sync.changed { DirOutcome::Replace } else { DirOutcome::Keep }),
            forall|k: int| 0 <= k < i ==> #[trigger] sync.kept@[k] is None,
        decreases sync.kept@.len() - i,
    {
        if sync.kept[i].is_some() {
            proof {
                assert(sync.kept@[i as int] is Some);
            }
            return after;
        }
        i = i + 1;
    }
    let mut j: usize = 0;
    while j < read.len()
        invariant
            j <= read@.len(),
            after == (if sync.changed { DirOutcome::Replace } else { DirOutcome::Keep }),
            forall|k: int| 0 <= k < j ==> !#[trigger] read@[k],
        decreases read@.len() - j,
    {
        if read[j] {
            proof {
                assert(read@[j as int]);
            }
            return after;
        }
        j = j + 1;
    }
    DirOutcome::Skip
}

/// How many of the flags are set.
pub open spec fn flags_set(v: Seq<bool>) -> nat
    decreases v.len(),
{
    if v.len() == 0 {
        0
    } else if v.last() {
        flags_set(v.drop_last()) + 1
    } else {
        flags_set(v.drop_last())
    }
}

/// How many of the items are dropped.
pub open spec fn dropped_count(stale: Seq<ItemState>) -> nat
    decreases stale.len(),
{
    if stale.len() == 0 {
        0
    } else if stale.last() != ItemState::Placing {
        dropped_count(stale.drop_last()) + 1
    } else {
        dropped_count(stale.drop_last())
    }
}

/// The time before which items that were placed are dropped, at the time `now`.
pub fn placed_cutoff(now: i64) -> (r: i64)
    requires
        now - PLACED_RETENTION_SECS >= i64::MIN,
    ensures
        r == now - PLACED_RETENTION_SECS,
        now - r == 24 * 60 * 60,
{
    now - PLACED_RETENTION_SECS
}

/// What a look at the whole inbox counted: `new` says of each directory that was
/// seen whether it had no item, `stale` holds the items whose directories are gone,
/// `expired` is how many items were dropped that had been placed before
/// [`placed_cutoff`].
pub fn scan_outcome(new: &Vec<bool>, stale: &Vec<ItemState>, expired: usize, files_read: usize) -> (r: ScanOutcome)
    requires
        dropped_count(stale@) + expired <= usize::MAX,
    ensures
        r.items_seen == new@.len(),
        r.items_new == flags_set(new@),
        r.items_removed == dropped_count(stale@) + expired,
        r.files_read == files_read,
{
    let mut o = ScanOutcome { items_seen: 0, items_new: 0, items_removed: 0, files_read };
    let mut i: usize = 0;
    while i < new.len()
        invariant
            i <= new@.len(),
            o.items_seen == i,
            o.items_new == flags_set(new@.take(i as int)),
            o.items_new <= i,
            o.items_removed == 0,
            o.files_read == files_read,
        decreases new@.len() - i,
    {
        proof {
            assert(new@.take(i + 1).last() == new@[i as int]);
            assert(new@.take(i + 1).drop_last() =~= new@.take(i as int));
        }
        o = count_item(o, new[i]);
        i = i + 1;
    }
    proof {
        assert(new@.take(i as int) =~= new@);
    }
    let mut removed: usize = 0;
    let mut j: usize = 0;
    while j < stale.len()
        invariant
            j <= stale@.len(),
            removed == dropped_count(stale@.take(j as int)),
            removed <= j,
        decreases stale@.len() - j,
    {
        proof {
            assert(stale@.take(j + 1).last() == stale@[j as int]);
            assert(stale@.take(j + 1).drop_last() =~= stale@.take(j as int));
        }
        if drops_stale(stale[j]) {
            removed = removed + 1;
        }
        j = j + 1;
    }
    proof {
        assert(stale@.take(j as int) =~= stale@);
    }
    o.items_removed = removed + expired;
    o
}

// ---------------------------------------------------------------- orders

/// The row `a` comes before the row `b`: by path, else as they stand.
pub open spec fn row_precedes(rows: Seq<FileRow>, a: int, b: int) -> bool {
    text_less(rows[a].rel_path@, rows[b].rel_path@) || (rows[a].rel_path@ == rows[b].rel_path@ && a < b)
}

/// `order` holds every row once, in the order of their paths.
pub open spec fn path_order(rows: Seq<FileRow>, order: Seq<usize>) -> bool {
    &&& forall|i: int, j: int|
        0 <= i < j < order.len() ==> row_precedes(rows, #[trigger] order[i] as int, #[trigger] order[j] as int)
    &&& forall|i: usize| #[trigger] order.contains(i) <==> i < rows.len()
}

/// The rows in the order of their paths.
pub fn order_by_path(rows: &Vec<FileRow>) -> (order: Vec<usize>)
    ensures
        path_order(rows@, order@),
{
    let mut order: Vec<usize> = Vec::new();
    let mut i: usize = 0;
    while i < rows.len()
        invariant
            i <= rows@.len(),
            forall|a: int, b: int|
                0 <= a < b < order@.len() ==> row_precedes(
                    rows@,
                    #[trigger] order@[a] as int,
                    #[trigger] order@[b] as int,
                ),
            forall|x: usize| #[trigger] order@.contains(x) <==> x < i,
        decreases rows@.len() - i,
    {
        let ghost before = order@;
        proof {
            assert forall|k: int| 0 <= k < before.len() implies #[trigger] before[k] < i by {
                assert(before.contains(before[k]));
            }
        }
        let mut at: usize = order.len();
        while at > 0 && less(&rows[i].rel_path, &rows[order[at - 1]].rel_path)
            invariant
                i < rows@.len(),
                order@ == before,
                at <= before.len(),
                forall|k: int| 0 <= k < before.len() ==> #[trigger] before[k] < i,
                forall|k: int|
                    at <= k < before.len() ==> text_less(
                        rows@[i as int].rel_path@,
                        rows@[#[trigger] before[k] as int].rel_path@,
                    ),
            decreases at,
        {
            at = at - 1;
        }
        order.insert(at, i);
        proof {
            let after = order@;
            assert(after == before.insert(at as int, i));
            assert forall|k: int| 0 <= k < at implies row_precedes(
                rows@,
                #[trigger] before[k] as int,
                i as int,
            ) by {
                let x = rows@[before[at - 1] as int].rel_path@;
                let y = rows@[i as int].rel_path@;
                lemma_text_total(x, y);
                assert(before[at - 1] < i);
                assert(row_precedes(rows@, before[at - 1] as int, i as int));
                if k < at - 1 {
                    assert(row_precedes(rows@, before[k] as int, before[at - 1] as int));
                    let w = rows@[before[k] as int].rel_path@;
                    if text_less(w, x) && text_less(x, y) {
                        lemma_text_transitive(w, x, y);
                    }
                    assert(before[k] < i);
                }
            }
            assert forall|a: int, b: int| 0 <= a < b < after.len() implies row_precedes(
                rows@,
                #[trigger] after[a] as int,
                #[trigger] after[b] as int,
            ) by {
                if b < at {
                    assert(row_precedes(rows@, before[a] as int, before[b] as int));
                } else if b == at {
                    assert(row_precedes(rows@, before[a] as int, i as int));
                } else if a < at {
                    assert(row_precedes(rows@, before[a] as int, before[b - 1] as int));
                } else if a == at {
                    assert(text_less(rows@[i as int].rel_path@, rows@[before[b - 1] as int].rel_path@));
                } else {
                    assert(row_precedes(rows@, before[a - 1] as int, before[b - 1] as int));
                }
            }
            assert forall|x: usize| #[trigger] after.contains(x) <==> x < i + 1 by {
                if after.contains(x) {
                    let k = choose|k: int| 0 <= k < after.len() && after[k] == x;
                    if k < at {
                        assert(before[k] == x);
                    } else if k > at {
                        assert(before[k - 1] == x);
                    }
                }
                if before.contains(x) {
                    let k = choose|k: int| 0 <= k < before.len() && before[k] == x;
                    if k < at {
                        assert(after[k] == x);
                    } else {
                        assert(after[k + 1] == x);
                    }
                }
                if x == i {
                    assert(after[at as int] == x);
                }
            }
        }
        i = i + 1;
    }
    order
}

// ---------------------------------------------------------------- discs

/// The record of a disc bound to the tracks of a draft.
#[derive(Debug)]
pub struct RipBinding {
    /// The record.
    pub entry: RipEntry,
    /// For each track of the draft its place in the record.
    pub index: Vec<usize>,
    /// The disc that all tracks of the draft are on.
    pub disc_no: u32,
}

/// The place of the track `i` of a draft in the record.
pub open spec fn binds(e: RipEntry, tracks: Seq<DraftTrack>, i: int, at: int) -> bool {
    &&& 0 <= at < e.files@.len()
    &&& canonical(e.files@[at]@) == canonical(file_name_of(tracks[i].rel_path@))
    &&& forall|k: int|
        0 <= k < at ==> canonical((#[trigger] e.files@[k])@) != canonical(file_name_of(tracks[i].rel_path@))
}

/// The file of the track `i` is not in the record.
pub open spec fn unbound(e: RipEntry, tracks: Seq<DraftTrack>, i: int) -> bool {
    forall|k: int|
        0 <= k < e.files@.len() ==> canonical((#[trigger] e.files@[k])@) != canonical(
            file_name_of(tracks[i].rel_path@),
        )
}

/// Another track before `i` has its place in the record.
pub open spec fn bound_twice(e: RipEntry, tracks: Seq<DraftTrack>, i: int) -> bool {
    exists|j: int, at: int| 0 <= j < i && #[trigger] binds(e, tracks, j, at) && binds(e, tracks, i, at)
}

/// The first track that cannot be bound.
pub open spec fn first_unbound(e: RipEntry, tracks: Seq<DraftTrack>, i: int) -> bool {
    &&& 0 <= i < tracks.len()
    &&& unbound(e, tracks, i) || bound_twice(e, tracks, i)
    &&& forall|k: int| 0 <= k < i ==> !#[trigger] unbound(e, tracks, k) && !bound_twice(e, tracks, k)
}

/// All tracks are on one disc.
pub open spec fn one_disc(tracks: Seq<DraftTrack>) -> bool {
    tracks.len() > 0 && forall|i: int| 0 <= i < tracks.len() ==> (#[trigger] tracks[i]).disc_no == tracks[0].disc_no
}

/// `r` is what binding the record of a disc to the tracks of a draft gives.
pub open spec fn bind_is(
    r: Result<RipBinding, String>,
    entry: RipEntry,
    audio_tracks: Result<usize, String>,
    draft: InboxDraft,
) -> bool {
    match r {
        Ok(b) => {
            &&& rip_ok(entry, audio_tracks)
            &&& draft.tracks@.len() == entry.files@.len()
            &&& b.index@.len() == draft.tracks@.len()
            &&& forall|i: int|
                0 <= i < b.index@.len() ==> binds(entry, draft.tracks@, i, #[trigger] b.index@[i] as int)
            &&& b.index@.no_duplicates()
            &&& one_disc(draft.tracks@)
            &&& b.disc_no == draft.tracks@[0].disc_no
            &&& same_rip(b.entry, entry)
        },
        Err(m) => if !rip_ok(entry, audio_tracks) {
            exists|e: RipEntryError| #[trigger] rip_fault(entry, audio_tracks, e) && m@ == e.text()
        } else if draft.tracks@.len() != entry.files@.len() {
            m@ == "件のファイル数（"@ + int_text(draft.tracks@.len() as int) + "）が記録のトラック数（"@ + int_text(
                entry.files@.len() as int,
            ) + "）と違う"@
        } else if exists|i: int| first_unbound(entry, draft.tracks@, i) {
            exists|i: int| #[trigger]
                first_unbound(entry, draft.tracks@, i) && m@ == (if unbound(entry, draft.tracks@, i) {
                    "記録に無いファイル: "@
                } else {
                    "記録の同じトラックに 2 本が対応する: "@
                }) + draft.tracks@[i].rel_path@
        } else {
            !one_disc(draft.tracks@) && m@ == "1 枚の吸い出しなのにディスク番号が揃っていない"@
        },
    }
}

/// Binds the record of a disc to the tracks of a draft by the names of their
/// files: numbers and titles may have been corrected, names stay. Refused where
/// the record is ill-formed, does not match the files one to one, or the draft
/// spreads over several discs. `audio_tracks` is the number of audio tracks in
/// the table of contents, or why that could not be read.
pub fn bind_rip(entry: &RipEntry, audio_tracks: Result<usize, String>, draft: &InboxDraft) -> (r: Result<
    RipBinding,
    String,
>)
    ensures
        bind_is(r, *entry, audio_tracks, *draft),
{
    match entry.check(audio_tracks) {
        Ok(()) => {},
        Err(e) => {
            let text = e.message();
            proof {
                assert(rip_fault(*entry, audio_tracks, e));
            }
            return Err(text);
        },
    }
    let n: usize = draft.tracks.len();
    if n != entry.files.len() {
        let a = unsigned_to_text(n as u64);
        let b = unsigned_to_text(entry.files.len() as u64);
        return Err(concat5("件のファイル数（", &a, "）が記録のトラック数（", &b, "）と違う"));
    }
    let mut index: Vec<usize> = Vec::new();
    let mut i: usize = 0;
    while i < n
        invariant
            i <= n,
            n == draft.tracks@.len(),
            n == entry.files@.len(),
            rip_ok(*entry, audio_tracks),
            index@.len() == i,
            forall|k: int| 0 <= k < i ==> binds(*entry, draft.tracks@, k, #[trigger] index@[k] as int),
            index@.no_duplicates(),
            forall|k: int|
                0 <= k < i ==> !#[trigger] unbound(*entry, draft.tracks@, k) && !bound_twice(*entry, draft.tracks@, k),
        decreases n - i,
    {
        let t = &draft.tracks[i];
        let name = file_name(&t.rel_path);
        match entry.index_of(&name) {
            None => {
                proof {
                    assert(unbound(*entry, draft.tracks@, i as int));
                    assert(first_unbound(*entry, draft.tracks@, i as int));
                }
                return Err(concat2("記録に無いファイル: ", &t.rel_path));
            },
            Some(at) => {
                proof {
                    assert(binds(*entry, draft.tracks@, i as int, at as int));
                    assert(!unbound(*entry, draft.tracks@, i as int)) by {
                        assert(canonical(entry.files@[at as int]@) == canonical(
                            file_name_of(draft.tracks@[i as int].rel_path@),
                        ));
                    }
                }
                let mut seen = false;
                let mut j: usize = 0;
                while j < index.len()
                    invariant
                        j <= index@.len(),
                        seen == exists|k: int| 0 <= k < j && #[trigger] index@[k] == at,
                    decreases index@.len() - j,
                {
                    if index[j] == at {
                        seen = true;
                    }
                    j = j + 1;
                }
                if seen {
                    proof {
                        let k = choose|k: int| 0 <= k < index@.len() && #[trigger] index@[k] == at;
                        assert(binds(*entry, draft.tracks@, k, at as int));
                        assert(bound_twice(*entry, draft.tracks@, i as int));
                        assert(first_unbound(*entry, draft.tracks@, i as int));
                    }
                    return Err(concat2("記録の同じトラックに 2 本が対応する: ", &t.rel_path));
                }
                proof {
                    if bound_twice(*entry, draft.tracks@, i as int) {
                        let (k, x) = choose|k: int, x: int|
                            0 <= k < i && #[trigger] binds(*entry, draft.tracks@, k, x) && binds(
                                *entry,
                                draft.tracks@,
                                i as int,
                                x,
                            );
                        lemma_binds_once(*entry, draft.tracks@, i as int, x, at as int);
                        lemma_binds_once(*entry, draft.tracks@, k, x, index@[k] as int);
                        assert(index@[k] == at);
                    }
                    assert forall|k: int| 0 <= k < i + 1 implies !#[trigger] unbound(*entry, draft.tracks@, k)
                        && !bound_twice(*entry, draft.tracks@, k) by {
                        if k < i {
                            assert(!unbound(*entry, draft.tracks@, k));
                        } else {
                            assert(k == i);
                        }
                    }
                }
                index.push(at);
            },
        }
        i = i + 1;
    }
    proof {
        assert forall|k: int| !first_unbound(*entry, draft.tracks@, k) by {}
    }
    if n == 0 {
        return Err("1 枚の吸い出しなのにディスク番号が揃っていない".to_owned());
    }
    let disc_no: u32 = draft.tracks[0].disc_no;
    let mut k: usize = 0;
    while k < n
        invariant
            k <= n,
            n == draft.tracks@.len(),
            n > 0,
            n == entry.files@.len(),
            rip_ok(*entry, audio_tracks),
            disc_no == draft.tracks@[0].disc_no,
            forall|x: int| !first_unbound(*entry, draft.tracks@, x),
            forall|x: int| 0 <= x < k ==> (#[trigger] draft.tracks@[x]).disc_no == disc_no,
        decreases n - k,
    {
        if draft.tracks[k].disc_no != disc_no {
            proof {
                assert(draft.tracks@[k as int].disc_no != draft.tracks@[0].disc_no);
            }
            return Err("1 枚の吸い出しなのにディスク番号が揃っていない".to_owned());
        }
        k = k + 1;
    }
    Ok(RipBinding { entry: entry.copy(), index, disc_no })
}

proof fn lemma_binds_once(e: RipEntry, tracks: Seq<DraftTrack>, i: int, a: int, b: int)
    requires
        binds(e, tracks, i, a),
        binds(e, tracks, i, b),
    ensures
        a == b,
{
}

// ---------------------------------------------------------------- proposing

/// What a proposal takes from the file that travels with the files: the
/// category it names, if that is known, and whether it is the record of a disc.
pub open spec fn known_category(categories: Seq<(i64, String)>, name: Seq<char>) -> Option<Seq<char>>
    decreases categories.len(),
{
    if categories.len() == 0 {
        None
    } else if canonical(categories[0].1@) == canonical(name) {
        Some(categories[0].1@)
    } else {
        known_category(categories.drop_first(), name)
    }
}

fn find_known_category(categories: &Vec<(i64, String)>, name: &str) -> (r: Option<String>)
    ensures
        opt_text(r) == known_category(categories@, name@),
{
    let key = canonical_key(name);
    let mut i: usize = 0;
    proof {
        assert(categories@.skip(0) =~= categories@);
    }
    while i < categories.len()
        invariant
            i <= categories@.len(),
            key@ == canonical(name@),
            known_category(categories@, name@) == known_category(categories@.skip(i as int), name@),
        decreases categories@.len() - i,
    {
        proof {
            assert(categories@.skip(i as int)[0] == categories@[i as int]);
            assert(categories@.skip(i as int).drop_first() =~= categories@.skip(i + 1));
        }
        let k = canonical_key(&categories[i].1);
        if same_text(&k, &key) {
            return Some(categories[i].1.clone());
        }
        i = i + 1;
    }
    None
}

/// What the category of a proposal is.
pub open spec fn proposed_category(d: InboxDraft, named: Option<Seq<char>>, categories: Seq<(i64, String)>) -> Option<
    Seq<char>,
> {
    match named {
        Some(name) => match known_category(categories, name) {
            Some(c) => Some(c),
            None => opt_text(d.category),
        },
        None => opt_text(d.category),
    }
}

/// Completes the draft that the tags gave: with the category that the file
/// beside it names, as an album that is levelled as a whole where it is a disc,
/// and with what was saved of an earlier draft. Gives the draft and the warning
/// that a category is not known.
pub fn propose_draft(
    draft: InboxDraft,
    named: Option<&str>,
    is_disc: bool,
    categories: &Vec<(i64, String)>,
    saved: Option<&InboxDraft>,
) -> (r: (InboxDraft, Option<String>))
    ensures
        draft.wf() && (saved matches Some(s) ==> s.wf()) ==> r.0.wf(),
        ({
            let name = match named {
                Some(n) => Some(n@),
                None => None,
            };
            &&& opt_text(r.1) == (match name {
                Some(n) => if known_category(categories@, n) is None {
                    Some("サイドカーの category が語彙に無い: "@ + n)
                } else {
                    None
                },
                None => None,
            })
            &&& match saved {
                Some(s) => {
                    &&& opt_text(r.0.category) == opt_text(s.category)
                    &&& r.0.albumartist@ == s.albumartist@
                    &&& r.0.album@ == s.album@
                    &&& opt_text(r.0.date) == opt_text(s.date)
                    &&& r.0.album_gain == s.album_gain
                    &&& opt_text(r.0.release_id) == or_text(s.release_id, draft.release_id)
                    &&& opt_text(r.0.release_group_id) == or_text(s.release_group_id, draft.release_group_id)
                    &&& track_texts(r.0.tracks@) == draft.tracks@.map_values(
                        |p: DraftTrack| merged_track(s.tracks@, p),
                    )
                },
                None => {
                    &&& opt_text(r.0.category) == proposed_category(draft, name, categories@)
                    &&& r.0.albumartist == draft.albumartist
                    &&& r.0.album == draft.album
                    &&& r.0.date == draft.date
                    &&& r.0.album_gain == (draft.album_gain || is_disc)
                    &&& r.0.release_id == draft.release_id
                    &&& r.0.release_group_id == draft.release_group_id
                    &&& r.0.tracks == draft.tracks
                },
            }
        }),
{
    let mut d = draft;
    let mut warning: Option<String> = None;
    if let Some(name) = named {
        match find_known_category(categories, name) {
            Some(c) => {
                d.category = Some(c);
            },
            None => {
                warning = Some(concat2("サイドカーの category が語彙に無い: ", name));
            },
        }
    }
    if is_disc {
        d.album_gain = true;
    }
    match saved {
        Some(s) => (merge_saved(s, &d), warning),
        None => (d, warning),
    }
}

/// Whether the album that an item goes to is looked up: not once it is placed,
/// since that would find the item itself.
pub fn looks_up_destination(state: ItemState) -> (r: bool)
    ensures
        r == (state != ItemState::Placed),
{
    state != ItemState::Placed
}

/// Where in the file that travels with the files the one at `rel_path` stands.
pub fn source_of(sidecar: &Sidecar, rel_path: &str) -> (r: Option<usize>)
    ensures
        match r {
            Some(i) => i < sidecar.files@.len() && crate::import::sidecar::entry_at(
                sidecar.files@,
                file_name_of(rel_path@),
            ) == Some(sidecar.files@[i as int].1),
            None => crate::import::sidecar::entry_at(sidecar.files@, file_name_of(rel_path@)) is None,
        },
{
    let name = file_name(rel_path);
    sidecar.find(&name)
}

/// What is asked of the database of discs for an item.
#[derive(Debug)]
pub struct RipLookup {
    pub toc: String,
    pub isrcs: Vec<Option<String>>,
    pub mcn: Option<String>,
}

/// The warning that the record of a disc does not match.
pub fn rip_mismatch_warning(reason: &str) -> (r: String)
    ensures
        r@ == "吸い出しの記録と件が合わない（このままでは配置できない）: "@ + reason@,
{
    concat2("吸い出しの記録と件が合わない（このままでは配置できない）: ", reason)
}

/// A track of the album with the same title.
#[derive(Debug)]
pub struct SameTitle {
    pub track_id: i64,
    pub rel_path: String,
    pub duration_ms: Option<i64>,
}

// ---------------------------------------------------------------- pictures

/// What follows a file that was opened, or could not be, to find a picture in it.
#[derive(Debug, Clone, Copy, PartialEq, Eq, Structural)]
pub enum PictureSearch {
    /// Look for the picture among those of the file.
    Look,
    /// Try the next file.
    Next,
    /// Give up.
    Fail,
}

/// What a failure to open a file means: a file that is gone, behind a link or
/// outside is passed over. `gone`: an I/O failure says that it is gone.
pub fn picture_open_failed(e: &FsError, gone: bool) -> (r: PictureSearch)
    ensures
        r == (match *e {
            FsError::NotFound => PictureSearch::Next,
            FsError::Symlink => PictureSearch::Next,
            FsError::Escaped => PictureSearch::Next,
            FsError::Io(_) => if gone {
                PictureSearch::Next
            } else {
                PictureSearch::Fail
            },
            _ => PictureSearch::Fail,
        }),
{
    match e {
        FsError::NotFound => PictureSearch::Next,
        FsError::Symlink => PictureSearch::Next,
        FsError::Escaped => PictureSearch::Next,
        FsError::Io(_) => {
            if gone {
                PictureSearch::Next
            } else {
                PictureSearch::Fail
            }
        },
        _ => PictureSearch::Fail,
    }
}

/// Why the pictures of a file could not be read.
#[derive(Debug, Clone, Copy, PartialEq, Eq, Structural)]
pub enum ReadFault {
    /// The file is in no known form.
    Format,
    Gone,
    /// The file ends too early.
    Short,
    Other,
}

/// What a failure to read a file means: one that is not in a known form is
/// passed over, any other failure ends the search.
pub fn picture_read_failed(fault: ReadFault) -> (r: PictureSearch)
    ensures
        r == (if fault == ReadFault::Other {
            PictureSearch::Fail
        } else {
            PictureSearch::Next
        }),
{
    if fault == ReadFault::Other {
        PictureSearch::Fail
    } else {
        PictureSearch::Next
    }
}

/// A picture inside a file: its digest in hexadecimal, and whether it is one of
/// a known form.
#[derive(Debug)]
pub struct FilePicture {
    pub hash: String,
    pub known: bool,
}

/// The first picture of the file with the digest that is one of a known form.
pub fn embedded_picture(pictures: &Vec<FilePicture>, hash: &str) -> (r: Option<usize>)
    ensures
        match r {
            Some(i) => i < pictures@.len() && pictures@[i as int].hash@ == hash@ && pictures@[i as int].known && forall|
                k: int,
            | 0 <= k < i ==> !((#[trigger] pictures@[k]).hash@ == hash@ && pictures@[k].known),
            None => forall|k: int|
                0 <= k < pictures@.len() ==> !((#[trigger] pictures@[k]).hash@ == hash@ && pictures@[k].known),
        },
{
    let mut i: usize = 0;
    while i < pictures.len()
        invariant
            i <= pictures@.len(),
            forall|k: int| 0 <= k < i ==> !((#[trigger] pictures@[k]).hash@ == hash@ && pictures@[k].known),
        decreases pictures@.len() - i,
    {
        if pictures[i].known && same_text(&pictures[i].hash, hash) {
            return Some(i);
        }
        i = i + 1;
    }
    None
}

// ---------------------------------------------------------------- laws

/// A file is told by its path: its row is one with the same key, and it has none where no row has the key.
pub proof fn law_row_of_a_file(rows: Seq<FileRow>, key: Seq<char>)
    ensures
        match row_with_key(rows, key) {
            Some(i) => 0 <= i < rows.len() && canonical(rows[i].rel_path@) == key,
            None => forall|i: int| 0 <= i < rows.len() ==> canonical((#[trigger] rows[i]).rel_path@) != key,
        },
    decreases rows.len(),
{
    if rows.len() > 0 && canonical(rows.last().rel_path@) != key {
        law_row_of_a_file(rows.drop_last(), key);
        assert forall|i: int| 0 <= i < rows.len() - 1 implies #[trigger] rows[i] == rows.drop_last()[i] by {}
    }
}

/// A file that was changed is told from its row by any of four marks: another inode, another size, another
/// time of its content, another time of its state.
pub proof fn law_changed_file_does_not_fit(row: FileRow, st: Stat)
    ensures
        row.size != st.size as i64 ==> !row_fits(row, st),
        row.inode != st.inode as i64 ==> !row_fits(row, st),
        row.mtime_ns != st.mtime_ns ==> !row_fits(row, st),
        row.ctime_ns != st.ctime_ns ==> !row_fits(row, st),
        row.size == st.size as i64 && row.inode == st.inode as i64 && row.mtime_ns == st.mtime_ns && row.ctime_ns
            == st.ctime_ns ==> row_fits(row, st),
{
}

/// A directory in which nothing could be read is passed over, one that changed is taken anew, and any other
/// is kept.
pub proof fn law_what_becomes_of_a_directory(kept: Seq<Option<usize>>, changed: bool, read: Seq<bool>, i: int)
    ensures
        kept.len() == 0 && read.len() == 0 ==> outcome_of(kept, changed, read) == DirOutcome::Skip,
        0 <= i < kept.len() && kept[i] is Some ==> outcome_of(kept, changed, read) == (if changed {
            DirOutcome::Replace
        } else {
            DirOutcome::Keep
        }),
        0 <= i < read.len() && read[i] ==> outcome_of(kept, changed, read) == (if changed {
            DirOutcome::Replace
        } else {
            DirOutcome::Keep
        }),
{
}

/// Every item that is stale goes, but for one that is being placed.
pub proof fn law_items_being_placed_stay(stale: Seq<ItemState>)
    ensures
        dropped_count(stale) <= stale.len(),
        (forall|i: int| 0 <= i < stale.len() ==> #[trigger] stale[i] != ItemState::Placing) ==> dropped_count(stale)
            == stale.len(),
        (forall|i: int| 0 <= i < stale.len() ==> #[trigger] stale[i] == ItemState::Placing) ==> dropped_count(stale)
            == 0,
    decreases stale.len(),
{
    if stale.len() > 0 {
        let d = stale.drop_last();
        assert(stale.last() == stale[stale.len() - 1]);
        assert forall|i: int| 0 <= i < d.len() implies #[trigger] d[i] == stale[i] by {}
        law_items_being_placed_stay(d);
    }
}

/// A category that is named is taken where there is one of that name, spelled as it is known; else the
/// category of the tags stays.
pub proof fn law_named_category(d: InboxDraft, name: Seq<char>, categories: Seq<(i64, String)>, c: int)
    ensures
        0 <= c < categories.len() && canonical(categories[c].1@) == canonical(name) && (forall|j: int|
            0 <= j < c ==> canonical((#[trigger] categories[j]).1@) != canonical(name)) ==> proposed_category(
            d,
            Some(name),
            categories,
        ) == Some(categories[c].1@),
        (forall|j: int| 0 <= j < categories.len() ==> canonical((#[trigger] categories[j]).1@) != canonical(name))
            ==> proposed_category(d, Some(name), categories) == opt_text(d.category),
        proposed_category(d, None, categories) == opt_text(d.category),
{
    lemma_known_category(categories, name, c);
}

proof fn lemma_known_category(categories: Seq<(i64, String)>, name: Seq<char>, c: int)
    ensures
        0 <= c < categories.len() && canonical(categories[c].1@) == canonical(name) && (forall|j: int|
            0 <= j < c ==> canonical((#[trigger] categories[j]).1@) != canonical(name)) ==> known_category(
            categories,
            name,
        ) == Some(categories[c].1@),
        (forall|j: int| 0 <= j < categories.len() ==> canonical((#[trigger] categories[j]).1@) != canonical(name))
            ==> known_category(categories, name) is None,
    decreases categories.len(),
{
    if categories.len() > 0 {
        let d = categories.drop_first();
        lemma_known_category(d, name, c - 1);
        assert forall|j: int| 0 <= j < d.len() implies #[trigger] d[j] == categories[j + 1] by {}
    }
}

/// A record of a disc is bound to the files of an item one to one, by their names.
pub proof fn law_bound_one_to_one(
    r: Result<RipBinding, String>,
    entry: RipEntry,
    audio_tracks: Result<usize, String>,
    draft: InboxDraft,
    i: int,
    j: int,
)
    requires
        bind_is(r, entry, audio_tracks, draft),
        r is Ok,
        0 <= i < draft.tracks@.len(),
        0 <= j < draft.tracks@.len(),
    ensures
        draft.tracks@.len() == entry.files@.len(),
        (r->Ok_0).index@[i] < entry.files@.len(),
        canonical(entry.files@[(r->Ok_0).index@[i] as int]@) == canonical(file_name_of(draft.tracks@[i].rel_path@)),
        i != j ==> (r->Ok_0).index@[i] != (r->Ok_0).index@[j],
        draft.tracks@[i].disc_no == (r->Ok_0).disc_no,
{
    let b = r->Ok_0;
    assert(binds(entry, draft.tracks@, i, b.index@[i] as int));
}

/// Rows are listed by their paths, each of them once.
pub proof fn law_rows_by_path(rows: Seq<FileRow>, order: Seq<usize>, i: int, j: int)
    requires
        path_order(rows, order),
    ensures
        0 <= i < j < order.len() ==> text_less(rows[order[i] as int].rel_path@, rows[order[j] as int].rel_path@)
            || rows[order[i] as int].rel_path@ == rows[order[j] as int].rel_path@,
        0 <= i < rows.len() <= usize::MAX ==> exists|k: int| 0 <= k < order.len() && (#[trigger] order[k]) == i,
        0 <= i < j < order.len() ==> order[i] != order[j],
{
    if 0 <= i < j < order.len() {
        assert(row_precedes(rows, order[i] as int, order[j] as int));
        if order[i] == order[j] {
            lemma_text_irreflexive(rows[order[i] as int].rel_path@);
        }
    }
    if 0 <= i < rows.len() <= usize::MAX {
        assert(order.contains(i as usize));
        let k = choose|k: int| 0 <= k < order.len() && order[k] == i as usize;
        assert(order[k] == i);
    }
}

/// The new items are those that are marked so.
pub proof fn law_new_items_are_counted(v: Seq<bool>)
    ensures
        flags_set(v) <= v.len(),
        (forall|i: int| 0 <= i < v.len() ==> #[trigger] v[i]) ==> flags_set(v) == v.len(),
        (forall|i: int| 0 <= i < v.len() ==> !#[trigger] v[i]) ==> flags_set(v) == 0,
        flags_set(v.push(true)) == flags_set(v) + 1,
        flags_set(v.push(false)) == flags_set(v),
    decreases v.len(),
{
    assert(v.push(true).drop_last() =~= v);
    assert(v.push(false).drop_last() =~= v);
    if v.len() > 0 {
        let d = v.drop_last();
        assert(v.last() == v[v.len() - 1]);
        assert forall|i: int| 0 <= i < d.len() implies #[trigger] d[i] == v[i] by {}
        law_new_items_are_counted(d);
    }
}

/// A file that stands as its row says is kept as it was read; one that changed, or that no row knows, is read.
pub proof fn law_kept_rows(rows: Seq<FileRow>, s: SeenFile, i: int)
    requires
        0 <= i < rows.len(),
        canonical(rows[i].rel_path@) == canonical(s.rel@),
        forall|j: int| 0 <= j < rows.len() && j != i ==> canonical((#[trigger] rows[j]).rel_path@) != canonical(s.rel@),
    ensures
        rows[i].inode == s.st.inode as i64 && rows[i].size == s.st.size as i64 && rows[i].mtime_ns == s.st.mtime_ns
            && rows[i].ctime_ns == s.st.ctime_ns ==> kept_row(Some(rows), s) == Some(i),
        rows[i].mtime_ns != s.st.mtime_ns || rows[i].size != s.st.size as i64 ==> kept_row(Some(rows), s) is None,
        kept_row(None, s) is None,
{
    law_row_of_a_file(rows, canonical(s.rel@));
}

} // verus!
