//! Taking the inventory of the library: what the walk does with each entry of
//! a directory, and what it keeps of it.

use crate::catalog::{Codec, Physical};
use crate::fsroot::{FileKind, FsError, Stat, TMP_PREFIX};
use crate::import::scanner::{join_display, ScanError, SkipReason, Skipped};
use crate::relpath::{join_path, joined_path};
use crate::split::{has_member, has_prefix};
use crate::text::{opt_str, opt_text, same_text, starts_with, texts};
use crate::unicode::{canonical, canonical_key};
use vstd::prelude::*;
use vstd::string::*;

verus! {

/// How a cover image looked when it was found.
#[derive(Debug, Clone, Copy, PartialEq, Eq, Structural)]
pub struct CoverStat {
    pub inode: i64,
    pub size: i64,
    pub mtime_ns: i64,
    pub ctime_ns: i64,
}

impl CoverStat {
    /// What is kept of a stat.
    pub fn of(st: &Stat) -> (r: CoverStat)
        ensures
            r.inode == st.inode as i64,
            r.size == st.size as i64,
            r.mtime_ns == st.mtime_ns,
            r.ctime_ns == st.ctime_ns,
    {
        CoverStat {
            inode: st.inode as i64,
            size: st.size as i64,
            mtime_ns: st.mtime_ns,
            ctime_ns: st.ctime_ns,
        }
    }
}

/// A cover image in a directory. The lower the rank, the better.
#[derive(Debug, Clone)]
pub struct CoverEntry {
    pub rel: String,
    pub rank: u8,
    pub stat: CoverStat,
}

/// An audio file that the walk found.
#[derive(Debug, Clone)]
pub struct InvEntry {
    pub rel: String,
    pub key: String,
    /// The directory, none at the root.
    pub dir: Option<String>,
    pub dir_key: String,
    pub ph: Physical,
    pub ext_codec: Codec,
}

/// What the walk found.
#[derive(Debug)]
pub struct Inventory {
    pub entries: Vec<InvEntry>,
    pub skipped: Vec<Skipped>,
    pub tmp_removed: u64,
    /// The best cover image of each directory, under the key of the directory.
    pub covers: Vec<(String, CoverEntry)>,
    /// The keys of the directories that hold a signed log.
    pub rip_dirs: Vec<String>,
}

/// The keys of the entries.
pub open spec fn entry_keys(v: Seq<InvEntry>) -> Seq<Seq<char>> {
    v.map_values(|e: InvEntry| e.key@)
}

/// The key of a directory; empty at the root.
pub open spec fn dir_key_of(dir: Option<Seq<char>>) -> Seq<char> {
    match dir {
        Some(d) => canonical(d),
        None => Seq::empty(),
    }
}

/// The cover kept for the directory with key `k`.
pub open spec fn cover_of(covers: Seq<(String, CoverEntry)>, k: Seq<char>) -> Option<CoverEntry>
    decreases covers.len(),
{
    if covers.len() == 0 {
        None
    } else if covers[0].0@ == k {
        Some(covers[0].1)
    } else {
        cover_of(covers.drop_first(), k)
    }
}

/// The rank of a cover that is kept.
pub open spec fn rank_of(c: Option<CoverEntry>) -> Option<u8> {
    match c {
        Some(e) => Some(e.rank),
        None => None,
    }
}

impl Inventory {
    /// No two entries share a key, and each entry carries the keys of its own
    /// path and of its directory.
    pub open spec fn wf(&self) -> bool {
        &&& entry_keys(self.entries@).no_duplicates()
        &&& forall|i: int|
            0 <= i < self.entries@.len() ==> {
                let e = #[trigger] self.entries@[i];
                &&& e.key@ == canonical(e.rel@)
                &&& e.dir_key@ == dir_key_of(opt_text(e.dir))
            }
    }

    /// An inventory that holds nothing yet.
    pub fn new() -> (r: Inventory)
        ensures
            r.wf(),
            r.entries@.len() == 0,
            r.skipped@.len() == 0,
            r.tmp_removed == 0,
            r.covers@.len() == 0,
            r.rip_dirs@.len() == 0,
    {
        let r = Inventory {
            entries: Vec::new(),
            skipped: Vec::new(),
            tmp_removed: 0,
            covers: Vec::new(),
            rip_dirs: Vec::new(),
        };
        proof {
            assert(entry_keys(r.entries@) =~= Seq::<Seq<char>>::empty());
        }
        r
    }
}

/// An entry of a directory, with what its name says.
#[derive(Debug)]
pub struct ListedEntry {
    /// The name, none where it is no text.
    pub name: Option<String>,
    /// The name as shown to a user.
    pub shown: String,
    pub kind: FileKind,
    /// The name may stand in a path of the library.
    pub valid: bool,
    /// The rank of a cover image of this name.
    pub cover_rank: Option<u8>,
    /// The name is that of a log.
    pub rip_log: bool,
    /// The codec of the extension.
    pub codec: Option<Codec>,
}

/// What an entry of a directory is to the walk.
pub enum EntryClass {
    /// Listed as left out.
    LeftOut(SkipReason),
    Ignored,
    Directory,
    Temporary,
    Log,
    Cover(u8),
    Audio(Codec),
}

/// What an entry is to the walk.
pub open spec fn class_of(e: ListedEntry) -> EntryClass {
    match e.name {
        None => EntryClass::LeftOut(SkipReason::InvalidName),
        Some(name) => if e.kind == FileKind::Symlink {
            EntryClass::LeftOut(SkipReason::Symlink)
        } else if e.kind == FileKind::Other {
            EntryClass::Ignored
        } else if !e.valid {
            if !starts_with(name@, "."@) || e.kind == FileKind::Dir {
                EntryClass::LeftOut(SkipReason::InvalidName)
            } else {
                EntryClass::Ignored
            }
        } else if e.kind == FileKind::Dir {
            EntryClass::Directory
        } else if starts_with(name@, TMP_PREFIX@) {
            EntryClass::Temporary
        } else if starts_with(name@, "."@) {
            EntryClass::Ignored
        } else if e.rip_log {
            EntryClass::Log
        } else {
            match e.cover_rank {
                Some(rank) => EntryClass::Cover(rank),
                None => match e.codec {
                    Some(c) => EntryClass::Audio(c),
                    None => EntryClass::Ignored,
                },
            }
        },
    }
}

/// What an entry is to the walk.
fn classify(e: &ListedEntry) -> (r: EntryClass)
    ensures
        r == class_of(*e),
{
    match &e.name {
        None => EntryClass::LeftOut(SkipReason::InvalidName),
        Some(name) => {
            if e.kind == FileKind::Symlink {
                EntryClass::LeftOut(SkipReason::Symlink)
            } else if e.kind == FileKind::Other {
                EntryClass::Ignored
            } else if !e.valid {
                if !has_prefix(name, ".") || e.kind == FileKind::Dir {
                    EntryClass::LeftOut(SkipReason::InvalidName)
                } else {
                    EntryClass::Ignored
                }
            } else if e.kind == FileKind::Dir {
                EntryClass::Directory
            } else if has_prefix(name, TMP_PREFIX) {
                EntryClass::Temporary
            } else if has_prefix(name, ".") {
                EntryClass::Ignored
            } else if e.rip_log {
                EntryClass::Log
            } else {
                match e.cover_rank {
                    Some(rank) => EntryClass::Cover(rank),
                    None => match e.codec {
                        Some(c) => EntryClass::Audio(c),
                        None => EntryClass::Ignored,
                    },
                }
            }
        },
    }
}

/// What the walk does next for an entry. Paths are below the root.
#[derive(Debug)]
pub enum WalkAction {
    Nothing,
    /// Walk this directory too.
    Descend(String),
    /// Remove this file if it is a leftover.
    Reclaim(String),
    /// See whether this log is signed.
    ReadLog(String),
    /// Stat this cover image.
    StatCover(String, u8),
    /// Stat this audio file.
    StatAudio(String, Codec),
}

/// The path as shown to a user.
pub open spec fn shown_path(dir: Option<Seq<char>>, name: Seq<char>) -> Seq<char> {
    match dir {
        Some(d) => if d.len() == 0 {
            name
        } else {
            d + "/"@ + name
        },
        None => name,
    }
}

/// The name of an entry as shown to a user.
pub open spec fn shown_name(e: ListedEntry) -> Seq<char> {
    match e.name {
        Some(n) => n@,
        None => e.shown@,
    }
}

/// `action` is what the walk does next for an entry of `dir`, given whether the
/// directory is known to hold a signed log and the rank of the cover that is
/// kept for it.
pub open spec fn action_for(
    action: WalkAction,
    dir: Option<Seq<char>>,
    e: ListedEntry,
    log_known: bool,
    rank: Option<u8>,
) -> bool {
    let child = joined_path(dir, shown_name(e));
    match class_of(e) {
        EntryClass::LeftOut(_) | EntryClass::Ignored => action is Nothing,
        EntryClass::Directory => action matches WalkAction::Descend(p) && p@ == child,
        EntryClass::Temporary => action matches WalkAction::Reclaim(p) && p@ == child,
        EntryClass::Log => if log_known {
            action is Nothing
        } else {
            action matches WalkAction::ReadLog(p) && p@ == child
        },
        EntryClass::Cover(n) => if rank is Some && rank->0 <= n {
            action is Nothing
        } else {
            action matches WalkAction::StatCover(p, m) && p@ == child && m == n
        },
        EntryClass::Audio(c) => action matches WalkAction::StatAudio(p, d) && p@ == child && d == c,
    }
}

/// The key of a directory.
fn key_of_dir(dir: Option<&str>) -> (r: String)
    ensures
        r@ == dir_key_of(opt_str(dir)),
{
    match dir {
        Some(d) => canonical_key(d),
        None => String::new(),
    }
}

/// Where the cover of the directory with key `k` is kept.
pub(crate) fn find_cover_at(covers: &Vec<(String, CoverEntry)>, k: &str) -> (r: Option<usize>)
    ensures
        match r {
            Some(i) => i < covers@.len() && covers@[i as int].0@ == k@ && cover_of(covers@, k@) == Some(
                covers@[i as int].1,
            ) && forall|j: int| 0 <= j < i ==> (#[trigger] covers@[j]).0@ != k@,
            None => cover_of(covers@, k@) is None && forall|j: int|
                0 <= j < covers@.len() ==> (#[trigger] covers@[j]).0@ != k@,
        },
{
    let mut i: usize = 0;
    proof {
        assert(covers@.skip(0) =~= covers@);
    }
    while i < covers.len()
        invariant
            i <= covers@.len(),
            cover_of(covers@, k@) == cover_of(covers@.skip(i as int), k@),
            forall|j: int| 0 <= j < i ==> (#[trigger] covers@[j]).0@ != k@,
        decreases covers@.len() - i,
    {
        proof {
            assert(covers@.skip(i as int)[0] == covers@[i as int]);
            assert(covers@.skip(i as int).drop_first() =~= covers@.skip(i + 1));
        }
        if same_text(covers[i].0.as_str(), k) {
            return Some(i);
        }
        i = i + 1;
    }
    None
}

/// Takes up the next entry of `dir`: lists it where it is left out, and says
/// what to do next.
pub fn walk_entry(inv: &mut Inventory, dir: Option<&str>, e: &ListedEntry) -> (r: WalkAction)
    requires
        old(inv).wf(),
    ensures
        final(inv).wf(),
        final(inv).entries == old(inv).entries,
        final(inv).tmp_removed == old(inv).tmp_removed,
        final(inv).covers == old(inv).covers,
        final(inv).rip_dirs == old(inv).rip_dirs,
        match class_of(*e) {
            EntryClass::LeftOut(why) => {
                &&& final(inv).skipped@.len() == old(inv).skipped@.len() + 1
                &&& final(inv).skipped@.drop_last() == old(inv).skipped@
                &&& final(inv).skipped@.last().path@ == shown_path(opt_str(dir), shown_name(*e))
                &&& final(inv).skipped@.last().reason == why
            },
            _ => final(inv).skipped == old(inv).skipped,
        },
        action_for(
            r,
            opt_str(dir),
            *e,
            texts(old(inv).rip_dirs@).contains(dir_key_of(opt_str(dir))),
            rank_of(cover_of(old(inv).covers@, dir_key_of(opt_str(dir)))),
        ),
{
    let name: String = match &e.name {
        Some(n) => n.clone(),
        None => e.shown.clone(),
    };
    match classify(e) {
        EntryClass::LeftOut(why) => {
            let path = match dir {
                Some(d) => join_display(d, &name),
                None => name,
            };
            inv.skipped.push(Skipped { path, reason: why });
            proof {
                assert(inv.skipped@.drop_last() =~= old(inv).skipped@);
            }
            WalkAction::Nothing
        },
        EntryClass::Ignored => WalkAction::Nothing,
        EntryClass::Directory => WalkAction::Descend(join_path(dir, &name)),
        EntryClass::Temporary => WalkAction::Reclaim(join_path(dir, &name)),
        EntryClass::Log => {
            let k = key_of_dir(dir);
            if has_member(&inv.rip_dirs, &k) {
                WalkAction::Nothing
            } else {
                WalkAction::ReadLog(join_path(dir, &name))
            }
        },
        EntryClass::Cover(rank) => {
            let k = key_of_dir(dir);
            let worse = match find_cover_at(&inv.covers, &k) {
                Some(i) => inv.covers[i].1.rank <= rank,
                None => false,
            };
            if worse {
                WalkAction::Nothing
            } else {
                WalkAction::StatCover(join_path(dir, &name), rank)
            }
        },
        EntryClass::Audio(c) => WalkAction::StatAudio(join_path(dir, &name), c),
    }
}

/// Notes that a log of `dir` is signed or not.
pub fn walk_log(inv: &mut Inventory, dir: Option<&str>, signed: bool)
    requires
        old(inv).wf(),
    ensures
        final(inv).wf(),
        final(inv).entries == old(inv).entries,
        final(inv).skipped == old(inv).skipped,
        final(inv).tmp_removed == old(inv).tmp_removed,
        final(inv).covers == old(inv).covers,
        forall|k: Seq<char>|
            #[trigger] texts(final(inv).rip_dirs@).contains(k) <==> texts(old(inv).rip_dirs@).contains(k) || (signed && k
                == dir_key_of(opt_str(dir))),
{
    if !signed {
        return;
    }
    let k = key_of_dir(dir);
    if has_member(&inv.rip_dirs, &k) {
        return;
    }
    let ghost before = texts(inv.rip_dirs@);
    let ghost kv = k@;
    inv.rip_dirs.push(k);
    proof {
        let after = texts(inv.rip_dirs@);
        assert(after =~= before.push(kv));
        assert forall|x: Seq<char>| #[trigger] after.contains(x) <==> before.contains(x) || x == kv by {
            if before.contains(x) {
                let i = choose|i: int| 0 <= i < before.len() && before[i] == x;
                assert(after[i] == x);
            }
            if x == kv {
                assert(after[before.len() as int] == x);
            }
            if after.contains(x) && x != kv {
                let i = choose|i: int| 0 <= i < after.len() && after[i] == x;
                assert(before[i] == x);
            }
        }
    }
}

proof fn lemma_cover_push(covers: Seq<(String, CoverEntry)>, e: (String, CoverEntry), k: Seq<char>)
    requires
        cover_of(covers, e.0@) is None,
    ensures
        cover_of(covers.push(e), k) == (if k == e.0@ { Some(e.1) } else { cover_of(covers, k) }),
    decreases covers.len(),
{
    let after = covers.push(e);
    if covers.len() == 0 {
        assert(after.drop_first() =~= covers);
    } else {
        assert(after.drop_first() =~= covers.drop_first().push(e));
        lemma_cover_push(covers.drop_first(), e, k);
    }
}

proof fn lemma_cover_update(covers: Seq<(String, CoverEntry)>, i: int, e: (String, CoverEntry), k: Seq<char>)
    requires
        0 <= i < covers.len(),
        covers[i].0@ == e.0@,
        forall|j: int| 0 <= j < i ==> (#[trigger] covers[j]).0@ != e.0@,
    ensures
        cover_of(covers.update(i, e), k) == (if k == e.0@ { Some(e.1) } else { cover_of(covers, k) }),
    decreases covers.len(),
{
    let after = covers.update(i, e);
    if i == 0 {
        assert(after.drop_first() =~= covers.drop_first());
    } else {
        assert(after.drop_first() =~= covers.drop_first().update(i - 1, e));
        assert(covers[0].0@ != e.0@);
        let rest = covers.drop_first();
        assert forall|j: int| 0 <= j < i - 1 implies (#[trigger] rest[j]).0@ != e.0@ by {
            assert(rest[j] == covers[j + 1]);
        }
        lemma_cover_update(rest, i - 1, e, k);
    }
}

/// Takes up the stat of a cover image of `dir` that was asked for: it becomes
/// the cover of the directory if it is a plain file.
pub fn walk_cover(inv: &mut Inventory, dir: Option<&str>, rel: String, rank: u8, st: &Stat)
    requires
        old(inv).wf(),
    ensures
        final(inv).wf(),
        final(inv).entries == old(inv).entries,
        final(inv).skipped == old(inv).skipped,
        final(inv).tmp_removed == old(inv).tmp_removed,
        final(inv).rip_dirs == old(inv).rip_dirs,
        st.kind != FileKind::File ==> final(inv).covers == old(inv).covers,
        st.kind == FileKind::File ==> {
            let kept = cover_of(final(inv).covers@, dir_key_of(opt_str(dir)));
            &&& kept matches Some(c) && c.rel == rel && c.rank == rank && c.stat.inode == st.inode as i64
                && c.stat.size == st.size as i64 && c.stat.mtime_ns == st.mtime_ns && c.stat.ctime_ns == st.ctime_ns
            &&& forall|k: Seq<char>|
                k != dir_key_of(opt_str(dir)) ==> #[trigger] cover_of(final(inv).covers@, k) == cover_of(
                    old(inv).covers@,
                    k,
                )
        },
{
    if st.kind != FileKind::File {
        return;
    }
    let k = key_of_dir(dir);
    let entry = CoverEntry { rel, rank, stat: CoverStat::of(st) };
    let ghost before = inv.covers@;
    let found = find_cover_at(&inv.covers, &k);
    let pair = (k, entry);
    let ghost gp = pair;
    match found {
        Some(i) => {
            inv.covers.set(i, pair);
            proof {
                assert forall|x: Seq<char>| #[trigger] cover_of(inv.covers@, x) == (if x == gp.0@ {
                    Some(gp.1)
                } else {
                    cover_of(before, x)
                }) by {
                    lemma_cover_update(before, i as int, gp, x);
                }
            }
        },
        None => {
            inv.covers.push(pair);
            proof {
                assert forall|x: Seq<char>| #[trigger] cover_of(inv.covers@, x) == (if x == gp.0@ {
                    Some(gp.1)
                } else {
                    cover_of(before, x)
                }) by {
                    lemma_cover_push(before, gp, x);
                }
            }
        },
    }
}

/// The keys of the entries, one of them `k`.
fn has_key(entries: &Vec<InvEntry>, k: &str) -> (r: bool)
    ensures
        r == entry_keys(entries@).contains(k@),
{
    let mut i: usize = 0;
    while i < entries.len()
        invariant
            i <= entries@.len(),
            forall|j: int| 0 <= j < i ==> #[trigger] entry_keys(entries@)[j] != k@,
        decreases entries@.len() - i,
    {
        if same_text(entries[i].key.as_str(), k) {
            proof {
                assert(entry_keys(entries@)[i as int] == k@);
            }
            return true;
        }
        i = i + 1;
    }
    false
}

/// Takes up the stat of an audio file of `dir` that was asked for. It joins the
/// inventory if it is a plain file and no file found before has its key; a
/// second file with the key is listed as left out.
pub fn walk_audio(inv: &mut Inventory, dir: Option<&str>, rel: String, codec: Codec, st: &Stat)
    requires
        old(inv).wf(),
    ensures
        final(inv).wf(),
        final(inv).tmp_removed == old(inv).tmp_removed,
        final(inv).covers == old(inv).covers,
        final(inv).rip_dirs == old(inv).rip_dirs,
        st.kind != FileKind::File ==> final(inv).entries == old(inv).entries && final(inv).skipped == old(
            inv,
        ).skipped,
        st.kind == FileKind::File && entry_keys(old(inv).entries@).contains(canonical(rel@)) ==> {
            &&& final(inv).entries == old(inv).entries
            &&& final(inv).skipped@ == old(inv).skipped@.push(
                Skipped { path: rel, reason: SkipReason::DuplicateKey },
            )
        },
        st.kind == FileKind::File && !entry_keys(old(inv).entries@).contains(canonical(rel@)) ==> {
            let e = final(inv).entries@.last();
            &&& final(inv).skipped == old(inv).skipped
            &&& final(inv).entries@.len() == old(inv).entries@.len() + 1
            &&& final(inv).entries@.drop_last() == old(inv).entries@
            &&& e.rel == rel
            &&& opt_text(e.dir) == opt_str(dir)
            &&& e.ext_codec == codec
            &&& e.ph.dev == st.dev
            &&& e.ph.inode == st.inode
            &&& e.ph.nlink == st.nlink
            &&& e.ph.size == st.size
            &&& e.ph.mtime_ns == st.mtime_ns
            &&& e.ph.ctime_ns == st.ctime_ns
        },
{
    if st.kind != FileKind::File {
        return;
    }
    let key = canonical_key(&rel);
    if has_key(&inv.entries, &key) {
        inv.skipped.push(Skipped { path: rel, reason: SkipReason::DuplicateKey });
        return;
    }
    let dir_key = key_of_dir(dir);
    let dir_text = match dir {
        Some(d) => Some(d.to_owned()),
        None => None,
    };
    let ghost before = inv.entries@;
    let entry = InvEntry { rel, key, dir: dir_text, dir_key, ph: Physical::of(st), ext_codec: codec };
    let ghost ge = entry;
    inv.entries.push(entry);
    proof {
        assert(inv.entries@.drop_last() =~= before);
        assert(entry_keys(inv.entries@) =~= entry_keys(before).push(ge.key@));
        assert forall|i: int, j: int|
            0 <= i < inv.entries@.len() && 0 <= j < inv.entries@.len() && i != j implies entry_keys(inv.entries@)[i]
            != entry_keys(inv.entries@)[j] by {
            if i == before.len() {
                assert(entry_keys(before)[j] != ge.key@);
            } else if j == before.len() {
                assert(entry_keys(before)[i] != ge.key@);
            } else {
                assert(entry_keys(before)[i] != entry_keys(before)[j]);
            }
        }
    }
}

/// What a failed stat means to the walk: a file that is gone is passed over,
/// anything else ends the walk.
pub fn walk_stat_error(path: String, e: FsError) -> (r: Option<ScanError>)
    ensures
        r == (if e is NotFound { None } else { Some(ScanError::Walk { path, source: e }) }),
{
    match e {
        FsError::NotFound => None,
        other => Some(ScanError::Walk { path, source: other }),
    }
}

/// Counts a leftover that was removed.
pub fn walk_reclaimed(inv: &mut Inventory)
    requires
        old(inv).wf(),
        old(inv).tmp_removed < u64::MAX,
    ensures
        final(inv).wf(),
        final(inv).entries == old(inv).entries,
        final(inv).skipped == old(inv).skipped,
        final(inv).covers == old(inv).covers,
        final(inv).rip_dirs == old(inv).rip_dirs,
        final(inv).tmp_removed == old(inv).tmp_removed + 1,
{
    inv.tmp_removed = inv.tmp_removed + 1;
}

/// A cover image that takes the place of another one in its directory is the
/// better of the two: the walk asks only for covers of a lower rank.
pub proof fn law_covers_improve(
    action: WalkAction,
    dir: Option<Seq<char>>,
    e: ListedEntry,
    log_known: bool,
    kept: CoverEntry,
)
    requires
        action_for(action, dir, e, log_known, Some(kept.rank)),
        action is StatCover,
    ensures
        action->StatCover_1 < kept.rank,
{
}

/// A cover found in a listing: its rank and, where a stat of it succeeded, what
/// the stat said.
pub struct CoverCandidate {
    pub rel: String,
    pub rank: u8,
    pub stat: Option<Stat>,
}

/// A candidate that can be a cover: it is there and a plain file.
pub open spec fn is_cover(c: CoverCandidate) -> bool {
    c.stat is Some && c.stat->0.kind == FileKind::File
}

/// `i` is the best cover of a listing: of the lowest rank, the first.
pub open spec fn best_cover(list: Seq<CoverCandidate>, i: int) -> bool {
    &&& 0 <= i < list.len()
    &&& is_cover(list[i])
    &&& forall|j: int| 0 <= j < list.len() && is_cover(#[trigger] list[j]) ==> list[i].rank <= list[j].rank
    &&& forall|j: int| 0 <= j < i && is_cover(#[trigger] list[j]) ==> list[i].rank < list[j].rank
}

/// Whether the stat of a cover of this rank is needed, given the best so far.
pub fn cover_wanted(best: Option<u8>, rank: u8) -> (r: bool)
    ensures
        r == !(best is Some && best->0 <= rank),
{
    match best {
        Some(b) => rank < b,
        None => true,
    }
}

/// The best cover of a listing.
pub fn find_cover(list: &Vec<CoverCandidate>) -> (r: Option<usize>)
    ensures
        match r {
            Some(i) => best_cover(list@, i as int),
            None => forall|j: int| 0 <= j < list@.len() ==> !is_cover(#[trigger] list@[j]),
        },
{
    let mut best: Option<usize> = None;
    let mut i: usize = 0;
    while i < list.len()
        invariant
            i <= list@.len(),
            match best {
                Some(b) => b < i && best_cover(list@.take(i as int), b as int),
                None => forall|j: int| 0 <= j < i ==> !is_cover(#[trigger] list@[j]),
            },
        decreases list@.len() - i,
    {
        let ghost t = list@.take(i as int);
        let ghost u = list@.take(i + 1);
        proof {
            assert forall|j: int| 0 <= j < i implies #[trigger] u[j] == t[j] by {}
            assert forall|j: int| 0 <= j < i implies #[trigger] u[j] == list@[j] by {}
            assert(u[i as int] == list@[i as int]);
        }
        let rank = match best {
            Some(b) => Some(list[b].rank),
            None => None,
        };
        if cover_wanted(rank, list[i].rank) {
            if let Some(st) = list[i].stat {
                if st.kind == FileKind::File {
                    best = Some(i);
                }
            }
        }
        i = i + 1;
    }
    proof {
        assert(list@.take(i as int) =~= list@);
    }
    best
}

/// What an entry of a directory is: a link is never followed and is reported, a name that no path can hold
/// is reported unless it is a hidden file, a directory is walked, and a plain file counts by its name. A
/// hidden file counts only where it is a leftover of a write.
pub proof fn law_what_an_entry_is(e: ListedEntry)
    ensures
        e.name is None ==> class_of(e) == EntryClass::LeftOut(SkipReason::InvalidName),
        e.name is Some && e.kind == FileKind::Symlink ==> class_of(e) == EntryClass::LeftOut(SkipReason::Symlink),
        e.name is Some && e.kind == FileKind::Other ==> class_of(e) == EntryClass::Ignored,
        e.name is Some && e.kind == FileKind::Dir && e.valid ==> class_of(e) == EntryClass::Directory,
        e.name is Some && e.kind == FileKind::Dir && !e.valid ==> class_of(e) == EntryClass::LeftOut(
            SkipReason::InvalidName,
        ),
        e.name matches Some(n) ==> (e.kind == FileKind::File && n@.len() > 0 && n@[0] == '.' && !starts_with(
            n@,
            ".spindle-tmp-"@,
        ) ==> class_of(e) == EntryClass::Ignored),
        e.name matches Some(n) ==> (e.kind == FileKind::File && e.valid && starts_with(n@, ".spindle-tmp-"@)
            ==> class_of(e) == EntryClass::Temporary),
        e.name matches Some(n) ==> (e.kind == FileKind::File && !e.valid && (n@.len() == 0 || n@[0] != '.')
            ==> class_of(e) == EntryClass::LeftOut(SkipReason::InvalidName)),
        e.name matches Some(n) ==> (e.kind == FileKind::File && e.valid && n@.len() > 0 && n@[0] != '.' ==> {
            &&& e.rip_log ==> class_of(e) == EntryClass::Log
            &&& !e.rip_log && e.cover_rank is Some ==> class_of(e) == EntryClass::Cover(e.cover_rank->0)
            &&& !e.rip_log && e.cover_rank is None && e.codec is Some ==> class_of(e) == EntryClass::Audio(e.codec->0)
            &&& !e.rip_log && e.cover_rank is None && e.codec is None ==> class_of(e) == EntryClass::Ignored
        }),
{
    reveal_strlit(".");
    reveal_strlit(".spindle-tmp-");
    if e.name is Some {
        let n = e.name->0@;
        assert("."@ =~= seq!['.']);
        if n.len() > 0 {
            assert(n.take(1) =~= seq![n[0]]);
            assert(seq![n[0]][0] == n[0] && seq!['.'][0] == '.');
            if starts_with(n, ".spindle-tmp-"@) {
                assert(n.take(".spindle-tmp-"@.len() as int)[0] == n[0]);
            }
        }
    }
}

/// An entry is shown below its directory, and alone where it stands at the top.
pub proof fn law_shown_below_its_directory(d: Seq<char>, name: Seq<char>)
    ensures
        d.len() > 0 ==> shown_path(Some(d), name) == d + seq!['/'] + name,
        shown_path(Some(Seq::empty()), name) == name,
        shown_path(None, name) == name,
{
    reveal_strlit("/");
    assert("/"@ =~= seq!['/']);
}

/// A cover is found under the key of its directory.
pub proof fn law_cover_of_a_directory(covers: Seq<(String, CoverEntry)>, k: Seq<char>, i: int)
    ensures
        0 <= i < covers.len() && covers[i].0@ == k && (forall|j: int| 0 <= j < i ==> (#[trigger] covers[j]).0@ != k)
            ==> cover_of(covers, k) == Some(covers[i].1),
        (forall|j: int| 0 <= j < covers.len() ==> (#[trigger] covers[j]).0@ != k) ==> cover_of(covers, k) is None,
    decreases covers.len(),
{
    if covers.len() > 0 {
        let d = covers.drop_first();
        law_cover_of_a_directory(d, k, i - 1);
        assert forall|j: int| 0 <= j < d.len() implies #[trigger] d[j] == covers[j + 1] by {}
    }
}

/// The cover of a directory is the plain file of the best rank, the first of them where several have it.
pub proof fn law_best_cover(list: Seq<CoverCandidate>, i: int, j: int)
    requires
        best_cover(list, i),
        0 <= j < list.len(),
        list[j].stat matches Some(st) && st.kind == FileKind::File,
    ensures
        list[i].stat matches Some(st) && st.kind == FileKind::File,
        list[i].rank <= list[j].rank,
        j < i ==> list[i].rank < list[j].rank,
{
    assert(is_cover(list[j]));
}

/// The rank of a cover is its own, and files at the top have no directory.
pub proof fn law_ranks_of_covers(c: CoverEntry, d: Seq<char>)
    ensures
        rank_of(Some(c)) == Some(c.rank),
        rank_of(None) is None,
        dir_key_of(None).len() == 0,
        dir_key_of(Some(d)) == canonical(d),
{
}

} // verus!
