//! The file that travels with what waits in the inbox: what tags cannot carry.

use crate::catalog::clone_strings;
use crate::fsroot::FsError;
use crate::order::ascending;
use crate::split::{
    has_char, has_member, lemma_text_irreflexive, lemma_text_total, lemma_text_transitive, less,
};
use crate::text::{concat2, concat3, int_text, opt_text, same_text, text_less, texts, unsigned_to_text};
use crate::unicode::{canonical, canonical_key};
use vstd::prelude::*;
use vstd::string::*;

verus! {

/// The name of the file.
pub const SIDECAR_NAME: &'static str = "spindle-inbox.json";

/// The version of the form that is written and read.
pub const VERSION: u32 = 1;

/// Why the file could not be read or written.
#[derive(Debug)]
pub enum SidecarError {
    Version(u32),
    Json(String),
    Fs(FsError),
    Io(String),
}

impl SidecarError {
    /// The text that a user reads.
    pub open spec fn text(&self) -> Seq<char> {
        match self {
            SidecarError::Version(v) => "spindle-inbox.json の version が "@ + int_text(*v as int)
                + "（対応は 1）"@,
            SidecarError::Json(e) => "spindle-inbox.json が JSON として読めない: "@ + e@,
            SidecarError::Fs(e) => e.text(),
            SidecarError::Io(e) => e@,
        }
    }

    /// The text that a user reads.
    pub fn message(&self) -> (r: String)
        ensures
            r@ == self.text(),
    {
        match self {
            SidecarError::Version(v) => {
                let n = unsigned_to_text(*v as u64);
                concat3("spindle-inbox.json の version が ", &n, "（対応は 1）")
            },
            SidecarError::Json(e) => concat2("spindle-inbox.json が JSON として読めない: ", e),
            SidecarError::Fs(e) => e.message(),
            SidecarError::Io(e) => e.clone(),
        }
    }
}

/// What is known of a file.
#[derive(Debug)]
pub struct FileEntry {
    /// Where it comes from.
    pub source: String,
    pub url: Option<String>,
    pub channel: Option<String>,
    /// `ok`, or why nothing could be told of it.
    pub verdict: String,
    pub message: Option<String>,
    /// The subscription that asked for it, with its position in the playlist.
    pub subscription_id: Option<i64>,
    pub position: Option<u32>,
}

// ---------------------------------------------------------------- discs

/// What comparing a disc with a database gave.
#[derive(Debug)]
pub struct MethodReport {
    /// The disc as a whole agrees with the database.
    pub verified: bool,
    /// How many tracks there is a result for.
    pub tracks: usize,
}

/// How reading a disc went. Each list has an item for each audio track.
#[derive(Debug)]
pub struct RipReport {
    /// How often the position slipped while a track was read.
    pub slips: Vec<u64>,
    pub crcs: Vec<u32>,
    pub ctdb: Option<MethodReport>,
    pub accuraterip: Option<MethodReport>,
}

/// The record of a disc: a directory of the inbox is one disc.
#[derive(Debug)]
pub struct RipEntry {
    /// The table of contents.
    pub toc: String,
    /// How many tracks the description of the disc has.
    pub metadata_tracks: usize,
    /// The names of the files in the order of the audio tracks.
    pub files: Vec<String>,
    /// The name of the log.
    pub log: String,
    pub report: RipReport,
    /// The codes of the recordings that the drive read, in the order of the
    /// audio tracks.
    pub isrcs: Vec<Option<String>>,
    /// The catalogue number of the disc.
    pub mcn: Option<String>,
}

/// The views of optional texts.
pub open spec fn opt_text_list(v: Seq<Option<String>>) -> Seq<Option<Seq<char>>> {
    v.map_values(|o: Option<String>| opt_text(o))
}

/// Two records of a disc say the same.
pub open spec fn same_rip(a: RipEntry, b: RipEntry) -> bool {
    &&& a.toc@ == b.toc@
    &&& a.metadata_tracks == b.metadata_tracks
    &&& texts(a.files@) == texts(b.files@)
    &&& a.log@ == b.log@
    &&& a.report.slips@ == b.report.slips@
    &&& a.report.crcs@ == b.report.crcs@
    &&& a.report.ctdb == b.report.ctdb
    &&& a.report.accuraterip == b.report.accuraterip
    &&& opt_text_list(a.isrcs@) == opt_text_list(b.isrcs@)
    &&& opt_text(a.mcn) == opt_text(b.mcn)
}

fn copy_report(m: &Option<MethodReport>) -> (r: Option<MethodReport>)
    ensures
        r == *m,
{
    match m {
        Some(x) => Some(MethodReport { verified: x.verified, tracks: x.tracks }),
        None => None,
    }
}

/// Optional texts that say the same.
pub fn copy_options(v: &Vec<Option<String>>) -> (r: Vec<Option<String>>)
    ensures
        opt_text_list(r@) == opt_text_list(v@),
{
    let mut out: Vec<Option<String>> = Vec::new();
    let mut i: usize = 0;
    while i < v.len()
        invariant
            i <= v@.len(),
            out@.len() == i,
            forall|k: int| 0 <= k < i ==> opt_text(#[trigger] out@[k]) == opt_text(v@[k]),
        decreases v@.len() - i,
    {
        out.push(v[i].clone());
        i = i + 1;
    }
    proof {
        assert(opt_text_list(out@) =~= opt_text_list(v@));
    }
    out
}

/// What is wrong with the record of a disc.
#[derive(Debug)]
pub enum RipEntryError {
    Toc(String),
    Count { what: String, expected: usize, got: usize },
    BadFileName(String),
    DuplicateFile(String),
}

impl RipEntryError {
    /// The text that a user reads.
    pub open spec fn text(&self) -> Seq<char> {
        match self {
            RipEntryError::Toc(e) => "TOC を読めない: "@ + e@,
            RipEntryError::Count { what, expected, got } => what@ + " の件数が音声トラック数と合わない: 期待 "@
                + int_text(*expected as int) + "、実際 "@ + int_text(*got as int),
            RipEntryError::BadFileName(n) => "ファイル名が不正: "@ + n@,
            RipEntryError::DuplicateFile(n) => "ファイル名が重複: "@ + n@,
        }
    }

    /// The text that a user reads.
    pub fn message(&self) -> (r: String)
        ensures
            r@ == self.text(),
    {
        match self {
            RipEntryError::Toc(e) => concat2("TOC を読めない: ", e),
            RipEntryError::Count { what, expected, got } => {
                let e = unsigned_to_text(*expected as u64);
                let g = unsigned_to_text(*got as u64);
                crate::text::concat5(what, " の件数が音声トラック数と合わない: 期待 ", &e, "、実際 ", &g)
            },
            RipEntryError::BadFileName(n) => concat2("ファイル名が不正: ", n),
            RipEntryError::DuplicateFile(n) => concat2("ファイル名が重複: ", n),
        }
    }
}

/// The first list that has not `expected` items, with the number it has.
pub open spec fn count_mismatch(e: RipEntry, expected: usize) -> Option<(Seq<char>, usize)> {
    if e.files@.len() != expected {
        Some(("files"@, e.files@.len() as usize))
    } else if e.report.slips@.len() != expected {
        Some(("reads"@, e.report.slips@.len() as usize))
    } else if e.report.crcs@.len() != expected {
        Some(("crcs"@, e.report.crcs@.len() as usize))
    } else if e.metadata_tracks != expected {
        Some(("metadata.tracks"@, e.metadata_tracks))
    } else if e.report.ctdb is Some && e.report.ctdb->0.tracks != expected {
        Some(("ctdb.tracks"@, e.report.ctdb->0.tracks))
    } else if e.report.accuraterip is Some && e.report.accuraterip->0.tracks != expected {
        Some(("accuraterip.tracks"@, e.report.accuraterip->0.tracks))
    } else {
        None
    }
}

/// No name of a file in a directory.
pub open spec fn bad_name(s: Seq<char>) -> bool {
    s.len() == 0 || s.contains('/') || s == "."@ || s == ".."@
}

/// The names of the files and the log.
pub open spec fn all_names(e: RipEntry) -> Seq<Seq<char>> {
    texts(e.files@).push(e.log@)
}

/// An earlier name has the same key.
pub open spec fn repeats(names: Seq<Seq<char>>, i: int) -> bool {
    exists|j: int| 0 <= j < i && canonical(#[trigger] names[j]) == canonical(names[i])
}

/// The first name that is bad or repeats one before it.
pub open spec fn first_bad(names: Seq<Seq<char>>, i: int) -> bool {
    &&& 0 <= i < names.len()
    &&& bad_name(names[i]) || repeats(names, i)
    &&& forall|k: int| 0 <= k < i ==> !bad_name(#[trigger] names[k]) && !repeats(names, k)
}

/// The record has the right form for so many audio tracks.
pub open spec fn rip_ok(e: RipEntry, audio_tracks: Result<usize, String>) -> bool {
    &&& audio_tracks is Ok
    &&& count_mismatch(e, audio_tracks->Ok_0) is None
    &&& forall|i: int| !first_bad(all_names(e), i)
}

/// `err` is what is wrong with the record: its table of contents, else the first
/// list of another length, else the first name that is bad or a repetition.
pub open spec fn rip_fault(e: RipEntry, audio_tracks: Result<usize, String>, err: RipEntryError) -> bool {
    match audio_tracks {
        Err(why) => err == RipEntryError::Toc(why),
        Ok(expected) => match count_mismatch(e, expected) {
            Some(m) => err matches RipEntryError::Count { what, expected: x, got } && what@ == m.0 && x == expected
                && got == m.1,
            None => match err {
                RipEntryError::BadFileName(n) => exists|i: int| #[trigger]
                    first_bad(all_names(e), i) && bad_name(all_names(e)[i]) && n@ == all_names(e)[i],
                RipEntryError::DuplicateFile(n) => exists|i: int| #[trigger]
                    first_bad(all_names(e), i) && !bad_name(all_names(e)[i]) && n@ == all_names(e)[i],
                _ => false,
            },
        },
    }
}

fn is_bad_name(s: &str) -> (r: bool)
    ensures
        r == bad_name(s@),
{
    s.is_empty() || has_char(s, '/') || same_text(s, ".") || same_text(s, "..")
}

impl RipEntry {
    /// A record that says the same.
    pub fn copy(&self) -> (r: RipEntry)
        ensures
            same_rip(r, *self),
    {
        let slips = self.report.slips.clone();
        let crcs = self.report.crcs.clone();
        proof {
            assert(slips@ =~= self.report.slips@);
            assert(crcs@ =~= self.report.crcs@);
        }
        RipEntry {
            toc: self.toc.clone(),
            metadata_tracks: self.metadata_tracks,
            files: clone_strings(&self.files),
            log: self.log.clone(),
            report: RipReport {
                slips,
                crcs,
                ctdb: copy_report(&self.report.ctdb),
                accuraterip: copy_report(&self.report.accuraterip),
            },
            isrcs: copy_options(&self.isrcs),
            mcn: self.mcn.clone(),
        }
    }

    /// Whether the record has the right form. `audio_tracks` is the number of
    /// audio tracks of its table of contents, or why that could not be read.
    pub fn check(&self, audio_tracks: Result<usize, String>) -> (r: Result<(), RipEntryError>)
        ensures
            match r {
                Ok(()) => rip_ok(*self, audio_tracks),
                Err(e) => !rip_ok(*self, audio_tracks) && rip_fault(*self, audio_tracks, e),
            },
    {
        let expected: usize = match audio_tracks {
            Ok(n) => n,
            Err(e) => {
                return Err(RipEntryError::Toc(e));
            },
        };
        let rep = &self.report;
        if self.files.len() != expected {
            return Err(RipEntryError::Count { what: "files".to_owned(), expected, got: self.files.len() });
        }
        if rep.slips.len() != expected {
            return Err(RipEntryError::Count { what: "reads".to_owned(), expected, got: rep.slips.len() });
        }
        if rep.crcs.len() != expected {
            return Err(RipEntryError::Count { what: "crcs".to_owned(), expected, got: rep.crcs.len() });
        }
        if self.metadata_tracks != expected {
            return Err(
                RipEntryError::Count {
                    what: "metadata.tracks".to_owned(),
                    expected,
                    got: self.metadata_tracks,
                },
            );
        }
        if let Some(m) = &rep.ctdb {
            if m.tracks != expected {
                return Err(RipEntryError::Count { what: "ctdb.tracks".to_owned(), expected, got: m.tracks });
            }
        }
        if let Some(m) = &rep.accuraterip {
            if m.tracks != expected {
                return Err(
                    RipEntryError::Count { what: "accuraterip.tracks".to_owned(), expected, got: m.tracks },
                );
            }
        }
        let ghost names = all_names(*self);
        let n: usize = self.files.len();
        let mut seen: Vec<String> = Vec::new();
        let mut i: usize = 0;
        proof {
            assert(texts(seen@) =~= names.take(0).map_values(|s: Seq<char>| canonical(s)));
        }
        loop
            invariant_except_break
                texts(seen@) == names.take(i as int).map_values(|s: Seq<char>| canonical(s)),
                forall|k: int| 0 <= k < i ==> !bad_name(#[trigger] names[k]) && !repeats(names, k),
            invariant
                n == self.files@.len(),
                names == all_names(*self),
                i <= n,
                audio_tracks == Ok::<usize, String>(expected),
                count_mismatch(*self, expected) is None,
            ensures
                forall|k: int| 0 <= k < names.len() ==> !bad_name(#[trigger] names[k]) && !repeats(names, k),
            decreases n - i,
        {
            let name: &String = if i < n {
                &self.files[i]
            } else {
                &self.log
            };
            proof {
                assert(names[i as int] == name@);
            }
            if is_bad_name(name) {
                proof {
                    assert(first_bad(names, i as int));
                }
                return Err(RipEntryError::BadFileName(name.clone()));
            }
            let key = canonical_key(name);
            if has_member(&seen, &key) {
                proof {
                    let c = texts(seen@);
                    let j = choose|j: int| 0 <= j < c.len() && c[j] == key@;
                    assert(canonical(names[j]) == canonical(names[i as int]));
                    assert(repeats(names, i as int));
                    assert(first_bad(names, i as int));
                }
                return Err(RipEntryError::DuplicateFile(name.clone()));
            }
            proof {
                if repeats(names, i as int) {
                    let j = choose|j: int| 0 <= j < i && canonical(#[trigger] names[j]) == canonical(names[i as int]);
                    assert(texts(seen@)[j] == key@);
                }
                assert forall|k: int| 0 <= k < i + 1 implies !bad_name(#[trigger] names[k]) && !repeats(names, k) by {
                    if k == i {
                        assert(!bad_name(names[i as int]));
                    }
                }
            }
            let ghost before = texts(seen@);
            let ghost kv = key@;
            seen.push(key);
            proof {
                assert(texts(seen@) =~= before.push(kv));
                assert(names.take(i + 1) =~= names.take(i as int).push(names[i as int]));
                assert(texts(seen@) =~= names.take(i + 1).map_values(|s: Seq<char>| canonical(s)));
            }
            if i >= n {
                break;
            }
            i = i + 1;
        }
        proof {
            assert forall|k: int| !first_bad(names, k) by {}
        }
        Ok(())
    }

    /// Where the file of this name stands in the record.
    pub fn index_of(&self, name: &str) -> (r: Option<usize>)
        ensures
            match r {
                Some(i) => i < self.files@.len() && canonical(self.files@[i as int]@) == canonical(name@) && forall|k:
                    int| 0 <= k < i ==> canonical((#[trigger] self.files@[k])@) != canonical(name@),
                None => forall|k: int|
                    0 <= k < self.files@.len() ==> canonical((#[trigger] self.files@[k])@) != canonical(name@),
            },
    {
        let key = canonical_key(name);
        let mut i: usize = 0;
        while i < self.files.len()
            invariant
                i <= self.files@.len(),
                key@ == canonical(name@),
                forall|k: int| 0 <= k < i ==> canonical((#[trigger] self.files@[k])@) != canonical(name@),
            decreases self.files@.len() - i,
        {
            let k = canonical_key(&self.files[i]);
            if same_text(&k, &key) {
                return Some(i);
            }
            i = i + 1;
        }
        None
    }
}

// ---------------------------------------------------------------- the file

/// What travels with a directory of the inbox.
#[derive(Debug)]
pub struct Sidecar {
    pub version: u32,
    /// The category, by name. The last one written counts.
    pub category: Option<String>,
    /// What is known of each file, in the order of their names.
    pub files: Vec<(String, FileEntry)>,
    /// The record of a disc.
    pub rip: Option<RipEntry>,
}

/// The names of the files.
pub open spec fn file_names<T>(v: Seq<(String, T)>) -> Seq<Seq<char>> {
    v.map_values(|p: (String, T)| p.0@)
}

/// What is known of the file `name`.
pub open spec fn entry_at<T>(v: Seq<(String, T)>, name: Seq<char>) -> Option<T>
    decreases v.len(),
{
    if v.len() == 0 {
        None
    } else if v.last().0@ == name {
        Some(v.last().1)
    } else {
        entry_at(v.drop_last(), name)
    }
}

proof fn lemma_entry_insert<T>(v: Seq<(String, T)>, at: int, p: (String, T), name: Seq<char>)
    requires
        0 <= at <= v.len(),
        forall|k: int| 0 <= k < v.len() ==> (#[trigger] v[k]).0@ != p.0@,
    ensures
        entry_at(v.insert(at, p), name) == (if name == p.0@ {
            Some(p.1)
        } else {
            entry_at(v, name)
        }),
    decreases v.len(),
{
    let w = v.insert(at, p);
    if at == v.len() {
        assert(w.drop_last() =~= v);
    } else {
        assert(w.last() == v.last());
        assert(w.drop_last() =~= v.drop_last().insert(at, p));
        assert(v[v.len() - 1].0@ != p.0@);
        assert forall|k: int| 0 <= k < v.len() - 1 implies (#[trigger] v.drop_last()[k]).0@ != p.0@ by {
            assert(v.drop_last()[k] == v[k]);
        }
        lemma_entry_insert(v.drop_last(), at, p, name);
    }
}

proof fn lemma_entry_update<T>(v: Seq<(String, T)>, at: int, p: (String, T), name: Seq<char>)
    requires
        0 <= at < v.len(),
        v[at].0@ == p.0@,
        ascending(file_names(v)),
    ensures
        entry_at(v.update(at, p), name) == (if name == p.0@ {
            Some(p.1)
        } else {
            entry_at(v, name)
        }),
    decreases v.len(),
{
    let w = v.update(at, p);
    if at == v.len() - 1 {
        assert(w.drop_last() =~= v.drop_last());
    } else {
        assert(w.drop_last() =~= v.drop_last().update(at, p));
        let f = file_names(v);
        assert(text_less(f[at], f[v.len() - 1]));
        lemma_text_irreflexive(f[at]);
        let g = file_names(v.drop_last());
        assert forall|i: int, j: int| 0 <= i < j < g.len() implies text_less(#[trigger] g[i], #[trigger] g[j]) by {
            assert(g[i] == f[i] && g[j] == f[j]);
        }
        lemma_entry_update(v.drop_last(), at, p, name);
    }
}

/// Notes what is known of the file `name`, in place of what was known.
pub fn put_entry<T>(files: &mut Vec<(String, T)>, name: &str, entry: T)
    requires
        ascending(file_names(old(files)@)),
    ensures
        ascending(file_names(final(files)@)),
        forall|n: Seq<char>|
            #[trigger] entry_at(final(files)@, n) == (if n == name@ {
                Some(entry)
            } else {
                entry_at(old(files)@, n)
            }),
{
    let ghost before = files@;
    let ghost fb = file_names(before);
    let mut at: usize = 0;
    while at < files.len() && less(files[at].0.as_str(), name)
        invariant
            at <= before.len(),
            files@ == before,
            fb == file_names(before),
            ascending(fb),
            forall|k: int| 0 <= k < at ==> text_less(#[trigger] fb[k], name@),
        decreases before.len() - at,
    {
        at = at + 1;
    }
    let pair = (name.to_owned(), entry);
    let ghost gp = pair;
    if at < files.len() && same_text(files[at].0.as_str(), name) {
        files.set(at, pair);
        proof {
            let after = files@;
            assert(file_names(after) =~= fb);
            assert forall|n: Seq<char>| #[trigger] entry_at(after, n) == (if n == name@ {
                Some(gp.1)
            } else {
                entry_at(before, n)
            }) by {
                lemma_entry_update(before, at as int, gp, n);
            }
        }
    } else {
        files.insert(at, pair);
        proof {
            let after = files@;
            let fa = file_names(after);
            assert(fa =~= fb.insert(at as int, name@));
            assert forall|k: int| at <= k < fb.len() implies text_less(name@, #[trigger] fb[k]) by {
                lemma_text_total(fb[at as int], name@);
                assert(text_less(name@, fb[at as int]));
                if k > at {
                    assert(text_less(fb[at as int], fb[k]));
                    lemma_text_transitive(name@, fb[at as int], fb[k]);
                }
            }
            assert forall|i: int, j: int| 0 <= i < j < fa.len() implies text_less(
                #[trigger] fa[i],
                #[trigger] fa[j],
            ) by {
                if j < at {
                    assert(text_less(fb[i], fb[j]));
                } else if j == at {
                    assert(text_less(fb[i], name@));
                } else if i < at {
                    assert(text_less(fb[i], fb[j - 1]));
                } else if i == at {
                    assert(text_less(name@, fb[j - 1]));
                } else {
                    assert(text_less(fb[i - 1], fb[j - 1]));
                }
            }
            assert forall|k: int| 0 <= k < before.len() implies (#[trigger] before[k]).0@ != name@ by {
                lemma_text_irreflexive(name@);
                if k < at {
                    assert(text_less(fb[k], name@));
                } else {
                    assert(text_less(name@, fb[k]));
                }
            }
            assert forall|n: Seq<char>| #[trigger] entry_at(after, n) == (if n == name@ {
                Some(gp.1)
            } else {
                entry_at(before, n)
            }) by {
                lemma_entry_insert(before, at as int, gp, n);
            }
        }
    }
}

impl Sidecar {
    /// The files stand in the order of their names, each once.
    pub open spec fn wf(&self) -> bool {
        ascending(file_names(self.files@))
    }

    /// A file that says nothing.
    pub fn new() -> (r: Sidecar)
        ensures
            r.wf(),
            r.version == VERSION,
            r.category is None,
            r.files@.len() == 0,
            r.rip is None,
    {
        Sidecar { version: VERSION, category: None, files: Vec::new(), rip: None }
    }

    /// Takes what was read if its version is the one that is known.
    pub fn parse(read: Sidecar) -> (r: Result<Sidecar, SidecarError>)
        ensures
            r == (if read.version == VERSION {
                Ok::<Sidecar, SidecarError>(read)
            } else {
                Err::<Sidecar, SidecarError>(SidecarError::Version(read.version))
            }),
    {
        if read.version != VERSION {
            return Err(SidecarError::Version(read.version));
        }
        Ok(read)
    }

    /// The same content under the version that is written.
    pub fn stamped(self) -> (r: Sidecar)
        ensures
            r.version == VERSION,
            r.category == self.category,
            r.files == self.files,
            r.rip == self.rip,
    {
        Sidecar { version: VERSION, category: self.category, files: self.files, rip: self.rip }
    }

    /// Notes what is known of the file `name`, in place of what was known, and
    /// the category where one is given.
    pub fn upsert(&mut self, category: Option<&str>, name: &str, entry: FileEntry)
        requires
            old(self).wf(),
        ensures
            final(self).wf(),
            final(self).version == old(self).version,
            final(self).rip == old(self).rip,
            opt_text(final(self).category) == (match category {
                Some(c) => Some(c@),
                None => opt_text(old(self).category),
            }),
            forall|n: Seq<char>|
                #[trigger] entry_at(final(self).files@, n) == (if n == name@ {
                    Some(entry)
                } else {
                    entry_at(old(self).files@, n)
                }),
    {
        if let Some(c) = category {
            self.category = Some(c.to_owned());
        }
        put_entry(&mut self.files, name, entry);
    }

    /// Where the file `name` stands.
    pub fn find(&self, name: &str) -> (r: Option<usize>)
        ensures
            match r {
                Some(i) => i < self.files@.len() && self.files@[i as int].0@ == name@ && entry_at(self.files@, name@)
                    == Some(self.files@[i as int].1),
                None => entry_at(self.files@, name@) is None,
            },
    {
        let mut j: usize = self.files.len();
        proof {
            assert(self.files@.take(j as int) =~= self.files@);
        }
        while j > 0
            invariant
                j <= self.files@.len(),
                entry_at(self.files@, name@) == entry_at(self.files@.take(j as int), name@),
            decreases j,
        {
            proof {
                assert(self.files@.take(j as int).last() == self.files@[j - 1]);
                assert(self.files@.take(j as int).drop_last() =~= self.files@.take(j - 1));
            }
            if same_text(self.files[j - 1].0.as_str(), name) {
                return Some(j - 1);
            }
            j = j - 1;
        }
        None
    }
}

/// A record of a disc has one entry for each of its tracks in each of its lists, or it is refused.
pub proof fn law_counts_agree(e: RipEntry, expected: usize)
    ensures
        count_mismatch(e, expected) is None <==> e.files@.len() == expected && e.report.slips@.len() == expected
            && e.report.crcs@.len() == expected && e.metadata_tracks == expected && (e.report.ctdb matches Some(c)
            ==> c.tracks == expected) && (e.report.accuraterip matches Some(a) ==> a.tracks == expected),
        count_mismatch(e, expected) matches Some(m) ==> m.1 as int != expected || e.files@.len() > usize::MAX
            || e.report.slips@.len() > usize::MAX || e.report.crcs@.len() > usize::MAX,
{
}

/// A name that a record gives a file is the name of a file in the directory: it says something, and no
/// directory is reached by it.
pub proof fn law_bad_names(s: Seq<char>, i: int)
    ensures
        0 <= i < s.len() && s[i] == '/' ==> bad_name(s),
        s.len() == 0 ==> bad_name(s),
        s == seq!['.'] || s == seq!['.', '.'] ==> bad_name(s),
        s.len() > 2 && !s.contains('/') ==> !bad_name(s),
        s.len() > 0 && s[0] != '.' && !s.contains('/') ==> !bad_name(s),
{
    reveal_strlit(".");
    reveal_strlit("..");
    assert("."@ =~= seq!['.']);
    assert(".."@ =~= seq!['.', '.']);
    assert("."@.len() == 1 && ".."@.len() == 2 && "."@[0] == '.' && ".."@[0] == '.');
    if 0 <= i < s.len() && s[i] == '/' {
        assert(s.contains('/'));
    }
}

/// In a record that is accepted all names are good, and no two of them are one, that of the log among them.
pub proof fn law_names_of_a_record(e: RipEntry, audio_tracks: Result<usize, String>, i: int, j: int)
    requires
        rip_ok(e, audio_tracks),
        0 <= i < j <= e.files@.len(),
    ensures
        audio_tracks == Ok::<usize, String>(e.files@.len() as usize),
        !bad_name(e.files@[i]@),
        !bad_name(e.log@),
        j < e.files@.len() ==> canonical(e.files@[i]@) != canonical(e.files@[j]@),
        canonical(e.files@[i]@) != canonical(e.log@),
{
    let names = all_names(e);
    let n = e.files@.len() as int;
    lemma_none_bad(names, n + 1);
    assert(names[i] == e.files@[i]@);
    assert(names[n] == e.log@);
    if j < n {
        assert(names[j] == e.files@[j]@);
        assert(!repeats(names, j));
    }
    assert(!repeats(names, n));
}

proof fn lemma_none_bad(names: Seq<Seq<char>>, n: int)
    requires
        n <= names.len(),
        forall|i: int| !first_bad(names, i),
    ensures
        forall|k: int| 0 <= k < n ==> !bad_name(#[trigger] names[k]) && !repeats(names, k),
    decreases n,
{
    if n > 0 {
        lemma_none_bad(names, n - 1);
        assert(!first_bad(names, n - 1));
    }
}

/// What a sidecar holds of a file stands under the name of the file.
pub proof fn law_entry_under_its_name<T>(v: Seq<(String, T)>, i: int, name: Seq<char>)
    ensures
        0 <= i < v.len() && v[i].0@ == name && (forall|j: int| i < j < v.len() ==> (#[trigger] v[j]).0@ != name)
            ==> entry_at(v, name) == Some(v[i].1),
        (forall|j: int| 0 <= j < v.len() ==> (#[trigger] v[j]).0@ != name) ==> entry_at(v, name) is None,
    decreases v.len(),
{
    if v.len() > 0 {
        let d = v.drop_last();
        assert(v.last() == v[v.len() - 1]);
        law_entry_under_its_name(d, i, name);
        assert forall|j: int| 0 <= j < d.len() implies #[trigger] d[j] == v[j] by {}
    }
}

} // verus!
