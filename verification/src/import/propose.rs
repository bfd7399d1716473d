//! The whole of what is proposed for an item of the inbox.

use crate::import::destination::Destination;
use crate::import::draft::{problem_text, problems_of, InboxDraft, Problem};
use crate::import::inbox::{
    bind_is, bind_rip, rip_mismatch_warning, source_of, RipBinding, RipLookup, SameTitle,
};
use crate::import::numbering::{has_room, number_missing, numbered, numbering_start};
use crate::import::proposal::{slip_text, slip_warning, warnings, FileRow};
use crate::import::sidecar::{copy_options, entry_at, opt_text_list, FileEntry, RipEntry, Sidecar};
use crate::relpath::file_name_of;
use crate::text::{opt_text, texts};
use vstd::prelude::*;
use vstd::string::*;

verus! {

/// What is proposed for an item.
#[derive(Debug)]
pub struct Proposed {
    pub draft: InboxDraft,
    /// The album that the tracks join.
    pub destination: Option<Destination>,
    /// What travels with each of the files.
    pub sources: Vec<Option<FileEntry>>,
    /// For each track of the draft the tracks of that album with its title.
    pub same_titles: Vec<Vec<SameTitle>>,
    pub warnings: Vec<String>,
    /// What is asked of the database of discs.
    pub lookup: Option<RipLookup>,
}

/// What the table of contents of a disc says.
#[derive(Debug)]
pub struct DiscReading {
    /// How many audio tracks there are, or why that cannot be read.
    pub audio_tracks: Result<usize, String>,
    /// Their numbers.
    pub numbers: Vec<u8>,
}

/// Where numbering begins for a destination.
pub open spec fn start_for(d: Option<Destination>) -> int {
    match d {
        Some(x) => if 0 <= x.max_track_no < u32::MAX {
            x.max_track_no + 1
        } else {
            1
        },
        None => 1,
    }
}

/// The record of a disc that travels with the files.
pub open spec fn rip_of(s: Option<&Sidecar>) -> Option<RipEntry> {
    match s {
        Some(x) => x.rip,
        None => None,
    }
}

/// What travels with a file.
pub open spec fn source_for(s: Option<&Sidecar>, path: Seq<char>) -> Option<FileEntry> {
    match s {
        Some(x) => entry_at(x.files@, file_name_of(path)),
        None => None,
    }
}

/// The warnings about a disc: that its record does not match, and that the
/// position slipped.
pub open spec fn disc_warnings(bound: Result<RipBinding, String>, slip: Option<Seq<char>>) -> Seq<Seq<char>> {
    (match bound {
        Err(m) => seq!["吸い出しの記録と件が合わない（このままでは配置できない）: "@ + m@],
        Ok(_) => Seq::empty(),
    }) + (match slip {
        Some(w) => seq![w],
        None => Seq::empty(),
    })
}

/// The problems of a draft as a user reads them.
pub open spec fn problem_texts(d: InboxDraft, files: Seq<FileRow>) -> Seq<Seq<char>> {
    problems_of(d, files.map_values(|f: FileRow| f.rel_path@)).map_values(|p: Problem| problem_text(p))
}

/// All warnings: those from before, the problems of the draft, and those about a
/// disc.
pub open spec fn all_warnings(
    before: Seq<Seq<char>>,
    d: InboxDraft,
    files: Seq<FileRow>,
    rip: Option<RipEntry>,
    disc: DiscReading,
    bound: Result<RipBinding, String>,
) -> Seq<Seq<char>> {
    before + problem_texts(d, files) + (match rip {
        Some(e) => disc_warnings(bound, slip_text(e, disc.numbers@)),
        None => Seq::empty(),
    })
}

fn clone_entry(e: &FileEntry) -> (r: FileEntry)
    ensures
        r == *e,
{
    FileEntry {
        source: e.source.clone(),
        url: e.url.clone(),
        channel: e.channel.clone(),
        verdict: e.verdict.clone(),
        message: e.message.clone(),
        subscription_id: e.subscription_id,
        position: e.position,
    }
}

fn sources_of(files: &Vec<FileRow>, sidecar: Option<&Sidecar>) -> (r: Vec<Option<FileEntry>>)
    ensures
        r@.len() == files@.len(),
        forall|i: int| 0 <= i < files@.len() ==> #[trigger] r@[i] == source_for(sidecar, files@[i].rel_path@),
{
    let mut out: Vec<Option<FileEntry>> = Vec::new();
    let mut i: usize = 0;
    while i < files.len()
        invariant
            i <= files@.len(),
            out@.len() == i,
            forall|k: int| 0 <= k < i ==> #[trigger] out@[k] == source_for(sidecar, files@[k].rel_path@),
        decreases files@.len() - i,
    {
        let found = match sidecar {
            Some(s) => match source_of(s, &files[i].rel_path) {
                Some(k) => Some(clone_entry(&s.files[k].1)),
                None => None,
            },
            None => None,
        };
        out.push(found);
        i = i + 1;
    }
    out
}

fn push_text(out: &mut Vec<String>, w: String)
    ensures
        texts(final(out)@) == texts(old(out)@) + seq![w@],
{
    let ghost before = texts(out@);
    let ghost wt = w@;
    out.push(w);
    proof {
        assert(texts(out@) =~= before + seq![wt]);
    }
}

fn append_texts(out: &mut Vec<String>, more: &Vec<String>)
    ensures
        texts(final(out)@) == texts(old(out)@) + texts(more@),
{
    let ghost before = texts(out@);
    let ghost m = texts(more@);
    let mut i: usize = 0;
    proof {
        assert(before + m.take(0) =~= before);
    }
    while i < more.len()
        invariant
            i <= more@.len(),
            m == texts(more@),
            texts(out@) == before + m.take(i as int),
        decreases more@.len() - i,
    {
        push_text(out, more[i].clone());
        proof {
            assert(before + m.take(i as int) + seq![m[i as int]] =~= before + m.take(i + 1));
        }
        i = i + 1;
    }
    proof {
        assert(m.take(i as int) =~= m);
    }
}

fn lookup_of(e: &RipEntry) -> (r: RipLookup)
    ensures
        r.toc@ == e.toc@,
        opt_text_list(r.isrcs@) == opt_text_list(e.isrcs@),
        opt_text(r.mcn) == opt_text(e.mcn),
{
    RipLookup { toc: e.toc.clone(), isrcs: copy_options(&e.isrcs), mcn: e.mcn.clone() }
}

fn no_titles(n: usize) -> (r: Vec<Vec<SameTitle>>)
    ensures
        r@.len() == n,
        forall|i: int| 0 <= i < n ==> (#[trigger] r@[i])@.len() == 0,
{
    let mut out: Vec<Vec<SameTitle>> = Vec::new();
    let mut i: usize = 0;
    while i < n
        invariant
            i <= n,
            out@.len() == i,
            forall|k: int| 0 <= k < i ==> (#[trigger] out@[k])@.len() == 0,
        decreases n - i,
    {
        out.push(Vec::new());
        i = i + 1;
    }
    out
}

/// The whole of what is proposed for an item, from the draft that its tags, the
/// file that travels with them and the saved draft give. `same_titles` holds for
/// each track the tracks of the destination with its title; without a destination
/// no title can be taken. `warned` is what was warned of so far.
pub fn propose(
    draft: InboxDraft,
    destination: Option<Destination>,
    files: &Vec<FileRow>,
    sidecar: Option<&Sidecar>,
    disc: DiscReading,
    same_titles: Vec<Vec<SameTitle>>,
    warned: Vec<String>,
) -> (r: Proposed)
    requires
        destination matches Some(d) ==> d.max_track_no != u32::MAX as i64,
        has_room(draft.tracks@, start_for(destination) as u32),
    ensures
        exists|order: Seq<usize>| #[trigger]
            numbered(draft.tracks@, r.draft.tracks@, order, start_for(destination) as u32),
        draft.wf() ==> r.draft.wf(),
        r.draft.category == draft.category,
        r.draft.albumartist == draft.albumartist,
        r.draft.album == draft.album,
        r.draft.date == draft.date,
        r.draft.album_gain == draft.album_gain,
        r.draft.release_id == draft.release_id,
        r.draft.release_group_id == draft.release_group_id,
        r.destination == destination,
        r.sources@.len() == files@.len(),
        forall|i: int| 0 <= i < files@.len() ==> #[trigger] r.sources@[i] == source_for(sidecar, files@[i].rel_path@),
        destination is Some ==> r.same_titles == same_titles,
        destination is None ==> r.same_titles@.len() == r.draft.tracks@.len() && forall|i: int|
            0 <= i < r.same_titles@.len() ==> (#[trigger] r.same_titles@[i])@.len() == 0,
        exists|bound: Result<RipBinding, String>|
            (rip_of(sidecar) matches Some(e) ==> bind_is(bound, e, disc.audio_tracks, r.draft)) && texts(r.warnings@)
                == #[trigger] all_warnings(texts(warned@), r.draft, files@, rip_of(sidecar), disc, bound),
        match rip_of(sidecar) {
            None => r.lookup is None,
            Some(e) => r.lookup matches Some(l) && l.toc@ == e.toc@ && opt_text(l.mcn) == opt_text(e.mcn)
                && opt_text_list(l.isrcs@) == opt_text_list(e.isrcs@),
        },
{
    let max: Option<i64> = match &destination {
        Some(d) => Some(d.max_track_no),
        None => None,
    };
    let start: u32 = numbering_start(max);
    proof {
        assert(start == start_for(destination));
    }
    let ghost before = draft.tracks@;
    let mut done = draft;
    number_missing(&mut done, start);
    proof {
        let order = choose|order: Seq<usize>| #[trigger] numbered(before, done.tracks@, order, start);
        assert(numbered(before, done.tracks@, order, start_for(destination) as u32));
    }
    let sources = sources_of(files, sidecar);
    let titles = if destination.is_some() {
        same_titles
    } else {
        no_titles(done.tracks.len())
    };
    let problems = warnings(files, &done);
    let mut all = warned;
    let ghost w0 = texts(all@);
    append_texts(&mut all, &problems);
    let ghost w1 = texts(all@);
    let mut lookup: Option<RipLookup> = None;
    let ghost mut bound_g: Result<RipBinding, String> = arbitrary();
    let mut has_rip = false;
    if let Some(s) = sidecar {
        if let Some(e) = &s.rip {
            has_rip = true;
            let bound = bind_rip(e, disc.audio_tracks, &done);
            proof {
                bound_g = bound;
            }
            if let Err(m) = &bound {
                let w = rip_mismatch_warning(m);
                push_text(&mut all, w);
            }
            if let Some(w) = slip_warning(e, &disc.numbers) {
                push_text(&mut all, w);
            }
            lookup = Some(lookup_of(e));
            proof {
                let slip = slip_text(*e, disc.numbers@);
                assert(texts(all@) =~= w1 + disc_warnings(bound, slip));
            }
        }
    }
    proof {
        if !has_rip {
            assert(w1 =~= w1 + Seq::<Seq<char>>::empty());
        }
        assert(texts(all@) == all_warnings(w0, done, files@, rip_of(sidecar), disc, bound_g));
    }
    Proposed { draft: done, destination, sources, same_titles: titles, warnings: all, lookup }
}

/// Numbers are given on from the highest one of the album that takes the item, and from 1 where none does.
pub proof fn law_numbers_go_on(d: Destination)
    ensures
        start_for(None) == 1,
        0 <= d.max_track_no < u32::MAX ==> start_for(Some(d)) == d.max_track_no + 1,
        d.max_track_no < 0 ==> start_for(Some(d)) == 1,
{
}

/// Whoever is asked to approve an item is told what was found before, then each problem of the draft, and
/// whether the record of the disc does not match.
pub proof fn law_nothing_is_held_back(
    before: Seq<Seq<char>>,
    d: InboxDraft,
    files: Seq<FileRow>,
    rip: Option<RipEntry>,
    disc: DiscReading,
    bound: Result<RipBinding, String>,
    i: int,
)
    ensures
        0 <= i < before.len() ==> all_warnings(before, d, files, rip, disc, bound)[i] == before[i],
        0 <= i < problems_of(d, files.map_values(|f: FileRow| f.rel_path@)).len() ==> all_warnings(
            before,
            d,
            files,
            rip,
            disc,
            bound,
        )[before.len() + i] == problem_text(problems_of(d, files.map_values(|f: FileRow| f.rel_path@))[i]),
        rip is Some && bound is Err ==> all_warnings(before, d, files, rip, disc, bound).len() > before.len()
            + problems_of(d, files.map_values(|f: FileRow| f.rel_path@)).len(),
        rip is None ==> all_warnings(before, d, files, rip, disc, bound).len() == before.len() + problems_of(
            d,
            files.map_values(|f: FileRow| f.rel_path@),
        ).len(),
{
}

} // verus!
