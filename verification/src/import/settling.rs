//! Writing what a draft asks for leaves nothing to write.

use crate::catalog::values_of;
use crate::edit::tags::{law_replacement_sets_its_key, replaced};
use crate::import::destination::{
    all_changes, corrected_changes, corrected_values, desired_tags, field_changes, has_values, is_written,
    lemma_no_corrected_changes, said_text,
};
use crate::import::draft::{change_list, covered_key, disc_total, law_valid_corrections, locked_key, problems_of, DraftTrack, InboxDraft};
use crate::import::proposal::{artists_kept, cleaned};
use crate::import::ytmusic::metadata::pair_if;
use crate::split::lemma_text_irreflexive;
use crate::text::{int_text, starts_with, texts, trimmed};
use vstd::prelude::*;
use vstd::string::*;

verus! {

/// A change with no values removes its key.
pub open spec fn as_replacements(c: Seq<(Seq<char>, Option<Seq<Seq<char>>>)>) -> Seq<(Seq<char>, Seq<Seq<char>>)> {
    c.map_values(|p: (Seq<char>, Option<Seq<Seq<char>>>)| (p.0, written(p.1)))
}

/// The values that a change leaves under its key.
pub open spec fn written(values: Option<Seq<Seq<char>>>) -> Seq<Seq<char>> {
    match values {
        Some(v) => v,
        None => Seq::empty(),
    }
}

/// The tags of a file after changes were written.
pub open spec fn after_writing(
    current: Seq<(Seq<char>, Seq<char>)>,
    c: Seq<(Seq<char>, Option<Seq<Seq<char>>>)>,
) -> Seq<(Seq<char>, Seq<char>)> {
    replaced(current, as_replacements(c), c.len() as int)
}

// ---------------------------------------------------------------- the keys of fields

/// The place of a field among the fields of a draft.
spec fn field_rank(k: Seq<char>) -> int {
    if k == "ALBUMARTIST"@ {
        0
    } else if k == "ALBUM"@ {
        1
    } else if k == "TITLE"@ {
        2
    } else if k == "ARTIST"@ {
        3
    } else if k == "TRACKNUMBER"@ {
        4
    } else if k == "DISCNUMBER"@ {
        5
    } else if k == "DATE"@ {
        6
    } else if k == "DISCTOTAL"@ {
        7
    } else if k == "MUSICBRAINZ_ALBUMID"@ {
        8
    } else if k == "MUSICBRAINZ_RELEASEGROUPID"@ {
        9
    } else {
        10
    }
}

proof fn lemma_field_ranks()
    ensures
        field_rank("ALBUMARTIST"@) == 0,
        field_rank("ALBUM"@) == 1,
        field_rank("TITLE"@) == 2,
        field_rank("ARTIST"@) == 3,
        field_rank("TRACKNUMBER"@) == 4,
        field_rank("DISCNUMBER"@) == 5,
        field_rank("DATE"@) == 6,
        field_rank("DISCTOTAL"@) == 7,
        field_rank("MUSICBRAINZ_ALBUMID"@) == 8,
        field_rank("MUSICBRAINZ_RELEASEGROUPID"@) == 9,
{
    reveal_strlit("ALBUMARTIST");
    reveal_strlit("ALBUM");
    reveal_strlit("TITLE");
    reveal_strlit("ARTIST");
    reveal_strlit("TRACKNUMBER");
    reveal_strlit("DISCNUMBER");
    reveal_strlit("DATE");
    reveal_strlit("DISCTOTAL");
    reveal_strlit("MUSICBRAINZ_ALBUMID");
    reveal_strlit("MUSICBRAINZ_RELEASEGROUPID");
    assert("ALBUMARTIST"@.len() == 11 && "ALBUM"@.len() == 5 && "TITLE"@.len() == 5 && "ARTIST"@.len() == 6);
    assert("TRACKNUMBER"@.len() == 11 && "DISCNUMBER"@.len() == 10 && "DATE"@.len() == 4 && "DISCTOTAL"@.len() == 9);
    assert("MUSICBRAINZ_ALBUMID"@.len() == 19 && "MUSICBRAINZ_RELEASEGROUPID"@.len() == 26);
    assert("ALBUM"@[0] == 'A' && "TITLE"@[0] == 'T');
    assert("ALBUMARTIST"@[0] == 'A' && "TRACKNUMBER"@[0] == 'T');
}

/// The ranks of the keys rise and are below `m`.
spec fn ranked(v: Seq<(Seq<char>, Seq<char>)>, m: int) -> bool {
    &&& forall|i: int| 0 <= i < v.len() ==> field_rank((#[trigger] v[i]).0) < m
    &&& forall|i: int, j: int|
        0 <= i < j < v.len() ==> field_rank((#[trigger] v[i]).0) < field_rank((#[trigger] v[j]).0)
}

proof fn lemma_ranked_more(v: Seq<(Seq<char>, Seq<char>)>, key: Seq<char>, value: Option<Seq<char>>, m: int)
    requires
        ranked(v, m),
        field_rank(key) == m,
    ensures
        ranked(v + pair_if(key, value), m + 1),
{
    let w = v + pair_if(key, value);
    assert forall|i: int| 0 <= i < w.len() implies field_rank((#[trigger] w[i]).0) < m + 1 by {
        if i < v.len() {
            assert(w[i] == v[i]);
        }
    }
    assert forall|i: int, j: int| 0 <= i < j < w.len() implies field_rank((#[trigger] w[i]).0) < field_rank(
        (#[trigger] w[j]).0,
    ) by {
        assert(w[i] == v[i]);
        if j < v.len() {
            assert(w[j] == v[j]);
        }
    }
}

proof fn lemma_desired_ranked(d: InboxDraft, i: int)
    ensures
        ranked(desired_tags(d, i), 10),
{
    lemma_field_ranks();
    let t = d.tracks@[i];
    let base = seq![
        ("ALBUMARTIST"@, trimmed(d.albumartist@)),
        ("ALBUM"@, trimmed(d.album@)),
        ("TITLE"@, trimmed(t.title@)),
        ("ARTIST"@, d.artist_of(i)),
        ("TRACKNUMBER"@, int_text(t.track_no as int)),
        ("DISCNUMBER"@, int_text(t.disc_no as int)),
    ];
    assert(ranked(base, 6));
    let date = said_text(d.date);
    let total = if disc_total(d.tracks@) > 1 {
        Some(int_text(disc_total(d.tracks@) as int))
    } else {
        None
    };
    let release = said_text(d.release_id);
    let group = said_text(d.release_group_id);
    lemma_ranked_more(base, "DATE"@, date, 6);
    let b1 = base + pair_if("DATE"@, date);
    lemma_ranked_more(b1, "DISCTOTAL"@, total, 7);
    let b2 = b1 + pair_if("DISCTOTAL"@, total);
    lemma_ranked_more(b2, "MUSICBRAINZ_ALBUMID"@, release, 8);
    let b3 = b2 + pair_if("MUSICBRAINZ_ALBUMID"@, release);
    lemma_ranked_more(b3, "MUSICBRAINZ_RELEASEGROUPID"@, group, 9);
}

/// A field is no tag that a valid draft corrects.
proof fn lemma_field_is_no_correction(k: Seq<char>)
    requires
        field_rank(k) < 10,
    ensures
        covered_key(k) || locked_key(k),
{
    reveal_strlit("MUSICBRAINZ_");
    reveal_strlit("MUSICBRAINZ_ALBUMID");
    reveal_strlit("MUSICBRAINZ_RELEASEGROUPID");
    if k == "MUSICBRAINZ_ALBUMID"@ || k == "MUSICBRAINZ_RELEASEGROUPID"@ {
        assert(k.take("MUSICBRAINZ_"@.len() as int) =~= "MUSICBRAINZ_"@);
        assert(starts_with(k, "MUSICBRAINZ_"@));
    }
}

// ---------------------------------------------------------------- what is listed

/// What changes do to a key: the values of the last change of it.
spec fn change_for(c: Seq<(Seq<char>, Option<Seq<Seq<char>>>)>, k: Seq<char>) -> Option<Option<Seq<Seq<char>>>>
    decreases c.len(),
{
    if c.len() == 0 {
        None
    } else if c.last().0 == k {
        Some(c.last().1)
    } else {
        change_for(c.drop_last(), k)
    }
}

proof fn lemma_after_writing(
    current: Seq<(Seq<char>, Seq<char>)>,
    c: Seq<(Seq<char>, Option<Seq<Seq<char>>>)>,
    n: int,
    k: Seq<char>,
)
    requires
        0 <= n <= c.len(),
    ensures
        values_of(replaced(current, as_replacements(c), n), k) == (match change_for(c.take(n), k) {
            Some(v) => written(v),
            None => values_of(current, k),
        }),
    decreases n,
{
    if n > 0 {
        let cr = as_replacements(c);
        lemma_after_writing(current, c, n - 1, k);
        law_replacement_sets_its_key(replaced(current, cr, n - 1), cr[n - 1].0, cr[n - 1].1, k);
        assert(c.take(n).last() == c[n - 1]);
        assert(c.take(n).drop_last() =~= c.take(n - 1));
        assert(cr[n - 1].0 == c[n - 1].0);
        assert(cr[n - 1].1 == written(c[n - 1].1));
    }
}

proof fn lemma_change_for_concat(
    a: Seq<(Seq<char>, Option<Seq<Seq<char>>>)>,
    b: Seq<(Seq<char>, Option<Seq<Seq<char>>>)>,
    k: Seq<char>,
)
    ensures
        change_for(a + b, k) == (match change_for(b, k) {
            Some(v) => Some(v),
            None => change_for(a, k),
        }),
    decreases b.len(),
{
    if b.len() == 0 {
        assert(a + b =~= a);
    } else {
        assert((a + b).last() == b.last());
        assert((a + b).drop_last() =~= a + b.drop_last());
        lemma_change_for_concat(a, b.drop_last(), k);
    }
}

/// No pair has the key.
spec fn lacks(v: Seq<(Seq<char>, Seq<char>)>, k: Seq<char>) -> bool {
    forall|i: int| 0 <= i < v.len() ==> (#[trigger] v[i]).0 != k
}

proof fn lemma_no_field_change(
    desired: Seq<(Seq<char>, Seq<char>)>,
    current: Seq<(Seq<char>, Seq<char>)>,
    keeps: bool,
    k: Seq<char>,
)
    requires
        lacks(desired, k),
    ensures
        change_for(field_changes(desired, current, keeps), k) is None,
    decreases desired.len(),
{
    if desired.len() > 0 {
        let t = desired.drop_last();
        assert forall|i: int| 0 <= i < t.len() implies (#[trigger] t[i]).0 != k by {
            assert(t[i] == desired[i]);
        }
        lemma_no_field_change(t, current, keeps, k);
        assert(desired[desired.len() - 1].0 != k);
        let r = field_changes(t, current, keeps);
        let p = desired.last();
        if is_written(p, current, keeps) {
            assert(r.push((p.0, Some(seq![p.1]))).drop_last() =~= r);
        }
    }
}

/// A field is changed exactly where it has to be written.
proof fn lemma_field_change(
    desired: Seq<(Seq<char>, Seq<char>)>,
    current: Seq<(Seq<char>, Seq<char>)>,
    keeps: bool,
    m: int,
    j: int,
)
    requires
        ranked(desired, m),
        0 <= j < desired.len(),
    ensures
        change_for(field_changes(desired, current, keeps), desired[j].0) == (if is_written(desired[j], current, keeps) {
            Some(Some(seq![desired[j].1]))
        } else {
            None
        }),
    decreases desired.len(),
{
    let t = desired.drop_last();
    let p = desired.last();
    let r = field_changes(t, current, keeps);
    assert(desired[desired.len() - 1] == p);
    assert(r.push((p.0, Some(seq![p.1]))).drop_last() =~= r);
    if j == desired.len() - 1 {
        assert forall|i: int| 0 <= i < t.len() implies (#[trigger] t[i]).0 != p.0 by {
            assert(t[i] == desired[i]);
            assert(field_rank(desired[i].0) < field_rank(desired[desired.len() - 1].0));
        }
        lemma_no_field_change(t, current, keeps, p.0);
    } else {
        assert forall|i: int| 0 <= i < t.len() implies field_rank((#[trigger] t[i]).0) < m by {
            assert(t[i] == desired[i]);
        }
        assert forall|x: int, y: int| 0 <= x < y < t.len() implies field_rank((#[trigger] t[x]).0) < field_rank(
            (#[trigger] t[y]).0,
        ) by {
            assert(t[x] == desired[x]);
            assert(t[y] == desired[y]);
        }
        lemma_field_change(t, current, keeps, m, j);
        assert(t[j] == desired[j]);
        assert(field_rank(desired[j].0) < field_rank(desired[desired.len() - 1].0));
    }
}

/// None of the first `n` corrections has the key.
spec fn uncorrected(tags: Seq<(String, Option<Vec<String>>)>, n: int, k: Seq<char>) -> bool {
    forall|i: int| 0 <= i < n ==> (#[trigger] tags[i]).0@ != k
}

proof fn lemma_no_correction(
    tags: Seq<(String, Option<Vec<String>>)>,
    current: Seq<(Seq<char>, Seq<char>)>,
    n: int,
    k: Seq<char>,
)
    requires
        0 <= n <= tags.len(),
        uncorrected(tags, n, k),
    ensures
        change_for(corrected_changes(tags, current, n), k) is None,
    decreases n,
{
    if n > 0 {
        lemma_no_correction(tags, current, n - 1, k);
        assert(tags[n - 1].0@ != k);
        let r = corrected_changes(tags, current, n - 1);
        assert(r.push((tags[n - 1].0@, corrected_values(tags[n - 1].1))).drop_last() =~= r);
    }
}

/// The keys of corrections, each once.
spec fn corrections_differ(tags: Seq<(String, Option<Vec<String>>)>) -> bool {
    forall|i: int, j: int| 0 <= i < j < tags.len() ==> (#[trigger] tags[i]).0@ != (#[trigger] tags[j]).0@
}

/// A tag is corrected exactly where the file has not the values.
proof fn lemma_correction(
    tags: Seq<(String, Option<Vec<String>>)>,
    current: Seq<(Seq<char>, Seq<char>)>,
    n: int,
    k: int,
)
    requires
        0 <= k < n <= tags.len(),
        corrections_differ(tags),
    ensures
        change_for(corrected_changes(tags, current, n), tags[k].0@) == (if has_values(
            current,
            tags[k].0@,
            corrected_values(tags[k].1),
        ) {
            None
        } else {
            Some(corrected_values(tags[k].1))
        }),
    decreases n,
{
    let r = corrected_changes(tags, current, n - 1);
    assert(r.push((tags[n - 1].0@, corrected_values(tags[n - 1].1))).drop_last() =~= r);
    if k == n - 1 {
        assert forall|i: int| 0 <= i < n - 1 implies (#[trigger] tags[i]).0@ != tags[k].0@ by {
            assert(tags[i].0@ != tags[n - 1].0@);
        }
        lemma_no_correction(tags, current, n - 1, tags[k].0@);
    } else {
        lemma_correction(tags, current, n - 1, k);
        assert(tags[k].0@ != tags[n - 1].0@);
    }
}

// ---------------------------------------------------------------- nothing is left

proof fn lemma_nothing_to_write(
    desired: Seq<(Seq<char>, Seq<char>)>,
    current: Seq<(Seq<char>, Seq<char>)>,
    keeps: bool,
)
    requires
        forall|k: int| 0 <= k < desired.len() ==> !is_written(#[trigger] desired[k], current, keeps),
    ensures
        field_changes(desired, current, keeps).len() == 0,
    decreases desired.len(),
{
    if desired.len() > 0 {
        let t = desired.drop_last();
        assert forall|k: int| 0 <= k < t.len() implies !is_written(#[trigger] t[k], current, keeps) by {
            assert(t[k] == desired[k]);
        }
        lemma_nothing_to_write(t, current, keeps);
        assert(!is_written(desired[desired.len() - 1], current, keeps));
    }
}

/// The corrections of a track each have a key of their own.
proof fn lemma_corrections_differ(d: InboxDraft, i: int)
    requires
        d.wf(),
        0 <= i < d.tracks@.len(),
    ensures
        corrections_differ(d.tracks@[i].tags@),
{
    let tags = d.tracks@[i].tags@;
    let v = d.tracks@[i]@.tags;
    assert(d.tracks@[i]@.wf());
    assert forall|a: int, b: int| 0 <= a < b < tags.len() implies (#[trigger] tags[a]).0@ != (#[trigger] tags[b]).0@ by {
        assert(v == change_list(tags));
        assert(v[a].0 == tags[a].0@);
        assert(v[b].0 == tags[b].0@);
        lemma_text_irreflexive(tags[a].0@);
    }
}

/// A field and a correction of a valid draft never share a key.
proof fn lemma_apart(d: InboxDraft, files: Seq<Seq<char>>, i: int, j: int, k: int)
    requires
        problems_of(d, files).len() == 0,
        0 <= i < d.tracks@.len(),
        0 <= j < desired_tags(d, i).len(),
        0 <= k < d.tracks@[i].tags@.len(),
    ensures
        desired_tags(d, i)[j].0 != d.tracks@[i].tags@[k].0@,
{
    lemma_desired_ranked(d, i);
    assert(field_rank(desired_tags(d, i)[j].0) < 10);
    lemma_field_is_no_correction(desired_tags(d, i)[j].0);
    law_valid_corrections(d, files, i, k);
}

/// The values of a field after writing.
proof fn lemma_field_after(
    d: InboxDraft,
    files: Seq<Seq<char>>,
    i: int,
    current: Seq<(Seq<char>, Seq<char>)>,
    keeps: bool,
    j: int,
)
    requires
        problems_of(d, files).len() == 0,
        0 <= i < d.tracks@.len(),
        0 <= j < desired_tags(d, i).len(),
        keeps == artists_kept(d.tracks@[i].keep_artists, d.artist_of(i), values_of(current, "ARTIST"@)),
    ensures
        ({
            let p = desired_tags(d, i)[j];
            values_of(after_writing(current, all_changes(d, i, current)), p.0) == (if is_written(p, current, keeps) {
                seq![p.1]
            } else {
                values_of(current, p.0)
            })
        }),
{
    let t = d.tracks@[i];
    let desired = desired_tags(d, i);
    let fc = field_changes(desired, current, keeps);
    let cc = corrected_changes(t.tags@, current, t.tags@.len() as int);
    let c = all_changes(d, i, current);
    let k = desired[j].0;
    lemma_desired_ranked(d, i);
    lemma_field_change(desired, current, keeps, 10, j);
    assert forall|x: int| 0 <= x < t.tags@.len() implies (#[trigger] t.tags@[x]).0@ != k by {
        lemma_apart(d, files, i, j, x);
    }
    lemma_no_correction(t.tags@, current, t.tags@.len() as int, k);
    lemma_change_for_concat(fc, cc, k);
    assert(c.take(c.len() as int) =~= c);
    lemma_after_writing(current, c, c.len() as int, k);
}

/// The values of a corrected tag after writing.
proof fn lemma_correction_after(
    d: InboxDraft,
    files: Seq<Seq<char>>,
    i: int,
    current: Seq<(Seq<char>, Seq<char>)>,
    k: int,
)
    requires
        d.wf(),
        problems_of(d, files).len() == 0,
        0 <= i < d.tracks@.len(),
        0 <= k < d.tracks@[i].tags@.len(),
    ensures
        has_values(
            after_writing(current, all_changes(d, i, current)),
            d.tracks@[i].tags@[k].0@,
            corrected_values(d.tracks@[i].tags@[k].1),
        ),
{
    let t = d.tracks@[i];
    let desired = desired_tags(d, i);
    let keeps = artists_kept(t.keep_artists, d.artist_of(i), values_of(current, "ARTIST"@));
    let fc = field_changes(desired, current, keeps);
    let cc = corrected_changes(t.tags@, current, t.tags@.len() as int);
    let c = all_changes(d, i, current);
    let key = t.tags@[k].0@;
    lemma_corrections_differ(d, i);
    lemma_correction(t.tags@, current, t.tags@.len() as int, k);
    assert forall|x: int| 0 <= x < desired.len() implies (#[trigger] desired[x]).0 != key by {
        lemma_apart(d, files, i, x, k);
    }
    lemma_no_field_change(desired, current, keeps, key);
    lemma_change_for_concat(fc, cc, key);
    assert(c.take(c.len() as int) =~= c);
    lemma_after_writing(current, c, c.len() as int, key);
}

/// Once what a valid draft asks for is written into a file, nothing is left to
/// write.
pub proof fn law_writing_settles(d: InboxDraft, files: Seq<Seq<char>>, i: int, current: Seq<(Seq<char>, Seq<char>)>)
    requires
        d.wf(),
        problems_of(d, files).len() == 0,
        0 <= i < d.tracks@.len(),
    ensures
        all_changes(d, i, after_writing(current, all_changes(d, i, current))).len() == 0,
{
    let t = d.tracks@[i];
    let desired = desired_tags(d, i);
    let keeps = artists_kept(t.keep_artists, d.artist_of(i), values_of(current, "ARTIST"@));
    let after = after_writing(current, all_changes(d, i, current));
    let keeps2 = artists_kept(t.keep_artists, d.artist_of(i), values_of(after, "ARTIST"@));
    assert(desired[3] == ("ARTIST"@, d.artist_of(i)));
    lemma_field_after(d, files, i, current, keeps, 3);
    assert(keeps2 == keeps);
    assert forall|j: int| 0 <= j < desired.len() implies !is_written(#[trigger] desired[j], after, keeps2) by {
        lemma_field_after(d, files, i, current, keeps, j);
    }
    lemma_nothing_to_write(desired, after, keeps2);
    assert forall|k: int| 0 <= k < t.tags@.len() implies has_values(
        after,
        (#[trigger] t.tags@[k]).0@,
        corrected_values(t.tags@[k].1),
    ) by {
        lemma_correction_after(d, files, i, current, k);
    }
    lemma_no_corrected_changes(t.tags@, after, t.tags@.len() as int);
}

/// The field at this place among those that are asked for.
proof fn lemma_field_written(
    d: InboxDraft,
    files: Seq<Seq<char>>,
    i: int,
    current: Seq<(Seq<char>, Seq<char>)>,
    j: int,
    key: Seq<char>,
    value: Seq<char>,
)
    requires
        problems_of(d, files).len() == 0,
        0 <= i < d.tracks@.len(),
        0 <= j < desired_tags(d, i).len(),
        desired_tags(d, i)[j] == (key, value),
        key != "ARTIST"@,
    ensures
        values_of(after_writing(current, all_changes(d, i, current)), key) == seq![value],
{
    let keeps = artists_kept(d.tracks@[i].keep_artists, d.artist_of(i), values_of(current, "ARTIST"@));
    lemma_field_after(d, files, i, current, keeps, j);
}

/// The tags that a file has once the changes of a valid draft are written are those
/// of the draft: the title and the numbers of its track, the names of its album, and
/// its own artist or else that of the album.
pub proof fn law_written_tags_are_those_of_the_draft(
    d: InboxDraft,
    files: Seq<Seq<char>>,
    i: int,
    current: Seq<(Seq<char>, Seq<char>)>,
)
    requires
        problems_of(d, files).len() == 0,
        0 <= i < d.tracks@.len(),
    ensures
        ({
            let after = after_writing(current, all_changes(d, i, current));
            let t = d.tracks@[i];
            &&& values_of(after, "TITLE"@) == seq![trimmed(t.title@)]
            &&& values_of(after, "ALBUM"@) == seq![trimmed(d.album@)]
            &&& values_of(after, "ALBUMARTIST"@) == seq![trimmed(d.albumartist@)]
            &&& values_of(after, "TRACKNUMBER"@) == seq![int_text(t.track_no as int)]
            &&& values_of(after, "DISCNUMBER"@) == seq![int_text(t.disc_no as int)]
            &&& t.keep_artists == Some(false) && trimmed(t.artist@).len() > 0 ==> values_of(after, "ARTIST"@) == seq![
                trimmed(t.artist@),
            ]
            &&& t.keep_artists == Some(false) && trimmed(t.artist@).len() == 0 ==> values_of(after, "ARTIST"@) == seq![
                trimmed(d.albumartist@),
            ]
            &&& t.keep_artists == Some(true) ==> values_of(after, "ARTIST"@) == values_of(current, "ARTIST"@)
        }),
{
    let t = d.tracks@[i];
    let desired = desired_tags(d, i);
    lemma_field_ranks();
    let keeps = artists_kept(t.keep_artists, d.artist_of(i), values_of(current, "ARTIST"@));
    assert(desired[0] == ("ALBUMARTIST"@, trimmed(d.albumartist@)));
    lemma_field_written(d, files, i, current, 0, "ALBUMARTIST"@, trimmed(d.albumartist@));
    assert(desired[1] == ("ALBUM"@, trimmed(d.album@)));
    lemma_field_written(d, files, i, current, 1, "ALBUM"@, trimmed(d.album@));
    assert(desired[2] == ("TITLE"@, trimmed(t.title@)));
    lemma_field_written(d, files, i, current, 2, "TITLE"@, trimmed(t.title@));
    assert(desired[4] == ("TRACKNUMBER"@, int_text(t.track_no as int)));
    lemma_field_written(d, files, i, current, 4, "TRACKNUMBER"@, int_text(t.track_no as int));
    assert(desired[5] == ("DISCNUMBER"@, int_text(t.disc_no as int)));
    lemma_field_written(d, files, i, current, 5, "DISCNUMBER"@, int_text(t.disc_no as int));
    assert(desired[3].0 == "ARTIST"@);
    lemma_field_after(d, files, i, current, keeps, 3);
}

/// A pair that is asked for only where there is something to say stands behind what
/// stands before it.
proof fn lemma_pair_at(
    v: Seq<(Seq<char>, Seq<char>)>,
    key: Seq<char>,
    value: Seq<char>,
    rest: Seq<(Seq<char>, Seq<char>)>,
)
    ensures
        (v + pair_if(key, Some(value)) + rest)[v.len() as int] == (key, value),
        v.len() < (v + pair_if(key, Some(value)) + rest).len(),
{
    assert(pair_if(key, Some(value)) =~= seq![(key, value)]);
}

/// The date, the ids of the release and the number of discs are written where the
/// draft says them. The number of discs is the highest number of a disc, and it is
/// written only where there are several.
pub proof fn law_written_release_is_that_of_the_draft(
    d: InboxDraft,
    files: Seq<Seq<char>>,
    i: int,
    current: Seq<(Seq<char>, Seq<char>)>,
)
    requires
        problems_of(d, files).len() == 0,
        0 <= i < d.tracks@.len(),
    ensures
        ({
            let after = after_writing(current, all_changes(d, i, current));
            &&& d.date is Some && trimmed(d.date->0@).len() > 0 ==> values_of(after, "DATE"@) == seq![
                trimmed(d.date->0@),
            ]
            &&& d.release_id is Some && trimmed(d.release_id->0@).len() > 0 ==> values_of(
                after,
                "MUSICBRAINZ_ALBUMID"@,
            ) == seq![trimmed(d.release_id->0@)]
            &&& d.release_group_id is Some && trimmed(d.release_group_id->0@).len() > 0 ==> values_of(
                after,
                "MUSICBRAINZ_RELEASEGROUPID"@,
            ) == seq![trimmed(d.release_group_id->0@)]
            &&& forall|m: int|
                0 <= m < d.tracks@.len() && (#[trigger] d.tracks@[m]).disc_no > 1 && (forall|k: int|
                    0 <= k < d.tracks@.len() ==> (#[trigger] d.tracks@[k]).disc_no <= d.tracks@[m].disc_no) ==> values_of(
                    after,
                    "DISCTOTAL"@,
                ) == seq![int_text(d.tracks@[m].disc_no as int)]
            &&& (forall|k: int| 0 <= k < d.tracks@.len() ==> (#[trigger] d.tracks@[k]).disc_no <= 1) ==> values_of(
                after,
                "DISCTOTAL"@,
            ) == values_of(current, "DISCTOTAL"@)
        }),
{
    let t = d.tracks@[i];
    let desired = desired_tags(d, i);
    lemma_field_ranks();
    let base = seq![
        ("ALBUMARTIST"@, trimmed(d.albumartist@)),
        ("ALBUM"@, trimmed(d.album@)),
        ("TITLE"@, trimmed(t.title@)),
        ("ARTIST"@, d.artist_of(i)),
        ("TRACKNUMBER"@, int_text(t.track_no as int)),
        ("DISCNUMBER"@, int_text(t.disc_no as int)),
    ];
    let none = Seq::<(Seq<char>, Seq<char>)>::empty();
    let date = pair_if("DATE"@, said_text(d.date));
    let discs = disc_total(d.tracks@);
    let total = pair_if("DISCTOTAL"@, if discs > 1 {
        Some(int_text(discs as int))
    } else {
        None
    });
    let release = pair_if("MUSICBRAINZ_ALBUMID"@, said_text(d.release_id));
    let group = pair_if("MUSICBRAINZ_RELEASEGROUPID"@, said_text(d.release_group_id));
    assert(desired =~= base + date + (total + release + group));
    assert(desired =~= (base + date) + total + (release + group));
    assert(desired =~= (base + date + total) + release + group);
    assert(desired =~= (base + date + total + release) + group + none);
    if d.date is Some && trimmed(d.date->0@).len() > 0 {
        lemma_pair_at(base, "DATE"@, trimmed(d.date->0@), total + release + group);
        lemma_field_written(d, files, i, current, base.len() as int, "DATE"@, trimmed(d.date->0@));
    }
    if d.release_id is Some && trimmed(d.release_id->0@).len() > 0 {
        let b = base + date + total;
        lemma_pair_at(b, "MUSICBRAINZ_ALBUMID"@, trimmed(d.release_id->0@), group);
        lemma_field_written(d, files, i, current, b.len() as int, "MUSICBRAINZ_ALBUMID"@, trimmed(d.release_id->0@));
    }
    if d.release_group_id is Some && trimmed(d.release_group_id->0@).len() > 0 {
        let b = base + date + total + release;
        let v = trimmed(d.release_group_id->0@);
        lemma_pair_at(b, "MUSICBRAINZ_RELEASEGROUPID"@, v, none);
        lemma_field_written(d, files, i, current, b.len() as int, "MUSICBRAINZ_RELEASEGROUPID"@, v);
    }
    lemma_disc_total(d.tracks@);
    if discs > 1 {
        let b = base + date;
        lemma_pair_at(b, "DISCTOTAL"@, int_text(discs as int), release + group);
        lemma_field_written(d, files, i, current, b.len() as int, "DISCTOTAL"@, int_text(discs as int));
    } else {
        lemma_unmentioned(d, files, i, current, "DISCTOTAL"@);
    }
}

/// The number of discs is the highest number of a disc, and one at least.
proof fn lemma_disc_total(tracks: Seq<DraftTrack>)
    ensures
        disc_total(tracks) >= 1,
        forall|k: int| 0 <= k < tracks.len() ==> (#[trigger] tracks[k]).disc_no <= disc_total(tracks),
        disc_total(tracks) > 1 ==> exists|k: int|
            0 <= k < tracks.len() && (#[trigger] tracks[k]).disc_no == disc_total(tracks),
    decreases tracks.len(),
{
    if tracks.len() > 0 {
        let t = tracks.drop_last();
        lemma_disc_total(t);
        assert forall|k: int| 0 <= k < tracks.len() implies (#[trigger] tracks[k]).disc_no <= disc_total(tracks) by {
            if k < t.len() {
                assert(t[k] == tracks[k]);
            }
        }
        if disc_total(tracks) > 1 {
            if tracks.last().disc_no == disc_total(tracks) {
                assert(tracks[tracks.len() - 1].disc_no == disc_total(tracks));
            } else {
                let k = choose|k: int| 0 <= k < t.len() && (#[trigger] t[k]).disc_no == disc_total(t);
                assert(tracks[k] == t[k]);
            }
        }
    }
}

/// A key that is neither a field nor a correction keeps its values.
proof fn lemma_unmentioned(
    d: InboxDraft,
    files: Seq<Seq<char>>,
    i: int,
    current: Seq<(Seq<char>, Seq<char>)>,
    key: Seq<char>,
)
    requires
        problems_of(d, files).len() == 0,
        0 <= i < d.tracks@.len(),
        lacks(desired_tags(d, i), key),
        field_rank(key) < 10 || uncorrected(d.tracks@[i].tags@, d.tracks@[i].tags@.len() as int, key),
    ensures
        values_of(after_writing(current, all_changes(d, i, current)), key) == values_of(current, key),
{
    let t = d.tracks@[i];
    let desired = desired_tags(d, i);
    let keeps = artists_kept(t.keep_artists, d.artist_of(i), values_of(current, "ARTIST"@));
    let c = all_changes(d, i, current);
    if field_rank(key) < 10 {
        assert forall|x: int| 0 <= x < t.tags@.len() implies (#[trigger] t.tags@[x]).0@ != key by {
            lemma_field_is_no_correction(key);
            law_valid_corrections(d, files, i, x);
        }
    }
    lemma_no_field_change(desired, current, keeps, key);
    lemma_no_correction(t.tags@, current, t.tags@.len() as int, key);
    lemma_change_for_concat(
        field_changes(desired, current, keeps),
        corrected_changes(t.tags@, current, t.tags@.len() as int),
        key,
    );
    assert(c.take(c.len() as int) =~= c);
    lemma_after_writing(current, c, c.len() as int, key);
}

/// A tag that a valid draft corrects gets the values of the correction that say
/// something, trimmed and in their order; where there are none it is removed.
pub proof fn law_corrected_tags_are_written(
    d: InboxDraft,
    files: Seq<Seq<char>>,
    i: int,
    current: Seq<(Seq<char>, Seq<char>)>,
    k: int,
)
    requires
        d.wf(),
        problems_of(d, files).len() == 0,
        0 <= i < d.tracks@.len(),
        0 <= k < d.tracks@[i].tags@.len(),
    ensures
        ({
            let after = values_of(after_writing(current, all_changes(d, i, current)), d.tracks@[i].tags@[k].0@);
            let values = d.tracks@[i].tags@[k].1;
            &&& values is None ==> after.len() == 0
            &&& values is Some && (forall|j: int|
                0 <= j < values->0@.len() ==> trimmed((#[trigger] values->0@[j])@).len() > 0) ==> after =~= texts(
                values->0@,
            ).map_values(|v: Seq<char>| trimmed(v))
            &&& values is Some && (forall|j: int|
                0 <= j < values->0@.len() ==> trimmed((#[trigger] values->0@[j])@).len() == 0) ==> after.len() == 0
        }),
{
    lemma_correction_after(d, files, i, current, k);
    let values = d.tracks@[i].tags@[k].1;
    if let Some(v) = values {
        let w = texts(v@);
        if forall|j: int| 0 <= j < v@.len() ==> trimmed((#[trigger] v@[j])@).len() > 0 {
            assert forall|j: int| 0 <= j < w.len() implies trimmed(#[trigger] w[j]).len() > 0 by {
                assert(w[j] == v@[j]@);
            }
            lemma_cleaned_all(w);
        }
        if forall|j: int| 0 <= j < v@.len() ==> trimmed((#[trigger] v@[j])@).len() == 0 {
            assert forall|j: int| 0 <= j < w.len() implies trimmed(#[trigger] w[j]).len() == 0 by {
                assert(w[j] == v@[j]@);
            }
            lemma_cleaned_none(w);
        }
    }
}

proof fn lemma_cleaned_all(v: Seq<Seq<char>>)
    requires
        forall|j: int| 0 <= j < v.len() ==> trimmed(#[trigger] v[j]).len() > 0,
    ensures
        cleaned(v) == v.map_values(|x: Seq<char>| trimmed(x)),
    decreases v.len(),
{
    if v.len() > 0 {
        let t = v.drop_last();
        assert forall|j: int| 0 <= j < t.len() implies trimmed(#[trigger] t[j]).len() > 0 by {
            assert(t[j] == v[j]);
        }
        lemma_cleaned_all(t);
        assert(trimmed(v[v.len() - 1]).len() > 0);
    }
    assert(cleaned(v) =~= v.map_values(|x: Seq<char>| trimmed(x)));
}

proof fn lemma_cleaned_none(v: Seq<Seq<char>>)
    requires
        forall|j: int| 0 <= j < v.len() ==> trimmed(#[trigger] v[j]).len() == 0,
    ensures
        cleaned(v).len() == 0,
    decreases v.len(),
{
    if v.len() > 0 {
        let t = v.drop_last();
        assert forall|j: int| 0 <= j < t.len() implies trimmed(#[trigger] t[j]).len() == 0 by {
            assert(t[j] == v[j]);
        }
        lemma_cleaned_none(t);
        assert(trimmed(v[v.len() - 1]).len() == 0);
    }
}

/// A tag that is no field of a draft and that the draft does not correct keeps its
/// values.
pub proof fn law_other_tags_stay(
    d: InboxDraft,
    files: Seq<Seq<char>>,
    i: int,
    current: Seq<(Seq<char>, Seq<char>)>,
    key: Seq<char>,
)
    requires
        problems_of(d, files).len() == 0,
        0 <= i < d.tracks@.len(),
        key != "ALBUMARTIST"@,
        key != "ALBUM"@,
        key != "TITLE"@,
        key != "ARTIST"@,
        key != "TRACKNUMBER"@,
        key != "DISCNUMBER"@,
        key != "DATE"@,
        key != "DISCTOTAL"@,
        key != "MUSICBRAINZ_ALBUMID"@,
        key != "MUSICBRAINZ_RELEASEGROUPID"@,
        forall|k: int| 0 <= k < d.tracks@[i].tags@.len() ==> (#[trigger] d.tracks@[i].tags@[k]).0@ != key,
    ensures
        values_of(after_writing(current, all_changes(d, i, current)), key) == values_of(current, key),
{
    lemma_desired_ranked(d, i);
    assert(field_rank(key) == 10);
    assert forall|j: int| 0 <= j < desired_tags(d, i).len() implies (#[trigger] desired_tags(d, i)[j]).0 != key by {}
    lemma_unmentioned(d, files, i, current, key);
}

/// Two drafts that differ in the title of a track ask for different titles in its
/// file.
pub proof fn law_another_title_is_written(
    a: InboxDraft,
    b: InboxDraft,
    files: Seq<Seq<char>>,
    i: int,
    current: Seq<(Seq<char>, Seq<char>)>,
)
    requires
        problems_of(a, files).len() == 0,
        problems_of(b, files).len() == 0,
        0 <= i < a.tracks@.len(),
        i < b.tracks@.len(),
        trimmed(a.tracks@[i].title@) != trimmed(b.tracks@[i].title@),
    ensures
        values_of(after_writing(current, all_changes(a, i, current)), "TITLE"@) != values_of(
            after_writing(current, all_changes(b, i, current)),
            "TITLE"@,
        ),
{
    law_written_tags_are_those_of_the_draft(a, files, i, current);
    law_written_tags_are_those_of_the_draft(b, files, i, current);
    assert(seq![trimmed(a.tracks@[i].title@)][0] != seq![trimmed(b.tracks@[i].title@)][0]);
}

} // verus!
