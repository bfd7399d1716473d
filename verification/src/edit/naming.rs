//! The names that operations go by: keys of jobs, and where a file stands while
//! an operation works on it.

use crate::relpath::{
    extension, extension_of, file_name, file_name_of, join_path, joined_path, lemma_parts_of_join, parent, parent_of,
};
use crate::split::{lemma_last_index, lemma_last_index_is, rsplit_once};
use crate::text::{
    concat2, concat4, int_text, int_to_text, last_index, lemma_int_text_chars, lemma_int_text_injective, opt_text,
    texts,
};
use crate::unicode::{canonical, canonical_key};
use vstd::prelude::*;
use vstd::string::*;

verus! {

// ---------------------------------------------------------------- job keys

/// The key under which the write of a version of the tags of a track is queued once.
pub fn tagwrite_dedup_key(track_id: i64, tag_version: i64) -> (r: String)
    ensures
        r@ == "tagwrite:"@ + int_text(track_id as int) + ":"@ + int_text(tag_version as int),
{
    let t = int_to_text(track_id);
    let v = int_to_text(tag_version);
    concat4("tagwrite:", &t, ":", &v)
}

/// The key under which filling in a digest is queued once for an operation.
pub fn md5_dedup_key(track_id: i64, op_id: i64) -> (r: String)
    ensures
        r@ == "tagwrite:"@ + int_text(track_id as int) + ":md5:"@ + int_text(op_id as int),
{
    let t = int_to_text(track_id);
    let v = int_to_text(op_id);
    concat4("tagwrite:", &t, ":md5:", &v)
}

/// The key under which normalising a track is queued once for an operation. A
/// new operation on the same track never shares the job of an earlier one.
pub fn normalize_dedup_key(track_id: i64, op_id: i64) -> (r: String)
    ensures
        r@ == "normalize:"@ + int_text(track_id as int) + ":"@ + int_text(op_id as int),
{
    let t = int_to_text(track_id);
    let v = int_to_text(op_id);
    concat4("normalize:", &t, ":", &v)
}

/// The key under which the renames of a batch are queued once.
pub fn rename_dedup_key(batch_id: i64) -> (r: String)
    ensures
        r@ == "rename:batch:"@ + int_text(batch_id as int),
{
    let b = int_to_text(batch_id);
    concat2("rename:batch:", &b)
}

proof fn lemma_two_numbers(prefix: Seq<char>, sep: Seq<char>, a: int, b: int, c: int, d: int)
    requires
        sep.len() > 0,
        sep[0] == ':',
        prefix + int_text(a) + sep + int_text(b) == prefix + int_text(c) + sep + int_text(d),
    ensures
        a == c && b == d,
{
    let x = prefix + int_text(a) + sep + int_text(b);
    let y = prefix + int_text(c) + sep + int_text(d);
    lemma_int_text_chars(a);
    lemma_int_text_chars(c);
    let n = int_text(a).len() as int;
    let m = int_text(c).len() as int;
    let p = prefix.len() as int;
    if n < m {
        assert(x[p + n] == ':');
        assert(y[p + n] == int_text(c)[n]);
    } else if m < n {
        assert(y[p + m] == ':');
        assert(x[p + m] == int_text(a)[m]);
    }
    assert(int_text(a) =~= x.subrange(p, p + n));
    assert(int_text(c) =~= y.subrange(p, p + n));
    assert(int_text(b) =~= x.skip(p + n + sep.len()));
    assert(int_text(d) =~= y.skip(p + n + sep.len()));
    lemma_int_text_injective(a, c);
    lemma_int_text_injective(b, d);
}

/// Two normalisations share a key only where they are the same operation on the
/// same track.
pub proof fn law_normalize_keys_distinct(track_a: i64, op_a: i64, track_b: i64, op_b: i64)
    requires
        "normalize:"@ + int_text(track_a as int) + ":"@ + int_text(op_a as int) == "normalize:"@ + int_text(
            track_b as int,
        ) + ":"@ + int_text(op_b as int),
    ensures
        track_a == track_b && op_a == op_b,
{
    reveal_strlit(":");
    lemma_two_numbers("normalize:"@, ":"@, track_a as int, op_a as int, track_b as int, op_b as int);
}

/// Two tag writes share a key only where they write the same version of the
/// same track.
pub proof fn law_tagwrite_keys_distinct(track_a: i64, version_a: i64, track_b: i64, version_b: i64)
    requires
        "tagwrite:"@ + int_text(track_a as int) + ":"@ + int_text(version_a as int) == "tagwrite:"@ + int_text(
            track_b as int,
        ) + ":"@ + int_text(version_b as int),
    ensures
        track_a == track_b && version_a == version_b,
{
    reveal_strlit(":");
    lemma_two_numbers("tagwrite:"@, ":"@, track_a as int, version_a as int, track_b as int, version_b as int);
}

/// Two batches of renames never share a key.
pub proof fn law_rename_keys_distinct(a: i64, b: i64)
    requires
        "rename:batch:"@ + int_text(a as int) == "rename:batch:"@ + int_text(b as int),
    ensures
        a == b,
{
    let p = "rename:batch:"@;
    assert((p + int_text(a as int)).skip(p.len() as int) =~= int_text(a as int));
    assert((p + int_text(b as int)).skip(p.len() as int) =~= int_text(b as int));
    lemma_int_text_injective(a as int, b as int);
}

// ---------------------------------------------------------------- working names

/// The extension of the last component of a path.
pub open spec fn path_extension(path: Seq<char>) -> Option<Seq<char>> {
    extension_of(file_name_of(path))
}

/// The extension of the last component of a path.
pub fn ext_of(path: &str) -> (r: Option<String>)
    ensures
        opt_text(r) == path_extension(path@),
{
    let name = file_name(path);
    extension(&name)
}

/// Where a file of the path `source` stands while operation `op_id` works on
/// it: in the same directory, with the same extension.
pub open spec fn working_path(prefix: Seq<char>, op_id: int, source: Seq<char>) -> Seq<char> {
    joined_path(
        parent_of(source),
        match path_extension(source) {
            Some(e) => prefix + int_text(op_id) + "."@ + e,
            None => prefix + int_text(op_id),
        },
    )
}

fn working_rel_path(prefix: &str, op_id: i64, source: &str) -> (r: String)
    ensures
        r@ == working_path(prefix@, op_id as int, source@),
{
    let id = int_to_text(op_id);
    let name = match ext_of(source) {
        Some(e) => concat4(prefix, &id, ".", &e),
        None => concat2(prefix, &id),
    };
    match parent(source) {
        Some(dir) => join_path(Some(dir.as_str()), &name),
        None => join_path(None, &name),
    }
}

/// Where the file of a rename stands between its old and its new name. The name
/// is not hidden: the scanner has to see it.
///
/// `fits` says that `source` is a valid path and stays one with that name; there
/// is no such name otherwise.
pub fn temp_rel_path(op_id: i64, source: &str, fits: bool) -> (r: Option<String>)
    ensures
        opt_text(r) == (if fits {
            Some(working_path("spindle-rename-"@, op_id as int, source@))
        } else {
            None
        }),
{
    if fits {
        Some(working_rel_path("spindle-rename-", op_id, source))
    } else {
        None
    }
}

/// Where the source of a normalisation stands while the result takes its place.
/// The name is not hidden: the scanner has to see it.
///
/// `fits` says that `source` is a valid path and stays one with that name; there
/// is no such name otherwise.
pub fn normalize_temp_rel_path(op_id: i64, source: &str, fits: bool) -> (r: Option<String>)
    ensures
        opt_text(r) == (if fits {
            Some(working_path("spindle-normalize-"@, op_id as int, source@))
        } else {
            None
        }),
{
    if fits {
        Some(working_rel_path("spindle-normalize-", op_id, source))
    } else {
        None
    }
}

/// The name of a file while an operation works on it.
spec fn working_name(prefix: Seq<char>, op_id: int, source: Seq<char>) -> Seq<char> {
    match path_extension(source) {
        Some(e) => prefix + int_text(op_id) + "."@ + e,
        None => prefix + int_text(op_id),
    }
}

proof fn lemma_working_name(prefix: Seq<char>, op_id: int, source: Seq<char>)
    requires
        !prefix.contains('/'),
    ensures
        file_name_of(working_path(prefix, op_id, source)) == working_name(prefix, op_id, source),
{
    let name = working_name(prefix, op_id, source);
    let base = file_name_of(source);
    lemma_last_index(source, '/');
    lemma_last_index(base, '.');
    lemma_int_text_chars(op_id);
    reveal_strlit(".");
    assert(!base.contains('/')) by {
        if base.contains('/') {
            let k = choose|k: int| 0 <= k < base.len() && base[k] == '/';
            match last_index(source, '/') {
                Some(i) => {
                    assert(source[i + 1 + k] == '/');
                },
                None => {
                    assert(source[k] == '/');
                },
            }
        }
    }
    assert(!name.contains('/')) by {
        if name.contains('/') {
            let k = choose|k: int| 0 <= k < name.len() && name[k] == '/';
            let p = prefix.len() as int;
            let d = int_text(op_id).len() as int;
            if k < p {
                assert(prefix[k] == '/');
            } else if k < p + d {
                assert(name[k] == int_text(op_id)[k - p]);
            } else if k > p + d {
                let i = last_index(base, '.')->0;
                assert(name[k] == base[i + 1 + (k - p - d - 1)]);
            }
        }
    }
    match parent_of(source) {
        Some(dir) => lemma_parts_of_join(dir, name),
        None => lemma_last_index(name, '/'),
    }
}

/// Two operations never work under the same name, whatever their files are.
pub proof fn law_working_paths_distinct(prefix: Seq<char>, a: int, b: int, source_a: Seq<char>, source_b: Seq<char>)
    requires
        !prefix.contains('/'),
        a != b,
    ensures
        working_path(prefix, a, source_a) != working_path(prefix, b, source_b),
{
    if working_path(prefix, a, source_a) == working_path(prefix, b, source_b) {
        lemma_working_name(prefix, a, source_a);
        lemma_working_name(prefix, b, source_b);
        let x = working_name(prefix, a, source_a);
        let y = working_name(prefix, b, source_b);
        let ta = int_text(a);
        let tb = int_text(b);
        let p = prefix.len() as int;
        reveal_strlit(".");
        lemma_int_text_chars(a);
        lemma_int_text_chars(b);
        assert(x.len() > p + ta.len() ==> x[p + ta.len()] == '.');
        assert(y.len() > p + tb.len() ==> y[p + tb.len()] == '.');
        if ta.len() < tb.len() {
            assert(y[p + ta.len()] == tb[ta.len() as int]);
        } else if tb.len() < ta.len() {
            assert(x[p + tb.len()] == ta[tb.len() as int]);
        } else {
            assert forall|k: int| 0 <= k < ta.len() implies ta[k] == tb[k] by {
                assert(x[p + k] == ta[k]);
                assert(y[p + k] == tb[k]);
            }
            assert(ta =~= tb);
            lemma_int_text_injective(a, b);
        }
    }
}

/// The keys of the places where a file may stand while an operation works on
/// it: where it was, where it goes, and the name between where there is one.
pub open spec fn working_keys(
    prefix: Seq<char>,
    op_id: int,
    expected: Seq<char>,
    target: Seq<char>,
    fits: bool,
) -> Seq<Seq<char>> {
    let ends = seq![canonical(expected), canonical(target)];
    if fits {
        ends.push(canonical(working_path(prefix, op_id, expected)))
    } else {
        ends
    }
}

fn keys_of_work(prefix: &str, op_id: i64, expected: &str, target: &str, fits: bool) -> (r: Vec<String>)
    ensures
        texts(r@) == working_keys(prefix@, op_id as int, expected@, target@, fits),
{
    let mut keys: Vec<String> = Vec::new();
    keys.push(canonical_key(expected));
    keys.push(canonical_key(target));
    if fits {
        let tmp = working_rel_path(prefix, op_id, expected);
        keys.push(canonical_key(&tmp));
    }
    proof {
        assert(texts(keys@) =~= working_keys(prefix@, op_id as int, expected@, target@, fits));
    }
    keys
}

/// The keys of the places where the file of a rename may stand. Anywhere else,
/// someone else moved it. `fits` says that there is a name between (see
/// [`temp_rel_path`]).
pub fn in_progress_keys(op_id: i64, expected_rel_path: &str, final_rel_path: &str, fits: bool) -> (r: Vec<String>)
    ensures
        texts(r@) == working_keys("spindle-rename-"@, op_id as int, expected_rel_path@, final_rel_path@, fits),
{
    keys_of_work("spindle-rename-", op_id, expected_rel_path, final_rel_path, fits)
}

/// The keys of the places where the files of a normalisation may stand. `fits`
/// says that there is a name between (see [`normalize_temp_rel_path`]).
pub fn normalize_in_progress_keys(op_id: i64, expected_rel_path: &str, target_rel_path: &str, fits: bool) -> (r: Vec<
    String,
>)
    ensures
        texts(r@) == working_keys("spindle-normalize-"@, op_id as int, expected_rel_path@, target_rel_path@, fits),
{
    keys_of_work("spindle-normalize-", op_id, expected_rel_path, target_rel_path, fits)
}

// ---------------------------------------------------------------- flac names

/// A file name with `flac` for its extension. A name that is all extension, or
/// has none, gets it added.
pub open spec fn flac_name(name: Seq<char>) -> Seq<char> {
    match last_index(name, '.') {
        Some(i) => if i > 0 {
            name.take(i) + ".flac"@
        } else {
            name + ".flac"@
        },
        None => name + ".flac"@,
    }
}

/// A path whose last component has `flac` for its extension.
pub open spec fn flac_path(path: Seq<char>) -> Seq<char> {
    joined_path(parent_of(path), flac_name(file_name_of(path)))
}

fn flac_file_name(name: &str) -> (r: String)
    ensures
        r@ == flac_name(name@),
{
    proof {
        lemma_last_index(name@, '.');
    }
    match rsplit_once(name, '.') {
        Some(p) => {
            if p.0.as_str().is_empty() {
                concat2(name, ".flac")
            } else {
                concat2(&p.0, ".flac")
            }
        },
        None => concat2(name, ".flac"),
    }
}

/// The path with `flac` for its extension; added where there is none.
pub fn flac_rel_path(rel_path: &str) -> (r: String)
    ensures
        r@ == flac_path(rel_path@),
{
    match rsplit_once(rel_path, '/') {
        Some(p) => {
            let name = flac_file_name(&p.1);
            join_path(Some(p.0.as_str()), &name)
        },
        None => flac_file_name(rel_path),
    }
}

/// The name of a result stays in the directory of its source.
pub proof fn law_flac_path_same_directory(path: Seq<char>)
    ensures
        parent_of(flac_path(path)) == parent_of(path),
        path_extension(flac_path(path)) == Some("flac"@),
{
    reveal_strlit(".flac");
    reveal_strlit("flac");
    lemma_last_index(path, '/');
    let name = file_name_of(path);
    assert(!name.contains('/')) by {
        assert forall|k: int| 0 <= k < name.len() implies #[trigger] name[k] != '/' by {
            match last_index(path, '/') {
                Some(i) => {
                    assert(name[k] == path[i + 1 + k]);
                },
                None => {},
            }
        }
    }
    lemma_last_index(name, '.');
    let f = flac_name(name);
    assert forall|k: int| 0 <= k < f.len() implies #[trigger] f[k] != '/' by {
        let base = if last_index(name, '.') is Some && last_index(name, '.')->0 > 0 {
            name.take(last_index(name, '.')->0)
        } else {
            name
        };
        assert(f == base + ".flac"@);
        if k < base.len() {
            assert(f[k] == base[k]);
            assert(base[k] == name[k]);
        } else {
            assert(f[k] == ".flac"@[k - base.len()]);
        }
    }
    assert(!f.contains('/'));
    let at = f.len() - 5;
    assert(f[at] == '.');
    assert forall|k: int| at < k < f.len() implies #[trigger] f[k] != '.' by {
        assert(f[k] == ".flac"@[k - at]);
    }
    crate::split::lemma_last_index_is(f, '.', at);
    assert(f.skip(at + 1) =~= "flac"@);
    match parent_of(path) {
        Some(d) => {
            crate::relpath::lemma_parts_of_join(d, f);
        },
        None => {
            lemma_last_index(f, '/');
        },
    }
}

/// A file that becomes a FLAC keeps its directory and its name up to the last dot; a name without a dot, or
/// with one at its start only, is kept whole.
pub proof fn law_flac_name(dir: Seq<char>, stem: Seq<char>, ext: Seq<char>)
    requires
        !stem.contains('/'),
        !ext.contains('/'),
        !ext.contains('.'),
    ensures
        stem.len() > 0 ==> flac_name(stem + seq!['.'] + ext) == stem + ".flac"@,
        flac_name(seq!['.'] + ext) == seq!['.'] + ext + ".flac"@,
        flac_name(ext) == ext + ".flac"@,
        stem.len() > 0 ==> flac_path(dir + seq!['/'] + (stem + seq!['.'] + ext)) == dir + seq!['/'] + (stem + ".flac"@),
{
    let name = stem + seq!['.'] + ext;
    assert forall|k: int| stem.len() < k < name.len() implies #[trigger] name[k] != '.' by {
        assert(name[k] == ext[k - stem.len() - 1]);
        assert(ext.contains(ext[k - stem.len() - 1]));
    }
    lemma_last_index_is(name, '.', stem.len() as int);
    assert(name.take(stem.len() as int) =~= stem);
    let hidden = seq!['.'] + ext;
    assert forall|k: int| 0 < k < hidden.len() implies #[trigger] hidden[k] != '.' by {
        assert(hidden[k] == ext[k - 1]);
        assert(ext.contains(ext[k - 1]));
    }
    lemma_last_index_is(hidden, '.', 0);
    lemma_last_index(ext, '.');
    if last_index(ext, '.') is Some {
        assert(ext.contains(ext[last_index(ext, '.')->0]));
    }
    if name.contains('/') {
        let k = choose|k: int| 0 <= k < name.len() && name[k] == '/';
        if k < stem.len() {
            assert(stem[k] == '/');
        } else if k > stem.len() {
            assert(ext[k - stem.len() - 1] == '/');
        }
    }
    lemma_parts_of_join(dir, name);
}

/// A file is worked on in its own directory, under a name that holds the number of the operation and the
/// ending of the file.
pub proof fn law_working_path(prefix: Seq<char>, op_id: int, dir: Seq<char>, stem: Seq<char>, ext: Seq<char>)
    requires
        !stem.contains('/'),
        !ext.contains('/'),
        !ext.contains('.'),
    ensures
        working_path(prefix, op_id, dir + seq!['/'] + (stem + seq!['.'] + ext)) == dir + seq!['/'] + (prefix + int_text(
            op_id,
        ) + seq!['.'] + ext),
        working_path(prefix, op_id, dir + seq!['/'] + ext) == dir + seq!['/'] + (prefix + int_text(op_id)),
{
    reveal_strlit(".");
    assert("."@ =~= seq!['.']);
    let name = stem + seq!['.'] + ext;
    assert forall|k: int| stem.len() < k < name.len() implies #[trigger] name[k] != '.' by {
        assert(name[k] == ext[k - stem.len() - 1]);
        assert(ext.contains(ext[k - stem.len() - 1]));
    }
    lemma_last_index_is(name, '.', stem.len() as int);
    assert(name.skip(stem.len() as int + 1) =~= ext);
    if name.contains('/') {
        let k = choose|k: int| 0 <= k < name.len() && name[k] == '/';
        if k < stem.len() {
            assert(stem[k] == '/');
        } else if k > stem.len() {
            assert(ext[k - stem.len() - 1] == '/');
        }
    }
    lemma_parts_of_join(dir, name);
    lemma_parts_of_join(dir, ext);
    lemma_last_index(ext, '.');
    if last_index(ext, '.') is Some {
        assert(ext.contains(ext[last_index(ext, '.')->0]));
    }
}

/// An operation works at the path it starts from, at the one it ends at and at the one between.
pub proof fn law_where_an_operation_works(prefix: Seq<char>, op_id: int, from: Seq<char>, to: Seq<char>, fits: bool)
    ensures
        working_keys(prefix, op_id, from, to, fits).contains(canonical(from)),
        working_keys(prefix, op_id, from, to, fits).contains(canonical(to)),
        fits ==> working_keys(prefix, op_id, from, to, fits).contains(canonical(working_path(prefix, op_id, from))),
        working_keys(prefix, op_id, from, to, fits).len() == (if fits { 3int } else { 2int }),
{
    let k = working_keys(prefix, op_id, from, to, fits);
    assert(k[0] == canonical(from) && k[1] == canonical(to));
    if fits {
        assert(k[2] == canonical(working_path(prefix, op_id, from)));
    }
}

} // verus!
