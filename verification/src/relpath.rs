//! Paths below a root, `/` between the components.

use crate::split::{lemma_last_index, lemma_last_index_is, rsplit_once};
use crate::text::{concat3, last_index};
use vstd::prelude::*;
use vstd::string::*;

verus! {

/// The last component of a path.
pub open spec fn file_name_of(path: Seq<char>) -> Seq<char> {
    match last_index(path, '/') {
        Some(i) => path.skip(i + 1),
        None => path,
    }
}

/// What stands before the last component, none at the root.
pub open spec fn parent_of(path: Seq<char>) -> Option<Seq<char>> {
    match last_index(path, '/') {
        Some(i) => Some(path.take(i)),
        None => None,
    }
}

/// `name` below `dir`, or at the root where there is no directory.
pub open spec fn joined_path(dir: Option<Seq<char>>, name: Seq<char>) -> Seq<char> {
    match dir {
        Some(d) => d + seq!['/'] + name,
        None => name,
    }
}

/// What stands after the last dot of a file name.
pub open spec fn extension_of(name: Seq<char>) -> Option<Seq<char>> {
    match last_index(name, '.') {
        Some(i) => Some(name.skip(i + 1)),
        None => None,
    }
}

/// The last component of a path.
pub fn file_name(path: &str) -> (r: String)
    ensures
        r@ == file_name_of(path@),
{
    match rsplit_once(path, '/') {
        Some(p) => p.1,
        None => path.to_owned(),
    }
}

/// What stands before the last component, none at the root.
pub fn parent(path: &str) -> (r: Option<String>)
    ensures
        match r {
            Some(p) => parent_of(path@) == Some(p@),
            None => parent_of(path@) is None,
        },
{
    match rsplit_once(path, '/') {
        Some(p) => Some(p.0),
        None => None,
    }
}

/// `name` below `dir`.
pub fn join_path(dir: Option<&str>, name: &str) -> (r: String)
    ensures
        r@ == joined_path(
            match dir {
                Some(d) => Some(d@),
                None => None,
            },
            name@,
        ),
{
    match dir {
        Some(d) => {
            proof {
                reveal_strlit("/");
                assert("/"@ =~= seq!['/']);
            }
            concat3(d, "/", name)
        },
        None => name.to_owned(),
    }
}

/// What stands after the last dot of a file name.
pub fn extension(name: &str) -> (r: Option<String>)
    ensures
        match r {
            Some(e) => extension_of(name@) == Some(e@),
            None => extension_of(name@) is None,
        },
{
    match rsplit_once(name, '.') {
        Some(p) => Some(p.1),
        None => None,
    }
}

/// A path splits into its parent and its last component, and joining them gives
/// the path back.
pub proof fn law_path_is_its_parts(path: Seq<char>)
    ensures
        joined_path(parent_of(path), file_name_of(path)) == path,
{
    lemma_last_index(path, '/');
    match last_index(path, '/') {
        Some(i) => {
            assert(path.take(i) + seq!['/'] + path.skip(i + 1) =~= path);
        },
        None => {},
    }
}

/// Joining a name without `/` to a directory, and taking the parts again, gives
/// the directory and the name.
pub proof fn lemma_parts_of_join(dir: Seq<char>, name: Seq<char>)
    requires
        !name.contains('/'),
    ensures
        parent_of(joined_path(Some(dir), name)) == Some(dir),
        file_name_of(joined_path(Some(dir), name)) == name,
{
    let p = joined_path(Some(dir), name);
    let i = dir.len() as int;
    assert(p[i] == '/');
    assert forall|k: int| i < k < p.len() implies #[trigger] p[k] != '/' by {
        assert(p[k] == name[k - i - 1]);
    }
    lemma_last_index_is(p, '/', i);
    assert(p.take(i) =~= dir);
    assert(p.skip(i + 1) =~= name);
}

} // verus!
