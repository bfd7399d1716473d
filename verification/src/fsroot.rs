//! What the file system below a root tells the library, as plain values.

use crate::hex::{hex_text, to_hex};
use crate::text::concat2;
use vstd::prelude::*;
use vstd::string::*;

verus! {

/// What the name of a temporary file starts with. It stands in the directory of
/// the file it will become.
pub const TMP_PREFIX: &'static str = ".spindle-tmp-";

/// How often another name is drawn where a temporary name is taken.
pub const TMP_RETRIES: usize = 8;

/// Why an operation below a root failed.
#[derive(Debug)]
pub enum FsError {
    /// The kernel cannot resolve paths below a directory.
    Openat2Unsupported,
    /// The root is no directory.
    NotDirectory(String),
    /// A symbolic link stands in the path.
    Symlink,
    /// The path leads out of the root.
    Escaped,
    NotFound,
    Exists,
    Io(String),
}

/// What a system call says of its failure.
#[derive(Debug)]
pub enum SysError {
    Loop,
    CrossDevice,
    NoEntry,
    AlreadyExists,
    NotImplemented,
    Other(String),
}

impl FsError {
    /// What a failed system call means below a root.
    pub fn from_sys(e: SysError) -> (r: FsError)
        ensures
            r == (match e {
                SysError::Loop => FsError::Symlink,
                SysError::CrossDevice => FsError::Escaped,
                SysError::NoEntry => FsError::NotFound,
                SysError::AlreadyExists => FsError::Exists,
                SysError::NotImplemented => FsError::Openat2Unsupported,
                SysError::Other(text) => FsError::Io(text),
            }),
    {
        match e {
            SysError::Loop => FsError::Symlink,
            SysError::CrossDevice => FsError::Escaped,
            SysError::NoEntry => FsError::NotFound,
            SysError::AlreadyExists => FsError::Exists,
            SysError::NotImplemented => FsError::Openat2Unsupported,
            SysError::Other(text) => FsError::Io(text),
        }
    }

    /// The text that a user reads.
    pub open spec fn text(&self) -> Seq<char> {
        match self {
            FsError::Openat2Unsupported => "openat2 が使えない（Linux 5.6+ が必要）"@,
            FsError::NotDirectory(p) => "root がディレクトリではない: "@ + p@,
            FsError::Symlink => "パスの途中または末尾に symlink がある"@,
            FsError::Escaped => "パスが root の外を指す"@,
            FsError::NotFound => "存在しない"@,
            FsError::Exists => "既に存在する"@,
            FsError::Io(e) => "I/O エラー: "@ + e@,
        }
    }

    /// The text that a user reads.
    pub fn message(&self) -> (r: String)
        ensures
            r@ == self.text(),
    {
        match self {
            FsError::Openat2Unsupported => "openat2 が使えない（Linux 5.6+ が必要）".to_owned(),
            FsError::NotDirectory(p) => concat2("root がディレクトリではない: ", p),
            FsError::Symlink => "パスの途中または末尾に symlink がある".to_owned(),
            FsError::Escaped => "パスが root の外を指す".to_owned(),
            FsError::NotFound => "存在しない".to_owned(),
            FsError::Exists => "既に存在する".to_owned(),
            FsError::Io(e) => concat2("I/O エラー: ", e),
        }
    }
}

/// What an entry of a directory is.
#[derive(Debug, Clone, Copy, PartialEq, Eq, Structural)]
pub enum FileKind {
    File,
    Dir,
    Symlink,
    /// Devices, pipes, sockets.
    Other,
}

/// What is known of a file without following links. Times are in nanoseconds
/// since the epoch.
#[derive(Debug, Clone, Copy, PartialEq, Eq, Structural)]
pub struct Stat {
    pub kind: FileKind,
    pub dev: u64,
    pub inode: u64,
    pub nlink: u64,
    pub size: u64,
    pub mtime_ns: i64,
    pub ctime_ns: i64,
}

/// A time in nanoseconds from its whole seconds and the rest.
pub fn time_ns(sec: i64, nsec: i64) -> (r: i64)
    requires
        i64::MIN <= sec * 1_000_000_000 <= i64::MAX,
        i64::MIN <= sec * 1_000_000_000 + nsec <= i64::MAX,
    ensures
        r == sec * 1_000_000_000 + nsec,
{
    sec * 1_000_000_000 + nsec
}

/// Draws `n` random bytes with `getrandom::fill`; `None` where the system has
/// none to give. Of the bytes nothing is said but their number: they differ from
/// call to call.
#[verifier::external_body]
pub(crate) fn random_bytes(n: usize) -> (r: Option<Vec<u8>>)
    requires
        n <= 64,
    ensures
        r matches Some(raw) ==> raw@.len() == n,
{
    let mut raw = vec![0u8; n];
    match getrandom::fill(&mut raw) {
        Ok(()) => Some(raw),
        Err(_) => None,
    }
}

/// The name of a temporary file made of some bytes: the prefix and the bytes in
/// hexadecimal.
pub fn tmp_name_of(raw: &[u8]) -> (r: String)
    ensures
        r@ == TMP_PREFIX@ + hex_text(raw@),
{
    let h = to_hex(raw);
    concat2(TMP_PREFIX, &h)
}

/// A fresh name for a temporary file, none where no random bytes are to be had.
pub fn tmp_name() -> (r: Option<String>)
    ensures
        r matches Some(name) ==> exists|raw: Seq<u8>|
            raw.len() == 8 && name@ == TMP_PREFIX@ + #[trigger] hex_text(raw),
{
    match random_bytes(8) {
        Some(raw) => Some(tmp_name_of(raw.as_slice())),
        None => None,
    }
}

/// What to do after an attempt to make a temporary file.
#[derive(Debug, Clone, Copy, PartialEq, Eq, Structural)]
pub enum TmpStep {
    /// The file is made.
    Made,
    /// Draw another name.
    Again,
    /// Give up: every name drawn was taken.
    Taken,
    /// Give up for the failure at hand.
    Fail,
}

/// What follows the attempt number `attempt` (from 1), which succeeded, found
/// the name taken, or failed otherwise.
pub fn tmp_step(attempt: usize, made: bool, taken: bool) -> (r: TmpStep)
    ensures
        r == (if made {
            TmpStep::Made
        } else if !taken {
            TmpStep::Fail
        } else if attempt < TMP_RETRIES {
            TmpStep::Again
        } else {
            TmpStep::Taken
        }),
        !made && taken ==> (r == TmpStep::Again <==> attempt < 8),
{
    if made {
        TmpStep::Made
    } else if !taken {
        TmpStep::Fail
    } else if attempt < TMP_RETRIES {
        TmpStep::Again
    } else {
        TmpStep::Taken
    }
}

/// The names in a list of extended attributes, each ended by a zero byte.
pub open spec fn names_in(buf: Seq<u8>) -> Seq<Seq<u8>>
    decreases buf.len(),
{
    if buf.len() == 0 {
        Seq::empty()
    } else {
        let n = names_in(buf.drop_last());
        if buf.last() == 0 {
            n
        } else if buf.len() == 1 || buf[buf.len() - 2] == 0 {
            n.push(seq![buf.last()])
        } else {
            n.update(n.len() - 1, n.last().push(buf.last()))
        }
    }
}

/// The views of a list of byte strings.
pub open spec fn byte_strings(v: Seq<Vec<u8>>) -> Seq<Seq<u8>> {
    v.map_values(|b: Vec<u8>| b@)
}

/// The names in a list of extended attributes, each ended by a zero byte; empty
/// names are left out.
pub fn split_names(buf: &Vec<u8>) -> (r: Vec<Vec<u8>>)
    ensures
        byte_strings(r@) == names_in(buf@),
{
    let mut out: Vec<Vec<u8>> = Vec::new();
    let mut name: Vec<u8> = Vec::new();
    let mut i: usize = 0;
    proof {
        assert(byte_strings(out@) =~= names_in(buf@.take(0)));
    }
    while i < buf.len()
        invariant
            i <= buf@.len(),
            name@.len() == 0 <==> (i == 0 || buf@[i - 1] == 0),
            name@.len() == 0 ==> byte_strings(out@) == names_in(buf@.take(i as int)),
            name@.len() > 0 ==> byte_strings(out@).push(name@) == names_in(buf@.take(i as int)),
        decreases buf@.len() - i,
    {
        let ghost before = byte_strings(out@);
        let ghost n = names_in(buf@.take(i as int));
        let ghost t = buf@.take(i + 1);
        let ghost done = name@;
        proof {
            assert(t.drop_last() =~= buf@.take(i as int));
            assert(t.last() == buf@[i as int]);
            if i > 0 {
                assert(t[t.len() - 2] == buf@[i - 1]);
            }
        }
        if buf[i] == 0 {
            if name.len() > 0 {
                out.push(name);
                name = Vec::new();
                proof {
                    assert(byte_strings(out@) =~= before.push(done));
                }
            }
        } else {
            name.push(buf[i]);
            proof {
                if done.len() == 0 {
                    assert(name@ =~= seq![t.last()]);
                } else {
                    assert(before.push(name@) =~= n.update(n.len() - 1, n.last().push(t.last())));
                }
            }
        }
        i = i + 1;
    }
    proof {
        assert(buf@.take(i as int) =~= buf@);
    }
    if name.len() > 0 {
        let ghost before = byte_strings(out@);
        let ghost done = name@;
        out.push(name);
        proof {
            assert(byte_strings(out@) =~= before.push(done));
        }
    }
    out
}

/// The names in a buffer are the stretches between its zero bytes: none is empty, and none holds a zero.
pub proof fn law_names_between_zeros(buf: Seq<u8>)
    ensures
        forall|i: int| 0 <= i < names_in(buf).len() ==> (#[trigger] names_in(buf)[i]).len() > 0,
        forall|i: int, k: int|
            0 <= i < names_in(buf).len() && 0 <= k < names_in(buf)[i].len() ==> #[trigger] names_in(buf)[i][k] != 0,
        buf.len() > 0 && buf.last() != 0 ==> names_in(buf).len() > 0 && names_in(buf).last().last() == buf.last(),
    decreases buf.len(),
{
    if buf.len() > 0 {
        let d = buf.drop_last();
        let w = names_in(d);
        let n = names_in(buf);
        law_names_between_zeros(d);
        if buf.last() != 0 {
            if buf.len() > 1 && buf[buf.len() - 2] != 0 {
                assert(d.last() == buf[buf.len() - 2]);
            }
            assert forall|i: int| 0 <= i < n.len() implies (#[trigger] n[i]).len() > 0 by {
                if i < n.len() - 1 {
                    assert(n[i] == w[i]);
                }
            }
            assert forall|i: int, k: int| 0 <= i < n.len() && 0 <= k < n[i].len() implies #[trigger] n[i][k] != 0 by {
                if i < n.len() - 1 {
                    assert(n[i] == w[i]);
                    assert(w[i][k] != 0);
                } else if k < n[i].len() - 1 {
                    assert(n[i][k] == w[i][k]);
                }
            }
        }
    }
}

} // verus!
