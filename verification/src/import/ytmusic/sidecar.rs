//! The short form of the file that travels with downloads: what each file is and
//! where it comes from. The record of a disc, and the subscriptions that files are
//! for, stand in the full form only.

use crate::import::sidecar::{entry_at, file_names, put_entry, VERSION};
use crate::order::ascending;
use crate::text::opt_text;
use vstd::prelude::*;
use vstd::string::*;

pub use crate::import::sidecar::{SidecarError, SIDECAR_NAME};

verus! {

/// What is known of a file that was downloaded.
#[derive(Debug)]
pub struct FileEntry {
    /// Where it comes from.
    pub source: String,
    pub url: Option<String>,
    pub channel: Option<String>,
    /// `ok`, or why nothing could be told of it.
    pub verdict: String,
    pub message: Option<String>,
}

/// What travels with a directory of downloads.
#[derive(Debug)]
pub struct Sidecar {
    pub version: u32,
    /// The category, by name. The last one written counts.
    pub category: Option<String>,
    /// What is known of each file, in the order of their names.
    pub files: Vec<(String, FileEntry)>,
}

impl Sidecar {
    /// The files stand in the order of their names, each once.
    pub open spec fn wf(&self) -> bool {
        ascending(file_names(self.files@))
    }

    /// A file that says nothing.
    pub fn new() -> (r: Sidecar)
        ensures
            r.wf(),
            r.version == VERSION,
            r.category is None,
            r.files@.len() == 0,
    {
        Sidecar { version: VERSION, category: None, files: Vec::new() }
    }

    /// Takes what was read if its version is the one that is known.
    pub fn parse(read: Sidecar) -> (r: Result<Sidecar, SidecarError>)
        ensures
            r == (if read.version == VERSION {
                Ok::<Sidecar, SidecarError>(read)
            } else {
                Err::<Sidecar, SidecarError>(SidecarError::Version(read.version))
            }),
    {
        if read.version != VERSION {
            return Err(SidecarError::Version(read.version));
        }
        Ok(read)
    }

    /// The same content under the version that is written.
    pub fn stamped(self) -> (r: Sidecar)
        ensures
            r.version == VERSION,
            r.category == self.category,
            r.files == self.files,
    {
        Sidecar { version: VERSION, category: self.category, files: self.files }
    }

    /// Notes what is known of the file `name`, in place of what was known, and
    /// the category where one is given.
    pub fn upsert(&mut self, category: Option<&str>, name: &str, entry: FileEntry)
        requires
            old(self).wf(),
        ensures
            final(self).wf(),
            final(self).version == old(self).version,
            opt_text(final(self).category) == (match category {
                Some(c) => Some(c@),
                None => opt_text(old(self).category),
            }),
            forall|n: Seq<char>|
                #[trigger] entry_at(final(self).files@, n) == (if n == name@ {
                    Some(entry)
                } else {
                    entry_at(old(self).files@, n)
                }),
    {
        if let Some(c) = category {
            self.category = Some(c.to_owned());
        }
        put_entry(&mut self.files, name, entry);
    }
}

} // verus!
