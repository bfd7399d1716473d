//! Pictures for what waits: what is stored, and what asking the archive of
//! covers leads to.

use crate::edit::picture::{picture_text, picture_value};
use crate::forms::{is_mbid, valid_mbid};
use crate::import::draft::draft_mime;
use crate::text::{ascii_lower, concat2, lower_text, opt_text, same_text, trim, trimmed};
use vstd::prelude::*;
use vstd::string::*;

verus! {

/// A picture that is stored.
#[derive(Debug)]
pub struct StoredImage {
    pub hash: [u8; 32],
    pub mime: String,
    pub width: u32,
    pub height: u32,
    pub bytes: usize,
    /// The job that makes small versions, none where they are there.
    pub thumbnail_job: Option<i64>,
}

impl StoredImage {
    /// The value of the picture in a draft.
    pub fn picture_value(&self) -> (r: String)
        ensures
            r@ == picture_text(self.mime@, self.hash@),
    {
        picture_value(&self.mime, self.hash.as_slice())
    }
}

/// Why a picture could not be stored.
#[derive(Debug)]
pub enum StoreImageError {
    Unsupported,
    Io(String),
    Db(String),
}

impl StoreImageError {
    /// The text that a user reads.
    pub open spec fn text(&self) -> Seq<char> {
        match self {
            StoreImageError::Unsupported => "JPEG / PNG / WebP の画像だけを受け付ける"@,
            StoreImageError::Io(e) => "原画像を置けない: "@ + e@,
            StoreImageError::Db(e) => e@,
        }
    }

    /// The text that a user reads.
    pub fn message(&self) -> (r: String)
        ensures
            r@ == self.text(),
    {
        match self {
            StoreImageError::Unsupported => "JPEG / PNG / WebP の画像だけを受け付ける".to_owned(),
            StoreImageError::Io(e) => concat2("原画像を置けない: ", e),
            StoreImageError::Db(e) => e.clone(),
        }
    }
}

/// A type of picture that can stand inside a file.
pub open spec fn embed_mime(mime: Seq<char>) -> bool {
    mime == "image/jpeg"@ || mime == "image/png"@ || mime == "image/webp"@
}

/// What is known of a picture by its bytes.
#[derive(Debug)]
pub struct ImageInfo {
    pub mime: String,
    pub width: u32,
    pub height: u32,
}

/// Takes a picture that can stand inside a file; none where the bytes are none,
/// or one of another type.
pub fn embeddable(info: Option<ImageInfo>) -> (r: Result<ImageInfo, StoreImageError>)
    ensures
        match info {
            Some(i) => if embed_mime(i.mime@) {
                r == Ok::<ImageInfo, StoreImageError>(i)
            } else {
                r == Err::<ImageInfo, StoreImageError>(StoreImageError::Unsupported)
            },
            None => r == Err::<ImageInfo, StoreImageError>(StoreImageError::Unsupported),
        },
{
    match info {
        Some(i) => {
            if same_text(&i.mime, "image/jpeg") || same_text(&i.mime, "image/png") || same_text(&i.mime, "image/webp") {
                Ok(i)
            } else {
                Err(StoreImageError::Unsupported)
            }
        },
        None => Err(StoreImageError::Unsupported),
    }
}

/// What is known of a picture once it is stored.
pub fn store_image(
    info: ImageInfo,
    hash: [u8; 32],
    bytes: usize,
    thumbnail_job: Option<i64>,
) -> (r: StoredImage)
    ensures
        r.hash == hash,
        r.mime == info.mime,
        r.width == info.width,
        r.height == info.height,
        r.bytes == bytes,
        r.thumbnail_job == thumbnail_job,
{
    StoredImage { hash, mime: info.mime, width: info.width, height: info.height, bytes, thumbnail_job }
}

/// What asking for covers counted.
#[derive(Debug, Clone, Copy, PartialEq, Eq, Structural)]
pub struct CoverReport {
    pub found: usize,
    /// The archive has none.
    pub absent: usize,
    /// No disc, or one of no known release.
    pub skipped: usize,
    /// The archive failed, or the picture could not be stored.
    pub failed: usize,
}

/// The release of a disc as the archive knows it.
pub open spec fn archive_release(id: Option<Seq<char>>) -> Option<Seq<char>> {
    match id {
        Some(s) => if valid_mbid(ascii_lower(trimmed(s))) {
            Some(ascii_lower(trimmed(s)))
        } else {
            None
        },
        None => None,
    }
}

/// The release of a disc as the archive knows it, none where it is none.
pub fn rip_release_id(id: &Option<String>) -> (r: Option<String>)
    ensures
        opt_text(r) == archive_release(opt_text(*id)),
{
    match id {
        Some(s) => {
            let t = trim(s);
            let low = lower_text(&t);
            if is_mbid(&low) {
                Some(low)
            } else {
                None
            }
        },
        None => None,
    }
}

/// What asking for the cover of an item gave.
#[derive(Debug)]
pub enum CoverReply {
    /// It was not asked for: there is no release.
    NoRelease,
    /// It is stored under this value; `recorded` says that the item took it.
    Stored { value: String, recorded: bool },
    /// It is there but could not be stored.
    NotStored,
    /// The archive has none.
    Absent,
    /// The archive failed.
    Failed,
}

/// What is noted of an item: its picture, and how often it was tried.
#[derive(Debug)]
pub struct CoverNote {
    pub picture: Option<String>,
    pub tries: i64,
}

/// What is noted of an item that was tried `tries` times before, and what is
/// counted. Where no cover will ever be found the item is not tried again, as
/// after `max_tries` tries.
pub fn fetch_cd_covers(report: CoverReport, reply: CoverReply, tries: i64, max_tries: i64) -> (r: (
    CoverNote,
    CoverReport,
))
    requires
        tries < i64::MAX,
        report.found < usize::MAX,
        report.absent < usize::MAX,
        report.skipped < usize::MAX,
        report.failed < usize::MAX,
    ensures
        match reply {
            CoverReply::NoRelease => r.0.picture is None && r.0.tries == max_tries && r.1 == (CoverReport {
                skipped: (report.skipped + 1) as usize,
                ..report
            }),
            CoverReply::Stored { value, recorded } => r.0.picture == Some(value) && r.0.tries == tries + 1 && r.1 == (
            CoverReport {
                found: if recorded {
                    (report.found + 1) as usize
                } else {
                    report.found
                },
                ..report
            }),
            CoverReply::NotStored => r.0.picture is None && r.0.tries == tries + 1 && r.1 == (CoverReport {
                failed: (report.failed + 1) as usize,
                ..report
            }),
            CoverReply::Absent => r.0.picture is None && r.0.tries == max_tries && r.1 == (CoverReport {
                absent: (report.absent + 1) as usize,
                ..report
            }),
            CoverReply::Failed => r.0.picture is None && r.0.tries == tries + 1 && r.1 == (CoverReport {
                failed: (report.failed + 1) as usize,
                ..report
            }),
        },
{
    let mut n = report;
    match reply {
        CoverReply::NoRelease => {
            n.skipped = n.skipped + 1;
            (CoverNote { picture: None, tries: max_tries }, n)
        },
        CoverReply::Stored { value, recorded } => {
            if recorded {
                n.found = n.found + 1;
            }
            (CoverNote { picture: Some(value), tries: tries + 1 }, n)
        },
        CoverReply::NotStored => {
            n.failed = n.failed + 1;
            (CoverNote { picture: None, tries: tries + 1 }, n)
        },
        CoverReply::Absent => {
            n.absent = n.absent + 1;
            (CoverNote { picture: None, tries: max_tries }, n)
        },
        CoverReply::Failed => {
            n.failed = n.failed + 1;
            (CoverNote { picture: None, tries: tries + 1 }, n)
        },
    }
}

/// A picture is asked for under an id of MusicBrainz in small letters and without the space around it;
/// anything else is no id.
pub proof fn law_release_asked_for(s: Seq<char>)
    ensures
        archive_release(None) is None,
        archive_release(Some(s)) matches Some(id) ==> valid_mbid(id) && id == ascii_lower(trimmed(s)),
        valid_mbid(ascii_lower(trimmed(s))) ==> archive_release(Some(s)) is Some,
{
}

/// A picture that is stored can be chosen in a draft, and the other way round.
pub proof fn law_stored_pictures_can_be_chosen(mime: Seq<char>)
    ensures
        embed_mime(mime) == draft_mime(mime),
        embed_mime("image/jpeg"@) && embed_mime("image/png"@) && embed_mime("image/webp"@),
        !embed_mime("image/gif"@) && !embed_mime("image/bmp"@),
{
    reveal_strlit("image/jpeg");
    reveal_strlit("image/png");
    reveal_strlit("image/webp");
    reveal_strlit("image/gif");
    reveal_strlit("image/bmp");
    assert("image/gif"@.len() == 9 && "image/bmp"@.len() == 9 && "image/jpeg"@.len() == 10 && "image/webp"@.len()
        == 10);
    assert("image/gif"@[6] == 'g' && "image/bmp"@[6] == 'b' && "image/png"@[6] == 'p');
}

} // verus!
