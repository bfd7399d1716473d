//! Downloading a video into the inbox: what a listing says, where the file
//! goes, and what each step leads to.

use crate::catalog::{change_views, first_of, pair_views, values_of, TagChange, TagSet};
use crate::import::sidecar::FileEntry;
use crate::import::ytmusic::metadata::{tags_of, Item, Outcome, Track, SOURCE_URL_KEY};
use crate::import::ytmusic::playlist::{is_playlist_kind, playlist_kind, watch_address, watch_url};
use crate::split::{has_suffix, has_text, lemma_last_index, lemma_last_index_is, rsplit_once};
use crate::text::{
    all_digits, ascii_lower, blank, chars_of, concat2, concat3, concat5, contains_text,
    digits_of_len, ends_with, is_blank, last_index, lower_text, occurs_at, opt_text, same_text,
    slice_text, string_of, texts, trim, trim_end, trim_tail, trimmed,
};
use crate::unicode::{canonical, canonical_key};
use vstd::prelude::*;
use vstd::string::*;
use vstd::utf8::encode_utf8;

verus! {

/// What the keys of download jobs start with.
pub const DEDUP_PREFIX: &'static str = "ytdl:";

/// The directory of what comes from a video platform.
pub const SUBDIR: &'static str = "youtube";

/// The directory below it of what nothing could be told of.
pub const UNMATCHED_DIR: &'static str = "_unmatched";

// ---------------------------------------------------------------- jobs

/// A download that is to be queued once for its address.
#[derive(Debug)]
pub struct YtdlJob {
    pub url: String,
    pub subscription_id: Option<i64>,
    pub position: Option<u32>,
    pub dedup_key: String,
}

/// A download of an address.
pub fn new_ytdl_job(url: &str) -> (r: YtdlJob)
    ensures
        r.url@ == url@,
        r.subscription_id is None,
        r.position is None,
        r.dedup_key@ == DEDUP_PREFIX@ + url@,
{
    YtdlJob { url: url.to_owned(), subscription_id: None, position: None, dedup_key: concat2(DEDUP_PREFIX, url) }
}

/// A download of an address for a subscription. It shares the key of any other
/// download of the address.
pub fn new_subscription_ytdl_job(url: &str, subscription_id: i64, position: u32) -> (r: YtdlJob)
    ensures
        r.url@ == url@,
        r.subscription_id == Some(subscription_id),
        r.position == Some(position),
        r.dedup_key@ == DEDUP_PREFIX@ + url@,
{
    YtdlJob {
        url: url.to_owned(),
        subscription_id: Some(subscription_id),
        position: Some(position),
        dedup_key: concat2(DEDUP_PREFIX, url),
    }
}

/// What a download is asked for.
#[derive(Debug)]
pub struct DownloadRequest {
    pub url: String,
    /// The subscription that asks.
    pub subscription_id: Option<i64>,
    /// The position in the playlist.
    pub position: Option<u32>,
}

impl DownloadRequest {
    /// A request for an address alone.
    pub fn url(url: &str) -> (r: DownloadRequest)
        ensures
            r.url@ == url@,
            r.subscription_id is None,
            r.position is None,
    {
        DownloadRequest { url: url.to_owned(), subscription_id: None, position: None }
    }
}

/// Where the tracks of a subscription go.
#[derive(Debug)]
pub struct SubscriptionTarget {
    pub albumartist: String,
    pub album: String,
    pub category: Option<String>,
    /// The numbers follow the playlist.
    pub align: bool,
}

/// The album that a subscription is bound to.
#[derive(Debug)]
pub struct BoundAlbum {
    pub albumartist: Option<String>,
    pub album: Option<String>,
    pub category: Option<String>,
}

/// `value` where there is one that is not empty, else `otherwise`.
pub open spec fn or_else_text(value: Option<String>, otherwise: String) -> String {
    if value is Some && value->0@.len() > 0 {
        value->0
    } else {
        otherwise
    }
}

fn non_empty_or(value: Option<String>, otherwise: String) -> (r: String)
    ensures
        r == or_else_text(value, otherwise),
{
    match value {
        Some(v) => {
            if v.as_str().is_empty() {
                otherwise
            } else {
                v
            }
        },
        None => otherwise,
    }
}

/// Where the tracks of a subscription go: to the album it is bound to, with
/// what the subscription says where the album says nothing.
pub fn subscription_target(sub: SubscriptionTarget, bound: Option<BoundAlbum>) -> (r: SubscriptionTarget)
    ensures
        r == (match bound {
            Some(b) => SubscriptionTarget {
                albumartist: or_else_text(b.albumartist, sub.albumartist),
                album: or_else_text(b.album, sub.album),
                category: if b.category is Some {
                    b.category
                } else {
                    sub.category
                },
                align: sub.align,
            },
            None => sub,
        }),
{
    match bound {
        Some(b) => SubscriptionTarget {
            albumartist: non_empty_or(b.albumartist, sub.albumartist),
            album: non_empty_or(b.album, sub.album),
            category: match b.category {
                Some(c) => Some(c),
                None => sub.category,
            },
            align: sub.align,
        },
        None => sub,
    }
}

/// Why a download failed.
#[derive(Debug)]
pub enum DownloadError {
    /// Trying again would change nothing.
    Fatal(String),
    Failed(String),
    Cancelled,
}

impl DownloadError {
    /// The text that a user reads.
    pub open spec fn text(&self) -> Seq<char> {
        match self {
            DownloadError::Fatal(e) => e@,
            DownloadError::Failed(e) => e@,
            DownloadError::Cancelled => "キャンセルされた"@,
        }
    }

    /// The text that a user reads.
    pub fn message(&self) -> (r: String)
        ensures
            r@ == self.text(),
    {
        match self {
            DownloadError::Fatal(e) => e.clone(),
            DownloadError::Failed(e) => e.clone(),
            DownloadError::Cancelled => "キャンセルされた".to_owned(),
        }
    }
}

/// What a download came to.
#[derive(Debug)]
pub enum Downloaded {
    /// A playlist: so many entries were queued, so many are there already.
    Playlist { enqueued: usize, skipped: usize },
    /// The plugin left it out.
    Skipped { message: String },
    /// It is in the inbox.
    Staged { rel_path: String, verdict: String },
    /// It was there before.
    AlreadyImported { location: String, path: String },
}

// ---------------------------------------------------------------- listings

/// What a listing is of.
#[derive(Debug)]
pub enum Dump {
    /// A playlist, with the addresses of its entries.
    Playlist(Vec<String>),
    Video(VideoInfo),
}

/// A video.
#[derive(Debug)]
pub struct VideoInfo {
    pub id: String,
    /// The address that is written into the file.
    pub webpage_url: String,
    pub uploader: Option<String>,
    pub channel: Option<String>,
    pub title: String,
    /// Eight digits: year, month and day.
    pub upload_date: Option<String>,
    pub duration_ms: Option<u64>,
    /// There is sound in the form that is taken.
    pub has_webm_audio: bool,
}

/// A listing as it comes, before it is interpreted.
#[derive(Debug)]
pub struct RawDump {
    pub kind: Option<String>,
    pub id: Option<String>,
    pub webpage_url: Option<String>,
    pub uploader: Option<String>,
    pub channel: Option<String>,
    pub title: Option<String>,
    pub upload_date: Option<String>,
    pub duration_ms: Option<u64>,
    pub formats: Vec<RawFormat>,
    pub entries: Vec<RawEntry>,
}

/// A form in which a video is to be had.
#[derive(Debug)]
pub struct RawFormat {
    pub ext: Option<String>,
    pub acodec: Option<String>,
}

/// An entry of a playlist as it comes.
#[derive(Debug)]
pub struct RawEntry {
    pub id: Option<String>,
    pub url: Option<String>,
    pub webpage_url: Option<String>,
    pub ie_key: Option<String>,
}

/// The host of an address, none where the text is no address or has no host.
pub uninterp spec fn url_host(u: Seq<char>) -> Option<Seq<char>>;

/// `url::Url::parse` with `Url::host_str` of its result: the host of an address
/// as the crate writes it. It depends on the text alone.
#[verifier::external_body]
fn host_of(u: &str) -> (r: Option<String>)
    ensures
        opt_text(r) == url_host(u@),
{
    match url::Url::parse(u) {
        Ok(p) => p.host_str().map(|h| h.to_owned()),
        Err(_) => None,
    }
}

/// The host is `domain` or below it.
pub open spec fn within_domain(host: Seq<char>, domain: Seq<char>) -> bool {
    host == domain || ends_with(host, "."@ + domain)
}

/// The host is one of the platform.
pub open spec fn is_platform_host(host: Option<Seq<char>>) -> bool {
    match host {
        Some(h) => within_domain(ascii_lower(h), "youtube.com"@) || within_domain(ascii_lower(h), "youtu.be"@),
        None => false,
    }
}

fn in_domain(host: &str, domain: &str) -> (r: bool)
    ensures
        r == within_domain(host@, domain@),
{
    let below = concat2(".", domain);
    same_text(host, domain) || has_suffix(host, &below)
}

/// Whether a host is one of the platform: the host decides, not what else
/// stands in the address.
pub fn platform_host(host: &Option<String>) -> (r: bool)
    ensures
        r == is_platform_host(opt_text(*host)),
{
    match host {
        Some(h) => {
            let low = lower_text(h);
            in_domain(&low, "youtube.com") || in_domain(&low, "youtu.be")
        },
        None => false,
    }
}

/// The entry is one of the platform, given the hosts of its two addresses.
pub open spec fn is_platform_entry(
    e: RawEntry,
    url_h: Option<Seq<char>>,
    page_h: Option<Seq<char>>,
) -> bool {
    ||| opt_text(e.ie_key) == Some("Youtube"@)
    ||| e.url is Some && is_platform_host(url_h)
    ||| e.webpage_url is Some && is_platform_host(page_h)
}

/// The address of an entry, given the hosts of its two addresses: for one of
/// the platform that has an id the address made of the id, else the one it
/// gives.
pub open spec fn entry_address(
    e: RawEntry,
    url_h: Option<Seq<char>>,
    page_h: Option<Seq<char>>,
) -> Option<Seq<char>> {
    if is_platform_entry(e, url_h, page_h) && e.id is Some && !is_blank(e.id->0@) {
        Some(watch_address(trimmed(e.id->0@)))
    } else {
        let given = if e.webpage_url is Some {
            e.webpage_url
        } else {
            e.url
        };
        match given {
            Some(u) => if is_blank(u@) {
                None
            } else {
                Some(trimmed(u@))
            },
            None => None,
        }
    }
}

/// The host of an optional address.
pub open spec fn host_of_optional(u: Option<String>) -> Option<Seq<char>> {
    match u {
        Some(x) => url_host(x@),
        None => None,
    }
}

/// The address of an entry, given the hosts of its two addresses (see
/// [`entry_address`]).
pub fn address_of_entry(e: RawEntry, url_h: &Option<String>, page_h: &Option<String>) -> (r: Option<String>)
    ensures
        opt_text(r) == entry_address(e, opt_text(*url_h), opt_text(*page_h)),
{
    let named = match &e.ie_key {
        Some(k) => same_text(k, "Youtube"),
        None => false,
    };
    let platform = named || (e.url.is_some() && platform_host(url_h)) || (e.webpage_url.is_some() && platform_host(
        page_h,
    ));
    if platform {
        if let Some(id) = &e.id {
            let t = trim(id);
            if !t.as_str().is_empty() {
                return Some(watch_url(&t));
            }
        }
    }
    let given = match e.webpage_url {
        Some(u) => Some(u),
        None => e.url,
    };
    match given {
        Some(u) => {
            let t = trim(&u);
            if t.as_str().is_empty() {
                None
            } else {
                Some(t)
            }
        },
        None => None,
    }
}

impl RawEntry {
    /// The address of an entry in the form that is written into files.
    pub fn canonical_url(self) -> (r: Option<String>)
        ensures
            opt_text(r) == entry_address(self, host_of_optional(self.url), host_of_optional(self.webpage_url)),
    {
        let url_h = match &self.url {
            Some(u) => host_of(u),
            None => None,
        };
        let page_h = match &self.webpage_url {
            Some(u) => host_of(u),
            None => None,
        };
        address_of_entry(self, &url_h, &page_h)
    }
}

/// The addresses of the entries that have one.
pub open spec fn entry_addresses(entries: Seq<RawEntry>) -> Seq<Seq<char>>
    decreases entries.len(),
{
    if entries.len() == 0 {
        Seq::empty()
    } else {
        let e = entries[0];
        let rest = entry_addresses(entries.drop_first());
        match entry_address(e, host_of_optional(e.url), host_of_optional(e.webpage_url)) {
            Some(u) => seq![u] + rest,
            None => rest,
        }
    }
}

/// The form has sound that is taken.
pub open spec fn is_webm_audio(f: RawFormat) -> bool {
    &&& opt_text(f.ext) == Some("webm"@)
    &&& f.acodec is Some && f.acodec->0@ != "none"@ && f.acodec->0@.len() > 0
}

fn webm_audio(f: &RawFormat) -> (r: bool)
    ensures
        r == is_webm_audio(*f),
{
    let ext = match &f.ext {
        Some(e) => same_text(e, "webm"),
        None => false,
    };
    let codec = match &f.acodec {
        Some(c) => !same_text(c, "none") && !c.as_str().is_empty(),
        None => false,
    };
    ext && codec
}

/// A text that says something.
pub open spec fn unblank(o: Option<String>) -> Option<String> {
    match o {
        Some(s) => if is_blank(s@) {
            None
        } else {
            Some(s)
        },
        None => None,
    }
}

fn keep_unblank(o: Option<String>) -> (r: Option<String>)
    ensures
        r == unblank(o),
{
    match o {
        Some(s) => {
            if blank(&s) {
                None
            } else {
                Some(s)
            }
        },
        None => None,
    }
}

/// A date of eight digits.
pub open spec fn eight_digits(s: Seq<char>) -> bool {
    s.len() == 8 && all_digits(s)
}

/// `v` is the video of a listing.
pub open spec fn video_is(v: VideoInfo, raw: RawDump) -> bool {
    &&& Some(v.id) == unblank(raw.id)
    &&& Some(v.webpage_url) == unblank(raw.webpage_url)
    &&& Some(v.title) == unblank(raw.title)
    &&& v.uploader == unblank(raw.uploader)
    &&& v.channel == unblank(raw.channel)
    &&& v.upload_date == (match raw.upload_date {
        Some(d) => if eight_digits(d@) {
            Some(d)
        } else {
            None
        },
        None => None,
    })
    &&& v.duration_ms == raw.duration_ms
    &&& v.has_webm_audio == exists|i: int| 0 <= i < raw.formats@.len() && is_webm_audio(#[trigger] raw.formats@[i])
}

/// What a listing of a video lacks.
pub open spec fn video_lacks(raw: RawDump) -> Option<Seq<char>> {
    if unblank(raw.id) is None {
        Some("id が無い"@)
    } else if unblank(raw.webpage_url) is None {
        Some("webpage_url が無い"@)
    } else if unblank(raw.title) is None {
        Some("title が無い"@)
    } else {
        None
    }
}

fn addresses_of(entries: Vec<RawEntry>) -> (r: Vec<String>)
    ensures
        texts(r@) == entry_addresses(entries@),
{
    let ghost all = entries@;
    let mut rest = entries;
    let mut out: Vec<String> = Vec::new();
    proof {
        assert(texts(out@) + entry_addresses(all) =~= entry_addresses(all));
    }
    while rest.len() > 0
        invariant
            texts(out@) + entry_addresses(rest@) == entry_addresses(all),
        decreases rest@.len(),
    {
        let ghost before = rest@;
        let ghost so_far = texts(out@);
        let e = rest.remove(0);
        proof {
            assert(rest@ =~= before.drop_first());
            assert(e == before[0]);
        }
        if let Some(u) = e.canonical_url() {
            let ghost uv = u@;
            out.push(u);
            proof {
                assert(texts(out@) =~= so_far.push(uv));
                assert(so_far.push(uv) + entry_addresses(rest@) =~= so_far + (seq![uv] + entry_addresses(rest@)));
            }
        }
    }
    proof {
        assert(texts(out@) + entry_addresses(rest@) =~= texts(out@));
    }
    out
}

/// What a listing says: of a playlist the addresses of its entries, of a video
/// what is needed of it. A video without id, address or title is refused.
pub fn parse_dump(raw: RawDump) -> (r: Result<Dump, String>)
    ensures
        is_playlist_kind(opt_text(raw.kind)) ==> (r matches Ok(Dump::Playlist(urls)) && texts(urls@)
            == entry_addresses(raw.entries@)),
        !is_playlist_kind(opt_text(raw.kind)) ==> match r {
            Ok(d) => d matches Dump::Video(v) && video_lacks(raw) is None && video_is(v, raw),
            Err(e) => video_lacks(raw) == Some(e@),
        },
{
    if playlist_kind(&raw.kind) {
        return Ok(Dump::Playlist(addresses_of(raw.entries)));
    }
    let mut has_webm_audio = false;
    let mut i: usize = 0;
    while i < raw.formats.len()
        invariant
            i <= raw.formats@.len(),
            has_webm_audio == exists|k: int| 0 <= k < i && is_webm_audio(#[trigger] raw.formats@[k]),
        decreases raw.formats@.len() - i,
    {
        if webm_audio(&raw.formats[i]) {
            has_webm_audio = true;
            proof {
                assert(is_webm_audio(raw.formats@[i as int]));
            }
        }
        i = i + 1;
    }
    let id = match keep_unblank(raw.id) {
        Some(s) => s,
        None => {
            return Err("id が無い".to_owned());
        },
    };
    let webpage_url = match keep_unblank(raw.webpage_url) {
        Some(s) => s,
        None => {
            return Err("webpage_url が無い".to_owned());
        },
    };
    let title = match keep_unblank(raw.title) {
        Some(s) => s,
        None => {
            return Err("title が無い".to_owned());
        },
    };
    let upload_date = match raw.upload_date {
        Some(d) => {
            if digits_of_len(&d, 8) {
                Some(d)
            } else {
                None
            }
        },
        None => None,
    };
    Ok(
        Dump::Video(
            VideoInfo {
                id,
                webpage_url,
                uploader: keep_unblank(raw.uploader),
                channel: keep_unblank(raw.channel),
                title,
                upload_date,
                duration_ms: raw.duration_ms,
                has_webm_audio,
            },
        ),
    )
}

// ---------------------------------------------------------------- a video

/// Eight digits as a date with `-` between year, month and day.
pub open spec fn dashed(d: Seq<char>) -> Seq<char> {
    d.subrange(0, 4) + "-"@ + d.subrange(4, 6) + "-"@ + d.subrange(6, 8)
}

/// Eight digits as a date with `-` between year, month and day.
pub fn dashed_date(d: &str) -> (r: String)
    requires
        d@.len() >= 8,
    ensures
        r@ == dashed(d@),
{
    let chars = chars_of(d);
    let y = slice_text(&chars, 0, 4);
    let m = slice_text(&chars, 4, 6);
    let day = slice_text(&chars, 6, 8);
    concat5(&y, "-", &m, "-", &day)
}

/// The channel of a video as the plugin knows it.
pub open spec fn channel_of(v: VideoInfo) -> Seq<char> {
    match v.uploader {
        Some(u) => u@,
        None => match v.channel {
            Some(c) => c@,
            None => Seq::empty(),
        },
    }
}

/// The most characters from the start of `s` that fit into `budget` bytes.
pub open spec fn fitted(s: Seq<char>, budget: nat) -> Seq<char>
    decreases s.len(),
{
    if s.len() == 0 || encode_utf8(s).len() <= budget {
        s
    } else {
        fitted(s.drop_last(), budget)
    }
}

/// How many bytes a text takes.
fn byte_len(s: &str) -> (r: usize)
    ensures
        r == encode_utf8(s@).len(),
{
    s.as_bytes().len()
}

fn fit(s: &str, budget: usize) -> (r: String)
    ensures
        r@ == fitted(s@, budget as nat),
{
    let mut chars = chars_of(s);
    let mut cur = s.to_owned();
    while chars.len() > 0 && byte_len(&cur) > budget
        invariant
            cur@ == chars@,
            fitted(s@, budget as nat) == fitted(chars@, budget as nat),
        decreases chars@.len(),
    {
        let ghost before = chars@;
        chars.pop();
        cur = string_of(&chars);
        proof {
            assert(chars@ =~= before.drop_last());
        }
    }
    cur
}

/// The date of a video before its title in a file name.
pub open spec fn date_prefix(v: VideoInfo) -> Seq<char> {
    match v.upload_date {
        Some(d) => d@ + " "@,
        None => Seq::empty(),
    }
}

/// The name of the file of a video: date, title and id. `title` and `id` may
/// stand in a path. Only the title is cut to make the name fit into `max` bytes.
pub open spec fn file_name_text(v: VideoInfo, title: Seq<char>, id: Seq<char>, max: usize) -> Seq<char> {
    let suffix = " ["@ + id + "].opus"@;
    let prefix = date_prefix(v);
    let room = max - encode_utf8(prefix).len() - encode_utf8(suffix).len();
    let t = trim_end(fitted(title, (if room > 1 { room } else { 1 }) as nat));
    prefix + (if t.len() == 0 { "_"@ } else { t }) + suffix
}

impl VideoInfo {
    /// A date, where there is one, is of eight digits.
    pub open spec fn wf(&self) -> bool {
        self.upload_date matches Some(d) ==> eight_digits(d@)
    }

    /// The channel as the plugin knows it: the uploader, else the channel, else
    /// nothing.
    pub fn channel_key(&self) -> (r: String)
        ensures
            r@ == channel_of(*self),
    {
        match &self.uploader {
            Some(u) => u.clone(),
            None => match &self.channel {
                Some(c) => c.clone(),
                None => String::new(),
            },
        }
    }

    /// What the plugin is asked about the video.
    pub fn item(&self) -> (r: Item)
        requires
            self.wf(),
        ensures
            r.source@ == "youtube"@,
            r.channel@ == channel_of(*self),
            opt_text(r.channel_title) == opt_text(self.channel),
            opt_text(r.id) == Some(self.id@),
            opt_text(r.url) == Some(self.webpage_url@),
            r.title@ == self.title@,
            opt_text(r.uploaded_at) == (match self.upload_date {
                Some(d) => Some(dashed(d@)),
                None => None,
            }),
            r.duration_ms == self.duration_ms,
    {
        let uploaded_at = match &self.upload_date {
            Some(d) => Some(dashed_date(d)),
            None => None,
        };
        Item {
            source: "youtube".to_owned(),
            channel: self.channel_key(),
            channel_title: self.channel.clone(),
            id: Some(self.id.clone()),
            url: Some(self.webpage_url.clone()),
            title: self.title.clone(),
            uploaded_at,
            duration_ms: self.duration_ms,
        }
    }

    /// The name of the file in the inbox. `clean_title` and `clean_id` are the
    /// title and the id as they may stand in a path, `max` is how many bytes a
    /// component may have.
    pub fn inbox_file_name(&self, clean_title: &str, clean_id: &str, max: usize) -> (r: String)
        ensures
            r@ == file_name_text(*self, clean_title@, clean_id@, max),
    {
        let suffix = concat3(" [", clean_id, "].opus");
        let prefix = match &self.upload_date {
            Some(d) => concat2(d, " "),
            None => String::new(),
        };
        let a: usize = byte_len(&prefix);
        let b: usize = byte_len(&suffix);
        let room: usize = if a <= max && b <= max - a {
            max - a - b
        } else {
            0
        };
        let budget: usize = if room > 1 {
            room
        } else {
            1
        };
        let cut = fit(clean_title, budget);
        let t = trim_tail(&cut);
        if t.as_str().is_empty() {
            concat3(&prefix, "_", &suffix)
        } else {
            concat3(&prefix, &t, &suffix)
        }
    }
}

/// The directory of a video in the inbox: below the artist and the album of its
/// track, or below its channel where there is no track. The names are as they
/// may stand in a path.
pub open spec fn inbox_dir_text(track: Option<(Seq<char>, Seq<char>)>, channel: Seq<char>) -> Seq<char> {
    let a = match track {
        Some(t) => t.0,
        None => UNMATCHED_DIR@,
    };
    let b = match track {
        Some(t) => t.1,
        None => channel,
    };
    SUBDIR@ + "/"@ + a + "/"@ + (if b.len() == 0 {
        "_"@
    } else {
        b
    })
}

/// The directory of a video in the inbox. `track` holds the artist and the
/// album of its track, where it has one, and `clean_channel` its channel, all
/// as they may stand in a path.
pub fn inbox_dir(track: Option<(&str, &str)>, clean_channel: &str) -> (r: String)
    ensures
        r@ == inbox_dir_text(
            match track {
                Some(t) => Some((t.0@, t.1@)),
                None => None,
            },
            clean_channel@,
        ),
{
    let (a, b) = match track {
        Some(t) => (t.0, t.1),
        None => (UNMATCHED_DIR, clean_channel),
    };
    let last = if b.is_empty() {
        "_"
    } else {
        b
    };
    concat5(SUBDIR, "/", a, "/", last)
}

/// The name of the original in the archive.
pub fn archive_file_name(clean_id: &str) -> (r: String)
    ensures
        r@ == clean_id@ + ".webm"@,
{
    concat2(clean_id, ".webm")
}

// ---------------------------------------------------------------- tags

/// The keys of `pairs` in the order in which they occur first.
pub open spec fn keys_of(pairs: Seq<(Seq<char>, Seq<char>)>) -> Seq<Seq<char>>
    decreases pairs.len(),
{
    if pairs.len() == 0 {
        Seq::empty()
    } else {
        let r = keys_of(pairs.drop_last());
        if r.contains(pairs.last().0) {
            r
        } else {
            r.push(pairs.last().0)
        }
    }
}

/// For each key the values it has, the keys in the order in which they occur first.
pub open spec fn grouped(pairs: Seq<(Seq<char>, Seq<char>)>) -> Seq<(Seq<char>, Option<Seq<Seq<char>>>)> {
    keys_of(pairs).map_values(|k: Seq<char>| (k, Some(values_of(pairs, k))))
}

proof fn lemma_keys_distinct(pairs: Seq<(Seq<char>, Seq<char>)>)
    ensures
        keys_of(pairs).no_duplicates(),
        forall|i: int| 0 <= i < pairs.len() ==> keys_of(pairs).contains((#[trigger] pairs[i]).0),
    decreases pairs.len(),
{
    if pairs.len() > 0 {
        let t = pairs.drop_last();
        lemma_keys_distinct(t);
        assert forall|i: int| 0 <= i < pairs.len() implies keys_of(pairs).contains((#[trigger] pairs[i]).0) by {
            if i < t.len() {
                assert(t[i] == pairs[i]);
                let k = choose|k: int| 0 <= k < keys_of(t).len() && keys_of(t)[k] == t[i].0;
                assert(keys_of(pairs)[k] == pairs[i].0);
            } else if keys_of(t).contains(pairs[i].0) {
            } else {
                assert(keys_of(pairs)[keys_of(t).len() as int] == pairs[i].0);
            }
        }
    }
}

proof fn lemma_grouped_step(pairs: Seq<(Seq<char>, Seq<char>)>, at: int)
    requires
        pairs.len() > 0,
        0 <= at < keys_of(pairs.drop_last()).len(),
        keys_of(pairs.drop_last())[at] == pairs.last().0,
    ensures
        grouped(pairs) == grouped(pairs.drop_last()).update(
            at,
            (pairs.last().0, Some(values_of(pairs.drop_last(), pairs.last().0).push(pairs.last().1))),
        ),
{
    let t = pairs.drop_last();
    lemma_keys_distinct(t);
    assert(keys_of(t).contains(pairs.last().0));
    assert(keys_of(pairs) == keys_of(t));
    assert(grouped(pairs) =~= grouped(t).update(
        at,
        (pairs.last().0, Some(values_of(t, pairs.last().0).push(pairs.last().1))),
    )) by {
        assert forall|k: int| 0 <= k < keys_of(t).len() implies #[trigger] grouped(pairs)[k] == grouped(t).update(
            at,
            (pairs.last().0, Some(values_of(t, pairs.last().0).push(pairs.last().1))),
        )[k] by {
            if k != at {
                assert(keys_of(t)[k] != keys_of(t)[at]);
            }
        }
    }
}

proof fn lemma_grouped_new(pairs: Seq<(Seq<char>, Seq<char>)>)
    requires
        pairs.len() > 0,
        !keys_of(pairs.drop_last()).contains(pairs.last().0),
    ensures
        grouped(pairs) == grouped(pairs.drop_last()).push((pairs.last().0, Some(seq![pairs.last().1]))),
{
    let t = pairs.drop_last();
    let key = pairs.last().0;
    lemma_keys_distinct(t);
    lemma_no_values(t, key);
    assert(keys_of(pairs) == keys_of(t).push(key));
    assert(values_of(pairs, key) =~= seq![pairs.last().1]);
    assert forall|k: int| 0 <= k < keys_of(t).len() implies #[trigger] grouped(pairs)[k] == grouped(t)[k] by {
        assert(keys_of(t).contains(keys_of(t)[k]));
    }
    assert(grouped(pairs) =~= grouped(t).push((key, Some(seq![pairs.last().1]))));
}

proof fn lemma_no_values(pairs: Seq<(Seq<char>, Seq<char>)>, key: Seq<char>)
    requires
        !keys_of(pairs).contains(key),
    ensures
        values_of(pairs, key) == Seq::<Seq<char>>::empty(),
    decreases pairs.len(),
{
    if pairs.len() > 0 {
        let t = pairs.drop_last();
        lemma_keys_distinct(pairs);
        assert(pairs[pairs.len() - 1].0 != key);
        if keys_of(t).contains(key) {
            let k = choose|k: int| 0 <= k < keys_of(t).len() && keys_of(t)[k] == key;
            assert(keys_of(pairs)[k] == key);
        }
        lemma_no_values(t, key);
    }
}

/// The changes that write `pairs`: for each key its values in order.
pub fn group_changes(pairs: Vec<(String, String)>) -> (r: Vec<TagChange>)
    ensures
        change_views(r@) == grouped(pair_views(pairs@)),
{
    let ghost p = pair_views(pairs@);
    let mut out: Vec<TagChange> = Vec::new();
    let mut i: usize = 0;
    proof {
        assert(change_views(out@) =~= grouped(p.take(0)));
    }
    while i < pairs.len()
        invariant
            i <= pairs@.len(),
            p == pair_views(pairs@),
            change_views(out@) == grouped(p.take(i as int)),
        decreases pairs@.len() - i,
    {
        let ghost t = p.take(i as int);
        let ghost u = p.take(i + 1);
        let ghost before = change_views(out@);
        proof {
            assert(u.drop_last() =~= t);
            assert(u.last() == (pairs@[i as int].0@, pairs@[i as int].1@));
            assert(before.len() == out@.len());
            assert(keys_of(t).len() == out@.len());
            assert forall|k: int| 0 <= k < out@.len() implies (#[trigger] out@[k]).key@ == keys_of(t)[k] by {
                assert(before[k] == grouped(t)[k]);
            }
        }
        let mut at: usize = 0;
        while at < out.len() && !same_text(out[at].key.as_str(), pairs[i].0.as_str())
            invariant
                i < pairs@.len(),
                at <= out@.len(),
                forall|k: int| 0 <= k < at ==> (#[trigger] out@[k]).key@ != pairs@[i as int].0@,
            decreases out@.len() - at,
        {
            at = at + 1;
        }
        if at < out.len() {
            let old_change = out.remove(at);
            let ghost oc = old_change;
            let mut values: Vec<String> = match old_change.values {
                Some(v) => v,
                None => Vec::new(),
            };
            let ghost v0 = texts(values@);
            values.push(pairs[i].1.clone());
            proof {
                assert(texts(values@) =~= v0.push(pairs@[i as int].1@));
            }
            let change = TagChange { key: old_change.key, values: Some(values) };
            let ghost gc = change;
            out.insert(at, change);
            proof {
                assert(before[at as int] == grouped(t)[at as int]);
                assert(v0 == values_of(t, u.last().0));
                lemma_grouped_step(u, at as int);
                assert(change_views(out@) =~= before.update(
                    at as int,
                    (u.last().0, Some(values_of(t, u.last().0).push(u.last().1))),
                ));
            }
        } else {
            let mut values: Vec<String> = Vec::new();
            values.push(pairs[i].1.clone());
            proof {
                assert(texts(values@) =~= seq![u.last().1]);
            }
            out.push(TagChange { key: pairs[i].0.clone(), values: Some(values) });
            proof {
                if keys_of(t).contains(u.last().0) {
                    let k = choose|k: int| 0 <= k < keys_of(t).len() && keys_of(t)[k] == u.last().0;
                    assert(before[k] == grouped(t)[k]);
                }
                lemma_grouped_new(u);
                assert(change_views(out@) =~= before.push((u.last().0, Some(seq![u.last().1]))));
            }
        }
        i = i + 1;
    }
    proof {
        assert(p.take(i as int) =~= p);
    }
    out
}

/// The tags of a file: those of its track, or the title of the video where
/// there is none.
pub open spec fn file_tags(track: Option<Track>, v: VideoInfo, track_no: Option<i64>) -> Seq<(Seq<char>, Seq<char>)> {
    match track {
        Some(t) => tags_of(t, track_no),
        None => seq![("TITLE"@, v.title@)],
    }
}

/// The changes that write the tags of a file, and the address it was had from.
pub fn tag_changes(track: &Option<Track>, video: &VideoInfo, track_no: Option<i64>) -> (r: Vec<TagChange>)
    ensures
        change_views(r@) == grouped(file_tags(*track, *video, track_no)).push(
            (SOURCE_URL_KEY@, Some(seq![video.webpage_url@])),
        ),
{
    let pairs: Vec<(String, String)> = match track {
        Some(t) => t.tags(track_no),
        None => {
            let mut p: Vec<(String, String)> = Vec::new();
            p.push(("TITLE".to_owned(), video.title.clone()));
            proof {
                assert(pair_views(p@) =~= seq![("TITLE"@, video.title@)]);
            }
            p
        },
    };
    let mut changes = group_changes(pairs);
    let ghost before = change_views(changes@);
    let mut values: Vec<String> = Vec::new();
    values.push(video.webpage_url.clone());
    proof {
        assert(texts(values@) =~= seq![video.webpage_url@]);
    }
    changes.push(TagChange { key: SOURCE_URL_KEY.to_owned(), values: Some(values) });
    proof {
        assert(change_views(changes@) =~= before.push((SOURCE_URL_KEY@, Some(seq![video.webpage_url@]))));
    }
    changes
}

// ---------------------------------------------------------------- the steps of a download

/// The listing failed since the address is of no known sort.
pub open spec fn unsupported(stderr: Seq<char>) -> bool {
    contains_text(stderr, "Unsupported URL"@) || contains_text(stderr, "is not a valid URL"@)
}

/// Whether the listing failed since the address is of no known sort.
pub fn is_unsupported_url(stderr: &str) -> (r: bool)
    ensures
        r == unsupported(stderr@),
{
    has_text(stderr, "Unsupported URL") || has_text(stderr, "is not a valid URL")
}

/// The last line of a text; a line break at the very end begins no line.
pub open spec fn last_line(s: Seq<char>) -> Seq<char> {
    let body = if s.len() > 0 && s.last() == '\n' {
        s.drop_last()
    } else {
        s
    };
    match last_index(body, '\n') {
        Some(i) => body.skip(i + 1),
        None => body,
    }
}

fn find_last_line(s: &str) -> (r: String)
    ensures
        r@ == last_line(s@),
{
    let chars = chars_of(s);
    let n: usize = chars.len();
    let end: usize = if n > 0 && chars[n - 1] == '\n' {
        n - 1
    } else {
        n
    };
    let body = slice_text(&chars, 0, end);
    proof {
        if end < n {
            assert(body@ =~= s@.drop_last());
        } else {
            assert(body@ =~= s@);
        }
    }
    match rsplit_once(&body, '\n') {
        Some(p) => p.1,
        None => body,
    }
}

/// What a failed listing means: an address of no known sort stays one, anything
/// else may pass.
pub fn listing_failed(stderr: &str) -> (r: DownloadError)
    ensures
        if unsupported(stderr@) {
            r matches DownloadError::Fatal(m) && m@ == "yt-dlp が対応していない URL: "@ + trimmed(last_line(stderr@))
        } else {
            r matches DownloadError::Failed(m) && m@ == stderr@
        },
{
    if is_unsupported_url(stderr) {
        let line = find_last_line(stderr);
        let t = trim(&line);
        return DownloadError::Fatal(concat2("yt-dlp が対応していない URL: ", &t));
    }
    DownloadError::Failed(stderr.to_owned())
}

/// Counts an entry of a playlist: one that is there already is passed over, one
/// that is queued counts, one whose job is there already does not.
pub fn count_entry(enqueued: usize, skipped: usize, known: bool, inserted: bool) -> (r: (usize, usize))
    requires
        enqueued < usize::MAX,
        skipped < usize::MAX,
    ensures
        r == (if known {
            (enqueued, (skipped + 1) as usize)
        } else if inserted {
            ((enqueued + 1) as usize, skipped)
        } else {
            (enqueued, skipped)
        }),
{
    if known {
        (enqueued, skipped + 1)
    } else if inserted {
        (enqueued + 1, skipped)
    } else {
        (enqueued, skipped)
    }
}

/// What asking the plugin gave.
#[derive(Debug)]
pub enum PluginReply {
    Answer(Outcome),
    Cancelled,
    /// The plugin is broken, for this reason.
    Broken(String),
}

/// What is downloaded, and what goes with it.
#[derive(Debug)]
pub struct StagePlan {
    pub track: Option<Track>,
    pub verdict: String,
    pub title: String,
    pub entry: FileEntry,
    pub category: Option<String>,
    pub track_no: Option<i64>,
}

/// What the reply of the plugin leads to.
#[derive(Debug)]
pub enum PluginStep {
    Skip { message: String },
    Stop(DownloadError),
    Stage(StagePlan),
}

/// The track of a video for a subscription, which decides where it goes: as
/// the plugin knows it, else made of the video.
pub open spec fn subscribed_track(t: Track, known: Option<Track>, v: VideoInfo, s: SubscriptionTarget) -> bool {
    &&& t.albumartist@ == s.albumartist@
    &&& t.album@ == s.album@
    &&& opt_text(t.category) == opt_text(s.category)
    &&& match known {
        Some(k) => t.title == k.title && t.artists == k.artists && t.date == k.date && t.tags == k.tags,
        None => {
            &&& t.title@ == v.title@
            &&& texts(t.artists@) == seq![s.albumartist@]
            &&& opt_text(t.date) == (match v.upload_date {
                Some(d) => Some(dashed(d@)),
                None => None,
            })
            &&& t.tags@.len() == 0
        },
    }
}

/// `p` is what is downloaded of `v`, which the plugin knows as `known`.
pub open spec fn stage_is(
    p: StagePlan,
    v: VideoInfo,
    req: DownloadRequest,
    sub: Option<SubscriptionTarget>,
    known: Option<Track>,
    verdict: Seq<char>,
    message: Option<Seq<char>>,
) -> bool {
    &&& match sub {
        Some(s) => p.track is Some && subscribed_track(p.track->0, known, v, s),
        None => p.track == known,
    }
    &&& p.verdict@ == verdict
    &&& p.title@ == (match p.track {
        Some(t) => t.title@,
        None => v.title@,
    })
    &&& opt_text(p.category) == (match p.track {
        Some(t) => opt_text(t.category),
        None => None,
    })
    &&& p.track_no == (if sub is Some && sub->0.align && req.position is Some {
        Some(req.position->0 as i64)
    } else {
        None
    })
    &&& p.entry.source@ == "youtube"@
    &&& opt_text(p.entry.url) == Some(v.webpage_url@)
    &&& opt_text(p.entry.channel) == Some(channel_of(v))
    &&& p.entry.verdict@ == verdict
    &&& opt_text(p.entry.message) == message
    &&& p.entry.subscription_id == (if sub is Some {
        req.subscription_id
    } else {
        None
    })
    &&& p.entry.position == (if sub is Some {
        req.position
    } else {
        None
    })
}

fn make_stage(
    video: &VideoInfo,
    request: &DownloadRequest,
    sub: &Option<SubscriptionTarget>,
    known: Option<Track>,
    verdict: String,
    message: Option<String>,
) -> (r: StagePlan)
    requires
        video.wf(),
    ensures
        stage_is(r, *video, *request, *sub, known, verdict@, opt_text(message)),
{
    let ghost gk = known;
    let track: Option<Track> = match sub {
        Some(s) => Some(
            match known {
                Some(k) => Track {
                    title: k.title,
                    artists: k.artists,
                    albumartist: s.albumartist.clone(),
                    album: s.album.clone(),
                    category: s.category.clone(),
                    date: k.date,
                    tags: k.tags,
                },
                None => {
                    let mut artists: Vec<String> = Vec::new();
                    artists.push(s.albumartist.clone());
                    proof {
                        assert(texts(artists@) =~= seq![s.albumartist@]);
                    }
                    let date = match &video.upload_date {
                        Some(d) => Some(dashed_date(d)),
                        None => None,
                    };
                    Track {
                        title: video.title.clone(),
                        artists,
                        albumartist: s.albumartist.clone(),
                        album: s.album.clone(),
                        category: s.category.clone(),
                        date,
                        tags: Vec::new(),
                    }
                },
            },
        ),
        None => known,
    };
    let title = match &track {
        Some(t) => t.title.clone(),
        None => video.title.clone(),
    };
    let category = match &track {
        Some(t) => t.category.clone(),
        None => None,
    };
    let align = match sub {
        Some(s) => s.align,
        None => false,
    };
    let track_no: Option<i64> = match request.position {
        Some(p) => {
            if align {
                Some(p as i64)
            } else {
                None
            }
        },
        None => None,
    };
    let entry = FileEntry {
        source: "youtube".to_owned(),
        url: Some(video.webpage_url.clone()),
        channel: Some(video.channel_key()),
        verdict: verdict.clone(),
        message,
        subscription_id: if sub.is_some() {
            request.subscription_id
        } else {
            None
        },
        position: if sub.is_some() {
            request.position
        } else {
            None
        },
    };
    StagePlan { track, verdict, title, entry, category, track_no }
}

/// What the reply of the plugin leads to. What it leaves out is left out, unless
/// a subscription asks: a playlist was chosen by someone. What it has no answer
/// for is downloaded nevertheless.
pub fn plan_download(
    video: &VideoInfo,
    request: &DownloadRequest,
    sub: &Option<SubscriptionTarget>,
    reply: PluginReply,
) -> (r: PluginStep)
    requires
        video.wf(),
    ensures
        match reply {
            PluginReply::Cancelled => r matches PluginStep::Stop(e) && e is Cancelled,
            PluginReply::Broken(m) => r == PluginStep::Stop(DownloadError::Fatal(m)),
            PluginReply::Answer(Outcome::Track(t)) => r matches PluginStep::Stage(p) && stage_is(
                p,
                *video,
                *request,
                *sub,
                Some(t),
                "ok"@,
                None,
            ),
            PluginReply::Answer(Outcome::Declined { reason, message }) => if reason@ == "skip"@ && sub is None {
                r == PluginStep::Skip { message }
            } else {
                r matches PluginStep::Stage(p) && stage_is(
                    p,
                    *video,
                    *request,
                    *sub,
                    None,
                    reason@,
                    Some(message@),
                )
            },
        },
{
    match reply {
        PluginReply::Cancelled => PluginStep::Stop(DownloadError::Cancelled),
        PluginReply::Broken(m) => PluginStep::Stop(DownloadError::Fatal(m)),
        PluginReply::Answer(Outcome::Track(t)) => PluginStep::Stage(
            make_stage(video, request, sub, Some(t), "ok".to_owned(), None),
        ),
        PluginReply::Answer(Outcome::Declined { reason, message }) => {
            if same_text(&reason, "skip") && sub.is_none() {
                PluginStep::Skip { message }
            } else {
                PluginStep::Stage(make_stage(video, request, sub, None, reason, Some(message)))
            }
        },
    }
}

/// A file in the inbox is what an earlier try left: it names the same video.
/// `tags` are those of the file, none where they cannot be read.
pub fn is_own_product(tags: &Option<TagSet>, url: &str) -> (r: bool)
    ensures
        r == (tags is Some && first_of(tags->0@, SOURCE_URL_KEY@) == Some(url@)),
{
    match tags {
        Some(t) => match t.first(SOURCE_URL_KEY) {
            Some(u) => same_text(&u, url),
            None => false,
        },
        None => false,
    }
}

/// Where an address was found.
#[derive(Debug)]
pub enum SourceLocated {
    Library(String),
    Inbox(String),
}

/// What stands at the place where the file goes.
#[derive(Debug, Clone, Copy, PartialEq, Eq, Structural)]
pub enum TargetState {
    /// The file of the same video.
    Own,
    /// Nothing.
    Gone,
    /// Something else.
    Other,
}

/// What finding the address leads to.
#[derive(Debug)]
pub enum LocatedStep {
    /// Download it.
    Download,
    /// It is in place; only what follows is left to do.
    FinishOnly,
    End(Downloaded),
    Stop(DownloadError),
}

/// What finding the address of a video leads to. `target` is where its file
/// goes, `state` what stands there. A file of the inbox at that very place may
/// be one that an earlier run put there.
pub fn located_step(found: Option<SourceLocated>, target: &str, state: TargetState) -> (r: LocatedStep)
    ensures
        match found {
            None => r is Download,
            Some(SourceLocated::Library(p)) => r matches LocatedStep::End(
                Downloaded::AlreadyImported { location, path },
            ) && location@ == "Library"@ && path == p,
            Some(SourceLocated::Inbox(p)) => if canonical(p@) != canonical(target@) {
                r matches LocatedStep::End(Downloaded::AlreadyImported { location, path }) && location@ == "Inbox"@
                    && path == p
            } else {
                match state {
                    TargetState::Own => r is FinishOnly,
                    TargetState::Gone => r is Download,
                    TargetState::Other => r matches LocatedStep::Stop(DownloadError::Fatal(m)) && m@
                        == "Inbox に同名で別の内容のファイルがある: "@ + target@,
                }
            },
        },
{
    match found {
        None => LocatedStep::Download,
        Some(SourceLocated::Library(p)) => LocatedStep::End(
            Downloaded::AlreadyImported { location: "Library".to_owned(), path: p },
        ),
        Some(SourceLocated::Inbox(p)) => {
            let a = canonical_key(&p);
            let b = canonical_key(target);
            if !same_text(&a, &b) {
                return LocatedStep::End(Downloaded::AlreadyImported { location: "Inbox".to_owned(), path: p });
            }
            match state {
                TargetState::Own => LocatedStep::FinishOnly,
                TargetState::Gone => LocatedStep::Download,
                TargetState::Other => LocatedStep::Stop(
                    DownloadError::Fatal(concat2("Inbox に同名で別の内容のファイルがある: ", target)),
                ),
            }
        },
    }
}

/// Refuses a video without sound in the form that is taken.
pub fn require_webm(video: &VideoInfo) -> (r: Result<(), DownloadError>)
    ensures
        match r {
            Ok(()) => video.has_webm_audio,
            Err(e) => !video.has_webm_audio && (e matches DownloadError::Fatal(m) && m@
                == "webm の音声形式（ba[ext=webm]）が無い動画"@),
        },
{
    if video.has_webm_audio {
        Ok(())
    } else {
        Err(DownloadError::Fatal("webm の音声形式（ba[ext=webm]）が無い動画".to_owned()))
    }
}

/// How putting a file in its place ended.
#[derive(Debug)]
pub enum PutResult {
    Placed,
    Exists,
    Failed(String),
}

/// What putting the original into the archive leads to: one that is there
/// already will do.
pub fn archive_put(result: PutResult) -> (r: Result<(), DownloadError>)
    ensures
        r == (match result {
            PutResult::Placed => Ok::<(), DownloadError>(()),
            PutResult::Exists => Ok::<(), DownloadError>(()),
            PutResult::Failed(e) => Err::<(), DownloadError>(DownloadError::Failed(e)),
        }),
{
    match result {
        PutResult::Placed => Ok(()),
        PutResult::Exists => Ok(()),
        PutResult::Failed(e) => Err(DownloadError::Failed(e)),
    }
}

/// What putting the file into the inbox leads to: one that is there already
/// will do if it is that of the same video.
pub fn inbox_put(result: PutResult, own: bool, target: &str) -> (r: Result<(), DownloadError>)
    ensures
        match result {
            PutResult::Placed => r is Ok,
            PutResult::Exists => if own {
                r is Ok
            } else {
                r matches Err(DownloadError::Fatal(m)) && m@ == "Inbox に同名で別の内容のファイルがある: "@ + target@
            },
            PutResult::Failed(e) => r == Err::<(), DownloadError>(DownloadError::Failed(e)),
        },
{
    match result {
        PutResult::Placed => Ok(()),
        PutResult::Exists => {
            if own {
                Ok(())
            } else {
                Err(DownloadError::Fatal(concat2("Inbox に同名で別の内容のファイルがある: ", target)))
            }
        },
        PutResult::Failed(e) => Err(DownloadError::Failed(e)),
    }
}

// ---------------------------------------------------------------- the order of it

/// The steps of a download.
#[derive(Debug, Clone, Copy, PartialEq, Eq, Structural)]
pub enum DownloadStage {
    /// Ask the platform what the address is.
    List,
    /// Ask the plugin what the video is.
    Ask,
    /// See whether it was taken in before.
    Locate,
    Fetch,
    /// Put the sound into the container of the library.
    Remux,
    Tag,
    /// Make sure that the category is known.
    Category,
    /// Keep what was fetched.
    Archive,
    /// Put the file into the inbox.
    Inbox,
    /// Note what is known of it beside it, and tell the inbox.
    Finish,
}

/// What came of a step.
#[derive(Debug)]
pub enum DownloadEvent {
    Done,
    /// The file of an earlier run is in the inbox.
    InPlace,
    /// The download ends so.
    Ends(Downloaded),
    Failed(DownloadError),
}

/// What follows a step.
#[derive(Debug)]
pub enum DownloadNext {
    Go(DownloadStage),
    /// The file is in the inbox, and noted there.
    Staged,
    End(Downloaded),
    Stop(DownloadError),
}

/// A cancellation is looked for at the end of the step: not once something was put
/// where others see it.
pub open spec fn heeds_cancel(stage: DownloadStage) -> bool {
    stage == DownloadStage::List || stage == DownloadStage::Locate || stage == DownloadStage::Fetch || stage
        == DownloadStage::Tag
}

/// The step after a step; none at the end.
pub open spec fn step_after(stage: DownloadStage) -> Option<DownloadStage> {
    match stage {
        DownloadStage::List => Some(DownloadStage::Ask),
        DownloadStage::Ask => Some(DownloadStage::Locate),
        DownloadStage::Locate => Some(DownloadStage::Fetch),
        DownloadStage::Fetch => Some(DownloadStage::Remux),
        DownloadStage::Remux => Some(DownloadStage::Tag),
        DownloadStage::Tag => Some(DownloadStage::Category),
        DownloadStage::Category => Some(DownloadStage::Archive),
        DownloadStage::Archive => Some(DownloadStage::Inbox),
        DownloadStage::Inbox => Some(DownloadStage::Finish),
        DownloadStage::Finish => None,
    }
}

/// What follows a step.
pub open spec fn after_download(stage: DownloadStage, event: DownloadEvent, cancelled: bool) -> DownloadNext {
    match event {
        DownloadEvent::Failed(e) => DownloadNext::Stop(e),
        DownloadEvent::Ends(d) => DownloadNext::End(d),
        DownloadEvent::InPlace => DownloadNext::Go(DownloadStage::Finish),
        DownloadEvent::Done => if heeds_cancel(stage) && cancelled {
            DownloadNext::Stop(DownloadError::Cancelled)
        } else {
            match step_after(stage) {
                Some(next) => DownloadNext::Go(next),
                None => DownloadNext::Staged,
            }
        },
    }
}

/// What follows a step of a download. Only a look for earlier runs finds a file in
/// its place.
pub fn download_one(stage: DownloadStage, event: DownloadEvent, cancelled: bool) -> (r: DownloadNext)
    requires
        event is InPlace ==> stage == DownloadStage::Locate,
    ensures
        r == after_download(stage, event, cancelled),
{
    match event {
        DownloadEvent::Failed(e) => {
            return DownloadNext::Stop(e);
        },
        DownloadEvent::Ends(d) => {
            return DownloadNext::End(d);
        },
        DownloadEvent::InPlace => {
            return DownloadNext::Go(DownloadStage::Finish);
        },
        DownloadEvent::Done => {},
    }
    let heeds = stage == DownloadStage::List || stage == DownloadStage::Locate || stage == DownloadStage::Fetch
        || stage == DownloadStage::Tag;
    if heeds && cancelled {
        return DownloadNext::Stop(DownloadError::Cancelled);
    }
    match stage {
        DownloadStage::List => DownloadNext::Go(DownloadStage::Ask),
        DownloadStage::Ask => DownloadNext::Go(DownloadStage::Locate),
        DownloadStage::Locate => DownloadNext::Go(DownloadStage::Fetch),
        DownloadStage::Fetch => DownloadNext::Go(DownloadStage::Remux),
        DownloadStage::Remux => DownloadNext::Go(DownloadStage::Tag),
        DownloadStage::Tag => DownloadNext::Go(DownloadStage::Category),
        DownloadStage::Category => DownloadNext::Go(DownloadStage::Archive),
        DownloadStage::Archive => DownloadNext::Go(DownloadStage::Inbox),
        DownloadStage::Inbox => DownloadNext::Go(DownloadStage::Finish),
        DownloadStage::Finish => DownloadNext::Staged,
    }
}

// ---------------------------------------------------------------- laws

/// Nothing is fetched before it was looked for, the inbox gets a file only after
/// the archive has what was fetched, and nothing is noted beside it before it is
/// there. A download that was cancelled before its tags were written puts nothing
/// anywhere.
pub proof fn law_download_order(stage: DownloadStage, event: DownloadEvent, cancelled: bool)
    requires
        event is InPlace ==> stage == DownloadStage::Locate,
    ensures
        after_download(stage, event, cancelled) == DownloadNext::Go(DownloadStage::Fetch) ==> stage
            == DownloadStage::Locate && event is Done && !cancelled,
        after_download(stage, event, cancelled) == DownloadNext::Go(DownloadStage::Inbox) ==> stage
            == DownloadStage::Archive && event is Done,
        after_download(stage, event, cancelled) == DownloadNext::Go(DownloadStage::Finish) ==> (stage
            == DownloadStage::Inbox && event is Done) || event is InPlace,
        after_download(stage, event, cancelled) is Staged ==> stage == DownloadStage::Finish && event is Done,
        after_download(stage, event, cancelled) == DownloadNext::Go(DownloadStage::Category) ==> !cancelled,
{
}

/// The keys that are written are distinct, and each has the values that stand
/// under it, in order.
pub proof fn law_grouping_keeps_values(pairs: Seq<(Seq<char>, Seq<char>)>, i: int)
    requires
        0 <= i < pairs.len(),
    ensures
        keys_of(pairs).no_duplicates(),
        exists|k: int|
            0 <= k < grouped(pairs).len() && #[trigger] grouped(pairs)[k] == (
                pairs[i].0,
                Some(values_of(pairs, pairs[i].0)),
            ),
{
    lemma_keys_distinct(pairs);
    let key = pairs[i].0;
    assert(keys_of(pairs).contains(key));
    let k = choose|k: int| 0 <= k < keys_of(pairs).len() && keys_of(pairs)[k] == key;
    assert(grouped(pairs)[k] == (key, Some(values_of(pairs, key))));
}

/// A video that was read from a listing has a date of eight digits or none.
pub proof fn law_listed_video_is_wf(v: VideoInfo, raw: RawDump)
    requires
        video_is(v, raw),
    ensures
        v.wf(),
{
}

/// Whatever the title, the name of a file ends with the id of its video and
/// starts with its date.
pub proof fn law_file_name_keeps_date_and_id(v: VideoInfo, title: Seq<char>, id: Seq<char>, max: usize)
    ensures
        ends_with(file_name_text(v, title, id, max), " ["@ + id + "].opus"@),
        crate::text::starts_with(file_name_text(v, title, id, max), date_prefix(v)),
{
    let name = file_name_text(v, title, id, max);
    let suffix = " ["@ + id + "].opus"@;
    let prefix = date_prefix(v);
    assert(name.skip(name.len() - suffix.len()) =~= suffix);
    assert(name.take(prefix.len() as int) =~= prefix);
}

/// A host belongs to the platform where it is one of its names or ends in one of them behind a dot, in whatever
/// case of letters; a name that only ends alike does not.
pub proof fn law_hosts_of_the_platform(sub: Seq<char>)
    ensures
        within_domain(sub + seq!['.'] + "youtube.com"@, "youtube.com"@),
        within_domain("youtube.com"@, "youtube.com"@),
        is_platform_host(Some("youtube.com"@)),
        is_platform_host(Some("youtu.be"@)),
        !is_platform_host(None),
        !within_domain("notyoutube.com"@, "youtube.com"@),
        !is_platform_host(Some("vimeo.com"@)),
{
    reveal_strlit(".");
    reveal_strlit("youtube.com");
    reveal_strlit("youtu.be");
    reveal_strlit("notyoutube.com");
    reveal_strlit("vimeo.com");
    let y = "youtube.com"@;
    let b = "youtu.be"@;
    assert("."@ =~= seq!['.']);
    let h = sub + seq!['.'] + y;
    assert(h.skip(h.len() - ("."@ + y).len()) =~= "."@ + y);
    assert(ascii_lower(y) =~= y);
    assert(ascii_lower(b) =~= b);
    let n = "notyoutube.com"@;
    let dy = "."@ + y;
    let db = "."@ + b;
    assert(n.len() == 14 && dy.len() == 12 && n.skip(2)[0] == 't' && dy[0] == '.');
    let v = "vimeo.com"@;
    assert(v.len() == 9 && y.len() == 11 && b.len() == 8 && db.len() == 9);
    assert(ascii_lower(v)[0] == 'v' && db[0] == '.');
    if ends_with(ascii_lower(v), db) {
        assert(ascii_lower(v).skip(0)[0] == 'v');
    }
}

/// A video of a listing is found under one address, whatever the listing calls it: that of its id where it is
/// one of the platform, and else the one that the listing gives, that of its page before any other.
pub proof fn law_address_of_an_entry(e: RawEntry, url_h: Option<Seq<char>>, page_h: Option<Seq<char>>)
    ensures
        opt_text(e.ie_key) == Some("Youtube"@) ==> (e.id matches Some(id) ==> (trimmed(id@).len() > 0 ==> entry_address(
            e,
            url_h,
            page_h,
        ) == Some(watch_address(trimmed(id@))))),
        e.id is None ==> (e.webpage_url matches Some(u) ==> (trimmed(u@).len() > 0 ==> entry_address(e, url_h, page_h)
            == Some(trimmed(u@)))),
        e.id is None && e.webpage_url is None ==> (e.url matches Some(u) ==> (trimmed(u@).len() > 0 ==> entry_address(
            e,
            url_h,
            page_h,
        ) == Some(trimmed(u@)))),
        e.id is None && e.webpage_url is None && e.url is None ==> entry_address(e, url_h, page_h) is None,
        entry_address(e, url_h, page_h) matches Some(a) ==> a.len() > 0,
{
    reveal_strlit("https://www.youtube.com/watch?v=");
}

/// Every entry of a listing that has an address is listed, in order.
pub proof fn law_listed_addresses(entries: Seq<RawEntry>, i: int)
    requires
        0 <= i < entries.len(),
    ensures
        entry_address(entries[i], host_of_optional(entries[i].url), host_of_optional(entries[i].webpage_url)) matches Some(
            a,
        ) ==> entry_addresses(entries).contains(a),
        entry_addresses(entries).len() <= entries.len(),
    decreases entries.len(),
{
    let rest = entries.drop_first();
    let r = entry_addresses(rest);
    let all = entry_addresses(entries);
    if rest.len() > 0 {
        law_listed_addresses(rest, if i > 0 {
            i - 1
        } else {
            0
        });
    }
    let x = entry_address(entries[i], host_of_optional(entries[i].url), host_of_optional(entries[i].webpage_url));
    if x is Some {
        if i > 0 {
            assert(rest[i - 1] == entries[i]);
            let k = choose|k: int| 0 <= k < r.len() && r[k] == x->0;
            assert(all[k] == x->0 || all[k + 1] == x->0);
        } else {
            assert(all[0] == x->0);
        }
    }
}

/// A listing of a video has to name its id, its page and its title; what it says blank it does not say.
pub proof fn law_what_a_video_needs(raw: RawDump, s: String)
    ensures
        unblank(None) is None,
        trimmed(s@).len() == 0 ==> unblank(Some(s)) is None,
        trimmed(s@).len() > 0 ==> unblank(Some(s)) == Some(s),
        video_lacks(raw) is None <==> unblank(raw.id) is Some && unblank(raw.webpage_url) is Some && unblank(raw.title)
            is Some,
{
}

/// A video is taken over as it was listed, and its sound counts as fit where one format of it is sound in a
/// webm file.
pub proof fn law_video_as_listed(v: VideoInfo, raw: RawDump, i: int)
    requires
        video_is(v, raw),
    ensures
        raw.id == Some(v.id) && raw.webpage_url == Some(v.webpage_url) && raw.title == Some(v.title),
        v.uploader is Some ==> v.uploader == raw.uploader,
        v.channel is Some ==> v.channel == raw.channel,
        v.upload_date matches Some(d) ==> raw.upload_date == Some(d) && d@.len() == 8 && all_digits(d@),
        v.duration_ms == raw.duration_ms,
        0 <= i < raw.formats@.len() && opt_text(raw.formats@[i].ext) == Some("webm"@) && opt_text(raw.formats@[i].acodec)
            == Some("opus"@) ==> v.has_webm_audio,
        (forall|k: int| 0 <= k < raw.formats@.len() ==> opt_text((#[trigger] raw.formats@[k]).acodec) == Some("none"@))
            ==> !v.has_webm_audio,
{
    reveal_strlit("opus");
    reveal_strlit("none");
    assert("opus"@.len() == 4 && "opus"@[0] == 'o' && "none"@[0] == 'n');
    if 0 <= i < raw.formats@.len() && opt_text(raw.formats@[i].ext) == Some("webm"@) && opt_text(raw.formats@[i].acodec)
        == Some("opus"@) {
        assert(is_webm_audio(raw.formats@[i]));
    }
}

/// A date of eight digits gets its dashes, and nothing else changes.
pub proof fn law_dashed_date(y: Seq<char>, m: Seq<char>, d: Seq<char>)
    requires
        y.len() == 4,
        m.len() == 2,
        d.len() == 2,
    ensures
        dashed(y + m + d) == y + seq!['-'] + m + seq!['-'] + d,
{
    reveal_strlit("-");
    assert("-"@ =~= seq!['-']);
    let s = y + m + d;
    assert(s.subrange(0, 4) =~= y);
    assert(s.subrange(4, 6) =~= m);
    assert(s.subrange(6, 8) =~= d);
}

/// A title that is too long loses its end and nothing else: what is kept is the start of it, and fits, but
/// where not even nothing would.
pub proof fn law_fitted_title(s: Seq<char>, budget: nat)
    ensures
        fitted(s, budget).len() <= s.len(),
        fitted(s, budget) == s.take(fitted(s, budget).len() as int),
        fitted(s, budget).len() > 0 ==> encode_utf8(fitted(s, budget)).len() <= budget,
        encode_utf8(s).len() <= budget ==> fitted(s, budget) == s,
    decreases s.len(),
{
    if s.len() == 0 || encode_utf8(s).len() <= budget {
        assert(s.take(s.len() as int) =~= s);
    } else {
        law_fitted_title(s.drop_last(), budget);
        let f = fitted(s.drop_last(), budget);
        assert(s.drop_last().take(f.len() as int) =~= s.take(f.len() as int));
    }
}

/// A file that a plugin knows goes below the artist and the album of its track, any other below its channel;
/// a name that was left empty becomes an underscore.
pub proof fn law_directory_of_a_download(a: Seq<char>, b: Seq<char>, channel: Seq<char>)
    ensures
        b.len() > 0 ==> inbox_dir_text(Some((a, b)), channel) == "youtube"@ + "/"@ + a + "/"@ + b,
        b.len() == 0 ==> inbox_dir_text(Some((a, b)), channel) == "youtube"@ + "/"@ + a + "/"@ + "_"@,
        channel.len() > 0 ==> inbox_dir_text(None, channel) == "youtube"@ + "/"@ + "_unmatched"@ + "/"@ + channel,
        channel.len() == 0 ==> inbox_dir_text(None, channel) == "youtube"@ + "/"@ + "_unmatched"@ + "/"@ + "_"@,
{
}

/// The channel of a video is who put it there, and the channel it is in where that is not known.
pub proof fn law_channel_of_a_video(v: VideoInfo)
    ensures
        v.uploader matches Some(u) ==> channel_of(v) == u@,
        v.uploader is None ==> (v.channel matches Some(c) ==> channel_of(v) == c@),
        v.uploader is None && v.channel is None ==> channel_of(v).len() == 0,
{
}

/// What goes into the tags of a file is what the plugin says of its track; without a track only its title is
/// known.
pub proof fn law_tags_of_a_download(t: Track, v: VideoInfo, no: Option<i64>)
    ensures
        file_tags(Some(t), v, no) == tags_of(t, no),
        file_tags(None, v, no).len() == 1 && file_tags(None, v, no)[0] == ("TITLE"@, v.title@),
{
}

/// The last line of a message is what stands behind its last line break, one at its very end left aside.
pub proof fn law_last_line(a: Seq<char>, line: Seq<char>)
    requires
        !line.contains('\n'),
        line.len() > 0,
    ensures
        last_line(a + seq!['\n'] + line) == line,
        last_line(a + seq!['\n'] + line + seq!['\n']) == line,
        last_line(line) == line,
{
    let s = a + seq!['\n'] + line;
    assert forall|k: int| a.len() < k < s.len() implies #[trigger] s[k] != '\n' by {
        assert(s[k] == line[k - a.len() - 1]);
        assert(line.contains(line[k - a.len() - 1]));
    }
    assert(s.last() == line.last());
    assert(line.contains(line[line.len() - 1]));
    lemma_last_index_is(s, '\n', a.len() as int);
    assert(s.skip(a.len() as int + 1) =~= line);
    let t = s + seq!['\n'];
    assert(t.drop_last() =~= s);
    lemma_last_index(line, '\n');
    if last_index(line, '\n') is Some {
        assert(line.contains(line[last_index(line, '\n')->0]));
    }
}

/// A download of a subscription goes to the album of the subscription, with what is known of the track else;
/// it is numbered by its position where the subscription asks for that. Any other download is as the plugin
/// says and belongs to no subscription.
pub proof fn law_downloads_of_a_subscription(
    p: StagePlan,
    v: VideoInfo,
    req: DownloadRequest,
    sub: Option<SubscriptionTarget>,
    known: Option<Track>,
    verdict: Seq<char>,
    message: Option<Seq<char>>,
)
    requires
        stage_is(p, v, req, sub, known, verdict, message),
    ensures
        sub matches Some(s) ==> (p.track matches Some(t) && t.albumartist@ == s.albumartist@ && t.album@ == s.album@
            && opt_text(t.category) == opt_text(s.category)),
        sub is Some && known is Some ==> p.track is Some && p.track->0.title == known->0.title && p.track->0.artists
            == known->0.artists,
        sub is Some && known is None ==> p.title@ == v.title@,
        sub matches Some(s) ==> (req.position matches Some(n) ==> p.track_no == (if s.align {
            Some(n as i64)
        } else {
            None
        })),
        sub is None ==> p.track == known && p.track_no is None && p.entry.subscription_id is None
            && p.entry.position is None,
        sub is Some ==> p.entry.subscription_id == req.subscription_id && p.entry.position == req.position,
        sub is None && known is None ==> p.title@ == v.title@ && p.category is None,
        opt_text(p.entry.url) == Some(v.webpage_url@),
        p.verdict@ == verdict && p.entry.verdict@ == verdict,
{
}

/// A download goes through its stages one by one: it is listed, asked for, looked for, fetched, turned into its
/// form, tagged, given its category, archived, put in the inbox and noted there.
pub proof fn law_download_stage_by_stage(stage: DownloadStage, d: Downloaded, e: DownloadError, cancelled: bool)
    ensures
        after_download(DownloadStage::List, DownloadEvent::Done, false) == DownloadNext::Go(DownloadStage::Ask),
        after_download(DownloadStage::Ask, DownloadEvent::Done, cancelled) == DownloadNext::Go(DownloadStage::Locate),
        after_download(DownloadStage::Locate, DownloadEvent::Done, false) == DownloadNext::Go(DownloadStage::Fetch),
        after_download(DownloadStage::Fetch, DownloadEvent::Done, false) == DownloadNext::Go(DownloadStage::Remux),
        after_download(DownloadStage::Remux, DownloadEvent::Done, cancelled) == DownloadNext::Go(DownloadStage::Tag),
        after_download(DownloadStage::Tag, DownloadEvent::Done, false) == DownloadNext::Go(DownloadStage::Category),
        after_download(DownloadStage::Category, DownloadEvent::Done, cancelled) == DownloadNext::Go(
            DownloadStage::Archive,
        ),
        after_download(DownloadStage::Archive, DownloadEvent::Done, cancelled) == DownloadNext::Go(DownloadStage::Inbox),
        after_download(DownloadStage::Inbox, DownloadEvent::Done, cancelled) == DownloadNext::Go(DownloadStage::Finish),
        after_download(DownloadStage::Finish, DownloadEvent::Done, cancelled) == DownloadNext::Staged,
        after_download(DownloadStage::List, DownloadEvent::Done, true) == DownloadNext::Stop(DownloadError::Cancelled),
        after_download(DownloadStage::Locate, DownloadEvent::Done, true) == DownloadNext::Stop(DownloadError::Cancelled),
        after_download(DownloadStage::Fetch, DownloadEvent::Done, true) == DownloadNext::Stop(DownloadError::Cancelled),
        after_download(DownloadStage::Tag, DownloadEvent::Done, true) == DownloadNext::Stop(DownloadError::Cancelled),
        after_download(stage, DownloadEvent::Failed(e), cancelled) == DownloadNext::Stop(e),
        after_download(stage, DownloadEvent::Ends(d), cancelled) == DownloadNext::End(d),
        after_download(stage, DownloadEvent::InPlace, cancelled) == DownloadNext::Go(DownloadStage::Finish),
{
}

/// A subscription that is bound to an album goes by what the album says, where it says something.
pub proof fn law_bound_subscriptions(v: Option<String>, otherwise: String)
    ensures
        v matches Some(s) ==> (s@.len() > 0 ==> or_else_text(v, otherwise) == s),
        v matches Some(s) ==> (s@.len() == 0 ==> or_else_text(v, otherwise) == otherwise),
        v is None ==> or_else_text(v, otherwise) == otherwise,
{
}

/// An address is refused for good where the message says that it is not supported or no address.
pub proof fn law_refused_addresses(a: Seq<char>, b: Seq<char>)
    ensures
        unsupported(a + "Unsupported URL"@ + b),
        unsupported(a + "is not a valid URL"@ + b),
{
    let u = "Unsupported URL"@;
    let s = a + u + b;
    assert(s.skip(a.len() as int).take(u.len() as int) =~= u);
    assert(occurs_at(s, u, a.len() as int));
    let v = "is not a valid URL"@;
    let t = a + v + b;
    assert(t.skip(a.len() as int).take(v.len() as int) =~= v);
    assert(occurs_at(t, v, a.len() as int));
}

/// An entry belongs to the platform where the listing says so, or an address it gives leads there; an entry of another
/// site keeps the address it has.
pub proof fn law_entries_of_other_sites(e: RawEntry, url_h: Option<Seq<char>>, page_h: Option<Seq<char>>)
    ensures
        opt_text(e.ie_key) != Some("Youtube"@) && !is_platform_host(url_h) && !is_platform_host(page_h) ==> (
        e.webpage_url matches Some(u) ==> (trimmed(u@).len() > 0 ==> entry_address(e, url_h, page_h) == Some(
            trimmed(u@),
        ))),
        e.url is Some && is_platform_host(url_h) ==> (e.id matches Some(id) ==> (trimmed(id@).len() > 0 ==> entry_address(
            e,
            url_h,
            page_h,
        ) == Some(watch_address(trimmed(id@))))),
        e.webpage_url is Some && is_platform_host(page_h) ==> (e.id matches Some(id) ==> (trimmed(id@).len() > 0
            ==> entry_address(e, url_h, page_h) == Some(watch_address(trimmed(id@))))),
        e.url is None && e.webpage_url is None && opt_text(e.ie_key) != Some("Youtube"@) ==> entry_address(
            e,
            url_h,
            page_h,
        ) is None,
{
}

} // verus!
