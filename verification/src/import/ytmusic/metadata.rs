//! The metadata plugin: what it is asked, what it answers, and what an answer
//! has to be.

use crate::catalog::{pair_views, TrackFields};
use crate::edit::picture::PICTURE_KEY;
use crate::forms::{has_tag_key_chars, is_valid_date, tag_key_chars, valid_date, year_of, year_text};
use crate::split::has_member;
use crate::text::{
    ascii_upper, blank, chars_of, concat2, concat3, control, int_text, int_to_text, is_blank, is_control, opt_text,
    same_text, texts, trim, trimmed, unsigned_to_text, upper_text,
};
use crate::unicode::{capital_text, quoted, quoted_text, to_capitals};
use vstd::prelude::*;
use vstd::string::*;

verus! {

/// The version of the protocol.
pub const PROTOCOL: u32 = 1;

/// The tag with the address that a file was had from. It tells what was taken
/// in before.
pub const SOURCE_URL_KEY: &'static str = "SOURCE_URL";

/// What the plugin is asked about.
#[derive(Debug)]
pub struct Item {
    /// Where it comes from.
    pub source: String,
    /// The channel as the plugin knows it.
    pub channel: String,
    pub channel_title: Option<String>,
    pub id: Option<String>,
    pub url: Option<String>,
    pub title: String,
    pub uploaded_at: Option<String>,
    pub duration_ms: Option<u64>,
}

/// A track as the plugin knows it.
#[derive(Debug)]
pub struct Track {
    pub title: String,
    pub artists: Vec<String>,
    pub albumartist: String,
    pub album: String,
    /// The category, by name; none is unsorted.
    pub category: Option<String>,
    pub date: Option<String>,
    /// Further tags.
    pub tags: Vec<(String, String)>,
}

/// A list of pairs with the same key.
pub open spec fn under_key(key: Seq<char>, values: Seq<Seq<char>>) -> Seq<(Seq<char>, Seq<char>)> {
    values.map_values(|v: Seq<char>| (key, v))
}

/// A pair where there is a value.
pub open spec fn pair_if(key: Seq<char>, value: Option<Seq<char>>) -> Seq<(Seq<char>, Seq<char>)> {
    match value {
        Some(v) => seq![(key, v)],
        None => Seq::empty(),
    }
}

/// The tags that a track writes into its file, in order.
pub open spec fn tags_of(t: Track, track_no: Option<i64>) -> Seq<(Seq<char>, Seq<char>)> {
    seq![("TITLE"@, t.title@)] + under_key("ARTIST"@, texts(t.artists@)) + seq![
        ("ALBUM"@, t.album@),
        ("ALBUMARTIST"@, t.albumartist@),
    ] + pair_if("DATE"@, opt_text(t.date)) + pair_if(
        "TRACKNUMBER"@,
        match track_no {
            Some(n) => Some(int_text(n as int)),
            None => None,
        },
    ) + pair_views(t.tags@).map_values(|p: (Seq<char>, Seq<char>)| (ascii_upper(p.0), p.1))
}

fn push_pair(out: &mut Vec<(String, String)>, key: &str, value: &str)
    ensures
        pair_views(final(out)@) == pair_views(old(out)@).push((key@, value@)),
{
    let ghost before = pair_views(out@);
    out.push((key.to_owned(), value.to_owned()));
    proof {
        assert(pair_views(out@) =~= before.push((key@, value@)));
    }
}

impl Track {
    /// The tags that the track writes into its file. A number is written only
    /// where one is given.
    pub fn tags(&self, track_no: Option<i64>) -> (r: Vec<(String, String)>)
        ensures
            pair_views(r@) == tags_of(*self, track_no),
    {
        let mut out: Vec<(String, String)> = Vec::new();
        proof {
            assert(pair_views(out@) =~= Seq::empty());
        }
        push_pair(&mut out, "TITLE", &self.title);
        let ghost head = seq![("TITLE"@, self.title@)];
        let ghost artists = under_key("ARTIST"@, texts(self.artists@));
        let mut i: usize = 0;
        proof {
            assert(pair_views(out@) =~= head + artists.take(0));
        }
        while i < self.artists.len()
            invariant
                i <= self.artists@.len(),
                artists == under_key("ARTIST"@, texts(self.artists@)),
                pair_views(out@) == head + artists.take(i as int),
            decreases self.artists@.len() - i,
        {
            let ghost before = pair_views(out@);
            push_pair(&mut out, "ARTIST", &self.artists[i]);
            proof {
                assert(artists[i as int] == ("ARTIST"@, self.artists@[i as int]@));
                assert(pair_views(out@) =~= head + artists.take(i + 1));
            }
            i = i + 1;
        }
        push_pair(&mut out, "ALBUM", &self.album);
        push_pair(&mut out, "ALBUMARTIST", &self.albumartist);
        let ghost upto_album = head + artists + seq![("ALBUM"@, self.album@), ("ALBUMARTIST"@, self.albumartist@)];
        proof {
            assert(artists.take(i as int) =~= artists);
            assert(pair_views(out@) =~= upto_album);
        }
        if let Some(d) = &self.date {
            push_pair(&mut out, "DATE", d);
        }
        let ghost upto_date = upto_album + pair_if("DATE"@, opt_text(self.date));
        proof {
            assert(pair_views(out@) =~= upto_date);
        }
        if let Some(n) = track_no {
            let text = int_to_text(n);
            push_pair(&mut out, "TRACKNUMBER", &text);
        }
        let ghost upto_no = upto_date + pair_if(
            "TRACKNUMBER"@,
            match track_no {
                Some(n) => Some(int_text(n as int)),
                None => None,
            },
        );
        let ghost more = pair_views(self.tags@).map_values(|p: (Seq<char>, Seq<char>)| (ascii_upper(p.0), p.1));
        let mut j: usize = 0;
        proof {
            assert(pair_views(out@) =~= upto_no + more.take(0));
        }
        while j < self.tags.len()
            invariant
                j <= self.tags@.len(),
                more == pair_views(self.tags@).map_values(|p: (Seq<char>, Seq<char>)| (ascii_upper(p.0), p.1)),
                pair_views(out@) == upto_no + more.take(j as int),
            decreases self.tags@.len() - j,
        {
            let k = upper_text(&self.tags[j].0);
            push_pair(&mut out, &k, &self.tags[j].1);
            proof {
                assert(more[j as int] == (ascii_upper(self.tags@[j as int].0@), self.tags@[j as int].1@));
                assert(pair_views(out@) =~= upto_no + more.take(j + 1));
            }
            j = j + 1;
        }
        proof {
            assert(more.take(j as int) =~= more);
        }
        out
    }

    /// What the path of the track is made of.
    pub fn track_fields(&self, track_no: i64, ext: &str, stem: &str) -> (r: TrackFields)
        ensures
            opt_text(r.category) == opt_text(self.category),
            opt_text(r.albumartist) == Some(self.albumartist@),
            opt_text(r.artist) == (if self.artists@.len() > 0 {
                Some(self.artists@[0]@)
            } else {
                None
            }),
            opt_text(r.album) == Some(self.album@),
            opt_text(r.title) == Some(self.title@),
            r.disc_no == Some(1i64),
            r.track_no == Some(track_no),
            opt_text(r.year) == (match self.date {
                Some(d) => year_text(d@),
                None => None,
            }),
            r.edition is None,
            r.ext@ == ext@,
            r.stem@ == stem@,
    {
        let artist = if self.artists.len() > 0 {
            Some(self.artists[0].clone())
        } else {
            None
        };
        let year = match &self.date {
            Some(d) => year_of(d),
            None => None,
        };
        TrackFields {
            category: self.category.clone(),
            albumartist: Some(self.albumartist.clone()),
            artist,
            album: Some(self.album.clone()),
            title: Some(self.title.clone()),
            disc_no: Some(1),
            track_no: Some(track_no),
            year,
            edition: None,
            ext: ext.to_owned(),
            stem: stem.to_owned(),
        }
    }
}

/// What the plugin answers.
#[derive(Debug)]
pub struct Response {
    pub protocol: u32,
    pub ok: bool,
    pub track: Option<Track>,
    pub reason: Option<String>,
    pub message: Option<String>,
}

/// What the plugin makes of an item.
#[derive(Debug)]
pub enum Outcome {
    Track(Track),
    /// It has no answer. Reasons that are not known pass.
    Declined { reason: String, message: String },
}

impl Outcome {
    /// Whether the item is left out on purpose.
    pub fn is_skip(&self) -> (r: bool)
        ensures
            r == (self matches Outcome::Declined { reason, .. } && reason@ == "skip"@),
    {
        match self {
            Outcome::Declined { reason, .. } => same_text(reason, "skip"),
            Outcome::Track(_) => false,
        }
    }
}

/// What is wrong with the plugin.
#[derive(Debug)]
pub enum ProviderError {
    /// It could not be run.
    Process(String),
    /// Its answer is no JSON.
    Json(String),
    /// It speaks another version of the protocol.
    Protocol(u32),
    /// Its answer breaks the protocol.
    Invalid(String),
}

impl ProviderError {
    /// The text that a user reads.
    pub open spec fn text(&self) -> Seq<char> {
        match self {
            ProviderError::Process(e) => "メタデータプラグインの実行に失敗: "@ + e@,
            ProviderError::Json(e) => "メタデータプラグインの応答が JSON でない: "@ + e@,
            ProviderError::Protocol(p) => "メタデータプラグインのプロトコルが違う: "@ + int_text(*p as int)
                + "（対応: 1）"@,
            ProviderError::Invalid(e) => "メタデータプラグインの応答が不正: "@ + e@,
        }
    }

    /// The text that a user reads.
    pub fn message(&self) -> (r: String)
        ensures
            r@ == self.text(),
    {
        match self {
            ProviderError::Process(e) => concat2("メタデータプラグインの実行に失敗: ", e),
            ProviderError::Json(e) => concat2("メタデータプラグインの応答が JSON でない: ", e),
            ProviderError::Protocol(p) => {
                let n = unsigned_to_text(*p as u64);
                concat3("メタデータプラグインのプロトコルが違う: ", &n, "（対応: 1）")
            },
            ProviderError::Invalid(e) => concat2("メタデータプラグインの応答が不正: ", e),
        }
    }
}

/// How the plugin is run.
#[derive(Debug)]
pub struct MetadataProvider {
    pub program: String,
    pub args: Vec<String>,
    pub timeout_ms: u64,
}

impl MetadataProvider {
    /// The plugin of a command: its program and its arguments. None where the
    /// command is empty.
    pub fn new(command: &Vec<String>, timeout_ms: u64) -> (r: Option<MetadataProvider>)
        ensures
            match r {
                Some(p) => command@.len() > 0 && p.program == command@[0] && p.args@ == command@.skip(1)
                    && p.timeout_ms == timeout_ms,
                None => command@.len() == 0,
            },
    {
        if command.len() == 0 {
            return None;
        }
        let mut args: Vec<String> = Vec::new();
        let mut i: usize = 1;
        while i < command.len()
            invariant
                1 <= i <= command@.len(),
                args@ == command@.subrange(1, i as int),
            decreases command@.len() - i,
        {
            args.push(command[i].clone());
            proof {
                assert(command@.subrange(1, i + 1) =~= command@.subrange(1, i as int).push(command@[i as int]));
            }
            i = i + 1;
        }
        proof {
            assert(command@.subrange(1, i as int) =~= command@.skip(1));
        }
        Some(MetadataProvider { program: command[0].clone(), args, timeout_ms })
    }
}

// ---------------------------------------------------------------- what an answer has to be

/// A tag that the fields of a track write.
pub open spec fn reserved_key(key: Seq<char>) -> bool {
    ||| key == "TITLE"@
    ||| key == "ARTIST"@
    ||| key == "ALBUM"@
    ||| key == "ALBUMARTIST"@
    ||| key == "DATE"@
    ||| key == "TRACKNUMBER"@
    ||| key == "DISCNUMBER"@
    ||| key == "METADATA_BLOCK_PICTURE"@
    ||| key == SOURCE_URL_KEY@
}

fn is_reserved_key(key: &str) -> (r: bool)
    ensures
        r == reserved_key(key@),
{
    same_text(key, "TITLE") || same_text(key, "ARTIST") || same_text(key, "ALBUM") || same_text(key, "ALBUMARTIST")
        || same_text(key, "DATE") || same_text(key, "TRACKNUMBER") || same_text(key, "DISCNUMBER")
        || same_text(key, "METADATA_BLOCK_PICTURE") || same_text(key, SOURCE_URL_KEY)
}

/// Some character of `s` is a control character.
pub open spec fn has_control(s: Seq<char>) -> bool {
    exists|i: int| 0 <= i < s.len() && is_control(#[trigger] s[i])
}

fn holds_control(s: &str) -> (r: bool)
    ensures
        r == has_control(s@),
{
    let chars = chars_of(s);
    let mut i: usize = 0;
    while i < chars.len()
        invariant
            i <= chars@.len(),
            chars@ == s@,
            forall|k: int| 0 <= k < i ==> !is_control(#[trigger] s@[k]),
        decreases chars@.len() - i,
    {
        if control(chars[i]) {
            proof {
                assert(is_control(s@[i as int]));
            }
            return true;
        }
        i = i + 1;
    }
    false
}

/// What is wrong with a further tag. `loudness` are the keys of loudness tags.
pub open spec fn tag_fault(k: Seq<char>, v: Seq<char>, loudness: Seq<Seq<char>>) -> Option<Seq<char>> {
    let key = capital_text(trimmed(k));
    if key.len() == 0 {
        Some("tags のキー"@ + " が空"@)
    } else if !tag_key_chars(key) {
        Some("tags のキーに使えない文字がある: "@ + quoted_text(k))
    } else if reserved_key(key) || key == PICTURE_KEY@ || loudness.contains(key) {
        Some(
            "tags に spindle が決めるキーがある: "@ + key
                + "（track の各フィールド / 画像 / ReplayGain は spindle が書く）"@,
        )
    } else if is_blank(v) || has_control(v) {
        Some("tags の値が空か制御文字を含む: "@ + key)
    } else {
        None
    }
}

fn find_tag_fault(k: &str, v: &str, loudness: &Vec<String>) -> (r: Option<String>)
    ensures
        opt_text(r) == tag_fault(k@, v@, texts(loudness@)),
{
    let t = trim(k);
    let key = to_capitals(&t);
    if key.as_str().is_empty() {
        return Some(concat2("tags のキー", " が空"));
    }
    if !has_tag_key_chars(&key) {
        let q = quoted(k);
        return Some(concat2("tags のキーに使えない文字がある: ", &q));
    }
    if is_reserved_key(&key) || same_text(&key, PICTURE_KEY) || has_member(loudness, &key) {
        return Some(
            concat3(
                "tags に spindle が決めるキーがある: ",
                &key,
                "（track の各フィールド / 画像 / ReplayGain は spindle が書く）",
            ),
        );
    }
    if blank(v) || holds_control(v) {
        return Some(concat2("tags の値が空か制御文字を含む: ", &key));
    }
    None
}

/// The fault of the first of the tags that has one.
pub open spec fn first_tag_fault(tags: Seq<(Seq<char>, Seq<char>)>, loudness: Seq<Seq<char>>) -> Option<Seq<char>>
    decreases tags.len(),
{
    if tags.len() == 0 {
        None
    } else {
        match tag_fault(tags[0].0, tags[0].1, loudness) {
            Some(e) => Some(e),
            None => first_tag_fault(tags.drop_first(), loudness),
        }
    }
}

/// Some of the texts is blank.
pub open spec fn any_blank(v: Seq<Seq<char>>) -> bool {
    exists|i: int| 0 <= i < v.len() && is_blank(#[trigger] v[i])
}

fn holds_blank(v: &Vec<String>) -> (r: bool)
    ensures
        r == any_blank(texts(v@)),
{
    let ghost t = texts(v@);
    let mut i: usize = 0;
    while i < v.len()
        invariant
            i <= v@.len(),
            t == texts(v@),
            forall|k: int| 0 <= k < i ==> !is_blank(#[trigger] t[k]),
        decreases v@.len() - i,
    {
        if blank(&v[i]) {
            proof {
                assert(is_blank(t[i as int]));
            }
            return true;
        }
        i = i + 1;
    }
    false
}

/// What is wrong with a track, none where nothing is. `clean`: its category may
/// stand in a path as it is.
pub open spec fn track_fault(t: Track, loudness: Seq<Seq<char>>, clean: bool) -> Option<Seq<char>> {
    if is_blank(t.title@) {
        Some("title"@ + " が空"@)
    } else if is_blank(t.albumartist@) {
        Some("albumartist"@ + " が空"@)
    } else if is_blank(t.album@) {
        Some("album"@ + " が空"@)
    } else if t.artists@.len() == 0 || any_blank(texts(t.artists@)) {
        Some("artists"@ + " が空"@)
    } else if t.category is Some && is_blank(t.category->0@) {
        Some("category"@ + " が空"@)
    } else if t.category is Some && (trimmed(t.category->0@) != t.category->0@ || !clean) {
        Some(
            "category がディレクトリ名として不正: "@ + quoted_text(t.category->0@)
                + "（前後の空白、`/` 等の禁止文字、末尾のドット、予約名は不可）"@,
        )
    } else if t.date is Some && !valid_date(t.date->0@) {
        Some("date の形が不正: "@ + t.date->0@ + "（YYYY / YYYY-MM / YYYY-MM-DD）"@)
    } else {
        first_tag_fault(pair_views(t.tags@), loudness)
    }
}

/// Whether a track can be taken over: nothing that has to be said is blank, its
/// category may stand in a path, its date is one, and its further tags are
/// neither reserved nor ill-formed. `loudness` are the keys of loudness tags;
/// `clean` says that the category stands in a path as it is.
pub fn validate(t: &Track, loudness: &Vec<String>, clean: bool) -> (r: Result<(), ProviderError>)
    ensures
        match r {
            Ok(()) => track_fault(*t, texts(loudness@), clean) is None,
            Err(e) => e matches ProviderError::Invalid(m) && track_fault(*t, texts(loudness@), clean) == Some(m@),
        },
{
    if blank(&t.title) {
        return Err(ProviderError::Invalid(concat2("title", " が空")));
    }
    if blank(&t.albumartist) {
        return Err(ProviderError::Invalid(concat2("albumartist", " が空")));
    }
    if blank(&t.album) {
        return Err(ProviderError::Invalid(concat2("album", " が空")));
    }
    if t.artists.len() == 0 || holds_blank(&t.artists) {
        return Err(ProviderError::Invalid(concat2("artists", " が空")));
    }
    if let Some(c) = &t.category {
        if blank(c) {
            return Err(ProviderError::Invalid(concat2("category", " が空")));
        }
        let trimmed_name = trim(c);
        if !same_text(&trimmed_name, c) || !clean {
            let q = quoted(c);
            return Err(
                ProviderError::Invalid(
                    concat3(
                        "category がディレクトリ名として不正: ",
                        &q,
                        "（前後の空白、`/` 等の禁止文字、末尾のドット、予約名は不可）",
                    ),
                ),
            );
        }
    }
    if let Some(d) = &t.date {
        if !is_valid_date(d) {
            return Err(
                ProviderError::Invalid(concat3("date の形が不正: ", d, "（YYYY / YYYY-MM / YYYY-MM-DD）")),
            );
        }
    }
    let ghost p = pair_views(t.tags@);
    let ghost l = texts(loudness@);
    let ghost fault = track_fault(*t, l, clean);
    let mut i: usize = 0;
    proof {
        assert(p.skip(0) =~= p);
    }
    while i < t.tags.len()
        invariant
            i <= t.tags@.len(),
            p == pair_views(t.tags@),
            l == texts(loudness@),
            fault == track_fault(*t, l, clean),
            fault == first_tag_fault(p.skip(i as int), l),
        decreases t.tags@.len() - i,
    {
        proof {
            assert(p.skip(i as int)[0] == (t.tags@[i as int].0@, t.tags@[i as int].1@));
            assert(p.skip(i as int).drop_first() =~= p.skip(i + 1));
        }
        if let Some(e) = find_tag_fault(&t.tags[i].0, &t.tags[i].1, loudness) {
            return Err(ProviderError::Invalid(e));
        }
        i = i + 1;
    }
    Ok(())
}

/// A text that says something.
pub open spec fn said(o: Option<String>) -> bool {
    o is Some && !is_blank(o->0@)
}

fn is_said(o: &Option<String>) -> (r: bool)
    ensures
        r == said(*o),
{
    match o {
        Some(s) => !blank(s),
        None => false,
    }
}

/// What is wrong with an answer, none where nothing is.
pub open spec fn response_fault(res: Response, loudness: Seq<Seq<char>>, clean: bool) -> Option<Seq<char>> {
    if !res.ok {
        if !said(res.reason) {
            Some("ok: false なのに reason が無い"@)
        } else if !said(res.message) {
            Some("ok: false なのに message が無い"@)
        } else {
            None
        }
    } else {
        match res.track {
            None => Some("ok なのに track が無い"@),
            Some(t) => track_fault(t, loudness, clean),
        }
    }
}

/// What an answer means. An answer in another protocol, one that lacks what it
/// has to say, and a track that cannot be taken over are faults of the plugin;
/// an answer that declines is none.
pub fn read_response(res: Response, loudness: &Vec<String>, clean: bool) -> (r: Result<Outcome, ProviderError>)
    ensures
        res.protocol != PROTOCOL ==> r == Err::<Outcome, ProviderError>(ProviderError::Protocol(res.protocol)),
        res.protocol == PROTOCOL ==> match response_fault(res, texts(loudness@), clean) {
            Some(e) => r matches Err(ProviderError::Invalid(m)) && m@ == e,
            None => if res.ok {
                r == Ok::<Outcome, ProviderError>(Outcome::Track(res.track->0))
            } else {
                r == Ok::<Outcome, ProviderError>(
                    Outcome::Declined { reason: res.reason->0, message: res.message->0 },
                )
            },
        },
{
    if res.protocol != PROTOCOL {
        return Err(ProviderError::Protocol(res.protocol));
    }
    if !res.ok {
        if !is_said(&res.reason) {
            return Err(ProviderError::Invalid("ok: false なのに reason が無い".to_owned()));
        }
        if !is_said(&res.message) {
            return Err(ProviderError::Invalid("ok: false なのに message が無い".to_owned()));
        }
        return match (res.reason, res.message) {
            (Some(reason), Some(message)) => Ok(Outcome::Declined { reason, message }),
            _ => Err(ProviderError::Invalid(String::new())),
        };
    }
    match res.track {
        None => Err(ProviderError::Invalid("ok なのに track が無い".to_owned())),
        Some(t) => match validate(&t, loudness, clean) {
            Ok(()) => Ok(Outcome::Track(t)),
            Err(e) => Err(e),
        },
    }
}

/// A track that is taken over names an artist, its date is one, and none of its
/// further tags is blank or one that its fields write.
pub proof fn law_taken_track_is_complete(t: Track, loudness: Seq<Seq<char>>, clean: bool)
    requires
        track_fault(t, loudness, clean) is None,
    ensures
        t.artists@.len() > 0,
        t.date matches Some(d) ==> valid_date(d@),
        forall|i: int|
            0 <= i < t.tags@.len() ==> !reserved_key(capital_text(trimmed((#[trigger] t.tags@[i]).0@))) && !is_blank(
                t.tags@[i].1@,
            ),
{
    let p = pair_views(t.tags@);
    lemma_no_tag_fault(p, loudness);
    assert forall|i: int| 0 <= i < t.tags@.len() implies !reserved_key(
        capital_text(trimmed((#[trigger] t.tags@[i]).0@)),
    ) && !is_blank(t.tags@[i].1@) by {
        assert(p[i] == (t.tags@[i].0@, t.tags@[i].1@));
        assert(tag_fault(p[i].0, p[i].1, loudness) is None);
    }
}

proof fn lemma_no_tag_fault(tags: Seq<(Seq<char>, Seq<char>)>, loudness: Seq<Seq<char>>)
    requires
        first_tag_fault(tags, loudness) is None,
    ensures
        forall|i: int| 0 <= i < tags.len() ==> tag_fault((#[trigger] tags[i]).0, tags[i].1, loudness) is None,
    decreases tags.len(),
{
    if tags.len() > 0 {
        lemma_no_tag_fault(tags.drop_first(), loudness);
        assert forall|i: int| 0 <= i < tags.len() implies tag_fault((#[trigger] tags[i]).0, tags[i].1, loudness) is None by {
            if i > 0 {
                assert(tags.drop_first()[i - 1] == tags[i]);
            }
        }
    }
}

/// The tags of a track are those that the plugin gives: its title, each of its artists, its album with the artist
/// of it, its date, its number and each further tag, with its key in capitals.
pub proof fn law_tags_of_a_track(t: Track, no: Option<i64>, i: int)
    ensures
        tags_of(t, no)[0] == ("TITLE"@, t.title@),
        0 <= i < t.artists@.len() ==> tags_of(t, no)[1 + i] == ("ARTIST"@, t.artists@[i]@),
        tags_of(t, no)[1 + t.artists@.len() as int] == ("ALBUM"@, t.album@),
        tags_of(t, no)[2 + t.artists@.len() as int] == ("ALBUMARTIST"@, t.albumartist@),
        t.date matches Some(d) ==> tags_of(t, no)[3 + t.artists@.len() as int] == ("DATE"@, d@),
        t.date is None && no is Some ==> tags_of(t, no)[3 + t.artists@.len() as int] == ("TRACKNUMBER"@, int_text(no->0 as int)),
        t.date is Some && no is Some ==> tags_of(t, no)[4 + t.artists@.len() as int] == ("TRACKNUMBER"@, int_text(no->0 as int)),
        tags_of(t, no).len() == 3 + t.artists@.len() + (if t.date is Some { 1int } else { 0int }) + (if no is Some { 1int } else {
            0int
        }) + t.tags@.len(),
        0 <= i < t.tags@.len() ==> tags_of(t, no)[tags_of(t, no).len() - t.tags@.len() + i] == (
            ascii_upper(t.tags@[i].0@),
            t.tags@[i].1@,
        ),
{
}

/// The tags that no plugin may set: those that the fields of a track stand for, pictures, and the address of its
/// source.
pub proof fn law_reserved_keys(key: Seq<char>)
    ensures
        reserved_key(key) <==> seq![
            "TITLE"@,
            "ARTIST"@,
            "ALBUM"@,
            "ALBUMARTIST"@,
            "DATE"@,
            "TRACKNUMBER"@,
            "DISCNUMBER"@,
            "METADATA_BLOCK_PICTURE"@,
            "SOURCE_URL"@,
        ].contains(key),
{
    let all = seq![
        "TITLE"@,
        "ARTIST"@,
        "ALBUM"@,
        "ALBUMARTIST"@,
        "DATE"@,
        "TRACKNUMBER"@,
        "DISCNUMBER"@,
        "METADATA_BLOCK_PICTURE"@,
        "SOURCE_URL"@,
    ];
    assert(all[0] == "TITLE"@ && all[1] == "ARTIST"@ && all[2] == "ALBUM"@ && all[3] == "ALBUMARTIST"@ && all[4]
        == "DATE"@ && all[5] == "TRACKNUMBER"@ && all[6] == "DISCNUMBER"@ && all[7] == "METADATA_BLOCK_PICTURE"@
        && all[8] == "SOURCE_URL"@);
}

/// A tag of a plugin is accepted where its key is one, no other part sets it, and its value says something without
/// control characters; and only there.
pub proof fn law_accepted_tags(k: Seq<char>, v: Seq<char>, loudness: Seq<Seq<char>>)
    ensures
        ({
            let key = capital_text(trimmed(k));
            tag_fault(k, v, loudness) is None <==> key.len() > 0 && tag_key_chars(key) && !reserved_key(key) && key
                != "PICTURE"@ && !loudness.contains(key) && trimmed(v).len() > 0 && (forall|i: int|
                0 <= i < v.len() ==> !is_control(#[trigger] v[i]))
        }),
{
}

/// A track is accepted where it has a title, an artist, an album and the artist of it, none of them blank, its
/// category is the name of a directory, its date is one, and all of its further tags are accepted; and only
/// there.
pub proof fn law_accepted_tracks(t: Track, loudness: Seq<Seq<char>>, clean: bool)
    ensures
        track_fault(t, loudness, clean) is None <==> {
            &&& !is_blank(t.title@)
            &&& !is_blank(t.albumartist@)
            &&& !is_blank(t.album@)
            &&& t.artists@.len() > 0
            &&& (forall|i: int| 0 <= i < t.artists@.len() ==> !is_blank((#[trigger] t.artists@[i])@))
            &&& (t.category matches Some(c) ==> !is_blank(c@) && trimmed(c@) == c@ && clean)
            &&& (t.date matches Some(d) ==> valid_date(d@))
            &&& (forall|i: int|
                0 <= i < t.tags@.len() ==> tag_fault((#[trigger] t.tags@[i]).0@, t.tags@[i].1@, loudness) is None)
        },
{
    let a = texts(t.artists@);
    assert(a.len() == t.artists@.len());
    assert forall|i: int| 0 <= i < t.artists@.len() implies (#[trigger] a[i]) == t.artists@[i]@ by {}
    if any_blank(a) {
        let i = choose|i: int| 0 <= i < a.len() && is_blank(#[trigger] a[i]);
        assert(is_blank(t.artists@[i]@));
    } else {
        assert forall|i: int| 0 <= i < t.artists@.len() implies !is_blank((#[trigger] t.artists@[i])@) by {
            assert(!is_blank(a[i]));
        }
    }
    let p = pair_views(t.tags@);
    assert forall|i: int| 0 <= i < t.tags@.len() implies (#[trigger] p[i]) == (t.tags@[i].0@, t.tags@[i].1@) by {}
    lemma_all_tags(p, loudness);
    if first_tag_fault(p, loudness) is None {
        assert forall|i: int| 0 <= i < t.tags@.len() implies tag_fault(
            (#[trigger] t.tags@[i]).0@,
            t.tags@[i].1@,
            loudness,
        ) is None by {
            assert(tag_fault(p[i].0, p[i].1, loudness) is None);
        }
    } else {
        let i = choose|i: int| 0 <= i < p.len() && tag_fault((#[trigger] p[i]).0, p[i].1, loudness) is Some;
        assert(tag_fault(t.tags@[i].0@, t.tags@[i].1@, loudness) is Some);
    }
}

proof fn lemma_all_tags(tags: Seq<(Seq<char>, Seq<char>)>, loudness: Seq<Seq<char>>)
    ensures
        first_tag_fault(tags, loudness) is None ==> (forall|i: int|
            0 <= i < tags.len() ==> tag_fault((#[trigger] tags[i]).0, tags[i].1, loudness) is None),
        first_tag_fault(tags, loudness) is Some ==> (exists|i: int|
            0 <= i < tags.len() && tag_fault((#[trigger] tags[i]).0, tags[i].1, loudness) is Some),
    decreases tags.len(),
{
    if first_tag_fault(tags, loudness) is None {
        lemma_no_tag_fault(tags, loudness);
    } else if tag_fault(tags[0].0, tags[0].1, loudness) is None {
        let d = tags.drop_first();
        lemma_all_tags(d, loudness);
        let i = choose|i: int| 0 <= i < d.len() && tag_fault((#[trigger] d[i]).0, d[i].1, loudness) is Some;
        assert(tags[i + 1] == d[i]);
    }
}

/// An answer of a plugin is accepted where it gives a track that is accepted, or declines with a reason and a
/// message; and only there.
pub proof fn law_accepted_answers(res: Response, loudness: Seq<Seq<char>>, clean: bool)
    ensures
        res.ok ==> (response_fault(res, loudness, clean) is None <==> (res.track matches Some(t) && track_fault(
            t,
            loudness,
            clean,
        ) is None)),
        !res.ok ==> (response_fault(res, loudness, clean) is None <==> (res.reason matches Some(a) && trimmed(a@).len()
            > 0) && (res.message matches Some(b) && trimmed(b@).len() > 0)),
{
}

} // verus!
