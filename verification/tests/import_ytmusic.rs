use spindle::catalog::TagSet;
use spindle::import::ytmusic::downloader::{
    address_of_entry, archive_file_name, archive_put, count_entry, dashed_date, download_one, group_changes, inbox_dir, inbox_put,
    is_own_product, is_unsupported_url, listing_failed, located_step, new_subscription_ytdl_job, new_ytdl_job, parse_dump,
    plan_download, platform_host, require_webm, subscription_target, tag_changes, BoundAlbum, DownloadError,
    DownloadEvent, DownloadNext, DownloadRequest, DownloadStage, Downloaded, Dump, LocatedStep, PluginReply, PluginStep, PutResult, RawDump, RawEntry, RawFormat,
    SourceLocated, SubscriptionTarget, TargetState, VideoInfo,
};
use spindle::import::ytmusic::metadata::{read_response, validate, Response, PROTOCOL, SOURCE_URL_KEY};
use spindle::import::ytmusic::playlist::{
    parse_playlist_dump, plan_align, watch_url, Availability, BlockReason, LibraryRow, PlaylistEntry, RawPlaylist,
    RawPlaylistEntry, UnavailableKind,
};
use spindle::import::ytmusic::sidecar::{FileEntry, Sidecar, SidecarError, SIDECAR_NAME};
use spindle::import::ytmusic::{MetadataProvider, Outcome, ProviderError, Track};

fn some(s: &str) -> Option<String> {
    Some(s.to_string())
}

fn entry(id: Option<&str>, url: Option<&str>, page: Option<&str>, key: Option<&str>) -> RawEntry {
    let o = |s: Option<&str>| s.map(|x| x.to_string());
    RawEntry { id: o(id), url: o(url), webpage_url: o(page), ie_key: o(key) }
}

fn raw(kind: Option<&str>) -> RawDump {
    RawDump {
        kind: kind.map(|s| s.to_string()),
        id: some("v1"),
        webpage_url: some("https://www.youtube.com/watch?v=v1"),
        uploader: some("up"),
        channel: some("Ch"),
        title: some("Song"),
        upload_date: some("20240531"),
        duration_ms: Some(1000),
        formats: vec![RawFormat { ext: some("webm"), acodec: some("opus") }],
        entries: vec![],
    }
}

fn video() -> VideoInfo {
    match parse_dump(raw(None)) {
        Ok(Dump::Video(v)) => v,
        other => panic!("{other:?}"),
    }
}

fn a_track() -> Track {
    Track {
        title: "Song".to_string(),
        artists: vec!["a".to_string(), "b".to_string()],
        albumartist: "aa".to_string(),
        album: "al".to_string(),
        category: some("jazz"),
        date: some("2024-05-31"),
        tags: vec![("GENRE".to_string(), "g".to_string())],
    }
}

#[test]
fn downloads_are_queued_once_for_an_address() {
    let j = new_ytdl_job("https://x");
    assert_eq!((j.dedup_key.as_str(), j.subscription_id), ("ytdl:https://x", None));
    let j = new_subscription_ytdl_job("https://x", 4, 2);
    assert_eq!((j.subscription_id, j.position), (Some(4), Some(2)));
    assert_eq!(DownloadRequest::url("https://x").position, None);
    assert_eq!(SIDECAR_NAME, "spindle-inbox.json");
}

#[test]
fn a_listing_is_a_video_or_a_playlist() {
    let v = video();
    assert_eq!((v.id.as_str(), v.title.as_str(), v.has_webm_audio), ("v1", "Song", true));
    let mut p = raw(Some("playlist"));
    p.entries = vec![
        entry(Some("a"), Some("https://www.youtube.com/watch?v=a"), None, None),
        entry(Some("b"), None, None, some("Youtube").as_deref()),
    ];
    match parse_dump(p) {
        Ok(Dump::Playlist(urls)) => assert_eq!(urls.len(), 2),
        other => panic!("{other:?}"),
    }
    let mut no_id = raw(None);
    no_id.id = None;
    assert!(parse_dump(no_id).is_err());
}

#[test]
fn the_host_of_an_address_tells_the_platform() {
    assert!(platform_host(&some("www.youtube.com")) && platform_host(&some("youtu.be")));
    assert!(!platform_host(&some("example.com")) && !platform_host(&None));
    let e = entry(Some("abc"), some("https://WWW.YouTube.com/shorts/abc").as_deref(), None, None);
    assert_eq!(e.canonical_url(), Some(watch_url("abc")));
    let other = entry(Some("abc"), some("https://example.com/abc").as_deref(), None, None);
    assert_eq!(other.canonical_url(), some("https://example.com/abc"));
    let r = address_of_entry(
        entry(Some("abc"), some("https://example.com/abc").as_deref(), None, None),
        &some("example.com"),
        &None,
    );
    assert_eq!(r, some("https://example.com/abc"));
}

#[test]
fn a_video_names_its_files() {
    let v = video();
    assert_eq!(dashed_date("20240531"), "2024-05-31");
    assert_eq!(v.channel_key(), "up");
    assert_eq!(v.item().title, "Song");
    let n = v.inbox_file_name("Song", "v1", 255);
    assert!(n.contains("v1") && n.ends_with(".opus"), "{n}");
    let long = v.inbox_file_name(&"あ".repeat(200), "v1", 255);
    assert!(long.len() <= 255 && long.contains("v1"));
    assert!(archive_file_name("v1").starts_with("v1"));
    assert_eq!(inbox_dir(Some(("aa", "al")), "ch"), "youtube/aa/al");
    assert_eq!(inbox_dir(None, "ch"), "youtube/_unmatched/ch");
}

#[test]
fn tags_of_a_download_are_grouped_by_key() {
    let p = |k: &str, v: &str| (k.to_string(), v.to_string());
    let g = group_changes(vec![p("A", "1"), p("B", "2"), p("A", "3")]);
    assert_eq!(g.len(), 2);
    assert_eq!(g[0].values, Some(vec!["1".to_string(), "3".to_string()]));
    let c = tag_changes(&Some(a_track()), &video(), Some(4));
    assert!(c.iter().any(|x| x.key == "ARTIST" && x.values == Some(vec!["a".to_string(), "b".to_string()])));
    assert!(c.iter().any(|x| x.key == "TRACKNUMBER" && x.values == Some(vec!["4".to_string()])));
    assert_eq!(c.last().map(|x| x.key.as_str()), Some(SOURCE_URL_KEY));
    let c = tag_changes(&None, &video(), None);
    assert_eq!(c[0].key, "TITLE");
    assert_eq!(c.len(), 2);
}

#[test]
fn faults_of_a_listing_are_told_apart() {
    assert!(is_unsupported_url("ERROR: Unsupported URL: x") && is_unsupported_url("x is not a valid URL"));
    assert!(!is_unsupported_url("HTTP Error 503"));
    assert!(matches!(listing_failed("ERROR: Unsupported URL: x"), DownloadError::Fatal(_)));
    assert!(matches!(listing_failed("HTTP Error 503"), DownloadError::Failed(_)));
    assert!(DownloadError::Fatal("x".to_string()).message().contains("x"));
    assert!(!DownloadError::Cancelled.message().is_empty());
    assert_eq!(count_entry(1, 1, true, false), (1, 2));
    assert_eq!(count_entry(1, 1, false, true), (2, 1));
}

#[test]
fn a_reply_of_the_plugin_decides_where_a_video_goes() {
    let req = DownloadRequest::url("https://x");
    let p = plan_download(&video(), &req, &None, PluginReply::Answer(Outcome::Track(a_track())));
    assert!(matches!(p, PluginStep::Stage(s) if s.verdict == "ok" && s.track.is_some() && s.category == some("jazz")));
    let d = |reason: &str| PluginReply::Answer(Outcome::Declined { reason: reason.to_string(), message: "m".to_string() });
    let p = plan_download(&video(), &req, &None, d("unmatched"));
    assert!(matches!(p, PluginStep::Stage(s) if s.verdict == "unmatched" && s.track.is_none() && s.title == "Song"));
    assert!(matches!(plan_download(&video(), &req, &None, d("skip")), PluginStep::Skip { message } if message == "m"));
    assert!(matches!(
        plan_download(&video(), &req, &None, PluginReply::Cancelled),
        PluginStep::Stop(DownloadError::Cancelled)
    ));
    assert!(matches!(
        plan_download(&video(), &req, &None, PluginReply::Broken("x".to_string())),
        PluginStep::Stop(DownloadError::Fatal(m)) if m == "x"
    ));
}

#[test]
fn a_subscription_goes_to_its_album() {
    let sub = || SubscriptionTarget {
        albumartist: "x".to_string(),
        album: "y".to_string(),
        category: None,
        align: true,
    };
    assert_eq!(subscription_target(sub(), None).album, "y");
    let bound = BoundAlbum { albumartist: some("p"), album: some("q"), category: some("c") };
    let t = subscription_target(sub(), Some(bound));
    assert_eq!((t.albumartist.as_str(), t.album.as_str(), t.category), ("p", "q", some("c")));
}

#[test]
fn a_video_is_downloaded_once() {
    assert!(matches!(located_step(None, "t", TargetState::Gone), LocatedStep::Download));
    assert!(matches!(
        located_step(Some(SourceLocated::Library("p".to_string())), "t", TargetState::Gone),
        LocatedStep::End(Downloaded::AlreadyImported { .. })
    ));
    let own = TagSet { items: vec![(SOURCE_URL_KEY.to_string(), "u".to_string())] };
    assert!(is_own_product(&Some(own), "u") && !is_own_product(&None, "u"));
    assert!(require_webm(&video()).is_ok());
    let mut v = video();
    v.has_webm_audio = false;
    assert!(matches!(require_webm(&v), Err(DownloadError::Fatal(_))));
    assert!(archive_put(PutResult::Placed).is_ok() && archive_put(PutResult::Exists).is_ok());
    assert!(matches!(archive_put(PutResult::Failed("x".to_string())), Err(DownloadError::Failed(_))));
    assert!(inbox_put(PutResult::Placed, false, "t").is_ok() && inbox_put(PutResult::Exists, true, "t").is_ok());
    assert!(inbox_put(PutResult::Exists, false, "t").is_err());
}

#[test]
fn a_taken_track_is_complete() {
    let loudness = vec!["REPLAYGAIN_TRACK_GAIN".to_string()];
    assert!(validate(&a_track(), &loudness, true).is_ok());
    let mut t = a_track();
    t.title = " ".to_string();
    assert!(matches!(validate(&t, &loudness, true), Err(ProviderError::Invalid(_))));
    let mut t = a_track();
    t.artists = vec![];
    assert!(validate(&t, &loudness, true).is_err());
    let mut t = a_track();
    t.date = some("someday");
    assert!(validate(&t, &loudness, true).is_err());
    assert!(a_track().tags(Some(4)).contains(&("TRACKNUMBER".to_string(), "4".to_string())));
    assert!(!a_track().tags(None).iter().any(|p| p.0 == "TRACKNUMBER"));
    assert_eq!(a_track().track_fields(4, "opus", "s").track_no, Some(4));
}

#[test]
fn a_reply_is_read() {
    let res = |protocol, ok, track, reason: Option<&str>| Response {
        protocol,
        ok,
        track,
        reason: reason.map(|s| s.to_string()),
        message: some("m"),
    };
    assert!(matches!(read_response(res(PROTOCOL, true, Some(a_track()), None), &vec![], true), Ok(Outcome::Track(_))));
    assert!(matches!(read_response(res(PROTOCOL + 1, true, None, None), &vec![], true), Err(ProviderError::Protocol(_))));
    assert!(matches!(read_response(res(PROTOCOL, true, None, None), &vec![], true), Err(ProviderError::Invalid(_))));
    let o = read_response(res(PROTOCOL, false, None, Some("skip")), &vec![], true).unwrap();
    assert!(o.is_skip());
    assert!(ProviderError::Process("x".to_string()).message().contains("x"));
    assert!(ProviderError::Json("x".to_string()).message().contains("x"));
    assert!(ProviderError::Protocol(7).message().contains("7"));
    let p = MetadataProvider::new(&vec!["prog".to_string(), "arg".to_string()], 5).unwrap();
    assert_eq!((p.program.as_str(), p.args, p.timeout_ms), ("prog", vec!["arg".to_string()], 5));
    assert!(MetadataProvider::new(&vec![], 5).is_none());
}

fn listed(position: u32, id: &str) -> PlaylistEntry {
    PlaylistEntry {
        position,
        id: id.to_string(),
        url: watch_url(id),
        title: None,
        availability: Availability::Available,
    }
}

fn row(track_id: i64, no: Option<i64>, id: Option<&str>) -> LibraryRow {
    LibraryRow { track_id, disc_no: None, track_no: no, source_url: id.map(watch_url) }
}

#[test]
fn a_playlist_is_read() {
    let raw = RawPlaylist {
        kind: some("playlist"),
        title: some("p"),
        playlist_count: Some(5),
        entries: vec![
            RawPlaylistEntry { id: some("a"), title: some("x") },
            RawPlaylistEntry { id: some("b"), title: some("[Private video]") },
            RawPlaylistEntry { id: some("c"), title: some("[Deleted video]") },
        ],
    };
    let d = parse_playlist_dump(raw).unwrap();
    assert_eq!(d.entries.iter().map(|e| e.position).collect::<Vec<_>>(), vec![1, 2, 3]);
    assert!(matches!(d.entries[1].availability, Availability::Unavailable(UnavailableKind::Private)));
    assert!(matches!(d.entries[2].availability, Availability::Unavailable(UnavailableKind::Deleted)));
    assert!(d.truncated());
    assert_eq!(watch_url("a"), "https://www.youtube.com/watch?v=a");
}

#[test]
fn an_album_is_aligned_with_its_playlist() {
    let entries = vec![listed(1, "a"), listed(2, "b"), listed(3, "c"), listed(4, "d")];
    let rows = vec![row(10, Some(2), Some("a")), row(20, Some(1), Some("b")), row(30, Some(3), Some("c")), row(40, Some(9), None)];
    let p = plan_align(&entries, &rows);
    assert_eq!(p.moves.iter().map(|m| (m.track_id, m.target_no)).collect::<Vec<_>>(), vec![(10, 1), (20, 2)]);
    assert_eq!((p.unchanged, p.missing.clone(), p.outsiders, p.unnumbered), (1, vec![4], 0, 1));
    assert!(!p.is_noop());
    let settled = vec![row(10, Some(1), Some("a")), row(20, Some(2), Some("b"))];
    assert!(plan_align(&entries[..2].iter().map(|e| listed(e.position, &e.id)).collect(), &settled).is_noop());
}

#[test]
fn a_number_of_another_track_stays() {
    let p = plan_align(&vec![listed(1, "a")], &vec![row(10, Some(5), Some("a")), row(40, Some(1), None)]);
    assert!(p.moves.is_empty());
    assert!(matches!(p.blocked[0].reason, BlockReason::NumberTaken { by_track_id: 40 }));
    let p = plan_align(&vec![listed(1, "a")], &vec![row(10, Some(5), Some("a")), row(11, Some(6), Some("a"))]);
    assert!(p.blocked.iter().all(|b| matches!(b.reason, BlockReason::DuplicateSourceUrl)));
    assert!(!p.blocked.is_empty());
}

#[test]
fn aligning_again_leaves_the_rest_as_it_was() {
    let entries = || vec![listed(1, "a"), listed(2, "b"), listed(3, "c"), listed(4, "d")];
    let rows = |a, b| {
        vec![row(10, Some(a), Some("a")), row(20, Some(b), Some("b")), row(30, Some(9), Some("c")), row(40, Some(3), None)]
    };
    let first = plan_align(&entries(), &rows(2, 1));
    assert_eq!(first.moves.iter().map(|m| (m.track_id, m.target_no)).collect::<Vec<_>>(), vec![(10, 1), (20, 2)]);
    let again = plan_align(&entries(), &rows(1, 2));
    assert!(again.moves.is_empty());
    assert_eq!(again.unchanged, first.unchanged + 2);
    assert_eq!(
        again.blocked.iter().map(|b| b.track_id).collect::<Vec<_>>(),
        first.blocked.iter().map(|b| b.track_id).collect::<Vec<_>>()
    );
    assert_eq!((again.missing, again.outsiders, again.unnumbered), (first.missing, first.outsiders, first.unnumbered));
}

#[test]
fn downloads_leave_a_short_record() {
    let note = |url: &str| FileEntry {
        source: "youtube".to_string(),
        url: some(url),
        channel: None,
        verdict: "ok".to_string(),
        message: None,
    };
    let mut s = Sidecar::new();
    s.upsert(Some("pop"), "b.opus", note("u1"));
    s.upsert(None, "a.opus", note("u2"));
    s.upsert(None, "b.opus", note("u3"));
    assert_eq!(s.category, some("pop"));
    assert_eq!(
        s.files.iter().map(|(n, e)| (n.as_str(), e.url.clone())).collect::<Vec<_>>(),
        vec![("a.opus", some("u2")), ("b.opus", some("u3"))]
    );
    s.version = 2;
    assert!(matches!(Sidecar::parse(Sidecar { version: 3, category: None, files: vec![] }), Err(SidecarError::Version(3))));
    assert!(Sidecar::parse(s.stamped()).is_ok());
}

#[test]
fn a_download_goes_step_by_step() {
    let mut stage = DownloadStage::List;
    let mut steps = 1;
    while let DownloadNext::Go(next) = download_one(stage, DownloadEvent::Done, false) {
        stage = next;
        steps += 1;
    }
    assert_eq!((stage, steps), (DownloadStage::Finish, 10));
    assert!(matches!(download_one(DownloadStage::Finish, DownloadEvent::Done, true), DownloadNext::Staged));
    for s in [DownloadStage::List, DownloadStage::Locate, DownloadStage::Fetch, DownloadStage::Tag] {
        assert!(matches!(download_one(s, DownloadEvent::Done, true), DownloadNext::Stop(DownloadError::Cancelled)));
    }
    assert!(matches!(
        download_one(DownloadStage::Archive, DownloadEvent::Done, true),
        DownloadNext::Go(DownloadStage::Inbox)
    ));
    assert!(matches!(
        download_one(DownloadStage::Locate, DownloadEvent::InPlace, true),
        DownloadNext::Go(DownloadStage::Finish)
    ));
    assert!(matches!(
        download_one(DownloadStage::Ask, DownloadEvent::Ends(Downloaded::Skipped { message: "m".to_string() }), false),
        DownloadNext::End(Downloaded::Skipped { message }) if message == "m"
    ));
    assert!(matches!(
        download_one(DownloadStage::Remux, DownloadEvent::Failed(DownloadError::Fatal("x".to_string())), false),
        DownloadNext::Stop(DownloadError::Fatal(m)) if m == "x"
    ));
}
