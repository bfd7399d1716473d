use spindle::catalog::Fingerprint;
use spindle::fsroot::{FileKind, FsError, Stat};
use spindle::import::cover::{
    embeddable, fetch_cd_covers, rip_release_id, store_image, CoverReply, CoverReport, ImageInfo, StoreImageError,
};
use spindle::import::destination::{
    album_is_cd, destination, destination_of, find_file, fits_plain_album, incoming_is_cd, incoming_release_id,
    parse_template, pick_self_album, resolve_template, self_candidates, split_name, tag_changes, track_fields,
    wants_destination, AlbumRow, Destination, FoundAlbum, LayoutKind, SoundMatch,
};
use spindle::import::draft::{is_covered_tag_key, is_locked_tag_key, DraftError, DraftTrack, InboxDraft};
use spindle::import::grouping::group_by_dir;
use spindle::import::inbox::{
    bind_rip, count_item, dir_outcome, drops_stale, embedded_picture, inbox_entry, looks_up_destination, order_by_path,
    picture_open_failed, picture_read_failed, placed_cutoff, propose_draft, rip_mismatch_warning, scan_outcome, source_of, sync_dir,
    sync_item, DirOutcome, FilePicture, InboxEntry, InboxError, ItemState, PictureSearch, ReadFault, ScanOutcome, SeenFile,
};
use spindle::import::numbering::{number_missing, numbering_start};
use spindle::import::place::{
    check_numbers_free, check_placed, cleanup, companion_step, count_removal, create_dirs, discard_entry, discard_item_files,
    disc_mismatch, draft_picture_missing, existing_file, has_front_picture, in_record_order, item_meta, log_path,
    loudness_jobs, may_remove, missing_pictures, no_draft, place_files, place_item, plan_item, plan_release, preview, same_audio,
    sidecar_key, sidecar_rel, sidecar_unchanged, source_type, source_unchanged, subscription_ids, tracks_to_normalize,
    Companion, CompanionStep, DiscardEntry, DiscardFile, DiscardOutcome, LoudnessJob, NumberedRow, PlaceNext, PlaceStage,
    PlacedPicture, Planned, Removal,
};
use spindle::import::placement::{
    find_or_create_album, mb_key, place, register_track, release_key, AlbumDecision, ExistingAlbum, ExistingTrack,
    PlaceEvent, PlaceStep, PlacedFile, PlacementError, TrackDecision,
};
use spindle::import::proposal::{
    artist_values, front_picture, joined_artist, keeps_artists, merge_saved, picture_candidates, picture_hashes,
    proposal, slip_warning, split_once, stat_matches, tag, warnings, FileRow,
};
use spindle::import::propose::{propose, DiscReading};
use spindle::import::sidecar::{FileEntry, MethodReport, RipEntry, RipEntryError, RipReport, Sidecar, SidecarError};
use spindle::import::snapshot::snapshot;

fn some(s: &str) -> Option<String> {
    Some(s.to_string())
}

fn stat(inode: u64) -> Stat {
    Stat { kind: FileKind::File, dev: 1, inode, nlink: 1, size: 10, mtime_ns: 20, ctime_ns: 30 }
}

fn file(path: &str, tags: &[(&str, &str)]) -> FileRow {
    FileRow {
        rel_path: path.to_string(),
        inode: 7,
        size: 10,
        mtime_ns: 20,
        ctime_ns: 30,
        codec: "flac".to_string(),
        lossless: true,
        sample_rate: None,
        bit_depth: None,
        channels: None,
        duration_ms: None,
        tags: tags.iter().map(|(k, v)| (k.to_string(), v.to_string())).collect(),
    }
}

fn track(path: &str, disc_no: u32, track_no: u32) -> DraftTrack {
    DraftTrack {
        rel_path: path.to_string(),
        disc_no,
        track_no,
        title: "t".to_string(),
        artist: String::new(),
        keep_artists: None,
        tags: vec![],
        picture: None,
    }
}

fn draft(tracks: Vec<DraftTrack>) -> InboxDraft {
    InboxDraft {
        category: some("jazz"),
        albumartist: "aa".to_string(),
        album: "al".to_string(),
        date: None,
        tracks,
        album_gain: false,
        release_id: None,
        release_group_id: None,
    }
}

#[test]
fn a_good_draft_has_no_problems() {
    let d = draft(vec![track("a", 1, 1), track("b", 1, 2)]);
    let files = vec!["a".to_string(), "b".to_string()];
    assert!(d.problems(&files).is_empty());
    assert!(d.validate(&files).is_ok());
    assert_eq!(d.disc_count(), 1);
    assert_eq!(d.track_artist(0), "aa");
    assert_eq!(d.year(), None);
}

#[test]
fn every_problem_of_a_draft_is_found() {
    let files = vec!["a".to_string(), "b".to_string(), "z".to_string()];
    let mut d = draft(vec![track("a", 1, 1), track("b", 1, 1), track("b", 0, 3), track("x", 1, 4)]);
    d.category = some(" ");
    d.album = String::new();
    d.albumartist = " ".to_string();
    d.date = some("yesterday");
    d.release_id = some("no");
    d.release_group_id = some("no");
    d.tracks[0].title = String::new();
    d.tracks[0].picture = some("nothing");
    d.tracks[1].tags = vec![("A=B".to_string(), None), ("TITLE".to_string(), None)];
    let p = d.problems(&files);
    let has = |f: &dyn Fn(&DraftError) -> bool| p.iter().any(|e| f(e));
    assert!(has(&|e| matches!(e, DraftError::EmptyAlbum)));
    assert!(has(&|e| matches!(e, DraftError::EmptyAlbumArtist)));
    assert!(has(&|e| matches!(e, DraftError::EmptyCategory)));
    assert!(has(&|e| matches!(e, DraftError::BadDate(s) if s == "yesterday")));
    assert!(has(&|e| matches!(e, DraftError::BadReleaseId(_))));
    assert!(has(&|e| matches!(e, DraftError::BadReleaseGroupId(_))));
    assert!(has(&|e| matches!(e, DraftError::EmptyTitle { rel_path } if rel_path == "a")));
    assert!(has(&|e| matches!(e, DraftError::BadNumber { rel_path } if rel_path == "b")));
    assert!(has(&|e| matches!(e, DraftError::DuplicateNumber { disc_no: 1, track_no: 1 })));
    assert!(has(&|e| matches!(e, DraftError::UnknownFile(s) if s == "x")));
    assert!(has(&|e| matches!(e, DraftError::MissingFile(s) if s == "z")));
    assert!(has(&|e| matches!(e, DraftError::DuplicateFile(s) if s == "b")));
    assert!(has(&|e| matches!(e, DraftError::BadTagKey { key, .. } if key == "A=B")));
    assert!(has(&|e| matches!(e, DraftError::CoveredTagKey { key, .. } if key == "TITLE")));
    assert!(has(&|e| matches!(e, DraftError::BadPicture { .. })));
    assert!(d.validate(&files).is_err());
    assert!(p.iter().all(|e| !e.message().is_empty()));
    assert!(is_covered_tag_key("TITLE") && !is_covered_tag_key("GENRE"));
    assert!(!is_locked_tag_key("GENRE"));
}

#[test]
fn artists_are_joined_and_kept() {
    let tags = vec![("ARTIST".to_string(), "a".to_string()), ("ARTIST".to_string(), "b".to_string())];
    assert_eq!(artist_values(&tags), vec!["a", "b"]);
    assert_eq!(joined_artist(&tags), "a; b");
    assert!(keeps_artists(None, "a", &tags) && !keeps_artists(None, "a; b", &tags));
    assert!(keeps_artists(Some(true), "x", &vec![]));
    assert!(!keeps_artists(Some(false), "a; b", &tags));
    assert_eq!(split_once("1/2/3", '/'), Some(("1".to_string(), "2/3".to_string())));
    assert_eq!(split_once("1", '/'), None);
}

#[test]
fn pictures_of_files_are_found_by_their_digest() {
    let h = "ab".repeat(32);
    let v = format!("image/png:{h}");
    let f = file("a", &[("PICTURE", &v), ("TITLE", "x")]);
    assert_eq!(picture_hashes(&f.tags), vec![("image/png".to_string(), h.clone())]);
    assert_eq!(picture_candidates(&vec![file("b", &[]), f], &h), vec![1]);
    let other = format!("image/png:{}", "cd".repeat(32));
    let mut tags = vec![
        ("PICTURE".to_string(), other),
        ("TITLE".to_string(), "x".to_string()),
        ("PICTURE".to_string(), v.clone()),
    ];
    front_picture(&mut tags, &h);
    let firsts: Vec<&str> = tags.iter().filter(|t| t.0 == "PICTURE").map(|t| t.1.as_str()).collect();
    assert_eq!(firsts[0], v);
    let pics = vec![FilePicture { hash: "x".to_string(), known: true }, FilePicture { hash: h.clone(), known: true }];
    assert_eq!(embedded_picture(&pics, &h), Some(1));
}

#[test]
fn a_proposal_comes_from_tags() {
    let files = vec![
        file("x/1.flac", &[("TITLE", "one"), ("ALBUM", "al"), ("ALBUMARTIST", "aa"), ("TRACKNUMBER", "1"), ("DATE", "2001")]),
        file("x/2.flac", &[("TITLE", "two"), ("ALBUM", "al"), ("ALBUMARTIST", "aa"), ("GENRE", "bebop")]),
    ];
    let d = proposal(&files, &vec![(3, "Jazz".to_string())], &vec![("bebop".to_string(), 3)]);
    assert_eq!((d.album.as_str(), d.albumartist.as_str(), d.date.clone()), ("al", "aa", some("2001")));
    assert_eq!(d.category, some("Jazz"));
    assert_eq!(d.tracks.iter().map(|t| (t.title.as_str(), t.track_no)).collect::<Vec<_>>(), vec![("one", 1), ("two", 0)]);
    assert_eq!(tag(&files[0], "TITLE"), some("one"));
    assert_eq!(tag(&files[0], "GENRE"), None);
    let w = warnings(&files, &d);
    assert_eq!(w.len(), d.problems(&vec!["x/1.flac".to_string(), "x/2.flac".to_string()]).len());
}

#[test]
fn a_saved_draft_wins_over_a_proposal() {
    let mut saved = draft(vec![track("A", 1, 9)]);
    saved.tracks[0].title = "kept".to_string();
    let mut proposed = draft(vec![track("a", 1, 1), track("b", 1, 2)]);
    proposed.album = "other".to_string();
    proposed.release_id = some("r");
    let m = merge_saved(&saved, &proposed);
    assert_eq!(m.album, "al");
    assert_eq!(m.release_id, some("r"));
    assert_eq!(m.tracks.iter().map(|t| (t.title.as_str(), t.track_no)).collect::<Vec<_>>(), vec![("kept", 9), ("t", 2)]);
}

#[test]
fn missing_numbers_are_filled_in() {
    let mut d = draft(vec![track("b", 1, 0), track("c", 1, 2), track("a", 1, 0)]);
    number_missing(&mut d, 1);
    assert_eq!(d.tracks.iter().map(|t| t.track_no).collect::<Vec<_>>(), vec![3, 2, 1]);
    assert_eq!(numbering_start(None), 1);
    assert_eq!(numbering_start(Some(7)), 8);
    assert_eq!(numbering_start(Some(-1)), 1);
}

fn rip() -> RipEntry {
    RipEntry {
        toc: "0:1:2".to_string(),
        metadata_tracks: 2,
        files: vec!["01.flac".to_string(), "02.flac".to_string()],
        log: "rip.log".to_string(),
        report: RipReport { slips: vec![0, 3], crcs: vec![1, 2], ctdb: None, accuraterip: None },
        isrcs: vec![some("I"), None],
        mcn: some("m"),
    }
}

#[test]
fn the_record_of_a_disc_is_checked() {
    assert!(rip().check(Ok(2)).is_ok());
    assert!(matches!(rip().check(Err("bad".to_string())), Err(RipEntryError::Toc(e)) if e == "bad"));
    assert!(matches!(rip().check(Ok(3)), Err(RipEntryError::Count { what, expected: 3, got: 2 }) if what == "files"));
    let mut r = rip();
    r.report.ctdb = Some(MethodReport { verified: true, tracks: 1 });
    assert!(matches!(r.check(Ok(2)), Err(RipEntryError::Count { what, .. }) if what == "ctdb.tracks"));
    let mut r = rip();
    r.files[1] = "a/b".to_string();
    assert!(matches!(r.check(Ok(2)), Err(RipEntryError::BadFileName(n)) if n == "a/b"));
    let mut r = rip();
    r.log = "01.FLAC".to_string();
    let e = r.check(Ok(2)).unwrap_err();
    assert!(matches!(&e, RipEntryError::DuplicateFile(n) if n == "01.FLAC"));
    assert_eq!(e.message(), "ファイル名が重複: 01.FLAC");
    assert_eq!(rip().index_of("02.FLAC"), Some(1));
    assert_eq!(rip().index_of("03.flac"), None);
}

#[test]
fn a_disc_is_bound_to_its_tracks() {
    let d = draft(vec![track("d/02.flac", 2, 1), track("d/01.flac", 2, 2)]);
    let b = bind_rip(&rip(), Ok(2), &d).unwrap();
    assert_eq!((b.index, b.disc_no), (vec![1, 0], 2));
    assert_eq!((b.entry.toc.as_str(), b.entry.files, b.entry.mcn), ("0:1:2", rip().files, some("m")));
    assert_eq!((b.entry.report.slips, b.entry.report.crcs, b.entry.isrcs), (vec![0, 3], vec![1, 2], vec![some("I"), None]));
    let e = bind_rip(&rip(), Ok(2), &draft(vec![track("d/01.flac", 1, 1)])).unwrap_err();
    assert_eq!(e, "件のファイル数（1）が記録のトラック数（2）と違う");
    let e = bind_rip(&rip(), Ok(2), &draft(vec![track("d/01.flac", 1, 1), track("d/03.flac", 1, 2)])).unwrap_err();
    assert_eq!(e, "記録に無いファイル: d/03.flac");
    let e = bind_rip(&rip(), Ok(2), &draft(vec![track("d/01.flac", 1, 1), track("e/01.flac", 1, 2)])).unwrap_err();
    assert_eq!(e, "記録の同じトラックに 2 本が対応する: e/01.flac");
    let e = bind_rip(&rip(), Ok(2), &draft(vec![track("d/01.flac", 1, 1), track("d/02.flac", 2, 2)])).unwrap_err();
    assert_eq!(e, "1 枚の吸い出しなのにディスク番号が揃っていない");
}

#[test]
fn slips_are_warned_of_unless_the_disc_is_verified() {
    let w = slip_warning(&rip(), &vec![2, 3]).unwrap();
    assert!(w.contains("トラック 3: 3 回"));
    assert!(slip_warning(&rip(), &vec![]).unwrap().contains("トラック 2: 3 回"));
    let mut r = rip();
    r.report.accuraterip = Some(MethodReport { verified: true, tracks: 2 });
    assert_eq!(slip_warning(&r, &vec![]), None);
}

fn file_entry(url: &str) -> FileEntry {
    FileEntry {
        source: "youtube".to_string(),
        url: some(url),
        channel: None,
        verdict: "ok".to_string(),
        message: None,
        subscription_id: Some(5),
        position: Some(1),
    }
}

#[test]
fn a_sidecar_keeps_an_entry_per_file() {
    let mut s = Sidecar::new();
    s.upsert(some("jazz").as_deref(), "b.opus", file_entry("1"));
    s.upsert(None, "a.opus", file_entry("2"));
    s.upsert(None, "b.opus", file_entry("3"));
    assert_eq!(s.category, some("jazz"));
    assert_eq!(s.files.iter().map(|f| f.0.as_str()).collect::<Vec<_>>(), vec!["a.opus", "b.opus"]);
    assert_eq!(s.files[1].1.url, some("3"));
    assert_eq!(s.find("a.opus"), Some(0));
    assert_eq!(source_of(&s, "dir/b.opus"), Some(1));
    assert_eq!(source_of(&s, "dir/c.opus"), None);
    assert_eq!(subscription_ids(&Some(s)), vec![5]);
    let mut old = Sidecar::new();
    old.version = 2;
    let e = Sidecar::parse(old).unwrap_err();
    assert!(matches!(e, SidecarError::Version(2)));
    assert_eq!(e.message(), "spindle-inbox.json の version が 2（対応は 1）");
    assert!(Sidecar::parse(Sidecar::new().stamped()).is_ok());
}

#[test]
fn a_whole_proposal_is_put_together() {
    let files = vec![file("d/01.flac", &[]), file("d/02.flac", &[])];
    let mut s = Sidecar::new();
    s.upsert(None, "02.flac", file_entry("u"));
    s.rip = Some(rip());
    let (d, w) = propose_draft(
        draft(vec![track("d/01.flac", 1, 0), track("d/02.flac", 1, 0)]),
        Some("Rock"),
        true,
        &vec![(1, "jazz".to_string())],
        None,
    );
    assert!(d.album_gain);
    assert_eq!(w, some("サイドカーの category が語彙に無い: Rock"));
    let disc = DiscReading { audio_tracks: Ok(2), numbers: vec![1, 2] };
    let p = propose(d, None, &files, Some(&s), disc, vec![], vec!["first".to_string()]);
    assert_eq!(p.draft.tracks.iter().map(|t| t.track_no).collect::<Vec<_>>(), vec![1, 2]);
    assert!(p.sources[0].is_none() && p.sources[1].is_some());
    assert_eq!(p.same_titles.len(), 2);
    assert_eq!(p.warnings.len(), 2);
    assert_eq!(p.warnings[0], "first");
    assert!(p.warnings[1].contains("トラック 2: 3 回"));
    assert_eq!(p.lookup.map(|l| (l.toc, l.isrcs, l.mcn)), Some(("0:1:2".to_string(), vec![some("I"), None], some("m"))));
    assert!(rip_mismatch_warning("x").ends_with(": x"));
}

#[test]
fn numbering_goes_on_behind_the_album() {
    let dest = Destination {
        album_id: 4,
        album: None,
        track_count: 2,
        max_track_no: 7,
        album_gain: false,
        numbers: vec![],
    };
    let disc = DiscReading { audio_tracks: Ok(0), numbers: vec![] };
    let p = propose(draft(vec![track("a", 1, 0)]), Some(dest), &vec![file("a", &[])], None, disc, vec![vec![]], vec![]);
    assert_eq!(p.draft.tracks[0].track_no, 8);
    assert!(p.lookup.is_none() && p.destination.is_some());
}

#[test]
fn the_snapshot_of_the_inbox_ignores_the_order() {
    let f = |rel: &str, inode| SeenFile { rel: rel.to_string(), st: stat(inode) };
    let a = snapshot(&vec![f("b/x.flac", 1), f("A/y.flac", 2)]);
    let b = snapshot(&vec![f("A/y.flac", 2), f("b/x.flac", 1)]);
    assert_eq!(a, b);
    assert_eq!(a[0].key, "a/y.flac");
    assert_ne!(a, snapshot(&vec![f("A/y.flac", 2), f("b/x.flac", 3)]));
}

#[test]
fn a_look_at_the_inbox_finds_audio() {
    assert!(matches!(inbox_entry(Some("a.flac"), FileKind::File, true, true), InboxEntry::Audio));
    assert!(matches!(inbox_entry(Some("a"), FileKind::Dir, true, false), InboxEntry::Directory));
    assert!(matches!(inbox_entry(Some(".a.flac"), FileKind::File, true, true), InboxEntry::Ignored));
    assert!(matches!(inbox_entry(None, FileKind::File, true, true), InboxEntry::Ignored));
}

#[test]
fn files_that_changed_in_the_inbox_are_read() {
    let seen = |inode| vec![SeenFile { rel: "a".to_string(), st: stat(inode) }];
    let rows = Some(vec![file("a", &[])]);
    let s = sync_dir(&rows, &seen(7));
    assert_eq!((s.kept, s.changed), (vec![Some(0)], false));
    let s = sync_dir(&rows, &seen(8));
    assert_eq!((s.kept, s.changed), (vec![None], true));
    assert!(sync_dir(&None, &seen(7)).changed);
    assert!(sync_dir(&rows, &vec![]).changed);
    assert!(stat_matches(&file("a", &[]), &stat(7)) && !stat_matches(&file("a", &[]), &stat(8)));
    assert_eq!(order_by_path(&vec![file("b", &[]), file("a", &[])]), vec![1, 0]);
}

#[test]
fn a_change_calls_off_what_was_decided() {
    let s = sync_item(ItemState::Pending, true, true);
    assert!(s.replace_files && s.cancel_discard.is_some());
    assert!(!sync_item(ItemState::Pending, false, true).replace_files);
    assert!(!looks_up_destination(ItemState::Placed) && looks_up_destination(ItemState::Pending));
    assert!(drops_stale(ItemState::Pending));
    let o = count_item(ScanOutcome { items_seen: 1, items_new: 0, items_removed: 0, files_read: 0 }, true);
    assert_eq!((o.items_seen, o.items_new), (2, 1));
}

#[test]
fn a_search_for_a_picture_goes_on_past_files_that_are_gone() {
    assert!(matches!(picture_open_failed(&FsError::NotFound, true), PictureSearch::Next));
    assert!(matches!(picture_read_failed(ReadFault::Format), PictureSearch::Next));
    assert!(matches!(picture_read_failed(ReadFault::Other), PictureSearch::Fail));
}

#[test]
fn inbox_errors_have_texts() {
    assert!(InboxError::Draft(DraftError::EmptyAlbum).message().starts_with("下書きが不正: "));
    assert_eq!(InboxError::Conflict("x".to_string()).message(), "配置先が衝突: x");
    assert_eq!(InboxError::Changed("x".to_string()).message(), "Inbox 側が変わった: x");
    assert_eq!(InboxError::Tag("x".to_string()).message(), "タグを書けない: x");
    assert_eq!(InboxError::Cancelled.message(), "キャンセルされた");
    assert_eq!(InboxError::Fs(FsError::NotFound).message(), "存在しない");
    assert_eq!(InboxError::Db("x".to_string()).message(), "x");
    assert_eq!(InboxError::Io("x".to_string()).message(), "x");
    assert!(InboxError::Placement(PlacementError::Conflict("x".to_string())).message().contains("x"));
}

#[test]
fn only_tags_that_differ_are_written() {
    let d = draft(vec![track("a", 1, 2)]);
    let none = tag_changes(&d, 0, &vec![]);
    assert!(none.iter().any(|c| c.key == "ALBUM" && c.values == Some(vec!["al".to_string()])));
    assert!(none.iter().any(|c| c.key == "TRACKNUMBER" && c.values == Some(vec!["2".to_string()])));
    let written: Vec<(String, String)> = none
        .iter()
        .flat_map(|c| c.values.iter().flatten().map(|v| (c.key.clone(), v.clone())))
        .collect();
    assert!(tag_changes(&d, 0, &written).is_empty());
}

#[test]
fn writing_tags_settles_them() {
    let mut d = draft(vec![track("a", 1, 2)]);
    d.tracks[0].tags = vec![
        ("COMPOSER".to_string(), Some(vec!["c".to_string(), "e".to_string()])),
        ("GENRE".to_string(), None),
    ];
    let current = vec![
        ("GENRE".to_string(), "g".to_string()),
        ("COMPOSER".to_string(), "old".to_string()),
        ("ALBUM".to_string(), "al".to_string()),
    ];
    let changes = tag_changes(&d, 0, &current);
    assert!(changes.iter().any(|c| c.key == "GENRE" && c.values.is_none()));
    let mut after: Vec<(String, String)> =
        current.into_iter().filter(|(k, _)| changes.iter().all(|c| &c.key != k)).collect();
    for c in &changes {
        for v in c.values.iter().flatten() {
            after.push((c.key.clone(), v.clone()));
        }
    }
    assert!(tag_changes(&d, 0, &after).is_empty());
}

#[test]
fn numbers_of_other_discs_take_no_room() {
    let mut d = draft(vec![track("a", 1, 0), track("b", 2, u32::MAX - 2), track("c", 2, u32::MAX)]);
    number_missing(&mut d, u32::MAX - 2);
    assert_eq!(d.tracks[0].track_no, u32::MAX - 2);
    let mut e = draft(vec![track("a", 1, 0), track("b", 1, u32::MAX - 2)]);
    number_missing(&mut e, u32::MAX - 2);
    assert_eq!(e.tracks[0].track_no, u32::MAX - 1);
}

#[test]
fn numbering_twice_changes_nothing() {
    for start in [1, 5, u32::MAX - 3] {
        let mut d = draft(vec![track("b", 1, 0), track("a", 1, 0), track("c", 1, 2), track("d", 2, 0)]);
        number_missing(&mut d, start);
        let once: Vec<u32> = d.tracks.iter().map(|t| t.track_no).collect();
        assert!(once.iter().all(|n| *n > 0));
        number_missing(&mut d, start);
        assert_eq!(d.tracks.iter().map(|t| t.track_no).collect::<Vec<_>>(), once);
    }
}

#[test]
fn a_path_is_made_of_the_draft() {
    let files = vec![file("d/01.FLAC", &[])];
    assert_eq!(split_name("d/01.FLAC"), ("01".to_string(), "flac".to_string()));
    assert_eq!(split_name("a/b/song"), ("song".to_string(), String::new()));
    assert_eq!(find_file(&files, "D/01.flac"), Some(0));
    let d = draft(vec![track("d/01.FLAC", 1, 2)]);
    let f = track_fields(&d, Some("jazz"), 0, &files);
    assert_eq!((f.album, f.albumartist, f.track_no, f.ext.as_str()), (some("al"), some("aa"), Some(2), "flac"));
    assert_eq!(resolve_template(false, &d), LayoutKind::Unsorted);
    assert_eq!(resolve_template(true, &d), LayoutKind::SingleDisc);
    assert_eq!(resolve_template(true, &draft(vec![track("a", 2, 1)])), LayoutKind::MultiDisc);
    assert!(matches!(parse_template(LayoutKind::Unsorted, "x"), InboxError::Conflict(m) if m == "[layout].unsorted が不正: x"));
}

#[test]
fn tracks_join_an_album_that_fits() {
    let row = |disc_no, cd| AlbumRow { disc_no, cd, own: false };
    assert!(album_is_cd(&vec![row(1, true)]) && !album_is_cd(&vec![row(1, false)]));
    assert!(fits_plain_album(&vec![row(1, false)], false, &vec![1]).is_ok());
    assert!(fits_plain_album(&vec![row(1, true)], true, &vec![1]).is_err());
    assert!(fits_plain_album(&vec![row(1, true)], true, &vec![2]).is_ok());
    assert!(incoming_is_cd(&vec![file("a", &[("MUSICBRAINZ_DISCID", "d")])]));
    let d = draft(vec![track("a", 1, 1)]);
    assert!(wants_destination(&d, &vec![file("a", &[])]));
    let found = FoundAlbum {
        album_id: 4,
        album: some("al"),
        album_gain: true,
        rows: vec![row(1, false)],
        numbers: vec![(Some(1), Some(3)), (None, Some(2))],
    };
    let dest = destination(&d, &vec![file("a", &[])], Some(found)).unwrap();
    assert_eq!((dest.album_id, dest.max_track_no, dest.album_gain), (4, 3, true));
    assert_eq!(dest.release_key(), "album:4");
    assert!(destination(&d, &vec![file("a", &[])], None).is_none());
    assert_eq!(destination_of(Some("c"), "x", "y").album, "y");
}

#[test]
fn a_second_run_finds_its_own_album() {
    let m = |key: &str, album_id| SoundMatch { key: key.to_string(), album_id, mb_release_id: None };
    let c = self_candidates(&vec![m("a", 1), m("b", 2), m("c", 1)]);
    assert_eq!(c.iter().map(|x| (x.album_id, x.keys.len())).collect::<Vec<_>>(), vec![(1, 2), (2, 1)]);
    let c = self_candidates(&vec![m("a", 9), m("b", 2), m("c", 9), m("d", 5)]);
    assert_eq!(c.iter().map(|x| x.album_id).collect::<Vec<_>>(), vec![9, 2, 5]);
    let rows = vec![vec![AlbumRow { disc_no: 1, cd: false, own: true }], vec![]];
    let one = self_candidates(&vec![m("a", 1)]);
    assert_eq!(pick_self_album(&one, &vec![rows[0].iter().map(|r| AlbumRow { disc_no: r.disc_no, cd: r.cd, own: r.own }).collect()], None, false, &vec![1]), Some(0));
    let mut d = draft(vec![]);
    d.release_id = some("01234567-89ab-cdef-0123-456789abcdef");
    assert_eq!(incoming_release_id(&d, &vec![]), d.release_id);
}

#[test]
fn an_item_is_planned_as_a_whole() {
    let tracks = vec![track("a", 1, 1), track("b", 1, 2)];
    let p = |s: &str| Planned::Path(s.to_string());
    let plan = plan_item(vec![p("x/1.flac"), p("x/2.flac")], &tracks).unwrap();
    assert_eq!(plan.rel_dir, "x");
    assert_eq!(preview(plan).paths, vec!["x/1.flac", "x/2.flac"]);
    assert!(matches!(plan_item(vec![p("x/1.flac"), p("y/2.flac")], &tracks), Err(InboxError::Conflict(_))));
    assert!(matches!(
        plan_item(vec![p("x/1.flac"), Planned::Conflict("why".to_string())], &tracks),
        Err(InboxError::Conflict(m)) if m.contains("why")
    ));
    assert_eq!(plan_release(Some("M"), None, None, 3), "mb:m");
    assert_eq!(plan_release(None, None, None, 3), "inbox:3");
}

#[test]
fn pictures_of_a_draft_have_to_be_stored() {
    let mut d = draft(vec![track("a", 1, 1), track("b", 1, 2)]);
    d.tracks[1].picture = Some(format!("image/png:{}", "ab".repeat(32)));
    assert_eq!(missing_pictures(&d, &vec![true, true]), Vec::<String>::new());
    assert_eq!(missing_pictures(&d, &vec![true, false]).len(), 1);
    assert!(draft_picture_missing(true, "b", "v").message().contains("v"));
    let pics = vec![PlacedPicture { front: true, hash: [1; 32] }];
    assert!(has_front_picture(&None, &pics) && has_front_picture(&Some([1; 32]), &pics));
    assert!(!has_front_picture(&Some([2; 32]), &pics));
}

#[test]
fn an_existing_file_is_kept_where_it_is_the_same() {
    assert!(same_audio(Fingerprint::Md5(Some([1; 16])), Fingerprint::Md5(Some([1; 16]))));
    assert!(!same_audio(Fingerprint::Md5(Some([1; 16])), Fingerprint::Md5(None)));
    assert!(matches!(existing_file(true, 0, true, "t"), Ok(true)));
    assert!(matches!(existing_file(false, 0, true, "t"), Err(PlacementError::Conflict(_)) | Ok(false)));
    assert!(source_unchanged(Some(&file("a", &[])), &stat(7), "a").is_ok());
    assert!(matches!(source_unchanged(Some(&file("a", &[])), &stat(8), "a"), Err(InboxError::Changed(p)) if p == "a"));
    assert!(matches!(companion_step(&Ok(PlacedFile::New)), CompanionStep::Placed));
    assert!(matches!(companion_step(&Err(PlacementError::Io("x".to_string()))), CompanionStep::Fail));
}

#[test]
fn directories_that_were_made_are_taken_away() {
    assert_eq!(create_dirs("a/b/c", &vec![false, true, true]), some("a/b"));
    assert_eq!(create_dirs("a", &vec![false]), None);
    assert_eq!(cleanup("a/b/c", "a/b"), vec!["a/b"]);
    assert_eq!(cleanup("a/b/c", "a"), vec!["a/b", "a"]);
}

#[test]
fn an_item_is_registered() {
    let d = draft(vec![track("a", 1, 1)]);
    let m = item_meta(&d, Some(3), some("r"));
    assert_eq!((m.category_id, m.album, m.albumartist, m.mb_release_id), (Some(3), some("al"), some("aa"), some("r")));
    let taken = vec![NumberedRow { disc_no: None, track_no: Some(1), key: "x/1.flac".to_string() }];
    assert!(check_numbers_free(&taken, &vec!["X/1.flac".to_string()], &d).is_ok());
    assert!(check_numbers_free(&taken, &vec!["x/2.flac".to_string()], &d).is_err());
    assert_ne!(source_type(true), source_type(false));
    assert_eq!(in_record_order(&vec![10, 20], &vec![1, 0]), vec![20, 10]);
    assert!(matches!(&loudness_jobs(true, 5, &vec![1, 2])[..], [LoudnessJob::Album(5)]));
    assert!(matches!(&loudness_jobs(false, 5, &vec![1, 2])[..], [LoudnessJob::Track(1), LoudnessJob::Track(2)]));
    let mut wav = file("a", &[]);
    wav.codec = "wav".to_string();
    assert_eq!(tracks_to_normalize(&vec![9], &d, &vec![wav]), vec![9]);
    assert_eq!(tracks_to_normalize(&vec![9], &d, &vec![file("a", &[])]), Vec::<i64>::new());
    assert_eq!(log_path(&vec!["in/rip.log".to_string()], "rip.log", "out"), some("out/rip.log"));
}

#[test]
fn placing_leaves_nothing_behind() {
    assert!(matches!(place_item(PlaceStage::Validate, true, false), PlaceNext::Go(PlaceStage::ReadSources)));
    assert!(matches!(place_item(PlaceStage::Validate, false, false), PlaceNext::Fail));
    assert!(matches!(place_item(PlaceStage::PlaceFiles, false, false), PlaceNext::FailAndCleanUp));
    assert!(matches!(place_item(PlaceStage::Register, false, false), PlaceNext::FailAndCleanUp));
    assert!(matches!(place_item(PlaceStage::Consume, true, false), PlaceNext::Done));
    assert!(no_draft(None).message().len() > 0 && no_draft(Some("x")).message().contains("x"));
    assert!(disc_mismatch("x").message().contains("x"));
}

#[test]
fn a_sidecar_that_changed_stops_placing() {
    let k = sidecar_key(&stat(7));
    assert_eq!(sidecar_rel("d"), some("d/spindle-inbox.json"));
    assert_eq!(sidecar_rel(""), None);
    assert!(sidecar_unchanged(&Some(k), &Some(k), "d").is_ok());
    assert!(matches!(sidecar_unchanged(&Some(k), &None, "d"), Err(InboxError::Changed(_))));
}

#[test]
fn only_files_that_were_seen_are_discarded() {
    let row = file("a", &[]);
    assert!(may_remove(Some(&row), Some(&stat(7))) && !may_remove(Some(&row), Some(&stat(8))) && !may_remove(None, None));
    assert!(matches!(discard_entry(Some("a.flac"), FileKind::File, true, true, false, true), DiscardEntry::Audio));
    assert!(matches!(discard_entry(Some("c.jpg"), FileKind::File, true, false, true, true), DiscardEntry::Companion));
    assert!(matches!(discard_entry(Some("n.txt"), FileKind::File, true, false, false, true), DiscardEntry::Stays));
    let f = |rel: &str, inode| DiscardFile { rel: rel.to_string(), st: stat(inode) };
    assert!(discard_item_files(&vec![file("a", &[])], &vec![f("a", 7)]).is_ok());
    assert!(matches!(
        discard_item_files(&vec![file("a", &[])], &vec![f("a", 8)]),
        Err(DiscardOutcome::Changed(_))
    ));
    assert_eq!(count_removal(1, 5, Removal::Removed, 10), (2, 15));
    assert_eq!(count_removal(1, 5, Removal::Failed, 10), (1, 5));
}

#[test]
fn a_file_is_placed_without_replacing() {
    assert!(matches!(place(PlaceEvent::Moved, false, "t"), PlaceStep::Done(PlacedFile::New)));
    let own = PlaceEvent::Occupied { own: true, checked: stat(1), now: Some(stat(1)) };
    assert!(matches!(place(own, false, "t"), PlaceStep::Keep | PlaceStep::Done(PlacedFile::Reused)));
    let other = PlaceEvent::Occupied { own: false, checked: stat(1), now: Some(stat(1)) };
    assert!(matches!(place(other, false, "t"), PlaceStep::Fail(PlacementError::Conflict(_))));
    let refresh = PlaceEvent::Occupied { own: true, checked: stat(1), now: Some(stat(1)) };
    assert!(matches!(place(refresh, true, "t"), PlaceStep::Replace));
    let fault = PlaceEvent::Failed(PlacementError::Io("x".to_string()));
    assert!(matches!(place(fault, false, "t"), PlaceStep::Fail(PlacementError::Io(_))));
}

#[test]
fn albums_are_found_by_release() {
    assert_eq!(mb_key("AB"), "mb:ab");
    assert_eq!(release_key(3, &some("AB")), release_key(4, &some("ab")));
    assert_eq!(release_key(3, &None), "album:3");
    let e = |missing, mb: Option<&str>| ExistingAlbum { id: 3, missing, mb_release_id: mb.map(|s| s.to_string()) };
    assert!(matches!(find_or_create_album(None, "d", "album:3"), AlbumDecision::Insert));
    assert!(matches!(find_or_create_album(Some(e(false, None)), "d", "album:3"), AlbumDecision::Use(3)));
    assert!(matches!(find_or_create_album(Some(e(false, Some("x"))), "d", "mb:y"), AlbumDecision::Conflict(_)));
}

#[test]
fn a_track_is_adopted_where_it_sounds_the_same() {
    let t = |md5| ExistingTrack { id: 3, audio_md5: md5, audio_fp: None, audio_version: 2 };
    assert!(matches!(register_track(None, Fingerprint::Md5(None), "r"), TrackDecision::Insert));
    assert!(matches!(
        register_track(Some(t(Some([1; 16]))), Fingerprint::Md5(Some([1; 16])), "r"),
        TrackDecision::Adopt(r) if r.id == 3 && r.adopted && r.audio_version == 2
    ));
    assert!(matches!(
        register_track(Some(t(Some([1; 16]))), Fingerprint::Md5(Some([2; 16])), "r"),
        TrackDecision::Conflict(_)
    ));
}

#[test]
fn covers_are_stored_in_formats_that_players_show() {
    let info = |mime: &str| Some(ImageInfo { mime: mime.to_string(), width: 3, height: 4 });
    assert!(embeddable(info("image/jpeg")).is_ok() && embeddable(info("image/png")).is_ok());
    assert!(matches!(embeddable(info("image/tiff")), Err(StoreImageError::Unsupported)));
    assert!(matches!(embeddable(None), Err(StoreImageError::Unsupported)));
    let s = store_image(ImageInfo { mime: "image/png".to_string(), width: 3, height: 4 }, [1; 32], 9, Some(5));
    assert_eq!(s.picture_value(), format!("image/png:{}", "01".repeat(32)));
    assert!(StoreImageError::Io("x".to_string()).message().contains("x"));
    assert_eq!(rip_release_id(&some("01234567-89ab-cdef-0123-456789abcdef")), some("01234567-89ab-cdef-0123-456789abcdef"));
    assert_eq!(rip_release_id(&some("")), None);
}

#[test]
fn a_cover_is_looked_for_a_few_times() {
    let zero = || CoverReport { found: 0, absent: 0, skipped: 0, failed: 0 };
    let (n, r) = fetch_cd_covers(zero(), CoverReply::Stored { value: "v".to_string(), recorded: true }, 0, 3);
    assert_eq!((n.picture, r.found), (some("v"), 1));
    let (_, r) = fetch_cd_covers(zero(), CoverReply::NoRelease, 0, 3);
    assert_eq!(r.skipped + r.absent, 1);
    let (n, r) = fetch_cd_covers(zero(), CoverReply::Failed, 1, 3);
    assert_eq!((n.tries, r.failed), (2, 1));
}

#[test]
fn a_look_at_the_inbox_adds_up() {
    let rows = Some(vec![file("d/a.flac", &[])]);
    let seen = |inode| vec![SeenFile { rel: "d/a.flac".to_string(), st: stat(inode) }];
    let same = sync_dir(&rows, &seen(7));
    assert_eq!(dir_outcome(&same, &vec![]), DirOutcome::Keep);
    let changed = sync_dir(&rows, &seen(8));
    assert_eq!(dir_outcome(&changed, &vec![true]), DirOutcome::Replace);
    assert_eq!(dir_outcome(&changed, &vec![false]), DirOutcome::Skip);
    let o = scan_outcome(&vec![true, false, true], &vec![ItemState::Placing, ItemState::Pending], 2, 4);
    assert_eq!((o.items_seen, o.items_new, o.items_removed, o.files_read), (3, 2, 3, 4));
    assert_eq!(placed_cutoff(100_000), 13_600);
}

#[test]
fn files_are_grouped_by_their_directories() {
    let paths = ["B/one.flac", "top.flac", "b/two.flac", "a/x/three.flac", "B/four.flac"];
    let seen: Vec<SeenFile> = paths.iter().map(|p| SeenFile { rel: p.to_string(), st: stat(7) }).collect();
    let groups = group_by_dir(&seen);
    let said: Vec<(&str, &str, Vec<usize>)> =
        groups.iter().map(|g| (g.dir.as_str(), g.key.as_str(), g.files.clone())).collect();
    assert_eq!(said, vec![("", "", vec![1]), ("a/x", "a/x", vec![3]), ("B", "b", vec![0, 2, 4])]);
    assert!(group_by_dir(&vec![]).is_empty());
}

#[test]
fn placed_files_are_looked_at_again() {
    let row = file("d/a.flac", &[]);
    let (one, two) = (Fingerprint::Md5(Some([1; 16])), Fingerprint::Md5(Some([2; 16])));
    assert!(check_placed(Some(&row), &stat(7), Ok(one), one, "d/a.flac", "x/a.flac").is_ok());
    assert!(matches!(
        check_placed(Some(&row), &stat(8), Ok(one), one, "d/a.flac", "x/a.flac"),
        Err(InboxError::Changed(m)) if m == "d/a.flac"
    ));
    assert!(matches!(
        check_placed(Some(&row), &stat(7), Ok(two), one, "d/a.flac", "x/a.flac"),
        Err(InboxError::Changed(m)) if m == "d/a.flac"
    ));
    assert!(matches!(
        check_placed(Some(&row), &stat(7), Err("bad".to_string()), one, "d/a.flac", "x/a.flac"),
        Err(InboxError::Conflict(m)) if m == "x/a.flac: bad"
    ));
    let c = |n: &str, step| Companion { from: format!("d/{n}"), to: format!("x/{n}"), step };
    let r = place_files(
        &vec!["x/1".to_string(), "x/2".to_string(), "x/3".to_string()],
        &vec![PlacedFile::New, PlacedFile::Reused],
        &vec![c("a", CompanionStep::Placed), c("b", CompanionStep::Taken), c("e", CompanionStep::Stays)],
    );
    assert_eq!(r.placed_new, vec!["x/1", "x/a"]);
    assert_eq!(r.companions, vec!["d/a", "d/b"]);
}
