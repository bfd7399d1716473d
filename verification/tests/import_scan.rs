use spindle::catalog::{AudioFile, Codec, Fingerprint, OpKind, Physical, PictureState, StoredPicture, TagSet};
use spindle::fsroot::{FileKind, FsError, Stat};
use spindle::import::albums::{
    album_meta, album_moves, fill_album_categories, infer_category, join_group, majority_album, new_categories,
    resolve_albums, tracks_without_album, AlbumSnap, AlbumTarget, DirGroup,
};
use spindle::import::artwork::{
    artwork_candidates, note_artwork, probe_cover, register_artwork, resolve_album_artwork, AlbumArtworkState, ArtworkEnd,
    ArtworkStep, CoverProbe, TrackProbe,
};
use spindle::import::commit::{
    close_report, content_update, count_row, decide_row, dirty_albums, evictions, held_entries, mark_dirty_pictures, need_read, plan_moves,
    rows_to_check, work_in_progress, Decision, Identity, PendingOp, ReadState, RowAction, RowFacts, Scanned, TrackSnap,
    Via,
};
use spindle::import::scanner::{
    audio_changed, cache_columns, effective_fingerprint, is_signed_log, join_display, md5_source, same_cover,
    tmp_is_stale, track_content, track_content_with_pictures, Md5Source, PictureStored, RunState, ScanError, ScanReport, Scanner,
    SkipReason, TMP_RECLAIM_AGE_SECS,
};
use spindle::import::walk::{
    cover_wanted, find_cover, walk_audio, walk_cover, walk_entry, walk_log, walk_stat_error, CoverCandidate, CoverStat,
    InvEntry, Inventory, ListedEntry, WalkAction,
};

fn some(s: &str) -> Option<String> {
    Some(s.to_string())
}

fn stat(inode: u64) -> Stat {
    Stat { kind: FileKind::File, dev: 1, inode, nlink: 1, size: 10, mtime_ns: 20, ctime_ns: 30 }
}

fn listed(name: &str, kind: FileKind) -> ListedEntry {
    ListedEntry {
        name: some(name),
        shown: name.to_string(),
        kind,
        valid: true,
        cover_rank: None,
        rip_log: false,
        codec: None,
    }
}

fn entry(rel: &str, dir: Option<&str>, inode: u64) -> InvEntry {
    InvEntry {
        rel: rel.to_string(),
        key: rel.to_lowercase(),
        dir: dir.map(|s| s.to_string()),
        dir_key: dir.unwrap_or("").to_lowercase(),
        ph: Physical::of(&stat(inode)),
        ext_codec: Codec::Flac,
    }
}

fn snap(id: i64, path: &str) -> TrackSnap {
    TrackSnap {
        id,
        rel_path: path.to_string(),
        rel_path_key: path.to_lowercase(),
        dev: Some(1),
        album_id: Some(id * 10),
        tag_hash: Some([1; 32]),
        tag_version: 3,
        audio_version: 5,
        audio_md5: Some([2; 16]),
        audio_fp: None,
        artwork_dirty: false,
    }
}

fn existing(track_id: i64, via: Via, changed: bool) -> Decision {
    Decision { identity: Identity::Existing { track_id, via, changed, revived: false }, hardlink: false }
}

fn fresh() -> Decision {
    Decision { identity: Identity::New, hardlink: false }
}

#[test]
fn a_walk_sorts_what_it_sees() {
    let mut inv = Inventory::new();
    assert!(matches!(walk_entry(&mut inv, Some("a"), &listed("b", FileKind::Dir)), WalkAction::Descend(p) if p == "a/b"));
    let mut audio = listed("x.flac", FileKind::File);
    audio.codec = Some(Codec::Flac);
    assert!(matches!(walk_entry(&mut inv, Some("a"), &audio), WalkAction::StatAudio(p, Codec::Flac) if p == "a/x.flac"));
    let mut cover = listed("cover.jpg", FileKind::File);
    cover.cover_rank = Some(1);
    assert!(matches!(walk_entry(&mut inv, None, &cover), WalkAction::StatCover(p, 1) if p == "cover.jpg"));
    let mut log = listed("rip.log", FileKind::File);
    log.rip_log = true;
    assert!(matches!(walk_entry(&mut inv, Some("a"), &log), WalkAction::ReadLog(_)));
    assert!(matches!(
        walk_entry(&mut inv, Some("a"), &listed(".spindle-tmp-1", FileKind::File)),
        WalkAction::Reclaim(_)
    ));
    assert!(matches!(walk_entry(&mut inv, Some("a"), &listed("x.txt", FileKind::File)), WalkAction::Nothing));
    assert!(inv.skipped.is_empty());
    assert!(matches!(walk_entry(&mut inv, Some("a"), &listed("ln", FileKind::Symlink)), WalkAction::Nothing));
    assert_eq!(inv.skipped.len(), 1);
    assert_eq!(inv.skipped[0].path, "a/ln");
    assert!(matches!(inv.skipped[0].reason, SkipReason::Symlink));
}

#[test]
fn a_walk_collects_files_and_covers() {
    let mut inv = Inventory::new();
    walk_audio(&mut inv, Some("A"), "A/x.flac".to_string(), Codec::Flac, &stat(1));
    walk_audio(&mut inv, Some("A"), "A/X.flac".to_string(), Codec::Flac, &stat(2));
    assert_eq!(inv.entries.iter().map(|e| e.key.as_str()).collect::<Vec<_>>(), vec!["a/x.flac"]);
    assert!(matches!(inv.skipped[0].reason, SkipReason::DuplicateKey));
    walk_cover(&mut inv, Some("A"), "A/b.jpg".to_string(), 2, &stat(3));
    walk_cover(&mut inv, Some("A"), "A/a.jpg".to_string(), 1, &stat(4));
    let mut worse = listed("c.jpg", FileKind::File);
    worse.cover_rank = Some(3);
    assert!(matches!(walk_entry(&mut inv, Some("A"), &worse), WalkAction::Nothing));
    assert_eq!(inv.covers.len(), 1);
    assert_eq!((inv.covers[0].1.rel.as_str(), inv.covers[0].1.rank), ("A/a.jpg", 1));
    walk_log(&mut inv, Some("A"), false);
    assert!(inv.rip_dirs.is_empty());
    walk_log(&mut inv, Some("A"), true);
    assert_eq!(inv.rip_dirs, vec!["a"]);
    assert!(walk_stat_error("p".to_string(), FsError::NotFound).is_none());
    assert!(matches!(walk_stat_error("p".to_string(), FsError::Exists), Some(ScanError::Walk { .. })));
}

#[test]
fn the_best_cover_is_found() {
    let c = |rel: &str, rank, there: bool| CoverCandidate {
        rel: rel.to_string(),
        rank,
        stat: if there { Some(stat(1)) } else { None },
    };
    assert_eq!(find_cover(&vec![c("b", 2, true), c("a", 1, true), c("c", 0, false)]), Some(1));
    assert_eq!(find_cover(&vec![]), None);
    assert!(cover_wanted(None, 9) && cover_wanted(Some(3), 2) && !cover_wanted(Some(2), 2));
}

#[test]
fn files_that_changed_are_read() {
    let d = vec![existing(1, Via::Inode, false), existing(2, Via::Path, true), fresh()];
    assert_eq!(need_read(&d, false), vec![1, 2]);
    assert_eq!(need_read(&d, true), vec![0, 1, 2]);
    let mut dirty = snap(1, "a");
    dirty.artwork_dirty = true;
    let m = mark_dirty_pictures(&d, &vec![dirty, snap(2, "b")]);
    assert_eq!(need_read(&m, false), vec![0, 1, 2]);
}

fn pending(op_id: i64, track_id: i64, from: &str, to: &str) -> PendingOp {
    PendingOp { op_id, track_id, kind: OpKind::Rename, expected_rel_path: some(from), target_rel_path: some(to), fits: true }
}

#[test]
fn files_under_work_are_held() {
    assert!(work_in_progress(&vec![pending(4, 1, "A/x.flac", "b/x.flac")]).is_empty());
    let mut op = pending(4, 1, "A/x.wav", "A/x.flac");
    op.kind = OpKind::Archive;
    let w = work_in_progress(&vec![op]);
    let keys: Vec<&str> = w.iter().map(|(k, _)| k.as_str()).collect();
    assert_eq!(keys, vec!["a/x.wav", "a/x.flac", "a/spindle-normalize-4.wav"]);
    let h = held_entries(&vec![entry("a/x.flac", Some("a"), 1), entry("c.flac", None, 2)], &w);
    assert_eq!(h, vec![Some(1), None]);
}

#[test]
fn tracks_follow_their_files() {
    let s = Scanned {
        entries: vec![entry("new.flac", None, 1), entry("same.flac", None, 2)],
        decisions: vec![existing(1, Via::Inode, false), existing(2, Via::Inode, false)],
        tracks: vec![snap(1, "old.flac"), snap(2, "same.flac"), snap(3, "new.flac")],
        pending: vec![],
        deep: false,
    };
    let held = vec![None, None];
    let (moves, conflicts) = plan_moves(&s, &held, &vec![]);
    assert_eq!(moves.iter().map(|m| (m.track_id, m.rel_path.as_str())).collect::<Vec<_>>(), vec![(1, "new.flac")]);
    assert!(conflicts.is_empty());
    assert_eq!(evictions(&moves, &s), vec![3]);
    let (overtaken_moves, _) = plan_moves(&s, &held, &vec![1]);
    assert!(overtaken_moves.is_empty());
    assert_eq!(rows_to_check(&s, &held), vec![0]);
}

#[test]
fn a_row_counts_once() {
    let s = Scanned {
        entries: vec![entry("a.flac", None, 1), entry("b.flac", None, 2), entry("c.flac", None, 3)],
        decisions: vec![existing(1, Via::Inode, false), existing(2, Via::Inode, true), fresh()],
        tracks: vec![snap(1, "a.flac"), snap(2, "b.flac")],
        pending: vec![],
        deep: false,
    };
    let held = vec![None, None, None];
    let facts = |read| RowFacts { read, holder: None, rip_dir: false };
    let e = decide_row(&s, &held, &vec![], &vec![], 0, facts(ReadState::NotRead));
    assert!(matches!(e.action, RowAction::Touch(1)) && e.unchanged && !e.updated && !e.new);
    let e = decide_row(&s, &held, &vec![], &vec![], 1, facts(ReadState::Read));
    assert!(matches!(e.action, RowAction::Content(2)) && e.updated && e.changed);
    let e = decide_row(&s, &held, &vec![], &vec![], 2, facts(ReadState::Read));
    assert!(matches!(e.action, RowAction::Insert(false)) && e.new);
    let e = decide_row(&s, &held, &vec![], &vec![], 2, facts(ReadState::Failed));
    assert!(e.error && !e.new);
    let e = decide_row(&s, &held, &vec![1], &vec![], 0, facts(ReadState::Read));
    assert!(matches!(e.action, RowAction::Touch(1)) && !e.updated && !e.unchanged && !e.grouped);
}

#[test]
fn tags_have_a_new_version_where_they_changed() {
    let row = snap(1, "a");
    let fp = Fingerprint::Md5(Some([2; 16]));
    let u = content_update(&row, None, [1; 32], fp);
    assert_eq!((u.tag_version, u.reanalyze, u.audio_version), (Some(3), false, 5));
    let u = content_update(&row, None, [9; 32], Fingerprint::Md5(Some([3; 16])));
    assert_eq!((u.tag_version, u.reanalyze, u.audio_version), (Some(4), true, 6));
    let u = content_update(&row, Some(OpKind::Tags), [9; 32], fp);
    assert_eq!(u.tag_version, None);
}

#[test]
fn albums_of_changed_tracks_are_looked_at() {
    let s = Scanned {
        entries: vec![],
        decisions: vec![],
        tracks: vec![snap(1, "a"), snap(2, "b")],
        pending: vec![],
        deep: false,
    };
    assert_eq!(dirty_albums(&vec![1], &s, &vec![77]), vec![10, 77]);
}

#[test]
fn the_sound_of_a_file_is_compared() {
    let md5 = |b| Fingerprint::Md5(Some([b; 16]));
    assert!(!audio_changed(md5(1), Some([1; 16]), None));
    assert!(audio_changed(md5(2), Some([1; 16]), None));
    assert!(!audio_changed(Fingerprint::Md5(None), Some([1; 16]), None));
    assert!(matches!(effective_fingerprint(Fingerprint::Md5(None), Some([1; 16]), None), Fingerprint::Md5(Some(m)) if m == [1; 16]));
    assert!(matches!(md5_source(Codec::Flac, None), Md5Source::StreamInfo));
    assert!(matches!(md5_source(Codec::Wav, None), Md5Source::Decoded));
    assert!(matches!(md5_source(Codec::Mp3, None), Md5Source::Nowhere));
}

fn audio() -> AudioFile {
    let t = |k: &str, v: &str| (k.to_string(), v.to_string());
    AudioFile {
        codec: "flac".to_string(),
        lossless: true,
        sample_rate: Some(44_100),
        bit_depth: Some(16),
        channels: Some(2),
        bitrate: None,
        duration_ms: Some(1000),
        tags: TagSet {
            items: vec![
                t("TITLE", "x"),
                t("ARTIST", "a"),
                t("ARTIST", "b"),
                t("TRACKNUMBER", "3/12"),
                t("DATE", "2001"),
            ],
        },
    }
}

#[test]
fn columns_come_from_tags() {
    let c = cache_columns(&audio().tags);
    assert_eq!((c.title, c.artist_display, c.albumartist), (some("x"), some("a, b"), some("a")));
    assert_eq!((c.track_no, c.disc_no, c.date), (Some(3), None, some("2001")));
    let t = track_content(audio(), [7; 32]);
    assert_eq!((t.tag_hash, t.cache.track_no), ([7; 32], Some(3)));
    assert!(matches!(t.picture, PictureState::Unread));
    let p = StoredPicture { sha256: [1; 32], needs_thumbs: true };
    let t = track_content_with_pictures(audio(), [7; 32], PictureStored::Stored(Some(p)));
    assert!(matches!(t.picture, PictureState::Found(p) if p.needs_thumbs));
    let t = track_content_with_pictures(audio(), [7; 32], PictureStored::Stored(None));
    assert!(matches!(t.picture, PictureState::Absent));
    let t = track_content_with_pictures(audio(), [7; 32], PictureStored::Failed("x".to_string()));
    assert!(matches!(t.picture, PictureState::Failed(e) if e == "x"));
}

#[test]
fn small_rules_of_the_scanner() {
    assert!(same_cover(&stat(1), &stat(1)) && !same_cover(&stat(1), &stat(2)));
    assert_eq!(join_display("", "x"), "x");
    assert_eq!(join_display("a", "x"), "a/x");
    assert!(is_signed_log(&b"spindle\n".to_vec(), &b"spindle".to_vec()));
    assert!(!is_signed_log(&b"spindle!".to_vec(), &b"spindle".to_vec()));
    assert!(!is_signed_log(&b"sp".to_vec(), &b"spindle".to_vec()));
    let mut st = stat(1);
    st.mtime_ns = 0;
    assert!(tmp_is_stale(TMP_RECLAIM_AGE_SECS + 1, &st) && !tmp_is_stale(10, &st));
    let s = Scanner::new(4).with_unsorted_layout("Loose/{title}");
    assert!(s.category_skip.contains(&"loose".to_string()));
}

#[test]
fn scans_end_in_states() {
    assert_eq!(ScanError::Cancelled.run_state(), RunState::Cancelled);
    assert_eq!(ScanError::Db("x".to_string()).run_state(), RunState::Failed);
    assert!(ScanError::Walk { path: "p".to_string(), source: FsError::NotFound }.message().contains("p"));
    assert!(ScanError::Internal("y".to_string()).message().contains("y"));
    assert!(!ScanError::Cancelled.message().is_empty());
}

fn group(dir: &str, tracks: &[i64], previous: &[i64]) -> DirGroup {
    DirGroup {
        dir_key: dir.to_lowercase(),
        dir: some(dir),
        track_ids: tracks.to_vec(),
        previous_albums: previous.to_vec(),
        dirty: true,
    }
}

fn album(id: i64, dir: &str) -> AlbumSnap {
    AlbumSnap { id, rel_dir_key: dir.to_string(), mb_release_id: None }
}

#[test]
fn directories_become_groups() {
    let mut g: Vec<DirGroup> = vec![];
    assert_eq!(join_group(&mut g, &entry("A/x", Some("A"), 1), Some(1), Some(5), false), 0);
    assert_eq!(join_group(&mut g, &entry("b/y", Some("b"), 2), Some(2), None, true), 1);
    assert_eq!(join_group(&mut g, &entry("a/z", Some("a"), 3), Some(3), Some(5), true), 0);
    assert_eq!(g[0].track_ids, vec![1, 3]);
    assert_eq!(g[0].previous_albums, vec![5, 5]);
    assert!(g[0].dirty);
}

#[test]
fn an_album_follows_the_majority_of_its_tracks() {
    assert_eq!(majority_album(&vec![5, 5, 6], 3), Some(5));
    assert_eq!(majority_album(&vec![5, 6], 4), None);
    let groups = vec![group("new", &[1, 2], &[5, 5]), group("b", &[3], &[]), group("kept", &[4], &[7])];
    let albums = vec![album(5, "old"), album(7, "kept")];
    let (plan, taken) = resolve_albums(&groups, &albums, &vec![None, None, None]);
    assert_eq!(plan[0], Some(AlbumTarget::Rename(5)));
    assert_eq!(plan[1], Some(AlbumTarget::New));
    assert_eq!(plan[2], Some(AlbumTarget::Existing(7)));
    assert!(taken.contains(&5) && taken.contains(&7));
    let moves = album_moves(&groups, &albums, &plan, &taken);
    assert_eq!(moves.iter().map(|m| (m.album_id, m.rel_dir.as_str())).collect::<Vec<_>>(), vec![(5, "new")]);
    let mut root = group("x", &[8, 9], &[]);
    root.dir = None;
    assert_eq!(tracks_without_album(&vec![root]), vec![8, 9]);
}

#[test]
fn albums_are_described_by_their_tracks() {
    let t = |k: &str, v: &str| (k.to_string(), v.to_string());
    let values = vec![
        t("ALBUM", "p"),
        t("ALBUM", "q"),
        t("ALBUM", "q"),
        t("ARTIST", "a"),
        t("DISCTOTAL", "2"),
        t("GENRE", "Bebop"),
    ];
    let categories = vec![(1, "jazz".to_string())];
    let genres = vec![("bebop".to_string(), 9)];
    let m = album_meta("Jazz/x", &values, &categories, &genres);
    assert_eq!((m.category_id, m.album, m.albumartist, m.disc_count), (Some(1), some("q"), some("a"), Some(2)));
    assert_eq!(infer_category("Rock/x", &values, &categories, &genres), Some(9));
    assert_eq!(infer_category("Rock/x", &vec![], &categories, &genres), None);
}

#[test]
fn top_directories_become_categories() {
    let groups = vec![group("Rock/a", &[1], &[]), group("rock/b", &[2], &[]), group("jazz/c", &[3], &[]), group("_Unsorted/d", &[4], &[]), group("pop/e", &[], &[]), group("flat", &[5], &[])];
    let known = vec![(1, "jazz".to_string())];
    let skip = vec!["_unsorted".to_string()];
    assert_eq!(new_categories(&groups, &known, &skip), vec!["Rock"]);
    let filled = fill_album_categories(
        &vec![(5, "Jazz/x".to_string()), (6, "_unsorted/x".to_string()), (7, "pop/x".to_string())],
        &known,
        &skip,
    );
    assert_eq!(filled, vec![(5, 1)]);
}

#[test]
fn a_picture_is_chosen_for_an_album() {
    let cs = CoverStat::of(&stat(1));
    assert!(matches!(probe_cover(&stat(1), &stat(1), 10, true, 100), CoverProbe::Image(_)));
    assert!(matches!(probe_cover(&stat(1), &stat(2), 10, true, 100), CoverProbe::Undecided));
    assert!(matches!(probe_cover(&stat(1), &stat(1), 10, false, 100), CoverProbe::Unusable(_)));
    assert!(matches!(resolve_album_artwork(CoverProbe::Image(cs), &vec![], 2), ArtworkStep::TakeCover(_)));
    assert!(matches!(resolve_album_artwork(CoverProbe::Undecided, &vec![], 2), ArtworkStep::Undecided));
    assert!(matches!(resolve_album_artwork(CoverProbe::Absent, &vec![], 2), ArtworkStep::ReadTrack(0)));
    assert!(matches!(
        resolve_album_artwork(CoverProbe::Absent, &vec![TrackProbe::NoPicture, TrackProbe::Image], 2),
        ArtworkStep::TakeTrack(1, None)
    ));
    assert!(matches!(
        resolve_album_artwork(CoverProbe::Absent, &vec![TrackProbe::NoPicture, TrackProbe::NoPicture], 2),
        ArtworkStep::Nothing(None)
    ));
    assert!(matches!(register_artwork([1; 32], 5, true, true, 2), Some(f) if f.needs_thumbs && f.bytes == 5));
    assert!(register_artwork([1; 32], 5, true, false, 2).is_none());
}

fn report() -> ScanReport {
    ScanReport {
        run_id: 1,
        files_seen: 0,
        new: 0,
        updated: 0,
        unchanged: 0,
        moved: 0,
        revived: 0,
        missing_marked: 0,
        errors: 0,
        tmp_removed: 0,
        overtaken: 0,
        skipped: vec![],
        changed_ids: vec![],
        artwork_resolved: 0,
        enqueued_jobs: vec![],
        artwork_error: None,
        categories_registered: 0,
        albums_categorized: 0,
    }
}

#[test]
fn a_report_adds_up() {
    let mut r = report();
    let s = Scanned {
        entries: vec![entry("a.flac", None, 1)],
        decisions: vec![fresh()],
        tracks: vec![],
        pending: vec![],
        deep: false,
    };
    let facts = RowFacts { read: ReadState::Read, holder: None, rip_dir: false };
    let e = decide_row(&s, &vec![None], &vec![], &vec![], 0, facts);
    count_row(&mut r, e, Some(4));
    assert_eq!((r.new, r.updated, r.changed_ids.clone()), (1, 0, vec![4]));
    close_report(&mut r, &vec![7], &vec![8, 4], &vec![9]);
    assert_eq!((r.moved, r.missing_marked), (2, 1));
    assert!(r.changed_ids.contains(&8) && r.changed_ids.contains(&9));
    note_artwork(&mut r, ArtworkEnd::Done(2, vec![11]));
    assert_eq!((r.artwork_resolved, r.enqueued_jobs.clone(), r.artwork_error.clone()), (2, vec![11], None));
    note_artwork(&mut r, ArtworkEnd::Failed("x".to_string()));
    assert_eq!(r.artwork_error, some("x"));
}

#[test]
fn albums_whose_cover_changed_are_looked_at_again() {
    let cs = CoverStat::of(&stat(1));
    let state = |id, dir: &str, cover, resolved| AlbumArtworkState {
        id,
        rel_dir_key: dir.to_string(),
        missing: false,
        cover,
        resolved,
        original_lost: false,
    };
    let mut inv = Inventory::new();
    walk_cover(&mut inv, Some("a"), "a/cover.jpg".to_string(), 1, &stat(1));
    walk_cover(&mut inv, Some("b"), "b/cover.jpg".to_string(), 1, &stat(9));
    let states = vec![state(1, "a", Some(cs), true), state(2, "b", Some(cs), true), state(3, "c", None, false)];
    assert_eq!(artwork_candidates(&states, &inv.covers, false), vec![1, 2]);
}
