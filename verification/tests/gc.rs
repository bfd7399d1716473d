use spindle::fsroot::{FileKind, FsError, Stat};
use spindle::gc::{
    archive_end, artwork_dir_end, count_item, cutoff, derived_end, derived_entry, derived_grace, derived_unreadable,
    grace_boundary, is_hex64, log_summary, plan_albums, plan_archived, plan_artwork_dirs, plan_artwork_rows,
    plan_derived, plan_tracks, row_counts, saturating_sub, sort_dirs, still_planned, thumb_dir_is_collectable, Counts,
    DerivedEntry, GcError, ItemEnd, JobsRetention, LoosePicture, MissingAlbum, MissingTrack, Plan, PlannedArtwork,
    PlannedFile, PlannedTrack, Preview, Probe, Summary, ORPHAN_GRACE_SECS, PREVIEW_SAMPLE,
};

fn stat(inode: u64, mtime_ns: i64) -> Stat {
    Stat { kind: FileKind::File, dev: 1, inode, nlink: 1, size: 10, mtime_ns, ctime_ns: mtime_ns }
}

fn ids(v: &[i64]) -> Vec<i64> {
    v.to_vec()
}

#[test]
fn times_do_not_run_over() {
    assert_eq!(saturating_sub(5, 3), 2);
    assert_eq!(saturating_sub(i64::MIN, 1), i64::MIN);
    assert_eq!(cutoff(1000, 300), 700);
    assert_eq!(derived_grace(ORPHAN_GRACE_SECS), 0);
    assert_eq!(grace_boundary(ORPHAN_GRACE_SECS + 7), 7);
}

#[test]
fn only_tracks_whose_files_are_gone_are_planned() {
    let planned = plan_tracks(&vec![
        MissingTrack { id: 1, rel_path: "a".to_string(), probe: Probe::Gone },
        MissingTrack { id: 2, rel_path: "b".to_string(), probe: Probe::Back },
        MissingTrack { id: 3, rel_path: "c".to_string(), probe: Probe::Unknown },
        MissingTrack { id: 4, rel_path: "d".to_string(), probe: Probe::Gone },
    ]);
    assert_eq!(planned.iter().map(|t| t.id).collect::<Vec<_>>(), ids(&[1, 4]));
}

#[test]
fn albums_go_with_their_tracks() {
    let tracks = vec![
        PlannedTrack { id: 1, rel_path: "a".to_string() },
        PlannedTrack { id: 2, rel_path: "b".to_string() },
    ];
    let albums = plan_albums(
        &vec![
            MissingAlbum { id: 10, rel_dir: "x".to_string(), members: ids(&[1, 2]) },
            MissingAlbum { id: 11, rel_dir: "y".to_string(), members: ids(&[2, 3]) },
            MissingAlbum { id: 12, rel_dir: "z".to_string(), members: vec![] },
        ],
        &tracks,
    );
    assert_eq!(albums.iter().map(|a| a.id).collect::<Vec<_>>(), ids(&[10, 12]));
}

#[test]
fn archived_files_without_a_size_count_nothing() {
    assert_eq!(plan_archived(1, "a".to_string(), Some(7)).bytes, 7);
    assert_eq!(plan_archived(1, "a".to_string(), None).bytes, 0);
}

#[test]
fn derived_entries_without_a_track_are_candidates() {
    let keys = vec!["a/b.opus".to_string()];
    assert!(matches!(derived_entry(Some("b.opus"), FileKind::File, true, "A/B.opus", &keys), DerivedEntry::Ignored));
    assert!(matches!(derived_entry(Some("c.opus"), FileKind::File, true, "a/c.opus", &keys), DerivedEntry::Candidate));
    assert!(matches!(derived_entry(Some("a"), FileKind::Dir, true, "a", &keys), DerivedEntry::Directory));
    assert!(matches!(derived_entry(None, FileKind::File, true, "a/c.opus", &keys), DerivedEntry::Ignored));
}

#[test]
fn young_derived_files_stay() {
    let now = 10 * ORPHAN_GRACE_SECS;
    let old = stat(3, 0);
    let young = stat(3, now * 1_000_000_000);
    assert!(plan_derived("a".to_string(), &young, now).is_none());
    let f = plan_derived("a".to_string(), &old, now);
    assert!(matches!(f, Some(f) if f.bytes == 10 && f.inode == 3 && f.mtime_ns == 0));
}

#[test]
fn an_unreadable_root_stops_the_plan() {
    assert!(matches!(derived_unreadable(true, FsError::Exists), Some(GcError::Fs { .. })));
    assert!(derived_unreadable(false, FsError::Exists).is_none());
}

#[test]
fn directories_come_before_their_parents() {
    let dirs: Vec<String> = ["a", "a/b", "c", "a/b/d"].iter().map(|s| s.to_string()).collect();
    let sorted = sort_dirs(&dirs);
    let at = |p: &str| sorted.iter().position(|s| s == p);
    assert!(at("a/b/d") < at("a/b") && at("a/b") < at("a"));
    assert_eq!(sorted.len(), 4);
}

#[test]
fn names_of_pictures_are_digests() {
    assert!(is_hex64(&"0a".repeat(32)));
    assert!(!is_hex64(&"0g".repeat(32)) && !is_hex64("0a"));
    assert!(thumb_dir_is_collectable(Some(true)));
    assert!(!thumb_dir_is_collectable(Some(false)));
}

#[test]
fn pictures_that_nothing_uses_are_planned() {
    let (a, b, c) = ("a".repeat(64), "b".repeat(64), "c".repeat(64));
    let rows = plan_artwork_rows(
        &vec![
            LoosePicture { id: 1, hex: a.clone(), dir_exists: true },
            LoosePicture { id: 2, hex: b.clone(), dir_exists: true },
            LoosePicture { id: 3, hex: c.clone(), dir_exists: false },
        ],
        &vec![a.clone()],
    );
    assert_eq!(rows.iter().map(|r| r.id).collect::<Vec<_>>(), ids(&[1, 3]));
    let dirs = plan_artwork_dirs(
        &vec![a.clone(), b.clone()],
        &vec![a.clone(), b.clone()],
        &vec![PlannedArtwork { id: 1, hex: a.clone() }],
    );
    assert_eq!(dirs, vec![a]);
}

#[test]
fn every_item_is_counted_once() {
    let mut c = Counts::planned(3);
    c = count_item(c, ItemEnd::Removed(5));
    c = count_item(c, ItemEnd::Left(0));
    c = count_item(c, ItemEnd::Failed);
    assert_eq!((c.planned, c.deleted, c.bytes, c.skipped, c.failed), (3, 1, 5, 1, 1));
    let r = row_counts(4, 3);
    assert_eq!((r.planned, r.deleted, r.skipped), (4, 3, 1));
}

#[test]
fn removals_end_as_what_happened() {
    assert!(matches!(archive_end(false, Ok(Some(3)), true), ItemEnd::Left(_)));
    assert!(matches!(archive_end(true, Ok(Some(3)), true), ItemEnd::Removed(3)));
    assert!(matches!(archive_end(true, Err(FsError::Symlink), true), ItemEnd::Failed));
    assert!(matches!(derived_end(true, Ok(Some(4))), ItemEnd::Removed(4)));
    assert!(matches!(derived_end(true, Err(FsError::Exists)), ItemEnd::Failed));
    assert!(matches!(artwork_dir_end(&"a".repeat(64), true, Ok(Some(2))), ItemEnd::Removed(2)));
    assert!(matches!(artwork_dir_end(&"a".repeat(64), false, Ok(Some(2))), ItemEnd::Left(_)));
}

#[test]
fn a_file_that_changed_is_no_longer_planned() {
    let f = PlannedFile { rel_path: "a".to_string(), bytes: 10, inode: 3, mtime_ns: 4 };
    assert!(still_planned(&f, &stat(3, 4)));
    assert!(!still_planned(&f, &stat(3, 5)));
    assert!(!still_planned(&f, &stat(4, 4)));
}

#[test]
fn summaries_add_up() {
    let c = Counts { planned: 3, deleted: 1, bytes: 5, skipped: 1, failed: 1 };
    let s = Summary { tracks: c, albums: c, archived: c, derived: c, artwork_rows: c, artwork_dirs: c };
    assert_eq!(s.total_deleted(), 6);
    assert_eq!(s.total_bytes(), 15);
    let l = log_summary(&s);
    assert_eq!((l.skipped, l.failed), (6, 3));
}

#[test]
fn jobs_are_kept_for_days() {
    let r = JobsRetention::from_days(2, 0);
    assert_eq!(r.cutoffs(10 * 86_400), (Some(8 * 86_400), None));
}

#[test]
fn a_preview_shows_a_sample() {
    let tracks: Vec<PlannedTrack> =
        (0..60).map(|i| PlannedTrack { id: i, rel_path: format!("t{i}") }).collect();
    let plan = Plan {
        now: 5,
        cutoff: 3,
        tracks,
        albums: vec![],
        archived: vec![plan_archived(1, "x".to_string(), Some(9))],
        derived: vec![],
        derived_dirs: vec![],
        artwork_rows: vec![],
        artwork_dirs: vec![],
    };
    let p = Preview::of(&plan).with_jobs((1, 2));
    assert_eq!(p.tracks.count, 60);
    assert_eq!(p.tracks.sample.len(), PREVIEW_SAMPLE);
    assert_eq!(p.tracks.sample[0], "t0");
    assert_eq!(p.archived.bytes, 9);
    assert_eq!((p.jobs.done, p.jobs.failed), (1, 2));
    assert_eq!((p.now, p.cutoff), (5, 3));
}

#[test]
fn collection_errors_have_texts() {
    assert!(GcError::Cancelled.message().len() > 0);
    assert!(GcError::Db("x".to_string()).message().contains("x"));
    assert!(GcError::Join("y".to_string()).message().contains("y"));
    assert!(GcError::Fs { what: "Derived".to_string(), source: FsError::NotFound }.message().contains("Derived"));
}
