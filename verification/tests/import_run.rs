use spindle::catalog::{
    Codec, CacheColumns, Fingerprint, OpKind, Physical, PictureState, StoredPicture, TagSet, TrackContent,
};
use spindle::edit::batch::BatchEvent;
use spindle::edit::tags::Prepared;
use spindle::fsroot::{FileKind, FsError, Stat};
use spindle::import::commit::{
    Decision, Identity, PendingOp, ReadState, RowAction, RowFacts, Scanned, TrackSnap, Via,
};
use spindle::import::destination::AlbumRow;
use spindle::import::draft::{DraftTrack, InboxDraft};
use spindle::import::inbox::{InboxError, RipBinding};
use spindle::import::place::NumberedRow;
use spindle::import::placement::ExistingTrack;
use spindle::import::proposal::FileRow;
use spindle::import::register::{
    album_takes, derived_checks, item_placed, normalize_refused, register_item, register_tracks, registered, rip_record,
    sound_moved_on, RegisterNext, RegisterStage, RegisterWants,
};
use spindle::import::run::{
    close_commit, commit_paths, commit_rows, finish_rows, open_commit, overtaken_rows, run_stage, tally_rows, want_thumbs,
    ScanNext, ScanStage, Written,
};
use spindle::import::scanner::{RunState, ScanError, SkipReason, Skipped};
use spindle::import::sidecar::{FileEntry, RipEntry, RipReport, Sidecar};
use spindle::import::walk::InvEntry;

fn some(s: &str) -> Option<String> {
    Some(s.to_string())
}

fn entry(rel: &str) -> InvEntry {
    let dir = rel.rsplit_once('/').map(|(d, _)| d.to_string());
    InvEntry {
        rel: rel.to_string(),
        key: rel.to_lowercase(),
        dir_key: dir.clone().unwrap_or_default().to_lowercase(),
        dir,
        ph: Physical::of(&Stat { kind: FileKind::File, dev: 1, inode: 7, nlink: 1, size: 10, mtime_ns: 20, ctime_ns: 30 }),
        ext_codec: Codec::Flac,
    }
}

fn snap(id: i64, path: &str) -> TrackSnap {
    TrackSnap {
        id,
        rel_path: path.to_string(),
        rel_path_key: path.to_lowercase(),
        dev: Some(1),
        album_id: Some(id * 10),
        tag_hash: None,
        tag_version: 1,
        audio_version: 1,
        audio_md5: None,
        audio_fp: None,
        artwork_dirty: false,
    }
}

fn known(track_id: i64, changed: bool) -> Decision {
    Decision { identity: Identity::Existing { track_id, via: Via::Inode, changed, revived: false }, hardlink: false }
}

fn fresh() -> Decision {
    Decision { identity: Identity::New, hardlink: false }
}

fn facts(read: ReadState) -> RowFacts {
    RowFacts { read, holder: None, rip_dir: false }
}

fn scanned() -> Scanned {
    Scanned {
        entries: vec![
            entry("A/1.flac"),
            entry("A/2.flac"),
            entry("A/3.flac"),
            entry("b/4.flac"),
            entry("b/5.flac"),
            entry("b/6.wav"),
            entry("c/7.flac"),
        ],
        decisions: vec![known(1, false), known(2, true), fresh(), known(4, false), fresh(), known(6, true), known(7, false)],
        tracks: vec![
            snap(1, "A/1.flac"),
            snap(2, "A/2.flac"),
            snap(4, "old/4.flac"),
            snap(6, "b/6.wav"),
            snap(7, "C/x.flac"),
            snap(9, "b/4.flac"),
        ],
        pending: vec![
            PendingOp {
                op_id: 3,
                track_id: 6,
                kind: OpKind::Archive,
                expected_rel_path: some("b/6.wav"),
                target_rel_path: some("b/6.flac"),
                fits: true,
            },
        ],
        deep: false,
    }
}

#[test]
fn a_scan_commits_as_a_whole() {
    let s = scanned();
    let opened = open_commit(&s);
    assert_eq!(opened.held, vec![None, None, None, None, None, Some(6), None]);
    assert_eq!(opened.checks, vec![1, 3, 6]);
    let overtaken = overtaken_rows(&s, &opened.checks, &vec![false, false, true]);
    assert_eq!(overtaken, vec![7]);
    let paths = commit_paths(&s, &opened.held, &overtaken);
    assert_eq!(paths.moves.iter().map(|m| (m.track_id, m.rel_path.as_str())).collect::<Vec<_>>(), vec![(4, "b/4.flac")]);
    assert_eq!((paths.moved.clone(), paths.evicted.clone()), (vec![4], vec![9]));
    assert!(paths.conflicts.is_empty());
    let mut f = vec![facts(ReadState::NotRead); 7];
    f[1] = facts(ReadState::Read);
    f[2] = facts(ReadState::Read);
    f[4] = facts(ReadState::Failed);
    let effects = commit_rows(&s, &opened.held, &overtaken, &paths.moved, &f);
    let actions: Vec<RowAction> = effects.iter().map(|e| e.action).collect();
    assert_eq!(
        actions,
        vec![
            RowAction::Touch(1),
            RowAction::Content(2),
            RowAction::Insert(false),
            RowAction::Touch(4),
            RowAction::Nothing,
            RowAction::Touch(6),
            RowAction::Touch(7),
        ]
    );
    let inserted = vec![None, None, Some(30), None, None, None, None];
    let skipped = vec![Skipped { path: "ln".to_string(), reason: SkipReason::Symlink }];
    let t = tally_rows(&s, &effects, &inserted, &paths.conflicts, &overtaken, 5, 2, skipped);
    let r = &t.report;
    assert_eq!((r.run_id, r.files_seen, r.tmp_removed, r.skipped.len()), (5, 7, 2, 1));
    assert_eq!((r.new, r.updated, r.unchanged, r.errors, r.overtaken, r.revived), (1, 1, 1, 1, 1, 0));
    assert_eq!(r.changed_ids, vec![2, 30]);
    assert_eq!(t.groups.iter().map(|g| g.dir_key.as_str()).collect::<Vec<_>>(), vec!["a", "b"]);
    assert_eq!((t.groups[0].dir.clone(), t.groups[0].track_ids.clone()), (some("A"), vec![1, 2, 30]));
    assert_eq!((t.groups[0].previous_albums.clone(), t.groups[0].dirty), (vec![10, 20], true));
    assert_eq!((t.groups[1].track_ids.clone(), t.groups[1].dirty), (vec![4], true));
    let written = Written { missing: vec![9, 8], categories_registered: 1, albums_categorized: 2, jobs: vec![70] };
    let r = finish_rows(t.report, &paths, written);
    assert_eq!(r.changed_ids, vec![2, 4, 8, 9, 30]);
    assert_eq!((r.moved, r.missing_marked, r.categories_registered, r.albums_categorized), (1, 2, 1, 2));
    assert_eq!(r.enqueued_jobs, vec![70]);
    let c = close_commit(&s, &r, &vec![20, 33], &vec![]);
    assert_eq!(c.unresolved, vec![20, 33, 40, 90]);
    assert_eq!((c.all_unresolved, c.state, c.files, c.errors), (false, RunState::Completed, 7, 1));
}

#[test]
fn lost_renames_count_as_changed() {
    let mut s = scanned();
    s.pending[0].kind = OpKind::Rename;
    s.pending[0].expected_rel_path = some("b/0.wav");
    s.tracks[3].rel_path = "c/6.wav".to_string();
    let opened = open_commit(&s);
    let paths = commit_paths(&s, &opened.held, &vec![]);
    assert_eq!(paths.conflicts.iter().map(|c| (c.op_id, c.track_id)).collect::<Vec<_>>(), vec![(3, 6)]);
    assert_eq!(paths.conflicts[0].reason, "外部で b/6.wav へ移動されていた");
    let f = vec![facts(ReadState::NotRead); 7];
    let effects = commit_rows(&s, &opened.held, &vec![], &paths.moved, &f);
    let t = tally_rows(&s, &effects, &vec![None; 7], &paths.conflicts, &vec![], 1, 0, vec![]);
    assert_eq!(t.report.changed_ids, vec![6]);
}

#[test]
fn a_quiet_scan_changes_nothing() {
    let s = Scanned {
        entries: vec![entry("A/1.flac"), entry("A/2.flac")],
        decisions: vec![known(1, false), known(2, false)],
        tracks: vec![snap(1, "A/1.flac"), snap(2, "A/2.flac")],
        pending: vec![],
        deep: false,
    };
    let opened = open_commit(&s);
    assert!(opened.checks.is_empty());
    let paths = commit_paths(&s, &opened.held, &vec![]);
    assert!(paths.moves.is_empty() && paths.evicted.is_empty());
    let f = vec![facts(ReadState::NotRead); 2];
    let effects = commit_rows(&s, &opened.held, &vec![], &paths.moved, &f);
    let t = tally_rows(&s, &effects, &vec![None, None], &paths.conflicts, &vec![], 1, 0, vec![]);
    assert_eq!((t.report.unchanged, t.report.changed_ids.len()), (2, 0));
    assert!(t.groups.iter().all(|g| !g.dirty));
}

fn content(picture: PictureState) -> TrackContent {
    TrackContent {
        codec: "flac".to_string(),
        lossless: true,
        sample_rate: None,
        bit_depth: None,
        channels: None,
        bitrate: None,
        duration_ms: None,
        tag_hash: [0; 32],
        tags: TagSet { items: vec![] },
        cache: CacheColumns {
            title: None,
            artist_display: None,
            albumartist: None,
            track_no: None,
            disc_no: None,
            date: None,
        },
        picture,
    }
}

#[test]
fn pictures_without_thumbnails_are_listed_once() {
    let found = |b: u8, needs_thumbs| content(PictureState::Found(StoredPicture { sha256: [b; 32], needs_thumbs }));
    let mut late = [9; 32];
    late[31] = 10;
    let contents = vec![
        found(9, true),
        content(PictureState::Absent),
        found(3, true),
        content(PictureState::Found(StoredPicture { sha256: late, needs_thumbs: true })),
        found(9, true),
        found(1, false),
    ];
    assert_eq!(want_thumbs(&contents), vec![[3; 32], [9; 32], late]);
    let mut s = scanned();
    s.deep = true;
    let t = tally_rows(&s, &commit_rows(&s, &vec![None; 7], &vec![], &vec![], &vec![facts(ReadState::Read); 7]), &vec![None; 7], &vec![], &vec![], 1, 0, vec![]);
    let c = close_commit(&s, &t.report, &vec![], &contents);
    assert!(c.all_unresolved);
    assert_eq!(c.thumbs.len(), 3);
}

#[test]
fn a_scan_goes_from_phase_to_phase() {
    let mut stage = ScanStage::Walk;
    let mut seen = vec![stage];
    while let ScanNext::Go(next) = run_stage(stage, None, false, true) {
        stage = next;
        seen.push(stage);
    }
    assert_eq!(
        seen,
        vec![
            ScanStage::Walk,
            ScanStage::Snapshot,
            ScanStage::Digests,
            ScanStage::Resolve,
            ScanStage::Read,
            ScanStage::Commit,
            ScanStage::Artwork,
        ]
    );
    assert!(matches!(run_stage(ScanStage::Commit, None, true, false), ScanNext::Done));
    assert!(matches!(run_stage(ScanStage::Read, None, true, true), ScanNext::Stop(ScanError::Cancelled)));
    assert!(matches!(run_stage(ScanStage::Snapshot, None, true, true), ScanNext::Go(ScanStage::Digests)));
    let fault = || Some(ScanError::Walk { path: "p".to_string(), source: FsError::NotFound });
    assert!(matches!(run_stage(ScanStage::Walk, fault(), true, true), ScanNext::Stop(ScanError::Walk { .. })));
    assert!(matches!(run_stage(ScanStage::Artwork, fault(), true, true), ScanNext::Done));
}

#[test]
fn an_item_is_registered_as_a_whole() {
    let walk = |wants: RegisterWants| {
        let mut stage = RegisterStage::Album;
        let mut seen = vec![stage];
        while let RegisterNext::Go(next) = register_item(stage, None, wants) {
            stage = next;
            seen.push(stage);
        }
        seen
    };
    assert_eq!(
        walk(RegisterWants { record: true, normalize: true }),
        vec![
            RegisterStage::Album,
            RegisterStage::Fit,
            RegisterStage::Tracks,
            RegisterStage::Record,
            RegisterStage::Jobs,
            RegisterStage::Normalize,
            RegisterStage::Finish,
        ]
    );
    assert_eq!(walk(RegisterWants { record: false, normalize: false }).len(), 5);
    let wants = RegisterWants { record: true, normalize: true };
    assert!(matches!(
        register_item(RegisterStage::Normalize, Some(normalize_refused("x")), wants),
        RegisterNext::Undo(InboxError::Conflict(m)) if m == "normalize を投入できない: x"
    ));
    assert!(matches!(register_item(RegisterStage::Finish, None, wants), RegisterNext::Done));
}

fn track(path: &str, disc_no: u32, track_no: u32) -> DraftTrack {
    DraftTrack {
        rel_path: path.to_string(),
        disc_no,
        track_no,
        title: "t".to_string(),
        artist: String::new(),
        keep_artists: None,
        tags: vec![],
        picture: None,
    }
}

fn draft(tracks: Vec<DraftTrack>) -> InboxDraft {
    InboxDraft {
        category: None,
        albumartist: "aa".to_string(),
        album: "al".to_string(),
        date: None,
        tracks,
        album_gain: false,
        release_id: None,
        release_group_id: None,
    }
}

fn file(path: &str, tags: &[(&str, &str)]) -> FileRow {
    FileRow {
        rel_path: path.to_string(),
        inode: 7,
        size: 10,
        mtime_ns: 20,
        ctime_ns: 30,
        codec: "flac".to_string(),
        lossless: true,
        sample_rate: None,
        bit_depth: None,
        channels: None,
        duration_ms: None,
        tags: tags.iter().map(|(k, v)| (k.to_string(), v.to_string())).collect(),
    }
}

#[test]
fn an_album_takes_what_fits() {
    let d = draft(vec![track("a", 1, 1), track("b", 1, 2)]);
    let paths = vec!["x/1.flac".to_string(), "x/2.flac".to_string()];
    let row = |no, key: &str| NumberedRow { disc_no: None, track_no: Some(no), key: key.to_string() };
    let cd = vec![file("a", &[("MUSICBRAINZ_DISCID", "d")])];
    let plain = vec![file("a", &[])];
    let there = || vec![AlbumRow { disc_no: 2, cd: true, own: false }];
    assert!(album_takes(&vec![row(1, "x/1.flac")], &there(), &None, &paths, &d, &cd).is_ok());
    assert!(matches!(
        album_takes(&vec![row(2, "x/other.flac")], &there(), &None, &paths, &d, &plain),
        Err(InboxError::Conflict(m)) if m == "宛先の album に同じ番号のトラックがある: disc 1 track 2"
    ));
    assert!(matches!(
        album_takes(&vec![], &there(), &some(""), &paths, &d, &plain),
        Err(InboxError::Conflict(m)) if m == "CD でない件を CD の album に入れない"
    ));
    assert!(album_takes(&vec![], &there(), &some("mbid"), &paths, &d, &plain).is_ok());
    let taken = vec![AlbumRow { disc_no: 1, cd: true, own: false }];
    assert!(matches!(
        album_takes(&vec![], &taken, &None, &paths, &d, &cd),
        Err(InboxError::Conflict(m)) if m == "album に同じディスク番号 1 の盤が既にある"
    ));
}

#[test]
fn rows_of_the_same_sound_are_adopted() {
    let e = |id, b: u8| Some(ExistingTrack { id, audio_md5: Some([b; 16]), audio_fp: None, audio_version: 3 });
    let md5 = |b: u8| Fingerprint::Md5(Some([b; 16]));
    let paths = vec!["x/1".to_string(), "x/2".to_string(), "x/3".to_string()];
    let v = register_tracks(&vec![None, e(5, 1), None], &vec![md5(1), md5(1), md5(1)], &paths).unwrap();
    assert_eq!(v.iter().map(|r| r.map(|x| (x.id, x.adopted, x.audio_version))).collect::<Vec<_>>(), vec![None, Some((5, true, 3)), None]);
    assert!(matches!(
        register_tracks(&vec![None, e(5, 2), e(6, 2)], &vec![md5(1), md5(1), md5(1)], &paths),
        Err(InboxError::Conflict(m)) if m == "x/2: 別の音声の行（track 5）が既にある"
    ));
}

#[test]
fn a_disc_is_recorded_once() {
    let rip = || {
        Some(RipBinding {
            entry: RipEntry {
                toc: String::new(),
                metadata_tracks: 2,
                files: vec![],
                log: String::new(),
                report: RipReport { slips: vec![], crcs: vec![], ctdb: None, accuraterip: None },
                isrcs: vec![],
                mcn: None,
            },
            index: vec![1, 0],
            disc_no: 1,
        })
    };
    assert_eq!(rip_record(&rip(), false, &vec![10, 20]), Some(vec![20, 10]));
    assert_eq!(rip_record(&rip(), true, &vec![10, 20]), None);
    assert_eq!(rip_record(&None, false, &vec![10, 20]), None);
    assert!(matches!(sound_moved_on(4), InboxError::Conflict(m) if m == "track 4 の音声版が登録の途中で進んだ"));
}

#[test]
fn what_was_registered_is_told() {
    assert_eq!(derived_checks(&vec![1, 2], &vec![9]), vec![1, 2, 9]);
    let batch = Prepared {
        batch_id: 8,
        affected: 1,
        unchanged: 0,
        conflict: 0,
        job_ids: vec![33],
        event: Some(BatchEvent { id: 8, state: "done".to_string(), applied: 0, conflict: 1, failed: 0 }),
    };
    let r = registered(4, vec![1, 2], &vec![11], &vec![22], Some(batch));
    assert_eq!((r.album_id, r.job_ids.clone(), r.normalize_batch), (4, vec![11, 22, 33], Some(8)));
    assert!(r.batch_event.is_some());
    let mut s = Sidecar::new();
    let note = |subscription_id| FileEntry {
        source: "youtube".to_string(),
        url: None,
        channel: None,
        verdict: "ok".to_string(),
        message: None,
        subscription_id,
        position: None,
    };
    s.upsert(None, "a", note(Some(6)));
    s.upsert(None, "b", note(None));
    s.upsert(None, "c", note(Some(6)));
    let p = item_placed(r, "x".to_string(), &Some(s));
    assert_eq!((p.album_id, p.rel_dir.as_str(), p.track_ids, p.job_ids), (4, "x", vec![1, 2], vec![11, 22, 33]));
    assert_eq!((p.normalize_batch, p.subscription_ids), (Some(8), vec![6]));
    let bare = registered(4, vec![1], &vec![11], &vec![], None);
    assert_eq!((bare.job_ids, bare.normalize_batch, bare.batch_event.is_none()), (vec![11], None, true));
}
