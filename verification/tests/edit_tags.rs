use spindle::catalog::{Fingerprint, OpKind, PictureState, StoredPicture, TagSet};
use spindle::edit::batch::{
    apply_op, cancel_batch, cancelled, close_op, finish_tags, recover, requeue_key, row_action, ApplyStart, BatchEvent,
    CancelOutcome, CloseStep, Op, OpOutcome, OpenBatch, RowAction, WaitingOp,
};
use spindle::edit::error::{list_of_numbers, EditError};
use spindle::edit::history::{
    find_edit, json_text, json_values, mismatches, values_json, Edit, JobState, JsonItem, JsonValue, OpResult,
    Precondition,
};
use spindle::edit::naming::{
    ext_of, flac_rel_path, in_progress_keys, md5_dedup_key, normalize_dedup_key, normalize_in_progress_keys,
    normalize_temp_rel_path, rename_dedup_key, tagwrite_dedup_key, temp_rel_path,
};
use spindle::edit::picture::{
    parse_picture_value, picture_prepared, picture_value, prepare_picture, with_picture, PICTURE_KEY,
};
use spindle::edit::tags::{
    changes_to_write, check_selection, check_written, diff_sets, file_matches_new_values, find_duplicate,
    follow_picture_change, open_failed, picture_edit, pictures_ready, prepare_rg_write, prepare_tags, recheck,
    resolve_overlay, rg_prepared, same_stat, stage_tags, sync_track_to_file, tag_stage, tags_prepared, tags_unreadable,
    with_replaced, written_without_op,
    LoudnessRow, PlanTarget, Resolved, TagEnd, TagNext, TagStage, TagStep, TargetState,
};
use spindle::fsroot::{FileKind, FsError, Stat};

fn tags(v: &[(&str, &str)]) -> TagSet {
    TagSet { items: v.iter().map(|(k, v)| (k.to_string(), v.to_string())).collect() }
}

fn pairs(t: &TagSet) -> Vec<(&str, &str)> {
    t.items.iter().map(|(k, v)| (k.as_str(), v.as_str())).collect()
}

fn list(v: &[&str]) -> JsonValue {
    JsonValue::List(v.iter().map(|s| JsonItem::Text(s.to_string())).collect())
}

fn edit(key: &str, old: JsonValue, new: JsonValue) -> Edit {
    Edit { key: key.to_string(), old_value: old, new_value: new }
}

fn stat() -> Stat {
    Stat { kind: FileKind::File, dev: 1, inode: 7, nlink: 1, size: 10, mtime_ns: 20, ctime_ns: 30 }
}

fn precondition() -> Precondition {
    Precondition {
        rel_path: Some("a/b.flac".to_string()),
        dev: Some(1),
        inode: Some(7),
        size: Some(10),
        mtime_ns: Some(20),
        ctime_ns: Some(30),
        tag_hash: Some(vec![9; 32]),
    }
}

fn op(id: i64, track_id: i64, kind: OpKind, result: OpResult) -> Op {
    Op { id, batch_id: 100, track_id, kind, result, job_id: None }
}

#[test]
fn values_are_recorded_and_read_back() {
    let v = vec!["a".to_string(), "b".to_string()];
    assert_eq!(json_values(&values_json(&v)), v);
    assert_eq!(json_values(&values_json(&vec![])), Vec::<String>::new());
    assert_eq!(json_values(&JsonValue::Null), Vec::<String>::new());
    assert_eq!(json_text(&JsonValue::Text("x".to_string())), "x");
    assert_eq!(json_text(&JsonValue::Int(3)), "");
}

#[test]
fn replacing_sets_the_values_of_a_key() {
    let t = tags(&[("TITLE", "x"), ("ARTIST", "a"), ("ARTIST", "b")]);
    let r = with_replaced(&t, &vec![("ARTIST".to_string(), vec!["c".to_string()])]);
    assert_eq!(r.values("ARTIST"), vec!["c".to_string()]);
    assert_eq!(r.values("TITLE"), vec!["x".to_string()]);
    let gone = with_replaced(&t, &vec![("ARTIST".to_string(), vec![])]);
    assert_eq!(pairs(&gone), vec![("TITLE", "x")]);
}

#[test]
fn differences_are_the_keys_that_changed() {
    let a = tags(&[("TITLE", "x"), ("ARTIST", "a")]);
    let b = tags(&[("TITLE", "y"), ("ARTIST", "a"), ("GENRE", "g")]);
    let d = diff_sets(&a, &b);
    assert_eq!(d.iter().map(|e| e.key.as_str()).collect::<Vec<_>>(), vec!["GENRE", "TITLE"]);
    assert_eq!(json_values(&d[1].old_value), vec!["x".to_string()]);
    assert_eq!(json_values(&d[1].new_value), vec!["y".to_string()]);
    assert!(diff_sets(&a, &a).is_empty());
}

#[test]
fn giving_up_puts_the_old_values_back() {
    let before = tags(&[("TITLE", "x"), ("ARTIST", "a"), ("ARTIST", "b")]);
    let after = with_replaced(&before, &vec![("ARTIST".to_string(), vec!["c".to_string()])]);
    let d = diff_sets(&before, &after);
    let Resolved::Restore(back) = resolve_overlay(false, &after, &precondition(), &d) else {
        panic!("a file that cannot be read is not followed");
    };
    assert_eq!(back.tags.values("ARTIST"), before.values("ARTIST"));
    assert_eq!(back.tags.values("TITLE"), before.values("TITLE"));
    assert_eq!(back.tag_hash, precondition().tag_hash);
    assert_eq!(back.stat.inode, precondition().inode);
    assert_eq!(back.stat.ctime_ns, precondition().ctime_ns);
    assert!(matches!(resolve_overlay(true, &after, &precondition(), &d), Resolved::FollowFile));
}

#[test]
fn a_file_that_was_not_touched_differs_in_nothing() {
    assert!(mismatches(&precondition(), &stat(), &[9; 32], "a/b.flac").is_empty());
    let mut st = stat();
    st.inode = 8;
    st.size = 11;
    assert_eq!(mismatches(&precondition(), &st, &[8; 32], "a/b.flac"), vec!["inode", "size", "tag_hash"]);
}

#[test]
fn moving_a_file_touches_only_the_time_of_its_inode() {
    let mut st = stat();
    st.ctime_ns = 31;
    assert_eq!(mismatches(&precondition(), &st, &[9; 32], "a/b.flac"), vec!["ctime_ns"]);
    assert!(mismatches(&precondition(), &st, &[9; 32], "c/b.flac").is_empty());
    st.dev = 99;
    assert!(mismatches(&precondition(), &st, &[9; 32], "c/b.flac").is_empty());
}

#[test]
fn a_selection_names_each_track_once() {
    assert_eq!(find_duplicate(&vec![3, 1, 3, 1]), Some(1));
    assert!(matches!(check_selection(&vec![3, 3], vec![]), Err(EditError::DuplicateTrack(3))));
    assert!(matches!(check_selection(&vec![3], vec![3]), Err(EditError::Pending { track_ids }) if track_ids == vec![3]));
    assert!(check_selection(&vec![3, 4], vec![]).is_ok());
}

fn target(track_id: i64, version: Option<i64>, conflict: Option<&str>) -> PlanTarget {
    PlanTarget {
        track_id,
        expected_tag_version: version,
        index: 0,
        expected: None,
        conflict: conflict.map(|s| s.to_string()),
    }
}

fn state(version: Option<i64>, new: Result<&[(&str, &str)], &str>) -> TargetState {
    TargetState {
        precondition: version.map(|_| precondition()),
        tag_version: version,
        current: tags(&[("TITLE", "x")]),
        new: new.map(tags).map_err(|e| e.to_string()),
    }
}

#[test]
fn a_batch_records_what_changes() {
    let mut targets = vec![
        target(1, None, None),
        target(2, Some(4), None),
        target(3, None, Some("why")),
        target(4, None, None),
    ];
    let mut seen = precondition();
    seen.inode = Some(70);
    targets[1].expected = Some(seen);
    let states = vec![
        state(Some(5), Ok(&[("TITLE", "y")])),
        state(Some(6), Ok(&[("TITLE", "y")])),
        state(Some(7), Ok(&[("TITLE", "y")])),
        state(Some(8), Ok(&[("TITLE", "x")])),
    ];
    let b = prepare_tags(&targets, &states, vec![]).unwrap();
    assert_eq!(b.planned.len(), 1);
    assert_eq!((b.planned[0].target, b.planned[0].tag_version), (0, 6));
    assert_eq!(b.conflicts.len(), 2);
    assert_eq!(b.conflicts[0].error, "プレビューの後に変更された（tag_version 4 → 6）");
    assert_eq!(b.conflicts[1].error, "why");
    assert_eq!(b.unchanged, 1);
    assert_eq!((b.planned[0].expected.inode, b.planned[0].expected.tag_hash.clone()), (Some(7), Some(vec![9; 32])));
    assert_eq!(b.conflicts[0].expected.inode, Some(70));
    let ended = BatchEvent { id: 5, state: "done".to_string(), applied: 1, conflict: 2, failed: 0 };
    let p = tags_prepared(5, &b, vec![8], Some(ended));
    assert_eq!((p.batch_id, p.affected, p.unchanged, p.conflict, p.job_ids.clone()), (5, 3, 1, 2, vec![8]));
    assert!(matches!(&p.event, Some(e) if e.id == 5 && e.conflict == 2));
    let rows = vec![LoudnessRow { id: 1, missing: false, scanned: true }, LoudnessRow { id: 2, missing: true, scanned: true }];
    let s = prepare_rg_write(&vec![1, 2], vec![], &rows).unwrap();
    let r = rg_prepared(&s, Some(p), 4);
    assert_eq!((r.batch_id, r.affected, r.unchanged, r.missing, r.unscanned), (Some(5), 3, 4, 1, 0));
    assert!(r.event.is_some());
    let r = rg_prepared(&s, None, 2);
    assert_eq!((r.batch_id, r.affected, r.unchanged, r.job_ids.len()), (None, 0, 2, 0));
}

#[test]
fn a_batch_stops_at_what_is_not_there() {
    let t = vec![target(1, None, None)];
    assert!(matches!(
        prepare_tags(&t, &vec![state(None, Ok(&[]))], vec![]),
        Err(EditError::TrackNotFound(1))
    ));
    assert!(matches!(
        prepare_tags(&t, &vec![state(Some(1), Err("bad"))], vec![]),
        Err(EditError::Internal(e)) if e == "bad"
    ));
    assert!(matches!(
        prepare_tags(&t, &vec![state(Some(1), Ok(&[("TITLE", "x")]))], vec![]),
        Err(EditError::NoChanges)
    ));
    assert!(matches!(
        prepare_tags(&t, &vec![state(Some(1), Ok(&[]))], vec![1]),
        Err(EditError::Pending { .. })
    ));
}

#[test]
fn loudness_is_written_where_it_was_measured() {
    let rows = vec![
        LoudnessRow { id: 1, missing: false, scanned: true },
        LoudnessRow { id: 2, missing: true, scanned: true },
        LoudnessRow { id: 3, missing: false, scanned: false },
    ];
    let s = prepare_rg_write(&vec![3, 2, 1], vec![], &rows).unwrap();
    assert_eq!(s.targets, vec![1]);
    assert_eq!((s.missing, s.unscanned), (1, 1));
    assert!(matches!(prepare_rg_write(&vec![1, 9, 8], vec![], &rows), Err(EditError::TrackNotFound(8))));
    assert_eq!(written_without_op(&vec![1, 2, 3], &vec![2]), vec![1, 3]);
}

#[test]
fn a_step_follows_from_the_look_of_the_file() {
    let edits = vec![edit("TITLE", list(&["x"]), list(&["y"]))];
    let t = tags(&[("TITLE", "x")]);
    assert!(matches!(
        stage_tags(&precondition(), &stat(), &[9; 32], "a/b.flac", &t, &edits),
        TagEnd { step: TagStep::Write, current_known: true }
    ));
    let written = tags(&[("TITLE", "y")]);
    assert!(matches!(
        stage_tags(&precondition(), &stat(), &[8; 32], "a/b.flac", &written, &edits),
        TagEnd { step: TagStep::AlreadyMatches, current_known: true }
    ));
    assert!(matches!(
        stage_tags(&precondition(), &stat(), &[8; 32], "a/b.flac", &t, &edits),
        TagEnd { step: TagStep::Conflict(m), current_known: true } if m == "事前条件不一致: tag_hash"
    ));
    assert!(file_matches_new_values(&written, &edits) && !file_matches_new_values(&t, &edits));
}

#[test]
fn faults_of_files_are_conflicts_or_errors() {
    assert!(matches!(
        open_failed(FsError::NotFound, "a"),
        Ok(TagEnd { step: TagStep::Conflict(m), current_known: false }) if m == "ファイルを開けない: a"
    ));
    assert!(matches!(open_failed(FsError::Exists, "a"), Err(EditError::Fs(FsError::Exists))));
    assert!(matches!(
        tags_unreadable("x"),
        TagEnd { step: TagStep::Conflict(m), current_known: false } if m == "タグを読めない: x"
    ));
    assert!(recheck(&stat(), &Some(stat()), true).is_none());
    assert!(matches!(
        recheck(&stat(), &None, true),
        Some(TagEnd { step: TagStep::Conflict(m), current_known: false }) if m == "反映の直前にファイルが無くなった"
    ));
    let mut other = stat();
    other.ctime_ns = 31;
    assert!(matches!(
        recheck(&stat(), &Some(other), true),
        Some(TagEnd { step: TagStep::Conflict(m), current_known: true }) if m == "反映の直前に外部で更新された"
    ));
    assert!(matches!(
        recheck(&stat(), &Some(other), false),
        Some(TagEnd { step: TagStep::Conflict(_), current_known: false })
    ));
    assert!(same_stat(&stat(), &stat()) && !same_stat(&stat(), &other));
}

#[test]
fn pictures_are_written_apart_from_tags() {
    let edits = vec![
        edit("TITLE", list(&["x"]), JsonValue::Null),
        edit(PICTURE_KEY, list(&[]), list(&["image/png:00"])),
    ];
    assert_eq!(picture_edit(&edits), Some(1));
    assert_eq!(find_edit(&edits, "GENRE"), None);
    let c = changes_to_write(&edits);
    assert_eq!(c.len(), 1);
    assert_eq!(c[0].key, "TITLE");
    assert_eq!(c[0].values, None);
    assert!(pictures_ready(true, &vec!["a".to_string()], &vec![true]).is_none());
    assert!(matches!(
        pictures_ready(true, &vec!["a".to_string()], &vec![false]),
        Some(TagEnd { step: TagStep::Failed(m), current_known: true }) if m == "画像がキャッシュに無い: a"
    ));
    assert!(matches!(
        pictures_ready(false, &vec![], &vec![]),
        Some(TagEnd { step: TagStep::Failed(_), current_known: true })
    ));
}

#[test]
fn what_a_format_cannot_hold_is_a_failure() {
    let edits = vec![edit("TITLE", list(&["x"]), list(&["y"])), edit("GENRE", list(&[]), list(&["g"]))];
    assert!(check_written(&tags(&[("TITLE", "y"), ("GENRE", "g")]), &edits).is_none());
    assert!(matches!(
        check_written(&tags(&[("TITLE", "z")]), &edits),
        Some(TagEnd { step: TagStep::Failed(m), current_known: true }) if m.ends_with("TITLE, GENRE")
    ));
}

#[test]
fn a_changed_sound_is_a_new_version() {
    let same = sync_track_to_file(Fingerprint::Md5(Some([1; 16])), Some([1; 16]), None, 3);
    assert!(!same.reset_analysis && same.audio_version == 3);
    let other = sync_track_to_file(Fingerprint::Md5(Some([2; 16])), Some([1; 16]), None, 3);
    assert!(other.reset_analysis && other.audio_version == 4);
}

#[test]
fn a_changed_picture_is_followed() {
    let found = PictureState::Found(StoredPicture { sha256: [0; 32], needs_thumbs: true });
    let f = follow_picture_change(&found, true, Some(1), Some(2));
    assert!(f.thumbnails && f.rescan);
    let u = follow_picture_change(&PictureState::Unread, true, Some(1), Some(2));
    assert!(!u.thumbnails && !u.rescan);
}

#[test]
fn operations_are_carried_out_by_their_kind() {
    assert!(matches!(apply_op(&op(1, 2, OpKind::Tags, OpResult::Pending)), Ok(ApplyStart::Tags)));
    assert!(matches!(apply_op(&op(1, 2, OpKind::Md5, OpResult::Pending)), Ok(ApplyStart::Md5)));
    assert!(matches!(
        apply_op(&op(1, 2, OpKind::Rename, OpResult::Pending)),
        Err(EditError::UnsupportedKind(OpKind::Rename))
    ));
    assert!(matches!(
        apply_op(&op(1, 2, OpKind::Tags, OpResult::Failed)),
        Ok(ApplyStart::Done(OpOutcome::AlreadyTerminal(OpResult::Failed)))
    ));
    assert_eq!(close_op(&op(1, 2, OpKind::Rename, OpResult::Pending), false), CloseStep::CloseRenames);
    assert_eq!(close_op(&op(1, 2, OpKind::Archive, OpResult::Pending), false), CloseStep::RestoreSource);
    assert_eq!(close_op(&op(1, 2, OpKind::Md5, OpResult::Pending), true), CloseStep::MarkOnly);
    assert_eq!(close_op(&op(1, 2, OpKind::Tags, OpResult::Applied), true), CloseStep::Nothing);
}

#[test]
fn a_row_follows_a_file_that_was_read() {
    for known in [true, false] {
        for (step, result) in [
            (TagStep::Conflict("m".to_string()), OpResult::SkippedConflict),
            (TagStep::Failed("m".to_string()), OpResult::Failed),
        ] {
            let end = finish_tags(step, known);
            assert_eq!(end.result, result);
            assert_eq!((end.follow_file, end.undo_overlay), (known, !known));
            let action = if known { RowAction::FollowFile } else { RowAction::UndoOverlay };
            assert_eq!(row_action(&end, true), action);
            assert_eq!(row_action(&end, false), RowAction::Nothing);
        }
        for kind in [OpKind::Tags, OpKind::Delete] {
            let step = if known { CloseStep::FollowFile } else { CloseStep::UndoOverlay };
            assert_eq!(close_op(&op(1, 2, kind, OpResult::Pending), known), step);
        }
    }
    for step in [TagStep::Write, TagStep::AlreadyMatches] {
        let end = finish_tags(step, true);
        assert!(matches!(end.outcome, OpOutcome::Applied) && end.result == OpResult::Applied);
        assert_eq!(row_action(&end, false), RowAction::FollowFile);
    }
}

#[test]
fn cancelling_closes_what_is_not_under_way() {
    let mut running = op(2, 2, OpKind::Tags, OpResult::Pending);
    running.job_id = Some(50);
    let waiting = vec![
        WaitingOp { op: op(1, 1, OpKind::Tags, OpResult::Pending), job: Some(JobState::Queued) },
        WaitingOp { op: running, job: Some(JobState::Running) },
    ];
    let plan = cancel_batch(Some(false), &waiting).unwrap();
    assert_eq!(plan.to_close, vec![1]);
    assert_eq!(plan.running, vec![50]);
    let (outcome, closed) = cancelled(1, &plan);
    assert!(matches!(outcome, CancelOutcome::Cancelled { ops_cancelled: 1, running: 1 }));
    assert!(!closed);
    assert!(matches!(cancel_batch(None, &waiting), Err(CancelOutcome::NotFound)));
    assert!(matches!(cancel_batch(Some(true), &waiting), Err(CancelOutcome::NotCancellable)));
}

#[test]
fn recovering_queues_what_no_job_carries() {
    let w = |id, job| WaitingOp { op: op(id, id, OpKind::Tags, OpResult::Pending), job };
    let plan = recover(&vec![
        OpenBatch {
            batch_id: 1,
            waiting: vec![
                w(1, Some(JobState::Cancelled)),
                w(2, Some(JobState::Queued)),
                w(3, None),
                w(4, Some(JobState::Failed)),
            ],
        },
        OpenBatch { batch_id: 2, waiting: vec![] },
    ]);
    assert_eq!(plan.to_cancel, vec![1]);
    assert_eq!(plan.to_requeue.iter().map(|o| o.id).collect::<Vec<_>>(), vec![3, 4]);
    assert_eq!(plan.to_aggregate, vec![2]);
}

#[test]
fn jobs_have_keys() {
    assert_eq!(tagwrite_dedup_key(3, 5), "tagwrite:3:5");
    assert_eq!(md5_dedup_key(3, 5), "tagwrite:3:md5:5");
    assert_eq!(normalize_dedup_key(3, 5), "normalize:3:5");
    assert_eq!(rename_dedup_key(3), "rename:batch:3");
    assert_ne!(normalize_dedup_key(1, 23), normalize_dedup_key(12, 3));
    assert_eq!(requeue_key(&op(5, 3, OpKind::Tags, OpResult::Pending), Some(7)), Some("tagwrite:3:7".to_string()));
    assert_eq!(requeue_key(&op(5, 3, OpKind::Tags, OpResult::Pending), None), None);
    assert_eq!(requeue_key(&op(5, 3, OpKind::Rename, OpResult::Pending), None), Some("rename:batch:100".to_string()));
    assert_eq!(requeue_key(&op(5, 3, OpKind::Delete, OpResult::Pending), None), None);
}

#[test]
fn files_work_under_names_of_their_own() {
    assert_eq!(temp_rel_path(4, "a/b.wav", true), Some("a/spindle-rename-4.wav".to_string()));
    assert_eq!(temp_rel_path(4, "b", true), Some("spindle-rename-4".to_string()));
    assert_eq!(temp_rel_path(4, "../b", false), None);
    assert_eq!(normalize_temp_rel_path(4, "a/b.wav", true), Some("a/spindle-normalize-4.wav".to_string()));
    assert_eq!(normalize_temp_rel_path(4, "../b.wav", false), None);
    assert_ne!(temp_rel_path(1, "a/b.2", true), temp_rel_path(12, "a/b", true));
    assert_eq!(
        in_progress_keys(4, "A/b.wav", "c.wav", true),
        vec!["a/b.wav", "c.wav", "a/spindle-rename-4.wav"]
    );
    assert_eq!(
        normalize_in_progress_keys(4, "A/b.wav", "A/b.flac", true),
        vec!["a/b.wav", "a/b.flac", "a/spindle-normalize-4.wav"]
    );
    assert_eq!(in_progress_keys(4, "../b.wav", "c.wav", false), vec!["../b.wav", "c.wav"]);
    assert_eq!(ext_of("a.b/c.FLAC"), Some("FLAC".to_string()));
}

#[test]
fn the_flac_stands_beside_its_source() {
    assert_eq!(flac_rel_path("a/b.wav"), "a/b.flac");
    assert_eq!(flac_rel_path("a/b"), "a/b.flac");
    assert_eq!(flac_rel_path("a.d/.wav"), "a.d/.wav.flac");
}

#[test]
fn picture_values_are_read_back() {
    let v = picture_value("image/png", &[0xab; 32]);
    assert_eq!(v, format!("image/png:{}", "ab".repeat(32)));
    assert_eq!(parse_picture_value(&v), Some(("image/png".to_string(), [0xab; 32])));
    assert_eq!(parse_picture_value("image/png:ab"), None);
    assert_eq!(parse_picture_value("nothing"), None);
}

#[test]
fn a_picture_goes_to_tracks_with_a_file() {
    let rows = vec![
        LoudnessRow { id: 1, missing: false, scanned: false },
        LoudnessRow { id: 2, missing: true, scanned: false },
    ];
    let s = prepare_picture(true, Some("image/png"), &[1; 32], &vec![2, 1], vec![], &rows).unwrap();
    assert_eq!(s.targets, vec![1]);
    assert_eq!(s.missing, 1);
    assert_eq!(s.value, picture_value("image/png", &[1; 32]));
    let b = prepare_tags(&vec![target(1, None, None)], &vec![state(Some(5), Ok(&[("TITLE", "y")]))], vec![]).unwrap();
    let p = picture_prepared(&s, tags_prepared(6, &b, vec![9], None));
    assert_eq!((p.batch_id, p.affected, p.missing, p.job_ids, p.event.is_none()), (Some(6), 1, 1, vec![9], true));
    let t = with_picture(&tags(&[("PICTURE", "old"), ("TITLE", "x")]), &s.value);
    assert_eq!(t.values("PICTURE"), vec![s.value]);
    assert_eq!(t.values("TITLE"), vec!["x".to_string()]);
    let none = vec![LoudnessRow { id: 2, missing: true, scanned: false }];
    assert!(matches!(
        prepare_picture(false, Some("m"), &[1; 32], &vec![], vec![], &rows),
        Err(EditError::ArtworkUnavailable)
    ));
    assert!(matches!(prepare_picture(true, None, &[1; 32], &vec![], vec![], &rows), Err(EditError::ArtworkNotFound)));
    assert!(matches!(
        prepare_picture(true, Some("m"), &[1; 32], &vec![2], vec![], &none),
        Err(EditError::NoChanges)
    ));
    assert!(matches!(
        prepare_picture(true, Some("m"), &[1; 32], &vec![3], vec![], &rows),
        Err(EditError::TrackNotFound(3))
    ));
}

#[test]
fn editing_errors_have_texts() {
    assert_eq!(list_of_numbers(&vec![1, 2]), "[1, 2]");
    assert_eq!(
        EditError::Pending { track_ids: vec![1, 2] }.message(),
        "反映待ちの op があるトラック: [1, 2]"
    );
    assert_eq!(EditError::NoChanges.message(), "変更が無い");
    assert_eq!(EditError::DuplicateTrack(3).message(), "同じトラックが複数回指定された: 3");
    assert_eq!(EditError::TrackNotFound(3).message(), "トラックが存在しない: 3");
    assert_eq!(EditError::OpNotFound(3).message(), "op が存在しない: 3");
    assert_eq!(EditError::UnsupportedKind(OpKind::Rename).message(), "この種別の op はまだ反映できない: Rename");
    assert_eq!(EditError::ArtworkUnavailable.message(), "アートワークのキャッシュが無い");
    assert_eq!(EditError::ArtworkNotFound.message(), "画像が登録されていない");
    assert_eq!(EditError::Cancelled.message(), "キャンセルされた");
    assert_eq!(EditError::Fs(FsError::NotFound).message(), "ファイル操作に失敗: 存在しない");
    assert_eq!(EditError::RelPath("x".to_string()).message(), "パスが不正: x");
    assert_eq!(EditError::Internal("x".to_string()).message(), "内部エラー: x");
    assert_eq!(EditError::Db("x".to_string()).message(), "x");
    assert_eq!(EditError::Io("x".to_string()).message(), "x");
    assert_eq!(EditError::TagRead("x".to_string()).message(), "x");
    assert_eq!(EditError::TagWrite("x".to_string()).message(), "x");
}

#[test]
fn tags_are_written_to_a_copy_first() {
    let mut stage = TagStage::Look;
    let mut seen = vec![stage];
    while let TagNext::Go(next) = tag_stage(stage, Ok(None)) {
        stage = next;
        seen.push(stage);
    }
    assert_eq!(
        seen,
        vec![
            TagStage::Look,
            TagStage::Pictures,
            TagStage::MakeTemp,
            TagStage::Fill,
            TagStage::Check,
            TagStage::LastLook,
            TagStage::Replace,
        ]
    );
    assert!(matches!(
        tag_stage(TagStage::Replace, Ok(None)),
        TagNext::End(TagEnd { step: TagStep::Write, current_known: true })
    ));
    let matching = TagEnd { step: TagStep::AlreadyMatches, current_known: true };
    assert!(matches!(
        tag_stage(TagStage::Look, Ok(Some(matching))),
        TagNext::End(TagEnd { step: TagStep::AlreadyMatches, current_known: true })
    ));
    let gone = TagEnd { step: TagStep::Conflict("m".to_string()), current_known: false };
    assert!(matches!(
        tag_stage(TagStage::LastLook, Ok(Some(gone))),
        TagNext::RemoveAndEnd(TagEnd { step: TagStep::Conflict(m), current_known: false }) if m == "m"
    ));
    assert!(matches!(tag_stage(TagStage::MakeTemp, Err(EditError::NoChanges)), TagNext::Fault(EditError::NoChanges)));
    assert!(matches!(
        tag_stage(TagStage::Replace, Err(EditError::NoChanges)),
        TagNext::RemoveAndFault(EditError::NoChanges)
    ));
}
