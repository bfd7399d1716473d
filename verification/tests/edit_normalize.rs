use spindle::catalog::{Codec, Fingerprint, OpKind};
use spindle::edit::batch::{Op, OpOutcome};
use spindle::edit::error::EditError;
use spindle::edit::history::{Edit, JsonValue, OpResult, Precondition};
use spindle::edit::normalize::commit::{
    apply_archive_op, check_not_moved, commit_applied, finish_archive, ArchiveReason, ArchiveStart, ArchiveState,
    OriginChange,
};
use spindle::edit::normalize::inspect::{
    check_encoded, check_restored, direction_of, has_flac_extension, incoming_of, inspect_absent, inspect_source,
    recorded_source_hash, source_digest, AbsentLook, Direction, EncodeEnd, Incoming, Placed, SourceTags, SOURCE_HASH_KEY,
};
use spindle::edit::normalize::plan::{
    is_normalize_source, normalize_prepared, normalize_targets, plan_normalize, plan_one, prepare_normalize, NormalizePlan, NormalizeRow,
    NormalizeState, NormalizeTarget, NORMALIZE_SOURCES,
};
use spindle::edit::normalize::stage::{
    check_archive, check_copy, check_destination, check_readback, check_staged, check_unchanged, destination_taken,
    needs_staging, phase_verify, stage_archive, staging_path, ArchiveEvent, ArchiveLook, ArchiveNext, ArchiveRun, ArchiveStage,
    DestinationLook, Ident, Made, RemoveEnd, StageMove, TempLook, Undo, VerifyLook,
};
use spindle::edit::normalize::undo::{
    disposal_path_of, is_unchanged, may_restore, moved_back, quarantine_path_of, recovery_path_of, recovery_rel_path,
    remove_if_unchanged, undo_conflict, undo_disposal_rel_path, undo_end, undo_quarantine_rel_path, undo_source,
    write_back, MoveTry, RemoveSeen, RemoveStep, SourceKept, SourceStep, UndoResult, WriteBackStep,
    UNDO_QUARANTINE_PREFIX,
};
use spindle::fsroot::{FileKind, Stat};

fn some(s: &str) -> Option<String> {
    Some(s.to_string())
}

fn stat(inode: u64) -> Stat {
    Stat { kind: FileKind::File, dev: 1, inode, nlink: 1, size: 10, mtime_ns: 20, ctime_ns: 30 }
}

fn precondition() -> Precondition {
    Precondition {
        rel_path: some("a/b.wav"),
        dev: Some(1),
        inode: Some(7),
        size: Some(10),
        mtime_ns: Some(20),
        ctime_ns: Some(30),
        tag_hash: Some(vec![9; 32]),
    }
}

fn direction() -> Direction {
    Direction {
        old: "a/b.wav".to_string(),
        new: "a/b.flac".to_string(),
        old_codec: "wav".to_string(),
        new_codec: "flac".to_string(),
    }
}

fn text_edit(key: &str, old: &str, new: &str) -> Edit {
    Edit {
        key: key.to_string(),
        old_value: JsonValue::Text(old.to_string()),
        new_value: JsonValue::Text(new.to_string()),
    }
}

fn reason(p: &Placed) -> &str {
    match p {
        Placed::Applied => "",
        Placed::Conflict { reason, .. } => reason,
        Placed::Failed(reason) => reason,
    }
}

fn row(known: Option<Codec>) -> NormalizeRow {
    NormalizeRow {
        rel_path: "a/b.wav".to_string(),
        codec: "wav".to_string(),
        known,
        missing: false,
        invalid: None,
        holder: None,
    }
}

#[test]
fn lossless_sources_are_normalised() {
    assert!(NORMALIZE_SOURCES.iter().all(|c| is_normalize_source(*c)));
    assert!(!is_normalize_source(Codec::Flac) && !is_normalize_source(Codec::Mp3));
    assert!(matches!(plan_one(1, &row(Some(Codec::Wav))), Ok(NormalizePlan::Path(p)) if p == "a/b.flac"));
    assert!(matches!(plan_one(1, &row(Some(Codec::Flac))), Ok(NormalizePlan::Unchanged)));
    assert!(matches!(plan_one(1, &row(None)), Ok(NormalizePlan::Unchanged)));
}

#[test]
fn planning_a_normalisation_meets_conflicts() {
    let mut r = row(Some(Codec::Aiff));
    r.holder = Some((1, false));
    assert!(matches!(plan_one(1, &r), Ok(NormalizePlan::Path(_))));
    assert!(matches!(plan_one(2, &r), Ok(NormalizePlan::Conflict(m)) if m == "宛先を別のトラックが占有: a/b.flac"));
    r.holder = Some((1, true));
    assert!(matches!(plan_one(2, &r), Ok(NormalizePlan::Path(_))));
    r.invalid = some("bad");
    assert!(matches!(plan_one(2, &r), Err(EditError::RelPath(m)) if m == "bad"));
    r.missing = true;
    assert!(matches!(plan_one(2, &r), Ok(NormalizePlan::Conflict(m)) if m == "ファイルが missing"));
}

#[test]
fn a_plan_covers_the_selection() {
    let p = plan_normalize(&vec![1, 2], &vec![Some(row(Some(Codec::Wav))), Some(row(Some(Codec::Mp3)))]).unwrap();
    assert_eq!(p.len(), 2);
    let t = normalize_targets(&p);
    assert_eq!(t.len(), 1);
    assert_eq!((t[0].track_id, t[0].new_rel_path.as_str(), t[0].new_codec.as_str()), (1, "a/b.flac", "flac"));
    assert!(matches!(
        plan_normalize(&vec![1, 2], &vec![Some(row(None)), None]),
        Err(EditError::TrackNotFound(2))
    ));
}

fn target(id: i64, path: &str, codec: &str) -> NormalizeTarget {
    NormalizeTarget {
        track_id: id,
        new_rel_path: path.to_string(),
        new_codec: codec.to_string(),
        expected: None,
        planned_conflict: None,
    }
}

fn state() -> NormalizeState {
    NormalizeState { current: Some(precondition()), codec: "wav".to_string(), invalid: None, holder: None }
}

#[test]
fn a_batch_of_normalisations_records_what_changes() {
    let mut planned = target(4, "a/b.flac", "flac");
    planned.planned_conflict = some("taken");
    let targets = vec![
        target(1, "a/b.flac", "flac"),
        target(2, "a/b.wav", "wav"),
        target(3, "a/b.wav", "alac"),
        planned,
        target(5, "x", "flac"),
        target(6, "y", "flac"),
        target(7, "z", "flac"),
    ];
    let mut states: Vec<NormalizeState> = targets.iter().map(|_| state()).collect();
    states[4].invalid = some("bad");
    states[5].holder = Some((99, false));
    states[6].holder = Some((98, true));
    let b = prepare_normalize(true, &targets, &states, vec![]).unwrap();
    assert_eq!(b.planned.iter().map(|e| e.target).collect::<Vec<_>>(), vec![0, 2, 6]);
    assert_eq!(b.vacate, vec![98]);
    assert_eq!(b.unchanged, 1);
    let errors: Vec<&str> = b.conflicts.iter().map(|c| c.error.as_str()).collect();
    assert_eq!(errors, vec!["taken", "宛先が不正: bad", "宛先を別のトラックが占有: y"]);
    assert_eq!((b.planned[0].old.as_str(), b.planned[0].old_codec.as_str()), ("a/b.wav", "wav"));
    assert_eq!(b.planned.len() + b.conflicts.len() + b.unchanged, targets.len());
    let p = normalize_prepared(4, &b, vec![1, 2, 3], None);
    assert_eq!((p.batch_id, p.affected, p.unchanged, p.conflict, p.job_ids.len()), (4, 6, 1, 3, 3));
}

#[test]
fn a_batch_of_normalisations_is_refused() {
    let one = || vec![target(1, "a/b.wav", "wav")];
    assert!(matches!(prepare_normalize(false, &one(), &vec![state()], vec![]), Err(EditError::Internal(_))));
    assert!(matches!(prepare_normalize(true, &one(), &vec![state()], vec![]), Err(EditError::NoChanges)));
    assert!(matches!(prepare_normalize(true, &one(), &vec![state()], vec![1]), Err(EditError::Pending { .. })));
    let mut gone = state();
    gone.current = None;
    assert!(matches!(prepare_normalize(true, &one(), &vec![gone], vec![]), Err(EditError::TrackNotFound(1))));
    let twice = vec![target(1, "x", "flac"), target(1, "y", "flac")];
    assert!(matches!(
        prepare_normalize(true, &twice, &vec![state(), state()], vec![]),
        Err(EditError::DuplicateTrack(1))
    ));
}

#[test]
fn an_operation_says_what_is_replaced_by_what() {
    let edits = vec![text_edit("rel_path", "a/b.wav", "a/b.flac"), text_edit("codec", "wav", "flac")];
    let d = direction_of(3, &edits, None, None).unwrap();
    assert_eq!((d.old.as_str(), d.new.as_str(), d.old_codec.as_str(), d.new_codec.as_str()), ("a/b.wav", "a/b.flac", "wav", "flac"));
    assert!(matches!(
        direction_of(3, &vec![], None, None),
        Err(EditError::Internal(m)) if m == "op 3 に rel_path の edit が無い"
    ));
    assert!(matches!(
        direction_of(3, &edits[..1].iter().map(|_| text_edit("rel_path", "a", "b")).collect(), None, None),
        Err(EditError::Internal(m)) if m == "op 3 に codec の edit が無い"
    ));
    assert!(matches!(direction_of(3, &edits, some("bad"), None), Err(EditError::RelPath(m)) if m == "bad"));
}

#[test]
fn the_digest_of_a_source_is_read_back() {
    let edits = vec![Edit {
        key: SOURCE_HASH_KEY.to_string(),
        old_value: JsonValue::Null,
        new_value: JsonValue::Text("ab".repeat(32)),
    }];
    assert_eq!(recorded_source_hash(&edits), Some([0xab; 32]));
    let short = vec![Edit {
        key: SOURCE_HASH_KEY.to_string(),
        old_value: JsonValue::Null,
        new_value: JsonValue::Text("ab".repeat(31)),
    }];
    assert_eq!(recorded_source_hash(&short), None);
    let signed = vec![Edit {
        key: SOURCE_HASH_KEY.to_string(),
        old_value: JsonValue::Null,
        new_value: JsonValue::Text("+b".repeat(32)),
    }];
    assert_eq!(recorded_source_hash(&signed), None);
    assert_eq!(recorded_source_hash(&vec![]), None);
}

#[test]
fn a_missing_source_is_done_only_where_the_archive_has_it() {
    let d = direction();
    let look = |placed, archived_hash, readable| AbsentLook { placed, archived_hash, readable };
    let (m, h) = (Some([1; 16]), Some([2; 32]));
    assert!(matches!(inspect_absent(&d, &look(Some(m), h, true), &m, &h), Placed::Applied));
    assert_eq!(reason(&inspect_absent(&d, &look(None, h, true), &m, &h)), "元ファイルを開けない: a/b.wav");
    let lost = "元ファイルが無く、宛先と Archive の実体を記録と照合できない: a/b.wav";
    assert_eq!(reason(&inspect_absent(&d, &look(Some(None), h, true), &None, &h)), lost);
    assert_eq!(reason(&inspect_absent(&d, &look(Some(m), None, true), &m, &None)), lost);
    assert_eq!(reason(&inspect_absent(&d, &look(Some(m), Some([3; 32]), true), &m, &h)), lost);
    assert_eq!(reason(&inspect_absent(&d, &look(Some(m), h, false), &m, &h)), "宛先を読めない: a/b.flac");
}

#[test]
fn a_source_has_to_be_as_recorded() {
    let d = direction();
    let read = |hash, codec: &str| Ok(SourceTags { hash, codec: codec.to_string() });
    assert!(inspect_source(&d, &precondition(), &stat(7), read([9; 32], "wav"), "a/b.wav").is_ok());
    let p = inspect_source(&d, &precondition(), &stat(8), read([9; 32], "wav"), "a/b.wav").unwrap_err();
    assert!(matches!(&p, Placed::Conflict { reason, current: Some(c) } if reason == "事前条件不一致: inode" && c == "a/b.wav"));
    let p = inspect_source(&d, &precondition(), &stat(7), read([9; 32], "alac"), "a/b.wav").unwrap_err();
    assert_eq!(reason(&p), "コーデックが記録と違う（alac ≠ wav）");
    let p = inspect_source(&d, &precondition(), &stat(7), Err("x".to_string()), "a/b.wav").unwrap_err();
    assert_eq!(reason(&p), "タグを読めない: x");
    assert!(matches!(source_digest(Ok(Some([1; 16])), None), Ok(m) if m == [1; 16]));
    assert!(matches!(source_digest(Ok(None), Some([2; 16])), Ok(m) if m == [2; 16]));
    assert_eq!(reason(&source_digest(Ok(None), None).unwrap_err()), "元ファイルの音声 MD5 を計算できない");
    assert_eq!(reason(&source_digest(Err("x".to_string()), None).unwrap_err()), "元ファイルをデコードできない: x");
}

#[test]
fn the_new_file_is_encoded_or_restored() {
    let d = direction();
    assert!(has_flac_extension("a/b.FLAC") && !has_flac_extension("a/flac"));
    assert!(matches!(incoming_of(true, &d, Codec::Flac, None), Ok(Incoming::Restore)));
    assert!(matches!(incoming_of(false, &d, Codec::Wav, Some(24)), Ok(Incoming::Encode(24))));
    assert_eq!(reason(&incoming_of(false, &d, Codec::Mp3, Some(24)).unwrap_err()), "復元元が Archive に無い: a/b.flac");
    assert_eq!(reason(&incoming_of(false, &d, Codec::Wav, None).unwrap_err()), "ビット深度が読めない");
}

#[test]
fn a_new_file_has_the_sound_of_its_source() {
    let d = direction();
    assert!(matches!(check_encoded(EncodeEnd::Encoded(Some([1; 16])), &[1; 16]), Ok(Ok(()))));
    let p = check_encoded(EncodeEnd::Encoded(None), &[1; 16]).unwrap().unwrap_err();
    assert_eq!(reason(&p), "変換前後の PCM MD5 が一致しない（生成した FLAC は捨てた）");
    assert!(matches!(check_encoded(EncodeEnd::Cancelled, &[1; 16]), Err(EditError::Cancelled)));
    let p = check_encoded(EncodeEnd::UnsupportedBitDepth(12), &[1; 16]).unwrap().unwrap_err();
    assert_eq!(reason(&p), "対応していないビット深度: 12");
    assert!(matches!(
        check_encoded(EncodeEnd::Fault("x".to_string()), &[1; 16]),
        Err(EditError::Internal(m)) if m == "エンコードに失敗: x"
    ));
    assert!(check_restored(&d, Ok(Some([1; 16])), &[1; 16]).is_ok());
    assert_eq!(
        reason(&check_restored(&d, Ok(None), &[1; 16]).unwrap_err()),
        "Archive の退避ファイルの音声が一致しない: a/b.flac"
    );
    assert_eq!(
        reason(&check_restored(&d, Err("x".to_string()), &[1; 16]).unwrap_err()),
        "Archive の退避ファイルを読めない: a/b.flac: x"
    );
}

#[test]
fn placing_stops_at_other_files() {
    let d = direction();
    assert!(check_unchanged(&stat(7), &stat(7), "s").is_ok());
    assert!(matches!(check_unchanged(&stat(7), &stat(8), "s"), Err(Placed::Conflict { current: Some(c), .. }) if c == "s"));
    assert!(matches!(check_archive(&d, &ArchiveLook::File([2; 32]), &[2; 32]), Ok(true)));
    assert!(matches!(check_archive(&d, &ArchiveLook::NotFound, &[2; 32]), Ok(false)));
    assert!(matches!(check_archive(&d, &ArchiveLook::File([3; 32]), &[2; 32]), Err(Placed::Failed(_))));
    assert!(matches!(check_archive(&d, &ArchiveLook::Symlink, &[2; 32]), Err(Placed::Failed(_))));
    assert!(matches!(check_destination(&d, &DestinationLook::File(Some([1; 16])), &[1; 16]), Ok(true)));
    assert!(matches!(check_destination(&d, &DestinationLook::NotFound, &[1; 16]), Ok(false)));
    assert!(matches!(check_destination(&d, &DestinationLook::File(None), &[1; 16]), Err(Placed::Conflict { .. })));
    assert!(matches!(check_destination(&d, &DestinationLook::Symlink, &[1; 16]), Err(Placed::Conflict { .. })));
    assert_eq!(reason(&destination_taken(&d)), "宛先が反映の直前に取られた: a/b.flac");
    assert!(matches!(staging_path(4, &d, true), Ok(p) if p == "a/spindle-normalize-4.wav"));
    assert_eq!(reason(&staging_path(4, &d, false).unwrap_err()), "一時名を作れないパス: a/b.wav");
    assert!(needs_staging("a", "b") && !needs_staging("a", "a"));
    assert!(check_staged(&d, &StageMove::Moved(stat(7)), &stat(7), "t").is_ok());
    assert!(check_staged(&d, &StageMove::Moved(stat(8)), &stat(7), "t").is_err());
    assert_eq!(
        reason(&check_staged(&d, &StageMove::Blocked, &stat(7), "t").unwrap_err()),
        "元ファイルを退避できない（一時名が塞がっている、または元が無い）: t"
    );
    assert!(check_copy(&[2; 32], &[2; 32]).is_ok() && check_copy(&[3; 32], &[2; 32]).is_err());
    assert!(check_readback(&[2; 32], &[2; 32]).is_ok() && check_readback(&[3; 32], &[2; 32]).is_err());
}

fn look() -> VerifyLook {
    VerifyLook {
        now: stat(7),
        hash: [2; 32],
        temp: Some(stat(7)),
        fingerprint: Some(Some(Fingerprint::Md5(Some([1; 16])))),
    }
}

#[test]
fn the_last_comparison_sees_every_change() {
    let d = direction();
    let end = |l: VerifyLook| phase_verify(&d, &l, &stat(7), &[2; 32], &[1; 16]);
    assert!(matches!(end(look()), Ok(Ok(i)) if i == Ident { dev: 1, inode: 7 }));
    let mut l = look();
    l.hash = [3; 32];
    assert_eq!(reason(&end(l).unwrap().unwrap_err()), "退避の間に元ファイルが外部で更新された");
    let mut l = look();
    l.temp = Some(stat(8));
    assert_eq!(reason(&end(l).unwrap().unwrap_err()), "退避の間に一時名の元ファイルが差し替えられた");
    let mut l = look();
    l.fingerprint = Some(None);
    assert_eq!(reason(&end(l).unwrap().unwrap_err()), "退避の間に宛先が差し替えられた: a/b.flac");
    let mut l = look();
    l.fingerprint = None;
    assert!(matches!(end(l), Err(EditError::Internal(m)) if m == "置いたファイルを読み直せない: a/b.flac"));
}

fn made(inode: u64) -> Made {
    Made { stat: stat(inode), sha256: [4; 32] }
}

fn placed_event(archived_already: bool) -> ArchiveEvent {
    ArchiveEvent::Placed {
        source_hash: [2; 32],
        archived_already,
        placed: Some(made(50)),
        staged: true,
        staged_stat: stat(7),
    }
}

fn run_to_copy() -> ArchiveRun {
    let d = direction();
    let (r, _) = stage_archive(&d, ArchiveRun::new(), ArchiveEvent::SourceReady([1; 16]));
    let (r, _) = stage_archive(&d, r, ArchiveEvent::IncomingReady { cancelled: false });
    let (r, n) = stage_archive(&d, r, placed_event(false));
    assert!(matches!(n, ArchiveNext::Do(ArchiveStage::RecordHash)));
    let (r, n) = stage_archive(&d, r, ArchiveEvent::HashRecorded);
    assert!(matches!(n, ArchiveNext::Do(ArchiveStage::Copy)));
    r
}

#[test]
fn a_file_is_replaced_step_by_step() {
    let d = direction();
    let copied = ArchiveEvent::Copied { written: [2; 32], readback: [2; 32], stat: stat(60) };
    let (r, n) = stage_archive(&d, run_to_copy(), copied);
    assert!(matches!(n, ArchiveNext::Do(ArchiveStage::Verify)));
    let (r, n) = stage_archive(&d, r, ArchiveEvent::Compared(look()));
    assert!(matches!(n, ArchiveNext::Do(ArchiveStage::Unlink)));
    let (r, n) = stage_archive(&d, r, ArchiveEvent::LastLook(TempLook::Seen(stat(7))));
    assert!(matches!(n, ArchiveNext::Do(ArchiveStage::Remove)));
    assert_eq!(r.copy_hash, r.source_hash);
    let (r, n) = stage_archive(&d, r, ArchiveEvent::Unlinked(RemoveEnd::Removed));
    assert!(matches!(n, ArchiveNext::End(Placed::Applied)));
    let (_, n) = stage_archive(&d, r, ArchiveEvent::Fault(EditError::Cancelled));
    assert!(matches!(n, ArchiveNext::Fault(EditError::Cancelled)));
}

#[test]
fn a_source_that_the_archive_has_is_not_copied() {
    let d = direction();
    let (r, _) = stage_archive(&d, ArchiveRun::new(), ArchiveEvent::SourceReady([1; 16]));
    let (r, _) = stage_archive(&d, r, ArchiveEvent::IncomingReady { cancelled: false });
    let (r, _) = stage_archive(&d, r, placed_event(true));
    let (_, n) = stage_archive(&d, r, ArchiveEvent::HashRecorded);
    assert!(matches!(n, ArchiveNext::Do(ArchiveStage::Verify)));
    let (_, n) = stage_archive(&d, ArchiveRun::new(), ArchiveEvent::SourceReplaced);
    assert!(matches!(n, ArchiveNext::End(Placed::Applied)));
}

#[test]
fn early_stops_touch_nothing() {
    let d = direction();
    let (r, _) = stage_archive(&d, ArchiveRun::new(), ArchiveEvent::SourceReady([1; 16]));
    let (_, n) = stage_archive(&d, r, ArchiveEvent::IncomingReady { cancelled: true });
    assert!(matches!(n, ArchiveNext::Fault(EditError::Cancelled)));
    let (_, n) = stage_archive(&d, r, ArchiveEvent::Stopped(Placed::Failed("x".to_string())));
    assert!(matches!(n, ArchiveNext::End(Placed::Failed(_))));
}

#[test]
fn late_stops_undo_what_was_done() {
    let d = direction();
    let bad = ArchiveEvent::Copied { written: [3; 32], readback: [2; 32], stat: stat(60) };
    let (_, n) = stage_archive(&d, run_to_copy(), bad);
    assert!(matches!(n, ArchiveNext::UndoAndEnd(Undo { placed: Some(_), staged: true, archived: None }, Placed::Conflict { .. })));
    let bad = ArchiveEvent::Copied { written: [2; 32], readback: [3; 32], stat: stat(60) };
    let (_, n) = stage_archive(&d, run_to_copy(), bad);
    assert!(matches!(n, ArchiveNext::UndoAndFault(_, EditError::Internal(_))));
    let good = ArchiveEvent::Copied { written: [2; 32], readback: [2; 32], stat: stat(60) };
    let (r, _) = stage_archive(&d, run_to_copy(), good);
    let (r, _) = stage_archive(&d, r, ArchiveEvent::Compared(look()));
    let (_, n) = stage_archive(&d, r, ArchiveEvent::LastLook(TempLook::Seen(stat(8))));
    assert!(matches!(n, ArchiveNext::UndoAndEnd(Undo { archived: Some(_), .. }, Placed::Conflict { .. })));
    let (_, n) = stage_archive(&d, r, ArchiveEvent::LastLook(TempLook::Fault(EditError::Cancelled)));
    assert!(matches!(n, ArchiveNext::UndoAndFault(_, EditError::Cancelled)));
    let (r, _) = stage_archive(&d, r, ArchiveEvent::LastLook(TempLook::Seen(stat(7))));
    let (_, n) = stage_archive(&d, r, ArchiveEvent::Unlinked(RemoveEnd::NotFound));
    assert!(matches!(n, ArchiveNext::UndoAndEnd(..)));
    let (_, n) = stage_archive(&d, r, ArchiveEvent::Unlinked(RemoveEnd::SyncFault(EditError::Cancelled)));
    assert!(matches!(n, ArchiveNext::Fault(EditError::Cancelled)));
}

#[test]
fn undoing_has_names_of_its_own() {
    let raw = [0, 1, 0xab, 0xff];
    assert_eq!(quarantine_path_of(4, "a/b.flac", &raw), "a/.spindle-undo-4-0001abff");
    assert_eq!(disposal_path_of(4, "b.flac", &raw), ".spindle-tmp-undo-4-0001abff");
    assert_eq!(recovery_path_of(4, "a/b.flac", &raw), "a/spindle-recovery-4-0001abff.flac");
    assert_eq!(recovery_path_of(4, "b", &raw), "spindle-recovery-4-0001abff");
}

#[test]
fn undoing_draws_fresh_names() {
    let a = undo_quarantine_rel_path(4, "a/b.flac").unwrap();
    let b = undo_quarantine_rel_path(4, "a/b.flac").unwrap();
    assert_ne!(a, b);
    assert!(a.starts_with(&format!("a/{UNDO_QUARANTINE_PREFIX}4-")));
    assert_ne!(undo_disposal_rel_path(4, "x").unwrap(), undo_disposal_rel_path(4, "x").unwrap());
    assert_ne!(recovery_rel_path(4, "x").unwrap(), recovery_rel_path(4, "x").unwrap());
}

#[test]
fn only_own_files_are_taken_away() {
    let m = made(5);
    assert!(is_unchanged(&m, &Some(stat(5)), &Some([4; 32])));
    assert!(!is_unchanged(&m, &Some(stat(5)), &Some([5; 32])) && !is_unchanged(&m, &None, &Some([4; 32])));
    let step = |s: RemoveSeen| remove_if_unchanged(&m, &s);
    assert_eq!(step(RemoveSeen::AtPath(TempLook::Seen(stat(5)))), RemoveStep::SetAside);
    assert_eq!(step(RemoveSeen::AtPath(TempLook::Seen(stat(6)))), RemoveStep::Leave);
    assert_eq!(step(RemoveSeen::AtPath(TempLook::NotFound)), RemoveStep::Leave);
    let mut moved = stat(5);
    moved.ctime_ns = 99;
    assert_eq!(step(RemoveSeen::Aside(Some(moved), Some([4; 32]))), RemoveStep::Remove);
    assert_eq!(step(RemoveSeen::Aside(Some(moved), Some([5; 32]))), RemoveStep::PutBack);
    assert_eq!(step(RemoveSeen::Aside(Some(stat(6)), Some([4; 32]))), RemoveStep::PutBack);
    assert_eq!(step(RemoveSeen::NotMoved), RemoveStep::Leave);
}

#[test]
fn a_source_goes_back_or_is_written_out() {
    let own = Some(Ident { dev: 1, inode: 7 });
    assert_eq!(undo_source(false, true, own, &TempLook::NotFound), SourceStep::Stay);
    assert_eq!(undo_source(true, true, own, &TempLook::Seen(stat(7))), SourceStep::MoveBack);
    assert_eq!(undo_source(true, false, own, &TempLook::Seen(stat(7))), SourceStep::Stay);
    assert_eq!(undo_source(true, true, own, &TempLook::Seen(stat(8))), SourceStep::WriteBack);
    assert_eq!(undo_source(true, true, own, &TempLook::Fault(EditError::Cancelled)), SourceStep::GiveUp);
    assert_eq!(undo_source(true, false, own, &TempLook::Fault(EditError::Cancelled)), SourceStep::WriteBack);
    assert_eq!(undo_source(true, true, None, &TempLook::NotFound), SourceStep::GiveUp);
    assert!(matches!(moved_back(true, "t"), SourceKept::InPlace));
    assert!(matches!(moved_back(false, "t"), SourceKept::Recovered(p) if p == "t"));
    assert!(may_restore(&precondition(), &Some(stat(7))) && !may_restore(&precondition(), &Some(stat(8))));
}

#[test]
fn a_source_is_given_up_last() {
    let name = Some(some("r"));
    assert!(matches!(write_back(None, &None, &None), WriteBackStep::ToPath));
    assert!(matches!(write_back(Some(MoveTry::Moved), &None, &None), WriteBackStep::Kept(SourceKept::InPlace)));
    assert!(matches!(write_back(Some(MoveTry::Taken), &None, &None), WriteBackStep::ToRecovery));
    assert!(matches!(write_back(Some(MoveTry::Taken), &name, &None), WriteBackStep::Kept(SourceKept::Recovered(p)) if p == "r"));
    assert!(matches!(write_back(Some(MoveTry::Taken), &Some(None), &None), WriteBackStep::RetryRecovery));
    assert!(matches!(write_back(Some(MoveTry::Fault), &None, &name), WriteBackStep::Kept(SourceKept::Recovered(_))));
    assert!(matches!(write_back(Some(MoveTry::Fault), &None, &Some(None)), WriteBackStep::Discard));
}

#[test]
fn nothing_is_taken_away_while_the_source_is_lost() {
    let undo = Undo { placed: Some(made(5)), staged: true, archived: Some(made(6)) };
    let e = undo_end(&undo, SourceKept::Lost, true, false);
    assert!(!e.remove_placed && !e.remove_archived && e.result.kept_flac && !e.result.kept_archive);
    assert_eq!(e.result.note(), some("元ファイルを Library に戻せなかった。複製として 宛先の FLAC を残した"));
    let e = undo_end(&undo, SourceKept::InPlace, true, true);
    assert!(e.remove_placed && e.remove_archived);
    assert_eq!(e.result.note(), None);
    let both = UndoResult { source: SourceKept::Lost, kept_flac: true, kept_archive: true };
    assert_eq!(
        both.note(),
        some("元ファイルを Library に戻せなかった。複製として 宛先の FLACとArchive のコピー を残した")
    );
    let none = UndoResult { source: SourceKept::Lost, kept_flac: false, kept_archive: false };
    assert_eq!(none.note(), some("元ファイルを Library に戻せず、複製も残せなかった"));
}

#[test]
fn a_conflict_says_where_the_source_is() {
    let r = UndoResult { source: SourceKept::Recovered("r".to_string()), kept_flac: false, kept_archive: false };
    let p = undo_conflict(Placed::Conflict { reason: "why".to_string(), current: None }, &r, "a/b.wav");
    assert!(matches!(
        p,
        Placed::Conflict { reason, current: Some(c) } if reason == "why（元ファイルは r に残した）" && c == "a/b.wav"
    ));
    assert!(matches!(undo_conflict(Placed::Failed("x".to_string()), &r, "a"), Placed::Failed(m) if m == "x"));
}

#[test]
fn an_archive_operation_begins_and_ends() {
    let op = |kind, result| Op { id: 1, batch_id: 2, track_id: 3, kind, result, job_id: None };
    assert!(matches!(apply_archive_op(true, &op(OpKind::Archive, OpResult::Pending)), Ok(ArchiveStart::Run)));
    assert!(matches!(apply_archive_op(false, &op(OpKind::Archive, OpResult::Pending)), Err(EditError::Internal(_))));
    assert!(matches!(
        apply_archive_op(true, &op(OpKind::Tags, OpResult::Pending)),
        Err(EditError::UnsupportedKind(OpKind::Tags))
    ));
    assert!(matches!(
        apply_archive_op(true, &op(OpKind::Archive, OpResult::Applied)),
        Ok(ArchiveStart::Done(OpOutcome::AlreadyTerminal(OpResult::Applied)))
    ));
    assert!(check_not_moved(&direction(), "a/b.wav").is_ok());
    assert_eq!(reason(&check_not_moved(&direction(), "x").unwrap_err()), "記録の後に移動された: x");
    let e = finish_archive(Placed::Conflict { reason: "r".to_string(), current: some("c") });
    assert!(e.restore_source && !e.commit && e.follow == some("c") && e.result == OpResult::SkippedConflict);
    assert!(finish_archive(Placed::Applied).commit);
}

#[test]
fn the_catalogue_records_the_new_file() {
    let d = direction();
    let c = commit_applied(&d, &Some(vec![9; 32]), &[9; 32], 5, None);
    assert_eq!(c.tag_version, 5);
    assert!(matches!(c.origin, OriginChange::Note(o) if o == "wav"));
    assert_eq!((c.reason, c.new_state), (ArchiveReason::Normalize, None));
    let back = Direction {
        old: d.new.clone(),
        new: d.old.clone(),
        old_codec: d.new_codec.clone(),
        new_codec: d.old_codec.clone(),
    };
    let c = commit_applied(&back, &Some(vec![8; 32]), &[9; 32], 5, Some(ArchiveState::Held));
    assert_eq!(c.tag_version, 6);
    assert!(matches!(c.origin, OriginChange::Clear));
    assert_eq!((c.reason, c.new_state), (ArchiveReason::Restore, Some(ArchiveState::Restored)));
}

#[test]
fn a_removed_source_is_found_done() {
    let d = direction();
    let copied = ArchiveEvent::Copied { written: [2; 32], readback: [2; 32], stat: stat(60) };
    let (r, _) = stage_archive(&d, run_to_copy(), copied);
    let (r, _) = stage_archive(&d, r, ArchiveEvent::Compared(look()));
    let (r, _) = stage_archive(&d, r, ArchiveEvent::LastLook(TempLook::Seen(stat(7))));
    let (r, _) = stage_archive(&d, r, ArchiveEvent::Unlinked(RemoveEnd::SyncFault(EditError::Cancelled)));
    let again = AbsentLook { placed: Some(r.expected_md5), archived_hash: r.copy_hash, readable: true };
    assert!(matches!(inspect_absent(&d, &again, &r.expected_md5, &r.source_hash), Placed::Applied));
}
