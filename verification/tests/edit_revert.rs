use spindle::catalog::{OpKind, TagSet};
use spindle::edit::batch::Op;
use spindle::edit::error::EditError;
use spindle::edit::history::{json_values, values_json, Edit, JsonValue, OpResult, Precondition};
use spindle::edit::md5fill::{
    computed_twice, finish_md5, hex, md5_event, md5_of_value, md5_prepared, parse_md5_hex, prepare_md5_fill,
    recorded_digests, set_md5, stage_md5, Candidate, Md5Event, Md5Step, MD5_EDIT_KEY, MD5_ZERO_HEX,
};
use spindle::edit::revert::{
    inverse_edit, revert_archive, revert_delete, revert_kind, revert_md5, revert_rename, revert_tags, targets_of,
    ArchiveEntry, RevertError,
};
use spindle::edit::tags::{diff_sets, with_replaced};
use spindle::fsroot::{FileKind, FsError, Stat};

fn op(id: i64, track_id: i64, result: OpResult) -> Op {
    Op { id, batch_id: 1, track_id, kind: OpKind::Tags, result, job_id: None }
}

fn edit(key: &str, old: JsonValue, new: JsonValue) -> Edit {
    Edit { key: key.to_string(), old_value: old, new_value: new }
}

fn text(s: &str) -> JsonValue {
    JsonValue::Text(s.to_string())
}

#[test]
fn only_what_was_applied_is_taken_back() {
    let ops = vec![op(1, 10, OpResult::Applied), op(2, 20, OpResult::Failed), op(3, 30, OpResult::Applied)];
    let t = targets_of(Some(true), &ops, &vec![30]).unwrap();
    assert_eq!(t.iter().map(|o| o.id).collect::<Vec<_>>(), vec![1]);
    assert_eq!(revert_kind(&t), OpKind::Tags);
    assert!(matches!(targets_of(None, &ops, &vec![]), Err(RevertError::NotFound)));
    assert!(matches!(targets_of(Some(false), &ops, &vec![]), Err(RevertError::NotTerminal)));
    assert!(matches!(targets_of(Some(true), &ops, &vec![10, 30]), Err(RevertError::AlreadyReverted)));
}

#[test]
fn taking_back_has_error_texts() {
    assert_eq!(RevertError::NotFound.message(), "バッチが存在しない");
    assert_eq!(RevertError::NotTerminal.message(), "バッチが終端状態ではない（先にキャンセルする）");
    assert_eq!(RevertError::AlreadyReverted.message(), "戻す op が残っていない（全件戻し済み）");
    assert_eq!(RevertError::Edit(EditError::NoChanges).message(), "変更が無い");
}

#[test]
fn taking_back_tags_gives_the_old_values() {
    let before = TagSet { items: vec![("TITLE".to_string(), "x".to_string()), ("ARTIST".to_string(), "a".to_string())] };
    let after = with_replaced(
        &before,
        &vec![("TITLE".to_string(), vec![]), ("GENRE".to_string(), vec!["g".to_string()])],
    );
    let edits = diff_sets(&before, &after);
    let r = revert_tags(&edits, &after);
    assert_eq!(r.conflict, None);
    for k in ["TITLE", "ARTIST", "GENRE"] {
        assert_eq!(r.restored.values(k), before.values(k));
    }
    let r = revert_tags(&edits, &before);
    assert_eq!(
        r.conflict,
        Some("現在値が元バッチの新値と違う（外部変更または後続の編集）: GENRE, TITLE".to_string())
    );
}

#[test]
fn taking_back_a_rename_needs_the_file_in_place() {
    let edits = vec![edit("rel_path", text("a"), text("b"))];
    let r = revert_rename(&op(3, 30, OpResult::Applied), &edits, Some("b")).unwrap();
    assert_eq!((r.new_rel_path.as_str(), r.conflict), ("a", None));
    let r = revert_rename(&op(3, 30, OpResult::Applied), &edits, Some("c")).unwrap();
    assert_eq!(
        r.conflict,
        Some("現在のパスが元バッチの新値と違う（外部変更または後続の編集）: c".to_string())
    );
    assert!(matches!(
        revert_rename(&op(3, 30, OpResult::Applied), &edits, None),
        Err(RevertError::Edit(EditError::TrackNotFound(30)))
    ));
    assert!(matches!(
        revert_rename(&op(3, 30, OpResult::Applied), &vec![], Some("b")),
        Err(RevertError::Edit(EditError::Internal(m))) if m == "op 3 に rel_path の edit が無い"
    ));
}

#[test]
fn taking_back_a_normalisation_needs_the_archive() {
    let edits = vec![edit("rel_path", text("a.wav"), text("a.flac")), edit("codec", text("wav"), text("flac"))];
    let o = op(3, 30, OpResult::Applied);
    let r = revert_archive(&o, &edits, Some(("a.flac", "flac")), ArchiveEntry::Held).unwrap();
    assert_eq!((r.new_rel_path.as_str(), r.new_codec.as_str(), r.conflict), ("a.wav", "wav", None));
    let r = revert_archive(&o, &edits, Some(("b.flac", "flac")), ArchiveEntry::Held).unwrap();
    assert_eq!(
        r.conflict,
        Some("現在値が元バッチの新値と違う（外部変更または後続の編集）: b.flac (flac)".to_string())
    );
    let r = revert_archive(&o, &edits, Some(("a.flac", "flac")), ArchiveEntry::Other("purged".to_string())).unwrap();
    assert_eq!(r.conflict, Some("退避ファイルが Archive に無い（台帳 purged）: a.wav".to_string()));
    let r = revert_archive(&o, &edits, Some(("a.flac", "flac")), ArchiveEntry::Unknown).unwrap();
    assert_eq!(r.conflict, Some("退避ファイルが台帳に無い: a.wav".to_string()));
    assert!(revert_archive(&o, &edits, None, ArchiveEntry::Held).is_err());
}

#[test]
fn taking_back_a_digest_needs_the_same_digest() {
    let o = op(3, 30, OpResult::Applied);
    let edits = vec![edit("audio_md5", text(MD5_ZERO_HEX), text(&"ab".repeat(16)))];
    let r = revert_md5(&o, &edits, &Some(Some([0xab; 16]))).unwrap();
    assert_eq!((r.edit, r.conflict), (0, None));
    let r = revert_md5(&o, &edits, &Some(None)).unwrap();
    assert_eq!(
        r.conflict,
        Some("現在値が元バッチの新値と違う（外部変更または後続の補填）: audio_md5".to_string())
    );
    assert!(matches!(
        revert_md5(&o, &edits, &None),
        Err(RevertError::Edit(EditError::TrackNotFound(30)))
    ));
    assert!(matches!(
        revert_md5(&o, &vec![], &Some(None)),
        Err(RevertError::Edit(EditError::Internal(m))) if m == "op 3 に audio_md5 の edit が無い"
    ));
    let i = inverse_edit(edit("k", text("a"), text("b")));
    assert!(matches!((i.old_value, i.new_value), (JsonValue::Text(a), JsonValue::Text(b)) if a == "b" && b == "a"));
}

#[test]
fn taking_back_a_removal_brings_the_track_back() {
    let o = op(3, 30, OpResult::Applied);
    let edits = vec![edit("missing_since", JsonValue::Null, JsonValue::Int(7))];
    let r = revert_delete(&o, &edits, Some(Some(7))).unwrap();
    assert_eq!((r.conflict, r.missing_since, r.revive_album), (None, None, true));
    let r = revert_delete(&o, &edits, Some(Some(8))).unwrap();
    assert!(r.conflict.is_some() && !r.revive_album);
    assert!(matches!(
        revert_delete(&o, &edits, None),
        Err(RevertError::Edit(EditError::TrackNotFound(30)))
    ));
    let edits = vec![edit("missing_since", JsonValue::Int(3), JsonValue::Int(7))];
    let r = revert_delete(&o, &edits, Some(Some(7))).unwrap();
    assert_eq!((r.conflict, r.missing_since, r.revive_album), (None, Some(3), false));
}

#[test]
fn digests_are_written_and_read() {
    assert_eq!(hex(&[1, 0xfe]), "01fe");
    assert_eq!(parse_md5_hex(&hex(&[0xcd; 16])), Some([0xcd; 16]));
    assert_eq!(parse_md5_hex("cd"), None);
    assert_eq!(parse_md5_hex(&"zz".repeat(16)), None);
    assert_eq!(parse_md5_hex(&"+1".repeat(16)), None);
    assert!(matches!(md5_of_value(&JsonValue::Null, ""), Ok(None)));
    assert!(matches!(md5_of_value(&text(&"01".repeat(16)), ""), Ok(Some(m)) if m == [1; 16]));
    assert!(matches!(
        md5_of_value(&text("a\"b"), ""),
        Err(EditError::Internal(m)) if m == "audio_md5 の値が hex でない: \"a\\\"b\""
    ));
    assert!(matches!(
        md5_of_value(&JsonValue::Int(3), "3"),
        Err(EditError::Internal(m)) if m == "audio_md5 の値が文字列でない: 3"
    ));
    assert_eq!(json_values(&values_json(&vec!["x".to_string()])), vec!["x".to_string()]);
}

#[test]
fn files_that_lack_a_digest_are_selected() {
    let c = |id, codec: &str, missing, check: Option<&str>| Candidate {
        id,
        codec: codec.to_string(),
        missing,
        flac_check: check.map(|s| s.to_string()),
    };
    let rows = vec![
        c(1, "flac", false, Some("md5_missing")),
        c(2, "flac", false, Some("ok")),
        c(3, "mp3", false, Some("md5_missing")),
        c(4, "flac", true, Some("md5_missing")),
        c(5, "flac", false, None),
    ];
    let all = vec![1, 2, 3, 4, 5];
    let selected = prepare_md5_fill(&all, vec![], &rows).unwrap();
    assert_eq!(selected, (vec![1], 4));
    let p = md5_prepared(6, &selected, vec![7]);
    assert_eq!((p.batch_id, p.affected, p.skipped, p.job_ids, p.event.is_none()), (Some(6), 1, 4, vec![7], true));
    assert!(matches!(prepare_md5_fill(&vec![1, 1], vec![], &rows), Err(EditError::DuplicateTrack(1))));
    assert!(matches!(prepare_md5_fill(&all, vec![2], &rows), Err(EditError::Pending { .. })));
    assert!(matches!(prepare_md5_fill(&vec![9], vec![], &rows), Err(EditError::TrackNotFound(9))));
    assert!(matches!(
        prepare_md5_fill(&vec![2], vec![], &vec![c(2, "flac", false, Some("ok"))]),
        Err(EditError::NoChanges)
    ));
}

#[test]
fn a_digest_is_written_only_to_an_untouched_file() {
    let p = Precondition {
        rel_path: None,
        dev: None,
        inode: Some(7),
        size: Some(10),
        mtime_ns: Some(20),
        ctime_ns: Some(30),
        tag_hash: None,
    };
    let st = Stat { kind: FileKind::File, dev: 1, inode: 7, nlink: 1, size: 10, mtime_ns: 20, ctime_ns: 30 };
    let mut touched = st;
    touched.size = 11;
    let (z, m) = ([0; 16], [5; 16]);
    assert!(matches!(stage_md5(&p, &st, &z, &z, &None), Md5Step::Compute));
    assert!(matches!(stage_md5(&p, &st, &z, &z, &Some(m)), Md5Step::Write(x) if x == m));
    assert!(matches!(stage_md5(&p, &st, &m, &m, &Some(m)), Md5Step::Written(x) if x == m));
    assert!(matches!(stage_md5(&p, &touched, &m, &z, &Some(m)), Md5Step::Written(_)));
    assert!(matches!(
        stage_md5(&p, &touched, &z, &z, &Some(m)),
        Md5Step::Conflict(c) if c == "事前条件不一致: size"
    ));
    assert_eq!(finish_md5(&Md5Step::Written(m), false), Some((OpResult::Applied, true)));
    assert_eq!(finish_md5(&Md5Step::Failed("x".to_string()), true), Some((OpResult::Failed, false)));
    assert_eq!(finish_md5(&Md5Step::Compute, true), None);
    assert_eq!(set_md5(&z), (None, true));
    assert_eq!(set_md5(&m), (Some(m), false));
}

#[test]
fn digests_are_recorded_before_they_are_written() {
    let edits = vec![edit(MD5_EDIT_KEY, text(MD5_ZERO_HEX), JsonValue::Null)];
    assert!(matches!(recorded_digests(&edits, 3, "", "null"), Ok((o, None)) if o == [0; 16]));
    let edits = vec![edit(MD5_EDIT_KEY, JsonValue::Null, JsonValue::Null)];
    assert!(matches!(
        recorded_digests(&edits, 3, "null", "null"),
        Err(EditError::Internal(m)) if m == "op 3 の old_value が null"
    ));
    assert!(matches!(
        recorded_digests(&vec![], 3, "", ""),
        Err(EditError::Internal(m)) if m == "op 3 に audio_md5 の edit が無い"
    ));
}

#[test]
fn writing_a_digest_stops_where_something_is_wrong() {
    let st = Stat { kind: FileKind::File, dev: 1, inode: 7, nlink: 1, size: 10, mtime_ns: 20, ctime_ns: 30 };
    let mut touched = st;
    touched.mtime_ns = 21;
    let at = |e| md5_event(e, "a.flac");
    let conflict = |e| match at(e) {
        Ok(Some(Md5Step::Conflict(m))) => m,
        other => panic!("{other:?}"),
    };
    let failed = |e| match at(e) {
        Ok(Some(Md5Step::Failed(m))) => m,
        other => panic!("{other:?}"),
    };
    assert_eq!(conflict(Md5Event::NotOpened(FsError::Symlink)), "ファイルを開けない: a.flac");
    assert!(matches!(at(Md5Event::NotOpened(FsError::Exists)), Err(EditError::Fs(FsError::Exists))));
    assert_eq!(failed(Md5Event::NotFlac("x".to_string())), "FLAC として読めない: x");
    assert!(matches!(at(Md5Event::Unread("x".to_string())), Err(EditError::Internal(m)) if m == "x"));
    assert_eq!(failed(Md5Event::NotDecoded("x".to_string())), "デコードできない: x");
    assert!(matches!(at(Md5Event::ReadBack { wanted: [5; 16], got: Ok([5; 16]) }), Ok(None)));
    assert_eq!(failed(Md5Event::ReadBack { wanted: [5; 16], got: Ok([6; 16]) }), "書き込み結果が意図と一致しない");
    assert!(matches!(
        at(Md5Event::ReadBack { wanted: [5; 16], got: Err("x".to_string()) }),
        Err(EditError::Internal(m)) if m == "書いた tmp を読み戻せない: x"
    ));
    assert!(matches!(at(Md5Event::LastLook { first: st, now: Some(st) }), Ok(None)));
    assert_eq!(conflict(Md5Event::LastLook { first: st, now: None }), "反映の直前にファイルが無くなった");
    assert_eq!(conflict(Md5Event::LastLook { first: st, now: Some(touched) }), "反映の直前に外部で更新された");
    assert!(matches!(computed_twice(), EditError::Internal(m) if m == "new_value を耐久化した後も計算だけで戻った"));
}
