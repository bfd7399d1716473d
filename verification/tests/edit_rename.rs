use spindle::catalog::OpKind;
use spindle::edit::batch::Op;
use spindle::edit::error::EditError;
use spindle::edit::history::{Edit, JsonValue, OpResult, Precondition};
use spindle::edit::rename::albums::{
    album_meta_from_tracks, album_step, displaced_dir, group_moves, old_albums, track_move, whole_album, AlbumHint,
    AlbumStep,
};
use spindle::edit::rename::apply::{
    applied_tracks, cancel_action, commit_settled, evictions, finalize, goes_back, locate, next_action, rename_op,
    rename_start, settle, stage, unstage, CancelAction, FinalEnd, LocateStep, Location, MoveEnd, RenameAction, RenameOp,
    RenameOutcome, RenameStart,
};
use spindle::edit::rename::plan::{
    check_layouts, for_track, occupancy, planned_rename, release_of, track_for_plan, tracks_for_plan, Occupant, TrackRow,
};
use spindle::edit::rename::prepare::{
    prepare_rename, rename_job_key, rename_moves, rename_prepared, RenameState, RenameTarget,
};
use spindle::fsroot::{FileKind, Stat};
use spindle::import::destination::LayoutKind;
use spindle::import::place::Planned;
use spindle::import::placement::release_key;
use std::collections::HashMap;

fn some(s: &str) -> Option<String> {
    Some(s.to_string())
}

fn stat(inode: u64) -> Stat {
    Stat { kind: FileKind::File, dev: 1, inode, nlink: 1, size: 10, mtime_ns: 20, ctime_ns: 30 }
}

fn precondition(path: &str, inode: i64) -> Precondition {
    Precondition {
        rel_path: some(path),
        dev: Some(1),
        inode: Some(inode),
        size: Some(10),
        mtime_ns: Some(20),
        ctime_ns: Some(30),
        tag_hash: Some(vec![1]),
    }
}

fn row(path: &str) -> TrackRow {
    TrackRow {
        rel_path: path.to_string(),
        title: some("t"),
        albumartist: None,
        artist_display: some("a"),
        album: None,
        track_no: Some(3),
        disc_no: None,
        date: some("1999"),
        album_id: Some(8),
        category: None,
        album_date: some("2001-02"),
        edition: None,
        mb_release_id: None,
        disc_count: None,
        max_disc: None,
    }
}

#[test]
fn releases_are_told_apart() {
    assert_eq!(release_of(&some(" M "), Some(1), 2), "mb:m");
    assert_eq!(release_of(&some(""), Some(1), 2), "album:1");
    assert_eq!(release_of(&None, Some(1), 2), "album:1");
    assert_eq!(release_of(&some("M"), None, 2), "mb:m");
    assert_eq!(release_of(&None, None, 2), "track:2");
    assert_eq!(release_of(&None, Some(7), 2), release_key(7, &None));
}

#[test]
fn the_fields_of_a_path_come_from_the_track_and_its_album() {
    let t = track_for_plan(5, &row("x/01 song.FLAC"));
    assert_eq!((t.fields.stem.as_str(), t.fields.ext.as_str()), ("01 song", "FLAC"));
    assert_eq!(t.fields.year, some("2001"));
    assert_eq!(t.release, "album:8");
    assert!(!t.multi_disc);
    assert_eq!(for_track(&t), LayoutKind::Unsorted);
    let mut r = row("noext");
    r.album_date = None;
    r.category = some("c");
    r.max_disc = Some(2);
    let t = track_for_plan(5, &r);
    assert_eq!((t.fields.stem.as_str(), t.fields.ext.as_str()), ("noext", ""));
    assert_eq!(t.fields.year, some("1999"));
    assert_eq!(for_track(&t), LayoutKind::MultiDisc);
    r.max_disc = Some(1);
    assert_eq!(for_track(&track_for_plan(5, &r)), LayoutKind::SingleDisc);
}

#[test]
fn planning_stops_at_a_track_that_is_not_there() {
    let all = tracks_for_plan(&vec![1, 2], &vec![Some(row("a")), Some(row("b"))]).unwrap();
    assert_eq!(all[1].rel_path, "b");
    assert!(matches!(
        tracks_for_plan(&vec![1, 2, 3], &vec![Some(row("a")), None, None]),
        Err(EditError::TrackNotFound(2))
    ));
    let p = planned_rename(track_for_plan(1, &row("a")), Planned::Path("b".to_string()));
    assert_eq!((p.track_id, p.current_rel_path.as_str()), (1, "a"));
}

#[test]
fn layouts_have_to_be_readable() {
    assert!(check_layouts(None, None, None).is_ok());
    assert!(matches!(
        check_layouts(None, Some("x"), Some("y")),
        Err(EditError::Internal(m)) if m == "[layout].multi_disc が不正: x"
    ));
    assert!(matches!(
        check_layouts(Some("x"), None, None),
        Err(EditError::Internal(m)) if m == "[layout].single_disc が不正: x"
    ));
    assert!(matches!(
        check_layouts(None, None, Some("x")),
        Err(EditError::Internal(m)) if m == "[layout].unsorted が不正: x"
    ));
}

#[test]
fn only_tracks_outside_the_selection_take_paths() {
    let o = |id, key: &str, dir: Option<&str>| Occupant {
        id,
        rel_path_key: key.to_string(),
        album_id: Some(id * 10),
        mb_release_id: None,
        rel_dir_key: dir.map(|s| s.to_string()),
    };
    let occ = occupancy(&vec![o(1, "a/x", Some("a")), o(2, "b/y", Some("b")), o(3, "z", None)], &vec![1]);
    assert_eq!(occ.path_keys, vec!["b/y", "z"]);
    assert_eq!(occ.dir_releases, vec![("b".to_string(), "album:20".to_string())]);
}

fn rename_target(id: i64, new: &str) -> RenameTarget {
    RenameTarget { track_id: id, new_rel_path: new.to_string(), expected: None, planned_conflict: None }
}

fn rename_state(path: &str) -> RenameState {
    RenameState { current: Some(precondition(path, 7)), invalid: None, holder: None }
}

#[test]
fn a_batch_of_renames_records_what_moves() {
    let mut shown = rename_target(5, "e2");
    shown.expected = Some(Precondition { tag_hash: Some(vec![2]), ..precondition("e", 7) });
    let mut planned = rename_target(6, "f2");
    planned.planned_conflict = some("taken");
    let targets = vec![
        rename_target(1, "b"),
        rename_target(2, "b.new"),
        rename_target(3, "c"),
        rename_target(4, "../d"),
        shown,
        planned,
        rename_target(7, "same"),
        rename_target(8, "SAME"),
        rename_target(9, "held"),
        rename_target(10, "gone"),
    ];
    let mut states: Vec<RenameState> =
        ["a", "b", "c", "d", "e", "f", "g", "h", "i", "j"].iter().map(|p| rename_state(p)).collect();
    states[0].holder = Some((2, false));
    states[3].invalid = some("bad");
    states[8].holder = Some((99, false));
    states[9].holder = Some((98, true));
    let b = prepare_rename(&targets, &states, vec![]).unwrap();
    assert_eq!(b.planned.iter().map(|e| e.target).collect::<Vec<_>>(), vec![0, 1, 9]);
    assert_eq!(b.unchanged, 1);
    assert_eq!(b.vacate, vec![98]);
    let errors: Vec<(usize, &str)> = b.conflicts.iter().map(|c| (c.entry.target, c.error.as_str())).collect();
    assert_eq!(
        errors,
        vec![
            (3, "宛先が不正: bad"),
            (4, "プレビューの後に変更された（tag_hash 不一致）"),
            (5, "taken"),
            (6, "宛先が選択内の別のトラックと重複: same"),
            (7, "宛先が選択内の別のトラックと重複: SAME"),
            (8, "宛先を別のトラックが占有: held"),
        ]
    );
    assert_eq!(b.planned[0].old, "a");
    assert_eq!(b.planned[0].expected.inode, Some(7));
    assert_eq!(b.planned.len() + b.conflicts.len() + b.unchanged, targets.len());
    assert_eq!(rename_job_key(12, &b), some("rename:batch:12"));
    let p = rename_prepared(12, &b, vec![5], None);
    assert_eq!((p.batch_id, p.affected, p.unchanged, p.conflict, p.job_ids), (12, 9, 1, 6, vec![5]));
    assert_eq!(
        rename_moves(&targets, &b.planned)[1],
        (2, "b.new".to_string(), "b.new".to_string())
    );
}

#[test]
fn a_batch_of_renames_is_refused() {
    let t = || vec![rename_target(1, "a")];
    assert!(matches!(prepare_rename(&t(), &vec![rename_state("a")], vec![]), Err(EditError::NoChanges)));
    assert!(matches!(prepare_rename(&t(), &vec![rename_state("a")], vec![1]), Err(EditError::Pending { .. })));
    let gone = RenameState { current: None, invalid: None, holder: None };
    assert!(matches!(prepare_rename(&t(), &vec![gone], vec![]), Err(EditError::TrackNotFound(1))));
    let twice = vec![rename_target(1, "a"), rename_target(1, "b")];
    assert!(matches!(
        prepare_rename(&twice, &vec![rename_state("x"), rename_state("x")], vec![]),
        Err(EditError::DuplicateTrack(1))
    ));
}

#[test]
fn moved_tracks_are_grouped_by_directory() {
    let moves = vec![
        track_move(1, "B/x.flac", Some(10)),
        track_move(2, "a/y.flac", Some(11)),
        track_move(3, "b/z.flac", Some(10)),
        track_move(4, "root.flac", None),
    ];
    let (groups, loose) = group_moves(&moves);
    assert_eq!(loose, vec![4]);
    assert_eq!(groups.iter().map(|g| g.key.as_str()).collect::<Vec<_>>(), vec!["a", "b"]);
    assert_eq!(groups[1].dir, "B");
    assert_eq!(groups[1].moves, vec![0, 2]);
    assert_eq!(old_albums(&moves), vec![10, 11]);
}

#[test]
fn an_album_moves_as_a_whole_or_not() {
    assert_eq!(whole_album(&vec![Some(1), Some(1)], &vec![2, 2]), Some(1));
    assert_eq!(whole_album(&vec![Some(1), Some(1)], &vec![3, 3]), None);
    assert_eq!(whole_album(&vec![Some(2), Some(1), Some(1)], &vec![1, 2, 2]), Some(1));
    assert_eq!(whole_album(&vec![Some(2), Some(1)], &vec![1, 1]), Some(2));
    assert_eq!(whole_album(&vec![None], &vec![0]), None);
    assert_eq!(album_step(Some((5, false)), Some(6)), AlbumStep::Join(5));
    assert_eq!(album_step(Some((5, true)), Some(6)), AlbumStep::Displace { stale: 5, album: 6 });
    assert_eq!(album_step(Some((5, true)), None), AlbumStep::Revive(5));
    assert_eq!(album_step(None, Some(6)), AlbumStep::Move(6));
    assert_eq!(album_step(None, None), AlbumStep::Create);
    assert_eq!(displaced_dir(5), "\0displaced:5");
}

#[test]
fn a_new_album_is_what_most_of_its_tracks_say() {
    let h = |aa: Option<&str>, al: &str, cat| AlbumHint {
        albumartist: aa.map(|s| s.to_string()),
        album: some(al),
        date: None,
        category_id: cat,
    };
    let tracks = vec![h(Some("x"), "p", None), h(None, "q", Some(4)), h(Some("y"), "q", Some(5))];
    let m = album_meta_from_tracks("Jazz/y", &tracks, &vec![(1, "JAZZ".to_string())]);
    assert_eq!(m.category_id, Some(1));
    assert_eq!((m.albumartist, m.album, m.date), (some("x"), some("q"), None));
    assert_eq!(album_meta_from_tracks("Rock/y", &tracks, &vec![(1, "JAZZ".to_string())]).category_id, Some(4));
}

fn an_op(id: i64) -> Op {
    Op { id, batch_id: 9, track_id: id * 10, kind: OpKind::Rename, result: OpResult::Pending, job_id: None }
}

fn edit(new: JsonValue) -> Vec<Edit> {
    vec![Edit { key: "rel_path".to_string(), old_value: JsonValue::Null, new_value: new }]
}

fn renaming(id: i64, from: &str, to: &str) -> RenameOp {
    rename_op(an_op(id), precondition(from, id), &edit(JsonValue::Text(to.to_string())), None, None, true).unwrap()
}

#[test]
fn a_rename_is_read_from_its_operation() {
    let r = renaming(3, "a/b.wav", "c/d.wav");
    assert_eq!((r.source.as_str(), r.temp.as_str(), r.final_path.as_str()), ("a/b.wav", "a/spindle-rename-3.wav", "c/d.wav"));
    let mut p = precondition("a", 1);
    p.rel_path = None;
    assert!(matches!(
        rename_op(an_op(3), p, &edit(JsonValue::Null), None, None, true),
        Err(EditError::Internal(m)) if m == "op 3 に expected_rel_path が無い"
    ));
    assert!(matches!(
        rename_op(an_op(3), precondition("a", 1), &edit(JsonValue::Null), None, None, true),
        Err(EditError::Internal(m)) if m == "op 3 に rel_path の edit が無い"
    ));
    assert!(matches!(
        rename_op(an_op(3), precondition("a", 1), &edit(JsonValue::Text("b".to_string())), None, some("bad"), true),
        Err(EditError::RelPath(m)) if m == "bad"
    ));
    assert!(matches!(
        rename_op(an_op(3), precondition("a", 1), &edit(JsonValue::Text("b".to_string())), None, None, false),
        Err(EditError::Internal(m)) if m == "op 3 の一時名を作れない"
    ));
}

#[test]
fn a_file_is_looked_for_from_its_new_name_back() {
    let r = renaming(3, "a", "b");
    assert!(matches!(locate(&r, &vec![]), LocateStep::LookAtFinal));
    assert!(matches!(locate(&r, &vec![Some(stat(3))]), LocateStep::Found(Location::Final(_))));
    assert!(matches!(locate(&r, &vec![Some(stat(4))]), LocateStep::LookAtTemp));
    assert!(matches!(locate(&r, &vec![None, Some(stat(3))]), LocateStep::Found(Location::Staged(_))));
    assert!(matches!(locate(&r, &vec![None, None]), LocateStep::LookAtSource));
    assert!(matches!(locate(&r, &vec![None, None, Some(stat(3))]), LocateStep::Found(Location::Source(_))));
    let mut changed = stat(3);
    changed.size = 11;
    assert!(matches!(
        locate(&r, &vec![None, None, Some(changed)]),
        LocateStep::Found(Location::Conflict { reason, at: Some((p, _)) }) if reason == "事前条件不一致: size" && p == "a"
    ));
    assert!(matches!(
        locate(&r, &vec![None, None, Some(stat(9))]),
        LocateStep::Found(Location::Conflict { reason, at: None }) if reason == "事前条件不一致: inode"
    ));
    assert!(matches!(
        locate(&r, &vec![None, None, None]),
        LocateStep::Found(Location::Conflict { reason, at: None }) if reason == "ファイルが無い: a"
    ));
}

#[test]
fn moves_end_in_places() {
    let r = renaming(3, "a", "b");
    assert!(matches!(stage(&r, MoveEnd::Moved(Some(stat(3)))), Location::Staged(_)));
    assert!(matches!(stage(&r, MoveEnd::Taken(Some(stat(3)))), Location::Conflict { reason, at: Some(_) } if reason == "一時名が既に存在する: spindle-rename-3"));
    assert!(matches!(stage(&r, MoveEnd::Gone), Location::Conflict { reason, at: None } if reason == "退避の直前にファイルが無くなった: a"));
    assert!(matches!(stage(&r, MoveEnd::Moved(None)), Location::Conflict { reason, .. } if reason == "退避の直後にファイルが無くなった"));
    assert!(matches!(unstage(&r, MoveEnd::Moved(Some(stat(3)))), Location::Conflict { reason, at: Some((p, _)) } if reason.is_empty() && p == "a"));
    assert!(matches!(unstage(&r, MoveEnd::Taken(Some(stat(3)))), Location::Conflict { at: Some((p, _)), .. } if p == "spindle-rename-3"));
    assert!(matches!(finalize(&r, FinalEnd::Moved(Some(stat(3)))), Location::Final(_)));
    assert!(matches!(finalize(&r, FinalEnd::Moved(None)), Location::Conflict { reason, .. } if reason == "最終名へ置いた直後にファイルが無くなった"));
    assert!(matches!(
        finalize(&r, FinalEnd::Taken(MoveEnd::Moved(Some(stat(3))))),
        Location::Conflict { reason, at: Some((p, _)) } if reason == "宛先が既に存在する: b" && p == "a"
    ));
    assert!(matches!(finalize(&r, FinalEnd::Gone), Location::Conflict { reason, at: None } if reason == "一時名のファイルが無くなった: spindle-rename-3"));
}

#[test]
fn every_file_is_staged_before_any_is_placed() {
    let mut locs: Vec<Location> = vec![];
    assert_eq!(next_action(2, &locs, false, 0), RenameAction::Stage(0));
    locs.push(Location::Staged(stat(1)));
    assert_eq!(next_action(2, &locs, false, 0), RenameAction::Stage(1));
    locs.push(Location::Conflict { reason: "x".to_string(), at: None });
    assert_eq!(next_action(2, &locs, false, 0), RenameAction::CheckCancel);
    assert_eq!(next_action(2, &locs, true, 0), RenameAction::Place(0));
    assert_eq!(next_action(2, &locs, true, 1), RenameAction::Finish);
    assert_eq!(cancel_action(Some(&locs[0])), CancelAction::Unstage);
    assert_eq!(cancel_action(Some(&locs[1])), CancelAction::Keep);
    assert_eq!(cancel_action(None), CancelAction::Locate);
}

#[test]
fn a_batch_of_renames_begins_where_something_waits() {
    assert!(matches!(rename_start(7, None, 1), Err(EditError::Internal(m)) if m == "バッチが存在しない: 7"));
    assert!(matches!(rename_start(7, Some(true), 1), Ok(RenameStart::Ended)));
    assert!(matches!(rename_start(7, Some(false), 0), Ok(RenameStart::Aggregate)));
    assert!(matches!(rename_start(7, Some(false), 1), Ok(RenameStart::Run)));
}

#[test]
fn names_change_places_in_a_ring() {
    let ops = vec![renaming(1, "a", "b"), renaming(2, "b", "c"), renaming(3, "c", "a")];
    let mut files: HashMap<String, u64> =
        [("a", 1), ("b", 2), ("c", 3), ("d", 4)].iter().map(|(p, i)| (p.to_string(), *i)).collect();
    let mut locs: Vec<Location> = vec![];
    let (mut checked, mut from) = (false, 0);
    loop {
        match next_action(ops.len(), &locs, checked, from) {
            RenameAction::Stage(i) => {
                let inode = files.remove(&ops[i].source).unwrap();
                assert!(files.insert(ops[i].temp.clone(), inode).is_none());
                locs.push(stage(&ops[i], MoveEnd::Moved(Some(stat(inode)))));
            }
            RenameAction::CheckCancel => checked = true,
            RenameAction::Place(i) => {
                let inode = files.remove(&ops[i].temp).unwrap();
                assert!(files.insert(ops[i].final_path.clone(), inode).is_none());
                locs[i] = finalize(&ops[i], FinalEnd::Moved(Some(stat(inode))));
                from = i + 1;
            }
            RenameAction::Finish => break,
        }
    }
    assert_eq!((files["a"], files["b"], files["c"], files["d"]), (3, 1, 2, 4));
    assert_eq!(files.len(), 4);
    let settled: Vec<_> = ops.iter().zip(locs).map(|(r, l)| settle(r, l, "x")).collect();
    assert_eq!(applied_tracks(&settled), vec![10, 20, 30]);
}

#[test]
fn the_catalogue_follows_the_files() {
    let (a, b, c) = (renaming(1, "a", "a2"), renaming(2, "b", "b2"), renaming(3, "c", "c2"));
    let d = renaming(4, "d", "d2");
    let settled = vec![
        settle(&a, Location::Final(stat(1)), "x"),
        settle(&b, Location::Source(stat(2)), "cancelled"),
        settle(&c, Location::Conflict { reason: "gone".to_string(), at: None }, "x"),
        settle(&d, Location::Final(stat(4)), "x"),
    ];
    assert_eq!(settled[1].error, some("cancelled"));
    assert!(settled[2].result == OpResult::SkippedConflict);
    let current = ["a2", "b2", "c2", "d9"].iter().map(|s| s.to_string()).collect();
    let plan = commit_settled(&settled, &vec![true, true, true, false], &current);
    assert_eq!(plan.outcome, RenameOutcome { applied: 1, conflict: 1, failed: 1, cancelled: false });
    assert_eq!(plan.moves, vec![(20, "b".to_string(), "b".to_string())]);
    assert_eq!(plan.lost, vec![(30, "c".to_string())]);
    assert_eq!(evictions(&plan.moves, &vec![Some(77)], &vec![10, 20]), vec![77]);
    assert_eq!(evictions(&plan.moves, &vec![Some(10)], &vec![10, 20]), Vec::<i64>::new());
    assert!(goes_back(3, None) && goes_back(3, Some(3)) && !goes_back(3, Some(4)));
    assert_eq!(RenameOutcome::default().applied, 0);
}
