//! The store: every change read, made and committed to the log.

use int_tasks::edit::TaskEdit;
use int_tasks::error::TaskError;
use int_tasks::model::{Board, List, SessionKind, Status, Task};
use int_tasks::persist::{Found, MetaFile, Store};
use int_tasks::store::{Data, Settings};

fn temp_store() -> Store {
    Store::open("store".to_string(), Found::Nothing, Vec::new()).unwrap()
}

fn set_project(store: &mut Store, id: &str, project: &str) {
    let mut edit = TaskEdit::none();
    edit.project = Some(Some(project.to_string()));
    store.update_task(id, &edit).unwrap();
}

fn set_tags(store: &mut Store, id: &str, tags: &[&str]) {
    let mut edit = TaskEdit::none();
    edit.tags = Some(tags.iter().map(|t| t.to_string()).collect());
    store.update_task(id, &edit).unwrap();
}

fn document() -> Data {
    let mut board = Board::with_default_lists("Tasks", 0);
    board.id = "b1".to_string();
    board.lists = vec![List::new("To Do", 0, None)];
    board.lists[0].id = "l1".to_string();
    let mut t1 = Task::new("Carried over", "l1");
    t1.id = "t1".to_string();
    let mut t2 = Task::new("Also carried", "l1");
    t2.id = "t2".to_string();
    Data { boards: vec![board], tasks: vec![t1, t2], revision: 7, settings: Settings::default() }
}

#[test]
fn a_session_can_be_removed_without_disturbing_the_rest() {
    let mut store = temp_store();
    let a = store.finish_session(None, 1_000, 1500, SessionKind::Focus, true).unwrap();
    let b = store.finish_session(Some("task_1"), 2_000, 900, SessionKind::Focus, false).unwrap();

    let removed = store.delete_session(&a.id).unwrap();
    assert_eq!(removed.id, a.id);

    let left = store.sessions().unwrap();
    assert_eq!(left.len(), 1);
    assert_eq!(left[0].id, b.id, "the other session survives intact");
    assert_eq!(left[0].seconds, 900);
    assert_eq!(left[0].task_id.as_deref(), Some("task_1"));
}

#[test]
fn deleting_a_session_that_is_not_there_is_an_error() {
    let mut store = temp_store();
    assert!(store.delete_session("session_nope").is_err());
}

#[test]
fn a_new_store_is_usable_immediately() {
    let store = temp_store();
    let data = store.read().unwrap();
    assert_eq!(data.boards.len(), 1);
    assert_eq!(data.boards[0].lists.len(), 3);
    assert!(data.inbox_list_id().is_some(), "capture must have somewhere to go");
}

#[test]
fn capture_needs_only_a_title() {
    let mut store = temp_store();
    let task = store.add_task("Write the thing", None).unwrap();
    assert_eq!(task.title, "Write the thing");
    assert_eq!(store.read().unwrap().tasks.len(), 1);
    assert!(store.add_task("   ", None).is_err(), "an empty title is not a task");
}

#[test]
fn captured_tasks_queue_in_order() {
    let mut store = temp_store();
    let first = store.add_task("First", None).unwrap();
    let second = store.add_task("Second", None).unwrap();
    assert_eq!(first.order, 0);
    assert_eq!(second.order, 1);
}

#[test]
fn moving_to_a_done_list_completes_the_task() {
    let mut store = temp_store();
    let data = store.read().unwrap();
    let done_list = data.boards[0].lists.iter().find(|l| l.status == Some(Status::Done)).unwrap().id.clone();
    let task = store.add_task("Ship it", None).unwrap();

    let moved = store.move_task(&task.id, &done_list, None).unwrap();
    assert_eq!(moved.status, Status::Done);
    assert!(moved.completed_at.is_some());
}

#[test]
fn moving_back_out_of_done_clears_completion() {
    let mut store = temp_store();
    let data = store.read().unwrap();
    let done = data.boards[0].lists.iter().find(|l| l.status == Some(Status::Done)).unwrap().id.clone();
    let todo = data.boards[0].lists.iter().find(|l| l.status == Some(Status::Todo)).unwrap().id.clone();
    let task = store.add_task("Reopen me", None).unwrap();

    store.move_task(&task.id, &done, None).unwrap();
    let back = store.move_task(&task.id, &todo, None).unwrap();
    assert_eq!(back.status, Status::Todo);
    assert!(back.completed_at.is_none(), "a reopened task is not still completed");
}

#[test]
fn completing_a_task_moves_it_to_the_done_list() {
    let mut store = temp_store();
    let task = store.add_task("Finish", None).unwrap();
    let done = store.set_done(&task.id, true).unwrap();

    let data = store.read().unwrap();
    let list = data.list(&done.list_id).unwrap();
    assert_eq!(list.status, Some(Status::Done));
    assert!(done.completed_at.is_some());
}

#[test]
fn moving_into_a_position_pushes_the_rest_down() {
    let mut store = temp_store();
    let list = store.read().unwrap().inbox_list_id().unwrap();
    let a = store.add_task("A", None).unwrap();
    let b = store.add_task("B", None).unwrap();
    let c = store.add_task("C", None).unwrap();

    // Put C at the front.
    store.move_task(&c.id, &list, Some(0)).unwrap();
    let data = store.read().unwrap();
    let order: Vec<&str> = data.tasks_in_list(&list).into_iter().map(|t| t.title.as_str()).collect();
    assert_eq!(order, vec!["C", "A", "B"]);
    assert_eq!(data.task(&a.id).unwrap().order, 1);
    assert_eq!(data.task(&b.id).unwrap().order, 2);
}

#[test]
fn deleting_closes_the_gap_in_ordering() {
    let mut store = temp_store();
    let list = store.read().unwrap().inbox_list_id().unwrap();
    store.add_task("A", None).unwrap();
    let b = store.add_task("B", None).unwrap();
    store.add_task("C", None).unwrap();

    store.delete_task(&b.id).unwrap();
    let data = store.read().unwrap();
    let orders: Vec<u32> = data.tasks_in_list(&list).into_iter().map(|t| t.order).collect();
    assert_eq!(orders, vec![0, 1], "ordering must stay dense");
}

#[test]
fn unknown_ids_are_reported_rather_than_ignored() {
    let mut store = temp_store();
    assert!(store.move_task("nope", "also-nope", None).is_err());
    assert!(store.delete_task("nope").is_err());
    assert!(store.set_done("nope", true).is_err());
}

#[test]
fn every_write_bumps_the_revision() {
    let mut store = temp_store();
    let before = store.read().unwrap().revision;
    store.add_task("Bump", None).unwrap();
    assert!(store.read().unwrap().revision > before);
}

#[test]
fn the_daily_goal_can_be_changed_and_is_kept_sane() {
    let mut store = temp_store();
    assert_eq!(store.read().unwrap().settings.daily_focus_goal, 4);
    assert_eq!(store.set_daily_goal(6).unwrap().daily_focus_goal, 6);
    assert_eq!(store.read().unwrap().settings.daily_focus_goal, 6);
    // A goal of zero could never be met or missed.
    assert_eq!(store.set_daily_goal(0).unwrap().daily_focus_goal, 1);
}

#[test]
fn opening_a_document_store_migrates_it_rather_than_seeding_over_it() {
    let store = Store::open("store".to_string(), Found::Document(Ok(document())), Vec::new()).unwrap();
    let data = store.read().unwrap();
    assert_eq!(data.tasks.len(), 2, "opening must not lose the existing tasks");
    assert_eq!(data.tasks[0].title, "Carried over");
    assert_eq!(data.revision, 7, "the revision carries across");
    assert!(store.rewritten(), "the log is written out whole");
}

#[test]
fn an_unreadable_document_store_is_reported() {
    let r = Store::open("store".to_string(), Found::Document(Err(TaskError::Corrupt("bad".to_string()))), Vec::new());
    assert!(matches!(r, Err(TaskError::Corrupt(ref m)) if m == "bad"));
}

#[test]
fn only_what_changed_is_appended() {
    let mut store = temp_store();
    let a = store.add_task("First", None).unwrap();
    store.add_task("Second", None).unwrap();
    let lines_before = store.records().len();

    store
        .update(|mut data: Data| {
            let i = data.tasks.iter().position(|t| t.id == a.id).unwrap();
            data.tasks[i].title = "First, renamed".into();
            (data, Ok(()))
        })
        .unwrap();

    assert_eq!(store.records().len(), lines_before + 1, "one edit, one line, not a rewrite");

    let data = store.read().unwrap();
    assert_eq!(data.tasks.len(), 2, "the newest record wins, it does not duplicate");
    let renamed = data.tasks.iter().find(|t| t.id == a.id).unwrap();
    assert_eq!(renamed.title, "First, renamed");
    assert_eq!(renamed.revision, 1, "revision bumped once");
}

#[test]
fn a_deleted_task_leaves_a_tombstone() {
    let mut store = temp_store();
    let task = store.add_task("Doomed", None).unwrap();
    store.delete_task(&task.id).unwrap();

    assert!(store.read().unwrap().tasks.is_empty());
    // The deletion has to be a record, or another device would simply put
    // the task back the next time the logs met.
    assert!(store.records().iter().any(|r| r.id == task.id && r.deleted), "the delete is written down");
}

#[test]
fn concatenated_logs_resolve_to_the_newer_record() {
    // What a merge of two devices' files looks like: the same task twice,
    // in either order, and the higher revision has to win.
    let mut seed = temp_store();
    let task = seed.add_task("Shared", None).unwrap();
    let mut newer = task.duplicate();
    newer.title = "Edited elsewhere".into();
    newer.revision = 9;
    newer.updated_at = task.updated_at + 1000;

    let meta = MetaFile::Parsed(seed.read().unwrap());
    let store = Store::from_files("store".to_string(), meta, vec![newer, task], 0, Vec::new());
    let data = store.read().unwrap();
    assert_eq!(data.tasks.len(), 1, "one task, not two");
    assert_eq!(data.tasks[0].title, "Edited elsewhere", "order in the file must not matter");
}

#[test]
fn renaming_a_project_merges_case_variants() {
    let mut store = temp_store();
    let a = store.add_task("One", None).unwrap();
    let b = store.add_task("Two", None).unwrap();
    set_project(&mut store, &a.id, "Intentio");
    // The near-duplicate free text inevitably produces.
    set_project(&mut store, &b.id, "intentio ");

    assert_eq!(store.rename_project("Intentio", "Intentio Suite").unwrap(), 2);
    let data = store.read().unwrap();
    assert!(data.tasks.iter().all(|t| t.project.as_deref() == Some("Intentio Suite")));
}

#[test]
fn deleting_a_project_keeps_the_tasks() {
    let mut store = temp_store();
    let task = store.add_task("Keep me", None).unwrap();
    set_project(&mut store, &task.id, "Doomed");

    assert_eq!(store.delete_project("doomed").unwrap(), 1);
    let data = store.read().unwrap();
    assert_eq!(data.tasks.len(), 1, "removing a project must not remove its work");
    assert!(data.task(&task.id).unwrap().project.is_none());
}

#[test]
fn renaming_a_tag_onto_an_existing_one_does_not_duplicate_it() {
    let mut store = temp_store();
    let task = store.add_task("Tagged", None).unwrap();
    set_tags(&mut store, &task.id, &["bug", "defect"]);

    store.rename_tag("defect", "bug").unwrap();
    let data = store.read().unwrap();
    assert_eq!(data.task(&task.id).unwrap().tags, vec!["bug"]);
}

#[test]
fn deleting_a_tag_leaves_the_others() {
    let mut store = temp_store();
    let task = store.add_task("Tagged", None).unwrap();
    set_tags(&mut store, &task.id, &["bug", "admin"]);

    assert_eq!(store.delete_tag("BUG").unwrap(), 1);
    assert_eq!(store.read().unwrap().task(&task.id).unwrap().tags, vec!["admin"]);
}

#[test]
fn the_completed_window_is_settable() {
    let mut store = temp_store();
    assert_eq!(store.read().unwrap().settings.hide_completed_after_days, 2);
    assert_eq!(store.set_hide_completed_after_days(7).unwrap().hide_completed_after_days, 7);
}

#[test]
fn sessions_append_and_read_back() {
    let mut store = temp_store();
    let task = store.add_task("Focus on this", None).unwrap();
    store.finish_session(Some(&task.id), 1_000, 1500, SessionKind::Focus, true).unwrap();
    store.finish_session(None, 5_000, 300, SessionKind::Break, true).unwrap();

    let sessions = store.sessions().unwrap();
    assert_eq!(sessions.len(), 2);
    assert_eq!(sessions[0].task_id.as_deref(), Some(task.id.as_str()));
    assert_eq!(sessions[0].seconds, 1500);
    assert_eq!(sessions[1].kind, SessionKind::Break);
}

#[test]
fn an_unattributed_session_can_be_assigned_later() {
    let mut store = temp_store();
    let task = store.add_task("Late attribution", None).unwrap();
    let session = store.finish_session(None, 1_000, 1500, SessionKind::Focus, true).unwrap();
    assert!(session.task_id.is_none());

    store.assign_session(&session.id, Some(&task.id)).unwrap();
    let sessions = store.sessions().unwrap();
    assert_eq!(sessions.len(), 1, "assigning must not duplicate the record");
    assert_eq!(sessions[0].task_id.as_deref(), Some(task.id.as_str()));
}

#[test]
fn a_corrupt_store_is_reported_not_silently_reset() {
    // A log with no readable line at all.
    let store = Store::from_files("store".to_string(), MetaFile::Absent, Vec::new(), 1, Vec::new());
    // Losing someone's tasks to a silent re-seed would be far worse than an error.
    assert!(matches!(store.read(), Err(TaskError::Corrupt(_))));
    let store = Store::from_files("store".to_string(), MetaFile::Unreadable("bad meta".to_string()), Vec::new(), 0, Vec::new());
    assert!(matches!(store.read(), Err(TaskError::Corrupt(ref m)) if m == "bad meta"));
}

#[test]
fn one_bad_line_does_not_cost_the_rest_of_the_store() {
    let mut seed = temp_store();
    let good = seed.add_task("Survivor", None).unwrap();
    let meta = MetaFile::Parsed(seed.read().unwrap());
    let store = Store::from_files("store".to_string(), meta, vec![good.duplicate()], 1, Vec::new());

    let data = store.read().expect("the readable records still load");
    assert_eq!(data.tasks.len(), 1);
    assert_eq!(data.tasks[0].id, good.id);
}

#[test]
fn a_long_log_is_folded_back_to_one_record_per_task() {
    let mut store = temp_store();
    let task = store.add_task("Edited often", None).unwrap();
    for i in 0..200 {
        let mut edit = TaskEdit::none();
        edit.title = Some(format!("Edit {i}"));
        store.update_task(&task.id, &edit).unwrap();
    }
    assert!(store.records().len() < 200, "the log is compacted as it grows");
    let data = store.read().unwrap();
    assert_eq!(data.tasks.len(), 1);
    assert_eq!(data.tasks[0].title, "Edit 199");
}

#[test]
fn a_move_that_would_push_an_order_past_the_limit_is_refused_beforehand() {
    let mut data = document();
    data.tasks[0].order = 0;
    data.tasks[1].order = u32::MAX;
    // t2 sits at the end of the list; moving t1 behind it pushes nothing.
    assert!(data.can_move("t1", "l1", None));
    // Moving t1 to the top would push t2 down past the limit.
    let mut t3 = Task::new("Newcomer", "l1");
    t3.id = "t3".to_string();
    data.tasks.push(t3);
    assert!(!data.can_move("t3", "l1", Some(0)));
    data.tasks[1].order = 5;
    assert!(data.can_move("t3", "l1", Some(0)));
}

#[test]
fn renumbering_makes_a_list_dense() {
    let mut data = document();
    data.tasks[0].order = 40;
    data.tasks[1].order = 7;
    data.reindex("l1");
    let orders: Vec<u32> = data.tasks_in_list("l1").into_iter().map(|t| t.order).collect();
    assert_eq!(orders, vec![0, 1]);
    assert_eq!(data.task("t2").unwrap().order, 0, "the lower order comes first");
}

#[test]
fn scores_are_kept_within_one_to_ten_and_null_clears_them() {
    let mut store = temp_store();
    let task = store.add_task("Scored", None).unwrap();
    let scored = store.score_task(&task.id, Some(Some(14)), Some(Some(0))).unwrap();
    assert_eq!(scored.impact, Some(10));
    assert_eq!(scored.effort, Some(1));
    let kept = store.score_task(&task.id, None, Some(Some(4))).unwrap();
    assert_eq!(kept.impact, Some(10), "an impact not given is left alone");
    assert_eq!(kept.effort, Some(4));
    let cleared = store.score_task(&task.id, Some(None), None).unwrap();
    assert_eq!(cleared.impact, None, "clearing takes the task off the matrix");
    assert!(store.score_task("nope", Some(Some(3)), None).is_err());
}

#[test]
fn adding_straight_into_a_done_list_completes_the_task() {
    let mut store = temp_store();
    let data = store.read().unwrap();
    let done = data.boards[0].lists.iter().find(|l| l.status == Some(Status::Done)).unwrap().id.clone();
    let task = store.add_task("Already done", Some(&done)).unwrap();
    assert_eq!(task.status, Status::Done);
    assert_eq!(task.completed_at, Some(task.created_at));
    let open = store.add_task("Still open", None).unwrap();
    assert_eq!(open.completed_at, None);
}

#[test]
fn completing_a_task_closes_the_gap_it_leaves() {
    let mut store = temp_store();
    let list = store.read().unwrap().inbox_list_id().unwrap();
    store.add_task("A", None).unwrap();
    let b = store.add_task("B", None).unwrap();
    store.add_task("C", None).unwrap();

    store.set_done(&b.id, true).unwrap();
    let data = store.read().unwrap();
    let orders: Vec<u32> = data.tasks_in_list(&list).into_iter().map(|t| t.order).collect();
    assert_eq!(orders, vec![0, 1], "the list the task left stays dense");
}

#[test]
fn a_failed_change_writes_nothing() {
    let mut store = temp_store();
    store.add_task("Kept", None).unwrap();
    let lines_before = store.records().len();
    let revision = store.read().unwrap().revision;
    let r: Result<(), TaskError> = store.update(|mut data: Data| {
        data.tasks.clear();
        (data, Err(TaskError::EmptyTitle))
    });
    assert!(matches!(r, Err(TaskError::EmptyTitle)));
    assert_eq!(store.records().len(), lines_before);
    assert_eq!(store.read().unwrap().revision, revision);
    assert_eq!(store.read().unwrap().tasks.len(), 1);
}

#[test]
fn an_edit_through_the_named_change_appends_one_line() {
    let mut store = temp_store();
    let a = store.add_task("First", None).unwrap();
    let lines_before = store.records().len();
    let mut edit = TaskEdit::none();
    edit.title = Some("First, renamed".to_string());
    store.update_task(&a.id, &edit).unwrap();
    assert_eq!(store.records().len(), lines_before + 1);
}

#[test]
fn every_session_gets_an_id_no_other_has() {
    let mut store = temp_store();
    for i in 0..50u64 {
        store.finish_session(None, i * 1_000, 60, SessionKind::Focus, true).unwrap();
    }
    let sessions = store.sessions().unwrap();
    let mut ids: Vec<&str> = sessions.iter().map(|s| s.id.as_str()).collect();
    assert!(ids.iter().all(|id| id.starts_with("session_")));
    ids.sort();
    ids.dedup();
    assert_eq!(ids.len(), 50);
}

#[test]
fn every_added_task_gets_an_id_no_other_task_has() {
    let mut store = temp_store();
    for i in 0..50 {
        store.add_task(&format!("Task {i}"), None).unwrap();
    }
    let data = store.read().unwrap();
    let mut ids: Vec<&str> = data.tasks.iter().map(|t| t.id.as_str()).collect();
    assert!(ids.iter().all(|id| id.starts_with("task_")));
    ids.sort();
    ids.dedup();
    assert_eq!(ids.len(), 50);
}
