//! Today, search and the time summary.

use int_tasks::model::{Board, Session, SessionKind, Status, Task};
use int_tasks::query::{find, focus_target, time_summary, today, Filter, TodayReason};
use int_tasks::store::{Data, Settings};


fn data_with(tasks: Vec<Task>) -> Data {
    let board = Board::with_default_lists("Tasks", 0);
    Data { boards: vec![board], tasks, revision: 1, settings: Settings::default() }
}

fn task(title: &str, due: Option<&str>, flagged: bool, status: Status) -> Task {
    let mut task = Task::new(title, "list_1");
    task.due = due.map(str::to_string);
    task.today = flagged;
    task.status = status;
    task
}

#[test]
fn today_shows_overdue_due_flagged_and_in_progress() {
    let data = data_with(vec![
        task("Overdue", Some("2026-07-01"), false, Status::Todo),
        task("Due today", Some("2026-07-31"), false, Status::Todo),
        task("Flagged", None, true, Status::Todo),
        task("In progress", None, false, Status::Doing),
        task("Someday", None, false, Status::Todo),
        task("Future", Some("2026-12-01"), false, Status::Todo),
    ]);
    let titles: Vec<String> =
        today(&data, "2026-07-31").into_iter().map(|e| e.task.title).collect();

    assert!(!titles.contains(&"Someday".to_string()), "unscheduled work is not Today");
    assert!(!titles.contains(&"Future".to_string()), "future work is not Today");
    assert_eq!(titles.len(), 4);
}

#[test]
fn today_puts_overdue_first_and_in_progress_next() {
    let data = data_with(vec![
        task("Flagged", None, true, Status::Todo),
        task("Due today", Some("2026-07-31"), false, Status::Todo),
        task("In progress", None, false, Status::Doing),
        task("Overdue", Some("2026-07-01"), false, Status::Todo),
    ]);
    let order: Vec<String> = today(&data, "2026-07-31").into_iter().map(|e| e.task.title).collect();
    assert_eq!(order, vec!["Overdue", "In progress", "Due today", "Flagged"]);
}

#[test]
fn today_never_shows_completed_work() {
    let mut done = task("Finished", Some("2026-07-01"), true, Status::Done);
    done.completed_at = Some(1);
    let data = data_with(vec![done]);
    assert!(today(&data, "2026-07-31").is_empty());
}

#[test]
fn today_reports_why_each_task_is_there() {
    let data = data_with(vec![task("Overdue", Some("2026-01-01"), false, Status::Todo)]);
    assert_eq!(today(&data, "2026-07-31")[0].reason, TodayReason::Overdue);
}

#[test]
fn find_hides_done_tasks_unless_asked() {
    let data = data_with(vec![
        task("Open", None, false, Status::Todo),
        task("Closed", None, false, Status::Done),
    ]);
    assert_eq!(find(&data, &Filter::default()).len(), 1);
    let with_done = Filter { include_done: true, ..Default::default() };
    assert_eq!(find(&data, &with_done).len(), 2);
}

#[test]
fn find_matches_title_and_notes_case_insensitively() {
    let mut with_notes = task("Unrelated", None, false, Status::Todo);
    with_notes.notes = Some("mentions Pomodoro inside".into());
    let data = data_with(vec![task("Pomodoro timer", None, false, Status::Todo), with_notes]);

    let filter = Filter { query: Some("pomodoro".into()), ..Default::default() };
    assert_eq!(find(&data, &filter).len(), 2);
}

#[test]
fn find_filters_by_tag() {
    let mut tagged = task("Tagged", None, false, Status::Todo);
    tagged.tags = vec!["Work".into()];
    let data = data_with(vec![tagged, task("Untagged", None, false, Status::Todo)]);

    let filter = Filter { tag: Some("work".into()), ..Default::default() };
    assert_eq!(find(&data, &filter).len(), 1, "tags match case-insensitively");
}

#[test]
fn time_summary_groups_by_task_and_excludes_breaks() {
    let mut task_a = Task::new("A", "list_1");
    task_a.id = "task_a".into();
    let data = data_with(vec![task_a]);

    let sessions = vec![
        Session { id: "s1".into(), task_id: Some("task_a".into()), started_at: 1000, ended_at: 2000, seconds: 1500, kind: SessionKind::Focus, completed: true },
        Session { id: "s2".into(), task_id: Some("task_a".into()), started_at: 3000, ended_at: 4000, seconds: 900, kind: SessionKind::Focus, completed: false },
        Session { id: "s3".into(), task_id: None, started_at: 5000, ended_at: 6000, seconds: 600, kind: SessionKind::Focus, completed: true },
        Session { id: "s4".into(), task_id: Some("task_a".into()), started_at: 7000, ended_at: 8000, seconds: 300, kind: SessionKind::Break, completed: true },
    ];

    let summary = time_summary(&data, &sessions, None, None);
    assert_eq!(summary.total_seconds, 3000, "breaks must not count as focus time");
    assert_eq!(summary.focus_sessions, 3);
    assert_eq!(summary.unattributed_seconds, 600);
    assert_eq!(summary.by_task[0].task_id, "task_a");
    assert_eq!(summary.by_task[0].seconds, 2400);
    assert_eq!(summary.by_task[0].title.as_deref(), Some("A"));
}

#[test]
fn time_summary_respects_a_date_range() {
    let data = data_with(vec![]);
    let sessions = vec![
        Session { id: "s1".into(), task_id: None, started_at: 1000, ended_at: 2000, seconds: 60, kind: SessionKind::Focus, completed: true },
        Session { id: "s2".into(), task_id: None, started_at: 9000, ended_at: 9500, seconds: 60, kind: SessionKind::Focus, completed: true },
    ];
    let summary = time_summary(&data, &sessions, Some(5000), None);
    assert_eq!(summary.focus_sessions, 1);
}

#[test]
fn a_focus_session_from_the_tray_is_for_the_top_of_today() {
    let data = data_with(vec![
        task("Someday", None, false, Status::Todo),
        task("Overdue", Some("2026-07-01"), false, Status::Todo),
    ]);
    let (id, title) = focus_target(&data, "2026-07-31").unwrap();
    assert_eq!(title, "Overdue");
    assert_eq!(id, data.tasks[1].id);
    assert_eq!(focus_target(&data_with(vec![]), "2026-07-31"), None, "nothing on Today, no task");
}

#[test]
fn a_search_can_be_narrowed_to_a_project() {
    let mut mine = task("Mine", None, false, Status::Todo);
    mine.project = Some("Intentio".to_string());
    let mut other = task("Other", None, false, Status::Todo);
    other.project = Some("Elsewhere".to_string());
    let data = data_with(vec![mine, other, task("None", None, false, Status::Todo)]);
    let filter = Filter { project: Some("intentio".into()), ..Default::default() };
    let found: Vec<String> = find(&data, &filter).into_iter().map(|t| t.title).collect();
    assert_eq!(found, vec!["Mine"]);
}
