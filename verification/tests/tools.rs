//! The tools an agent sees, called by name as the server calls them.

use int_tasks::mcp::{Arg, Args};
use int_tasks::model::{Status, Task};
use int_tasks::persist::{Found, Store};
use int_tasks::tools::{label_kind, parse_due, parse_status, server_info, LabelKind, Reply, TaskTools};

fn today() -> String {
    chrono::Local::now().format("%Y-%m-%d").to_string()
}

fn offset() -> i32 {
    chrono::Local::now().offset().local_minus_utc()
}

fn now() -> u64 {
    std::time::SystemTime::now().duration_since(std::time::UNIX_EPOCH).unwrap().as_millis() as u64
}

fn tools() -> TaskTools {
    TaskTools::new(Store::open("store".to_string(), Found::Nothing, Vec::new()).unwrap())
}

fn args(fields: Vec<(&str, Arg)>) -> Args {
    Args { fields: fields.into_iter().map(|(k, v)| (k.to_string(), v)).collect() }
}

fn text(s: &str) -> Arg {
    Arg::Text(s.to_string())
}

fn list(items: &[&str]) -> Arg {
    Arg::List(items.iter().map(|s| Some(s.to_string())).collect())
}

fn try_call(t: &mut TaskTools, name: &str, a: Vec<(&str, Arg)>) -> Result<Reply, String> {
    t.call(name, &args(a), &today(), now(), offset())
}

fn call(t: &mut TaskTools, name: &str, a: Vec<(&str, Arg)>) -> Reply {
    try_call(t, name, a).expect("tool call succeeded")
}

fn added(reply: Reply) -> Task {
    match reply {
        Reply::Added(Some(task)) => task,
        other => panic!("expected an added task, got {other:?}"),
    }
}

fn listed(t: &mut TaskTools, a: Vec<(&str, Arg)>) -> Vec<Task> {
    match call(t, "list_tasks", a) {
        Reply::Tasks(tasks) => tasks,
        other => panic!("expected tasks, got {other:?}"),
    }
}

#[test]
fn deleting_a_label_leaves_the_tasks_alone() {
    let mut t = tools();
    call(&mut t, "add_task", vec![("title", text("A")), ("tags", list(&["bug", "admin"]))]);
    let cleared = call(&mut t, "delete_label", vec![("kind", text("tag")), ("name", text("bug"))]);
    assert!(matches!(cleared, Reply::Cleared(ref name, 1) if name == "bug"), "{cleared:?}");
    let tasks = listed(&mut t, vec![]);
    assert_eq!(tasks.len(), 1, "the task survives");
    assert_eq!(tasks[0].tags, vec!["admin"]);
}

#[test]
fn renaming_a_label_onto_an_existing_one_merges_them() {
    let mut t = tools();
    call(&mut t, "add_task", vec![("title", text("A")), ("project", text("apollo"))]);
    call(&mut t, "add_task", vec![("title", text("B")), ("project", text("Apollo"))]);
    let renamed = call(&mut t, "rename_label", vec![("kind", text("project")), ("from", text("apollo")), ("to", text("Apollo"))]);
    assert!(matches!(renamed, Reply::Renamed(ref name, 1) if name == "Apollo"), "{renamed:?}");
    let tasks = listed(&mut t, vec![]);
    assert!(tasks.iter().all(|task| task.project.as_deref() == Some("Apollo")), "the two should have merged");
}

#[test]
fn a_misspelled_kind_is_rejected_rather_than_ignored() {
    let mut t = tools();
    let err = try_call(&mut t, "delete_label", vec![("kind", text("porject")), ("name", text("x"))]).unwrap_err();
    assert!(err.contains("project"), "the error should say what was expected: {err}");
}

#[test]
fn a_title_alone_is_enough_to_capture() {
    let mut t = tools();
    let task = added(call(&mut t, "add_task", vec![("title", text("Call the bank"))]));
    assert_eq!(task.title, "Call the bank");
    assert!(task.due.is_none(), "no due date should be invented");
}

#[test]
fn an_agent_gets_the_same_reading_of_a_typed_line() {
    let mut t = tools();
    let task = added(call(&mut t, "add_task", vec![("title", text("(stm) [chore] clean up the login page"))]));
    assert_eq!(task.title, "clean up the login page");
    assert_eq!(task.project.as_deref(), Some("stm"));
    assert_eq!(task.tags, vec!["chore"]);
}

#[test]
fn an_explicit_project_beats_the_one_in_the_title() {
    // An agent told which project to use was told for a reason.
    let mut t = tools();
    let task = added(call(&mut t, "add_task", vec![("title", text("(stm) ship the thing")), ("project", text("acme"))]));
    assert_eq!(task.title, "ship the thing");
    assert_eq!(task.project.as_deref(), Some("acme"));
}

#[test]
fn a_task_created_for_another_app_remembers_where_it_came_from() {
    let mut t = tools();
    let task = added(call(&mut t, "add_task", vec![("title", text("Wire up billing")), ("origin", text("mindmap:map_7#node_3"))]));
    assert_eq!(task.origin.as_deref(), Some("mindmap:map_7#node_3"));
}

#[test]
fn optional_detail_is_applied_when_given() {
    let mut t = tools();
    let task = added(call(
        &mut t,
        "add_task",
        vec![
            ("title", text("Write spec")),
            ("due", text("2026-08-01")),
            ("tags", list(&["work"])),
            ("priority", Arg::Number(Some(1))),
            ("today", Arg::Bool(true)),
        ],
    ));
    assert_eq!(task.due.as_deref(), Some("2026-08-01"));
    assert_eq!(task.tags, vec!["work"]);
    assert_eq!(task.priority, Some(1));
    assert!(task.today);
}

#[test]
fn relative_dates_are_understood() {
    let mut t = tools();
    let task = added(call(&mut t, "add_task", vec![("title", text("Due now")), ("due", text("today"))]));
    assert_eq!(task.due, Some(today()));
}

#[test]
fn a_bad_date_is_refused_rather_than_guessed() {
    let mut t = tools();
    let err = try_call(&mut t, "add_task", vec![("title", text("x")), ("due", text("next Tuesday"))]).unwrap_err();
    assert!(err.contains("is not a date"), "{err}");
}

#[test]
fn a_rejected_capture_leaves_nothing_behind() {
    let mut t = tools();
    assert!(try_call(&mut t, "add_task", vec![("title", text("x")), ("due", text("next Tuesday"))]).is_err());
    // Reporting an error while having created the task would make a retrying
    // agent produce duplicates.
    assert_eq!(listed(&mut t, vec![]).len(), 0);
}

#[test]
fn today_lists_what_matters_and_says_why() {
    let mut t = tools();
    call(&mut t, "add_task", vec![("title", text("Overdue thing")), ("due", text("2020-01-01"))]);
    call(&mut t, "add_task", vec![("title", text("Flagged thing")), ("today", Arg::Bool(true))]);
    call(&mut t, "add_task", vec![("title", text("Someday thing"))]);

    match call(&mut t, "today", vec![]) {
        Reply::Today(date, entries) => {
            assert_eq!(date, today());
            assert_eq!(entries.len(), 2, "unscheduled work must not appear on Today");
            assert_eq!(entries[0].task.title, "Overdue thing");
            assert_eq!(entries[0].reason, int_tasks::query::TodayReason::Overdue);
        },
        other => panic!("{other:?}"),
    }
}

#[test]
fn completing_moves_the_task_into_done() {
    let mut t = tools();
    let id = added(call(&mut t, "add_task", vec![("title", text("Finish it"))])).id;

    let done = match call(&mut t, "complete_task", vec![("task_id", text(&id))]) {
        Reply::Completed(task) => task,
        other => panic!("{other:?}"),
    };
    assert_eq!(done.status, Status::Done);

    let done_list = match call(&mut t, "list_boards", vec![]) {
        Reply::Boards(boards) => {
            boards[0].lists.iter().find(|l| l.status == Some(Status::Done)).unwrap().id.clone()
        },
        other => panic!("{other:?}"),
    };
    assert_eq!(done.list_id, done_list);

    // And it drops off the default listing.
    assert_eq!(listed(&mut t, vec![]).len(), 0);
}

#[test]
fn update_clears_a_field_when_passed_null() {
    let mut t = tools();
    let id = added(call(&mut t, "add_task", vec![("title", text("Dated")), ("due", text("2026-08-01"))])).id;
    match call(&mut t, "update_task", vec![("task_id", text(&id)), ("due", Arg::Null)]) {
        Reply::Updated(task) => assert!(task.due.is_none()),
        other => panic!("{other:?}"),
    }
}

#[test]
fn update_leaves_unmentioned_fields_alone() {
    let mut t = tools();
    let id = added(call(
        &mut t,
        "add_task",
        vec![("title", text("Keep me")), ("due", text("2026-08-01")), ("priority", Arg::Number(Some(2)))],
    ))
    .id;
    match call(&mut t, "update_task", vec![("task_id", text(&id)), ("title", text("Renamed"))]) {
        Reply::Updated(task) => {
            assert_eq!(task.title, "Renamed");
            assert_eq!(task.due.as_deref(), Some("2026-08-01"));
            assert_eq!(task.priority, Some(2));
        },
        other => panic!("{other:?}"),
    }
}

#[test]
fn time_is_logged_and_summarised_per_task() {
    let mut t = tools();
    let id = added(call(&mut t, "add_task", vec![("title", text("Deep work"))])).id;

    call(&mut t, "log_session", vec![("task_id", text(&id)), ("minutes", Arg::Number(Some(25)))]);
    call(&mut t, "log_session", vec![("task_id", text(&id)), ("minutes", Arg::Number(Some(25)))]);
    call(&mut t, "log_session", vec![("minutes", Arg::Number(Some(5))), ("kind", text("break"))]);

    match call(&mut t, "time_summary", vec![]) {
        Reply::Time(summary) => {
            assert_eq!(summary.total_seconds / 60, 50, "breaks must not count as focus time");
            assert_eq!(summary.focus_sessions, 2);
            assert_eq!(summary.by_task[0].seconds, 3000);
        },
        other => panic!("{other:?}"),
    }

    match call(&mut t, "get_task", vec![("task_id", text(&id))]) {
        Reply::Detail(task, list, board, seconds, sessions) => {
            assert_eq!(task.id, id);
            assert!(list.is_some());
            assert_eq!(board.map(|b| b.1), Some("Tasks".to_string()));
            assert_eq!(seconds, 3000);
            assert_eq!(sessions, 2);
        },
        other => panic!("{other:?}"),
    }
}

#[test]
fn search_matches_title_and_notes() {
    let mut t = tools();
    call(&mut t, "add_task", vec![("title", text("Unrelated")), ("notes", text("mentions invoices"))]);
    call(&mut t, "add_task", vec![("title", text("Send invoices"))]);
    assert_eq!(listed(&mut t, vec![("query", text("INVOICES"))]).len(), 2);
}

#[test]
fn scoring_places_a_task_on_the_matrix() {
    let mut t = tools();
    call(&mut t, "add_task", vec![("title", text("Quick win")), ("impact", Arg::Number(Some(9))), ("effort", Arg::Number(Some(2)))]);
    call(&mut t, "add_task", vec![("title", text("Unscored"))]);

    match call(&mut t, "matrix", vec![]) {
        Reply::Matrix(plotted) => {
            assert_eq!(plotted.len(), 1, "only scored tasks are placed");
            assert_eq!(plotted[0].quadrant, int_tasks::matrix::Quadrant::QuickWin);
        },
        other => panic!("{other:?}"),
    }
}

#[test]
fn a_low_energy_suggestion_is_the_cheap_one() {
    let mut t = tools();
    call(&mut t, "add_task", vec![("title", text("Big and brilliant")), ("impact", Arg::Number(Some(10))), ("effort", Arg::Number(Some(9)))]);
    call(&mut t, "add_task", vec![("title", text("Small and dull")), ("impact", Arg::Number(Some(3))), ("effort", Arg::Number(Some(1)))]);

    match call(&mut t, "suggest_task", vec![("low_energy", Arg::Bool(true))]) {
        Reply::Suggestion(Some(p), true) => assert_eq!(p.task.title, "Small and dull"),
        other => panic!("{other:?}"),
    }
    match call(&mut t, "suggest_task", vec![]) {
        Reply::Suggestion(Some(p), false) => assert_eq!(p.task.title, "Small and dull", "best ratio still wins"),
        other => panic!("{other:?}"),
    }
}

#[test]
fn suggesting_with_nothing_scored_explains_itself() {
    let mut t = tools();
    call(&mut t, "add_task", vec![("title", text("Unscored"))]);
    assert!(matches!(call(&mut t, "suggest_task", vec![]), Reply::Suggestion(None, false)));
}

#[test]
fn stats_report_the_days_standing() {
    let mut t = tools();
    let id = added(call(&mut t, "add_task", vec![("title", text("Worth doing")), ("impact", Arg::Number(Some(7)))])).id;
    call(&mut t, "complete_task", vec![("task_id", text(&id))]);

    match call(&mut t, "stats", vec![]) {
        Reply::Stats(stats) => {
            assert_eq!(stats.points_today, 7);
            assert_eq!(stats.completed_today, 1);
            assert_eq!(stats.daily_goal, 4);
        },
        other => panic!("{other:?}"),
    }
}

#[test]
fn unknown_ids_and_tools_are_reported() {
    let mut t = tools();
    assert!(try_call(&mut t, "complete_task", vec![("task_id", text("nope"))]).is_err());
    assert_eq!(try_call(&mut t, "nonsense", vec![]).unwrap_err(), "unknown tool: nonsense");
}

#[test]
fn a_missing_argument_is_named() {
    let mut t = tools();
    assert_eq!(try_call(&mut t, "add_task", vec![]).unwrap_err(), "`title` is required");
    assert_eq!(try_call(&mut t, "add_task", vec![("title", text("  "))]).unwrap_err(), "`title` must not be empty");
    assert_eq!(try_call(&mut t, "add_task", vec![("title", Arg::Number(Some(3)))]).unwrap_err(), "`title` must be a string");
}

#[test]
fn sessions_are_listed_newest_first_and_can_be_removed() {
    let mut t = tools();
    let id = added(call(&mut t, "add_task", vec![("title", text("Work"))])).id;
    call(&mut t, "log_session", vec![("task_id", text(&id)), ("minutes", Arg::Number(Some(25)))]);
    assert_eq!(
        try_call(&mut t, "log_session", vec![("minutes", Arg::Number(Some(0)))]).unwrap_err(),
        "`minutes` must be greater than zero"
    );
    assert_eq!(
        try_call(&mut t, "log_session", vec![("minutes", Arg::Number(Some(5))), ("kind", text("nap"))]).unwrap_err(),
        "unknown kind `nap`; use focus or break"
    );
    let lines = match call(&mut t, "sessions", vec![]) {
        Reply::Sessions(lines) => lines,
        other => panic!("{other:?}"),
    };
    assert_eq!(lines.len(), 1);
    assert_eq!(lines[0].1.as_deref(), Some("Work"));
    let sid = lines[0].0.id.clone();
    match call(&mut t, "assign_session", vec![("session_id", text(&sid))]) {
        Reply::SessionAssigned(s) => assert!(s.task_id.is_none()),
        other => panic!("{other:?}"),
    }
    match call(&mut t, "delete_session", vec![("session_id", text(&sid))]) {
        Reply::SessionDeleted(s) => assert_eq!(s.seconds, 1500),
        other => panic!("{other:?}"),
    }
    assert_eq!(
        try_call(&mut t, "delete_session", vec![("session_id", text(&sid))]).unwrap_err(),
        format!("no session with id {sid}")
    );
}

#[test]
fn the_store_describes_itself() {
    let mut t = tools();
    call(&mut t, "add_task", vec![("title", text("Open"))]);
    match call(&mut t, "store_info", vec![]) {
        Reply::Info(path, boards, tasks, open, sessions, date) => {
            assert_eq!(path, "store");
            assert_eq!((boards, tasks, open, sessions), (1, 1, 1, 0));
            assert_eq!(date, today());
        },
        other => panic!("{other:?}"),
    }
}

#[test]
fn a_team_report_covers_the_days_asked_for() {
    let mut t = tools();
    match t.call("team_activity", &args(vec![("project", text("DBC"))]), "2026-07-31", 100 * 86_400_000, 0) {
        Ok(Reply::Team(project, days, since)) => {
            assert_eq!(project, "DBC");
            assert_eq!(days, 14);
            assert_eq!(since, 86 * 86_400_000);
        },
        other => panic!("{other:?}"),
    }
}

#[test]
fn statuses_labels_and_dates_are_read_strictly() {
    assert_eq!(parse_status(" In Progress ").unwrap(), Status::Doing);
    assert_eq!(parse_status("completed").unwrap(), Status::Done);
    assert_eq!(parse_status("Later").unwrap_err(), "unknown status `later`; use todo, doing or done");
    assert_eq!(label_kind("Tags").unwrap(), LabelKind::Tag);
    assert_eq!(label_kind("porject").unwrap_err(), "kind must be `project` or `tag`, got `porject`");
    assert_eq!(parse_due("Tomorrow", "2026-12-31").unwrap(), "2027-01-01");
    assert_eq!(parse_due("yesterday", "2026-03-01").unwrap(), "2026-02-28");
    assert_eq!(parse_due(" 2026-08-01 ", "2026-03-01").unwrap(), "2026-08-01");
    assert_eq!(parse_due("soon", "2026-03-01").unwrap_err(), "`soon` is not a date; use YYYY-MM-DD, today or tomorrow");
}

#[test]
fn the_server_introduces_itself() {
    let info = server_info("1.2.3".to_string());
    assert_eq!(info.name, "intentio-tasks");
    assert_eq!(info.version, "1.2.3");
    assert!(info.instructions.contains("`add_task` needs only a title"));
}

#[test]
fn every_tool_has_a_description_and_object_schema() {
    let t = tools();
    for tool in t.tools() {
        assert!(!tool.description.is_empty(), "{} has no description", tool.name);
        assert_eq!(tool.input_schema.json_type(), "object", "{} is not an object schema", tool.name);
    }
}

#[test]
fn the_listed_tools_are_the_ones_called_and_their_required_arguments_are_declared() {
    let mut t = tools();
    let listed = t.tools();
    assert_eq!(listed.len(), 25);
    assert_eq!(listed[0].name, "add_task");
    assert_eq!(listed[0].input_schema.required(), vec!["title".to_string()]);
    let move_task = listed.iter().find(|tool| tool.name == "move_task").unwrap();
    assert_eq!(move_task.input_schema.required(), vec!["task_id".to_string(), "list_id".to_string()]);
    for tool in &listed {
        if tool.name == "labels" {
            continue;
        }
        let answer = try_call(&mut t, &tool.name, vec![]);
        assert!(
            !matches!(&answer, Err(m) if m.starts_with("unknown tool")),
            "{} is listed but not answered",
            tool.name
        );
    }
}

#[test]
fn tasks_filter_by_project() {
    let mut t = tools();
    call(&mut t, "add_task", vec![("title", text("Mine")), ("project", text("Intentio"))]);
    call(&mut t, "add_task", vec![("title", text("Other")), ("project", text("Elsewhere"))]);
    assert_eq!(listed(&mut t, vec![("project", text("intentio"))]).len(), 1);
}
