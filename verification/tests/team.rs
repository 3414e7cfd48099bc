//! A team: the stores beside your own, and work handed between them.

use int_tasks::persist::{Found, Store};
use int_tasks::model::{Status, Task};
use int_tasks::team::{activity, assign, assigned_to, assignee, team, Member, MemberTasks};

fn member(name: &str, is_me: bool) -> Member {
    Member { name: name.to_string(), root: format!("team/{name}"), is_me }
}

fn store() -> Store {
    Store::open("team/x".to_string(), Found::Nothing, Vec::new()).unwrap()
}

#[test]
fn a_team_is_the_folders_beside_your_own() {
    let found = team(vec![member("max", true), member("vernon", false), member("mathew", false)]);
    assert_eq!(found.iter().map(|m| m.name.as_str()).collect::<Vec<_>>(), vec!["mathew", "max", "vernon"]);
    assert_eq!(found.iter().filter(|m| m.is_me).count(), 1);
    assert!(found.iter().find(|m| m.name == "max").unwrap().is_me);
}

#[test]
fn dot_folders_are_machinery_not_people() {
    let names: Vec<String> =
        team(vec![member("max", true), member(".git", false), member("mathew", false)]).into_iter().map(|m| m.name).collect();
    assert_eq!(names, vec!["mathew", "max"]);
}

#[test]
fn working_alone_is_not_a_team_of_one() {
    assert!(team(vec![member("tasks", true)]).is_empty());
    assert!(team(vec![member("tasks", true), member(".git", false)]).is_empty());
}

#[test]
fn assigning_puts_the_task_in_their_store_not_ours() {
    let mine = store();
    let mut theirs = store();

    let task = assign(&mut theirs, &member("mathew", false), "(stm) review the migration plan", "max", "2026-08-28").unwrap();

    assert_eq!(task.title, "review the migration plan", "the line is read as usual");
    assert_eq!(task.project.as_deref(), Some("stm"));
    assert_eq!(task.assigned_by.as_deref(), Some("max"));
    assert_eq!(task.assignee.as_deref(), Some("mathew"));

    assert!(theirs.read().unwrap().tasks.iter().any(|t| t.id == task.id), "it is in theirs");
    assert!(mine.read().unwrap().tasks.is_empty(), "and not in mine");
}

#[test]
fn an_owner_written_into_the_line_is_honoured() {
    let mut theirs = store();
    // Handing something to Mathew that is ultimately for Vernon.
    let task = assign(&mut theirs, &member("mathew", false), "chase the invoice @vernon", "max", "2026-08-28").unwrap();
    assert_eq!(task.assignee.as_deref(), Some("vernon"), "the line wins");
    assert_eq!(task.assigned_by.as_deref(), Some("max"));
}

#[test]
fn only_work_someone_else_handed_over_counts_as_assigned() {
    let mut mine = store();
    let own = mine.add_task("Something I thought of", None).unwrap();
    let handed = assign(&mut mine, &member("mathew", false), "Something Max asked for", "max", "2026-08-28").unwrap();

    let tasks = mine.read().unwrap().tasks;
    let assigned = assigned_to(&member("mathew", false), &tasks);
    assert_eq!(assigned.len(), 1);
    assert_eq!(assigned[0].id, handed.id);
    assert!(!assigned.iter().any(|t| t.id == own.id));
}

#[test]
fn a_task_is_handed_only_to_a_colleague_who_is_there() {
    let members = vec![member("alice", true), member("bob", false)];
    assert_eq!(assignee(&members, "bob"), Ok(1));
    assert_eq!(assignee(&members, "carol"), Err("no team member called carol".to_string()));
    assert_eq!(
        assignee(&members, "alice"),
        Err("that is your own store — capture it normally".to_string())
    );
}

#[test]
fn activity_is_what_was_finished_or_started_not_what_waits() {
    let mut waiting = Task::new("Not begun", "l1");
    waiting.project = Some("DBC".to_string());
    let mut started = Task::new("Under way", "l1");
    started.project = Some("dbc".to_string());
    started.status = Status::Doing;
    let mut finished = Task::new("Shipped", "l1");
    finished.project = Some("DBC".to_string());
    finished.status = Status::Done;
    finished.completed_at = Some(5_000);
    let mut old = Task::new("Shipped long ago", "l1");
    old.project = Some("DBC".to_string());
    old.status = Status::Done;
    old.completed_at = Some(10);
    let people = vec![MemberTasks { name: "max".to_string(), tasks: vec![waiting, started, finished, old] }];
    let found = activity(&people, "DBC", 1_000);
    let seen: Vec<(&str, &str)> = found.iter().map(|a| (a.title.as_str(), a.state.as_str())).collect();
    assert_eq!(seen, vec![("Shipped", "completed"), ("Under way", "in_progress")]);
}
