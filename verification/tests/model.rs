//! Tasks, lists, boards and their identities.

use int_tasks::model::{new_id, Board, Status, Task};

#[test]
fn a_task_needs_only_a_title() {
    let task = Task::new("  Buy milk  ", "list_1");
    assert_eq!(task.title, "Buy milk");
    assert_eq!(task.status, Status::Todo);
    assert!(task.due.is_none());
    assert!(!task.today);
    assert!(task.completed_at.is_none());
}

#[test]
fn ids_are_unique_within_the_same_instant() {
    let ids: Vec<String> = (0..500).map(|_| new_id("task")).collect();
    let unique: std::collections::HashSet<&String> = ids.iter().collect();
    assert_eq!(unique.len(), ids.len());
}

#[test]
fn default_board_has_the_usual_three_lists() {
    let board = Board::with_default_lists("Work", 0);
    let names: Vec<&str> = board.lists.iter().map(|list| list.name.as_str()).collect();
    assert_eq!(names, vec!["To Do", "Doing", "Done"]);
    assert_eq!(board.first_list_id(), Some(board.lists[0].id.as_str()));
    assert_eq!(board.lists[2].status, Some(Status::Done));
    assert_ne!(board.lists[0].id, board.lists[1].id);
    assert_ne!(board.lists[0].id, board.lists[2].id);
    assert_ne!(board.lists[1].id, board.lists[2].id);
}

#[test]
fn due_dates_sort_correctly_as_strings() {
    let mut dates = ["2026-12-01", "2026-02-09", "2026-02-10"];
    dates.sort();
    assert_eq!(dates, ["2026-02-09", "2026-02-10", "2026-12-01"]);
}

#[test]
fn ids_carry_their_prefix() {
    let id = new_id("task");
    assert!(id.starts_with("task_"), "{id}");
    assert_ne!(new_id("task"), new_id("task"));
}
