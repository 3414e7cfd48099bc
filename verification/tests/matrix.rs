//! The impact/effort matrix and the suggestion drawn from it.

use int_tasks::matrix::{plot, suggest, Quadrant};
use int_tasks::model::{Board, Status, Task};
use int_tasks::store::{Data, Settings};


const TODAY: &str = "2026-07-31";

fn scored(title: &str, impact: Option<u8>, effort: Option<u8>, status: Status) -> Task {
    let mut task = Task::new(title, "list_1");
    task.impact = impact;
    task.effort = effort;
    task.status = status;
    task
}

fn data_with(tasks: Vec<Task>) -> Data {
    Data { boards: vec![Board::with_default_lists("Tasks", 0)], tasks, revision: 1, settings: Settings::default() }
}

#[test]
fn quadrants_split_at_the_middle_of_the_scale() {
    assert_eq!(Quadrant::of(10, 1), Quadrant::QuickWin);
    assert_eq!(Quadrant::of(10, 10), Quadrant::BigBet);
    assert_eq!(Quadrant::of(1, 1), Quadrant::FillIn);
    assert_eq!(Quadrant::of(1, 10), Quadrant::Thankless);
    // Exactly 5 is the low half of a ten-point scale.
    assert_eq!(Quadrant::of(5, 5), Quadrant::FillIn);
    assert_eq!(Quadrant::of(6, 5), Quadrant::QuickWin);
}

#[test]
fn unscored_tasks_are_not_plotted() {
    let data = data_with(vec![
        scored("Scored", Some(8), Some(2), Status::Todo),
        scored("No effort", Some(8), None, Status::Todo),
        scored("Nothing", None, None, Status::Todo),
    ]);
    let plotted = plot(&data, TODAY);
    assert_eq!(plotted.len(), 1, "a task must not be placed where it was never assessed");
    assert_eq!(plotted[0].task.title, "Scored");
}

#[test]
fn completed_work_leaves_the_matrix() {
    let data = data_with(vec![scored("Done", Some(9), Some(1), Status::Done)]);
    assert!(plot(&data, TODAY).is_empty());
}

#[test]
fn the_best_value_sorts_first() {
    let data = data_with(vec![
        scored("Expensive", Some(10), Some(10), Status::Todo),
        scored("Bargain", Some(8), Some(2), Status::Todo),
        scored("Middling", Some(6), Some(3), Status::Todo),
    ]);
    let plotted = plot(&data, TODAY);
    let order: Vec<&str> = plotted.iter().map(|p| p.task.title.as_str()).collect();
    assert_eq!(order, vec!["Bargain", "Middling", "Expensive"]);
}

#[test]
fn a_low_energy_suggestion_is_cheap_not_merely_valuable() {
    let data = data_with(vec![
        scored("Huge but brilliant", Some(10), Some(9), Status::Todo),
        scored("Small and useful", Some(6), Some(2), Status::Todo),
        scored("Tiny and dull", Some(2), Some(1), Status::Todo),
    ]);
    // Cheapest wins when energy is low, even though its ratio is not top.
    assert_eq!(suggest(&data, TODAY, true).unwrap().task.title, "Tiny and dull");
    // With energy, best value wins.
    assert_eq!(suggest(&data, TODAY, false).unwrap().task.title, "Small and useful");
}

#[test]
fn a_low_energy_suggestion_falls_back_rather_than_refusing() {
    let data = data_with(vec![scored("Only a big one", Some(9), Some(10), Status::Todo)]);
    // Handing back nothing when the user asked for help is the worst answer.
    assert_eq!(suggest(&data, TODAY, true).unwrap().task.title, "Only a big one");
}

#[test]
fn nothing_to_suggest_when_nothing_is_scored() {
    assert!(suggest(&data_with(vec![]), TODAY, true).is_none());
}

#[test]
fn urgency_rises_as_the_due_date_nears() {
    let mut overdue = Task::new("Late", "list_1");
    overdue.due = Some("2026-07-01".to_string());
    let mut later = Task::new("Later", "list_1");
    later.due = Some("2026-12-01".to_string());
    let none = Task::new("Whenever", "list_1");
    let a = int_tasks::matrix::urgency(&overdue, TODAY);
    let b = int_tasks::matrix::urgency(&later, TODAY);
    let c = int_tasks::matrix::urgency(&none, TODAY);
    assert!(a > b, "{a} should be above {b}");
    assert!(a <= 10 && b <= 10 && c <= 10);
}

#[test]
fn quadrants_have_their_labels() {
    assert_eq!(Quadrant::QuickWin.label(), "Quick wins");
    assert_eq!(Quadrant::BigBet.label(), "Big bets");
    assert_eq!(Quadrant::FillIn.label(), "Fill-ins");
    assert_eq!(Quadrant::Thankless.label(), "Thankless");
}
