//! Streaks, the day's standing, and the trend.

use int_tasks::dates::civil_days;
use int_tasks::model::{new_id, Board, Session, SessionKind, Status, Task};
use int_tasks::stats::{recent_progress, stats, UNSCORED_IMPACT};
use int_tasks::store::{Data, Settings};


const TODAY: &str = "2026-07-31";
/// Midday UTC on a given date, so offsets in tests do not shift the day.
fn at(date: &str) -> u64 {
    (civil_days(date).unwrap() as u64) * 86_400_000 + 12 * 3_600_000
}

fn focus_on(date: &str) -> Session {
    Session {
        id: new_id("session"),
        task_id: None,
        started_at: at(date),
        ended_at: at(date) + 1_500_000,
        seconds: 1500,
        kind: SessionKind::Focus,
        completed: true,
    }
}

fn data_with(tasks: Vec<Task>) -> Data {
    Data { boards: vec![Board::with_default_lists("Tasks", 0)], tasks, revision: 1, settings: Settings::default() }
}

fn done(title: &str, impact: Option<u8>, completed_on: &str) -> Task {
    let mut task = Task::new(title, "list_1");
    task.status = Status::Done;
    task.impact = impact;
    task.completed_at = Some(at(completed_on));
    task
}

#[test]
fn consecutive_days_build_a_streak() {
    let sessions = vec![focus_on("2026-07-31"), focus_on("2026-07-30"), focus_on("2026-07-29")];
    let stats = stats(&data_with(vec![]), &sessions, TODAY, 0, 4);
    assert_eq!(stats.streak_days, 3);
}

#[test]
fn a_gap_ends_the_streak() {
    // Missing the 29th, so only two days count.
    let sessions = vec![focus_on("2026-07-31"), focus_on("2026-07-30"), focus_on("2026-07-28")];
    assert_eq!(stats(&data_with(vec![]), &sessions, TODAY, 0, 4).streak_days, 2);
}

#[test]
fn the_streak_survives_a_morning_with_no_work_yet() {
    // Nothing today, but yesterday counts — a streak should not read as
    // broken before the day has had a chance to start.
    let sessions = vec![focus_on("2026-07-30"), focus_on("2026-07-29")];
    assert_eq!(stats(&data_with(vec![]), &sessions, TODAY, 0, 4).streak_days, 2);
}

#[test]
fn two_days_off_does_end_it() {
    let sessions = vec![focus_on("2026-07-29"), focus_on("2026-07-28")];
    assert_eq!(stats(&data_with(vec![]), &sessions, TODAY, 0, 4).streak_days, 0);
}

/// 2026-08-03 is a Monday; 08-01 and 08-02 are the weekend before it.
const MONDAY: &str = "2026-08-03";

fn data_with_settings(settings: Settings) -> Data {
    Data { boards: vec![Board::with_default_lists("Tasks", 0)], tasks: vec![], revision: 1, settings }
}

#[test]
fn the_trend_covers_working_days_only() {
    let sessions = vec![focus_on(MONDAY), focus_on("2026-08-01"), focus_on("2026-07-31")];
    let progress = recent_progress(&data_with_settings(Settings::default()), &sessions, MONDAY, 0, 5);

    assert_eq!(progress.len(), 5);
    let dates: Vec<&str> = progress.iter().map(|day| day.date.as_str()).collect();
    assert_eq!(dates, vec!["2026-07-28", "2026-07-29", "2026-07-30", "2026-07-31", MONDAY]);
    assert!(!dates.contains(&"2026-08-01"), "Saturday gets no column");

    assert_eq!(progress.last().unwrap().focus_minutes, 25, "Monday's session");
    assert_eq!(progress[3].focus_minutes, 25, "Friday's session");
    assert_eq!(progress[0].focus_minutes, 0, "a day with no work is still a column");
}

#[test]
fn the_trend_counts_impact_on_the_day_it_was_finished() {
    let data = Data {
        boards: vec![Board::with_default_lists("Tasks", 0)],
        tasks: vec![done("Big", Some(8), MONDAY), done("Earlier", Some(5), "2026-07-31")],
        revision: 1,
        settings: Settings::default(),
    };
    let progress = recent_progress(&data, &[], MONDAY, 0, 3);
    assert_eq!(progress.last().unwrap().points, 8);
    assert_eq!(progress[progress.len() - 2].points, 5);
}

#[test]
fn a_weekend_off_does_not_break_the_streak() {
    // Worked Friday, rested, worked Monday. That is a two day streak, not a
    // broken one — which is the whole point of counting working days.
    let sessions = vec![focus_on(MONDAY), focus_on("2026-07-31")];
    let stats = stats(&data_with_settings(Settings::default()), &sessions, MONDAY, 0, 4);
    assert_eq!(stats.streak_days, 2);
}

#[test]
fn working_through_a_weekend_still_counts() {
    let sessions = vec![
        focus_on(MONDAY),
        focus_on("2026-08-02"),
        focus_on("2026-08-01"),
        focus_on("2026-07-31"),
    ];
    let stats = stats(&data_with_settings(Settings::default()), &sessions, MONDAY, 0, 4);
    assert_eq!(stats.streak_days, 4, "a day off is not required, only forgiven");
}

#[test]
fn a_holiday_is_treated_like_a_weekend() {
    let mut settings = Settings::default();
    settings.holidays = vec!["2026-07-31".to_string()];
    // Nothing on the Friday, because it was a holiday.
    let sessions = vec![focus_on(MONDAY), focus_on("2026-07-30")];
    let stats = stats(&data_with_settings(settings), &sessions, MONDAY, 0, 4);
    assert_eq!(stats.streak_days, 2);
}

#[test]
fn a_missed_working_day_still_ends_it() {
    // The Friday was an ordinary working day and nothing was done on it.
    let sessions = vec![focus_on(MONDAY), focus_on("2026-07-30")];
    let stats = stats(&data_with_settings(Settings::default()), &sessions, MONDAY, 0, 4);
    assert_eq!(stats.streak_days, 1);
}

#[test]
fn a_seven_day_working_week_forgives_nothing() {
    let mut settings = Settings::default();
    settings.working_days = vec![0, 1, 2, 3, 4, 5, 6];
    let sessions = vec![focus_on(MONDAY), focus_on("2026-07-31")];
    let stats = stats(&data_with_settings(settings), &sessions, MONDAY, 0, 4);
    assert_eq!(stats.streak_days, 1, "the weekend now counts against it");
}

#[test]
fn breaks_do_not_keep_a_streak_alive() {
    let mut rest = focus_on("2026-07-31");
    rest.kind = SessionKind::Break;
    assert_eq!(stats(&data_with(vec![]), &[rest], TODAY, 0, 4).streak_days, 0);
}

#[test]
fn several_sessions_in_one_day_are_still_one_day() {
    let sessions = vec![focus_on("2026-07-31"), focus_on("2026-07-31"), focus_on("2026-07-31")];
    let stats = stats(&data_with(vec![]), &sessions, TODAY, 0, 4);
    assert_eq!(stats.streak_days, 1);
    assert_eq!(stats.sessions_today, 3);
}

#[test]
fn the_goal_is_met_only_when_reached() {
    let sessions = vec![focus_on(TODAY), focus_on(TODAY)];
    assert!(!stats(&data_with(vec![]), &sessions, TODAY, 0, 4).goal_met);
    let four = vec![focus_on(TODAY), focus_on(TODAY), focus_on(TODAY), focus_on(TODAY)];
    assert!(stats(&data_with(vec![]), &four, TODAY, 0, 4).goal_met);
}

#[test]
fn points_come_from_the_impact_of_finished_work() {
    let data = data_with(vec![
        done("Big", Some(9), TODAY),
        done("Small", Some(2), TODAY),
        done("Yesterday", Some(5), "2026-07-30"),
    ]);
    let stats = stats(&data, &[], TODAY, 0, 4);
    assert_eq!(stats.points_today, 11);
    assert_eq!(stats.points_total, 16);
    assert_eq!(stats.completed_today, 2);
}

#[test]
fn unscored_work_still_counts_modestly() {
    let data = data_with(vec![done("Unscored", None, TODAY)]);
    assert_eq!(stats(&data, &[], TODAY, 0, 4).points_today, UNSCORED_IMPACT);
}

#[test]
fn open_tasks_score_nothing() {
    let mut open = Task::new("Not finished", "list_1");
    open.impact = Some(10);
    assert_eq!(stats(&data_with(vec![open]), &[], TODAY, 0, 4).points_total, 0);
}
