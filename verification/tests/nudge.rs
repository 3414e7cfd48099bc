//! When a quiet spell earns a reminder.

use int_tasks::nudge::{due, nudge_text, start_of_day_millis, MAX_PER_DAY};


const HOUR: u64 = 3_600_000;
const MIDNIGHT: u64 = 1_000 * HOUR;

fn base(last: Option<u64>) -> bool {
    due(MIDNIGHT + 10 * HOUR, last, 60, true, false, 0, 0, MIDNIGHT)
}

#[test]
fn an_hour_of_silence_after_working_earns_a_reminder() {
    assert!(base(Some(MIDNIGHT + 8 * HOUR)));
}

#[test]
fn recent_work_does_not() {
    assert!(!base(Some(MIDNIGHT + 10 * HOUR - 60_000)));
}

#[test]
fn a_day_that_has_not_started_is_left_alone() {
    // Yesterday's work is not this morning's stalled session.
    assert!(!base(Some(MIDNIGHT - 2 * HOUR)));
}

#[test]
fn an_empty_store_is_left_alone() {
    assert!(!base(None));
}

#[test]
fn a_running_timer_needs_no_reminder() {
    let last = Some(MIDNIGHT + 8 * HOUR);
    assert!(!due(MIDNIGHT + 10 * HOUR, last, 60, true, true, 0, 0, MIDNIGHT));
}

#[test]
fn a_day_off_is_not_a_lapse() {
    let last = Some(MIDNIGHT + 8 * HOUR);
    assert!(!due(MIDNIGHT + 10 * HOUR, last, 60, false, false, 0, 0, MIDNIGHT));
}

#[test]
fn zero_turns_it_off() {
    let last = Some(MIDNIGHT + 8 * HOUR);
    assert!(!due(MIDNIGHT + 10 * HOUR, last, 0, true, false, 0, 0, MIDNIGHT));
}

#[test]
fn it_gives_up_after_three() {
    let last = Some(MIDNIGHT + 8 * HOUR);
    assert!(!due(MIDNIGHT + 10 * HOUR, last, 60, true, false, MAX_PER_DAY, 0, MIDNIGHT));
}

#[test]
fn it_does_not_repeat_every_minute() {
    let last = Some(MIDNIGHT + 8 * HOUR);
    let just_asked = MIDNIGHT + 10 * HOUR - 60_000;
    assert!(!due(MIDNIGHT + 10 * HOUR, last, 60, true, false, 1, just_asked, MIDNIGHT));
    // …but asks again once the same span has passed.
    let asked_an_hour_ago = MIDNIGHT + 9 * HOUR;
    assert!(due(MIDNIGHT + 10 * HOUR, last, 60, true, false, 1, asked_an_hour_ago, MIDNIGHT));
}

#[test]
fn the_reminder_counts_whole_hours_as_hours() {
    assert_eq!(
        nudge_text(60),
        "Nothing recorded for 1 hour. If you have been working, log it while you still remember what it was."
    );
    assert_eq!(
        nudge_text(120),
        "Nothing recorded for 2 hours. If you have been working, log it while you still remember what it was."
    );
    assert_eq!(
        nudge_text(45),
        "Nothing recorded for 45 minutes. If you have been working, log it while you still remember what it was."
    );
}

#[test]
fn the_day_starts_at_local_midnight() {
    // 2026-07-31T23:30:00Z, two hours ahead: local midnight is 22:00Z on the 31st.
    let now = 1_785_540_600_000u64;
    assert_eq!(start_of_day_millis(now, 2 * 3600), 1_785_535_200_000);
    assert_eq!(start_of_day_millis(now, 0), 1_785_456_000_000);
}
