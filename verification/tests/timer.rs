//! The pomodoro timer and what the menu bar shows of it.

use int_tasks::model::SessionKind;
use int_tasks::timer::{clock, mode_of, tray_title, TimerState};


#[test]
fn the_clock_is_always_two_digits() {
    assert_eq!(clock(0), "00:00");
    assert_eq!(clock(61), "01:01");
    assert_eq!(clock(25 * 60), "25:00");
    assert_eq!(clock(59), "00:59");
}

#[test]
fn an_idle_timer_shows_nothing_in_the_menu_bar() {
    let state = TimerState::default();
    assert_eq!(tray_title(&state), "", "the menu bar stays quiet when not in use");
}

#[test]
fn a_running_focus_session_shows_the_countdown() {
    let state = TimerState { running: true, remaining_seconds: 1471, ..Default::default() };
    assert_eq!(tray_title(&state), "24:31");
}

#[test]
fn a_paused_session_says_so_in_the_menu_bar() {
    let state = TimerState {
        running: true,
        paused: true,
        remaining_seconds: 754,
        ..Default::default()
    };
    assert_eq!(tray_title(&state), "⏸ 12:34");
}

#[test]
fn pausing_does_not_look_like_stopping() {
    // Stopped shows nothing at all; paused still holds its place.
    let paused = TimerState { running: true, paused: true, ..Default::default() };
    let stopped = TimerState::default();
    assert_ne!(tray_title(&paused), tray_title(&stopped));
    assert_eq!(tray_title(&stopped), "");
}

#[test]
fn the_menu_is_rebuilt_only_when_its_shape_changes() {
    let running = TimerState { running: true, remaining_seconds: 900, ..Default::default() };
    let ticked = TimerState { remaining_seconds: 899, ..running.duplicate() };
    assert_eq!(mode_of(&running), mode_of(&ticked), "a tick must not rebuild the menu");

    let paused = TimerState { paused: true, ..running.duplicate() };
    assert_ne!(mode_of(&running), mode_of(&paused));
    assert_ne!(mode_of(&running), mode_of(&TimerState::default()));
}

#[test]
fn a_break_is_visibly_different_from_focus() {
    let state = TimerState {
        running: true,
        kind: SessionKind::Break,
        remaining_seconds: 300,
        ..Default::default()
    };
    assert_eq!(tray_title(&state), "☕ 05:00");
}
