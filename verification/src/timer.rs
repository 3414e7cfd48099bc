//! The pomodoro timer: its state, how each event moves it, and what the menu
//! bar shows of it.
//!
//! The ticking, the tray and the session log are the caller's: each event
//! here takes the state and gives the next one, with what should be
//! recorded.

use vstd::prelude::*;

use crate::model::{copy_opt_string, Session, SessionKind};
use crate::text::{push_zero_padded, string_of, zero_padded, decimal};

verus! {

/// Emitted whenever the timer changes.
pub const TIMER_EVENT: &'static str = "timer";

/// Emitted with a focus session recorded against no task.
pub const UNASSIGNED_EVENT: &'static str = "session-unassigned";

pub const DEFAULT_FOCUS_MINUTES: u64 = 25;

pub const DEFAULT_BREAK_MINUTES: u64 = 5;

/// Where the timer is.
#[derive(Debug)]
pub struct TimerState {
    pub running: bool,
    /// Running but not counting down. A paused session keeps its task and
    /// the time already worked.
    pub paused: bool,
    /// The task the current session counts towards, if one was chosen.
    pub task_id: Option<String>,
    /// Shown so the user can see what they are on.
    pub task_title: Option<String>,
    pub kind: SessionKind,
    pub started_at: u64,
    /// Length of the session in seconds.
    pub planned_seconds: u64,
    pub remaining_seconds: u64,
}

pub struct TimerView {
    pub running: bool,
    pub paused: bool,
    pub task_id: Option<Seq<char>>,
    pub task_title: Option<Seq<char>>,
    pub kind: SessionKind,
    pub started_at: u64,
    pub planned_seconds: u64,
    pub remaining_seconds: u64,
}

impl View for TimerState {
    type V = TimerView;

    open spec fn view(&self) -> TimerView {
        TimerView {
            running: self.running,
            paused: self.paused,
            task_id: self.task_id.deep_view(),
            task_title: self.task_title.deep_view(),
            kind: self.kind,
            started_at: self.started_at,
            planned_seconds: self.planned_seconds,
            remaining_seconds: self.remaining_seconds,
        }
    }
}

/// An idle timer set for a session of `planned` seconds.
pub open spec fn idle_with(planned: u64) -> TimerView {
    TimerView {
        running: false,
        paused: false,
        task_id: None,
        task_title: None,
        kind: SessionKind::Focus,
        started_at: 0,
        planned_seconds: planned,
        remaining_seconds: 1500,
    }
}

impl Default for TimerState {
    /// Idle, set for a focus session of the usual length.
    fn default() -> (r: TimerState)
        ensures
            r@ == idle_with(1500),
    {
        TimerState {
            running: false,
            paused: false,
            task_id: None,
            task_title: None,
            kind: SessionKind::Focus,
            started_at: 0,
            planned_seconds: DEFAULT_FOCUS_MINUTES * 60,
            remaining_seconds: DEFAULT_FOCUS_MINUTES * 60,
        }
    }
}

impl TimerState {
    /// A copy of the state.
    pub fn duplicate(&self) -> (r: TimerState)
        ensures
            r@ == self@,
    {
        TimerState {
            running: self.running,
            paused: self.paused,
            task_id: copy_opt_string(&self.task_id),
            task_title: copy_opt_string(&self.task_title),
            kind: self.kind,
            started_at: self.started_at,
            planned_seconds: self.planned_seconds,
            remaining_seconds: self.remaining_seconds,
        }
    }
}

/// The timer as the app holds it.
#[derive(Debug, Default)]
pub struct Timer {
    state: TimerState,
}

impl Timer {
    /// What the timer says now.
    pub fn snapshot(&self) -> (r: TimerState)
        ensures
            r@ == self.current(),
    {
        self.state.duplicate()
    }

    /// Put the timer in a new state.
    pub fn set(&mut self, state: TimerState)
        ensures
            final(self).current() == state@,
    {
        self.state = state;
    }

    /// The state, to reason about.
    pub closed spec fn current(&self) -> TimerView {
        self.state@
    }
}

/// The shapes of the tray menu: it is rebuilt only when the shape changes.
pub const MODE_IDLE: u8 = 1;

pub const MODE_RUNNING: u8 = 2;

pub const MODE_PAUSED: u8 = 3;

/// The shape of the tray menu a state calls for.
pub open spec fn menu_shape(running: bool, paused: bool) -> u8 {
    if !running {
        MODE_IDLE
    } else if paused {
        MODE_PAUSED
    } else {
        MODE_RUNNING
    }
}

/// The shape of the tray menu a state calls for.
pub fn mode_of(state: &TimerState) -> (r: u8)
    ensures
        r == menu_shape(state.running, state.paused),
{
    if !state.running {
        MODE_IDLE
    } else if state.paused {
        MODE_PAUSED
    } else {
        MODE_RUNNING
    }
}

/// Remaining time as the menu bar shows it: minutes and seconds, each at
/// least two digits, `24:31`.
pub open spec fn clock_text(seconds: u64) -> Seq<char> {
    zero_padded(decimal((seconds / 60) as nat), 2) + seq![':'] + zero_padded(decimal((seconds % 60) as nat), 2)
}

/// Remaining time for the menu bar: `24:31`.
pub fn clock(seconds: u64) -> (r: String)
    ensures
        r@ == clock_text(seconds),
{
    let mut out: Vec<char> = Vec::new();
    push_zero_padded(&mut out, (seconds / 60) as u128, 2);
    out.push(':');
    push_zero_padded(&mut out, (seconds % 60) as u128, 2);
    proof {
        assert(out@ =~= clock_text(seconds));
    }
    string_of(out.as_slice())
}

/// What the tray shows: nothing while idle; the countdown, after a cup for
/// a break; after a pause sign while paused.
pub open spec fn tray_text(state: TimerView) -> Seq<char> {
    if !state.running {
        Seq::empty()
    } else {
        let time = match state.kind {
            SessionKind::Break => "☕ "@ + clock_text(state.remaining_seconds),
            _ => clock_text(state.remaining_seconds),
        };
        if state.paused {
            "⏸ "@ + time
        } else {
            time
        }
    }
}

/// What the tray shows. Idle shows nothing, so the menu bar stays quiet when
/// the timer is not in use.
pub fn tray_title(state: &TimerState) -> (r: String)
    ensures
        r@ == tray_text(state@),
{
    if !state.running {
        return String::new();
    }
    let clock_now = clock(state.remaining_seconds);
    let mut out: Vec<char> = Vec::new();
    if state.paused {
        let p = crate::text::chars_of("⏸ ");
        out = p;
    }
    let ghost prefix = out@;
    match state.kind {
        SessionKind::Break => {
            let cup = crate::text::chars_of("☕ ");
            crate::text::append_to(&mut out, cup.as_slice());
        },
        _ => {},
    }
    let c = crate::text::chars_of(clock_now.as_str());
    crate::text::append_to(&mut out, c.as_slice());
    proof {
        if state.paused {
            assert(prefix == "⏸ "@);
        } else {
            assert(prefix =~= Seq::<char>::empty());
        }
        match state.kind {
            SessionKind::Break => {
                assert(out@ =~= prefix + ("☕ "@ + clock_text(state.remaining_seconds)));
            },
            _ => {
                assert(out@ =~= prefix + clock_text(state.remaining_seconds));
            },
        }
    }
    string_of(out.as_slice())
}

// ---------------------------------------------------------------------------
// events
// ---------------------------------------------------------------------------

/// The usual length of a session of this kind, in minutes.
pub open spec fn default_minutes(kind: SessionKind) -> u64 {
    match kind {
        SessionKind::Break => DEFAULT_BREAK_MINUTES,
        _ => DEFAULT_FOCUS_MINUTES,
    }
}

/// A session starting now: running, not paused, counting down from its
/// planned length (the given minutes, or the usual for its kind).
pub fn started(
    task_id: Option<String>,
    task_title: Option<String>,
    minutes: Option<u64>,
    kind: SessionKind,
    now: u64,
) -> (r: TimerState)
    requires
        (match minutes {
            Some(m) => m,
            None => default_minutes(kind),
        }) * 60 <= u64::MAX,
    ensures
        r@ == (TimerView {
            running: true,
            paused: false,
            task_id: task_id.deep_view(),
            task_title: task_title.deep_view(),
            kind,
            started_at: now,
            planned_seconds: ((match minutes {
                Some(m) => m,
                None => default_minutes(kind),
            }) * 60) as u64,
            remaining_seconds: ((match minutes {
                Some(m) => m,
                None => default_minutes(kind),
            }) * 60) as u64,
        }),
{
    let m = match minutes {
        Some(m) => m,
        None => match kind {
            SessionKind::Break => DEFAULT_BREAK_MINUTES,
            _ => DEFAULT_FOCUS_MINUTES,
        },
    };
    let planned = m * 60;
    TimerState {
        running: true,
        paused: false,
        task_id,
        task_title,
        kind,
        started_at: now,
        planned_seconds: planned,
        remaining_seconds: planned,
    }
}

/// One second passes. A stopped timer does nothing and the ticking ends; a
/// paused one holds; otherwise the countdown moves on, and reaching zero
/// finishes the session. The second value says whether the ticking goes
/// on, the third whether the session just finished.
pub fn tick(state: &mut TimerState) -> (r: (bool, bool))
    ensures
        !old(state).running ==> final(state)@ == old(state)@ && r == (false, false),
        old(state).running && old(state).paused ==> final(state)@ == old(state)@ && r == (true, false),
        old(state).running && !old(state).paused ==> final(state)@ == (TimerView {
            remaining_seconds: if old(state).remaining_seconds > 0 {
                (old(state).remaining_seconds - 1) as u64
            } else {
                0
            },
            ..old(state)@
        }) && r == (final(state).remaining_seconds != 0, final(state).remaining_seconds == 0),
{
    if !state.running {
        return (false, false);
    }
    if state.paused {
        return (true, false);
    }
    state.remaining_seconds = state.remaining_seconds.saturating_sub(1);
    (state.remaining_seconds != 0, state.remaining_seconds == 0)
}

/// Pause or resume: only a running session changes.
pub fn set_paused(state: &mut TimerState, paused: bool)
    ensures
        final(state)@ == if old(state).running {
            TimerView { paused, ..old(state)@ }
        } else {
            old(state)@
        },
{
    if state.running {
        state.paused = paused;
    }
}

/// What a stopped session leaves to record: the seconds actually worked,
/// when the session was running, recording was asked for, and at least a
/// minute was worked (anything shorter is almost always a mis-click).
pub open spec fn worked_to_record(state: TimerView, record: bool) -> Option<u64> {
    let worked = if state.planned_seconds > state.remaining_seconds {
        (state.planned_seconds - state.remaining_seconds) as u64
    } else {
        0
    };
    if state.running && record && worked >= 60 {
        Some(worked)
    } else {
        None
    }
}

/// Stop the session: the timer falls back to idle, keeping the planned
/// length, and says how many seconds to record, if any.
pub fn stopped(state: &mut TimerState, record: bool) -> (r: Option<u64>)
    ensures
        final(state)@ == idle_with(old(state).planned_seconds),
        r == worked_to_record(old(state)@, record),
{
    let worked = state.planned_seconds.saturating_sub(state.remaining_seconds);
    let r = if state.running && record && worked >= 60 {
        Some(worked)
    } else {
        None
    };
    *state = TimerState { planned_seconds: state.planned_seconds, ..TimerState::default() };
    r
}

/// A session that ran its full length: the timer falls back to idle and
/// the finished session comes back, to be recorded in full.
pub fn completed(state: &mut TimerState) -> (r: TimerState)
    ensures
        r@ == old(state)@,
        final(state)@ == idle_with(old(state).planned_seconds),
{
    let finished = state.duplicate();
    *state = TimerState { planned_seconds: state.planned_seconds, ..TimerState::default() };
    finished
}

/// Whether to ask what a recorded session counted towards: only a focus
/// session tied to no task.
pub fn needs_a_task(session: &Session) -> (r: bool)
    ensures
        r == (session.kind == SessionKind::Focus && session.task_id is None),
{
    match session.kind {
        SessionKind::Focus => session.task_id.is_none(),
        _ => false,
    }
}

} // verus!
