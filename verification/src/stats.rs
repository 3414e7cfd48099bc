//! Streaks, the daily goal, and points.
//!
//! All of it is derived from work that already happened, completed tasks
//! and recorded sessions, so there is no separate score to keep in step and
//! nothing to inflate except by doing the work.

use vstd::prelude::*;

use crate::dates::{civil_date_of, civil_days_of, days_before, local_date, local_day};
use crate::model::{Session, SessionKind, SessionView, Status, Task, TaskView};
use crate::store::{working_day, Data, Settings, SettingsView};
use crate::text::str_eq;

verus! {

/// Impact assumed for a task nobody scored, so finishing unscored work still
/// counts for something without pretending it was a triumph.
pub const UNSCORED_IMPACT: u32 = 3;

/// How far back a streak is followed: far longer than any real streak, and
/// a bound so that a malformed date cannot spin.
pub const STREAK_REACH: u32 = 3650;

/// How many days back the trend looks for working days.
pub const TREND_REACH: u32 = 400;

/// The day's standing.
#[derive(Debug, Default)]
pub struct Stats {
    /// Consecutive working days, ending today or yesterday, with at least
    /// one focus session.
    pub streak_days: u32,
    /// Focus sessions today.
    pub sessions_today: u32,
    /// How many the user is aiming for.
    pub daily_goal: u32,
    pub focus_minutes_today: u64,
    /// Impact of everything finished today.
    pub points_today: u32,
    /// Impact of everything ever finished.
    pub points_total: u32,
    pub completed_today: u32,
    /// Whether today's goal is met.
    pub goal_met: bool,
}

/// One working day's progress, for the trend.
#[derive(Debug)]
pub struct DayProgress {
    pub date: String,
    pub focus_minutes: u64,
    /// Impact of everything finished that day.
    pub points: u32,
}

pub struct DayProgressView {
    pub date: Seq<char>,
    pub focus_minutes: u64,
    pub points: u32,
}

impl View for DayProgress {
    type V = DayProgressView;

    open spec fn view(&self) -> DayProgressView {
        DayProgressView { date: self.date@, focus_minutes: self.focus_minutes, points: self.points }
    }
}

/// The local date a timestamp falls on.
pub open spec fn date_at(millis: u64, offset: i32) -> Seq<char> {
    civil_date_of(local_day(millis, offset))
}

/// A focus session that started on `date`.
pub open spec fn focus_on(s: SessionView, offset: i32, date: Seq<char>) -> bool {
    s.kind == SessionKind::Focus && date_at(s.started_at, offset) == date
}

/// Seconds of focus started on `date`.
pub open spec fn focus_seconds_on(ss: Seq<SessionView>, offset: i32, date: Seq<char>) -> nat
    decreases ss.len(),
{
    if ss.len() == 0 {
        0
    } else {
        focus_seconds_on(ss.drop_last(), offset, date) + if focus_on(ss.last(), offset, date) {
            ss.last().seconds as nat
        } else {
            0
        }
    }
}

/// Focus sessions started on `date`.
pub open spec fn focus_count_on(ss: Seq<SessionView>, offset: i32, date: Seq<char>) -> nat
    decreases ss.len(),
{
    if ss.len() == 0 {
        0
    } else {
        focus_count_on(ss.drop_last(), offset, date) + if focus_on(ss.last(), offset, date) {
            1nat
        } else {
            0
        }
    }
}

/// Only focus counts towards a day: one more session leaves the day's
/// focus count and seconds as they were unless it is a focus session that
/// started that day, and then adds one session and its seconds.
pub proof fn lemma_only_focus_counts(ss: Seq<SessionView>, s: SessionView, offset: i32, date: Seq<char>)
    ensures
        s.kind != SessionKind::Focus ==> focus_count_on(ss.push(s), offset, date) == focus_count_on(ss, offset, date)
            && focus_seconds_on(ss.push(s), offset, date) == focus_seconds_on(ss, offset, date),
        s.kind == SessionKind::Focus && date_at(s.started_at, offset) != date ==> focus_count_on(ss.push(s), offset, date)
            == focus_count_on(ss, offset, date) && focus_seconds_on(ss.push(s), offset, date) == focus_seconds_on(
            ss,
            offset,
            date,
        ),
        s.kind == SessionKind::Focus && date_at(s.started_at, offset) == date ==> focus_count_on(ss.push(s), offset, date)
            == focus_count_on(ss, offset, date) + 1 && focus_seconds_on(ss.push(s), offset, date) == focus_seconds_on(
            ss,
            offset,
            date,
        ) + s.seconds,
{
    assert(ss.push(s).drop_last() =~= ss);
    assert(ss.push(s).last() == s);
}

/// A day's focus count is never more than the sessions there are.
pub proof fn lemma_focus_count_bounded(ss: Seq<SessionView>, offset: i32, date: Seq<char>)
    ensures
        focus_count_on(ss, offset, date) <= ss.len(),
    decreases ss.len(),
{
    if ss.len() > 0 {
        lemma_focus_count_bounded(ss.drop_last(), offset, date);
    }
}

/// Whether any focus session started on `date`.
pub open spec fn active_on(ss: Seq<SessionView>, offset: i32, date: Seq<char>) -> bool {
    exists|i: int| 0 <= i < ss.len() && focus_on(#[trigger] ss[i], offset, date)
}

/// What finishing a task is worth: its impact, or a modest default.
pub open spec fn points_of(t: TaskView) -> nat {
    match t.impact {
        Some(i) => i as nat,
        None => UNSCORED_IMPACT as nat,
    }
}

/// A finished task completed on `date`.
pub open spec fn done_on(t: TaskView, offset: i32, date: Seq<char>) -> bool {
    &&& t.status == Status::Done
    &&& t.completed_at matches Some(at) && date_at(at, offset) == date
}

/// Points of every finished task.
pub open spec fn done_points(ts: Seq<TaskView>) -> nat
    decreases ts.len(),
{
    if ts.len() == 0 {
        0
    } else {
        done_points(ts.drop_last()) + if ts.last().status == Status::Done {
            points_of(ts.last())
        } else {
            0
        }
    }
}

/// Points of the tasks finished on `date`.
pub open spec fn done_points_on(ts: Seq<TaskView>, offset: i32, date: Seq<char>) -> nat
    decreases ts.len(),
{
    if ts.len() == 0 {
        0
    } else {
        done_points_on(ts.drop_last(), offset, date) + if done_on(ts.last(), offset, date) {
            points_of(ts.last())
        } else {
            0
        }
    }
}

/// How many tasks were finished on `date`.
pub open spec fn done_count_on(ts: Seq<TaskView>, offset: i32, date: Seq<char>) -> nat
    decreases ts.len(),
{
    if ts.len() == 0 {
        0
    } else {
        done_count_on(ts.drop_last(), offset, date) + if done_on(ts.last(), offset, date) {
            1nat
        } else {
            0
        }
    }
}

/// The day before a date, if the date can be read.
pub open spec fn day_before(date: Seq<char>) -> Option<Seq<char>> {
    match civil_days_of(date) {
        Some(d) => Some(civil_date_of(d - 1)),
        None => None,
    }
}

/// The streak counted from `cursor` back, with `reach` days left to look at.
///
/// A day with focus counts. Today never breaks the run, nor does a day that
/// is not a working day; any other day without focus ends it.
pub open spec fn streak_from(
    ss: Seq<SessionView>,
    offset: i32,
    today: Seq<char>,
    settings: SettingsView,
    cursor: Seq<char>,
    reach: nat,
) -> nat
    decreases reach,
{
    if reach == 0 {
        0
    } else if !active_on(ss, offset, cursor) && cursor != today && working_day(settings, cursor) {
        0
    } else {
        (if active_on(ss, offset, cursor) {
            1nat
        } else {
            0
        }) + match day_before(cursor) {
            Some(prev) => streak_from(ss, offset, today, settings, prev, (reach - 1) as nat),
            None => 0,
        }
    }
}

/// Length of the run of working days worked, ending today or yesterday.
pub open spec fn streak_of(ss: Seq<SessionView>, offset: i32, today: Seq<char>, settings: SettingsView) -> nat {
    streak_from(ss, offset, today, settings, today, STREAK_REACH as nat)
}

/// The trend counted from `cursor` back: up to `wanted` working days, newest
/// first, with `reach` days left to look at.
pub open spec fn trend_from(
    ss: Seq<SessionView>,
    ts: Seq<TaskView>,
    offset: i32,
    settings: SettingsView,
    cursor: Seq<char>,
    wanted: nat,
    reach: nat,
) -> Seq<DayProgressView>
    decreases reach,
{
    if reach == 0 || wanted == 0 {
        Seq::empty()
    } else {
        let here = if working_day(settings, cursor) {
            seq![
                DayProgressView {
                    date: cursor,
                    focus_minutes: (focus_seconds_on(ss, offset, cursor) / 60) as u64,
                    points: done_points_on(ts, offset, cursor) as u32,
                },
            ]
        } else {
            Seq::empty()
        };
        let left = (wanted - here.len()) as nat;
        here + match day_before(cursor) {
            Some(prev) => trend_from(ss, ts, offset, settings, prev, left, (reach - 1) as nat),
            None => Seq::empty(),
        }
    }
}

/// The views of a run of sessions.
pub open spec fn session_views(s: Seq<Session>) -> Seq<SessionView> {
    s.map_values(|x: Session| x@)
}

fn is_focus_session(s: &Session) -> (r: bool)
    ensures
        r == (s.kind == SessionKind::Focus),
{
    match s.kind {
        SessionKind::Focus => true,
        _ => false,
    }
}

/// Seconds and number of focus sessions started on `date`.
fn focus_on_day(sessions: &[Session], offset: i32, date: &str) -> (r: (u128, usize))
    ensures
        r.0 == focus_seconds_on(session_views(sessions@), offset, date@),
        r.1 == focus_count_on(session_views(sessions@), offset, date@),
{
    let ghost ss = session_views(sessions@);
    let mut seconds: u128 = 0;
    let mut count: usize = 0;
    let mut i: usize = 0;
    while i < sessions.len()
        invariant
            ss == session_views(sessions@),
            i <= sessions@.len(),
            seconds == focus_seconds_on(ss.take(i as int), offset, date@),
            count == focus_count_on(ss.take(i as int), offset, date@),
            seconds <= i * 0xffff_ffff_ffff_ffff,
            count <= i,
        decreases sessions@.len() - i,
    {
        proof {
            assert(ss.take(i + 1).drop_last() =~= ss.take(i as int));
            assert(ss.take(i + 1).last() == sessions@[i as int]@);
        }
        if is_focus_session(&sessions[i]) {
            let d = local_date(sessions[i].started_at, offset);
            if str_eq(d.as_str(), date) {
                seconds = seconds + sessions[i].seconds as u128;
                count = count + 1;
            }
        }
        i = i + 1;
    }
    proof {
        assert(ss.take(i as int) =~= ss);
    }
    (seconds, count)
}

/// The distinct local dates focus sessions started on.
fn active_dates(sessions: &[Session], offset: i32) -> (r: Vec<String>)
    ensures
        forall|d: Seq<char>| r.deep_view().contains(d) <==> active_on(session_views(sessions@), offset, d),
{
    let ghost ss = session_views(sessions@);
    let mut r: Vec<String> = Vec::new();
    let mut i: usize = 0;
    while i < sessions.len()
        invariant
            ss == session_views(sessions@),
            i <= sessions@.len(),
            forall|d: Seq<char>| r.deep_view().contains(d) <==> active_on(ss.take(i as int), offset, d),
        decreases sessions@.len() - i,
    {
        proof {
            assert(ss.take(i + 1)[i as int] == sessions@[i as int]@);
        }
        if is_focus_session(&sessions[i]) {
            let d = local_date(sessions[i].started_at, offset);
            let ghost before = r.deep_view();
            r.push(d);
            proof {
                assert(r.deep_view() =~= before.push(date_at(sessions@[i as int].started_at, offset)));
                assert forall|x: Seq<char>| r.deep_view().contains(x) <==> active_on(ss.take(i + 1), offset, x) by {
                    if r.deep_view().contains(x) {
                        let k = choose|k: int| 0 <= k < r.deep_view().len() && r.deep_view()[k] == x;
                        if k < before.len() {
                            assert(before.contains(x));
                            let j = choose|j: int| 0 <= j < ss.take(i as int).len() && focus_on(#[trigger] ss.take(i as int)[j], offset, x);
                            assert(ss.take(i + 1)[j] == ss.take(i as int)[j]);
                        } else {
                            assert(focus_on(ss.take(i + 1)[i as int], offset, x));
                        }
                    }
                    if active_on(ss.take(i + 1), offset, x) {
                        let j = choose|j: int| 0 <= j < ss.take(i + 1).len() && focus_on(#[trigger] ss.take(i + 1)[j], offset, x);
                        if j < i {
                            assert(ss.take(i as int)[j] == ss.take(i + 1)[j]);
                            assert(active_on(ss.take(i as int), offset, x));
                            assert(before.contains(x));
                            let k = choose|k: int| 0 <= k < before.len() && before[k] == x;
                            assert(r.deep_view()[k] == x);
                        } else {
                            assert(r.deep_view()[before.len() as int] == x);
                        }
                    }
                }
            }
        } else {
            proof {
                assert forall|x: Seq<char>| r.deep_view().contains(x) <==> active_on(ss.take(i + 1), offset, x) by {
                    if active_on(ss.take(i + 1), offset, x) {
                        let j = choose|j: int| 0 <= j < ss.take(i + 1).len() && focus_on(#[trigger] ss.take(i + 1)[j], offset, x);
                        assert(j != i);
                        assert(ss.take(i as int)[j] == ss.take(i + 1)[j]);
                        assert(active_on(ss.take(i as int), offset, x));
                    }
                    if active_on(ss.take(i as int), offset, x) {
                        let j = choose|j: int| 0 <= j < ss.take(i as int).len() && focus_on(#[trigger] ss.take(i as int)[j], offset, x);
                        assert(ss.take(i as int)[j] == ss.take(i + 1)[j]);
                    }
                }
            }
        }
        i = i + 1;
    }
    proof {
        assert(ss.take(i as int) =~= ss);
    }
    r
}

fn contains_text(v: &Vec<String>, x: &str) -> (r: bool)
    ensures
        r == v.deep_view().contains(x@),
{
    let mut i: usize = 0;
    while i < v.len()
        invariant
            i <= v@.len(),
            forall|k: int| 0 <= k < i ==> v.deep_view()[k] != x@,
        decreases v@.len() - i,
    {
        if str_eq(v[i].as_str(), x) {
            assert(v.deep_view()[i as int] == x@);
            return true;
        }
        i = i + 1;
    }
    false
}

/// Points of the finished tasks, and of those finished on `date`, with how
/// many of those there were.
fn points_on_day(tasks: &Vec<Task>, offset: i32, date: &str) -> (r: (u128, u128, usize))
    ensures
        r.0 == done_points(crate::log::views(tasks@)),
        r.1 == done_points_on(crate::log::views(tasks@), offset, date@),
        r.2 == done_count_on(crate::log::views(tasks@), offset, date@),
{
    let ghost ts = crate::log::views(tasks@);
    let mut total: u128 = 0;
    let mut on_day: u128 = 0;
    let mut count: usize = 0;
    let mut i: usize = 0;
    while i < tasks.len()
        invariant
            ts == crate::log::views(tasks@),
            i <= tasks@.len(),
            total == done_points(ts.take(i as int)),
            on_day == done_points_on(ts.take(i as int), offset, date@),
            count == done_count_on(ts.take(i as int), offset, date@),
            total <= i * 255,
            on_day <= i * 255,
            count <= i,
        decreases tasks@.len() - i,
    {
        proof {
            assert(ts.take(i + 1).drop_last() =~= ts.take(i as int));
            assert(ts.take(i + 1).last() == tasks@[i as int]@);
        }
        let t = &tasks[i];
        if t.status.is_done() {
            let p: u128 = match t.impact {
                Some(x) => x as u128,
                None => UNSCORED_IMPACT as u128,
            };
            total = total + p;
            match t.completed_at {
                Some(at) => {
                    let d = local_date(at, offset);
                    if str_eq(d.as_str(), date) {
                        on_day = on_day + p;
                        count = count + 1;
                    }
                },
                None => {},
            }
        }
        i = i + 1;
    }
    proof {
        assert(ts.take(i as int) =~= ts);
    }
    (total, on_day, count)
}

fn streak(active: &Vec<String>, today: &str, settings: &Settings, Ghost(ss): Ghost<Seq<SessionView>>, offset: i32) -> (r: u32)
    requires
        forall|d: Seq<char>| active.deep_view().contains(d) <==> active_on(ss, offset, d),
    ensures
        r == streak_of(ss, offset, today@, settings@),
{
    let mut count: u32 = 0;
    let mut cursor: String = today.to_owned();
    let mut k: u32 = 0;
    let mut stop = false;
    while k < STREAK_REACH && !stop
        invariant
            forall|d: Seq<char>| active.deep_view().contains(d) <==> active_on(ss, offset, d),
            k <= STREAK_REACH,
            count <= k,
            stop ==> count == streak_of(ss, offset, today@, settings@),
            !stop ==> count + streak_from(ss, offset, today@, settings@, cursor@, (STREAK_REACH - k) as nat)
                == streak_of(ss, offset, today@, settings@),
        decreases (STREAK_REACH - k) * 2 + if stop { 0int } else { 1int },
    {
        let here = contains_text(active, cursor.as_str());
        if !here && !str_eq(cursor.as_str(), today) && settings.is_working_day(cursor.as_str()) {
            stop = true;
        } else {
            if here {
                count = count + 1;
            }
            proof {
                crate::dates::lemma_civil_days_bounded(cursor@);
            }
            match days_before(cursor.as_str(), 1) {
                Some(prev) => {
                    cursor = prev;
                },
                None => {
                    stop = true;
                },
            }
            k = k + 1;
        }
    }
    count
}

/// Work out the day's standing: the streak, today's focus sessions and
/// minutes against the goal, and points for finished work.
pub fn stats(data: &Data, sessions: &[Session], today: &str, utc_offset_seconds: i32, daily_goal: u32) -> (r: Stats)
    requires
        focus_seconds_on(session_views(sessions@), utc_offset_seconds, today@) <= u64::MAX,
        done_points(data@.tasks) <= u32::MAX,
    ensures
        r.streak_days == streak_of(session_views(sessions@), utc_offset_seconds, today@, data@.settings),
        r.sessions_today == focus_count_on(session_views(sessions@), utc_offset_seconds, today@) as u32,
        r.daily_goal == daily_goal,
        r.focus_minutes_today == focus_seconds_on(session_views(sessions@), utc_offset_seconds, today@) / 60,
        r.points_today == done_points_on(data@.tasks, utc_offset_seconds, today@),
        r.points_total == done_points(data@.tasks),
        r.completed_today == done_count_on(data@.tasks, utc_offset_seconds, today@) as u32,
        r.goal_met == (daily_goal > 0 && r.sessions_today >= daily_goal),
{
    let ghost ss = session_views(sessions@);
    let active = active_dates(sessions, utc_offset_seconds);
    let (seconds, count) = focus_on_day(sessions, utc_offset_seconds, today);
    let (total, on_day, done_count) = points_on_day(&data.tasks, utc_offset_seconds, today);
    proof {
        lemma_done_points_on_le(data@.tasks, utc_offset_seconds, today@);
    }
    let sessions_today = count as u32;
    Stats {
        streak_days: streak(&active, today, &data.settings, Ghost(ss), utc_offset_seconds),
        sessions_today,
        daily_goal,
        focus_minutes_today: (seconds / 60) as u64,
        points_today: on_day as u32,
        points_total: total as u32,
        completed_today: done_count as u32,
        goal_met: daily_goal > 0 && sessions_today >= daily_goal,
    }
}

proof fn lemma_done_points_on_le(ts: Seq<TaskView>, offset: i32, date: Seq<char>)
    ensures
        done_points_on(ts, offset, date) <= done_points(ts),
    decreases ts.len(),
{
    if ts.len() > 0 {
        lemma_done_points_on_le(ts.drop_last(), offset, date);
    }
}

/// The last `days` working days, oldest first, each with the focus minutes
/// and the points of that day. Working days only, so the bars are evenly
/// spaced and comparable.
#[verifier::rlimit(60)]
pub fn recent_progress(
    data: &Data,
    sessions: &[Session],
    today: &str,
    utc_offset_seconds: i32,
    days: usize,
) -> (r: Vec<DayProgress>)
    requires
        forall|d: Seq<char>| #[trigger] focus_seconds_on(session_views(sessions@), utc_offset_seconds, d) <= u64::MAX,
        forall|d: Seq<char>| #[trigger] done_points_on(data@.tasks, utc_offset_seconds, d) <= u32::MAX,
    ensures
        r@.map_values(|p: DayProgress| p@) == trend_from(
            session_views(sessions@),
            data@.tasks,
            utc_offset_seconds,
            data@.settings,
            today@,
            days as nat,
            TREND_REACH as nat,
        ).reverse(),
{
    let ghost ss = session_views(sessions@);
    let ghost ts = data@.tasks;
    let mut out: Vec<DayProgress> = Vec::new();
    let mut cursor: String = today.to_owned();
    let mut k: u32 = 0;
    let mut stop = false;
    while k < TREND_REACH && !stop && out.len() < days
        invariant
            ss == session_views(sessions@),
            ts == data@.tasks,
            forall|d: Seq<char>| #[trigger] focus_seconds_on(ss, utc_offset_seconds, d) <= u64::MAX,
            forall|d: Seq<char>| #[trigger] done_points_on(ts, utc_offset_seconds, d) <= u32::MAX,
            k <= TREND_REACH,
            out@.len() <= days,
            stop ==> out@.map_values(|p: DayProgress| p@) == trend_from(ss, ts, utc_offset_seconds, data@.settings, today@, days as nat, TREND_REACH as nat),
            !stop ==> out@.map_values(|p: DayProgress| p@) + trend_from(ss, ts, utc_offset_seconds, data@.settings, cursor@, (days - out@.len()) as nat, (TREND_REACH - k) as nat)
                == trend_from(ss, ts, utc_offset_seconds, data@.settings, today@, days as nat, TREND_REACH as nat),
        decreases (TREND_REACH - k) * 2 + if stop { 0int } else { 1int },
    {
        let ghost before = out@.map_values(|p: DayProgress| p@);
        let ghost c = cursor@;
        let ghost wanted = (days - out@.len()) as nat;
        let ghost reach = (TREND_REACH - k) as nat;
        if data.settings.is_working_day(cursor.as_str()) {
            let focus = focus_on_day(sessions, utc_offset_seconds, cursor.as_str());
            let seconds = focus.0;
            let finished = points_on_day(&data.tasks, utc_offset_seconds, cursor.as_str());
            let points = finished.1;
            let date = cursor.clone();
            proof {
                assert(focus_seconds_on(ss, utc_offset_seconds, c) <= u64::MAX);
                assert(done_points_on(ts, utc_offset_seconds, c) <= u32::MAX);
            }
            let entry = DayProgress { date, focus_minutes: (seconds / 60) as u64, points: points as u32 };
            proof {
                assert(entry@ == DayProgressView {
                    date: c,
                    focus_minutes: (focus_seconds_on(ss, utc_offset_seconds, c) / 60) as u64,
                    points: done_points_on(ts, utc_offset_seconds, c) as u32,
                });
            }
            out.push(entry);
            proof {
                assert(out@.map_values(|p: DayProgress| p@) =~= before.push(DayProgressView {
                    date: c,
                    focus_minutes: (focus_seconds_on(ss, utc_offset_seconds, c) / 60) as u64,
                    points: done_points_on(ts, utc_offset_seconds, c) as u32,
                }));
            }
        }
        proof {
            crate::dates::lemma_civil_days_bounded(cursor@);
        }
        match days_before(cursor.as_str(), 1) {
            Some(prev) => {
                cursor = prev;
            },
            None => {
                stop = true;
            },
        }
        k = k + 1;
        proof {
            let here = if working_day(data@.settings, c) {
                seq![
                    DayProgressView {
                        date: c,
                        focus_minutes: (focus_seconds_on(ss, utc_offset_seconds, c) / 60) as u64,
                        points: done_points_on(ts, utc_offset_seconds, c) as u32,
                    },
                ]
            } else {
                Seq::empty()
            };
            assert(trend_from(ss, ts, utc_offset_seconds, data@.settings, c, wanted, reach) == here + match day_before(c) {
                Some(prev) => trend_from(ss, ts, utc_offset_seconds, data@.settings, prev, (wanted - here.len()) as nat, (reach - 1) as nat),
                None => Seq::<DayProgressView>::empty(),
            });
            assert(out@.map_values(|p: DayProgress| p@) =~= before + here);
            if stop {
                assert(before + here + Seq::<DayProgressView>::empty() =~= before + here);
            } else {
                assert(before + (here + trend_from(ss, ts, utc_offset_seconds, data@.settings, cursor@, (wanted - here.len()) as nat, (reach - 1) as nat))
                    =~= (before + here) + trend_from(ss, ts, utc_offset_seconds, data@.settings, cursor@, (wanted - here.len()) as nat, (reach - 1) as nat));
            }
        }
    }
    proof {
        if !stop {
            let rest = trend_from(ss, ts, utc_offset_seconds, data@.settings, cursor@, (days - out@.len()) as nat, (TREND_REACH - k) as nat);
            assert(rest =~= Seq::<DayProgressView>::empty());
            assert(out@.map_values(|p: DayProgress| p@) + rest =~= out@.map_values(|p: DayProgress| p@));
        }
    }
    let ghost forward = out@.map_values(|p: DayProgress| p@);
    let mut reversed: Vec<DayProgress> = Vec::new();
    while out.len() > 0
        invariant
            forward.len() == out@.len() + reversed@.len(),
            forall|i: int| 0 <= i < out@.len() ==> (#[trigger] out@[i])@ == forward[i],
            reversed@.map_values(|p: DayProgress| p@) == forward.reverse().take(reversed@.len() as int),
        decreases out@.len(),
    {
        let ghost n = out@.len();
        let x = out.pop().unwrap();
        proof {
            assert(x@ == forward[n - 1]);
        }
        let ghost prev = reversed@.map_values(|p: DayProgress| p@);
        reversed.push(x);
        proof {
            assert(forward.reverse()[reversed@.len() - 1] == forward[n - 1]);
            assert(reversed@.map_values(|p: DayProgress| p@) =~= forward.reverse().take(reversed@.len() as int));
        }
    }
    proof {
        assert(forward.reverse().take(reversed@.len() as int) =~= forward.reverse());
    }
    reversed
}

/// `stats` where today's focus time fits in a `u64` and the points of
/// finished work in a `u32`, and `None` where they do not.
pub fn checked_stats(data: &Data, sessions: &[Session], today: &str, utc_offset_seconds: i32, daily_goal: u32) -> (r: Option<Stats>)
    ensures
        match r {
            Some(x) => focus_seconds_on(session_views(sessions@), utc_offset_seconds, today@) <= u64::MAX
                && done_points(data@.tasks) <= u32::MAX
                && x.streak_days == streak_of(session_views(sessions@), utc_offset_seconds, today@, data@.settings)
                && x.sessions_today == focus_count_on(session_views(sessions@), utc_offset_seconds, today@) as u32
                && x.daily_goal == daily_goal
                && x.focus_minutes_today == focus_seconds_on(session_views(sessions@), utc_offset_seconds, today@) / 60
                && x.points_today == done_points_on(data@.tasks, utc_offset_seconds, today@)
                && x.points_total == done_points(data@.tasks)
                && x.completed_today == done_count_on(data@.tasks, utc_offset_seconds, today@) as u32
                && x.goal_met == (daily_goal > 0 && x.sessions_today >= daily_goal),
            None => focus_seconds_on(session_views(sessions@), utc_offset_seconds, today@) > u64::MAX
                || done_points(data@.tasks) > u32::MAX,
        },
{
    let (seconds, _) = focus_on_day(sessions, utc_offset_seconds, today);
    let (total, _, _) = points_on_day(&data.tasks, utc_offset_seconds, today);
    if seconds > 0xffff_ffff_ffff_ffff || total > 0xffff_ffff {
        return None;
    }
    Some(stats(data, sessions, today, utc_offset_seconds, daily_goal))
}

// ---------------------------------------------------------------------------
// laws
// ---------------------------------------------------------------------------

/// Today never breaks a streak: a today without focus yet counts the run
/// that ended yesterday.
pub proof fn lemma_today_never_breaks(ss: Seq<SessionView>, offset: i32, today: Seq<char>, settings: SettingsView, prev: Seq<char>)
    requires
        !active_on(ss, offset, today),
        day_before(today) == Some(prev),
    ensures
        streak_of(ss, offset, today, settings) == streak_from(ss, offset, today, settings, prev, (STREAK_REACH - 1) as nat),
{
}

/// A day off without focus neither counts nor breaks the run.
pub proof fn lemma_day_off_is_skipped(
    ss: Seq<SessionView>,
    offset: i32,
    today: Seq<char>,
    settings: SettingsView,
    cursor: Seq<char>,
    prev: Seq<char>,
    reach: nat,
)
    requires
        reach > 0,
        !active_on(ss, offset, cursor),
        !working_day(settings, cursor),
        day_before(cursor) == Some(prev),
    ensures
        streak_from(ss, offset, today, settings, cursor, reach) == streak_from(ss, offset, today, settings, prev, (reach - 1) as nat),
{
}

/// A past working day without focus ends the run there.
pub proof fn lemma_missed_working_day_ends(ss: Seq<SessionView>, offset: i32, today: Seq<char>, settings: SettingsView, cursor: Seq<char>, reach: nat)
    requires
        cursor != today,
        !active_on(ss, offset, cursor),
        working_day(settings, cursor),
    ensures
        streak_from(ss, offset, today, settings, cursor, reach) == 0,
{
}

/// A day with focus adds one to the run behind it.
pub proof fn lemma_active_day_counts(
    ss: Seq<SessionView>,
    offset: i32,
    today: Seq<char>,
    settings: SettingsView,
    cursor: Seq<char>,
    prev: Seq<char>,
    reach: nat,
)
    requires
        reach > 0,
        active_on(ss, offset, cursor),
        day_before(cursor) == Some(prev),
    ensures
        streak_from(ss, offset, today, settings, cursor, reach) == 1 + streak_from(ss, offset, today, settings, prev, (reach - 1) as nat),
{
}

/// Breaks are time away from the work: logging one changes no streak.
pub proof fn lemma_breaks_do_not_count(
    ss: Seq<SessionView>,
    b: SessionView,
    offset: i32,
    today: Seq<char>,
    settings: SettingsView,
    cursor: Seq<char>,
    reach: nat,
)
    requires
        b.kind != SessionKind::Focus,
    ensures
        streak_from(ss.push(b), offset, today, settings, cursor, reach) == streak_from(ss, offset, today, settings, cursor, reach),
    decreases reach,
{
    assert forall|d: Seq<char>| #[trigger] active_on(ss.push(b), offset, d) == active_on(ss, offset, d) by {
        if active_on(ss.push(b), offset, d) {
            let i = choose|i: int| 0 <= i < ss.push(b).len() && focus_on(#[trigger] ss.push(b)[i], offset, d);
            assert(i < ss.len());
            assert(ss[i] == ss.push(b)[i]);
        }
        if active_on(ss, offset, d) {
            let i = choose|i: int| 0 <= i < ss.len() && focus_on(#[trigger] ss[i], offset, d);
            assert(ss.push(b)[i] == ss[i]);
        }
    }
    if reach > 0 {
        match day_before(cursor) {
            Some(prev) => lemma_breaks_do_not_count(ss, b, offset, today, settings, prev, (reach - 1) as nat),
            None => {},
        }
    }
}

} // verus!
