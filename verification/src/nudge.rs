//! A quiet reminder that an hour of a working day has gone unrecorded.
//!
//! Three rules keep it a reminder rather than a nag. The clock starts at the
//! first thing recorded that day, not at midnight. Only on working days. And
//! it gives up: someone who has ignored three reminders is in a workshop or a
//! hospital, not waiting for a fourth.

use vstd::prelude::*;



use crate::persist::{reads_as, read_refusal, Store};
use crate::store::DataView;

verus! {

/// Reminders in one day before it stops asking.
pub const MAX_PER_DAY: u8 = 3;

/// Milliseconds in a day.
pub const DAY_MILLIS: u64 = 86_400_000;

/// How many reminders have gone out, and when.
#[derive(Debug, Default)]
pub struct Nudger {
    /// Millisecond timestamp of the last reminder shown.
    pub last_nudge: u64,
    /// Reminders shown on `day`.
    pub shown_today: u8,
    /// The day `shown_today` counts, as days since the epoch.
    pub day: u64,
}

impl Nudger {
    /// Start the count afresh when the date rolls over.
    pub fn roll(&mut self, today: u64)
        ensures
            final(self).day == today,
            old(self).day == today ==> final(self).shown_today == old(self).shown_today && final(self).last_nudge
                == old(self).last_nudge,
            old(self).day != today ==> final(self).shown_today == 0 && final(self).last_nudge == 0,
    {
        if self.day != today {
            self.shown_today = 0;
            self.last_nudge = 0;
        }
        self.day = today;
    }

    /// Note that a reminder went out at `now`.
    pub fn shown(&mut self, now: u64)
        ensures
            final(self).last_nudge == now,
            final(self).shown_today == (old(self).shown_today + 1) % 256,
            final(self).day == old(self).day,
    {
        self.last_nudge = now;
        self.shown_today = if self.shown_today == 255 {
            0
        } else {
            self.shown_today + 1
        };
    }
}

/// Whether a reminder is due: it is switched on, it is a working day, no
/// timer runs, fewer than three were shown today, something was recorded
/// today, and the idle span has passed both since the last activity and
/// since the last reminder.
pub open spec fn nudge_due(
    now: u64,
    last_activity: Option<u64>,
    idle_minutes: u32,
    is_working_day: bool,
    timer_running: bool,
    shown_today: u8,
    last_nudge: u64,
    start_of_day: u64,
) -> bool {
    let idle_ms = idle_minutes * 60_000;
    &&& idle_minutes != 0
    &&& is_working_day
    &&& !timer_running
    &&& shown_today < MAX_PER_DAY
    &&& last_activity matches Some(last) && last >= start_of_day
        && (if now >= last { now - last } else { 0 }) >= idle_ms
        && (if now >= last_nudge { now - last_nudge } else { 0 }) >= idle_ms
}

/// Whether a reminder is due.
pub fn due(
    now: u64,
    last_activity: Option<u64>,
    idle_minutes: u32,
    is_working_day: bool,
    timer_running: bool,
    shown_today: u8,
    last_nudge: u64,
    start_of_day: u64,
) -> (r: bool)
    ensures
        r == nudge_due(now, last_activity, idle_minutes, is_working_day, timer_running, shown_today, last_nudge, start_of_day),
{
    if idle_minutes == 0 || !is_working_day || timer_running || shown_today >= MAX_PER_DAY {
        return false;
    }
    let last = match last_activity {
        Some(l) => l,
        None => return false,
    };
    if last < start_of_day {
        return false;
    }
    let idle_ms: u64 = (idle_minutes as u64) * 60_000;
    if now.saturating_sub(last) < idle_ms {
        return false;
    }
    now.saturating_sub(last_nudge) >= idle_ms
}

/// The largest of an optional value and another.
pub open spec fn later(a: Option<u64>, b: Option<u64>) -> Option<u64> {
    match (a, b) {
        (Some(x), Some(y)) => Some(if x > y { x } else { y }),
        (Some(x), None) => Some(x),
        (None, y) => y,
    }
}

/// The newest `updated_at` of the tasks.
pub open spec fn newest_update(ts: Seq<crate::model::TaskView>) -> Option<u64>
    decreases ts.len(),
{
    if ts.len() == 0 {
        None
    } else {
        later(newest_update(ts.drop_last()), Some(ts.last().updated_at))
    }
}

/// When a session ended: its start plus its length, held at the top.
pub open spec fn session_end(s: crate::model::SessionView) -> u64 {
    if s.started_at + s.seconds * 1000 > u64::MAX {
        u64::MAX
    } else {
        (s.started_at + s.seconds * 1000) as u64
    }
}

/// The newest session end.
pub open spec fn newest_session(ss: Seq<crate::model::SessionView>) -> Option<u64>
    decreases ss.len(),
{
    if ss.len() == 0 {
        None
    } else {
        later(newest_session(ss.drop_last()), Some(session_end(ss.last())))
    }
}

/// The most recent thing the user did: the newest task change, or the end
/// of the newest session, whichever is later. `None` when the store cannot
/// be read or holds nothing.
pub fn last_activity(store: &Store) -> (r: Option<u64>)
    requires
        forall|i: int| 0 <= i < store@.sessions.len() ==> #[trigger] store@.sessions[i].seconds * 1000 <= u64::MAX,
    ensures
        match r {
            Some(at) => exists|d: DataView| #[trigger] reads_as(store@, d) && r == later(newest_update(d.tasks), newest_session(store@.sessions)),
            None => (exists|e: crate::error::TaskError| #[trigger] read_refusal(store@, e)) || exists|d: DataView|
                #[trigger] reads_as(store@, d) && later(newest_update(d.tasks), newest_session(store@.sessions)) is None,
        },
{
    let data = match store.read() {
        Ok(d) => d,
        Err(e) => {
            proof {
                assert(read_refusal(store@, e));
            }
            return None;
        },
    };
    let ghost ts = data@.tasks;
    let mut newest: Option<u64> = None;
    let mut i: usize = 0;
    while i < data.tasks.len()
        invariant
            ts == data@.tasks,
            i <= data.tasks@.len(),
            newest == newest_update(ts.take(i as int)),
        decreases data.tasks@.len() - i,
    {
        proof {
            assert(ts.take(i + 1).drop_last() =~= ts.take(i as int));
            assert(ts.take(i + 1).last() == data.tasks@[i as int]@);
        }
        let at = data.tasks[i].updated_at;
        newest = match newest {
            Some(x) => Some(if x > at { x } else { at }),
            None => Some(at),
        };
        i = i + 1;
    }
    proof {
        assert(ts.take(i as int) =~= ts);
    }
    let sessions = match store.sessions() {
        Ok(s) => s,
        Err(_) => Vec::new(),
    };
    let ghost ss = store@.sessions;
    let mut ended: Option<u64> = None;
    let mut k: usize = 0;
    while k < sessions.len()
        invariant
            ss == store@.sessions,
            sessions@.map_values(|s: crate::model::Session| s@) == ss,
            forall|j: int| 0 <= j < ss.len() ==> #[trigger] ss[j].seconds * 1000 <= u64::MAX,
            k <= sessions@.len(),
            ended == newest_session(ss.take(k as int)),
        decreases sessions@.len() - k,
    {
        proof {
            assert(ss.take(k + 1).drop_last() =~= ss.take(k as int));
            assert(ss.take(k + 1).last() == sessions@[k as int]@);
            assert(ss[k as int].seconds * 1000 <= u64::MAX);
        }
        let s = &sessions[k];
        let end = s.started_at.saturating_add(s.seconds * 1000);
        ended = match ended {
            Some(x) => Some(if x > end { x } else { end }),
            None => Some(end),
        };
        k = k + 1;
    }
    proof {
        assert(ss.take(k as int) =~= ss);
    }
    match (newest, ended) {
        (Some(x), Some(y)) => Some(if x > y { x } else { y }),
        (Some(x), None) => Some(x),
        (None, y) => y,
    }
}

/// Whole days since the epoch.
pub fn days_since_epoch(millis: u64) -> (r: u64)
    ensures
        r == millis / DAY_MILLIS,
{
    millis / DAY_MILLIS
}

/// The local midnight before `now`, given the local offset from UTC: local
/// rather than UTC, so the day does not roll over at 2am somewhere east of
/// Greenwich. Never before the epoch.
pub open spec fn start_of_day_of(now: u64, utc_offset_seconds: i32) -> u64 {
    let offset = utc_offset_seconds * 1000;
    let local = (now as i64) + offset;
    let midnight = local - local % (DAY_MILLIS as int) - offset;
    if midnight > 0 {
        midnight as u64
    } else {
        0
    }
}

/// The local midnight before `now`.
pub fn start_of_day_millis(now: u64, utc_offset_seconds: i32) -> (r: u64)
    requires
        i64::MIN <= (now as i64) + utc_offset_seconds * 1000 <= i64::MAX,
        i64::MIN <= ((now as i64) + utc_offset_seconds * 1000) - ((now as i64) + utc_offset_seconds * 1000) % 86_400_000,
        i64::MIN <= ((now as i64) + utc_offset_seconds * 1000) - ((now as i64) + utc_offset_seconds * 1000) % 86_400_000
            - utc_offset_seconds * 1000 <= i64::MAX,
    ensures
        r == start_of_day_of(now, utc_offset_seconds),
{
    let offset: i64 = (utc_offset_seconds as i64) * 1000;
    let local: i64 = now as i64 + offset;
    let rem: i64 = match local.checked_rem_euclid(86_400_000) {
        Some(x) => x,
        None => 0,
    };
    proof {
        assert(rem == (local as int) % 86_400_000);
    }
    let midnight_local: i64 = local - rem;
    let midnight: i64 = midnight_local - offset;
    if midnight > 0 {
        midnight as u64
    } else {
        0
    }
}

/// The reminder's title.
pub const NUDGE_TITLE: &'static str = "Still going?";

pub open spec fn nudge_tail() -> Seq<char> {
    ". If you have been working, log it while you still remember what it was."@
}

/// The reminder's words for a quiet spell of `minutes`: in hours where it
/// is a whole number of them, else in minutes.
pub open spec fn nudge_text_of(minutes: u32) -> Seq<char> {
    if minutes % 60 == 0 && minutes >= 60 {
        let hours = minutes / 60;
        "Nothing recorded for "@ + crate::text::decimal(hours as nat) + " hour"@ + (if hours == 1 {
            Seq::empty()
        } else {
            seq!['s']
        }) + nudge_tail()
    } else {
        "Nothing recorded for "@ + crate::text::decimal(minutes as nat) + " minutes"@ + nudge_tail()
    }
}

/// What the reminder says after `minutes` with nothing recorded.
pub fn nudge_text(minutes: u32) -> (r: String)
    ensures
        r@ == nudge_text_of(minutes),
{
    let mut v = crate::text::chars_of("Nothing recorded for ");
    if minutes % 60 == 0 && minutes >= 60 {
        let hours = minutes / 60;
        crate::text::push_decimal(&mut v, hours as u128);
        let unit = crate::text::chars_of(" hour");
        crate::text::append_to(&mut v, unit.as_slice());
        if hours != 1 {
            v.push('s');
        }
    } else {
        crate::text::push_decimal(&mut v, minutes as u128);
        let unit = crate::text::chars_of(" minutes");
        crate::text::append_to(&mut v, unit.as_slice());
    }
    let tail = crate::text::chars_of(". If you have been working, log it while you still remember what it was.");
    crate::text::append_to(&mut v, tail.as_slice());
    proof {
        assert(v@ =~= nudge_text_of(minutes));
    }
    crate::text::string_of(v.as_slice())
}

} // verus!
