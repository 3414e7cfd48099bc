//! The impact/effort matrix, and picking something to do when stuck.
//!
//! Impact and effort are optional. A task without them is not plotted:
//! guessing a position would put work in a quadrant it was never assessed
//! for, and the whole value of the matrix is that its positions mean
//! something.
//!
//! A task's score is `(impact / effort) × (1 + urgency / 10)`, kept here as
//! the exact fraction `impact × (10 + urgency) / (10 × effort)`.

use vstd::prelude::*;

use crate::dates::{civil_days_of, days_between};
use crate::model::{Task, TaskView};
use crate::sorting::{
    chars_lt,
    lemma_sorted_by_map,
    ranked_less,
    sort_stable,
    sorted_by,
    text_less,
    Ranked,
};
use crate::store::{Data};
use crate::text::{chars_of, str_eq};

verus! {

/// Scores above this are high: a ten-point scale read as two halves.
pub const HIGH: u8 = 5;

#[derive(Debug, Clone, Copy, PartialEq, Eq, Structural)]
pub enum Quadrant {
    /// High impact, low effort. Do these first.
    QuickWin,
    /// High impact, high effort. Worth planning properly.
    BigBet,
    /// Low impact, low effort. Good when energy is low.
    FillIn,
    /// Low impact, high effort. Usually the answer is not to.
    Thankless,
}

/// The quadrant of an impact and an effort.
pub open spec fn quadrant_of(impact: u8, effort: u8) -> Quadrant {
    if impact > HIGH {
        if effort > HIGH {
            Quadrant::BigBet
        } else {
            Quadrant::QuickWin
        }
    } else if effort > HIGH {
        Quadrant::Thankless
    } else {
        Quadrant::FillIn
    }
}

/// What a quadrant is called.
pub open spec fn quadrant_label(q: Quadrant) -> Seq<char> {
    match q {
        Quadrant::QuickWin => "Quick wins"@,
        Quadrant::BigBet => "Big bets"@,
        Quadrant::FillIn => "Fill-ins"@,
        Quadrant::Thankless => "Thankless"@,
    }
}

impl Quadrant {
    /// Where an impact and an effort fall: above `HIGH` is the high half.
    pub fn of(impact: u8, effort: u8) -> (r: Quadrant)
        ensures
            r == quadrant_of(impact, effort),
    {
        if impact > HIGH {
            if effort > HIGH {
                Quadrant::BigBet
            } else {
                Quadrant::QuickWin
            }
        } else if effort > HIGH {
            Quadrant::Thankless
        } else {
            Quadrant::FillIn
        }
    }

    /// The quadrant's name, as shown.
    pub fn label(self) -> (r: &'static str)
        ensures
            r@ == quadrant_label(self),
    {
        match self {
            Quadrant::QuickWin => "Quick wins",
            Quadrant::BigBet => "Big bets",
            Quadrant::FillIn => "Fill-ins",
            Quadrant::Thankless => "Thankless",
        }
    }
}

/// How pressing a due date makes a task, 0 to 10: overdue 10, due today 9,
/// then sliding down with the days left to 1 for a month or more out (or
/// for a date that cannot be read).
pub open spec fn due_urgency(due: Option<Seq<char>>, today: Seq<char>) -> u8 {
    match due {
        None => 0,
        Some(d) => if text_less(d, today) {
            10
        } else if d == today {
            9
        } else {
            match (civil_days_of(today), civil_days_of(d)) {
                (Some(a), Some(b)) => {
                    let n = b - a;
                    if n == 1 {
                        8
                    } else if 2 <= n <= 3 {
                        7
                    } else if 4 <= n <= 7 {
                        5
                    } else if 8 <= n <= 14 {
                        3
                    } else if 15 <= n <= 30 {
                        2
                    } else {
                        1
                    }
                },
                _ => 1,
            }
        },
    }
}

/// The floor an explicit priority puts under urgency: 1 is highest.
pub open spec fn priority_floor(priority: Option<u8>) -> u8 {
    match priority {
        Some(p) => if p == 1 {
            9
        } else if p == 2 {
            7
        } else if p == 3 {
            5
        } else {
            3
        },
        None => 0,
    }
}

/// How pressing a task is, 0 to 10: derived from its due date, with its
/// priority as a floor.
pub open spec fn urgency_of(t: TaskView, today: Seq<char>) -> u8 {
    let a = due_urgency(t.due, today);
    let b = priority_floor(t.priority);
    if a > b {
        a
    } else {
        b
    }
}

/// How urgency follows the due date, for a task without a priority. A due
/// date that sorts before today is overdue (10); today itself is 9; one
/// that reads as a day after today is 8, two or three days 7, within a week
/// 5, within two weeks 3, within a month 2, and 1 from a month out. With no
/// due date there is no urgency.
pub proof fn lemma_urgency_follows_the_due_date(t: TaskView, today: Seq<char>, a: i64, b: i64)
    requires
        t.priority is None,
    ensures
        t.due is None ==> urgency_of(t, today) == 0,
        t.due matches Some(d) && text_less(d, today) ==> urgency_of(t, today) == 10,
        t.due == Some(today) ==> urgency_of(t, today) == 9,
        ({
            let readable_ahead = t.due matches Some(d) && !text_less(d, today) && civil_days_of(today) == Some(a)
                && civil_days_of(d) == Some(b) && a < b;
            &&& readable_ahead && b == a + 1 ==> urgency_of(t, today) == 8
            &&& readable_ahead && a + 2 <= b <= a + 3 ==> urgency_of(t, today) == 7
            &&& readable_ahead && a + 4 <= b <= a + 7 ==> urgency_of(t, today) == 5
            &&& readable_ahead && a + 8 <= b <= a + 14 ==> urgency_of(t, today) == 3
            &&& readable_ahead && a + 15 <= b <= a + 30 ==> urgency_of(t, today) == 2
            &&& readable_ahead && b >= a + 31 ==> urgency_of(t, today) == 1
            &&& readable_ahead ==> 1 <= urgency_of(t, today) <= 8
        }),
{
    crate::sorting::lemma_text_less_order(today, today, today);
    if let Some(d) = t.due {
        if civil_days_of(today) == Some(a) && civil_days_of(d) == Some(b) && a < b {
            assert(d != today);
        }
    }
}

/// Urgency never rises as a due date moves further out: of two tasks
/// without a priority whose due dates read as after today, the one due
/// sooner is at least as urgent.
pub proof fn lemma_sooner_is_at_least_as_urgent(
    t1: TaskView,
    t2: TaskView,
    today: Seq<char>,
    a: i64,
    b1: i64,
    b2: i64,
)
    requires
        t1.priority is None,
        t2.priority is None,
        t1.due matches Some(d1) && !text_less(d1, today) && civil_days_of(d1) == Some(b1),
        t2.due matches Some(d2) && !text_less(d2, today) && civil_days_of(d2) == Some(b2),
        civil_days_of(today) == Some(a),
        a < b1 <= b2,
    ensures
        urgency_of(t1, today) >= urgency_of(t2, today),
{
    let d1 = t1.due->0;
    let d2 = t2.due->0;
    assert(d1 != today);
    assert(d2 != today);
}

/// A priority puts a floor under urgency, whatever the due date: priority 1
/// is at least 9, 2 at least 7, 3 at least 5, and any other at least 3.
pub proof fn lemma_priority_is_a_floor(t: TaskView, today: Seq<char>)
    ensures
        t.priority == Some(1u8) ==> urgency_of(t, today) >= 9,
        t.priority == Some(2u8) ==> urgency_of(t, today) >= 7,
        t.priority == Some(3u8) ==> urgency_of(t, today) >= 5,
        t.priority is Some ==> urgency_of(t, today) >= 3,
        urgency_of(t, today) >= due_urgency(t.due, today),
{
}

/// How pressing a task is, 0 to 10.
///
/// Derived from the due date rather than stored, because a stored urgency is
/// wrong the moment time passes. An explicit priority raises the floor, for
/// work that matters regardless of any deadline.
pub fn urgency(task: &Task, today: &str) -> (r: u8)
    ensures
        r == urgency_of(task@, today@),
        r <= 10,
{
    let from_due: u8 = match &task.due {
        None => 0,
        Some(due) => {
            let d = chars_of(due.as_str());
            let t = chars_of(today);
            if chars_lt(d.as_slice(), t.as_slice()) {
                10
            } else if str_eq(due.as_str(), today) {
                9
            } else {
                proof {
                    crate::dates::lemma_civil_days_bounded(today@);
                    crate::dates::lemma_civil_days_bounded(due@);
                }
                match days_between(today, due.as_str()) {
                    Some(n) => if n == 1 {
                        8
                    } else if 2 <= n && n <= 3 {
                        7
                    } else if 4 <= n && n <= 7 {
                        5
                    } else if 8 <= n && n <= 14 {
                        3
                    } else if 15 <= n && n <= 30 {
                        2
                    } else {
                        1
                    },
                    None => 1,
                }
            }
        },
    };
    let from_priority: u8 = match task.priority {
        Some(p) => if p == 1 {
            9
        } else if p == 2 {
            7
        } else if p == 3 {
            5
        } else {
            3
        },
        None => 0,
    };
    if from_due > from_priority {
        from_due
    } else {
        from_priority
    }
}

/// A task placed on the matrix.
#[derive(Debug)]
pub struct Plotted {
    pub task: Task,
    pub impact: u8,
    /// At least 1: an effort of 0 is read as 1.
    pub effort: u8,
    /// The third dimension, derived from the due date and priority.
    pub urgency: u8,
    pub quadrant: Quadrant,
}

pub struct PlottedView {
    pub task: TaskView,
    pub impact: u8,
    pub effort: u8,
    pub urgency: u8,
    pub quadrant: Quadrant,
}

impl View for Plotted {
    type V = PlottedView;

    open spec fn view(&self) -> PlottedView {
        PlottedView {
            task: self.task@,
            impact: self.impact,
            effort: self.effort,
            urgency: self.urgency,
            quadrant: self.quadrant,
        }
    }
}

/// The numerator of a plotted task's score over the denominator
/// `10 × effort`.
pub open spec fn score_top(p: PlottedView) -> int {
    p.impact * (10 + p.urgency)
}

/// Whether `a` scores higher than `b`: compare the fractions across.
pub open spec fn scores_above(a: PlottedView, b: PlottedView) -> bool {
    score_top(a) * b.effort > score_top(b) * a.effort
}

/// Whether `a` and `b` score the same.
pub open spec fn scores_level(a: PlottedView, b: PlottedView) -> bool {
    score_top(a) * b.effort == score_top(b) * a.effort
}

/// Matrix order: highest score first, then least effort, then oldest.
pub open spec fn plot_less(a: PlottedView, b: PlottedView) -> bool {
    scores_above(a, b) || (scores_level(a, b) && (a.effort < b.effort || (a.effort == b.effort
        && a.task.created_at < b.task.created_at)))
}

pub open spec fn plot_order() -> spec_fn(PlottedView, PlottedView) -> bool {
    |a: PlottedView, b: PlottedView| plot_less(a, b)
}

impl Plotted {
    /// The score as a fraction: `impact × (10 + urgency)` over
    /// `10 × effort`, which is `(impact / effort) × (1 + urgency / 10)`.
    pub fn score_parts(&self) -> (r: (u32, u32))
        ensures
            r.0 == score_top(self@),
            r.1 == 10 * self.effort,
    {
        let i: u32 = self.impact as u32;
        let w: u32 = 10 + self.urgency as u32;
        proof {
            assert(i * w <= 255 * 265) by (nonlinear_arith)
                requires
                    i <= 255,
                    w <= 265,
            ;
        }
        (i * w, 10 * self.effort as u32)
    }
}

fn score_cross(a: &Plotted, b: &Plotted) -> (r: (u64, u64))
    ensures
        r.0 == score_top(a@) * b.effort,
        r.1 == score_top(b@) * a.effort,
{
    let ia: u64 = a.impact as u64;
    let wa: u64 = 10 + a.urgency as u64;
    let ib: u64 = b.impact as u64;
    let wb: u64 = 10 + b.urgency as u64;
    let ea: u64 = a.effort as u64;
    let eb: u64 = b.effort as u64;
    proof {
        assert(ia * wa <= 255 * 265 && ib * wb <= 255 * 265) by (nonlinear_arith)
            requires
                ia <= 255,
                wa <= 265,
                ib <= 255,
                wb <= 265,
        ;
        assert(ia * wa * eb <= 255 * 265 * 255 && ib * wb * ea <= 255 * 265 * 255) by (nonlinear_arith)
            requires
                ia * wa <= 255 * 265,
                ib * wb <= 255 * 265,
                ea <= 255,
                eb <= 255,
        ;
    }
    (ia * wa * eb, ib * wb * ea)
}

impl Ranked for Plotted {
    open spec fn before(&self, other: &Self) -> bool {
        plot_less(self@, other@)
    }

    fn goes_before(&self, other: &Self) -> (r: bool) {
        let (x, y) = score_cross(self, other);
        x > y || (x == y && (self.effort < other.effort || (self.effort == other.effort
            && self.task.created_at < other.task.created_at)))
    }
}

/// Whether a task goes on the matrix: open, with an impact and an effort.
pub open spec fn plottable(t: TaskView) -> bool {
    t.status != crate::model::Status::Done && t.impact is Some && t.effort is Some
}

/// A task as it is plotted; an effort of 0 counts as 1.
pub open spec fn as_plotted(t: TaskView, today: Seq<char>) -> PlottedView {
    let effort = if t.effort->0 > 1 {
        t.effort->0
    } else {
        1
    };
    PlottedView {
        task: t,
        impact: t.impact->0,
        effort,
        urgency: urgency_of(t, today),
        quadrant: quadrant_of(t.impact->0, effort),
    }
}

/// The open, scored tasks as they are plotted, in data order.
pub open spec fn candidates(tasks: Seq<TaskView>, today: Seq<char>) -> Seq<PlottedView>
    decreases tasks.len(),
{
    if tasks.len() == 0 {
        Seq::empty()
    } else {
        let rest = candidates(tasks.drop_last(), today);
        if plottable(tasks.last()) {
            rest.push(as_plotted(tasks.last(), today))
        } else {
            rest
        }
    }
}

/// Every open, scored task, most worth doing first.
pub open spec fn plot_of(tasks: Seq<TaskView>, today: Seq<char>) -> Seq<PlottedView> {
    sorted_by(candidates(tasks, today), plot_order())
}

/// The index `low_energy` picks among the first `n` plotted tasks: the
/// cheapest that is not high effort, and among equally cheap ones the best
/// scoring, the first of any that tie.
pub open spec fn cheap_pick(s: Seq<PlottedView>, n: int) -> Option<int>
    decreases n,
{
    if n <= 0 {
        None
    } else {
        let prev = cheap_pick(s, n - 1);
        let x = s[n - 1];
        if x.effort > HIGH {
            prev
        } else {
            match prev {
                None => Some(n - 1),
                Some(b) => if x.effort < s[b].effort || (x.effort == s[b].effort && scores_above(x, s[b])) {
                    Some(n - 1)
                } else {
                    prev
                },
            }
        }
    }
}

/// What `suggest` hands back out of the plotted tasks `s`.
pub open spec fn suggestion(s: Seq<PlottedView>, low_energy: bool) -> Option<PlottedView> {
    if low_energy && cheap_pick(s, s.len() as int) is Some {
        Some(s[cheap_pick(s, s.len() as int)->0])
    } else if s.len() > 0 {
        Some(s[0])
    } else {
        None
    }
}

proof fn lemma_cheap_pick_bounds(s: Seq<PlottedView>, n: int)
    requires
        0 <= n <= s.len(),
    ensures
        cheap_pick(s, n) matches Some(k) ==> 0 <= k < n,
    decreases n,
{
    if n > 0 {
        lemma_cheap_pick_bounds(s, n - 1);
    }
}

fn plot_entry(task: &Task, today: &str) -> (r: Option<Plotted>)
    ensures
        match r {
            Some(p) => plottable(task@) && p@ == as_plotted(task@, today@),
            None => !plottable(task@),
        },
{
    if task.status.is_done() {
        return None;
    }
    let impact = match task.impact {
        Some(i) => i,
        None => return None,
    };
    let effort = match task.effort {
        Some(e) => if e > 1 {
            e
        } else {
            1
        },
        None => return None,
    };
    let u = urgency(task, today);
    Some(Plotted { task: task.duplicate(), impact, effort, urgency: u, quadrant: Quadrant::of(impact, effort) })
}

/// Every open, scored task, most worth doing first: highest score, then
/// least effort, then oldest.
pub fn plot(data: &Data, today: &str) -> (r: Vec<Plotted>)
    ensures
        r@.map_values(|p: Plotted| p@) == plot_of(data@.tasks, today@),
{
    let mut entries: Vec<Plotted> = Vec::new();
    let mut i: usize = 0;
    while i < data.tasks.len()
        invariant
            i <= data.tasks@.len(),
            entries@.map_values(|p: Plotted| p@) == candidates(data@.tasks.take(i as int), today@),
        decreases data.tasks@.len() - i,
    {
        proof {
            assert(data@.tasks.take(i + 1).drop_last() =~= data@.tasks.take(i as int));
            assert(data@.tasks.take(i + 1).last() == data.tasks@[i as int]@);
        }
        let ghost before = entries@.map_values(|p: Plotted| p@);
        match plot_entry(&data.tasks[i], today) {
            Some(p) => {
                entries.push(p);
                proof {
                    assert(entries@.map_values(|p: Plotted| p@) =~= before.push(entries@.last()@));
                }
            },
            None => {},
        }
        i = i + 1;
    }
    proof {
        assert(data@.tasks.take(i as int) =~= data@.tasks);
    }
    let ghost f = |p: Plotted| p@;
    proof {
        lemma_sorted_by_map(entries@, f, ranked_less::<Plotted>(), plot_order());
    }
    sort_stable(entries)
}

/// Something worth doing now. With energy, the best value; when
/// `low_energy`, the cheapest thing that still pays (falling back to the
/// best value rather than refusing when nothing is cheap). `None` only when
/// nothing is scored.
pub fn suggest(data: &Data, today: &str, low_energy: bool) -> (r: Option<Plotted>)
    ensures
        match r {
            Some(p) => suggestion(plot_of(data@.tasks, today@), low_energy) == Some(p@),
            None => suggestion(plot_of(data@.tasks, today@), low_energy) is None,
        },
{
    let mut plotted = plot(data, today);
    let ghost s = plotted@.map_values(|p: Plotted| p@);
    if low_energy {
        let mut best: Option<usize> = None;
        let mut i: usize = 0;
        while i < plotted.len()
            invariant
                i <= plotted@.len(),
                s == plotted@.map_values(|p: Plotted| p@),
                match best {
                    Some(b) => cheap_pick(s, i as int) == Some(b as int),
                    None => cheap_pick(s, i as int) is None,
                },
            decreases plotted@.len() - i,
        {
            proof {
                lemma_cheap_pick_bounds(s, i as int);
                assert(s[i as int] == plotted@[i as int]@);
            }
            if plotted[i].effort <= HIGH {
                match best {
                    None => {
                        best = Some(i);
                    },
                    Some(b) => {
                        proof {
                            assert(s[b as int] == plotted@[b as int]@);
                        }
                        let (x, y) = score_cross(&plotted[i], &plotted[b]);
                        if plotted[i].effort < plotted[b].effort || (plotted[i].effort == plotted[b].effort
                            && x > y) {
                            best = Some(i);
                        }
                    },
                }
            }
            i = i + 1;
        }
        proof {
            lemma_cheap_pick_bounds(s, i as int);
        }
        match best {
            Some(b) => {
                proof {
                    assert(s[b as int] == plotted@[b as int]@);
                }
                return Some(plotted.swap_remove(b));
            },
            None => {},
        }
    }
    if plotted.len() > 0 {
        proof {
            assert(s[0] == plotted@[0]@);
        }
        Some(plotted.swap_remove(0))
    } else {
        None
    }
}

/// A suggestion is never refused while anything is plotted: with low
/// energy and nothing cheap enough, the best value is offered instead.
pub proof fn lemma_suggestion_never_refuses(s: Seq<PlottedView>, low_energy: bool)
    ensures
        suggestion(s, low_energy) is Some <==> s.len() > 0,
{
    lemma_cheap_pick_bounds(s, s.len() as int);
}

/// With energy to spare, the pick is the best-scoring task.
pub proof fn lemma_fresh_pick_is_first(s: Seq<PlottedView>)
    requires
        s.len() > 0,
    ensures
        suggestion(s, false) == Some(s[0]),
{
}

/// A low-energy pick is never high effort while a task that is not exists,
/// and no cheaper such task was passed over.
pub proof fn lemma_low_energy_pick_is_cheapest(s: Seq<PlottedView>, n: int)
    requires
        0 <= n <= s.len(),
    ensures
        cheap_pick(s, n) matches Some(k) ==> s[k].effort <= HIGH && forall|j: int| 0 <= j < n && s[j].effort <= HIGH ==> s[k].effort <= s[j].effort,
        cheap_pick(s, n) is None ==> forall|j: int| 0 <= j < n ==> s[j].effort > HIGH,
    decreases n,
{
    if n > 0 {
        lemma_low_energy_pick_is_cheapest(s, n - 1);
        lemma_cheap_pick_bounds(s, n - 1);
    }
}

} // verus!
