//! Views over the store: Today, filters and search, and time summaries.
//!
//! Every date-aware query takes today's date as a `YYYY-MM-DD` string rather
//! than reading the clock: a caller that knows its own local date gets
//! correct answers, and the answers do not depend on when they are asked.

use vstd::prelude::*;

use crate::log::views;
use crate::model::{Session, SessionKind, SessionView, Status, Task, TaskView};
use crate::sorting::{
    chars_lt, lemma_sorted_by_in_order, lemma_sorted_by_keeps, lemma_sorted_by_map, lemma_sorted_by_members, ranked_less, sort_stable, sorted_by, strict_weak,
    text_less, text_lt, Ranked,
};
use crate::stats::session_views;
use crate::store::{find_board, find_task, Data, DataView};
use crate::text::{chars_of, contains, contains_seq, eq_ignore_case, same_ignoring_ascii_case, str_eq};

verus! {

// ---------------------------------------------------------------------------
// Today
// ---------------------------------------------------------------------------

/// Why a task is on Today.
#[derive(Debug, Clone, Copy, PartialEq, Eq, Structural)]
pub enum TodayReason {
    /// Past its due date.
    Overdue,
    /// Due today.
    Due,
    /// Explicitly pulled onto today.
    Flagged,
    /// Already being worked on.
    InProgress,
}

/// A task on Today, and why it is there.
#[derive(Debug)]
pub struct TodayEntry {
    pub task: Task,
    pub reason: TodayReason,
}

pub struct TodayEntryView {
    pub task: TaskView,
    pub reason: TodayReason,
}

impl View for TodayEntry {
    type V = TodayEntryView;

    open spec fn view(&self) -> TodayEntryView {
        TodayEntryView { task: self.task@, reason: self.reason }
    }
}

/// Why a task is on Today, if it is: open, and overdue, due today,
/// flagged, or in progress, in that order of precedence.
pub open spec fn reason_of(t: TaskView, today: Seq<char>) -> Option<TodayReason> {
    if t.status == Status::Done {
        None
    } else if t.due matches Some(d) && text_less(d, today) {
        Some(TodayReason::Overdue)
    } else if t.due == Some(today) {
        Some(TodayReason::Due)
    } else if t.today {
        Some(TodayReason::Flagged)
    } else if t.status == Status::Doing {
        Some(TodayReason::InProgress)
    } else {
        None
    }
}

/// Overdue first, then in progress, then due, then flagged.
pub open spec fn rank_of(r: TodayReason) -> u8 {
    match r {
        TodayReason::Overdue => 0,
        TodayReason::InProgress => 1,
        TodayReason::Due => 2,
        TodayReason::Flagged => 3,
    }
}

/// A priority for ordering: unprioritised work sorts last.
pub open spec fn priority_key(p: Option<u8>) -> u8 {
    match p {
        Some(x) => x,
        None => 255,
    }
}

/// Today's order: by reason, then priority, then oldest first.
pub open spec fn today_less(a: TodayEntryView, b: TodayEntryView) -> bool {
    rank_of(a.reason) < rank_of(b.reason) || (rank_of(a.reason) == rank_of(b.reason) && (
    priority_key(a.task.priority) < priority_key(b.task.priority) || (priority_key(a.task.priority)
        == priority_key(b.task.priority) && a.task.created_at < b.task.created_at)))
}

pub open spec fn today_order() -> spec_fn(TodayEntryView, TodayEntryView) -> bool {
    |a: TodayEntryView, b: TodayEntryView| today_less(a, b)
}

/// The tasks that belong on Today, in data order.
pub open spec fn today_entries(tasks: Seq<TaskView>, today: Seq<char>) -> Seq<TodayEntryView>
    decreases tasks.len(),
{
    if tasks.len() == 0 {
        Seq::empty()
    } else {
        let rest = today_entries(tasks.drop_last(), today);
        match reason_of(tasks.last(), today) {
            Some(r) => rest.push(TodayEntryView { task: tasks.last(), reason: r }),
            None => rest,
        }
    }
}

/// The Today list, in its order.
pub open spec fn today_of(tasks: Seq<TaskView>, today: Seq<char>) -> Seq<TodayEntryView> {
    sorted_by(today_entries(tasks, today), today_order())
}

/// Whether a task is pressing on `today`: not finished, and overdue (its
/// due date sorts before today), due today, flagged for today, or in
/// progress.
pub open spec fn pressing(t: TaskView, today: Seq<char>) -> bool {
    &&& t.status != Status::Done
    &&& (t.due matches Some(d) && text_less(d, today)) || t.due == Some(today) || t.today || t.status
        == Status::Doing
}

proof fn lemma_today_entries_members(tasks: Seq<TaskView>, today: Seq<char>)
    ensures
        forall|k: int|
            0 <= k < today_entries(tasks, today).len() ==> tasks.contains(
                (#[trigger] today_entries(tasks, today)[k]).task,
            ) && reason_of(today_entries(tasks, today)[k].task, today) == Some(
                today_entries(tasks, today)[k].reason,
            ),
        forall|i: int|
            0 <= i < tasks.len() && #[trigger] reason_of(tasks[i], today) is Some ==> today_entries(
                tasks,
                today,
            ).contains(TodayEntryView { task: tasks[i], reason: reason_of(tasks[i], today)->0 }),
    decreases tasks.len(),
{
    if tasks.len() > 0 {
        let d = tasks.drop_last();
        lemma_today_entries_members(d, today);
        let rest = today_entries(d, today);
        let e = today_entries(tasks, today);
        assert forall|k: int| 0 <= k < e.len() implies tasks.contains((#[trigger] e[k]).task) && reason_of(
            e[k].task,
            today,
        ) == Some(e[k].reason) by {
            if k < rest.len() {
                assert(e[k] == rest[k]);
                let w = choose|w: int| 0 <= w < d.len() && d[w] == rest[k].task;
                assert(tasks[w] == d[w]);
            } else {
                assert(e[k].task == tasks[tasks.len() - 1]);
            }
        }
        assert forall|i: int| 0 <= i < tasks.len() && #[trigger] reason_of(tasks[i], today) is Some implies e.contains(
            TodayEntryView { task: tasks[i], reason: reason_of(tasks[i], today)->0 },
        ) by {
            let x = TodayEntryView { task: tasks[i], reason: reason_of(tasks[i], today)->0 };
            if i < tasks.len() - 1 {
                assert(tasks[i] == d[i]);
                assert(reason_of(d[i], today) is Some);
                assert(rest.contains(x));
                let w = choose|w: int| 0 <= w < rest.len() && rest[w] == x;
                assert(e[w] == rest[w]);
            } else {
                assert(e[e.len() - 1] == x);
            }
        }
    }
}

/// Today holds exactly the pressing tasks: each entry is a task of the
/// data that is pressing, for a reason that is true of it, and every
/// pressing task is there.
pub proof fn lemma_today_is_what_is_pressing(tasks: Seq<TaskView>, today: Seq<char>)
    ensures
        forall|k: int|
            0 <= k < today_of(tasks, today).len() ==> {
                let e = #[trigger] today_of(tasks, today)[k];
                &&& tasks.contains(e.task)
                &&& pressing(e.task, today)
                &&& e.reason == TodayReason::Overdue ==> (e.task.due matches Some(d) && text_less(d, today))
                &&& e.reason == TodayReason::Due ==> e.task.due == Some(today)
                &&& e.reason == TodayReason::Flagged ==> e.task.today
                &&& e.reason == TodayReason::InProgress ==> e.task.status == Status::Doing
            },
        forall|i: int|
            0 <= i < tasks.len() && pressing(#[trigger] tasks[i], today) ==> exists|k: int|
                0 <= k < today_of(tasks, today).len() && today_of(tasks, today)[k].task == tasks[i],
{
    let es = today_entries(tasks, today);
    lemma_today_entries_members(tasks, today);
    lemma_sorted_by_members(es, today_order());
    lemma_sorted_by_keeps(es, today_order());
    let r = today_of(tasks, today);
    assert forall|k: int| 0 <= k < r.len() implies {
        let e = #[trigger] r[k];
        &&& tasks.contains(e.task)
        &&& pressing(e.task, today)
        &&& e.reason == TodayReason::Overdue ==> (e.task.due matches Some(d) && text_less(d, today))
        &&& e.reason == TodayReason::Due ==> e.task.due == Some(today)
        &&& e.reason == TodayReason::Flagged ==> e.task.today
        &&& e.reason == TodayReason::InProgress ==> e.task.status == Status::Doing
    } by {
        assert(es.contains(r[k]));
        let w = choose|w: int| 0 <= w < es.len() && es[w] == r[k];
        assert(reason_of(es[w].task, today) == Some(es[w].reason));
    }
    assert forall|i: int| 0 <= i < tasks.len() && pressing(#[trigger] tasks[i], today) implies exists|k: int|
        0 <= k < r.len() && r[k].task == tasks[i] by {
        assert(reason_of(tasks[i], today) is Some);
        let x = TodayEntryView { task: tasks[i], reason: reason_of(tasks[i], today)->0 };
        assert(es.contains(x));
        let w = choose|w: int| 0 <= w < es.len() && es[w] == x;
        assert(r.contains(es[w]));
        let k = choose|k: int| 0 <= k < r.len() && r[k] == es[w];
        assert(r[k].task == tasks[i]);
    }
}

/// Today's order is one a sort can keep.
proof fn lemma_today_order_strict_weak()
    ensures
        strict_weak(today_order()),
{
    let less = today_order();
    assert forall|a: TodayEntryView, b: TodayEntryView| #[trigger] less(a, b) implies !less(b, a) by {}
    assert forall|a: TodayEntryView, b: TodayEntryView, c: TodayEntryView|
        #![trigger less(a, b), less(b, c)]
        less(a, c) implies less(a, b) || less(b, c) by {}
}

/// How Today is ordered, for any tasks and any day: overdue work first,
/// then work in progress, then what is due today, then what is flagged;
/// within one reason, work with a priority (other than the catch-all 255)
/// before work with none, a higher priority (a smaller number) before a
/// lower one, and at one priority the older task first.
pub proof fn lemma_today_ordering(tasks: Seq<TaskView>, today: Seq<char>, i: int, j: int)
    requires
        0 <= i < j < today_of(tasks, today).len(),
    ensures
        ({
            let a = today_of(tasks, today)[i];
            let b = today_of(tasks, today)[j];
            &&& b.reason == TodayReason::Overdue ==> a.reason == TodayReason::Overdue
            &&& b.reason == TodayReason::InProgress ==> (a.reason == TodayReason::Overdue || a.reason
                == TodayReason::InProgress)
            &&& b.reason == TodayReason::Due ==> a.reason != TodayReason::Flagged
            &&& a.reason == b.reason && a.task.priority is None ==> !(b.task.priority matches Some(p) && p < 255)
            &&& (a.reason == b.reason && a.task.priority is Some && b.task.priority is Some) ==> a.task.priority->0
                <= b.task.priority->0
            &&& a.reason == b.reason && a.task.priority == b.task.priority ==> a.task.created_at
                <= b.task.created_at
        }),
{
    lemma_today_order_strict_weak();
    lemma_sorted_by_in_order(today_entries(tasks, today), today_order());
    let r = today_of(tasks, today);
    assert(!today_order()(r[j], r[i]));
}

fn rank(r: TodayReason) -> (n: u8)
    ensures
        n == rank_of(r),
{
    match r {
        TodayReason::Overdue => 0,
        TodayReason::InProgress => 1,
        TodayReason::Due => 2,
        TodayReason::Flagged => 3,
    }
}

fn priority_sort_key(p: Option<u8>) -> (n: u8)
    ensures
        n == priority_key(p),
{
    match p {
        Some(x) => x,
        None => 255,
    }
}

impl Ranked for TodayEntry {
    open spec fn before(&self, other: &Self) -> bool {
        today_less(self@, other@)
    }

    fn goes_before(&self, other: &Self) -> (r: bool) {
        let (ra, rb) = (rank(self.reason), rank(other.reason));
        let (pa, pb) = (priority_sort_key(self.task.priority), priority_sort_key(other.task.priority));
        ra < rb || (ra == rb && (pa < pb || (pa == pb && self.task.created_at < other.task.created_at)))
    }
}

fn today_reason(t: &Task, today: &str) -> (r: Option<TodayReason>)
    ensures
        r == reason_of(t@, today@),
{
    if t.status.is_done() {
        return None;
    }
    match &t.due {
        Some(d) => {
            let x = chars_of(d.as_str());
            let y = chars_of(today);
            if chars_lt(x.as_slice(), y.as_slice()) {
                return Some(TodayReason::Overdue);
            }
            if str_eq(d.as_str(), today) {
                return Some(TodayReason::Due);
            }
        },
        None => {},
    }
    if t.today {
        Some(TodayReason::Flagged)
    } else if t.status == Status::Doing {
        Some(TodayReason::InProgress)
    } else {
        None
    }
}

/// The Today list: overdue, due today, flagged, or in progress, and why.
///
/// Deliberately narrow. A Today list that quietly includes everything else
/// is just the backlog, and stops being worth opening.
pub fn today(data: &Data, date: &str) -> (r: Vec<TodayEntry>)
    ensures
        r@.map_values(|e: TodayEntry| e@) == today_of(data@.tasks, date@),
{
    let mut entries: Vec<TodayEntry> = Vec::new();
    let mut i: usize = 0;
    while i < data.tasks.len()
        invariant
            i <= data.tasks@.len(),
            entries@.map_values(|e: TodayEntry| e@) == today_entries(data@.tasks.take(i as int), date@),
        decreases data.tasks@.len() - i,
    {
        proof {
            assert(data@.tasks.take(i + 1).drop_last() =~= data@.tasks.take(i as int));
            assert(data@.tasks.take(i + 1).last() == data.tasks@[i as int]@);
        }
        let ghost before = entries@.map_values(|e: TodayEntry| e@);
        match today_reason(&data.tasks[i], date) {
            Some(reason) => {
                let e = TodayEntry { task: data.tasks[i].duplicate(), reason };
                entries.push(e);
                proof {
                    assert(entries@.map_values(|e: TodayEntry| e@) =~= before.push(entries@.last()@));
                }
            },
            None => {},
        }
        i = i + 1;
    }
    proof {
        assert(data@.tasks.take(i as int) =~= data@.tasks);
        lemma_sorted_by_map(entries@, |e: TodayEntry| e@, ranked_less::<TodayEntry>(), today_order());
    }
    sort_stable(entries)
}

// ---------------------------------------------------------------------------
// finding tasks
// ---------------------------------------------------------------------------

/// What `str::to_lowercase` gives for a text: the Unicode lower case of
/// each character.
pub uninterp spec fn lowercase_of(s: Seq<char>) -> Seq<char>;

/// A text in lower case (`str::to_lowercase`).
#[verifier::external_body]
pub(crate) fn lowercase(s: &str) -> (r: String)
    ensures
        r@ == lowercase_of(s@),
{
    s.to_lowercase()
}

/// The task a focus session started from the tray is for: the top of
/// Today, as its id and title, or none when Today is empty (the session is
/// then unattributed and asks when it ends).
pub fn focus_target(data: &Data, date: &str) -> (r: Option<(String, String)>)
    ensures
        match r {
            Some((id, title)) => today_of(data@.tasks, date@).len() > 0
                && id@ == today_of(data@.tasks, date@)[0].task.id
                && title@ == today_of(data@.tasks, date@)[0].task.title,
            None => today_of(data@.tasks, date@).len() == 0,
        },
{
    let entries = today(data, date);
    if entries.len() == 0 {
        return None;
    }
    proof {
        assert(entries@[0]@ == today_of(data@.tasks, date@)[0]);
    }
    Some((entries[0].task.id.clone(), entries[0].task.title.clone()))
}

/// What to list.
#[derive(Debug)]
pub struct Filter {
    pub board_id: Option<String>,
    pub list_id: Option<String>,
    pub status: Option<Status>,
    pub tag: Option<String>,
    /// The project, ignoring ASCII case.
    pub project: Option<String>,
    /// Text matched against title and notes, ignoring case.
    pub query: Option<String>,
    /// Include finished tasks. Off by default: done work is rarely what is
    /// being looked for, and it swamps everything else.
    pub include_done: bool,
    pub limit: Option<usize>,
}

pub struct FilterView {
    pub board_id: Option<Seq<char>>,
    pub list_id: Option<Seq<char>>,
    pub status: Option<Status>,
    pub tag: Option<Seq<char>>,
    pub project: Option<Seq<char>>,
    pub query: Option<Seq<char>>,
    pub include_done: bool,
    pub limit: Option<usize>,
}

impl View for Filter {
    type V = FilterView;

    open spec fn view(&self) -> FilterView {
        FilterView {
            board_id: self.board_id.deep_view(),
            list_id: self.list_id.deep_view(),
            status: self.status,
            tag: self.tag.deep_view(),
            project: self.project.deep_view(),
            query: self.query.deep_view(),
            include_done: self.include_done,
            limit: self.limit,
        }
    }
}

impl Default for Filter {
    /// No filter: every open task.
    fn default() -> (r: Filter)
        ensures
            r@ == (FilterView {
                board_id: None,
                list_id: None,
                status: None,
                tag: None,
                project: None,
                query: None,
                include_done: false,
                limit: None,
            }),
    {
        Filter {
            board_id: None,
            list_id: None,
            status: None,
            tag: None,
            project: None,
            query: None,
            include_done: false,
            limit: None,
        }
    }
}

/// The ids of a board's lists, if the board exists.
pub open spec fn board_lists(data: DataView, board_id: Option<Seq<char>>) -> Option<Seq<Seq<char>>> {
    match board_id {
        Some(id) => {
            let b = find_board(data.boards, id, 0);
            if b < data.boards.len() {
                Some(data.boards[b].lists.map_values(|l: crate::model::ListView| l.id))
            } else {
                None
            }
        },
        None => None,
    }
}

/// Whether a task passes the filter. A board that does not exist filters
/// nothing out.
pub open spec fn passes(t: TaskView, f: FilterView, lists: Option<Seq<Seq<char>>>) -> bool {
    &&& f.include_done || t.status != Status::Done
    &&& f.status matches Some(s) ==> t.status == s
    &&& f.list_id matches Some(id) ==> t.list_id == id
    &&& lists matches Some(ls) ==> ls.contains(t.list_id)
    &&& f.tag matches Some(tag) ==> exists|i: int| 0 <= i < t.tags.len() && same_ignoring_ascii_case(#[trigger] t.tags[i], tag)
    &&& f.project matches Some(p) ==> (t.project matches Some(tp) && same_ignoring_ascii_case(tp, p))
    &&& f.query matches Some(q) ==> contains_seq(lowercase_of(t.title), lowercase_of(q)) || contains_seq(
        lowercase_of(
            match t.notes {
                Some(n) => n,
                None => Seq::empty(),
            },
        ),
        lowercase_of(q),
    )
}

/// Listing order: by list, then position, then age.
pub open spec fn find_less(a: TaskView, b: TaskView) -> bool {
    text_less(a.list_id, b.list_id) || (a.list_id == b.list_id && (a.order < b.order || (a.order == b.order
        && a.created_at < b.created_at)))
}

pub open spec fn find_order() -> spec_fn(TaskView, TaskView) -> bool {
    |a: TaskView, b: TaskView| find_less(a, b)
}

/// The tasks that pass the filter, in data order.
pub open spec fn passing(tasks: Seq<TaskView>, f: FilterView, lists: Option<Seq<Seq<char>>>) -> Seq<TaskView> {
    tasks.filter(|t: TaskView| passes(t, f, lists))
}

/// What `find` lists: the passing tasks in listing order, cut at the limit.
pub open spec fn found(data: DataView, f: FilterView) -> Seq<TaskView> {
    let all = sorted_by(passing(data.tasks, f, board_lists(data, f.board_id)), find_order());
    match f.limit {
        Some(n) => if n < all.len() {
            all.take(n as int)
        } else {
            all
        },
        None => all,
    }
}

/// Listing order is one a sort can keep.
proof fn lemma_find_order_strict_weak()
    ensures
        strict_weak(find_order()),
{
    let less = find_order();
    assert forall|a: TaskView, b: TaskView| #[trigger] less(a, b) implies !less(b, a) by {
        crate::sorting::lemma_text_less_order(a.list_id, b.list_id, a.list_id);
    }
    assert forall|a: TaskView, b: TaskView, c: TaskView|
        #![trigger less(a, b), less(b, c)]
        less(a, c) implies less(a, b) || less(b, c) by {
        crate::sorting::lemma_text_less_order(a.list_id, b.list_id, c.list_id);
        crate::sorting::lemma_text_less_order(b.list_id, c.list_id, a.list_id);
        crate::sorting::lemma_text_less_order(c.list_id, a.list_id, b.list_id);
        crate::sorting::lemma_text_less_order(a.list_id, c.list_id, b.list_id);
        crate::sorting::lemma_text_less_order(b.list_id, a.list_id, c.list_id);
        crate::sorting::lemma_text_less_order(c.list_id, b.list_id, a.list_id);
    }
}

/// What `find` lists comes in listing order: grouped by list (list ids in
/// text order), and within a list by position, then oldest first.
pub proof fn lemma_found_in_listing_order(data: DataView, f: FilterView, i: int, j: int)
    requires
        0 <= i < j < found(data, f).len(),
    ensures
        ({
            let a = found(data, f)[i];
            let b = found(data, f)[j];
            &&& !text_less(b.list_id, a.list_id)
            &&& a.list_id == b.list_id ==> a.order <= b.order
            &&& a.list_id == b.list_id && a.order == b.order ==> a.created_at <= b.created_at
        }),
{
    let lists = board_lists(data, f.board_id);
    let pass = data.tasks.filter(|t: TaskView| passes(t, f, lists));
    let all = sorted_by(pass, find_order());
    lemma_find_order_strict_weak();
    lemma_sorted_by_in_order(pass, find_order());
    assert(found(data, f)[i] == all[i] && found(data, f)[j] == all[j]);
    assert(!find_order()(all[j], all[i]));
}

/// Whatever `find` lists answers the filter: it is a task of the data;
/// finished work only where asked for; and each of the filter's status,
/// list, board, tag, project and text, where given, holds of it. There are
/// never more than the limit.
pub proof fn lemma_found_answers_filter(data: DataView, f: FilterView, i: int)
    requires
        0 <= i < found(data, f).len(),
    ensures
        ({
            let t = found(data, f)[i];
            &&& data.tasks.contains(t)
            &&& f.include_done || t.status != Status::Done
            &&& f.status matches Some(s) ==> t.status == s
            &&& f.list_id matches Some(id) ==> t.list_id == id
            &&& board_lists(data, f.board_id) matches Some(ls) ==> ls.contains(t.list_id)
            &&& f.tag matches Some(tag) ==> exists|k: int|
                0 <= k < t.tags.len() && same_ignoring_ascii_case(#[trigger] t.tags[k], tag)
            &&& f.project matches Some(p) ==> (t.project matches Some(tp) && same_ignoring_ascii_case(tp, p))
            &&& f.query matches Some(q) ==> (contains_seq(lowercase_of(t.title), lowercase_of(q)) || contains_seq(
                lowercase_of(
                    match t.notes {
                        Some(n) => n,
                        None => Seq::empty(),
                    },
                ),
                lowercase_of(q),
            ))
        }),
        f.limit matches Some(n) ==> found(data, f).len() <= n,
{
    let lists = board_lists(data, f.board_id);
    let pred = |t: TaskView| passes(t, f, lists);
    let pass = data.tasks.filter(pred);
    let all = sorted_by(pass, find_order());
    lemma_sorted_by_members(pass, find_order());
    assert(found(data, f)[i] == all[i]);
    assert(pass.contains(all[i]));
    let w = choose|w: int| 0 <= w < pass.len() && pass[w] == all[i];
    data.tasks.lemma_filter_pred(pred, w);
    data.tasks.lemma_filter_contains_rev(pred, all[i]);
    assert(passes(all[i], f, lists));
}

/// A task wrapped to sort in listing order.
pub struct Listed {
    pub task: Task,
}

impl Ranked for Listed {
    open spec fn before(&self, other: &Self) -> bool {
        find_less(self.task@, other.task@)
    }

    fn goes_before(&self, other: &Self) -> (r: bool) {
        if text_lt(self.task.list_id.as_str(), other.task.list_id.as_str()) {
            return true;
        }
        if !str_eq(self.task.list_id.as_str(), other.task.list_id.as_str()) {
            return false;
        }
        self.task.order < other.task.order || (self.task.order == other.task.order && self.task.created_at
            < other.task.created_at)
    }
}

fn board_list_ids(data: &Data, board_id: &Option<String>) -> (r: Option<Vec<String>>)
    ensures
        match r {
            Some(v) => board_lists(data@, board_id.deep_view()) == Some(v.deep_view()),
            None => board_lists(data@, board_id.deep_view()) is None,
        },
{
    match board_id {
        Some(id) => match data.board_index(id.as_str()) {
            Some(b) => {
                let lists = &data.boards[b].lists;
                let mut v: Vec<String> = Vec::new();
                let mut i: usize = 0;
                while i < lists.len()
                    invariant
                        i <= lists@.len(),
                        v@.len() == i,
                        forall|k: int| 0 <= k < i ==> (#[trigger] v@[k])@ == lists@[k]@.id,
                    decreases lists@.len() - i,
                {
                    v.push(lists[i].id.clone());
                    i = i + 1;
                }
                proof {
                    assert(v.deep_view() =~= data@.boards[b as int].lists.map_values(|l: crate::model::ListView| l.id));
                }
                Some(v)
            },
            None => None,
        },
        None => None,
    }
}

fn contains_text(v: &Vec<String>, x: &str) -> (r: bool)
    ensures
        r == v.deep_view().contains(x@),
{
    let mut i: usize = 0;
    while i < v.len()
        invariant
            i <= v@.len(),
            forall|k: int| 0 <= k < i ==> v.deep_view()[k] != x@,
        decreases v@.len() - i,
    {
        if str_eq(v[i].as_str(), x) {
            assert(v.deep_view()[i as int] == x@);
            return true;
        }
        i = i + 1;
    }
    false
}

fn has_tag(tags: &Vec<String>, tag: &str) -> (r: bool)
    ensures
        r == exists|i: int| 0 <= i < tags.deep_view().len() && same_ignoring_ascii_case(#[trigger] tags.deep_view()[i], tag@),
{
    let want = chars_of(tag);
    let mut i: usize = 0;
    while i < tags.len()
        invariant
            i <= tags@.len(),
            want@ == tag@,
            forall|k: int| 0 <= k < i ==> !same_ignoring_ascii_case(#[trigger] tags.deep_view()[k], tag@),
        decreases tags@.len() - i,
    {
        let have = chars_of(tags[i].as_str());
        if eq_ignore_case(have.as_slice(), want.as_slice()) {
            assert(tags.deep_view()[i as int] == have@);
            return true;
        }
        i = i + 1;
    }
    false
}

fn passes_filter(t: &Task, f: &Filter, lists: &Option<Vec<String>>, needle: &Option<Vec<char>>) -> (r: bool)
    requires
        match needle {
            Some(n) => f@.query matches Some(q) && n@ == lowercase_of(q),
            None => f@.query is None,
        },
    ensures
        r == passes(
            t@,
            f@,
            match lists {
                Some(v) => Some(v.deep_view()),
                None => None,
            },
        ),
{
    if !f.include_done && t.status.is_done() {
        return false;
    }
    match f.status {
        Some(s) => if t.status != s {
            return false;
        },
        None => {},
    }
    match &f.list_id {
        Some(id) => if !str_eq(t.list_id.as_str(), id.as_str()) {
            return false;
        },
        None => {},
    }
    match lists {
        Some(v) => if !contains_text(v, t.list_id.as_str()) {
            return false;
        },
        None => {},
    }
    match &f.tag {
        Some(tag) => if !has_tag(&t.tags, tag.as_str()) {
            return false;
        },
        None => {},
    }
    match &f.project {
        Some(p) => {
            let same = match &t.project {
                Some(tp) => crate::bulk::same_ci(tp.as_str(), p.as_str()),
                None => false,
            };
            if !same {
                return false;
            }
        },
        None => {},
    }
    match needle {
        Some(n) => {
            let title = lowercase(t.title.as_str());
            let title_chars = chars_of(title.as_str());
            if contains(title_chars.as_slice(), n.as_slice()) {
                return true;
            }
            let notes = match &t.notes {
                Some(x) => lowercase(x.as_str()),
                None => lowercase(""),
            };
            proof {
                reveal_strlit("");
                assert(""@ =~= Seq::<char>::empty());
            }
            let notes_chars = chars_of(notes.as_str());
            contains(notes_chars.as_slice(), n.as_slice())
        },
        None => true,
    }
}

/// List the tasks that pass a filter, by list, position and age, up to the
/// limit.
pub fn find(data: &Data, filter: &Filter) -> (r: Vec<Task>)
    ensures
        views(r@) == found(data@, filter@),
{
    let needle: Option<Vec<char>> = match &filter.query {
        Some(q) => {
            let l = lowercase(q.as_str());
            Some(chars_of(l.as_str()))
        },
        None => None,
    };
    let lists = board_list_ids(data, &filter.board_id);
    let ghost lv = board_lists(data@, filter@.board_id);
    let ghost keep = |t: TaskView| passes(t, filter@, lv);
    let mut kept: Vec<Listed> = Vec::new();
    let mut i: usize = 0;
    while i < data.tasks.len()
        invariant
            i <= data.tasks@.len(),
            lv == board_lists(data@, filter@.board_id),
            lv == match lists {
                Some(v) => Some(v.deep_view()),
                None => None,
            },
            keep == (|t: TaskView| passes(t, filter@, lv)),
            match needle {
                Some(n) => filter@.query matches Some(q) && n@ == lowercase_of(q),
                None => filter@.query is None,
            },
            kept@.map_values(|l: Listed| l.task@) == data@.tasks.take(i as int).filter(keep),
        decreases data.tasks@.len() - i,
    {
        proof {
            assert(data@.tasks.take(i + 1).drop_last() =~= data@.tasks.take(i as int));
            assert(data@.tasks.take(i + 1).last() == data.tasks@[i as int]@);
            reveal(Seq::filter);
        }
        let ghost before = kept@.map_values(|l: Listed| l.task@);
        if passes_filter(&data.tasks[i], filter, &lists, &needle) {
            kept.push(Listed { task: data.tasks[i].duplicate() });
            proof {
                assert(kept@.map_values(|l: Listed| l.task@) =~= before.push(data.tasks@[i as int]@));
            }
        }
        i = i + 1;
    }
    proof {
        assert(data@.tasks.take(i as int) =~= data@.tasks);
        lemma_sorted_by_map(kept@, |l: Listed| l.task@, ranked_less::<Listed>(), find_order());
    }
    let sorted = sort_stable(kept);
    let ghost all = sorted@.map_values(|l: Listed| l.task@);
    let n = match filter.limit {
        Some(lim) => if lim < sorted.len() {
            lim
        } else {
            sorted.len()
        },
        None => sorted.len(),
    };
    let mut r: Vec<Task> = Vec::new();
    let mut k: usize = 0;
    while k < n
        invariant
            n <= sorted@.len(),
            all == sorted@.map_values(|l: Listed| l.task@),
            k <= n,
            views(r@) == all.take(k as int),
        decreases n - k,
    {
        proof {
            assert(all[k as int] == sorted@[k as int].task@);
        }
        let ghost before = views(r@);
        r.push(sorted[k].task.duplicate());
        proof {
            assert(views(r@) =~= before.push(all[k as int]));
        }
        k = k + 1;
        proof {
            assert(views(r@) =~= all.take(k as int));
        }
    }
    proof {
        if n == sorted@.len() {
            assert(all.take(n as int) =~= all);
        }
    }
    r
}

// ---------------------------------------------------------------------------
// time summaries
// ---------------------------------------------------------------------------

/// Focus time recorded against tasks.
#[derive(Debug)]
pub struct TimeSummary {
    pub total_seconds: u64,
    pub focus_sessions: usize,
    /// Seconds per task, highest first.
    pub by_task: Vec<TaskTime>,
    /// Focus time not attributed to any task.
    pub unattributed_seconds: u64,
}

/// Time recorded against one task.
#[derive(Debug)]
pub struct TaskTime {
    pub task_id: String,
    /// The task's title, if the task still exists.
    pub title: Option<String>,
    pub seconds: u64,
    pub sessions: usize,
}

pub struct TaskTimeView {
    pub task_id: Seq<char>,
    pub title: Option<Seq<char>>,
    pub seconds: u64,
    pub sessions: usize,
}

impl View for TaskTime {
    type V = TaskTimeView;

    open spec fn view(&self) -> TaskTimeView {
        TaskTimeView {
            task_id: self.task_id@,
            title: self.title.deep_view(),
            seconds: self.seconds,
            sessions: self.sessions,
        }
    }
}

/// A session the summary counts: focus (breaks are time away from the
/// work), started within the range.
pub open spec fn counted(s: SessionView, from: Option<u64>, to: Option<u64>) -> bool {
    &&& s.kind == SessionKind::Focus
    &&& from matches Some(f) ==> s.started_at >= f
    &&& to matches Some(t) ==> s.started_at <= t
}

/// Seconds of the counted sessions attributed as `who` says (`None`: to no
/// task).
pub open spec fn seconds_of(ss: Seq<SessionView>, from: Option<u64>, to: Option<u64>, who: Option<Option<Seq<char>>>) -> nat
    decreases ss.len(),
{
    if ss.len() == 0 {
        0
    } else {
        let s = ss.last();
        seconds_of(ss.drop_last(), from, to, who) + if counted(s, from, to) && (who matches Some(w) ==> s.task_id == w) {
            s.seconds as nat
        } else {
            0
        }
    }
}

/// How many counted sessions are attributed as `who` says.
pub open spec fn sessions_of(ss: Seq<SessionView>, from: Option<u64>, to: Option<u64>, who: Option<Option<Seq<char>>>) -> nat
    decreases ss.len(),
{
    if ss.len() == 0 {
        0
    } else {
        let s = ss.last();
        sessions_of(ss.drop_last(), from, to, who) + if counted(s, from, to) && (who matches Some(w) ==> s.task_id == w) {
            1nat
        } else {
            0
        }
    }
}

/// Whether some counted session is attributed to the task `id`.
pub open spec fn mentioned(ss: Seq<SessionView>, from: Option<u64>, to: Option<u64>, id: Seq<char>) -> bool {
    exists|i: int| 0 <= i < ss.len() && counted(#[trigger] ss[i], from, to) && ss[i].task_id == Some(id)
}

/// The title of the task with this id, if there is one.
pub open spec fn title_of(data: DataView, id: Seq<char>) -> Option<Seq<char>> {
    let i = find_task(data.tasks, id, 0);
    if i < data.tasks.len() {
        Some(data.tasks[i].title)
    } else {
        None
    }
}

/// Summary order: most time first, then by task id.
pub open spec fn row_less(a: TaskTimeView, b: TaskTimeView) -> bool {
    a.seconds > b.seconds || (a.seconds == b.seconds && text_less(a.task_id, b.task_id))
}

/// `rows` are the per-task totals: one for each task a counted session is
/// attributed to, nothing else, in summary order.
pub open spec fn per_task(
    rows: Seq<TaskTimeView>,
    data: DataView,
    ss: Seq<SessionView>,
    from: Option<u64>,
    to: Option<u64>,
) -> bool {
    &&& forall|i: int|
        0 <= i < rows.len() ==> {
            let r = #[trigger] rows[i];
            &&& mentioned(ss, from, to, r.task_id)
            &&& r.seconds == seconds_of(ss, from, to, Some(Some(r.task_id)))
            &&& r.sessions == sessions_of(ss, from, to, Some(Some(r.task_id)))
            &&& r.title == title_of(data, r.task_id)
        }
    &&& forall|id: Seq<char>| #[trigger] mentioned(ss, from, to, id) ==> exists|i: int| 0 <= i < rows.len() && rows[i].task_id == id
    &&& forall|i: int, j: int| 0 <= i < j < rows.len() ==> row_less(#[trigger] rows[i], #[trigger] rows[j])
}

pub proof fn lemma_seconds_prefix(ss: Seq<SessionView>, from: Option<u64>, to: Option<u64>, who: Option<Option<Seq<char>>>, i: int)
    requires
        0 <= i <= ss.len(),
    ensures
        seconds_of(ss.take(i), from, to, who) <= seconds_of(ss, from, to, None),
        seconds_of(ss, from, to, who) <= seconds_of(ss, from, to, None),
        sessions_of(ss, from, to, who) <= ss.len(),
    decreases ss.len(),
{
    if ss.len() > 0 {
        if i == ss.len() {
            assert(ss.take(i) =~= ss);
            lemma_seconds_prefix(ss.drop_last(), from, to, who, i - 1);
        } else {
            assert(ss.take(i) =~= ss.drop_last().take(i));
            lemma_seconds_prefix(ss.drop_last(), from, to, who, i);
        }
    } else {
        assert(ss.take(i) =~= ss);
    }
}

/// The row for `id` among rows with distinct ids, if any.
fn row_index(rows: &Vec<TaskTime>, id: &str) -> (r: Option<usize>)
    ensures
        match r {
            Some(k) => k < rows@.len() && rows@[k as int].task_id@ == id@,
            None => forall|k: int| 0 <= k < rows@.len() ==> rows@[k].task_id@ != id@,
        },
{
    let mut k: usize = 0;
    while k < rows.len()
        invariant
            k <= rows@.len(),
            forall|j: int| 0 <= j < k ==> rows@[j].task_id@ != id@,
        decreases rows@.len() - k,
    {
        if str_eq(rows[k].task_id.as_str(), id) {
            return Some(k);
        }
        k = k + 1;
    }
    None
}

/// Insert `x` where it belongs in summary order.
fn insert_row(r: &mut Vec<TaskTime>, x: TaskTime) -> (j: usize)
    requires
        forall|a: int, b: int| 0 <= a < b < old(r)@.len() ==> row_less(#[trigger] old(r)@[a]@, #[trigger] old(r)@[b]@),
        forall|i: int| 0 <= i < old(r)@.len() ==> (#[trigger] old(r)@[i])@.task_id != x@.task_id,
    ensures
        j <= old(r)@.len(),
        final(r)@.len() == old(r)@.len() + 1,
        forall|i: int| 0 <= i < final(r)@.len() ==> #[trigger] final(r)@[i]@ == (if i < j {
            old(r)@[i]@
        } else if i == j {
            x@
        } else {
            old(r)@[i - 1]@
        }),
        forall|a: int, b: int| 0 <= a < b < final(r)@.len() ==> row_less(#[trigger] final(r)@[a]@, #[trigger] final(r)@[b]@),
{
    let ghost v = r@.map_values(|t: TaskTime| t@);
    let mut j = r.len();
    while j > 0 && row_goes_before(&x, &r[j - 1])
        invariant
            j <= r@.len(),
            r@ == old(r)@,
            forall|l: int| j <= l < r@.len() ==> row_less(x@, #[trigger] r@[l]@),
        decreases j,
    {
        j = j - 1;
    }
    proof {
        if j > 0 {
            lemma_row_order(r@[j - 1]@, x@, x@);
        }
        assert forall|a: int, b: int| 0 <= a < b < v.insert(j as int, x@).len() implies row_less(#[trigger] v.insert(j as int, x@)[a], #[trigger] v.insert(j as int, x@)[b]) by {
            let t = v.insert(j as int, x@);
            if b < j {
                assert(t[a] == r@[a]@ && t[b] == r@[b]@);
            } else if b == j {
                assert(t[a] == r@[a]@);
                if a < j - 1 {
                    lemma_row_order(r@[a]@, r@[j - 1]@, x@);
                }
            } else if a == j {
                assert(t[b] == r@[b - 1]@);
            } else if a > j {
                assert(t[a] == r@[a - 1]@ && t[b] == r@[b - 1]@);
            } else {
                assert(t[a] == r@[a]@ && t[b] == r@[b - 1]@);
                lemma_row_order(r@[a]@, x@, r@[b - 1]@);
                lemma_row_order(r@[a]@, r@[j - 1]@, x@);
            }
        }
    }
    let ghost xv = x@;
    r.insert(j, x);
    proof {
        assert forall|a: int, b: int| 0 <= a < b < r@.len() implies row_less(#[trigger] r@[a]@, #[trigger] r@[b]@) by {
            let t = v.insert(j as int, xv);
            assert(t[a] == r@[a]@ && t[b] == r@[b]@) by {
                if a < j { assert(v[a] == old(r)@[a]@); } else if a > j { assert(v[a - 1] == old(r)@[a - 1]@); }
                if b < j { assert(v[b] == old(r)@[b]@); } else if b > j { assert(v[b - 1] == old(r)@[b - 1]@); }
            }
        }
    }
    j
}

proof fn lemma_row_order(a: TaskTimeView, b: TaskTimeView, c: TaskTimeView)
    ensures
        !row_less(a, a),
        row_less(a, b) && row_less(b, c) ==> row_less(a, c),
        a.task_id != b.task_id ==> row_less(a, b) || row_less(b, a),
{
    crate::sorting::lemma_text_less_order(a.task_id, b.task_id, c.task_id);
    crate::sorting::lemma_text_less_order(b.task_id, c.task_id, a.task_id);
    crate::sorting::lemma_text_less_order(a.task_id, c.task_id, b.task_id);
}

fn row_goes_before(a: &TaskTime, b: &TaskTime) -> (r: bool)
    ensures
        r == row_less(a@, b@),
{
    a.seconds > b.seconds || (a.seconds == b.seconds && text_lt(a.task_id.as_str(), b.task_id.as_str()))
}

fn is_counted(s: &Session, from: Option<u64>, to: Option<u64>) -> (r: bool)
    ensures
        r == counted(s@, from, to),
{
    let focus = match s.kind {
        SessionKind::Focus => true,
        _ => false,
    };
    let after_from = match from {
        Some(f) => s.started_at >= f,
        None => true,
    };
    let before_to = match to {
        Some(t) => s.started_at <= t,
        None => true,
    };
    focus && after_from && before_to
}

/// Summarise focus time, optionally within a range of start times in
/// milliseconds: the total, the number of sessions, the time per task
/// (most first), and what no task claims. Breaks are left out.
pub fn time_summary(data: &Data, sessions: &[Session], from: Option<u64>, to: Option<u64>) -> (r: TimeSummary)
    requires
        seconds_of(session_views(sessions@), from, to, None) <= u64::MAX,
    ensures
        r.total_seconds == seconds_of(session_views(sessions@), from, to, None),
        r.focus_sessions == sessions_of(session_views(sessions@), from, to, None),
        r.unattributed_seconds == seconds_of(session_views(sessions@), from, to, Some(None)),
        per_task(r.by_task@.map_values(|t: TaskTime| t@), data@, session_views(sessions@), from, to),
{
    let ghost ss = session_views(sessions@);
    let mut total: u64 = 0;
    let mut count: usize = 0;
    let mut unattributed: u64 = 0;
    let mut groups: Vec<TaskTime> = Vec::new();
    let mut i: usize = 0;
    while i < sessions.len()
        invariant
            ss == session_views(sessions@),
            seconds_of(ss, from, to, None) <= u64::MAX,
            i <= sessions@.len(),
            total == seconds_of(ss.take(i as int), from, to, None),
            count == sessions_of(ss.take(i as int), from, to, None),
            count <= i,
            unattributed == seconds_of(ss.take(i as int), from, to, Some(None)),
            forall|a: int, b: int| 0 <= a < b < groups@.len() ==> (#[trigger] groups@[a])@.task_id != (#[trigger] groups@[b])@.task_id,
            forall|k: int| 0 <= k < groups@.len() ==> {
                let g = (#[trigger] groups@[k])@;
                &&& mentioned(ss.take(i as int), from, to, g.task_id)
                &&& g.seconds == seconds_of(ss.take(i as int), from, to, Some(Some(g.task_id)))
                &&& g.sessions == sessions_of(ss.take(i as int), from, to, Some(Some(g.task_id)))
            },
            forall|id: Seq<char>| #[trigger] mentioned(ss.take(i as int), from, to, id) ==> exists|k: int| 0 <= k < groups@.len() && groups@[k]@.task_id == id,
        decreases sessions@.len() - i,
    {
        let ghost pre = ss.take(i as int);
        let ghost cur = ss.take(i + 1);
        proof {
            assert(cur.drop_last() =~= pre);
            assert(cur.last() == sessions@[i as int]@);
            lemma_seconds_prefix(ss, from, to, None, i + 1);
            lemma_seconds_prefix(cur, from, to, Some(None), i + 1);
        }
        let s = &sessions[i];
        if is_counted(s, from, to) {
            total = total + s.seconds;
            count = count + 1;
            match &s.task_id {
                None => {
                    unattributed = unattributed + s.seconds;
                    proof {
                        assert forall|k: int| 0 <= k < groups@.len() implies {
                            let g = (#[trigger] groups@[k])@;
                            &&& mentioned(cur, from, to, g.task_id)
                            &&& g.seconds == seconds_of(cur, from, to, Some(Some(g.task_id)))
                            &&& g.sessions == sessions_of(cur, from, to, Some(Some(g.task_id)))
                        } by {
                            let g = groups@[k]@;
                            let j = choose|j: int| 0 <= j < pre.len() && counted(#[trigger] pre[j], from, to) && pre[j].task_id == Some(g.task_id);
                            assert(cur[j] == pre[j]);
                        }
                        assert forall|id: Seq<char>| #[trigger] mentioned(cur, from, to, id) implies exists|k: int| 0 <= k < groups@.len() && groups@[k]@.task_id == id by {
                            let j = choose|j: int| 0 <= j < cur.len() && counted(#[trigger] cur[j], from, to) && cur[j].task_id == Some(id);
                            assert(j < i);
                            assert(pre[j] == cur[j]);
                            assert(mentioned(pre, from, to, id));
                        }
                    }
                },
                Some(id) => {
                    match row_index(&groups, id.as_str()) {
                        Some(k) => {
                            proof {
                                assert(groups@[k as int]@.seconds == seconds_of(pre, from, to, Some(Some(id@))));
                                assert(seconds_of(cur, from, to, Some(Some(id@))) == groups@[k as int]@.seconds + s.seconds);
                                lemma_seconds_prefix(cur, from, to, Some(Some(id@)), 0);
                            }
                            let g = TaskTime {
                                task_id: groups[k].task_id.clone(),
                                title: None,
                                seconds: groups[k].seconds + s.seconds,
                                sessions: groups[k].sessions + 1,
                            };
                            let ghost before = groups@;
                            groups.set(k, g);
                            proof {
                                assert forall|a: int, b: int| 0 <= a < b < groups@.len() implies (#[trigger] groups@[a])@.task_id != (#[trigger] groups@[b])@.task_id by {
                                    assert(groups@[a]@.task_id == before[a]@.task_id);
                                    assert(groups@[b]@.task_id == before[b]@.task_id);
                                }
                                assert forall|kk: int| 0 <= kk < groups@.len() implies {
                                    let g = (#[trigger] groups@[kk])@;
                                    &&& mentioned(cur, from, to, g.task_id)
                                    &&& g.seconds == seconds_of(cur, from, to, Some(Some(g.task_id)))
                                    &&& g.sessions == sessions_of(cur, from, to, Some(Some(g.task_id)))
                                } by {
                                    let g = groups@[kk]@;
                                    let j = choose|j: int| 0 <= j < pre.len() && counted(#[trigger] pre[j], from, to) && pre[j].task_id == Some(before[kk]@.task_id);
                                    assert(cur[j] == pre[j]);
                                    if kk != k {
                                        assert(before[kk]@.task_id != before[k as int]@.task_id);
                                    }
                                }
                                assert forall|x: Seq<char>| #[trigger] mentioned(cur, from, to, x) implies exists|kk: int| 0 <= kk < groups@.len() && groups@[kk]@.task_id == x by {
                                    let j = choose|j: int| 0 <= j < cur.len() && counted(#[trigger] cur[j], from, to) && cur[j].task_id == Some(x);
                                    if j < i {
                                        assert(pre[j] == cur[j]);
                                        assert(mentioned(pre, from, to, x));
                                        let kk = choose|kk: int| 0 <= kk < before.len() && before[kk]@.task_id == x;
                                        assert(groups@[kk]@.task_id == x);
                                    } else {
                                        assert(groups@[k as int]@.task_id == x);
                                    }
                                }
                            }
                        },
                        None => {
                            let g = TaskTime { task_id: id.clone(), title: None, seconds: s.seconds, sessions: 1 };
                            let ghost before = groups@;
                            groups.push(g);
                            proof {
                                assert(!mentioned(pre, from, to, id@)) by {
                                    if mentioned(pre, from, to, id@) {
                                        let kk = choose|kk: int| 0 <= kk < before.len() && before[kk]@.task_id == id@;
                                    }
                                }
                                assert(seconds_of(pre, from, to, Some(Some(id@))) == 0) by {
                                    lemma_unmentioned(pre, from, to, id@);
                                }
                                assert forall|a: int, b: int| 0 <= a < b < groups@.len() implies (#[trigger] groups@[a])@.task_id != (#[trigger] groups@[b])@.task_id by {
                                    if b == before.len() {
                                        assert(groups@[a] == before[a]);
                                    } else {
                                        assert(groups@[a] == before[a] && groups@[b] == before[b]);
                                    }
                                }
                                assert forall|kk: int| 0 <= kk < groups@.len() implies {
                                    let g = (#[trigger] groups@[kk])@;
                                    &&& mentioned(cur, from, to, g.task_id)
                                    &&& g.seconds == seconds_of(cur, from, to, Some(Some(g.task_id)))
                                    &&& g.sessions == sessions_of(cur, from, to, Some(Some(g.task_id)))
                                } by {
                                    if kk < before.len() {
                                        assert(groups@[kk] == before[kk]);
                                        let j = choose|j: int| 0 <= j < pre.len() && counted(#[trigger] pre[j], from, to) && pre[j].task_id == Some(before[kk]@.task_id);
                                        assert(cur[j] == pre[j]);
                                    } else {
                                        lemma_unmentioned(pre, from, to, id@);
                                        assert(counted(cur[i as int], from, to));
                                    }
                                }
                                assert forall|x: Seq<char>| #[trigger] mentioned(cur, from, to, x) implies exists|kk: int| 0 <= kk < groups@.len() && groups@[kk]@.task_id == x by {
                                    let j = choose|j: int| 0 <= j < cur.len() && counted(#[trigger] cur[j], from, to) && cur[j].task_id == Some(x);
                                    if j < i {
                                        assert(pre[j] == cur[j]);
                                        assert(mentioned(pre, from, to, x));
                                        let kk = choose|kk: int| 0 <= kk < before.len() && before[kk]@.task_id == x;
                                        assert(groups@[kk] == before[kk]);
                                    } else {
                                        assert(groups@[before.len() as int]@.task_id == x);
                                    }
                                }
                            }
                        },
                    }
                },
            }
        } else {
            proof {
                assert forall|k: int| 0 <= k < groups@.len() implies {
                    let g = (#[trigger] groups@[k])@;
                    &&& mentioned(cur, from, to, g.task_id)
                    &&& g.seconds == seconds_of(cur, from, to, Some(Some(g.task_id)))
                    &&& g.sessions == sessions_of(cur, from, to, Some(Some(g.task_id)))
                } by {
                    let g = groups@[k]@;
                    let j = choose|j: int| 0 <= j < pre.len() && counted(#[trigger] pre[j], from, to) && pre[j].task_id == Some(g.task_id);
                    assert(cur[j] == pre[j]);
                }
                assert forall|id: Seq<char>| #[trigger] mentioned(cur, from, to, id) implies exists|k: int| 0 <= k < groups@.len() && groups@[k]@.task_id == id by {
                    let j = choose|j: int| 0 <= j < cur.len() && counted(#[trigger] cur[j], from, to) && cur[j].task_id == Some(id);
                    assert(j < i);
                    assert(pre[j] == cur[j]);
                    assert(mentioned(pre, from, to, id));
                }
            }
        }
        i = i + 1;
    }
    proof {
        assert(ss.take(i as int) =~= ss);
    }
    let rows = order_rows(groups, Ghost(ss), from, to);
    let by_task = with_titles(data, rows, Ghost(ss), from, to);
    TimeSummary { total_seconds: total, focus_sessions: count, by_task, unattributed_seconds: unattributed }
}

proof fn lemma_unmentioned(ss: Seq<SessionView>, from: Option<u64>, to: Option<u64>, id: Seq<char>)
    requires
        !mentioned(ss, from, to, id),
    ensures
        seconds_of(ss, from, to, Some(Some(id))) == 0,
        sessions_of(ss, from, to, Some(Some(id))) == 0,
    decreases ss.len(),
{
    if ss.len() > 0 {
        assert(!mentioned(ss.drop_last(), from, to, id)) by {
            if mentioned(ss.drop_last(), from, to, id) {
                let j = choose|j: int| 0 <= j < ss.drop_last().len() && counted(#[trigger] ss.drop_last()[j], from, to) && ss.drop_last()[j].task_id == Some(id);
                assert(ss[j] == ss.drop_last()[j]);
            }
        }
        lemma_unmentioned(ss.drop_last(), from, to, id);
        assert(!(counted(ss[ss.len() - 1], from, to) && ss[ss.len() - 1].task_id == Some(id)));
    }
}

/// The same task, time and count.
pub open spec fn same_row(a: TaskTimeView, b: TaskTimeView) -> bool {
    a.task_id == b.task_id && a.seconds == b.seconds && a.sessions == b.sessions
}

/// The rows in summary order.
fn order_rows(groups: Vec<TaskTime>, Ghost(ss): Ghost<Seq<SessionView>>, from: Option<u64>, to: Option<u64>) -> (r: Vec<TaskTime>)
    requires
        forall|a: int, b: int| 0 <= a < b < groups@.len() ==> (#[trigger] groups@[a])@.task_id != (#[trigger] groups@[b])@.task_id,
        forall|k: int| 0 <= k < groups@.len() ==> {
            let g = (#[trigger] groups@[k])@;
            &&& mentioned(ss, from, to, g.task_id)
            &&& g.seconds == seconds_of(ss, from, to, Some(Some(g.task_id)))
            &&& g.sessions == sessions_of(ss, from, to, Some(Some(g.task_id)))
        },
        forall|id: Seq<char>| #[trigger] mentioned(ss, from, to, id) ==> exists|k: int| 0 <= k < groups@.len() && groups@[k]@.task_id == id,
    ensures
        forall|k: int| 0 <= k < r@.len() ==> {
            let g = (#[trigger] r@[k])@;
            &&& mentioned(ss, from, to, g.task_id)
            &&& g.seconds == seconds_of(ss, from, to, Some(Some(g.task_id)))
            &&& g.sessions == sessions_of(ss, from, to, Some(Some(g.task_id)))
        },
        forall|id: Seq<char>| #[trigger] mentioned(ss, from, to, id) ==> exists|k: int| 0 <= k < r@.len() && r@[k]@.task_id == id,
        forall|a: int, b: int| 0 <= a < b < r@.len() ==> row_less(#[trigger] r@[a]@, #[trigger] r@[b]@),
{
    let n = groups.len();
    let mut r: Vec<TaskTime> = Vec::new();
    let mut k: usize = 0;
    let ghost mut src: Seq<int> = Seq::empty();
    let ghost mut pos: Seq<int> = Seq::empty();
    while k < n
        invariant
            n == groups@.len(),
            k <= n,
            forall|a: int, b: int| 0 <= a < b < groups@.len() ==> (#[trigger] groups@[a])@.task_id != (#[trigger] groups@[b])@.task_id,
            src.len() == r@.len(),
            pos.len() == k,
            forall|i: int| 0 <= i < r@.len() ==> 0 <= #[trigger] src[i] < k && same_row(r@[i]@, groups@[src[i]]@),
            forall|j: int| 0 <= j < k ==> 0 <= #[trigger] pos[j] < r@.len() && same_row(r@[pos[j]]@, groups@[j]@),
            forall|a: int, b: int| 0 <= a < b < r@.len() ==> row_less(#[trigger] r@[a]@, #[trigger] r@[b]@),
        decreases n - k,
    {
        let x = TaskTime {
            task_id: groups[k].task_id.clone(),
            title: None,
            seconds: groups[k].seconds,
            sessions: groups[k].sessions,
        };
        proof {
            assert forall|i: int| 0 <= i < r@.len() implies (#[trigger] r@[i])@.task_id != x@.task_id by {
                assert(src[i] < k);
                assert(groups@[src[i]]@.task_id != groups@[k as int]@.task_id);
            }
        }
        let ghost old_r = r@;
        let ghost xv = x@;
        let j = insert_row(&mut r, x);
        proof {
            let s2 = src.insert(j as int, k as int);
            let p2 = Seq::new(pos.len(), |jj: int| if pos[jj] >= j { pos[jj] + 1 } else { pos[jj] }).push(j as int);
            assert forall|i: int| 0 <= i < r@.len() implies 0 <= #[trigger] s2[i] < k + 1 && same_row(r@[i]@, groups@[s2[i]]@) by {
                if i < j {
                    assert(s2[i] == src[i]);
                } else if i > j {
                    assert(s2[i] == src[i - 1]);
                }
            }
            assert forall|jj: int| 0 <= jj < k + 1 implies 0 <= #[trigger] p2[jj] < r@.len() && same_row(r@[p2[jj]]@, groups@[jj]@) by {
                if jj < k {
                    if pos[jj] >= j {
                        assert(r@[pos[jj] + 1]@ == old_r[pos[jj]]@);
                    } else {
                        assert(r@[pos[jj]]@ == old_r[pos[jj]]@);
                    }
                }
            }
            src = s2;
            pos = p2;
        }
        k = k + 1;
    }
    proof {
        assert forall|kk: int| 0 <= kk < r@.len() implies {
            let g = (#[trigger] r@[kk])@;
            &&& mentioned(ss, from, to, g.task_id)
            &&& g.seconds == seconds_of(ss, from, to, Some(Some(g.task_id)))
            &&& g.sessions == sessions_of(ss, from, to, Some(Some(g.task_id)))
        } by {
            assert(same_row(r@[kk]@, groups@[src[kk]]@));
        }
        assert forall|id: Seq<char>| #[trigger] mentioned(ss, from, to, id) implies exists|kk: int| 0 <= kk < r@.len() && r@[kk]@.task_id == id by {
            let g = choose|g: int| 0 <= g < groups@.len() && groups@[g]@.task_id == id;
            assert(same_row(r@[pos[g]]@, groups@[g]@));
        }
    }
    r
}

/// The rows with each task's title.
fn with_titles(data: &Data, rows: Vec<TaskTime>, Ghost(ss): Ghost<Seq<SessionView>>, from: Option<u64>, to: Option<u64>) -> (r: Vec<TaskTime>)
    requires
        forall|k: int| 0 <= k < rows@.len() ==> {
            let g = (#[trigger] rows@[k])@;
            &&& mentioned(ss, from, to, g.task_id)
            &&& g.seconds == seconds_of(ss, from, to, Some(Some(g.task_id)))
            &&& g.sessions == sessions_of(ss, from, to, Some(Some(g.task_id)))
        },
        forall|id: Seq<char>| #[trigger] mentioned(ss, from, to, id) ==> exists|k: int| 0 <= k < rows@.len() && rows@[k]@.task_id == id,
        forall|a: int, b: int| 0 <= a < b < rows@.len() ==> row_less(#[trigger] rows@[a]@, #[trigger] rows@[b]@),
    ensures
        per_task(r@.map_values(|t: TaskTime| t@), data@, ss, from, to),
{
    let mut r: Vec<TaskTime> = Vec::new();
    let mut k: usize = 0;
    while k < rows.len()
        invariant
            k <= rows@.len(),
            r@.len() == k,
            forall|i: int| 0 <= i < k ==> (#[trigger] r@[i])@ == (TaskTimeView { title: title_of(data@, rows@[i]@.task_id), ..rows@[i]@ }),
        decreases rows@.len() - k,
    {
        let title = match data.task(rows[k].task_id.as_str()) {
            Some(t) => Some(t.title.clone()),
            None => None,
        };
        r.push(TaskTime { task_id: rows[k].task_id.clone(), title, seconds: rows[k].seconds, sessions: rows[k].sessions });
        k = k + 1;
    }
    proof {
        let v = r@.map_values(|t: TaskTime| t@);
        assert forall|i: int| 0 <= i < v.len() implies v[i] == (TaskTimeView { title: title_of(data@, rows@[i]@.task_id), ..rows@[i]@ }) by {}
        assert forall|id: Seq<char>| #[trigger] mentioned(ss, from, to, id) implies exists|i: int| 0 <= i < v.len() && v[i].task_id == id by {
            let kk = choose|kk: int| 0 <= kk < rows@.len() && rows@[kk]@.task_id == id;
            assert(v[kk].task_id == id);
        }
        assert forall|a: int, b: int| 0 <= a < b < v.len() implies row_less(#[trigger] v[a], #[trigger] v[b]) by {
            assert(row_less(rows@[a]@, rows@[b]@));
        }
    }
    r
}

/// The focus seconds a summary would count, in full.
pub fn focus_total(sessions: &[Session], from: Option<u64>, to: Option<u64>) -> (r: u128)
    ensures
        r == seconds_of(session_views(sessions@), from, to, None),
{
    let ghost ss = session_views(sessions@);
    let mut total: u128 = 0;
    let mut i: usize = 0;
    while i < sessions.len()
        invariant
            ss == session_views(sessions@),
            i <= sessions@.len(),
            total == seconds_of(ss.take(i as int), from, to, None),
            total <= i * 0xffff_ffff_ffff_ffff,
        decreases sessions@.len() - i,
    {
        proof {
            assert(ss.take(i + 1).drop_last() =~= ss.take(i as int));
            assert(ss.take(i + 1).last() == sessions@[i as int]@);
        }
        if is_counted(&sessions[i], from, to) {
            total = total + sessions[i].seconds as u128;
        }
        i = i + 1;
    }
    proof {
        assert(ss.take(i as int) =~= ss);
    }
    total
}

/// `time_summary` where its total fits in a `u64`, and `None` where it
/// does not.
pub fn checked_time_summary(data: &Data, sessions: &[Session], from: Option<u64>, to: Option<u64>) -> (r: Option<TimeSummary>)
    ensures
        match r {
            Some(t) => seconds_of(session_views(sessions@), from, to, None) <= u64::MAX
                && t.total_seconds == seconds_of(session_views(sessions@), from, to, None)
                && t.focus_sessions == sessions_of(session_views(sessions@), from, to, None)
                && t.unattributed_seconds == seconds_of(session_views(sessions@), from, to, Some(None))
                && per_task(t.by_task@.map_values(|x: TaskTime| x@), data@, session_views(sessions@), from, to),
            None => seconds_of(session_views(sessions@), from, to, None) > u64::MAX,
        },
{
    if focus_total(sessions, from, to) > 0xffff_ffff_ffff_ffff {
        return None;
    }
    Some(time_summary(data, sessions, from, to))
}

} // verus!
