//! The data a task store holds, and every change that can be made to it.
//!
//! Files are someone else's business: the store on disk is read into a
//! `Data`, one of the operations here is applied, and `record_changes` says
//! which task records must be appended to the log. Replaying that log with
//! `replay` gives the data back.

use vstd::prelude::*;

use crate::dates::{weekday, weekday_of};
use crate::model::{copy_strings, Board, BoardView, List, ListView, Status, Task, TaskView};
use crate::sorting::{sort_stable, sorted, Ranked};
use crate::text::{str_eq, trim, trim_str};

verus! {

// ---------------------------------------------------------------------------
// settings
// ---------------------------------------------------------------------------

/// User preferences, kept alongside the data so there is one file to move.
#[derive(Debug)]
pub struct Settings {
    /// Focus sessions aimed for each day.
    pub daily_focus_goal: u32,
    /// Days a completed task stays visible before it drops out of the views.
    pub hide_completed_after_days: u32,
    /// Days of the week that count as working days, 0 = Sunday.
    pub working_days: Vec<u8>,
    /// Individual dates that are not working days, `YYYY-MM-DD`.
    pub holidays: Vec<String>,
    /// Minutes of silence on a working day before a reminder; 0 turns it off.
    pub idle_nudge_minutes: u32,
}

pub struct SettingsView {
    pub daily_focus_goal: u32,
    pub hide_completed_after_days: u32,
    pub working_days: Seq<u8>,
    pub holidays: Seq<Seq<char>>,
    pub idle_nudge_minutes: u32,
}

impl View for Settings {
    type V = SettingsView;

    open spec fn view(&self) -> SettingsView {
        SettingsView {
            daily_focus_goal: self.daily_focus_goal,
            hide_completed_after_days: self.hide_completed_after_days,
            working_days: self.working_days@,
            holidays: self.holidays.deep_view(),
            idle_nudge_minutes: self.idle_nudge_minutes,
        }
    }
}

pub fn default_working_days() -> (r: Vec<u8>)
    ensures
        r@ == seq![1u8, 2, 3, 4, 5],
{
    let mut r: Vec<u8> = Vec::new();
    r.push(1);
    r.push(2);
    r.push(3);
    r.push(4);
    r.push(5);
    assert(r@ =~= seq![1u8, 2, 3, 4, 5]);
    r
}

pub fn default_hide_completed_after_days() -> (r: u32)
    ensures
        r == 2,
{
    2
}

pub fn default_idle_nudge_minutes() -> (r: u32)
    ensures
        r == 60,
{
    60
}

pub open spec fn default_settings() -> SettingsView {
    SettingsView {
        daily_focus_goal: 4,
        hide_completed_after_days: 2,
        working_days: seq![1u8, 2, 3, 4, 5],
        holidays: Seq::empty(),
        idle_nudge_minutes: 60,
    }
}

impl Default for Settings {
    /// Four twenty-five minute sessions a day, Monday to Friday.
    fn default() -> (r: Self)
        ensures
            r@ == default_settings(),
    {
        let r = Settings {
            daily_focus_goal: 4,
            hide_completed_after_days: default_hide_completed_after_days(),
            working_days: default_working_days(),
            holidays: Vec::new(),
            idle_nudge_minutes: default_idle_nudge_minutes(),
        };
        assert(r.holidays.deep_view() =~= Seq::<Seq<char>>::empty());
        r
    }
}

/// Whether work would ordinarily be expected on a date: not a holiday, and
/// a working weekday (an unreadable date is not a day off).
pub open spec fn working_day(settings: SettingsView, date: Seq<char>) -> bool {
    &&& !(exists|i: int| 0 <= i < settings.holidays.len() && trim(#[trigger] settings.holidays[i]) == date)
    &&& match weekday_of(date) {
        Some(d) => settings.working_days.contains(d),
        None => true,
    }
}

impl Settings {
    pub fn duplicate(&self) -> (r: Settings)
        ensures
            r@ == self@,
    {
        let mut days: Vec<u8> = Vec::new();
        let mut i: usize = 0;
        while i < self.working_days.len()
            invariant
                i <= self.working_days@.len(),
                days@ == self.working_days@.take(i as int),
            decreases self.working_days@.len() - i,
        {
            days.push(self.working_days[i]);
            i = i + 1;
            assert(days@ =~= self.working_days@.take(i as int));
        }
        assert(self.working_days@.take(i as int) =~= self.working_days@);
        Settings {
            daily_focus_goal: self.daily_focus_goal,
            hide_completed_after_days: self.hide_completed_after_days,
            working_days: days,
            holidays: copy_strings(&self.holidays),
            idle_nudge_minutes: self.idle_nudge_minutes,
        }
    }

    /// Whether work would ordinarily be expected on this date.
    pub fn is_working_day(&self, date: &str) -> (r: bool)
        ensures
            r == working_day(self@, date@),
    {
        let mut i: usize = 0;
        while i < self.holidays.len()
            invariant
                i <= self.holidays@.len(),
                forall|j: int| 0 <= j < i ==> trim(#[trigger] self@.holidays[j]) != date@,
            decreases self.holidays@.len() - i,
        {
            let h = trim_str(self.holidays[i].as_str());
            if str_eq(h.as_str(), date) {
                assert(self@.holidays[i as int] == self.holidays@[i as int]@);
                assert(trim(self@.holidays[i as int]) == date@);
                return false;
            }
            i = i + 1;
        }
        match weekday(date) {
            Some(day) => {
                let mut k: usize = 0;
                while k < self.working_days.len()
                    invariant
                        k <= self.working_days@.len(),
                        forall|j: int| 0 <= j < k ==> self.working_days@[j] != day,
                        forall|j: int| 0 <= j < self@.holidays.len() ==> trim(#[trigger] self@.holidays[j]) != date@,
                        weekday_of(date@) == Some(day),
                    decreases self.working_days@.len() - k,
                {
                    if self.working_days[k] == day {
                        assert(self@.working_days[k as int] == day);
                        return true;
                    }
                    k = k + 1;
                }
                false
            },
            None => true,
        }
    }
}

// ---------------------------------------------------------------------------
// the data
// ---------------------------------------------------------------------------

/// Boards, tasks, the revision and the settings.
#[derive(Debug)]
pub struct Data {
    pub boards: Vec<Board>,
    pub tasks: Vec<Task>,
    /// Bumped on every write, so a reader can tell whether it has stale data.
    pub revision: u64,
    pub settings: Settings,
}

pub struct DataView {
    pub boards: Seq<BoardView>,
    pub tasks: Seq<TaskView>,
    pub revision: u64,
    pub settings: SettingsView,
}

impl View for Data {
    type V = DataView;

    open spec fn view(&self) -> DataView {
        DataView {
            boards: self.boards@.map_values(|b: Board| b@),
            tasks: self.tasks@.map_values(|t: Task| t@),
            revision: self.revision,
            settings: self.settings@,
        }
    }
}

/// The first index at or after `i` of a task with this id, or the length.
pub open spec fn find_task(tasks: Seq<TaskView>, id: Seq<char>, i: int) -> int
    decreases tasks.len() - i,
{
    if i >= tasks.len() {
        tasks.len() as int
    } else if tasks[i].id == id {
        i
    } else {
        find_task(tasks, id, i + 1)
    }
}

/// The first index at or after `i` of a board with this id, or the length.
pub open spec fn find_board(boards: Seq<BoardView>, id: Seq<char>, i: int) -> int
    decreases boards.len() - i,
{
    if i >= boards.len() {
        boards.len() as int
    } else if boards[i].id == id {
        i
    } else {
        find_board(boards, id, i + 1)
    }
}

/// The first index at or after `i` of a list with this id, or the length.
pub open spec fn find_list(lists: Seq<ListView>, id: Seq<char>, i: int) -> int
    decreases lists.len() - i,
{
    if i >= lists.len() {
        lists.len() as int
    } else if lists[i].id == id {
        i
    } else {
        find_list(lists, id, i + 1)
    }
}

/// The first index at or after `i` of a board holding a list with this id.
pub open spec fn find_board_of_list(boards: Seq<BoardView>, list_id: Seq<char>, i: int) -> int
    decreases boards.len() - i,
{
    if i >= boards.len() {
        boards.len() as int
    } else if find_list(boards[i].lists, list_id, 0) < boards[i].lists.len() {
        i
    } else {
        find_board_of_list(boards, list_id, i + 1)
    }
}

/// The list with this id: in the first board holding one, the first of them.
pub open spec fn list_of(data: DataView, list_id: Seq<char>) -> Option<ListView> {
    let b = find_board_of_list(data.boards, list_id, 0);
    if b < data.boards.len() {
        Some(data.boards[b].lists[find_list(data.boards[b].lists, list_id, 0)])
    } else {
        None
    }
}

pub proof fn lemma_find_task(tasks: Seq<TaskView>, id: Seq<char>, i: int)
    requires
        0 <= i <= tasks.len(),
    ensures
        i <= find_task(tasks, id, i) <= tasks.len(),
        find_task(tasks, id, i) < tasks.len() ==> tasks[find_task(tasks, id, i)].id == id,
        forall|j: int| i <= j < find_task(tasks, id, i) ==> #[trigger] tasks[j].id != id,
    decreases tasks.len() - i,
{
    if i < tasks.len() && tasks[i].id != id {
        lemma_find_task(tasks, id, i + 1);
    }
}

pub proof fn lemma_find_list(lists: Seq<ListView>, id: Seq<char>, i: int)
    requires
        0 <= i <= lists.len(),
    ensures
        i <= find_list(lists, id, i) <= lists.len(),
        find_list(lists, id, i) < lists.len() ==> lists[find_list(lists, id, i)].id == id,
        forall|j: int| i <= j < find_list(lists, id, i) ==> #[trigger] lists[j].id != id,
    decreases lists.len() - i,
{
    if i < lists.len() && lists[i].id != id {
        lemma_find_list(lists, id, i + 1);
    }
}

pub proof fn lemma_find_board(boards: Seq<BoardView>, id: Seq<char>, i: int)
    requires
        0 <= i <= boards.len(),
    ensures
        i <= find_board(boards, id, i) <= boards.len(),
        find_board(boards, id, i) < boards.len() ==> boards[find_board(boards, id, i)].id == id,
    decreases boards.len() - i,
{
    if i < boards.len() && boards[i].id != id {
        lemma_find_board(boards, id, i + 1);
    }
}

pub proof fn lemma_find_board_of_list(boards: Seq<BoardView>, id: Seq<char>, i: int)
    requires
        0 <= i <= boards.len(),
    ensures
        i <= find_board_of_list(boards, id, i) <= boards.len(),
        find_board_of_list(boards, id, i) < boards.len() ==> find_list(
            boards[find_board_of_list(boards, id, i)].lists,
            id,
            0,
        ) < boards[find_board_of_list(boards, id, i)].lists.len(),
    decreases boards.len() - i,
{
    if i < boards.len() && !(find_list(boards[i].lists, id, 0) < boards[i].lists.len()) {
        lemma_find_board_of_list(boards, id, i + 1);
    }
}

/// Where a task sits in display order: its list position, then its age.
pub struct ListSlot {
    pub order: u32,
    pub created_at: u64,
    pub index: usize,
}

impl Ranked for ListSlot {
    open spec fn before(&self, other: &Self) -> bool {
        self.order < other.order || (self.order == other.order && self.created_at
            < other.created_at)
    }

    fn goes_before(&self, other: &Self) -> (r: bool) {
        self.order < other.order || (self.order == other.order && self.created_at
            < other.created_at)
    }
}

/// The slots of the first `n` tasks that sit in this list, in data order.
pub open spec fn list_slots(tasks: Seq<TaskView>, list_id: Seq<char>, n: int) -> Seq<ListSlot>
    decreases n,
{
    if n <= 0 {
        Seq::empty()
    } else if tasks[n - 1].list_id == list_id {
        list_slots(tasks, list_id, n - 1).push(
            ListSlot {
                order: tasks[n - 1].order,
                created_at: tasks[n - 1].created_at,
                index: (n - 1) as usize,
            },
        )
    } else {
        list_slots(tasks, list_id, n - 1)
    }
}

/// Indices of the tasks in a list, in display order: by `order`, then by
/// creation time, ties kept in data order.
pub open spec fn list_order(tasks: Seq<TaskView>, list_id: Seq<char>) -> Seq<int> {
    sorted(list_slots(tasks, list_id, tasks.len() as int)).map_values(|s: ListSlot| s.index as int)
}

proof fn lemma_list_slots_indices(tasks: Seq<TaskView>, list_id: Seq<char>, n: int)
    requires
        0 <= n <= tasks.len(),
        tasks.len() <= usize::MAX,
    ensures
        forall|k: int|
            0 <= k < list_slots(tasks, list_id, n).len() ==> {
                let s = #[trigger] list_slots(tasks, list_id, n)[k];
                &&& 0 <= s.index < n
                &&& tasks[s.index as int].list_id == list_id
                &&& s.order == tasks[s.index as int].order
                &&& s.created_at == tasks[s.index as int].created_at
            },
    decreases n,
{
    if n > 0 {
        lemma_list_slots_indices(tasks, list_id, n - 1);
        let prev = list_slots(tasks, list_id, n - 1);
        let cur = list_slots(tasks, list_id, n);
        assert forall|k: int| 0 <= k < cur.len() implies {
            let s = #[trigger] cur[k];
            &&& 0 <= s.index < n
            &&& tasks[s.index as int].list_id == list_id
            &&& s.order == tasks[s.index as int].order
            &&& s.created_at == tasks[s.index as int].created_at
        } by {
            if k < prev.len() {
                assert(cur[k] == prev[k]);
            }
        }
    }
}

/// The slots of a list come in data order, so no index repeats.
proof fn lemma_list_slots_increasing(tasks: Seq<TaskView>, list_id: Seq<char>, n: int)
    requires
        0 <= n <= tasks.len(),
        tasks.len() <= usize::MAX,
    ensures
        forall|a: int, b: int|
            0 <= a < b < list_slots(tasks, list_id, n).len() ==> (#[trigger] list_slots(
                tasks,
                list_id,
                n,
            )[a]).index < (#[trigger] list_slots(tasks, list_id, n)[b]).index,
    decreases n,
{
    if n > 0 {
        lemma_list_slots_increasing(tasks, list_id, n - 1);
        lemma_list_slots_indices(tasks, list_id, n - 1);
        let prev = list_slots(tasks, list_id, n - 1);
        let cur = list_slots(tasks, list_id, n);
        assert forall|a: int, b: int| 0 <= a < b < cur.len() implies (#[trigger] cur[a]).index
            < (#[trigger] cur[b]).index by {
            assert(cur[a] == prev[a]);
            if b < prev.len() {
                assert(cur[b] == prev[b]);
            }
        }
    }
}

/// Display order names each task of the list at most once, and only tasks
/// of that list.
pub proof fn lemma_list_order_distinct(tasks: Seq<TaskView>, list_id: Seq<char>)
    requires
        tasks.len() <= usize::MAX,
    ensures
        list_order(tasks, list_id).no_duplicates(),
        forall|m: int|
            0 <= m < list_order(tasks, list_id).len() ==> {
                let i = #[trigger] list_order(tasks, list_id)[m];
                &&& 0 <= i < tasks.len()
                &&& tasks[i].list_id == list_id
            },
{
    let n = tasks.len() as int;
    let slots = list_slots(tasks, list_id, n);
    lemma_list_slots_increasing(tasks, list_id, n);
    lemma_list_slots_indices(tasks, list_id, n);
    assert forall|a: int, b: int| 0 <= a < slots.len() && 0 <= b < slots.len() && a != b implies slots[a]
        != slots[b] by {
        if a < b {
            assert(slots[a].index < slots[b].index);
        } else {
            assert(slots[b].index < slots[a].index);
        }
    }
    crate::sorting::lemma_sorted_permutes(slots);
    crate::sorting::lemma_sorted_len(slots);
    let q = sorted(slots);
    let order = list_order(tasks, list_id);
    assert forall|m: int| 0 <= m < order.len() implies {
        let i = #[trigger] order[m];
        &&& 0 <= i < tasks.len()
        &&& tasks[i].list_id == list_id
    } by {
        assert(q.contains(q[m]));
        assert(slots.contains(q[m]));
        let a = choose|a: int| 0 <= a < slots.len() && slots[a] == q[m];
        assert(order[m] == q[m].index as int);
    }
    assert forall|x: int, y: int| 0 <= x < order.len() && 0 <= y < order.len() && x != y implies order[x]
        != order[y] by {
        assert(q.contains(q[x]));
        assert(q.contains(q[y]));
        assert(slots.contains(q[x]));
        assert(slots.contains(q[y]));
        assert(order[x] == q[x].index as int);
        assert(order[y] == q[y].index as int);
        let a = choose|a: int| 0 <= a < slots.len() && slots[a] == q[x];
        let b = choose|b: int| 0 <= b < slots.len() && slots[b] == q[y];
        assert(q[x] != q[y]);
        if a < b {
            assert(slots[a].index < slots[b].index);
        } else if b < a {
            assert(slots[b].index < slots[a].index);
        }
    }
}

pub proof fn lemma_tasks_view_update(s: Seq<Task>, i: int)
    requires
        0 <= i < s.len(),
    ensures
        forall|t: Task|
            (#[trigger] s.update(i, t)).map_values(|x: Task| x@) == s.map_values(|x: Task| x@).update(i, t@),
{
    assert forall|t: Task| (#[trigger] s.update(i, t)).map_values(|x: Task| x@) == s.map_values(|x: Task| x@).update(i, t@) by {
        assert(s.update(i, t).map_values(|x: Task| x@) =~= s.map_values(|x: Task| x@).update(i, t@));
    }
}

pub proof fn lemma_sorted_members<T: Ranked>(s: Seq<T>)
    ensures
        crate::sorting::sorted(s).len() == s.len(),
        forall|k: int|
            0 <= k < s.len() ==> exists|j: int| 0 <= j < s.len() && #[trigger] crate::sorting::sorted(s)[k] == s[j],
    decreases s.len(),
{
    crate::sorting::lemma_sorted_len(s);
    if s.len() > 0 {
        lemma_sorted_members(s.drop_last());
        let p = crate::sorting::sorted(s.drop_last());
        crate::sorting::lemma_sorted_len(s.drop_last());
        let x = s.last();
        let q = crate::sorting::sorted(s);
        assert forall|k: int| 0 <= k < s.len() implies exists|j: int| 0 <= j < s.len() && #[trigger] q[k] == s[j] by {
            let sl = crate::sorting::slot(p, x);
            crate::sorting::lemma_slot_bounds_pub(p, x);
            if k < sl {
                assert(q[k] == p[k]);
                let j = choose|j: int| 0 <= j < s.drop_last().len() && p[k] == s.drop_last()[j];
                assert(q[k] == s[j]);
            } else if k == sl {
                assert(q[k] == x);
                assert(q[k] == s[s.len() - 1]);
            } else {
                assert(q[k] == p[k - 1]);
                let j = choose|j: int| 0 <= j < s.drop_last().len() && p[k - 1] == s.drop_last()[j];
                assert(q[k] == s[j]);
            }
        }
    }
}

impl Data {
    /// The store a brand-new install starts with: one board called Tasks with
    /// the default lists, no tasks, revision 1 and default settings.
    pub fn seeded() -> (r: Data)
        ensures
            r@.boards.len() == 1,
            r@.boards[0].name == seq!['T', 'a', 's', 'k', 's'],
            r@.boards[0].order == 0,
            r@.boards[0].lists.len() == 3,
            r@.boards[0].lists[0].status == Some(Status::Todo),
            r@.boards[0].lists[1].status == Some(Status::Doing),
            r@.boards[0].lists[2].status == Some(Status::Done),
            r@.boards[0].lists[0].order == 0,
            r@.boards[0].lists[1].order == 1,
            r@.boards[0].lists[2].order == 2,
            r@.tasks.len() == 0,
            r@.revision == 1,
            r@.settings == default_settings(),
    {
        let name = tasks_word();
        let board = Board::with_default_lists(name, 0);
        let mut boards: Vec<Board> = Vec::new();
        boards.push(board);
        let r = Data { boards, tasks: Vec::new(), revision: 1, settings: Settings::default() };
        proof {
            assert(trim(seq!['T', 'a', 's', 'k', 's']) =~= seq!['T', 'a', 's', 'k', 's']) by {
                reveal_with_fuel(crate::text::trim_start, 2);
                reveal_with_fuel(crate::text::trim_end, 2);
            }
        }
        r
    }

    /// Index of the first board with this id.
    pub fn board_index(&self, id: &str) -> (r: Option<usize>)
        ensures
            match r {
                Some(i) => i == find_board(self@.boards, id@, 0) && i < self@.boards.len(),
                None => find_board(self@.boards, id@, 0) == self@.boards.len(),
            },
    {
        let mut i: usize = 0;
        while i < self.boards.len()
            invariant
                i <= self.boards@.len(),
                find_board(self@.boards, id@, i as int) == find_board(self@.boards, id@, 0),
            decreases self.boards@.len() - i,
        {
            if str_eq(self.boards[i].id.as_str(), id) {
                return Some(i);
            }
            i = i + 1;
        }
        None
    }

    pub fn board(&self, id: &str) -> (r: Option<&Board>)
        ensures
            match r {
                Some(b) => find_board(self@.boards, id@, 0) < self@.boards.len() && b@
                    == self@.boards[find_board(self@.boards, id@, 0)],
                None => find_board(self@.boards, id@, 0) == self@.boards.len(),
            },
    {
        let mut i: usize = 0;
        while i < self.boards.len()
            invariant
                i <= self.boards@.len(),
                find_board(self@.boards, id@, i as int) == find_board(self@.boards, id@, 0),
            decreases self.boards@.len() - i,
        {
            if str_eq(self.boards[i].id.as_str(), id) {
                return Some(&self.boards[i]);
            }
            i = i + 1;
        }
        None
    }

    /// Index of the first board holding a list with this id.
    pub fn board_index_of_list(&self, list_id: &str) -> (r: Option<usize>)
        ensures
            match r {
                Some(i) => i == find_board_of_list(self@.boards, list_id@, 0) && i < self@.boards.len(),
                None => find_board_of_list(self@.boards, list_id@, 0) == self@.boards.len(),
            },
    {
        let mut i: usize = 0;
        while i < self.boards.len()
            invariant
                i <= self.boards@.len(),
                find_board_of_list(self@.boards, list_id@, i as int) == find_board_of_list(
                    self@.boards,
                    list_id@,
                    0,
                ),
            decreases self.boards@.len() - i,
        {
            if list_index(&self.boards[i], list_id).is_some() {
                return Some(i);
            }
            i = i + 1;
        }
        None
    }

    /// The board a list belongs to.
    pub fn board_of_list(&self, list_id: &str) -> (r: Option<&Board>)
        ensures
            match r {
                Some(b) => find_board_of_list(self@.boards, list_id@, 0) < self@.boards.len() && b@
                    == self@.boards[find_board_of_list(self@.boards, list_id@, 0)],
                None => find_board_of_list(self@.boards, list_id@, 0) == self@.boards.len(),
            },
    {
        match self.board_index_of_list(list_id) {
            Some(i) => Some(&self.boards[i]),
            None => None,
        }
    }

    pub fn list(&self, list_id: &str) -> (r: Option<&List>)
        ensures
            match r {
                Some(l) => list_of(self@, list_id@) == Some(l@),
                None => list_of(self@, list_id@) is None,
            },
    {
        match self.board_index_of_list(list_id) {
            Some(b) => {
                proof {
                    lemma_find_board_of_list(self@.boards, list_id@, 0);
                }
                match list_index(&self.boards[b], list_id) {
                    Some(k) => Some(&self.boards[b].lists[k]),
                    None => None,
                }
            },
            None => None,
        }
    }

    /// Index of the first task with this id.
    pub fn task_index(&self, id: &str) -> (r: Option<usize>)
        ensures
            match r {
                Some(i) => i == find_task(self@.tasks, id@, 0) && i < self@.tasks.len(),
                None => find_task(self@.tasks, id@, 0) == self@.tasks.len(),
            },
    {
        let mut i: usize = 0;
        while i < self.tasks.len()
            invariant
                i <= self.tasks@.len(),
                find_task(self@.tasks, id@, i as int) == find_task(self@.tasks, id@, 0),
            decreases self.tasks@.len() - i,
        {
            if str_eq(self.tasks[i].id.as_str(), id) {
                return Some(i);
            }
            i = i + 1;
        }
        None
    }

    /// The first task with this id.
    pub fn task(&self, id: &str) -> (r: Option<&Task>)
        ensures
            match r {
                Some(t) => find_task(self@.tasks, id@, 0) < self@.tasks.len() && t@
                    == self@.tasks[find_task(self@.tasks, id@, 0)],
                None => find_task(self@.tasks, id@, 0) == self@.tasks.len(),
            },
    {
        match self.task_index(id) {
            Some(i) => Some(&self.tasks[i]),
            None => None,
        }
    }

    /// The first task with this id, to change in place.
    pub fn task_mut(&mut self, id: &str) -> (r: Option<&mut Task>)
        ensures
            match r {
                Some(t) => {
                    let i = find_task(old(self)@.tasks, id@, 0);
                    &&& i < old(self)@.tasks.len()
                    &&& t@ == old(self)@.tasks[i]
                    &&& final(self)@ == (DataView {
                        tasks: old(self)@.tasks.update(i, final(t)@),
                        ..old(self)@
                    })
                },
                None => find_task(old(self)@.tasks, id@, 0) == old(self)@.tasks.len()
                    && final(self)@ == old(self)@,
            },
    {
        match self.task_index(id) {
            Some(i) => {
                proof {
                    lemma_tasks_view_update(self.tasks@, i as int);
                }
                Some(&mut self.tasks[i])
            },
            None => None,
        }
    }

    /// Indices of the tasks in a list, in display order.
    fn list_positions(&self, list_id: &str) -> (r: Vec<usize>)
        ensures
            r@.len() == list_order(self@.tasks, list_id@).len(),
            forall|k: int| 0 <= k < r@.len() ==> r@[k] as int == #[trigger] list_order(self@.tasks, list_id@)[k],
            forall|k: int| 0 <= k < r@.len() ==> #[trigger] r@[k] < self@.tasks.len()
                && self@.tasks[r@[k] as int].list_id == list_id@,
    {
        let mut slots: Vec<ListSlot> = Vec::new();
        let mut i: usize = 0;
        while i < self.tasks.len()
            invariant
                i <= self.tasks@.len(),
                slots@ == list_slots(self@.tasks, list_id@, i as int),
            decreases self.tasks@.len() - i,
        {
            if str_eq(self.tasks[i].list_id.as_str(), list_id) {
                slots.push(
                    ListSlot { order: self.tasks[i].order, created_at: self.tasks[i].created_at, index: i },
                );
            }
            i = i + 1;
        }
        let ghost all = slots@;
        let ordered = sort_stable(slots);
        proof {
            lemma_list_slots_indices(self@.tasks, list_id@, self@.tasks.len() as int);
            lemma_sorted_members(all);
        }
        let mut r: Vec<usize> = Vec::new();
        let mut k: usize = 0;
        while k < ordered.len()
            invariant
                k <= ordered@.len(),
                ordered@ == sorted(all),
                all == list_slots(self@.tasks, list_id@, self@.tasks.len() as int),
                r@.len() == k,
                forall|m: int| 0 <= m < k ==> r@[m] == (#[trigger] ordered@[m]).index,
                forall|m: int|
                    0 <= m < all.len() ==> {
                        let s = #[trigger] all[m];
                        &&& 0 <= s.index < self@.tasks.len()
                        &&& self@.tasks[s.index as int].list_id == list_id@
                    },
                forall|m: int|
                    0 <= m < all.len() ==> exists|j: int| 0 <= j < all.len() && #[trigger] sorted(all)[m] == all[j],
                sorted(all).len() == all.len(),
            decreases ordered@.len() - k,
        {
            r.push(ordered[k].index);
            k = k + 1;
        }
        proof {
            assert forall|m: int| 0 <= m < r@.len() implies #[trigger] r@[m] < self@.tasks.len()
                && self@.tasks[r@[m] as int].list_id == list_id@ by {
                let j = choose|j: int| 0 <= j < all.len() && sorted(all)[m] == all[j];
                assert(all[j] == all[j]);
            }
        }
        r
    }

    /// Tasks in a list, in display order: by position, then by age.
    pub fn tasks_in_list(&self, list_id: &str) -> (r: Vec<&Task>)
        ensures
            r@.len() == list_order(self@.tasks, list_id@).len(),
            forall|k: int|
                0 <= k < r@.len() ==> (#[trigger] r@[k])@ == self@.tasks[list_order(
                    self@.tasks,
                    list_id@,
                )[k]],
    {
        let positions = self.list_positions(list_id);
        let mut r: Vec<&Task> = Vec::new();
        let mut k: usize = 0;
        while k < positions.len()
            invariant
                k <= positions@.len(),
                r@.len() == k,
                positions@.len() == list_order(self@.tasks, list_id@).len(),
                forall|m: int| 0 <= m < positions@.len() ==> positions@[m] as int == #[trigger] list_order(self@.tasks, list_id@)[m],
                forall|m: int| 0 <= m < positions@.len() ==> #[trigger] positions@[m] < self@.tasks.len(),
                forall|m: int| 0 <= m < k ==> (#[trigger] r@[m])@ == self@.tasks[list_order(self@.tasks, list_id@)[m]],
            decreases positions@.len() - k,
        {
            let p = positions[k];
            r.push(&self.tasks[p]);
            k = k + 1;
        }
        r
    }

    /// The default landing place for a captured task: the first list of the
    /// first board (lowest order, first on a tie).
    pub fn inbox_list_id(&self) -> (r: Option<String>)
        ensures
            match inbox_of(self@) {
                Some(id) => r matches Some(s) && s@ == id,
                None => r is None,
            },
    {
        if self.boards.len() == 0 {
            return None;
        }
        let mut best: usize = 0;
        let mut i: usize = 1;
        while i < self.boards.len()
            invariant
                1 <= i <= self.boards@.len(),
                best < i,
                forall|j: int| 0 <= j < i ==> self@.boards[best as int].order <= #[trigger] self@.boards[j].order,
                forall|j: int| 0 <= j < best ==> self@.boards[best as int].order < #[trigger] self@.boards[j].order,
            decreases self.boards@.len() - i,
        {
            if self.boards[i].order < self.boards[best].order {
                best = i;
            }
            i = i + 1;
        }
        proof {
            assert(first_lowest_board(self@.boards, best as int));
            lemma_first_lowest_board_unique(self@.boards, best as int);
        }
        let ghost b = choose|i: int| first_lowest_board(self@.boards, i);
        assert(b == best);
        match self.boards[best].first_list_id() {
            Some(id) => {
                proof {
                    let lists = self@.boards[best as int].lists;
                    let w = choose|i: int| crate::model::first_lowest_list(lists, i) && id@ == lists[i].id;
                    lemma_first_lowest_list_unique(lists, w);
                    let k = choose|k: int| crate::model::first_lowest_list(lists, k);
                    assert(k == w);
                }
                Some(id.to_owned())
            },
            None => None,
        }
    }
}

fn tasks_word() -> (p: &'static str)
    ensures
        p@ == seq!['T', 'a', 's', 'k', 's'],
{
    proof {
        reveal_strlit("Tasks");
    }
    "Tasks"
}

/// Index of the first list in a board with this id.
pub fn list_index(board: &Board, id: &str) -> (r: Option<usize>)
    ensures
        match r {
            Some(i) => i == find_list(board@.lists, id@, 0) && i < board@.lists.len(),
            None => find_list(board@.lists, id@, 0) == board@.lists.len(),
        },
{
    let mut i: usize = 0;
    while i < board.lists.len()
        invariant
            i <= board.lists@.len(),
            find_list(board@.lists, id@, i as int) == find_list(board@.lists, id@, 0),
        decreases board.lists@.len() - i,
    {
        if str_eq(board.lists[i].id.as_str(), id) {
            return Some(i);
        }
        i = i + 1;
    }
    None
}

/// `i` is the first of the lowest-ordered boards.
pub open spec fn first_lowest_board(boards: Seq<BoardView>, i: int) -> bool {
    &&& 0 <= i < boards.len()
    &&& forall|j: int| 0 <= j < boards.len() ==> boards[i].order <= #[trigger] boards[j].order
    &&& forall|j: int| 0 <= j < i ==> boards[i].order < #[trigger] boards[j].order
}

proof fn lemma_first_lowest_board_unique(boards: Seq<BoardView>, i: int)
    requires
        first_lowest_board(boards, i),
    ensures
        forall|j: int| first_lowest_board(boards, j) ==> j == i,
{
    assert forall|j: int| first_lowest_board(boards, j) implies j == i by {
        if j < i {
            assert(boards[i].order < boards[j].order);
            assert(boards[j].order <= boards[i].order);
        } else if j > i {
            assert(boards[j].order < boards[i].order);
            assert(boards[i].order <= boards[j].order);
        }
    }
}

proof fn lemma_first_lowest_list_unique(lists: Seq<ListView>, i: int)
    requires
        crate::model::first_lowest_list(lists, i),
    ensures
        forall|j: int| crate::model::first_lowest_list(lists, j) ==> j == i,
{
    assert forall|j: int| crate::model::first_lowest_list(lists, j) implies j == i by {
        if j < i {
            assert(lists[i].order < lists[j].order);
            assert(lists[j].order <= lists[i].order);
        } else if j > i {
            assert(lists[j].order < lists[i].order);
            assert(lists[i].order <= lists[j].order);
        }
    }
}

/// The first list of the first board, if there is one.
pub open spec fn inbox_of(data: DataView) -> Option<Seq<char>> {
    if data.boards.len() == 0 {
        None
    } else {
        let b = choose|i: int| first_lowest_board(data.boards, i);
        let lists = data.boards[b].lists;
        if lists.len() == 0 {
            None
        } else {
            Some(lists[choose|k: int| crate::model::first_lowest_list(lists, k)].id)
        }
    }
}

} // verus!
