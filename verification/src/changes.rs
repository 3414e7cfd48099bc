//! Every change that can be made to a store's data.
//!
//! Each operation is applied to a `Data` read from disk; the caller persists
//! the result. On error nothing is changed.

use vstd::prelude::*;

use crate::capture::{resolved_due, resolvable, resolve_due, Captured, CapturedView};
use crate::error::{Result, TaskError};
use crate::model::{
    fresh_task,
    task_id_text,
    Board,
    BoardView,
    List,
    ListView,
    Status,
    Task,
    TaskView,
};
use crate::store::{
    find_board,
    find_task,
    inbox_of,
    lemma_find_task,
    lemma_tasks_view_update,
    list_of,
    list_order,
    Data,
    DataView,
};
use crate::text::{trim, trim_str, trimmed};

verus! {

// ---------------------------------------------------------------------------
// renumbering a list
// ---------------------------------------------------------------------------

/// Ids of a list's tasks, in display order.
pub open spec fn list_ids(tasks: Seq<TaskView>, list_id: Seq<char>) -> Seq<Seq<char>> {
    list_order(tasks, list_id).map_values(|i: int| tasks[i].id)
}

/// Consecutive repeats dropped.
pub open spec fn dedup_exact(s: Seq<Seq<char>>) -> Seq<Seq<char>>
    decreases s.len(),
{
    if s.len() <= 1 {
        s
    } else {
        let d = dedup_exact(s.drop_last());
        if s.last() == s[s.len() - 2] {
            d
        } else {
            d.push(s.last())
        }
    }
}

/// Give the first task carrying `ids[j]` the order `k + j`, in turn.
pub open spec fn renumber(tasks: Seq<TaskView>, ids: Seq<Seq<char>>, k: int) -> Seq<TaskView>
    decreases ids.len(),
{
    if ids.len() == 0 {
        tasks
    } else {
        let i = find_task(tasks, ids[0], 0);
        let next = if i < tasks.len() {
            tasks.update(i, TaskView { order: k as u32, ..tasks[i] })
        } else {
            tasks
        };
        renumber(next, ids.drop_first(), k + 1)
    }
}

/// A list's tasks numbered 0, 1, 2, ... in display order.
pub open spec fn reindexed(tasks: Seq<TaskView>, list_id: Seq<char>) -> Seq<TaskView> {
    renumber(tasks, dedup_exact(list_ids(tasks, list_id)), 0)
}

proof fn lemma_renumber_len(tasks: Seq<TaskView>, ids: Seq<Seq<char>>, k: int)
    ensures
        renumber(tasks, ids, k).len() == tasks.len(),
    decreases ids.len(),
{
    if ids.len() > 0 {
        let i = find_task(tasks, ids[0], 0);
        let next = if i < tasks.len() {
            tasks.update(i, TaskView { order: k as u32, ..tasks[i] })
        } else {
            tasks
        };
        lemma_find_task(tasks, ids[0], 0);
        assert(next.len() == tasks.len());
        lemma_renumber_len(next, ids.drop_first(), k + 1);
    }
}

impl Data {
    /// Renumber a list's tasks 0..n so ordering stays dense and predictable.
    pub fn reindex(&mut self, list_id: &str)
        ensures
            final(self)@ == (DataView { tasks: reindexed(old(self)@.tasks, list_id@), ..old(self)@ }),
    {
        let ghost start = self@.tasks;
        let tasks = self.tasks_in_list(list_id);
        let mut ids: Vec<String> = Vec::new();
        let mut k: usize = 0;
        while k < tasks.len()
            invariant
                k <= tasks@.len(),
                tasks@.len() == list_order(start, list_id@).len(),
                forall|m: int| 0 <= m < tasks@.len() ==> (#[trigger] tasks@[m])@ == start[list_order(start, list_id@)[m]],
                ids.deep_view() == dedup_exact(list_ids(start, list_id@).take(k as int)),
                ids@.len() > 0 ==> k > 0 && ids@.last()@ == start[list_order(start, list_id@)[k - 1]].id,
            decreases tasks@.len() - k,
        {
            let ghost before = ids.deep_view();
            let ghost all = list_ids(start, list_id@);
            let id = tasks[k].id.clone();
            let repeat = k > 0 && ids.len() > 0 && crate::text::str_eq(ids[ids.len() - 1].as_str(), id.as_str());
            if !repeat {
                ids.push(id);
            }
            k = k + 1;
            proof {
                let s = all.take(k as int);
                assert(s.drop_last() =~= all.take(k - 1));
                assert(s.last() == start[list_order(start, list_id@)[k - 1]].id);
                if k >= 2 {
                    assert(s[s.len() - 2] == start[list_order(start, list_id@)[k - 2]].id);
                    lemma_dedup_last(all.take(k - 1));
                }
                if repeat {
                    assert(ids.deep_view() =~= dedup_exact(s));
                } else {
                    assert(ids.deep_view() =~= before.push(s.last()));
                    if k >= 2 {
                        lemma_dedup_last(all.take(k - 1));
                    }
                }
            }
        }
        proof {
            assert(list_ids(start, list_id@).take(k as int) =~= list_ids(start, list_id@));
        }
        let ghost wanted = dedup_exact(list_ids(start, list_id@));
        assert(wanted.skip(0) =~= wanted);
        let mut j: usize = 0;
        while j < ids.len()
            invariant
                j <= ids@.len(),
                ids.deep_view() == wanted,
                renumber(self@.tasks, wanted.skip(j as int), j as int) == renumber(start, wanted, 0),
                self@ == (DataView { tasks: self@.tasks, ..old(self)@ }),
                self@.tasks.len() == start.len(),
            decreases ids@.len() - j,
        {
            proof {
                assert(wanted.skip(j as int)[0] == ids@[j as int]@);
                assert(wanted.skip(j as int).drop_first() =~= wanted.skip(j + 1));
            }
            match self.task_index(ids[j].as_str()) {
                Some(i) => {
                    proof {
                        lemma_tasks_view_update(self.tasks@, i as int);
                    }
                    let ghost t_old = self@.tasks[i as int];
                    let ghost before_tasks = self@.tasks;
                    self.tasks[i].order = j as u32;
                    proof {
                        assert(self@.tasks =~= before_tasks.update(i as int, TaskView { order: j as u32, ..t_old }));
                    }
                },
                None => {},
            }
            j = j + 1;
        }
        proof {
            assert(wanted.skip(j as int) =~= Seq::<Seq<char>>::empty());
        }
    }
}

proof fn lemma_dedup_last(s: Seq<Seq<char>>)
    requires
        s.len() > 0,
    ensures
        dedup_exact(s).len() > 0,
        dedup_exact(s).last() == s.last(),
    decreases s.len(),
{
    if s.len() > 1 {
        lemma_dedup_last(s.drop_last());
    }
}

/// No two tasks share an id.
pub open spec fn unique_ids(tasks: Seq<TaskView>) -> bool {
    forall|a: int, b: int|
        0 <= a < tasks.len() && 0 <= b < tasks.len() && a != b ==> #[trigger] tasks[a].id
            != #[trigger] tasks[b].id
}

/// With unique ids, a task's id finds that task.
proof fn lemma_find_unique(tasks: Seq<TaskView>, i: int)
    requires
        unique_ids(tasks),
        0 <= i < tasks.len(),
    ensures
        find_task(tasks, tasks[i].id, 0) == i,
{
    lemma_find_task(tasks, tasks[i].id, 0);
    let f = find_task(tasks, tasks[i].id, 0);
    if f > i {
        assert(tasks[i].id != tasks[i].id);
    }
}

/// Renumbering tasks found at distinct places gives the `j`-th of them the
/// order `k + j`, touches no other task's order and no other field.
proof fn lemma_renumber_orders(tasks: Seq<TaskView>, ids: Seq<Seq<char>>, pos: Seq<int>, k: int)
    requires
        unique_ids(tasks),
        pos.len() == ids.len(),
        pos.no_duplicates(),
        forall|j: int|
            0 <= j < pos.len() ==> 0 <= #[trigger] pos[j] < tasks.len() && tasks[pos[j]].id == ids[j],
    ensures
        renumber(tasks, ids, k).len() == tasks.len(),
        forall|i: int|
            0 <= i < tasks.len() ==> #[trigger] renumber(tasks, ids, k)[i] == (TaskView {
                order: renumber(tasks, ids, k)[i].order,
                ..tasks[i]
            }),
        forall|i: int|
            0 <= i < tasks.len() && !pos.contains(i) ==> #[trigger] renumber(tasks, ids, k)[i].order
                == tasks[i].order,
        forall|j: int| 0 <= j < pos.len() ==> renumber(tasks, ids, k)[#[trigger] pos[j]].order == (k + j) as u32,
    decreases ids.len(),
{
    lemma_renumber_len(tasks, ids, k);
    if ids.len() > 0 {
        lemma_find_unique(tasks, pos[0]);
        let i0 = pos[0];
        let next = tasks.update(i0, TaskView { order: k as u32, ..tasks[i0] });
        assert(unique_ids(next)) by {
            assert forall|a: int, b: int|
                0 <= a < next.len() && 0 <= b < next.len() && a != b implies #[trigger] next[a].id
                != #[trigger] next[b].id by {
                assert(next[a].id == tasks[a].id && next[b].id == tasks[b].id);
            }
        }
        let rest = pos.drop_first();
        assert forall|x: int, y: int| 0 <= x < rest.len() && 0 <= y < rest.len() && x != y implies rest[x]
            != rest[y] by {
            assert(rest[x] == pos[x + 1] && rest[y] == pos[y + 1]);
        }
        assert forall|j: int| 0 <= j < rest.len() implies 0 <= #[trigger] rest[j] < next.len()
            && next[rest[j]].id == ids.drop_first()[j] by {
            assert(rest[j] == pos[j + 1]);
        }
        lemma_renumber_orders(next, ids.drop_first(), rest, k + 1);
        let r = renumber(tasks, ids, k);
        assert(r == renumber(next, ids.drop_first(), k + 1));
        assert forall|i: int| 0 <= i < tasks.len() && !pos.contains(i) implies #[trigger] r[i].order
            == tasks[i].order by {
            if rest.contains(i) {
                let j = choose|j: int| 0 <= j < rest.len() && rest[j] == i;
                assert(pos[j + 1] == i);
            }
            assert(i != i0);
        }
        assert forall|j: int| 0 <= j < pos.len() implies r[#[trigger] pos[j]].order == (k + j) as u32 by {
            if j == 0 {
                if rest.contains(i0) {
                    let q = choose|q: int| 0 <= q < rest.len() && rest[q] == i0;
                    assert(pos[q + 1] == pos[0]);
                }
            } else {
                assert(rest[j - 1] == pos[j]);
            }
        }
    }
}

/// Without repeats there is nothing to drop.
proof fn lemma_dedup_distinct(s: Seq<Seq<char>>)
    requires
        s.no_duplicates(),
    ensures
        dedup_exact(s) == s,
    decreases s.len(),
{
    if s.len() > 1 {
        let d = s.drop_last();
        assert forall|i: int, j: int| 0 <= i < d.len() && 0 <= j < d.len() && i != j implies d[i]
            != d[j] by {
            assert(d[i] == s[i] && d[j] == s[j]);
        }
        lemma_dedup_distinct(d);
        assert(s.last() != s[s.len() - 2]);
        assert(d.push(s.last()) =~= s);
    }
}

/// Adding a task keeps ids unique: the new task's id is none already held.
pub proof fn lemma_adding_keeps_ids_unique(
    before: DataView,
    after: DataView,
    title: Seq<char>,
    list_id: Option<Seq<char>>,
    t: TaskView,
)
    requires
        unique_ids(before.tasks),
        add_task_outcome(before, after, title, list_id, Ok(t)),
    ensures
        unique_ids(after.tasks),
{
    let list = landing_list(before, list_id)->0;
    assert(new_task_in(before, title, list, t));
    assert(after.tasks == before.tasks.push(t));
    assert forall|a: int, b: int|
        0 <= a < after.tasks.len() && 0 <= b < after.tasks.len() && a != b implies #[trigger] after.tasks[a].id
        != #[trigger] after.tasks[b].id by {
        if a < before.tasks.len() && b < before.tasks.len() {
            assert(after.tasks[a] == before.tasks[a] && after.tasks[b] == before.tasks[b]);
        } else if a < before.tasks.len() {
            assert(after.tasks[a] == before.tasks[a]);
        } else {
            assert(after.tasks[b] == before.tasks[b]);
        }
    }
}

/// Renumbering keeps a list dense: where no two tasks share an id, the
/// tasks of the list, read in display order, carry the orders 0, 1, 2, ...
/// and nothing else about any task changes.
pub proof fn lemma_reindex_is_dense(tasks: Seq<TaskView>, list_id: Seq<char>)
    requires
        tasks.len() <= usize::MAX,
        unique_ids(tasks),
    ensures
        reindexed(tasks, list_id).len() == tasks.len(),
        forall|m: int|
            0 <= m < list_order(tasks, list_id).len() ==> reindexed(tasks, list_id)[#[trigger] list_order(
                tasks,
                list_id,
            )[m]].order == m as u32,
        forall|i: int|
            0 <= i < tasks.len() ==> #[trigger] reindexed(tasks, list_id)[i] == (TaskView {
                order: reindexed(tasks, list_id)[i].order,
                ..tasks[i]
            }),
{
    crate::store::lemma_list_order_distinct(tasks, list_id);
    let order = list_order(tasks, list_id);
    let ids = list_ids(tasks, list_id);
    assert forall|x: int, y: int| 0 <= x < ids.len() && 0 <= y < ids.len() && x != y implies ids[x]
        != ids[y] by {
        assert(ids[x] == tasks[order[x]].id && ids[y] == tasks[order[y]].id);
        assert(order[x] != order[y]);
    }
    lemma_dedup_distinct(ids);
    lemma_renumber_orders(tasks, ids, order, 0);
}

// ---------------------------------------------------------------------------
// adding and removing tasks
// ---------------------------------------------------------------------------

/// The list a new task lands in: the named one if it exists, otherwise the
/// inbox when none is named.
pub open spec fn landing_list(data: DataView, list_id: Option<Seq<char>>) -> Option<Seq<char>> {
    match list_id {
        Some(id) => if list_of(data, id) is Some {
            Some(id)
        } else {
            None
        },
        None => inbox_of(data),
    }
}

/// The status a list gives what is dropped into it, if any.
pub open spec fn list_status(data: DataView, list_id: Seq<char>) -> Option<Status> {
    match list_of(data, list_id) {
        Some(l) => l.status,
        None => None,
    }
}

/// A newly added task: a fresh id and time, the trimmed title, at the end of
/// its list, with the list's status when it has one, and an id no task
/// already has. A Done list completes what lands in it, at the moment it was
/// added.
pub open spec fn new_task_in(data: DataView, title: Seq<char>, list: Seq<char>, t: TaskView) -> bool {
    exists|nanos: nat, seq: nat, now: u64|
        #![trigger fresh_task(task_id_text(nanos, seq), title, list, now)]
        t == TaskView {
            order: list_order(data.tasks, list).len() as u32,
            status: match list_status(data, list) {
                Some(s) => s,
                None => Status::Todo,
            },
            completed_at: if list_status(data, list) == Some(Status::Done) {
                Some(now)
            } else {
                None
            },
            ..fresh_task(task_id_text(nanos, seq), title, list, now)
        } && forall|i: int| 0 <= i < data.tasks.len() ==> data.tasks[i].id != t.id
}

/// The outcome an `add_task` call is owed.
pub open spec fn add_task_outcome(
    old: DataView,
    new: DataView,
    title: Seq<char>,
    list_id: Option<Seq<char>>,
    r: Result<TaskView>,
) -> bool {
    match r {
        Ok(t) => {
            &&& trim(title).len() > 0
            &&& landing_list(old, list_id) matches Some(list)
            &&& new_task_in(old, title, list, t)
            &&& new == (DataView { tasks: old.tasks.push(t), ..old })
        },
        Err(e) => {
            &&& new == old
            &&& match e {
                TaskError::EmptyTitle => trim(title).len() == 0,
                TaskError::ListNotFound(id) => trim(title).len() > 0 && list_id == Some(id@)
                    && list_of(old, id@) is None,
                TaskError::NoBoards => trim(title).len() > 0 && list_id is None && inbox_of(old) is None,
                _ => false,
            }
        },
    }
}

pub open spec fn result_view(r: Result<Task>) -> Result<TaskView> {
    match r {
        Ok(t) => Ok(t@),
        Err(e) => Err(e),
    }
}

fn opt_str_view(o: Option<&str>) -> (r: Ghost<Option<Seq<char>>>)
    ensures
        r@ == match o {
            Some(s) => Some(s@),
            None => None,
        },
{
    Ghost(
        match o {
            Some(s) => Some(s@),
            None => None,
        },
    )
}

pub open spec fn opt_view(o: Option<&str>) -> Option<Seq<char>> {
    match o {
        Some(s) => Some(s@),
        None => None,
    }
}

/// The prefix of a task id.
fn task_prefix() -> (p: &'static str)
    ensures
        p@ == seq!['t', 'a', 's', 'k'],
{
    proof {
        reveal_strlit("task");
    }
    "task"
}

impl Data {
    /// Add a task with only a title, at the end of the named list or the
    /// inbox, taking that list's status.
    pub fn add_task(&mut self, title: &str, list_id: Option<&str>) -> (r: Result<Task>)
        ensures
            add_task_outcome(old(self)@, final(self)@, title@, opt_view(list_id), result_view(r)),
    {
        let trimmed_title = trim_str(title);
        if trimmed_title.as_str().is_empty() {
            return Err(TaskError::EmptyTitle);
        }
        let list: String = match list_id {
            Some(id) => {
                if self.list(id).is_none() {
                    return Err(TaskError::ListNotFound(id.to_owned()));
                }
                id.to_owned()
            },
            None => match self.inbox_list_id() {
                Some(id) => id,
                None => return Err(TaskError::NoBoards),
            },
        };
        let mut taken: Vec<String> = Vec::new();
        let mut k: usize = 0;
        while k < self.tasks.len()
            invariant
                k <= self.tasks@.len(),
                self@ == old(self)@,
                taken@.len() == k,
                forall|j: int| 0 <= j < k ==> (#[trigger] taken@[j])@ == old(self)@.tasks[j].id,
            decreases self.tasks@.len() - k,
        {
            taken.push(self.tasks[k].id.clone());
            k = k + 1;
        }
        let prefix = task_prefix();
        let id = crate::model::fresh_id_among(prefix, &taken);
        let now = crate::model::now_millis();
        proof {
            let (n, q) = choose|nanos: nat, seq: nat| id@ == crate::model::id_text(prefix@, nanos, seq);
            assert(id@ == task_id_text(n, q));
            assert forall|i: int| 0 <= i < old(self)@.tasks.len() implies old(self)@.tasks[i].id != id@ by {
                assert(taken@[i]@ == old(self)@.tasks[i].id);
            }
        }
        let mut task = Task::with_identity(id, title, list.as_str(), now);
        let count = self.tasks_in_list(list.as_str()).len();
        task.order = count as u32;
        match self.list(list.as_str()) {
            Some(l) => match l.status {
                Some(status) => {
                    task.status = status;
                    if status.is_done() {
                        task.completed_at = Some(task.created_at);
                    }
                },
                None => {},
            },
            None => {},
        }
        let stored = task.duplicate();
        self.tasks.push(stored);
        proof {
            assert(self@.tasks =~= old(self)@.tasks.push(task@));

        }
        Ok(task)
    }

    /// Delete a task, closing the gap it leaves in its list.
    pub fn delete_task(&mut self, task_id: &str) -> (r: Result<Task>)
        ensures
            delete_task_outcome(old(self)@, final(self)@, task_id@, result_view_of(r)),

    {
        match self.task_index(task_id) {
            Some(i) => {
                let removed = self.tasks.remove(i);
                proof {
                    assert(self@.tasks =~= old(self)@.tasks.remove(i as int));
                }
                self.reindex(removed.list_id.as_str());
                Ok(removed)
            },
            None => Err(TaskError::TaskNotFound(task_id.to_owned())),
        }
    }

    /// Fill in what a captured line named, on the task just added for it.
    /// An unresolvable due token clears the due date.
    pub fn apply_capture(&mut self, task_id: &str, captured: &Captured, today: &str) -> (r: Result<Task>)
        requires
            captured@.due matches Some(d) ==> resolvable(d, today@),
        ensures
            apply_capture_outcome(old(self)@, final(self)@, task_id@, captured@, today@, result_view_of(r)),

    {
        let i = match self.task_index(task_id) {
            Some(i) => i,
            None => return Err(TaskError::TaskNotFound(task_id.to_owned())),
        };
        let mut t = self.tasks[i].duplicate();
        match &captured.project {
            Some(p) => {
                t.project = Some(p.clone());
            },
            None => {},
        }
        if captured.tags.len() > 0 {
            t.tags = crate::model::copy_strings(&captured.tags);
        }
        match &captured.owner {
            Some(o) => {
                t.assignee = Some(o.clone());
            },
            None => {},
        }
        match &captured.due {
            Some(d) => {
                t.due = resolve_due(d.as_str(), today);
            },
            None => {},
        }
        if captured.impact.is_some() {
            t.impact = captured.impact;
        }
        if captured.effort.is_some() {
            t.effort = captured.effort;
        }
        let stored = t.duplicate();
        proof {
            lemma_tasks_view_update(self.tasks@, i as int);
        }
        self.tasks.set(i, stored);
        proof {
            assert(self@.tasks =~= old(self)@.tasks.update(i as int, t@));
            assert(t@ =~= captured_into(old(self)@.tasks[i as int], captured@, today@));
        }
        Ok(t)
    }
}

/// A task with what a captured line named filled in.
pub open spec fn captured_into(t: TaskView, c: CapturedView, today: Seq<char>) -> TaskView {
    TaskView {
        project: if c.project is Some {
            c.project
        } else {
            t.project
        },
        tags: if c.tags.len() > 0 {
            c.tags
        } else {
            t.tags
        },
        assignee: if c.owner is Some {
            c.owner
        } else {
            t.assignee
        },
        due: match c.due {
            Some(d) => resolved_due(d, today),
            None => t.due,
        },
        impact: if c.impact is Some {
            c.impact
        } else {
            t.impact
        },
        effort: if c.effort is Some {
            c.effort
        } else {
            t.effort
        },
        ..t
    }
}

// ---------------------------------------------------------------------------
// completing and moving
// ---------------------------------------------------------------------------

/// The first index at or after `k` of a list with this status.
pub open spec fn find_status_list(lists: Seq<ListView>, status: Status, k: int) -> int
    decreases lists.len() - k,
{
    if k >= lists.len() {
        lists.len() as int
    } else if lists[k].status == Some(status) {
        k
    } else {
        find_status_list(lists, status, k + 1)
    }
}

proof fn lemma_find_status_list(lists: Seq<ListView>, status: Status, k: int)
    requires
        0 <= k <= lists.len(),
    ensures
        k <= find_status_list(lists, status, k) <= lists.len(),
        find_status_list(lists, status, k) < lists.len() ==> lists[find_status_list(lists, status, k)].status == Some(status),
    decreases lists.len() - k,
{
    if k < lists.len() && lists[k].status != Some(status) {
        lemma_find_status_list(lists, status, k + 1);
    }
}

/// Where completing (or reopening) a task moves its card: the first list on
/// the same board whose status matches.
pub open spec fn done_target(data: DataView, task_id: Seq<char>, done: bool) -> Option<Seq<char>> {
    let i = find_task(data.tasks, task_id, 0);
    if i < data.tasks.len() {
        let b = crate::store::find_board_of_list(data.boards, data.tasks[i].list_id, 0);
        if b < data.boards.len() {
            let lists = data.boards[b].lists;
            let wanted = if done {
                Status::Done
            } else {
                Status::Todo
            };
            let k = find_status_list(lists, wanted, 0);
            if k < lists.len() {
                Some(lists[k].id)
            } else {
                None
            }
        } else {
            None
        }
    } else {
        None
    }
}

/// A task marked done or not done at time `now`, moved to `target` if any.
pub open spec fn marked(t: TaskView, done: bool, now: u64, target: Option<Seq<char>>) -> TaskView {
    TaskView {
        status: if done {
            Status::Done
        } else {
            Status::Todo
        },
        completed_at: if done {
            Some(now)
        } else {
            None
        },
        updated_at: now,
        list_id: match target {
            Some(l) => l,
            None => t.list_id,
        },
        ..t
    }
}

/// Bump the order of the first task carrying each id, in turn. `None` where
/// a bump would pass `u32::MAX`.
pub open spec fn bumped(tasks: Seq<TaskView>, ids: Seq<Seq<char>>) -> Option<Seq<TaskView>>
    decreases ids.len(),
{
    if ids.len() == 0 {
        Some(tasks)
    } else {
        let i = find_task(tasks, ids[0], 0);
        if i < tasks.len() {
            if tasks[i].order == u32::MAX {
                None
            } else {
                bumped(
                    tasks.update(i, TaskView { order: (tasks[i].order + 1) as u32, ..tasks[i] }),
                    ids.drop_first(),
                )
            }
        } else {
            bumped(tasks, ids.drop_first())
        }
    }
}

/// The ids in `s` other than `id`, in order.
pub open spec fn without(s: Seq<Seq<char>>, id: Seq<char>) -> Seq<Seq<char>>
    decreases s.len(),
{
    if s.len() == 0 {
        s
    } else if s.last() == id {
        without(s.drop_last(), id)
    } else {
        without(s.drop_last(), id).push(s.last())
    }
}

/// Where a moved task lands: the given position, or the end of the list.
pub open spec fn landing_index(data: DataView, list_id: Seq<char>, position: Option<usize>) -> int {
    let existing = list_order(data.tasks, list_id).len() as int;
    match position {
        Some(p) => if p < existing {
            p as int
        } else {
            existing
        },
        None => existing,
    }
}

/// The tasks pushed down to make room: those at or after the landing index,
/// other than the one being moved.
pub open spec fn displaced(data: DataView, task_id: Seq<char>, list_id: Seq<char>, position: Option<usize>) -> Seq<Seq<char>> {
    without(list_ids(data.tasks, list_id).skip(landing_index(data, list_id, position)), task_id)
}

/// A task moved into a list at an index, taking the list's status if any.
pub open spec fn placed(t: TaskView, list_id: Seq<char>, index: int, status: Option<Status>, now: u64) -> TaskView {
    TaskView {
        list_id,
        order: index as u32,
        status: match status {
            Some(s) => s,
            None => t.status,
        },
        completed_at: match status {
            Some(s) => if s == Status::Done {
                Some(now)
            } else {
                None
            },
            None => t.completed_at,
        },
        updated_at: now,
        ..t
    }
}

/// Tasks with their orders replaced.
pub open spec fn with_orders(tasks: Seq<TaskView>, orders: Seq<u32>) -> Seq<TaskView> {
    Seq::new(tasks.len(), |i: int| TaskView { order: orders[i], ..tasks[i] })
}

/// Whether moving the task here can be done without an order passing `u32::MAX`.
pub open spec fn movable(data: DataView, task_id: Seq<char>, list_id: Seq<char>, position: Option<usize>) -> bool {
    bumped(data.tasks, displaced(data, task_id, list_id, position)) is Some
}

proof fn lemma_bumped_keeps(tasks: Seq<TaskView>, ids: Seq<Seq<char>>)
    requires
        bumped(tasks, ids) is Some,
    ensures
        bumped(tasks, ids)->0.len() == tasks.len(),
        forall|k: int| 0 <= k < tasks.len() ==> (#[trigger] bumped(tasks, ids)->0[k]).id == tasks[k].id,
    decreases ids.len(),
{
    if ids.len() > 0 {
        let i = find_task(tasks, ids[0], 0);
        lemma_find_task(tasks, ids[0], 0);
        if i < tasks.len() {
            let next = tasks.update(i, TaskView { order: (tasks[i].order + 1) as u32, ..tasks[i] });
            lemma_bumped_keeps(next, ids.drop_first());
            assert forall|k: int| 0 <= k < tasks.len() implies (#[trigger] bumped(tasks, ids)->0[k]).id == tasks[k].id by {
                assert(bumped(next, ids.drop_first())->0[k].id == next[k].id);
            }
        } else {
            lemma_bumped_keeps(tasks, ids.drop_first());
        }
    }
}

proof fn lemma_find_task_same_ids(a: Seq<TaskView>, b: Seq<TaskView>, id: Seq<char>, i: int)
    requires
        a.len() == b.len(),
        forall|k: int| 0 <= k < a.len() ==> #[trigger] a[k].id == b[k].id,
        0 <= i <= a.len(),
    ensures
        find_task(a, id, i) == find_task(b, id, i),
    decreases a.len() - i,
{
    if i < a.len() {
        lemma_find_task_same_ids(a, b, id, i + 1);
    }
}

fn status_list_index(board: &Board, wanted: Status) -> (r: Option<usize>)
    ensures
        match r {
            Some(k) => k == find_status_list(board@.lists, wanted, 0) && k < board@.lists.len(),
            None => find_status_list(board@.lists, wanted, 0) == board@.lists.len(),
        },
{
    let mut k: usize = 0;
    while k < board.lists.len()
        invariant
            k <= board@.lists.len(),
            find_status_list(board@.lists, wanted, k as int) == find_status_list(board@.lists, wanted, 0),
        decreases board@.lists.len() - k,
    {
        if board.lists[k].status == Some(wanted) {
            return Some(k);
        }
        k = k + 1;
    }
    None
}

impl Data {
    fn done_target_of(&self, task_id: &str, done: bool) -> (r: Option<String>)
        ensures
            r.deep_view() == done_target(self@, task_id@, done),
    {
        match self.task_index(task_id) {
            Some(i) => match self.board_index_of_list(self.tasks[i].list_id.as_str()) {
                Some(b) => {
                    let wanted = if done {
                        Status::Done
                    } else {
                        Status::Todo
                    };
                    match status_list_index(&self.boards[b], wanted) {
                        Some(k) => Some(self.boards[b].lists[k].id.clone()),
                        None => None,
                    }
                },
                None => None,
            },
            None => None,
        }
    }

    /// Mark done or not done, moving the card to the first list on its board
    /// with the matching status, and renumbering the list it left and the one
    /// it ends in.
    pub fn set_done(&mut self, task_id: &str, done: bool) -> (r: Result<Task>)
        ensures
            set_done_outcome(old(self)@, final(self)@, task_id@, done, result_view_of(r)),

    {
        let target = self.done_target_of(task_id, done);
        let now = crate::model::now_millis();
        let i = match self.task_index(task_id) {
            Some(i) => i,
            None => return Err(TaskError::TaskNotFound(task_id.to_owned())),
        };
        let previous_list = self.tasks[i].list_id.clone();
        let mut t = self.tasks[i].duplicate();
        t.status = if done {
            Status::Done
        } else {
            Status::Todo
        };
        t.completed_at = if done {
            Some(now)
        } else {
            None
        };
        t.updated_at = now;
        match target {
            Some(l) => {
                t.list_id = l;
            },
            None => {},
        }
        let updated = t.duplicate();
        proof {
            lemma_tasks_view_update(self.tasks@, i as int);
        }
        self.tasks.set(i, t);
        proof {
            assert(self@.tasks =~= old(self)@.tasks.update(i as int, updated@));
            assert(marked(old(self)@.tasks[i as int], done, now, done_target(old(self)@, task_id@, done)) == updated@);
        }
        // Both lists stay dense: the one the task left and the one it is in.
        self.reindex(previous_list.as_str());
        self.reindex(updated.list_id.as_str());
        Ok(updated)
    }
}

impl Data {
    /// The ids of the tasks that a move into this list, at this position,
    /// pushes down one, and the index the moved task lands at.
    fn displaced_ids(&self, task_id: &str, list_id: &str, position: Option<usize>) -> (r: (Vec<String>, usize))
        ensures
            r.0.deep_view() == displaced(self@, task_id@, list_id@, position),
            r.1 as int == landing_index(self@, list_id@, position),
    {
        let ghost start = self@;
        let in_list = self.tasks_in_list(list_id);
        let existing = in_list.len();
        let index = match position {
            Some(p) => if p < existing {
                p
            } else {
                existing
            },
            None => existing,
        };
        let ghost all_ids = list_ids(start.tasks, list_id@);
        let mut moving: Vec<String> = Vec::new();
        let mut k = existing;
        // Collected back to front, so the spec's `without` unfolds in step.
        while k > index
            invariant
                index <= k <= existing,
                existing == in_list@.len(),
                existing == all_ids.len(),
                forall|m: int| 0 <= m < existing ==> (#[trigger] in_list@[m])@.id == all_ids[m],
                without(all_ids.skip(index as int), task_id@) == without(all_ids.subrange(index as int, k as int), task_id@)
                    + moving.deep_view(),
            decreases k - index,
        {
            let ghost before = moving.deep_view();
            let id = in_list[k - 1].id.clone();
            let ghost sub = all_ids.subrange(index as int, k as int);
            proof {
                assert(sub.last() == all_ids[k - 1]);
                assert(sub.drop_last() =~= all_ids.subrange(index as int, k - 1));
            }
            if !crate::text::str_eq(id.as_str(), task_id) {
                moving.insert(0, id);
                proof {
                    assert(moving.deep_view() =~= seq![all_ids[k - 1]] + before);
                    assert(without(sub, task_id@) == without(sub.drop_last(), task_id@).push(sub.last()));
                    assert(without(sub.drop_last(), task_id@).push(sub.last()) + before
                        =~= without(sub.drop_last(), task_id@) + (seq![all_ids[k - 1]] + before));
                }
            }
            k = k - 1;
        }
        proof {
            assert(all_ids.subrange(index as int, index as int) =~= Seq::<Seq<char>>::empty());
            assert(without(Seq::<Seq<char>>::empty(), task_id@) =~= Seq::<Seq<char>>::empty());
            assert(without(all_ids.skip(index as int), task_id@) =~= moving.deep_view());
        }
        (moving, index)
    }

    /// Whether `move_task` can move the task into that list at that
    /// position: no task it pushes down already has the order `u32::MAX`.
    pub fn can_move(&self, task_id: &str, list_id: &str, position: Option<usize>) -> (r: bool)
        ensures
            r == movable(self@, task_id@, list_id@, position),
    {
        let ghost start = self@.tasks;
        let (moving, _index) = self.displaced_ids(task_id, list_id, position);
        let ghost disp = moving.deep_view();
        assert(disp == displaced(self@, task_id@, list_id@, position));
        let mut orders: Vec<u32> = Vec::new();
        let mut i: usize = 0;
        while i < self.tasks.len()
            invariant
                i <= self.tasks@.len(),
                orders@.len() == i,
                forall|q: int| 0 <= q < i ==> #[trigger] orders@[q] == start[q].order,
                start == self@.tasks,
            decreases self.tasks@.len() - i,
        {
            orders.push(self.tasks[i].order);
            i = i + 1;
        }
        assert(with_orders(start, orders@) =~= start);
        assert(disp.skip(0) =~= disp);
        let mut j: usize = 0;
        while j < moving.len()
            invariant
                j <= moving@.len(),
                moving.deep_view() == disp,
                disp == displaced(self@, task_id@, list_id@, position),
                orders@.len() == start.len(),
                start == self@.tasks,
                bumped(with_orders(start, orders@), disp.skip(j as int)) == bumped(start, disp),
            decreases moving@.len() - j,
        {
            let ghost w = with_orders(start, orders@);
            proof {
                assert(disp.skip(j as int)[0] == moving@[j as int]@);
                assert(disp.skip(j as int).drop_first() =~= disp.skip(j + 1));
                lemma_find_task_same_ids(start, w, moving@[j as int]@, 0);
            }
            match self.task_index(moving[j].as_str()) {
                Some(x) => {
                    let o = orders[x];
                    if o == u32::MAX {
                        proof {
                            assert(w[x as int].order == u32::MAX);
                            assert(bumped(w, disp.skip(j as int)) is None);
                        }
                        return false;
                    }
                    orders.set(x, o + 1);
                    proof {
                        assert(with_orders(start, orders@) =~= w.update(
                            x as int,
                            TaskView { order: (w[x as int].order + 1) as u32, ..w[x as int] },
                        ));
                    }
                },
                None => {},
            }
            j = j + 1;
        }
        assert(disp.skip(j as int) =~= Seq::<Seq<char>>::empty());
        true
    }

    /// Move a task to a list and a position in it (the end when none is
    /// given or it is past the end), pushing the tasks from there on down
    /// one, applying the list's status, then renumbering both lists.
    pub fn move_task(&mut self, task_id: &str, list_id: &str, position: Option<usize>) -> (r: Result<Task>)
        requires
            find_task(old(self)@.tasks, task_id@, 0) < old(self)@.tasks.len() && list_of(old(self)@, list_id@) is Some
                ==> movable(old(self)@, task_id@, list_id@, position),
        ensures
            move_task_outcome(old(self)@, final(self)@, task_id@, list_id@, position, result_view_of(r)),

    {
        let i0 = match self.task_index(task_id) {
            Some(i) => i,
            None => return Err(TaskError::TaskNotFound(task_id.to_owned())),
        };
        let status = match self.list(list_id) {
            Some(l) => l.status,
            None => return Err(TaskError::ListNotFound(list_id.to_owned())),
        };
        let previous_list = self.tasks[i0].list_id.clone();
        let ghost start = self@;
        let (moving, index) = self.displaced_ids(task_id, list_id, position);
        let ghost disp = moving.deep_view();
        assert(disp == displaced(start, task_id@, list_id@, position));
        assert(disp.skip(0) =~= disp);
        let mut j: usize = 0;
        while j < moving.len()
            invariant
                j <= moving@.len(),
                moving.deep_view() == disp,
                bumped(self@.tasks, disp.skip(j as int)) == bumped(start.tasks, disp),
                bumped(start.tasks, disp) is Some,
                self@ == (DataView { tasks: self@.tasks, ..start }),
            decreases moving@.len() - j,
        {
            proof {
                assert(disp.skip(j as int)[0] == moving@[j as int]@);
                assert(disp.skip(j as int).drop_first() =~= disp.skip(j + 1));
            }
            match self.task_index(moving[j].as_str()) {
                Some(x) => {
                    proof {
                        lemma_tasks_view_update(self.tasks@, x as int);
                    }
                    let ghost before_tasks = self@.tasks;
                    let o = self.tasks[x].order;
                    self.tasks[x].order = o + 1;
                    proof {
                        assert(self@.tasks =~= before_tasks.update(
                            x as int,
                            TaskView { order: (before_tasks[x as int].order + 1) as u32, ..before_tasks[x as int] },
                        ));
                    }
                },
                None => {},
            }
            j = j + 1;
        }
        proof {
            assert(disp.skip(j as int) =~= Seq::<Seq<char>>::empty());
            lemma_bumped_keeps(start.tasks, disp);
            lemma_find_task_same_ids(start.tasks, self@.tasks, task_id@, 0);
        }
        let now = crate::model::now_millis();
        let mut t = self.tasks[i0].duplicate();
        t.list_id = list_id.to_owned();
        t.order = index as u32;
        match status {
            Some(st) => {
                t.status = st;
                t.completed_at = if st.is_done() {
                    Some(now)
                } else {
                    None
                };
            },
            None => {},
        }
        t.updated_at = now;
        let moved = t.duplicate();
        proof {
            lemma_tasks_view_update(self.tasks@, i0 as int);
        }
        let ghost b = self@.tasks;
        self.tasks.set(i0, t);
        proof {
            assert(self@.tasks =~= b.update(i0 as int, moved@));
            assert(placed(b[i0 as int], list_id@, landing_index(start, list_id@, position), list_status(start, list_id@), now) == moved@);
        }
        self.reindex(previous_list.as_str());
        self.reindex(list_id);
        Ok(moved)
    }
}

// ---------------------------------------------------------------------------
// boards and lists
// ---------------------------------------------------------------------------

/// A new board: fresh id, trimmed name, the given order, and the three
/// default lists.
pub open spec fn fresh_board(b: BoardView, name: Seq<char>, order: u32) -> bool {
    &&& b.name == trim(name)
    &&& b.order == order
    &&& b.lists.len() == 3
    &&& b.lists[0].name == seq!['T', 'o', ' ', 'D', 'o'] && b.lists[0].status == Some(Status::Todo) && b.lists[0].order == 0
    &&& b.lists[1].name == seq!['D', 'o', 'i', 'n', 'g'] && b.lists[1].status == Some(Status::Doing) && b.lists[1].order == 1
    &&& b.lists[2].name == seq!['D', 'o', 'n', 'e'] && b.lists[2].status == Some(Status::Done) && b.lists[2].order == 2
    &&& exists|nanos: nat, seq: nat| b.id == #[trigger] crate::model::board_id_text(nanos, seq)
}

pub proof fn lemma_boards_view_update(s: Seq<Board>, i: int)
    requires
        0 <= i < s.len(),
    ensures
        forall|b: Board|
            (#[trigger] s.update(i, b)).map_values(|x: Board| x@) == s.map_values(|x: Board| x@).update(i, b@),
{
    assert forall|b: Board| (#[trigger] s.update(i, b)).map_values(|x: Board| x@) == s.map_values(|x: Board| x@).update(i, b@) by {
        assert(s.update(i, b).map_values(|x: Board| x@) =~= s.map_values(|x: Board| x@).update(i, b@));
    }
}

impl Data {
    /// Add a board with the default lists, after the existing ones.
    pub fn add_board(&mut self, name: &str) -> (r: Result<Board>)
        ensures
            add_board_outcome(old(self)@, final(self)@, name@, result_view_of(r)),

    {
        let trimmed_name = trim_str(name);
        if trimmed_name.as_str().is_empty() {
            return Err(TaskError::EmptyTitle);
        }
        let board = Board::with_default_lists(name, self.boards.len() as u32);
        let stored = board.duplicate();
        self.boards.push(stored);
        proof {
            assert(self@.boards =~= old(self)@.boards.push(board@));
        }
        Ok(board)
    }

    /// Add a list to the end of a board.
    pub fn add_list(&mut self, board_id: &str, name: &str, status: Option<Status>) -> (r: Result<List>)
        ensures
            add_list_outcome(old(self)@, final(self)@, board_id@, name@, status, result_view_of(r)),

    {
        let trimmed_name = trim_str(name);
        if trimmed_name.as_str().is_empty() {
            return Err(TaskError::EmptyTitle);
        }
        let b = match self.board_index(board_id) {
            Some(b) => b,
            None => return Err(TaskError::BoardNotFound(board_id.to_owned())),
        };
        assert(self@.boards[b as int].lists.len() == self.boards@[b as int].lists@.len());
        let list = List::new(name, self.boards[b].lists.len() as u32, status);
        let mut board = self.boards[b].duplicate();
        board.lists.push(list.duplicate());
        let ghost nb = board@;
        proof {
            assert(board@.lists =~= old(self)@.boards[b as int].lists.push(list@));
            lemma_boards_view_update(self.boards@, b as int);
        }
        self.boards.set(b, board);
        proof {
            assert(self@.boards =~= old(self)@.boards.update(b as int, nb));
        }
        Ok(list)
    }
}

/// A result with its success value taken by its view.
pub open spec fn result_view_of<X: View>(r: Result<X>) -> Result<X::V> {
    match r {
        Ok(x) => Ok(x@),
        Err(e) => Err(e),
    }
}

/// What `delete_task` is owed: its result, and the data after it.
pub open spec fn delete_task_outcome(old: DataView, new: DataView, task_id: Seq<char>, r: Result<TaskView>) -> bool {
    match r {
        Ok(t) => {
            let i = find_task(old.tasks, task_id, 0);
            &&& i < old.tasks.len()
            &&& t == old.tasks[i]
            &&& new == (DataView {
                tasks: reindexed(old.tasks.remove(i), t.list_id),
                ..old
            })
        },
        Err(e) => new == old && e == TaskError::TaskNotFound(e->TaskNotFound_0)
            && e->TaskNotFound_0@ == task_id && find_task(old.tasks, task_id, 0)
            == old.tasks.len(),
    }
}

/// What `apply_capture` is owed: its result, and the data after it.
pub open spec fn apply_capture_outcome(old: DataView, new: DataView, task_id: Seq<char>, captured: CapturedView, today: Seq<char>, r: Result<TaskView>) -> bool {
    match r {
        Ok(t) => {
            let i = find_task(old.tasks, task_id, 0);
            &&& i < old.tasks.len()
            &&& t == captured_into(old.tasks[i], captured, today)
            &&& new == (DataView { tasks: old.tasks.update(i, t), ..old })
        },
        Err(e) => new == old && e == TaskError::TaskNotFound(e->TaskNotFound_0)
            && e->TaskNotFound_0@ == task_id && find_task(old.tasks, task_id, 0)
            == old.tasks.len(),
    }
}

/// What `set_done` is owed: its result, and the data after it.
pub open spec fn set_done_outcome(old: DataView, new: DataView, task_id: Seq<char>, done: bool, r: Result<TaskView>) -> bool {
    match r {
        Ok(t) => {
            let i = find_task(old.tasks, task_id, 0);
            &&& i < old.tasks.len()
            &&& exists|now: u64| #[trigger] marked(old.tasks[i], done, now, done_target(old, task_id, done)) == t
            &&& new == (DataView {
                tasks: reindexed(reindexed(old.tasks.update(i, t), old.tasks[i].list_id), t.list_id),
                ..old
            })
        },
        Err(e) => new == old && e == TaskError::TaskNotFound(e->TaskNotFound_0)
            && e->TaskNotFound_0@ == task_id && find_task(old.tasks, task_id, 0)
            == old.tasks.len(),
    }
}

/// What `move_task` is owed: its result, and the data after it.
pub open spec fn move_task_outcome(old: DataView, new: DataView, task_id: Seq<char>, list_id: Seq<char>, position: Option<usize>, r: Result<TaskView>) -> bool {
    match r {
        Ok(t) => {
            let i = find_task(old.tasks, task_id, 0);
            let b = bumped(old.tasks, displaced(old, task_id, list_id, position))->0;
            &&& i < old.tasks.len()
            &&& list_of(old, list_id) is Some
            &&& exists|now: u64| #[trigger] placed(b[i], list_id, landing_index(old, list_id, position), list_status(old, list_id), now) == t
            &&& new == (DataView {
                tasks: reindexed(reindexed(b.update(i, t), old.tasks[i].list_id), list_id),
                ..old
            })
        },
        Err(e) => new == old && match e {
            TaskError::TaskNotFound(id) => id@ == task_id && find_task(old.tasks, task_id, 0) == old.tasks.len(),
            TaskError::ListNotFound(id) => id@ == list_id && find_task(old.tasks, task_id, 0) < old.tasks.len()
                && list_of(old, list_id) is None,
            _ => false,
        },
    }
}

/// What `add_board` is owed: its result, and the data after it.
pub open spec fn add_board_outcome(old: DataView, new: DataView, name: Seq<char>, r: Result<BoardView>) -> bool {
    match r {
        Ok(b) => trim(name).len() > 0 && fresh_board(b, name, old.boards.len() as u32)
            && new == (DataView { boards: old.boards.push(b), ..old }),
        Err(e) => new == old && e == TaskError::EmptyTitle && trim(name).len() == 0,
    }
}

/// What `add_list` is owed: its result, and the data after it.
pub open spec fn add_list_outcome(old: DataView, new: DataView, board_id: Seq<char>, name: Seq<char>, status: Option<Status>, r: Result<ListView>) -> bool {
    match r {
        Ok(l) => {
            let b = find_board(old.boards, board_id, 0);
            let board = old.boards[b];
            &&& trim(name).len() > 0
            &&& b < old.boards.len()
            &&& l.name == trim(name)
            &&& l.order == board.lists.len() as u32
            &&& l.status == status
            &&& exists|nanos: nat, seq: nat| l.id == #[trigger] crate::model::list_id_text(nanos, seq)
            &&& new == (DataView {
                boards: old.boards.update(b, BoardView { lists: board.lists.push(l), ..board }),
                ..old
            })
        },
        Err(e) => new == old && match e {
            TaskError::EmptyTitle => trim(name).len() == 0,
            TaskError::BoardNotFound(id) => id@ == board_id && trim(name).len() > 0
                && find_board(old.boards, board_id, 0) == old.boards.len(),
            _ => false,
        },
    }
}

} // verus!
