//! Changing a task's fields in place.
//!
//! An edit names only the fields it touches: every `Some` is written, every
//! `None` left as it was. For the optional fields, `Some(None)` clears.

use vstd::prelude::*;

use crate::changes::{result_view_of};
use crate::error::{Result, TaskError};
use crate::log::{latest, lemma_replay_distinct};
use crate::model::{copy_opt_string, copy_strings, now_millis, Task, TaskView};
use crate::persist::{committed, read_refusal, reads_as, Store, StoreView};
use crate::store::{find_task, lemma_tasks_view_update, Data, DataView};

verus! {

/// The fields an edit sets.
#[derive(Debug)]
pub struct TaskEdit {
    pub title: Option<String>,
    pub notes: Option<Option<String>>,
    pub due: Option<Option<String>>,
    pub today: Option<bool>,
    pub tags: Option<Vec<String>>,
    pub project: Option<Option<String>>,
    pub impact: Option<Option<u8>>,
    pub effort: Option<Option<u8>>,
    pub priority: Option<Option<u8>>,
    pub estimate_minutes: Option<Option<u32>>,
    pub origin: Option<Option<String>>,
}

pub struct TaskEditView {
    pub title: Option<Seq<char>>,
    pub notes: Option<Option<Seq<char>>>,
    pub due: Option<Option<Seq<char>>>,
    pub today: Option<bool>,
    pub tags: Option<Seq<Seq<char>>>,
    pub project: Option<Option<Seq<char>>>,
    pub impact: Option<Option<u8>>,
    pub effort: Option<Option<u8>>,
    pub priority: Option<Option<u8>>,
    pub estimate_minutes: Option<Option<u32>>,
    pub origin: Option<Option<Seq<char>>>,
}

impl View for TaskEdit {
    type V = TaskEditView;

    open spec fn view(&self) -> TaskEditView {
        TaskEditView {
            title: self.title.deep_view(),
            notes: self.notes.deep_view(),
            due: self.due.deep_view(),
            today: self.today,
            tags: self.tags.deep_view(),
            project: self.project.deep_view(),
            impact: self.impact,
            effort: self.effort,
            priority: self.priority,
            estimate_minutes: self.estimate_minutes,
            origin: self.origin.deep_view(),
        }
    }
}

/// An edit that sets nothing.
pub open spec fn no_edit() -> TaskEditView {
    TaskEditView {
        title: None,
        notes: None,
        due: None,
        today: None,
        tags: None,
        project: None,
        impact: None,
        effort: None,
        priority: None,
        estimate_minutes: None,
        origin: None,
    }
}

impl TaskEdit {
    /// An edit that sets nothing.
    pub fn none() -> (r: TaskEdit)
        ensures
            r@ == no_edit(),
    {
        TaskEdit {
            title: None,
            notes: None,
            due: None,
            today: None,
            tags: None,
            project: None,
            impact: None,
            effort: None,
            priority: None,
            estimate_minutes: None,
            origin: None,
        }
    }

    /// Whether the edit sets anything at all.
    pub fn is_empty(&self) -> (r: bool)
        ensures
            r == (self@ == no_edit()),
    {
        self.title.is_none() && self.notes.is_none() && self.due.is_none() && self.today.is_none()
            && self.tags.is_none() && self.project.is_none() && self.impact.is_none() && self.effort.is_none()
            && self.priority.is_none() && self.estimate_minutes.is_none() && self.origin.is_none()
    }
}

pub open spec fn or_keep<T>(set: Option<T>, kept: T) -> T {
    match set {
        Some(v) => v,
        None => kept,
    }
}

/// The task with the edit's fields written over it.
pub open spec fn edited(t: TaskView, e: TaskEditView) -> TaskView {
    TaskView {
        title: or_keep(e.title, t.title),
        notes: or_keep(e.notes, t.notes),
        due: or_keep(e.due, t.due),
        today: or_keep(e.today, t.today),
        tags: or_keep(e.tags, t.tags),
        project: or_keep(e.project, t.project),
        impact: or_keep(e.impact, t.impact),
        effort: or_keep(e.effort, t.effort),
        priority: or_keep(e.priority, t.priority),
        estimate_minutes: or_keep(e.estimate_minutes, t.estimate_minutes),
        origin: or_keep(e.origin, t.origin),
        ..t
    }
}

/// What `edit_task` is owed: the edited task, marked changed at some
/// moment, stands where it stood; an unknown id is reported.
pub open spec fn edit_task_outcome(old: DataView, new: DataView, task_id: Seq<char>, e: TaskEditView, r: Result<TaskView>) -> bool {
    let i = find_task(old.tasks, task_id, 0);
    match r {
        Ok(t) => {
            &&& i < old.tasks.len()
            &&& t == TaskView { updated_at: t.updated_at, ..edited(old.tasks[i], e) }
            &&& new == (DataView { tasks: old.tasks.update(i, t), ..old })
        },
        Err(err) => new == old && i == old.tasks.len() && err == TaskError::TaskNotFound(err->TaskNotFound_0)
            && err->TaskNotFound_0@ == task_id,
    }
}

fn pick<T: Copy>(set: Option<T>, kept: T) -> (r: T)
    ensures
        r == or_keep(set, kept),
{
    match set {
        Some(v) => v,
        None => kept,
    }
}

fn pick_text(set: &Option<String>, kept: &String) -> (r: String)
    ensures
        r@ == or_keep(set.deep_view(), kept@),
{
    match set {
        Some(v) => v.clone(),
        None => kept.clone(),
    }
}

fn pick_opt_text(set: &Option<Option<String>>, kept: &Option<String>) -> (r: Option<String>)
    ensures
        r.deep_view() == or_keep(set.deep_view(), kept.deep_view()),
{
    match set {
        Some(v) => copy_opt_string(v),
        None => copy_opt_string(kept),
    }
}

fn pick_tags(set: &Option<Vec<String>>, kept: &Vec<String>) -> (r: Vec<String>)
    ensures
        r.deep_view() == or_keep(set.deep_view(), kept.deep_view()),
{
    match set {
        Some(v) => copy_strings(v),
        None => copy_strings(kept),
    }
}

impl Data {
    /// Write an edit over a task and mark it changed.
    pub fn edit_task(&mut self, task_id: &str, edit: &TaskEdit) -> (r: Result<Task>)
        ensures
            edit_task_outcome(old(self)@, final(self)@, task_id@, edit@, result_view_of(r)),
    {
        let i = match self.task_index(task_id) {
            Some(i) => i,
            None => return Err(TaskError::TaskNotFound(task_id.to_owned())),
        };
        let old_t = &self.tasks[i];
        let mut t = Task {
            id: old_t.id.clone(),
            title: pick_text(&edit.title, &old_t.title),
            notes: pick_opt_text(&edit.notes, &old_t.notes),
            status: old_t.status,
            list_id: old_t.list_id.clone(),
            order: old_t.order,
            due: pick_opt_text(&edit.due, &old_t.due),
            today: pick(edit.today, old_t.today),
            tags: pick_tags(&edit.tags, &old_t.tags),
            project: pick_opt_text(&edit.project, &old_t.project),
            project_code: copy_opt_string(&old_t.project_code),
            assignee: copy_opt_string(&old_t.assignee),
            assigned_by: copy_opt_string(&old_t.assigned_by),
            origin: pick_opt_text(&edit.origin, &old_t.origin),
            priority: pick(edit.priority, old_t.priority),
            estimate_minutes: pick(edit.estimate_minutes, old_t.estimate_minutes),
            impact: pick(edit.impact, old_t.impact),
            effort: pick(edit.effort, old_t.effort),
            created_at: old_t.created_at,
            updated_at: old_t.updated_at,
            completed_at: old_t.completed_at,
            external_id: copy_opt_string(&old_t.external_id),
            revision: old_t.revision,
            deleted: old_t.deleted,
        };
        t.touch();
        let updated = t.duplicate();
        proof {
            lemma_tasks_view_update(self.tasks@, i as int);
        }
        self.tasks.set(i, t);
        proof {
            assert(self@.tasks =~= old(self)@.tasks.update(i as int, updated@));
            assert(updated@ == TaskView { updated_at: updated@.updated_at, ..edited(old(self)@.tasks[i as int], edit@) });
        }
        Ok(updated)
    }
}

/// An edit made through the store: read, edited, committed; or refused
/// with the store untouched.
pub open spec fn edited_in_store(old: StoreView, new: StoreView, task_id: Seq<char>, e: TaskEditView, r: Result<TaskView>) -> bool {
    match r {
        Ok(t) => exists|before: DataView, after: DataView, now: u64|
            #[trigger] committed(old, new, before, after, now) && reads_as(old, before)
            && edit_task_outcome(before, after, task_id, e, Ok(t)),
        Err(err) => new == old && (read_refusal(old, err) || exists|before: DataView|
            #[trigger] reads_as(old, before) && edit_task_outcome(before, before, task_id, e, Err(err))),
    }
}

impl Store {
    /// Change the fields an edit names on a task, through the log.
    pub fn update_task(&mut self, task_id: &str, edit: &TaskEdit) -> (r: Result<Task>)
        ensures
            edited_in_store(old(self)@, final(self)@, task_id@, edit@, result_view_of(r)),
    {
        let before = match self.read() {
            Ok(d) => d,
            Err(e) => return Err(e),
        };
        let mut data = crate::persist::copy_data(&before);
        let now = now_millis();
        match data.edit_task(task_id, edit) {
            Ok(x) => {
                proof {
                    reveal(reads_as);
                    lemma_replay_distinct(latest(self@.records), before@.tasks);
                }
                self.commit(&before, data, now);
                Ok(x)
            },
            Err(e) => Err(e),
        }
    }
}

/// A matrix score as kept: brought within 1 to 10.
pub open spec fn clamped_score(v: u8) -> u8 {
    if v < 1 {
        1
    } else if v > 10 {
        10
    } else {
        v
    }
}

/// A score to set, clamped; `Some(None)` still clears.
pub open spec fn clamped_setting(v: Option<Option<u8>>) -> Option<Option<u8>> {
    match v {
        Some(Some(x)) => Some(Some(clamped_score(x))),
        other => other,
    }
}

/// The edit that sets a task's matrix scores and nothing else.
pub open spec fn score_edit(impact: Option<Option<u8>>, effort: Option<Option<u8>>) -> TaskEditView {
    TaskEditView { impact: clamped_setting(impact), effort: clamped_setting(effort), ..no_edit() }
}

fn clamp_setting(v: Option<Option<u8>>) -> (r: Option<Option<u8>>)
    ensures
        r == clamped_setting(v),
{
    match v {
        Some(Some(x)) => Some(Some(if x < 1 {
            1
        } else if x > 10 {
            10
        } else {
            x
        })),
        other => other,
    }
}

impl Store {
    /// Set the matrix scores. `Some(None)` clears one, which takes the task
    /// off the matrix rather than parking it at zero; a score given is
    /// brought within 1 to 10.
    pub fn score_task(&mut self, task_id: &str, impact: Option<Option<u8>>, effort: Option<Option<u8>>) -> (r: Result<Task>)
        ensures
            edited_in_store(old(self)@, final(self)@, task_id@, score_edit(impact, effort), result_view_of(r)),
    {
        let mut edit = TaskEdit::none();
        edit.impact = clamp_setting(impact);
        edit.effort = clamp_setting(effort);
        proof {
            assert(edit@ == score_edit(impact, effort));
        }
        self.update_task(task_id, &edit)
    }
}

} // verus!
