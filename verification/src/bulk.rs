//! Changes that sweep over every task (renaming and removing projects and
//! tags) and changes to the settings.

use vstd::prelude::*;

use crate::dates::{civil_days, civil_days_of};
use crate::error::{Result, TaskError};
use crate::model::{Task, TaskView};
use crate::sorting::{sort_strings, sorted_text};
use crate::store::{Data, DataView, Settings, SettingsView};
use crate::text::{chars_of, eq_ignore_case, same_ignoring_ascii_case, str_eq, trim, trim_str};

verus! {

/// Whether two texts are equal ignoring ASCII case.
pub fn same_ci(a: &str, b: &str) -> (r: bool)
    ensures
        r == same_ignoring_ascii_case(a@, b@),
{
    let x = chars_of(a);
    let y = chars_of(b);
    eq_ignore_case(x.as_slice(), y.as_slice())
}

/// How many tasks satisfy `p`.
pub open spec fn count_where(s: Seq<TaskView>, p: spec_fn(TaskView) -> bool) -> nat
    decreases s.len(),
{
    if s.len() == 0 {
        0
    } else {
        count_where(s.drop_last(), p) + if p(s.last()) {
            1nat
        } else {
            0nat
        }
    }
}

proof fn lemma_count_where_step(s: Seq<TaskView>, p: spec_fn(TaskView) -> bool, i: int)
    requires
        0 <= i < s.len(),
    ensures
        count_where(s.take(i + 1), p) == count_where(s.take(i), p) + if p(s[i]) {
            1nat
        } else {
            0nat
        },
        count_where(s.take(i), p) <= i,
    decreases i,
{
    assert(s.take(i + 1).drop_last() =~= s.take(i));
    if i > 0 {
        lemma_count_where_step(s, p, i - 1);
    } else {
        assert(s.take(0).len() == 0);
    }
}

// ---------------------------------------------------------------------------
// projects
// ---------------------------------------------------------------------------

/// A task's project, or the empty text where it has none.
pub open spec fn project_text(t: TaskView) -> Seq<char> {
    match t.project {
        Some(p) => p,
        None => Seq::empty(),
    }
}

/// Whether renaming the project `from` to `to` changes the task: its
/// project is `from` ignoring case and surrounding spaces, and is not
/// already spelled exactly `to`.
pub open spec fn renames_project(t: TaskView, from: Seq<char>, to: Seq<char>) -> bool {
    same_ignoring_ascii_case(trim(project_text(t)), from) && project_text(t) != to
}

pub open spec fn with_project(t: TaskView, from: Seq<char>, to: Seq<char>, now: u64) -> TaskView {
    if renames_project(t, from, to) {
        TaskView { project: Some(to), updated_at: now, ..t }
    } else {
        t
    }
}

/// What renaming a project does: both names are trimmed and must not be
/// empty; every task it applies to is renamed, and the count comes back.
pub open spec fn rename_project_outcome(
    old: DataView,
    new: DataView,
    from: Seq<char>,
    to: Seq<char>,
    now: u64,
    r: Result<usize>,
) -> bool {
    let f = trim(from);
    let t = trim(to);
    if f.len() == 0 || t.len() == 0 {
        new == old && r == Err::<usize, TaskError>(TaskError::EmptyTitle)
    } else {
        &&& new == (DataView { tasks: old.tasks.map_values(|x: TaskView| with_project(x, f, t, now)), ..old })
        &&& r == Ok::<usize, TaskError>(count_where(old.tasks, |x: TaskView| renames_project(x, f, t)) as usize)
    }
}

/// Whether removing the project `name` changes the task.
pub open spec fn drops_project(t: TaskView, name: Seq<char>) -> bool {
    match t.project {
        Some(p) => same_ignoring_ascii_case(trim(p), name),
        None => false,
    }
}

pub open spec fn without_project(t: TaskView, name: Seq<char>, now: u64) -> TaskView {
    if drops_project(t, name) {
        TaskView { project: None, updated_at: now, ..t }
    } else {
        t
    }
}

/// What removing a project does: every task carrying it (ignoring case and
/// surrounding spaces) loses it, and the count comes back.
pub open spec fn delete_project_outcome(old: DataView, new: DataView, name: Seq<char>, now: u64, r: Result<usize>) -> bool {
    let n = trim(name);
    &&& new == (DataView { tasks: old.tasks.map_values(|x: TaskView| without_project(x, n, now)), ..old })
    &&& r == Ok::<usize, TaskError>(count_where(old.tasks, |x: TaskView| drops_project(x, n)) as usize)
}

fn project_renamed(t: &Task, from: &str, to: &str, now: u64) -> (r: (Task, bool))
    ensures
        r.1 == renames_project(t@, from@, to@),
        r.0@ == with_project(t@, from@, to@, now),
{
    let current: String = match &t.project {
        Some(p) => p.clone(),
        None => String::new(),
    };
    proof {
        assert(current@ == project_text(t@));
    }
    let trimmed = trim_str(current.as_str());
    if same_ci(trimmed.as_str(), from) && !str_eq(current.as_str(), to) {
        let mut n = t.duplicate();
        n.project = Some(to.to_owned());
        n.updated_at = now;
        (n, true)
    } else {
        (t.duplicate(), false)
    }
}

fn project_dropped(t: &Task, name: &str, now: u64) -> (r: (Task, bool))
    ensures
        r.1 == drops_project(t@, name@),
        r.0@ == without_project(t@, name@, now),
{
    let hit = match &t.project {
        Some(p) => {
            let trimmed = trim_str(p.as_str());
            same_ci(trimmed.as_str(), name)
        },
        None => false,
    };
    if hit {
        let mut n = t.duplicate();
        n.project = None;
        n.updated_at = now;
        (n, true)
    } else {
        (t.duplicate(), false)
    }
}

impl Data {
    /// Rename a project across every task carrying it, returning how many
    /// changed. Matching ignores case, so near-duplicates can be merged by
    /// renaming one onto the other; a task already spelled exactly right is
    /// left alone.
    pub fn rename_project(&mut self, from: &str, to: &str, now: u64) -> (r: Result<usize>)
        ensures
            rename_project_outcome(old(self)@, final(self)@, from@, to@, now, r),
    {
        let f = trim_str(from);
        let t = trim_str(to);
        if f.as_str().is_empty() || t.as_str().is_empty() {
            return Err(TaskError::EmptyTitle);
        }
        let ghost p = |x: TaskView| renames_project(x, f@, t@);
        let ghost g = |x: TaskView| with_project(x, f@, t@, now);
        let ghost o = old(self)@.tasks;
        let mut changed: usize = 0;
        let mut i: usize = 0;
        while i < self.tasks.len()
            invariant
                o == old(self)@.tasks,
                p == (|x: TaskView| renames_project(x, f@, t@)),
                g == (|x: TaskView| with_project(x, f@, t@, now)),
                i <= self@.tasks.len(),
                self@.tasks.len() == o.len(),
                self@.boards == old(self)@.boards,
                self@.revision == old(self)@.revision,
                self@.settings == old(self)@.settings,
                forall|k: int| 0 <= k < i ==> self@.tasks[k] == g(o[k]),
                forall|k: int| i <= k < o.len() ==> self@.tasks[k] == o[k],
                changed == count_where(o.take(i as int), p),
            decreases o.len() - i,
        {
            proof {
                lemma_count_where_step(o, p, i as int);
                assert(self@.tasks[i as int] == self.tasks@[i as int]@);
            }
            let (n, hit) = project_renamed(&self.tasks[i], f.as_str(), t.as_str(), now);
            if hit {
                changed = changed + 1;
            }
            let ghost cur = self@.tasks;
            let ghost nv = n@;
            proof {
                assert(nv == g(o[i as int]));
                assert(hit == p(o[i as int]));
                crate::store::lemma_tasks_view_update(self.tasks@, i as int);
            }
            self.tasks.set(i, n);
            proof {
                assert(self@.tasks == cur.update(i as int, nv));
            }
            i = i + 1;
        }
        proof {
            assert(o.take(i as int) =~= o);
            assert(self@.tasks =~= o.map_values(g));
        }
        Ok(changed)
    }

    /// Remove a project from every task carrying it; the tasks stay.
    pub fn delete_project(&mut self, name: &str, now: u64) -> (r: Result<usize>)
        ensures
            delete_project_outcome(old(self)@, final(self)@, name@, now, r),
    {
        let n = trim_str(name);
        let ghost p = |x: TaskView| drops_project(x, n@);
        let ghost g = |x: TaskView| without_project(x, n@, now);
        let ghost o = old(self)@.tasks;
        let mut changed: usize = 0;
        let mut i: usize = 0;
        while i < self.tasks.len()
            invariant
                o == old(self)@.tasks,
                p == (|x: TaskView| drops_project(x, n@)),
                g == (|x: TaskView| without_project(x, n@, now)),
                i <= self@.tasks.len(),
                self@.tasks.len() == o.len(),
                self@.boards == old(self)@.boards,
                self@.revision == old(self)@.revision,
                self@.settings == old(self)@.settings,
                forall|k: int| 0 <= k < i ==> self@.tasks[k] == g(o[k]),
                forall|k: int| i <= k < o.len() ==> self@.tasks[k] == o[k],
                changed == count_where(o.take(i as int), p),
            decreases o.len() - i,
        {
            proof {
                lemma_count_where_step(o, p, i as int);
                assert(self@.tasks[i as int] == self.tasks@[i as int]@);
            }
            let (t, hit) = project_dropped(&self.tasks[i], n.as_str(), now);
            if hit {
                changed = changed + 1;
            }
            let ghost cur = self@.tasks;
            let ghost nv = t@;
            proof {
                assert(nv == g(o[i as int]));
                assert(hit == p(o[i as int]));
                crate::store::lemma_tasks_view_update(self.tasks@, i as int);
            }
            self.tasks.set(i, t);
            proof {
                assert(self@.tasks == cur.update(i as int, nv));
            }
            i = i + 1;
        }
        proof {
            assert(o.take(i as int) =~= o);
            assert(self@.tasks =~= o.map_values(g));
        }
        Ok(changed)
    }
}

// ---------------------------------------------------------------------------
// tags
// ---------------------------------------------------------------------------

/// Whether some tag is `x`, ignoring case and surrounding spaces.
pub open spec fn has_tag_like(tags: Seq<Seq<char>>, x: Seq<char>) -> bool {
    exists|i: int| 0 <= i < tags.len() && same_ignoring_ascii_case(trim(#[trigger] tags[i]), x)
}

/// The tags that are not `x`, ignoring case and surrounding spaces.
pub open spec fn tags_without(tags: Seq<Seq<char>>, x: Seq<char>) -> Seq<Seq<char>> {
    tags.filter(|tag: Seq<char>| !same_ignoring_ascii_case(trim(tag), x))
}

/// Whether renaming the tag `from` to `to` changes the task: it carries
/// `from`, and is not already carrying `to` under a rename that only
/// changes case.
pub open spec fn renames_tag(t: TaskView, from: Seq<char>, to: Seq<char>) -> bool {
    has_tag_like(t.tags, from) && !(t.tags.contains(to) && same_ignoring_ascii_case(from, to))
}

/// A task's tags after renaming `from` to `to`: `from` goes, `to` is added
/// unless already there, and the tags are sorted.
pub open spec fn retagged(tags: Seq<Seq<char>>, from: Seq<char>, to: Seq<char>) -> Seq<Seq<char>> {
    let kept = tags_without(tags, from);
    sorted_text(
        if has_tag_like(kept, to) {
            kept
        } else {
            kept.push(to)
        },
    )
}

pub open spec fn with_tag_renamed(t: TaskView, from: Seq<char>, to: Seq<char>, now: u64) -> TaskView {
    if renames_tag(t, from, to) {
        TaskView { tags: retagged(t.tags, from, to), updated_at: now, ..t }
    } else {
        t
    }
}

/// What renaming a tag does: both names are trimmed and must not be empty;
/// every task it applies to is retagged, and the count comes back.
pub open spec fn rename_tag_outcome(
    old: DataView,
    new: DataView,
    from: Seq<char>,
    to: Seq<char>,
    now: u64,
    r: Result<usize>,
) -> bool {
    let f = trim(from);
    let t = trim(to);
    if f.len() == 0 || t.len() == 0 {
        new == old && r == Err::<usize, TaskError>(TaskError::EmptyTitle)
    } else {
        &&& new == (DataView { tasks: old.tasks.map_values(|x: TaskView| with_tag_renamed(x, f, t, now)), ..old })
        &&& r == Ok::<usize, TaskError>(count_where(old.tasks, |x: TaskView| renames_tag(x, f, t)) as usize)
    }
}

/// Whether removing the tag `name` changes the task.
pub open spec fn drops_tag(t: TaskView, name: Seq<char>) -> bool {
    tags_without(t.tags, name).len() != t.tags.len()
}

pub open spec fn without_tag(t: TaskView, name: Seq<char>, now: u64) -> TaskView {
    if drops_tag(t, name) {
        TaskView { tags: tags_without(t.tags, name), updated_at: now, ..t }
    } else {
        t
    }
}

/// What removing a tag does: it goes from every task (ignoring case and
/// surrounding spaces), and the count of tasks that lost it comes back.
pub open spec fn delete_tag_outcome(old: DataView, new: DataView, name: Seq<char>, now: u64, r: Result<usize>) -> bool {
    let n = trim(name);
    &&& new == (DataView { tasks: old.tasks.map_values(|x: TaskView| without_tag(x, n, now)), ..old })
    &&& r == Ok::<usize, TaskError>(count_where(old.tasks, |x: TaskView| drops_tag(x, n)) as usize)
}

fn has_tag_like_exec(tags: &Vec<String>, x: &str) -> (r: bool)
    ensures
        r == has_tag_like(tags.deep_view(), x@),
{
    let mut i: usize = 0;
    while i < tags.len()
        invariant
            i <= tags@.len(),
            forall|k: int| 0 <= k < i ==> !same_ignoring_ascii_case(trim(#[trigger] tags.deep_view()[k]), x@),
        decreases tags@.len() - i,
    {
        let t = trim_str(tags[i].as_str());
        if same_ci(t.as_str(), x) {
            assert(tags.deep_view()[i as int] == tags@[i as int]@);
            return true;
        }
        i = i + 1;
    }
    false
}

fn contains_text(tags: &Vec<String>, x: &str) -> (r: bool)
    ensures
        r == tags.deep_view().contains(x@),
{
    let mut i: usize = 0;
    while i < tags.len()
        invariant
            i <= tags@.len(),
            forall|k: int| 0 <= k < i ==> tags.deep_view()[k] != x@,
        decreases tags@.len() - i,
    {
        if str_eq(tags[i].as_str(), x) {
            assert(tags.deep_view()[i as int] == x@);
            return true;
        }
        i = i + 1;
    }
    false
}

fn keep_tags_without(tags: &Vec<String>, x: &str) -> (r: Vec<String>)
    ensures
        r.deep_view() == tags_without(tags.deep_view(), x@),
{
    let ghost keep = |tag: Seq<char>| !same_ignoring_ascii_case(trim(tag), x@);
    let mut r: Vec<String> = Vec::new();
    let mut i: usize = 0;
    while i < tags.len()
        invariant
            i <= tags@.len(),
            keep == (|tag: Seq<char>| !same_ignoring_ascii_case(trim(tag), x@)),
            r.deep_view() == tags.deep_view().take(i as int).filter(keep),
        decreases tags@.len() - i,
    {
        proof {
            assert(tags.deep_view().take(i + 1).drop_last() =~= tags.deep_view().take(i as int));
            assert(tags.deep_view()[i as int] == tags@[i as int]@);
        }
        let t = trim_str(tags[i].as_str());
        let ghost s1 = tags.deep_view().take(i + 1);
        proof {
            assert(s1.last() == tags@[i as int]@);
            assert(s1.drop_last() == tags.deep_view().take(i as int));
            reveal(Seq::filter);
        }
        if !same_ci(t.as_str(), x) {
            let ghost before = r.deep_view();
            r.push(tags[i].clone());
            proof {
                assert(keep(s1.last()));
                assert(r.deep_view() =~= before.push(tags@[i as int]@));
                assert(s1.filter(keep) == before.push(s1.last()));
            }
        } else {
            proof {
                assert(!keep(s1.last()));
                assert(s1.filter(keep) == r.deep_view());
            }
        }
        i = i + 1;
    }
    proof {
        assert(tags.deep_view().take(i as int) =~= tags.deep_view());
    }
    r
}

fn tag_renamed(t: &Task, from: &str, to: &str, now: u64) -> (r: (Task, bool))
    ensures
        r.1 == renames_tag(t@, from@, to@),
        r.0@ == with_tag_renamed(t@, from@, to@, now),
{
    if !has_tag_like_exec(&t.tags, from) {
        return (t.duplicate(), false);
    }
    if contains_text(&t.tags, to) && same_ci(from, to) {
        return (t.duplicate(), false);
    }
    let mut kept = keep_tags_without(&t.tags, from);
    if !has_tag_like_exec(&kept, to) {
        let ghost before = kept.deep_view();
        kept.push(to.to_owned());
        proof {
            assert(kept.deep_view() =~= before.push(to@));
        }
    }
    let tags = sort_strings(kept);
    let mut n = t.duplicate();
    n.tags = tags;
    n.updated_at = now;
    (n, true)
}

fn tag_dropped(t: &Task, name: &str, now: u64) -> (r: (Task, bool))
    ensures
        r.1 == drops_tag(t@, name@),
        r.0@ == without_tag(t@, name@, now),
{
    let kept = keep_tags_without(&t.tags, name);
    if kept.len() != t.tags.len() {
        let mut n = t.duplicate();
        n.tags = kept;
        n.updated_at = now;
        (n, true)
    } else {
        (t.duplicate(), false)
    }
}

impl Data {
    /// Rename a tag everywhere, merging into an existing one where it
    /// collides, and keeping each task's tags sorted.
    pub fn rename_tag(&mut self, from: &str, to: &str, now: u64) -> (r: Result<usize>)
        ensures
            rename_tag_outcome(old(self)@, final(self)@, from@, to@, now, r),
    {
        let f = trim_str(from);
        let t = trim_str(to);
        if f.as_str().is_empty() || t.as_str().is_empty() {
            return Err(TaskError::EmptyTitle);
        }
        let ghost p = |x: TaskView| renames_tag(x, f@, t@);
        let ghost g = |x: TaskView| with_tag_renamed(x, f@, t@, now);
        let ghost o = old(self)@.tasks;
        let mut changed: usize = 0;
        let mut i: usize = 0;
        while i < self.tasks.len()
            invariant
                o == old(self)@.tasks,
                p == (|x: TaskView| renames_tag(x, f@, t@)),
                g == (|x: TaskView| with_tag_renamed(x, f@, t@, now)),
                i <= self@.tasks.len(),
                self@.tasks.len() == o.len(),
                self@.boards == old(self)@.boards,
                self@.revision == old(self)@.revision,
                self@.settings == old(self)@.settings,
                forall|k: int| 0 <= k < i ==> self@.tasks[k] == g(o[k]),
                forall|k: int| i <= k < o.len() ==> self@.tasks[k] == o[k],
                changed == count_where(o.take(i as int), p),
            decreases o.len() - i,
        {
            proof {
                lemma_count_where_step(o, p, i as int);
                assert(self@.tasks[i as int] == self.tasks@[i as int]@);
            }
            let (n, hit) = tag_renamed(&self.tasks[i], f.as_str(), t.as_str(), now);
            if hit {
                changed = changed + 1;
            }
            let ghost cur = self@.tasks;
            let ghost nv = n@;
            proof {
                assert(nv == g(o[i as int]));
                assert(hit == p(o[i as int]));
                crate::store::lemma_tasks_view_update(self.tasks@, i as int);
            }
            self.tasks.set(i, n);
            proof {
                assert(self@.tasks == cur.update(i as int, nv));
            }
            i = i + 1;
        }
        proof {
            assert(o.take(i as int) =~= o);
            assert(self@.tasks =~= o.map_values(g));
        }
        Ok(changed)
    }

    /// Remove a tag from every task.
    pub fn delete_tag(&mut self, name: &str, now: u64) -> (r: Result<usize>)
        ensures
            delete_tag_outcome(old(self)@, final(self)@, name@, now, r),
    {
        let n = trim_str(name);
        let ghost p = |x: TaskView| drops_tag(x, n@);
        let ghost g = |x: TaskView| without_tag(x, n@, now);
        let ghost o = old(self)@.tasks;
        let mut changed: usize = 0;
        let mut i: usize = 0;
        while i < self.tasks.len()
            invariant
                o == old(self)@.tasks,
                p == (|x: TaskView| drops_tag(x, n@)),
                g == (|x: TaskView| without_tag(x, n@, now)),
                i <= self@.tasks.len(),
                self@.tasks.len() == o.len(),
                self@.boards == old(self)@.boards,
                self@.revision == old(self)@.revision,
                self@.settings == old(self)@.settings,
                forall|k: int| 0 <= k < i ==> self@.tasks[k] == g(o[k]),
                forall|k: int| i <= k < o.len() ==> self@.tasks[k] == o[k],
                changed == count_where(o.take(i as int), p),
            decreases o.len() - i,
        {
            proof {
                lemma_count_where_step(o, p, i as int);
                assert(self@.tasks[i as int] == self.tasks@[i as int]@);
            }
            let (t, hit) = tag_dropped(&self.tasks[i], n.as_str(), now);
            if hit {
                changed = changed + 1;
            }
            let ghost cur = self@.tasks;
            let ghost nv = t@;
            proof {
                assert(nv == g(o[i as int]));
                assert(hit == p(o[i as int]));
                crate::store::lemma_tasks_view_update(self.tasks@, i as int);
            }
            self.tasks.set(i, t);
            proof {
                assert(self@.tasks == cur.update(i as int, nv));
            }
            i = i + 1;
        }
        proof {
            assert(o.take(i as int) =~= o);
            assert(self@.tasks =~= o.map_values(g));
        }
        Ok(changed)
    }
}

// ---------------------------------------------------------------------------
// settings
// ---------------------------------------------------------------------------

/// The days below `n` that occur in `days`, ascending, once each.
pub open spec fn week_upto(days: Seq<u8>, n: int) -> Seq<u8>
    decreases n,
{
    if n <= 0 {
        Seq::empty()
    } else if days.contains((n - 1) as u8) {
        week_upto(days, n - 1).push((n - 1) as u8)
    } else {
        week_upto(days, n - 1)
    }
}

/// A working week: the day numbers 0 to 6 that occur, ascending, once each.
/// Anything above 6 is dropped.
pub open spec fn working_week(days: Seq<u8>) -> Seq<u8> {
    week_upto(days, 7)
}

/// Holidays as kept: each trimmed, unreadable dates dropped, sorted, and
/// repeats removed.
pub open spec fn clean_holidays(dates: Seq<Seq<char>>) -> Seq<Seq<char>> {
    crate::changes::dedup_exact(
        sorted_text(
            dates.map_values(|d: Seq<char>| trim(d)).filter(|d: Seq<char>| civil_days_of(d) is Some),
        ),
    )
}

/// Settings after one field has been replaced.
pub open spec fn settings_changed(old: DataView, new: DataView, s: SettingsView, r: SettingsView) -> bool {
    new == (DataView { settings: s, ..old }) && r == s
}

fn contains_day(days: &Vec<u8>, d: u8) -> (r: bool)
    ensures
        r == days@.contains(d),
{
    let mut i: usize = 0;
    while i < days.len()
        invariant
            i <= days@.len(),
            forall|k: int| 0 <= k < i ==> days@[k] != d,
        decreases days@.len() - i,
    {
        if days[i] == d {
            return true;
        }
        i = i + 1;
    }
    false
}

fn dedup_texts(v: &Vec<String>) -> (r: Vec<String>)
    ensures
        r.deep_view() == crate::changes::dedup_exact(v.deep_view()),
{
    let ghost s = v.deep_view();
    let mut r: Vec<String> = Vec::new();
    let mut i: usize = 0;
    while i < v.len()
        invariant
            s == v.deep_view(),
            i <= v@.len(),
            r.deep_view() == crate::changes::dedup_exact(s.take(i as int)),
            i > 0 ==> r@.len() > 0 && r.deep_view().last() == s[i - 1],
        decreases v@.len() - i,
    {
        let ghost t = s.take(i + 1);
        proof {
            assert(t.drop_last() =~= s.take(i as int));
            assert(t.last() == s[i as int]);
            assert(s[i as int] == v@[i as int]@);
            if i > 0 {
                assert(t[t.len() - 2] == s[i - 1]);
            }
        }
        if i == 0 {
            r.push(v[i].clone());
            proof {
                assert(t =~= seq![s[0]]);
                assert(r.deep_view() =~= t);
            }
        } else {
            let last = r.len() - 1;
            proof {
                assert(r.deep_view()[last as int] == r@[last as int]@);
            }
            if !str_eq(r[last].as_str(), v[i].as_str()) {
                let ghost before = r.deep_view();
                r.push(v[i].clone());
                proof {
                    assert(r.deep_view() =~= before.push(s[i as int]));
                }
            }
        }
        i = i + 1;
    }
    proof {
        assert(s.take(i as int) =~= s);
    }
    r
}

impl Data {
    /// Change how long a completed task stays visible, up to a year.
    pub fn set_hide_completed_after_days(&mut self, days: u32) -> (r: Settings)
        ensures
            settings_changed(
                old(self)@,
                final(self)@,
                SettingsView {
                    hide_completed_after_days: if days < 365 {
                        days
                    } else {
                        365
                    },
                    ..old(self)@.settings
                },
                r@,
            ),
    {
        self.settings.hide_completed_after_days = if days < 365 {
            days
        } else {
            365
        };
        self.settings.duplicate()
    }

    /// Change the daily focus goal, kept between 1 and 16 so it is neither
    /// meaningless nor out of reach.
    pub fn set_daily_goal(&mut self, sessions: u32) -> (r: Settings)
        ensures
            settings_changed(
                old(self)@,
                final(self)@,
                SettingsView {
                    daily_focus_goal: if sessions < 1 {
                        1
                    } else if sessions > 16 {
                        16
                    } else {
                        sessions
                    },
                    ..old(self)@.settings
                },
                r@,
            ),
    {
        self.settings.daily_focus_goal = if sessions < 1 {
            1
        } else if sessions > 16 {
            16
        } else {
            sessions
        };
        self.settings.duplicate()
    }

    /// Replace the working week. Day numbers above 6 are dropped rather than
    /// refused: a bad day is a caller's slip, not a reason to lose the rest.
    pub fn set_working_days(&mut self, days: Vec<u8>) -> (r: Settings)
        ensures
            settings_changed(
                old(self)@,
                final(self)@,
                SettingsView { working_days: working_week(days@), ..old(self)@.settings },
                r@,
            ),
    {
        let mut week: Vec<u8> = Vec::new();
        let mut d: u8 = 0;
        while d < 7
            invariant
                d <= 7,
                week@ == week_upto(days@, d as int),
            decreases 7 - d,
        {
            if contains_day(&days, d) {
                week.push(d);
            }
            d = d + 1;
        }
        self.settings.working_days = week;
        self.settings.duplicate()
    }

    /// Replace the non-working dates: each is trimmed, unreadable ones are
    /// dropped, and the rest kept sorted without repeats.
    pub fn set_holidays(&mut self, holidays: Vec<String>) -> (r: Settings)
        ensures
            settings_changed(
                old(self)@,
                final(self)@,
                SettingsView { holidays: clean_holidays(holidays.deep_view()), ..old(self)@.settings },
                r@,
            ),
    {
        let ghost src = holidays.deep_view().map_values(|d: Seq<char>| trim(d));
        let ghost ok = |d: Seq<char>| civil_days_of(d) is Some;
        let mut kept: Vec<String> = Vec::new();
        let mut i: usize = 0;
        while i < holidays.len()
            invariant
                i <= holidays@.len(),
                src == holidays.deep_view().map_values(|d: Seq<char>| trim(d)),
                ok == (|d: Seq<char>| civil_days_of(d) is Some),
                kept.deep_view() == src.take(i as int).filter(ok),
            decreases holidays@.len() - i,
        {
            let t = trim_str(holidays[i].as_str());
            let ghost s1 = src.take(i + 1);
            proof {
                assert(s1.drop_last() =~= src.take(i as int));
                assert(s1.last() == trim(holidays@[i as int]@));
                reveal(Seq::filter);
            }
            if civil_days(t.as_str()).is_some() {
                let ghost before = kept.deep_view();
                kept.push(t);
                proof {
                    assert(kept.deep_view() =~= before.push(s1.last()));
                }
            }
            i = i + 1;
        }
        proof {
            assert(src.take(i as int) =~= src);
        }
        let sorted = sort_strings(kept);
        let clean = dedup_texts(&sorted);
        self.settings.holidays = clean;
        self.settings.duplicate()
    }
}

} // verus!
