//! A whole team's task stores, not just your own.
//!
//! A team is a folder of person folders, each an ordinary store. Members are
//! the siblings of your own store that hold a task log, so there is nothing
//! to configure. Focus sessions are deliberately not shared: a count and a
//! streak say the encouraging part without the timesheet.
//!
//! Everything here is read-only but assignment, which goes through the
//! ordinary store API of the colleague's store.

use vstd::prelude::*;

use crate::capture::capture_of;

use crate::error::{Result, TaskError};
use crate::log::views;
use crate::model::{copy_opt_string, Status, Task, TaskView};
use crate::model::{Session};
use crate::persist::{opened, Found, Store, StoreView};
use crate::sorting::{
    lemma_sorted_by_in_order, lemma_sorted_by_map, lemma_sorted_by_members, ranked_less, sort_stable, sorted_by, strict_weak, text_less,
    text_lt, Ranked,
};
use crate::text::{chars_of, same_ignoring_ascii_case, str_eq};

verus! {

/// Where a member publishes their focus summary.
pub const FOCUS_FILE: &'static str = "focus.json";

/// What a team folder's `.gitignore` should contain: session logs stay on
/// the machine that recorded them.
pub const TEAM_GITIGNORE: &'static str = "# The session log records when somebody sat down, which is a timesheet. It\n# stays on the machine that wrote it. focus.json — a count and a streak — is\n# published instead, and is shared.\nsessions.jsonl\n";

/// What a team folder's `.gitattributes` should contain: task logs merge by
/// appending, which Git's union driver does.
pub const TEAM_GITATTRIBUTES: &'static str = "*.jsonl merge=union\n";

/// Someone whose tasks we can see.
#[derive(Debug)]
pub struct Member {
    /// The folder name, which is how the team refers to each other.
    pub name: String,
    pub root: String,
    /// Whether this is the store the app itself is using.
    pub is_me: bool,
}

pub struct MemberView {
    pub name: Seq<char>,
    pub root: Seq<char>,
    pub is_me: bool,
}

impl View for Member {
    type V = MemberView;

    open spec fn view(&self) -> MemberView {
        MemberView { name: self.name@, root: self.root@, is_me: self.is_me }
    }
}

/// A person's focus, as numbers rather than a log.
#[derive(Debug, Default)]
pub struct FocusSummary {
    /// The day these numbers describe, `YYYY-MM-DD`.
    pub date: String,
    pub sessions_today: u32,
    pub focus_minutes_today: u64,
    pub streak_days: u32,
    /// When it was last written, so a stale summary can be shown as stale.
    pub updated_at: u64,
}

/// Members in name order.
pub open spec fn name_order() -> spec_fn(MemberView, MemberView) -> bool {
    |a: MemberView, b: MemberView| text_less(a.name, b.name)
}

/// Whether a folder name is machinery rather than a person.
pub open spec fn hidden_name(name: Seq<char>) -> bool {
    name.len() > 0 && name[0] == '.'
}

/// The team among the store folders beside yours: dot folders dropped, in
/// name order, and nobody at all unless there are at least two.
pub open spec fn team_of(found: Seq<MemberView>) -> Seq<MemberView> {
    let people = found.filter(|m: MemberView| !hidden_name(m.name));
    if people.len() < 2 {
        Seq::empty()
    } else {
        sorted_by(people, name_order())
    }
}

impl Ranked for Member {
    open spec fn before(&self, other: &Self) -> bool {
        text_less(self.name@, other.name@)
    }

    fn goes_before(&self, other: &Self) -> (r: bool) {
        text_lt(self.name.as_str(), other.name.as_str())
    }
}

fn starts_with_dot(name: &str) -> (r: bool)
    ensures
        r == hidden_name(name@),
{
    let v = chars_of(name);
    v.len() > 0 && v[0] == '.'
}

/// Everyone whose store sits beside yours, you included, in name order,
/// given the store folders found there. Working alone is not a team of
/// one: fewer than two people gives nobody.
pub fn team(found: Vec<Member>) -> (r: Vec<Member>)
    ensures
        r@.map_values(|m: Member| m@) == team_of(found@.map_values(|m: Member| m@)),
{
    let ghost all = found@.map_values(|m: Member| m@);
    let ghost keep = |m: MemberView| !hidden_name(m.name);
    let mut people: Vec<Member> = Vec::new();
    let mut rest = found;
    let mut i: usize = 0;
    let n = rest.len();
    while rest.len() > 0
        invariant
            all.len() == n,
            i <= n,
            rest@.map_values(|m: Member| m@) == all.skip(i as int),
            keep == (|m: MemberView| !hidden_name(m.name)),
            people@.map_values(|m: Member| m@) == all.take(i as int).filter(keep),
        decreases rest@.len(),
    {
        let ghost before = people@.map_values(|m: Member| m@);
        let ghost rv = rest@.map_values(|m: Member| m@);
        let ghost rs = rest@;
        let m = rest.remove(0);
        proof {
            assert(rest@ =~= rs.skip(1));
            assert(rest@.map_values(|m: Member| m@) =~= rv.skip(1));
            assert(rv.skip(1) =~= all.skip(i + 1));
        }
        proof {
            assert(rv.len() == all.len() - i);
            assert(i < n);
            assert(m@ == rv[0]);
            assert(all.skip(i as int)[0] == all[i as int]);
            assert(all.take(i + 1).drop_last() =~= all.take(i as int));
            assert(all.take(i + 1).last() == all[i as int]);
            reveal(Seq::filter);
        }
        if !starts_with_dot(m.name.as_str()) {
            let ghost mv = m@;
            people.push(m);
            proof {
                assert(people@.map_values(|m: Member| m@) =~= before.push(mv));
            }
        }
        i = i + 1;
        proof {
            assert(rest@.map_values(|m: Member| m@) =~= all.skip(i as int));
        }
    }
    proof {
        assert(all.take(i as int) =~= all);
    }
    if people.len() < 2 {
        return Vec::new();
    }
    proof {
        lemma_sorted_by_map(people@, |m: Member| m@, ranked_less::<Member>(), name_order());
    }
    sort_stable(people)
}

// ---------------------------------------------------------------------------
// assignment
// ---------------------------------------------------------------------------

/// Whether a task counts as assigned to `member`: somebody handed it over,
/// it is open, and it names `member` as its owner or names no one (a task
/// appended to a person's own store is theirs whether or not it says so).
pub open spec fn assigned(t: TaskView, member: Seq<char>) -> bool {
    &&& t.assigned_by is Some
    &&& t.status != Status::Done
    &&& t.assignee matches Some(who) ==> who == member
}

/// Open a member's store from what their folder held. Membership is
/// settled before this is called (a member's folder holds a task log), so
/// nothing is seeded inside someone else's directory.
pub fn open_member(member: &Member, found: Found, sessions: Vec<Session>) -> (r: Result<Store>)
    ensures
        opened(member.root@, found, sessions@.map_values(|x: Session| x@), match r {
            Ok(s) => Ok::<StoreView, TaskError>(s@),
            Err(e) => Err::<StoreView, TaskError>(e),
        }),
{
    Store::open(member.root.clone(), found, sessions)
}

/// The tasks in a member's store that someone else put there, in order.
pub fn assigned_to(member: &Member, tasks: &[Task]) -> (r: Vec<Task>)
    ensures
        views(r@) == views(tasks@).filter(|t: TaskView| assigned(t, member@.name)),
{
    let ghost keep = |t: TaskView| assigned(t, member@.name);
    let mut r: Vec<Task> = Vec::new();
    let mut i: usize = 0;
    while i < tasks.len()
        invariant
            i <= tasks@.len(),
            keep == (|t: TaskView| assigned(t, member@.name)),
            views(r@) == views(tasks@).take(i as int).filter(keep),
        decreases tasks@.len() - i,
    {
        let t = &tasks[i];
        proof {
            assert(views(tasks@).take(i + 1).drop_last() =~= views(tasks@).take(i as int));
            assert(views(tasks@).take(i + 1).last() == tasks@[i as int]@);
            reveal(Seq::filter);
        }
        let ok = t.assigned_by.is_some() && !t.status.is_done() && match &t.assignee {
            Some(who) => str_eq(who.as_str(), member.name.as_str()),
            None => true,
        };
        if ok {
            let ghost before = views(r@);
            r.push(t.duplicate());
            proof {
                assert(views(r@) =~= before.push(tasks@[i as int]@));
            }
        }
        i = i + 1;
    }
    proof {
        assert(views(tasks@).take(i as int) =~= views(tasks@));
    }
    r
}

/// The first member with this name, by position.
pub open spec fn member_named(members: Seq<MemberView>, name: Seq<char>) -> Option<int>
    decreases members.len(),
{
    if members.len() == 0 {
        None
    } else {
        match member_named(members.drop_last(), name) {
            Some(i) => Some(i),
            None => if members.last().name == name {
                Some(members.len() - 1)
            } else {
                None
            },
        }
    }
}

/// Who a task handed to `name` goes to: the member of that name, which
/// must not be this store itself.
pub open spec fn assignee_of(members: Seq<MemberView>, name: Seq<char>) -> std::result::Result<int, Seq<char>> {
    match member_named(members, name) {
        None => Err("no team member called "@ + name),
        Some(i) => if members[i].is_me {
            Err("that is your own store — capture it normally"@)
        } else {
            Ok(i)
        },
    }
}

pub open spec fn member_views(members: Seq<Member>) -> Seq<MemberView> {
    members.map_values(|m: Member| m@)
}

/// Where among the team a task handed to `name` goes, or why it cannot.
pub fn assignee(members: &Vec<Member>, name: &str) -> (r: std::result::Result<usize, String>)
    ensures
        match (r, assignee_of(member_views(members@), name@)) {
            (Ok(i), Ok(j)) => i == j,
            (Err(m), Err(n)) => m@ == n,
            _ => false,
        },
{
    let ghost all = member_views(members@);
    let mut i: usize = 0;
    while i < members.len()
        invariant
            i <= members@.len(),
            all == member_views(members@),
            member_named(all.take(i as int), name@) is None,
        decreases members@.len() - i,
    {
        proof {
            assert(all.take(i + 1).drop_last() =~= all.take(i as int));
        }
        if str_eq(members[i].name.as_str(), name) {
            proof {
                lemma_member_named_prefix(all, name@, i + 1);
            }
            if members[i].is_me {
                return Err("that is your own store — capture it normally".to_owned());
            }
            return Ok(i);
        }
        i = i + 1;
    }
    proof {
        assert(all.take(i as int) =~= all);
    }
    Err(crate::error::prefixed("no team member called ", &name.to_owned()))
}

/// Once a prefix holds a member of that name, so does the whole.
proof fn lemma_member_named_prefix(all: Seq<MemberView>, name: Seq<char>, k: int)
    requires
        0 <= k <= all.len(),
        member_named(all.take(k), name) is Some,
    ensures
        member_named(all, name) == member_named(all.take(k), name),
    decreases all.len() - k,
{
    if k < all.len() {
        assert(all.take(k + 1).drop_last() =~= all.take(k));
        lemma_member_named_prefix(all, name, k + 1);
    } else {
        assert(all.take(k) =~= all);
    }
}

/// Put a task into a colleague's store, read from a typed line as a capture
/// is: it lands in their inbox, records who handed it over, and is theirs
/// unless the line named somebody else.
pub fn assign(store: &mut Store, member: &Member, title: &str, from: &str, today: &str) -> (r: Result<Task>)
    requires
        capture_of(title@) is Some,
        capture_of(title@)->0.due matches Some(d) ==> crate::capture::resolvable(d, today@),
    ensures
        match r {
            Ok(t) => exists|mid: StoreView, c: TaskView|
                #![trigger crate::persist::captured_in(old(store)@, mid, title@, None, today@, c)]
                crate::persist::captured_in(old(store)@, mid, title@, None, today@, c)
                && exists|before: crate::store::DataView, after: crate::store::DataView, now: u64|
                    #[trigger] crate::persist::committed(mid, final(store)@, before, after, now)
                    && crate::persist::reads_as(mid, before)
                    && crate::persist::handed_over(before, after, c.id, from@, member@.name, Ok(t@)),
            Err(e) => crate::tools::capture_failed(old(store)@, final(store)@, title@, None, today@, e)
                || exists|mid: StoreView, c: TaskView|
                #![trigger crate::persist::captured_in(old(store)@, mid, title@, None, today@, c)]
                crate::persist::captured_in(old(store)@, mid, title@, None, today@, c) && final(store)@ == mid
                && (crate::persist::read_refusal(mid, e) || exists|before: crate::store::DataView|
                    #[trigger] crate::persist::reads_as(mid, before)
                    && crate::persist::handed_over(before, before, c.id, from@, member@.name, Err::<TaskView, TaskError>(e))),
        },
{
    let ghost start = store@;
    let task = match store.capture(title, None, today) {
        Ok(t) => t,
        Err(e) => {
            proof {
                assert(crate::tools::capture_failed(start, store@, title@, None, today@, e));
            }
            return Err(e);
        },
    };
    let ghost mid = store@;
    proof {
        assert(crate::persist::captured_in(old(store)@, mid, title@, None, today@, task@));
    }
    store.hand_over(task.id.as_str(), from, member.name.as_str())
}

// ---------------------------------------------------------------------------
// activity
// ---------------------------------------------------------------------------

/// A member's tasks, as read from their store.
#[derive(Debug)]
pub struct MemberTasks {
    pub name: String,
    pub tasks: Vec<Task>,
}

/// What the team finished or started for a client.
#[derive(Debug)]
pub struct Activity {
    pub member: String,
    pub title: String,
    /// The project code, where the task named one.
    pub project_code: Option<String>,
    /// `completed` or `in_progress`.
    pub state: String,
    pub completed_at: Option<u64>,
}

pub struct ActivityView {
    pub member: Seq<char>,
    pub title: Seq<char>,
    pub project_code: Option<Seq<char>>,
    pub state: Seq<char>,
    pub completed_at: Option<u64>,
}

impl View for Activity {
    type V = ActivityView;

    open spec fn view(&self) -> ActivityView {
        ActivityView {
            member: self.member@,
            title: self.title@,
            project_code: self.project_code.deep_view(),
            state: self.state@,
            completed_at: self.completed_at,
        }
    }
}

/// Whether a task is for `project`: its client designator or its project
/// code, ignoring ASCII case.
pub open spec fn for_project(t: TaskView, project: Seq<char>) -> bool {
    (t.project matches Some(p) && same_ignoring_ascii_case(p, project)) || (t.project_code matches Some(
        p,
    ) && same_ignoring_ascii_case(p, project))
}

/// Whether a task belongs in the activity: for the project, and either
/// started (being worked on) or finished no earlier than `since` (a task
/// with no completion time counts as finished at 0). Work not yet started
/// is not activity.
pub open spec fn reported(t: TaskView, project: Seq<char>, since: u64) -> bool {
    for_project(t, project) && match t.status {
        Status::Doing => true,
        Status::Done => (match t.completed_at {
            Some(at) => at,
            None => 0,
        }) >= since,
        Status::Todo => false,
    }
}

/// The activity entry for a task.
pub open spec fn activity_entry(member: Seq<char>, t: TaskView) -> ActivityView {
    ActivityView {
        member,
        title: t.title,
        project_code: t.project_code,
        state: if t.status == Status::Done {
            "completed"@
        } else {
            "in_progress"@
        },
        completed_at: t.completed_at,
    }
}

/// The entries for one member's tasks, in order.
pub open spec fn member_entries(member: Seq<char>, ts: Seq<TaskView>, project: Seq<char>, since: u64) -> Seq<ActivityView>
    decreases ts.len(),
{
    if ts.len() == 0 {
        Seq::empty()
    } else {
        let rest = member_entries(member, ts.drop_last(), project, since);
        if reported(ts.last(), project, since) {
            rest.push(activity_entry(member, ts.last()))
        } else {
            rest
        }
    }
}

/// The entries for every member, member after member.
pub open spec fn all_entries(people: Seq<(Seq<char>, Seq<TaskView>)>, project: Seq<char>, since: u64) -> Seq<ActivityView>
    decreases people.len(),
{
    if people.len() == 0 {
        Seq::empty()
    } else {
        all_entries(people.drop_last(), project, since) + member_entries(people.last().0, people.last().1, project, since)
    }
}

/// Newest completion first; work without a completion time last.
pub open spec fn newer_first(a: ActivityView, b: ActivityView) -> bool {
    match (a.completed_at, b.completed_at) {
        (Some(x), Some(y)) => x > y,
        (Some(_), None) => true,
        _ => false,
    }
}

pub open spec fn activity_order() -> spec_fn(ActivityView, ActivityView) -> bool {
    |a: ActivityView, b: ActivityView| newer_first(a, b)
}

/// Activity's order is one a sort can keep.
proof fn lemma_activity_order_strict_weak()
    ensures
        strict_weak(activity_order()),
{
    let less = activity_order();
    assert forall|a: ActivityView, b: ActivityView| #[trigger] less(a, b) implies !less(b, a) by {}
    assert forall|a: ActivityView, b: ActivityView, c: ActivityView|
        #![trigger less(a, b), less(b, c)]
        less(a, c) implies less(a, b) || less(b, c) by {}
}

/// An activity entry told of a task that one of the people has: for the
/// project, by name or code; started work as `in_progress`, or work finished
/// no earlier than `since` as `completed`; with that member's name and the
/// task's title and completion time.
pub open spec fn tells_of(e: ActivityView, member: Seq<char>, t: TaskView, project: Seq<char>, since: u64) -> bool {
    &&& (t.project matches Some(p) && same_ignoring_ascii_case(p, project)) || (t.project_code matches Some(p)
        && same_ignoring_ascii_case(p, project))
    &&& (t.status == Status::Doing && e.state == "in_progress"@) || (t.status == Status::Done && (match t.completed_at {
        Some(at) => at,
        None => 0,
    }) >= since && e.state == "completed"@)
    &&& e.member == member && e.title == t.title && e.completed_at == t.completed_at
}

proof fn lemma_member_entries_tell(member: Seq<char>, ts: Seq<TaskView>, project: Seq<char>, since: u64)
    ensures
        forall|k: int|
            0 <= k < member_entries(member, ts, project, since).len() ==> exists|i: int|
                0 <= i < ts.len() && tells_of(
                    #[trigger] member_entries(member, ts, project, since)[k],
                    member,
                    ts[i],
                    project,
                    since,
                ),
    decreases ts.len(),
{
    if ts.len() > 0 {
        lemma_member_entries_tell(member, ts.drop_last(), project, since);
        let rest = member_entries(member, ts.drop_last(), project, since);
        let e = member_entries(member, ts, project, since);
        assert forall|k: int| 0 <= k < e.len() implies exists|i: int|
            0 <= i < ts.len() && tells_of(#[trigger] e[k], member, ts[i], project, since) by {
            if k < rest.len() {
                assert(e[k] == rest[k]);
                let i = choose|i: int| 0 <= i < ts.drop_last().len() && tells_of(rest[k], member, ts.drop_last()[i], project, since);
                assert(ts[i] == ts.drop_last()[i]);
            } else {
                assert(e[k] == activity_entry(member, ts.last()));
                assert(tells_of(e[k], member, ts[ts.len() - 1], project, since));
            }
        }
    }
}

proof fn lemma_all_entries_tell(people: Seq<(Seq<char>, Seq<TaskView>)>, project: Seq<char>, since: u64)
    ensures
        forall|k: int|
            0 <= k < all_entries(people, project, since).len() ==> exists|m: int, i: int|
                0 <= m < people.len() && 0 <= i < people[m].1.len() && tells_of(
                    #[trigger] all_entries(people, project, since)[k],
                    people[m].0,
                    people[m].1[i],
                    project,
                    since,
                ),
    decreases people.len(),
{
    if people.len() > 0 {
        let d = people.drop_last();
        lemma_all_entries_tell(d, project, since);
        let last = people.last();
        lemma_member_entries_tell(last.0, last.1, project, since);
        let a = all_entries(d, project, since);
        let b = member_entries(last.0, last.1, project, since);
        let e = all_entries(people, project, since);
        assert forall|k: int| 0 <= k < e.len() implies exists|m: int, i: int|
            0 <= m < people.len() && 0 <= i < people[m].1.len() && tells_of(#[trigger] e[k], people[m].0, people[m].1[i], project, since) by {
            if k < a.len() {
                assert(e[k] == a[k]);
                let (m, i) = choose|m: int, i: int| 0 <= m < d.len() && 0 <= i < d[m].1.len() && tells_of(a[k], d[m].0, d[m].1[i], project, since);
                assert(people[m] == d[m]);
            } else {
                assert(e[k] == b[k - a.len()]);
                let i = choose|i: int| 0 <= i < last.1.len() && tells_of(b[k - a.len()], last.0, last.1[i], project, since);
                assert(people[people.len() - 1] == last);
            }
        }
    }
}

/// Every activity entry tells of a task one of the people has, for the
/// project, that was started or finished since `since`: untouched work is
/// never reported.
pub proof fn lemma_activity_tells_of_tasks(
    people: Seq<(Seq<char>, Seq<TaskView>)>,
    project: Seq<char>,
    since: u64,
    k: int,
)
    requires
        0 <= k < sorted_by(all_entries(people, project, since), activity_order()).len(),
    ensures
        exists|m: int, i: int|
            0 <= m < people.len() && 0 <= i < people[m].1.len() && tells_of(
                sorted_by(all_entries(people, project, since), activity_order())[k],
                people[m].0,
                #[trigger] people[m].1[i],
                project,
                since,
            ),
{
    let es = all_entries(people, project, since);
    lemma_all_entries_tell(people, project, since);
    lemma_sorted_by_members(es, activity_order());
    let r = sorted_by(es, activity_order());
    assert(es.contains(r[k]));
    let w = choose|w: int| 0 <= w < es.len() && es[w] == r[k];
    let (m, i) = choose|m: int, i: int| 0 <= m < people.len() && 0 <= i < people[m].1.len() && tells_of(es[w], people[m].0, people[m].1[i], project, since);
    assert(tells_of(r[k], people[m].0, people[m].1[i], project, since));
}

/// Activity reads newest first: of two finished entries, the one
/// completed later comes first, and finished work comes before work still
/// in progress (which has no completion time).
pub proof fn lemma_activity_newest_first(
    people: Seq<(Seq<char>, Seq<TaskView>)>,
    project: Seq<char>,
    since: u64,
    i: int,
    j: int,
)
    requires
        0 <= i < j < sorted_by(all_entries(people, project, since), activity_order()).len(),
    ensures
        ({
            let r = sorted_by(all_entries(people, project, since), activity_order());
            &&& (r[i].completed_at is Some && r[j].completed_at is Some) ==> r[i].completed_at->0
                >= r[j].completed_at->0
            &&& r[i].completed_at is None ==> r[j].completed_at is None
        }),
{
    lemma_activity_order_strict_weak();
    lemma_sorted_by_in_order(all_entries(people, project, since), activity_order());
    let r = sorted_by(all_entries(people, project, since), activity_order());
    assert(!activity_order()(r[j], r[i]));
}

impl Ranked for Activity {
    open spec fn before(&self, other: &Self) -> bool {
        newer_first(self@, other@)
    }

    fn goes_before(&self, other: &Self) -> (r: bool) {
        match (self.completed_at, other.completed_at) {
            (Some(x), Some(y)) => x > y,
            (Some(_), None) => true,
            _ => false,
        }
    }
}

/// The people as the activity reads them.
pub open spec fn people_view(people: Seq<MemberTasks>) -> Seq<(Seq<char>, Seq<TaskView>)> {
    people.map_values(|m: MemberTasks| (m.name@, views(m.tasks@)))
}

fn same_ci(a: &str, b: &str) -> (r: bool)
    ensures
        r == same_ignoring_ascii_case(a@, b@),
{
    crate::bulk::same_ci(a, b)
}

fn reported_exec(t: &Task, project: &str, since: u64) -> (r: bool)
    ensures
        r == reported(t@, project@, since),
{
    let p = match &t.project {
        Some(x) => same_ci(x.as_str(), project),
        None => false,
    };
    let c = match &t.project_code {
        Some(x) => same_ci(x.as_str(), project),
        None => false,
    };
    if !(p || c) {
        return false;
    }
    let at = match t.completed_at {
        Some(a) => a,
        None => 0,
    };
    match t.status {
        Status::Doing => true,
        Status::Done => at >= since,
        Status::Todo => false,
    }
}

/// Everything the team finished or started for a project, newest first.
///
/// Tasks, not sessions: what a client wants to hear is what moved. `project`
/// matches a client designator or a project code; finished work older than
/// `since` (milliseconds) is left out.
pub fn activity(people: &Vec<MemberTasks>, project: &str, since: u64) -> (r: Vec<Activity>)
    ensures
        r@.map_values(|a: Activity| a@) == sorted_by(all_entries(people_view(people@), project@, since), activity_order()),
{
    let ghost pv = people_view(people@);
    let mut found: Vec<Activity> = Vec::new();
    let mut k: usize = 0;
    while k < people.len()
        invariant
            pv == people_view(people@),
            k <= people@.len(),
            found@.map_values(|a: Activity| a@) == all_entries(pv.take(k as int), project@, since),
        decreases people@.len() - k,
    {
        let member = &people[k];
        proof {
            assert(pv.take(k + 1).drop_last() =~= pv.take(k as int));
            assert(pv.take(k + 1).last() == (member.name@, views(member.tasks@)));
        }
        let ghost base = found@.map_values(|a: Activity| a@);
        let mut i: usize = 0;
        while i < member.tasks.len()
            invariant
                i <= member.tasks@.len(),
                found@.map_values(|a: Activity| a@) == base + member_entries(member.name@, views(member.tasks@).take(i as int), project@, since),
            decreases member.tasks@.len() - i,
        {
            let t = &member.tasks[i];
            proof {
                assert(views(member.tasks@).take(i + 1).drop_last() =~= views(member.tasks@).take(i as int));
                assert(views(member.tasks@).take(i + 1).last() == t@);
            }
            let ghost before = found@.map_values(|a: Activity| a@);
            if reported_exec(t, project, since) {
                let done = t.status.is_done();
                let entry = Activity {
                    member: member.name.clone(),
                    title: t.title.clone(),
                    project_code: copy_opt_string(&t.project_code),
                    state: if done {
                        "completed".to_owned()
                    } else {
                        "in_progress".to_owned()
                    },
                    completed_at: t.completed_at,
                };
                proof {
                    assert(entry@ == activity_entry(member.name@, t@));
                }
                found.push(entry);
                proof {
                    assert(found@.map_values(|a: Activity| a@) =~= before.push(activity_entry(member.name@, t@)));
                }
            }
            i = i + 1;
        }
        proof {
            assert(views(member.tasks@).take(i as int) =~= views(member.tasks@));
        }
        k = k + 1;
    }
    proof {
        assert(pv.take(k as int) =~= pv);
        lemma_sorted_by_map(found@, |a: Activity| a@, ranked_less::<Activity>(), activity_order());
    }
    sort_stable(found)
}

} // verus!
