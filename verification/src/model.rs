//! The task model.
//!
//! Shaped around one rule: a task needs a title and nothing else. Every other
//! field is optional, so capture never stops to ask a question. Stable ids,
//! timestamps and a revision are present from the start, because identity is
//! the one thing that cannot be retrofitted onto existing records.
//!
//! Every type has a view in which text is `Seq<char>`; contracts speak of views.

use vstd::prelude::*;

use crate::text::{chars_of, hex, push_hex, str_eq, string_of, trim, trim_str};

verus! {

/// Where a task sits in the flow. Lists are user-defined; this is the meaning
/// behind them, so "done" survives a board being renamed or reorganised.
#[derive(Debug, Clone, Copy, PartialEq, Eq, Structural)]
pub enum Status {
    Todo,
    Doing,
    Done,
}

impl Status {
    pub fn is_done(self) -> (r: bool)
        ensures
            r == (self == Status::Done),
    {
        match self {
            Status::Done => true,
            _ => false,
        }
    }
}

impl Default for Status {
    fn default() -> (r: Self)
        ensures
            r == Status::Todo,
    {
        Status::Todo
    }
}

#[derive(Debug, Clone, Copy, PartialEq, Eq, Structural)]
pub enum SessionKind {
    Focus,
    Break,
    /// Time in a meeting: not interruptible, like focus.
    Meeting,
}

impl Default for SessionKind {
    fn default() -> (r: Self)
        ensures
            r == SessionKind::Focus,
    {
        SessionKind::Focus
    }
}

pub fn is_focus(kind: SessionKind) -> (r: bool)
    ensures
        r == (kind == SessionKind::Focus),
{
    match kind {
        SessionKind::Focus => true,
        _ => false,
    }
}

#[derive(Debug)]
pub struct Task {
    pub id: String,
    pub title: String,
    pub notes: Option<String>,
    pub status: Status,
    /// List the task sits in. Every task has one.
    pub list_id: String,
    /// Position within the list, ascending. Rewritten on reorder.
    pub order: u32,
    /// `YYYY-MM-DD`. Compared as a string, which sorts correctly by date.
    pub due: Option<String>,
    /// Pulled onto the Today list regardless of its due date.
    pub today: bool,
    pub tags: Vec<String>,
    /// Free-text client or project designator, from a leading `(project)`.
    pub project: Option<String>,
    /// Project code in the practice management system, where one applies.
    pub project_code: Option<String>,
    /// Who the task is for.
    pub assignee: Option<String>,
    /// Who put it in this store, when it was not its owner.
    pub assigned_by: Option<String>,
    /// Where it came from, as `scheme:reference`.
    pub origin: Option<String>,
    /// 1 is highest. Absent means unprioritised.
    pub priority: Option<u8>,
    /// Rough size in minutes.
    pub estimate_minutes: Option<u32>,
    /// How much finishing this is worth, 1-10.
    pub impact: Option<u8>,
    /// How much it will cost, 1-10.
    pub effort: Option<u8>,
    pub created_at: u64,
    pub updated_at: u64,
    pub completed_at: Option<u64>,
    pub external_id: Option<String>,
    /// Bumped on every change written to the log; the newest record wins.
    pub revision: u64,
    /// A tombstone: the task was deleted.
    pub deleted: bool,
}

pub struct TaskView {
    pub id: Seq<char>,
    pub title: Seq<char>,
    pub notes: Option<Seq<char>>,
    pub status: Status,
    pub list_id: Seq<char>,
    pub order: u32,
    pub due: Option<Seq<char>>,
    pub today: bool,
    pub tags: Seq<Seq<char>>,
    pub project: Option<Seq<char>>,
    pub project_code: Option<Seq<char>>,
    pub assignee: Option<Seq<char>>,
    pub assigned_by: Option<Seq<char>>,
    pub origin: Option<Seq<char>>,
    pub priority: Option<u8>,
    pub estimate_minutes: Option<u32>,
    pub impact: Option<u8>,
    pub effort: Option<u8>,
    pub created_at: u64,
    pub updated_at: u64,
    pub completed_at: Option<u64>,
    pub external_id: Option<Seq<char>>,
    pub revision: u64,
    pub deleted: bool,
}

impl View for Task {
    type V = TaskView;

    open spec fn view(&self) -> TaskView {
        TaskView {
            id: self.id@,
            title: self.title@,
            notes: self.notes.deep_view(),
            status: self.status,
            list_id: self.list_id@,
            order: self.order,
            due: self.due.deep_view(),
            today: self.today,
            tags: self.tags.deep_view(),
            project: self.project.deep_view(),
            project_code: self.project_code.deep_view(),
            assignee: self.assignee.deep_view(),
            assigned_by: self.assigned_by.deep_view(),
            origin: self.origin.deep_view(),
            priority: self.priority,
            estimate_minutes: self.estimate_minutes,
            impact: self.impact,
            effort: self.effort,
            created_at: self.created_at,
            updated_at: self.updated_at,
            completed_at: self.completed_at,
            external_id: self.external_id.deep_view(),
            revision: self.revision,
            deleted: self.deleted,
        }
    }
}

pub fn copy_opt_string(o: &Option<String>) -> (r: Option<String>)
    ensures
        r.deep_view() == o.deep_view(),
{
    match o {
        Some(s) => Some(s.clone()),
        None => None,
    }
}

pub fn copy_strings(v: &Vec<String>) -> (r: Vec<String>)
    ensures
        r.deep_view() == v.deep_view(),
{
    let mut r: Vec<String> = Vec::new();
    let mut i: usize = 0;
    while i < v.len()
        invariant
            i <= v@.len(),
            r@.len() == i,
            forall|j: int| 0 <= j < i ==> (#[trigger] r@[j])@ == v@[j]@,
        decreases v@.len() - i,
    {
        r.push(v[i].clone());
        i = i + 1;
    }
    assert(r.deep_view() =~= v.deep_view());
    r
}

impl Task {
    /// An exact copy, field for field.
    pub fn duplicate(&self) -> (r: Task)
        ensures
            r@ == self@,
    {
        Task {
            id: self.id.clone(),
            title: self.title.clone(),
            notes: copy_opt_string(&self.notes),
            status: self.status,
            list_id: self.list_id.clone(),
            order: self.order,
            due: copy_opt_string(&self.due),
            today: self.today,
            tags: copy_strings(&self.tags),
            project: copy_opt_string(&self.project),
            project_code: copy_opt_string(&self.project_code),
            assignee: copy_opt_string(&self.assignee),
            assigned_by: copy_opt_string(&self.assigned_by),
            origin: copy_opt_string(&self.origin),
            priority: self.priority,
            estimate_minutes: self.estimate_minutes,
            impact: self.impact,
            effort: self.effort,
            created_at: self.created_at,
            updated_at: self.updated_at,
            completed_at: self.completed_at,
            external_id: copy_opt_string(&self.external_id),
            revision: self.revision,
            deleted: self.deleted,
        }
    }

    /// A task with only a title, in the given list, with the identity and
    /// timestamp already chosen.
    pub fn with_identity(id: String, title: &str, list_id: &str, now: u64) -> (r: Task)
        ensures
            r@ == fresh_task(id@, title@, list_id@, now),
    {
        let r = Task {
            id,
            title: trim_str(title),
            notes: None,
            status: Status::Todo,
            list_id: list_id.to_owned(),
            order: 0,
            due: None,
            today: false,
            tags: Vec::new(),
            project: None,
            project_code: None,
            assignee: None,
            assigned_by: None,
            origin: None,
            priority: None,
            estimate_minutes: None,
            impact: None,
            effort: None,
            created_at: now,
            updated_at: now,
            completed_at: None,
            external_id: None,
            revision: 0,
            deleted: false,
        };
        assert(r.tags.deep_view() =~= Seq::<Seq<char>>::empty());
        r
    }

    /// A task with only a title, in the given list: a fresh id and the
    /// current time.
    pub fn new(title: &str, list_id: &str) -> (r: Task)
        ensures
            exists|nanos: nat, seq: nat, now: u64|
                #![trigger fresh_task(task_id_text(nanos, seq), title@, list_id@, now)]
                r@ == fresh_task(task_id_text(nanos, seq), title@, list_id@, now),
    {
        let now = now_millis();
        let prefix = task_prefix();
        let id = new_id(prefix);
        let r = Task::with_identity(id, title, list_id, now);
        proof {
            let (n, q) = choose|nanos: nat, seq: nat| id@ == id_text(prefix@, nanos, seq);
            assert(r@ == fresh_task(task_id_text(n, q), title@, list_id@, now));
        }
        r
    }

    /// Mark the task as changed now.
    pub fn touch(&mut self)
        ensures
            final(self)@ == (TaskView { updated_at: final(self).updated_at, ..old(self)@ }),
    {
        self.updated_at = now_millis();
    }
}

fn list_prefix() -> (p: &'static str)
    ensures
        p@ == seq!['l', 'i', 's', 't'],
{
    proof {
        reveal_strlit("list");
    }
    "list"
}

fn board_prefix() -> (p: &'static str)
    ensures
        p@ == seq!['b', 'o', 'a', 'r', 'd'],
{
    proof {
        reveal_strlit("board");
    }
    "board"
}

fn task_prefix() -> (p: &'static str)
    ensures
        p@ == seq!['t', 'a', 's', 'k'],
{
    proof {
        reveal_strlit("task");
    }
    "task"
}

/// A task holding only a title (trimmed), a list and an identity.
pub open spec fn fresh_task(id: Seq<char>, title: Seq<char>, list_id: Seq<char>, now: u64) -> TaskView {
    TaskView {
        id,
        title: trim(title),
        notes: None,
        status: Status::Todo,
        list_id,
        order: 0,
        due: None,
        today: false,
        tags: Seq::empty(),
        project: None,
        project_code: None,
        assignee: None,
        assigned_by: None,
        origin: None,
        priority: None,
        estimate_minutes: None,
        impact: None,
        effort: None,
        created_at: now,
        updated_at: now,
        completed_at: None,
        external_id: None,
        revision: 0,
        deleted: false,
    }
}

/// A column on a board.
#[derive(Debug)]
pub struct List {
    pub id: String,
    pub name: String,
    pub order: u32,
    /// Status applied to tasks dropped into this list.
    pub status: Option<Status>,
}

pub struct ListView {
    pub id: Seq<char>,
    pub name: Seq<char>,
    pub order: u32,
    pub status: Option<Status>,
}

impl View for List {
    type V = ListView;

    open spec fn view(&self) -> ListView {
        ListView { id: self.id@, name: self.name@, order: self.order, status: self.status }
    }
}

impl List {
    pub fn duplicate(&self) -> (r: List)
        ensures
            r@ == self@,
    {
        List { id: self.id.clone(), name: self.name.clone(), order: self.order, status: self.status }
    }

    /// A list with a fresh id.
    pub fn new(name: &str, order: u32, status: Option<Status>) -> (r: List)
        ensures
            r@.name == trim(name@),
            r@.order == order,
            r@.status == status,
            exists|nanos: nat, seq: nat| r@.id == #[trigger] list_id_text(nanos, seq),
    {
        let p = list_prefix();
        let id = new_id(p);
        proof {
            let (n, q) = choose|nanos: nat, seq: nat| id@ == id_text(p@, nanos, seq);
            assert(id@ == list_id_text(n, q));
        }
        List { id, name: trim_str(name), order, status }
    }
}

#[derive(Debug)]
pub struct Board {
    pub id: String,
    pub name: String,
    pub order: u32,
    pub lists: Vec<List>,
}

pub struct BoardView {
    pub id: Seq<char>,
    pub name: Seq<char>,
    pub order: u32,
    pub lists: Seq<ListView>,
}

impl View for Board {
    type V = BoardView;

    open spec fn view(&self) -> BoardView {
        BoardView {
            id: self.id@,
            name: self.name@,
            order: self.order,
            lists: self.lists@.map_values(|l: List| l@),
        }
    }
}

/// `i` is the first of the lowest-ordered lists.
pub open spec fn first_lowest_list(lists: Seq<ListView>, i: int) -> bool {
    &&& 0 <= i < lists.len()
    &&& forall|j: int| 0 <= j < lists.len() ==> lists[i].order <= #[trigger] lists[j].order
    &&& forall|j: int| 0 <= j < i ==> lists[i].order < #[trigger] lists[j].order
}

/// `i` is the first list carrying this id.
pub open spec fn first_list_with_id(lists: Seq<ListView>, id: Seq<char>, i: int) -> bool {
    &&& 0 <= i < lists.len()
    &&& lists[i].id == id
    &&& forall|j: int| 0 <= j < i ==> #[trigger] lists[j].id != id
}

pub open spec fn has_list_with_id(lists: Seq<ListView>, id: Seq<char>) -> bool {
    exists|i: int| 0 <= i < lists.len() && #[trigger] lists[i].id == id
}

impl Board {
    pub fn duplicate(&self) -> (r: Board)
        ensures
            r@ == self@,
    {
        let mut lists: Vec<List> = Vec::new();
        let mut i: usize = 0;
        while i < self.lists.len()
            invariant
                i <= self.lists@.len(),
                lists@.len() == i,
                forall|j: int| 0 <= j < i ==> (#[trigger] lists@[j])@ == self.lists@[j]@,
            decreases self.lists@.len() - i,
        {
            lists.push(self.lists[i].duplicate());
            i = i + 1;
        }
        let r = Board { id: self.id.clone(), name: self.name.clone(), order: self.order, lists };
        assert(r@.lists =~= self@.lists);
        r
    }

    /// A board with the three lists almost every board starts with:
    /// To Do, Doing and Done, carrying those statuses.
    pub fn with_default_lists(name: &str, order: u32) -> (r: Board)
        ensures
            r@.name == trim(name@),
            r@.order == order,
            r@.lists.len() == 3,
            r@.lists[0].name == seq!['T', 'o', ' ', 'D', 'o'],
            r@.lists[1].name == seq!['D', 'o', 'i', 'n', 'g'],
            r@.lists[2].name == seq!['D', 'o', 'n', 'e'],
            r@.lists[0].order == 0 && r@.lists[1].order == 1 && r@.lists[2].order == 2,
            r@.lists[0].status == Some(Status::Todo),
            r@.lists[1].status == Some(Status::Doing),
            r@.lists[2].status == Some(Status::Done),
            exists|nanos: nat, seq: nat| r@.id == #[trigger] board_id_text(nanos, seq),
            forall|i: int|
                0 <= i < 3 ==> exists|nanos: nat, seq: nat| #[trigger] r@.lists[i].id == list_id_text(nanos, seq),
            r@.lists[0].id != r@.lists[1].id,
            r@.lists[0].id != r@.lists[2].id,
            r@.lists[1].id != r@.lists[2].id,
    {
        proof {
            reveal_strlit("To Do");
            reveal_strlit("Doing");
            reveal_strlit("Done");
        }
        // One instant, three consecutive tails: the ids differ by construction.
        let lp = list_prefix();
        let nanos = clock_nanos();
        let tail = fresh_entropy() / 4;
        let todo = List { id: format_id(lp, nanos, tail), name: trim_str("To Do"), order: 0, status: Some(Status::Todo) };
        let doing = List {
            id: format_id(lp, nanos, tail + 1),
            name: trim_str("Doing"),
            order: 1,
            status: Some(Status::Doing),
        };
        let done = List {
            id: format_id(lp, nanos, tail + 2),
            name: trim_str("Done"),
            order: 2,
            status: Some(Status::Done),
        };
        proof {
            lemma_tails_differ(nanos as nat, tail as nat, (tail + 1) as nat);
            lemma_tails_differ(nanos as nat, tail as nat, (tail + 2) as nat);
            lemma_tails_differ(nanos as nat, (tail + 1) as nat, (tail + 2) as nat);
        }
        let mut lists: Vec<List> = Vec::new();
        lists.push(todo);
        lists.push(doing);
        lists.push(done);
        let p = board_prefix();
        let id = new_id(p);
        proof {
            let (n, q) = choose|nanos: nat, seq: nat| id@ == id_text(p@, nanos, seq);
            assert(id@ == board_id_text(n, q));
        }
        let r = Board { id, name: trim_str(name), order, lists };
        proof {
            assert(trim(seq!['T', 'o', ' ', 'D', 'o']) =~= seq!['T', 'o', ' ', 'D', 'o']) by {
                reveal_with_fuel(crate::text::trim_start, 2);
                reveal_with_fuel(crate::text::trim_end, 2);
            }
            assert(trim(seq!['D', 'o', 'i', 'n', 'g']) =~= seq!['D', 'o', 'i', 'n', 'g']) by {
                reveal_with_fuel(crate::text::trim_start, 2);
                reveal_with_fuel(crate::text::trim_end, 2);
            }
            assert(trim(seq!['D', 'o', 'n', 'e']) =~= seq!['D', 'o', 'n', 'e']) by {
                reveal_with_fuel(crate::text::trim_start, 2);
                reveal_with_fuel(crate::text::trim_end, 2);
            }
        }
        r
    }

    /// The id of the lowest-ordered list, the first of them on a tie.
    pub fn first_list_id(&self) -> (r: Option<&str>)
        ensures
            match r {
                Some(id) => exists|i: int| first_lowest_list(self@.lists, i) && id@ == self@.lists[i].id,
                None => self@.lists.len() == 0,
            },
    {
        if self.lists.len() == 0 {
            return None;
        }
        let mut best: usize = 0;
        let mut i: usize = 1;
        while i < self.lists.len()
            invariant
                1 <= i <= self.lists@.len(),
                best < i,
                forall|j: int| 0 <= j < i ==> self.lists@[best as int].order <= #[trigger] self.lists@[j].order,
                forall|j: int| 0 <= j < best ==> self.lists@[best as int].order < #[trigger] self.lists@[j].order,
            decreases self.lists@.len() - i,
        {
            if self.lists[i].order < self.lists[best].order {
                best = i;
            }
            i = i + 1;
        }
        proof {
            assert(first_lowest_list(self@.lists, best as int));
        }
        Some(self.lists[best].id.as_str())
    }

    /// The list with this id, if the board has one.
    pub fn list(&self, id: &str) -> (r: Option<&List>)
        ensures
            match r {
                Some(l) => exists|i: int| first_list_with_id(self@.lists, id@, i) && l@ == self@.lists[i],
                None => !has_list_with_id(self@.lists, id@),
            },
    {
        let mut i: usize = 0;
        while i < self.lists.len()
            invariant
                i <= self.lists@.len(),
                forall|j: int| 0 <= j < i ==> #[trigger] self@.lists[j].id != id@,
            decreases self.lists@.len() - i,
        {
            if crate::text::str_eq(self.lists[i].id.as_str(), id) {
                proof {
                    assert(first_list_with_id(self@.lists, id@, i as int));
                }
                return Some(&self.lists[i]);
            }
            i = i + 1;
        }
        None
    }
}

/// A recorded stretch of focused work. Sessions are append-only facts about
/// the past.
#[derive(Debug)]
pub struct Session {
    pub id: String,
    /// The task this time counted towards. `None` while unattributed.
    pub task_id: Option<String>,
    pub started_at: u64,
    pub ended_at: u64,
    pub seconds: u64,
    pub kind: SessionKind,
    /// Whether the session ran to its planned length or was stopped early.
    pub completed: bool,
}

pub struct SessionView {
    pub id: Seq<char>,
    pub task_id: Option<Seq<char>>,
    pub started_at: u64,
    pub ended_at: u64,
    pub seconds: u64,
    pub kind: SessionKind,
    pub completed: bool,
}

impl View for Session {
    type V = SessionView;

    open spec fn view(&self) -> SessionView {
        SessionView {
            id: self.id@,
            task_id: self.task_id.deep_view(),
            started_at: self.started_at,
            ended_at: self.ended_at,
            seconds: self.seconds,
            kind: self.kind,
            completed: self.completed,
        }
    }
}

impl Session {
    pub fn duplicate(&self) -> (r: Session)
        ensures
            r@ == self@,
    {
        Session {
            id: self.id.clone(),
            task_id: copy_opt_string(&self.task_id),
            started_at: self.started_at,
            ended_at: self.ended_at,
            seconds: self.seconds,
            kind: self.kind,
            completed: self.completed,
        }
    }
}

/// The text of a board id.
pub open spec fn board_id_text(nanos: nat, seq: nat) -> Seq<char> {
    id_text(seq!['b', 'o', 'a', 'r', 'd'], nanos, seq)
}

/// The text of a list id.
pub open spec fn list_id_text(nanos: nat, seq: nat) -> Seq<char> {
    id_text(seq!['l', 'i', 's', 't'], nanos, seq)
}

/// Two list ids drawn in one instant with different tails differ.
proof fn lemma_tails_differ(nanos: nat, a: nat, b: nat)
    requires
        a != b,
    ensures
        list_id_text(nanos, a) != list_id_text(nanos, b),
{
    let head = seq!['l', 'i', 's', 't'] + seq!['_'] + hex(nanos);
    assert(list_id_text(nanos, a) =~= head + hex(a));
    assert(list_id_text(nanos, b) =~= head + hex(b));
    if list_id_text(nanos, a) == list_id_text(nanos, b) {
        assert((head + hex(a)).skip(head.len() as int) =~= hex(a));
        assert((head + hex(b)).skip(head.len() as int) =~= hex(b));
        crate::text::lemma_hex_injective(a, b);
    }
}

/// The text of a session id.
pub open spec fn session_id_text(nanos: nat, seq: nat) -> Seq<char> {
    id_text(seq!['s', 'e', 's', 's', 'i', 'o', 'n'], nanos, seq)
}

/// The text of a task id.
pub open spec fn task_id_text(nanos: nat, seq: nat) -> Seq<char> {
    id_text(seq!['t', 'a', 's', 'k'], nanos, seq)
}

/// The text of an id: the prefix, `_`, then two hexadecimal numbers.
pub open spec fn id_text(prefix: Seq<char>, nanos: nat, seq: nat) -> Seq<char> {
    prefix + seq!['_'] + hex(nanos) + hex(seq)
}

/// Milliseconds since the Unix epoch, from `SystemTime::now()`; zero if the
/// clock reads before the epoch. Nothing is promised of the value.
#[verifier::external_body]
fn clock_millis() -> u64 {
    std::time::SystemTime::now().duration_since(std::time::UNIX_EPOCH).map(|d| d.as_millis() as u64).unwrap_or(0)
}

/// Nanoseconds since the Unix epoch, from `SystemTime::now()`; zero if the
/// clock reads before the epoch. Nothing is promised of the value.
#[verifier::external_body]
fn clock_nanos() -> u64 {
    std::time::SystemTime::now().duration_since(std::time::UNIX_EPOCH).map(|d| d.as_nanos() as u64).unwrap_or(0)
}

/// A number drawn from a freshly keyed `RandomState` (std seeds each one
/// differently). Nothing is promised of the value.
#[verifier::external_body]
fn fresh_entropy() -> u64 {
    std::hash::BuildHasher::hash_one(&std::collections::hash_map::RandomState::new(), 0u8)
}

/// Milliseconds since the Unix epoch.
pub fn now_millis() -> u64 {
    clock_millis()
}

/// The text of an id, given its two numbers.
pub fn format_id(prefix: &str, nanos: u64, seq: u64) -> (r: String)
    ensures
        r@ == id_text(prefix@, nanos as nat, seq as nat),
{
    let mut out = chars_of(prefix);
    out.push('_');
    push_hex(&mut out, nanos as u128);
    push_hex(&mut out, seq as u128);
    proof {
        assert(out@ =~= id_text(prefix@, nanos as nat, seq as nat));
    }
    string_of(out.as_slice())
}

/// A short, sortable, collision-resistant id: time-prefixed so ids sort
/// roughly by creation, with a random tail so two made in the same instant
/// still differ.
pub fn new_id(prefix: &str) -> (r: String)
    ensures
        exists|nanos: nat, seq: nat| r@ == id_text(prefix@, nanos, seq),
{
    let nanos = clock_nanos();
    let seq = fresh_entropy();
    format_id(prefix, nanos, seq)
}

/// Two ids drawn in one instant, under one prefix, with different tails
/// differ.
proof fn lemma_id_tails_differ(prefix: Seq<char>, nanos: nat, a: nat, b: nat)
    requires
        a != b,
    ensures
        id_text(prefix, nanos, a) != id_text(prefix, nanos, b),
{
    let head = prefix + seq!['_'] + hex(nanos);
    assert(id_text(prefix, nanos, a) =~= head + hex(a));
    assert(id_text(prefix, nanos, b) =~= head + hex(b));
    if id_text(prefix, nanos, a) == id_text(prefix, nanos, b) {
        assert((head + hex(a)).skip(head.len() as int) =~= hex(a));
        assert((head + hex(b)).skip(head.len() as int) =~= hex(b));
        crate::text::lemma_hex_injective(a, b);
    }
}

/// Distinct whole numbers below `n` are at most `n` of them.
proof fn lemma_distinct_below(s: Seq<int>, n: int)
    requires
        s.no_duplicates(),
        0 <= n,
        forall|i: int| 0 <= i < s.len() ==> 0 <= #[trigger] s[i] < n,
    ensures
        s.len() <= n,
{
    s.unique_seq_to_set();
    vstd::set_lib::lemma_int_range(0, n);
    assert(s.to_set().subset_of(vstd::set_lib::set_int_range(0, n)));
    vstd::set_lib::lemma_len_subset(s.to_set(), vstd::set_lib::set_int_range(0, n));
}

/// The `j`-th tail after `base`, wrapping past `u64::MAX`.
pub open spec fn tail_after(base: u64, j: int) -> nat {
    if base + j > u64::MAX {
        (base + j - 0x1_0000_0000_0000_0000) as nat
    } else {
        (base + j) as nat
    }
}

/// Where `id` is among `taken`, if it is.
fn position_of(taken: &Vec<String>, id: &str) -> (r: Option<usize>)
    ensures
        match r {
            Some(i) => i < taken@.len() && taken@[i as int]@ == id@,
            None => forall|i: int| 0 <= i < taken@.len() ==> taken@[i]@ != id@,
        },
{
    let mut i: usize = 0;
    while i < taken.len()
        invariant
            i <= taken@.len(),
            forall|q: int| 0 <= q < i ==> taken@[q]@ != id@,
        decreases taken@.len() - i,
    {
        if str_eq(taken[i].as_str(), id) {
            return Some(i);
        }
        i = i + 1;
    }
    None
}

/// A fresh id, like `new_id`, that is none of `taken`: drawn once, then,
/// while it is taken, the next tail along (wrapping), which must run out of
/// taken ids before it runs out of tails.
pub fn fresh_id_among(prefix: &str, taken: &Vec<String>) -> (r: String)
    ensures
        exists|nanos: nat, seq: nat| r@ == id_text(prefix@, nanos, seq),
        forall|i: int| 0 <= i < taken@.len() ==> taken@[i]@ != r@,
{
    let nanos = clock_nanos();
    let base = fresh_entropy();
    let n = taken.len();
    let mut k: usize = 0;
    let ghost mut hit: Seq<int> = Seq::empty();
    loop
        invariant
            k <= n,
            n == taken@.len(),
            hit.len() == k,
            hit.no_duplicates(),
            forall|j: int|
                0 <= j < k ==> 0 <= #[trigger] hit[j] < n && taken@[hit[j]]@ == id_text(
                    prefix@,
                    nanos as nat,
                    tail_after(base, j),
                ),
        decreases n - k,
    {
        let tail = base.wrapping_add(k as u64);
        assert(tail as nat == tail_after(base, k as int));
        let cand = format_id(prefix, nanos, tail);
        match position_of(taken, cand.as_str()) {
            None => {
                return cand;
            },
            Some(i) => {
                proof {
                    assert forall|j: int| 0 <= j < k implies hit[j] != i as int by {
                        assert(tail_after(base, j) != tail as nat);
                        lemma_id_tails_differ(prefix@, nanos as nat, tail_after(base, j), tail as nat);
                    }
                    let old_hit = hit;
                    hit = hit.push(i as int);
                    assert forall|a: int, b: int| 0 <= a < hit.len() && 0 <= b < hit.len() && a != b implies hit[a]
                        != hit[b] by {
                        if a < old_hit.len() && b < old_hit.len() {
                            assert(hit[a] == old_hit[a] && hit[b] == old_hit[b]);
                        }
                    }
                    lemma_distinct_below(hit, n as int);
                }
                k = k + 1;
            },
        }
    }
}

} // verus!
