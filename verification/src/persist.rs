//! The store as its files hold it.
//!
//! A store is a folder of three files: `meta.json` with the boards, the
//! settings and the revision; `tasks.jsonl`, the task log; and
//! `sessions.jsonl`, one finished session per line. `Store` holds what those
//! files say, already parsed, and every change goes through it: the data is
//! read (the log replayed), changed, and the change committed by appending
//! to the log what changed and rewriting the meta file. Reading and writing
//! the files themselves is the caller's business.

use vstd::prelude::*;

use crate::bulk::{
    delete_project_outcome, delete_tag_outcome, rename_project_outcome, rename_tag_outcome,
    settings_changed, clean_holidays, working_week,
};
use crate::capture::{capture_of, parse, Captured, CapturedView};
use crate::changes::{
    add_board_outcome,
    add_list_outcome,
    add_task_outcome,
    apply_capture_outcome,
    delete_task_outcome,
    move_task_outcome,
    movable,
    opt_view,
    result_view,
    set_done_outcome,
};
use crate::error::{Result, TaskError};
use crate::log::{
    filed, lemma_filed, lemma_latest_append, lemma_replay_matches,
    change_records, change_wins, distinct_ids, is_replay, latest, lemma_read_after_change,
    lemma_replay_distinct, log_after, next_revision, recorded,
    no_readable_records, record_changes, replay, stamped, tombstones, views, COMPACT_FLOOR,
    COMPACT_RATIO,
};
use crate::model::{
    fresh_id_among,
    now_millis,
    session_id_text,
    Board,
    BoardView,
    List,
    ListView,
    Session,
    SessionKind,
    SessionView,
    Status,
    Task,
    TaskView,
};
use crate::store::{default_settings, find_task, lemma_find_task, Data, DataView, Settings, SettingsView};
use crate::text::{str_eq, trim, trim_str};

verus! {

/// The name of the task log.
pub const TASKS_FILE: &'static str = "tasks.jsonl";

/// The name of the file holding boards, settings and the revision.
pub const META_FILE: &'static str = "meta.json";

/// The name of the session log.
pub const SESSIONS_FILE: &'static str = "sessions.jsonl";

/// The name of the single-document store that came before the log.
pub const LEGACY_TASKS_FILE: &'static str = "tasks.json";

/// What the meta file holds.
#[derive(Debug)]
pub enum MetaFile {
    /// No meta file, or one holding only blank space.
    Absent,
    /// The data it holds; its tasks are not used.
    Parsed(Data),
    /// It could not be read; the parser's message.
    Unreadable(String),
}

pub enum MetaView {
    Absent,
    Parsed(DataView),
    Unreadable(Seq<char>),
}

impl View for MetaFile {
    type V = MetaView;

    open spec fn view(&self) -> MetaView {
        match self {
            MetaFile::Absent => MetaView::Absent,
            MetaFile::Parsed(d) => MetaView::Parsed(d@),
            MetaFile::Unreadable(m) => MetaView::Unreadable(m@),
        }
    }
}

/// A task store: where it lives and what its files hold.
#[derive(Debug)]
pub struct Store {
    root: String,
    meta: MetaFile,
    records: Vec<Task>,
    unreadable: usize,
    rewritten: bool,
    sessions: Vec<Session>,
}

pub struct StoreView {
    pub root: Seq<char>,
    pub meta: MetaView,
    /// The task log's readable records, oldest first.
    pub records: Seq<TaskView>,
    /// How many of the task log's lines could not be read.
    pub unreadable: nat,
    /// Whether the task log has been rewritten whole since it was read,
    /// rather than only appended to.
    pub rewritten: bool,
    pub sessions: Seq<SessionView>,
}

impl View for Store {
    type V = StoreView;

    closed spec fn view(&self) -> StoreView {
        StoreView {
            root: self.root@,
            meta: self.meta@,
            records: views(self.records@),
            unreadable: self.unreadable as nat,
            rewritten: self.rewritten,
            sessions: self.sessions@.map_values(|s: Session| s@),
        }
    }
}

/// The data a brand-new store starts with (see `Data::seeded`).
pub open spec fn seeded_shape(d: DataView) -> bool {
    &&& d.boards.len() == 1
    &&& d.boards[0].name == seq!['T', 'a', 's', 'k', 's']
    &&& d.boards[0].order == 0
    &&& d.boards[0].lists.len() == 3
    &&& d.boards[0].lists[0].status == Some(Status::Todo)
    &&& d.boards[0].lists[1].status == Some(Status::Doing)
    &&& d.boards[0].lists[2].status == Some(Status::Done)
    &&& d.boards[0].lists[0].order == 0
    &&& d.boards[0].lists[1].order == 1
    &&& d.boards[0].lists[2].order == 2
    &&& d.revision == 1
    &&& d.settings == default_settings()
}

/// Reading the store can give `d`: the meta file's boards, settings and
/// revision (a fresh store's where there is none), with the tasks the log
/// replays to.
#[verifier::opaque]
pub open spec fn reads_as(s: StoreView, d: DataView) -> bool {
    &&& !(s.records.len() == 0 && s.unreadable > 0)
    &&& is_replay(latest(s.records), d.tasks)
    &&& match s.meta {
        MetaView::Absent => seeded_shape(d),
        MetaView::Parsed(m) => d.boards == m.boards && d.revision == m.revision && d.settings == m.settings,
        MetaView::Unreadable(_) => false,
    }
}

/// Reading the store fails with `e`: the meta file is unreadable, or no
/// record of a non-empty task log is.
pub open spec fn read_refusal(s: StoreView, e: TaskError) -> bool {
    match s.meta {
        MetaView::Unreadable(m) => e == TaskError::Corrupt(e->Corrupt_0) && e->Corrupt_0@ == m,
        _ => s.records.len() == 0 && s.unreadable > 0 && e == TaskError::Corrupt(e->Corrupt_0)
            && e->Corrupt_0@ == no_readable_records(),
    }
}

/// The records a change appends to the log.
pub open spec fn appended(before: DataView, after: DataView, now: u64) -> Seq<TaskView> {
    change_records(before.tasks, after.tasks, now) + tombstones(before.tasks, after.tasks, now)
}

/// The data a change leaves: its tasks stamped, and the revision bumped.
pub open spec fn kept(before: DataView, after: DataView, now: u64) -> DataView {
    DataView {
        tasks: after.tasks.map_values(|t: TaskView| stamped(before.tasks, t, now)),
        revision: next_revision(after.revision),
        ..after
    }
}

/// Whether the log, once a change is appended, is long enough to fold back
/// down to one record per task.
#[verifier::opaque]
pub open spec fn compacts(s: StoreView, before: DataView, after: DataView, now: u64) -> bool {
    let lines = s.records.len() + s.unreadable + appended(before, after, now).len();
    let live = if after.tasks.len() > 1 {
        after.tasks.len() as int
    } else {
        1
    };
    lines >= COMPACT_FLOOR && lines >= live * COMPACT_RATIO
}

/// The store after a change from `before` to `after` was committed at `now`:
/// the meta file holds the kept data, and the log has the change's records
/// appended, or, once long enough, is rewritten as one record per task.
#[verifier::opaque]
pub open spec fn committed(old: StoreView, new: StoreView, before: DataView, after: DataView, now: u64) -> bool {
    let k = kept(before, after, now);
    &&& new.root == old.root
    &&& new.sessions == old.sessions
    &&& new.meta == MetaView::Parsed(DataView { tasks: Seq::empty(), ..k })
    &&& if compacts(old, before, after, now) {
        new.records == k.tasks && new.unreadable == 0 && new.rewritten
    } else {
        new.records == old.records + appended(before, after, now) && new.unreadable == old.unreadable
            && new.rewritten == old.rewritten
    }
}

/// What a change made through the store is owed, given what the same
/// change on the data is owed: on success, the store was read, the change
/// made, and committed; on failure the store is untouched, and either it
/// could not be read or the change refused what was read.
pub open spec fn store_outcome<X>(
    old: StoreView,
    new: StoreView,
    r: Result<X>,
    outcome: spec_fn(DataView, DataView, Result<X>) -> bool,
) -> bool {
    match r {
        Ok(_) => exists|before: DataView, after: DataView, now: u64|
            #![trigger outcome(before, after, r), committed(old, new, before, after, now)]
            reads_as(old, before) && outcome(before, after, r) && committed(old, new, before, after, now),
        Err(e) => new == old && (read_refusal(old, e) || exists|before: DataView|
            #[trigger] reads_as(old, before) && outcome(before, before, r)),
    }
}

/// A task handed over: `assigned_by` is `from`, and `assignee` is `member`
/// unless the task already named someone.
pub open spec fn handed_over(old: DataView, new: DataView, task_id: Seq<char>, from: Seq<char>, member: Seq<char>, r: Result<TaskView>) -> bool {
    let i = find_task(old.tasks, task_id, 0);
    match r {
        Ok(t) => {
            &&& i < old.tasks.len()
            &&& t == (TaskView {
                assigned_by: Some(from),
                assignee: match old.tasks[i].assignee {
                    Some(a) => Some(a),
                    None => Some(member),
                },
                ..old.tasks[i]
            })
            &&& new == (DataView { tasks: old.tasks.update(i, t), ..old })
        },
        Err(e) => new == old && i == old.tasks.len() && e == TaskError::TaskNotFound(e->TaskNotFound_0)
            && e->TaskNotFound_0@ == task_id,
    }
}

impl Data {
    /// Mark a task handed over.
    pub fn hand_over(&mut self, task_id: &str, from: &str, member: &str) -> (r: Result<Task>)
        ensures
            handed_over(old(self)@, final(self)@, task_id@, from@, member@, result_view(r)),
    {
        let i = match self.task_index(task_id) {
            Some(i) => i,
            None => return Err(TaskError::TaskNotFound(task_id.to_owned())),
        };
        let mut t = self.tasks[i].duplicate();
        t.assigned_by = Some(from.to_owned());
        if t.assignee.is_none() {
            t.assignee = Some(member.to_owned());
        }
        let stored = t.duplicate();
        proof {
            crate::store::lemma_tasks_view_update(self.tasks@, i as int);
        }
        self.tasks.set(i, stored);
        proof {
            assert(self@.tasks =~= old(self)@.tasks.update(i as int, t@));
        }
        Ok(t)
    }
}

/// A task was added through the store: read, added, committed.
pub open spec fn added_task(old: StoreView, new: StoreView, title: Seq<char>, list_id: Option<Seq<char>>, t: TaskView) -> bool {
    exists|before: DataView, after: DataView, now: u64|
        #[trigger] committed(old, new, before, after, now) && reads_as(old, before)
        && add_task_outcome(before, after, title, list_id, Ok(t))
}

/// Adding a task through the store failed, leaving it untouched.
pub open spec fn add_refused(old: StoreView, new: StoreView, title: Seq<char>, list_id: Option<Seq<char>>, e: TaskError) -> bool {
    new == old && (read_refusal(old, e) || (trim(title).len() == 0 && e == TaskError::EmptyTitle)
        || exists|before: DataView| #[trigger] reads_as(old, before)
        && add_task_outcome(before, before, title, list_id, Err::<TaskView, TaskError>(e)))
}

/// A line was captured through the store: read once, a task added with its
/// title and, if the line named more, that filled in on the same data, then
/// committed once.
pub open spec fn captured_in(old: StoreView, new: StoreView, input: Seq<char>, list_id: Option<Seq<char>>, today: Seq<char>, t: TaskView) -> bool {
    let c = capture_of(input)->0;
    exists|before: DataView, mid: DataView, after: DataView, a: TaskView, now: u64|
        #![trigger committed(old, new, before, after, now), add_task_outcome(before, mid, c.title, list_id, Ok(a))]
        reads_as(old, before) && add_task_outcome(before, mid, c.title, list_id, Ok(a)) && (if plain(c) {
            after == mid && t == a
        } else {
            apply_capture_outcome(mid, after, a.id, c, today, Ok(t))
        }) && committed(old, new, before, after, now)
}

/// A captured line that names nothing beyond its title.
pub open spec fn plain(c: CapturedView) -> bool {
    c.project is None && c.tags.len() == 0 && c.owner is None && c.due is None && c.impact is None
        && c.effort is None
}

/// A settings change went through the store.
pub open spec fn settings_set(old: StoreView, new: StoreView, change: spec_fn(SettingsView) -> SettingsView, s: SettingsView) -> bool {
    exists|before: DataView, after: DataView, now: u64|
        #[trigger] committed(old, new, before, after, now) && reads_as(old, before)
        && settings_changed(before, after, change(before.settings), s)
}

/// The first index at or after `i` of a session with this id, or the length.
pub open spec fn find_session(sessions: Seq<SessionView>, id: Seq<char>, i: int) -> int
    decreases sessions.len() - i,
{
    if i >= sessions.len() {
        sessions.len() as int
    } else if sessions[i].id == id {
        i
    } else {
        find_session(sessions, id, i + 1)
    }
}

/// The store with only its sessions replaced.
pub open spec fn with_sessions(s: StoreView, sessions: Seq<SessionView>) -> StoreView {
    StoreView { sessions, ..s }
}

/// The store folder the user chose: a non-empty override from the
/// environment, or failing that the path written in the marker file,
/// trimmed, if it is not blank.
pub open spec fn chosen_root_of(env: Option<Seq<char>>, marker: Option<Seq<char>>) -> Option<Seq<char>> {
    match env {
        Some(e) if e.len() > 0 => Some(e),
        _ => match marker {
            Some(m) if trim(m).len() > 0 => Some(trim(m)),
            _ => None,
        },
    }
}

/// The default store folder below a home folder that is not empty.
pub open spec fn default_root_of(home: Option<Seq<char>>) -> Option<Seq<char>> {
    match home {
        Some(h) if h.len() > 0 => Some(path_join(path_join(h, ".intentio"@), "tasks"@)),
        _ => None,
    }
}

/// A log of one record per task, each id once, replays to those tasks.
pub proof fn lemma_read_folded(tasks: Seq<TaskView>, r: Seq<TaskView>)
    requires
        distinct_ids(tasks),
        is_replay(latest(tasks), r),
    ensures
        forall|i: int| 0 <= i < r.len() ==> exists|j: int| 0 <= j < tasks.len() && #[trigger] r[i] == tasks[j],
        forall|j: int| 0 <= j < tasks.len() && !(#[trigger] tasks[j]).deleted ==> exists|i: int| 0 <= i < r.len() && r[i] == tasks[j],
{
    assert(Seq::<TaskView>::empty() + tasks =~= tasks);
    lemma_latest_append(Seq::<TaskView>::empty(), tasks);
    let m = latest(tasks);
    assert(m =~= filed(tasks));
    lemma_filed(tasks);
    assert forall|id: Seq<char>| #[trigger] m.contains_key(id) && !m[id].deleted implies find_task(tasks, id, 0) < tasks.len() by {}
    lemma_replay_matches(m, tasks, |t: TaskView| t, r);
}

/// `a/b` as a path: `b` below the folder `a`.
pub open spec fn path_join(a: Seq<char>, b: Seq<char>) -> Seq<char> {
    if a.len() == 0 {
        b
    } else if a.last() == '/' {
        a + b
    } else {
        a + seq!['/'] + b
    }
}

pub(crate) fn join_path(a: &str, b: &str) -> (r: String)
    ensures
        r@ == path_join(a@, b@),
{
    let x = crate::text::chars_of(a);
    let y = crate::text::chars_of(b);
    if x.len() == 0 {
        return b.to_owned();
    }
    let mut v = x;
    if v[v.len() - 1] != '/' {
        v.push('/');
    }
    let w = crate::text::concat(v.as_slice(), y.as_slice());
    crate::text::string_of(w.as_slice())
}

/// A copy of the data.
pub fn copy_data(d: &Data) -> (r: Data)
    ensures
        r@ == d@,
{
    let mut boards: Vec<Board> = Vec::new();
    let mut i: usize = 0;
    while i < d.boards.len()
        invariant
            i <= d.boards@.len(),
            boards@.len() == i,
            forall|k: int| 0 <= k < i ==> (#[trigger] boards@[k])@ == d.boards@[k]@,
        decreases d.boards@.len() - i,
    {
        boards.push(d.boards[i].duplicate());
        i = i + 1;
    }
    let tasks = copy_tasks(&d.tasks);
    let r = Data { boards, tasks, revision: d.revision, settings: d.settings.duplicate() };
    proof {
        assert(r@.boards =~= d@.boards);
    }
    r
}

/// A copy of a run of tasks.
pub fn copy_tasks(v: &Vec<Task>) -> (r: Vec<Task>)
    ensures
        views(r@) == views(v@),
{
    let mut tasks: Vec<Task> = Vec::new();
    let mut j: usize = 0;
    while j < v.len()
        invariant
            j <= v@.len(),
            tasks@.len() == j,
            forall|k: int| 0 <= k < j ==> (#[trigger] tasks@[k])@ == v@[k]@,
        decreases v@.len() - j,
    {
        tasks.push(v[j].duplicate());
        j = j + 1;
    }
    proof {
        assert(views(tasks@) =~= views(v@));
    }
    tasks
}

fn copy_sessions(v: &Vec<Session>) -> (r: Vec<Session>)
    ensures
        r@.map_values(|s: Session| s@) == v@.map_values(|s: Session| s@),
{
    let mut out: Vec<Session> = Vec::new();
    let mut j: usize = 0;
    while j < v.len()
        invariant
            j <= v@.len(),
            out@.len() == j,
            forall|k: int| 0 <= k < j ==> (#[trigger] out@[k])@ == v@[k]@,
        decreases v@.len() - j,
    {
        out.push(v[j].duplicate());
        j = j + 1;
    }
    proof {
        assert(out@.map_values(|s: Session| s@) =~= v@.map_values(|s: Session| s@));
    }
    out
}

/// What a store folder held when it was opened.
pub enum Found {
    /// A task log: the meta file, the log's readable records in order, and
    /// a count of the lines that were not.
    Log(MetaFile, Vec<Task>, usize),
    /// No log, only the single-document store that came before it, read
    /// whole, or what stopped it being read.
    Document(Result<Data>),
    /// Neither.
    Nothing,
}

/// What opening a store folder that held `found` is owed: a log is taken
/// as it is; a document store is carried into the log rather than seeded
/// over; an empty folder is seeded. The session log is kept either way.
pub open spec fn opened(root: Seq<char>, found: Found, sessions: Seq<SessionView>, r: Result<StoreView>) -> bool {
    match found {
        Found::Log(meta, records, unreadable) => r == Ok::<StoreView, TaskError>(StoreView {
            root,
            meta: meta@,
            records: views(records@),
            unreadable: unreadable as nat,
            rewritten: false,
            sessions,
        }),
        Found::Document(Ok(d)) => r == Ok::<StoreView, TaskError>(StoreView {
            root,
            meta: MetaView::Parsed(DataView { tasks: Seq::empty(), ..d@ }),
            records: d@.tasks,
            unreadable: 0,
            rewritten: true,
            sessions,
        }),
        Found::Document(Err(e)) => r == Err::<StoreView, TaskError>(e),
        Found::Nothing => match r {
            Ok(s) => s.root == root && s.unreadable == 0 && s.rewritten && s.sessions == sessions
                && s.records.len() == 0 && match s.meta {
                MetaView::Parsed(m) => seeded_shape(m) && m.tasks.len() == 0,
                _ => false,
            },
            Err(_) => false,
        },
    }
}

impl Store {
    /// Open the store in `root` from what the folder held and its readable
    /// sessions. A document store is migrated here rather than seeded over:
    /// treating an old `tasks.json` as an empty store would write an empty
    /// log beside it, which reads as total loss.
    pub fn open(root: String, found: Found, sessions: Vec<Session>) -> (r: Result<Store>)
        ensures
            opened(root@, found, sessions@.map_values(|x: Session| x@), match r {
                Ok(s) => Ok::<StoreView, TaskError>(s@),
                Err(e) => Err::<StoreView, TaskError>(e),
            }),
    {
        match found {
            Found::Log(meta, records, unreadable) => Ok(Store::from_files(root, meta, records, unreadable, sessions)),
            Found::Document(Ok(d)) => {
                let mut s = Store::written(root, &d);
                s.sessions = sessions;
                Ok(s)
            },
            Found::Document(Err(e)) => Err(e),
            Found::Nothing => {
                let d = Data::seeded();
                let mut s = Store::written(root, &d);
                s.sessions = sessions;
                proof {
                    assert(s@.meta == MetaView::Parsed(DataView { tasks: Seq::empty(), ..d@ }));
                }
                Ok(s)
            },
        }
    }
}

impl Store {
    /// A store as its files were found: the meta file, the task log's
    /// readable records in order with a count of the lines that were not,
    /// and the sessions that could be read.
    pub fn from_files(
        root: String,
        meta: MetaFile,
        records: Vec<Task>,
        unreadable: usize,
        sessions: Vec<Session>,
    ) -> (s: Store)
        ensures
            s@.root == root@,
            s@.meta == meta@,
            s@.records == views(records@),
            s@.unreadable == unreadable,
            !s@.rewritten,
            s@.sessions == sessions@.map_values(|x: Session| x@),
    {
        Store { root, meta, records, unreadable, rewritten: false, sessions }
    }

    /// A store written whole from `data`: the meta file and one record per
    /// task. This is how a new store is seeded and a document store carried
    /// into the log.
    pub fn written(root: String, data: &Data) -> (s: Store)
        ensures
            s@.root == root@,
            s@.meta == MetaView::Parsed(DataView { tasks: Seq::empty(), ..data@ }),
            s@.records == data@.tasks,
            s@.unreadable == 0,
            s@.rewritten,
            s@.sessions.len() == 0,
    {
        let mut s = Store {
            root,
            meta: MetaFile::Absent,
            records: Vec::new(),
            unreadable: 0,
            rewritten: false,
            sessions: Vec::new(),
        };
        s.write(data);
        proof {
            assert(s@.sessions =~= Seq::<SessionView>::empty());
        }
        s
    }

    /// Replace the store's contents with `data`.
    pub fn write(&mut self, data: &Data)
        ensures
            final(self)@ == (StoreView {
                meta: MetaView::Parsed(DataView { tasks: Seq::empty(), ..data@ }),
                records: data@.tasks,
                unreadable: 0,
                rewritten: true,
                ..old(self)@
            }),
    {
        let mut meta = copy_data(data);
        meta.tasks = Vec::new();
        proof {
            assert(meta@.tasks =~= Seq::<TaskView>::empty());
            assert(meta@ == DataView { tasks: Seq::empty(), ..data@ });
        }
        self.meta = MetaFile::Parsed(meta);
        self.records = copy_tasks(&data.tasks);
        self.unreadable = 0;
        self.rewritten = true;
        proof {
            assert(self@.meta == MetaView::Parsed(DataView { tasks: Seq::empty(), ..data@ }));
        }
    }

    /// The folder the store lives in.
    pub fn root(&self) -> (r: &str)
        ensures
            r@ == self@.root,
    {
        self.root.as_str()
    }

    /// Where the task log lives.
    pub fn tasks_path(&self) -> (r: String)
        ensures
            r@ == path_join(self@.root, TASKS_FILE@),
    {
        join_path(self.root.as_str(), TASKS_FILE)
    }

    /// Where the session log lives.
    pub fn sessions_path(&self) -> (r: String)
        ensures
            r@ == path_join(self@.root, SESSIONS_FILE@),
    {
        join_path(self.root.as_str(), SESSIONS_FILE)
    }

    /// The readable records of the task log, oldest first.
    pub fn records(&self) -> (r: &Vec<Task>)
        ensures
            views(r@) == self@.records,
    {
        &self.records
    }

    /// How many lines of the task log could not be read.
    pub fn unreadable(&self) -> (r: usize)
        ensures
            r == self@.unreadable,
    {
        self.unreadable
    }

    /// Whether the task log has been rewritten whole since it was read.
    pub fn rewritten(&self) -> (r: bool)
        ensures
            r == self@.rewritten,
    {
        self.rewritten
    }

    /// What the meta file now holds.
    pub fn meta(&self) -> (r: &MetaFile)
        ensures
            r@ == self@.meta,
    {
        &self.meta
    }

    /// Read the store: the meta file's boards and settings (a fresh store's
    /// where there is no meta file yet) with the tasks the log replays to.
    pub fn read(&self) -> (r: Result<Data>)
        ensures
            match r {
                Ok(d) => reads_as(self@, d@),
                Err(e) => read_refusal(self@, e),
            },
    {
        reveal(reads_as);
        let base = match &self.meta {
            MetaFile::Absent => Data::seeded(),
            MetaFile::Parsed(d) => copy_data(d),
            MetaFile::Unreadable(m) => return Err(TaskError::Corrupt(m.clone())),
        };
        match replay(&self.records, self.unreadable) {
            Ok(tasks) => {
                let d = Data { boards: base.boards, tasks, revision: base.revision, settings: base.settings };
                Ok(d)
            },
            Err(e) => Err(e),
        }
    }

    // -------------------------------------------------------------------
    // changes
    // -------------------------------------------------------------------

    /// Add a task with only a title, at the end of the named list or the inbox. A task needs a title and nothing else.
    pub fn add_task(&mut self, title: &str, list_id: Option<&str>) -> (r: Result<Task>)
        ensures
            match r {
                Ok(x) => added_task(old(self)@, final(self)@, title@, opt_view(list_id), x@),
                Err(e) => add_refused(old(self)@, final(self)@, title@, opt_view(list_id), e),
            },
    {
        let trimmed = trim_str(title);
        if trimmed.as_str().is_empty() {
            return Err(TaskError::EmptyTitle);
        }
        let before = match self.read() {
            Ok(d) => d,
            Err(e) => return Err(e),
        };
        let mut data = copy_data(&before);
        let now = now_millis();
        match data.add_task(title, list_id) {
            Ok(x) => {
                proof {
                    reveal(reads_as);
                    lemma_replay_distinct(latest(self@.records), before@.tasks);
                }
                self.commit(&before, data, now);
                Ok(x)
            },
            Err(e) => Err(e),
        }
    }

    /// Move a task to a list and position, applying that list's status.
    pub fn move_task(&mut self, task_id: &str, list_id: &str, position: Option<usize>) -> (r: Result<Task>)
        requires
            forall|d: DataView| #[trigger] reads_as(old(self)@, d) && find_task(d.tasks, task_id@, 0) < d.tasks.len() && crate::store::list_of(d, list_id@) is Some ==> movable(d, task_id@, list_id@, position),
        ensures
            match r {
                Ok(x) => exists|before: DataView, after: DataView, now: u64|
                    #[trigger] committed(old(self)@, final(self)@, before, after, now) && reads_as(old(self)@, before)
                    && move_task_outcome(before, after, task_id@, list_id@, position, Ok(x@)),
                Err(e) => final(self)@ == old(self)@ && (read_refusal(old(self)@, e)
                    || exists|before: DataView| #[trigger] reads_as(old(self)@, before) && move_task_outcome(before, before, task_id@, list_id@, position, Err::<TaskView, TaskError>(e))),
            },
    {
        let before = match self.read() {
            Ok(d) => d,
            Err(e) => return Err(e),
        };
        let mut data = copy_data(&before);
        let now = now_millis();
        match data.move_task(task_id, list_id, position) {
            Ok(x) => {
                proof {
                    reveal(reads_as);
                    lemma_replay_distinct(latest(self@.records), before@.tasks);
                }
                self.commit(&before, data, now);
                Ok(x)
            },
            Err(e) => Err(e),
        }
    }

    /// Mark a task done or not done, moving its card to the matching list on its board.
    pub fn set_done(&mut self, task_id: &str, done: bool) -> (r: Result<Task>)
        ensures
            match r {
                Ok(x) => exists|before: DataView, after: DataView, now: u64|
                    #[trigger] committed(old(self)@, final(self)@, before, after, now) && reads_as(old(self)@, before)
                    && set_done_outcome(before, after, task_id@, done, Ok(x@)),
                Err(e) => final(self)@ == old(self)@ && (read_refusal(old(self)@, e)
                    || exists|before: DataView| #[trigger] reads_as(old(self)@, before) && set_done_outcome(before, before, task_id@, done, Err::<TaskView, TaskError>(e))),
            },
    {
        let before = match self.read() {
            Ok(d) => d,
            Err(e) => return Err(e),
        };
        let mut data = copy_data(&before);
        let now = now_millis();
        match data.set_done(task_id, done) {
            Ok(x) => {
                proof {
                    reveal(reads_as);
                    lemma_replay_distinct(latest(self@.records), before@.tasks);
                }
                self.commit(&before, data, now);
                Ok(x)
            },
            Err(e) => Err(e),
        }
    }

    /// Delete a task, closing the gap it leaves in its list.
    pub fn delete_task(&mut self, task_id: &str) -> (r: Result<Task>)
        ensures
            match r {
                Ok(x) => exists|before: DataView, after: DataView, now: u64|
                    #[trigger] committed(old(self)@, final(self)@, before, after, now) && reads_as(old(self)@, before)
                    && delete_task_outcome(before, after, task_id@, Ok(x@)),
                Err(e) => final(self)@ == old(self)@ && (read_refusal(old(self)@, e)
                    || exists|before: DataView| #[trigger] reads_as(old(self)@, before) && delete_task_outcome(before, before, task_id@, Err::<TaskView, TaskError>(e))),
            },
    {
        let before = match self.read() {
            Ok(d) => d,
            Err(e) => return Err(e),
        };
        let mut data = copy_data(&before);
        let now = now_millis();
        match data.delete_task(task_id) {
            Ok(x) => {
                proof {
                    reveal(reads_as);
                    lemma_replay_distinct(latest(self@.records), before@.tasks);
                }
                self.commit(&before, data, now);
                Ok(x)
            },
            Err(e) => Err(e),
        }
    }

    /// Add a board with the default lists.
    pub fn add_board(&mut self, name: &str) -> (r: Result<Board>)
        ensures
            match r {
                Ok(x) => exists|before: DataView, after: DataView, now: u64|
                    #[trigger] committed(old(self)@, final(self)@, before, after, now) && reads_as(old(self)@, before)
                    && add_board_outcome(before, after, name@, Ok(x@)),
                Err(e) => final(self)@ == old(self)@ && (read_refusal(old(self)@, e)
                    || (trim(name@).len() == 0 && e == TaskError::EmptyTitle)
                    || exists|before: DataView| #[trigger] reads_as(old(self)@, before) && add_board_outcome(before, before, name@, Err::<BoardView, TaskError>(e))),
            },
    {
        let trimmed = trim_str(name);
        if trimmed.as_str().is_empty() {
            return Err(TaskError::EmptyTitle);
        }
        let before = match self.read() {
            Ok(d) => d,
            Err(e) => return Err(e),
        };
        let mut data = copy_data(&before);
        let now = now_millis();
        match data.add_board(name) {
            Ok(x) => {
                proof {
                    reveal(reads_as);
                    lemma_replay_distinct(latest(self@.records), before@.tasks);
                }
                self.commit(&before, data, now);
                Ok(x)
            },
            Err(e) => Err(e),
        }
    }

    /// Add a list to the end of a board.
    pub fn add_list(&mut self, board_id: &str, name: &str, status: Option<Status>) -> (r: Result<List>)
        ensures
            match r {
                Ok(x) => exists|before: DataView, after: DataView, now: u64|
                    #[trigger] committed(old(self)@, final(self)@, before, after, now) && reads_as(old(self)@, before)
                    && add_list_outcome(before, after, board_id@, name@, status, Ok(x@)),
                Err(e) => final(self)@ == old(self)@ && (read_refusal(old(self)@, e)
                    || (trim(name@).len() == 0 && e == TaskError::EmptyTitle)
                    || exists|before: DataView| #[trigger] reads_as(old(self)@, before) && add_list_outcome(before, before, board_id@, name@, status, Err::<ListView, TaskError>(e))),
            },
    {
        let trimmed = trim_str(name);
        if trimmed.as_str().is_empty() {
            return Err(TaskError::EmptyTitle);
        }
        let before = match self.read() {
            Ok(d) => d,
            Err(e) => return Err(e),
        };
        let mut data = copy_data(&before);
        let now = now_millis();
        match data.add_list(board_id, name, status) {
            Ok(x) => {
                proof {
                    reveal(reads_as);
                    lemma_replay_distinct(latest(self@.records), before@.tasks);
                }
                self.commit(&before, data, now);
                Ok(x)
            },
            Err(e) => Err(e),
        }
    }

    /// Rename a project across every task carrying it; how many changed comes back.
    pub fn rename_project(&mut self, from: &str, to: &str) -> (r: Result<usize>)
        ensures
            match r {
                Ok(x) => exists|before: DataView, after: DataView, now: u64|
                    #[trigger] committed(old(self)@, final(self)@, before, after, now) && reads_as(old(self)@, before)
                    && rename_project_outcome(before, after, from@, to@, now, Ok(x)),
                Err(e) => final(self)@ == old(self)@ && (read_refusal(old(self)@, e)
                    || ((trim(from@).len() == 0 || trim(to@).len() == 0) && e == TaskError::EmptyTitle)),
            },
    {
        let f = trim_str(from);
        let t = trim_str(to);
        if f.as_str().is_empty() || t.as_str().is_empty() {
            return Err(TaskError::EmptyTitle);
        }
        let before = match self.read() {
            Ok(d) => d,
            Err(e) => return Err(e),
        };
        let mut data = copy_data(&before);
        let now = now_millis();
        match data.rename_project(from, to, now) {
            Ok(x) => {
                proof {
                    reveal(reads_as);
                    lemma_replay_distinct(latest(self@.records), before@.tasks);
                }
                self.commit(&before, data, now);
                Ok(x)
            },
            Err(e) => Err(e),
        }
    }

    /// Remove a project from every task; the tasks themselves stay.
    pub fn delete_project(&mut self, name: &str) -> (r: Result<usize>)
        ensures
            match r {
                Ok(x) => exists|before: DataView, after: DataView, now: u64|
                    #[trigger] committed(old(self)@, final(self)@, before, after, now) && reads_as(old(self)@, before)
                    && delete_project_outcome(before, after, name@, now, Ok(x)),
                Err(e) => final(self)@ == old(self)@ && (read_refusal(old(self)@, e)),
            },
    {
        let before = match self.read() {
            Ok(d) => d,
            Err(e) => return Err(e),
        };
        let mut data = copy_data(&before);
        let now = now_millis();
        match data.delete_project(name, now) {
            Ok(x) => {
                proof {
                    reveal(reads_as);
                    lemma_replay_distinct(latest(self@.records), before@.tasks);
                }
                self.commit(&before, data, now);
                Ok(x)
            },
            Err(e) => Err(e),
        }
    }

    /// Rename a tag everywhere, merging into an existing one where it collides.
    pub fn rename_tag(&mut self, from: &str, to: &str) -> (r: Result<usize>)
        ensures
            match r {
                Ok(x) => exists|before: DataView, after: DataView, now: u64|
                    #[trigger] committed(old(self)@, final(self)@, before, after, now) && reads_as(old(self)@, before)
                    && rename_tag_outcome(before, after, from@, to@, now, Ok(x)),
                Err(e) => final(self)@ == old(self)@ && (read_refusal(old(self)@, e)
                    || ((trim(from@).len() == 0 || trim(to@).len() == 0) && e == TaskError::EmptyTitle)),
            },
    {
        let f = trim_str(from);
        let t = trim_str(to);
        if f.as_str().is_empty() || t.as_str().is_empty() {
            return Err(TaskError::EmptyTitle);
        }
        let before = match self.read() {
            Ok(d) => d,
            Err(e) => return Err(e),
        };
        let mut data = copy_data(&before);
        let now = now_millis();
        match data.rename_tag(from, to, now) {
            Ok(x) => {
                proof {
                    reveal(reads_as);
                    lemma_replay_distinct(latest(self@.records), before@.tasks);
                }
                self.commit(&before, data, now);
                Ok(x)
            },
            Err(e) => Err(e),
        }
    }

    /// Remove a tag from every task.
    pub fn delete_tag(&mut self, name: &str) -> (r: Result<usize>)
        ensures
            match r {
                Ok(x) => exists|before: DataView, after: DataView, now: u64|
                    #[trigger] committed(old(self)@, final(self)@, before, after, now) && reads_as(old(self)@, before)
                    && delete_tag_outcome(before, after, name@, now, Ok(x)),
                Err(e) => final(self)@ == old(self)@ && (read_refusal(old(self)@, e)),
            },
    {
        let before = match self.read() {
            Ok(d) => d,
            Err(e) => return Err(e),
        };
        let mut data = copy_data(&before);
        let now = now_millis();
        match data.delete_tag(name, now) {
            Ok(x) => {
                proof {
                    reveal(reads_as);
                    lemma_replay_distinct(latest(self@.records), before@.tasks);
                }
                self.commit(&before, data, now);
                Ok(x)
            },
            Err(e) => Err(e),
        }
    }


    /// Capture a typed line: add a task with its title, then fill in the
    /// project, tags, owner, due date, impact and effort it named, all in one
    /// change. A line typed by hand and the same line handed over by an agent
    /// give the same task. `today` is the user's date, which `due:tomorrow`
    /// is read from. Once the task is added, filling it in cannot fail.
    pub fn capture(&mut self, input: &str, list_id: Option<&str>, today: &str) -> (r: Result<Task>)
        requires
            capture_of(input@) is Some,
            capture_of(input@)->0.due matches Some(d) ==> crate::capture::resolvable(d, today@),
        ensures
            match r {
                Ok(t) => captured_in(old(self)@, final(self)@, input@, opt_view(list_id), today@, t@),
                Err(e) => add_refused(old(self)@, final(self)@, capture_of(input@)->0.title, opt_view(list_id), e),
            },
    {
        let captured = parse(input);
        let ghost c = captured@;
        let before = match self.read() {
            Ok(d) => d,
            Err(e) => return Err(e),
        };
        let mut data = copy_data(&before);
        let task = match data.add_task(captured.title.as_str(), list_id) {
            Ok(t) => t,
            Err(e) => return Err(e),
        };
        let ghost mid = data@;
        let ghost a = task@;
        let filled = if captured.project.is_none() && captured.tags.len() == 0 && captured.owner.is_none()
            && captured.due.is_none() && captured.impact.is_none() && captured.effort.is_none() {
            proof {
                assert(plain(c));
            }
            task
        } else {
            proof {
                assert(!plain(c));
                assert(mid.tasks == before@.tasks.push(a));
                assert(mid.tasks[mid.tasks.len() - 1].id == a.id);
                lemma_find_task(mid.tasks, a.id, 0);
            }
            match data.apply_capture(task.id.as_str(), &captured, today) {
                Ok(t) => t,
                Err(e) => {
                    proof {
                        assert(false);
                    }
                    return Err(e);
                },
            }
        };
        let now = now_millis();
        proof {
            reveal(reads_as);
            lemma_replay_distinct(latest(self@.records), before@.tasks);
        }
        let ghost after = data@;
        self.commit(&before, data, now);
        proof {
            assert(reads_as(old(self)@, before@));
            assert(committed(old(self)@, self@, before@, after, now));
            assert(add_task_outcome(before@, mid, c.title, opt_view(list_id), Ok(a)));
        }
        Ok(filled)
    }

    /// Change how long a completed task stays visible, up to a year.
    pub fn set_hide_completed_after_days(&mut self, days: u32) -> (r: Result<Settings>)
        ensures
            match r {
                Ok(x) => settings_set(
                    old(self)@,
                    final(self)@,
                    |s: SettingsView| SettingsView {
                        hide_completed_after_days: if days < 365 {
                            days
                        } else {
                            365
                        },
                        ..s
                    },
                    x@,
                ),
                Err(e) => final(self)@ == old(self)@ && read_refusal(old(self)@, e),
            },
    {
        let before = match self.read() {
            Ok(d) => d,
            Err(e) => return Err(e),
        };
        let mut data = copy_data(&before);
        let now = now_millis();
        let x = data.set_hide_completed_after_days(days);
        proof {
            reveal(reads_as);
            lemma_replay_distinct(latest(self@.records), before@.tasks);
        }
        self.commit(&before, data, now);
        Ok(x)
    }

    /// Change the daily focus goal, kept between 1 and 16.
    pub fn set_daily_goal(&mut self, sessions: u32) -> (r: Result<Settings>)
        ensures
            match r {
                Ok(x) => settings_set(
                    old(self)@,
                    final(self)@,
                    |s: SettingsView| SettingsView {
                        daily_focus_goal: if sessions < 1 {
                            1
                        } else if sessions > 16 {
                            16
                        } else {
                            sessions
                        },
                        ..s
                    },
                    x@,
                ),
                Err(e) => final(self)@ == old(self)@ && read_refusal(old(self)@, e),
            },
    {
        let before = match self.read() {
            Ok(d) => d,
            Err(e) => return Err(e),
        };
        let mut data = copy_data(&before);
        let now = now_millis();
        let x = data.set_daily_goal(sessions);
        proof {
            reveal(reads_as);
            lemma_replay_distinct(latest(self@.records), before@.tasks);
        }
        self.commit(&before, data, now);
        Ok(x)
    }

    /// Replace the working week; day numbers above 6 are dropped.
    pub fn set_working_days(&mut self, days: Vec<u8>) -> (r: Result<Settings>)
        ensures
            match r {
                Ok(x) => settings_set(
                    old(self)@,
                    final(self)@,
                    |s: SettingsView| SettingsView { working_days: working_week(days@), ..s },
                    x@,
                ),
                Err(e) => final(self)@ == old(self)@ && read_refusal(old(self)@, e),
            },
    {
        let before = match self.read() {
            Ok(d) => d,
            Err(e) => return Err(e),
        };
        let mut data = copy_data(&before);
        let now = now_millis();
        let x = data.set_working_days(days);
        proof {
            reveal(reads_as);
            lemma_replay_distinct(latest(self@.records), before@.tasks);
        }
        self.commit(&before, data, now);
        Ok(x)
    }

    /// Replace the non-working dates: trimmed, unreadable ones dropped,
    /// sorted, without repeats.
    pub fn set_holidays(&mut self, holidays: Vec<String>) -> (r: Result<Settings>)
        ensures
            match r {
                Ok(x) => settings_set(
                    old(self)@,
                    final(self)@,
                    |s: SettingsView| SettingsView { holidays: clean_holidays(holidays.deep_view()), ..s },
                    x@,
                ),
                Err(e) => final(self)@ == old(self)@ && read_refusal(old(self)@, e),
            },
    {
        let before = match self.read() {
            Ok(d) => d,
            Err(e) => return Err(e),
        };
        let mut data = copy_data(&before);
        let now = now_millis();
        let ghost hv = holidays.deep_view();
        let x = data.set_holidays(holidays);
        proof {
            reveal(reads_as);
            lemma_replay_distinct(latest(self@.records), before@.tasks);
        }
        self.commit(&before, data, now);
        Ok(x)
    }

    /// Mark a task as handed over by `from`, for `member` unless it already
    /// names someone.
    pub(crate) fn hand_over(&mut self, task_id: &str, from: &str, member: &str) -> (r: Result<Task>)
        ensures
            match r {
                Ok(x) => exists|before: DataView, after: DataView, now: u64|
                    #[trigger] committed(old(self)@, final(self)@, before, after, now) && reads_as(old(self)@, before)
                    && handed_over(before, after, task_id@, from@, member@, Ok(x@)),
                Err(e) => final(self)@ == old(self)@ && (read_refusal(old(self)@, e)
                    || exists|before: DataView| #[trigger] reads_as(old(self)@, before)
                    && handed_over(before, before, task_id@, from@, member@, Err::<TaskView, TaskError>(e))),
            },
    {
        let before = match self.read() {
            Ok(d) => d,
            Err(e) => return Err(e),
        };
        let mut data = copy_data(&before);
        let now = now_millis();
        match data.hand_over(task_id, from, member) {
            Ok(x) => {
                proof {
                    reveal(reads_as);
                    lemma_replay_distinct(latest(self@.records), before@.tasks);
                }
                self.commit(&before, data, now);
                Ok(x)
            },
            Err(e) => Err(e),
        }
    }

    // -------------------------------------------------------------------
    // sessions
    // -------------------------------------------------------------------

    /// Every recorded session, oldest first. A line that could not be read
    /// was left out rather than failing the read.
    pub fn sessions(&self) -> (r: Result<Vec<Session>>)
        ensures
            r is Ok && r->Ok_0@.map_values(|s: Session| s@) == self@.sessions,
    {
        Ok(copy_sessions(&self.sessions))
    }

    /// Append a finished session to the log.
    pub fn log_session(&mut self, session: &Session) -> (r: Result<()>)
        ensures
            r is Ok,
            final(self)@ == with_sessions(old(self)@, old(self)@.sessions.push(session@)),
    {
        let ghost before = self@.sessions;
        self.sessions.push(session.duplicate());
        proof {
            assert(self@.sessions =~= before.push(session@));
        }
        Ok(())
    }

    /// Attribute an already-logged session to a task (or to none).
    pub fn assign_session(&mut self, session_id: &str, task_id: Option<&str>) -> (r: Result<Session>)
        ensures
            ({
                let i = find_session(old(self)@.sessions, session_id@, 0);
                match r {
                    Ok(x) => i < old(self)@.sessions.len() && x@ == (SessionView {
                        task_id: opt_view(task_id),
                        ..old(self)@.sessions[i]
                    }) && final(self)@ == with_sessions(old(self)@, old(self)@.sessions.update(i, x@)),
                    Err(e) => final(self)@ == old(self)@ && i == old(self)@.sessions.len() && e
                        == TaskError::SessionNotFound(e->SessionNotFound_0) && e->SessionNotFound_0@
                        == session_id@,
                }
            }),
    {
        let i = match self.session_index(session_id) {
            Some(i) => i,
            None => return Err(TaskError::SessionNotFound(session_id.to_owned())),
        };
        let mut updated = self.sessions[i].duplicate();
        updated.task_id = match task_id {
            Some(t) => Some(t.to_owned()),
            None => None,
        };
        let ghost before = self@.sessions;
        let stored = updated.duplicate();
        self.sessions.set(i, stored);
        proof {
            assert(self@.sessions =~= before.update(i as int, updated@));
        }
        Ok(updated)
    }

    /// Remove a session from the log.
    pub fn delete_session(&mut self, session_id: &str) -> (r: Result<Session>)
        ensures
            ({
                let i = find_session(old(self)@.sessions, session_id@, 0);
                match r {
                    Ok(x) => i < old(self)@.sessions.len() && x@ == old(self)@.sessions[i] && final(self)@
                        == with_sessions(old(self)@, old(self)@.sessions.remove(i)),
                    Err(e) => final(self)@ == old(self)@ && i == old(self)@.sessions.len() && e
                        == TaskError::SessionNotFound(e->SessionNotFound_0) && e->SessionNotFound_0@
                        == session_id@,
                }
            }),
    {
        let i = match self.session_index(session_id) {
            Some(i) => i,
            None => return Err(TaskError::SessionNotFound(session_id.to_owned())),
        };
        let ghost before = self@.sessions;
        let removed = self.sessions.remove(i);
        proof {
            assert(self@.sessions =~= before.remove(i as int));
        }
        Ok(removed)
    }

    /// Record a stretch of work that just ended: a fresh session id, and an
    /// end `seconds` after the start.
    pub fn finish_session(
        &mut self,
        task_id: Option<&str>,
        started_at: u64,
        seconds: u64,
        kind: SessionKind,
        completed: bool,
    ) -> (r: Result<Session>)
        requires
            started_at + seconds * 1000 <= u64::MAX,
        ensures
            r is Ok,
            exists|nanos: nat, seq: nat| r->Ok_0@.id == #[trigger] session_id_text(nanos, seq),
            forall|i: int| 0 <= i < old(self)@.sessions.len() ==> old(self)@.sessions[i].id != r->Ok_0@.id,
            r->Ok_0@.task_id == opt_view(task_id),
            r->Ok_0@.started_at == started_at,
            r->Ok_0@.ended_at == started_at + seconds * 1000,
            r->Ok_0@.seconds == seconds,
            r->Ok_0@.kind == kind,
            r->Ok_0@.completed == completed,
            final(self)@ == with_sessions(old(self)@, old(self)@.sessions.push(r->Ok_0@)),
    {
        proof {
            assert(seconds * 1000 <= u64::MAX) by (nonlinear_arith)
                requires
                    started_at + seconds * 1000 <= u64::MAX,
            ;
        }
        let mut taken: Vec<String> = Vec::new();
        let mut k: usize = 0;
        while k < self.sessions.len()
            invariant
                k <= self.sessions@.len(),
                self@ == old(self)@,
                taken@.len() == k,
                forall|j: int| 0 <= j < k ==> (#[trigger] taken@[j])@ == old(self)@.sessions[j].id,
            decreases self.sessions@.len() - k,
        {
            taken.push(self.sessions[k].id.clone());
            k = k + 1;
        }
        // The id is checked against the log, so no two sessions share one.
        let id = fresh_id_among("session", &taken);
        proof {
            assert forall|i: int| 0 <= i < old(self)@.sessions.len() implies old(self)@.sessions[i].id != id@ by {
                assert(taken@[i]@ == old(self)@.sessions[i].id);
            }
        }
        proof {
            reveal_strlit("session");
            let (n, q) = choose|n: nat, q: nat| id@ == crate::model::id_text("session"@, n, q);
            assert("session"@ =~= seq!['s', 'e', 's', 's', 'i', 'o', 'n']);
            assert(id@ == session_id_text(n, q));
        }
        let session = Session {
            id,
            task_id: match task_id {
                Some(t) => Some(t.to_owned()),
                None => None,
            },
            started_at,
            ended_at: started_at + seconds * 1000,
            seconds,
            kind,
            completed,
        };
        let _ = self.log_session(&session);
        Ok(session)
    }

    fn session_index(&self, id: &str) -> (r: Option<usize>)
        ensures
            match r {
                Some(i) => i == find_session(self@.sessions, id@, 0) && i < self@.sessions.len(),
                None => find_session(self@.sessions, id@, 0) == self@.sessions.len(),
            },
    {
        let mut i: usize = 0;
        while i < self.sessions.len()
            invariant
                i <= self@.sessions.len(),
                find_session(self@.sessions, id@, i as int) == find_session(self@.sessions, id@, 0),
            decreases self@.sessions.len() - i,
        {
            proof {
                assert(self@.sessions[i as int] == self.sessions@[i as int]@);
            }
            if str_eq(self.sessions[i].id.as_str(), id) {
                return Some(i);
            }
            i = i + 1;
        }
        None
    }

    // -------------------------------------------------------------------
    // where a store lives
    // -------------------------------------------------------------------

    /// The store folder the user chose, if any: a non-empty environment
    /// override first, then the folder named in the marker file.
    pub fn chosen_root(env: Option<String>, marker: Option<String>) -> (r: Option<String>)
        ensures
            r.deep_view() == chosen_root_of(env.deep_view(), marker.deep_view()),
    {
        match env {
            Some(e) => if !e.as_str().is_empty() {
                proof {
                    assert(e@.len() > 0);
                }
                return Some(e);
            },
            None => {},
        }
        match marker {
            Some(m) => {
                let t = trim_str(m.as_str());
                if !t.as_str().is_empty() {
                    Some(t)
                } else {
                    None
                }
            },
            None => None,
        }
    }

    /// The default store folder, `.intentio/tasks` below a home folder.
    pub fn default_root(home: Option<String>) -> (r: Option<String>)
        ensures
            r.deep_view() == default_root_of(home.deep_view()),
    {
        match home {
            Some(h) => if !h.as_str().is_empty() {
                let base = join_path(h.as_str(), ".intentio");
                Some(join_path(base.as_str(), "tasks"))
            } else {
                None
            },
            None => None,
        }
    }

    /// Where the app should look: the chosen folder, or the default.
    pub fn configured_root(chosen: Option<String>, home: Option<String>) -> (r: Option<String>)
        ensures
            r.deep_view() == match chosen.deep_view() {
                Some(c) => Some(c),
                None => default_root_of(home.deep_view()),
            },
    {
        match chosen {
            Some(c) => Some(c),
            None => Self::default_root(home),
        }
    }

    /// Commit a change from `before` (what was read) to `after`: stamp
    /// what changed, append its records, rewrite the meta file, and fold
    /// the log down once it has grown long.
    pub(crate) fn commit(&mut self, before: &Data, after: Data, now: u64)
        requires
            distinct_ids(before@.tasks),
        ensures
            committed(old(self)@, final(self)@, before@, after@, now),
    {
        reveal(committed);
        reveal(compacts);
        let ghost a0 = after@;
        let mut data = after;
        data.revision = if data.revision == u64::MAX {
            data.revision
        } else {
            data.revision + 1
        };
        let extra = record_changes(&before.tasks, &mut data.tasks, now);
        proof {
            assert(data@ == kept(before@, a0, now));
            assert(views(extra@) == appended(before@, a0, now));
            assert(data@.tasks.len() == a0.tasks.len());
        }
        let ghost k_data = data@;
        let lines: u128 = self.records.len() as u128 + self.unreadable as u128 + extra.len() as u128;
        let live: u128 = if data.tasks.len() > 1 {
            data.tasks.len() as u128
        } else {
            1
        };
        let compact = lines >= COMPACT_FLOOR as u128 && lines >= live * (COMPACT_RATIO as u128);
        proof {
            assert(lines == old(self)@.records.len() + old(self)@.unreadable + appended(before@, a0, now).len());
            assert(compact == compacts(old(self)@, before@, a0, now));
        }
        let ghost mid = self@;
        if compact {
            self.records = copy_tasks(&data.tasks);
            self.unreadable = 0;
            self.rewritten = true;
        } else {
            let ghost old_records = views(self.records@);
            let mut k: usize = 0;
            while k < extra.len()
                invariant
                    k <= extra@.len(),
                    views(self.records@) == old_records + views(extra@).take(k as int),
                    self@.root == mid.root,
                    self@.sessions == mid.sessions,
                    self@.unreadable == mid.unreadable,
                    self@.rewritten == mid.rewritten,
                decreases extra@.len() - k,
            {
                let ghost prev = views(self.records@);
                let x = extra[k].duplicate();
                self.records.push(x);
                proof {
                    assert(views(self.records@) =~= prev.push(extra@[k as int]@));
                    assert(views(extra@).take(k + 1) =~= views(extra@).take(k as int).push(extra@[k as int]@));
                }
                k = k + 1;
                proof {
                    assert(views(self.records@) =~= old_records + views(extra@).take(k as int));
                }
            }
            proof {
                assert(views(extra@).take(k as int) =~= views(extra@));
            }
        }
        let mut meta = data;
        meta.tasks = Vec::new();
        proof {
            assert(meta@.tasks =~= Seq::<TaskView>::empty());
            assert(meta@ == DataView { tasks: Seq::empty(), ..k_data });
        }
        self.meta = MetaFile::Parsed(meta);
        proof {
            assert(self@.root == old(self)@.root);
            assert(self@.sessions == old(self)@.sessions);
            if compact {
                assert(self@.records == k_data.tasks);
            } else {
                assert(self@.records == old(self)@.records + appended(before@, a0, now));
            }
        }
    }
}

/// Every write bumps the revision: a committed change leaves the meta file
/// one revision past the data it read, so a reader can tell its copy is stale.
pub proof fn lemma_every_write_bumps_the_revision(old: StoreView, new: StoreView, before: DataView, after: DataView, now: u64)
    requires
        committed(old, new, before, after, now),
        after.revision == before.revision,
        before.revision < u64::MAX,
    ensures
        new.meta matches MetaView::Parsed(m) && m.revision == before.revision + 1,
{
    reveal(committed);
}

/// A change never touches the session log.
pub proof fn lemma_changes_keep_sessions(old: StoreView, new: StoreView, before: DataView, after: DataView, now: u64)
    requires
        committed(old, new, before, after, now),
    ensures
        new.sessions == old.sessions,
        new.root == old.root,
{
    reveal(committed);
}

/// Reading the store after a committed change gives its boards, settings
/// and kept revision back.
pub proof fn lemma_commit_meta(old: StoreView, new: StoreView, before: DataView, after: DataView, now: u64, d: DataView)
    requires
        committed(old, new, before, after, now),
        reads_as(new, d),
    ensures
        d.boards == after.boards,
        d.settings == after.settings,
        d.revision == kept(before, after, now).revision,
{
    reveal(reads_as);
    reveal(committed);
}

/// Reading the store after a committed change that folded the log down
/// gives the change's tasks as they were kept: every task read is one of
/// them, and every live one is read.
pub proof fn lemma_read_compacted(old: StoreView, new: StoreView, before: DataView, after: DataView, now: u64, d: DataView)
    requires
        committed(old, new, before, after, now),
        compacts(old, before, after, now),
        distinct_ids(after.tasks),
        reads_as(new, d),
    ensures
        forall|i: int|
            0 <= i < d.tasks.len() ==> exists|j: int|
                0 <= j < after.tasks.len() && #[trigger] d.tasks[i] == kept(before, after, now).tasks[j],
        forall|j: int|
            0 <= j < after.tasks.len() && !(#[trigger] kept(before, after, now).tasks[j]).deleted
                ==> exists|i: int| 0 <= i < d.tasks.len() && d.tasks[i] == kept(before, after, now).tasks[j],
{
    let k = kept(before, after, now);
    assert(new.records == k.tasks) by {
        reveal(committed);
    }
    assert(is_replay(latest(new.records), d.tasks)) by {
        reveal(reads_as);
    }
    assert(distinct_ids(k.tasks)) by {
        assert forall|i: int, j: int| 0 <= i < j < k.tasks.len() implies (#[trigger] k.tasks[i]).id
            != (#[trigger] k.tasks[j]).id by {
            assert(k.tasks[i].id == after.tasks[i].id);
            assert(k.tasks[j].id == after.tasks[j].id);
        }
    }
    lemma_read_folded(k.tasks, d.tasks);
}

/// Reading the store after a committed change appended to the log (with
/// `now` no earlier than any record it supersedes) gives the change's tasks
/// as the log now records them: every task read is one of them, and every
/// live one is read.
#[verifier::rlimit(60)]
pub proof fn lemma_read_appended(old: StoreView, new: StoreView, before: DataView, after: DataView, now: u64, d: DataView)
    requires
        reads_as(old, before),
        committed(old, new, before, after, now),
        !compacts(old, before, after, now),
        distinct_ids(after.tasks),
        change_wins(latest(old.records), before.tasks, after.tasks, now),
        reads_as(new, d),
    ensures
        forall|i: int|
            0 <= i < d.tasks.len() ==> exists|j: int|
                0 <= j < after.tasks.len() && #[trigger] d.tasks[i] == recorded(before.tasks, after.tasks[j], now),
        forall|j: int|
            0 <= j < after.tasks.len() && !recorded(before.tasks, #[trigger] after.tasks[j], now).deleted
                ==> exists|i: int| 0 <= i < d.tasks.len() && d.tasks[i] == recorded(before.tasks, after.tasks[j], now),
{
    assert(new.records == log_after(old.records, before.tasks, after.tasks, now)) by {
        reveal(committed);
    }
    assert(is_replay(latest(new.records), d.tasks)) by {
        reveal(reads_as);
    }
    assert(is_replay(latest(old.records), before.tasks)) by {
        reveal(reads_as);
    }
    lemma_read_after_change(old.records, before.tasks, after.tasks, now, d.tasks);
}

} // verus!
