//! The tool surface an AI agent sees for a task store.
//!
//! Written around the same principle as the app: capture takes a title and
//! nothing else. Everything an agent might want to set is optional, so a
//! model that only knows "remind me to call the bank" can still record it
//! correctly. Each tool reads its arguments, validates everything that can
//! be refused before anything is written, and answers with a `Reply` that
//! the caller renders.

use vstd::prelude::*;

use crate::bulk::{delete_project_outcome, delete_tag_outcome, rename_project_outcome, rename_tag_outcome};
use crate::capture::{capture_of, resolvable};
use crate::changes::{
    add_board_outcome, add_list_outcome, delete_task_outcome, movable, move_task_outcome, opt_view,
    result_view_of, set_done_outcome,
};
use crate::clock::{day_after, day_before, next_day, previous_day, read_ymd, ymd_reading};
use crate::edit::{edited_in_store, no_edit, TaskEdit, TaskEditView};
use crate::error::{error_text, TaskError};
use crate::log::views;
use crate::matrix::{plot, plot_of, suggest, suggestion, Plotted};
use crate::mcp::{
    arg_of, optional_bool, optional_count, optional_text, opt_bool, opt_str, opt_str_list, opt_usize,
    require_str, required_text, text_list, Arg, ArgView, Args, ServerInfo,
};
use crate::model::{
    session_id_text, Board, BoardView, List, ListView, Session, SessionKind, SessionView, Status, Task, TaskView,
};
use crate::persist::{
    add_refused, added_task, captured_in, committed, plain, read_refusal, reads_as, Store,
    StoreView, with_sessions,
};
use crate::query::{
    checked_time_summary, found, lowercase_of, per_task, seconds_of, sessions_of, today, today_of, Filter, FilterView,
    TaskTime, TimeSummary, TodayEntry,
};
use crate::stats::{
    done_count_on, done_points, done_points_on, focus_count_on, focus_seconds_on, session_views, streak_of, Stats,
};
use crate::store::{find_board_of_list, find_task, list_of, DataView};
use crate::persist::{find_session};
use crate::sorting::{sort_stable, Ranked};
use crate::text::{ascii_lowercase, append_to, chars_of, str_eq, string_of, to_ascii_lower, trim, trimmed};

verus! {

// ---------------------------------------------------------------------------
// reading words an agent sends
// ---------------------------------------------------------------------------

/// The status a word names: `todo`, `to do` or `open`; `doing`, `in
/// progress` or `in-progress`; `done`, `complete` or `completed`.
pub open spec fn status_named(w: Seq<char>) -> Option<Status> {
    if w == "todo"@ || w == "to do"@ || w == "open"@ {
        Some(Status::Todo)
    } else if w == "doing"@ || w == "in progress"@ || w == "in-progress"@ {
        Some(Status::Doing)
    } else if w == "done"@ || w == "complete"@ || w == "completed"@ {
        Some(Status::Done)
    } else {
        None
    }
}

/// A status from what an agent sent, trimmed and in lower case; anything
/// else is refused rather than guessed.
pub open spec fn status_reading(value: Seq<char>) -> Result<Status, Seq<char>> {
    let w = lowercase_of(trim(value));
    match status_named(w) {
        Some(s) => Ok(s),
        None => Err("unknown status `"@ + w + "`; use todo, doing or done"@),
    }
}

fn joined3(a: &str, b: &[char], c: &str) -> (r: String)
    ensures
        r@ == a@ + b@ + c@,
{
    let mut v = chars_of(a);
    append_to(&mut v, b);
    let t = chars_of(c);
    append_to(&mut v, t.as_slice());
    string_of(v.as_slice())
}

/// Parse a status name, rejecting anything else rather than guessing.
pub fn parse_status(value: &str) -> (r: Result<Status, String>)
    ensures
        match r {
            Ok(s) => status_reading(value@) == Ok::<Status, Seq<char>>(s),
            Err(m) => status_reading(value@) == Err::<Status, Seq<char>>(m@),
        },
{
    let t = crate::text::trim_str(value);
    let w = crate::query::lowercase(t.as_str());
    let ws = w.as_str();
    if str_eq(ws, "todo") || str_eq(ws, "to do") || str_eq(ws, "open") {
        Ok(Status::Todo)
    } else if str_eq(ws, "doing") || str_eq(ws, "in progress") || str_eq(ws, "in-progress") {
        Ok(Status::Doing)
    } else if str_eq(ws, "done") || str_eq(ws, "complete") || str_eq(ws, "completed") {
        Ok(Status::Done)
    } else {
        let v = chars_of(ws);
        Err(joined3("unknown status `", v.as_slice(), "`; use todo, doing or done"))
    }
}

/// Which label an agent means. Spelled out rather than taken as a bare
/// string, so a typo fails loudly instead of silently doing nothing.
#[derive(Debug, Clone, Copy, PartialEq, Eq, Structural)]
pub enum LabelKind {
    Project,
    Tag,
}

/// `project(s)` or `tag(s)`, in any case; anything else is refused.
pub open spec fn label_reading(raw: Seq<char>) -> Result<LabelKind, Seq<char>> {
    let w = ascii_lowercase(trim(raw));
    if w == "project"@ || w == "projects"@ {
        Ok(LabelKind::Project)
    } else if w == "tag"@ || w == "tags"@ {
        Ok(LabelKind::Tag)
    } else {
        Err("kind must be `project` or `tag`, got `"@ + w + "`"@)
    }
}

pub fn label_kind(raw: &str) -> (r: Result<LabelKind, String>)
    ensures
        match r {
            Ok(k) => label_reading(raw@) == Ok::<LabelKind, Seq<char>>(k),
            Err(m) => label_reading(raw@) == Err::<LabelKind, Seq<char>>(m@),
        },
{
    let t = trimmed(chars_of(raw).as_slice());
    let w = string_of(to_ascii_lower(t.as_slice()).as_slice());
    let ws = w.as_str();
    if str_eq(ws, "project") || str_eq(ws, "projects") {
        Ok(LabelKind::Project)
    } else if str_eq(ws, "tag") || str_eq(ws, "tags") {
        Ok(LabelKind::Tag)
    } else {
        let v = chars_of(ws);
        Err(joined3("kind must be `project` or `tag`, got `", v.as_slice(), "`"))
    }
}

/// A due date the store will take: `YYYY-MM-DD` as the calendar reads it,
/// or the words today, tomorrow or yesterday (in any case) counted from
/// `today`; anything else is refused rather than guessed.
pub open spec fn due_reading(value: Seq<char>, today: Seq<char>) -> Result<Seq<char>, Seq<char>> {
    let w = lowercase_of(trim(value));
    if w == "today"@ {
        Ok(today)
    } else if w == "tomorrow"@ {
        Ok(
            match day_after(today) {
                Some(d) => d,
                None => today,
            },
        )
    } else if w == "yesterday"@ {
        Ok(
            match day_before(today) {
                Some(d) => d,
                None => today,
            },
        )
    } else {
        match ymd_reading(w) {
            Some(d) => Ok(d),
            None => Err("`"@ + value + "` is not a date; use YYYY-MM-DD, today or tomorrow"@),
        }
    }
}

/// Read a due date an agent sent, given today's date as `YYYY-MM-DD`.
pub fn parse_due(value: &str, today: &str) -> (r: Result<String, String>)
    ensures
        match r {
            Ok(d) => due_reading(value@, today@) == Ok::<Seq<char>, Seq<char>>(d@),
            Err(m) => due_reading(value@, today@) == Err::<Seq<char>, Seq<char>>(m@),
        },
{
    let t = crate::text::trim_str(value);
    let w = crate::query::lowercase(t.as_str());
    let ws = w.as_str();
    if str_eq(ws, "today") {
        return Ok(today.to_owned());
    }
    if str_eq(ws, "tomorrow") {
        return Ok(
            match next_day(today) {
                Some(d) => d,
                None => today.to_owned(),
            },
        );
    }
    if str_eq(ws, "yesterday") {
        return Ok(
            match previous_day(today) {
                Some(d) => d,
                None => today.to_owned(),
            },
        );
    }
    match read_ymd(ws) {
        Some(d) => Ok(d),
        None => {
            let v = chars_of(value);
            Err(joined3("`", v.as_slice(), "` is not a date; use YYYY-MM-DD, today or tomorrow"))
        },
    }
}

// ---------------------------------------------------------------------------
// the server
// ---------------------------------------------------------------------------

pub open spec fn server_name() -> Seq<char> {
    "intentio-tasks"@
}

/// The guidance a model is given for this server.
pub open spec fn instructions() -> Seq<char> {
    "Read and write the user's Intentio Tasks store \u{2014} boards, lists, tasks and recorded pomodoro sessions, kept as plain JSON on their own machine.\n\nGuidance:\n- `add_task` needs only a title. Do not invent a due date, list or priority the user did not give; an unscheduled task is normal and correct.\n- `today` is the list the user actually works from: overdue, due today, flagged, or in progress. Prefer it over `list_tasks` when asked what to do now.\n- Dates are `YYYY-MM-DD`; `today` and `tomorrow` are also accepted.\n- `complete_task` moves a task into its board's Done list as well as marking it, so there is no need to move it separately.\n- Recorded sessions are the user's time log. Add to it with `log_session` only for work that actually happened."@
}

/// Who this server is, for the given build version.
pub fn server_info(version: String) -> (r: ServerInfo)
    ensures
        r.name@ == server_name(),
        r.version@ == version@,
        r.instructions@ == instructions(),
{
    ServerInfo {
        name: "intentio-tasks".to_owned(),
        version,
        instructions: "Read and write the user's Intentio Tasks store \u{2014} boards, lists, tasks and recorded pomodoro sessions, kept as plain JSON on their own machine.\n\nGuidance:\n- `add_task` needs only a title. Do not invent a due date, list or priority the user did not give; an unscheduled task is normal and correct.\n- `today` is the list the user actually works from: overdue, due today, flagged, or in progress. Prefer it over `list_tasks` when asked what to do now.\n- Dates are `YYYY-MM-DD`; `today` and `tomorrow` are also accepted.\n- `complete_task` moves a task into its board's Done list as well as marking it, so there is no need to move it separately.\n- Recorded sessions are the user's time log. Add to it with `log_session` only for work that actually happened.".to_owned(),
    }
}

/// The tools over one store.
pub struct TaskTools {
    store: Store,
}

impl View for TaskTools {
    type V = StoreView;

    closed spec fn view(&self) -> StoreView {
        self.store@
    }
}

/// What a tool answered, for the caller to render.
#[derive(Debug)]
pub enum Reply {
    /// The task as stored once everything asked for was applied.
    Added(Option<Task>),
    Today(String, Vec<TodayEntry>),
    Tasks(Vec<Task>),
    /// A task, its list, its board's id and name, and the focus seconds and
    /// sessions recorded against it.
    Detail(Task, Option<List>, Option<(String, String)>, u64, usize),
    Updated(Task),
    Completed(Task),
    Reopened(Task),
    Moved(Task),
    Deleted(Task),
    Boards(Vec<Board>),
    BoardAdded(Board),
    ListAdded(List),
    Logged(Session),
    Time(TimeSummary),
    Matrix(Vec<Plotted>),
    /// The pick, if anything is scored, and whether it was for low energy.
    Suggestion(Option<Plotted>, bool),
    Stats(Stats),
    /// The new name and how many tasks were touched.
    Renamed(String, usize),
    /// The cleared name and how many tasks were touched.
    Cleared(String, usize),
    /// A report on a project across the team: the project, the days it
    /// covers, and the moment (ms) it starts. The team's folders are the
    /// caller's to read (see `team::activity`).
    Team(String, u64, u64),
    /// Sessions, newest first, each with its task's title where the task
    /// still exists.
    Sessions(Vec<(Session, Option<String>)>),
    SessionAssigned(Session),
    SessionDeleted(Session),
    /// Where the store lives, its boards, tasks, open tasks and sessions,
    /// and the date it was asked on.
    Info(String, usize, usize, usize, usize, String),
}

/// `r` is the error with this message.
pub open spec fn fails_with(r: std::result::Result<Reply, String>, m: Seq<char>) -> bool {
    match r {
        Err(x) => x@ == m,
        Ok(_) => false,
    }
}

/// A change made through the store, with what the same change on the data
/// is owed: on success the store was read, changed and committed; on
/// failure it is untouched, and the store could not be read, `refused`
/// holds of the error, or the change refused what was read.
pub open spec fn changed_by<X>(
    old: StoreView,
    new: StoreView,
    x: crate::error::Result<X>,
    outcome: spec_fn(DataView, DataView, u64, crate::error::Result<X>) -> bool,
    refused: spec_fn(TaskError) -> bool,
) -> bool {
    match x {
        Ok(_) => exists|before: DataView, after: DataView, now: u64|
            #[trigger] committed(old, new, before, after, now) && reads_as(old, before) && outcome(before, after, now, x),
        Err(e) => new == old && (read_refusal(old, e) || refused(e) || exists|before: DataView|
            #[trigger] reads_as(old, before) && outcome(before, before, 0, x)),
    }
}

/// The reply carries the change's task in `wrap`, or its error's message.
pub open spec fn task_reply(r: std::result::Result<Reply, String>, x: crate::error::Result<TaskView>, done: bool) -> bool {
    match x {
        Ok(t) => match r {
            Ok(Reply::Completed(u)) => done && u@ == t,
            Ok(Reply::Reopened(u)) => !done && u@ == t,
            _ => false,
        },
        Err(e) => fails_with(r, error_text(e)),
    }
}

/// A tool that reads the store: untouched, and either the read failed with
/// that error's message, or the store reads as some `d` and `ok(d)`.
pub open spec fn read_then(old: StoreView, new: StoreView, r: std::result::Result<Reply, String>, ok: spec_fn(DataView) -> bool) -> bool {
    &&& new == old
    &&& (exists|e: TaskError| #[trigger] read_refusal(old, e) && fails_with(r, error_text(e)))
        || (exists|d: DataView| #[trigger] reads_as(old, d) && ok(d))
}

/// An id argument read, then `then` with it; a bad argument is refused
/// with the store untouched.
pub open spec fn with_text(
    args: Seq<(Seq<char>, ArgView)>,
    key: Seq<char>,
    old: StoreView,
    new: StoreView,
    r: std::result::Result<Reply, String>,
    then: spec_fn(Seq<char>) -> bool,
) -> bool {
    match required_text(arg_of(args, key), key) {
        Err(m) => fails_with(r, m) && new == old,
        Ok(v) => then(v),
    }
}

impl TaskTools {
    pub fn new(store: Store) -> (r: TaskTools)
        ensures
            r@ == store@,
    {
        TaskTools { store }
    }

    /// The store the tools work on.
    pub fn store(&self) -> (r: &Store)
        ensures
            r@ == self@,
    {
        &self.store
    }

    /// `complete_task` (`done`) and `reopen_task`: mark a task, moving it to
    /// the matching list on its board.
    pub fn set_done(&mut self, args: &Args, done: bool) -> (r: std::result::Result<Reply, String>)
        ensures
            set_done_answer(old(self)@, final(self)@, args@, done, r),
    {
        let id = match require_str(args, "task_id") {
            Ok(v) => v,
            Err(m) => return Err(m),
        };
        let res = self.store.set_done(id.as_str(), done);
        let ghost x = result_view_of(res);
        let r = match res {
            Ok(t) => if done {
                Ok(Reply::Completed(t))
            } else {
                Ok(Reply::Reopened(t))
            },
            Err(e) => Err(e.message()),
        };
        proof {
            assert(task_reply(r, x, done));
        }
        r
    }
}

// ---------------------------------------------------------------------------
// reading arguments into values
// ---------------------------------------------------------------------------

/// A score as an agent may give it: truncated to a byte, then held to 1..=10.
pub open spec fn score_of(n: u64) -> u8 {
    let b = n as u8;
    if b < 1 {
        1
    } else if b > 10 {
        10
    } else {
        b
    }
}

fn score(n: u64) -> (r: u8)
    ensures
        r == score_of(n),
{
    let b = n as u8;
    if b < 1 {
        1
    } else if b > 10 {
        10
    } else {
        b
    }
}

/// A whole-number argument, where it is one.
pub open spec fn number_of(a: ArgView) -> Option<u64> {
    match a {
        ArgView::Number(Some(n)) => Some(n),
        _ => None,
    }
}

fn number(args: &Args, key: &str) -> (r: Option<u64>)
    ensures
        r == number_of(arg_of(args@, key@)),
{
    match args.get(key) {
        Some(Arg::Number(Some(n))) => Some(*n),
        _ => None,
    }
}

/// Whether the key is there at all.
fn present(args: &Args, key: &str) -> (r: bool)
    ensures
        r == !(arg_of(args@, key@) is Absent),
{
    match args.get(key) {
        Some(Arg::Absent) | None => false,
        Some(_) => true,
    }
}

/// A nullable text: `null` clears, a string sets (as sent), anything else
/// present clears too; `None` where the key is absent.
pub open spec fn nullable_text(a: ArgView) -> Option<Option<Seq<char>>> {
    match a {
        ArgView::Absent => None,
        ArgView::Text(t) => Some(Some(t)),
        _ => Some(None),
    }
}

fn nullable(args: &Args, key: &str) -> (r: Option<Option<String>>)
    ensures
        r.deep_view() == nullable_text(arg_of(args@, key@)),
{
    match args.get(key) {
        Some(Arg::Absent) | None => None,
        Some(Arg::Text(t)) => Some(Some(t.clone())),
        Some(_) => Some(None),
    }
}

/// What `update_task` writes, once a due date was read as `due`.
pub open spec fn update_edit(args: Seq<(Seq<char>, ArgView)>, due: Option<Option<Seq<char>>>) -> TaskEditView {
    TaskEditView {
        title: optional_text(arg_of(args, "title"@)),
        notes: nullable_text(arg_of(args, "notes"@)),
        due,
        today: match arg_of(args, "today"@) {
            ArgView::Bool(b) => Some(b),
            _ => None,
        },
        tags: if arg_of(args, "tags"@) is Absent {
            None
        } else {
            Some(text_list(arg_of(args, "tags"@)))
        },
        project: nullable_text(arg_of(args, "project"@)),
        impact: if arg_of(args, "impact"@) is Absent {
            None
        } else {
            Some(
                match number_of(arg_of(args, "impact"@)) {
                    Some(n) => Some(score_of(n)),
                    None => None,
                },
            )
        },
        effort: if arg_of(args, "effort"@) is Absent {
            None
        } else {
            Some(
                match number_of(arg_of(args, "effort"@)) {
                    Some(n) => Some(score_of(n)),
                    None => None,
                },
            )
        },
        priority: if arg_of(args, "priority"@) is Absent {
            None
        } else {
            Some(
                match number_of(arg_of(args, "priority"@)) {
                    Some(n) => Some(n as u8),
                    None => None,
                },
            )
        },
        estimate_minutes: if arg_of(args, "estimate_minutes"@) is Absent {
            None
        } else {
            Some(
                match number_of(arg_of(args, "estimate_minutes"@)) {
                    Some(n) => Some(n as u32),
                    None => None,
                },
            )
        },
        origin: None,
    }
}

fn scored(args: &Args, key: &str) -> (r: Option<Option<u8>>)
    ensures
        r == (if arg_of(args@, key@) is Absent {
            None
        } else {
            Some(
                match number_of(arg_of(args@, key@)) {
                    Some(n) => Some(score_of(n)),
                    None => None,
                },
            )
        }),
{
    if !present(args, key) {
        return None;
    }
    Some(
        match number(args, key) {
            Some(n) => Some(score(n)),
            None => None,
        },
    )
}

fn update_edit_from(args: &Args, due: Option<Option<String>>) -> (r: TaskEdit)
    ensures
        r@ == update_edit(args@, due.deep_view()),
{
    TaskEdit {
        title: opt_str(args, "title"),
        notes: nullable(args, "notes"),
        due,
        today: match args.get("today") {
            Some(Arg::Bool(b)) => Some(*b),
            _ => None,
        },
        tags: if present(args, "tags") {
            Some(opt_str_list(args, "tags"))
        } else {
            None
        },
        project: nullable(args, "project"),
        impact: scored(args, "impact"),
        effort: scored(args, "effort"),
        priority: if present(args, "priority") {
            Some(
                match number(args, "priority") {
                    Some(n) => Some(n as u8),
                    None => None,
                },
            )
        } else {
            None
        },
        estimate_minutes: if present(args, "estimate_minutes") {
            Some(
                match number(args, "estimate_minutes") {
                    Some(n) => Some(n as u32),
                    None => None,
                },
            )
        } else {
            None
        },
        origin: None,
    }
}

/// The due date `update_task` reads: `null` clears, a string is read as a
/// date (and may be refused), anything else leaves it alone.
pub open spec fn update_due(args: Seq<(Seq<char>, ArgView)>, today: Seq<char>) -> Result<Option<Option<Seq<char>>>, Seq<char>> {
    match arg_of(args, "due"@) {
        ArgView::Null => Ok(Some(None)),
        ArgView::Text(t) => match due_reading(t, today) {
            Ok(d) => Ok(Some(Some(d))),
            Err(m) => Err(m),
        },
        _ => Ok(None),
    }
}

/// What `add_task` fills in beyond the title, once a due date was read.
pub open spec fn add_edit(args: Seq<(Seq<char>, ArgView)>, due: Option<Seq<char>>) -> TaskEditView {
    let tags = text_list(arg_of(args, "tags"@));
    TaskEditView {
        title: None,
        notes: match optional_text(arg_of(args, "notes"@)) {
            Some(n) => Some(Some(n)),
            None => None,
        },
        due: match due {
            Some(d) => Some(Some(d)),
            None => None,
        },
        today: if optional_bool(arg_of(args, "today"@), false) {
            Some(true)
        } else {
            None
        },
        tags: if tags.len() > 0 {
            Some(tags)
        } else {
            None
        },
        project: match optional_text(arg_of(args, "project"@)) {
            Some(n) => Some(Some(n)),
            None => None,
        },
        impact: match number_of(arg_of(args, "impact"@)) {
            Some(n) => Some(Some(score_of(n))),
            None => None,
        },
        effort: match number_of(arg_of(args, "effort"@)) {
            Some(n) => Some(Some(score_of(n))),
            None => None,
        },
        priority: match number_of(arg_of(args, "priority"@)) {
            Some(n) => Some(Some(n as u8)),
            None => None,
        },
        estimate_minutes: match number_of(arg_of(args, "estimate_minutes"@)) {
            Some(n) => Some(Some(n as u32)),
            None => None,
        },
        origin: match optional_text(arg_of(args, "origin"@)) {
            Some(n) => Some(Some(n)),
            None => None,
        },
    }
}

fn some_text(o: Option<String>) -> (r: Option<Option<String>>)
    ensures
        r.deep_view() == (match o.deep_view() {
            Some(n) => Some(Some(n)),
            None => None,
        }),
{
    match o {
        Some(n) => Some(Some(n)),
        None => None,
    }
}

fn add_edit_from(args: &Args, due: Option<String>) -> (r: TaskEdit)
    ensures
        r@ == add_edit(args@, due.deep_view()),
{
    let tags = opt_str_list(args, "tags");
    TaskEdit {
        title: None,
        notes: some_text(opt_str(args, "notes")),
        due: some_text(due),
        today: if opt_bool(args, "today", false) {
            Some(true)
        } else {
            None
        },
        tags: if tags.len() > 0 {
            Some(tags)
        } else {
            None
        },
        project: some_text(opt_str(args, "project")),
        impact: match number(args, "impact") {
            Some(n) => Some(Some(score(n))),
            None => None,
        },
        effort: match number(args, "effort") {
            Some(n) => Some(Some(score(n))),
            None => None,
        },
        priority: match number(args, "priority") {
            Some(n) => Some(Some(n as u8)),
            None => None,
        },
        estimate_minutes: match number(args, "estimate_minutes") {
            Some(n) => Some(Some(n as u32)),
            None => None,
        },
        origin: some_text(opt_str(args, "origin")),
    }
}

// ---------------------------------------------------------------------------
// tools that change the store
// ---------------------------------------------------------------------------

/// The reply carries the change's result as `carries` says, or its error's
/// message.
pub open spec fn reply_for<X>(r: std::result::Result<Reply, String>, x: crate::error::Result<X>, carries: spec_fn(Reply, X) -> bool) -> bool {
    match x {
        Ok(v) => match r {
            Ok(rep) => carries(rep, v),
            Err(_) => false,
        },
        Err(e) => fails_with(r, error_text(e)),
    }
}

/// The reply is `Deleted` with the change's result, or its error's message.
pub open spec fn deleted_reply(r: std::result::Result<Reply, String>, x: crate::error::Result<TaskView>) -> bool {
    reply_for(r, x, |rep: Reply, t: TaskView| rep matches Reply::Deleted(u) && u@ == t)
}

/// The reply is `Moved` with the change's result, or its error's message.
pub open spec fn moved_reply(r: std::result::Result<Reply, String>, x: crate::error::Result<TaskView>) -> bool {
    reply_for(r, x, |rep: Reply, t: TaskView| rep matches Reply::Moved(u) && u@ == t)
}

/// The reply is `Updated` with the change's result, or its error's message.
pub open spec fn updated_reply(r: std::result::Result<Reply, String>, x: crate::error::Result<TaskView>) -> bool {
    reply_for(r, x, |rep: Reply, t: TaskView| rep matches Reply::Updated(u) && u@ == t)
}

/// The reply is `BoardAdded` with the change's result, or its error's message.
pub open spec fn board_reply(r: std::result::Result<Reply, String>, x: crate::error::Result<BoardView>) -> bool {
    reply_for(r, x, |rep: Reply, b: BoardView| rep matches Reply::BoardAdded(u) && u@ == b)
}

/// The reply is `ListAdded` with the change's result, or its error's message.
pub open spec fn list_reply(r: std::result::Result<Reply, String>, x: crate::error::Result<ListView>) -> bool {
    reply_for(r, x, |rep: Reply, l: ListView| rep matches Reply::ListAdded(u) && u@ == l)
}

/// The position `move_task` was given, if it is a whole number.
pub open spec fn position_of(args: Seq<(Seq<char>, ArgView)>) -> Option<usize> {
    match number_of(arg_of(args, "position"@)) {
        Some(p) => Some(p as usize),
        None => None,
    }
}

/// Moving as asked cannot push a position past `u32::MAX`.
pub open spec fn move_fits(store: StoreView, args: Seq<(Seq<char>, ArgView)>) -> bool {
    match (required_text(arg_of(args, "task_id"@), "task_id"@), required_text(arg_of(args, "list_id"@), "list_id"@)) {
        (Ok(id), Ok(l)) => forall|d: DataView| #[trigger] reads_as(store, d) && find_task(d.tasks, id, 0) < d.tasks.len()
            && list_of(d, l) is Some ==> movable(d, id, l, position_of(args)),
        _ => true,
    }
}

/// The due date `add_task` was given, read; a bad one is refused.
pub open spec fn add_due(args: Seq<(Seq<char>, ArgView)>, today: Seq<char>) -> Result<Option<Seq<char>>, Seq<char>> {
    match optional_text(arg_of(args, "due"@)) {
        None => Ok(None),
        Some(v) => match due_reading(v, today) {
            Ok(d) => Ok(Some(d)),
            Err(m) => Err(m),
        },
    }
}

/// The title `add_task` was given can be captured on `today`.
pub open spec fn add_fits(args: Seq<(Seq<char>, ArgView)>, today: Seq<char>) -> bool {
    match required_text(arg_of(args, "title"@), "title"@) {
        Ok(t) => capture_of(t) is Some && (capture_of(t)->0.due matches Some(d) ==> resolvable(d, today)),
        Err(_) => true,
    }
}

/// Capturing a line through the store failed with `e`.
pub open spec fn capture_failed(old: StoreView, new: StoreView, input: Seq<char>, list: Option<Seq<char>>, today: Seq<char>, e: TaskError) -> bool {
    add_refused(old, new, capture_of(input)->0.title, list, e)
}

/// The task with this id in `d`, if any.
pub open spec fn task_in(d: DataView, id: Seq<char>) -> Option<TaskView> {
    let i = find_task(d.tasks, id, 0);
    if i < d.tasks.len() {
        Some(d.tasks[i])
    } else {
        None
    }
}

/// The store `s` read back, and the task with this id answered.
pub open spec fn read_back(s: StoreView, new: StoreView, id: Seq<char>, r: std::result::Result<Reply, String>) -> bool {
    &&& new == s
    &&& (exists|e: TaskError| #[trigger] read_refusal(s, e) && fails_with(r, error_text(e))) || (exists|d: DataView|
        #[trigger] reads_as(s, d) && match r {
            Ok(Reply::Added(o)) => match o {
                Some(t) => task_in(d, id) == Some(t@),
                None => task_in(d, id) is None,
            },
            _ => false,
        })
}

/// What `add_task` does: the title is captured as a typed line (so its
/// markers are read), then whatever else was given is written over the new
/// task, and the task is read back as stored. Everything that can be
/// refused is checked before anything is written.
pub open spec fn add_task_answer(old: StoreView, new: StoreView, args: Seq<(Seq<char>, ArgView)>, today: Seq<char>, r: std::result::Result<Reply, String>) -> bool {
    match required_text(arg_of(args, "title"@), "title"@) {
        Err(m) => fails_with(r, m) && new == old,
        Ok(title) => match add_due(args, today) {
            Err(m) => fails_with(r, m) && new == old,
            Ok(due) => {
                let list = optional_text(arg_of(args, "list_id"@));
                let e = add_edit(args, due);
                (exists|err: TaskError| #[trigger] capture_failed(old, new, title, list, today, err) && fails_with(r, error_text(err)))
                    || exists|mid: StoreView, t: TaskView| #[trigger] captured_in(old, mid, title, list, today, t) && if e == no_edit() {
                    read_back(mid, new, t.id, r)
                } else {
                    (exists|err: TaskError| #[trigger] edited_in_store(mid, new, t.id, e, Err(err)) && fails_with(r, error_text(err)))
                        || exists|mid2: StoreView, u: TaskView| #[trigger] edited_in_store(mid, mid2, t.id, e, Ok(u)) && read_back(mid2, new, t.id, r)
                }
            },
        },
    }
}

/// What `update_task` does: the due date is read first, so a bad one
/// cannot half-apply an edit; then only the fields given are written.
pub open spec fn update_task_answer(old: StoreView, new: StoreView, args: Seq<(Seq<char>, ArgView)>, today: Seq<char>, r: std::result::Result<Reply, String>) -> bool {
    with_text(args, "task_id"@, old, new, r, |id: Seq<char>| match update_due(args, today) {
        Err(m) => fails_with(r, m) && new == old,
        Ok(due) => exists|x: crate::error::Result<TaskView>| #[trigger] edited_in_store(old, new, id, update_edit(args, due), x)
            && updated_reply(r, x),
    })
}

/// The session `log_session` records.
pub open spec fn logged_session(s: SessionView, task_id: Option<Seq<char>>, minutes: u64, kind: SessionKind, now: u64) -> bool {
    let seconds = minutes * 60;
    let started = if now >= seconds * 1000 {
        now - seconds * 1000
    } else {
        0
    };
    &&& exists|nanos: nat, seq: nat| s.id == #[trigger] session_id_text(nanos, seq)
    &&& s.task_id == task_id
    &&& s.started_at == started
    &&& s.ended_at == started + seconds * 1000
    &&& s.seconds == seconds
    &&& s.kind == kind
    &&& s.completed
}

/// What `log_session` does: a whole, positive number of minutes of focus
/// (or a break) that just ended is recorded, against a task if one is named.
pub open spec fn log_session_answer(old: StoreView, new: StoreView, args: Seq<(Seq<char>, ArgView)>, now: u64, r: std::result::Result<Reply, String>) -> bool {
    match number_of(arg_of(args, "minutes"@)) {
        None => fails_with(r, "`minutes` is required and must be a number"@) && new == old,
        Some(m) => if m == 0 {
            fails_with(r, "`minutes` must be greater than zero"@) && new == old
        } else {
            match optional_text(arg_of(args, "kind"@)) {
                Some(k) if k != "break"@ && k != "focus"@ => fails_with(r, "unknown kind `"@ + k + "`; use focus or break"@)
                    && new == old,
                k => {
                    let kind = if k == Some("break"@) {
                        SessionKind::Break
                    } else {
                        SessionKind::Focus
                    };
                    match r {
                        Ok(Reply::Logged(s)) => logged_session(s@, optional_text(arg_of(args, "task_id"@)), m, kind, now)
                            && new == with_sessions(old, old.sessions.push(s@)),
                        _ => false,
                    }
                },
            }
        },
    }
}

/// A count of minutes logged stays within what a `u64` of milliseconds holds.
pub open spec fn log_fits(args: Seq<(Seq<char>, ArgView)>) -> bool {
    match number_of(arg_of(args, "minutes"@)) {
        Some(m) => m * 60 * 1000 <= u64::MAX,
        None => true,
    }
}

impl TaskTools {
    pub fn delete_task(&mut self, args: &Args) -> (r: std::result::Result<Reply, String>)
        ensures
            delete_task_answer(old(self)@, final(self)@, args@, Seq::empty(), 0, 0, r),
    {
        let id = match require_str(args, "task_id") {
            Ok(v) => v,
            Err(m) => return Err(m),
        };
        let res = self.store.delete_task(id.as_str());
        let ghost x = result_view_of(res);
        let r = match res {
            Ok(t) => Ok(Reply::Deleted(t)),
            Err(e) => Err(e.message()),
        };
        proof {
            assert(deleted_reply(r, x));
        }
        r
    }

    pub fn move_task(&mut self, args: &Args) -> (r: std::result::Result<Reply, String>)
        requires
            move_fits(old(self)@, args@),
        ensures
            move_task_answer(old(self)@, final(self)@, args@, Seq::empty(), 0, 0, r),
    {
        let id = match require_str(args, "task_id") {
            Ok(v) => v,
            Err(m) => return Err(m),
        };
        let list_id = match require_str(args, "list_id") {
            Ok(v) => v,
            Err(m) => return Err(m),
        };
        let position = match number(args, "position") {
            Some(p) => Some(p as usize),
            None => None,
        };
        let res = self.store.move_task(id.as_str(), list_id.as_str(), position);
        let ghost x = result_view_of(res);
        let r = match res {
            Ok(t) => Ok(Reply::Moved(t)),
            Err(e) => Err(e.message()),
        };
        proof {
            assert(moved_reply(r, x));
        }
        r
    }

    pub fn add_board(&mut self, args: &Args) -> (r: std::result::Result<Reply, String>)
        ensures
            add_board_answer(old(self)@, final(self)@, args@, Seq::empty(), 0, 0, r),
    {
        let name = match require_str(args, "name") {
            Ok(v) => v,
            Err(m) => return Err(m),
        };
        let res = self.store.add_board(name.as_str());
        let ghost x = result_view_of(res);
        let r = match res {
            Ok(b) => Ok(Reply::BoardAdded(b)),
            Err(e) => Err(e.message()),
        };
        proof {
            assert(board_reply(r, x));
        }
        r
    }

    pub fn add_list(&mut self, args: &Args) -> (r: std::result::Result<Reply, String>)
        ensures
            add_list_answer(old(self)@, final(self)@, args@, Seq::empty(), 0, 0, r),
    {
        let board_id = match require_str(args, "board_id") {
            Ok(v) => v,
            Err(m) => return Err(m),
        };
        let name = match require_str(args, "name") {
            Ok(v) => v,
            Err(m) => return Err(m),
        };
        let status = match opt_str(args, "status") {
            Some(v) => match parse_status(v.as_str()) {
                Ok(s) => Some(s),
                Err(m) => return Err(m),
            },
            None => None,
        };
        let res = self.store.add_list(board_id.as_str(), name.as_str(), status);
        let ghost x = result_view_of(res);
        let r = match res {
            Ok(l) => Ok(Reply::ListAdded(l)),
            Err(e) => Err(e.message()),
        };
        proof {
            assert(list_reply(r, x));
        }
        r
    }

    pub fn update_task(&mut self, args: &Args, today: &str) -> (r: std::result::Result<Reply, String>)
        ensures
            update_task_answer(old(self)@, final(self)@, args@, today@, r),
    {
        let id = match require_str(args, "task_id") {
            Ok(v) => v,
            Err(m) => return Err(m),
        };
        let due: Option<Option<String>> = match args.get("due") {
            Some(Arg::Null) => Some(None),
            Some(Arg::Text(text)) => match parse_due(text.as_str(), today) {
                Ok(d) => Some(Some(d)),
                Err(m) => return Err(m),
            },
            _ => None,
        };
        let edit = update_edit_from(args, due);
        let res = self.store.update_task(id.as_str(), &edit);
        let ghost x = result_view_of(res);
        let r = match res {
            Ok(t) => Ok(Reply::Updated(t)),
            Err(e) => Err(e.message()),
        };
        proof {
            assert(updated_reply(r, x));
        }
        r
    }

    fn read_task_back(&self, id: &str) -> (r: std::result::Result<Reply, String>)
        ensures
            read_back(self@, self@, id@, r),
    {
        match self.store.read() {
            Ok(d) => {
                let t = match d.task(id) {
                    Some(t) => Some(t.duplicate()),
                    None => None,
                };
                Ok(Reply::Added(t))
            },
            Err(e) => Err(e.message()),
        }
    }

    pub fn add_task(&mut self, args: &Args, today: &str) -> (r: std::result::Result<Reply, String>)
        requires
            add_fits(args@, today@),
        ensures
            add_task_answer(old(self)@, final(self)@, args@, today@, r),
    {
        let title = match require_str(args, "title") {
            Ok(v) => v,
            Err(m) => return Err(m),
        };
        // Everything that can be refused is checked before anything is
        // written: a task left behind by a failed call would be duplicated
        // by an agent that retries.
        let due = match opt_str(args, "due") {
            Some(v) => match parse_due(v.as_str(), today) {
                Ok(d) => Some(d),
                Err(m) => return Err(m),
            },
            None => None,
        };
        let list = opt_str(args, "list_id");
        let list_ref: Option<&str> = match &list {
            Some(l) => Some(l.as_str()),
            None => None,
        };
        let edit = add_edit_from(args, due);
        let ghost old_store = self@;
        let task = match self.store.capture(title.as_str(), list_ref, today) {
            Ok(t) => t,
            Err(e) => {
                let r = Err(e.message());
                proof {
                    assert(capture_failed(old_store, self@, title@, opt_view(list_ref), today@, e));
                }
                return r;
            },
        };
        let ghost mid = self@;
        proof {
            assert(opt_view(list_ref) == list.deep_view());
            assert(captured_in(old_store, mid, title@, list.deep_view(), today@, task@));
        }
        if edit.is_empty() {
            let r = self.read_task_back(task.id.as_str());
            return r;
        }
        match self.store.update_task(task.id.as_str(), &edit) {
            Ok(u) => {
                proof {
                    assert(edited_in_store(mid, self@, task@.id, edit@, Ok(u@)));
                }
                self.read_task_back(task.id.as_str())
            },
            Err(e) => {
                proof {
                    assert(edited_in_store(mid, self@, task@.id, edit@, Err(e)));
                }
                Err(e.message())
            },
        }
    }

    pub fn log_session(&mut self, args: &Args, now: u64) -> (r: std::result::Result<Reply, String>)
        requires
            log_fits(args@),
        ensures
            log_session_answer(old(self)@, final(self)@, args@, now, r),
    {
        let minutes = match number(args, "minutes") {
            Some(m) => m,
            None => return Err("`minutes` is required and must be a number".to_owned()),
        };
        if minutes == 0 {
            return Err("`minutes` must be greater than zero".to_owned());
        }
        let kind = match opt_str(args, "kind") {
            Some(k) => if str_eq(k.as_str(), "break") {
                SessionKind::Break
            } else if str_eq(k.as_str(), "focus") {
                SessionKind::Focus
            } else {
                let v = chars_of(k.as_str());
                return Err(joined3("unknown kind `", v.as_slice(), "`; use focus or break"));
            },
            None => SessionKind::Focus,
        };
        let seconds = minutes * 60;
        let started_at = now.saturating_sub(seconds * 1000);
        let task_id = opt_str(args, "task_id");
        let task_ref: Option<&str> = match &task_id {
            Some(t) => Some(t.as_str()),
            None => None,
        };
        match self.store.finish_session(task_ref, started_at, seconds, kind, true) {
            Ok(s) => Ok(Reply::Logged(s)),
            Err(e) => Err(e.message()),
        }
    }
}

// ---------------------------------------------------------------------------
// tools that read the store
// ---------------------------------------------------------------------------

/// The filter `list_tasks` builds from its arguments, with the status read
/// as `status`. At most 100 tasks unless a limit is given.
pub open spec fn filter_of(args: Seq<(Seq<char>, ArgView)>, status: Option<Status>) -> FilterView {
    FilterView {
        board_id: optional_text(arg_of(args, "board_id"@)),
        list_id: optional_text(arg_of(args, "list_id"@)),
        status,
        tag: optional_text(arg_of(args, "tag"@)),
        project: optional_text(arg_of(args, "project"@)),
        query: optional_text(arg_of(args, "query"@)),
        include_done: optional_bool(arg_of(args, "include_done"@), false),
        limit: Some(optional_count(arg_of(args, "limit"@), 100)),
    }
}

/// The board holding a list, as its id and name.
pub open spec fn board_named(d: DataView, list_id: Seq<char>) -> Option<(Seq<char>, Seq<char>)> {
    let k = find_board_of_list(d.boards, list_id, 0);
    if k < d.boards.len() {
        Some((d.boards[k].id, d.boards[k].name))
    } else {
        None
    }
}

/// How many tasks are not done.
pub open spec fn open_count(ts: Seq<TaskView>) -> nat
    decreases ts.len(),
{
    if ts.len() == 0 {
        0
    } else {
        open_count(ts.drop_last()) + if ts.last().status != Status::Done {
            1nat
        } else {
            0nat
        }
    }
}

/// Where the recorded time of `get_task` adds up within a `u64`.
pub open spec fn total_fits(store: StoreView, from: Option<u64>) -> bool {
    seconds_of(store.sessions, from, None, None) <= u64::MAX
}

/// The moment `since_days` days before `now`, where a number was given.
pub open spec fn since_of(args: Seq<(Seq<char>, ArgView)>, now: u64) -> Option<u64> {
    match number_of(arg_of(args, "since_days"@)) {
        Some(days) => Some(
            if now >= days * 86_400_000 {
                (now - days * 86_400_000) as u64
            } else {
                0
            },
        ),
        None => None,
    }
}

/// `since_days` stays within what a `u64` of milliseconds holds.
pub open spec fn since_fits(args: Seq<(Seq<char>, ArgView)>) -> bool {
    match number_of(arg_of(args, "since_days"@)) {
        Some(days) => days * 86_400_000 <= u64::MAX,
        None => true,
    }
}

/// Today's focus and the points of finished work fit their counters,
/// whatever the store reads as.
pub open spec fn stats_fit(store: StoreView, today: Seq<char>, offset: i32) -> bool {
    &&& focus_seconds_on(store.sessions, offset, today) <= u64::MAX
    &&& forall|d: DataView| #[trigger] reads_as(store, d) ==> done_points(d.tasks) <= u32::MAX
}

/// Newest first, and in their logged order where they started together.
impl Ranked for Session {
    open spec fn before(&self, other: &Self) -> bool {
        self.started_at > other.started_at
    }

    fn goes_before(&self, other: &Self) -> (r: bool) {
        self.started_at > other.started_at
    }
}

/// The title of the task a session counts towards, where it still exists.
pub open spec fn title_for(d: DataView, s: SessionView) -> Option<Seq<char>> {
    match s.task_id {
        Some(id) => match task_in(d, id) {
            Some(t) => Some(t.title),
            None => None,
        },
        None => None,
    }
}

pub open spec fn session_lines(ls: Seq<(Session, Option<String>)>) -> Seq<(SessionView, Option<Seq<char>>)> {
    ls.map_values(|l: (Session, Option<String>)| (l.0@, l.1.deep_view()))
}

pub open spec fn newer() -> spec_fn(SessionView, SessionView) -> bool {
    |a: SessionView, b: SessionView| a.started_at > b.started_at
}

/// The sessions `sessions` lists: newest first (in logged order where
/// they started together), at most `limit`, each with its task's title.
pub open spec fn listed_sessions(ss: Seq<SessionView>, limit: usize, d: DataView) -> Seq<(SessionView, Option<Seq<char>>)> {
    let newest = crate::sorting::sorted_by(ss, newer());
    let n = if limit < newest.len() {
        limit as int
    } else {
        newest.len() as int
    };
    newest.take(n).map_values(|s: SessionView| (s, title_for(d, s)))
}

impl TaskTools {
    pub fn today_tasks(&self, today_date: &str) -> (r: std::result::Result<Reply, String>)
        ensures
            today_tasks_answer(self@, self@, Seq::empty(), today_date@, 0, 0, r),
    {
        match self.store.read() {
            Ok(d) => Ok(Reply::Today(today_date.to_owned(), today(&d, today_date))),
            Err(e) => Err(e.message()),
        }
    }

    pub fn list_boards(&self) -> (r: std::result::Result<Reply, String>)
        ensures
            list_boards_answer(self@, self@, Seq::empty(), Seq::empty(), 0, 0, r),
    {
        match self.store.read() {
            Ok(d) => Ok(Reply::Boards(d.boards)),
            Err(e) => Err(e.message()),
        }
    }

    pub fn list_tasks(&self, args: &Args) -> (r: std::result::Result<Reply, String>)
        ensures
            list_tasks_answer(self@, self@, args@, Seq::empty(), 0, 0, r),
    {
        let d = match self.store.read() {
            Ok(d) => d,
            Err(e) => return Err(e.message()),
        };
        let status = match opt_str(args, "status") {
            Some(v) => match parse_status(v.as_str()) {
                Ok(s) => Some(s),
                Err(m) => return Err(m),
            },
            None => None,
        };
        let filter = Filter {
            board_id: opt_str(args, "board_id"),
            list_id: opt_str(args, "list_id"),
            status,
            tag: opt_str(args, "tag"),
            project: opt_str(args, "project"),
            query: opt_str(args, "query"),
            include_done: opt_bool(args, "include_done", false),
            limit: Some(opt_usize(args, "limit", 100)),
        };
        Ok(Reply::Tasks(crate::query::find(&d, &filter)))
    }

    pub fn get_task(&self, args: &Args) -> (r: std::result::Result<Reply, String>)
        requires
            total_fits(self@, None),
        ensures
            get_task_answer(self@, self@, args@, Seq::empty(), 0, 0, r),
    {
        let id = match require_str(args, "task_id") {
            Ok(v) => v,
            Err(m) => return Err(m),
        };
        let d = match self.store.read() {
            Ok(d) => d,
            Err(e) => return Err(e.message()),
        };
        let task = match d.task(id.as_str()) {
            Some(t) => t.duplicate(),
            None => return Err(TaskError::TaskNotFound(id.clone()).message()),
        };
        let list = match d.list(task.list_id.as_str()) {
            Some(l) => Some(l.duplicate()),
            None => None,
        };
        let board = match d.board_of_list(task.list_id.as_str()) {
            Some(b) => Some((b.id.clone(), b.name.clone())),
            None => None,
        };
        let sessions = match self.store.sessions() {
            Ok(s) => s,
            Err(e) => return Err(e.message()),
        };
        let (secs, n) = recorded_for(&sessions, id.as_str());
        Ok(Reply::Detail(task, list, board, secs, n))
    }
}

/// The focus seconds and sessions recorded against one task.
fn recorded_for(sessions: &Vec<Session>, id: &str) -> (r: (u64, usize))
    requires
        seconds_of(session_views(sessions@), None, None, None) <= u64::MAX,
    ensures
        r.0 == seconds_of(session_views(sessions@), None, None, Some(Some(id@))),
        r.1 == sessions_of(session_views(sessions@), None, None, Some(Some(id@))),
{
    let ghost ss = session_views(sessions@);
    let mut secs: u64 = 0;
    let mut n: usize = 0;
    let mut i: usize = 0;
    while i < sessions.len()
        invariant
            ss == session_views(sessions@),
            seconds_of(ss, None, None, None) <= u64::MAX,
            i <= sessions@.len(),
            secs == seconds_of(ss.take(i as int), None, None, Some(Some(id@))),
            n == sessions_of(ss.take(i as int), None, None, Some(Some(id@))),
            n <= i,
        decreases sessions@.len() - i,
    {
        proof {
            assert(ss.take(i + 1).drop_last() =~= ss.take(i as int));
            assert(ss.take(i + 1).last() == sessions@[i as int]@);
            crate::query::lemma_seconds_prefix(ss, None, None, Some(Some(id@)), i + 1);
            crate::query::lemma_seconds_prefix(ss.take(i + 1), None, None, Some(Some(id@)), i + 1);
            crate::query::lemma_seconds_prefix(ss, None, None, None, i + 1);
        }
        let s = &sessions[i];
        let counted = match s.kind {
            SessionKind::Focus => true,
            _ => false,
        };
        let mine = match &s.task_id {
            Some(t) => str_eq(t.as_str(), id),
            None => false,
        };
        if counted && mine {
            secs = secs + s.seconds;
            n = n + 1;
        }
        i = i + 1;
    }
    proof {
        assert(ss.take(i as int) =~= ss);
    }
    (secs, n)
}

impl TaskTools {
    pub fn time_summary(&self, args: &Args, now: u64) -> (r: std::result::Result<Reply, String>)
        requires
            since_fits(args@),
            total_fits(self@, since_of(args@, now)),
        ensures
            time_summary_answer(self@, self@, args@, Seq::empty(), now, 0, r),
    {
        let d = match self.store.read() {
            Ok(d) => d,
            Err(e) => return Err(e.message()),
        };
        let sessions = match self.store.sessions() {
            Ok(s) => s,
            Err(e) => return Err(e.message()),
        };
        let from = match number(args, "since_days") {
            Some(days) => Some(now.saturating_sub(days * 86_400_000)),
            None => None,
        };
        match checked_time_summary(&d, sessions.as_slice(), from, None) {
            Some(t) => Ok(Reply::Time(t)),
            None => Err(String::new()),
        }
    }

    pub fn matrix(&self, today_date: &str) -> (r: std::result::Result<Reply, String>)
        ensures
            matrix_answer(self@, self@, Seq::empty(), today_date@, 0, 0, r),
    {
        match self.store.read() {
            Ok(d) => Ok(Reply::Matrix(plot(&d, today_date))),
            Err(e) => Err(e.message()),
        }
    }

    pub fn suggest_task(&self, args: &Args, today_date: &str) -> (r: std::result::Result<Reply, String>)
        ensures
            suggest_task_answer(self@, self@, args@, today_date@, 0, 0, r),
    {
        let d = match self.store.read() {
            Ok(d) => d,
            Err(e) => return Err(e.message()),
        };
        let low_energy = opt_bool(args, "low_energy", false);
        Ok(Reply::Suggestion(suggest(&d, today_date, low_energy), low_energy))
    }

    pub fn stats(&self, today_date: &str, utc_offset_seconds: i32) -> (r: std::result::Result<Reply, String>)
        requires
            stats_fit(self@, today_date@, utc_offset_seconds),
        ensures
            stats_answer(self@, self@, Seq::empty(), today_date@, 0, utc_offset_seconds, r),
    {
        let d = match self.store.read() {
            Ok(d) => d,
            Err(e) => return Err(e.message()),
        };
        let sessions = match self.store.sessions() {
            Ok(s) => s,
            Err(e) => return Err(e.message()),
        };
        let goal = d.settings.daily_focus_goal;
        match crate::stats::checked_stats(&d, sessions.as_slice(), today_date, utc_offset_seconds, goal) {
            Some(x) => Ok(Reply::Stats(x)),
            None => Err(String::new()),
        }
    }
}

/// The reply names the label and counts the tasks touched, or carries the
/// change's error's message.
pub open spec fn label_reply(r: std::result::Result<Reply, String>, x: crate::error::Result<usize>, name: Seq<char>, renamed: bool) -> bool {
    match x {
        Ok(n) => match r {
            Ok(Reply::Renamed(s, k)) => renamed && s@ == name && k == n,
            Ok(Reply::Cleared(s, k)) => !renamed && s@ == name && k == n,
            _ => false,
        },
        Err(e) => fails_with(r, error_text(e)),
    }
}

/// What `rename_label` does: a project or a tag is renamed on every task,
/// merging with one that already has the new name.
pub open spec fn rename_label_answer(old: StoreView, new: StoreView, args: Seq<(Seq<char>, ArgView)>, r: std::result::Result<Reply, String>) -> bool {
    with_text(args, "kind"@, old, new, r, |kind: Seq<char>| with_text(args, "from"@, old, new, r, |from: Seq<char>|
        with_text(args, "to"@, old, new, r, |to: Seq<char>| match label_reading(kind) {
            Err(m) => fails_with(r, m) && new == old,
            Ok(k) => exists|x: crate::error::Result<usize>| #[trigger] label_reply(r, x, to, true) && changed_by(old, new, x,
                |b: DataView, a: DataView, n: u64, y: crate::error::Result<usize>| if k == LabelKind::Project {
                    rename_project_outcome(b, a, from, to, n, y)
                } else {
                    rename_tag_outcome(b, a, from, to, n, y)
                },
                |e: TaskError| (trim(from).len() == 0 || trim(to).len() == 0) && e == TaskError::EmptyTitle),
        })))
}

/// What `delete_label` does: a project or a tag is taken off every task,
/// leaving the tasks.
pub open spec fn delete_label_answer(old: StoreView, new: StoreView, args: Seq<(Seq<char>, ArgView)>, r: std::result::Result<Reply, String>) -> bool {
    with_text(args, "kind"@, old, new, r, |kind: Seq<char>| with_text(args, "name"@, old, new, r, |name: Seq<char>|
        match label_reading(kind) {
            Err(m) => fails_with(r, m) && new == old,
            Ok(k) => exists|x: crate::error::Result<usize>| #[trigger] label_reply(r, x, name, false) && changed_by(old, new, x,
                |b: DataView, a: DataView, n: u64, y: crate::error::Result<usize>| if k == LabelKind::Project {
                    delete_project_outcome(b, a, name, n, y)
                } else {
                    delete_tag_outcome(b, a, name, n, y)
                },
                |e: TaskError| false),
        }))
}

/// `since_days` for a team report stays within an `i64` of milliseconds.
pub open spec fn team_fits(args: Seq<(Seq<char>, ArgView)>) -> bool {
    optional_count(arg_of(args, "since_days"@), 14) * 86_400_000 <= i64::MAX
}

impl TaskTools {
    pub fn rename_label(&mut self, args: &Args) -> (r: std::result::Result<Reply, String>)
        ensures
            rename_label_answer(old(self)@, final(self)@, args@, r),
    {
        let kind = match require_str(args, "kind") {
            Ok(v) => v,
            Err(m) => return Err(m),
        };
        let from = match require_str(args, "from") {
            Ok(v) => v,
            Err(m) => return Err(m),
        };
        let to = match require_str(args, "to") {
            Ok(v) => v,
            Err(m) => return Err(m),
        };
        let k = match label_kind(kind.as_str()) {
            Ok(k) => k,
            Err(m) => return Err(m),
        };
        let res = match k {
            LabelKind::Project => self.store.rename_project(from.as_str(), to.as_str()),
            LabelKind::Tag => self.store.rename_tag(from.as_str(), to.as_str()),
        };
        let ghost x = res;
        let r = match res {
            Ok(n) => Ok(Reply::Renamed(to, n)),
            Err(e) => Err(e.message()),
        };
        proof {
            assert(label_reply(r, x, to@, true));
        }
        r
    }

    pub fn delete_label(&mut self, args: &Args) -> (r: std::result::Result<Reply, String>)
        ensures
            delete_label_answer(old(self)@, final(self)@, args@, r),
    {
        let kind = match require_str(args, "kind") {
            Ok(v) => v,
            Err(m) => return Err(m),
        };
        let name = match require_str(args, "name") {
            Ok(v) => v,
            Err(m) => return Err(m),
        };
        let k = match label_kind(kind.as_str()) {
            Ok(k) => k,
            Err(m) => return Err(m),
        };
        let res = match k {
            LabelKind::Project => self.store.delete_project(name.as_str()),
            LabelKind::Tag => self.store.delete_tag(name.as_str()),
        };
        let ghost x = res;
        let r = match res {
            Ok(n) => Ok(Reply::Cleared(name, n)),
            Err(e) => Err(e.message()),
        };
        proof {
            assert(label_reply(r, x, name@, false));
        }
        r
    }

    /// `team_activity`: the report's project, span and start. The team's
    /// own folders are for the caller to read.
    pub fn team_activity(&self, args: &Args, now: u64) -> (r: std::result::Result<Reply, String>)
        requires
            team_fits(args@),
        ensures
            team_activity_answer(self@, self@, args@, Seq::empty(), now, 0, r),
    {
        let project = match require_str(args, "project") {
            Ok(v) => v,
            Err(m) => return Err(m),
        };
        let days = opt_usize(args, "since_days", 14) as u64;
        let since = now.saturating_sub(days * 86_400_000);
        Ok(Reply::Team(project, days, since))
    }

    pub fn assign_session(&mut self, args: &Args) -> (r: std::result::Result<Reply, String>)
        ensures
            assign_session_answer(old(self)@, final(self)@, args@, Seq::empty(), 0, 0, r),
    {
        let sid = match require_str(args, "session_id") {
            Ok(v) => v,
            Err(m) => return Err(m),
        };
        let task = opt_str(args, "task_id");
        let task_ref: Option<&str> = match &task {
            Some(t) => Some(t.as_str()),
            None => None,
        };
        match self.store.assign_session(sid.as_str(), task_ref) {
            Ok(s) => Ok(Reply::SessionAssigned(s)),
            Err(e) => Err(e.message()),
        }
    }

    pub fn delete_session(&mut self, args: &Args) -> (r: std::result::Result<Reply, String>)
        ensures
            delete_session_answer(old(self)@, final(self)@, args@, Seq::empty(), 0, 0, r),
    {
        let sid = match require_str(args, "session_id") {
            Ok(v) => v,
            Err(m) => return Err(m),
        };
        match self.store.delete_session(sid.as_str()) {
            Ok(s) => Ok(Reply::SessionDeleted(s)),
            Err(e) => Err(e.message()),
        }
    }
}

impl TaskTools {
    pub fn list_sessions(&self, args: &Args) -> (r: std::result::Result<Reply, String>)
        ensures
            list_sessions_answer(self@, self@, args@, Seq::empty(), 0, 0, r),
    {
        let limit = opt_usize(args, "limit", 50);
        let all = match self.store.sessions() {
            Ok(s) => s,
            Err(e) => return Err(e.message()),
        };
        let newest = sort_stable(all);
        proof {
            crate::sorting::lemma_sorted_by_map(all@, |x: Session| x@, crate::sorting::ranked_less::<Session>(), newer());
            assert(all@.map_values(|x: Session| x@) == self@.sessions);
        }
        let ghost nv = session_views(newest@);
        let d = match self.store.read() {
            Ok(d) => d,
            Err(e) => return Err(e.message()),
        };
        let n = if limit < newest.len() {
            limit
        } else {
            newest.len()
        };
        let mut lines: Vec<(Session, Option<String>)> = Vec::new();
        let mut i: usize = 0;
        while i < n
            invariant
                i <= n <= newest@.len(),
                nv == session_views(newest@),
                session_lines(lines@) == nv.take(i as int).map_values(|s: SessionView| (s, title_for(d@, s))),
            decreases n - i,
        {
            let s = newest[i].duplicate();
            let title = match &s.task_id {
                Some(id) => match d.task(id.as_str()) {
                    Some(t) => Some(t.title.clone()),
                    None => None,
                },
                None => None,
            };
            proof {
                assert(s@ == nv[i as int]);
                assert(title.deep_view() == title_for(d@, s@));
            }
            let ghost before = lines@;
            let ghost pv = (s@, title.deep_view());
            lines.push((s, title));
            i = i + 1;
            proof {
                assert(session_lines(lines@) =~= session_lines(before).push(pv));
                assert(nv.take(i as int) =~= nv.take(i - 1).push(nv[i - 1]));
                assert(session_lines(lines@) =~= nv.take(i as int).map_values(|s: SessionView| (s, title_for(d@, s))));
            }
        }
        Ok(Reply::Sessions(lines))
    }

    pub fn store_info(&self, today_date: &str) -> (r: std::result::Result<Reply, String>)
        ensures
            store_info_answer(self@, self@, Seq::empty(), today_date@, 0, 0, r),
    {
        let d = match self.store.read() {
            Ok(d) => d,
            Err(e) => return Err(e.message()),
        };
        let sessions = match self.store.sessions() {
            Ok(s) => s,
            Err(e) => return Err(e.message()),
        };
        let mut open: usize = 0;
        let mut i: usize = 0;
        while i < d.tasks.len()
            invariant
                i <= d.tasks@.len(),
                open <= i,
                open == open_count(views(d.tasks@).take(i as int)),
            decreases d.tasks@.len() - i,
        {
            proof {
                assert(views(d.tasks@).take(i + 1).drop_last() =~= views(d.tasks@).take(i as int));
            }
            let done = match d.tasks[i].status {
                Status::Done => true,
                _ => false,
            };
            if !done {
                open = open + 1;
            }
            i = i + 1;
        }
        proof {
            assert(views(d.tasks@).take(i as int) =~= views(d.tasks@));
        }
        Ok(Reply::Info(self.store.root().to_owned(), d.boards.len(), d.tasks.len(), open, sessions.len(), today_date.to_owned()))
    }
}

// ---------------------------------------------------------------------------
// what each tool answers
// ---------------------------------------------------------------------------

pub open spec fn set_done_answer(old: StoreView, new: StoreView, args: Seq<(Seq<char>, ArgView)>, done: bool, r: std::result::Result<Reply, String>) -> bool {
    with_text(args, "task_id"@, old, new, r, |id: Seq<char>| exists|x: crate::error::Result<TaskView>|
        #[trigger] task_reply(r, x, done) && changed_by(old, new, x,
            |b: DataView, a: DataView, n: u64, y: crate::error::Result<TaskView>| set_done_outcome(b, a, id, done, y),
            |e: TaskError| false))
}

pub open spec fn delete_task_answer(old: StoreView, new: StoreView, args: Seq<(Seq<char>, ArgView)>, today: Seq<char>, now: u64, offset: i32, r: std::result::Result<Reply, String>) -> bool {
    with_text(args, "task_id"@, old, new, r, |id: Seq<char>| exists|x: crate::error::Result<TaskView>|
        #[trigger] deleted_reply(r, x)
        && changed_by(old, new, x,
            |b: DataView, a: DataView, n: u64, y: crate::error::Result<TaskView>| delete_task_outcome(b, a, id, y),
            |e: TaskError| false))
}

pub open spec fn move_task_answer(old: StoreView, new: StoreView, args: Seq<(Seq<char>, ArgView)>, today: Seq<char>, now: u64, offset: i32, r: std::result::Result<Reply, String>) -> bool {
    with_text(args, "task_id"@, old, new, r, |id: Seq<char>| with_text(args, "list_id"@, old, new, r, |l: Seq<char>|
        exists|x: crate::error::Result<TaskView>|
        #[trigger] moved_reply(r, x)
        && changed_by(old, new, x,
            |b: DataView, a: DataView, n: u64, y: crate::error::Result<TaskView>| move_task_outcome(b, a, id, l, position_of(args), y),
            |e: TaskError| false)))
}

pub open spec fn add_board_answer(old: StoreView, new: StoreView, args: Seq<(Seq<char>, ArgView)>, today: Seq<char>, now: u64, offset: i32, r: std::result::Result<Reply, String>) -> bool {
    with_text(args, "name"@, old, new, r, |name: Seq<char>| exists|x: crate::error::Result<BoardView>|
        #[trigger] board_reply(r, x)
        && changed_by(old, new, x,
            |b: DataView, a: DataView, n: u64, y: crate::error::Result<BoardView>| add_board_outcome(b, a, name, y),
            |e: TaskError| trim(name).len() == 0 && e == TaskError::EmptyTitle))
}

pub open spec fn add_list_answer(old: StoreView, new: StoreView, args: Seq<(Seq<char>, ArgView)>, today: Seq<char>, now: u64, offset: i32, r: std::result::Result<Reply, String>) -> bool {
    with_text(args, "board_id"@, old, new, r, |bid: Seq<char>| with_text(args, "name"@, old, new, r, |name: Seq<char>|
        match optional_text(arg_of(args, "status"@)) {
            Some(v) if status_reading(v) is Err => fails_with(r, status_reading(v)->Err_0) && new == old,
            st => exists|x: crate::error::Result<ListView>|
                #[trigger] list_reply(r, x)
                && changed_by(old, new, x,
                    |b: DataView, a: DataView, n: u64, y: crate::error::Result<ListView>| add_list_outcome(b, a, bid, name,
                        match st {
                            Some(v) => Some(status_reading(v)->Ok_0),
                            None => None,
                        }, y),
                    |e: TaskError| trim(name).len() == 0 && e == TaskError::EmptyTitle),
        }))
}

pub open spec fn today_tasks_answer(old: StoreView, new: StoreView, args: Seq<(Seq<char>, ArgView)>, today: Seq<char>, now: u64, offset: i32, r: std::result::Result<Reply, String>) -> bool {
    read_then(old, old, r, |d: DataView| match r {
        Ok(Reply::Today(date, entries)) => date@ == today && entries@.map_values(|e: TodayEntry| e@)
            == today_of(d.tasks, today),
        _ => false,
    })
}

pub open spec fn list_boards_answer(old: StoreView, new: StoreView, args: Seq<(Seq<char>, ArgView)>, today: Seq<char>, now: u64, offset: i32, r: std::result::Result<Reply, String>) -> bool {
    read_then(old, old, r, |d: DataView| match r {
        Ok(Reply::Boards(bs)) => bs@.map_values(|b: Board| b@) == d.boards,
        _ => false,
    })
}

pub open spec fn list_tasks_answer(old: StoreView, new: StoreView, args: Seq<(Seq<char>, ArgView)>, today: Seq<char>, now: u64, offset: i32, r: std::result::Result<Reply, String>) -> bool {
    read_then(old, old, r, |d: DataView| match optional_text(arg_of(args, "status"@)) {
        Some(v) if status_reading(v) is Err => fails_with(r, status_reading(v)->Err_0),
        st => match r {
            Ok(Reply::Tasks(ts)) => views(ts@) == found(d, filter_of(args, match st {
                Some(v) => Some(status_reading(v)->Ok_0),
                None => None,
            })),
            _ => false,
        },
    })
}

pub open spec fn get_task_answer(old: StoreView, new: StoreView, args: Seq<(Seq<char>, ArgView)>, today: Seq<char>, now: u64, offset: i32, r: std::result::Result<Reply, String>) -> bool {
    new == old && with_text(args, "task_id"@, old, old, r, |id: Seq<char>| read_then(old, old, r, |d: DataView|
        match task_in(d, id) {
            None => fails_with(r, "no task with id "@ + id),
            Some(t) => match r {
                Ok(Reply::Detail(task, list, board, secs, n)) => task@ == t
                    && (match list {
                        Some(l) => Some(l@),
                        None => None,
                    }) == list_of(d, t.list_id)
                    && board.deep_view() == board_named(d, t.list_id)
                    && secs == seconds_of(old.sessions, None, None, Some(Some(id)))
                    && n == sessions_of(old.sessions, None, None, Some(Some(id))),
                _ => false,
            },
        }))
}

pub open spec fn time_summary_answer(old: StoreView, new: StoreView, args: Seq<(Seq<char>, ArgView)>, today: Seq<char>, now: u64, offset: i32, r: std::result::Result<Reply, String>) -> bool {
    read_then(old, old, r, |d: DataView| match r {
        Ok(Reply::Time(t)) => {
            let from = since_of(args, now);
            &&& t.total_seconds == seconds_of(old.sessions, from, None, None)
            &&& t.focus_sessions == sessions_of(old.sessions, from, None, None)
            &&& t.unattributed_seconds == seconds_of(old.sessions, from, None, Some(None))
            &&& per_task(t.by_task@.map_values(|x: TaskTime| x@), d, old.sessions, from, None)
        },
        _ => false,
    })
}

pub open spec fn matrix_answer(old: StoreView, new: StoreView, args: Seq<(Seq<char>, ArgView)>, today: Seq<char>, now: u64, offset: i32, r: std::result::Result<Reply, String>) -> bool {
    read_then(old, old, r, |d: DataView| match r {
        Ok(Reply::Matrix(ps)) => ps@.map_values(|p: Plotted| p@) == plot_of(d.tasks, today),
        _ => false,
    })
}

pub open spec fn suggest_task_answer(old: StoreView, new: StoreView, args: Seq<(Seq<char>, ArgView)>, today: Seq<char>, now: u64, offset: i32, r: std::result::Result<Reply, String>) -> bool {
    read_then(old, old, r, |d: DataView| match r {
        Ok(Reply::Suggestion(p, low)) => low == optional_bool(arg_of(args, "low_energy"@), false) && match p {
            Some(x) => suggestion(plot_of(d.tasks, today), low) == Some(x@),
            None => suggestion(plot_of(d.tasks, today), low) is None,
        },
        _ => false,
    })
}

pub open spec fn stats_answer(old: StoreView, new: StoreView, args: Seq<(Seq<char>, ArgView)>, today: Seq<char>, now: u64, offset: i32, r: std::result::Result<Reply, String>) -> bool {
    read_then(old, old, r, |d: DataView| match r {
        Ok(Reply::Stats(x)) => {
            let ss = old.sessions;
            &&& x.streak_days == streak_of(ss, offset, today, d.settings)
            &&& x.sessions_today == focus_count_on(ss, offset, today) as u32
            &&& x.daily_goal == d.settings.daily_focus_goal
            &&& x.focus_minutes_today == focus_seconds_on(ss, offset, today) / 60
            &&& x.points_today == done_points_on(d.tasks, offset, today)
            &&& x.points_total == done_points(d.tasks)
            &&& x.completed_today == done_count_on(d.tasks, offset, today) as u32
            &&& x.goal_met == (x.daily_goal > 0 && x.sessions_today >= x.daily_goal)
        },
        _ => false,
    })
}

pub open spec fn team_activity_answer(old: StoreView, new: StoreView, args: Seq<(Seq<char>, ArgView)>, today: Seq<char>, now: u64, offset: i32, r: std::result::Result<Reply, String>) -> bool {
    new == old && with_text(args, "project"@, old, old, r, |project: Seq<char>| {
        let days = optional_count(arg_of(args, "since_days"@), 14);
        match r {
            Ok(Reply::Team(p, d, since)) => p@ == project && d == days && since == (if now >= days * 86_400_000 {
                now - days * 86_400_000
            } else {
                0
            }),
            _ => false,
        }
    })
}

pub open spec fn assign_session_answer(old: StoreView, new: StoreView, args: Seq<(Seq<char>, ArgView)>, today: Seq<char>, now: u64, offset: i32, r: std::result::Result<Reply, String>) -> bool {
    with_text(args, "session_id"@, old, new, r, |sid: Seq<char>| {
        let i = find_session(old.sessions, sid, 0);
        let task = optional_text(arg_of(args, "task_id"@));
        if i < old.sessions.len() {
            match r {
                Ok(Reply::SessionAssigned(s)) => s@ == (SessionView { task_id: task, ..old.sessions[i] })
                    && new == with_sessions(old, old.sessions.update(i, s@)),
                _ => false,
            }
        } else {
            fails_with(r, "no session with id "@ + sid) && new == old
        }
    })
}

pub open spec fn delete_session_answer(old: StoreView, new: StoreView, args: Seq<(Seq<char>, ArgView)>, today: Seq<char>, now: u64, offset: i32, r: std::result::Result<Reply, String>) -> bool {
    with_text(args, "session_id"@, old, new, r, |sid: Seq<char>| {
        let i = find_session(old.sessions, sid, 0);
        if i < old.sessions.len() {
            match r {
                Ok(Reply::SessionDeleted(s)) => s@ == old.sessions[i]
                    && new == with_sessions(old, old.sessions.remove(i)),
                _ => false,
            }
        } else {
            fails_with(r, "no session with id "@ + sid) && new == old
        }
    })
}

pub open spec fn list_sessions_answer(old: StoreView, new: StoreView, args: Seq<(Seq<char>, ArgView)>, today: Seq<char>, now: u64, offset: i32, r: std::result::Result<Reply, String>) -> bool {
    read_then(old, old, r, |d: DataView| match r {
        Ok(Reply::Sessions(ls)) => session_lines(ls@) == listed_sessions(old.sessions,
            optional_count(arg_of(args, "limit"@), 50), d),
        _ => false,
    })
}

pub open spec fn store_info_answer(old: StoreView, new: StoreView, args: Seq<(Seq<char>, ArgView)>, today: Seq<char>, now: u64, offset: i32, r: std::result::Result<Reply, String>) -> bool {
    read_then(old, old, r, |d: DataView| match r {
        Ok(Reply::Info(path, boards, tasks, open, sessions, date)) => path@ == old.root && boards == d.boards.len()
            && tasks == d.tasks.len() && open == open_count(d.tasks) && sessions == old.sessions.len()
            && date@ == today,
        _ => false,
    })
}

// ---------------------------------------------------------------------------
// calling a tool by name
// ---------------------------------------------------------------------------

/// What a call of the tool `name` is owed; an unknown name is refused with
/// the store untouched.
pub open spec fn answered(
    name: Seq<char>,
    old: StoreView,
    new: StoreView,
    args: Seq<(Seq<char>, ArgView)>,
    today: Seq<char>,
    now: u64,
    offset: i32,
    r: std::result::Result<Reply, String>,
) -> bool {
    if name == "add_task"@ {
        add_task_answer(old, new, args, today, r)
    } else if name == "today"@ {
        today_tasks_answer(old, new, args, today, now, offset, r)
    } else if name == "list_tasks"@ {
        list_tasks_answer(old, new, args, today, now, offset, r)
    } else if name == "get_task"@ {
        get_task_answer(old, new, args, today, now, offset, r)
    } else if name == "update_task"@ {
        update_task_answer(old, new, args, today, r)
    } else if name == "complete_task"@ {
        set_done_answer(old, new, args, true, r)
    } else if name == "reopen_task"@ {
        set_done_answer(old, new, args, false, r)
    } else if name == "move_task"@ {
        move_task_answer(old, new, args, today, now, offset, r)
    } else if name == "delete_task"@ {
        delete_task_answer(old, new, args, today, now, offset, r)
    } else if name == "list_boards"@ {
        list_boards_answer(old, new, args, today, now, offset, r)
    } else if name == "add_board"@ {
        add_board_answer(old, new, args, today, now, offset, r)
    } else if name == "add_list"@ {
        add_list_answer(old, new, args, today, now, offset, r)
    } else if name == "log_session"@ {
        log_session_answer(old, new, args, now, r)
    } else if name == "time_summary"@ {
        time_summary_answer(old, new, args, today, now, offset, r)
    } else if name == "matrix"@ {
        matrix_answer(old, new, args, today, now, offset, r)
    } else if name == "suggest_task"@ {
        suggest_task_answer(old, new, args, today, now, offset, r)
    } else if name == "stats"@ {
        stats_answer(old, new, args, today, now, offset, r)
    } else if name == "rename_label"@ {
        rename_label_answer(old, new, args, r)
    } else if name == "delete_label"@ {
        delete_label_answer(old, new, args, r)
    } else if name == "team_activity"@ {
        team_activity_answer(old, new, args, today, now, offset, r)
    } else if name == "sessions"@ {
        list_sessions_answer(old, new, args, today, now, offset, r)
    } else if name == "assign_session"@ {
        assign_session_answer(old, new, args, today, now, offset, r)
    } else if name == "delete_session"@ {
        delete_session_answer(old, new, args, today, now, offset, r)
    } else if name == "store_info"@ {
        store_info_answer(old, new, args, today, now, offset, r)
    } else {
        fails_with(r, "unknown tool: "@ + name) && new == old
    }
}

/// The inputs on which a tool would overflow a counter or a position,
/// which are left out.
pub open spec fn call_fits(name: Seq<char>, store: StoreView, args: Seq<(Seq<char>, ArgView)>, today: Seq<char>, now: u64, offset: i32) -> bool {
    &&& name == "add_task"@ ==> add_fits(args, today)
    &&& name == "move_task"@ ==> move_fits(store, args)
    &&& name == "log_session"@ ==> log_fits(args)
    &&& name == "get_task"@ ==> total_fits(store, None)
    &&& name == "time_summary"@ ==> since_fits(args) && total_fits(store, since_of(args, now))
    &&& name == "stats"@ ==> stats_fit(store, today, offset)
    &&& name == "team_activity"@ ==> team_fits(args)
}

impl TaskTools {
    /// Run the tool `name` with its arguments, on the user's date `today`
    /// (`YYYY-MM-DD`), at `now` (ms since the epoch), `utc_offset_seconds`
    /// ahead of UTC. `Err` is a tool error the model sees and can recover
    /// from: bad input and failed operations.
    pub fn call(&mut self, name: &str, args: &Args, today: &str, now: u64, utc_offset_seconds: i32) -> (r: std::result::Result<Reply, String>)
        requires
            call_fits(name@, old(self)@, args@, today@, now, utc_offset_seconds),
        ensures
            answered(name@, old(self)@, final(self)@, args@, today@, now, utc_offset_seconds, r),
    {
        if str_eq(name, "add_task") {
            self.add_task(args, today)
        } else if str_eq(name, "today") {
            self.today_tasks(today)
        } else if str_eq(name, "list_tasks") {
            self.list_tasks(args)
        } else if str_eq(name, "get_task") {
            self.get_task(args)
        } else if str_eq(name, "update_task") {
            self.update_task(args, today)
        } else if str_eq(name, "complete_task") {
            self.set_done(args, true)
        } else if str_eq(name, "reopen_task") {
            self.set_done(args, false)
        } else if str_eq(name, "move_task") {
            self.move_task(args)
        } else if str_eq(name, "delete_task") {
            self.delete_task(args)
        } else if str_eq(name, "list_boards") {
            self.list_boards()
        } else if str_eq(name, "add_board") {
            self.add_board(args)
        } else if str_eq(name, "add_list") {
            self.add_list(args)
        } else if str_eq(name, "log_session") {
            self.log_session(args, now)
        } else if str_eq(name, "time_summary") {
            self.time_summary(args, now)
        } else if str_eq(name, "matrix") {
            self.matrix(today)
        } else if str_eq(name, "suggest_task") {
            self.suggest_task(args, today)
        } else if str_eq(name, "stats") {
            self.stats(today, utc_offset_seconds)
        } else if str_eq(name, "rename_label") {
            self.rename_label(args)
        } else if str_eq(name, "delete_label") {
            self.delete_label(args)
        } else if str_eq(name, "team_activity") {
            self.team_activity(args, now)
        } else if str_eq(name, "sessions") {
            self.list_sessions(args)
        } else if str_eq(name, "assign_session") {
            self.assign_session(args)
        } else if str_eq(name, "delete_session") {
            self.delete_session(args)
        } else if str_eq(name, "store_info") {
            self.store_info(today)
        } else {
            let v = chars_of(name);
            let mut m = chars_of("unknown tool: ");
            append_to(&mut m, v.as_slice());
            Err(string_of(m.as_slice()))
        }
    }
}

} // verus!
