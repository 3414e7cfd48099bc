//! What can go wrong with the task store.

use vstd::prelude::*;

use crate::text::{append_to, chars_of, string_of};

verus! {

#[derive(Debug)]
pub enum TaskError {
    /// A task (or a board, list or label) needs a name.
    EmptyTitle,
    TaskNotFound(String),
    ListNotFound(String),
    BoardNotFound(String),
    SessionNotFound(String),
    /// The store has no boards to put a task in.
    NoBoards,
    /// The store exists but cannot be parsed. Reported rather than silently
    /// re-seeded, because quietly replacing someone's tasks is worse than
    /// refusing to start.
    Corrupt(String),
    /// Reading or writing the store's files failed.
    Io(String),
}

pub type Result<T> = std::result::Result<T, TaskError>;

/// The words each error is shown with.
pub open spec fn error_text(e: TaskError) -> Seq<char> {
    match e {
        TaskError::EmptyTitle => "a task needs a title"@,
        TaskError::TaskNotFound(id) => "no task with id "@ + id@,
        TaskError::ListNotFound(id) => "no list with id "@ + id@,
        TaskError::BoardNotFound(id) => "no board with id "@ + id@,
        TaskError::SessionNotFound(id) => "no session with id "@ + id@,
        TaskError::NoBoards => "the store has no boards to put a task in"@,
        TaskError::Corrupt(why) => "the task store is unreadable: "@ + why@,
        TaskError::Io(why) => why@,
    }
}

pub(crate) fn prefixed(prefix: &str, rest: &String) -> (r: String)
    ensures
        r@ == prefix@ + rest@,
{
    let mut v = chars_of(prefix);
    let tail = chars_of(rest.as_str());
    append_to(&mut v, tail.as_slice());
    string_of(v.as_slice())
}

impl TaskError {
    /// The message shown to a person for this error.
    pub fn message(&self) -> (r: String)
        ensures
            r@ == error_text(*self),
    {
        match self {
            TaskError::EmptyTitle => "a task needs a title".to_owned(),
            TaskError::TaskNotFound(id) => prefixed("no task with id ", id),
            TaskError::ListNotFound(id) => prefixed("no list with id ", id),
            TaskError::BoardNotFound(id) => prefixed("no board with id ", id),
            TaskError::SessionNotFound(id) => prefixed("no session with id ", id),
            TaskError::NoBoards => "the store has no boards to put a task in".to_owned(),
            TaskError::Corrupt(why) => prefixed("the task store is unreadable: ", why),
            TaskError::Io(why) => why.clone(),
        }
    }
}

} // verus!
