//! The tools the server offers, as a client lists them: each name, what it
//! does, and the arguments it takes.

use vstd::prelude::*;

use crate::mcp::{ObjectSchema, Property, Tool, ValueKind};
use crate::tools::TaskTools;

verus! {

/// An argument as a tool declares it: its name, kind, whether a call must
/// carry it, and the guidance given for it.
pub type ArgShape = (Seq<char>, ValueKind, bool, Option<Seq<char>>);

/// What a listed tool declares: its name, what it does, and each argument.
pub open spec fn shape_of(t: Tool) -> (Seq<char>, Seq<char>, Seq<ArgShape>) {
    (t.name@, t.description@, arg_shapes(t.input_schema.properties@))
}

pub open spec fn arg_shapes(ps: Seq<Property>) -> Seq<ArgShape> {
    ps.map_values(|p: Property| (p.name@, p.kind, p.required, p.description.deep_view()))
}

/// Every tool, in the order they are listed, with what it does and its
/// arguments.
pub open spec fn catalog() -> Seq<(Seq<char>, Seq<char>, Seq<ArgShape>)> {
    seq![
        (
            "add_task"@,
            "Capture a task. Only a title is required — omit anything the user did not specify rather than guessing. Lands in the first list of the first board unless a list is given."@,
            seq![
                ("title"@, ValueKind::Text, true, Some("What needs doing. A leading `(project)` and `[tag]` are read out of it — `(stm) [chore] clean up the login page` files the task under project `stm`, tagged `chore`. Explicit project/tags arguments win over the title."@)),
                ("notes"@, ValueKind::Text, false, Some("Longer detail, if the user gave any."@)),
                ("list_id"@, ValueKind::Text, false, Some("List to file it under. Omit for the default inbox list."@)),
                ("due"@, ValueKind::Text, false, Some("`YYYY-MM-DD`, or `today` / `tomorrow`."@)),
                ("today"@, ValueKind::Boolean, false, Some("Pull onto the Today list regardless of due date."@)),
                ("project"@, ValueKind::Text, false, Some("The project this belongs to. One per task."@)),
                ("tags"@, ValueKind::TextList, false, Some("Type labels: bug, admin, deep-work."@)),
                ("impact"@, ValueKind::Integer, false, Some("How much finishing it is worth, 1-10. Omit unless the user said."@)),
                ("effort"@, ValueKind::Integer, false, Some("How much it will cost, 1-10. Omit unless the user said."@)),
                ("priority"@, ValueKind::Integer, false, Some("1 is highest. Omit if unstated."@)),
                ("estimate_minutes"@, ValueKind::Integer, false, Some("Rough size, for planning against pomodoro sessions."@)),
                ("origin"@, ValueKind::Text, false, Some("Where the task came from, as `scheme:reference` — `mindmap:<map>#<node>`, `knowledge:<note path>`. Set this when creating a task on behalf of another app so it can be traced back."@)),
            ],
        ),
        (
            "today"@,
            "The user's Today list: overdue, due today, flagged for today, or already in progress — ordered so the most pressing is first. Each entry says why it is there. This is the right tool for \"what should I work on\"."@,
            Seq::empty(),
        ),
        (
            "list_tasks"@,
            "List tasks with optional filters. Completed tasks are excluded unless include_done is set."@,
            seq![
                ("board_id"@, ValueKind::Text, false, None),
                ("list_id"@, ValueKind::Text, false, None),
                ("status"@, ValueKind::Text, false, Some("todo, doing or done."@)),
                ("tag"@, ValueKind::Text, false, None),
                ("project"@, ValueKind::Text, false, None),
                ("query"@, ValueKind::Text, false, Some("Text matched against title and notes."@)),
                ("include_done"@, ValueKind::Boolean, false, Some("Default false."@)),
                ("limit"@, ValueKind::Integer, false, Some("Default 100."@)),
            ],
        ),
        (
            "get_task"@,
            "Read one task in full, including its recorded time."@,
            seq![
                ("task_id"@, ValueKind::Text, true, None),
            ],
        ),
        (
            "update_task"@,
            "Change fields on a task. Only the fields given are touched; pass null to clear an optional one."@,
            seq![
                ("task_id"@, ValueKind::Text, true, None),
                ("title"@, ValueKind::Text, false, None),
                ("notes"@, ValueKind::Text, false, None),
                ("due"@, ValueKind::Text, false, Some("`YYYY-MM-DD`, `today`, `tomorrow`, or null to clear."@)),
                ("today"@, ValueKind::Boolean, false, None),
                ("project"@, ValueKind::Text, false, Some("The project this belongs to. One per task."@)),
                ("tags"@, ValueKind::TextList, false, Some("Type labels: bug, admin, deep-work."@)),
                ("impact"@, ValueKind::Integer, false, Some("How much finishing it is worth, 1-10. Omit unless the user said."@)),
                ("effort"@, ValueKind::Integer, false, Some("How much it will cost, 1-10. Omit unless the user said."@)),
                ("priority"@, ValueKind::Integer, false, None),
                ("estimate_minutes"@, ValueKind::Integer, false, None),
            ],
        ),
        (
            "complete_task"@,
            "Mark a task done and move it into its board's Done list."@,
            seq![
                ("task_id"@, ValueKind::Text, true, None),
            ],
        ),
        (
            "reopen_task"@,
            "Undo completion, returning the task to its board's To Do list."@,
            seq![
                ("task_id"@, ValueKind::Text, true, None),
            ],
        ),
        (
            "move_task"@,
            "Move a task to a different list, and optionally to a position within it."@,
            seq![
                ("task_id"@, ValueKind::Text, true, None),
                ("list_id"@, ValueKind::Text, true, None),
                ("position"@, ValueKind::Integer, false, Some("0-based. Omit for the end of the list."@)),
            ],
        ),
        (
            "delete_task"@,
            "Delete a task permanently. Confirm with the user first — completing a task is usually what is wanted instead."@,
            seq![
                ("task_id"@, ValueKind::Text, true, None),
            ],
        ),
        (
            "list_boards"@,
            "List boards with their lists and ids, so tasks can be filed and moved."@,
            Seq::empty(),
        ),
        (
            "add_board"@,
            "Create a board, pre-populated with To Do, Doing and Done lists."@,
            seq![
                ("name"@, ValueKind::Text, true, None),
            ],
        ),
        (
            "add_list"@,
            "Add a list to a board."@,
            seq![
                ("board_id"@, ValueKind::Text, true, None),
                ("name"@, ValueKind::Text, true, None),
                ("status"@, ValueKind::Text, false, Some("todo, doing or done — applied to tasks moved into this list."@)),
            ],
        ),
        (
            "log_session"@,
            "Record focused time against a task, for work that has already happened."@,
            seq![
                ("task_id"@, ValueKind::Text, false, Some("Omit to record unattributed time."@)),
                ("minutes"@, ValueKind::Integer, true, Some("Length of the session."@)),
                ("kind"@, ValueKind::Text, false, Some("focus (default) or break."@)),
            ],
        ),
        (
            "team_activity"@,
            "What the whole team finished or is working on for one project, newest first. This is the material for a client update: report what it returns rather than guessing, and say only what you can point at."@,
            seq![
                ("project"@, ValueKind::Text, true, Some("Project code as used on tasks, e.g. stm."@)),
                ("since_days"@, ValueKind::Integer, false, Some("How far back to count completed work. Default 14."@)),
            ],
        ),
        (
            "sessions"@,
            "Recorded focus and break sessions, newest first. Use this to review or correct what time was logged against."@,
            seq![
                ("limit"@, ValueKind::Integer, false, Some("Default 50."@)),
            ],
        ),
        (
            "assign_session"@,
            "Attribute a recorded session to a task, or pass no task_id to leave it unattributed. This is the correction for time logged against the wrong thing."@,
            seq![
                ("session_id"@, ValueKind::Text, true, None),
                ("task_id"@, ValueKind::Text, false, Some("Omit to clear the attribution."@)),
            ],
        ),
        (
            "delete_session"@,
            "Remove a recorded session — a timer left running, or time logged twice. Confirm with the user first: reassigning is usually the right correction, and deleting changes every report the session fed."@,
            seq![
                ("session_id"@, ValueKind::Text, true, None),
            ],
        ),
        (
            "time_summary"@,
            "Total focus time and a per-task breakdown. Breaks are excluded."@,
            seq![
                ("since_days"@, ValueKind::Integer, false, Some("Only sessions from the last N days. Omit for all time."@)),
            ],
        ),
        (
            "matrix"@,
            "Open tasks placed on the impact/effort matrix, most worth doing first. Each carries its quadrant (quick-win, big-bet, fill-in, thankless) and an urgency derived from its due date and priority. Only tasks with both scores appear."@,
            Seq::empty(),
        ),
        (
            "suggest_task"@,
            "Pick something worth doing now. Use low_energy when the user says they are tired, stuck or sluggish: it returns the cheapest task that still pays rather than the most valuable one."@,
            seq![
                ("low_energy"@, ValueKind::Boolean, false, Some("Default false."@)),
            ],
        ),
        (
            "stats"@,
            "The day's standing: focus streak, sessions against the daily goal, and impact points from work finished. All derived from what actually happened."@,
            Seq::empty(),
        ),
        (
            "labels"@,
            "Projects and type tags in use, with how many open and completed tasks carry each. Read this before setting a project or tag so an existing one is reused rather than a near-duplicate created."@,
            Seq::empty(),
        ),
        (
            "rename_label"@,
            "Rename a project or tag on every task that carries it. Renaming onto a name already in use merges the two, which is how near-duplicates get tidied up."@,
            seq![
                ("kind"@, ValueKind::Text, true, Some("project or tag."@)),
                ("from"@, ValueKind::Text, true, None),
                ("to"@, ValueKind::Text, true, None),
            ],
        ),
        (
            "delete_label"@,
            "Clear a project or tag from every task that carries it. The tasks themselves are untouched."@,
            seq![
                ("kind"@, ValueKind::Text, true, Some("project or tag."@)),
                ("name"@, ValueKind::Text, true, None),
            ],
        ),
        (
            "store_info"@,
            "Where the store lives and what is in it."@,
            Seq::empty(),
        ),
    ]
}

impl TaskTools {
    /// Every tool, in the order a client lists them.
    pub fn tools(&self) -> (r: Vec<Tool>)
        ensures
            r@.map_values(|t: Tool| shape_of(t)) == catalog(),
    {
        let mut r: Vec<Tool> = Vec::new();
        let mut p: Vec<Property> = Vec::new();
        p.push(Property::new(
            "title",
            ValueKind::Text,
            Some("What needs doing. A leading `(project)` and `[tag]` are read out of it — `(stm) [chore] clean up the login page` files the task under project `stm`, tagged `chore`. Explicit project/tags arguments win over the title."),
            true,
        ));
        p.push(Property::new(
            "notes",
            ValueKind::Text,
            Some("Longer detail, if the user gave any."),
            false,
        ));
        p.push(Property::new(
            "list_id",
            ValueKind::Text,
            Some("List to file it under. Omit for the default inbox list."),
            false,
        ));
        p.push(Property::new(
            "due",
            ValueKind::Text,
            Some("`YYYY-MM-DD`, or `today` / `tomorrow`."),
            false,
        ));
        p.push(Property::new(
            "today",
            ValueKind::Boolean,
            Some("Pull onto the Today list regardless of due date."),
            false,
        ));
        p.push(Property::new(
            "project",
            ValueKind::Text,
            Some("The project this belongs to. One per task."),
            false,
        ));
        p.push(Property::new(
            "tags",
            ValueKind::TextList,
            Some("Type labels: bug, admin, deep-work."),
            false,
        ));
        p.push(Property::new(
            "impact",
            ValueKind::Integer,
            Some("How much finishing it is worth, 1-10. Omit unless the user said."),
            false,
        ));
        p.push(Property::new(
            "effort",
            ValueKind::Integer,
            Some("How much it will cost, 1-10. Omit unless the user said."),
            false,
        ));
        p.push(Property::new(
            "priority",
            ValueKind::Integer,
            Some("1 is highest. Omit if unstated."),
            false,
        ));
        p.push(Property::new(
            "estimate_minutes",
            ValueKind::Integer,
            Some("Rough size, for planning against pomodoro sessions."),
            false,
        ));
        p.push(Property::new(
            "origin",
            ValueKind::Text,
            Some("Where the task came from, as `scheme:reference` — `mindmap:<map>#<node>`, `knowledge:<note path>`. Set this when creating a task on behalf of another app so it can be traced back."),
            false,
        ));
        assert(arg_shapes(p@) =~= seq![
            ("title"@, ValueKind::Text, true, Some("What needs doing. A leading `(project)` and `[tag]` are read out of it — `(stm) [chore] clean up the login page` files the task under project `stm`, tagged `chore`. Explicit project/tags arguments win over the title."@)),
            ("notes"@, ValueKind::Text, false, Some("Longer detail, if the user gave any."@)),
            ("list_id"@, ValueKind::Text, false, Some("List to file it under. Omit for the default inbox list."@)),
            ("due"@, ValueKind::Text, false, Some("`YYYY-MM-DD`, or `today` / `tomorrow`."@)),
            ("today"@, ValueKind::Boolean, false, Some("Pull onto the Today list regardless of due date."@)),
            ("project"@, ValueKind::Text, false, Some("The project this belongs to. One per task."@)),
            ("tags"@, ValueKind::TextList, false, Some("Type labels: bug, admin, deep-work."@)),
            ("impact"@, ValueKind::Integer, false, Some("How much finishing it is worth, 1-10. Omit unless the user said."@)),
            ("effort"@, ValueKind::Integer, false, Some("How much it will cost, 1-10. Omit unless the user said."@)),
            ("priority"@, ValueKind::Integer, false, Some("1 is highest. Omit if unstated."@)),
            ("estimate_minutes"@, ValueKind::Integer, false, Some("Rough size, for planning against pomodoro sessions."@)),
            ("origin"@, ValueKind::Text, false, Some("Where the task came from, as `scheme:reference` — `mindmap:<map>#<node>`, `knowledge:<note path>`. Set this when creating a task on behalf of another app so it can be traced back."@)),
        ]);
        r.push(Tool::new(
            "add_task",
            "Capture a task. Only a title is required — omit anything the user did not specify rather than guessing. Lands in the first list of the first board unless a list is given.",
            ObjectSchema::new(p),
        ));

        let mut p: Vec<Property> = Vec::new();
        assert(arg_shapes(p@) =~= Seq::empty());
        r.push(Tool::new(
            "today",
            "The user's Today list: overdue, due today, flagged for today, or already in progress — ordered so the most pressing is first. Each entry says why it is there. This is the right tool for \"what should I work on\".",
            ObjectSchema::new(p),
        ));

        let mut p: Vec<Property> = Vec::new();
        p.push(Property::new("board_id", ValueKind::Text, None, false));
        p.push(Property::new("list_id", ValueKind::Text, None, false));
        p.push(Property::new(
            "status",
            ValueKind::Text,
            Some("todo, doing or done."),
            false,
        ));
        p.push(Property::new("tag", ValueKind::Text, None, false));
        p.push(Property::new("project", ValueKind::Text, None, false));
        p.push(Property::new(
            "query",
            ValueKind::Text,
            Some("Text matched against title and notes."),
            false,
        ));
        p.push(Property::new(
            "include_done",
            ValueKind::Boolean,
            Some("Default false."),
            false,
        ));
        p.push(Property::new(
            "limit",
            ValueKind::Integer,
            Some("Default 100."),
            false,
        ));
        assert(arg_shapes(p@) =~= seq![
            ("board_id"@, ValueKind::Text, false, None),
            ("list_id"@, ValueKind::Text, false, None),
            ("status"@, ValueKind::Text, false, Some("todo, doing or done."@)),
            ("tag"@, ValueKind::Text, false, None),
            ("project"@, ValueKind::Text, false, None),
            ("query"@, ValueKind::Text, false, Some("Text matched against title and notes."@)),
            ("include_done"@, ValueKind::Boolean, false, Some("Default false."@)),
            ("limit"@, ValueKind::Integer, false, Some("Default 100."@)),
        ]);
        r.push(Tool::new(
            "list_tasks",
            "List tasks with optional filters. Completed tasks are excluded unless include_done is set.",
            ObjectSchema::new(p),
        ));

        let mut p: Vec<Property> = Vec::new();
        p.push(Property::new("task_id", ValueKind::Text, None, true));
        assert(arg_shapes(p@) =~= seq![
            ("task_id"@, ValueKind::Text, true, None),
        ]);
        r.push(Tool::new(
            "get_task",
            "Read one task in full, including its recorded time.",
            ObjectSchema::new(p),
        ));

        let mut p: Vec<Property> = Vec::new();
        p.push(Property::new("task_id", ValueKind::Text, None, true));
        p.push(Property::new("title", ValueKind::Text, None, false));
        p.push(Property::new("notes", ValueKind::Text, None, false));
        p.push(Property::new(
            "due",
            ValueKind::Text,
            Some("`YYYY-MM-DD`, `today`, `tomorrow`, or null to clear."),
            false,
        ));
        p.push(Property::new("today", ValueKind::Boolean, None, false));
        p.push(Property::new(
            "project",
            ValueKind::Text,
            Some("The project this belongs to. One per task."),
            false,
        ));
        p.push(Property::new(
            "tags",
            ValueKind::TextList,
            Some("Type labels: bug, admin, deep-work."),
            false,
        ));
        p.push(Property::new(
            "impact",
            ValueKind::Integer,
            Some("How much finishing it is worth, 1-10. Omit unless the user said."),
            false,
        ));
        p.push(Property::new(
            "effort",
            ValueKind::Integer,
            Some("How much it will cost, 1-10. Omit unless the user said."),
            false,
        ));
        p.push(Property::new("priority", ValueKind::Integer, None, false));
        p.push(Property::new("estimate_minutes", ValueKind::Integer, None, false));
        assert(arg_shapes(p@) =~= seq![
            ("task_id"@, ValueKind::Text, true, None),
            ("title"@, ValueKind::Text, false, None),
            ("notes"@, ValueKind::Text, false, None),
            ("due"@, ValueKind::Text, false, Some("`YYYY-MM-DD`, `today`, `tomorrow`, or null to clear."@)),
            ("today"@, ValueKind::Boolean, false, None),
            ("project"@, ValueKind::Text, false, Some("The project this belongs to. One per task."@)),
            ("tags"@, ValueKind::TextList, false, Some("Type labels: bug, admin, deep-work."@)),
            ("impact"@, ValueKind::Integer, false, Some("How much finishing it is worth, 1-10. Omit unless the user said."@)),
            ("effort"@, ValueKind::Integer, false, Some("How much it will cost, 1-10. Omit unless the user said."@)),
            ("priority"@, ValueKind::Integer, false, None),
            ("estimate_minutes"@, ValueKind::Integer, false, None),
        ]);
        r.push(Tool::new(
            "update_task",
            "Change fields on a task. Only the fields given are touched; pass null to clear an optional one.",
            ObjectSchema::new(p),
        ));

        let mut p: Vec<Property> = Vec::new();
        p.push(Property::new("task_id", ValueKind::Text, None, true));
        assert(arg_shapes(p@) =~= seq![
            ("task_id"@, ValueKind::Text, true, None),
        ]);
        r.push(Tool::new(
            "complete_task",
            "Mark a task done and move it into its board's Done list.",
            ObjectSchema::new(p),
        ));

        let mut p: Vec<Property> = Vec::new();
        p.push(Property::new("task_id", ValueKind::Text, None, true));
        assert(arg_shapes(p@) =~= seq![
            ("task_id"@, ValueKind::Text, true, None),
        ]);
        r.push(Tool::new(
            "reopen_task",
            "Undo completion, returning the task to its board's To Do list.",
            ObjectSchema::new(p),
        ));

        let mut p: Vec<Property> = Vec::new();
        p.push(Property::new("task_id", ValueKind::Text, None, true));
        p.push(Property::new("list_id", ValueKind::Text, None, true));
        p.push(Property::new(
            "position",
            ValueKind::Integer,
            Some("0-based. Omit for the end of the list."),
            false,
        ));
        assert(arg_shapes(p@) =~= seq![
            ("task_id"@, ValueKind::Text, true, None),
            ("list_id"@, ValueKind::Text, true, None),
            ("position"@, ValueKind::Integer, false, Some("0-based. Omit for the end of the list."@)),
        ]);
        r.push(Tool::new(
            "move_task",
            "Move a task to a different list, and optionally to a position within it.",
            ObjectSchema::new(p),
        ));

        let mut p: Vec<Property> = Vec::new();
        p.push(Property::new("task_id", ValueKind::Text, None, true));
        assert(arg_shapes(p@) =~= seq![
            ("task_id"@, ValueKind::Text, true, None),
        ]);
        r.push(Tool::new(
            "delete_task",
            "Delete a task permanently. Confirm with the user first — completing a task is usually what is wanted instead.",
            ObjectSchema::new(p),
        ));

        let mut p: Vec<Property> = Vec::new();
        assert(arg_shapes(p@) =~= Seq::empty());
        r.push(Tool::new(
            "list_boards",
            "List boards with their lists and ids, so tasks can be filed and moved.",
            ObjectSchema::new(p),
        ));

        let mut p: Vec<Property> = Vec::new();
        p.push(Property::new("name", ValueKind::Text, None, true));
        assert(arg_shapes(p@) =~= seq![
            ("name"@, ValueKind::Text, true, None),
        ]);
        r.push(Tool::new(
            "add_board",
            "Create a board, pre-populated with To Do, Doing and Done lists.",
            ObjectSchema::new(p),
        ));

        let mut p: Vec<Property> = Vec::new();
        p.push(Property::new("board_id", ValueKind::Text, None, true));
        p.push(Property::new("name", ValueKind::Text, None, true));
        p.push(Property::new(
            "status",
            ValueKind::Text,
            Some("todo, doing or done — applied to tasks moved into this list."),
            false,
        ));
        assert(arg_shapes(p@) =~= seq![
            ("board_id"@, ValueKind::Text, true, None),
            ("name"@, ValueKind::Text, true, None),
            ("status"@, ValueKind::Text, false, Some("todo, doing or done — applied to tasks moved into this list."@)),
        ]);
        r.push(Tool::new(
            "add_list",
            "Add a list to a board.",
            ObjectSchema::new(p),
        ));

        let mut p: Vec<Property> = Vec::new();
        p.push(Property::new(
            "task_id",
            ValueKind::Text,
            Some("Omit to record unattributed time."),
            false,
        ));
        p.push(Property::new(
            "minutes",
            ValueKind::Integer,
            Some("Length of the session."),
            true,
        ));
        p.push(Property::new(
            "kind",
            ValueKind::Text,
            Some("focus (default) or break."),
            false,
        ));
        assert(arg_shapes(p@) =~= seq![
            ("task_id"@, ValueKind::Text, false, Some("Omit to record unattributed time."@)),
            ("minutes"@, ValueKind::Integer, true, Some("Length of the session."@)),
            ("kind"@, ValueKind::Text, false, Some("focus (default) or break."@)),
        ]);
        r.push(Tool::new(
            "log_session",
            "Record focused time against a task, for work that has already happened.",
            ObjectSchema::new(p),
        ));

        let mut p: Vec<Property> = Vec::new();
        p.push(Property::new(
            "project",
            ValueKind::Text,
            Some("Project code as used on tasks, e.g. stm."),
            true,
        ));
        p.push(Property::new(
            "since_days",
            ValueKind::Integer,
            Some("How far back to count completed work. Default 14."),
            false,
        ));
        assert(arg_shapes(p@) =~= seq![
            ("project"@, ValueKind::Text, true, Some("Project code as used on tasks, e.g. stm."@)),
            ("since_days"@, ValueKind::Integer, false, Some("How far back to count completed work. Default 14."@)),
        ]);
        r.push(Tool::new(
            "team_activity",
            "What the whole team finished or is working on for one project, newest first. This is the material for a client update: report what it returns rather than guessing, and say only what you can point at.",
            ObjectSchema::new(p),
        ));

        let mut p: Vec<Property> = Vec::new();
        p.push(Property::new(
            "limit",
            ValueKind::Integer,
            Some("Default 50."),
            false,
        ));
        assert(arg_shapes(p@) =~= seq![
            ("limit"@, ValueKind::Integer, false, Some("Default 50."@)),
        ]);
        r.push(Tool::new(
            "sessions",
            "Recorded focus and break sessions, newest first. Use this to review or correct what time was logged against.",
            ObjectSchema::new(p),
        ));

        let mut p: Vec<Property> = Vec::new();
        p.push(Property::new("session_id", ValueKind::Text, None, true));
        p.push(Property::new(
            "task_id",
            ValueKind::Text,
            Some("Omit to clear the attribution."),
            false,
        ));
        assert(arg_shapes(p@) =~= seq![
            ("session_id"@, ValueKind::Text, true, None),
            ("task_id"@, ValueKind::Text, false, Some("Omit to clear the attribution."@)),
        ]);
        r.push(Tool::new(
            "assign_session",
            "Attribute a recorded session to a task, or pass no task_id to leave it unattributed. This is the correction for time logged against the wrong thing.",
            ObjectSchema::new(p),
        ));

        let mut p: Vec<Property> = Vec::new();
        p.push(Property::new("session_id", ValueKind::Text, None, true));
        assert(arg_shapes(p@) =~= seq![
            ("session_id"@, ValueKind::Text, true, None),
        ]);
        r.push(Tool::new(
            "delete_session",
            "Remove a recorded session — a timer left running, or time logged twice. Confirm with the user first: reassigning is usually the right correction, and deleting changes every report the session fed.",
            ObjectSchema::new(p),
        ));

        let mut p: Vec<Property> = Vec::new();
        p.push(Property::new(
            "since_days",
            ValueKind::Integer,
            Some("Only sessions from the last N days. Omit for all time."),
            false,
        ));
        assert(arg_shapes(p@) =~= seq![
            ("since_days"@, ValueKind::Integer, false, Some("Only sessions from the last N days. Omit for all time."@)),
        ]);
        r.push(Tool::new(
            "time_summary",
            "Total focus time and a per-task breakdown. Breaks are excluded.",
            ObjectSchema::new(p),
        ));

        let mut p: Vec<Property> = Vec::new();
        assert(arg_shapes(p@) =~= Seq::empty());
        r.push(Tool::new(
            "matrix",
            "Open tasks placed on the impact/effort matrix, most worth doing first. Each carries its quadrant (quick-win, big-bet, fill-in, thankless) and an urgency derived from its due date and priority. Only tasks with both scores appear.",
            ObjectSchema::new(p),
        ));

        let mut p: Vec<Property> = Vec::new();
        p.push(Property::new(
            "low_energy",
            ValueKind::Boolean,
            Some("Default false."),
            false,
        ));
        assert(arg_shapes(p@) =~= seq![
            ("low_energy"@, ValueKind::Boolean, false, Some("Default false."@)),
        ]);
        r.push(Tool::new(
            "suggest_task",
            "Pick something worth doing now. Use low_energy when the user says they are tired, stuck or sluggish: it returns the cheapest task that still pays rather than the most valuable one.",
            ObjectSchema::new(p),
        ));

        let mut p: Vec<Property> = Vec::new();
        assert(arg_shapes(p@) =~= Seq::empty());
        r.push(Tool::new(
            "stats",
            "The day's standing: focus streak, sessions against the daily goal, and impact points from work finished. All derived from what actually happened.",
            ObjectSchema::new(p),
        ));

        let mut p: Vec<Property> = Vec::new();
        assert(arg_shapes(p@) =~= Seq::empty());
        r.push(Tool::new(
            "labels",
            "Projects and type tags in use, with how many open and completed tasks carry each. Read this before setting a project or tag so an existing one is reused rather than a near-duplicate created.",
            ObjectSchema::new(p),
        ));

        let mut p: Vec<Property> = Vec::new();
        p.push(Property::new(
            "kind",
            ValueKind::Text,
            Some("project or tag."),
            true,
        ));
        p.push(Property::new("from", ValueKind::Text, None, true));
        p.push(Property::new("to", ValueKind::Text, None, true));
        assert(arg_shapes(p@) =~= seq![
            ("kind"@, ValueKind::Text, true, Some("project or tag."@)),
            ("from"@, ValueKind::Text, true, None),
            ("to"@, ValueKind::Text, true, None),
        ]);
        r.push(Tool::new(
            "rename_label",
            "Rename a project or tag on every task that carries it. Renaming onto a name already in use merges the two, which is how near-duplicates get tidied up.",
            ObjectSchema::new(p),
        ));

        let mut p: Vec<Property> = Vec::new();
        p.push(Property::new(
            "kind",
            ValueKind::Text,
            Some("project or tag."),
            true,
        ));
        p.push(Property::new("name", ValueKind::Text, None, true));
        assert(arg_shapes(p@) =~= seq![
            ("kind"@, ValueKind::Text, true, Some("project or tag."@)),
            ("name"@, ValueKind::Text, true, None),
        ]);
        r.push(Tool::new(
            "delete_label",
            "Clear a project or tag from every task that carries it. The tasks themselves are untouched.",
            ObjectSchema::new(p),
        ));

        let mut p: Vec<Property> = Vec::new();
        assert(arg_shapes(p@) =~= Seq::empty());
        r.push(Tool::new(
            "store_info",
            "Where the store lives and what is in it.",
            ObjectSchema::new(p),
        ));
        assert(r@.map_values(|t: Tool| shape_of(t)) =~= catalog());
        r
    }
}

} // verus!
