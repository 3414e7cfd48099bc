# int_tasks

A task engine with its behaviour proved: boards, lists and tasks kept in an
append-only log, recorded focus sessions, the capture convention for typed
lines, calendar arithmetic, Today and search, the impact/effort matrix,
streaks and statistics, team views, the tool surface an AI agent uses, and
the decisions behind Git sync, the focus timer, the busy light and the idle
reminder.

## Layout

- `src/` — the library, verified with Verus. Every public function states
  what it returns or changes in `requires`/`ensures` over mathematical models
  (`Seq`, `Map`, views of each type).
  - `text`, `dates`, `sorting` — characters, the civil calendar, stable sorts.
  - `model`, `store`, `changes`, `edit`, `bulk` — the data and every change to it.
  - `log`, `persist`, `update` — the task log (replay, what a change appends,
    compaction), the store as its files hold it, and the general change.
  - `capture`, `query`, `matrix`, `stats`, `team` — reading lines, Today and
    search, the matrix, streaks and the trend, team reports.
  - `mcp`, `rpc`, `tools`, `catalog`, `cli` — the agent-facing server:
    arguments, routing, every tool and the list a client sees, and the
    command line.
  - `git_sync`, `knowledge`, `timer`, `busylight`, `nudge`, `clock` — the
    desktop app's decisions, each a step from state and answer to the next
    action.
- `tests/` — the test suite, run against the compiled library.
- `app/` — the stdio MCP server: process, files, JSON and `git`, around the
  library. The desktop shell (window, tray, notifications, the serial port)
  is not part of this crate; what it decides is in `src/`.
