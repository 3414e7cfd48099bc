//! A task engine: boards, lists, tasks and recorded focus sessions, with the
//! capture grammar, calendar arithmetic, queries and statistics over them.

pub mod text;
pub mod dates;
pub mod model;
pub mod error;
pub mod capture;
pub mod sorting;
pub mod store;
pub mod changes;
pub mod log;
pub mod bulk;
pub mod persist;
pub mod update;
pub mod matrix;
pub mod stats;
pub mod query;
pub mod team;
pub mod busylight;
pub mod nudge;
pub mod timer;
pub mod clock;
pub mod git_sync;
pub mod knowledge;
pub mod edit;
pub mod mcp;
pub mod tools;
pub mod catalog;
pub mod cli;
pub mod rpc;
