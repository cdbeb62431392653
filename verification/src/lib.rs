//! Verified core of a task loop runner for a coding agent: the state file
//! format, the stop-hook decision rules, the task index and the
//! configuration editing done by the admin tool.

pub mod admin;
pub mod candidates;
pub mod config;
pub mod config_text;
pub mod frontmatter;
pub mod history;
pub mod hooks_json;
pub mod listing;
pub mod matching;
pub mod meta;
pub mod numbers;
pub mod order;
pub mod paths;
pub mod rollout;
pub mod state_data;
pub mod stop_hook;
pub mod task_state;
pub mod text;
pub mod timestamps;
pub mod tools;
