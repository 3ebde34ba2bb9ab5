//! Diagnosis and repair of Codex sessions.
//!
//! A session is a rollout file of JSON lines, a line of the session index and a row of the
//! threads table; sessions that were made of one another form a family. The library tells
//! where these disagree and what brings them in order again. It does no input or output: it
//! is handed what was read, and gives back reports, the lines of files, and the steps that
//! are to be taken.
//!
//! * `text`, `json`, `config`, `stamps`, `sorted`, `seqs`: the values that all else is stated
//!   with;
//! * `rollout`, `session_meta`, `continuation`, `session_id`: what rollouts say;
//! * `session_index`, `threads`, `columns`, `rebuild`, `diagnose`: the index and the threads table;
//! * `model`, `prune`, `subagents`, `orphans`, `backfill`: families, and what is left over;
//! * `rollout_copy`, `rollout_fork`, `stable_prefix`, `provider_rewrite`, `lineage`: copies of
//!   rollouts;
//! * `provider`, `provider_sync`, `switch`, `switch_steps`, `switch_report`, `official_fork`,
//!   `batch`, `settled`: bringing sessions to another provider;
//! * `duplicate`, `fork`, `branch_change`, `branch_sync`, `branches`, `rollback`, `steps`,
//!   `snapshot`: operations on sessions and branches;
//! * `effects`, `labels`, `outcomes`, `restored`: what steps do to the sessions, and going back after a switch;
//! * `projects`, `project_config`, `config_edit`: the configuration of projects;
//! * `claude_history`, `gui_title`, `given_title`, `gui_visibility`: the history and the
//!   session list of an assistant.

pub mod backfill;
pub mod batch;
pub mod branch_change;
pub mod branch_sync;
pub mod branches;
pub mod claude_history;
pub mod columns;
pub mod config;
pub mod config_edit;
pub mod continuation;
pub mod diagnose;
pub mod duplicate;
pub mod effects;
pub mod error;
pub mod fork;
pub mod given_title;
pub mod gui_title;
pub mod gui_visibility;
pub mod json;
pub mod labels;
pub mod lineage;
pub mod model;
pub mod official_fork;
pub mod orphans;
pub mod outcomes;
pub mod project_config;
pub mod projects;
pub mod provider;
pub mod provider_rewrite;
pub mod provider_sync;
pub mod prune;
pub mod rebuild;
pub mod restored;
pub mod rollback;
pub mod rollout;
pub mod rollout_copy;
pub mod rollout_fork;
pub mod seqs;
pub mod session_id;
pub mod session_index;
pub mod session_meta;
pub mod settled;
pub mod snapshot;
pub mod sorted;
pub mod stable_prefix;
pub mod stamps;
pub mod steps;
pub mod subagents;
pub mod switch;
pub mod switch_report;
pub mod switch_steps;
pub mod text;
pub mod threads;
