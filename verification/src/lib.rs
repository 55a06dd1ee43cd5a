//! Resumable, crash-safe multipart uploads, built around a durable write-ahead
//! log of committed operations: a pure transition function folds logged
//! operations into the current upload state, and a pure planner decides the
//! next action to attempt, including retry and abort escalation. Everything
//! that touches the remote store or the filesystem stays outside this crate;
//! the library holds the state machine, the planner, the replay fold, the log
//! record codec, and the part-ordering and digest arithmetic, all verified.

pub mod actions;
pub mod orchestrator;
pub mod planner;
pub mod state;
pub mod upload;
pub mod wal;
