//! Concurrent upload orchestration: splitting discovered files among workers,
//! deciding each worker session's transport commands, and aggregating the
//! outcome of all sessions into one report.
pub mod args;
pub mod orchestrator;
pub mod partition;
pub mod report;
pub mod session;
pub mod task;
pub mod transfer;
