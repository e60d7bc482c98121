//! A local embedded data store for a task-management application, with
//! versioned, idempotent schema migrations.
//!
//! The store keeps five relational tables (lists, tasks, subtasks, summaries
//! and key-value settings) as plain rows, enforces their referential
//! integrity (deleting a list soft-orphans its tasks; deleting a task
//! cascades to its subtasks), and brings a store at any prior schema version
//! to the current one through an ordered registry of migration steps, each
//! applied atomically.

pub mod engine;
pub mod registry;
pub mod rows;
pub mod store;
