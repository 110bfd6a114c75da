//! A hierarchical task tracker's engine: a forest of tasks stored as one
//! pre-order sequence with a depth per entry, the indices derived from it, and
//! the queries, mutations and roll-ups defined over it.

pub mod app_state;
pub mod controller;
pub mod forest;
pub mod help;
pub mod joiner;
pub mod state;
pub mod laws;
pub mod task;
pub mod task_list;
