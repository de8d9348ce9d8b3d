//! Swarms: sets of tasks with dependencies that sub-agents work on in parallel.

pub mod input;
pub mod laws;
pub mod model;
pub mod outcome;
pub mod run;
pub mod store;
pub mod task;
pub mod tools;
pub mod types;
pub mod validate;
