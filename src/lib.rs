//! A single-user task list: an ordered store of tasks, their one-line
//! rendering, and the line-oriented text format they are saved in.
pub mod tasks;
pub mod laws;
pub mod menu;
