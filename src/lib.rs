//! A personal to-do list: pending and done tasks, with a line-oriented
//! text format to save and restore them.
//!
//! - [`task`]: a task, a title and a description; tasks are equal when their
//!   titles are.
//! - [`list`]: the list itself, with adding, completing, removing, clearing
//!   and a human-readable listing.
//! - [`save_text`]: the save format, writing and reading it, and the law
//!   that reading a saved list gives it back.
pub mod task;
pub mod list;
pub mod save_text;
