//! A to-do list kept in a flat text file, one task per line.
//!
//! The library is the pure part of the tool: tasks and their line format,
//! the three mutations of a list, the text that is persisted, the reading of
//! that text, and the decision of what one invocation prints and writes.

pub mod command;
pub mod store;
pub mod task;
pub mod text;
