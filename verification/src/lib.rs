//! A small to-do list library: tasks with an id, a text, a priority and tags,
//! and the operations of a command-line task manager over a list of them.
pub mod text;
pub mod timestamp;
pub mod todo;
pub mod store;
pub mod query;
pub mod laws;
