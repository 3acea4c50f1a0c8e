//! A small ordered task backlog with an archive of completed tasks, and the
//! interactive session that reorders and edits the open list.

pub mod ops;
pub mod session;
pub mod tags;
pub mod task;
pub mod text;
pub mod trusted;
