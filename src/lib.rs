//! A personal task manager's persistence and query layer: the task entity,
//! its mapping to the rows of a two-table store (tasks and tags), and the
//! filtered reads over that store.

pub mod timestamp;
pub mod task;
pub mod row;
pub mod storage;
pub mod query;
pub mod laws;
