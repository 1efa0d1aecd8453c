//! A task store for a personal to-do list.
//!
//! Tasks carry a description, tags and an optional due date. The store numbers
//! them, and lets them be created, completed, edited, deleted and searched in
//! memory. Every operation is stated over a mathematical model of the store and
//! proved against it; [`laws`] holds what follows for every store that the
//! operations can reach.
//!
//! - [`store`]: the store, its model and its operations.
//! - [`task`]: a task, its display status and the search rule.
//! - [`tags`]: the normal form of tags and the reading of a tag list.
//! - [`date`]: calendar dates and the reading of a due date.
//! - [`text`]: trimming, lowercasing, splitting and substring search.
//! - [`command`]: the entries of the menu.
//! - [`laws`]: laws that relate several operations.

pub mod command;
pub mod date;
pub mod laws;
pub mod store;
pub mod tags;
pub mod task;
pub mod text;

pub use crate::command::Command;
pub use crate::date::Date;
pub use crate::store::TaskManager;
pub use crate::task::{Status, Task};
