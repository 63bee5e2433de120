//! A personal to-do list: tasks with increasing ids, toggled, removed after confirmation,
//! purged, and listed in a fixed-width layout.

pub mod task;
pub mod store;
pub mod confirm;
pub mod listing;
