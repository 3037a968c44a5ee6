//! A small task tracker: tasks with an identifier, a description and a
//! two-valued status, kept in an ordered store that hands out identifiers.
pub mod task;
pub mod store;
pub mod laws;
