//! A library for managing named identity profiles for a version-control
//! tool: a store of profiles persisted as a JSON document, and the pure
//! decision logic behind each command of the accompanying command-line
//! front end.

pub mod chars;
pub mod commands;
pub mod json;
pub mod profile;
pub mod store;
