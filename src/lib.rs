//! An event-sourced task tracker: tasks are derived by replaying an
//! append-only log of events.

pub mod archive;
pub mod cli;
pub mod context;
pub mod event;
pub mod index;
pub mod laws;
pub mod query;
pub mod state;
pub mod text;
pub mod time;
pub mod ui;
pub mod validate;
