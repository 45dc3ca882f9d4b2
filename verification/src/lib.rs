//! Library core of a keyboard-driven man page browser: fuzzy search over the
//! installed commands, a page viewer with in-page search, history, favorites
//! and themes, all as a state machine that a terminal front end drives.
pub mod app;
pub mod cache;
pub mod colorize;
pub mod config;
pub mod man;
pub mod search;
pub mod text;
