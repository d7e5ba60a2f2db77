//! A terminal notes browser over a directory of `.md`/`.txt` files: the
//! verified core of note paths, markdown preview lines, search, reminders and
//! the key-driven application state.

pub mod app;
pub mod cli;
pub mod content;
pub mod date;
pub mod fs_ops;
pub mod fuzzy;
pub mod md;
pub mod models;
pub mod notes;
pub mod paths;
pub mod store;
pub mod text;
