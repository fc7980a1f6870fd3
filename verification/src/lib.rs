//! Verified core of a browser-hosted Helix: an in-memory virtual
//! filesystem with a driver registry, a single-threaded channel, the ANSI
//! terminal encoder, the keyboard translation used by the web front end,
//! the grammar ABI check and cache, the terminal and picker decisions, and
//! the timer arithmetic of the browser build.

pub mod types;
pub mod path;
pub mod sort;
pub mod memory;
pub mod walk;
pub mod registry;
pub mod laws;
pub mod channel;
pub mod keys;
pub mod ansi;
pub mod grammar;
pub mod term;
pub mod time;
