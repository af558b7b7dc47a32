//! Core logic of a tray-resident quick launcher.
//!
//! The launcher keeps a single flat base directory of launchable entries.
//! Typing a query lists the entries whose name contains the query as a
//! substring; selecting one spawns the platform shell command that opens it.
//! This crate holds the verified part of that behaviour: the substring
//! filter over a directory scan, and the construction and interpretation of
//! the launch command. Reading the directory and spawning the process are
//! left to the surrounding application, which hands their outcomes to this
//! crate as plain values.

pub mod config;
pub mod error;
pub mod launch;
pub mod search;
