//! The decisions of a launcher for scientific applications: what a
//! configuration lists, what is hidden behind a password, what a search finds,
//! which launch is made, held back or refused, how a process is started, and
//! what is reported of it.
//!
//! The window, the files and the processes are not part of this library: it
//! takes what was read and what happened as plain values, and gives back what
//! to show and what to do.

pub mod browser;
pub mod clock;
pub mod config;
pub mod frame;
pub mod launch;
pub mod laws;
pub mod laws_launch;
pub mod laws_records;
pub mod laws_screen;
pub mod laws_text;
pub mod listing;
pub mod panel;
pub mod paths;
pub mod prefs;
pub mod preview;
pub mod recent;
pub mod requests;
pub mod shell;
pub mod state;
pub mod text;
pub mod theme;
pub mod unlock;
pub mod upkeep;
pub mod usage;
pub mod watch;
pub mod zoom;
