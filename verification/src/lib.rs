//! Verified core of a log-capture and query tool.
//!
//! A background capture task appends decoded chunks of an external
//! process's output to a growing [`buffer::LogBuffer`]; an interactive
//! command loop parses each input line into an [`action::Action`] and
//! executes it against the buffer: substring search, reporting of
//! not-yet-seen failure lines, and saving a snapshot.  All text logic is
//! verified here; process, thread and file plumbing lives outside.

pub mod action;
pub mod buffer;
pub mod capture;
pub mod commands;
pub mod config;
pub mod text;
