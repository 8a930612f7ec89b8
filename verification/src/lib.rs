//! Verified core of a transcript-log analytics library.
//!
//! The library scans chat-session transcripts stored as JSON-lines files:
//! it extracts displayable messages, accumulates token usage, searches all
//! sessions for a substring, aggregates activity statistics, and parses
//! version-control history correlated with a session's time span.
//!
//! All file and subprocess I/O lives outside this crate; every function here
//! works on plain values (lines of text, directory listings) and is verified.

pub mod context;
pub mod dashboard;
pub mod ext;
pub mod laws;
pub mod message;
pub mod projects;
pub mod search;
pub mod session;
pub mod sums;
pub mod text;
pub mod tree;
