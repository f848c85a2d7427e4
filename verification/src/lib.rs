//! A fixed-capacity, in-memory directory tree driven by a line-oriented
//! command interpreter.
//!
//! The tree lives in a table of one hundred pre-allocated slots; slots
//! are handed out in rising order and never reused.  A session object,
//! [`shell::Shell`], gathers key strokes into a line buffer, parses each
//! finished line into a command and an argument, and runs one of a fixed
//! set of directory commands against the table, answering with the text
//! to show.  All state changes and all output are specified against the
//! models in [`model`].

pub mod laws;
pub mod model;
pub mod msgs;
pub mod shell;
