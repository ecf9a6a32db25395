//! Snapshot testing for command-line programs: compare a command's captured
//! output against literal or pattern fixtures, reporting the first divergence.

pub mod chunk;
pub mod command;
pub mod error;
pub mod text;
pub mod verify;
