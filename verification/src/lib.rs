//! Bulk file renaming via an edited path list.
//!
//! The library holds the verified logic of the tool: command-line argument
//! parsing, rendering and splitting of the newline-delimited path list,
//! resolution of the editor command, positional rename planning, and the
//! bookkeeping of the rename execution phase.  All interaction with the
//! outside world (standard streams, the scratch file, the editor subprocess,
//! the rename system call) is left to the surrounding binary, which feeds
//! plain values into these functions and carries their decisions out.

pub mod args;
pub mod editor;
pub mod error;
pub mod executor;
pub mod lines;
pub mod plan;
pub mod session;
