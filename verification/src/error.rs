use vstd::prelude::*;

verus! {

/// The failure kinds of the renaming pipeline.
///
/// Every kind is terminal: the run stops, nothing is retried.  I/O failures
/// (stream, scratch file, process spawn, rename) arise only at the edges of
/// the program, outside this library, and are reported there.
#[derive(Debug, PartialEq, Eq)]
pub enum Error {
    /// A command-line flag that the tool does not recognize; holds the flag
    /// as it was given.
    UnknownOption(String),
    /// The edited list's line count differs from the source list's count.
    InvalidFileList,
    /// The editor subprocess exited with a non-zero status.
    Editor,
}

} // verus!
