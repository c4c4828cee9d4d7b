//! The ways a build can fail.

use vstd::prelude::*;

verus! {

/// Why a path handed to the tool was turned down.
#[derive(Debug, Clone, Copy, PartialEq, Eq, Structural)]
pub enum InputProblem {
    /// Nothing exists at the path.
    NotFound,
    /// The path names something that is not a directory.
    NotADirectory,
    /// The path names something that is not a regular file.
    NotAFile,
    /// The file name has no extension.
    MissingExtension,
    /// The file name has an extension other than the container's.
    WrongExtension,
}

/// Every failure aborts the rebuild it occurred in; none is retried.
#[derive(Debug, PartialEq, Eq)]
pub enum BuildError {
    /// A path has the wrong kind or does not exist.
    InvalidInput { problem: InputProblem },
    /// The source directory holds no fragment.
    NoSourcesFound,
    /// The file at `path` could not be read.
    ReadFailure { path: Vec<u8> },
    /// The container lacks a section marker that the format requires.
    MalformedContainer,
    /// More than one container file could be the output.
    AmbiguousOutput,
    /// The new container content could not be written.
    WriteFailure,
}

} // verus!
