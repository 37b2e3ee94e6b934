use vstd::prelude::*;

verus! {

/// The ways an operation on the log can fail.
#[derive(Debug, Clone, Copy, PartialEq, Eq, Structural)]
pub enum LogError {
    /// The requested offset was never assigned, or lies beyond the known range.
    NotFound,
    /// A write would exceed a configured or preallocated bound.
    Capacity,
    /// A length field, index entry or record frame is structurally invalid.
    Corrupt,
    /// An underlying file or mapped-memory operation failed.
    Io,
    /// The log directory is missing or is not a directory.
    Config,
}

} // verus!
