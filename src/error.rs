//! The engine's error values.
use vstd::prelude::*;

verus! {

/// Why a run or a poll failed; each variant carries what a message needs.
#[derive(Debug)]
pub enum LogError {
    /// A filter setting could not be used: its field name and raw value.
    Config { field: String, raw_value: String },
    /// The requested path does not exist.
    NotFound { path: String },
    /// A file could not be opened, read or decoded.
    Io { path: String },
    /// A directory was reached a second time while walking.
    CycleDetected { path: String },
}

} // verus!
