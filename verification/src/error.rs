//! The ways in which assembling a declaration file can fail.

use vstd::prelude::*;

verus! {

/// Why no declaration text was produced.
#[derive(Debug, PartialEq, Eq, Clone, Copy, Structural)]
pub enum AssembleError {
    /// A record line could not be decoded, or holds a record that cannot be
    /// rendered. `record` counts the lines that hold a record, from zero, and names
    /// the first that failed.
    MalformedStream { record: usize },
    /// The pattern matcher refused one of the patterns of the substitution pass.
    PatternRejected,
}

} // verus!
