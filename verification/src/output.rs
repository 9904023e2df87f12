//! The output formats a caller can ask for.  Rendering itself is the
//! caller's concern; the library only hands over records.

use vstd::prelude::*;

verus! {

/// Output format for command results.
#[derive(Debug, Clone, Copy, PartialEq, Eq, Structural)]
pub enum OutputFormat {
    /// Compact JSON output (default)
    Json,
    /// Pretty-printed JSON output
    PrettyJson,
}

} // verus!
