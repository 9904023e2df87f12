//! The advice shown when a command needs administrator rights.

use vstd::prelude::*;

verus! {

/// Names the way to rerun the tool with administrator rights.
pub fn elevation_suggestion() -> (r: &'static str)
    ensures
        r@ == "Run this command from an elevated Command Prompt or PowerShell (Run as Administrator)"@,
{
    "Run this command from an elevated Command Prompt or PowerShell (Run as Administrator)"
}

} // verus!
