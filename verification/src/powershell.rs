//! Classification of failed script-host output: failed invocations are
//! reported either as a permissions problem or as a plain command
//! failure carrying the trimmed output.

use vstd::prelude::*;
use vstd::string::*;

use crate::errors::ErrorCode;
use crate::errors::ExitCodes;
use crate::errors::NactlError;
use crate::text::contains_seq;
use crate::text::contains_sub;
use crate::text::spec_trim;
use crate::text::trim_str;

verus! {

/// Wording that means the script lacked administrator rights; matched
/// with case, as the script host prints it.
pub open spec fn powershell_permission_wording(c: Seq<char>) -> bool {
    contains_seq(c, "Access is denied"@) || contains_seq(c, "requires elevation"@) || contains_seq(
        c,
        "Administrator"@,
    )
}

/// Classifies the combined output of a failed script-host run.
pub fn classify_powershell_failure(combined: &str) -> (r: NactlError)
    ensures
        ({
            let c = combined@;
            if powershell_permission_wording(c) {
                &&& r.exit_code == ExitCodes::PermissionDenied
                &&& r.response.code == ErrorCode::PermissionDenied
                &&& r.response.message@ == "This operation requires administrator privileges"@
            } else {
                &&& r.exit_code == ExitCodes::GeneralError
                &&& r.response.code == ErrorCode::CommandFailed
                &&& r.response.message@ == "PowerShell command failed: "@ + spec_trim(c)
            }
        }),
{
    if contains_sub(combined, "Access is denied") || contains_sub(combined, "requires elevation")
        || contains_sub(combined, "Administrator") {
        return NactlError::permission_denied("This operation requires administrator privileges");
    }
    let msg = String::from_str("PowerShell command failed: ").concat(trim_str(combined));
    NactlError::command_failed(msg.as_str())
}

} // verus!
