//! Classification of failed configuration-tool output: maps the
//! combined output of a failed invocation onto the error the caller
//! reports, by wording, in a fixed priority order.

use vstd::prelude::*;
use vstd::string::*;

use crate::errors::ErrorCode;
use crate::errors::ExitCodes;
use crate::errors::NactlError;
use crate::text::contains_ci;
use crate::text::contains_sub_ci;
use crate::text::spec_trim;
use crate::text::trim_str;

verus! {

/// Wording that means the invocation lacked administrator rights.
pub open spec fn netsh_permission_wording(c: Seq<char>) -> bool {
    contains_ci(c, "requires elevation"@) || contains_ci(c, "access is denied"@) || contains_ci(
        c,
        "run as administrator"@,
    ) || contains_ci(c, "elevated permissions"@)
}

/// Wording that means a named object was not found.
pub open spec fn netsh_not_found_wording(c: Seq<char>) -> bool {
    contains_ci(c, "is not found"@) || contains_ci(c, "does not exist"@) || contains_ci(
        c,
        "not found"@,
    )
}

/// Wording that means the wireless configuration service is down.
pub open spec fn netsh_service_wording(c: Seq<char>) -> bool {
    contains_ci(c, "wireless autoconfig"@) || contains_ci(c, "wlan autoconfig"@) || contains_ci(
        c,
        "service is not running"@,
    )
}

/// Wording that means no wireless interface exists.
pub open spec fn netsh_no_wireless_wording(c: Seq<char>) -> bool {
    contains_ci(c, "no wireless interface"@) || contains_ci(c, "wireless lan interface"@)
}

/// Classifies the combined output of a failed configuration-tool run,
/// checking for permission wording first, then a missing object, then
/// the wireless service, then a missing wireless interface; anything
/// else is a plain command failure carrying the trimmed output.
pub fn classify_netsh_failure(combined: &str) -> (r: NactlError)
    ensures
        ({
            let c = combined@;
            if netsh_permission_wording(c) {
                &&& r.exit_code == ExitCodes::PermissionDenied
                &&& r.response.code == ErrorCode::PermissionDenied
                &&& r.response.message@ == "This operation requires administrator privileges"@
            } else if netsh_not_found_wording(c) {
                &&& r.exit_code == ExitCodes::GeneralError
                &&& r.response.code == ErrorCode::GeneralError
                &&& r.response.message@ == spec_trim(c)
            } else if netsh_service_wording(c) {
                &&& r.exit_code == ExitCodes::NotAvailable
                &&& r.response.code == ErrorCode::NotAvailable
                &&& r.response.message@
                    == "The Wireless AutoConfig Service is not running. Start it with: net start WlanSvc"@
            } else if netsh_no_wireless_wording(c) {
                &&& r.exit_code == ExitCodes::InterfaceNotFound
                &&& r.response.code == ErrorCode::InterfaceNotFound
                &&& r.response.message@ == "Network interface '"@ + "Wi-Fi"@ + "' not found"@
            } else {
                &&& r.exit_code == ExitCodes::GeneralError
                &&& r.response.code == ErrorCode::CommandFailed
                &&& r.response.message@ == "netsh command failed: "@ + spec_trim(c)
            }
        }),
{
    if contains_sub_ci(combined, "requires elevation") || contains_sub_ci(
        combined,
        "access is denied",
    ) || contains_sub_ci(combined, "run as administrator") || contains_sub_ci(
        combined,
        "elevated permissions",
    ) {
        return NactlError::permission_denied("This operation requires administrator privileges");
    }
    if contains_sub_ci(combined, "is not found") || contains_sub_ci(combined, "does not exist")
        || contains_sub_ci(combined, "not found") {
        return NactlError::general_error(trim_str(combined));
    }
    if contains_sub_ci(combined, "wireless autoconfig") || contains_sub_ci(
        combined,
        "wlan autoconfig",
    ) || contains_sub_ci(combined, "service is not running") {
        return NactlError::not_available(
            "The Wireless AutoConfig Service is not running. Start it with: net start WlanSvc",
        );
    }
    if contains_sub_ci(combined, "no wireless interface") || contains_sub_ci(
        combined,
        "wireless lan interface",
    ) {
        return NactlError::interface_not_found("Wi-Fi");
    }
    let msg = String::from_str("netsh command failed: ").concat(trim_str(combined));
    NactlError::command_failed(msg.as_str())
}

} // verus!
