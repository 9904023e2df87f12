//! Decision logic of the name-server commands: validation and
//! permission checks before anything runs, classification of the
//! flush command's output, and mapping of underlying failures.

use vstd::prelude::*;
use vstd::string::*;

use crate::errors::ErrorCode;
use crate::errors::ExitCodes;
use crate::errors::NactlError;
use crate::text::contains_seq;
use crate::text::contains_sub;
use crate::text::opt_str_view;
use crate::text::spec_trim;
use crate::text::trim_str;
use crate::validation::ipv6_shape;
use crate::validation::strict_ipv4_shape;
use crate::validation::validate_ip_address;

verus! {

/// A server address the set command accepts.
pub open spec fn acceptable_server(s: Seq<char>) -> bool {
    s.len() > 0 && (strict_ipv4_shape(s) || ipv6_shape(s))
}

/// What a permitted set command will run with: the interface and the
/// validated server addresses.
#[derive(Debug)]
pub struct DnsSetPlan {
    pub interface: String,
    pub primary: String,
    pub secondary: Option<String>,
}

/// The checks that precede setting name servers: both addresses must be
/// well-formed and the caller must hold administrator rights; the
/// interface defaults to the wireless one.
pub fn set(
    primary: &str,
    secondary: Option<&str>,
    interface: Option<&str>,
    elevated: bool,
) -> (r: Result<DnsSetPlan, NactlError>)
    ensures
        r is Ok <==> (acceptable_server(primary@) && (match secondary {
            Some(s) => acceptable_server(s@),
            None => true,
        }) && elevated),
        r matches Ok(plan) ==> {
            &&& plan.interface@ == (match interface {
                Some(i) => i@,
                None => "Wi-Fi"@,
            })
            &&& plan.primary@ == primary@
            &&& opt_str_view(plan.secondary) == (match secondary {
                Some(s) => Some(s@),
                None => None::<Seq<char>>,
            })
        },
        r matches Err(e) ==> (if !acceptable_server(primary@) || (secondary matches Some(s)
            && !acceptable_server(s@)) {
            e.exit_code == ExitCodes::InvalidArguments && e.response.code == ErrorCode::InvalidInput
        } else {
            e.exit_code == ExitCodes::PermissionDenied && e.response.code
                == ErrorCode::PermissionDenied && e.response.message@
                == "Setting DNS servers requires administrator privileges"@
        }),
{
    match validate_ip_address(primary) {
        Err(e) => return Err(e),
        Ok(()) => {},
    }
    if let Some(sec) = secondary {
        match validate_ip_address(sec) {
            Err(e) => return Err(e),
            Ok(()) => {},
        }
    }
    if !elevated {
        return Err(
            NactlError::permission_denied("Setting DNS servers requires administrator privileges"),
        );
    }
    let iface = match interface {
        Some(i) => String::from_str(i),
        None => String::from_str("Wi-Fi"),
    };
    Ok(
        DnsSetPlan {
            interface: iface,
            primary: String::from_str(primary),
            secondary: match secondary {
                Some(s) => Some(String::from_str(s)),
                None => None,
            },
        },
    )
}

/// Maps a failed set or reset onto the reported error: not-found
/// wording means the interface does not exist, anything else passes
/// through.
pub fn set_failure(interface: &str, error: NactlError) -> (r: NactlError)
    ensures
        ({
            if contains_seq(error.response.message@, "not found"@) || contains_seq(
                error.response.message@,
                "does not exist"@,
            ) {
                &&& r.exit_code == ExitCodes::InterfaceNotFound
                &&& r.response.code == ErrorCode::InterfaceNotFound
                &&& r.response.message@ == "Network interface '"@ + interface@ + "' not found"@
            } else {
                r == error
            }
        }),
{
    if contains_sub(error.response.message.as_str(), "not found") || contains_sub(
        error.response.message.as_str(),
        "does not exist",
    ) {
        NactlError::interface_not_found(interface)
    } else {
        error
    }
}

/// The checks that precede resetting name servers to automatic: only
/// administrator rights are needed; the interface defaults to the
/// wireless one.
pub fn reset(interface: Option<&str>, elevated: bool) -> (r: Result<String, NactlError>)
    ensures
        r is Ok <==> elevated,
        r matches Ok(iface) ==> iface@ == (match interface {
            Some(i) => i@,
            None => "Wi-Fi"@,
        }),
        r matches Err(e) ==> {
            &&& e.exit_code == ExitCodes::PermissionDenied
            &&& e.response.code == ErrorCode::PermissionDenied
            &&& e.response.message@ == "Resetting DNS requires administrator privileges"@
        },
{
    if !elevated {
        return Err(
            NactlError::permission_denied("Resetting DNS requires administrator privileges"),
        );
    }
    Ok(
        match interface {
            Some(i) => String::from_str(i),
            None => String::from_str("Wi-Fi"),
        },
    )
}

/// What the flush command reports back.
#[derive(Debug)]
pub struct FlushResponse {
    pub success: bool,
    pub message: String,
}

/// Classifies the flush command's output: success needs a zero exit and
/// the flushed wording; the message reports the outcome, carrying the
/// trimmed output on failure.
pub fn flush_outcome(status_ok: bool, output: &str) -> (r: FlushResponse)
    ensures
        r.success == (status_ok && (contains_seq(output@, "Successfully flushed"@) || contains_seq(
            output@,
            "successfully flushed"@,
        ))),
        r.success ==> r.message@ == "DNS cache flushed successfully"@,
        !r.success ==> r.message@ == "Failed to flush DNS cache: "@ + spec_trim(output@),
{
    let success = status_ok && (contains_sub(output, "Successfully flushed") || contains_sub(
        output,
        "successfully flushed",
    ));
    let message = if success {
        String::from_str("DNS cache flushed successfully")
    } else {
        String::from_str("Failed to flush DNS cache: ").concat(trim_str(output))
    };
    FlushResponse { success, message }
}

/// The exit code a flush outcome maps to.
pub fn flush_exit_code(success: bool) -> (r: ExitCodes)
    ensures
        r == (if success {
            ExitCodes::Success
        } else {
            ExitCodes::GeneralError
        }),
{
    if success {
        ExitCodes::Success
    } else {
        ExitCodes::GeneralError
    }
}

} // verus!
