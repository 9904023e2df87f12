//! Decision logic of the stack reset command: the reset level is
//! checked and normalized, administrator rights are required, and the
//! outcome message depends on whether every action succeeded.

use vstd::prelude::*;
use vstd::string::*;

use crate::errors::ErrorCode;
use crate::errors::ExitCodes;
use crate::errors::NactlError;
use crate::text::eq_str_ci;
use crate::text::seq_eq_ci;

verus! {

/// What a permitted reset will do: the normalized level, and whether it
/// is the hard reset that requires a reboot afterwards.
#[derive(Debug)]
pub struct StackResetPlan {
    pub level: String,
    pub hard: bool,
    pub reboot_required: bool,
}

/// The checks that precede a stack reset: the level must read `soft` or
/// `hard` in any case, and the caller must hold administrator rights.
pub fn reset(level: &str, elevated: bool) -> (r: Result<StackResetPlan, NactlError>)
    ensures
        r is Ok <==> ((seq_eq_ci(level@, "soft"@) || seq_eq_ci(level@, "hard"@)) && elevated),
        r matches Ok(plan) ==> {
            &&& plan.hard == seq_eq_ci(level@, "hard"@)
            &&& plan.reboot_required == plan.hard
            &&& plan.level@ == (if plan.hard {
                "hard"@
            } else {
                "soft"@
            })
        },
        r matches Err(e) ==> (if !(seq_eq_ci(level@, "soft"@) || seq_eq_ci(level@, "hard"@)) {
            &&& e.exit_code == ExitCodes::InvalidArguments
            &&& e.response.code == ErrorCode::InvalidArguments
            &&& e.response.message@ == "Level must be 'soft' or 'hard'"@
        } else {
            &&& e.exit_code == ExitCodes::PermissionDenied
            &&& e.response.code == ErrorCode::PermissionDenied
            &&& e.response.message@ == "Network stack reset requires administrator privileges"@
        }),
{
    let soft = eq_str_ci(level, "soft");
    let hard = eq_str_ci(level, "hard");
    if !soft && !hard {
        return Err(NactlError::invalid_arguments("Level must be 'soft' or 'hard'"));
    }
    if !elevated {
        return Err(
            NactlError::permission_denied("Network stack reset requires administrator privileges"),
        );
    }
    if hard {
        Ok(
            StackResetPlan {
                level: String::from_str("hard"),
                hard: true,
                reboot_required: true,
            },
        )
    } else {
        Ok(
            StackResetPlan {
                level: String::from_str("soft"),
                hard: false,
                reboot_required: false,
            },
        )
    }
}

/// The message a finished reset reports: whether every action went
/// through cleanly.
pub fn reset_message(success: bool) -> (r: &'static str)
    ensures
        r@ == (if success {
            "Network stack reset complete"@
        } else {
            "Network stack reset completed with some errors"@
        }),
{
    if success {
        "Network stack reset complete"
    } else {
        "Network stack reset completed with some errors"
    }
}

} // verus!
