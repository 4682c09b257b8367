//! The lifecycle controller: per-call state model Validating -> Signaling ->
//! {Succeeded, Failed}.  Validation decides whether a signal may be sent at
//! all; the report classifies what the delivery primitive did.

use vstd::prelude::*;
use crate::numbers::{invalid_pid_message, is_numeral_up_to, validate_pid};
use crate::records::ToolOutcome;

verus! {

/// The Validating step of a terminate request.  `Ok` holds exactly when the
/// process id is a numeral an unsigned 32-bit parse accepts, and carries the
/// signal argument to deliver: SIGKILL for a forceful request, SIGTERM for a
/// graceful one.  `Err` is the InvalidFormat failure; no signal is to be
/// sent for it.
pub fn terminate_decision(pid: &str, force: bool) -> (r: Result<String, String>)
    ensures
        r is Ok <==> is_numeral_up_to(pid@, u32::MAX as nat),
        r matches Ok(flag) ==> flag@ == (if force {
            "-9"@
        } else {
            "-15"@
        }),
        r matches Err(m) ==> m@ == "Invalid PID format: "@ + pid@,
{
    match validate_pid(pid) {
        Some(_) => {
            if force {
                Ok(String::from_str("-9"))
            } else {
                Ok(String::from_str("-15"))
            }
        },
        None => Err(invalid_pid_message(pid)),
    }
}

/// Classify the outcome of the signal delivery: success exactly when the
/// delivery primitive reported a success exit status, with the confirmation
/// naming the process id and the action taken; failure carries the
/// underlying diagnostic.  No retry and no escalation happen here.
pub fn termination_report(pid: &str, force: bool, outcome: &ToolOutcome) -> (r: Result<
    String,
    String,
>)
    ensures
        match *outcome {
            ToolOutcome::NotInvoked { message } => r matches Err(m) && m@
                == "Failed to execute kill command: "@ + message@,
            ToolOutcome::Completed { success, stderr, .. } => {
                if success {
                    r matches Ok(m) && m@ == "Process "@ + pid@ + (if force {
                        " force killed successfully"@
                    } else {
                        " gracefully terminated successfully"@
                    })
                } else {
                    r matches Err(m) && m@ == "Failed to "@ + (if force {
                        "force kill"@
                    } else {
                        "gracefully terminate"@
                    }) + " process "@ + pid@ + ": "@ + stderr@
                }
            },
        },
{
    match outcome {
        ToolOutcome::NotInvoked { message } => {
            let mut m = String::from_str("Failed to execute kill command: ");
            m.append(message.as_str());
            Err(m)
        },
        ToolOutcome::Completed { success, stderr, .. } => {
            if *success {
                let mut m = String::from_str("Process ");
                m.append(pid);
                if force {
                    m.append(" force killed successfully");
                } else {
                    m.append(" gracefully terminated successfully");
                }
                Ok(m)
            } else {
                let mut m = String::from_str("Failed to ");
                if force {
                    m.append("force kill");
                } else {
                    m.append("gracefully terminate");
                }
                m.append(" process ");
                m.append(pid);
                m.append(": ");
                m.append(stderr.as_str());
                Err(m)
            }
        },
    }
}

} // verus!
