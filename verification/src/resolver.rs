//! The process resolver: turning the outcome of one introspection call into
//! the result record of a query by port or by name.

use vstd::prelude::*;
use crate::parsers::{
    lsof_records, name_pid_pairs, parse_lsof_output, parse_ps_output, pid_name_pairs, ps_records,
};
use crate::records::{port_result_wf, PortCheckResult, ProcessInfo, ProcessSearchResult,
    ToolOutcome};

verus! {

/// The result of a port query whose port string failed validation: not
/// occupied, no processes, and the validation error.  No tool is invoked for
/// such a port.
pub fn invalid_port_result() -> (r: PortCheckResult)
    ensures
        port_result_wf(r),
        !r.is_occupied,
        r.processes@.len() == 0,
        r.error matches Some(m) && m@ == "Invalid port number"@,
{
    PortCheckResult {
        is_occupied: false,
        processes: Vec::new(),
        error: Some(String::from_str("Invalid port number")),
    }
}

/// Resolve a port query from the outcome of the socket-listing invocation:
/// `is_occupied` holds exactly when the parse yields records; a tool that
/// could not be launched yields an error; a failing exit status is the
/// normal "nothing found" and yields neither records nor an error.
pub fn check_port_outcome(port: &str, outcome: &ToolOutcome) -> (r: PortCheckResult)
    ensures
        port_result_wf(r),
        match *outcome {
            ToolOutcome::NotInvoked { message } => {
                &&& !r.is_occupied
                &&& r.processes@.len() == 0
                &&& r.error matches Some(m) && m@ == "Failed to execute lsof: "@ + message@
            },
            ToolOutcome::Completed { success, stdout, .. } => {
                if success {
                    &&& r.error is None
                    &&& name_pid_pairs(r.processes@) == lsof_records(stdout@)
                    &&& forall|h: int|
                        0 <= h < r.processes@.len() ==> (#[trigger] r.processes@[h]).port@
                            == port@
                    &&& r.is_occupied == (lsof_records(stdout@).len() > 0)
                } else {
                    &&& !r.is_occupied
                    &&& r.processes@.len() == 0
                    &&& r.error is None
                }
            },
        },
{
    match outcome {
        ToolOutcome::NotInvoked { message } => {
            let mut err = String::from_str("Failed to execute lsof: ");
            err.append(message.as_str());
            PortCheckResult { is_occupied: false, processes: Vec::new(), error: Some(err) }
        },
        ToolOutcome::Completed { success, stdout, .. } => {
            if *success {
                let procs = parse_lsof_output(stdout.as_str(), port);
                proof {
                    assert(name_pid_pairs(procs@).len() == procs@.len());
                }
                let occupied = procs.len() > 0;
                PortCheckResult { is_occupied: occupied, processes: procs, error: None }
            } else {
                PortCheckResult { is_occupied: false, processes: Vec::new(), error: None }
            }
        },
    }
}

/// The result of a name query whose search string is empty or blank: an
/// error and no processes.  No tool is invoked for such a name.
pub fn empty_name_result() -> (r: ProcessSearchResult)
    ensures
        r.processes@.len() == 0,
        r.error matches Some(m) && m@ == "Process name cannot be empty"@,
{
    ProcessSearchResult {
        processes: Vec::new(),
        error: Some(String::from_str("Process name cannot be empty")),
    }
}

/// Resolve a name query from the outcome of the process-listing invocation.
/// Unlike the port path, a failing exit status here is an error, since the
/// global listing is expected to succeed.
pub fn search_name_outcome(process_name: &str, outcome: &ToolOutcome) -> (r: ProcessSearchResult)
    ensures
        match *outcome {
            ToolOutcome::NotInvoked { message } => {
                &&& r.processes@.len() == 0
                &&& r.error matches Some(m) && m@ == "Failed to execute ps command: "@ + message@
            },
            ToolOutcome::Completed { success, stdout, stderr } => {
                if success {
                    &&& r.error is None
                    &&& pid_name_pairs(r.processes@) == ps_records(stdout@, process_name@)
                    &&& forall|h: int|
                        0 <= h < r.processes@.len() ==> (#[trigger] r.processes@[h]).port@
                            == "Unknown"@
                } else {
                    &&& r.processes@.len() == 0
                    &&& r.error matches Some(m) && m@ == "Failed to execute ps command: "@
                        + stderr@
                }
            },
        },
{
    match outcome {
        ToolOutcome::NotInvoked { message } => {
            let mut err = String::from_str("Failed to execute ps command: ");
            err.append(message.as_str());
            ProcessSearchResult { processes: Vec::new(), error: Some(err) }
        },
        ToolOutcome::Completed { success, stdout, stderr } => {
            if *success {
                let procs = parse_ps_output(stdout.as_str(), process_name);
                ProcessSearchResult { processes: procs, error: None }
            } else {
                let mut err = String::from_str("Failed to execute ps command: ");
                err.append(stderr.as_str());
                ProcessSearchResult { processes: Vec::new(), error: Some(err) }
            }
        },
    }
}

} // verus!
