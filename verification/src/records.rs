//! The record types the engine produces, and the captured outcome of one
//! external tool invocation.

use vstd::prelude::*;

verus! {

/// One process bound to a port (or matched by name): its id and name as the
/// tool printed them, and the port label of the query ("Unknown" where the
/// query carries no port).
#[derive(Debug)]
pub struct ProcessInfo {
    pub pid: String,
    pub name: String,
    pub port: String,
}

/// Enriched single-process record.  Optional fields stay absent when their
/// sub-query failed or its output came up short; they are never fabricated.
#[derive(Debug)]
pub struct ProcessDetail {
    pub pid: String,
    pub name: String,
    pub port: String,
    pub user: Option<String>,
    pub command: Option<String>,
    pub cpu_usage: Option<String>,
    pub memory_usage: Option<String>,
    pub start_time: Option<String>,
}

/// Result of a query by port.  `is_occupied` holds exactly when the process
/// list is non-empty; `error` is set only when the introspection tool could
/// not be invoked, never for zero matches.
#[derive(Debug)]
pub struct PortCheckResult {
    pub is_occupied: bool,
    pub processes: Vec<ProcessInfo>,
    pub error: Option<String>,
}

/// Result of a query by name; the port of every record is "Unknown".
#[derive(Debug)]
pub struct ProcessSearchResult {
    pub processes: Vec<ProcessInfo>,
    pub error: Option<String>,
}

/// The observable outcome of one external tool invocation: either the tool
/// could not be launched at all, or it ran to completion with an exit status
/// and captured output.
#[derive(Debug)]
pub enum ToolOutcome {
    NotInvoked { message: String },
    Completed { success: bool, stdout: String, stderr: String },
}

/// The invariant every reachable `PortCheckResult` satisfies.
pub open spec fn port_result_wf(r: PortCheckResult) -> bool {
    r.is_occupied == (r.processes@.len() > 0)
}

/// The tool was launched at all.
pub open spec fn invoked(o: ToolOutcome) -> bool {
    o is Completed
}

/// The tool was launched and reported a success exit status.
pub open spec fn succeeded(o: ToolOutcome) -> bool {
    match o {
        ToolOutcome::Completed { success, .. } => success,
        ToolOutcome::NotInvoked { .. } => false,
    }
}

/// The captured standard output of a completed invocation.
pub open spec fn out_text(o: ToolOutcome) -> Seq<char> {
    match o {
        ToolOutcome::Completed { stdout, .. } => stdout@,
        ToolOutcome::NotInvoked { .. } => Seq::empty(),
    }
}

/// The diagnostic of a failure: the launch error, or the captured standard
/// error of a completed invocation.
pub open spec fn err_text(o: ToolOutcome) -> Seq<char> {
    match o {
        ToolOutcome::Completed { stderr, .. } => stderr@,
        ToolOutcome::NotInvoked { message } => message@,
    }
}

} // verus!
