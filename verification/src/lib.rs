//! Verified core of a process/port inspection and lifecycle-control engine.
//!
//! The library parses the tabular text that OS introspection tools print,
//! resolves which processes hold a TCP port or match a name substring,
//! validates port and process-id strings, assembles per-process detail
//! records, and classifies the outcome of a termination request.  All
//! external tool invocations happen outside this crate; the functions here
//! take the captured outcome of such an invocation as a value and are
//! verified for every possible outcome.

pub mod chars;
pub mod detail;
pub mod lifecycle;
pub mod numbers;
pub mod parsers;
pub mod records;
pub mod resolver;
pub mod scan;
pub mod text;

pub use parsers::parse_lsof_output;
pub use parsers::parse_ps_output;
pub use records::PortCheckResult;
pub use records::ProcessDetail;
pub use records::ProcessInfo;
pub use records::ProcessSearchResult;
pub use records::ToolOutcome;
