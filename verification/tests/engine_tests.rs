// Tests of the resolver and the detail enricher: outcome classification,
// the occupied invariant, graceful degradation of optional fields, and the
// secondary port lookup.

use kill_process_lib::detail::{apply_port_lookup, assemble_detail, parse_port_list};
use kill_process_lib::resolver::{
    check_port_outcome, empty_name_result, invalid_port_result, search_name_outcome,
};
use kill_process_lib::scan::str_is_blank;
use kill_process_lib::ToolOutcome;

fn completed(success: bool, stdout: &str, stderr: &str) -> ToolOutcome {
    ToolOutcome::Completed {
        success,
        stdout: stdout.to_string(),
        stderr: stderr.to_string(),
    }
}

#[test]
fn test_invalid_port_result_fields() {
    let r = invalid_port_result();
    assert!(!r.is_occupied);
    assert_eq!(r.processes.len(), 0);
    assert_eq!(r.error.unwrap(), "Invalid port number");
}

#[test]
fn test_check_port_occupied_iff_processes() {
    let hit = completed(
        true,
        "COMMAND   PID    USER   FD   TYPE  DEVICE SIZE/OFF NODE NAME\n\
         node     1234 testuser   20u  IPv4 0xabc      0t0  TCP *:3000 (LISTEN)\n",
        "",
    );
    let r = check_port_outcome("3000", &hit);
    assert!(r.is_occupied);
    assert_eq!(r.processes.len(), 1);
    assert_eq!(r.processes[0].pid, "1234");
    assert_eq!(r.processes[0].port, "3000");
    assert!(r.error.is_none());

    let empty = completed(true, "COMMAND   PID    USER\n", "");
    let r = check_port_outcome("3000", &empty);
    assert!(!r.is_occupied);
    assert_eq!(r.processes.len(), 0);
    assert!(r.error.is_none());
}

#[test]
fn test_check_port_nonzero_exit_is_not_occupied() {
    // lsof exits non-zero for "nothing found": no records, and no error.
    let miss = completed(false, "", "");
    let r = check_port_outcome("3000", &miss);
    assert!(!r.is_occupied);
    assert_eq!(r.processes.len(), 0);
    assert!(r.error.is_none());
}

#[test]
fn test_check_port_invocation_failure_is_error() {
    let gone = ToolOutcome::NotInvoked { message: "command not found".to_string() };
    let r = check_port_outcome("3000", &gone);
    assert!(!r.is_occupied);
    assert_eq!(r.processes.len(), 0);
    assert_eq!(r.error.unwrap(), "Failed to execute lsof: command not found");
}

#[test]
fn test_empty_name_result_fields() {
    let r = empty_name_result();
    assert_eq!(r.processes.len(), 0);
    assert_eq!(r.error.unwrap(), "Process name cannot be empty");
    assert!(str_is_blank(""));
    assert!(str_is_blank("   "));
    assert!(str_is_blank("\u{a0}\u{2003}\t"));
    assert!(!str_is_blank(" node "));
}

#[test]
fn test_search_name_outcome_success() {
    let listing = completed(true, "  1234 nodejs\n  5678 node-server\n  9999 chrome", "");
    let r = search_name_outcome("node", &listing);
    assert!(r.error.is_none());
    assert_eq!(r.processes.len(), 2);
    assert_eq!(r.processes[0].pid, "1234");
    assert_eq!(r.processes[1].pid, "5678");
    assert_eq!(r.processes[0].port, "Unknown");
}

#[test]
fn test_search_name_outcome_failures_are_errors() {
    // For the name path a non-success exit is an error, unlike the port path.
    let failed = completed(false, "", "permission denied");
    let r = search_name_outcome("node", &failed);
    assert_eq!(r.processes.len(), 0);
    assert_eq!(r.error.unwrap(), "Failed to execute ps command: permission denied");

    let gone = ToolOutcome::NotInvoked { message: "command not found".to_string() };
    let r = search_name_outcome("node", &gone);
    assert_eq!(r.processes.len(), 0);
    assert_eq!(r.error.unwrap(), "Failed to execute ps command: command not found");
}

#[test]
fn test_assemble_detail_full_record() {
    let basic = completed(true, " 1234 node testuser /usr/bin/node app.js --port 3000\n", "");
    let resource = completed(true, " 1234 5.2 1.3\n", "");
    let time = completed(true, " 1234 Mon Jan 15 10:30:45 2024\n", "");

    let d = assemble_detail("1234", &basic, &resource, &time).unwrap();
    assert_eq!(d.pid, "1234");
    assert_eq!(d.name, "node");
    assert_eq!(d.user.unwrap(), "testuser");
    assert_eq!(d.command.unwrap(), "/usr/bin/node app.js --port 3000");
    assert_eq!(d.cpu_usage.unwrap(), "5.2%");
    assert_eq!(d.memory_usage.unwrap(), "1.3%");
    assert_eq!(d.start_time.unwrap(), "Mon Jan 15 10:30:45 2024");
    assert_eq!(d.port, "Unknown");
}

#[test]
fn test_assemble_detail_resource_short_degrades() {
    // The resource sub-query came back without its fields: the optional
    // fields stay absent, the call still succeeds on the identity fields.
    let basic = completed(true, " 1234 node testuser /usr/bin/node\n", "");
    let resource = completed(true, "", "");
    let time = completed(true, "", "");

    let d = assemble_detail("1234", &basic, &resource, &time).unwrap();
    assert_eq!(d.pid, "1234");
    assert_eq!(d.name, "node");
    assert!(d.cpu_usage.is_none());
    assert!(d.memory_usage.is_none());
    assert!(d.start_time.is_none());
}

#[test]
fn test_assemble_detail_identity_short_fails() {
    let basic = completed(true, " 1234 node\n", "");
    let resource = completed(true, " 1234 5.2 1.3\n", "");
    let time = completed(true, " 1234 Mon Jan 15\n", "");

    let e = assemble_detail("1234", &basic, &resource, &time).unwrap_err();
    assert_eq!(e, "Unable to parse basic process info");
}

#[test]
fn test_assemble_detail_status_failures() {
    let good_identity = completed(true, " 1234 node testuser /usr/bin/node\n", "");
    let good_time = completed(true, " 1234 Mon Jan 15 10:30:45 2024\n", "");
    let bad_status = completed(false, "", "");
    let gone = ToolOutcome::NotInvoked { message: "command not found".to_string() };

    // Only the identity sub-query is load-bearing.
    let e = assemble_detail("1234", &bad_status, &good_time, &good_time).unwrap_err();
    assert_eq!(e, "Failed to get process information for PID: 1234");

    let e = assemble_detail("1234", &gone, &good_time, &good_time).unwrap_err();
    assert_eq!(e, "Failed to execute ps commands");

    // A resource or time sub-query that failed degrades to absent fields.
    let d = assemble_detail("1234", &good_identity, &bad_status, &gone).unwrap();
    assert_eq!(d.pid, "1234");
    assert_eq!(d.name, "node");
    assert!(d.cpu_usage.is_none());
    assert!(d.memory_usage.is_none());
    assert!(d.start_time.is_none());

    // A succeeding time sub-query still fills its field alongside them.
    let d = assemble_detail("1234", &good_identity, &gone, &good_time).unwrap();
    assert!(d.cpu_usage.is_none());
    assert!(d.memory_usage.is_none());
    assert_eq!(d.start_time.unwrap(), "Mon Jan 15 10:30:45 2024");
}

#[test]
fn test_parse_port_list_distinct_ports_joined() {
    let listing = "COMMAND   PID  USER   FD   TYPE  DEVICE SIZE/OFF NODE NAME\n\
node     1234 user   20u  IPv4 0xabc      0t0  TCP *:3000\n\
node     1234 user   21u  IPv6 0xabc      0t0  TCP *:3000\n\
node     1234 user   22u  IPv4 0xdef      0t0  TCP 127.0.0.1:8080\n";
    assert_eq!(parse_port_list(listing).unwrap(), "3000, 8080");
}

#[test]
fn test_parse_port_list_renders_ports_canonically() {
    // A zero-padded port is reported in canonical decimal form.
    let listing = "COMMAND   PID  USER   FD   TYPE  DEVICE SIZE/OFF NODE NAME\n\
node     1234 user   20u  IPv4 0xabc      0t0  TCP 127.0.0.1:0080\n";
    assert_eq!(parse_port_list(listing).unwrap(), "80");
}

#[test]
fn test_parse_port_list_ignores_non_numeric_suffixes() {
    let listing = "COMMAND   PID  USER   FD   TYPE  DEVICE SIZE/OFF NODE NAME\n\
node     1234 user   20u  IPv4 0xabc      0t0  TCP *:https\n\
node     1234 user   21u  IPv4 0xabc      0t0  TCP nothing-here\n";
    assert!(parse_port_list(listing).is_none());
}

#[test]
fn test_apply_port_lookup_sets_or_keeps_port() {
    let mut d = kill_process_lib::ProcessDetail {
        pid: "1234".to_string(),
        name: "node".to_string(),
        port: "Unknown".to_string(),
        user: None,
        command: None,
        cpu_usage: None,
        memory_usage: None,
        start_time: None,
    };
    let listing = completed(
        true,
        "COMMAND   PID  USER   FD   TYPE  DEVICE SIZE/OFF NODE NAME\n\
         node     1234 user   20u  IPv4 0xabc      0t0  TCP *:3000\n",
        "",
    );
    apply_port_lookup(&mut d, &listing);
    assert_eq!(d.port, "3000");

    // A failing lookup silently leaves the port as it was.
    let mut d2 = kill_process_lib::ProcessDetail {
        pid: "1234".to_string(),
        name: "node".to_string(),
        port: "Unknown".to_string(),
        user: None,
        command: None,
        cpu_usage: None,
        memory_usage: None,
        start_time: None,
    };
    apply_port_lookup(&mut d2, &completed(false, "", ""));
    assert_eq!(d2.port, "Unknown");
}
