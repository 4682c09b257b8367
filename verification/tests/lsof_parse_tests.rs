// Tests of the port-listing parser: field extraction, deduplication by
// process id, malformed-line tolerance.

use kill_process_lib::parse_lsof_output;

#[test]
fn test_parse_lsof_output_basic() {
    let lsof_output = r#"COMMAND   PID    USER   FD   TYPE             DEVICE SIZE/OFF NODE NAME
node     1234 testuser   20u  IPv4 0x1234567890abcdef      0t0  TCP *:3000 (LISTEN)
"#;

    let result = parse_lsof_output(lsof_output, "3000");

    assert_eq!(result.len(), 1);
    assert_eq!(result[0].pid, "1234");
    assert_eq!(result[0].name, "node");
    assert_eq!(result[0].port, "3000");
}

#[test]
fn test_parse_lsof_output_deduplication() {
    let lsof_output = r#"COMMAND   PID    USER   FD   TYPE             DEVICE SIZE/OFF NODE NAME
node     1234 testuser   20u  IPv4 0x1234567890abcdef      0t0  TCP *:3000 (LISTEN)
node     1234 testuser   21u  IPv6 0x1234567890abcdef      0t0  TCP *:3000 (LISTEN)
"#;

    let result = parse_lsof_output(lsof_output, "3000");

    // Should deduplicate IPv4 and IPv6 entries for the same PID
    assert_eq!(result.len(), 1);
    assert_eq!(result[0].pid, "1234");
    assert_eq!(result[0].name, "node");
}

#[test]
fn test_parse_lsof_output_multiple_processes() {
    let lsof_output = r#"COMMAND   PID    USER   FD   TYPE             DEVICE SIZE/OFF NODE NAME
node     1234 testuser   20u  IPv4 0x1234567890abcdef      0t0  TCP *:3000 (LISTEN)
nginx    5678 www-data   10u  IPv4 0x9876543210fedcba      0t0  TCP *:3000 (LISTEN)
"#;

    let result = parse_lsof_output(lsof_output, "3000");

    assert_eq!(result.len(), 2);

    // First process
    assert_eq!(result[0].pid, "1234");
    assert_eq!(result[0].name, "node");

    // Second process
    assert_eq!(result[1].pid, "5678");
    assert_eq!(result[1].name, "nginx");
}

#[test]
fn test_parse_lsof_output_empty() {
    let lsof_output = "COMMAND   PID    USER   FD   TYPE             DEVICE SIZE/OFF NODE NAME\n";

    let result = parse_lsof_output(lsof_output, "3000");

    assert_eq!(result.len(), 0);
}

#[test]
fn test_parse_lsof_output_malformed_line() {
    let lsof_output = r#"COMMAND   PID    USER   FD   TYPE             DEVICE SIZE/OFF NODE NAME
incomplete
node     1234 testuser   20u  IPv4 0x1234567890abcdef      0t0  TCP *:3000 (LISTEN)
"#;

    let result = parse_lsof_output(lsof_output, "3000");

    // Should skip malformed line and process the valid one
    assert_eq!(result.len(), 1);
    assert_eq!(result[0].pid, "1234");
    assert_eq!(result[0].name, "node");
}

#[test]
fn test_complex_deduplication_scenario() {
    let lsof_output = r#"COMMAND   PID    USER   FD   TYPE             DEVICE SIZE/OFF NODE NAME
ControlCe  830 donny.wu   12u  IPv4 0xe68acf8c27348fbf      0t0  TCP *:5000 (LISTEN)
ControlCe  830 donny.wu   13u  IPv6 0xa99dbc8dfc3f39ec      0t0  TCP *:5000 (LISTEN)
node      1234 testuser   20u  IPv4 0x1234567890abcdef      0t0  TCP *:5000 (LISTEN)
node      1234 testuser   21u  IPv6 0x1234567890abcdef      0t0  TCP *:5000 (LISTEN)
"#;

    let result = parse_lsof_output(lsof_output, "5000");

    // Should have 2 unique processes (ControlCe and node), not 4
    assert_eq!(result.len(), 2);

    // Verify the processes
    let pids: Vec<&String> = result.iter().map(|p| &p.pid).collect();
    assert!(pids.contains(&&"830".to_string()));
    assert!(pids.contains(&&"1234".to_string()));

    // Verify no duplicates
    let mut unique_pids = std::collections::HashSet::new();
    for process in &result {
        assert!(unique_pids.insert(&process.pid), "Duplicate PID found: {}", process.pid);
    }
}

#[test]
fn test_parse_lsof_output_with_special_characters() {
    let lsof_output = r#"COMMAND   PID    USER   FD   TYPE             DEVICE SIZE/OFF NODE NAME
my-app   1234 user.name  20u  IPv4 0x1234567890abcdef      0t0  TCP *:3000 (LISTEN)
"#;

    let result = parse_lsof_output(lsof_output, "3000");

    assert_eq!(result.len(), 1);
    assert_eq!(result[0].pid, "1234");
    assert_eq!(result[0].name, "my-app");
}

#[test]
fn test_parse_lsof_output_large_pid() {
    let lsof_output = r#"COMMAND   PID    USER   FD   TYPE             DEVICE SIZE/OFF NODE NAME
node     999999 testuser   20u  IPv4 0x1234567890abcdef      0t0  TCP *:3000 (LISTEN)
"#;

    let result = parse_lsof_output(lsof_output, "3000");

    assert_eq!(result.len(), 1);
    assert_eq!(result[0].pid, "999999");
    assert_eq!(result[0].name, "node");
}

#[test]
fn test_parse_lsof_output_different_ports() {
    let lsof_output = r#"COMMAND   PID    USER   FD   TYPE             DEVICE SIZE/OFF NODE NAME
node     1234 testuser   20u  IPv4 0x1234567890abcdef      0t0  TCP *:3000 (LISTEN)
nginx    5678 www-data   10u  IPv4 0x9876543210fedcba      0t0  TCP *:8080 (LISTEN)
"#;

    // Test filtering by specific port
    let result_3000 = parse_lsof_output(lsof_output, "3000");
    let result_8080 = parse_lsof_output(lsof_output, "8080");

    // Both should return all processes, but with different port labels
    assert_eq!(result_3000.len(), 2);
    assert_eq!(result_8080.len(), 2);

    // Verify port assignment
    assert_eq!(result_3000[0].port, "3000");
    assert_eq!(result_8080[0].port, "8080");
}

#[test]
fn test_lsof_first_seen_name_retained() {
    // Two address families for one pid: exactly one record, first-seen name kept.
    let lsof_output = "COMMAND   PID    USER   FD   TYPE  DEVICE SIZE/OFF NODE NAME\n\
node     1234 testuser   20u  IPv4 0xabc      0t0  TCP *:3000 (LISTEN)\n\
node     1234 testuser   21u  IPv6 0xabc      0t0  TCP *:3000 (LISTEN)\n";

    let result = parse_lsof_output(lsof_output, "3000");

    assert_eq!(result.len(), 1);
    assert_eq!(result[0].pid, "1234");
    assert_eq!(result[0].name, "node");
    assert_eq!(result[0].port, "3000");
}

#[test]
fn test_lsof_empty_input_no_records() {
    let result = parse_lsof_output("", "3000");
    assert_eq!(result.len(), 0);
}
