// Tests of process-id validation and the termination decision/report.

use kill_process_lib::lifecycle::{terminate_decision, termination_report};
use kill_process_lib::numbers::{validate_pid, validate_port};
use kill_process_lib::ToolOutcome;

#[test]
fn test_kill_process_with_signal_validation() {
    // Test invalid PID formats
    let invalid_pids = vec!["abc", "", "12.34", "not_a_number"];

    for invalid_pid in invalid_pids {
        let result = terminate_decision(invalid_pid, true);
        assert!(result.is_err());
        assert!(result.unwrap_err().contains("Invalid PID format"));
    }
}

#[test]
fn test_valid_pid_format() {
    let valid_pids = vec!["123", "1", "65535"];

    for valid_pid in valid_pids {
        // Just test that validation doesn't fail - no process is signalled in tests
        assert!(validate_pid(valid_pid).is_some());
    }
}

#[test]
fn test_kill_process_boundary_pids() {
    // Test minimum and maximum valid PIDs
    let valid_edge_pids = vec!["1", "32767", "65535"];

    for pid in valid_edge_pids {
        // Just test that validation doesn't fail - no process is signalled
        assert!(validate_pid(pid).is_some());
    }
}

#[test]
fn test_kill_process_invalid_formats() {
    let invalid_formats = vec![
        "0",           // Zero PID
        "-1",          // Negative
        "1.5",         // Decimal
        "1e5",         // Scientific notation
        "pid123",      // Text prefix
        "123pid",      // Text suffix
        " 123 ",       // Whitespace (rejected untrimmed by the actual function)
        "99999999999", // Too large for u32
    ];

    for invalid_pid in invalid_formats {
        // Test that these would be rejected by the validation
        if invalid_pid == "0" {
            // PID 0 is technically valid in parse but not for kill
            continue;
        }
        let parse_result = validate_pid(invalid_pid.trim());
        if invalid_pid.contains('.') || invalid_pid.contains('e')
            || invalid_pid.contains(char::is_alphabetic) {
            assert!(parse_result.is_none(), "Should fail for: {}", invalid_pid);
        }
    }
}

#[test]
fn test_pid_validation_rejects_before_any_call() {
    for bad in ["abc", "", "12.34", "-1", "99999999999", " 123 ", "+", "1 2"] {
        assert!(validate_pid(bad).is_none(), "should reject {:?}", bad);
    }
    assert_eq!(validate_pid("1234"), Some(1234));
    assert_eq!(validate_pid("+7"), Some(7));
    assert_eq!(validate_pid("4294967295"), Some(u32::MAX));
    assert!(validate_pid("4294967296").is_none());
}

#[test]
fn test_port_validation_rejects_non_u16() {
    for bad in ["abc", "", "12.34", "-1", "65536", "99999", "99999999999"] {
        assert!(validate_port(bad).is_none(), "should reject {:?}", bad);
    }
    assert_eq!(validate_port("0"), Some(0));
    assert_eq!(validate_port("3000"), Some(3000));
    assert_eq!(validate_port("65535"), Some(65535));
}

#[test]
fn test_terminate_decision_routes_signal() {
    assert_eq!(terminate_decision("1234", true).unwrap(), "-9");
    assert_eq!(terminate_decision("1234", false).unwrap(), "-15");
    let err = terminate_decision("nope", true).unwrap_err();
    assert_eq!(err, "Invalid PID format: nope");
}

#[test]
fn test_termination_report_success_messages() {
    let delivered = ToolOutcome::Completed {
        success: true,
        stdout: String::new(),
        stderr: String::new(),
    };
    assert_eq!(
        termination_report("1234", true, &delivered).unwrap(),
        "Process 1234 force killed successfully"
    );
    assert_eq!(
        termination_report("1234", false, &delivered).unwrap(),
        "Process 1234 gracefully terminated successfully"
    );
}

#[test]
fn test_termination_report_failure_messages() {
    let refused = ToolOutcome::Completed {
        success: false,
        stdout: String::new(),
        stderr: "No such process".to_string(),
    };
    assert_eq!(
        termination_report("42", true, &refused).unwrap_err(),
        "Failed to force kill process 42: No such process"
    );
    assert_eq!(
        termination_report("42", false, &refused).unwrap_err(),
        "Failed to gracefully terminate process 42: No such process"
    );

    let missing = ToolOutcome::NotInvoked { message: "command not found".to_string() };
    assert_eq!(
        termination_report("42", true, &missing).unwrap_err(),
        "Failed to execute kill command: command not found"
    );
}
