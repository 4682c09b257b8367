// Tests of the result record structures and their field conventions.

use kill_process_lib::{PortCheckResult, ProcessDetail, ProcessInfo, ProcessSearchResult};

#[test]
fn test_port_check_result_structure() {
    let result = PortCheckResult {
        is_occupied: true,
        processes: vec![
            ProcessInfo {
                pid: "1234".to_string(),
                name: "test_process".to_string(),
                port: "3000".to_string(),
            }
        ],
        error: None,
    };

    assert!(result.is_occupied);
    assert_eq!(result.processes.len(), 1);
    assert!(result.error.is_none());
    assert_eq!(result.processes[0].pid, "1234");
}

#[test]
fn test_process_detail_structure() {
    let detail = ProcessDetail {
        pid: "1234".to_string(),
        name: "test_process".to_string(),
        port: "3000, 8080".to_string(), // Multiple ports
        user: Some("testuser".to_string()),
        command: Some("/usr/bin/node app.js".to_string()),
        cpu_usage: Some("5.2%".to_string()),
        memory_usage: Some("128.5%".to_string()),
        start_time: Some("Jan 15 10:30:00".to_string()),
    };

    assert_eq!(detail.pid, "1234");
    assert_eq!(detail.name, "test_process");
    assert_eq!(detail.port, "3000, 8080");
    assert!(detail.user.is_some());
    assert!(detail.command.is_some());
    assert!(detail.cpu_usage.is_some());
    assert!(detail.memory_usage.is_some());
    assert!(detail.start_time.is_some());
}

#[test]
fn test_process_search_result_structure() {
    let result = ProcessSearchResult {
        processes: vec![
            ProcessInfo {
                pid: "1234".to_string(),
                name: "test_process".to_string(),
                port: "Unknown".to_string(),
            }
        ],
        error: None,
    };

    assert_eq!(result.processes.len(), 1);
    assert!(result.error.is_none());
    assert_eq!(result.processes[0].pid, "1234");
    assert_eq!(result.processes[0].name, "test_process");
    assert_eq!(result.processes[0].port, "Unknown");
}

#[test]
fn test_process_search_result_with_error() {
    let result = ProcessSearchResult {
        processes: vec![],
        error: Some("Process name cannot be empty".to_string()),
    };

    assert_eq!(result.processes.len(), 0);
    assert!(result.error.is_some());
    assert_eq!(result.error.unwrap(), "Process name cannot be empty");
}

#[test]
fn test_process_detail_minimal_info() {
    let detail = ProcessDetail {
        pid: "1234".to_string(),
        name: "test".to_string(),
        port: "Unknown".to_string(),
        user: None,
        command: None,
        cpu_usage: None,
        memory_usage: None,
        start_time: None,
    };

    assert_eq!(detail.pid, "1234");
    assert_eq!(detail.name, "test");
    assert_eq!(detail.port, "Unknown");
    assert!(detail.user.is_none());
    assert!(detail.command.is_none());
    assert!(detail.cpu_usage.is_none());
    assert!(detail.memory_usage.is_none());
    assert!(detail.start_time.is_none());
}

#[test]
fn test_process_detail_with_complex_command() {
    let detail = ProcessDetail {
        pid: "1234".to_string(),
        name: "node".to_string(),
        port: "3000, 8080".to_string(),
        user: Some("testuser".to_string()),
        command: Some(
            "/usr/local/bin/node --inspect=0.0.0.0:9229 --max-old-space-size=4096 server.js"
                .to_string(),
        ),
        cpu_usage: Some("15.7%".to_string()),
        memory_usage: Some("256.8%".to_string()),
        start_time: Some("Mon Jan 15 10:30:45 2024".to_string()),
    };

    assert_eq!(detail.pid, "1234");
    assert_eq!(detail.name, "node");
    assert_eq!(detail.port, "3000, 8080");
    assert!(detail.command.as_ref().unwrap().contains("--inspect"));
    assert!(detail.command.as_ref().unwrap().contains("server.js"));
}

#[test]
fn test_port_check_result_comprehensive() {
    let result_with_multiple_processes = PortCheckResult {
        is_occupied: true,
        processes: vec![
            ProcessInfo {
                pid: "1234".to_string(),
                name: "node".to_string(),
                port: "3000".to_string(),
            },
            ProcessInfo {
                pid: "5678".to_string(),
                name: "nginx".to_string(),
                port: "3000".to_string(),
            }
        ],
        error: None,
    };

    assert!(result_with_multiple_processes.is_occupied);
    assert_eq!(result_with_multiple_processes.processes.len(), 2);
    assert!(result_with_multiple_processes.error.is_none());

    // Verify both processes use the same port
    for process in &result_with_multiple_processes.processes {
        assert_eq!(process.port, "3000");
    }
}

#[test]
fn test_port_check_result_with_error() {
    let result_with_error = PortCheckResult {
        is_occupied: false,
        processes: vec![],
        error: Some("Failed to execute lsof: command not found".to_string()),
    };

    assert!(!result_with_error.is_occupied);
    assert_eq!(result_with_error.processes.len(), 0);
    assert!(result_with_error.error.is_some());
    assert!(result_with_error.error.unwrap().contains("lsof"));
}
