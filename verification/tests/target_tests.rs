use proc_cli::error::ProcError;
use proc_cli::port::{PortInfo, Protocol};
use proc_cli::process::{Process, ProcessStatus};
use proc_cli::target::{
    find_ports_for_pid, parse_target, parse_targets, resolve_target, resolve_target_single,
    resolve_targets, TargetType,
};

fn proc(pid: u32, name: &str, cpu_tenths: u32) -> Process {
    Process {
        pid,
        name: name.to_string(),
        exe_path: None,
        cwd: None,
        command: None,
        cpu_tenths,
        memory_kb: 1024,
        status: ProcessStatus::Running,
        user: None,
        parent_pid: None,
        start_time: None,
        run_time: 60,
    }
}

fn sock(port: u16, pid: u32, name: &str) -> PortInfo {
    PortInfo {
        port,
        protocol: Protocol::Tcp,
        pid,
        process_name: name.to_string(),
        address: Some("0.0.0.0".to_string()),
    }
}

#[test]
fn test_parse_targets_single() {
    assert_eq!(parse_targets(":3000"), vec![":3000"]);
    assert_eq!(parse_targets("node"), vec!["node"]);
    assert_eq!(parse_targets("1234"), vec!["1234"]);
}

#[test]
fn test_parse_targets_multiple() {
    assert_eq!(parse_targets(":3000,:8080"), vec![":3000", ":8080"]);
    assert_eq!(parse_targets("node,python"), vec!["node", "python"]);
    assert_eq!(
        parse_targets(":3000,1234,node"),
        vec![":3000", "1234", "node"]
    );
}

#[test]
fn test_parse_targets_with_whitespace() {
    assert_eq!(
        parse_targets(":3000, :8080, :9000"),
        vec![":3000", ":8080", ":9000"]
    );
    assert_eq!(parse_targets(" node , python "), vec!["node", "python"]);
}

#[test]
fn test_parse_targets_empty_entries() {
    assert_eq!(parse_targets(":3000,,,:8080"), vec![":3000", ":8080"]);
    assert_eq!(parse_targets(",,node,,"), vec!["node"]);
}

#[test]
fn test_parse_target_port() {
    assert!(matches!(parse_target(":3000"), TargetType::Port(3000)));
    assert!(matches!(parse_target(":8080"), TargetType::Port(8080)));
}

#[test]
fn test_parse_target_pid() {
    assert!(matches!(parse_target("1234"), TargetType::Pid(1234)));
    assert!(matches!(parse_target("99999"), TargetType::Pid(99999)));
}

#[test]
fn test_parse_target_name() {
    assert!(matches!(parse_target("node"), TargetType::Name(_)));
    assert!(matches!(parse_target("my-process"), TargetType::Name(_)));
}

#[test]
fn parse_target_trims_whitespace() {
    assert!(matches!(parse_target("  42  "), TargetType::Pid(42)));
    match parse_target("  node  ") {
        TargetType::Name(s) => assert_eq!(s, "node"),
        other => panic!("expected a name target, got {:?}", other),
    }
}

#[test]
fn parse_target_bad_port_stays_strict() {
    // a ':'-prefixed string that is not a port is not retried as a name
    match parse_target(":99999") {
        TargetType::Name(s) => assert_eq!(s, ":99999"),
        other => panic!("expected a name target, got {:?}", other),
    }
    assert!(matches!(parse_target(":abc"), TargetType::Name(_)));
}

#[test]
fn parse_target_strips_repeated_colons() {
    assert!(matches!(parse_target("::80"), TargetType::Port(80)));
}

#[test]
fn resolve_target_by_pid_and_name() {
    let procs = vec![proc(10, "node", 0), proc(20, "python", 0)];
    let ports = Vec::new();

    let by_pid = resolve_target("10", &procs, &ports).unwrap();
    assert_eq!(by_pid.len(), 1);
    assert_eq!(by_pid[0].pid, 10);

    let by_name = resolve_target("python", &procs, &ports).unwrap();
    assert_eq!(by_name.len(), 1);
    assert_eq!(by_name[0].pid, 20);
}

#[test]
fn resolve_target_name_is_case_insensitive_substring() {
    let procs = vec![proc(10, "MyNodeServer", 0)];
    let ports = Vec::new();
    let found = resolve_target("nodeser", &procs, &ports).unwrap();
    assert_eq!(found.len(), 1);
    assert_eq!(found[0].pid, 10);

    // uppercase pattern against a lowercase name: both sides are folded
    let procs2 = vec![proc(11, "node", 0)];
    let found2 = resolve_target("NODE", &procs2, &ports).unwrap();
    assert_eq!(found2.len(), 1);
}

#[test]
fn resolve_target_matches_command_line() {
    let mut p = proc(30, "bin", 0);
    p.command = Some("/usr/bin/my-worker --serve".to_string());
    let procs = vec![p];
    let ports = Vec::new();
    let found = resolve_target("my-worker", &procs, &ports).unwrap();
    assert_eq!(found.len(), 1);
    assert_eq!(found[0].pid, 30);
}

#[test]
fn resolve_nonexistent_pid_is_process_not_found() {
    let procs = vec![proc(10, "node", 0)];
    let ports = Vec::new();
    let err = resolve_target("4040404", &procs, &ports).unwrap_err();
    assert!(matches!(err, ProcError::ProcessNotFound(_)));
}

#[test]
fn resolve_port_without_listener_is_port_not_found() {
    let procs = vec![proc(10, "node", 0)];
    let ports = vec![sock(8080, 10, "node")];
    let err = resolve_target(":3000", &procs, &ports).unwrap_err();
    assert!(matches!(err, ProcError::PortNotFound(3000)));
}

#[test]
fn resolve_dead_listener_is_process_gone() {
    // the socket table reports pid 500 on port 3000, but the process table
    // has no pid 500: a race, not a user error
    let procs = vec![proc(10, "node", 0)];
    let ports = vec![sock(3000, 500, "ghost")];
    let err = resolve_target(":3000", &procs, &ports).unwrap_err();
    assert!(matches!(err, ProcError::ProcessGone(500)));
}

#[test]
fn resolve_port_finds_listener() {
    let procs = vec![proc(10, "node", 0), proc(20, "python", 0)];
    let ports = vec![sock(3000, 20, "python")];
    let found = resolve_target(":3000", &procs, &ports).unwrap();
    assert_eq!(found.len(), 1);
    assert_eq!(found[0].pid, 20);
}

#[test]
fn resolve_target_single_rejects_ambiguity() {
    let procs = vec![proc(10, "node", 0), proc(20, "node", 0)];
    let ports = Vec::new();
    let err = resolve_target_single("node", &procs, &ports).unwrap_err();
    match err {
        ProcError::InvalidInput(msg) => {
            assert_eq!(msg, "Target 'node' matches 2 processes. Be more specific.");
        }
        other => panic!("expected invalid input, got {:?}", other),
    }
    let one = resolve_target_single("10", &procs, &ports).unwrap();
    assert_eq!(one.pid, 10);
}

#[test]
fn resolve_targets_deduplicates_by_pid() {
    // a port target and a name target naming the same process yield one
    // record
    let procs = vec![proc(10, "node", 0)];
    let ports = vec![sock(3000, 10, "node")];
    let targets = vec![":3000".to_string(), "node".to_string()];
    let (found, not_found) = resolve_targets(&targets, &procs, &ports);
    assert_eq!(found.len(), 1);
    assert_eq!(found[0].pid, 10);
    assert!(not_found.is_empty());
}

#[test]
fn resolve_targets_isolates_failures() {
    let procs = vec![proc(10, "node", 0)];
    let ports = Vec::new();
    let targets = vec![
        "node".to_string(),
        ":3000".to_string(),
        "5555".to_string(),
    ];
    let (found, not_found) = resolve_targets(&targets, &procs, &ports);
    assert_eq!(found.len(), 1);
    assert_eq!(found[0].pid, 10);
    assert_eq!(not_found, vec![":3000".to_string(), "5555".to_string()]);
}

#[test]
fn find_ports_for_pid_filters_snapshot() {
    let ports = vec![sock(3000, 10, "node"), sock(8080, 20, "py"), sock(9090, 10, "node")];
    let mine = find_ports_for_pid(&ports, 10);
    assert_eq!(mine.len(), 2);
    assert_eq!(mine[0].port, 3000);
    assert_eq!(mine[1].port, 9090);
}

#[test]
fn parse_targets_strips_embedded_empties() {
    assert_eq!(parse_targets(":3000,,node,"), vec![":3000", "node"]);
}

#[test]
fn parse_targets_is_idempotent_on_clean_lists() {
    let once = parse_targets(" :3000 ,, node ,python ");
    let rejoined = once.join(",");
    assert_eq!(parse_targets(&rejoined), once);
}
