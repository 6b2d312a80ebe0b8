use proc_cli::error::ProcError;
use proc_cli::port::{parse_port, PortInfo, Protocol};
use proc_cli::process::{Process, ProcessStatus};

#[test]
fn test_parse_port() {
    assert_eq!(parse_port(":3000").unwrap(), 3000);
    assert_eq!(parse_port("3000").unwrap(), 3000);
    assert_eq!(parse_port("  :8080  ").unwrap(), 8080);
}

#[test]
fn test_parse_port_invalid() {
    assert!(parse_port("abc").is_err());
    assert!(parse_port("").is_err());
}

#[test]
fn parse_port_rejects_out_of_range() {
    assert!(parse_port(":65535").is_ok());
    assert!(parse_port(":65536").is_err());
    assert!(parse_port("99999999999999999999").is_err());
}

#[test]
fn parse_port_error_message() {
    let err = parse_port(":abc").unwrap_err();
    match err {
        ProcError::InvalidInput(msg) => assert_eq!(msg, "Invalid port: ':abc'"),
        other => panic!("expected invalid input, got {:?}", other),
    }
}

#[test]
fn test_get_listening_ports() {
    let output = "State  Recv-Q Send-Q Local Address:Port Peer Address:Port Process\n\
                  LISTEN 0      4096   0.0.0.0:22         0.0.0.0:*         users:((\"sshd\",pid=914,fd=3))\n\
                  LISTEN 0      511    127.0.0.1:8080     0.0.0.0:*         users:((\"node\",pid=3210,fd=19))\n";
    let result = PortInfo::get_all_listening(output);
    assert_eq!(result.len(), 2);
    assert_eq!(result[0].port, 22);
    assert_eq!(result[0].pid, 914);
    assert_eq!(result[0].process_name, "sshd");
    assert_eq!(result[0].address.as_deref(), Some("0.0.0.0"));
    assert_eq!(result[1].port, 8080);
    assert_eq!(result[1].pid, 3210);
    assert_eq!(result[1].process_name, "node");
    assert_eq!(result[1].address.as_deref(), Some("127.0.0.1"));
}

#[test]
fn get_all_listening_skips_unparseable_lines() {
    let output = "header\nnot a socket line\nLISTEN 0 128 *:443 *:* users:((\"nginx\",pid=77,fd=6))\n";
    let result = PortInfo::get_all_listening(output);
    assert_eq!(result.len(), 1);
    assert_eq!(result[0].port, 443);
    assert_eq!(result[0].pid, 77);
    assert_eq!(result[0].process_name, "nginx");
    // a wildcard bind address is reported as 0.0.0.0
    assert_eq!(result[0].address.as_deref(), Some("0.0.0.0"));
}

#[test]
fn parse_ss_line_reads_columns() {
    let line = "LISTEN 0 4096 0.0.0.0:3000 0.0.0.0:* users:((\"node\",pid=4321,fd=20))";
    let info = PortInfo::parse_ss_line(line).unwrap();
    assert_eq!(info.port, 3000);
    assert!(matches!(info.protocol, Protocol::Tcp));
    assert_eq!(info.pid, 4321);
    assert_eq!(info.process_name, "node");
    assert_eq!(info.address.as_deref(), Some("0.0.0.0"));
}

#[test]
fn parse_ss_line_rejects_short_lines() {
    assert!(PortInfo::parse_ss_line("LISTEN 0 4096").is_none());
    assert!(PortInfo::parse_ss_line("").is_none());
}

#[test]
fn parse_ss_line_needs_a_pid() {
    let line = "LISTEN 0 4096 0.0.0.0:3000 0.0.0.0:* users:ignored";
    assert!(PortInfo::parse_ss_line(line).is_none());
}

#[test]
fn extract_pid_from_ss_reads_digit_run() {
    assert_eq!(
        PortInfo::extract_pid_from_ss("users:((\"sshd\",pid=1234,fd=3))"),
        Some(1234)
    );
    assert_eq!(PortInfo::extract_pid_from_ss("users:no-pid-here"), None);
    // the digit run must be terminated by a further character
    assert_eq!(PortInfo::extract_pid_from_ss("pid=1234"), None);
}

#[test]
fn extract_name_from_ss_reads_quoted_name() {
    assert_eq!(
        PortInfo::extract_name_from_ss("users:((\"sshd\",pid=1234,fd=3))"),
        Some("sshd".to_string())
    );
    assert_eq!(PortInfo::extract_name_from_ss("users:nothing"), None);
}

#[test]
fn find_by_port_returns_first_match() {
    let ports = vec![
        PortInfo {
            port: 80,
            protocol: Protocol::Tcp,
            pid: 1,
            process_name: "first".to_string(),
            address: None,
        },
        PortInfo {
            port: 80,
            protocol: Protocol::Tcp,
            pid: 2,
            process_name: "second".to_string(),
            address: None,
        },
    ];
    let hit = PortInfo::find_by_port(&ports, 80).unwrap();
    assert_eq!(hit.pid, 1);
    assert!(PortInfo::find_by_port(&ports, 81).is_none());
}

#[test]
fn test_find_nonexistent_process() {
    let procs = vec![Process {
        pid: 1,
        name: "init".to_string(),
        exe_path: None,
        cwd: None,
        command: None,
        cpu_tenths: 0,
        memory_kb: 512,
        status: ProcessStatus::Sleeping,
        user: None,
        parent_pid: None,
        start_time: None,
        run_time: 10,
    }];
    let result = Process::find_by_name(&procs, "nonexistent_process_12345");
    assert!(result.is_err());
}

#[test]
fn parse_lsof_line_reads_columns() {
    let line = "rapportd 643 zee 8u IPv4 0x1234 0t0 TCP *:52633 (LISTEN)";
    let info = PortInfo::parse_lsof_line(line).unwrap();
    assert_eq!(info.port, 52633);
    assert_eq!(info.pid, 643);
    assert_eq!(info.process_name, "rapportd");
    assert_eq!(info.address.as_deref(), Some("0.0.0.0"));

    let line2 = "node 123 user 23u IPv6 0xab 0t0 TCP 127.0.0.1:8080 (LISTEN)";
    let info2 = PortInfo::parse_lsof_line(line2).unwrap();
    assert_eq!(info2.port, 8080);
    assert_eq!(info2.pid, 123);
    assert_eq!(info2.process_name, "node");
    assert_eq!(info2.address.as_deref(), Some("127.0.0.1"));
}

#[test]
fn parse_lsof_line_rejects_bad_rows() {
    assert!(PortInfo::parse_lsof_line("too short").is_none());
    assert!(PortInfo::parse_lsof_line("name nan zee 8u IPv4 0x1 0t0 TCP *:80 (LISTEN)").is_none());
    assert!(PortInfo::parse_lsof_line("name 12 zee 8u IPv4 0x1 0t0 TCP noport x").is_none());
}
