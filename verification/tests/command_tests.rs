use proc_cli::commands::{
    sort_key_of, sort_processes, FindCommand, KillCommand, SortKey, StopCommand, StuckCommand,
    UnstickCommand,
};
use proc_cli::error::{ExitCode, ProcError};
use proc_cli::port::{PortInfo, Protocol};
use proc_cli::process::{Process, ProcessStatus};

fn proc(pid: u32, name: &str, cpu_tenths: u32, memory_kb: u64, run_time: u64) -> Process {
    Process {
        pid,
        name: name.to_string(),
        exe_path: None,
        cwd: None,
        command: None,
        cpu_tenths,
        memory_kb,
        status: ProcessStatus::Running,
        user: None,
        parent_pid: None,
        start_time: None,
        run_time,
    }
}

fn sock(port: u16, pid: u32, name: &str) -> PortInfo {
    PortInfo {
        port,
        protocol: Protocol::Tcp,
        pid,
        process_name: name.to_string(),
        address: None,
    }
}

#[test]
fn find_stuck_applies_both_thresholds() {
    // stuck needs run time above the timeout AND CPU above 50%
    let procs = vec![
        proc(1, "busy-old", 800, 100, 400),
        proc(2, "busy-young", 800, 100, 100),
        proc(3, "calm-old", 100, 100, 400),
        proc(4, "border-cpu", 500, 100, 400),
        proc(5, "border-time", 800, 100, 300),
    ];
    let stuck = Process::find_stuck(&procs, 300);
    assert_eq!(stuck.len(), 1);
    assert_eq!(stuck[0].pid, 1);
}

#[test]
fn stuck_command_uses_its_timeout() {
    let cmd = StuckCommand {
        timeout: 60,
        kill: false,
        yes: false,
        json: false,
        verbose: false,
    };
    let procs = vec![proc(1, "a", 900, 100, 120), proc(2, "b", 900, 100, 30)];
    let stuck = cmd.stuck_processes(&procs);
    assert_eq!(stuck.len(), 1);
    assert_eq!(stuck[0].pid, 1);
}

#[test]
fn sort_by_cpu_descending() {
    let procs = vec![
        proc(1, "a", 100, 10, 0),
        proc(2, "b", 900, 20, 0),
        proc(3, "c", 500, 30, 0),
    ];
    let sorted = sort_processes(procs, SortKey::Cpu);
    let pids: Vec<u32> = sorted.iter().map(|p| p.pid).collect();
    assert_eq!(pids, vec![2, 3, 1]);
}

#[test]
fn sort_by_name_folds_case() {
    let procs = vec![
        proc(1, "zsh", 0, 0, 0),
        proc(2, "Apache", 0, 0, 0),
        proc(3, "bash", 0, 0, 0),
    ];
    // "Apache" sorts before "bash" only if names are compared lowercased
    let sorted = sort_processes(procs, SortKey::Name);
    let pids: Vec<u32> = sorted.iter().map(|p| p.pid).collect();
    assert_eq!(pids, vec![2, 3, 1]);
}

#[test]
fn sort_key_words_are_case_insensitive() {
    assert_eq!(sort_key_of("cpu"), SortKey::Cpu);
    assert_eq!(sort_key_of("CPU"), SortKey::Cpu);
    assert_eq!(sort_key_of("memory"), SortKey::Mem);
    assert_eq!(sort_key_of("mem"), SortKey::Mem);
    assert_eq!(sort_key_of("pid"), SortKey::Pid);
    assert_eq!(sort_key_of("name"), SortKey::Name);
    assert_eq!(sort_key_of("whatever"), SortKey::Unsorted);
}

#[test]
fn find_command_filters_sorts_and_limits() {
    let procs = vec![
        proc(1, "node worker", 100, 10, 0),
        proc(2, "node server", 900, 20, 0),
        proc(3, "postgres", 500, 30, 0),
        proc(4, "node cli", 400, 40, 0),
    ];
    let cmd = FindCommand {
        name: Some("node".to_string()),
        all: false,
        json: false,
        verbose: false,
        limit: Some(2),
        sort: "cpu".to_string(),
    };
    let out = cmd.execute(&procs).unwrap();
    let pids: Vec<u32> = out.iter().map(|p| p.pid).collect();
    assert_eq!(pids, vec![2, 4]);
}

#[test]
fn find_command_reports_no_match() {
    let procs = vec![proc(1, "node", 0, 0, 0)];
    let cmd = FindCommand {
        name: Some("zzz".to_string()),
        all: false,
        json: false,
        verbose: false,
        limit: None,
        sort: "cpu".to_string(),
    };
    assert!(matches!(
        cmd.execute(&procs),
        Err(ProcError::ProcessNotFound(_))
    ));
}

#[test]
fn find_command_all_lists_everything() {
    let procs = vec![proc(1, "a", 1, 0, 0), proc(2, "b", 2, 0, 0)];
    let cmd = FindCommand {
        name: None,
        all: true,
        json: false,
        verbose: false,
        limit: None,
        sort: "pid".to_string(),
    };
    let out = cmd.execute(&procs).unwrap();
    assert_eq!(out.len(), 2);
    assert_eq!(out[0].pid, 1);
}

#[test]
fn kill_resolve_tries_port_before_pid() {
    // pid 3000 exists AND port 3000 is owned by pid 500: the port wins
    let procs = vec![proc(3000, "by-pid", 0, 0, 0), proc(500, "by-port", 0, 0, 0)];
    let ports = vec![sock(3000, 500, "by-port")];
    let cmd = KillCommand {
        target: "3000".to_string(),
        yes: true,
        dry_run: false,
        json: false,
        verbose: false,
        graceful: false,
    };
    let out = cmd.resolve_target(&procs, &ports).unwrap();
    assert_eq!(out.len(), 1);
    assert_eq!(out[0].pid, 500);
}

#[test]
fn kill_resolve_falls_back_to_pid() {
    let procs = vec![proc(3000, "by-pid", 0, 0, 0)];
    let ports = Vec::new();
    let cmd = KillCommand {
        target: "3000".to_string(),
        yes: true,
        dry_run: false,
        json: false,
        verbose: false,
        graceful: false,
    };
    let out = cmd.resolve_target(&procs, &ports).unwrap();
    assert_eq!(out.len(), 1);
    assert_eq!(out[0].pid, 3000);
}

#[test]
fn kill_resolve_port_syntax_is_strict() {
    let procs = vec![proc(1, "node", 0, 0, 0)];
    let ports = Vec::new();
    let cmd = KillCommand {
        target: ":nope".to_string(),
        yes: true,
        dry_run: false,
        json: false,
        verbose: false,
        graceful: false,
    };
    assert!(matches!(
        cmd.resolve_target(&procs, &ports),
        Err(ProcError::InvalidInput(_))
    ));
}

#[test]
fn stop_command_resolves_its_target() {
    let procs = vec![proc(7, "worker", 0, 0, 0)];
    let ports = Vec::new();
    let cmd = StopCommand {
        target: "worker".to_string(),
        yes: true,
        json: false,
        timeout: 10,
    };
    let out = cmd.find_target_processes(&procs, &ports).unwrap();
    assert_eq!(out.len(), 1);
    assert_eq!(out[0].pid, 7);
}

#[test]
fn unstick_command_helpers() {
    let cmd = UnstickCommand {
        target: Some("worker".to_string()),
        timeout: 300,
        force: false,
        yes: false,
        dry_run: false,
        json: false,
    };
    assert!(cmd.is_stuck(&proc(1, "worker", 600, 0, 0)));
    assert!(!cmd.is_stuck(&proc(1, "worker", 500, 0, 0)));
    assert!(cmd.check_recovered(&Some(proc(1, "worker", 50, 0, 0))));
    assert!(!cmd.check_recovered(&Some(proc(1, "worker", 100, 0, 0))));
    assert!(!cmd.check_recovered(&None));
    let cfg = cmd.config(true);
    assert!(cfg.targeted);
    assert!(!cfg.force);
    assert!(cfg.can_signal);

    let procs = vec![proc(1, "worker", 600, 0, 0)];
    let ports = Vec::new();
    let found = cmd
        .resolve_target_processes("worker", &procs, &ports)
        .unwrap();
    assert_eq!(found.len(), 1);
    let err = cmd
        .resolve_target_processes("ghost", &procs, &ports)
        .unwrap_err();
    assert!(matches!(err, ProcError::ProcessNotFound(_)));
}

#[test]
fn exit_codes_match_error_kinds() {
    assert_eq!(ExitCode::Success.code(), 0);
    assert_eq!(ExitCode::GeneralError.code(), 1);
    assert_eq!(ExitCode::NotFound.code(), 2);
    assert_eq!(ExitCode::PermissionDenied.code(), 3);
    assert_eq!(ExitCode::InvalidInput.code(), 4);

    assert_eq!(
        ExitCode::from_error(&ProcError::ProcessNotFound("x".to_string())),
        ExitCode::NotFound
    );
    assert_eq!(
        ExitCode::from_error(&ProcError::PortNotFound(80)),
        ExitCode::NotFound
    );
    assert_eq!(
        ExitCode::from_error(&ProcError::PermissionDenied(1)),
        ExitCode::PermissionDenied
    );
    assert_eq!(
        ExitCode::from_error(&ProcError::InvalidInput("x".to_string())),
        ExitCode::InvalidInput
    );
    assert_eq!(
        ExitCode::from_error(&ProcError::SignalError("x".to_string())),
        ExitCode::GeneralError
    );
}

#[test]
fn error_messages_render_numbers() {
    assert_eq!(
        ProcError::PortNotFound(3000).message(),
        "No process listening on port 3000\n  Try: proc ports"
    );
    assert_eq!(
        ProcError::ProcessGone(512).message(),
        "Process 512 is no longer running"
    );
    assert_eq!(
        ProcError::ProcessNotFound("node".to_string()).message(),
        "No process found matching 'node'\n  Try: proc list to list all processes"
    );
    assert_eq!(
        ProcError::InvalidInput("bad".to_string()).message(),
        "Invalid input: bad"
    );
}

#[test]
fn children_and_ancestry_walk_parent_links() {
    let mut a = proc(1, "root", 0, 0, 0);
    a.parent_pid = None;
    let mut b = proc(2, "mid", 0, 0, 0);
    b.parent_pid = Some(1);
    let mut c = proc(3, "leaf", 0, 0, 0);
    c.parent_pid = Some(2);
    let mut d = proc(4, "leaf2", 0, 0, 0);
    d.parent_pid = Some(2);
    let procs = vec![a, b, c, d];

    let kids = Process::children_of(&procs, 2);
    let pids: Vec<u32> = kids.iter().map(|p| p.pid).collect();
    assert_eq!(pids, vec![3, 4]);

    let chain = Process::ancestry_chain(&procs, 3);
    let pids: Vec<u32> = chain.iter().map(|p| p.pid).collect();
    assert_eq!(pids, vec![3, 2, 1]);

    // a parent that is not in the snapshot ends the walk
    let chain2 = Process::ancestry_chain(&procs, 99);
    assert!(chain2.is_empty());
}

#[test]
fn ancestry_chain_survives_parent_cycles() {
    let mut a = proc(1, "a", 0, 0, 0);
    a.parent_pid = Some(2);
    let mut b = proc(2, "b", 0, 0, 0);
    b.parent_pid = Some(1);
    let procs = vec![a, b];
    let chain = Process::ancestry_chain(&procs, 1);
    assert_eq!(chain.len(), 100);
}
