use proc_cli::process::{Process, ProcessStatus};
use proc_cli::recovery::{
    run_recovery, settle_seconds, signal_for, start, step, summarize, Observation, RecoveryConfig,
    RecoveryOutcome, RecoverySignal, RecoveryState,
};

fn stuck_proc(pid: u32, cpu_tenths: u32) -> Process {
    Process {
        pid,
        name: "worker".to_string(),
        exe_path: None,
        cwd: None,
        command: None,
        cpu_tenths,
        memory_kb: 2048,
        status: ProcessStatus::Running,
        user: None,
        parent_pid: None,
        start_time: None,
        run_time: 600,
    }
}

fn obs(exists: bool, cpu_tenths: u32) -> Observation {
    Observation {
        exists,
        cpu_tenths,
        send_failed: false,
        error: String::new(),
    }
}

fn unix_cfg(targeted: bool, force: bool) -> RecoveryConfig {
    RecoveryConfig {
        targeted,
        force,
        can_signal: true,
    }
}

#[test]
fn entry_check_reports_not_stuck() {
    // an explicit target below the stuck threshold ends at once
    let st = start(&unix_cfg(true, false), &stuck_proc(1, 100));
    assert!(matches!(st, RecoveryState::Done(RecoveryOutcome::NotStuck)));
    // an auto-discovered process skips the entry check
    let st2 = start(&unix_cfg(false, false), &stuck_proc(1, 100));
    assert!(matches!(st2, RecoveryState::Waking));
}

#[test]
fn wake_recovers_calm_process() {
    let cfg = unix_cfg(true, false);
    let st = start(&cfg, &stuck_proc(1, 900));
    assert!(matches!(st, RecoveryState::Waking));
    let st = step(&cfg, st, &obs(true, 50));
    assert!(matches!(st, RecoveryState::Done(RecoveryOutcome::Recovered)));
}

#[test]
fn disappearance_after_interrupt_is_terminated() {
    // a process that disappears right after the interrupt signal must
    // classify as Terminated, never StillStuck or Failed
    let cfg = unix_cfg(true, false);
    let script = vec![obs(true, 900), obs(false, 0)];
    let end = run_recovery(&cfg, &stuck_proc(1, 900), &script);
    assert!(matches!(end, RecoveryState::Done(RecoveryOutcome::Terminated)));
}

#[test]
fn scripted_runs_are_deterministic() {
    let cfg = unix_cfg(true, false);
    let script = vec![obs(true, 900), obs(false, 0)];
    let a = run_recovery(&cfg, &stuck_proc(1, 900), &script);
    let b = run_recovery(&cfg, &stuck_proc(1, 900), &script);
    assert_eq!(a, b);
}

#[test]
fn without_force_outcome_is_still_stuck() {
    // a process that never drops below the recovery threshold, without
    // --force: StillStuck, still running, no termination stage entered
    let cfg = unix_cfg(true, false);
    let script = vec![obs(true, 900), obs(true, 900), obs(true, 900), obs(true, 900)];
    let end = run_recovery(&cfg, &stuck_proc(1, 900), &script);
    assert!(matches!(end, RecoveryState::Done(RecoveryOutcome::StillStuck)));
}

#[test]
fn without_force_no_escalation_stage() {
    let cfg = unix_cfg(true, false);
    let mut st = start(&cfg, &stuck_proc(1, 900));
    for _ in 0..4 {
        st = step(&cfg, st, &obs(true, 900));
        assert!(!matches!(st, RecoveryState::Terminating));
        assert!(!matches!(st, RecoveryState::Killing));
        // the terminate and kill signals are never selected
        let sig = signal_for(&st);
        assert!(!matches!(sig, Some(RecoverySignal::Term)));
        assert!(!matches!(sig, Some(RecoverySignal::Kill)));
    }
}

#[test]
fn force_escalates_to_terminated() {
    let cfg = unix_cfg(true, true);
    // survives wake and interrupt, dies after terminate
    let script = vec![obs(true, 900), obs(true, 900), obs(false, 0)];
    let end = run_recovery(&cfg, &stuck_proc(1, 900), &script);
    assert!(matches!(end, RecoveryState::Done(RecoveryOutcome::Terminated)));
}

#[test]
fn kill_failure_on_living_process_is_failed() {
    let cfg = unix_cfg(true, true);
    let fail = Observation {
        exists: true,
        cpu_tenths: 900,
        send_failed: true,
        error: "operation not permitted".to_string(),
    };
    let script = vec![obs(true, 900), obs(true, 900), obs(true, 900), fail];
    let end = run_recovery(&cfg, &stuck_proc(1, 900), &script);
    match end {
        RecoveryState::Done(RecoveryOutcome::Failed(reason)) => {
            assert_eq!(reason, "operation not permitted");
        }
        other => panic!("expected a failed outcome, got {:?}", other),
    }
}

#[test]
fn kill_race_is_terminated() {
    // the kill failed but the process is gone by then: race-tolerant
    let cfg = unix_cfg(true, true);
    let race = Observation {
        exists: false,
        cpu_tenths: 0,
        send_failed: true,
        error: "no such process".to_string(),
    };
    let script = vec![obs(true, 900), obs(true, 900), obs(true, 900), race];
    let end = run_recovery(&cfg, &stuck_proc(1, 900), &script);
    assert!(matches!(end, RecoveryState::Done(RecoveryOutcome::Terminated)));
}

#[test]
fn outcome_is_terminal() {
    let cfg = unix_cfg(true, false);
    let done = RecoveryState::Done(RecoveryOutcome::Recovered);
    let after = step(&cfg, done, &obs(false, 0));
    assert!(matches!(after, RecoveryState::Done(RecoveryOutcome::Recovered)));
}

#[test]
fn platform_without_signals_collapses_stages() {
    let cfg = RecoveryConfig {
        targeted: false,
        force: false,
        can_signal: false,
    };
    let st = start(&cfg, &stuck_proc(1, 900));
    assert!(matches!(st, RecoveryState::Done(RecoveryOutcome::StillStuck)));

    let forced = RecoveryConfig {
        targeted: false,
        force: true,
        can_signal: false,
    };
    let st2 = start(&forced, &stuck_proc(1, 900));
    assert!(matches!(st2, RecoveryState::Terminating));
}

#[test]
fn stage_signals_and_waits() {
    assert!(matches!(signal_for(&RecoveryState::Waking), Some(RecoverySignal::Cont)));
    assert!(matches!(signal_for(&RecoveryState::Interrupting), Some(RecoverySignal::Int)));
    assert!(matches!(signal_for(&RecoveryState::Terminating), Some(RecoverySignal::Term)));
    assert!(matches!(signal_for(&RecoveryState::Killing), Some(RecoverySignal::Kill)));
    assert_eq!(settle_seconds(&RecoveryState::Waking), 1);
    assert_eq!(settle_seconds(&RecoveryState::Interrupting), 3);
    assert_eq!(settle_seconds(&RecoveryState::Terminating), 5);
    assert_eq!(settle_seconds(&RecoveryState::Killing), 0);
}

#[test]
fn summarize_tallies_outcomes() {
    let outcomes = vec![
        RecoveryOutcome::Recovered,
        RecoveryOutcome::Terminated,
        RecoveryOutcome::Recovered,
        RecoveryOutcome::NotStuck,
        RecoveryOutcome::Failed("x".to_string()),
    ];
    let s = summarize(&outcomes);
    assert_eq!(s.recovered, 2);
    assert_eq!(s.terminated, 1);
    assert_eq!(s.still_stuck, 0);
    assert_eq!(s.not_stuck, 1);
    assert_eq!(s.failed, 1);
    assert!(!s.success);

    let good = vec![RecoveryOutcome::Recovered, RecoveryOutcome::Terminated];
    assert!(summarize(&good).success);

    let still = vec![RecoveryOutcome::StillStuck];
    let st = summarize(&still);
    assert_eq!(st.still_stuck, 1);
    assert!(!st.success);
}
