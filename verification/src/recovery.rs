//! The graduated signal-escalation recovery engine.
//!
//! One attempt on one process walks a fixed sequence of stages: wake with a
//! continue signal, interrupt, and — only when escalation is authorized —
//! graceful terminate and forceful kill.  The engine itself is a pure state
//! machine: the caller sends the stage's signal, waits the stage's fixed
//! settle time, probes the process freshly, and feeds the observation back
//! through `step`.  Every attempt reaches a terminal `Done` state, and the
//! outcome is a deterministic function of the scripted observations.

use vstd::prelude::*;

use crate::process::{Process, STUCK_CPU_TENTHS};

verus! {

/// A process counts as recovered once a fresh sample shows its CPU below
/// this many tenths of a percent (10%).
pub const RECOVERY_CPU_TENTHS: u32 = 100;

/// Terminal classification of one recovery attempt on one process.
#[derive(Debug, Clone, PartialEq)]
pub enum RecoveryOutcome {
    /// The process dropped below the recovery threshold and keeps running.
    Recovered,
    /// The process is gone, or an escalation signal ended it.
    Terminated,
    /// The process could not be recovered and escalation was not authorized.
    StillStuck,
    /// The process was not stuck to begin with; nothing was sent.
    NotStuck,
    /// A kill could not be delivered to a process that still exists.
    Failed(String),
}

/// The stage an attempt is in: which signal was just sent and is being given
/// time to act, or the terminal outcome.
#[derive(Debug, Clone, PartialEq)]
pub enum RecoveryState {
    /// A continue signal was sent to wake a suspended process.
    Waking,
    /// An interrupt signal was sent.
    Interrupting,
    /// A graceful terminate was sent; first escalation stage.
    Terminating,
    /// A forceful kill was sent; last resort.
    Killing,
    /// The attempt ended with this outcome; no further signal is sent.
    Done(RecoveryOutcome),
}

/// How an attempt is configured: whether the process was named explicitly,
/// whether escalation is authorized, and what the platform can deliver.
#[derive(Debug, Clone, Copy)]
pub struct RecoveryConfig {
    /// The attempt is on an explicitly named target rather than an
    /// auto-discovered stuck process.
    pub targeted: bool,
    /// Escalation to terminate and kill is authorized.
    pub force: bool,
    /// The platform can deliver continue and interrupt signals; without
    /// them the engine collapses to the escalation stages alone.
    pub can_signal: bool,
}

/// What the driver observed after giving the current stage's signal time to
/// act: a fresh existence and CPU probe, and — for the kill stage — whether
/// the send itself failed and with what reason.
#[derive(Debug, Clone)]
pub struct Observation {
    /// The process still exists in a fresh process-table lookup.
    pub exists: bool,
    /// CPU usage in tenths of a percent from that fresh lookup; meaningful
    /// only while `exists` holds.
    pub cpu_tenths: u32,
    /// The stage's signal could not be delivered.
    pub send_failed: bool,
    /// Reason reported for a failed delivery.
    pub error: String,
}

/// The signal each stage sends.
#[derive(Debug, Clone, Copy, PartialEq, Eq, Structural)]
pub enum RecoverySignal {
    /// Wake a suspended process (continue).
    Cont,
    /// Interrupt, as from the keyboard.
    Int,
    /// Graceful termination request.
    Term,
    /// Forceful kill.
    Kill,
}

/// Entry check of an attempt: an explicitly named process that is not above
/// the stuck threshold ends at once as `NotStuck`; otherwise the first
/// stage the platform supports begins, and a platform without
/// continue/interrupt signals stops short of escalation unless forced.
pub open spec fn spec_start(cfg: RecoveryConfig, cpu_tenths: u32) -> RecoveryState {
    if cfg.targeted && cpu_tenths <= STUCK_CPU_TENTHS {
        RecoveryState::Done(RecoveryOutcome::NotStuck)
    } else if cfg.can_signal {
        RecoveryState::Waking
    } else if !cfg.force {
        RecoveryState::Done(RecoveryOutcome::StillStuck)
    } else {
        RecoveryState::Terminating
    }
}

/// One transition of the engine on the stage's observation.
pub open spec fn spec_step(cfg: RecoveryConfig, st: RecoveryState, obs: Observation) -> RecoveryState {
    match st {
        RecoveryState::Waking => if obs.exists && obs.cpu_tenths < RECOVERY_CPU_TENTHS {
            RecoveryState::Done(RecoveryOutcome::Recovered)
        } else {
            RecoveryState::Interrupting
        },
        RecoveryState::Interrupting => if !obs.exists {
            RecoveryState::Done(RecoveryOutcome::Terminated)
        } else if obs.cpu_tenths < RECOVERY_CPU_TENTHS {
            RecoveryState::Done(RecoveryOutcome::Recovered)
        } else if !cfg.force {
            RecoveryState::Done(RecoveryOutcome::StillStuck)
        } else {
            RecoveryState::Terminating
        },
        RecoveryState::Terminating => if !obs.exists {
            RecoveryState::Done(RecoveryOutcome::Terminated)
        } else {
            RecoveryState::Killing
        },
        RecoveryState::Killing => if !obs.send_failed || !obs.exists {
            RecoveryState::Done(RecoveryOutcome::Terminated)
        } else {
            RecoveryState::Done(RecoveryOutcome::Failed(obs.error))
        },
        RecoveryState::Done(o) => RecoveryState::Done(o),
    }
}

/// Begin an attempt on `proc` under `cfg`.
pub fn start(cfg: &RecoveryConfig, proc: &Process) -> (st: RecoveryState)
    ensures
        st == spec_start(*cfg, proc.cpu_tenths),
{
    if cfg.targeted && proc.cpu_tenths <= STUCK_CPU_TENTHS {
        RecoveryState::Done(RecoveryOutcome::NotStuck)
    } else if cfg.can_signal {
        RecoveryState::Waking
    } else if !cfg.force {
        RecoveryState::Done(RecoveryOutcome::StillStuck)
    } else {
        RecoveryState::Terminating
    }
}

/// Advance the engine by one observed stage.
pub fn step(cfg: &RecoveryConfig, st: RecoveryState, obs: &Observation) -> (r: RecoveryState)
    ensures
        r == spec_step(*cfg, st, *obs),
{
    match st {
        RecoveryState::Waking => {
            if obs.exists && obs.cpu_tenths < RECOVERY_CPU_TENTHS {
                RecoveryState::Done(RecoveryOutcome::Recovered)
            } else {
                RecoveryState::Interrupting
            }
        },
        RecoveryState::Interrupting => {
            if !obs.exists {
                RecoveryState::Done(RecoveryOutcome::Terminated)
            } else if obs.cpu_tenths < RECOVERY_CPU_TENTHS {
                RecoveryState::Done(RecoveryOutcome::Recovered)
            } else if !cfg.force {
                RecoveryState::Done(RecoveryOutcome::StillStuck)
            } else {
                RecoveryState::Terminating
            }
        },
        RecoveryState::Terminating => {
            if !obs.exists {
                RecoveryState::Done(RecoveryOutcome::Terminated)
            } else {
                RecoveryState::Killing
            }
        },
        RecoveryState::Killing => {
            if !obs.send_failed || !obs.exists {
                RecoveryState::Done(RecoveryOutcome::Terminated)
            } else {
                RecoveryState::Done(RecoveryOutcome::Failed(obs.error.clone()))
            }
        },
        RecoveryState::Done(o) => RecoveryState::Done(o),
    }
}

/// The signal the current stage sends, or none once the attempt is done.
pub fn signal_for(st: &RecoveryState) -> (r: Option<RecoverySignal>)
    ensures
        st is Waking ==> r == Some(RecoverySignal::Cont),
        st is Interrupting ==> r == Some(RecoverySignal::Int),
        st is Terminating ==> r == Some(RecoverySignal::Term),
        st is Killing ==> r == Some(RecoverySignal::Kill),
        st is Done ==> r is None,
{
    match st {
        RecoveryState::Waking => Some(RecoverySignal::Cont),
        RecoveryState::Interrupting => Some(RecoverySignal::Int),
        RecoveryState::Terminating => Some(RecoverySignal::Term),
        RecoveryState::Killing => Some(RecoverySignal::Kill),
        RecoveryState::Done(_) => None,
    }
}

/// The fixed settle wait, in seconds, between a stage's signal and its
/// probe: one second after wake, three after interrupt, five after
/// terminate, none after kill.
pub fn settle_seconds(st: &RecoveryState) -> (r: u64)
    ensures
        st is Waking ==> r == 1,
        st is Interrupting ==> r == 3,
        st is Terminating ==> r == 5,
        st is Killing ==> r == 0,
        st is Done ==> r == 0,
{
    match st {
        RecoveryState::Waking => 1,
        RecoveryState::Interrupting => 3,
        RecoveryState::Terminating => 5,
        RecoveryState::Killing => 0,
        RecoveryState::Done(_) => 0,
    }
}

/// The state an attempt reaches from `st` on a scripted sequence of
/// observations, one per stage.
pub open spec fn spec_run(
    cfg: RecoveryConfig,
    st: RecoveryState,
    script: Seq<Observation>,
) -> RecoveryState
    decreases script.len(),
{
    if script.len() == 0 || st is Done {
        st
    } else {
        spec_run(cfg, spec_step(cfg, st, script[0]), script.drop_first())
    }
}

/// Drive one whole attempt from its entry check through a scripted sequence
/// of observations.  The interactive driver instead alternates `signal_for`,
/// the stage's settle wait, a fresh probe, and `step`.
pub fn run_recovery(cfg: &RecoveryConfig, proc: &Process, script: &Vec<Observation>) -> (r:
    RecoveryState)
    ensures
        r == spec_run(*cfg, spec_start(*cfg, proc.cpu_tenths), script@),
{
    let ghost start_state = spec_start(*cfg, proc.cpu_tenths);
    let mut st = start(cfg, proc);
    let n = script.len();
    let mut i: usize = 0;
    proof {
        assert(script@.skip(0) =~= script@);
    }
    while i < n
        invariant
            0 <= i <= n,
            n == script@.len(),
            spec_run(*cfg, start_state, script@) == spec_run(*cfg, st, script@.skip(i as int)),
        decreases n - i,
    {
        proof {
            assert(script@.skip(i as int)[0] == script@[i as int]);
            assert(script@.skip(i as int).drop_first() =~= script@.skip(i as int + 1));
        }
        st = step(cfg, st, &script[i]);
        i = i + 1;
    }
    proof {
        assert(script@.skip(n as int) =~= Seq::<Observation>::empty());
    }
    st
}

/// A terminal outcome is absorbing: once an attempt is done, no further
/// observation changes the outcome and no further signal stage is entered.
pub proof fn law_outcome_terminal(cfg: RecoveryConfig, o: RecoveryOutcome, obs: Observation)
    ensures
        spec_step(cfg, RecoveryState::Done(o), obs) == RecoveryState::Done(o),
{
}

/// A process that disappears right after the interrupt signal classifies as
/// `Terminated` — never `StillStuck` and never `Failed`.
pub proof fn law_interrupt_disappearance(cfg: RecoveryConfig, obs: Observation)
    requires
        !obs.exists,
    ensures
        spec_step(cfg, RecoveryState::Interrupting, obs) == RecoveryState::Done(
            RecoveryOutcome::Terminated,
        ),
{
}

/// Without force the engine never enters an escalation stage, neither at
/// entry nor by any transition, so terminate and kill signals are never
/// sent.
pub proof fn law_no_escalation_without_force(
    cfg: RecoveryConfig,
    st: RecoveryState,
    obs: Observation,
    cpu_tenths: u32,
)
    requires
        !cfg.force,
    ensures
        spec_start(cfg, cpu_tenths) != RecoveryState::Terminating,
        spec_start(cfg, cpu_tenths) != RecoveryState::Killing,
        st != RecoveryState::Terminating && st != RecoveryState::Killing ==> spec_step(cfg, st, obs)
            != RecoveryState::Terminating && spec_step(cfg, st, obs) != RecoveryState::Killing,
{
}

/// Run-level form of the same law: a whole scripted run that starts outside
/// the escalation stages never reaches one without force.
pub proof fn law_run_no_escalation_without_force(
    cfg: RecoveryConfig,
    st: RecoveryState,
    script: Seq<Observation>,
)
    requires
        !cfg.force,
        st != RecoveryState::Terminating,
        st != RecoveryState::Killing,
    ensures
        spec_run(cfg, st, script) != RecoveryState::Terminating,
        spec_run(cfg, st, script) != RecoveryState::Killing,
    decreases script.len(),
{
    if script.len() == 0 || st is Done {
    } else {
        law_no_escalation_without_force(cfg, st, script[0], 0);
        law_run_no_escalation_without_force(cfg, spec_step(cfg, st, script[0]), script.drop_first());
    }
}

/// Every attempt reaches a terminal outcome within four observed stages.
pub proof fn law_run_terminates(cfg: RecoveryConfig, cpu_tenths: u32, script: Seq<Observation>)
    requires
        script.len() >= 4,
    ensures
        spec_run(cfg, spec_start(cfg, cpu_tenths), script) is Done,
{
    lemma_run_reaches_done(cfg, spec_start(cfg, cpu_tenths), script);
}

/// Distance of a stage from the end of the escalation ladder.
spec fn stage_bound(st: RecoveryState) -> nat {
    match st {
        RecoveryState::Waking => 4,
        RecoveryState::Interrupting => 3,
        RecoveryState::Terminating => 2,
        RecoveryState::Killing => 1,
        RecoveryState::Done(_) => 0,
    }
}

proof fn lemma_run_reaches_done(cfg: RecoveryConfig, st: RecoveryState, script: Seq<Observation>)
    requires
        script.len() >= stage_bound(st),
    ensures
        spec_run(cfg, st, script) is Done,
    decreases script.len(),
{
    if script.len() == 0 || st is Done {
    } else {
        assert(stage_bound(spec_step(cfg, st, script[0])) < stage_bound(st));
        lemma_run_reaches_done(cfg, spec_step(cfg, st, script[0]), script.drop_first());
    }
}

/// Tallies of each outcome kind in a batch, in the order recovered,
/// terminated, still stuck, not stuck, failed.
pub open spec fn outcome_tallies(s: Seq<RecoveryOutcome>) -> (nat, nat, nat, nat, nat)
    decreases s.len(),
{
    if s.len() == 0 {
        (0, 0, 0, 0, 0)
    } else {
        let r = outcome_tallies(s.drop_first());
        match s[0] {
            RecoveryOutcome::Recovered => (r.0 + 1, r.1, r.2, r.3, r.4),
            RecoveryOutcome::Terminated => (r.0, r.1 + 1, r.2, r.3, r.4),
            RecoveryOutcome::StillStuck => (r.0, r.1, r.2 + 1, r.3, r.4),
            RecoveryOutcome::NotStuck => (r.0, r.1, r.2, r.3 + 1, r.4),
            RecoveryOutcome::Failed(_) => (r.0, r.1, r.2, r.3, r.4 + 1),
        }
    }
}

/// Aggregate report over one batch of attempts.
#[derive(Debug, Clone, Copy, PartialEq, Eq, Structural)]
pub struct RecoverySummary {
    /// Attempts that ended `Recovered`.
    pub recovered: usize,
    /// Attempts that ended `Terminated`.
    pub terminated: usize,
    /// Attempts that ended `StillStuck`.
    pub still_stuck: usize,
    /// Attempts that ended `NotStuck`.
    pub not_stuck: usize,
    /// Attempts that ended `Failed`.
    pub failed: usize,
    /// Overall success: no attempt failed and none is still stuck.
    pub success: bool,
}

/// Tally a batch of outcomes.  Success means zero `Failed` and zero
/// `StillStuck`.
pub fn summarize(outcomes: &Vec<RecoveryOutcome>) -> (s: RecoverySummary)
    ensures
        ({
            let t = outcome_tallies(outcomes@);
            &&& s.recovered == t.0
            &&& s.terminated == t.1
            &&& s.still_stuck == t.2
            &&& s.not_stuck == t.3
            &&& s.failed == t.4
            &&& s.success == (t.4 == 0 && t.2 == 0)
        }),
{
    let mut recovered: usize = 0;
    let mut terminated: usize = 0;
    let mut still_stuck: usize = 0;
    let mut not_stuck: usize = 0;
    let mut failed: usize = 0;
    let n = outcomes.len();
    let mut i: usize = 0;
    proof {
        assert(outcomes@.skip(0) =~= outcomes@);
    }
    while i < n
        invariant
            0 <= i <= n,
            n == outcomes@.len(),
            recovered + terminated + still_stuck + not_stuck + failed == i,
            ({
                let t = outcome_tallies(outcomes@);
                let r = outcome_tallies(outcomes@.skip(i as int));
                &&& t.0 == recovered + r.0
                &&& t.1 == terminated + r.1
                &&& t.2 == still_stuck + r.2
                &&& t.3 == not_stuck + r.3
                &&& t.4 == failed + r.4
            }),
        decreases n - i,
    {
        proof {
            assert(outcomes@.skip(i as int)[0] == outcomes@[i as int]);
            assert(outcomes@.skip(i as int).drop_first() =~= outcomes@.skip(i as int + 1));
        }
        match &outcomes[i] {
            RecoveryOutcome::Recovered => {
                recovered = recovered + 1;
            },
            RecoveryOutcome::Terminated => {
                terminated = terminated + 1;
            },
            RecoveryOutcome::StillStuck => {
                still_stuck = still_stuck + 1;
            },
            RecoveryOutcome::NotStuck => {
                not_stuck = not_stuck + 1;
            },
            RecoveryOutcome::Failed(_) => {
                failed = failed + 1;
            },
        }
        i = i + 1;
    }
    proof {
        assert(outcomes@.skip(n as int) =~= Seq::<RecoveryOutcome>::empty());
    }
    RecoverySummary {
        recovered,
        terminated,
        still_stuck,
        not_stuck,
        failed,
        success: failed == 0 && still_stuck == 0,
    }
}

} // verus!
