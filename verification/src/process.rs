//! The process snapshot record and the pure queries over a snapshot:
//! lookup by pid, case-insensitive name search, and the stuck heuristic.
//!
//! A snapshot is a `Vec<Process>` taken in one pass over the operating
//! system's process table; enumeration itself happens outside the library.
//! CPU usage is held in tenths of a percent and memory in kilobytes, so that
//! the classification thresholds are exact integer comparisons.

use vstd::prelude::*;

use crate::error::ProcError;
use crate::text::{contains_seq, contains_str, lower_of, lowercase};

verus! {

/// A process is considered stuck while its CPU usage exceeds this many
/// tenths of a percent (50%).
pub const STUCK_CPU_TENTHS: u32 = 500;

/// Scheduling state of a process at snapshot time.
#[derive(Debug, Clone, Copy, PartialEq, Eq, Structural)]
pub enum ProcessStatus {
    /// Actively executing on a CPU.
    Running,
    /// Waiting for an event or resource.
    Sleeping,
    /// Stopped, for example by a stop signal.
    Stopped,
    /// Terminated but not yet reaped by its parent.
    Zombie,
    /// Being terminated.
    Dead,
    /// The status could not be determined.
    Unknown,
}

/// A system process as captured in one snapshot.  The record is immutable:
/// a fresh resolve produces a fresh record, and a pid may be reused by the
/// operating system after the process dies.
#[derive(Debug, Clone)]
pub struct Process {
    /// Process ID.
    pub pid: u32,
    /// Executable name.
    pub name: String,
    /// Path to the executable, when known.
    pub exe_path: Option<String>,
    /// Current working directory, when known.
    pub cwd: Option<String>,
    /// Full command line, when known.
    pub command: Option<String>,
    /// CPU usage in tenths of a percent; may exceed 1000 on multiple cores.
    pub cpu_tenths: u32,
    /// Resident memory in kilobytes.
    pub memory_kb: u64,
    /// Scheduling state.
    pub status: ProcessStatus,
    /// Owning user, when known.
    pub user: Option<String>,
    /// Parent process ID, when known.
    pub parent_pid: Option<u32>,
    /// Start time as unix seconds, when known.
    pub start_time: Option<u64>,
    /// Seconds the process has been running.
    pub run_time: u64,
}

fn clone_opt_string(o: &Option<String>) -> (r: Option<String>)
    ensures
        r == *o,
{
    match o {
        Some(s) => Some(s.clone()),
        None => None,
    }
}

/// The command line `p` is matched against: its `command` field, or the
/// empty string when none was captured.
pub open spec fn command_view(p: Process) -> Seq<char> {
    match p.command {
        Some(c) => c@,
        None => Seq::empty(),
    }
}

/// Case-insensitive substring match of `pat_lower` (already lowercased)
/// against the process name or its command line.
pub open spec fn proc_matches(p: Process, pat_lower: Seq<char>) -> bool {
    contains_seq(lower_of(p.name@), pat_lower) || contains_seq(
        lower_of(command_view(p)),
        pat_lower,
    )
}

/// The sub-sequence of `procs` matching `pat_lower`, in snapshot order.
pub open spec fn matching_procs(procs: Seq<Process>, pat_lower: Seq<char>) -> Seq<Process>
    decreases procs.len(),
{
    if procs.len() == 0 {
        Seq::empty()
    } else {
        let rest = matching_procs(procs.drop_first(), pat_lower);
        if proc_matches(procs[0], pat_lower) {
            seq![procs[0]] + rest
        } else {
            rest
        }
    }
}

/// First record in `procs` with the given pid, if any.
pub open spec fn spec_find_by_pid(procs: Seq<Process>, pid: u32) -> Option<Process>
    decreases procs.len(),
{
    if procs.len() == 0 {
        None
    } else if procs[0].pid == pid {
        Some(procs[0])
    } else {
        spec_find_by_pid(procs.drop_first(), pid)
    }
}

/// The stuck heuristic: sustained high CPU on a process that has already run
/// longer than `timeout_secs`.
pub open spec fn is_stuck_proc(p: Process, timeout_secs: u64) -> bool {
    p.run_time > timeout_secs && p.cpu_tenths > STUCK_CPU_TENTHS
}

/// The sub-sequence of `procs` classified stuck, in snapshot order.
pub open spec fn stuck_procs(procs: Seq<Process>, timeout_secs: u64) -> Seq<Process>
    decreases procs.len(),
{
    if procs.len() == 0 {
        Seq::empty()
    } else {
        let rest = stuck_procs(procs.drop_first(), timeout_secs);
        if is_stuck_proc(procs[0], timeout_secs) {
            seq![procs[0]] + rest
        } else {
            rest
        }
    }
}

impl Process {
    /// An equal copy of the record.
    pub fn duplicate(&self) -> (r: Process)
        ensures
            r == *self,
    {
        Process {
            pid: self.pid,
            name: self.name.clone(),
            exe_path: clone_opt_string(&self.exe_path),
            cwd: clone_opt_string(&self.cwd),
            command: clone_opt_string(&self.command),
            cpu_tenths: self.cpu_tenths,
            memory_kb: self.memory_kb,
            status: self.status,
            user: clone_opt_string(&self.user),
            parent_pid: self.parent_pid,
            start_time: self.start_time,
            run_time: self.run_time,
        }
    }

    /// All records in the snapshot whose name or command line contains
    /// `pattern`, compared case-insensitively.  Fails with `ProcessNotFound`
    /// exactly when nothing matches.
    pub fn find_by_name(procs: &Vec<Process>, pattern: &str) -> (r: Result<Vec<Process>, ProcError>)
        ensures
            match r {
                Ok(list) => list@ == matching_procs(procs@, lower_of(pattern@)) && list@.len() > 0,
                Err(e) => {
                    &&& matching_procs(procs@, lower_of(pattern@)).len() == 0
                    &&& e matches ProcError::ProcessNotFound(s) && s@ == pattern@
                },
            },
    {
        let ghost pat = lower_of(pattern@);
        let pattern_lower = lowercase(pattern);
        let mut result: Vec<Process> = Vec::new();
        let n = procs.len();
        let mut i: usize = 0;
        proof {
            assert(procs@.skip(0) =~= procs@);
        }
        while i < n
            invariant
                0 <= i <= n,
                n == procs@.len(),
                pattern_lower@ == pat,
                matching_procs(procs@, pat) =~= result@ + matching_procs(
                    procs@.skip(i as int),
                    pat,
                ),
            decreases n - i,
        {
            let p = &procs[i];
            let name_lower = lowercase(p.name.as_str());
            let cmd_lower = match &p.command {
                Some(c) => lowercase(c.as_str()),
                None => lowercase(""),
            };
            proof {
                reveal_strlit("");
                assert(""@ =~= Seq::<char>::empty());
                assert(cmd_lower@ == lower_of(command_view(procs@[i as int])));
                assert(procs@.skip(i as int)[0] == procs@[i as int]);
                assert(procs@.skip(i as int).drop_first() =~= procs@.skip(i as int + 1));
            }
            if contains_str(name_lower.as_str(), pattern_lower.as_str()) || contains_str(
                cmd_lower.as_str(),
                pattern_lower.as_str(),
            ) {
                result.push(p.duplicate());
            }
            i = i + 1;
        }
        proof {
            assert(procs@.skip(n as int) =~= Seq::<Process>::empty());
            assert(result@ =~= result@ + matching_procs(procs@.skip(n as int), pat));
        }
        if result.len() == 0 {
            Err(ProcError::ProcessNotFound(pattern.to_owned()))
        } else {
            Ok(result)
        }
    }

    /// The snapshot record with the given pid, if one exists.
    pub fn find_by_pid(procs: &Vec<Process>, pid: u32) -> (r: Option<Process>)
        ensures
            r == spec_find_by_pid(procs@, pid),
    {
        let n = procs.len();
        let mut i: usize = 0;
        proof {
            assert(procs@.skip(0) =~= procs@);
        }
        while i < n
            invariant
                0 <= i <= n,
                n == procs@.len(),
                spec_find_by_pid(procs@, pid) == spec_find_by_pid(procs@.skip(i as int), pid),
            decreases n - i,
        {
            proof {
                assert(procs@.skip(i as int)[0] == procs@[i as int]);
                assert(procs@.skip(i as int).drop_first() =~= procs@.skip(i as int + 1));
            }
            if procs[i].pid == pid {
                return Some(procs[i].duplicate());
            }
            i = i + 1;
        }
        proof {
            assert(procs@.skip(n as int) =~= Seq::<Process>::empty());
        }
        None
    }

    /// The stuck processes of a snapshot: run time above `timeout_secs` and
    /// CPU above the stuck threshold.  The snapshot should be the second of
    /// two time-separated samples, so that the CPU figure is meaningful.
    pub fn find_stuck(procs: &Vec<Process>, timeout_secs: u64) -> (r: Vec<Process>)
        ensures
            r@ == stuck_procs(procs@, timeout_secs),
    {
        let mut result: Vec<Process> = Vec::new();
        let n = procs.len();
        let mut i: usize = 0;
        proof {
            assert(procs@.skip(0) =~= procs@);
        }
        while i < n
            invariant
                0 <= i <= n,
                n == procs@.len(),
                stuck_procs(procs@, timeout_secs) =~= result@ + stuck_procs(
                    procs@.skip(i as int),
                    timeout_secs,
                ),
            decreases n - i,
        {
            proof {
                assert(procs@.skip(i as int)[0] == procs@[i as int]);
                assert(procs@.skip(i as int).drop_first() =~= procs@.skip(i as int + 1));
            }
            let p = &procs[i];
            if p.run_time > timeout_secs && p.cpu_tenths > STUCK_CPU_TENTHS {
                result.push(p.duplicate());
            }
            i = i + 1;
        }
        proof {
            assert(procs@.skip(n as int) =~= Seq::<Process>::empty());
            assert(result@ =~= result@ + stuck_procs(procs@.skip(n as int), timeout_secs));
        }
        result
    }
}

/// The records whose parent is `pid`, in snapshot order.
pub open spec fn children_of_spec(procs: Seq<Process>, pid: u32) -> Seq<Process>
    decreases procs.len(),
{
    if procs.len() == 0 {
        Seq::empty()
    } else {
        let rest = children_of_spec(procs.drop_first(), pid);
        if procs[0].parent_pid == Some(pid) {
            seq![procs[0]] + rest
        } else {
            rest
        }
    }
}

/// The chain from the record with pid `pid` up through its ancestors, as
/// far as the snapshot resolves them; `fuel` bounds the walk so that a
/// cyclic parent chain cannot run forever.
pub open spec fn spec_ancestry(procs: Seq<Process>, pid: u32, fuel: nat) -> Seq<Process>
    decreases fuel,
{
    if fuel == 0 {
        Seq::empty()
    } else {
        match spec_find_by_pid(procs, pid) {
            None => Seq::empty(),
            Some(p) => seq![p] + (match p.parent_pid {
                Some(pp) => spec_ancestry(procs, pp, (fuel - 1) as nat),
                None => Seq::empty(),
            }),
        }
    }
}

impl Process {
    /// The direct children of the process with the given pid.
    pub fn children_of(procs: &Vec<Process>, pid: u32) -> (r: Vec<Process>)
        ensures
            r@ == children_of_spec(procs@, pid),
    {
        let mut result: Vec<Process> = Vec::new();
        let n = procs.len();
        let mut i: usize = 0;
        proof {
            assert(procs@.skip(0) =~= procs@);
        }
        while i < n
            invariant
                0 <= i <= n,
                n == procs@.len(),
                children_of_spec(procs@, pid) =~= result@ + children_of_spec(
                    procs@.skip(i as int),
                    pid,
                ),
            decreases n - i,
        {
            proof {
                assert(procs@.skip(i as int)[0] == procs@[i as int]);
                assert(procs@.skip(i as int).drop_first() =~= procs@.skip(i as int + 1));
            }
            let keep = match procs[i].parent_pid {
                Some(pp) => pp == pid,
                None => false,
            };
            if keep {
                result.push(procs[i].duplicate());
            }
            i = i + 1;
        }
        proof {
            assert(procs@.skip(n as int) =~= Seq::<Process>::empty());
            assert(result@ =~= result@ + children_of_spec(procs@.skip(n as int), pid));
        }
        result
    }

    /// The ancestry of the process with the given pid, from the process
    /// itself up towards the root, stopping at an unresolvable parent and
    /// after at most one hundred links.
    pub fn ancestry_chain(procs: &Vec<Process>, pid: u32) -> (r: Vec<Process>)
        ensures
            r@ == spec_ancestry(procs@, pid, 100),
    {
        let mut result: Vec<Process> = Vec::new();
        let mut cur: Option<u32> = Some(pid);
        let mut fuel: u64 = 100;
        loop
            invariant_except_break
                fuel <= 100,
                spec_ancestry(procs@, pid, 100) =~= result@ + (match cur {
                    Some(c) => spec_ancestry(procs@, c, fuel as nat),
                    None => Seq::<Process>::empty(),
                }),
            ensures
                result@ == spec_ancestry(procs@, pid, 100),
            decreases fuel,
        {
            let c = match cur {
                Some(c) => c,
                None => {
                    break;
                },
            };
            if fuel == 0 {
                break;
            }
            match Process::find_by_pid(procs, c) {
                Some(p) => {
                    let parent = p.parent_pid;
                    result.push(p);
                    cur = parent;
                    fuel = fuel - 1;
                },
                None => {
                    break;
                },
            }
        }
        result
    }
}

/// Every process reported stuck really is in the snapshot, ran longer than
/// the timeout, and was above the CPU threshold in that sample.
pub proof fn law_stuck_members(procs: Seq<Process>, timeout_secs: u64, p: Process)
    requires
        stuck_procs(procs, timeout_secs).contains(p),
    ensures
        procs.contains(p),
        p.run_time > timeout_secs,
        p.cpu_tenths > STUCK_CPU_TENTHS,
    decreases procs.len(),
{
    if procs.len() > 0 {
        let rest = stuck_procs(procs.drop_first(), timeout_secs);
        if is_stuck_proc(procs[0], timeout_secs) && p == procs[0] {
            assert(procs.contains(p)) by {
                assert(procs[0] == p);
            }
        } else {
            assert(rest.contains(p)) by {
                if is_stuck_proc(procs[0], timeout_secs) {
                    let s = seq![procs[0]] + rest;
                    let j = choose|j: int| 0 <= j < s.len() && s[j] == p;
                    assert(rest[j - 1] == p);
                }
            }
            law_stuck_members(procs.drop_first(), timeout_secs, p);
            assert(procs.contains(p)) by {
                let j = choose|j: int|
                    0 <= j < procs.drop_first().len() && procs.drop_first()[j] == p;
                assert(procs[j + 1] == p);
            }
        }
    }
}

} // verus!
