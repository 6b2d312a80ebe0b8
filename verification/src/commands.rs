//! The computational core of the command layer: the sort/filter pipeline
//! behind process listings, and the resolution rules of the kill, stop,
//! stuck and unstick commands.  Argument parsing, confirmation prompts,
//! signal delivery and rendering happen outside the library; each command
//! struct here carries the fields those layers fill in and the pure logic
//! that decides what the command operates on.

use vstd::prelude::*;
use vstd::seq_lib::group_to_multiset_ensures;

use crate::error::ProcError;
use crate::recovery::{RecoveryConfig, RECOVERY_CPU_TENTHS};
use crate::target::{resolve_err_spec, resolve_target, spec_resolve_ok};
use crate::port::{port_digits, port_parse_ok, spec_find_by_port, PortInfo};
use crate::process::{matching_procs, spec_find_by_pid, stuck_procs, Process, STUCK_CPU_TENTHS};
use crate::text::{all_digits, digits_val, lower_of, lowercase, str_eq, trim, trim_spec};

verus! {

/// The orderings a process listing can be sorted by.
#[derive(Debug, Clone, Copy, PartialEq, Eq, Structural)]
pub enum SortKey {
    /// Descending CPU usage.
    Cpu,
    /// Descending memory usage.
    Mem,
    /// Ascending pid.
    Pid,
    /// Ascending lowercased name.
    Name,
    /// An unrecognized sort word: the listing keeps its order.
    Unsorted,
}

/// The sort key a (lowercased) sort word selects.
pub open spec fn spec_sort_key(ls: Seq<char>) -> SortKey {
    if ls == "cpu"@ {
        SortKey::Cpu
    } else if ls == "mem"@ || ls == "memory"@ {
        SortKey::Mem
    } else if ls == "pid"@ {
        SortKey::Pid
    } else if ls == "name"@ {
        SortKey::Name
    } else {
        SortKey::Unsorted
    }
}

/// Interpret a sort word, case-insensitively.
pub fn sort_key_of(sort: &str) -> (k: SortKey)
    ensures
        k == spec_sort_key(lower_of(sort@)),
{
    let ls = lowercase(sort);
    if str_eq(ls.as_str(), "cpu") {
        SortKey::Cpu
    } else if str_eq(ls.as_str(), "mem") || str_eq(ls.as_str(), "memory") {
        SortKey::Mem
    } else if str_eq(ls.as_str(), "pid") {
        SortKey::Pid
    } else if str_eq(ls.as_str(), "name") {
        SortKey::Name
    } else {
        SortKey::Unsorted
    }
}

/// Lexicographic order on character sequences by code point, the order
/// `str` comparison uses.
pub open spec fn lex_le(a: Seq<char>, b: Seq<char>) -> bool
    decreases a.len(),
{
    if a.len() == 0 {
        true
    } else if b.len() == 0 {
        false
    } else if (a[0] as u32) < (b[0] as u32) {
        true
    } else if (a[0] as u32) > (b[0] as u32) {
        false
    } else {
        lex_le(a.drop_first(), b.drop_first())
    }
}

proof fn lemma_lex_le_total(a: Seq<char>, b: Seq<char>)
    ensures
        lex_le(a, b) || lex_le(b, a),
    decreases a.len(),
{
    if a.len() == 0 || b.len() == 0 {
    } else if (a[0] as u32) == (b[0] as u32) {
        lemma_lex_le_total(a.drop_first(), b.drop_first());
    }
}

proof fn lemma_lex_le_trans(a: Seq<char>, b: Seq<char>, c: Seq<char>)
    requires
        lex_le(a, b),
        lex_le(b, c),
    ensures
        lex_le(a, c),
    decreases a.len(),
{
    if a.len() == 0 || b.len() == 0 || c.len() == 0 {
    } else if (a[0] as u32) == (b[0] as u32) && (b[0] as u32) == (c[0] as u32) {
        lemma_lex_le_trans(a.drop_first(), b.drop_first(), c.drop_first());
    }
}

/// Compare `a` and `b` as strings, character by character.
pub fn lex_le_str(a: &str, b: &str) -> (r: bool)
    ensures
        r == lex_le(a@, b@),
{
    let na = a.unicode_len();
    let nb = b.unicode_len();
    let mut i: usize = 0;
    proof {
        assert(a@.skip(0) =~= a@);
        assert(b@.skip(0) =~= b@);
    }
    loop
        invariant
            0 <= i <= na,
            i <= nb,
            na == a@.len(),
            nb == b@.len(),
            lex_le(a@, b@) == lex_le(a@.skip(i as int), b@.skip(i as int)),
        decreases na - i,
    {
        if i == na {
            proof {
                assert(a@.skip(i as int).len() == 0);
            }
            return true;
        }
        if i == nb {
            proof {
                assert(a@.skip(i as int).len() > 0);
                assert(b@.skip(i as int).len() == 0);
            }
            return false;
        }
        let ca = a.get_char(i);
        let cb = b.get_char(i);
        proof {
            assert(a@.skip(i as int)[0] == a@[i as int]);
            assert(b@.skip(i as int)[0] == b@[i as int]);
            assert(a@.skip(i as int).drop_first() =~= a@.skip(i as int + 1));
            assert(b@.skip(i as int).drop_first() =~= b@.skip(i as int + 1));
        }
        if (ca as u32) < (cb as u32) {
            return true;
        }
        if (ca as u32) > (cb as u32) {
            return false;
        }
        i = i + 1;
    }
}

/// The order `key` imposes between two records.
pub open spec fn sort_le(key: SortKey, a: Process, b: Process) -> bool {
    match key {
        SortKey::Cpu => a.cpu_tenths >= b.cpu_tenths,
        SortKey::Mem => a.memory_kb >= b.memory_kb,
        SortKey::Pid => a.pid <= b.pid,
        SortKey::Name => lex_le(lower_of(a.name@), lower_of(b.name@)),
        SortKey::Unsorted => true,
    }
}

/// `s` is ordered under `key`.
pub open spec fn sorted_by_key(key: SortKey, s: Seq<Process>) -> bool {
    forall|i: int, j: int| 0 <= i < j < s.len() ==> sort_le(key, #[trigger] s[i], #[trigger] s[j])
}

proof fn lemma_sort_le_total(key: SortKey, a: Process, b: Process)
    ensures
        sort_le(key, a, b) || sort_le(key, b, a),
{
    if key is Name {
        lemma_lex_le_total(lower_of(a.name@), lower_of(b.name@));
    }
}

proof fn lemma_sort_le_trans(key: SortKey, a: Process, b: Process, c: Process)
    requires
        sort_le(key, a, b),
        sort_le(key, b, c),
    ensures
        sort_le(key, a, c),
{
    if key is Name {
        lemma_lex_le_trans(lower_of(a.name@), lower_of(b.name@), lower_of(c.name@));
    }
}

fn le_exec(key: SortKey, a: &Process, b: &Process) -> (r: bool)
    ensures
        r == sort_le(key, *a, *b),
{
    match key {
        SortKey::Cpu => a.cpu_tenths >= b.cpu_tenths,
        SortKey::Mem => a.memory_kb >= b.memory_kb,
        SortKey::Pid => a.pid <= b.pid,
        SortKey::Name => {
            let la = lowercase(a.name.as_str());
            let lb = lowercase(b.name.as_str());
            lex_le_str(la.as_str(), lb.as_str())
        },
        SortKey::Unsorted => true,
    }
}

/// Sort a listing by `key`; an unrecognized key keeps the given order.
/// The result is a permutation of the input ordered under the key.
pub fn sort_processes(list: Vec<Process>, key: SortKey) -> (r: Vec<Process>)
    ensures
        r@.to_multiset() == list@.to_multiset(),
        sorted_by_key(key, r@),
        key is Unsorted ==> r@ == list@,
{
    broadcast use group_to_multiset_ensures;

    if let SortKey::Unsorted = key {
        return list;
    }
    let mut v = list;
    if v.len() <= 1 {
        return v;
    }
    let mut i: usize = 1;
    while i < v.len()
        invariant
            1 <= i <= v@.len(),
            v@.to_multiset() == list@.to_multiset(),
            !(key is Unsorted),
            forall|a: int, b: int|
                0 <= a < b < i ==> sort_le(key, #[trigger] v@[a], #[trigger] v@[b]),
        decreases v@.len() - i,
    {
        let ghost v_old = v@;
        let x = v.remove(i);
        let ghost w = v@;
        proof {
            assert(forall|j: int| 0 <= j < i ==> w[j] == v_old[j]);
        }
        let mut k: usize = 0;
        while k < i && le_exec(key, &v[k], &x)
            invariant
                0 <= k <= i,
                i < v_old.len(),
                w == v@,
                w.len() == v_old.len() - 1,
                i <= w.len(),
                forall|j: int| 0 <= j < k ==> sort_le(key, #[trigger] w[j], x),
            decreases i - k,
        {
            k = k + 1;
        }
        v.insert(k, x);
        proof {
            assert(v@ == w.insert(k as int, x));
            assert(v@.to_multiset() == list@.to_multiset()) by {
                vstd::seq_lib::to_multiset_remove::<Process>(v_old, i as int);
                assert(w.to_multiset() == v_old.to_multiset().remove(v_old[i as int]));
                vstd::seq_lib::to_multiset_insert::<Process>(w, k as int, x);
                assert(v@.to_multiset() == w.to_multiset().insert(x));
                assert(v_old.to_multiset().count(v_old[i as int]) > 0) by {
                    vstd::seq_lib::to_multiset_contains::<Process>(v_old, v_old[i as int]);
                    assert(v_old.contains(v_old[i as int]));
                }
                assert(v@.to_multiset() =~= v_old.to_multiset());
            }
            assert forall|a: int, b: int| 0 <= a < b < i + 1 implies sort_le(
                key,
                #[trigger] v@[a],
                #[trigger] v@[b],
            ) by {
                let ki = k as int;
                if k < i {
                    assert(!sort_le(key, w[ki], x));
                    lemma_sort_le_total(key, w[ki], x);
                }
                if b < ki {
                    assert(v@[a] == w[a] && v@[b] == w[b]);
                } else if b == ki {
                    assert(v@[b] == x);
                    assert(sort_le(key, w[a], x));
                } else {
                    assert(v@[b] == w[b - 1]);
                    if a < ki {
                        assert(v@[a] == w[a]);
                        if a < b - 1 {
                            assert(sort_le(key, w[a], w[b - 1]));
                        }
                    } else if a == ki {
                        assert(v@[a] == x);
                        assert(sort_le(key, x, w[ki]));
                        if ki < b - 1 {
                            assert(sort_le(key, w[ki], w[b - 1]));
                            lemma_sort_le_trans(key, x, w[ki], w[b - 1]);
                        }
                    } else {
                        assert(v@[a] == w[a - 1]);
                        assert(sort_le(key, w[a - 1], w[b - 1]));
                    }
                }
            }
        }
        i = i + 1;
    }
    v
}

fn duplicate_procs(procs: &Vec<Process>) -> (r: Vec<Process>)
    ensures
        r@ == procs@,
{
    let mut result: Vec<Process> = Vec::new();
    let n = procs.len();
    let mut i: usize = 0;
    while i < n
        invariant
            0 <= i <= n,
            n == procs@.len(),
            result@ =~= procs@.take(i as int),
        decreases n - i,
    {
        result.push(procs[i].duplicate());
        proof {
            assert(result@ =~= procs@.take(i as int + 1));
        }
        i = i + 1;
    }
    proof {
        assert(procs@.take(n as int) =~= procs@);
    }
    result
}

/// Find processes by name, or list them all.
#[derive(Debug)]
pub struct FindCommand {
    /// Name pattern to search for; optional when listing all.
    pub name: Option<String>,
    /// List all running processes.
    pub all: bool,
    /// Output as JSON.
    pub json: bool,
    /// Show verbose output.
    pub verbose: bool,
    /// Keep only this many results.
    pub limit: Option<usize>,
    /// Sort word: cpu, mem, pid or name.
    pub sort: String,
}

/// The unsorted listing the find command starts from: everything when
/// listing all, otherwise the name matches — `None` when a name was given
/// and nothing matches.
pub open spec fn find_base_ok(cmd: FindCommand, procs: Seq<Process>) -> Option<Seq<Process>> {
    if cmd.all {
        Some(procs)
    } else {
        match cmd.name {
            Some(nm) => {
                let m = matching_procs(procs, lower_of(nm@));
                if m.len() == 0 {
                    None
                } else {
                    Some(m)
                }
            },
            None => Some(procs),
        }
    }
}

/// The length a limit truncates a listing of length `len` to.
pub open spec fn limited_len(limit: Option<usize>, len: int) -> int {
    match limit {
        Some(l) => if l < len {
            l as int
        } else {
            len
        },
        None => len,
    }
}

impl FindCommand {
    /// Compute the listing: the matching (or full) snapshot, ordered by the
    /// sort word and cut to the limit.  Fails with `ProcessNotFound` exactly
    /// when a name was given and nothing matches it.
    pub fn execute(&self, procs: &Vec<Process>) -> (r: Result<Vec<Process>, ProcError>)
        ensures
            match r {
                Ok(list) => find_base_ok(*self, procs@) matches Some(base) && exists|
                    s: Seq<Process>,
                |
                    {
                        &&& #[trigger] s.to_multiset() == base.to_multiset()
                        &&& sorted_by_key(spec_sort_key(lower_of(self.sort@)), s)
                        &&& (spec_sort_key(lower_of(self.sort@)) is Unsorted ==> s == base)
                        &&& list@ == s.take(limited_len(self.limit, s.len() as int))
                    },
                Err(e) => {
                    &&& find_base_ok(*self, procs@) is None
                    &&& self.name matches Some(nm) && (e matches ProcError::ProcessNotFound(s)
                        && s@ == nm@)
                },
            },
    {
        let base = if self.all {
            duplicate_procs(procs)
        } else {
            match &self.name {
                Some(nm) => match Process::find_by_name(procs, nm.as_str()) {
                    Ok(list) => list,
                    Err(e) => {
                        return Err(e);
                    },
                },
                None => duplicate_procs(procs),
            }
        };
        let key = sort_key_of(self.sort.as_str());
        let mut sorted = sort_processes(base, key);
        let ghost s = sorted@;
        if let Some(l) = self.limit {
            sorted.truncate(l);
        }
        proof {
            assert(sorted@ =~= s.take(limited_len(self.limit, s.len() as int)));
        }
        Ok(sorted)
    }
}

/// Kill processes named by a target.
#[derive(Debug)]
pub struct KillCommand {
    /// Target: process name, pid, or `:port`.
    pub target: String,
    /// Skip the confirmation prompt.
    pub yes: bool,
    /// Show what would be killed without killing.
    pub dry_run: bool,
    /// Output as JSON.
    pub json: bool,
    /// Show verbose output.
    pub verbose: bool,
    /// Send the graceful terminate signal instead of the forceful kill.
    pub graceful: bool,
}

/// The port lookup the kill command uses: the socket on `port`, then its
/// owner in the process snapshot.
pub open spec fn kill_port_lookup(
    port: u16,
    procs: Seq<Process>,
    ports: Seq<PortInfo>,
    r: Result<Vec<Process>, ProcError>,
) -> bool {
    match spec_find_by_port(ports, port) {
        None => r matches Err(e) && (e matches ProcError::PortNotFound(p) && p == port),
        Some(pi) => match spec_find_by_pid(procs, pi.pid) {
            None => r matches Err(e) && (e matches ProcError::ProcessGone(g) && g == pi.pid),
            Some(pr) => r matches Ok(list) && list@ == seq![pr],
        },
    }
}

/// Does the port lookup succeed end to end?
pub open spec fn spec_port_resolves(port: u16, procs: Seq<Process>, ports: Seq<PortInfo>) -> bool {
    match spec_find_by_port(ports, port) {
        Some(pi) => spec_find_by_pid(procs, pi.pid) is Some,
        None => false,
    }
}

/// The kill command's own target precedence: `:port` syntax must parse as a
/// port or the command errors; a bare number small enough to be a port is
/// tried as a port first and falls back to a pid; anything else is a name.
pub open spec fn kill_resolve_spec(
    target: Seq<char>,
    procs: Seq<Process>,
    ports: Seq<PortInfo>,
    r: Result<Vec<Process>, ProcError>,
) -> bool {
    let t = trim_spec(target);
    if t.len() > 0 && t[0] == ':' {
        if !port_parse_ok(target) {
            r matches Err(e) && (e matches ProcError::InvalidInput(m) && m@ == "Invalid port: '"@
                + t + "'"@)
        } else {
            kill_port_lookup(digits_val(port_digits(target)) as u16, procs, ports, r)
        }
    } else if t.len() > 0 && all_digits(t) && digits_val(t) <= u32::MAX {
        let pid = digits_val(t) as u32;
        if pid <= 65535 && spec_port_resolves(pid as u16, procs, ports) {
            kill_port_lookup(pid as u16, procs, ports, r)
        } else {
            match spec_find_by_pid(procs, pid) {
                Some(pr) => r matches Ok(list) && list@ == seq![pr],
                None => r matches Err(e) && (e matches ProcError::ProcessNotFound(s) && s@ == t),
            }
        }
    } else {
        let m = matching_procs(procs, lower_of(t));
        if m.len() == 0 {
            r matches Err(e) && (e matches ProcError::ProcessNotFound(s) && s@ == t)
        } else {
            r matches Ok(list) && list@ == m
        }
    }
}

impl KillCommand {
    /// The socket on `port` and its owning process, with `PortNotFound` and
    /// `ProcessGone` telling a dead port from a vanished owner.
    pub fn find_by_port(&self, procs: &Vec<Process>, ports: &Vec<PortInfo>, port: u16) -> (r:
        Result<Vec<Process>, ProcError>)
        ensures
            kill_port_lookup(port, procs@, ports@, r),
    {
        match PortInfo::find_by_port(ports, port) {
            Some(pi) => match Process::find_by_pid(procs, pi.pid) {
                Some(pr) => {
                    let mut v: Vec<Process> = Vec::new();
                    v.push(pr);
                    proof {
                        assert(v@ =~= seq![spec_find_by_pid(procs@, pi.pid)->Some_0]);
                    }
                    Ok(v)
                },
                None => Err(ProcError::ProcessGone(pi.pid)),
            },
            None => Err(ProcError::PortNotFound(port)),
        }
    }

    /// Resolve this command's target with the kill precedence.
    pub fn resolve_target(&self, procs: &Vec<Process>, ports: &Vec<PortInfo>) -> (r: Result<
        Vec<Process>,
        ProcError,
    >)
        ensures
            kill_resolve_spec(self.target@, procs@, ports@, r),
    {
        let target = trim(self.target.as_str());
        proof {
            crate::text::lemma_trim_idempotent(self.target@);
        }
        let n = target.unicode_len();
        if n > 0 && target.get_char(0) == ':' {
            let port = match crate::port::parse_port(target) {
                Ok(p) => p,
                Err(e) => {
                    return Err(e);
                },
            };
            return self.find_by_port(procs, ports, port);
        }
        match crate::text::parse_decimal_u32(target) {
            Some(pid) => {
                if pid <= 65535 {
                    match self.find_by_port(procs, ports, pid as u16) {
                        Ok(list) => {
                            if list.len() > 0 {
                                return Ok(list);
                            }
                        },
                        Err(_) => {},
                    }
                }
                match Process::find_by_pid(procs, pid) {
                    Some(pr) => {
                        let mut v: Vec<Process> = Vec::new();
                        v.push(pr);
                        proof {
                            assert(v@ =~= seq![spec_find_by_pid(procs@, pid)->Some_0]);
                        }
                        Ok(v)
                    },
                    None => Err(ProcError::ProcessNotFound(target.to_owned())),
                }
            },
            None => Process::find_by_name(procs, target),
        }
    }
}

/// Stop processes gracefully, escalating after a timeout.
#[derive(Debug)]
pub struct StopCommand {
    /// Target: process name, pid, or `:port`.
    pub target: String,
    /// Skip the confirmation prompt.
    pub yes: bool,
    /// Output as JSON.
    pub json: bool,
    /// Seconds to wait for a graceful exit before the forceful kill.
    pub timeout: u64,
}

impl StopCommand {
    /// The processes this command operates on, by the standard target
    /// grammar.
    pub fn find_target_processes(&self, procs: &Vec<Process>, ports: &Vec<PortInfo>) -> (r: Result<
        Vec<Process>,
        ProcError,
    >)
        ensures
            match r {
                Ok(list) => spec_resolve_ok(self.target@, procs@, ports@) == Some(list@),
                Err(e) => spec_resolve_ok(self.target@, procs@, ports@) is None && resolve_err_spec(
                    self.target@,
                    procs@,
                    ports@,
                    e,
                ),
            },
    {
        resolve_target(self.target.as_str(), procs, ports)
    }
}

/// Find stuck processes, optionally killing them.
#[derive(Debug)]
pub struct StuckCommand {
    /// Seconds of run time before a busy process counts as stuck.
    pub timeout: u64,
    /// Kill the stuck processes that are found.
    pub kill: bool,
    /// Skip the confirmation prompt when killing.
    pub yes: bool,
    /// Output as JSON.
    pub json: bool,
    /// Show verbose output.
    pub verbose: bool,
}

impl StuckCommand {
    /// The stuck processes of the snapshot under this command's timeout.
    /// The snapshot should be the second of two time-separated samples.
    pub fn stuck_processes(&self, procs: &Vec<Process>) -> (r: Vec<Process>)
        ensures
            r@ == stuck_procs(procs@, self.timeout),
    {
        Process::find_stuck(procs, self.timeout)
    }
}

/// Attempt to recover stuck processes, terminating only with force.
#[derive(Debug)]
pub struct UnstickCommand {
    /// Explicit target; stuck processes are auto-discovered when absent.
    pub target: Option<String>,
    /// Seconds of run time before a busy process counts as stuck, for
    /// auto-discovery.
    pub timeout: u64,
    /// Terminate processes that recovery does not help.
    pub force: bool,
    /// Skip the confirmation prompt.
    pub yes: bool,
    /// Show what would be done without doing it.
    pub dry_run: bool,
    /// Output as JSON.
    pub json: bool,
}

impl UnstickCommand {
    /// Resolve an explicit target, folding every resolution failure into
    /// `ProcessNotFound` on the target string.
    pub fn resolve_target_processes(
        &self,
        target: &str,
        procs: &Vec<Process>,
        ports: &Vec<PortInfo>,
    ) -> (r: Result<Vec<Process>, ProcError>)
        ensures
            match r {
                Ok(list) => spec_resolve_ok(target@, procs@, ports@) == Some(list@),
                Err(e) => spec_resolve_ok(target@, procs@, ports@) is None && (e matches
                    ProcError::ProcessNotFound(s) && s@ == target@),
            },
    {
        match resolve_target(target, procs, ports) {
            Ok(v) => Ok(v),
            Err(_) => Err(ProcError::ProcessNotFound(target.to_owned())),
        }
    }

    /// Does the record meet the stuck threshold?
    pub fn is_stuck(&self, proc: &Process) -> (b: bool)
        ensures
            b == (proc.cpu_tenths > STUCK_CPU_TENTHS),
    {
        proc.cpu_tenths > STUCK_CPU_TENTHS
    }

    /// Judge recovery on a fresh lookup of the process: recovered means it
    /// exists and its CPU is below the recovery threshold.
    pub fn check_recovered(&self, lookup: &Option<Process>) -> (b: bool)
        ensures
            b == (lookup matches Some(p) && p.cpu_tenths < RECOVERY_CPU_TENTHS),
    {
        match lookup {
            Some(p) => p.cpu_tenths < RECOVERY_CPU_TENTHS,
            None => false,
        }
    }

    /// The engine configuration this invocation runs with.
    pub fn config(&self, can_signal: bool) -> (c: RecoveryConfig)
        ensures
            c.targeted == self.target is Some,
            c.force == self.force,
            c.can_signal == can_signal,
    {
        RecoveryConfig { targeted: self.target.is_some(), force: self.force, can_signal }
    }
}

} // verus!
