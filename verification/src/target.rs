//! Target interpretation and resolution.
//!
//! A target is a user-supplied string naming one or more processes: `:3000`
//! for whatever listens on port 3000, `1234` for a pid, anything else for a
//! case-insensitive name match.  Parsing is a pure function of the string;
//! resolution is a pure query over the process and socket snapshots it is
//! handed, and never sends a signal.

use vstd::prelude::*;
use vstd::string::*;

use crate::error::ProcError;
use crate::port::{port_digits, port_parse_ok, spec_find_by_port, PortInfo};
use crate::process::{matching_procs, spec_find_by_pid, Process};
use crate::text::{all_digits, dec_digits, digits_val, lower_of, trim, trim_spec, u64_to_string};

verus! {

/// How a target string was interpreted.
#[derive(Debug, Clone)]
pub enum TargetType {
    /// Target the process listening on this port (written `:3000`).
    Port(u16),
    /// Target the process with this process ID (written `1234`).
    Pid(u32),
    /// Target processes whose name or command line contains this string.
    Name(String),
}

/// `s` is read as a port target: after trimming it starts with `':'` and the
/// remainder is a digit run valued at most 65535.
pub open spec fn is_port_target(s: Seq<char>) -> bool {
    let t = trim_spec(s);
    t.len() > 0 && t[0] == ':' && port_parse_ok(s)
}

/// The port a port target names.
pub open spec fn target_port(s: Seq<char>) -> u16 {
    digits_val(port_digits(s)) as u16
}

/// `s` is read as a pid target: not a port target, and the trimmed string is
/// a digit run fitting in 32 bits.
pub open spec fn is_pid_target(s: Seq<char>) -> bool {
    let t = trim_spec(s);
    !is_port_target(s) && t.len() > 0 && all_digits(t) && digits_val(t) <= u32::MAX
}

/// The pid a pid target names.
pub open spec fn target_pid(s: Seq<char>) -> u32 {
    digits_val(trim_spec(s)) as u32
}

/// Interpret a target string.  Port syntax wins over pid syntax, and
/// anything that is neither is a name; a `':'`-prefixed string that fails to
/// parse as a port is deliberately not retried as a name.
pub fn parse_target(target: &str) -> (r: TargetType)
    ensures
        is_port_target(target@) ==> r == TargetType::Port(target_port(target@)),
        is_pid_target(target@) ==> r == TargetType::Pid(target_pid(target@)),
        !is_port_target(target@) && !is_pid_target(target@) ==> (r matches TargetType::Name(s)
            && s@ == trim_spec(target@)),
{
    let trimmed = trim(target);
    let n = trimmed.unicode_len();
    if n > 0 && trimmed.get_char(0) == ':' {
        match crate::port::parse_port(target) {
            Ok(port) => {
                return TargetType::Port(port);
            },
            Err(_) => {},
        }
    }
    match crate::text::parse_decimal_u32(trimmed) {
        Some(pid) => TargetType::Pid(pid),
        None => TargetType::Name(trimmed.to_owned()),
    }
}

/// Index of the first comma in `s`, or `s.len()` if there is none.
pub open spec fn first_comma(s: Seq<char>) -> int
    decreases s.len(),
{
    if s.len() == 0 {
        0
    } else if s[0] == ',' {
        0
    } else {
        1 + first_comma(s.drop_first())
    }
}

/// The comma-separated pieces of `s`, each trimmed, empty pieces dropped,
/// order preserved.
pub open spec fn clean_targets(s: Seq<char>) -> Seq<Seq<char>>
    decreases s.len(),
{
    let i = first_comma(s);
    if 0 <= i < s.len() {
        let piece = trim_spec(s.take(i));
        let rest = clean_targets(s.skip(i + 1));
        if piece.len() > 0 {
            seq![piece] + rest
        } else {
            rest
        }
    } else {
        let piece = trim_spec(s);
        if piece.len() > 0 {
            seq![piece]
        } else {
            Seq::empty()
        }
    }
}

proof fn lemma_first_comma_at(s: Seq<char>, i: int)
    requires
        0 <= i <= s.len(),
        forall|k: int| 0 <= k < i ==> #[trigger] s[k] != ',',
        i < s.len() ==> s[i] == ',',
    ensures
        first_comma(s) == i,
    decreases i,
{
    if s.len() == 0 {
    } else if i == 0 {
    } else {
        lemma_first_comma_at(s.drop_first(), i - 1);
    }
}

/// Split a comma-separated target list into its individual target strings,
/// trimming each and dropping empty pieces.
pub fn parse_targets(targets_str: &str) -> (r: Vec<String>)
    ensures
        r.deep_view() == clean_targets(targets_str@),
{
    let n = targets_str.unicode_len();
    let mut result: Vec<String> = Vec::new();
    let mut pos: usize = 0;
    proof {
        assert(targets_str@.skip(0) =~= targets_str@);
        assert(result.deep_view() =~= Seq::<Seq<char>>::empty());
    }
    loop
        invariant_except_break
            0 <= pos <= n,
            n == targets_str@.len(),
            clean_targets(targets_str@) =~= result.deep_view() + clean_targets(
                targets_str@.skip(pos as int),
            ),
        ensures
            result.deep_view() == clean_targets(targets_str@),
        decreases n - pos,
    {
        let ghost suffix = targets_str@.skip(pos as int);
        let mut j: usize = pos;
        while j < n && targets_str.get_char(j) != ','
            invariant
                pos <= j <= n,
                n == targets_str@.len(),
                forall|k: int| pos <= k < j ==> #[trigger] targets_str@[k] != ',',
            decreases n - j,
        {
            j = j + 1;
        }
        proof {
            assert(forall|k: int| 0 <= k < j - pos ==> #[trigger] suffix[k] != ',');
            lemma_first_comma_at(suffix, j - pos);
        }
        let piece = targets_str.substring_char(pos, j);
        let trimmed = trim(piece);
        proof {
            assert(suffix.take(j - pos) =~= targets_str@.subrange(pos as int, j as int));
            assert(suffix =~= targets_str@.subrange(pos as int, n as int));
        }
        let ghost old_deep = result.deep_view();
        if trimmed.unicode_len() > 0 {
            result.push(trimmed.to_owned());
            proof {
                assert(result.deep_view() =~= old_deep + seq![trimmed@]);
            }
        }
        if j == n {
            proof {
                assert(first_comma(suffix) == n - pos);
                assert(!(0 <= first_comma(suffix) < suffix.len()));
                assert(suffix =~= targets_str@.subrange(pos as int, n as int));
                assert(trim_spec(suffix) == trimmed@);
            }
            break;
        }
        proof {
            assert(suffix.skip(j - pos + 1) =~= targets_str@.skip(j as int + 1));
        }
        pos = j + 1;
    }
    result
}

/// The comma-joined form of a list of target strings.
pub open spec fn join_commas(ts: Seq<Seq<char>>) -> Seq<char>
    decreases ts.len(),
{
    if ts.len() == 0 {
        Seq::empty()
    } else if ts.len() == 1 {
        ts[0]
    } else {
        ts[0] + seq![','] + join_commas(ts.drop_first())
    }
}

/// Splitting a comma list is idempotent on already-clean lists: pieces that
/// are non-empty, trimmed, and free of commas come back exactly as they
/// were when their joined form is split again.
pub proof fn law_parse_targets_idempotent(ts: Seq<Seq<char>>)
    requires
        forall|i: int| 0 <= i < ts.len() ==> (#[trigger] ts[i]).len() > 0,
        forall|i: int| 0 <= i < ts.len() ==> trim_spec(#[trigger] ts[i]) == ts[i],
        forall|i: int, k: int| 0 <= i < ts.len() && 0 <= k < ts[i].len() ==> #[trigger] ts[i][k]
            != ',',
    ensures
        clean_targets(join_commas(ts)) == ts,
    decreases ts.len(),
{
    let s = join_commas(ts);
    if ts.len() == 0 {
        lemma_first_comma_at(s, 0);
    } else if ts.len() == 1 {
        assert(s == ts[0]);
        assert(forall|k: int| 0 <= k < s.len() ==> #[trigger] s[k] != ',');
        lemma_first_comma_at(s, s.len() as int);
        assert(clean_targets(s) =~= ts);
    } else {
        let head = ts[0];
        let tail = join_commas(ts.drop_first());
        assert(s == head + seq![','] + tail);
        let hl = head.len() as int;
        assert(forall|k: int| 0 <= k < hl ==> #[trigger] s[k] == head[k]);
        assert(s[hl] == ',');
        lemma_first_comma_at(s, hl);
        assert(s.take(hl) =~= head);
        assert(s.skip(hl + 1) =~= tail);
        law_parse_targets_idempotent(ts.drop_first());
        assert(clean_targets(s) =~= seq![head] + ts.drop_first());
        assert(seq![head] + ts.drop_first() =~= ts);
    }
}

/// The socket records of `ports` owned by `pid`, in snapshot order.
pub open spec fn ports_of_pid(ports: Seq<PortInfo>, pid: u32) -> Seq<PortInfo>
    decreases ports.len(),
{
    if ports.len() == 0 {
        Seq::empty()
    } else {
        let rest = ports_of_pid(ports.drop_first(), pid);
        if ports[0].pid == pid {
            seq![ports[0]] + rest
        } else {
            rest
        }
    }
}

/// All ports the process with the given pid is listening on, filtered from
/// the socket snapshot.
pub fn find_ports_for_pid(ports: &Vec<PortInfo>, pid: u32) -> (r: Vec<PortInfo>)
    ensures
        r@ == ports_of_pid(ports@, pid),
{
    let mut result: Vec<PortInfo> = Vec::new();
    let n = ports.len();
    let mut i: usize = 0;
    proof {
        assert(ports@.skip(0) =~= ports@);
    }
    while i < n
        invariant
            0 <= i <= n,
            n == ports@.len(),
            ports_of_pid(ports@, pid) =~= result@ + ports_of_pid(ports@.skip(i as int), pid),
        decreases n - i,
    {
        proof {
            assert(ports@.skip(i as int)[0] == ports@[i as int]);
            assert(ports@.skip(i as int).drop_first() =~= ports@.skip(i as int + 1));
        }
        if ports[i].pid == pid {
            result.push(ports[i].duplicate());
        }
        i = i + 1;
    }
    proof {
        assert(ports@.skip(n as int) =~= Seq::<PortInfo>::empty());
        assert(result@ =~= result@ + ports_of_pid(ports@.skip(n as int), pid));
    }
    result
}

/// Successful resolution of one target string against the two snapshots:
/// the processes it names, or `None` when resolution fails.
pub open spec fn spec_resolve_ok(
    target: Seq<char>,
    procs: Seq<Process>,
    ports: Seq<PortInfo>,
) -> Option<Seq<Process>> {
    if is_port_target(target) {
        match spec_find_by_port(ports, target_port(target)) {
            None => None,
            Some(pi) => match spec_find_by_pid(procs, pi.pid) {
                None => None,
                Some(pr) => Some(seq![pr]),
            },
        }
    } else if is_pid_target(target) {
        match spec_find_by_pid(procs, target_pid(target)) {
            None => None,
            Some(pr) => Some(seq![pr]),
        }
    } else {
        let m = matching_procs(procs, lower_of(trim_spec(target)));
        if m.len() == 0 {
            None
        } else {
            Some(m)
        }
    }
}

/// The error a failed resolution of `target` reports: `PortNotFound` for a
/// dead port, `ProcessGone` for a socket whose owner already exited, and
/// `ProcessNotFound` otherwise.
pub open spec fn resolve_err_spec(
    target: Seq<char>,
    procs: Seq<Process>,
    ports: Seq<PortInfo>,
    e: ProcError,
) -> bool {
    if is_port_target(target) {
        match spec_find_by_port(ports, target_port(target)) {
            None => e matches ProcError::PortNotFound(p) && p == target_port(target),
            Some(pi) => e matches ProcError::ProcessGone(pid) && pid == pi.pid,
        }
    } else if is_pid_target(target) {
        e matches ProcError::ProcessNotFound(s) && s@ == dec_digits(target_pid(target) as nat)
    } else {
        e matches ProcError::ProcessNotFound(s) && s@ == trim_spec(target)
    }
}

/// Resolve one target string to the processes it names.  A port target
/// fails with `PortNotFound` when nothing listens there and with
/// `ProcessGone` when the listener's pid is no longer in the process
/// snapshot; pid and name targets fail with `ProcessNotFound`.
pub fn resolve_target(target: &str, procs: &Vec<Process>, ports: &Vec<PortInfo>) -> (r: Result<
    Vec<Process>,
    ProcError,
>)
    ensures
        match r {
            Ok(list) => spec_resolve_ok(target@, procs@, ports@) == Some(list@),
            Err(e) => spec_resolve_ok(target@, procs@, ports@) is None && resolve_err_spec(
                target@,
                procs@,
                ports@,
                e,
            ),
        },
{
    match parse_target(target) {
        TargetType::Port(port) => match PortInfo::find_by_port(ports, port) {
            Some(pi) => match Process::find_by_pid(procs, pi.pid) {
                Some(pr) => {
                    let mut v: Vec<Process> = Vec::new();
                    v.push(pr);
                    proof {
                        assert(v@ =~= seq![spec_find_by_pid(procs@, pi.pid)->Some_0]);
                    }
                    Ok(v)
                },
                None => Err(ProcError::ProcessGone(pi.pid)),
            },
            None => Err(ProcError::PortNotFound(port)),
        },
        TargetType::Pid(pid) => match Process::find_by_pid(procs, pid) {
            Some(pr) => {
                let mut v: Vec<Process> = Vec::new();
                v.push(pr);
                proof {
                    assert(v@ =~= seq![spec_find_by_pid(procs@, pid)->Some_0]);
                }
                Ok(v)
            },
            None => Err(ProcError::ProcessNotFound(u64_to_string(pid as u64))),
        },
        TargetType::Name(name) => Process::find_by_name(procs, name.as_str()),
    }
}

/// Resolve a target that must name exactly one process.  More than one
/// match fails with `InvalidInput`; everything else is as `resolve_target`.
pub fn resolve_target_single(target: &str, procs: &Vec<Process>, ports: &Vec<PortInfo>) -> (r:
    Result<Process, ProcError>)
    ensures
        match r {
            Ok(p) => spec_resolve_ok(target@, procs@, ports@) matches Some(list) && list.len() == 1
                && p == list[0],
            Err(e) => match spec_resolve_ok(target@, procs@, ports@) {
                None => resolve_err_spec(target@, procs@, ports@, e),
                Some(list) => list.len() > 1 && (e matches ProcError::InvalidInput(m) && m@
                    == "Target '"@ + target@ + "' matches "@ + dec_digits(list.len() as nat)
                    + " processes. Be more specific."@),
            },
        },
{
    let mut processes = match resolve_target(target, procs, ports) {
        Ok(v) => v,
        Err(e) => {
            return Err(e);
        },
    };
    if processes.len() == 0 {
        return Err(ProcError::ProcessNotFound(target.to_owned()));
    }
    if processes.len() > 1 {
        let count = u64_to_string(processes.len() as u64);
        let msg = String::from_str("Target '").concat(target).concat("' matches ").concat(
            count.as_str(),
        ).concat(" processes. Be more specific.");
        return Err(ProcError::InvalidInput(msg));
    }
    match processes.pop() {
        Some(p) => Ok(p),
        None => Err(ProcError::ProcessNotFound(target.to_owned())),
    }
}

/// The set of pids occurring in `list`.
pub open spec fn pids_of(list: Seq<Process>) -> Set<u32> {
    Set::new(|x: u32| exists|i: int| 0 <= i < list.len() && list[i].pid == x)
}

/// The records of `list` whose pid is new: neither in `seen` nor on an
/// earlier record of `list`.
pub open spec fn dedup_new(list: Seq<Process>, seen: Set<u32>) -> Seq<Process>
    decreases list.len(),
{
    if list.len() == 0 {
        Seq::empty()
    } else if seen.contains(list[0].pid) {
        dedup_new(list.drop_first(), seen)
    } else {
        seq![list[0]] + dedup_new(list.drop_first(), seen.insert(list[0].pid))
    }
}

/// Batch resolution with pid deduplication threaded through: the resolved
/// records in order of first appearance, and the target strings that failed
/// to resolve, in order.
pub open spec fn spec_resolve_targets(
    ts: Seq<Seq<char>>,
    procs: Seq<Process>,
    ports: Seq<PortInfo>,
    seen: Set<u32>,
) -> (Seq<Process>, Seq<Seq<char>>)
    decreases ts.len(),
{
    if ts.len() == 0 {
        (Seq::empty(), Seq::empty())
    } else {
        match spec_resolve_ok(ts[0], procs, ports) {
            None => {
                let rest = spec_resolve_targets(ts.drop_first(), procs, ports, seen);
                (rest.0, seq![ts[0]] + rest.1)
            },
            Some(list) => {
                let rest = spec_resolve_targets(
                    ts.drop_first(),
                    procs,
                    ports,
                    seen.union(pids_of(list)),
                );
                (dedup_new(list, seen) + rest.0, rest.1)
            },
        }
    }
}

/// The set a vector of pids stands for.
pub open spec fn seen_set(s: Seq<u32>) -> Set<u32> {
    Set::new(|x: u32| s.contains(x))
}

fn vec_contains_u32(v: &Vec<u32>, x: u32) -> (b: bool)
    ensures
        b == v@.contains(x),
{
    let n = v.len();
    let mut i: usize = 0;
    while i < n
        invariant
            0 <= i <= n,
            n == v@.len(),
            forall|k: int| 0 <= k < i ==> v@[k] != x,
        decreases n - i,
    {
        if v[i] == x {
            return true;
        }
        i = i + 1;
    }
    false
}

proof fn lemma_seen_set_push(s: Seq<u32>, x: u32)
    ensures
        seen_set(s.push(x)) =~= seen_set(s).insert(x),
{
    assert forall|y: u32| seen_set(s.push(x)).contains(y) implies seen_set(s).insert(x).contains(
        y,
    ) by {
        let i = choose|i: int| 0 <= i < s.push(x).len() && s.push(x)[i] == y;
        if i < s.len() {
            assert(s[i] == y);
        }
    }
    assert forall|y: u32| seen_set(s).insert(x).contains(y) implies seen_set(s.push(x)).contains(
        y,
    ) by {
        if y == x {
            assert(s.push(x)[s.len() as int] == y);
        } else {
            let i = choose|i: int| 0 <= i < s.len() && s[i] == y;
            assert(s.push(x)[i] == y);
        }
    }
}

proof fn lemma_pids_of_push(l: Seq<Process>, p: Process)
    ensures
        pids_of(l.push(p)) =~= pids_of(l).insert(p.pid),
{
    assert forall|y: u32| pids_of(l.push(p)).contains(y) implies pids_of(l).insert(p.pid).contains(
        y,
    ) by {
        let i = choose|i: int| 0 <= i < l.push(p).len() && l.push(p)[i].pid == y;
        if i < l.len() {
            assert(l[i].pid == y);
        }
    }
    assert forall|y: u32| pids_of(l).insert(p.pid).contains(y) implies pids_of(l.push(p)).contains(
        y,
    ) by {
        if y == p.pid {
            assert(l.push(p)[l.len() as int].pid == y);
        } else {
            let i = choose|i: int| 0 <= i < l.len() && l[i].pid == y;
            assert(l.push(p)[i].pid == y);
        }
    }
}

/// Resolve several targets independently, deduplicating the found processes
/// by pid and collecting the targets that failed to resolve.  One bad target
/// never aborts resolution of the others.
pub fn resolve_targets(targets: &Vec<String>, procs: &Vec<Process>, ports: &Vec<PortInfo>) -> (r: (
    Vec<Process>,
    Vec<String>,
))
    ensures
        ({
            let s = spec_resolve_targets(targets.deep_view(), procs@, ports@, Set::empty());
            r.0@ == s.0 && r.1.deep_view() == s.1
        }),
        forall|i: int, j: int| 0 <= i < j < r.0@.len() ==> r.0@[i].pid != r.0@[j].pid,
{
    let ghost ts = targets.deep_view();
    let mut found: Vec<Process> = Vec::new();
    let mut not_found: Vec<String> = Vec::new();
    let mut seen: Vec<u32> = Vec::new();
    let n = targets.len();
    let mut i: usize = 0;
    proof {
        assert(ts.skip(0) =~= ts);
        assert(seen_set(seen@) =~= Set::<u32>::empty());
        assert(pids_of(found@) =~= Set::<u32>::empty());
        assert(not_found.deep_view() =~= Seq::<Seq<char>>::empty());
    }
    while i < n
        invariant
            0 <= i <= n,
            n == targets@.len(),
            ts == targets.deep_view(),
            seen_set(seen@) == pids_of(found@),
            forall|a: int, b: int| 0 <= a < b < found@.len() ==> found@[a].pid != found@[b].pid,
            ({
                let full = spec_resolve_targets(ts, procs@, ports@, Set::empty());
                let rest = spec_resolve_targets(
                    ts.skip(i as int),
                    procs@,
                    ports@,
                    seen_set(seen@),
                );
                full.0 =~= found@ + rest.0 && full.1 =~= not_found.deep_view() + rest.1
            }),
        decreases n - i,
    {
        proof {
            assert(ts.skip(i as int)[0] == ts[i as int]);
            assert(ts.skip(i as int).drop_first() =~= ts.skip(i as int + 1));
            assert(ts[i as int] == targets@[i as int]@);
        }
        match resolve_target(targets[i].as_str(), procs, ports) {
            Ok(list) => {
                let ghost seen0 = seen_set(seen@);
                let ghost found0 = found@;
                let m = list.len();
                let mut j: usize = 0;
                proof {
                    assert(list@.skip(0) =~= list@);
                    assert(pids_of(list@.take(0)) =~= Set::<u32>::empty());
                    assert(seen_set(seen@) =~= seen0.union(pids_of(list@.take(0))));
                    assert(found@.subrange(found0.len() as int, found@.len() as int)
                        =~= Seq::<Process>::empty());
                }
                while j < m
                    invariant
                        0 <= j <= m,
                        m == list@.len(),
                        found0.len() <= found@.len(),
                        found@.subrange(0, found0.len() as int) == found0,
                        seen_set(seen@) == seen0.union(pids_of(list@.take(j as int))),
                        seen_set(seen@) == pids_of(found@),
                        forall|a: int, b: int|
                            0 <= a < b < found@.len() ==> found@[a].pid != found@[b].pid,
                        dedup_new(list@, seen0) =~= found@.subrange(
                            found0.len() as int,
                            found@.len() as int,
                        ) + dedup_new(list@.skip(j as int), seen_set(seen@)),
                    decreases m - j,
                {
                    proof {
                        assert(list@.skip(j as int)[0] == list@[j as int]);
                        assert(list@.skip(j as int).drop_first() =~= list@.skip(j as int + 1));
                        assert(list@.take(j as int + 1) =~= list@.take(j as int).push(
                            list@[j as int],
                        ));
                    }
                    let p = &list[j];
                    let ghost pid = list@[j as int].pid;
                    let ghost seen_before = seen@;
                    let ghost found_before = found@;
                    proof {
                        lemma_pids_of_push(list@.take(j as int), list@[j as int]);
                    }
                    if !vec_contains_u32(&seen, p.pid) {
                        seen.push(p.pid);
                        found.push(p.duplicate());
                        proof {
                            lemma_seen_set_push(seen_before, pid);
                            lemma_pids_of_push(found_before, list@[j as int]);
                            assert(seen_set(seen@) =~= seen_set(seen_before).insert(pid));
                            assert(pids_of(list@.take(j as int + 1)) =~= pids_of(
                                list@.take(j as int),
                            ).insert(pid));
                            assert(seen_set(seen@) =~= seen0.union(
                                pids_of(list@.take(j as int + 1)),
                            ));
                            assert(pids_of(found@) =~= pids_of(found_before).insert(pid));
                            assert(seen_set(seen@) =~= pids_of(found@));
                            assert(!pids_of(found_before).contains(pid));
                            assert(forall|a: int|
                                0 <= a < found_before.len() ==> #[trigger] found_before[a].pid
                                    != pid);
                            assert(found@.subrange(0, found0.len() as int) =~= found0);
                            assert(found@.subrange(found0.len() as int, found@.len() as int)
                                =~= found_before.subrange(
                                found0.len() as int,
                                found_before.len() as int,
                            ).push(list@[j as int]));
                            assert(dedup_new(list@.skip(j as int), seen_set(seen_before))
                                == seq![list@[j as int]] + dedup_new(
                                list@.skip(j as int + 1),
                                seen_set(seen_before).insert(pid),
                            ));
                            assert(dedup_new(list@, seen0) =~= found@.subrange(
                                found0.len() as int,
                                found@.len() as int,
                            ) + dedup_new(list@.skip(j as int + 1), seen_set(seen@)));
                        }
                    } else {
                        proof {
                            assert(seen_set(seen_before).contains(pid));
                            assert(pids_of(list@.take(j as int + 1)) =~= pids_of(
                                list@.take(j as int),
                            ).insert(pid));
                            assert(seen_set(seen@) =~= seen0.union(
                                pids_of(list@.take(j as int + 1)),
                            ));
                            assert(dedup_new(list@.skip(j as int), seen_set(seen_before))
                                == dedup_new(list@.skip(j as int + 1), seen_set(seen_before)));
                        }
                    }
                    j = j + 1;
                }
                proof {
                    assert(list@.take(m as int) =~= list@);
                    assert(list@.skip(m as int) =~= Seq::<Process>::empty());
                    assert(dedup_new(list@.skip(m as int), seen_set(seen@))
                        =~= Seq::<Process>::empty());
                    assert(dedup_new(list@, seen0) =~= found@.subrange(
                        found0.len() as int,
                        found@.len() as int,
                    ));
                    assert(found@ =~= found0 + found@.subrange(
                        found0.len() as int,
                        found@.len() as int,
                    ));
                }
            },
            Err(_) => {
                let ghost nf0 = not_found.deep_view();
                not_found.push(targets[i].clone());
                proof {
                    assert(not_found.deep_view() =~= nf0 + seq![ts[i as int]]);
                }
            },
        }
        i = i + 1;
    }
    proof {
        assert(ts.skip(n as int) =~= Seq::<Seq<char>>::empty());
        let rest = spec_resolve_targets(ts.skip(n as int), procs@, ports@, seen_set(seen@));
        assert(rest.0 =~= Seq::<Process>::empty());
        assert(rest.1 =~= Seq::<Seq<char>>::empty());
        let full = spec_resolve_targets(ts, procs@, ports@, Set::empty());
        assert(full.0 =~= found@ + rest.0);
        assert(found@ + rest.0 =~= found@);
        assert(full.1 =~= not_found.deep_view() + rest.1);
        assert(not_found.deep_view() + rest.1 =~= not_found.deep_view());
    }
    (found, not_found)
}

} // verus!
