//! The listening-socket snapshot record, port-string parsing, and the pure
//! queries over a socket-table snapshot.
//!
//! A snapshot is a `Vec<PortInfo>` read in one pass from the platform's
//! socket-table tool; running that tool and capturing its output happens
//! outside the library, which only parses and queries the text.

use vstd::prelude::*;
use vstd::string::*;

use crate::error::ProcError;
use crate::text::{
    all_digits, digits_val, find_char, find_sub, first_char, first_match, first_non_digit,
    lemma_first_non_digit_props, parse_decimal_u32, rfind_colon, split_lines, split_lines_str,
    split_ws, split_ws_str, str_eq, strip_colons, strip_leading_colons, trim, trim_spec,
    digit_run_len, last_colon,
};

verus! {

/// Network protocol of a listening socket.
#[derive(Debug, Clone, Copy, PartialEq, Eq, Structural)]
pub enum Protocol {
    /// Transmission Control Protocol.
    Tcp,
    /// User Datagram Protocol.
    Udp,
}

/// A listening socket as captured in one snapshot.  The owning process is
/// correlated with the process table only by pid, which may already be stale
/// when the two snapshots are combined.
#[derive(Debug, Clone)]
pub struct PortInfo {
    /// Port number.
    pub port: u16,
    /// Protocol of the socket.
    pub protocol: Protocol,
    /// Pid of the owning process, as the socket table reported it.
    pub pid: u32,
    /// Name of the owning process, as the socket table reported it.
    pub process_name: String,
    /// Bind address, when known (for example `0.0.0.0` or `127.0.0.1`).
    pub address: Option<String>,
}

/// The digit run a port string reduces to: the input trimmed, then stripped
/// of every leading `':'`.
pub open spec fn port_digits(s: Seq<char>) -> Seq<char> {
    strip_colons(trim_spec(s))
}

/// Does `s` parse as a port: a non-empty digit run valued at most 65535
/// after trimming and colon stripping?
pub open spec fn port_parse_ok(s: Seq<char>) -> bool {
    let d = port_digits(s);
    d.len() > 0 && all_digits(d) && digits_val(d) <= 65535
}

/// Parse a port from the forms `:3000` and `3000`, ignoring surrounding
/// whitespace.  Fails with `InvalidInput` exactly when the remainder is not
/// a digit run valued at most 65535.
pub fn parse_port(input: &str) -> (r: Result<u16, ProcError>)
    ensures
        port_parse_ok(input@) ==> (r matches Ok(p) && p as nat == digits_val(port_digits(input@))),
        !port_parse_ok(input@) ==> (r matches Err(e) && e matches ProcError::InvalidInput(m)
            && m@ == "Invalid port: '"@ + input@ + "'"@),
{
    let t = trim(input);
    let digits = strip_leading_colons(t);
    match crate::text::parse_decimal_u32(digits) {
        Some(v) => {
            if v <= 65535 {
                return Ok(v as u16);
            }
        },
        None => {},
    }
    Err(ProcError::InvalidInput(String::from_str("Invalid port: '").concat(input).concat("'")))
}

/// First socket record in `ports` bound to the given port, if any.
pub open spec fn spec_find_by_port(ports: Seq<PortInfo>, port: u16) -> Option<PortInfo>
    decreases ports.len(),
{
    if ports.len() == 0 {
        None
    } else if ports[0].port == port {
        Some(ports[0])
    } else {
        spec_find_by_port(ports.drop_first(), port)
    }
}

fn clone_opt_string(o: &Option<String>) -> (r: Option<String>)
    ensures
        r == *o,
{
    match o {
        Some(s) => Some(s.clone()),
        None => None,
    }
}

impl PortInfo {
    /// An equal copy of the record.
    pub fn duplicate(&self) -> (r: PortInfo)
        ensures
            r == *self,
    {
        PortInfo {
            port: self.port,
            protocol: self.protocol,
            pid: self.pid,
            process_name: self.process_name.clone(),
            address: clone_opt_string(&self.address),
        }
    }

    /// The snapshot record of the process listening on `port`, if any.
    pub fn find_by_port(ports: &Vec<PortInfo>, port: u16) -> (r: Option<PortInfo>)
        ensures
            r == spec_find_by_port(ports@, port),
    {
        let n = ports.len();
        let mut i: usize = 0;
        proof {
            assert(ports@.skip(0) =~= ports@);
        }
        while i < n
            invariant
                0 <= i <= n,
                n == ports@.len(),
                spec_find_by_port(ports@, port) == spec_find_by_port(ports@.skip(i as int), port),
            decreases n - i,
        {
            proof {
                assert(ports@.skip(i as int)[0] == ports@[i as int]);
                assert(ports@.skip(i as int).drop_first() =~= ports@.skip(i as int + 1));
            }
            if ports[i].port == port {
                return Some(ports[i].duplicate());
            }
            i = i + 1;
        }
        proof {
            assert(ports@.skip(n as int) =~= Seq::<PortInfo>::empty());
        }
        None
    }
}

/// Ghost mirror of a `PortInfo` record, with the string fields as character
/// sequences; the view the parsing contracts speak of.
pub ghost struct PortInfoV {
    /// Port number.
    pub port: u16,
    /// Protocol of the socket.
    pub protocol: Protocol,
    /// Pid of the owning process.
    pub pid: u32,
    /// Name of the owning process.
    pub process_name: Seq<char>,
    /// Bind address, when known.
    pub address: Option<Seq<char>>,
}

impl View for PortInfo {
    type V = PortInfoV;

    open spec fn view(&self) -> PortInfoV {
        PortInfoV {
            port: self.port,
            protocol: self.protocol,
            pid: self.pid,
            process_name: self.process_name@,
            address: match self.address {
                Some(a) => Some(a@),
                None => None,
            },
        }
    }
}

/// The text after the last `':'` of `s`; all of `s` when it has none.
pub open spec fn after_last_colon(s: Seq<char>) -> Seq<char> {
    if last_colon(s) >= 0 {
        s.skip(last_colon(s) + 1)
    } else {
        s
    }
}

/// The next-to-last `':'`-separated segment of `s`: the bind-address part
/// of an `address:port` column.  `None` when `s` has no `':'`.
pub open spec fn addr_segment(s: Seq<char>) -> Option<Seq<char>> {
    if last_colon(s) >= 0 {
        Some(after_last_colon(s.take(last_colon(s))))
    } else {
        None
    }
}

/// The bind address reported for a local-address column, with `*` mapped to
/// `0.0.0.0`.
pub open spec fn ss_addr(local: Seq<char>) -> Option<Seq<char>> {
    match addr_segment(local) {
        Some(a) => if a == "*"@ {
            Some("0.0.0.0"@)
        } else {
            Some(a)
        },
        None => None,
    }
}

/// The pid a socket-table process column reports: the digit run after
/// `pid=`, which must be terminated by a further character.
pub open spec fn ss_pid(info: Seq<char>) -> Option<u32> {
    let f = first_match(info, "pid="@);
    if f == info.len() {
        None
    } else {
        let rest = info.skip(f + "pid="@.len());
        let e = first_non_digit(rest);
        if e == rest.len() {
            None
        } else {
            let d = rest.take(e);
            if d.len() > 0 && digits_val(d) <= u32::MAX {
                Some(digits_val(d) as u32)
            } else {
                None
            }
        }
    }
}

/// The name a socket-table process column reports: the text between `(("`
/// and the next `'"'`.
pub open spec fn ss_name(info: Seq<char>) -> Option<Seq<char>> {
    let f = first_match(info, "((\""@);
    if f == info.len() {
        None
    } else {
        let rest = info.skip(f + "((\""@.len());
        let e = first_char(rest, '"');
        if e == rest.len() {
            None
        } else {
            Some(rest.take(e))
        }
    }
}

/// One line of socket-table output read as a listening socket: at least six
/// whitespace-separated columns, a port at the end of the fourth, and the
/// owning process in the last.
pub open spec fn ss_line_view(line: Seq<char>) -> Option<PortInfoV> {
    let parts = split_ws(line);
    if parts.len() < 6 {
        None
    } else {
        let local = parts[3];
        let port_str = after_last_colon(local);
        if !(port_str.len() > 0 && all_digits(port_str) && digits_val(port_str) <= 65535) {
            None
        } else {
            let info = parts[parts.len() - 1];
            match ss_pid(info) {
                None => None,
                Some(pid) => Some(
                    PortInfoV {
                        port: digits_val(port_str) as u16,
                        protocol: Protocol::Tcp,
                        pid: pid,
                        process_name: match ss_name(info) {
                            Some(nm) => nm,
                            None => "unknown"@,
                        },
                        address: ss_addr(local),
                    },
                ),
            }
        }
    }
}

/// The sockets parsed from a sequence of listing lines, in order.
pub open spec fn ss_entries(lines: Seq<Seq<char>>) -> Seq<PortInfoV>
    decreases lines.len(),
{
    if lines.len() == 0 {
        Seq::empty()
    } else {
        let rest = ss_entries(lines.drop_first());
        match ss_line_view(lines[0]) {
            Some(v) => seq![v] + rest,
            None => rest,
        }
    }
}

/// ASCII letter.
pub open spec fn is_ascii_alpha(c: char) -> bool {
    (65 <= (c as u32) && (c as u32) <= 90) || (97 <= (c as u32) && (c as u32) <= 122)
}

/// A character the address column is trimmed of at its end: parentheses and
/// ASCII letters, covering trailing state markers such as `(LISTEN)`.
pub open spec fn is_addr_trim_char(c: char) -> bool {
    c == ')' || c == '(' || is_ascii_alpha(c)
}

/// `s` with its trailing parentheses and letters removed.
pub open spec fn trim_end_addr(s: Seq<char>) -> Seq<char>
    decreases s.len(),
{
    if s.len() > 0 && is_addr_trim_char(s.last()) {
        trim_end_addr(s.drop_last())
    } else {
        s
    }
}

proof fn lemma_trim_end_addr_at(s: Seq<char>, j: int)
    requires
        0 <= j <= s.len(),
        forall|k: int| j <= k < s.len() ==> is_addr_trim_char(#[trigger] s[k]),
        j > 0 ==> !is_addr_trim_char(s[j - 1]),
    ensures
        trim_end_addr(s) == s.subrange(0, j),
    decreases s.len() - j,
{
    if j == s.len() {
        assert(s.subrange(0, j) =~= s);
    } else {
        assert(is_addr_trim_char(s.last()));
        lemma_trim_end_addr_at(s.drop_last(), j);
        assert(s.drop_last().subrange(0, j) =~= s.subrange(0, j));
    }
}

fn is_addr_trim(c: char) -> (b: bool)
    ensures
        b == is_addr_trim_char(c),
{
    let u = c as u32;
    c == ')' || c == '(' || (65 <= u && u <= 90) || (97 <= u && u <= 122)
}

/// Index, from `i` on, of the first part that contains a `':'`; the number
/// of parts when none does.
pub open spec fn first_part_with_colon(parts: Seq<Seq<char>>, i: int) -> int
    decreases parts.len() - i,
{
    if i < 0 || i >= parts.len() {
        parts.len() as int
    } else if first_char(parts[i], ':') < parts[i].len() {
        i
    } else {
        first_part_with_colon(parts, i + 1)
    }
}

proof fn lemma_first_part_with_colon_at(parts: Seq<Seq<char>>, i: int, ci: int)
    requires
        0 <= i <= ci <= parts.len(),
        forall|k: int| i <= k < ci ==> first_char(#[trigger] parts[k], ':') == parts[k].len(),
        ci < parts.len() ==> first_char(parts[ci], ':') < parts[ci].len(),
    ensures
        first_part_with_colon(parts, i) == ci,
    decreases ci - i,
{
    if i < ci {
        lemma_first_part_with_colon_at(parts, i + 1, ci);
    }
}

/// One line of `lsof -iTCP -sTCP:LISTEN` output read as a listening socket:
/// at least nine whitespace-separated columns, the command and pid in the
/// first two, and an `address:port` column from the ninth on.
pub open spec fn lsof_line_view(line: Seq<char>) -> Option<PortInfoV> {
    let parts = split_ws(line);
    if parts.len() < 9 {
        None
    } else {
        let pid_str = parts[1];
        if !(pid_str.len() > 0 && all_digits(pid_str) && digits_val(pid_str) <= u32::MAX) {
            None
        } else {
            let ci = first_part_with_colon(parts, 8);
            if ci == parts.len() {
                None
            } else {
                let addr_port = trim_end_addr(parts[ci]);
                let lc = last_colon(addr_port);
                if lc < 0 {
                    None
                } else {
                    let port_str = addr_port.skip(lc + 1);
                    if !(port_str.len() > 0 && all_digits(port_str) && digits_val(port_str)
                        <= 65535) {
                        None
                    } else {
                        let addr_part = addr_port.take(lc);
                        Some(
                            PortInfoV {
                                port: digits_val(port_str) as u16,
                                protocol: Protocol::Tcp,
                                pid: digits_val(pid_str) as u32,
                                process_name: parts[0],
                                address: Some(
                                    if addr_part == "*"@ || addr_part.len() == 0 {
                                        "0.0.0.0"@
                                    } else {
                                        addr_part
                                    },
                                ),
                            },
                        )
                    }
                }
            }
        }
    }
}

impl PortInfo {
    /// Extract the owning pid from a socket-table process column of the
    /// form `users:(("name",pid=1234,fd=3))`.
    pub fn extract_pid_from_ss(info: &str) -> (r: Option<u32>)
        ensures
            r == ss_pid(info@),
    {
        proof {
            reveal_strlit("pid=");
        }
        let n = info.unicode_len();
        let f = find_sub(info, "pid=");
        if f == n {
            return None;
        }
        let rest = info.substring_char(f + 4, n);
        proof {
            assert(rest@ =~= info@.skip(f + 4));
        }
        let e = digit_run_len(rest);
        let rn = rest.unicode_len();
        if e == rn {
            return None;
        }
        if e == 0 {
            return None;
        }
        let d = rest.substring_char(0, e);
        proof {
            lemma_first_non_digit_props(rest@);
            assert(d@ =~= rest@.take(e as int));
        }
        parse_decimal_u32(d)
    }

    /// Extract the process name from a socket-table process column of the
    /// form `users:(("name",pid=1234,fd=3))`.
    pub fn extract_name_from_ss(info: &str) -> (r: Option<String>)
        ensures
            match r {
                Some(nm) => ss_name(info@) == Some(nm@),
                None => ss_name(info@) is None,
            },
    {
        proof {
            reveal_strlit("((\"");
        }
        let n = info.unicode_len();
        let f = find_sub(info, "((\"");
        if f == n {
            return None;
        }
        let rest = info.substring_char(f + 3, n);
        proof {
            assert(rest@ =~= info@.skip(f + 3));
        }
        let e = find_char(rest, '"');
        let rn = rest.unicode_len();
        if e == rn {
            return None;
        }
        let nm = rest.substring_char(0, e);
        proof {
            assert(nm@ =~= rest@.take(e as int));
        }
        Some(nm.to_owned())
    }

    /// Read one line of `lsof` listening-socket output.  Trailing state
    /// markers such as `(LISTEN)` are stripped from the address column;
    /// the letters recognized there are the ASCII ones.
    pub fn parse_lsof_line(line: &str) -> (r: Option<PortInfo>)
        ensures
            match r {
                Some(pi) => lsof_line_view(line@) == Some(pi@),
                None => lsof_line_view(line@) is None,
            },
    {
        let parts = split_ws_str(line);
        if parts.len() < 9 {
            return None;
        }
        proof {
            assert(parts.deep_view().len() == parts@.len());
            assert(parts.deep_view()[0] == parts@[0]@);
            assert(parts.deep_view()[1] == parts@[1]@);
        }
        let pid = match parse_decimal_u32(parts[1].as_str()) {
            Some(v) => v,
            None => {
                return None;
            },
        };
        let n = parts.len();
        let mut ci: usize = 8;
        while ci < n && find_char(parts[ci].as_str(), ':') == parts[ci].as_str().unicode_len()
            invariant
                8 <= ci <= n,
                n == parts@.len(),
                parts.deep_view().len() == n,
                forall|k: int|
                    8 <= k < ci ==> first_char(#[trigger] parts.deep_view()[k], ':')
                        == parts.deep_view()[k].len(),
            decreases n - ci,
        {
            proof {
                assert(parts.deep_view()[ci as int] == parts@[ci as int]@);
            }
            ci = ci + 1;
        }
        proof {
            if ci < n {
                assert(parts.deep_view()[ci as int] == parts@[ci as int]@);
            }
            lemma_first_part_with_colon_at(parts.deep_view(), 8, ci as int);
        }
        if ci == n {
            return None;
        }
        let col = &parts[ci];
        let ncol = col.as_str().unicode_len();
        let mut j: usize = ncol;
        while j > 0 && is_addr_trim(col.as_str().get_char(j - 1))
            invariant
                0 <= j <= ncol,
                ncol == col@.len(),
                forall|k: int| j <= k < ncol ==> is_addr_trim_char(#[trigger] col@[k]),
            decreases j,
        {
            j = j - 1;
        }
        let addr_port = col.as_str().substring_char(0, j);
        proof {
            lemma_trim_end_addr_at(col@, j as int);
            assert(parts.deep_view()[ci as int] == parts@[ci as int]@);
            assert(addr_port@ == trim_end_addr(parts.deep_view()[ci as int]));
        }
        let nap = addr_port.unicode_len();
        let lc = match rfind_colon(addr_port) {
            Some(i) => i,
            None => {
                return None;
            },
        };
        let port_sub = addr_port.substring_char(lc + 1, nap);
        proof {
            assert(port_sub@ =~= addr_port@.skip(lc + 1));
        }
        let port: u16 = match parse_decimal_u32(port_sub) {
            Some(v) => {
                if v <= 65535 {
                    v as u16
                } else {
                    return None;
                }
            },
            None => {
                return None;
            },
        };
        let addr_part = addr_port.substring_char(0, lc);
        proof {
            assert(addr_part@ =~= addr_port@.take(lc as int));
        }
        let address = if str_eq(addr_part, "*") || addr_part.unicode_len() == 0 {
            Some(String::from_str("0.0.0.0"))
        } else {
            Some(addr_part.to_owned())
        };
        Some(
            PortInfo {
                port,
                protocol: Protocol::Tcp,
                pid,
                process_name: parts[0].clone(),
                address,
            },
        )
    }

    /// Read one line of socket-table output as a listening socket record.
    pub fn parse_ss_line(line: &str) -> (r: Option<PortInfo>)
        ensures
            match r {
                Some(pi) => ss_line_view(line@) == Some(pi@),
                None => ss_line_view(line@) is None,
            },
    {
        let parts = split_ws_str(line);
        if parts.len() < 6 {
            return None;
        }
        proof {
            assert(parts.deep_view().len() == parts@.len());
            assert(parts.deep_view()[3] == parts@[3]@);
            assert(parts.deep_view()[parts@.len() - 1] == parts@[parts@.len() - 1]@);
        }
        let local = &parts[3];
        let nlocal = local.as_str().unicode_len();
        let port_start = match rfind_colon(local.as_str()) {
            Some(i) => i + 1,
            None => 0,
        };
        let port_sub = local.as_str().substring_char(port_start, nlocal);
        proof {
            assert(port_sub@ =~= after_last_colon(local@));
        }
        let port: u16 = match parse_decimal_u32(port_sub) {
            Some(v) => {
                if v <= 65535 {
                    v as u16
                } else {
                    return None;
                }
            },
            None => {
                return None;
            },
        };
        let address: Option<String> = match rfind_colon(local.as_str()) {
            Some(i) => {
                let before = local.as_str().substring_char(0, i);
                proof {
                    assert(before@ =~= local@.take(i as int));
                }
                let nb = before.unicode_len();
                let seg_start = match rfind_colon(before) {
                    Some(k) => k + 1,
                    None => 0,
                };
                let seg = before.substring_char(seg_start, nb);
                proof {
                    assert(seg@ =~= after_last_colon(before@));
                }
                if str_eq(seg, "*") {
                    Some(String::from_str("0.0.0.0"))
                } else {
                    Some(seg.to_owned())
                }
            },
            None => None,
        };
        let last_idx = parts.len() - 1;
        let info = &parts[last_idx];
        let pid = match Self::extract_pid_from_ss(info.as_str()) {
            Some(p) => p,
            None => {
                return None;
            },
        };
        let process_name = match Self::extract_name_from_ss(info.as_str()) {
            Some(nm) => nm,
            None => String::from_str("unknown"),
        };
        Some(PortInfo { port, protocol: Protocol::Tcp, pid, process_name, address })
    }

    /// Read a whole socket-table listing: every line after the header that
    /// parses as a listening socket, in order.
    pub fn get_all_listening(output: &str) -> (r: Vec<PortInfo>)
        ensures
            ({
                let ls = split_lines(output@);
                r@.map_values(|pi: PortInfo| pi@) == if ls.len() == 0 {
                    Seq::<PortInfoV>::empty()
                } else {
                    ss_entries(ls.skip(1))
                }
            }),
    {
        let lines = split_lines_str(output);
        let mut result: Vec<PortInfo> = Vec::new();
        let n = lines.len();
        proof {
            assert(result@.map_values(|pi: PortInfo| pi@) =~= Seq::<PortInfoV>::empty());
        }
        if n == 0 {
            return result;
        }
        let mut i: usize = 1;
        proof {
            assert(lines.deep_view().len() == n);
        }
        while i < n
            invariant
                1 <= i <= n,
                n == lines@.len(),
                lines.deep_view() == split_lines(output@),
                lines.deep_view().len() == n,
                ss_entries(lines.deep_view().skip(1)) =~= result@.map_values(|pi: PortInfo| pi@)
                    + ss_entries(lines.deep_view().skip(i as int)),
            decreases n - i,
        {
            proof {
                assert(lines.deep_view().skip(i as int)[0] == lines.deep_view()[i as int]);
                assert(lines.deep_view().skip(i as int).drop_first() =~= lines.deep_view().skip(
                    i as int + 1,
                ));
                assert(lines.deep_view()[i as int] == lines@[i as int]@);
            }
            let ghost old_map = result@.map_values(|pi: PortInfo| pi@);
            match Self::parse_ss_line(lines[i].as_str()) {
                Some(pi) => {
                    result.push(pi);
                    proof {
                        assert(result@.map_values(|pi2: PortInfo| pi2@) =~= old_map.push(
                            result@.last()@,
                        ));
                    }
                },
                None => {},
            }
            i = i + 1;
        }
        proof {
            assert(lines.deep_view().skip(n as int) =~= Seq::<Seq<char>>::empty());
            assert(result@.map_values(|pi: PortInfo| pi@) =~= result@.map_values(
                |pi: PortInfo| pi@,
            ) + ss_entries(lines.deep_view().skip(n as int)));
        }
        result
    }
}

} // verus!
