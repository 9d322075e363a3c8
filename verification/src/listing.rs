//! Reading the socket listings of `ss` (Linux) and `netstat` (Windows) into
//! connections, with the filters of the configuration applied.
use vstd::prelude::*;
use vstd::utf8::{decode_utf8, valid_utf8};
use crate::classify::{
    direction_name, direction_name_string, direction_spec, direction_trace_spec,
    parse_address_spec, str_is, to_uppercase, unicode_uppercase, vec_contains_u16,
};
use crate::monitor::push_text;
use crate::model::{
    ConnectionDirection, ConnectionView, FilteringConfig, ParsedConnection, TrafficType,
    conns_view, opt_conn_view, strings_view,
};
use crate::monitor::ConnectionMonitor;
use crate::text::{
    chars_of, contains_chars, has_char, has_infix, has_prefix, line_ranges, lines, parse_u16,
    parse_u16_spec, pieces, ranges_within, split_ws, starts_with, substring, trim, trim_bounds,
    word_ranges, decimal_string, decimal_text,
};

verus! {

// ---------------------------------------------------------------------------
// Command output
// ---------------------------------------------------------------------------

/// What a listing command gave back.
#[derive(Debug, Clone)]
pub struct CommandOutput {
    pub success: bool,
    pub stdout: Vec<u8>,
    pub stderr: Vec<u8>,
}

/// The output of the listing commands of the host's system.
#[derive(Debug, Clone)]
pub enum ConnectionListing {
    /// `ss -tun` (Linux).
    Ss(CommandOutput),
    /// `netstat -anop TCP` and `netstat -anop UDP` (Windows).
    Netstat { tcp: CommandOutput, udp: CommandOutput },
}

/// Why a listing gave no connections.
#[derive(Debug, Clone)]
pub enum ListingError {
    /// The command failed; its error output, decoded leniently.
    CommandFailed { stderr: String },
    /// The command's output is not UTF-8.
    InvalidUtf8,
}

/// The value of a `ListingError`.
pub enum ListingFailure {
    CommandFailed(Seq<char>),
    InvalidUtf8,
}

impl View for ListingError {
    type V = ListingFailure;

    open spec fn view(&self) -> ListingFailure {
        match self {
            ListingError::CommandFailed { stderr } => ListingFailure::CommandFailed(stderr@),
            ListingError::InvalidUtf8 => ListingFailure::InvalidUtf8,
        }
    }
}

/// What reading a listing reports on the way: lines for the log at info
/// level, lines printed on the console, and lines for the log at debug
/// level (written only where the configuration asks for debugging).
#[derive(Debug)]
pub struct Trace {
    pub info: Vec<String>,
    pub printed: Vec<String>,
    pub debug: Vec<String>,
}

pub struct TraceView {
    pub info: Seq<Seq<char>>,
    pub printed: Seq<Seq<char>>,
    pub debug: Seq<Seq<char>>,
}

impl View for Trace {
    type V = TraceView;

    open spec fn view(&self) -> TraceView {
        TraceView {
            info: strings_view(self.info@),
            printed: strings_view(self.printed@),
            debug: strings_view(self.debug@),
        }
    }
}

pub open spec fn empty_trace() -> TraceView {
    TraceView { info: Seq::empty(), printed: Seq::empty(), debug: Seq::empty() }
}

pub open spec fn printed_only(p: Seq<Seq<char>>) -> TraceView {
    TraceView { info: Seq::empty(), printed: p, debug: Seq::empty() }
}

/// One trace after the other.
pub open spec fn trace_join(a: TraceView, b: TraceView) -> TraceView {
    TraceView { info: a.info + b.info, printed: a.printed + b.printed, debug: a.debug + b.debug }
}

/// The value of the result of a listing.
pub open spec fn listing_result_view(r: Result<Vec<ParsedConnection>, ListingError>) -> Result<
    Seq<ConnectionView>,
    ListingFailure,
> {
    match r {
        Ok(c) => Ok(conns_view(c@)),
        Err(e) => Err(e@),
    }
}

/// What `String::from_utf8_lossy` gives for `b`.
pub uninterp spec fn utf8_lossy(b: Seq<u8>) -> Seq<char>;

/// `String::from_utf8_lossy`: the text of `b`, each invalid sequence
/// replaced; exactly the decoded text where `b` is valid UTF-8.
#[verifier::external_body]
fn decode_lossy(b: &[u8]) -> (r: String)
    ensures
        r@ == utf8_lossy(b@),
        valid_utf8(b@) ==> r@ == decode_utf8(b@),
{
    String::from_utf8_lossy(b).into_owned()
}

/// `String::from_utf8`: the text of `b` where it is valid UTF-8.
#[verifier::external_body]
fn decode_strict(b: Vec<u8>) -> (r: Option<String>)
    ensures
        r is Some <==> valid_utf8(b@),
        r matches Some(s) ==> s@ == decode_utf8(b@),
{
    String::from_utf8(b).ok()
}

// ---------------------------------------------------------------------------
// Fixed texts
// ---------------------------------------------------------------------------

pub open spec fn text_tcp_lower() -> Seq<char> {
    seq!['t', 'c', 'p']
}

pub open spec fn text_tcp() -> Seq<char> {
    seq!['T', 'C', 'P']
}

pub open spec fn text_udp() -> Seq<char> {
    seq!['U', 'D', 'P']
}

pub open spec fn text_any_v4() -> Seq<char> {
    seq!['0', '.', '0', '.', '0', '.', '0']
}

pub open spec fn text_active() -> Seq<char> {
    seq!['A', 'c', 't', 'i', 'v', 'e']
}

pub open spec fn text_proto() -> Seq<char> {
    seq!['P', 'r', 'o', 't', 'o']
}

// ---------------------------------------------------------------------------
// Specifications
// ---------------------------------------------------------------------------

/// The remote address of a socket that only listens.
pub open spec fn listening_remote(ip: Seq<char>) -> bool {
    ip == text_any_v4() || ip == seq!['*'] || ip == seq![':', ':']
}

/// The traffic type lets a connection of direction `d` through.
pub open spec fn traffic_admits(t: TrafficType, d: ConnectionDirection) -> bool {
    !(t == TrafficType::Outgoing && d == ConnectionDirection::Incoming) && !(t
        == TrafficType::Incoming && d == ConnectionDirection::Outgoing)
}

/// The positions of the local and the remote address among the fields of
/// an `ss` line: one field later where an extra field stands before them.
pub open spec fn ss_address_fields(parts: Seq<Seq<char>>) -> (int, int) {
    if parts.len() >= 7 && !parts[4].contains(':') && parts[5].contains(':')
        && parts[6].contains(':') {
        (5, 6)
    } else {
        (4, 5)
    }
}

/// `p` is a port number that `ports` holds.
pub open spec fn port_listed(p: Seq<char>, ports: Seq<u16>) -> bool {
    match parse_u16_spec(p) {
        Some(n) => ports.contains(n),
        None => false,
    }
}

impl FilteringConfig {
    /// The port filters of an `ss` line: where the remote port is a number,
    /// it is not ignored, and, where only some ports are watched, the local
    /// or the remote port is one of them.
    pub open spec fn ss_ports_pass(&self, local_port: Seq<char>, remote_port: Seq<char>) -> bool {
        match parse_u16_spec(remote_port) {
            Some(p) => !self.ignore_ports@.contains(p) && match self.monitor_only_ports {
                Some(m) => port_listed(local_port, m@) || m@.contains(p),
                None => true,
            },
            None => true,
        }
    }

    /// The port filters of a `netstat` line: where the remote port is a
    /// number, it is not ignored and, where only some ports are watched, is
    /// one of them.
    pub open spec fn netstat_ports_pass(&self, remote_port: Seq<char>) -> bool {
        match parse_u16_spec(remote_port) {
            Some(p) => !self.ignore_ports@.contains(p) && match self.monitor_only_ports {
                Some(m) => m@.contains(p),
                None => true,
            },
            None => true,
        }
    }
}

/// The note on which fields of an `ss` row hold the addresses.
pub open spec fn ss_fields_note(parts: Seq<Seq<char>>) -> Seq<Seq<char>> {
    if parts.len() >= 7 {
        if !parts[4].contains(':') && parts[5].contains(':') && parts[6].contains(':') {
            seq!["  -> Using indices 5,6 (with extra field)"@]
        } else if parts[4].contains(':') && parts[5].contains(':') {
            seq!["  -> Using indices 4,5 (standard format)"@]
        } else {
            Seq::empty()
        }
    } else {
        seq!["  -> Using indices 4,5 (minimal format)"@]
    }
}

/// The info lines about raw `ss` output: how many lines it has, then the
/// first five, indented.
pub open spec fn raw_preview(ls: Seq<Seq<char>>) -> Seq<Seq<char>> {
    let n = if ls.len() < 5 {
        ls.len()
    } else {
        5
    };
    seq!["Raw ss output ("@ + decimal_text(ls.len()) + " lines):"@] + Seq::new(
        n,
        |i: int| "  "@ + ls[i],
    )
}

impl ConnectionMonitor {
    /// The connection that a line of `ss` output stands for, once the
    /// filters of the configuration have let it through.
    pub open spec fn ss_line_spec(&self, line: Seq<char>) -> Option<ConnectionView> {
        let t = trim(line);
        let parts = split_ws(t);
        if t.len() == 0 || parts.len() < 6 {
            None
        } else {
            let state = parts[1];
            let protocol = if has_infix(line, text_tcp_lower()) {
                text_tcp()
            } else {
                text_udp()
            };
            let (li, ri) = ss_address_fields(parts);
            match (parse_address_spec(parts[li]), parse_address_spec(parts[ri])) {
                (Some((local_ip, local_port)), Some((remote_ip, remote_port))) => {
                    let f = self.config.filtering;
                    if listening_remote(remote_ip) || f.ignores(remote_ip) || !f.ss_ports_pass(
                        local_port,
                        remote_port,
                    ) {
                        None
                    } else {
                        let d = direction_spec(
                            unicode_uppercase(state),
                            local_ip,
                            local_port,
                            remote_ip,
                        );
                        if traffic_admits(self.config.monitor.traffic_type, d) {
                            Some(
                                ConnectionView {
                                    remote_ip,
                                    remote_port,
                                    local_ip,
                                    local_port,
                                    protocol,
                                    direction: d,
                                    state,
                                },
                            )
                        } else {
                            None
                        }
                    }
                },
                _ => None,
            }
        }
    }

    /// The connection that a line of `netstat` output stands for, once the
    /// address and port filters have let it through.
    pub open spec fn netstat_line_spec(&self, line: Seq<char>, default_proto: Seq<char>) -> Option<
        ConnectionView,
    > {
        let parts = split_ws(line);
        if parts.len() < 4 {
            None
        } else {
            let proto = if parts[0] == text_tcp() || parts[0] == text_udp() {
                parts[0]
            } else {
                default_proto
            };
            let state = if proto == text_tcp() && parts.len() >= 5 {
                parts[3]
            } else {
                proto
            };
            match (parse_address_spec(parts[1]), parse_address_spec(parts[2])) {
                (Some((local_ip, local_port)), Some((remote_ip, remote_port))) => {
                    let f = self.config.filtering;
                    if listening_remote(remote_ip) || f.ignores(remote_ip) || !f.netstat_ports_pass(
                        remote_port,
                    ) {
                        None
                    } else {
                        Some(
                            ConnectionView {
                                remote_ip,
                                remote_port,
                                local_ip,
                                local_port,
                                protocol: proto,
                                direction: direction_spec(
                                    unicode_uppercase(state),
                                    local_ip,
                                    local_port,
                                    remote_ip,
                                ),
                                state,
                            },
                        )
                    }
                },
                _ => None,
            }
        }
    }

    /// What reading a line of `ss` output prints on the console and, where
    /// debugging is on, logs, in the order of the checks of `ss_line_spec`.
    pub open spec fn ss_line_trace_spec(&self, line: Seq<char>) -> TraceView {
        let t = trim(line);
        let parts = split_ws(t);
        if t.len() == 0 {
            empty_trace()
        } else if parts.len() < 6 {
            printed_only(seq!["  -> Skipping: not enough parts"@])
        } else {
            let state = parts[1];
            let (li, ri) = ss_address_fields(parts);
            let local = parts[li];
            let remote = parts[ri];
            let head = ss_fields_note(parts).push(
                "  -> Selected: local="@ + local + ", remote="@ + remote,
            );
            match parse_address_spec(local) {
                None => printed_only(
                    head.push("  -> Skipping: cannot parse local address '"@ + local + "'"@),
                ),
                Some((local_ip, local_port)) => match parse_address_spec(remote) {
                    None => printed_only(
                        head.push("  -> Skipping: cannot parse remote address '"@ + remote + "'"@),
                    ),
                    Some((remote_ip, remote_port)) => {
                        let h2 = head.push(
                            "  -> Parsed: "@ + local_ip + ":"@ + local_port + " -> "@ + remote_ip
                                + ":"@ + remote_port,
                        );
                        let f = self.config.filtering;
                        let rpn = parse_u16_spec(remote_port);
                        if listening_remote(remote_ip) {
                            printed_only(h2.push("  -> Skipping: listening socket"@))
                        } else if f.ignores(remote_ip) {
                            printed_only(
                                h2.push("  -> Skipping: remote IP "@ + remote_ip + " is ignored"@),
                            )
                        } else if rpn is Some && f.ignore_ports@.contains(rpn->0) {
                            printed_only(
                                h2.push(
                                    "  -> Skipping: port "@ + decimal_text(rpn->0 as nat)
                                        + " is in ignore_ports"@,
                                ),
                            )
                        } else if !f.ss_ports_pass(local_port, remote_port) {
                            printed_only(h2)
                        } else {
                            let upper = unicode_uppercase(state);
                            let d = direction_spec(upper, local_ip, local_port, remote_ip);
                            let h3 = h2 + direction_trace_spec(
                                upper,
                                local_ip,
                                local_port,
                                remote_ip,
                            );
                            let tt = self.config.monitor.traffic_type;
                            let printed = if tt == TrafficType::Outgoing && d
                                == ConnectionDirection::Incoming {
                                h3.push(
                                    "  -> Skipping: traffic_type=Outgoing but direction=Incoming"@,
                                )
                            } else if tt == TrafficType::Incoming && d
                                == ConnectionDirection::Outgoing {
                                h3.push(
                                    "  -> Skipping: traffic_type=Incoming but direction=Outgoing"@,
                                )
                            } else {
                                h3
                            };
                            let debug = if self.config.monitor.debug {
                                seq![
                                    "Direction for "@ + local_ip + ":"@ + local_port + " -> "@
                                        + remote_ip + ":"@ + remote_port + " = "@ + direction_name(d)
                                        + ", state="@ + state,
                                ]
                            } else {
                                Seq::empty()
                            };
                            TraceView { info: Seq::empty(), printed, debug }
                        }
                    },
                },
            }
        }
    }

    /// The traces of `ss` lines, in order.
    pub open spec fn ss_traces(&self, ls: Seq<Seq<char>>) -> TraceView
        decreases ls.len(),
    {
        if ls.len() == 0 {
            empty_trace()
        } else {
            trace_join(self.ss_traces(ls.drop_last()), self.ss_line_trace_spec(ls.last()))
        }
    }

    /// What reading a line of `netstat` output prints: how the direction
    /// of its connection was decided, where it got that far.
    pub open spec fn netstat_trace_row(&self, line: Seq<char>, default_proto: Seq<char>) -> Seq<
        Seq<char>,
    > {
        let t = trim(line);
        if t.len() == 0 || has_prefix(t, text_active()) || has_prefix(t, text_proto()) {
            Seq::empty()
        } else {
            match self.netstat_line_spec(t, default_proto) {
                Some(c) => direction_trace_spec(
                    unicode_uppercase(c.state),
                    c.local_ip,
                    c.local_port,
                    c.remote_ip,
                ),
                None => Seq::empty(),
            }
        }
    }

    /// The printed lines of `netstat` lines, in order.
    pub open spec fn netstat_traces(&self, ls: Seq<Seq<char>>, default_proto: Seq<char>) -> Seq<
        Seq<char>,
    >
        decreases ls.len(),
    {
        if ls.len() == 0 {
            Seq::empty()
        } else {
            self.netstat_traces(ls.drop_last(), default_proto) + self.netstat_trace_row(
                ls.last(),
                default_proto,
            )
        }
    }

    /// What reading a listing reports: for `ss` output that was read, the
    /// number of its lines and the first five of them at info level, then
    /// the traces of its lines after the header; for `netstat`, the
    /// traces of the TCP lines, then of the UDP lines.
    pub open spec fn listing_trace_spec(&self, listing: ConnectionListing) -> TraceView {
        match listing {
            ConnectionListing::Ss(out) => if !out.success || !valid_utf8(out.stdout@) {
                empty_trace()
            } else {
                let ls = lines(decode_utf8(out.stdout@));
                let body = if ls.len() == 0 {
                    empty_trace()
                } else {
                    self.ss_traces(ls.skip(1))
                };
                trace_join(
                    TraceView { info: raw_preview(ls), printed: Seq::empty(), debug: Seq::empty() },
                    body,
                )
            },
            ConnectionListing::Netstat { tcp, udp } => printed_only(
                self.netstat_traces(lines(utf8_lossy(tcp.stdout@)), text_tcp())
                    + self.netstat_traces(lines(utf8_lossy(udp.stdout@)), text_udp()),
            ),
        }
    }

    /// The connections of one `ss` line that the traffic type lets through.
    pub open spec fn ss_row(&self, line: Seq<char>) -> Seq<ConnectionView> {
        match self.ss_line_spec(line) {
            Some(c) => if traffic_admits(self.config.monitor.traffic_type, c.direction) {
                seq![c]
            } else {
                Seq::empty()
            },
            None => Seq::empty(),
        }
    }

    /// The connections of `ss` lines, in order.
    pub open spec fn ss_rows(&self, ls: Seq<Seq<char>>) -> Seq<ConnectionView>
        decreases ls.len(),
    {
        if ls.len() == 0 {
            Seq::empty()
        } else {
            self.ss_rows(ls.drop_last()) + self.ss_row(ls.last())
        }
    }

    /// The connections of one `netstat` line: headers and blank lines give
    /// none, nor do connections that the traffic type keeps out.
    pub open spec fn netstat_row(&self, line: Seq<char>, default_proto: Seq<char>) -> Seq<
        ConnectionView,
    > {
        let t = trim(line);
        if t.len() == 0 || has_prefix(t, text_active()) || has_prefix(t, text_proto()) {
            Seq::empty()
        } else {
            match self.netstat_line_spec(t, default_proto) {
                Some(c) => if traffic_admits(self.config.monitor.traffic_type, c.direction) {
                    seq![c]
                } else {
                    Seq::empty()
                },
                None => Seq::empty(),
            }
        }
    }

    /// The connections of `netstat` lines, in order.
    pub open spec fn netstat_rows(&self, ls: Seq<Seq<char>>, default_proto: Seq<char>) -> Seq<
        ConnectionView,
    >
        decreases ls.len(),
    {
        if ls.len() == 0 {
            Seq::empty()
        } else {
            self.netstat_rows(ls.drop_last(), default_proto) + self.netstat_row(
                ls.last(),
                default_proto,
            )
        }
    }

    /// The connections of the `ss` output `text`: every line but the header.
    pub open spec fn ss_output_spec(&self, text: Seq<char>) -> Seq<ConnectionView> {
        let ls = lines(text);
        if ls.len() == 0 {
            Seq::empty()
        } else {
            self.ss_rows(ls.skip(1))
        }
    }

    /// The connections of the `netstat` output `stdout`.
    pub open spec fn netstat_output_spec(&self, stdout: Seq<u8>, default_proto: Seq<char>) -> Seq<
        ConnectionView,
    > {
        self.netstat_rows(lines(utf8_lossy(stdout)), default_proto)
    }

    /// What the listing gives: the connections, or why there are none.
    pub open spec fn listing_spec(&self, listing: ConnectionListing) -> Result<
        Seq<ConnectionView>,
        ListingFailure,
    > {
        match listing {
            ConnectionListing::Ss(out) => if !out.success {
                Err(ListingFailure::CommandFailed(utf8_lossy(out.stderr@)))
            } else if !valid_utf8(out.stdout@) {
                Err(ListingFailure::InvalidUtf8)
            } else {
                Ok(self.ss_output_spec(decode_utf8(out.stdout@)))
            },
            ConnectionListing::Netstat { tcp, udp } => Ok(
                self.netstat_output_spec(tcp.stdout@, text_tcp()) + self.netstat_output_spec(
                    udp.stdout@,
                    text_udp(),
                ),
            ),
        }
    }
}

// ---------------------------------------------------------------------------
// Executable functions
// ---------------------------------------------------------------------------

/// `v` followed by the line `s`.
fn push_line(v: &mut Vec<String>, s: String)
    ensures
        strings_view(final(v)@) == strings_view(old(v)@).push(s@),
{
    let ghost sv = s@;
    v.push(s);
    assert(strings_view(v@) =~= strings_view(old(v)@).push(sv));
}

/// `v` followed by the lines of `w`.
fn append_lines(v: &mut Vec<String>, w: Vec<String>)
    ensures
        strings_view(final(v)@) == strings_view(old(v)@) + strings_view(w@),
{
    let mut w = w;
    let ghost wv = w@;
    v.append(&mut w);
    assert(strings_view(v@) =~= strings_view(old(v)@) + strings_view(wv));
}

fn port_number_listed(p: &str, ports: &Vec<u16>) -> (b: bool)
    ensures
        b == port_listed(p@, ports@),
{
    let cs = chars_of(p);
    match parse_u16(cs.as_slice()) {
        Some(n) => vec_contains_u16(ports, n),
        None => false,
    }
}

fn is_listening_remote(ip: &str) -> (b: bool)
    ensures
        b == listening_remote(ip@),
{
    let any4: [char; 7] = ['0', '.', '0', '.', '0', '.', '0'];
    let star: [char; 1] = ['*'];
    let any6: [char; 2] = [':', ':'];
    assert(any4@ == text_any_v4());
    assert(star@ == seq!['*']);
    assert(any6@ == seq![':', ':']);
    str_is(ip, any4.as_slice()) || str_is(ip, star.as_slice()) || str_is(ip, any6.as_slice())
}

fn admits(t: TrafficType, d: ConnectionDirection) -> (b: bool)
    ensures
        b == traffic_admits(t, d),
{
    !(t == TrafficType::Outgoing && d == ConnectionDirection::Incoming) && !(t
        == TrafficType::Incoming && d == ConnectionDirection::Outgoing)
}

fn tcp_text() -> (s: String)
    ensures
        s@ == text_tcp(),
{
    proof {
        reveal_strlit("TCP");
    }
    String::from_str("TCP")
}

fn udp_text() -> (s: String)
    ensures
        s@ == text_udp(),
{
    proof {
        reveal_strlit("UDP");
    }
    String::from_str("UDP")
}

impl FilteringConfig {
    fn ss_ports_pass_exec(&self, local_port: &str, remote_port: &str) -> (b: bool)
        ensures
            b == self.ss_ports_pass(local_port@, remote_port@),
    {
        let rc = chars_of(remote_port);
        match parse_u16(rc.as_slice()) {
            Some(p) => {
                if vec_contains_u16(&self.ignore_ports, p) {
                    return false;
                }
                match &self.monitor_only_ports {
                    Some(m) => port_number_listed(local_port, m) || vec_contains_u16(m, p),
                    None => true,
                }
            },
            None => true,
        }
    }

    fn netstat_ports_pass_exec(&self, remote_port: &str) -> (b: bool)
        ensures
            b == self.netstat_ports_pass(remote_port@),
    {
        let rc = chars_of(remote_port);
        match parse_u16(rc.as_slice()) {
            Some(p) => {
                if vec_contains_u16(&self.ignore_ports, p) {
                    return false;
                }
                match &self.monitor_only_ports {
                    Some(m) => vec_contains_u16(m, p),
                    None => true,
                }
            },
            None => true,
        }
    }
}

impl ConnectionMonitor {
    /// Reads one line of `ss -tun` output; `None` for headers, short or
    /// malformed lines, listening sockets, and connections that the
    /// filters drop.
    pub fn parse_ss_line(&self, line: &str) -> (r: Option<ParsedConnection>)
        ensures
            opt_conn_view(r) == self.ss_line_spec(line@),
    {
        self.read_ss_line(line).0
    }

    /// What reading one line of `ss -tun` output prints and logs.
    pub fn ss_line_trace(&self, line: &str) -> (t: Trace)
        ensures
            t@ == self.ss_line_trace_spec(line@),
    {
        self.read_ss_line(line).1
    }

    fn read_ss_line(&self, line: &str) -> (r: (Option<ParsedConnection>, Trace))
        ensures
            opt_conn_view(r.0) == self.ss_line_spec(line@),
            r.1@ == self.ss_line_trace_spec(line@),
    {
        let mut printed: Vec<String> = Vec::new();
        let mut debug: Vec<String> = Vec::new();
        let cs = chars_of(line);
        let (tlo, thi) = trim_bounds(cs.as_slice());
        if tlo == thi {
            assert(strings_view(printed@) =~= Seq::<Seq<char>>::empty());
            assert(strings_view(debug@) =~= Seq::<Seq<char>>::empty());
            return (None, Trace { info: Vec::new(), printed, debug });
        }
        let t = &cs.as_slice()[tlo..thi];
        let ghost tv = t@;
        assert(tv == trim(line@));
        let w = word_ranges(t);
        let ghost parts = split_ws(tv);
        if w.len() < 6 {
            push_line(&mut printed, String::from_str("  -> Skipping: not enough parts"));
            assert(strings_view(debug@) =~= Seq::<Seq<char>>::empty());
            return (None, Trace { info: Vec::new(), printed, debug });
        }
        assert(forall|k: int| 0 <= k < w@.len() ==> #[trigger] parts[k] == tv.subrange(
            w@[k].0 as int,
            w@[k].1 as int,
        ));
        assert(forall|k: int|
            0 <= k < w@.len() ==> w@[k].0 <= w@[k].1 && #[trigger] w@[k].1 <= tv.len());
        let state = substring(line, tlo + w[1].0, tlo + w[1].1);
        assert(state@ =~= parts[1]);
        let tcp_lower: [char; 3] = ['t', 'c', 'p'];
        assert(tcp_lower@ == text_tcp_lower());
        let protocol = if contains_chars(cs.as_slice(), tcp_lower.as_slice()) {
            tcp_text()
        } else {
            udp_text()
        };
        let mut li: usize = 4;
        let mut ri: usize = 5;
        if w.len() >= 7 {
            let c4 = has_char(&t[w[4].0..w[4].1], ':');
            let c5 = has_char(&t[w[5].0..w[5].1], ':');
            let c6 = has_char(&t[w[6].0..w[6].1], ':');
            if !c4 && c5 && c6 {
                li = 5;
                ri = 6;
                push_line(&mut printed, String::from_str("  -> Using indices 5,6 (with extra field)"));
            } else if c4 && c5 {
                push_line(&mut printed, String::from_str("  -> Using indices 4,5 (standard format)"));
            }
        } else {
            push_line(&mut printed, String::from_str("  -> Using indices 4,5 (minimal format)"));
        }
        assert(strings_view(printed@) == ss_fields_note(parts));
        assert((li as int, ri as int) == ss_address_fields(parts));
        let local = line.substring_char(tlo + w[li].0, tlo + w[li].1);
        let remote = line.substring_char(tlo + w[ri].0, tlo + w[ri].1);
        assert(local@ =~= parts[li as int]);
        assert(remote@ =~= parts[ri as int]);
        let mut sel = String::from_str("  -> Selected: local=");
        push_text(&mut sel, local);
        push_text(&mut sel, ", remote=");
        push_text(&mut sel, remote);
        push_line(&mut printed, sel);
        assert(strings_view(debug@) =~= Seq::<Seq<char>>::empty());
        let (local_ip, local_port) = match Self::parse_address(local) {
            Some(p) => p,
            None => {
                let mut m = String::from_str("  -> Skipping: cannot parse local address '");
                push_text(&mut m, local);
                push_text(&mut m, "'");
                push_line(&mut printed, m);
                return (None, Trace { info: Vec::new(), printed, debug });
            },
        };
        let (remote_ip, remote_port) = match Self::parse_address(remote) {
            Some(p) => p,
            None => {
                let mut m = String::from_str("  -> Skipping: cannot parse remote address '");
                push_text(&mut m, remote);
                push_text(&mut m, "'");
                push_line(&mut printed, m);
                return (None, Trace { info: Vec::new(), printed, debug });
            },
        };
        let mut m = String::from_str("  -> Parsed: ");
        push_text(&mut m, local_ip.as_str());
        push_text(&mut m, ":");
        push_text(&mut m, local_port.as_str());
        push_text(&mut m, " -> ");
        push_text(&mut m, remote_ip.as_str());
        push_text(&mut m, ":");
        push_text(&mut m, remote_port.as_str());
        push_line(&mut printed, m);
        if is_listening_remote(remote_ip.as_str()) {
            push_line(&mut printed, String::from_str("  -> Skipping: listening socket"));
            return (None, Trace { info: Vec::new(), printed, debug });
        }
        if self.is_ip_ignored(remote_ip.as_str()) {
            let mut m = String::from_str("  -> Skipping: remote IP ");
            push_text(&mut m, remote_ip.as_str());
            push_text(&mut m, " is ignored");
            push_line(&mut printed, m);
            return (None, Trace { info: Vec::new(), printed, debug });
        }
        let rc = chars_of(remote_port.as_str());
        match parse_u16(rc.as_slice()) {
            Some(p) => {
                if vec_contains_u16(&self.config.filtering.ignore_ports, p) {
                    let mut m = String::from_str("  -> Skipping: port ");
                    let n = decimal_string(p as u64);
                    push_text(&mut m, n.as_str());
                    push_text(&mut m, " is in ignore_ports");
                    push_line(&mut printed, m);
                    return (None, Trace { info: Vec::new(), printed, debug });
                }
            },
            None => {},
        }
        if !self.config.filtering.ss_ports_pass_exec(local_port.as_str(), remote_port.as_str()) {
            return (None, Trace { info: Vec::new(), printed, debug });
        }
        let upper = to_uppercase(state.as_str());
        let direction = Self::direction_from_upper_state(
            upper.as_str(),
            local_ip.as_str(),
            local_port.as_str(),
            remote_ip.as_str(),
        );
        let dt = Self::direction_trace_upper(
            upper.as_str(),
            local_ip.as_str(),
            local_port.as_str(),
            remote_ip.as_str(),
        );
        append_lines(&mut printed, dt);
        if self.config.monitor.debug {
            let mut m = String::from_str("Direction for ");
            push_text(&mut m, local_ip.as_str());
            push_text(&mut m, ":");
            push_text(&mut m, local_port.as_str());
            push_text(&mut m, " -> ");
            push_text(&mut m, remote_ip.as_str());
            push_text(&mut m, ":");
            push_text(&mut m, remote_port.as_str());
            push_text(&mut m, " = ");
            let dn = direction_name_string(direction);
            push_text(&mut m, dn.as_str());
            push_text(&mut m, ", state=");
            push_text(&mut m, state.as_str());
            push_line(&mut debug, m);
        }
        let tt = self.config.monitor.traffic_type;
        if tt == TrafficType::Outgoing && direction == ConnectionDirection::Incoming {
            push_line(
                &mut printed,
                String::from_str("  -> Skipping: traffic_type=Outgoing but direction=Incoming"),
            );
        } else if tt == TrafficType::Incoming && direction == ConnectionDirection::Outgoing {
            push_line(
                &mut printed,
                String::from_str("  -> Skipping: traffic_type=Incoming but direction=Outgoing"),
            );
        }
        let trace = Trace { info: Vec::new(), printed, debug };
        if !admits(tt, direction) {
            return (None, trace);
        }
        (
            Some(
                ParsedConnection {
                    remote_ip,
                    remote_port,
                    local_ip,
                    local_port,
                    protocol,
                    direction,
                    state,
                },
            ),
            trace,
        )
    }

    /// Reads one line of `netstat -anop` output, with `default_proto` where
    /// the line names no protocol.
    pub fn parse_netstat_line(&self, line: &str, default_proto: &str) -> (r: Option<
        ParsedConnection,
    >)
        ensures
            opt_conn_view(r) == self.netstat_line_spec(line@, default_proto@),
    {
        let cs = chars_of(line);
        let w = word_ranges(cs.as_slice());
        let ghost parts = split_ws(cs@);
        if w.len() < 4 {
            return None;
        }
        assert(forall|k: int| 0 <= k < w@.len() ==> #[trigger] parts[k] == cs@.subrange(
            w@[k].0 as int,
            w@[k].1 as int,
        ));
        assert(forall|k: int|
            0 <= k < w@.len() ==> w@[k].0 <= w@[k].1 && #[trigger] w@[k].1 <= cs@.len());
        let first = line.substring_char(w[0].0, w[0].1);
        assert(first@ =~= parts[0]);
        let tcp: [char; 3] = ['T', 'C', 'P'];
        let udp: [char; 3] = ['U', 'D', 'P'];
        assert(tcp@ == text_tcp());
        assert(udp@ == text_udp());
        let proto = if str_is(first, tcp.as_slice()) || str_is(first, udp.as_slice()) {
            String::from_str(first)
        } else {
            String::from_str(default_proto)
        };
        let local = line.substring_char(w[1].0, w[1].1);
        let remote = line.substring_char(w[2].0, w[2].1);
        assert(local@ =~= parts[1]);
        assert(remote@ =~= parts[2]);
        let state = if str_is(proto.as_str(), tcp.as_slice()) && w.len() >= 5 {
            let s = substring(line, w[3].0, w[3].1);
            assert(s@ =~= parts[3]);
            s
        } else {
            proto.clone()
        };
        let (local_ip, local_port) = match Self::parse_address(local) {
            Some(p) => p,
            None => return None,
        };
        let (remote_ip, remote_port) = match Self::parse_address(remote) {
            Some(p) => p,
            None => return None,
        };
        if is_listening_remote(remote_ip.as_str()) {
            return None;
        }
        if self.is_ip_ignored(remote_ip.as_str()) {
            return None;
        }
        if !self.config.filtering.netstat_ports_pass_exec(remote_port.as_str()) {
            return None;
        }
        let direction = Self::determine_direction(
            state.as_str(),
            local_ip.as_str(),
            local_port.as_str(),
            remote_ip.as_str(),
        );
        Some(
            ParsedConnection {
                remote_ip,
                remote_port,
                local_ip,
                local_port,
                protocol: proto,
                direction,
                state,
            },
        )
    }

    /// Reads every line of a `netstat -anop` output into `connections`,
    /// skipping blank and header lines and the connections that the
    /// traffic type keeps out.
    pub fn parse_netstat_output(
        &self,
        stdout: &[u8],
        default_proto: &str,
        connections: &mut Vec<ParsedConnection>,
    ) -> (r: Result<(), ListingError>)
        ensures
            r is Ok,
            conns_view(final(connections)@) == conns_view(old(connections)@)
                + self.netstat_output_spec(stdout@, default_proto@),
            valid_utf8(stdout@) ==> self.netstat_output_spec(stdout@, default_proto@)
                == self.netstat_rows(lines(decode_utf8(stdout@)), default_proto@),
    {
        let text = decode_lossy(stdout);
        let cs = chars_of(text.as_str());
        let lr = line_ranges(cs.as_slice());
        let ghost ls = lines(cs@);
        let ghost start = conns_view(connections@);
        let mut k: usize = 0;
        assert(ls.take(0) =~= Seq::<Seq<char>>::empty());
        assert(conns_view(connections@) =~= start + Seq::<ConnectionView>::empty());
        while k < lr.len()
            invariant
                k <= lr@.len(),
                ranges_within(lr@, cs@.len()),
                ls == pieces(cs@, lr@),
                cs@ == text@,
                conns_view(connections@) == start + self.netstat_rows(
                    ls.take(k as int),
                    default_proto@,
                ),
            decreases lr@.len() - k,
        {
            let (a, b) = lr[k];
            assert(a <= b && b <= cs@.len()) by {
                assert(lr@[k as int].0 <= lr@[k as int].1);
            }
            let line = &cs.as_slice()[a..b];
            let ghost lv = line@;
            assert(lv == ls[k as int]);
            assert(ls.take(k + 1).drop_last() =~= ls.take(k as int));
            let (tlo, thi) = trim_bounds(line);
            let active: [char; 6] = ['A', 'c', 't', 'i', 'v', 'e'];
            let proto_hdr: [char; 5] = ['P', 'r', 'o', 't', 'o'];
            assert(active@ == text_active());
            assert(proto_hdr@ == text_proto());
            let t = &line[tlo..thi];
            let ghost before = conns_view(connections@);
            if !(tlo == thi || starts_with(t, active.as_slice()) || starts_with(
                t,
                proto_hdr.as_slice(),
            )) {
                let trimmed = substring(text.as_str(), a + tlo, a + thi);
                assert(trimmed@ =~= t@);
                match self.parse_netstat_line(trimmed.as_str(), default_proto) {
                    Some(conn) => {
                        if admits(self.config.monitor.traffic_type, conn.direction) {
                            connections.push(conn);
                            assert(conns_view(connections@) =~= before.push(conn@));
                        }
                    },
                    None => {},
                }
            }
            assert(conns_view(connections@) =~= start + self.netstat_rows(
                ls.take(k + 1),
                default_proto@,
            ));
            k = k + 1;
        }
        assert(ls.take(lr@.len() as int) =~= ls);
        Ok(())
    }

    /// What reading one line of `netstat -anop` output prints: how the
    /// direction of its connection was decided, where it got that far.
    pub fn netstat_line_trace(&self, line: &str, default_proto: &str) -> (r: Vec<String>)
        ensures
            strings_view(r@) == match self.netstat_line_spec(line@, default_proto@) {
                Some(c) => direction_trace_spec(
                    unicode_uppercase(c.state),
                    c.local_ip,
                    c.local_port,
                    c.remote_ip,
                ),
                None => Seq::empty(),
            },
    {
        match self.parse_netstat_line(line, default_proto) {
            Some(c) => Self::direction_trace(
                c.state.as_str(),
                c.local_ip.as_str(),
                c.local_port.as_str(),
                c.remote_ip.as_str(),
            ),
            None => {
                let r: Vec<String> = Vec::new();
                assert(strings_view(r@) =~= Seq::<Seq<char>>::empty());
                r
            },
        }
    }

    fn netstat_output_trace(&self, stdout: &[u8], default_proto: &str) -> (r: Vec<String>)
        ensures
            strings_view(r@) == self.netstat_traces(lines(utf8_lossy(stdout@)), default_proto@),
    {
        let text = decode_lossy(stdout);
        let cs = chars_of(text.as_str());
        let lr = line_ranges(cs.as_slice());
        let ghost ls = lines(cs@);
        let mut r: Vec<String> = Vec::new();
        let mut k: usize = 0;
        assert(ls.take(0) =~= Seq::<Seq<char>>::empty());
        assert(strings_view(r@) =~= Seq::<Seq<char>>::empty());
        while k < lr.len()
            invariant
                k <= lr@.len(),
                ranges_within(lr@, cs@.len()),
                ls == pieces(cs@, lr@),
                cs@ == text@,
                strings_view(r@) == self.netstat_traces(ls.take(k as int), default_proto@),
            decreases lr@.len() - k,
        {
            let (a, b) = lr[k];
            assert(a <= b && b <= cs@.len()) by {
                assert(lr@[k as int].0 <= lr@[k as int].1);
            }
            let line = &cs.as_slice()[a..b];
            assert(line@ == ls[k as int]);
            assert(ls.take(k + 1).drop_last() =~= ls.take(k as int));
            let (tlo, thi) = trim_bounds(line);
            let active: [char; 6] = ['A', 'c', 't', 'i', 'v', 'e'];
            let proto_hdr: [char; 5] = ['P', 'r', 'o', 't', 'o'];
            assert(active@ == text_active());
            assert(proto_hdr@ == text_proto());
            let t = &line[tlo..thi];
            let ghost before = strings_view(r@);
            if !(tlo == thi || starts_with(t, active.as_slice()) || starts_with(
                t,
                proto_hdr.as_slice(),
            )) {
                let trimmed = substring(text.as_str(), a + tlo, a + thi);
                assert(trimmed@ =~= t@);
                let lt = self.netstat_line_trace(trimmed.as_str(), default_proto);
                append_lines(&mut r, lt);
            }
            assert(strings_view(r@) =~= self.netstat_traces(ls.take(k + 1), default_proto@));
            k = k + 1;
        }
        assert(ls.take(lr@.len() as int) =~= ls);
        r
    }

    /// What reading a listing reports on the way (see `listing_trace_spec`).
    pub fn listing_trace(&self, listing: &ConnectionListing) -> (t: Trace)
        ensures
            t@ == self.listing_trace_spec(*listing),
    {
        let mut info: Vec<String> = Vec::new();
        let mut printed: Vec<String> = Vec::new();
        let mut debug: Vec<String> = Vec::new();
        assert(strings_view(info@) =~= Seq::<Seq<char>>::empty());
        assert(strings_view(printed@) =~= Seq::<Seq<char>>::empty());
        assert(strings_view(debug@) =~= Seq::<Seq<char>>::empty());
        match listing {
            ConnectionListing::Ss(out) => {
                if !out.success {
                    return Trace { info, printed, debug };
                }
                let text = match decode_strict(out.stdout.clone()) {
                    Some(t) => t,
                    None => return Trace { info, printed, debug },
                };
                let cs = chars_of(text.as_str());
                let lr = line_ranges(cs.as_slice());
                let ghost ls = lines(cs@);
                let mut head = String::from_str("Raw ss output (");
                let n = decimal_string(lr.len() as u64);
                push_text(&mut head, n.as_str());
                push_text(&mut head, " lines):");
                push_line(&mut info, head);
                let ghost preview = raw_preview(ls);
                let mut k: usize = 0;
                while k < lr.len() && k < 5
                    invariant
                        k <= lr@.len(),
                        k <= 5,
                        ranges_within(lr@, cs@.len()),
                        ls == pieces(cs@, lr@),
                        cs@ == text@,
                        preview == raw_preview(ls),
                        strings_view(info@) == preview.take(k + 1),
                    decreases lr@.len() - k,
                {
                    let (a, b) = lr[k];
                    assert(a <= b && b <= cs@.len()) by {
                        assert(lr@[k as int].0 <= lr@[k as int].1);
                    }
                    let line = substring(text.as_str(), a, b);
                    assert(line@ == ls[k as int]);
                    let mut m = String::from_str("  ");
                    push_text(&mut m, line.as_str());
                    push_line(&mut info, m);
                    assert(preview.take(k + 2) =~= preview.take(k + 1).push(preview[k + 1]));
                    k = k + 1;
                }
                assert(preview.take(k + 1) =~= preview);
                if lr.len() == 0 {
                    return Trace { info, printed, debug };
                }
                let ghost body = ls.skip(1);
                let mut k: usize = 1;
                assert(body.take(0) =~= Seq::<Seq<char>>::empty());
                while k < lr.len()
                    invariant
                        1 <= k <= lr@.len(),
                        ranges_within(lr@, cs@.len()),
                        ls == pieces(cs@, lr@),
                        body == ls.skip(1),
                        cs@ == text@,
                        strings_view(info@) == raw_preview(ls),
                        strings_view(printed@) == self.ss_traces(body.take(k - 1)).printed,
                        strings_view(debug@) == self.ss_traces(body.take(k - 1)).debug,
                        self.ss_traces(body.take(k - 1)).info.len() == 0,
                    decreases lr@.len() - k,
                {
                    let (a, b) = lr[k];
                    assert(a <= b && b <= cs@.len()) by {
                        assert(lr@[k as int].0 <= lr@[k as int].1);
                    }
                    let line = substring(text.as_str(), a, b);
                    assert(line@ == ls[k as int]);
                    assert(body[k - 1] == ls[k as int]);
                    assert(body.take(k as int).drop_last() =~= body.take(k - 1));
                    let lt = self.ss_line_trace(line.as_str());
                    append_lines(&mut printed, lt.printed);
                    append_lines(&mut debug, lt.debug);
                    assert(self.ss_traces(body.take(k as int)).info =~= Seq::<Seq<char>>::empty());
                    k = k + 1;
                }
                assert(body.take(lr@.len() - 1) =~= body);
                let t = Trace { info, printed, debug };
                assert(t@.info =~= self.listing_trace_spec(*listing).info);
                t
            },
            ConnectionListing::Netstat { tcp, udp } => {
                proof {
                    reveal_strlit("TCP");
                    reveal_strlit("UDP");
                }
                assert("TCP"@ == text_tcp());
                assert("UDP"@ == text_udp());
                let a = self.netstat_output_trace(tcp.stdout.as_slice(), "TCP");
                let b = self.netstat_output_trace(udp.stdout.as_slice(), "UDP");
                append_lines(&mut printed, a);
                append_lines(&mut printed, b);
                Trace { info, printed, debug }
            },
        }
    }

    /// The connections of a `ss -tun` output.
    fn get_current_connections_linux(&self, out: &CommandOutput) -> (r: Result<
        Vec<ParsedConnection>,
        ListingError,
    >)
        ensures
            listing_result_view(r) == self.listing_spec(ConnectionListing::Ss(*out)),
    {
        if !out.success {
            return Err(ListingError::CommandFailed { stderr: decode_lossy(out.stderr.as_slice()) });
        }
        let text = match decode_strict(out.stdout.clone()) {
            Some(t) => t,
            None => return Err(ListingError::InvalidUtf8),
        };
        let cs = chars_of(text.as_str());
        let lr = line_ranges(cs.as_slice());
        let ghost ls = lines(cs@);
        let mut connections: Vec<ParsedConnection> = Vec::new();
        if lr.len() == 0 {
            assert(conns_view(connections@) =~= Seq::<ConnectionView>::empty());
            return Ok(connections);
        }
        let ghost body = ls.skip(1);
        let mut k: usize = 1;
        assert(body.take(0) =~= Seq::<Seq<char>>::empty());
        while k < lr.len()
            invariant
                1 <= k <= lr@.len(),
                ranges_within(lr@, cs@.len()),
                ls == pieces(cs@, lr@),
                body == ls.skip(1),
                cs@ == text@,
                conns_view(connections@) == self.ss_rows(body.take(k - 1)),
            decreases lr@.len() - k,
        {
            let (a, b) = lr[k];
            assert(a <= b && b <= cs@.len()) by {
                assert(lr@[k as int].0 <= lr@[k as int].1);
            }
            let line = substring(text.as_str(), a, b);
            assert(line@ == ls[k as int]);
            assert(body[k - 1] == ls[k as int]);
            assert(body.take(k as int).drop_last() =~= body.take(k - 1));
            let ghost before = conns_view(connections@);
            match self.parse_ss_line(line.as_str()) {
                Some(conn) => {
                    if admits(self.config.monitor.traffic_type, conn.direction) {
                        connections.push(conn);
                        assert(conns_view(connections@) =~= before.push(conn@));
                    }
                },
                None => {},
            }
            assert(conns_view(connections@) =~= self.ss_rows(body.take(k as int)));
            k = k + 1;
        }
        assert(body.take(lr@.len() - 1) =~= body);
        Ok(connections)
    }

    /// The connections of the two `netstat -anop` outputs, TCP first.
    fn get_current_connections_windows(&self, tcp: &CommandOutput, udp: &CommandOutput) -> (r:
        Result<Vec<ParsedConnection>, ListingError>)
        ensures
            listing_result_view(r) == self.listing_spec(
                ConnectionListing::Netstat { tcp: *tcp, udp: *udp },
            ),
    {
        let mut connections: Vec<ParsedConnection> = Vec::new();
        proof {
            reveal_strlit("TCP");
            reveal_strlit("UDP");
        }
        assert("TCP"@ == text_tcp());
        assert("UDP"@ == text_udp());
        assert(conns_view(connections@) =~= Seq::<ConnectionView>::empty());
        let _ = self.parse_netstat_output(tcp.stdout.as_slice(), "TCP", &mut connections);
        let ghost after_tcp = conns_view(connections@);
        assert(after_tcp =~= self.netstat_output_spec(tcp.stdout@, text_tcp()));
        let _ = self.parse_netstat_output(udp.stdout.as_slice(), "UDP", &mut connections);
        Ok(connections)
    }

    /// The connections that a listing shows, with the configured filters
    /// applied; an error where the `ss` command failed or wrote text that
    /// is not UTF-8.
    pub fn get_current_connections(&self, listing: &ConnectionListing) -> (r: Result<
        Vec<ParsedConnection>,
        ListingError,
    >)
        ensures
            listing_result_view(r) == self.listing_spec(*listing),
    {
        match listing {
            ConnectionListing::Ss(out) => self.get_current_connections_linux(out),
            ConnectionListing::Netstat { tcp, udp } => self.get_current_connections_windows(
                tcp,
                udp,
            ),
        }
    }
}

} // verus!
