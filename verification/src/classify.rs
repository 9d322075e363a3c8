//! Classification of endpoints: splitting `address:port` text, private
//! addresses, the direction of a connection and the address filters.
use vstd::prelude::*;
use crate::ipaddr::{
    IpAddress, IpValue, in_any_subnet_spec, ip_in_any_subnet, is_private_chars, is_private_spec,
    parse_ip, parse_ip_spec,
};
use crate::model::{AppConfig, ConnectionDirection, FilteringConfig, strings_view};
use crate::monitor::ConnectionMonitor;
use crate::text::{
    chars_of, contains_chars, find_char, has_char, has_infix, has_prefix, parse_u16,
    parse_u16_spec, parse_u8, parse_u8_spec, pieces, rfind_char, split_on, split_ranges,
    starts_with, strip_bounds, strip_leading, strip_trailing, substring, trim, trim_bounds,
    decimal_string, decimal_text,
};
use crate::monitor::push_text;

verus! {

// ---------------------------------------------------------------------------
// Fixed texts
// ---------------------------------------------------------------------------

pub open spec fn text_syn_sent() -> Seq<char> {
    seq!['S', 'Y', 'N', '_', 'S', 'E', 'N', 'T']
}

pub open spec fn text_syn_recv() -> Seq<char> {
    seq!['S', 'Y', 'N', '-', 'R', 'E', 'C', 'V']
}

pub open spec fn text_loopback_v4() -> Seq<char> {
    seq!['1', '2', '7', '.', '0', '.', '0', '.', '1']
}

pub open spec fn text_localhost() -> Seq<char> {
    seq!['l', 'o', 'c', 'a', 'l', 'h', 'o', 's', 't']
}

pub open spec fn text_loopback_v6() -> Seq<char> {
    seq![':', ':', '1']
}

pub open spec fn text_prefix_10() -> Seq<char> {
    seq!['1', '0', '.']
}

pub open spec fn text_prefix_192_168() -> Seq<char> {
    seq!['1', '9', '2', '.', '1', '6', '8', '.']
}

pub open spec fn text_prefix_172() -> Seq<char> {
    seq!['1', '7', '2', '.']
}

// ---------------------------------------------------------------------------
// Specifications
// ---------------------------------------------------------------------------

/// `i` is the first position of `c` in `s`.
pub open spec fn first_pos_at(s: Seq<char>, c: char, i: int) -> bool {
    0 <= i < s.len() && s[i] == c && forall|j: int| 0 <= j < i ==> s[j] != c
}

/// `i` is the last position of `c` in `s`.
pub open spec fn last_pos_at(s: Seq<char>, c: char, i: int) -> bool {
    0 <= i < s.len() && s[i] == c && forall|j: int| i < j < s.len() ==> s[j] != c
}

pub open spec fn first_pos(s: Seq<char>, c: char) -> int {
    choose|i: int| first_pos_at(s, c, i)
}

pub open spec fn last_pos(s: Seq<char>, c: char) -> int {
    choose|i: int| last_pos_at(s, c, i)
}

/// The address and port of `[address]:port`, where `a` has that form.
pub open spec fn bracketed_split(a: Seq<char>) -> Option<(Seq<char>, Seq<char>)> {
    if a.len() > 0 && a[0] == '[' && a.contains(']') {
        let e = first_pos(a, ']');
        let rest = a.skip(e + 1);
        if rest.len() > 0 && rest[0] == ':' {
            Some((a.subrange(1, e), rest.skip(1)))
        } else {
            None
        }
    } else {
        None
    }
}

/// The split of `address:port` text: the trimmed text `[ip]:port` gives the
/// part between the brackets and the part after `]:`; otherwise the text
/// is split at its last `:`; text without `:` has no split.
pub open spec fn parse_address_spec(addr: Seq<char>) -> Option<(Seq<char>, Seq<char>)> {
    let a = trim(addr);
    match bracketed_split(a) {
        Some(p) => Some(p),
        None => if a.contains(':') {
            let j = last_pos(a, ':');
            Some((a.take(j), a.skip(j + 1)))
        } else {
            None
        },
    }
}

/// The port after the last `:` of `ip`, as a number.
pub open spec fn trailing_port(ip: Seq<char>) -> Option<u16> {
    parse_u16_spec(split_on(ip, ':').last())
}

/// The direction for two private endpoints, told by the port numbers.
pub open spec fn private_pair_direction(local_port: Seq<char>, remote_ip: Seq<char>)
    -> ConnectionDirection {
    match (parse_u16_spec(local_port), trailing_port(remote_ip)) {
        (Some(l), Some(r)) => if l > 1024 && r <= 1024 {
            ConnectionDirection::Outgoing
        } else if l <= 1024 && r > 1024 {
            ConnectionDirection::Incoming
        } else {
            ConnectionDirection::Unknown
        },
        _ => ConnectionDirection::Unknown,
    }
}

/// The direction of a connection from its state in upper case and its
/// endpoints: a SYN state means outgoing; a local port below 1024 means
/// incoming; a public local and a private remote address mean incoming,
/// the reverse outgoing; for two private addresses the ports decide.
pub open spec fn direction_spec(
    upper_state: Seq<char>,
    local_ip: Seq<char>,
    local_port: Seq<char>,
    remote_ip: Seq<char>,
) -> ConnectionDirection {
    if has_infix(upper_state, text_syn_sent()) || has_infix(upper_state, text_syn_recv()) {
        ConnectionDirection::Outgoing
    } else if (match parse_u16_spec(local_port) {
        Some(p) => p < 1024,
        None => false,
    }) {
        ConnectionDirection::Incoming
    } else {
        let lp = is_private_spec(local_ip);
        let rp = is_private_spec(remote_ip);
        if !lp && rp {
            ConnectionDirection::Incoming
        } else if lp && !rp {
            ConnectionDirection::Outgoing
        } else if lp && rp {
            private_pair_direction(local_port, remote_ip)
        } else {
            ConnectionDirection::Unknown
        }
    }
}

/// What `str::to_uppercase` gives for `s`: its Unicode upper case.
pub uninterp spec fn unicode_uppercase(s: Seq<char>) -> Seq<char>;

/// A `bool` as `Display` writes it.
pub open spec fn bool_text(b: bool) -> Seq<char> {
    if b {
        "true"@
    } else {
        "false"@
    }
}

/// A direction as `Debug` writes it.
pub open spec fn direction_name(d: ConnectionDirection) -> Seq<char> {
    match d {
        ConnectionDirection::Incoming => "Incoming"@,
        ConnectionDirection::Outgoing => "Outgoing"@,
        ConnectionDirection::Unknown => "Unknown"@,
    }
}

/// The console lines that tell, in order, how the direction of a
/// connection was decided (see `direction_spec`).
pub open spec fn direction_trace_spec(
    upper_state: Seq<char>,
    local_ip: Seq<char>,
    local_port: Seq<char>,
    remote_ip: Seq<char>,
) -> Seq<Seq<char>> {
    let lpn = parse_u16_spec(local_port);
    if has_infix(upper_state, text_syn_sent()) || has_infix(upper_state, text_syn_recv()) {
        seq!["    -> Outgoing (SYN_SENT/SYN-RECV state)"@]
    } else if lpn is Some && lpn->0 < 1024 {
        seq!["    -> Incoming (local port "@ + decimal_text(lpn->0 as nat) + " < 1024)"@]
    } else {
        let lp = is_private_spec(local_ip);
        let rp = is_private_spec(remote_ip);
        let first = "    -> local_is_private="@ + bool_text(lp) + ", remote_is_private="@
            + bool_text(rp);
        let last = if !lp && rp {
            "    -> Incoming (local public, remote private)"@
        } else if lp && !rp {
            "    -> Outgoing (local private, remote public)"@
        } else if lp && rp {
            match private_pair_direction(local_port, remote_ip) {
                ConnectionDirection::Outgoing => "    -> Outgoing (local high port to remote low port)"@,
                ConnectionDirection::Incoming => "    -> Incoming (local low port to remote high port)"@,
                ConnectionDirection::Unknown => "    -> Unknown direction"@,
            }
        } else {
            "    -> Unknown direction"@
        };
        seq![first, last]
    }
}

/// The second dot-separated field of `ip` is a number from 16 to 31.
pub open spec fn second_field_in_172_range(ip: Seq<char>) -> bool {
    let p = split_on(ip, '.');
    p.len() >= 2 && match parse_u8_spec(p[1]) {
        Some(n) => 16 <= n && n <= 31,
        None => false,
    }
}

/// `ip` starts like an address of 10/8, 192.168/16 or 172.16/12.
pub open spec fn looks_private(ip: Seq<char>) -> bool {
    ||| has_prefix(ip, text_prefix_10())
    ||| has_prefix(ip, text_prefix_192_168())
    ||| (has_prefix(ip, text_prefix_172()) && second_field_in_172_range(ip))
}

impl FilteringConfig {
    /// The filters drop connections to `ip`: it is listed, a loopback name,
    /// private-looking, public, or outside the allowed networks, each as far
    /// as the matching option asks for it.
    pub open spec fn ignores(&self, ip: Seq<char>) -> bool {
        ||| strings_view(self.ignore_ips@).contains(ip)
        ||| (self.ignore_localhost && (ip == text_loopback_v4() || ip == text_localhost() || ip
            == text_loopback_v6()))
        ||| (self.ignore_private_ips && looks_private(ip))
        ||| (self.ignore_public_ips && !is_private_spec(ip))
        ||| match self.allowed_subnets {
            Some(s) => s@.len() > 0 && !in_any_subnet_spec(ip, strings_view(s@)),
            None => false,
        }
    }
}

/// The part of `ip` before its first `:`, once surrounding brackets are gone.
pub open spec fn lookup_host(ip: Seq<char>) -> Seq<char> {
    split_on(strip_trailing(strip_leading(ip, '['), ']'), ':')[0]
}

pub open spec fn opt_ip_view(a: Option<IpAddress>) -> Option<IpValue> {
    match a {
        Some(x) => Some(x@),
        None => None,
    }
}

impl AppConfig {
    /// The address whose name is looked up for a host at `ip`: none where
    /// name lookups are off, or only private hosts are looked up and this
    /// one is not, or the host part is no address.
    pub open spec fn lookup_target_spec(&self, ip: Seq<char>) -> Option<IpValue> {
        if !self.monitor.resolve_dns {
            None
        } else {
            let host = lookup_host(ip);
            if self.monitor.resolve_only_private && !is_private_spec(host) {
                None
            } else {
                parse_ip_spec(host)
            }
        }
    }
}

// ---------------------------------------------------------------------------
// Executable functions
// ---------------------------------------------------------------------------

/// `str::to_uppercase`.
#[verifier::external_body]
pub(crate) fn to_uppercase(s: &str) -> (r: String)
    ensures
        r@ == unicode_uppercase(s@),
{
    s.to_uppercase()
}

/// `s` equals the fixed text `t`.
pub fn str_is(s: &str, t: &[char]) -> (b: bool)
    ensures
        b == (s@ == t@),
{
    let cs = chars_of(s);
    crate::text::chars_eq(cs.as_slice(), t)
}

pub fn vec_contains_string(v: &Vec<String>, s: &str) -> (b: bool)
    ensures
        b == strings_view(v@).contains(s@),
{
    let mut k: usize = 0;
    while k < v.len()
        invariant
            k <= v@.len(),
            forall|j: int| 0 <= j < k ==> v@[j]@ != s@,
        decreases v@.len() - k,
    {
        let cs = chars_of(v[k].as_str());
        let t = chars_of(s);
        if crate::text::chars_eq(cs.as_slice(), t.as_slice()) {
            assert(strings_view(v@)[k as int] == s@);
            return true;
        }
        k = k + 1;
    }
    assert(!strings_view(v@).contains(s@)) by {
        if strings_view(v@).contains(s@) {
            let j = choose|j: int| 0 <= j < strings_view(v@).len() && strings_view(v@)[j] == s@;
            assert(v@[j]@ == s@);
        }
    }
    false
}

/// `v` holds `x`.
pub fn vec_contains_u16(v: &Vec<u16>, x: u16) -> (b: bool)
    ensures
        b == v@.contains(x),
{
    let mut k: usize = 0;
    while k < v.len()
        invariant
            k <= v@.len(),
            forall|j: int| 0 <= j < k ==> v@[j] != x,
        decreases v@.len() - k,
    {
        if v[k] == x {
            return true;
        }
        k = k + 1;
    }
    false
}

impl ConnectionMonitor {
    /// Splits `address:port` text into the address and the port.
    pub fn parse_address(addr: &str) -> (r: Option<(String, String)>)
        ensures
            match r {
                Some((ip, port)) => parse_address_spec(addr@) == Some((ip@, port@)),
                None => parse_address_spec(addr@) is None,
            },
    {
        let cs = chars_of(addr);
        let (lo, hi) = trim_bounds(cs.as_slice());
        let a = &cs[lo..hi];
        let ghost av = a@;
        assert(av == trim(addr@));
        if a.len() > 0 && a[0] == '[' {
            match find_char(a, ']') {
                Some(e) => {
                    proof {
                        assert(first_pos_at(av, ']', e as int));
                        let c = first_pos(av, ']');
                        assert(first_pos_at(av, ']', c));
                        assert(c == e) by {
                            if c < e {
                                assert(av[c] != ']');
                            } else if c > e {
                                assert(av[e as int] != ']');
                            }
                        }
                    }
                    if e + 1 < a.len() && a[e + 1] == ':' {
                        let ip = substring(addr, lo + 1, lo + e);
                        let port = substring(addr, lo + e + 2, hi);
                        assert(ip@ == av.subrange(1, e as int));
                        assert(port@ == av.skip(e + 1).skip(1));
                        return Some((ip, port));
                    }
                    assert(bracketed_split(av) is None);
                },
                None => {},
            }
        }
        match rfind_char(a, ':') {
            Some(j) => {
                proof {
                    assert(last_pos_at(av, ':', j as int));
                    let c = last_pos(av, ':');
                    assert(last_pos_at(av, ':', c));
                    assert(c == j) by {
                        if c < j {
                            assert(av[j as int] != ':');
                        } else if c > j {
                            assert(av[c] != ':');
                        }
                    }
                }
                let ip = substring(addr, lo, lo + j);
                let port = substring(addr, lo + j + 1, hi);
                assert(ip@ == av.take(j as int));
                assert(port@ == av.skip(j + 1));
                Some((ip, port))
            },
            None => None,
        }
    }

    /// Whether `ip`, without surrounding brackets, is a private, loopback
    /// or link-local address.
    pub fn is_private_ip(ip: &str) -> (b: bool)
        ensures
            b == is_private_spec(ip@),
    {
        let cs = chars_of(ip);
        is_private_chars(cs.as_slice())
    }

    /// The direction of a connection whose state, in upper case, is
    /// `upper_state`.
    pub fn direction_from_upper_state(
        upper_state: &str,
        local_ip: &str,
        local_port: &str,
        remote_ip: &str,
    ) -> (d: ConnectionDirection)
        ensures
            d == direction_spec(upper_state@, local_ip@, local_port@, remote_ip@),
    {
        let st = chars_of(upper_state);
        let sent: [char; 8] = ['S', 'Y', 'N', '_', 'S', 'E', 'N', 'T'];
        let recv: [char; 8] = ['S', 'Y', 'N', '-', 'R', 'E', 'C', 'V'];
        assert(sent@ == text_syn_sent());
        assert(recv@ == text_syn_recv());
        if contains_chars(st.as_slice(), sent.as_slice()) || contains_chars(
            st.as_slice(),
            recv.as_slice(),
        ) {
            return ConnectionDirection::Outgoing;
        }
        let lp_chars = chars_of(local_port);
        let local_port_num = parse_u16(lp_chars.as_slice());
        match local_port_num {
            Some(p) => {
                if p < 1024 {
                    return ConnectionDirection::Incoming;
                }
            },
            None => {},
        }
        let local_is_private = Self::is_private_ip(local_ip);
        let remote_is_private = Self::is_private_ip(remote_ip);
        if !local_is_private && remote_is_private {
            return ConnectionDirection::Incoming;
        }
        if local_is_private && !remote_is_private {
            return ConnectionDirection::Outgoing;
        }
        if local_is_private && remote_is_private {
            let rc = chars_of(remote_ip);
            let parts = split_ranges(rc.as_slice(), ':');
            let last = parts.len() - 1;
            let (a, b) = parts[last];
            assert(a <= b && b <= rc@.len()) by {
                assert(parts@[last as int].0 <= parts@[last as int].1);
            }
            let remote_port_num = parse_u16(&rc.as_slice()[a..b]);
            assert(pieces(rc@, parts@)[last as int] == split_on(remote_ip@, ':').last());
            match (local_port_num, remote_port_num) {
                (Some(l), Some(r)) => {
                    if l > 1024 && r <= 1024 {
                        return ConnectionDirection::Outgoing;
                    } else if l <= 1024 && r > 1024 {
                        return ConnectionDirection::Incoming;
                    }
                },
                _ => {},
            }
        }
        ConnectionDirection::Unknown
    }

    /// The direction of a connection in state `state` between the local
    /// endpoint and the remote address.
    pub fn determine_direction(state: &str, local_ip: &str, local_port: &str, remote_ip: &str) -> (d:
        ConnectionDirection)
        ensures
            d == direction_spec(unicode_uppercase(state@), local_ip@, local_port@, remote_ip@),
    {
        let upper = to_uppercase(state);
        Self::direction_from_upper_state(upper.as_str(), local_ip, local_port, remote_ip)
    }

    /// The address to look up the name of a host at `ip`, where the
    /// configuration asks for a lookup.
    pub fn lookup_target(&self, ip: &str) -> (r: Option<IpAddress>)
        ensures
            opt_ip_view(r) == self.config.lookup_target_spec(ip@),
            r matches Some(IpAddress::V4(o)) ==> o@.len() == 4,
            r matches Some(IpAddress::V6(g)) ==> g@.len() == 8,
    {
        if !self.config.monitor.resolve_dns {
            return None;
        }
        let cs = chars_of(ip);
        let (lo, hi) = strip_bounds(cs.as_slice(), '[', ']');
        let stripped = &cs.as_slice()[lo..hi];
        let parts = split_ranges(stripped, ':');
        let (a, b) = parts[0];
        assert(a <= b && b <= stripped@.len()) by {
            assert(parts@[0].0 <= parts@[0].1);
        }
        let host = &stripped[a..b];
        assert(host@ == lookup_host(ip@));
        if self.config.monitor.resolve_only_private && !is_private_chars(host) {
            return None;
        }
        proof {
            crate::ipaddr::lemma_ipv6_len(host@);
        }
        parse_ip(host)
    }

    /// Whether the filters of the configuration drop connections to `ip`.
    pub fn is_ip_ignored(&self, ip: &str) -> (b: bool)
        ensures
            b == self.config.filtering.ignores(ip@),
    {
        let f = &self.config.filtering;
        if vec_contains_string(&f.ignore_ips, ip) {
            return true;
        }
        let loop4: [char; 9] = ['1', '2', '7', '.', '0', '.', '0', '.', '1'];
        let lh: [char; 9] = ['l', 'o', 'c', 'a', 'l', 'h', 'o', 's', 't'];
        let loop6: [char; 3] = [':', ':', '1'];
        assert(loop4@ == text_loopback_v4());
        assert(lh@ == text_localhost());
        assert(loop6@ == text_loopback_v6());
        if f.ignore_localhost && (str_is(ip, loop4.as_slice()) || str_is(ip, lh.as_slice())
            || str_is(ip, loop6.as_slice())) {
            return true;
        }
        if f.ignore_private_ips {
            let cs = chars_of(ip);
            let p10: [char; 3] = ['1', '0', '.'];
            let p192: [char; 8] = ['1', '9', '2', '.', '1', '6', '8', '.'];
            let p172: [char; 4] = ['1', '7', '2', '.'];
            assert(p10@ == text_prefix_10());
            assert(p192@ == text_prefix_192_168());
            assert(p172@ == text_prefix_172());
            if starts_with(cs.as_slice(), p10.as_slice()) || starts_with(
                cs.as_slice(),
                p192.as_slice(),
            ) {
                return true;
            }
            if starts_with(cs.as_slice(), p172.as_slice()) {
                let parts = split_ranges(cs.as_slice(), '.');
                if parts.len() >= 2 {
                    let (a, b) = parts[1];
                    assert(a <= b && b <= cs@.len()) by {
                        assert(parts@[1].0 <= parts@[1].1);
                    }
                    assert(pieces(cs@, parts@)[1] == split_on(ip@, '.')[1]);
                    match parse_u8(&cs.as_slice()[a..b]) {
                        Some(n) => {
                            if 16 <= n && n <= 31 {
                                return true;
                            }
                        },
                        None => {},
                    }
                }
            }
        }
        if f.ignore_public_ips && !Self::is_private_ip(ip) {
            return true;
        }
        match &f.allowed_subnets {
            Some(subnets) => {
                if subnets.len() > 0 && !ip_in_any_subnet(ip, subnets.as_slice()) {
                    return true;
                }
            },
            None => {},
        }
        false
    }
}

fn bool_string(b: bool) -> (s: String)
    ensures
        s@ == bool_text(b),
{
    if b {
        String::from_str("true")
    } else {
        String::from_str("false")
    }
}

/// The text of a direction as `Debug` writes it.
pub fn direction_name_string(d: ConnectionDirection) -> (s: String)
    ensures
        s@ == direction_name(d),
{
    match d {
        ConnectionDirection::Incoming => String::from_str("Incoming"),
        ConnectionDirection::Outgoing => String::from_str("Outgoing"),
        ConnectionDirection::Unknown => String::from_str("Unknown"),
    }
}

fn one_line(s: String) -> (v: Vec<String>)
    ensures
        strings_view(v@) == seq![s@],
{
    let mut v: Vec<String> = Vec::new();
    let ghost sv = s@;
    v.push(s);
    assert(strings_view(v@) =~= seq![sv]);
    v
}

impl ConnectionMonitor {
    /// The console lines that tell how the direction of a connection whose
    /// state, in upper case, is `upper_state` was decided.
    pub fn direction_trace_upper(
        upper_state: &str,
        local_ip: &str,
        local_port: &str,
        remote_ip: &str,
    ) -> (r: Vec<String>)
        ensures
            strings_view(r@) == direction_trace_spec(upper_state@, local_ip@, local_port@, remote_ip@),
    {
        let st = chars_of(upper_state);
        let sent: [char; 8] = ['S', 'Y', 'N', '_', 'S', 'E', 'N', 'T'];
        let recv: [char; 8] = ['S', 'Y', 'N', '-', 'R', 'E', 'C', 'V'];
        assert(sent@ == text_syn_sent());
        assert(recv@ == text_syn_recv());
        if contains_chars(st.as_slice(), sent.as_slice()) || contains_chars(
            st.as_slice(),
            recv.as_slice(),
        ) {
            return one_line(String::from_str("    -> Outgoing (SYN_SENT/SYN-RECV state)"));
        }
        let lp_chars = chars_of(local_port);
        let local_port_num = parse_u16(lp_chars.as_slice());
        match local_port_num {
            Some(p) => {
                if p < 1024 {
                    let mut s = String::from_str("    -> Incoming (local port ");
                    let n = decimal_string(p as u64);
                    push_text(&mut s, n.as_str());
                    push_text(&mut s, " < 1024)");
                    return one_line(s);
                }
            },
            None => {},
        }
        let lp = Self::is_private_ip(local_ip);
        let rp = Self::is_private_ip(remote_ip);
        let mut first = String::from_str("    -> local_is_private=");
        let b1 = bool_string(lp);
        push_text(&mut first, b1.as_str());
        push_text(&mut first, ", remote_is_private=");
        let b2 = bool_string(rp);
        push_text(&mut first, b2.as_str());
        let last = if !lp && rp {
            String::from_str("    -> Incoming (local public, remote private)")
        } else if lp && !rp {
            String::from_str("    -> Outgoing (local private, remote public)")
        } else if lp && rp {
            let rc = chars_of(remote_ip);
            let parts = split_ranges(rc.as_slice(), ':');
            let last = parts.len() - 1;
            let (a, b) = parts[last];
            assert(a <= b && b <= rc@.len()) by {
                assert(parts@[last as int].0 <= parts@[last as int].1);
            }
            let remote_port_num = parse_u16(&rc.as_slice()[a..b]);
            assert(pieces(rc@, parts@)[last as int] == split_on(remote_ip@, ':').last());
            match (local_port_num, remote_port_num) {
                (Some(l), Some(r)) => {
                    if l > 1024 && r <= 1024 {
                        String::from_str("    -> Outgoing (local high port to remote low port)")
                    } else if l <= 1024 && r > 1024 {
                        String::from_str("    -> Incoming (local low port to remote high port)")
                    } else {
                        String::from_str("    -> Unknown direction")
                    }
                },
                _ => String::from_str("    -> Unknown direction"),
            }
        } else {
            String::from_str("    -> Unknown direction")
        };
        let mut r: Vec<String> = Vec::new();
        let ghost fv = first@;
        let ghost lv = last@;
        r.push(first);
        r.push(last);
        assert(strings_view(r@) =~= seq![fv, lv]);
        r
    }

    /// The console lines that tell how the direction of a connection in
    /// state `state` was decided.
    pub fn direction_trace(state: &str, local_ip: &str, local_port: &str, remote_ip: &str) -> (r:
        Vec<String>)
        ensures
            strings_view(r@) == direction_trace_spec(
                unicode_uppercase(state@),
                local_ip@,
                local_port@,
                remote_ip@,
            ),
    {
        let upper = to_uppercase(state);
        Self::direction_trace_upper(upper.as_str(), local_ip, local_port, remote_ip)
    }
}

} // verus!
