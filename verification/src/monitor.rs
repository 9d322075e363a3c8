//! The monitor's state: the remote addresses seen in the last listing and
//! the history of every remote host seen, and how a listing updates them.
use vstd::prelude::*;
use crate::classify::vec_contains_string;
use crate::logger::Logger;
use crate::model::{
    AppConfig, Connection, ConnectionDirection, ConnectionView, HistoryView, ParsedConnection,
    PortInfo, PortView, conns_view, history_view, opt_ports_view, opt_string_view, ports_view,
    strings_view,
};
use crate::text::{chars_eq, chars_of, decimal_string, decimal_text};

verus! {

/// The state of the connection monitor.
#[derive(Debug)]
pub struct ConnectionMonitor {
    /// The remote addresses of the last listing, each once.
    pub current_connections: Vec<String>,
    pub history: Vec<Connection>,
    pub config: AppConfig,
    pub logger: Logger,
}

/// The name that a reverse lookup gave for an address (`None`: no name).
#[derive(Debug)]
pub struct HostnameLookup {
    pub ip: String,
    pub hostname: Option<String>,
}

pub struct LookupView {
    pub ip: Seq<char>,
    pub hostname: Option<Seq<char>>,
}

impl View for HostnameLookup {
    type V = LookupView;

    open spec fn view(&self) -> LookupView {
        LookupView { ip: self.ip@, hostname: opt_string_view(self.hostname) }
    }
}

pub open spec fn lookups_view(v: Seq<HostnameLookup>) -> Seq<LookupView> {
    v.map_values(|l: HostnameLookup| l@)
}

/// What a check of the connections found.
#[derive(Debug)]
pub struct CheckOutcome {
    /// Remote addresses in this listing that were not in the last one.
    pub new_connections: Vec<String>,
    /// Remote addresses of the last listing that are gone from this one.
    pub disappeared: Vec<String>,
    /// The log lines about new connections.
    pub messages: Vec<String>,
}

// ---------------------------------------------------------------------------
// Specifications
// ---------------------------------------------------------------------------

/// `s` with each element kept at its first occurrence only.
pub open spec fn dedup(s: Seq<Seq<char>>) -> Seq<Seq<char>>
    decreases s.len(),
{
    if s.len() == 0 {
        Seq::empty()
    } else {
        let d = dedup(s.drop_last());
        if d.contains(s.last()) {
            d
        } else {
            d.push(s.last())
        }
    }
}

/// The elements of `s` that `other` does not hold, in order.
pub open spec fn not_in(s: Seq<Seq<char>>, other: Seq<Seq<char>>) -> Seq<Seq<char>>
    decreases s.len(),
{
    if s.len() == 0 {
        Seq::empty()
    } else {
        let r = not_in(s.drop_last(), other);
        if other.contains(s.last()) {
            r
        } else {
            r.push(s.last())
        }
    }
}

/// The remote addresses of the connections, in order.
pub open spec fn remote_ips(cs: Seq<ConnectionView>) -> Seq<Seq<char>> {
    cs.map_values(|c: ConnectionView| c.remote_ip)
}

/// `i` is the first record of the history for `ip`.
pub open spec fn first_record_at(h: Seq<HistoryView>, ip: Seq<char>, i: int) -> bool {
    &&& 0 <= i < h.len()
    &&& h[i].ip_address == ip
    &&& forall|j: int| 0 <= j < i ==> h[j].ip_address != ip
}

/// The first record of the history for `ip`.
pub open spec fn record_index(h: Seq<HistoryView>, ip: Seq<char>) -> Option<int> {
    if exists|i: int| first_record_at(h, ip, i) {
        Some(choose|i: int| first_record_at(h, ip, i))
    } else {
        None
    }
}

/// `j` is the first entry of `ps` for `port`.
pub open spec fn first_port_at(ps: Seq<PortView>, port: Seq<char>, j: int) -> bool {
    &&& 0 <= j < ps.len()
    &&& ps[j].port == port
    &&& forall|k: int| 0 <= k < j ==> ps[k].port != port
}

pub open spec fn port_index(ps: Seq<PortView>, port: Seq<char>) -> Option<int> {
    if exists|j: int| first_port_at(ps, port, j) {
        Some(choose|j: int| first_port_at(ps, port, j))
    } else {
        None
    }
}

/// The ports after `port` was seen in `state`: its entry takes the state,
/// or a new entry is added at the end.
pub open spec fn observe_port(ps: Seq<PortView>, port: Seq<char>, state: Seq<char>) -> Seq<
    PortView,
> {
    match port_index(ps, port) {
        Some(j) => ps.update(j, PortView { port, state }),
        None => ps.push(PortView { port, state }),
    }
}

pub open spec fn direction_text(d: ConnectionDirection) -> Seq<char> {
    match d {
        ConnectionDirection::Incoming => "incoming"@,
        ConnectionDirection::Outgoing => "outgoing"@,
        ConnectionDirection::Unknown => "unknown"@,
    }
}

/// The name that the lookups give for `ip`.
pub open spec fn looked_up(ip: Seq<char>, lookups: Seq<LookupView>) -> Option<Seq<char>>
    decreases lookups.len(),
{
    if lookups.len() == 0 {
        None
    } else if lookups[0].ip == ip {
        lookups[0].hostname
    } else {
        looked_up(ip, lookups.drop_first())
    }
}

/// The history record of a host first seen in connection `c` at `now`:
/// with the port of `c` where the history keeps ports, else with none.
pub open spec fn first_record(
    c: ConnectionView,
    now: Seq<char>,
    hostname: Option<Seq<char>>,
    keep_ports: bool,
) -> HistoryView {
    HistoryView {
        ip_address: c.remote_ip,
        hostname,
        ports: if keep_ports {
            Some(seq![PortView { port: c.remote_port, state: c.state }])
        } else {
            None
        },
        discovered_at: now,
        last_seen: now,
        protocol: c.protocol,
        direction: direction_text(c.direction),
        local_port: c.local_port,
        local_ip: c.local_ip,
    }
}

/// A history record after its host was seen again in `c` at `now`.
pub open spec fn seen_again(r: HistoryView, c: ConnectionView, now: Seq<char>, keep_ports: bool)
    -> HistoryView {
    HistoryView {
        ip_address: r.ip_address,
        hostname: r.hostname,
        ports: if keep_ports {
            match r.ports {
                Some(ps) => Some(observe_port(ps, c.remote_port, c.state)),
                None => None,
            }
        } else {
            r.ports
        },
        discovered_at: r.discovered_at,
        last_seen: now,
        protocol: r.protocol,
        direction: r.direction,
        local_port: r.local_port,
        local_ip: r.local_ip,
    }
}

pub open spec fn port_item(p: PortView) -> Seq<char> {
    p.port + " ("@ + p.state + ")"@
}

/// The ports, each as `port (state)`, joined with `, `.
pub open spec fn ports_text(ps: Seq<PortView>) -> Seq<char>
    decreases ps.len(),
{
    if ps.len() == 0 {
        Seq::empty()
    } else if ps.len() == 1 {
        port_item(ps[0])
    } else {
        ports_text(ps.drop_last()) + ", "@ + port_item(ps.last())
    }
}

/// The ports part of an alert: ` | Ports: ...` where ports are shown and
/// the record keeps them.
pub open spec fn ports_part(show: bool, ports: Option<Seq<PortView>>) -> Seq<char> {
    if show {
        match ports {
            Some(ps) => " | Ports: "@ + ports_text(ps),
            None => Seq::empty(),
        }
    } else {
        Seq::empty()
    }
}

pub open spec fn hostname_or_na(h: Option<Seq<char>>) -> Seq<char> {
    match h {
        Some(n) => n,
        None => "N/A"@,
    }
}

/// The log line about a new connection to `ip`, whose history record is `r`.
pub open spec fn new_connection_message(ip: Seq<char>, r: HistoryView, show_ports: bool) -> Seq<
    char,
> {
    "New connection(s) from "@ + ip + " ("@ + hostname_or_na(r.hostname) + ")"@ + ports_part(
        show_ports,
        r.ports,
    ) + " | Direction: "@ + r.direction
}

/// The log lines about the new addresses that the history knows.
pub open spec fn new_connection_messages(
    h: Seq<HistoryView>,
    new: Seq<Seq<char>>,
    show_ports: bool,
) -> Seq<Seq<char>>
    decreases new.len(),
{
    if new.len() == 0 {
        Seq::empty()
    } else {
        let m = new_connection_messages(h, new.drop_last(), show_ports);
        match record_index(h, new.last()) {
            Some(i) => m.push(new_connection_message(new.last(), h[i], show_ports)),
            None => m,
        }
    }
}

impl ConnectionMonitor {
    /// The set of remote addresses is kept without repetition.
    pub open spec fn wf(&self) -> bool {
        strings_view(self.current_connections@).no_duplicates()
    }
}

impl AppConfig {
    /// The name recorded for a host first seen at `ip`: none where no lookup
    /// is made for it, else what the lookups give.
    pub open spec fn hostname_for(&self, ip: Seq<char>, lookups: Seq<LookupView>) -> Option<
        Seq<char>,
    > {
        if self.lookup_target_spec(ip) is Some {
            looked_up(ip, lookups)
        } else {
            None
        }
    }

    /// The history after connection `c` was seen at `now`.
    pub open spec fn observe(
        &self,
        h: Seq<HistoryView>,
        c: ConnectionView,
        now: Seq<char>,
        lookups: Seq<LookupView>,
    ) -> Seq<HistoryView> {
        match record_index(h, c.remote_ip) {
            Some(i) => h.update(
                i,
                seen_again(h[i], c, now, self.monitor.include_ports_in_history),
            ),
            None => h.push(
                first_record(
                    c,
                    now,
                    self.hostname_for(c.remote_ip, lookups),
                    self.monitor.include_ports_in_history,
                ),
            ),
        }
    }

    /// The history after each of `cs` was seen at `now`, in order.
    pub open spec fn observe_all(
        &self,
        h: Seq<HistoryView>,
        cs: Seq<ConnectionView>,
        now: Seq<char>,
        lookups: Seq<LookupView>,
    ) -> Seq<HistoryView>
        decreases cs.len(),
    {
        if cs.len() == 0 {
            h
        } else {
            self.observe(self.observe_all(h, cs.drop_last(), now, lookups), cs.last(), now, lookups)
        }
    }
}

// ---------------------------------------------------------------------------
// Lemmas
// ---------------------------------------------------------------------------

proof fn lemma_push_contains(d: Seq<Seq<char>>, l: Seq<char>, x: Seq<char>)
    ensures
        d.push(l).contains(x) <==> (d.contains(x) || x == l),
{
    if d.push(l).contains(x) {
        let k = choose|k: int| 0 <= k < d.push(l).len() && d.push(l)[k] == x;
        if k < d.len() {
            assert(d[k] == x);
        }
    }
    if d.contains(x) {
        let k = choose|k: int| 0 <= k < d.len() && d[k] == x;
        assert(d.push(l)[k] == x);
    }
    if x == l {
        assert(d.push(l)[d.len() as int] == x);
    }
}

proof fn lemma_last_contains(s: Seq<Seq<char>>, x: Seq<char>)
    requires
        s.len() > 0,
    ensures
        s.contains(x) <==> (s.drop_last().contains(x) || x == s.last()),
{
    assert(s =~= s.drop_last().push(s.last()));
    lemma_push_contains(s.drop_last(), s.last(), x);
}

/// An address is in the deduplicated list exactly when it is in the list,
/// and the deduplicated list repeats nothing.
pub proof fn lemma_dedup(s: Seq<Seq<char>>)
    ensures
        forall|x: Seq<char>| dedup(s).contains(x) <==> s.contains(x),
        dedup(s).no_duplicates(),
    decreases s.len(),
{
    if s.len() > 0 {
        let p = s.drop_last();
        let l = s.last();
        lemma_dedup(p);
        let d = dedup(p);
        assert forall|x: Seq<char>| dedup(s).contains(x) <==> s.contains(x) by {
            lemma_last_contains(s, x);
            lemma_push_contains(d, l, x);
        }
        if !d.contains(l) {
            assert forall|i: int, j: int|
                0 <= i < d.push(l).len() && 0 <= j < d.push(l).len() && i != j implies d.push(
                l,
            )[i] != d.push(l)[j] by {
                if i == d.len() {
                    assert(d[j] != l);
                } else if j == d.len() {
                    assert(d[i] != l);
                }
            }
        }
    }
}

/// An element is in `not_in(s, o)` exactly when `s` holds it and `o` does
/// not; what `s` does not repeat, `not_in(s, o)` does not either.
pub proof fn lemma_not_in(s: Seq<Seq<char>>, o: Seq<Seq<char>>)
    ensures
        forall|x: Seq<char>| not_in(s, o).contains(x) <==> (s.contains(x) && !o.contains(x)),
        s.no_duplicates() ==> not_in(s, o).no_duplicates(),
    decreases s.len(),
{
    if s.len() > 0 {
        let p = s.drop_last();
        let l = s.last();
        lemma_not_in(p, o);
        let r = not_in(p, o);
        assert forall|x: Seq<char>| not_in(s, o).contains(x) <==> (s.contains(x) && !o.contains(x)) by {
            lemma_last_contains(s, x);
            lemma_push_contains(r, l, x);
        }
        if s.no_duplicates() {
            assert(p.no_duplicates()) by {
                assert forall|i: int, j: int|
                    0 <= i < p.len() && 0 <= j < p.len() && i != j implies p[i] != p[j] by {
                    assert(s[i] != s[j]);
                }
            }
            if !o.contains(l) {
                assert(!p.contains(l)) by {
                    if p.contains(l) {
                        let m = choose|m: int| 0 <= m < p.len() && p[m] == l;
                        assert(s[m] != s[s.len() - 1]);
                    }
                }
                assert(!r.contains(l));
                assert forall|i: int, j: int|
                    0 <= i < r.push(l).len() && 0 <= j < r.push(l).len() && i != j implies r.push(
                    l,
                )[i] != r.push(l)[j] by {
                    if i == r.len() {
                        assert(r[j] != l);
                    } else if j == r.len() {
                        assert(r[i] != l);
                    }
                }
            }
        }
    }
}

// ---------------------------------------------------------------------------
// Executable functions
// ---------------------------------------------------------------------------

/// `a` and `b` hold the same text.
pub fn same_text(a: &str, b: &str) -> (r: bool)
    ensures
        r == (a@ == b@),
{
    let x = chars_of(a);
    let y = chars_of(b);
    chars_eq(x.as_slice(), y.as_slice())
}

/// A copy of a list of ports.
pub fn copy_ports(v: &Vec<PortInfo>) -> (r: Vec<PortInfo>)
    ensures
        ports_view(r@) == ports_view(v@),
{
    let mut r: Vec<PortInfo> = Vec::new();
    let mut k: usize = 0;
    while k < v.len()
        invariant
            k <= v@.len(),
            ports_view(r@) == ports_view(v@.take(k as int)),
        decreases v@.len() - k,
    {
        let ghost before = ports_view(r@);
        let item = PortInfo { port: v[k].port.clone(), state: v[k].state.clone() };
        assert(item@ == v@[k as int]@);
        r.push(item);
        assert(ports_view(r@) =~= before.push(v@[k as int]@));
        assert(ports_view(v@.take(k + 1)) =~= ports_view(v@.take(k as int)).push(v@[k as int]@));
        k = k + 1;
    }
    assert(v@.take(v@.len() as int) =~= v@);
    r
}

fn copy_opt_string(s: &Option<String>) -> (r: Option<String>)
    ensures
        opt_string_view(r) == opt_string_view(*s),
{
    match s {
        Some(t) => Some(t.clone()),
        None => None,
    }
}

/// A copy of a history record.
pub fn copy_connection(c: &Connection) -> (r: Connection)
    ensures
        r@ == c@,
{
    Connection {
        ip_address: c.ip_address.clone(),
        hostname: copy_opt_string(&c.hostname),
        ports: match &c.ports {
            Some(p) => Some(copy_ports(p)),
            None => None,
        },
        discovered_at: c.discovered_at.clone(),
        last_seen: c.last_seen.clone(),
        protocol: c.protocol.clone(),
        direction: c.direction.clone(),
        local_port: c.local_port.clone(),
        local_ip: c.local_ip.clone(),
    }
}

/// The first record of `h` for `ip`.
pub fn find_record(h: &Vec<Connection>, ip: &str) -> (r: Option<usize>)
    ensures
        match r {
            Some(i) => record_index(history_view(h@), ip@) == Some(i as int),
            None => record_index(history_view(h@), ip@) is None,
        },
{
    let ghost hv = history_view(h@);
    let mut i: usize = 0;
    while i < h.len()
        invariant
            i <= h@.len(),
            hv == history_view(h@),
            forall|j: int| 0 <= j < i ==> hv[j].ip_address != ip@,
        decreases h@.len() - i,
    {
        if same_text(h[i].ip_address.as_str(), ip) {
            assert(first_record_at(hv, ip@, i as int));
            let ghost c = choose|x: int| first_record_at(hv, ip@, x);
            assert(c == i) by {
                if c < i {
                    assert(hv[c].ip_address != ip@);
                } else if c > i {
                    assert(hv[i as int].ip_address != ip@);
                }
            }
            return Some(i);
        }
        i = i + 1;
    }
    assert forall|x: int| !first_record_at(hv, ip@, x) by {
        if first_record_at(hv, ip@, x) {
            assert(hv[x].ip_address != ip@);
        }
    }
    None
}

/// The first entry of `ps` for `port`.
fn find_port(ps: &Vec<PortInfo>, port: &str) -> (r: Option<usize>)
    ensures
        match r {
            Some(j) => port_index(ports_view(ps@), port@) == Some(j as int),
            None => port_index(ports_view(ps@), port@) is None,
        },
{
    let ghost pv = ports_view(ps@);
    let mut i: usize = 0;
    while i < ps.len()
        invariant
            i <= ps@.len(),
            pv == ports_view(ps@),
            forall|j: int| 0 <= j < i ==> pv[j].port != port@,
        decreases ps@.len() - i,
    {
        if same_text(ps[i].port.as_str(), port) {
            assert(first_port_at(pv, port@, i as int));
            let ghost c = choose|x: int| first_port_at(pv, port@, x);
            assert(c == i) by {
                if c < i {
                    assert(pv[c].port != port@);
                } else if c > i {
                    assert(pv[i as int].port != port@);
                }
            }
            return Some(i);
        }
        i = i + 1;
    }
    assert forall|x: int| !first_port_at(pv, port@, x) by {
        if first_port_at(pv, port@, x) {
            assert(pv[x].port != port@);
        }
    }
    None
}

fn observe_port_exec(ps: &Vec<PortInfo>, port: &String, state: &String) -> (r: Vec<PortInfo>)
    ensures
        ports_view(r@) == observe_port(ports_view(ps@), port@, state@),
{
    let mut r = copy_ports(ps);
    match find_port(ps, port.as_str()) {
        Some(j) => {
            r.set(j, PortInfo { port: port.clone(), state: state.clone() });
            assert(ports_view(r@) =~= ports_view(ps@).update(
                j as int,
                PortView { port: port@, state: state@ },
            ));
        },
        None => {
            r.push(PortInfo { port: port.clone(), state: state.clone() });
            assert(ports_view(r@) =~= ports_view(ps@).push(PortView { port: port@, state: state@ }));
        },
    }
    r
}

fn direction_string(d: ConnectionDirection) -> (s: String)
    ensures
        s@ == direction_text(d),
{
    match d {
        ConnectionDirection::Incoming => String::from_str("incoming"),
        ConnectionDirection::Outgoing => String::from_str("outgoing"),
        ConnectionDirection::Unknown => String::from_str("unknown"),
    }
}

fn lookup_hostname(ip: &str, lookups: &Vec<HostnameLookup>) -> (r: Option<String>)
    ensures
        opt_string_view(r) == looked_up(ip@, lookups_view(lookups@)),
{
    let ghost lv = lookups_view(lookups@);
    let mut k: usize = 0;
    assert(lv.skip(0) =~= lv);
    while k < lookups.len()
        invariant
            k <= lookups@.len(),
            lv == lookups_view(lookups@),
            looked_up(ip@, lv.skip(k as int)) == looked_up(ip@, lv),
        decreases lookups@.len() - k,
    {
        assert(lv.skip(k as int)[0] == lv[k as int]);
        if same_text(lookups[k].ip.as_str(), ip) {
            return copy_opt_string(&lookups[k].hostname);
        }
        assert(lv.skip(k as int).drop_first() =~= lv.skip(k + 1));
        k = k + 1;
    }
    None
}

/// `text` followed by `more`.
pub fn push_text(text: &mut String, more: &str)
    ensures
        final(text)@ == old(text)@ + more@,
{
    text.append(more);
}

/// The ports, each as `port (state)`, joined with `, `.
pub fn ports_string(ps: &Vec<PortInfo>) -> (s: String)
    ensures
        s@ == ports_text(ports_view(ps@)),
{
    let ghost pv = ports_view(ps@);
    let mut s = String::new();
    let mut k: usize = 0;
    assert(pv.take(0) =~= Seq::<PortView>::empty());
    while k < ps.len()
        invariant
            k <= ps@.len(),
            pv == ports_view(ps@),
            s@ == ports_text(pv.take(k as int)),
        decreases ps@.len() - k,
    {
        let ghost t = pv.take(k + 1);
        assert(t.drop_last() =~= pv.take(k as int));
        if k > 0 {
            push_text(&mut s, ", ");
        } else {
            assert(t.len() == 1);
        }
        push_text(&mut s, ps[k].port.as_str());
        push_text(&mut s, " (");
        push_text(&mut s, ps[k].state.as_str());
        push_text(&mut s, ")");
        assert(port_item(t.last()) == ps@[k as int].port@ + " ("@ + ps@[k as int].state@ + ")"@);
        assert(s@ =~= ports_text(t));
        k = k + 1;
    }
    assert(pv.take(ps@.len() as int) =~= pv);
    s
}

/// The ports part of an alert.
pub fn ports_part_string(show: bool, ports: &Option<Vec<PortInfo>>) -> (s: String)
    ensures
        s@ == ports_part(show, opt_ports_view(*ports)),
{
    if show {
        match ports {
            Some(ps) => {
                let mut s = String::from_str(" | Ports: ");
                let t = ports_string(ps);
                push_text(&mut s, t.as_str());
                s
            },
            None => String::new(),
        }
    } else {
        String::new()
    }
}

fn new_connection_message_exec(ip: &str, r: &Connection, show_ports: bool) -> (s: String)
    ensures
        s@ == new_connection_message(ip@, r@, show_ports),
{
    let mut s = String::from_str("New connection(s) from ");
    push_text(&mut s, ip);
    push_text(&mut s, " (");
    match &r.hostname {
        Some(h) => push_text(&mut s, h.as_str()),
        None => push_text(&mut s, "N/A"),
    }
    push_text(&mut s, ")");
    let p = ports_part_string(show_ports, &r.ports);
    push_text(&mut s, p.as_str());
    push_text(&mut s, " | Direction: ");
    push_text(&mut s, r.direction.as_str());
    s
}

/// The alert about `count` connections, more than the threshold allows.
pub open spec fn threshold_message(count: nat, threshold: nat) -> Seq<char> {
    "Connection count "@ + decimal_text(count) + " exceeds the alert threshold of "@
        + decimal_text(threshold)
}

impl ConnectionMonitor {
    /// The alert due for `count` current connections: one exactly where a
    /// threshold is set and the count exceeds it.
    pub fn threshold_alert(&self, count: u64) -> (r: Option<String>)
        ensures
            r is Some <==> (self.config.alerts.alert_threshold_count matches Some(t) && count > t),
            r matches Some(s) ==> s@ == threshold_message(
                count as nat,
                self.config.alerts.alert_threshold_count->0 as nat,
            ),
    {
        match self.config.alerts.alert_threshold_count {
            Some(t) => {
                if count > t as u64 {
                    let mut s = String::from_str("Connection count ");
                    let c = decimal_string(count);
                    push_text(&mut s, c.as_str());
                    push_text(&mut s, " exceeds the alert threshold of ");
                    let d = decimal_string(t as u64);
                    push_text(&mut s, d.as_str());
                    Some(s)
                } else {
                    None
                }
            },
            None => None,
        }
    }
}

impl ConnectionMonitor {
    /// A monitor for `config` that has seen nothing yet, logging to the log
    /// file of the configuration.
    pub fn new(config: AppConfig) -> (m: Self)
        ensures
            m.current_connections@.len() == 0,
            m.history@.len() == 0,
            m.wf(),
            m.config == config,
            m.logger.log_file@ == config.files.log_file@,
            m.logger.enable_logging,
            m.logger.max_size_mb == config.files.max_log_size_mb,
            m.logger.max_files == config.files.max_log_files,
    {
        let logger = Logger::new(&config.files);
        ConnectionMonitor { current_connections: Vec::new(), history: Vec::new(), config, logger }
    }

    /// Records that connection `c` was seen at `now`.
    fn observe_exec(&mut self, c: &ParsedConnection, now: &str, lookups: &Vec<HostnameLookup>)
        ensures
            history_view(final(self).history@) == old(self).config.observe(
                history_view(old(self).history@),
                c@,
                now@,
                lookups_view(lookups@),
            ),
            final(self).config == old(self).config,
            final(self).logger == old(self).logger,
            final(self).current_connections == old(self).current_connections,
    {
        let ghost hv = history_view(self.history@);
        match find_record(&self.history, c.remote_ip.as_str()) {
            Some(i) => {
                let old_rec = copy_connection(&self.history[i]);
                let ports = if self.config.monitor.include_ports_in_history {
                    match &old_rec.ports {
                        Some(ps) => Some(observe_port_exec(ps, &c.remote_port, &c.state)),
                        None => None,
                    }
                } else {
                    match &old_rec.ports {
                        Some(ps) => Some(copy_ports(ps)),
                        None => None,
                    }
                };
                let rec = Connection {
                    ip_address: old_rec.ip_address,
                    hostname: old_rec.hostname,
                    ports,
                    discovered_at: old_rec.discovered_at,
                    last_seen: String::from_str(now),
                    protocol: old_rec.protocol,
                    direction: old_rec.direction,
                    local_port: old_rec.local_port,
                    local_ip: old_rec.local_ip,
                };
                assert(rec@ == seen_again(hv[i as int], c@, now@, self.config.monitor.include_ports_in_history));
                self.history.set(i, rec);
                assert(history_view(self.history@) =~= hv.update(i as int, rec@));
            },
            None => {
                let hostname = match self.lookup_target(c.remote_ip.as_str()) {
                    Some(_) => lookup_hostname(c.remote_ip.as_str(), lookups),
                    None => None,
                };
                let ports = if self.config.monitor.include_ports_in_history {
                    let mut first_ports: Vec<PortInfo> = Vec::new();
                    first_ports.push(PortInfo { port: c.remote_port.clone(), state: c.state.clone() });
                    assert(ports_view(first_ports@) =~= seq![PortView { port: c.remote_port@, state: c.state@ }]);
                    Some(first_ports)
                } else {
                    None
                };
                let rec = Connection {
                    ip_address: c.remote_ip.clone(),
                    hostname,
                    ports,
                    discovered_at: String::from_str(now),
                    last_seen: String::from_str(now),
                    protocol: c.protocol.clone(),
                    direction: direction_string(c.direction),
                    local_port: c.local_port.clone(),
                    local_ip: c.local_ip.clone(),
                };
                assert(rec@ == first_record(
                    c@,
                    now@,
                    self.config.hostname_for(c.remote_ip@, lookups_view(lookups@)),
                    self.config.monitor.include_ports_in_history,
                ));
                self.history.push(rec);
                assert(history_view(self.history@) =~= hv.push(rec@));
            },
        }
    }

    /// Takes in the connections of a new listing seen at `now`: the set of
    /// current remote addresses becomes theirs, each connection updates the
    /// history record of its host or starts one (named by `lookups`), and
    /// the outcome tells which addresses are new, which are gone, and what
    /// to log about the new ones.
    pub fn check_connections(
        &mut self,
        current: &Vec<ParsedConnection>,
        now: &str,
        lookups: &Vec<HostnameLookup>,
    ) -> (r: CheckOutcome)
        ensures
            strings_view(final(self).current_connections@) == dedup(remote_ips(conns_view(current@))),
            final(self).wf(),
            strings_view(r.new_connections@) == not_in(
                dedup(remote_ips(conns_view(current@))),
                strings_view(old(self).current_connections@),
            ),
            strings_view(r.disappeared@) == not_in(
                dedup(strings_view(old(self).current_connections@)),
                dedup(remote_ips(conns_view(current@))),
            ),
            strings_view(r.messages@) == (if old(self).config.alerts.alert_on_new_connection {
                new_connection_messages(
                    history_view(old(self).history@),
                    strings_view(r.new_connections@),
                    old(self).config.monitor.show_ports_in_logs,
                )
            } else {
                Seq::empty()
            }),
            history_view(final(self).history@) == old(self).config.observe_all(
                history_view(old(self).history@),
                conns_view(current@),
                now@,
                lookups_view(lookups@),
            ),
            final(self).config == old(self).config,
            final(self).logger == old(self).logger,
    {
        let ghost cur = conns_view(current@);
        let ghost ips = remote_ips(cur);
        let ghost old_set = strings_view(self.current_connections@);
        // The set of remote addresses, in order of first appearance.
        let mut set: Vec<String> = Vec::new();
        let mut k: usize = 0;
        assert(ips.take(0) =~= Seq::<Seq<char>>::empty());
        while k < current.len()
            invariant
                k <= current@.len(),
                cur == conns_view(current@),
                ips == remote_ips(cur),
                strings_view(set@) == dedup(ips.take(k as int)),
            decreases current@.len() - k,
        {
            assert(ips.take(k + 1).drop_last() =~= ips.take(k as int));
            assert(ips[k as int] == current@[k as int].remote_ip@);
            if !vec_contains_string(&set, current[k].remote_ip.as_str()) {
                let ghost before = strings_view(set@);
                set.push(current[k].remote_ip.clone());
                assert(strings_view(set@) =~= before.push(current@[k as int].remote_ip@));
            }
            k = k + 1;
        }
        assert(ips.take(current@.len() as int) =~= ips);
        let ghost now_set = strings_view(set@);
        // New addresses.
        let mut new_connections: Vec<String> = Vec::new();
        let mut k: usize = 0;
        assert(now_set.take(0) =~= Seq::<Seq<char>>::empty());
        while k < set.len()
            invariant
                k <= set@.len(),
                now_set == strings_view(set@),
                old_set == strings_view(self.current_connections@),
                strings_view(new_connections@) == not_in(now_set.take(k as int), old_set),
            decreases set@.len() - k,
        {
            assert(now_set.take(k + 1).drop_last() =~= now_set.take(k as int));
            if !vec_contains_string(&self.current_connections, set[k].as_str()) {
                let ghost before = strings_view(new_connections@);
                new_connections.push(set[k].clone());
                assert(strings_view(new_connections@) =~= before.push(set@[k as int]@));
            }
            k = k + 1;
        }
        assert(now_set.take(set@.len() as int) =~= now_set);
        // Addresses that are gone, each once.
        let mut disappeared: Vec<String> = Vec::new();
        let mut k: usize = 0;
        assert(old_set.take(0) =~= Seq::<Seq<char>>::empty());
        while k < self.current_connections.len()
            invariant
                k <= self.current_connections@.len(),
                now_set == strings_view(set@),
                old_set == strings_view(self.current_connections@),
                strings_view(disappeared@) == not_in(dedup(old_set.take(k as int)), now_set),
            decreases self.current_connections@.len() - k,
        {
            let ghost d = dedup(old_set.take(k as int));
            let ghost l = old_set[k as int];
            assert(old_set.take(k + 1).drop_last() =~= old_set.take(k as int));
            assert(old_set.take(k + 1).last() == l);
            assert(d.push(l).drop_last() =~= d);
            proof {
                lemma_not_in(d, now_set);
            }
            let in_now = vec_contains_string(&set, self.current_connections[k].as_str());
            let seen = vec_contains_string(&disappeared, self.current_connections[k].as_str());
            if !in_now && !seen {
                let ghost before = strings_view(disappeared@);
                disappeared.push(self.current_connections[k].clone());
                assert(strings_view(disappeared@) =~= before.push(l));
            }
            k = k + 1;
        }
        assert(old_set.take(self.current_connections@.len() as int) =~= old_set);
        // Log lines about new addresses that the history knows.
        let ghost hv = history_view(self.history@);
        let ghost newv = strings_view(new_connections@);
        let mut messages: Vec<String> = Vec::new();
        if self.config.alerts.alert_on_new_connection {
            let mut k: usize = 0;
            assert(newv.take(0) =~= Seq::<Seq<char>>::empty());
            while k < new_connections.len()
                invariant
                    k <= new_connections@.len(),
                    newv == strings_view(new_connections@),
                    hv == history_view(self.history@),
                    strings_view(messages@) == new_connection_messages(
                        hv,
                        newv.take(k as int),
                        self.config.monitor.show_ports_in_logs,
                    ),
                decreases new_connections@.len() - k,
            {
                assert(newv.take(k + 1).drop_last() =~= newv.take(k as int));
                match find_record(&self.history, new_connections[k].as_str()) {
                    Some(i) => {
                        let m = new_connection_message_exec(
                            new_connections[k].as_str(),
                            &self.history[i],
                            self.config.monitor.show_ports_in_logs,
                        );
                        let ghost before = strings_view(messages@);
                        messages.push(m);
                        assert(strings_view(messages@) =~= before.push(m@));
                    },
                    None => {},
                }
                k = k + 1;
            }
            assert(newv.take(new_connections@.len() as int) =~= newv);
        } else {
            assert(strings_view(messages@) =~= Seq::<Seq<char>>::empty());
        }
        self.current_connections = set;
        // The history.
        let ghost h0 = history_view(self.history@);
        let mut k: usize = 0;
        assert(cur.take(0) =~= Seq::<ConnectionView>::empty());
        while k < current.len()
            invariant
                k <= current@.len(),
                cur == conns_view(current@),
                history_view(self.history@) == self.config.observe_all(
                    h0,
                    cur.take(k as int),
                    now@,
                    lookups_view(lookups@),
                ),
                strings_view(self.current_connections@) == now_set,
                self.config == old(self).config,
                self.logger == old(self).logger,
            decreases current@.len() - k,
        {
            assert(cur.take(k + 1).drop_last() =~= cur.take(k as int));
            assert(cur.take(k + 1).last() == current@[k as int]@);
            self.observe_exec(&current[k], now, lookups);
            k = k + 1;
        }
        assert(cur.take(current@.len() as int) =~= cur);
        proof {
            lemma_dedup(ips);
        }
        CheckOutcome { new_connections, disappeared, messages }
    }
}

} // verus!
