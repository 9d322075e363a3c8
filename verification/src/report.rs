//! The summary report of the history: statistics and the active hosts.
use vstd::prelude::*;
use crate::classify::vec_contains_string;
use crate::model::{Connection, HistoryView, TrafficType, history_view, strings_view};
use crate::monitor::{
    ConnectionMonitor, dedup, hostname_or_na, ports_string, ports_text, push_text, same_text,
};
use crate::text::{chars_of, decimal_string, decimal_text};

verus! {

// ---------------------------------------------------------------------------
// Specifications
// ---------------------------------------------------------------------------

/// `a` sorts before `b` (the order of `String`).
pub open spec fn text_lt(a: Seq<char>, b: Seq<char>) -> bool
    decreases a.len(),
{
    if a.len() == 0 {
        b.len() > 0
    } else if b.len() == 0 {
        false
    } else if a[0] != b[0] {
        a[0] < b[0]
    } else {
        text_lt(a.drop_first(), b.drop_first())
    }
}

/// The addresses of the history's records, each once, in order.
pub open spec fn hosts(h: Seq<HistoryView>) -> Seq<Seq<char>> {
    dedup(h.map_values(|r: HistoryView| r.ip_address))
}

/// Some record of `ip` has direction `dir`.
pub open spec fn has_direction(h: Seq<HistoryView>, ip: Seq<char>, dir: Seq<char>) -> bool {
    exists|i: int| 0 <= i < h.len() && #[trigger] h[i].ip_address == ip && h[i].direction == dir
}

/// The number of `hs` with a record of direction `dir`.
pub open spec fn count_direction(h: Seq<HistoryView>, hs: Seq<Seq<char>>, dir: Seq<char>) -> nat
    decreases hs.len(),
{
    if hs.len() == 0 {
        0
    } else {
        count_direction(h, hs.drop_last(), dir) + if has_direction(h, hs.last(), dir) {
            1nat
        } else {
            0nat
        }
    }
}

/// The number of `hs` that `cur` holds.
pub open spec fn count_active(hs: Seq<Seq<char>>, cur: Seq<Seq<char>>) -> nat
    decreases hs.len(),
{
    if hs.len() == 0 {
        0
    } else {
        count_active(hs.drop_last(), cur) + if cur.contains(hs.last()) {
            1nat
        } else {
            0nat
        }
    }
}

/// Record `i` is the latest of `ip`: no record of `ip` was seen later, and
/// none after it as late (the last of equally late records).
pub open spec fn latest_at(h: Seq<HistoryView>, ip: Seq<char>, i: int) -> bool {
    &&& 0 <= i < h.len()
    &&& h[i].ip_address == ip
    &&& forall|j: int|
        0 <= j < h.len() && h[j].ip_address == ip ==> !text_lt(h[i].last_seen, #[trigger] h[j].last_seen)
    &&& forall|j: int|
        i < j < h.len() && h[j].ip_address == ip ==> text_lt(#[trigger] h[j].last_seen, h[i].last_seen)
}

pub open spec fn latest(h: Seq<HistoryView>, ip: Seq<char>) -> int {
    choose|i: int| latest_at(h, ip, i)
}

/// The lines of the report about the active host `ip`, from its latest
/// record.
pub open spec fn host_block(h: Seq<HistoryView>, ip: Seq<char>) -> Seq<char> {
    let r = h[latest(h, ip)];
    "  "@ + ip + " ("@ + hostname_or_na(r.hostname) + ")\n"@ + "    Local: "@ + r.local_ip + ":"@
        + r.local_port + "\n"@ + "    Direction: "@ + r.direction + "\n"@ + "    Last seen: "@
        + r.last_seen + "\n"@ + match r.ports {
        Some(ps) => if ps.len() > 0 {
            "    Ports: "@ + ports_text(ps) + "\n"@
        } else {
            Seq::empty()
        },
        None => Seq::empty(),
    }
}

/// The blocks of the hosts of `hs` that `cur` holds, in order.
pub open spec fn active_blocks(h: Seq<HistoryView>, hs: Seq<Seq<char>>, cur: Seq<Seq<char>>) -> Seq<
    char,
>
    decreases hs.len(),
{
    if hs.len() == 0 {
        Seq::empty()
    } else {
        active_blocks(h, hs.drop_last(), cur) + if cur.contains(hs.last()) {
            host_block(h, hs.last())
        } else {
            Seq::empty()
        }
    }
}

pub open spec fn traffic_name(t: TrafficType) -> Seq<char> {
    match t {
        TrafficType::Outgoing => "Outgoing"@,
        TrafficType::Incoming => "Incoming"@,
        TrafficType::All => "All"@,
    }
}

impl ConnectionMonitor {
    /// The report, generated at `generated`.
    pub open spec fn report_spec(&self, generated: Seq<char>) -> Seq<char> {
        let h = history_view(self.history@);
        let hs = hosts(h);
        let cur = strings_view(self.current_connections@);
        "Connection Monitor Report\n"@ + "Generated: "@ + generated + "\n"@ + "Configuration: "@
            + self.config.files.config_file@ + "\n"@ + "Traffic type: "@ + traffic_name(
            self.config.monitor.traffic_type,
        ) + "\n"@ + "\nStatistics:\n"@ + "  - Total unique hosts: "@ + decimal_text(hs.len())
            + "\n"@ + "  - Incoming: "@ + decimal_text(count_direction(h, hs, "incoming"@))
            + "\n"@ + "  - Outgoing: "@ + decimal_text(count_direction(h, hs, "outgoing"@))
            + "\n"@ + "  - Currently active hosts: "@ + decimal_text(count_active(hs, cur))
            + "\n"@ + "\nActive Hosts:\n"@ + active_blocks(h, hs, cur)
    }
}

// ---------------------------------------------------------------------------
// Executable functions
// ---------------------------------------------------------------------------

/// `a` sorts before `b`.
fn text_less(a: &str, b: &str) -> (r: bool)
    ensures
        r == text_lt(a@, b@),
{
    let x = chars_of(a);
    let y = chars_of(b);
    let mut i: usize = 0;
    assert(x@.skip(0) =~= x@);
    assert(y@.skip(0) =~= y@);
    while i < x.len() && i < y.len() && x[i] == y[i]
        invariant
            i <= x@.len(),
            i <= y@.len(),
            text_lt(x@.skip(i as int), y@.skip(i as int)) == text_lt(a@, b@),
            x@ == a@,
            y@ == b@,
        decreases x@.len() - i,
    {
        assert(x@.skip(i as int).drop_first() =~= x@.skip(i + 1));
        assert(y@.skip(i as int).drop_first() =~= y@.skip(i + 1));
        i = i + 1;
    }
    if i == x.len() {
        i < y.len()
    } else if i == y.len() {
        false
    } else {
        x[i] < y[i]
    }
}

/// `text_lt` is irreflexive and never holds both ways.
proof fn lemma_text_lt_asym(a: Seq<char>, b: Seq<char>)
    ensures
        !(text_lt(a, b) && text_lt(b, a)),
        !text_lt(a, a),
    decreases a.len(),
{
    if a.len() > 0 && b.len() > 0 && a[0] == b[0] {
        lemma_text_lt_asym(a.drop_first(), b.drop_first());
    }
    if a.len() > 0 {
        lemma_text_lt_asym(a.drop_first(), a.drop_first());
    }
}

/// `text_lt` is transitive, and so is its negation's converse.
proof fn lemma_text_lt_trans(a: Seq<char>, b: Seq<char>, c: Seq<char>)
    ensures
        text_lt(a, b) && text_lt(b, c) ==> text_lt(a, c),
        !text_lt(a, b) && !text_lt(b, c) ==> !text_lt(a, c),
    decreases a.len(),
{
    if a.len() > 0 && b.len() > 0 && c.len() > 0 {
        lemma_text_lt_trans(a.drop_first(), b.drop_first(), c.drop_first());
    }
}

/// The addresses of the history's records, each once.
fn host_list(h: &Vec<Connection>) -> (r: Vec<String>)
    ensures
        strings_view(r@) == hosts(history_view(h@)),
{
    let ghost ips = history_view(h@).map_values(|r: HistoryView| r.ip_address);
    let mut r: Vec<String> = Vec::new();
    let mut k: usize = 0;
    assert(ips.take(0) =~= Seq::<Seq<char>>::empty());
    while k < h.len()
        invariant
            k <= h@.len(),
            ips == history_view(h@).map_values(|r: HistoryView| r.ip_address),
            strings_view(r@) == dedup(ips.take(k as int)),
        decreases h@.len() - k,
    {
        assert(ips.take(k + 1).drop_last() =~= ips.take(k as int));
        assert(ips[k as int] == h@[k as int].ip_address@);
        if !vec_contains_string(&r, h[k].ip_address.as_str()) {
            let ghost before = strings_view(r@);
            r.push(h[k].ip_address.clone());
            assert(strings_view(r@) =~= before.push(h@[k as int].ip_address@));
        }
        k = k + 1;
    }
    assert(ips.take(h@.len() as int) =~= ips);
    r
}

fn host_has_direction(h: &Vec<Connection>, ip: &str, dir: &str) -> (b: bool)
    ensures
        b == has_direction(history_view(h@), ip@, dir@),
{
    let ghost hv = history_view(h@);
    let mut k: usize = 0;
    while k < h.len()
        invariant
            k <= h@.len(),
            hv == history_view(h@),
            forall|j: int| 0 <= j < k ==> !(hv[j].ip_address == ip@ && hv[j].direction == dir@),
        decreases h@.len() - k,
    {
        if same_text(h[k].ip_address.as_str(), ip) && same_text(h[k].direction.as_str(), dir) {
            assert(hv[k as int].ip_address == ip@ && hv[k as int].direction == dir@);
            return true;
        }
        k = k + 1;
    }
    false
}

/// The latest record of `ip`, which the history holds.
fn latest_record(h: &Vec<Connection>, ip: &str) -> (i: usize)
    requires
        exists|j: int| 0 <= j < h@.len() && h@[j].ip_address@ == ip@,
    ensures
        latest_at(history_view(h@), ip@, i as int),
        latest(history_view(h@), ip@) == i,
{
    let ghost hv = history_view(h@);
    let mut best: Option<usize> = None;
    let mut k: usize = 0;
    while k < h.len()
        invariant
            k <= h@.len(),
            hv == history_view(h@),
            match best {
                Some(b) => b < k && hv[b as int].ip_address == ip@ && (forall|j: int|
                    0 <= j < k && hv[j].ip_address == ip@ ==> !text_lt(
                        hv[b as int].last_seen,
                        #[trigger] hv[j].last_seen,
                    )) && (forall|j: int|
                    b < j < k && hv[j].ip_address == ip@ ==> text_lt(
                        #[trigger] hv[j].last_seen,
                        hv[b as int].last_seen,
                    )),
                None => forall|j: int| 0 <= j < k ==> hv[j].ip_address != ip@,
            },
        decreases h@.len() - k,
    {
        if same_text(h[k].ip_address.as_str(), ip) {
            match best {
                Some(b) => {
                    if !text_less(h[k].last_seen.as_str(), h[b].last_seen.as_str()) {
                        proof {
                            assert forall|j: int|
                                0 <= j < k + 1 && hv[j].ip_address == ip@ implies !text_lt(
                                hv[k as int].last_seen,
                                #[trigger] hv[j].last_seen,
                            ) by {
                                lemma_text_lt_trans(
                                    hv[k as int].last_seen,
                                    hv[b as int].last_seen,
                                    hv[j].last_seen,
                                );
                                lemma_text_lt_asym(hv[k as int].last_seen, hv[k as int].last_seen);
                            }
                        }
                        best = Some(k);
                    } else {
                        proof {
                            lemma_text_lt_asym(hv[k as int].last_seen, hv[b as int].last_seen);
                        }
                    }
                },
                None => {
                    proof {
                        lemma_text_lt_asym(hv[k as int].last_seen, hv[k as int].last_seen);
                    }
                    best = Some(k);
                },
            }
        }
        k = k + 1;
    }
    match best {
        Some(b) => {
            assert(latest_at(hv, ip@, b as int));
            let ghost c = choose|x: int| latest_at(hv, ip@, x);
            assert(c == b) by {
                if c < b {
                    assert(text_lt(hv[b as int].last_seen, hv[c].last_seen));
                    assert(!text_lt(hv[c].last_seen, hv[b as int].last_seen));
                    lemma_text_lt_asym(hv[b as int].last_seen, hv[c].last_seen);
                } else if c > b {
                    assert(text_lt(hv[c].last_seen, hv[b as int].last_seen));
                    assert(!text_lt(hv[b as int].last_seen, hv[c].last_seen));
                    lemma_text_lt_asym(hv[b as int].last_seen, hv[c].last_seen);
                }
            }
            b
        },
        None => {
            assert(false) by {
                let j = choose|j: int| 0 <= j < h@.len() && h@[j].ip_address@ == ip@;
                assert(hv[j].ip_address == ip@);
            }
            0
        },
    }
}

fn host_block_exec(h: &Vec<Connection>, ip: &str) -> (s: String)
    requires
        exists|j: int| 0 <= j < h@.len() && h@[j].ip_address@ == ip@,
    ensures
        s@ == host_block(history_view(h@), ip@),
{
    let i = latest_record(h, ip);
    let r = &h[i];
    let mut s = String::from_str("  ");
    push_text(&mut s, ip);
    push_text(&mut s, " (");
    match &r.hostname {
        Some(n) => push_text(&mut s, n.as_str()),
        None => push_text(&mut s, "N/A"),
    }
    push_text(&mut s, ")\n");
    push_text(&mut s, "    Local: ");
    push_text(&mut s, r.local_ip.as_str());
    push_text(&mut s, ":");
    push_text(&mut s, r.local_port.as_str());
    push_text(&mut s, "\n");
    push_text(&mut s, "    Direction: ");
    push_text(&mut s, r.direction.as_str());
    push_text(&mut s, "\n");
    push_text(&mut s, "    Last seen: ");
    push_text(&mut s, r.last_seen.as_str());
    push_text(&mut s, "\n");
    match &r.ports {
        Some(ps) => {
            if ps.len() > 0 {
                push_text(&mut s, "    Ports: ");
                let t = ports_string(ps);
                push_text(&mut s, t.as_str());
                push_text(&mut s, "\n");
            }
        },
        None => {},
    }
    s
}

fn traffic_name_string(t: TrafficType) -> (s: String)
    ensures
        s@ == traffic_name(t),
{
    match t {
        TrafficType::Outgoing => String::from_str("Outgoing"),
        TrafficType::Incoming => String::from_str("Incoming"),
        TrafficType::All => String::from_str("All"),
    }
}

proof fn lemma_host_recorded(h: Seq<HistoryView>, hs: Seq<Seq<char>>, k: int)
    requires
        hs == hosts(h),
        0 <= k < hs.len(),
    ensures
        exists|j: int| 0 <= j < h.len() && h[j].ip_address == hs[k],
{
    let ips = h.map_values(|r: HistoryView| r.ip_address);
    crate::monitor::lemma_dedup(ips);
    assert(dedup(ips)[k] == hs[k]);
    assert(dedup(ips).contains(hs[k]));
    assert(ips.contains(hs[k]));
    assert(ips.len() == h.len());
    let j = choose|j: int| 0 <= j < ips.len() && ips[j] == hs[k];
    assert(ips[j] == h[j].ip_address);
    assert(h[j].ip_address == hs[k]);
}

impl ConnectionMonitor {
    /// The report of the history and the current connections, generated at
    /// `generated`.
    pub fn report_text(&self, generated: &str) -> (s: String)
        ensures
            s@ == self.report_spec(generated@),
    {
        let ghost h = history_view(self.history@);
        let hs = host_list(&self.history);
        let ghost hsv = strings_view(hs@);
        let ghost cur = strings_view(self.current_connections@);
        let mut incoming: u64 = 0;
        let mut outgoing: u64 = 0;
        let mut active: u64 = 0;
        let mut blocks = String::new();
        let mut k: usize = 0;
        assert(hsv.take(0) =~= Seq::<Seq<char>>::empty());
        while k < hs.len()
            invariant
                k <= hs@.len(),
                h == history_view(self.history@),
                hsv == strings_view(hs@),
                hsv == hosts(h),
                cur == strings_view(self.current_connections@),
                incoming == count_direction(h, hsv.take(k as int), "incoming"@),
                outgoing == count_direction(h, hsv.take(k as int), "outgoing"@),
                active == count_active(hsv.take(k as int), cur),
                incoming <= k && outgoing <= k && active <= k,
                blocks@ == active_blocks(h, hsv.take(k as int), cur),
            decreases hs@.len() - k,
        {
            let ghost t = hsv.take(k + 1);
            assert(t.drop_last() =~= hsv.take(k as int));
            assert(t.last() == hs@[k as int]@);
            if host_has_direction(&self.history, hs[k].as_str(), "incoming") {
                incoming = incoming + 1;
            }
            if host_has_direction(&self.history, hs[k].as_str(), "outgoing") {
                outgoing = outgoing + 1;
            }
            if vec_contains_string(&self.current_connections, hs[k].as_str()) {
                active = active + 1;
                proof {
                    lemma_host_recorded(h, hsv, k as int);
                    let j = choose|j: int| 0 <= j < h.len() && h[j].ip_address == hsv[k as int];
                    assert(self.history@[j].ip_address@ == hs@[k as int]@);
                }
                let b = host_block_exec(&self.history, hs[k].as_str());
                push_text(&mut blocks, b.as_str());
            }
            k = k + 1;
        }
        assert(hsv.take(hs@.len() as int) =~= hsv);
        let mut s = String::from_str("Connection Monitor Report\n");
        push_text(&mut s, "Generated: ");
        push_text(&mut s, generated);
        push_text(&mut s, "\n");
        push_text(&mut s, "Configuration: ");
        push_text(&mut s, self.config.files.config_file.as_str());
        push_text(&mut s, "\n");
        push_text(&mut s, "Traffic type: ");
        let tn = traffic_name_string(self.config.monitor.traffic_type);
        push_text(&mut s, tn.as_str());
        push_text(&mut s, "\n");
        push_text(&mut s, "\nStatistics:\n");
        push_text(&mut s, "  - Total unique hosts: ");
        let n = decimal_string(hs.len() as u64);
        push_text(&mut s, n.as_str());
        push_text(&mut s, "\n");
        push_text(&mut s, "  - Incoming: ");
        let n = decimal_string(incoming);
        push_text(&mut s, n.as_str());
        push_text(&mut s, "\n");
        push_text(&mut s, "  - Outgoing: ");
        let n = decimal_string(outgoing);
        push_text(&mut s, n.as_str());
        push_text(&mut s, "\n");
        push_text(&mut s, "  - Currently active hosts: ");
        let n = decimal_string(active);
        push_text(&mut s, n.as_str());
        push_text(&mut s, "\n");
        push_text(&mut s, "\nActive Hosts:\n");
        push_text(&mut s, blocks.as_str());
        s
    }
}

} // verus!
