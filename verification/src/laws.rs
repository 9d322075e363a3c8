//! Properties of the monitor that hold across all inputs.
use vstd::prelude::*;
use crate::classify::{
    direction_spec, text_prefix_10, text_prefix_172, text_prefix_192_168, text_syn_recv,
    text_syn_sent,
};
use crate::history::{instant_nanos, load_lines, HistoryLineView};
use crate::model::{AppConfig, ConnectionDirection, ConnectionView, HistoryView};
use crate::monitor::{
    LookupView, dedup, first_record_at, lemma_dedup, lemma_not_in, not_in, record_index,
    remote_ips,
};
use crate::classify::{bracketed_split, first_pos, first_pos_at, last_pos, last_pos_at, parse_address_spec};
use crate::ipaddr::is_private_spec;
use crate::listing::{listening_remote, port_listed, traffic_admits, ConnectionListing, text_tcp, text_udp};
use crate::monitor::ConnectionMonitor;
use crate::logger::{numbered, rotation_spec, shift_steps, RotationStepView};
use crate::text::{
    first_word, has_infix, is_ws, occurs_at, parse_u16_spec, split_ws, strip_leading,
    strip_trailing, trim, trim_end, trim_start,
};
use crate::listing::text_tcp_lower;
use crate::text::{has_prefix, lemma_split_on_first_sep, split_on};
use crate::ipaddr::ipv4_octets;
use crate::model::{FilteringConfig, PortView, strings_view};

verus! {

// ---------------------------------------------------------------------------
// New and vanished addresses
// ---------------------------------------------------------------------------

/// A check splits addresses as promised: the new ones are those of the
/// listing that were not current before, the vanished ones those that were
/// current and are not in the listing, and the addresses current afterwards
/// are exactly those of the listing, each once.
pub proof fn law_check_partition(before: Seq<Seq<char>>, listing: Seq<ConnectionView>)
    ensures
        forall|x: Seq<char>|
            #![trigger not_in(dedup(remote_ips(listing)), before).contains(x)]
            not_in(dedup(remote_ips(listing)), before).contains(x) <==> (remote_ips(
                listing,
            ).contains(x) && !before.contains(x)),
        forall|x: Seq<char>|
            #![trigger not_in(dedup(before), dedup(remote_ips(listing))).contains(x)]
            not_in(dedup(before), dedup(remote_ips(listing))).contains(x) <==> (before.contains(x)
                && !remote_ips(listing).contains(x)),
        forall|x: Seq<char>|
            #![trigger dedup(remote_ips(listing)).contains(x)]
            dedup(remote_ips(listing)).contains(x) <==> remote_ips(listing).contains(x),
        dedup(remote_ips(listing)).no_duplicates(),
        not_in(dedup(remote_ips(listing)), before).no_duplicates(),
        not_in(dedup(before), dedup(remote_ips(listing))).no_duplicates(),
{
    let ips = remote_ips(listing);
    lemma_dedup(ips);
    lemma_not_in(dedup(ips), before);
    lemma_dedup(before);
    lemma_not_in(dedup(before), dedup(ips));
}

proof fn lemma_not_in_covered(s: Seq<Seq<char>>, o: Seq<Seq<char>>)
    requires
        forall|i: int| 0 <= i < s.len() ==> o.contains(#[trigger] s[i]),
    ensures
        not_in(s, o).len() == 0,
    decreases s.len(),
{
    if s.len() > 0 {
        let p = s.drop_last();
        assert forall|i: int| 0 <= i < p.len() implies o.contains(#[trigger] p[i]) by {
            assert(p[i] == s[i]);
        }
        lemma_not_in_covered(p, o);
        assert(o.contains(s[s.len() - 1]));
    }
}

/// A check against the listing that the previous check saw finds nothing
/// new and nothing gone.
pub proof fn law_same_listing_quiet(listing: Seq<ConnectionView>)
    ensures
        not_in(dedup(remote_ips(listing)), dedup(remote_ips(listing))).len() == 0,
        not_in(dedup(dedup(remote_ips(listing))), dedup(remote_ips(listing))).len() == 0,
{
    let d = dedup(remote_ips(listing));
    assert forall|i: int| 0 <= i < d.len() implies d.contains(#[trigger] d[i]) by {}
    lemma_not_in_covered(d, d);
    let dd = dedup(d);
    lemma_dedup(d);
    assert forall|i: int| 0 <= i < dd.len() implies d.contains(#[trigger] dd[i]) by {
        assert(dd.contains(dd[i]));
    }
    lemma_not_in_covered(dd, d);
}

// ---------------------------------------------------------------------------
// The history
// ---------------------------------------------------------------------------

/// Where the history holds a record of `ip`, `record_index` finds the first.
pub proof fn lemma_record_index_some(h: Seq<HistoryView>, ip: Seq<char>, j: int)
    requires
        0 <= j < h.len(),
        h[j].ip_address == ip,
    ensures
        record_index(h, ip) is Some,
        first_record_at(h, ip, record_index(h, ip)->0),
    decreases j,
{
    if exists|k: int| 0 <= k < j && h[k].ip_address == ip {
        let k = choose|k: int| 0 <= k < j && h[k].ip_address == ip;
        lemma_record_index_some(h, ip, k);
    } else {
        assert(first_record_at(h, ip, j));
    }
}

/// Where `record_index` finds no record, the history holds none of `ip`.
pub proof fn lemma_record_index_none(h: Seq<HistoryView>, ip: Seq<char>)
    ensures
        record_index(h, ip) is None <==> forall|j: int|
            0 <= j < h.len() ==> #[trigger] h[j].ip_address != ip,
        record_index(h, ip) matches Some(i) ==> first_record_at(h, ip, i),
{
    if exists|j: int| 0 <= j < h.len() && h[j].ip_address == ip {
        let j = choose|j: int| 0 <= j < h.len() && h[j].ip_address == ip;
        lemma_record_index_some(h, ip, j);
    }
}

/// Seeing one connection keeps every record's address and first sighting,
/// adds a record only for an address without one, and leaves the address
/// with a record.
proof fn lemma_observe(
    cfg: AppConfig,
    h: Seq<HistoryView>,
    c: ConnectionView,
    now: Seq<char>,
    lookups: Seq<LookupView>,
)
    ensures
        ({
            let r = cfg.observe(h, c, now, lookups);
            &&& r.len() >= h.len()
            &&& r.len() <= h.len() + 1
            &&& forall|j: int|
                0 <= j < h.len() ==> #[trigger] r[j].ip_address == h[j].ip_address
                    && r[j].discovered_at == h[j].discovered_at
            &&& exists|j: int| 0 <= j < r.len() && r[j].ip_address == c.remote_ip
            &&& r.len() == h.len() + 1 ==> (forall|j: int|
                0 <= j < h.len() ==> #[trigger] h[j].ip_address != c.remote_ip) && r[h.len()
                as int].ip_address == c.remote_ip
        }),
{
    lemma_record_index_none(h, c.remote_ip);
    let r = cfg.observe(h, c, now, lookups);
    match record_index(h, c.remote_ip) {
        Some(i) => {
            assert(r[i].ip_address == c.remote_ip);
        },
        None => {
            assert(r[h.len() as int].ip_address == c.remote_ip);
        },
    }
}

/// What a check does to the history: no record is lost or changes its
/// address or first sighting, every address of the listing ends up with a
/// record, and a history with one record per address keeps one record per
/// address.
pub proof fn law_history_after_check(
    cfg: AppConfig,
    h: Seq<HistoryView>,
    cs: Seq<ConnectionView>,
    now: Seq<char>,
    lookups: Seq<LookupView>,
)
    ensures
        ({
            let r = cfg.observe_all(h, cs, now, lookups);
            &&& r.len() >= h.len()
            &&& forall|j: int|
                0 <= j < h.len() ==> #[trigger] r[j].ip_address == h[j].ip_address
                    && r[j].discovered_at == h[j].discovered_at
            &&& forall|i: int|
                #![trigger cs[i]]
                0 <= i < cs.len() ==> exists|j: int|
                    0 <= j < r.len() && #[trigger] r[j].ip_address == cs[i].remote_ip
            &&& (forall|a: int, b: int|
                0 <= a < b < h.len() ==> h[a].ip_address != h[b].ip_address) ==> (forall|
                a: int,
                b: int,
            | 0 <= a < b < r.len() ==> r[a].ip_address != r[b].ip_address)
        }),
    decreases cs.len(),
{
    if cs.len() > 0 {
        let p = cs.drop_last();
        law_history_after_check(cfg, h, p, now, lookups);
        let m = cfg.observe_all(h, p, now, lookups);
        lemma_observe(cfg, m, cs.last(), now, lookups);
        let r = cfg.observe_all(h, cs, now, lookups);
        assert(r == cfg.observe(m, cs.last(), now, lookups));
        assert forall|i: int| #![trigger cs[i]] 0 <= i < cs.len() implies exists|j: int|
            0 <= j < r.len() && #[trigger] r[j].ip_address == cs[i].remote_ip by {
            if i < cs.len() - 1 {
                assert(p[i] == cs[i]);
                let j = choose|j: int| 0 <= j < m.len() && #[trigger] m[j].ip_address == p[i].remote_ip;
                assert(r[j].ip_address == m[j].ip_address);
            }
        }
        if forall|a: int, b: int| 0 <= a < b < h.len() ==> h[a].ip_address != h[b].ip_address {
            assert forall|a: int, b: int| 0 <= a < b < r.len() implies r[a].ip_address
                != r[b].ip_address by {
                if b < m.len() {
                    assert(r[a].ip_address == m[a].ip_address);
                    assert(r[b].ip_address == m[b].ip_address);
                } else {
                    assert(r[a].ip_address == m[a].ip_address);
                    assert(m[a].ip_address != cs.last().remote_ip);
                }
            }
        }
    }
}

/// Lines that each hold a record load back as exactly those records, in
/// order, with no error and no warning.
pub proof fn law_records_load_back(rs: Seq<HistoryView>)
    ensures
        ({
            let s = load_lines(rs.map_values(|r: HistoryView| HistoryLineView::Record(r)));
            &&& s.records == rs
            &&& s.errors == 0
            &&& s.warnings.len() == 0
        }),
    decreases rs.len(),
{
    if rs.len() > 0 {
        let p = rs.drop_last();
        law_records_load_back(p);
        let ls = rs.map_values(|r: HistoryView| HistoryLineView::Record(r));
        assert(ls.drop_last() =~= p.map_values(|r: HistoryView| HistoryLineView::Record(r)));
        assert(ls.last() == HistoryLineView::Record(rs.last()));
        assert(load_lines(ls).records =~= rs);
    } else {
        assert(rs.map_values(|r: HistoryView| HistoryLineView::Record(r)).len() == 0);
    }
}

/// Where the history keeps no ports, a check adds none: records without
/// ports stay without, and every record it starts has none, so the report
/// shows no ports for them.
pub proof fn law_no_ports_unless_kept(
    cfg: AppConfig,
    h: Seq<HistoryView>,
    cs: Seq<ConnectionView>,
    now: Seq<char>,
    lookups: Seq<LookupView>,
)
    requires
        !cfg.monitor.include_ports_in_history,
        forall|j: int| 0 <= j < h.len() ==> (#[trigger] h[j]).ports is None,
    ensures
        forall|j: int|
            0 <= j < cfg.observe_all(h, cs, now, lookups).len() ==> (#[trigger] cfg.observe_all(
                h,
                cs,
                now,
                lookups,
            )[j]).ports is None,
    decreases cs.len(),
{
    if cs.len() > 0 {
        let p = cs.drop_last();
        law_no_ports_unless_kept(cfg, h, p, now, lookups);
        let m = cfg.observe_all(h, p, now, lookups);
        let r = cfg.observe_all(h, cs, now, lookups);
        assert(r == cfg.observe(m, cs.last(), now, lookups));
        lemma_record_index_none(m, cs.last().remote_ip);
        assert forall|j: int| 0 <= j < r.len() implies (#[trigger] r[j]).ports is None by {
            if j < m.len() {
                assert(m[j].ports is None);
            }
        }
    }
}

/// A data file written from the history loads back as the history as it
/// is exported: with its ports emptied where the history keeps none.
pub proof fn law_export_loads_back(cfg: AppConfig, h: Seq<HistoryView>)
    ensures
        ({
            let out = h.map_values(|r: HistoryView| cfg.export_record(r));
            let s = load_lines(out.map_values(|r: HistoryView| HistoryLineView::Record(r)));
            &&& s.records == out
            &&& s.errors == 0
            &&& s.warnings.len() == 0
        }),
{
    law_records_load_back(h.map_values(|r: HistoryView| cfg.export_record(r)));
}

// ---------------------------------------------------------------------------
// Ageing out
// ---------------------------------------------------------------------------

/// The clean-up keeps exactly the records it should, in order: every record
/// left is one that stays, every record that stays is left, and no record
/// is added.
pub proof fn law_cleanup_keeps(cfg: AppConfig, h: Seq<HistoryView>, now: int)
    ensures
        ({
            let r = cfg.retained(h, now);
            &&& r.len() <= h.len()
            &&& forall|k: int| 0 <= k < r.len() ==> cfg.keeps(#[trigger] r[k], now) && h.contains(r[k])
            &&& forall|j: int| 0 <= j < h.len() && cfg.keeps(#[trigger] h[j], now) ==> r.contains(h[j])
        }),
    decreases h.len(),
{
    if h.len() > 0 {
        let p = h.drop_last();
        law_cleanup_keeps(cfg, p, now);
        let q = cfg.retained(p, now);
        let r = cfg.retained(h, now);
        assert forall|k: int| 0 <= k < r.len() implies cfg.keeps(#[trigger] r[k], now) && h.contains(
            r[k],
        ) by {
            if k < q.len() {
                assert(r[k] == q[k]);
                let m = choose|m: int| 0 <= m < p.len() && p[m] == q[k];
                assert(h[m] == p[m]);
            } else {
                assert(r[k] == h.last());
                assert(h[h.len() - 1] == h.last());
            }
        }
        assert forall|j: int| 0 <= j < h.len() && cfg.keeps(#[trigger] h[j], now) implies r.contains(
            h[j],
        ) by {
            if j < h.len() - 1 {
                assert(p[j] == h[j]);
                assert(cfg.keeps(p[j], now));
                let m = choose|m: int| 0 <= m < q.len() && q[m] == p[j];
                assert(r[m] == q[m]);
            } else {
                assert(r[q.len() as int] == h.last());
            }
        }
    }
}

/// A record whose last sighting lies less than the maximum age before
/// `now`, or after it, or cannot be read as a time, stays.
pub proof fn law_recent_records_stay(cfg: AppConfig, r: HistoryView, now: int, t: (i64, u32))
    requires
        crate::history::rfc3339_instant(r.last_seen) == Some(t),
        now - instant_nanos(t) < cfg.max_age_nanos(),
    ensures
        cfg.keeps(r, now),
{
}

/// A record whose last sighting parses as a time at least the maximum age
/// before `now` goes.
pub proof fn law_old_records_go(cfg: AppConfig, r: HistoryView, now: int, t: (i64, u32))
    requires
        crate::history::rfc3339_instant(r.last_seen) == Some(t),
        now - instant_nanos(t) >= cfg.max_age_nanos(),
    ensures
        !cfg.keeps(r, now),
{
}

// ---------------------------------------------------------------------------
// Log rotation
// ---------------------------------------------------------------------------

proof fn lemma_shift_steps(base: Seq<char>, k: nat)
    ensures
        shift_steps(base, k).len() == k,
        forall|j: int|
            0 <= j < k ==> #[trigger] shift_steps(base, k)[j] == RotationStepView::Rename(
                numbered(base, (k - j) as nat),
                numbered(base, (k - j + 1) as nat),
            ),
    decreases k,
{
    if k > 0 {
        lemma_shift_steps(base, (k - 1) as nat);
        let s = shift_steps(base, k);
        let t = shift_steps(base, (k - 1) as nat);
        assert forall|j: int| 0 <= j < k implies #[trigger] s[j] == RotationStepView::Rename(
            numbered(base, (k - j) as nat),
            numbered(base, (k - j + 1) as nat),
        ) by {
            if j > 0 {
                assert(s[j] == t[j - 1]);
            }
        }
    }
}

/// A rotation that keeps `max` backups first removes backup `max`, then
/// moves backups `max - 1` down to `1` each one number up, and last makes
/// the log backup 1: no step writes a backup numbered above `max`.
pub proof fn law_rotation_keeps_max(base: Seq<char>, max: nat)
    requires
        max >= 1,
    ensures
        ({
            let r = rotation_spec(base, max);
            &&& r.len() == max + 1
            &&& r[0] == RotationStepView::Remove(numbered(base, max))
            &&& forall|i: int|
                1 <= i < max ==> #[trigger] r[i] == RotationStepView::Rename(
                    numbered(base, (max - i) as nat),
                    numbered(base, (max - i + 1) as nat),
                )
            &&& r[max as int] == RotationStepView::Rename(base, numbered(base, 1))
        }),
{
    let k = (max - 1) as nat;
    lemma_shift_steps(base, k);
    let r = rotation_spec(base, max);
    let a = seq![RotationStepView::Remove(numbered(base, max))];
    let sh = shift_steps(base, k);
    assert forall|i: int| 1 <= i < max implies #[trigger] r[i] == RotationStepView::Rename(
        numbered(base, (max - i) as nat),
        numbered(base, (max - i + 1) as nat),
    ) by {
        assert(r[i] == sh[i - 1]);
    }
}

// ---------------------------------------------------------------------------
// Direction
// ---------------------------------------------------------------------------

/// A connection whose state names a SYN that was sent or received counts as
/// outgoing, whatever its endpoints.
pub proof fn law_syn_is_outgoing(
    upper_state: Seq<char>,
    local_ip: Seq<char>,
    local_port: Seq<char>,
    remote_ip: Seq<char>,
)
    requires
        has_infix(upper_state, text_syn_sent()) || has_infix(upper_state, text_syn_recv()),
    ensures
        direction_spec(upper_state, local_ip, local_port, remote_ip)
            == ConnectionDirection::Outgoing,
{
}

// ---------------------------------------------------------------------------
// Filters
// ---------------------------------------------------------------------------

/// A connection that the configured filters let through: its remote end is
/// no listening socket and no ignored address, its direction suits the
/// traffic type, and, where its remote port is a number, that port is not
/// ignored and, where only some ports are watched, it or the local port is
/// one of them.
pub open spec fn admitted(cfg: AppConfig, c: ConnectionView) -> bool {
    let f = cfg.filtering;
    &&& !listening_remote(c.remote_ip)
    &&& !f.ignores(c.remote_ip)
    &&& traffic_admits(cfg.monitor.traffic_type, c.direction)
    &&& match parse_u16_spec(c.remote_port) {
        Some(p) => !f.ignore_ports@.contains(p) && match f.monitor_only_ports {
            Some(m) => port_listed(c.local_port, m@) || m@.contains(p),
            None => true,
        },
        None => true,
    }
}

proof fn lemma_ss_rows_admitted(m: ConnectionMonitor, ls: Seq<Seq<char>>)
    ensures
        forall|i: int|
            0 <= i < m.ss_rows(ls).len() ==> admitted(m.config, #[trigger] m.ss_rows(ls)[i]),
    decreases ls.len(),
{
    if ls.len() > 0 {
        lemma_ss_rows_admitted(m, ls.drop_last());
        let p = m.ss_rows(ls.drop_last());
        let r = m.ss_rows(ls);
        assert forall|i: int| 0 <= i < r.len() implies admitted(m.config, #[trigger] r[i]) by {
            if i < p.len() {
                assert(r[i] == p[i]);
            } else {
                assert(r[i] == m.ss_row(ls.last())[i - p.len()]);
            }
        }
    }
}

proof fn lemma_netstat_rows_admitted(m: ConnectionMonitor, ls: Seq<Seq<char>>, proto: Seq<char>)
    ensures
        forall|i: int|
            0 <= i < m.netstat_rows(ls, proto).len() ==> admitted(
                m.config,
                #[trigger] m.netstat_rows(ls, proto)[i],
            ),
    decreases ls.len(),
{
    if ls.len() > 0 {
        lemma_netstat_rows_admitted(m, ls.drop_last(), proto);
        let p = m.netstat_rows(ls.drop_last(), proto);
        let r = m.netstat_rows(ls, proto);
        assert forall|i: int| 0 <= i < r.len() implies admitted(m.config, #[trigger] r[i]) by {
            if i < p.len() {
                assert(r[i] == p[i]);
            } else {
                assert(r[i] == m.netstat_row(ls.last(), proto)[i - p.len()]);
            }
        }
    }
}

/// Every connection that a listing yields passes the configured filters.
pub proof fn law_listing_admitted(m: ConnectionMonitor, listing: ConnectionListing)
    ensures
        m.listing_spec(listing) matches Ok(cs) ==> forall|i: int|
            0 <= i < cs.len() ==> admitted(m.config, #[trigger] cs[i]),
{
    match listing {
        ConnectionListing::Ss(out) => {
            let ls = crate::text::lines(vstd::utf8::decode_utf8(out.stdout@));
            if ls.len() > 0 {
                lemma_ss_rows_admitted(m, ls.skip(1));
            }
        },
        ConnectionListing::Netstat { tcp, udp } => {
            let a = m.netstat_output_spec(tcp.stdout@, text_tcp());
            let b = m.netstat_output_spec(udp.stdout@, text_udp());
            lemma_netstat_rows_admitted(m, crate::text::lines(crate::listing::utf8_lossy(tcp.stdout@)), text_tcp());
            lemma_netstat_rows_admitted(m, crate::text::lines(crate::listing::utf8_lossy(udp.stdout@)), text_udp());
            assert forall|i: int| 0 <= i < (a + b).len() implies admitted(m.config, #[trigger] (a + b)[i]) by {
                if i < a.len() {
                    assert((a + b)[i] == a[i]);
                } else {
                    assert((a + b)[i] == b[i - a.len()]);
                }
            }
        },
    }
}

// ---------------------------------------------------------------------------
// Addresses
// ---------------------------------------------------------------------------

proof fn lemma_strip_leading_open(y: Seq<char>)
    ensures
        strip_leading(seq!['['] + y, '[') == strip_leading(y, '['),
{
    assert((seq!['['] + y).drop_first() =~= y);
}

proof fn lemma_strip_leading_close(x: Seq<char>)
    ensures
        strip_leading(x + seq![']'], '[') == strip_leading(x, '[') + seq![']'],
    decreases x.len(),
{
    if x.len() > 0 && x[0] == '[' {
        assert((x + seq![']']).drop_first() =~= x.drop_first() + seq![']']);
        lemma_strip_leading_close(x.drop_first());
    } else if x.len() == 0 {
        assert(x + seq![']'] =~= seq![']']);
        assert(strip_leading(seq![']'], '[') == seq![']']);
    } else {
        assert((x + seq![']'])[0] == x[0]);
    }
}

/// Whether an address counts as private does not change when it is written
/// between square brackets.
pub proof fn law_private_ignores_brackets(x: Seq<char>)
    ensures
        is_private_spec(seq!['['] + x + seq![']']) == is_private_spec(x),
{
    let y = x + seq![']'];
    assert(seq!['['] + x + seq![']'] =~= seq!['['] + y);
    lemma_strip_leading_open(y);
    lemma_strip_leading_close(x);
    let z = strip_leading(x, '[');
    assert((z + seq![']']).drop_last() =~= z);
    assert(strip_trailing(z + seq![']'], ']') == strip_trailing(z, ']'));
}

proof fn lemma_trim_start_len(s: Seq<char>)
    ensures
        trim_start(s).len() <= s.len(),
    decreases s.len(),
{
    if s.len() > 0 && is_ws(s[0]) {
        lemma_trim_start_len(s.drop_first());
    }
}

proof fn lemma_trim_end_len(s: Seq<char>)
    ensures
        trim_end(s).len() <= s.len(),
    decreases s.len(),
{
    if s.len() > 0 && is_ws(s.last()) {
        lemma_trim_end_len(s.drop_last());
    }
}

/// Text that `trim_start` leaves as it is opens with no whitespace.
proof fn lemma_untrimmed_start(s: Seq<char>)
    requires
        trim_start(s) == s,
        s.len() > 0,
    ensures
        !is_ws(s[0]),
{
    if is_ws(s[0]) {
        lemma_trim_start_len(s.drop_first());
    }
}

/// Text that `trim_end` leaves as it is closes with no whitespace.
proof fn lemma_untrimmed_end(s: Seq<char>)
    requires
        trim_end(s) == s,
        s.len() > 0,
    ensures
        !is_ws(s.last()),
{
    if is_ws(s.last()) {
        lemma_trim_end_len(s.drop_last());
    }
}

/// Text that opens and closes with no whitespace is its own trim.
proof fn lemma_trim_fixed(s: Seq<char>)
    requires
        s.len() > 0,
        !is_ws(s[0]),
        !is_ws(s.last()),
    ensures
        trim(s) == s,
{
    assert(trim_start(s) == s);
    assert(trim_end(s) == s);
}

/// `address:port` text splits back into its address and port where the
/// address does not open with `[` or whitespace, and the port holds no `:`
/// and does not end in whitespace; the address may hold `:` itself, as a
/// bare IPv6 address does.
pub proof fn law_parse_address_plain(ip: Seq<char>, port: Seq<char>)
    requires
        trim_start(ip) == ip,
        trim_end(port) == port,
        !port.contains(':'),
        ip.len() == 0 || ip[0] != '[',
    ensures
        parse_address_spec(ip + seq![':'] + port) == Some((ip, port)),
{
    let a = ip + seq![':'] + port;
    let n = ip.len() as int;
    assert(a[n] == ':');
    if n > 0 {
        lemma_untrimmed_start(ip);
        assert(a[0] == ip[0]);
    }
    if port.len() > 0 {
        lemma_untrimmed_end(port);
        assert(a.last() == port.last());
    }
    lemma_trim_fixed(a);
    assert(bracketed_split(a) is None);
    assert forall|j: int| n < j < a.len() implies a[j] != ':' by {
        assert(a[j] == port[j - n - 1]);
    }
    assert(last_pos_at(a, ':', n));
    let j = last_pos(a, ':');
    assert(last_pos_at(a, ':', j));
    assert(j == n);
    assert(a.take(n) =~= ip);
    assert(a.skip(n + 1) =~= port);
}

/// `[address]:port` text splits back into the address and the port where
/// the address holds no `]` and the port does not end in whitespace.
pub proof fn law_parse_address_bracketed(ip: Seq<char>, port: Seq<char>)
    requires
        !ip.contains(']'),
        trim_end(port) == port,
    ensures
        parse_address_spec(seq!['['] + ip + seq![']', ':'] + port) == Some((ip, port)),
{
    let a = seq!['['] + ip + seq![']', ':'] + port;
    let n = ip.len() as int;
    if port.len() > 0 {
        lemma_untrimmed_end(port);
        assert(a.last() == port.last());
    } else {
        assert(a.last() == ':');
    }
    lemma_trim_fixed(a);
    assert(a[n + 1] == ']');
    assert forall|j: int| 0 <= j < n + 1 implies a[j] != ']' by {
        if j >= 1 {
            assert(a[j] == ip[j - 1]);
        }
    }
    assert(first_pos_at(a, ']', n + 1));
    let e = first_pos(a, ']');
    assert(first_pos_at(a, ']', e));
    assert(e == n + 1);
    let rest = a.skip(e + 1);
    assert(rest =~= seq![':'] + port);
    assert(a.subrange(1, e) =~= ip);
    assert(rest.skip(1) =~= port);
}

// ---------------------------------------------------------------------------
// Fields of an `ss` row
// ---------------------------------------------------------------------------

proof fn lemma_first_word_stops(a: Seq<char>, c: Seq<char>)
    requires
        a.len() > 0,
        is_ws(a.last()),
    ensures
        first_word(a + c) == first_word(a),
        first_word(a).len() < a.len(),
    decreases a.len(),
{
    assert((a + c)[0] == a[0]);
    if !is_ws(a[0]) {
        assert((a + c).drop_first() =~= a.drop_first() + c);
        lemma_first_word_stops(a.drop_first(), c);
    }
}

/// The words of text that ends in whitespace, followed by more text, are
/// the words of each part.
proof fn lemma_split_ws_append(a: Seq<char>, c: Seq<char>)
    requires
        a.len() == 0 || is_ws(a.last()),
    ensures
        split_ws(a + c) == split_ws(a) + split_ws(c),
    decreases a.len(),
{
    if a.len() == 0 {
        assert(a + c =~= c);
        assert(split_ws(a) + split_ws(c) =~= split_ws(c));
    } else if is_ws(a[0]) {
        assert((a + c)[0] == a[0]);
        assert((a + c).drop_first() =~= a.drop_first() + c);
        lemma_split_ws_append(a.drop_first(), c);
    } else {
        lemma_first_word_stops(a, c);
        let w = first_word(a);
        let n = w.len() as int;
        assert(w.len() > 0);
        assert((a + c)[0] == a[0]);
        assert((a + c).skip(n) =~= a.skip(n) + c);
        lemma_split_ws_append(a.skip(n), c);
        assert(seq![w] + (split_ws(a.skip(n)) + split_ws(c)) =~= (seq![w] + split_ws(a.skip(n)))
            + split_ws(c));
    }
}

proof fn lemma_first_word_of_word(x: Seq<char>, b: Seq<char>)
    requires
        forall|k: int| 0 <= k < x.len() ==> !is_ws(#[trigger] x[k]),
    ensures
        first_word(x + seq![' '] + b) == x,
    decreases x.len(),
{
    let s = x + seq![' '] + b;
    if x.len() == 0 {
        assert(s[0] == ' ');
        assert(x =~= Seq::<char>::empty());
    } else {
        assert(s[0] == x[0]);
        assert(!is_ws(x[0]));
        assert(s.drop_first() =~= x.drop_first() + seq![' '] + b);
        assert forall|k: int| 0 <= k < x.drop_first().len() implies !is_ws(
            #[trigger] x.drop_first()[k],
        ) by {
            assert(x.drop_first()[k] == x[k + 1]);
        }
        lemma_first_word_of_word(x.drop_first(), b);
        assert(seq![x[0]] + x.drop_first() =~= x);
    }
}

/// A word followed by a space and more text is a word of its own.
proof fn lemma_split_word(x: Seq<char>, b: Seq<char>)
    requires
        x.len() > 0,
        forall|k: int| 0 <= k < x.len() ==> !is_ws(#[trigger] x[k]),
    ensures
        split_ws(x + seq![' '] + b) == seq![x] + split_ws(b),
{
    let s = x + seq![' '] + b;
    lemma_first_word_of_word(x, b);
    assert(s[0] == x[0]);
    let rest = s.skip(x.len() as int);
    assert(rest =~= seq![' '] + b);
    assert(rest[0] == ' ');
    assert(is_ws(rest[0]));
    assert(rest.drop_first() =~= b);
    assert(split_ws(rest) == split_ws(b));
    assert(split_ws(s) == seq![x] + split_ws(rest));
}

proof fn lemma_first_word_push_ws(s: Seq<char>, c: char)
    requires
        is_ws(c),
    ensures
        first_word(s.push(c)) == first_word(s),
        first_word(s).len() <= s.len(),
    decreases s.len(),
{
    if s.len() > 0 {
        assert(s.push(c)[0] == s[0]);
        if !is_ws(s[0]) {
            assert(s.push(c).drop_first() =~= s.drop_first().push(c));
            lemma_first_word_push_ws(s.drop_first(), c);
        }
    } else {
        assert(s.push(c)[0] == c);
    }
}

proof fn lemma_split_ws_push_ws(s: Seq<char>, c: char)
    requires
        is_ws(c),
    ensures
        split_ws(s.push(c)) == split_ws(s),
    decreases s.len(),
{
    if s.len() == 0 {
        assert(s.push(c)[0] == c);
        assert(s.push(c).drop_first() =~= s);
    } else if is_ws(s[0]) {
        assert(s.push(c)[0] == s[0]);
        assert(s.push(c).drop_first() =~= s.drop_first().push(c));
        lemma_split_ws_push_ws(s.drop_first(), c);
    } else {
        lemma_first_word_push_ws(s, c);
        let n = first_word(s).len() as int;
        assert(s.push(c)[0] == s[0]);
        assert(first_word(s).len() > 0);
        assert(s.push(c).skip(n) =~= s.skip(n).push(c));
        lemma_split_ws_push_ws(s.skip(n), c);
    }
}

/// Trimming keeps the words.
proof fn lemma_split_ws_trim(s: Seq<char>)
    ensures
        split_ws(trim(s)) == split_ws(s),
{
    lemma_split_ws_trim_start(s);
    lemma_split_ws_trim_end(trim_start(s));
}

proof fn lemma_split_ws_trim_start(s: Seq<char>)
    ensures
        split_ws(trim_start(s)) == split_ws(s),
    decreases s.len(),
{
    if s.len() > 0 && is_ws(s[0]) {
        lemma_split_ws_trim_start(s.drop_first());
    }
}

proof fn lemma_split_ws_trim_end(s: Seq<char>)
    ensures
        split_ws(trim_end(s)) == split_ws(s),
    decreases s.len(),
{
    if s.len() > 0 && is_ws(s.last()) {
        assert(s =~= s.drop_last().push(s.last()));
        lemma_split_ws_push_ws(s.drop_last(), s.last());
        lemma_split_ws_trim_end(s.drop_last());
    }
}

proof fn lemma_trim_start_within(s: Seq<char>, c: char)
    ensures
        trim_start(s).contains(c) ==> s.contains(c),
    decreases s.len(),
{
    if s.len() > 0 && is_ws(s[0]) {
        lemma_trim_start_within(s.drop_first(), c);
        if s.drop_first().contains(c) {
            let j = choose|j: int| 0 <= j < s.drop_first().len() && s.drop_first()[j] == c;
            assert(s[j + 1] == c);
        }
    }
}

proof fn lemma_trim_end_within(s: Seq<char>, c: char)
    ensures
        trim_end(s).contains(c) ==> s.contains(c),
    decreases s.len(),
{
    if s.len() > 0 && is_ws(s.last()) {
        lemma_trim_end_within(s.drop_last(), c);
        if s.drop_last().contains(c) {
            let j = choose|j: int| 0 <= j < s.drop_last().len() && s.drop_last()[j] == c;
            assert(s[j] == c);
        }
    }
}

/// Text without `:` has no `address:port` split.
proof fn lemma_no_colon_no_split(s: Seq<char>)
    requires
        !s.contains(':'),
    ensures
        parse_address_spec(s) is None,
{
    lemma_trim_start_within(s, ':');
    lemma_trim_end_within(trim_start(s), ':');
    let a = trim(s);
    assert(!a.contains(':'));
    if a.len() > 0 && a[0] == '[' && a.contains(']') {
        let k = choose|k: int| 0 <= k < a.len() && a[k] == ']';
        let e = first_pos(a, ']');
        assert(exists|i: int| first_pos_at(a, ']', i)) by {
            lemma_first_pos_exists(a, ']', k);
        }
        assert(first_pos_at(a, ']', e));
        let rest = a.skip(e + 1);
        if rest.len() > 0 && rest[0] == ':' {
            assert(a[e + 1] == ':');
        }
    }
}

proof fn lemma_first_pos_exists(a: Seq<char>, c: char, k: int)
    requires
        0 <= k < a.len(),
        a[k] == c,
    ensures
        exists|i: int| first_pos_at(a, c, i),
    decreases k,
{
    if !first_pos_at(a, c, k) {
        let j = choose|j: int| 0 <= j < k && a[j] == c;
        lemma_first_pos_exists(a, c, j);
    }
}

/// Putting a word with neither whitespace nor `tcp` in it, followed by a
/// space, into text that ends in whitespace keeps whether the text holds
/// `tcp`-like text `p` without whitespace.
proof fn lemma_infix_insert(a: Seq<char>, b: Seq<char>, x: Seq<char>, p: Seq<char>)
    requires
        a.len() > 0,
        is_ws(a.last()),
        p.len() > 0,
        forall|k: int| 0 <= k < p.len() ==> !is_ws(#[trigger] p[k]),
        !has_infix(x, p),
    ensures
        has_infix(a + x + seq![' '] + b, p) == has_infix(a + b, p),
{
    let line = a + b;
    let line2 = a + x + seq![' '] + b;
    let na = a.len() as int;
    let nx = x.len() as int;
    let np = p.len() as int;
    if has_infix(line, p) {
        let i = choose|i: int| occurs_at(line, p, i);
        assert(forall|t: int| 0 <= t < np ==> #[trigger] line[i + t] == p[t]) by {
            assert forall|t: int| 0 <= t < np implies #[trigger] line[i + t] == p[t] by {
                assert(line.subrange(i, i + np)[t] == line[i + t]);
            }
        }
        if i + np <= na {
            assert(line2.subrange(i, i + np) =~= p) by {
                assert forall|t: int| 0 <= t < np implies line2.subrange(i, i + np)[t] == p[t] by {
                    assert(line[i + t] == a[i + t]);
                }
            }
            assert(occurs_at(line2, p, i));
        } else if i >= na {
            let j = i + nx + 1;
            assert(line2.subrange(j, j + np) =~= p) by {
                assert forall|t: int| 0 <= t < np implies line2.subrange(j, j + np)[t] == p[t] by {
                    assert(line[i + t] == b[i + t - na]);
                    assert(line2[j + t] == b[i + t - na]);
                }
            }
            assert(occurs_at(line2, p, j));
        } else {
            assert(line[i + (na - 1 - i)] == p[na - 1 - i]);
            assert(line[na - 1] == a.last());
        }
    }
    if has_infix(line2, p) {
        let i = choose|i: int| occurs_at(line2, p, i);
        assert(forall|t: int| 0 <= t < np ==> #[trigger] line2[i + t] == p[t]) by {
            assert forall|t: int| 0 <= t < np implies #[trigger] line2[i + t] == p[t] by {
                assert(line2.subrange(i, i + np)[t] == line2[i + t]);
            }
        }
        if i + np <= na {
            assert(line.subrange(i, i + np) =~= p) by {
                assert forall|t: int| 0 <= t < np implies line.subrange(i, i + np)[t] == p[t] by {
                    assert(line2[i + t] == a[i + t]);
                }
            }
            assert(occurs_at(line, p, i));
        } else if i >= na + nx + 1 {
            let j = i - nx - 1;
            assert(line.subrange(j, j + np) =~= p) by {
                assert forall|t: int| 0 <= t < np implies line.subrange(j, j + np)[t] == p[t] by {
                    assert(line2[i + t] == b[j + t - na]);
                }
            }
            assert(occurs_at(line, p, j));
        } else if i < na {
            assert(line2[i + (na - 1 - i)] == p[na - 1 - i]);
            assert(line2[na - 1] == a.last());
        } else if i + np <= na + nx {
            let j = i - na;
            assert(x.subrange(j, j + np) =~= p) by {
                assert forall|t: int| 0 <= t < np implies x.subrange(j, j + np)[t] == p[t] by {
                    assert(line2[i + t] == x[j + t]);
                }
            }
            assert(occurs_at(x, p, j));
        } else {
            assert(line2[i + (na + nx - i)] == p[na + nx - i]);
            assert(line2[na + nx] == ' ');
        }
    }
}

/// An extra field before the addresses of an `ss` row changes nothing: a
/// row of six fields reads as the same row with a word that holds neither
/// whitespace, `:` nor `tcp` put before its fifth field.
pub proof fn law_ss_extra_field(m: ConnectionMonitor, a: Seq<char>, b: Seq<char>, x: Seq<char>)
    requires
        a.len() > 0,
        is_ws(a.last()),
        split_ws(a).len() == 4,
        split_ws(b).len() == 2,
        x.len() > 0,
        forall|k: int| 0 <= k < x.len() ==> !is_ws(#[trigger] x[k]),
        !x.contains(':'),
        !has_infix(x, text_tcp_lower()),
    ensures
        m.ss_line_spec(a + x + seq![' '] + b) == m.ss_line_spec(a + b),
{
    let line = a + b;
    let line2 = a + x + seq![' '] + b;
    let pa = split_ws(a);
    let q = split_ws(b);
    lemma_split_ws_append(a, b);
    assert(line2 =~= a + (x + seq![' '] + b));
    lemma_split_ws_append(a, x + seq![' '] + b);
    lemma_split_word(x, b);
    lemma_split_ws_trim(line);
    lemma_split_ws_trim(line2);
    let parts = split_ws(trim(line));
    let parts2 = split_ws(trim(line2));
    assert(parts == pa + q);
    assert(parts2 == pa + (seq![x] + q));
    assert(parts.len() == 6);
    assert(parts2.len() == 7);
    assert(trim(line).len() > 0);
    assert(trim(line2).len() > 0);
    assert(parts2[1] == parts[1]);
    assert(parts2[4] == x);
    assert(parts2[5] == parts[4]);
    assert(parts2[6] == parts[5]);
    lemma_no_colon_no_split(x);
    if !parts[4].contains(':') {
        lemma_no_colon_no_split(parts[4]);
    }
    if !parts[5].contains(':') {
        lemma_no_colon_no_split(parts[5]);
    }
    assert(forall|k: int| 0 <= k < text_tcp_lower().len() ==> !is_ws(#[trigger] text_tcp_lower()[k]));
    lemma_infix_insert(a, b, x, text_tcp_lower());
}

// ---------------------------------------------------------------------------
// Watched ports
// ---------------------------------------------------------------------------

/// The monitor with only some ports watched: those of `w`.
pub open spec fn watching(m: ConnectionMonitor, w: Vec<u16>) -> ConnectionMonitor {
    ConnectionMonitor {
        config: AppConfig {
            filtering: FilteringConfig { monitor_only_ports: Some(w), ..m.config.filtering },
            ..m.config
        },
        ..m
    }
}

/// Watching only the ports of `w` keeps exactly the `ss` rows that watch
/// nothing keeps and whose local port or remote port is one of `w`, or
/// whose remote port is no number.
pub proof fn law_ss_watched_ports(m: ConnectionMonitor, line: Seq<char>, w: Vec<u16>)
    requires
        m.config.filtering.monitor_only_ports is None,
    ensures
        watching(m, w).ss_line_spec(line) == match m.ss_line_spec(line) {
            Some(c) => if (match parse_u16_spec(c.remote_port) {
                Some(rp) => w@.contains(rp) || match parse_u16_spec(c.local_port) {
                    Some(lp) => w@.contains(lp),
                    None => false,
                },
                None => true,
            }) {
                Some(c)
            } else {
                None
            },
            None => None,
        },
{
}

/// Watching only the ports of `w` keeps exactly the `netstat` rows that
/// watch nothing keeps and whose remote port is one of `w` or no number.
pub proof fn law_netstat_watched_ports(
    m: ConnectionMonitor,
    line: Seq<char>,
    proto: Seq<char>,
    w: Vec<u16>,
)
    requires
        m.config.filtering.monitor_only_ports is None,
    ensures
        watching(m, w).netstat_line_spec(line, proto) == match m.netstat_line_spec(line, proto) {
            Some(c) => if (match parse_u16_spec(c.remote_port) {
                Some(rp) => w@.contains(rp),
                None => true,
            }) {
                Some(c)
            } else {
                None
            },
            None => None,
        },
{
}

// ---------------------------------------------------------------------------
// First sightings
// ---------------------------------------------------------------------------

/// A host seen for the first time gets a record at the end of the history
/// that carries the connection's remote address, local endpoint, protocol
/// and direction, first and last seen now, with the connection's port and
/// state where the history keeps ports; every earlier record stays.
pub proof fn law_first_sighting(
    cfg: AppConfig,
    h: Seq<HistoryView>,
    c: ConnectionView,
    now: Seq<char>,
    lookups: Seq<LookupView>,
)
    requires
        forall|j: int| 0 <= j < h.len() ==> (#[trigger] h[j]).ip_address != c.remote_ip,
    ensures
        ({
            let r = cfg.observe(h, c, now, lookups);
            let n = h.len() as int;
            &&& r.len() == h.len() + 1
            &&& r.take(n) == h
            &&& r[n].ip_address == c.remote_ip
            &&& r[n].local_ip == c.local_ip
            &&& r[n].local_port == c.local_port
            &&& r[n].protocol == c.protocol
            &&& r[n].discovered_at == now
            &&& r[n].last_seen == now
            &&& (c.direction == ConnectionDirection::Incoming ==> r[n].direction == seq![
                'i', 'n', 'c', 'o', 'm', 'i', 'n', 'g',
            ])
            &&& (c.direction == ConnectionDirection::Outgoing ==> r[n].direction == seq![
                'o', 'u', 't', 'g', 'o', 'i', 'n', 'g',
            ])
            &&& (c.direction == ConnectionDirection::Unknown ==> r[n].direction == seq![
                'u', 'n', 'k', 'n', 'o', 'w', 'n',
            ])
            &&& r[n].ports == (if cfg.monitor.include_ports_in_history {
                Some(seq![PortView { port: c.remote_port, state: c.state }])
            } else {
                None
            })
        }),
{
    lemma_record_index_none(h, c.remote_ip);
    let r = cfg.observe(h, c, now, lookups);
    assert(r.take(h.len() as int) =~= h);
    reveal_strlit("incoming");
    reveal_strlit("outgoing");
    reveal_strlit("unknown");
}

/// A host seen again keeps its record's address, first sighting, local
/// endpoint, protocol and direction; only its last sighting becomes now.
pub proof fn law_seen_again(
    cfg: AppConfig,
    h: Seq<HistoryView>,
    c: ConnectionView,
    now: Seq<char>,
    lookups: Seq<LookupView>,
    j: int,
)
    requires
        0 <= j < h.len(),
        h[j].ip_address == c.remote_ip,
    ensures
        ({
            let r = cfg.observe(h, c, now, lookups);
            let i = record_index(h, c.remote_ip)->0;
            &&& r.len() == h.len()
            &&& 0 <= i <= j
            &&& forall|k: int| 0 <= k < h.len() && k != i ==> #[trigger] r[k] == h[k]
            &&& r[i].ip_address == c.remote_ip
            &&& r[i].discovered_at == h[i].discovered_at
            &&& r[i].local_ip == h[i].local_ip
            &&& r[i].local_port == h[i].local_port
            &&& r[i].protocol == h[i].protocol
            &&& r[i].direction == h[i].direction
            &&& r[i].hostname == h[i].hostname
            &&& r[i].last_seen == now
        }),
{
    lemma_record_index_some(h, c.remote_ip, j);
}

// ---------------------------------------------------------------------------
// Private addresses
// ---------------------------------------------------------------------------

/// An address without brackets that reads as four dotted octets is private
/// exactly when it lies in 10/8, 172.16/12, 192.168/16, 127/8 or
/// 169.254/16.
pub proof fn law_private_v4(ip: Seq<char>, o: Seq<u8>)
    requires
        ipv4_octets(ip) == Some(o),
        ip.len() > 0,
        ip[0] != '[',
        ip.last() != ']',
    ensures
        is_private_spec(ip) <==> (o[0] == 10 || (o[0] == 172 && 16 <= o[1] <= 31) || (o[0] == 192
            && o[1] == 168) || o[0] == 127 || (o[0] == 169 && o[1] == 254)),
{
    assert(strip_leading(ip, '[') == ip);
    assert(strip_trailing(ip, ']') == ip);
}

/// Filters that drop only private-looking addresses.
pub open spec fn private_only(f: FilteringConfig) -> bool {
    &&& f.ignore_ips@.len() == 0
    &&& !f.ignore_localhost
    &&& f.ignore_private_ips
    &&& !f.ignore_public_ips
    &&& f.allowed_subnets is None
}

proof fn lemma_first_field(ip: Seq<char>, k: int)
    requires
        0 <= k < ip.len(),
        ip[k] == '.',
        forall|j: int| 0 <= j < k ==> ip[j] != '.',
    ensures
        split_on(ip, '.')[0] == ip.take(k),
        split_on(ip, '.').len() >= 2,
{
    lemma_split_on_first_sep(ip, '.', k);
    crate::text::lemma_split_on_nonempty(ip.skip(k + 1), '.');
}

proof fn lemma_first_dot(ip: Seq<char>, k: int)
    requires
        0 <= k < ip.len(),
        ip[k] == '.',
    ensures
        exists|i: int| 0 <= i <= k && ip[i] == '.' && forall|j: int| 0 <= j < i ==> ip[j] != '.',
    decreases k,
{
    if exists|j: int| 0 <= j < k && ip[j] == '.' {
        let j = choose|j: int| 0 <= j < k && ip[j] == '.';
        lemma_first_dot(ip, j);
    }
}

/// With only private-looking addresses dropped, an address whose first
/// dotted field is none of `10`, `172` and `192` is kept, one whose first
/// field is `10` followed by more fields is dropped, and one whose first
/// field is `192` is dropped only where its second field is `168`.
pub proof fn law_private_filter_fields(f: FilteringConfig, ip: Seq<char>)
    requires
        private_only(f),
    ensures
        ({
            let p = split_on(ip, '.');
            &&& (p[0] != seq!['1', '0'] && p[0] != seq!['1', '7', '2'] && p[0] != seq![
                '1',
                '9',
                '2',
            ]) ==> !f.ignores(ip)
            &&& (p.len() >= 2 && p[0] == seq!['1', '0']) ==> f.ignores(ip)
            &&& (p.len() >= 2 && p[0] == seq!['1', '9', '2'] && p[1] != seq!['1', '6', '8'])
                ==> !f.ignores(ip)
        }),
{
    let p = split_on(ip, '.');
    assert(strings_view(f.ignore_ips@) =~= Seq::<Seq<char>>::empty());
    // A `10.` prefix makes the first field `10`.
    if has_prefix(ip, text_prefix_10()) {
        assert(ip[2] == '.');
        assert(ip[0] == '1' && ip[1] == '0');
        lemma_first_field(ip, 2);
        assert(ip.take(2) =~= seq!['1', '0']);
    }
    if has_prefix(ip, text_prefix_172()) {
        assert(ip[3] == '.');
        assert(ip[0] == '1' && ip[1] == '7' && ip[2] == '2');
        lemma_first_field(ip, 3);
        assert(ip.take(3) =~= seq!['1', '7', '2']);
    }
    if has_prefix(ip, text_prefix_192_168()) {
        assert(ip[3] == '.');
        assert(ip[0] == '1' && ip[1] == '9' && ip[2] == '2');
        lemma_first_field(ip, 3);
        assert(ip.take(3) =~= seq!['1', '9', '2']);
        let rest = ip.skip(4);
        assert(rest[3] == '.');
        assert(rest[0] == '1' && rest[1] == '6' && rest[2] == '8');
        lemma_split_on_first_sep(ip, '.', 3);
        lemma_first_field(rest, 3);
        assert(rest.take(3) =~= seq!['1', '6', '8']);
        assert(p[1] == split_on(rest, '.')[0]);
    }
    // A first field `10` with more fields after it is a `10.` prefix.
    if p.len() >= 2 && p[0] == seq!['1', '0'] {
        if !ip.contains('.') {
            crate::text::lemma_split_on_no_sep(ip, '.');
        }
        let k0 = choose|k: int| 0 <= k < ip.len() && ip[k] == '.';
        lemma_first_dot(ip, k0);
        let k = choose|i: int| 0 <= i <= k0 && ip[i] == '.' && forall|j: int| 0 <= j < i ==> ip[j] != '.';
        lemma_first_field(ip, k);
        assert(ip.take(k).len() == 2);
        assert(ip.take(3) =~= text_prefix_10()) by {
            assert(ip.take(k)[0] == ip[0]);
            assert(ip.take(k)[1] == ip[1]);
        }
    }
}

/// Seeing one more connection changes no record's address, local
/// endpoint, protocol or first sighting, and any record it adds is for the
/// connection's address.
proof fn lemma_observe_keeps_endpoints(
    cfg: AppConfig,
    h: Seq<HistoryView>,
    c: ConnectionView,
    now: Seq<char>,
    lookups: Seq<LookupView>,
)
    ensures
        ({
            let r = cfg.observe(h, c, now, lookups);
            &&& r.len() >= h.len()
            &&& forall|j: int|
                0 <= j < h.len() ==> (#[trigger] r[j]).ip_address == h[j].ip_address
                    && r[j].local_ip == h[j].local_ip && r[j].local_port == h[j].local_port
                    && r[j].protocol == h[j].protocol && r[j].discovered_at == h[j].discovered_at
            &&& forall|j: int| h.len() <= j < r.len() ==> (#[trigger] r[j]).ip_address == c.remote_ip
        }),
{
    lemma_record_index_none(h, c.remote_ip);
}

/// The records that a check adds are for addresses of its connections.
proof fn lemma_observe_all_sources(
    cfg: AppConfig,
    h: Seq<HistoryView>,
    cs: Seq<ConnectionView>,
    now: Seq<char>,
    lookups: Seq<LookupView>,
)
    ensures
        ({
            let r = cfg.observe_all(h, cs, now, lookups);
            &&& r.len() >= h.len()
            &&& forall|j: int|
                0 <= j < h.len() ==> (#[trigger] r[j]).ip_address == h[j].ip_address
            &&& forall|j: int|
                h.len() <= j < r.len() ==> exists|k: int|
                    0 <= k < cs.len() && (#[trigger] r[j]).ip_address == cs[k].remote_ip
        }),
    decreases cs.len(),
{
    if cs.len() > 0 {
        let p = cs.drop_last();
        lemma_observe_all_sources(cfg, h, p, now, lookups);
        let m = cfg.observe_all(h, p, now, lookups);
        lemma_observe_keeps_endpoints(cfg, m, cs.last(), now, lookups);
        let r = cfg.observe_all(h, cs, now, lookups);
        assert(r == cfg.observe(m, cs.last(), now, lookups));
        assert forall|j: int| h.len() <= j < r.len() implies exists|k: int|
            0 <= k < cs.len() && (#[trigger] r[j]).ip_address == cs[k].remote_ip by {
            if j < m.len() {
                let k = choose|k: int| 0 <= k < p.len() && m[j].ip_address == p[k].remote_ip;
                assert(cs[k] == p[k]);
            } else {
                assert(r[j].ip_address == cs[cs.len() - 1].remote_ip);
            }
        }
    }
}

/// A check keeps, for every host first seen in one of its connections (no
/// record before, no earlier connection to it), a record that carries that
/// connection's local endpoint and protocol, first seen now.
pub proof fn law_check_first_sightings(
    cfg: AppConfig,
    h: Seq<HistoryView>,
    cs: Seq<ConnectionView>,
    now: Seq<char>,
    lookups: Seq<LookupView>,
)
    ensures
        ({
            let r = cfg.observe_all(h, cs, now, lookups);
            forall|i: int|
                #![trigger cs[i]]
                0 <= i < cs.len() && (forall|j: int|
                    0 <= j < h.len() ==> (#[trigger] h[j]).ip_address != cs[i].remote_ip) && (
                forall|k: int| 0 <= k < i ==> (#[trigger] cs[k]).remote_ip != cs[i].remote_ip)
                    ==> exists|j: int|
                    0 <= j < r.len() && (#[trigger] r[j]).ip_address == cs[i].remote_ip
                        && r[j].local_ip == cs[i].local_ip && r[j].local_port == cs[i].local_port
                        && r[j].protocol == cs[i].protocol && r[j].discovered_at == now
        }),
    decreases cs.len(),
{
    if cs.len() > 0 {
        let p = cs.drop_last();
        let n = cs.len() - 1;
        let c = cs.last();
        law_check_first_sightings(cfg, h, p, now, lookups);
        let m = cfg.observe_all(h, p, now, lookups);
        lemma_observe_keeps_endpoints(cfg, m, c, now, lookups);
        let r = cfg.observe_all(h, cs, now, lookups);
        assert(r == cfg.observe(m, c, now, lookups));
        assert forall|i: int|
            #![trigger cs[i]]
            0 <= i < cs.len() && (forall|j: int|
                0 <= j < h.len() ==> (#[trigger] h[j]).ip_address != cs[i].remote_ip) && (forall|
                k: int,
            | 0 <= k < i ==> (#[trigger] cs[k]).remote_ip != cs[i].remote_ip) implies exists|j: int|
            0 <= j < r.len() && (#[trigger] r[j]).ip_address == cs[i].remote_ip && r[j].local_ip
                == cs[i].local_ip && r[j].local_port == cs[i].local_port && r[j].protocol
                == cs[i].protocol && r[j].discovered_at == now by {
            if i < n {
                assert(p[i] == cs[i]);
                assert forall|k: int| 0 <= k < i implies (#[trigger] p[k]).remote_ip != p[i].remote_ip by {
                    assert(p[k] == cs[k]);
                }
                let j = choose|j: int|
                    0 <= j < m.len() && (#[trigger] m[j]).ip_address == p[i].remote_ip
                        && m[j].local_ip == p[i].local_ip && m[j].local_port == p[i].local_port
                        && m[j].protocol == p[i].protocol && m[j].discovered_at == now;
                assert(r[j].ip_address == m[j].ip_address);
            } else {
                lemma_observe_all_sources(cfg, h, p, now, lookups);
                assert forall|j: int| 0 <= j < m.len() implies (#[trigger] m[j]).ip_address
                    != c.remote_ip by {
                    if j < h.len() {
                        assert(m[j].ip_address == h[j].ip_address);
                    } else {
                        let k = choose|k: int| 0 <= k < p.len() && m[j].ip_address == p[k].remote_ip;
                        assert(p[k] == cs[k]);
                    }
                }
                law_first_sighting(cfg, m, c, now, lookups);
                assert(r[m.len() as int].ip_address == c.remote_ip);
            }
        }
    }
}

} // verus!
