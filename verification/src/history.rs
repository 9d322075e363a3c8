//! The history of seen hosts: ageing out, export, loading, and the alerts
//! about hosts that went away.
use vstd::prelude::*;
use crate::model::{AppConfig, Connection, HistoryView, PortInfo, history_view, strings_view};
use crate::monitor::{
    ConnectionMonitor, copy_connection, find_record, ports_part, ports_part_string, push_text,
    record_index,
};
use crate::text::{
    decimal_string, decimal_text, decimal_value, digit_value, is_digit, trim, trim_bounds, chars_of,
    substring,
};

verus! {

// ---------------------------------------------------------------------------
// Ageing out
// ---------------------------------------------------------------------------

/// What `chrono::DateTime::parse_from_rfc3339` gives for `s`: the instant's
/// whole seconds since the Unix epoch and the nanoseconds past them.
pub uninterp spec fn rfc3339_instant(s: Seq<char>) -> Option<(i64, u32)>;

// RFC 3339 date-times in their usual form.

/// The value of the digit at `i`.
pub open spec fn dv(s: Seq<char>, i: int) -> int {
    digit_value(s[i]) as int
}

/// The two-digit number at `i`.
pub open spec fn num2(s: Seq<char>, i: int) -> int {
    10 * dv(s, i) + dv(s, i + 1)
}

pub open spec fn leap_year(y: int) -> bool {
    (y % 4 == 0 && y % 100 != 0) || y % 400 == 0
}

/// The number of days of month `m` (1 to 12) of year `y`.
pub open spec fn month_days(y: int, m: int) -> int {
    if m == 2 {
        if leap_year(y) {
            29
        } else {
            28
        }
    } else if m == 4 || m == 6 || m == 9 || m == 11 {
        30
    } else {
        31
    }
}

/// The number of days from 1970-01-01 to the date `y-m-d` of the
/// proleptic Gregorian calendar.
pub open spec fn days_from_civil(y: int, m: int, d: int) -> int {
    let yy = if m <= 2 {
        y - 1
    } else {
        y
    };
    let era = yy / 400;
    let yoe = yy - era * 400;
    let mp = (m + 9) % 12;
    let doy = (153 * mp + 2) / 5 + d - 1;
    let doe = yoe * 365 + yoe / 4 - yoe / 100 + doy;
    era * 146097 + doe - 719468
}

/// The number of digits at the start of `s`.
pub open spec fn lead_digits(s: Seq<char>) -> nat
    decreases s.len(),
{
    if s.len() > 0 && is_digit(s[0]) {
        1 + lead_digits(s.drop_first())
    } else {
        0
    }
}

/// `Z`, or a sign, two-digit hours up to 23, `:` and two-digit minutes up
/// to 59.
pub open spec fn rfc3339_offset(o: Seq<char>) -> bool {
    ||| o == seq!['Z']
    ||| (o.len() == 6 && (o[0] == '+' || o[0] == '-') && is_digit(o[1]) && is_digit(o[2])
        && o[3] == ':' && is_digit(o[4]) && is_digit(o[5]) && num2(o, 1) <= 23 && num2(o, 4)
        <= 59)
}

/// The seconds east of UTC that the offset `o` writes.
pub open spec fn offset_seconds(o: Seq<char>) -> int {
    if o == seq!['Z'] {
        0
    } else {
        let v = num2(o, 1) * 3600 + num2(o, 4) * 60;
        if o[0] == '-' {
            -v
        } else {
            v
        }
    }
}

/// `s` is an RFC 3339 date-time `YYYY-MM-DDTHH:MM:SS`, with an optional
/// fraction of one to nine digits after a `.`, then `Z` or `+HH:MM` or
/// `-HH:MM`: a real date, hours up to 23, minutes and seconds up to 59.
pub open spec fn rfc3339_form(s: Seq<char>) -> bool {
    &&& s.len() >= 20
    &&& forall|i: int|
        0 <= i < 19 && i != 4 && i != 7 && i != 10 && i != 13 && i != 16 ==> is_digit(
            #[trigger] s[i],
        )
    &&& s[4] == '-' && s[7] == '-' && s[10] == 'T' && s[13] == ':' && s[16] == ':'
    &&& 1 <= num2(s, 5) <= 12
    &&& 1 <= num2(s, 8) <= month_days(100 * num2(s, 0) + num2(s, 2), num2(s, 5))
    &&& num2(s, 11) <= 23 && num2(s, 14) <= 59 && num2(s, 17) <= 59
    &&& ({
        let r = s.skip(19);
        if r[0] == '.' {
            let k = lead_digits(r.drop_first());
            1 <= k <= 9 && rfc3339_offset(r.skip(1 + k as int))
        } else {
            rfc3339_offset(r)
        }
    })
}

/// The seconds since the Unix epoch of the RFC 3339 date-time `s`.
pub open spec fn rfc3339_seconds(s: Seq<char>) -> int {
    let r = s.skip(19);
    let off = if r[0] == '.' {
        r.skip(1 + lead_digits(r.drop_first()) as int)
    } else {
        r
    };
    days_from_civil(100 * num2(s, 0) + num2(s, 2), num2(s, 5), num2(s, 8)) * 86400 + num2(s, 11)
        * 3600 + num2(s, 14) * 60 + num2(s, 17) - offset_seconds(off)
}

/// Where `x` is an RFC 3339 date-time in the usual form, what was read of
/// it is that instant.
pub open spec fn rfc3339_read(x: Seq<char>) -> bool {
    rfc3339_form(x) ==> rfc3339_instant(x) is Some && instant_parts(rfc3339_instant(x)->0) == (
        rfc3339_seconds(x),
        rfc3339_nanos(x),
    )
}

/// The seconds and nanoseconds of an instant, as integers.
pub open spec fn instant_parts(t: (i64, u32)) -> (int, int) {
    (t.0 as int, t.1 as int)
}

/// Ten to the `n`.
pub open spec fn pow10(n: nat) -> nat
    decreases n,
{
    if n == 0 {
        1
    } else {
        10 * pow10((n - 1) as nat)
    }
}

/// The nanoseconds past the whole second of the RFC 3339 date-time `s`.
pub open spec fn rfc3339_nanos(s: Seq<char>) -> int {
    let r = s.skip(19);
    if r[0] == '.' {
        let k = lead_digits(r.drop_first());
        (decimal_value(r.drop_first().take(k as int)) * pow10((9 - k) as nat)) as int
    } else {
        0
    }
}

/// Anchors of the reckoning: the epoch, leap days, the end of year 9999,
/// and two date-times as `Local::now().to_rfc3339()` writes them.
pub proof fn lemma_rfc3339_anchors()
    ensures
        days_from_civil(1970, 1, 1) == 0,
        days_from_civil(2000, 3, 1) == 11017,
        days_from_civil(2024, 1, 1) == 19723,
        days_from_civil(2024, 3, 1) == 19783,
        days_from_civil(0, 1, 1) == -719528,
        days_from_civil(9999, 12, 31) == 2932896,
        rfc3339_form(seq!['2','0','2','4','-','0','1','-','0','1','T','0','0',':','0','0',':','0','0','.','5','+','0','0',':','0','0']),
        rfc3339_seconds(seq!['2','0','2','4','-','0','1','-','0','1','T','0','0',':','0','0',':','0','0','.','5','+','0','0',':','0','0']) == 1704067200,
        rfc3339_nanos(seq!['2','0','2','4','-','0','1','-','0','1','T','0','0',':','0','0',':','0','0','.','5','+','0','0',':','0','0']) == 500000000,
        rfc3339_form(seq!['2','0','2','4','-','0','1','-','3','1','T','0','2',':','0','0',':','0','0','+','0','2',':','0','0']),
        rfc3339_seconds(seq!['2','0','2','4','-','0','1','-','3','1','T','0','2',':','0','0',':','0','0','+','0','2',':','0','0']) == 1706659200,
{
    assert(days_from_civil(1970, 1, 1) == 0);
    assert(days_from_civil(2000, 3, 1) == 11017);
    assert(days_from_civil(2024, 1, 1) == 19723);
    assert(days_from_civil(2024, 3, 1) == 19783);
    assert(days_from_civil(0, 1, 1) == -719528);
    assert(days_from_civil(9999, 12, 31) == 2932896);
    let s = seq!['2','0','2','4','-','0','1','-','0','1','T','0','0',':','0','0',':','0','0','.','5','+','0','0',':','0','0'];
    let r = s.skip(19);
    assert(r =~= seq!['.', '5', '+', '0', '0', ':', '0', '0']);
    let rd = r.drop_first();
    assert(rd =~= seq!['5', '+', '0', '0', ':', '0', '0']);
    assert(rd.drop_first()[0] == '+');
    reveal_with_fuel(lead_digits, 2);
    assert(lead_digits(rd) == 1);
    assert(r.skip(2) =~= seq!['+', '0', '0', ':', '0', '0']);
    assert(rd.take(1) =~= seq!['5']);
    assert(rd.take(1).drop_last() =~= Seq::<char>::empty());
    assert(rd.take(1).last() == '5');
    assert(decimal_value(rd.take(1).drop_last()) == 0);
    assert(digit_value('5') == 5);
    assert(decimal_value(rd.take(1)) == 5);
    reveal_with_fuel(pow10, 9);
    assert(pow10(8) == 100000000);
    assert(rfc3339_form(s));
    assert(rfc3339_seconds(s) == 1704067200);
    assert(rfc3339_nanos(s) == 500000000);
    assert(rfc3339_form(seq!['2','0','2','4','-','0','1','-','3','1','T','0','2',':','0','0',':','0','0','+','0','2',':','0','0']));
    assert(rfc3339_seconds(seq!['2','0','2','4','-','0','1','-','3','1','T','0','2',':','0','0',':','0','0','+','0','2',':','0','0']) == 1706659200);
}

/// `s` parsed as an RFC 3339 date and time, by the `chrono` crate, which
/// reads every valid RFC 3339 value: an instant in the usual form gives its
/// seconds since the epoch and the nanoseconds past them.
#[verifier::external_body]
fn parse_rfc3339(s: &str) -> (r: Option<(i64, u32)>)
    ensures
        r == rfc3339_instant(s@),
        rfc3339_form(s@) ==> r is Some,
        rfc3339_form(s@) ==> instant_parts(r->0) == (rfc3339_seconds(s@), rfc3339_nanos(s@)),
{
    match chrono::DateTime::parse_from_rfc3339(s) {
        Ok(t) => Some((t.timestamp(), t.timestamp_subsec_nanos())),
        Err(_) => None,
    }
}

/// Nanoseconds since the Unix epoch.
pub open spec fn instant_nanos(t: (i64, u32)) -> int {
    t.0 * 1_000_000_000 + t.1
}

impl AppConfig {
    /// The age, in nanoseconds, past which history records go.
    pub open spec fn max_age_nanos(&self) -> int {
        self.monitor.max_history_age_days * 86_400_000_000_000
    }

    /// A record stays unless its last sighting parses as a time that lies
    /// at least the maximum age before `now`.
    pub open spec fn keeps(&self, r: HistoryView, now: int) -> bool {
        match rfc3339_instant(r.last_seen) {
            Some(t) => now < instant_nanos(t) || now - instant_nanos(t) < self.max_age_nanos(),
            None => true,
        }
    }

    /// The records of `h` that stay, in order.
    pub open spec fn retained(&self, h: Seq<HistoryView>, now: int) -> Seq<HistoryView>
        decreases h.len(),
    {
        if h.len() == 0 {
            Seq::empty()
        } else {
            let r = self.retained(h.drop_last(), now);
            if self.keeps(h.last(), now) {
                r.push(h.last())
            } else {
                r
            }
        }
    }

    /// A record as it is written out: without its ports where the history
    /// keeps none.
    pub open spec fn export_record(&self, r: HistoryView) -> HistoryView {
        if self.monitor.include_ports_in_history {
            r
        } else {
            HistoryView { ports: Some(Seq::empty()), ..r }
        }
    }
}

// ---------------------------------------------------------------------------
// Alerts about hosts that went away
// ---------------------------------------------------------------------------

/// The alert about a host that went away, from its history record.
pub open spec fn disappearance_message(r: HistoryView, show_ports: bool) -> Seq<char> {
    "Connection disappeared: "@ + r.ip_address + " ["@ + r.protocol + "] | Direction: "@
        + r.direction + ports_part(show_ports, r.ports) + " | First seen: "@ + r.discovered_at
}

/// The alerts about the gone addresses that the history knows, in order.
pub open spec fn disappearance_messages(
    h: Seq<HistoryView>,
    gone: Seq<Seq<char>>,
    show_ports: bool,
) -> Seq<Seq<char>>
    decreases gone.len(),
{
    if gone.len() == 0 {
        Seq::empty()
    } else {
        let m = disappearance_messages(h, gone.drop_last(), show_ports);
        match record_index(h, gone.last()) {
            Some(i) => m.push(disappearance_message(h[i], show_ports)),
            None => m,
        }
    }
}

// ---------------------------------------------------------------------------
// Loading
// ---------------------------------------------------------------------------

/// One line of the data file, as read and decoded.
#[derive(Debug)]
pub enum HistoryLine {
    /// A line with nothing but whitespace.
    Blank,
    /// A line that holds a record.
    Record(Connection),
    /// A line that holds no valid record; the decoder's complaint.
    Malformed(String),
    /// A line that could not be read; the reader's complaint.
    Unreadable(String),
}

/// The value of a `HistoryLine`.
pub enum HistoryLineView {
    Blank,
    Record(HistoryView),
    Malformed(Seq<char>),
    Unreadable(Seq<char>),
}

impl View for HistoryLine {
    type V = HistoryLineView;

    open spec fn view(&self) -> HistoryLineView {
        match self {
            HistoryLine::Blank => HistoryLineView::Blank,
            HistoryLine::Record(c) => HistoryLineView::Record(c@),
            HistoryLine::Malformed(e) => HistoryLineView::Malformed(e@),
            HistoryLine::Unreadable(e) => HistoryLineView::Unreadable(e@),
        }
    }
}

pub open spec fn history_lines_view(v: Seq<HistoryLine>) -> Seq<HistoryLineView> {
    v.map_values(|l: HistoryLine| l@)
}

/// The state of a load after some lines: the records, the number of
/// errors, and the warnings so far.
pub struct LoadState {
    pub records: Seq<HistoryView>,
    pub errors: nat,
    pub warnings: Seq<Seq<char>>,
}

/// The load after the lines `ls` (numbered from 1).
pub open spec fn load_lines(ls: Seq<HistoryLineView>) -> LoadState
    decreases ls.len(),
{
    if ls.len() == 0 {
        LoadState { records: Seq::empty(), errors: 0, warnings: Seq::empty() }
    } else {
        let s = load_lines(ls.drop_last());
        let n = ls.len();
        match ls.last() {
            HistoryLineView::Blank => s,
            HistoryLineView::Record(r) => LoadState { records: s.records.push(r), ..s },
            HistoryLineView::Malformed(e) => LoadState {
                errors: s.errors + 1,
                warnings: if s.errors + 1 <= 5 {
                    s.warnings.push(
                        "Failed to parse line "@ + decimal_text(n) + " in data file: "@ + e,
                    )
                } else {
                    s.warnings
                },
                ..s
            },
            HistoryLineView::Unreadable(e) => LoadState {
                errors: s.errors + 1,
                warnings: s.warnings.push("Failed to read line from data file: "@ + e),
                ..s
            },
        }
    }
}

/// The log lines of a load of `ls`: its warnings, a total where more than
/// five errors occurred, and the number of records loaded.
pub open spec fn load_messages(ls: Seq<HistoryLineView>) -> Seq<Seq<char>> {
    let s = load_lines(ls);
    let w = if s.errors > 5 {
        s.warnings.push("Total parsing errors in data file: "@ + decimal_text(s.errors))
    } else {
        s.warnings
    };
    w.push(
        "Successfully loaded "@ + decimal_text(s.records.len()) + " connections from history"@,
    )
}

/// The text of a data file line that may hold a record: the line without
/// surrounding whitespace, unless nothing is left.
pub fn record_text(line: &str) -> (r: Option<String>)
    ensures
        match r {
            Some(t) => t@ == trim(line@) && t@.len() > 0,
            None => trim(line@).len() == 0,
        },
{
    let cs = chars_of(line);
    let (lo, hi) = trim_bounds(cs.as_slice());
    if lo == hi {
        None
    } else {
        Some(substring(line, lo, hi))
    }
}

// ---------------------------------------------------------------------------
// Executable functions
// ---------------------------------------------------------------------------

fn disappearance_message_exec(r: &Connection, show_ports: bool) -> (s: String)
    ensures
        s@ == disappearance_message(r@, show_ports),
{
    let mut s = String::from_str("Connection disappeared: ");
    push_text(&mut s, r.ip_address.as_str());
    push_text(&mut s, " [");
    push_text(&mut s, r.protocol.as_str());
    push_text(&mut s, "] | Direction: ");
    push_text(&mut s, r.direction.as_str());
    let p = ports_part_string(show_ports, &r.ports);
    push_text(&mut s, p.as_str());
    push_text(&mut s, " | First seen: ");
    push_text(&mut s, r.discovered_at.as_str());
    s
}

impl ConnectionMonitor {
    /// Removes the history records whose last sighting lies the configured
    /// number of days or more before `now_nanos` (nanoseconds since the
    /// Unix epoch); returns how many went.
    pub fn cleanup_old_history(&mut self, now_nanos: i128) -> (removed: usize)
        ensures
            history_view(final(self).history@) == old(self).config.retained(
                history_view(old(self).history@),
                now_nanos as int,
            ),
            removed == old(self).history@.len() - final(self).history@.len(),
            forall|j: int|
                0 <= j < old(self).history@.len() && rfc3339_form(
                    #[trigger] old(self).history@[j].last_seen@,
                ) ==> (history_view(final(self).history@).contains(old(self).history@[j]@) <==> ({
                    let t = rfc3339_seconds(old(self).history@[j].last_seen@) * 1_000_000_000
                        + rfc3339_nanos(old(self).history@[j].last_seen@);
                    now_nanos < t || now_nanos - t < old(self).config.max_age_nanos()
                })),
            final(self).config == old(self).config,
            final(self).current_connections == old(self).current_connections,
            final(self).logger == old(self).logger,
    {
        let mut old_history: Vec<Connection> = Vec::new();
        std::mem::swap(&mut old_history, &mut self.history);
        let ghost hv = history_view(old_history@);
        let max_age: i128 = (self.config.monitor.max_history_age_days as i128) * 86_400_000_000_000;
        let mut k: usize = 0;
        assert(hv.take(0) =~= Seq::<HistoryView>::empty());
        while k < old_history.len()
            invariant
                k <= old_history@.len(),
                hv == history_view(old_history@),
                max_age == self.config.max_age_nanos(),
                history_view(self.history@) == self.config.retained(hv.take(k as int), now_nanos as int),
                forall|j: int| 0 <= j < k ==> rfc3339_read(#[trigger] hv[j].last_seen),
                self.history@.len() <= k,
                hv == history_view(old(self).history@),
                old_history@.len() == old(self).history@.len(),
                self.config == old(self).config,
                self.current_connections == old(self).current_connections,
                self.logger == old(self).logger,
            decreases old_history@.len() - k,
        {
            assert(hv.take(k + 1).drop_last() =~= hv.take(k as int));
            let keep = match parse_rfc3339(old_history[k].last_seen.as_str()) {
                Some((secs, nanos)) => {
                    let t: i128 = (secs as i128) * 1_000_000_000 + (nanos as i128);
                    now_nanos < t || now_nanos < t + max_age
                },
                None => true,
            };
            assert(keep == self.config.keeps(hv[k as int], now_nanos as int));
            assert(rfc3339_read(hv[k as int].last_seen));
            if keep {
                let ghost before = history_view(self.history@);
                self.history.push(copy_connection(&old_history[k]));
                assert(history_view(self.history@) =~= before.push(hv[k as int]));
            }
            k = k + 1;
        }
        assert(hv.take(old_history@.len() as int) =~= hv);
        proof {
            crate::laws::law_cleanup_keeps(self.config, hv, now_nanos as int);
            let r = history_view(self.history@);
            assert forall|j: int|
                0 <= j < hv.len() && rfc3339_form(#[trigger] hv[j].last_seen) implies (r.contains(
                hv[j],
            ) <==> ({
                let t = rfc3339_seconds(hv[j].last_seen) * 1_000_000_000 + rfc3339_nanos(
                    hv[j].last_seen,
                );
                now_nanos < t || now_nanos - t < self.config.max_age_nanos()
            })) by {
                assert(rfc3339_read(hv[j].last_seen));
                if r.contains(hv[j]) {
                    let m = choose|m: int| 0 <= m < r.len() && r[m] == hv[j];
                    assert(self.config.keeps(r[m], now_nanos as int));
                }
            }
            assert forall|j: int| 0 <= j < old(self).history@.len() implies #[trigger] old(
                self,
            ).history@[j]@ == hv[j] by {}
        }
        old_history.len() - self.history.len()
    }

    /// The history as it is written out.
    pub fn history_for_export(&self) -> (r: Vec<Connection>)
        ensures
            history_view(r@) == history_view(self.history@).map_values(
                |h: HistoryView| self.config.export_record(h),
            ),
    {
        let ghost hv = history_view(self.history@);
        let mut r: Vec<Connection> = Vec::new();
        let mut k: usize = 0;
        while k < self.history.len()
            invariant
                k <= self.history@.len(),
                hv == history_view(self.history@),
                history_view(r@) == hv.take(k as int).map_values(
                    |h: HistoryView| self.config.export_record(h),
                ),
            decreases self.history@.len() - k,
        {
            let mut c = copy_connection(&self.history[k]);
            if !self.config.monitor.include_ports_in_history {
                c.ports = Some(Vec::new());
                assert(crate::model::ports_view(Seq::<PortInfo>::empty()) =~= Seq::<
                    crate::model::PortView,
                >::empty());
            }
            let ghost before = history_view(r@);
            r.push(c);
            assert(history_view(r@) =~= before.push(self.config.export_record(hv[k as int])));
            assert(hv.take(k + 1).map_values(|h: HistoryView| self.config.export_record(h))
                =~= hv.take(k as int).map_values(|h: HistoryView| self.config.export_record(h)).push(
                self.config.export_record(hv[k as int]),
            ));
            k = k + 1;
        }
        assert(hv.take(self.history@.len() as int) =~= hv);
        r
    }

    /// The alerts about the addresses that went away, where the
    /// configuration asks for them.
    pub fn disappearance_alerts(&self, disappeared: &Vec<String>) -> (r: Vec<String>)
        ensures
            strings_view(r@) == (if self.config.alerts.alert_on_disconnection {
                disappearance_messages(
                    history_view(self.history@),
                    strings_view(disappeared@),
                    self.config.monitor.show_ports_in_logs,
                )
            } else {
                Seq::empty()
            }),
    {
        let mut r: Vec<String> = Vec::new();
        if !self.config.alerts.alert_on_disconnection {
            assert(strings_view(r@) =~= Seq::<Seq<char>>::empty());
            return r;
        }
        let ghost hv = history_view(self.history@);
        let ghost gone = strings_view(disappeared@);
        let mut k: usize = 0;
        assert(gone.take(0) =~= Seq::<Seq<char>>::empty());
        while k < disappeared.len()
            invariant
                k <= disappeared@.len(),
                hv == history_view(self.history@),
                gone == strings_view(disappeared@),
                strings_view(r@) == disappearance_messages(
                    hv,
                    gone.take(k as int),
                    self.config.monitor.show_ports_in_logs,
                ),
            decreases disappeared@.len() - k,
        {
            assert(gone.take(k + 1).drop_last() =~= gone.take(k as int));
            match find_record(&self.history, disappeared[k].as_str()) {
                Some(i) => {
                    let m = disappearance_message_exec(
                        &self.history[i],
                        self.config.monitor.show_ports_in_logs,
                    );
                    let ghost before = strings_view(r@);
                    r.push(m);
                    assert(strings_view(r@) =~= before.push(m@));
                },
                None => {},
            }
            k = k + 1;
        }
        assert(gone.take(disappeared@.len() as int) =~= gone);
        r
    }

    /// Adds the records of the data file's lines to the history; returns
    /// the log lines of the load.
    pub fn load_history(&mut self, lines: Vec<HistoryLine>) -> (r: Vec<String>)
        requires
            lines@.len() < u64::MAX,
        ensures
            history_view(final(self).history@) == history_view(old(self).history@) + load_lines(
                history_lines_view(lines@),
            ).records,
            strings_view(r@) == load_messages(history_lines_view(lines@)),
            final(self).config == old(self).config,
            final(self).current_connections == old(self).current_connections,
            final(self).logger == old(self).logger,
    {
        let ghost lv = history_lines_view(lines@);
        let ghost h0 = history_view(self.history@);
        let mut warnings: Vec<String> = Vec::new();
        let mut count: u64 = 0;
        let mut errors: u64 = 0;
        let n = lines.len();
        let mut k: usize = 0;
        assert(lv.take(0) =~= Seq::<HistoryLineView>::empty());
        assert(history_view(self.history@).skip(h0.len() as int) =~= Seq::<HistoryView>::empty());
        assert(history_view(self.history@).take(h0.len() as int) =~= h0);
        while k < n
            invariant
                k <= n,
                n == lv.len(),
                n < u64::MAX,
                lv == history_lines_view(lines@),
                load_lines(lv.take(k as int)).records == history_view(self.history@).skip(
                    h0.len() as int,
                ),
                history_view(self.history@).take(h0.len() as int) == h0,
                history_view(self.history@).len() >= h0.len(),
                load_lines(lv.take(k as int)).errors == errors,
                load_lines(lv.take(k as int)).records.len() == count,
                count <= k,
                errors <= k,
                strings_view(warnings@) == load_lines(lv.take(k as int)).warnings,
                self.config == old(self).config,
                self.current_connections == old(self).current_connections,
                self.logger == old(self).logger,
            decreases n - k,
        {
            assert(lv.take(k + 1).drop_last() =~= lv.take(k as int));
            assert(lv.take(k + 1).last() == lines@[k as int]@);
            let ghost hbefore = history_view(self.history@);
            match &lines[k] {
                HistoryLine::Blank => {},
                HistoryLine::Record(c) => {
                    let ghost cv = c@;
                    self.history.push(copy_connection(c));
                    assert(history_view(self.history@) =~= hbefore.push(cv));
                    assert(history_view(self.history@).skip(h0.len() as int) =~= hbefore.skip(
                        h0.len() as int,
                    ).push(cv));
                    assert(history_view(self.history@).take(h0.len() as int) =~= hbefore.take(
                        h0.len() as int,
                    ));
                    count = count + 1;
                },
                HistoryLine::Malformed(e) => {
                    errors = errors + 1;
                    if errors <= 5 {
                        let mut m = String::from_str("Failed to parse line ");
                        let num = decimal_string((k + 1) as u64);
                        push_text(&mut m, num.as_str());
                        push_text(&mut m, " in data file: ");
                        push_text(&mut m, e.as_str());
                        let ghost before = strings_view(warnings@);
                        warnings.push(m);
                        assert(strings_view(warnings@) =~= before.push(m@));
                    }
                },
                HistoryLine::Unreadable(e) => {
                    errors = errors + 1;
                    let mut m = String::from_str("Failed to read line from data file: ");
                    push_text(&mut m, e.as_str());
                    let ghost before = strings_view(warnings@);
                    warnings.push(m);
                    assert(strings_view(warnings@) =~= before.push(m@));
                },
            }
            k = k + 1;
        }
        assert(lv.take(n as int) =~= lv);
        assert(history_view(self.history@) =~= h0 + history_view(self.history@).skip(h0.len() as int));
        if errors > 5 {
            let mut m = String::from_str("Total parsing errors in data file: ");
            let num = decimal_string(errors);
            push_text(&mut m, num.as_str());
            let ghost before = strings_view(warnings@);
            warnings.push(m);
            assert(strings_view(warnings@) =~= before.push(m@));
        }
        let mut m = String::from_str("Successfully loaded ");
        let num = decimal_string(count);
        push_text(&mut m, num.as_str());
        push_text(&mut m, " connections from history");
        let ghost before = strings_view(warnings@);
        warnings.push(m);
        assert(strings_view(warnings@) =~= before.push(m@));
        warnings
    }
}

} // verus!
