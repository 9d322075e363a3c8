use connradar::config::{empty_ports_as_none, is_export_iteration};
use connradar::history::HistoryLine;
use connradar::ipaddr::{ip_in_any_subnet, IpAddress};
use connradar::listing::{CommandOutput, ConnectionListing, ListingError};
use connradar::logger::{log_line, Logger, RotationStep};
use connradar::model::{
    AlertConfig, AppConfig, Connection, ConnectionDirection, FileConfig, FilteringConfig,
    MonitorConfig, ParsedConnection, PortInfo, TrafficType,
};
use connradar::monitor::{ConnectionMonitor, HostnameLookup};
use connradar::text::decimal_string;

fn base_config() -> AppConfig {
    AppConfig {
        monitor: MonitorConfig {
            alert_interval_minutes: 5,
            check_interval_seconds: 10,
            max_history_age_days: 30,
            export_report_interval: 300,
            traffic_type: TrafficType::All,
            debug: false,
            resolve_dns: true,
            dns_timeout_ms: 1500,
            resolve_only_private: true,
            group_by_ip: true,
            show_ports_in_logs: false,
            include_ports_in_history: false,
        },
        filtering: FilteringConfig {
            ignore_ips: vec![],
            ignore_private_ips: false,
            ignore_public_ips: false,
            ignore_localhost: false,
            ignore_ports: vec![],
            monitor_only_ports: None,
            allowed_subnets: None,
            ignore_ipv6: false,
        },
        files: FileConfig {
            data_file: "test_data.jsonl".to_string(),
            log_file: "test.log".to_string(),
            config_file: "test_config.toml".to_string(),
            report_file: "test_report.txt".to_string(),
            max_log_size_mb: 1,
            max_log_files: 2,
        },
        alerts: AlertConfig {
            enable_console_alerts: false,
            enable_log_alerts: false,
            alert_on_new_connection: false,
            alert_on_disconnection: false,
            alert_threshold_count: None,
        },
    }
}

fn conn(remote_ip: &str, remote_port: &str, direction: ConnectionDirection) -> ParsedConnection {
    ParsedConnection {
        remote_ip: remote_ip.to_string(),
        remote_port: remote_port.to_string(),
        local_ip: "192.168.1.10".to_string(),
        local_port: "50000".to_string(),
        protocol: "TCP".to_string(),
        direction,
        state: "ESTAB".to_string(),
    }
}

fn record(ip: &str, last_seen: &str, direction: &str) -> Connection {
    Connection {
        ip_address: ip.to_string(),
        hostname: None,
        ports: Some(vec![PortInfo { port: "443".to_string(), state: "ESTAB".to_string() }]),
        discovered_at: "2024-01-01T00:00:00+00:00".to_string(),
        last_seen: last_seen.to_string(),
        protocol: "TCP".to_string(),
        direction: direction.to_string(),
        local_port: "50000".to_string(),
        local_ip: "192.168.1.10".to_string(),
    }
}

fn output(success: bool, stdout: &[u8], stderr: &[u8]) -> CommandOutput {
    CommandOutput { success, stdout: stdout.to_vec(), stderr: stderr.to_vec() }
}

const NOW: &str = "2024-05-01T12:00:00+00:00";
const LATER: &str = "2024-05-01T12:00:10+00:00";

// ---------------------------------------------------------------------------
// Checks of the connections
// ---------------------------------------------------------------------------

#[test]
fn check_reports_new_and_gone_addresses() {
    let mut m = ConnectionMonitor::new(base_config());
    let current = vec![
        conn("93.184.216.34", "443", ConnectionDirection::Outgoing),
        conn("93.184.216.34", "80", ConnectionDirection::Outgoing),
        conn("10.0.0.5", "22", ConnectionDirection::Incoming),
    ];
    let lookups = vec![HostnameLookup { ip: "10.0.0.5".to_string(), hostname: Some("nas.local".to_string()) }];
    let out = m.check_connections(&current, NOW, &lookups);
    assert_eq!(out.new_connections, vec!["93.184.216.34".to_string(), "10.0.0.5".to_string()]);
    assert!(out.disappeared.is_empty());
    assert!(out.messages.is_empty());
    assert_eq!(m.current_connections, vec!["93.184.216.34".to_string(), "10.0.0.5".to_string()]);
    assert_eq!(m.history.len(), 2);
    let first = &m.history[0];
    assert_eq!(first.ip_address, "93.184.216.34");
    assert_eq!(first.hostname, None);
    assert_eq!(first.discovered_at, NOW);
    assert_eq!(first.last_seen, NOW);
    assert_eq!(first.direction, "outgoing");
    // The history keeps no ports in this configuration.
    assert!(first.ports.is_none());
    assert_eq!(m.history[1].hostname, Some("nas.local".to_string()));
    assert_eq!(m.history[1].direction, "incoming");

    let again = vec![conn("10.0.0.5", "22", ConnectionDirection::Incoming)];
    let out2 = m.check_connections(&again, LATER, &lookups);
    assert!(out2.new_connections.is_empty());
    assert_eq!(out2.disappeared, vec!["93.184.216.34".to_string()]);
    assert_eq!(m.current_connections, vec!["10.0.0.5".to_string()]);
    assert_eq!(m.history.len(), 2);
    assert_eq!(m.history[1].last_seen, LATER);
    assert_eq!(m.history[1].discovered_at, NOW);
    assert_eq!(m.history[0].last_seen, NOW);
}

#[test]
fn same_listing_twice_is_quiet() {
    let mut m = ConnectionMonitor::new(base_config());
    let current = vec![
        conn("93.184.216.34", "443", ConnectionDirection::Outgoing),
        conn("1.1.1.1", "53", ConnectionDirection::Outgoing),
    ];
    let _ = m.check_connections(&current, NOW, &vec![]);
    let out = m.check_connections(&current, LATER, &vec![]);
    assert!(out.new_connections.is_empty());
    assert!(out.disappeared.is_empty());
    assert_eq!(m.history.len(), 2);
}

#[test]
fn ports_are_tracked_when_history_keeps_them() {
    let mut cfg = base_config();
    cfg.monitor.include_ports_in_history = true;
    let mut m = ConnectionMonitor::new(cfg);
    let _ = m.check_connections(&vec![conn("93.184.216.34", "443", ConnectionDirection::Outgoing)], NOW, &vec![]);
    let first = m.history[0].ports.as_ref().unwrap();
    assert_eq!(first.len(), 1);
    assert_eq!(first[0].port, "443");
    assert_eq!(first[0].state, "ESTAB");
    let mut second = conn("93.184.216.34", "443", ConnectionDirection::Outgoing);
    second.state = "CLOSE-WAIT".to_string();
    let current = vec![second, conn("93.184.216.34", "80", ConnectionDirection::Outgoing)];
    let _ = m.check_connections(&current, LATER, &vec![]);
    let ports = m.history[0].ports.as_ref().unwrap();
    assert_eq!(ports.len(), 2);
    assert_eq!(ports[0].port, "443");
    assert_eq!(ports[0].state, "CLOSE-WAIT");
    assert_eq!(ports[1].port, "80");
}

#[test]
fn returning_host_is_logged_when_asked() {
    let mut cfg = base_config();
    cfg.alerts.alert_on_new_connection = true;
    cfg.monitor.show_ports_in_logs = true;
    cfg.monitor.include_ports_in_history = true;
    let mut m = ConnectionMonitor::new(cfg);
    let a = vec![conn("93.184.216.34", "443", ConnectionDirection::Outgoing)];
    let first = m.check_connections(&a, NOW, &vec![]);
    assert!(first.messages.is_empty());
    let _ = m.check_connections(&vec![], LATER, &vec![]);
    let third = m.check_connections(&a, LATER, &vec![]);
    assert_eq!(
        third.messages,
        vec!["New connection(s) from 93.184.216.34 (N/A) | Ports: 443 (ESTAB) | Direction: outgoing".to_string()]
    );
}

#[test]
fn disappearance_alerts_name_the_record() {
    let mut cfg = base_config();
    cfg.alerts.alert_on_disconnection = true;
    let mut m = ConnectionMonitor::new(cfg);
    let _ = m.check_connections(&vec![conn("93.184.216.34", "443", ConnectionDirection::Outgoing)], NOW, &vec![]);
    let out = m.check_connections(&vec![], LATER, &vec![]);
    let alerts = m.disappearance_alerts(&out.disappeared);
    assert_eq!(
        alerts,
        vec![format!("Connection disappeared: 93.184.216.34 [TCP] | Direction: outgoing | First seen: {}", NOW)]
    );
    let none = m.disappearance_alerts(&vec!["8.8.8.8".to_string()]);
    assert!(none.is_empty());
}

#[test]
fn no_disappearance_alerts_when_off() {
    let mut m = ConnectionMonitor::new(base_config());
    let _ = m.check_connections(&vec![conn("93.184.216.34", "443", ConnectionDirection::Outgoing)], NOW, &vec![]);
    assert!(m.disappearance_alerts(&vec!["93.184.216.34".to_string()]).is_empty());
}

// ---------------------------------------------------------------------------
// Ageing out
// ---------------------------------------------------------------------------

const MARCH_1_2024: i128 = 1_709_251_200;

#[test]
fn cleanup_removes_only_old_records() {
    let mut m = ConnectionMonitor::new(base_config());
    m.history = vec![
        record("1.1.1.1", "2024-01-01T00:00:00+00:00", "outgoing"),
        record("2.2.2.2", "2024-02-20T00:00:00+00:00", "outgoing"),
        record("3.3.3.3", "not a time", "outgoing"),
        record("4.4.4.4", "2024-01-31T00:00:00+00:00", "outgoing"),
        record("5.5.5.5", "2024-04-01T00:00:00+00:00", "outgoing"),
        record("6.6.6.6", "2024-01-31T00:00:01+00:00", "outgoing"),
    ];
    let removed = m.cleanup_old_history(MARCH_1_2024 * 1_000_000_000);
    assert_eq!(removed, 2);
    let ips: Vec<&str> = m.history.iter().map(|c| c.ip_address.as_str()).collect();
    assert_eq!(ips, vec!["2.2.2.2", "3.3.3.3", "5.5.5.5", "6.6.6.6"]);
}

#[test]
fn cleanup_reads_time_zones() {
    let mut m = ConnectionMonitor::new(base_config());
    // 2024-01-31T02:00:00+02:00 is exactly thirty days before March 1st, UTC.
    m.history = vec![record("1.1.1.1", "2024-01-31T02:00:00+02:00", "outgoing")];
    assert_eq!(m.cleanup_old_history(MARCH_1_2024 * 1_000_000_000), 1);
    assert!(m.history.is_empty());
}

// ---------------------------------------------------------------------------
// Export and loading
// ---------------------------------------------------------------------------

#[test]
fn export_drops_ports_unless_kept() {
    let mut m = ConnectionMonitor::new(base_config());
    m.history = vec![record("1.1.1.1", NOW, "outgoing")];
    let out = m.history_for_export();
    assert_eq!(out.len(), 1);
    assert_eq!(out[0].ports.as_ref().unwrap().len(), 0);
    assert_eq!(out[0].ip_address, "1.1.1.1");
    m.config.monitor.include_ports_in_history = true;
    let kept = m.history_for_export();
    assert_eq!(kept[0].ports.as_ref().unwrap().len(), 1);
}

#[test]
fn load_history_counts_and_warns() {
    let mut m = ConnectionMonitor::new(base_config());
    let lines = vec![
        HistoryLine::Blank,
        HistoryLine::Record(record("1.1.1.1", NOW, "outgoing")),
        HistoryLine::Malformed("expected value at line 1 column 1".to_string()),
        HistoryLine::Unreadable("stream did not contain valid UTF-8".to_string()),
    ];
    let msgs = m.load_history(lines);
    assert_eq!(m.history.len(), 1);
    assert_eq!(
        msgs,
        vec![
            "Failed to parse line 3 in data file: expected value at line 1 column 1".to_string(),
            "Failed to read line from data file: stream did not contain valid UTF-8".to_string(),
            "Successfully loaded 1 connections from history".to_string(),
        ]
    );
}

#[test]
fn load_history_caps_parse_warnings() {
    let mut m = ConnectionMonitor::new(base_config());
    let lines: Vec<HistoryLine> = (0..7).map(|_| HistoryLine::Malformed("bad".to_string())).collect();
    let msgs = m.load_history(lines);
    assert!(m.history.is_empty());
    assert_eq!(msgs.len(), 7);
    assert_eq!(msgs[4], "Failed to parse line 5 in data file: bad");
    assert_eq!(msgs[5], "Total parsing errors in data file: 7");
    assert_eq!(msgs[6], "Successfully loaded 0 connections from history");
}

#[test]
fn record_text_trims_lines() {
    assert_eq!(connradar::history::record_text("  {\"a\":1}\t"), Some("{\"a\":1}".to_string()));
    assert_eq!(connradar::history::record_text(" \t "), None);
}

// ---------------------------------------------------------------------------
// The report
// ---------------------------------------------------------------------------

#[test]
fn report_lists_active_hosts() {
    let mut m = ConnectionMonitor::new(base_config());
    m.history = vec![
        record("93.184.216.34", "2024-05-01T11:00:00+00:00", "outgoing"),
        record("10.0.0.5", NOW, "incoming"),
        record("93.184.216.34", NOW, "outgoing"),
    ];
    m.current_connections = vec!["93.184.216.34".to_string()];
    let text = m.report_text("2024-05-01 12:00:00");
    let expected = "Connection Monitor Report\n\
Generated: 2024-05-01 12:00:00\n\
Configuration: test_config.toml\n\
Traffic type: All\n\
\n\
Statistics:\n\
\x20 - Total unique hosts: 2\n\
\x20 - Incoming: 1\n\
\x20 - Outgoing: 1\n\
\x20 - Currently active hosts: 1\n\
\n\
Active Hosts:\n\
\x20 93.184.216.34 (N/A)\n\
\x20   Local: 192.168.1.10:50000\n\
\x20   Direction: outgoing\n\
\x20   Last seen: 2024-05-01T12:00:00+00:00\n\
\x20   Ports: 443 (ESTAB)\n";
    assert_eq!(text, expected);
}

#[test]
fn report_of_empty_history() {
    let mut cfg = base_config();
    cfg.monitor.traffic_type = TrafficType::Incoming;
    let m = ConnectionMonitor::new(cfg);
    let text = m.report_text("now");
    assert!(text.contains("Traffic type: Incoming\n"));
    assert!(text.contains("  - Total unique hosts: 0\n"));
    assert!(text.ends_with("\nActive Hosts:\n"));
}

// ---------------------------------------------------------------------------
// Listings
// ---------------------------------------------------------------------------

#[test]
fn failed_ss_gives_its_error_output() {
    let m = ConnectionMonitor::new(base_config());
    let r = m.get_current_connections(&ConnectionListing::Ss(output(false, b"", b"ss: not found")));
    match r {
        Err(ListingError::CommandFailed { stderr }) => assert_eq!(stderr, "ss: not found"),
        _ => panic!("expected a command failure"),
    }
}

#[test]
fn ss_output_that_is_not_utf8_is_refused() {
    let m = ConnectionMonitor::new(base_config());
    let r = m.get_current_connections(&ConnectionListing::Ss(output(true, &[0x74, 0xff, 0xfe], b"")));
    assert!(matches!(r, Err(ListingError::InvalidUtf8)));
}

#[test]
fn ss_output_is_read_after_its_header() {
    let m = ConnectionMonitor::new(base_config());
    let stdout = b"Netid State Recv-Q Send-Q Local Address:Port Peer Address:Port\n\
tcp ESTAB 0 0 192.168.1.10:54321 93.184.216.34:443\n\
udp UNCONN 0 0 0.0.0.0:5353 0.0.0.0:*\n\
tcp ESTAB 0 0 192.168.1.10:54322 1.1.1.1:853\n";
    let r = m.get_current_connections(&ConnectionListing::Ss(output(true, stdout, b""))).unwrap();
    assert_eq!(r.len(), 2);
    assert_eq!(r[0].remote_ip, "93.184.216.34");
    assert_eq!(r[0].protocol, "TCP");
    assert_eq!(r[1].remote_port, "853");
}

#[test]
fn listing_drops_ignored_ports_and_directions() {
    let mut cfg = base_config();
    cfg.filtering.ignore_ports = vec![443];
    cfg.monitor.traffic_type = TrafficType::Incoming;
    let m = ConnectionMonitor::new(cfg);
    let stdout = b"Netid State Recv-Q Send-Q Local Address:Port Peer Address:Port\n\
tcp ESTAB 0 0 192.168.1.10:54321 93.184.216.34:443\n\
tcp ESTAB 0 0 192.168.1.10:54322 1.1.1.1:853\n\
tcp ESTAB 0 0 203.0.113.7:22 198.51.100.9:50123\n";
    let r = m.get_current_connections(&ConnectionListing::Ss(output(true, stdout, b""))).unwrap();
    assert_eq!(r.len(), 1);
    assert_eq!(r[0].remote_ip, "198.51.100.9");
    assert_eq!(r[0].direction, ConnectionDirection::Incoming);
}

#[test]
fn netstat_outputs_are_read_tcp_first() {
    let m = ConnectionMonitor::new(base_config());
    let tcp = b"\r\nActive Connections\r\n\r\n  Proto  Local Address          Foreign Address        State           PID\r\n  TCP    192.168.1.10:50000     93.184.216.34:443      ESTABLISHED     1234\r\n";
    let udp = b"\r\nActive Connections\r\n\r\n  Proto  Local Address          Foreign Address        PID\r\n  UDP    0.0.0.0:5353           *:*                    4321\r\n  UDP    192.168.1.10:50001     8.8.8.8:53             4321\r\n";
    let listing = ConnectionListing::Netstat { tcp: output(true, tcp, b""), udp: output(true, udp, b"") };
    let r = m.get_current_connections(&listing).unwrap();
    assert_eq!(r.len(), 2);
    assert_eq!(r[0].protocol, "TCP");
    assert_eq!(r[0].state, "ESTABLISHED");
    assert_eq!(r[0].direction, ConnectionDirection::Outgoing);
    assert_eq!(r[1].protocol, "UDP");
    assert_eq!(r[1].state, "UDP");
    assert_eq!(r[1].remote_ip, "8.8.8.8");
}

#[test]
fn netstat_line_with_watched_ports() {
    let mut cfg = base_config();
    cfg.filtering.monitor_only_ports = Some(vec![443]);
    let m = ConnectionMonitor::new(cfg);
    assert!(m.parse_netstat_line("TCP 192.168.1.10:443 93.184.216.34:50000 ESTABLISHED 1", "TCP").is_none());
    let c = m.parse_netstat_line("TCP 192.168.1.10:50000 93.184.216.34:443 ESTABLISHED 1", "TCP").unwrap();
    assert_eq!(c.remote_port, "443");
    assert!(m.parse_netstat_line("TCP 192.168.1.10:50000", "TCP").is_none());
}

#[test]
fn netstat_line_uses_default_protocol() {
    let m = ConnectionMonitor::new(base_config());
    let c = m.parse_netstat_line("X 192.168.1.10:50000 93.184.216.34:443 1", "UDP").unwrap();
    assert_eq!(c.protocol, "UDP");
    assert_eq!(c.state, "UDP");
}

#[test]
fn parse_netstat_output_appends() {
    let m = ConnectionMonitor::new(base_config());
    let mut out = vec![conn("9.9.9.9", "53", ConnectionDirection::Outgoing)];
    let r = m.parse_netstat_output(b"Proto Local Foreign State\nTCP 192.168.1.10:50000 93.184.216.34:443 ESTABLISHED 7\n", "TCP", &mut out);
    assert!(r.is_ok());
    assert_eq!(out.len(), 2);
    assert_eq!(out[0].remote_ip, "9.9.9.9");
    assert_eq!(out[1].remote_ip, "93.184.216.34");
}

#[test]
fn parse_netstat_output_reads_invalid_utf8_leniently() {
    let m = ConnectionMonitor::new(base_config());
    let mut out = Vec::new();
    let r = m.parse_netstat_output(b"\xff\xfe garbage\nTCP 192.168.1.10:50000 93.184.216.34:443 ESTABLISHED 7\n", "TCP", &mut out);
    assert!(r.is_ok());
    assert_eq!(out.len(), 1);
}

// ---------------------------------------------------------------------------
// Classification and filters
// ---------------------------------------------------------------------------

#[test]
fn direction_reads_state_in_any_case() {
    assert_eq!(
        ConnectionMonitor::determine_direction("syn_sent", "8.8.8.8", "80", "1.1.1.1"),
        ConnectionDirection::Outgoing
    );
    assert_eq!(
        ConnectionMonitor::determine_direction("SYN-RECV", "192.168.1.1", "80", "8.8.8.8"),
        ConnectionDirection::Outgoing
    );
    assert_eq!(
        ConnectionMonitor::determine_direction("ESTAB", "8.8.8.8", "50000", "1.1.1.1"),
        ConnectionDirection::Unknown
    );
}

#[test]
fn address_split_round_trips() {
    assert_eq!(
        ConnectionMonitor::parse_address("fe80::1:8080"),
        Some(("fe80::1".to_string(), "8080".to_string()))
    );
    assert_eq!(
        ConnectionMonitor::parse_address("[::1]:53"),
        Some(("::1".to_string(), "53".to_string()))
    );
    assert_eq!(
        ConnectionMonitor::parse_address("  1.2.3.4:5 "),
        Some(("1.2.3.4".to_string(), "5".to_string()))
    );
    assert_eq!(ConnectionMonitor::parse_address("no-port"), None);
    assert_eq!(
        ConnectionMonitor::parse_address("[::1]x"),
        Some(("[:".to_string(), "1]x".to_string()))
    );
}

#[test]
fn brackets_do_not_change_privacy() {
    assert_eq!(ConnectionMonitor::is_private_ip("[10.0.0.1]"), ConnectionMonitor::is_private_ip("10.0.0.1"));
    assert!(ConnectionMonitor::is_private_ip("[fc00::1]"));
    assert!(!ConnectionMonitor::is_private_ip("[8.8.8.8]"));
    assert!(ConnectionMonitor::is_private_ip("169.254.3.4"));
    assert!(!ConnectionMonitor::is_private_ip("1.2.3"));
}

#[test]
fn filters_by_address() {
    let mut cfg = base_config();
    cfg.filtering.ignore_ips = vec!["1.2.3.4".to_string()];
    cfg.filtering.ignore_localhost = true;
    cfg.filtering.ignore_private_ips = true;
    let m = ConnectionMonitor::new(cfg);
    assert!(m.is_ip_ignored("1.2.3.4"));
    assert!(m.is_ip_ignored("127.0.0.1"));
    assert!(m.is_ip_ignored("localhost"));
    assert!(m.is_ip_ignored("::1"));
    assert!(m.is_ip_ignored("10.9.8.7"));
    assert!(m.is_ip_ignored("192.168.0.1"));
    assert!(m.is_ip_ignored("172.16.0.1"));
    assert!(m.is_ip_ignored("172.31.255.1"));
    assert!(!m.is_ip_ignored("172.32.0.1"));
    assert!(!m.is_ip_ignored("172.15.0.1"));
    assert!(!m.is_ip_ignored("127.0.0.2"));
    assert!(!m.is_ip_ignored("8.8.8.8"));
}

#[test]
fn filters_public_and_subnets() {
    let mut cfg = base_config();
    cfg.filtering.ignore_public_ips = true;
    let m = ConnectionMonitor::new(cfg);
    assert!(m.is_ip_ignored("8.8.8.8"));
    assert!(!m.is_ip_ignored("192.168.1.1"));
    assert!(!m.is_ip_ignored("fe80::1"));

    let mut cfg = base_config();
    cfg.filtering.allowed_subnets = Some(vec!["10.0.0.0/8".to_string()]);
    let m = ConnectionMonitor::new(cfg);
    assert!(m.is_ip_ignored("93.184.216.34"));
    assert!(!m.is_ip_ignored("10.2.3.4"));

    let mut cfg = base_config();
    cfg.filtering.allowed_subnets = Some(vec![]);
    let m = ConnectionMonitor::new(cfg);
    assert!(!m.is_ip_ignored("93.184.216.34"));
}

#[test]
fn subnet_membership() {
    let nets = vec!["10.0.0.0/8".to_string()];
    assert!(ip_in_any_subnet("10.1.2.3", &nets));
    assert!(!ip_in_any_subnet("11.1.2.3", &nets));
    assert!(!ip_in_any_subnet("host", &nets));
    let mixed = vec!["not a net".to_string(), "2001:db8::/32".to_string(), "10.0.0.0/8".to_string()];
    assert!(ip_in_any_subnet("10.1.2.3", &mixed));
    assert!(ip_in_any_subnet("2001:db8::1", &mixed));
    assert!(!ip_in_any_subnet("2001:db9::1", &mixed));
    assert!(ip_in_any_subnet("192.168.7.7", &vec!["192.168.7.0/24".to_string()]));
    assert!(!ip_in_any_subnet("192.168.8.7", &vec!["192.168.7.0/24".to_string()]));
    assert!(ip_in_any_subnet("1.2.3.4", &vec!["0.0.0.0/0".to_string()]));
}

#[test]
fn lookup_targets() {
    let m = ConnectionMonitor::new(base_config());
    match m.lookup_target("10.0.0.5") {
        Some(IpAddress::V4(o)) => assert_eq!(o, vec![10, 0, 0, 5]),
        _ => panic!("expected an IPv4 address"),
    }
    assert!(m.lookup_target("8.8.8.8").is_none());
    // The host part ends at the first `:`, so an IPv6 address is never looked up.
    assert!(m.lookup_target("[fe80::1]").is_none());
    match m.lookup_target("192.168.1.1:8080") {
        Some(IpAddress::V4(o)) => assert_eq!(o, vec![192, 168, 1, 1]),
        _ => panic!("expected an IPv4 address"),
    }
    let mut cfg = base_config();
    cfg.monitor.resolve_only_private = false;
    let m = ConnectionMonitor::new(cfg);
    assert!(m.lookup_target("8.8.8.8").is_some());
    let mut cfg = base_config();
    cfg.monitor.resolve_dns = false;
    let m = ConnectionMonitor::new(cfg);
    assert!(m.lookup_target("10.0.0.5").is_none());
}

// ---------------------------------------------------------------------------
// Logging, configuration, numbers
// ---------------------------------------------------------------------------

#[test]
fn log_lines_and_rotation() {
    assert_eq!(
        log_line("2024-05-01 12:00:00.000", "INFO", "hello"),
        "[2024-05-01 12:00:00.000] [INFO] hello\n"
    );
    let mut files = base_config().files;
    files.log_file = "app.log".to_string();
    files.max_log_files = 3;
    let l = Logger::new(&files);
    assert!(l.enable_logging);
    assert!(l.needs_rotation(Some(1_048_577)));
    assert!(!l.needs_rotation(Some(1_048_576)));
    assert!(!l.needs_rotation(None));
    let plan: Vec<String> = l
        .rotation_plan()
        .iter()
        .map(|s| match s {
            RotationStep::Remove(p) => format!("rm {}", p),
            RotationStep::Rename { from, to } => format!("mv {} {}", from, to),
        })
        .collect();
    assert_eq!(plan, vec!["rm app.log.3", "mv app.log.2 app.log.3", "mv app.log.1 app.log.2", "mv app.log app.log.1"]);
}

#[test]
fn defaults_and_schedule() {
    let d = AppConfig::defaults();
    assert_eq!(d.monitor.check_interval_seconds, 10);
    assert_eq!(d.files.log_file, "connection_monitor.log");
    assert_eq!(d.monitor.traffic_type, TrafficType::All);
    assert_eq!(d.export_every(), 30);
    assert!(is_export_iteration(60, 30));
    assert!(!is_export_iteration(61, 30));
    assert!(!is_export_iteration(0, 0));
    let mut off = AppConfig::defaults();
    off.monitor.export_report_interval = 0;
    off.monitor.check_interval_seconds = 0;
    assert_eq!(off.export_every(), 0);
    assert_eq!(TrafficType::default(), TrafficType::All);
}

#[test]
fn listing_commands_per_system() {
    let d = AppConfig::defaults();
    assert_eq!(d.listing_commands(false), vec![vec!["ss".to_string(), "-tun".to_string(), "-4".to_string()]]);
    let mut v6 = AppConfig::defaults();
    v6.filtering.ignore_ipv6 = false;
    assert_eq!(v6.listing_commands(false)[0], vec!["ss", "-tun", "-4", "-6"]);
    assert_eq!(
        d.listing_commands(true),
        vec![vec!["netstat", "-anop", "TCP"], vec!["netstat", "-anop", "UDP"]]
    );
}

#[test]
fn empty_watched_ports_mean_all() {
    assert_eq!(empty_ports_as_none(Some(vec![])), None);
    assert_eq!(empty_ports_as_none(Some(vec![443])), Some(vec![443]));
    assert_eq!(empty_ports_as_none(None), None);
}

#[test]
fn decimal_numerals() {
    assert_eq!(decimal_string(0), "0");
    assert_eq!(decimal_string(7), "7");
    assert_eq!(decimal_string(10), "10");
    assert_eq!(decimal_string(1_234_567_890_123), "1234567890123");
    assert_eq!(decimal_string(u64::MAX), u64::MAX.to_string());
}

#[test]
fn exported_records_load_back() {
    let mut m = ConnectionMonitor::new(base_config());
    m.history = vec![record("1.1.1.1", NOW, "outgoing"), record("2.2.2.2", LATER, "incoming")];
    let lines: Vec<HistoryLine> = m.history_for_export().into_iter().map(HistoryLine::Record).collect();
    let mut fresh = ConnectionMonitor::new(base_config());
    let msgs = fresh.load_history(lines);
    assert_eq!(msgs, vec!["Successfully loaded 2 connections from history".to_string()]);
    assert_eq!(fresh.history.len(), 2);
    assert_eq!(fresh.history[0].ip_address, "1.1.1.1");
    assert_eq!(fresh.history[1].last_seen, LATER);
    assert_eq!(fresh.history[1].direction, "incoming");
}

// ---------------------------------------------------------------------------
// Round trips, extra fields, repeated addresses
// ---------------------------------------------------------------------------

#[test]
fn address_split_keeps_inner_spaces() {
    assert_eq!(
        ConnectionMonitor::parse_address("a b:8 0"),
        Some(("a b".to_string(), "8 0".to_string()))
    );
    assert_eq!(
        ConnectionMonitor::parse_address("[ x]: 80"),
        Some((" x".to_string(), " 80".to_string()))
    );
}

#[test]
fn extra_ss_field_changes_nothing() {
    let m = ConnectionMonitor::new(base_config());
    let plain = m.parse_ss_line("tcp ESTAB 0 0 192.168.1.10:54321 93.184.216.34:80").unwrap();
    let extra = m.parse_ss_line("tcp ESTAB 0 0 users 192.168.1.10:54321 93.184.216.34:80").unwrap();
    assert_eq!(plain.remote_ip, extra.remote_ip);
    assert_eq!(plain.remote_port, extra.remote_port);
    assert_eq!(plain.local_ip, extra.local_ip);
    assert_eq!(plain.local_port, extra.local_port);
    assert_eq!(plain.protocol, extra.protocol);
    assert_eq!(plain.state, extra.state);
    assert_eq!(plain.direction, extra.direction);
    assert!(m.parse_ss_line("tcp ESTAB 0 0 foo 1.2.3.4:5").is_none());
    assert!(m.parse_ss_line("tcp ESTAB 0 0 x foo 1.2.3.4:5").is_none());
}

#[test]
fn repeated_current_address_vanishes_once() {
    let mut m = ConnectionMonitor::new(base_config());
    m.current_connections = vec!["8.8.8.8".to_string(), "8.8.8.8".to_string()];
    let out = m.check_connections(&vec![], NOW, &vec![]);
    assert_eq!(out.disappeared, vec!["8.8.8.8".to_string()]);
}

// ---------------------------------------------------------------------------
// Traces
// ---------------------------------------------------------------------------

#[test]
fn ss_line_trace_tells_each_step() {
    let mut cfg = base_config();
    cfg.monitor.debug = true;
    let m = ConnectionMonitor::new(cfg);
    let t = m.ss_line_trace("tcp ESTAB 0 0 192.168.1.10:54321 93.184.216.34:80");
    assert!(t.info.is_empty());
    assert_eq!(
        t.printed,
        vec![
            "  -> Using indices 4,5 (minimal format)",
            "  -> Selected: local=192.168.1.10:54321, remote=93.184.216.34:80",
            "  -> Parsed: 192.168.1.10:54321 -> 93.184.216.34:80",
            "    -> local_is_private=true, remote_is_private=false",
            "    -> Outgoing (local private, remote public)",
        ]
    );
    assert_eq!(t.debug, vec!["Direction for 192.168.1.10:54321 -> 93.184.216.34:80 = Outgoing, state=ESTAB"]);
}

#[test]
fn ss_line_trace_tells_why_a_line_is_skipped() {
    let mut cfg = base_config();
    cfg.filtering.ignore_ports = vec![443];
    cfg.monitor.traffic_type = TrafficType::Incoming;
    let m = ConnectionMonitor::new(cfg);
    assert_eq!(m.ss_line_trace("tcp ESTAB").printed, vec!["  -> Skipping: not enough parts"]);
    assert!(m.ss_line_trace("   ").printed.is_empty());
    let listen = m.ss_line_trace("udp UNCONN 0 0 0.0.0.0:5353 0.0.0.0:*");
    assert_eq!(listen.printed.last().unwrap(), "  -> Skipping: listening socket");
    let port = m.ss_line_trace("tcp ESTAB 0 0 192.168.1.10:54321 93.184.216.34:443");
    assert_eq!(port.printed.last().unwrap(), "  -> Skipping: port 443 is in ignore_ports");
    let out = m.ss_line_trace("tcp ESTAB 0 0 192.168.1.10:54322 1.1.1.1:853");
    assert_eq!(out.printed.last().unwrap(), "  -> Skipping: traffic_type=Incoming but direction=Outgoing");
    assert!(out.debug.is_empty());
    let extra = m.ss_line_trace("tcp ESTAB 0 0 users 192.168.1.10:54322 1.1.1.1:853");
    assert_eq!(extra.printed[0], "  -> Using indices 5,6 (with extra field)");
    let bad = m.ss_line_trace("tcp ESTAB 0 0 foo 1.1.1.1:853");
    assert_eq!(bad.printed.last().unwrap(), "  -> Skipping: cannot parse local address 'foo'");
}

#[test]
fn direction_trace_lines() {
    assert_eq!(
        ConnectionMonitor::direction_trace("syn_sent", "8.8.8.8", "80", "1.1.1.1"),
        vec!["    -> Outgoing (SYN_SENT/SYN-RECV state)"]
    );
    assert_eq!(
        ConnectionMonitor::direction_trace("ESTAB", "8.8.8.8", "80", "1.1.1.1"),
        vec!["    -> Incoming (local port 80 < 1024)"]
    );
    assert_eq!(
        ConnectionMonitor::direction_trace("ESTAB", "8.8.8.8", "50000", "1.1.1.1"),
        vec!["    -> local_is_private=false, remote_is_private=false", "    -> Unknown direction"]
    );
}

#[test]
fn listing_trace_previews_ss_output() {
    let m = ConnectionMonitor::new(base_config());
    let stdout = b"Netid State Recv-Q Send-Q Local Address:Port Peer Address:Port\n\
tcp ESTAB 0 0 192.168.1.10:54321 93.184.216.34:443\n";
    let t = m.listing_trace(&ConnectionListing::Ss(output(true, stdout, b"")));
    assert_eq!(
        t.info,
        vec![
            "Raw ss output (2 lines):",
            "  Netid State Recv-Q Send-Q Local Address:Port Peer Address:Port",
            "  tcp ESTAB 0 0 192.168.1.10:54321 93.184.216.34:443",
        ]
    );
    assert_eq!(t.printed.len(), 5);
    let failed = m.listing_trace(&ConnectionListing::Ss(output(false, b"", b"boom")));
    assert!(failed.info.is_empty() && failed.printed.is_empty());
    let tcp = b"  Proto  Local Address  Foreign Address  State  PID\r\n  TCP 192.168.1.10:50000 93.184.216.34:443 ESTABLISHED 1\r\n";
    let nt = m.listing_trace(&ConnectionListing::Netstat { tcp: output(true, tcp, b""), udp: output(true, b"", b"") });
    assert!(nt.info.is_empty());
    assert_eq!(
        nt.printed,
        vec!["    -> local_is_private=true, remote_is_private=false", "    -> Outgoing (local private, remote public)"]
    );
}

#[test]
fn log_entries_only_when_logging() {
    let mut l = Logger::new(&base_config().files);
    assert_eq!(l.entry("t", "INFO", "hi"), Some("[t] [INFO] hi\n".to_string()));
    l.enable_logging = false;
    assert_eq!(l.entry("t", "INFO", "hi"), None);
}

#[test]
fn returning_host_without_kept_ports() {
    let mut cfg = base_config();
    cfg.alerts.alert_on_new_connection = true;
    cfg.monitor.show_ports_in_logs = true;
    let mut m = ConnectionMonitor::new(cfg);
    let a = vec![conn("93.184.216.34", "443", ConnectionDirection::Outgoing)];
    let _ = m.check_connections(&a, NOW, &vec![]);
    let _ = m.check_connections(&vec![], LATER, &vec![]);
    let third = m.check_connections(&a, LATER, &vec![]);
    assert_eq!(
        third.messages,
        vec!["New connection(s) from 93.184.216.34 (N/A) | Direction: outgoing".to_string()]
    );
}

#[test]
fn report_shows_no_ports_unless_kept() {
    let mut m = ConnectionMonitor::new(base_config());
    let _ = m.check_connections(&vec![conn("93.184.216.34", "443", ConnectionDirection::Outgoing)], NOW, &vec![]);
    let text = m.report_text("now");
    assert!(text.contains("  93.184.216.34 (N/A)\n"));
    assert!(!text.contains("Ports:"));
    m.config.monitor.include_ports_in_history = true;
    let mut kept = ConnectionMonitor::new(m.config.clone());
    let _ = kept.check_connections(&vec![conn("93.184.216.34", "443", ConnectionDirection::Outgoing)], NOW, &vec![]);
    assert!(kept.report_text("now").contains("    Ports: 443 (ESTAB)\n"));
}

#[test]
fn threshold_alerts() {
    let m = ConnectionMonitor::new(base_config());
    assert_eq!(m.threshold_alert(1_000), None);
    let mut cfg = base_config();
    cfg.alerts.alert_threshold_count = Some(100);
    let m = ConnectionMonitor::new(cfg);
    assert_eq!(m.threshold_alert(100), None);
    assert_eq!(
        m.threshold_alert(101),
        Some("Connection count 101 exceeds the alert threshold of 100".to_string())
    );
}
