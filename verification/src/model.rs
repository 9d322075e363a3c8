//! The data of the monitor: its configuration and the connections it sees.
use vstd::prelude::*;

verus! {

/// Which connections are watched, by direction.
#[derive(Debug, Clone, Copy, PartialEq, Eq, Structural)]
pub enum TrafficType {
    Outgoing,
    Incoming,
    All,
}

impl Default for TrafficType {
    fn default() -> (t: Self)
        ensures
            t == TrafficType::All,
    {
        TrafficType::All
    }
}

/// The direction in which a connection was opened, as far as it can be told.
#[derive(Debug, Clone, Copy, PartialEq, Eq, Structural)]
pub enum ConnectionDirection {
    Incoming,
    Outgoing,
    Unknown,
}

#[derive(Debug, Clone)]
pub struct MonitorConfig {
    pub alert_interval_minutes: u64,
    pub check_interval_seconds: u64,
    pub max_history_age_days: u32,
    pub export_report_interval: u64,
    pub traffic_type: TrafficType,
    pub debug: bool,
    pub resolve_dns: bool,
    pub dns_timeout_ms: u64,
    pub resolve_only_private: bool,
    pub group_by_ip: bool,
    pub show_ports_in_logs: bool,
    pub include_ports_in_history: bool,
}

#[derive(Debug, Clone)]
pub struct FilteringConfig {
    pub ignore_ips: Vec<String>,
    pub ignore_private_ips: bool,
    pub ignore_public_ips: bool,
    pub ignore_localhost: bool,
    pub ignore_ports: Vec<u16>,
    pub monitor_only_ports: Option<Vec<u16>>,
    pub allowed_subnets: Option<Vec<String>>,
    pub ignore_ipv6: bool,
}

#[derive(Debug, Clone)]
pub struct FileConfig {
    pub data_file: String,
    pub log_file: String,
    pub config_file: String,
    pub report_file: String,
    pub max_log_size_mb: u64,
    pub max_log_files: usize,
}

#[derive(Debug, Clone)]
pub struct AlertConfig {
    pub enable_console_alerts: bool,
    pub enable_log_alerts: bool,
    pub alert_on_new_connection: bool,
    pub alert_on_disconnection: bool,
    pub alert_threshold_count: Option<u32>,
}

#[derive(Debug, Clone)]
pub struct AppConfig {
    pub monitor: MonitorConfig,
    pub filtering: FilteringConfig,
    pub files: FileConfig,
    pub alerts: AlertConfig,
}

/// A connection read from one line of a socket listing.
#[derive(Debug)]
pub struct ParsedConnection {
    pub remote_ip: String,
    pub remote_port: String,
    pub local_ip: String,
    pub local_port: String,
    pub protocol: String,
    pub direction: ConnectionDirection,
    pub state: String,
}

/// The value of a `ParsedConnection`.
pub struct ConnectionView {
    pub remote_ip: Seq<char>,
    pub remote_port: Seq<char>,
    pub local_ip: Seq<char>,
    pub local_port: Seq<char>,
    pub protocol: Seq<char>,
    pub direction: ConnectionDirection,
    pub state: Seq<char>,
}

impl View for ParsedConnection {
    type V = ConnectionView;

    open spec fn view(&self) -> ConnectionView {
        ConnectionView {
            remote_ip: self.remote_ip@,
            remote_port: self.remote_port@,
            local_ip: self.local_ip@,
            local_port: self.local_port@,
            protocol: self.protocol@,
            direction: self.direction,
            state: self.state@,
        }
    }
}

/// A port of a remote host and the last state seen on it.
#[derive(Debug, Clone)]
pub struct PortInfo {
    pub port: String,
    pub state: String,
}

pub struct PortView {
    pub port: Seq<char>,
    pub state: Seq<char>,
}

impl View for PortInfo {
    type V = PortView;

    open spec fn view(&self) -> PortView {
        PortView { port: self.port@, state: self.state@ }
    }
}

/// A remote host in the history of seen connections.
#[derive(Debug, Clone)]
pub struct Connection {
    pub ip_address: String,
    pub hostname: Option<String>,
    pub ports: Option<Vec<PortInfo>>,
    pub discovered_at: String,
    pub last_seen: String,
    pub protocol: String,
    pub direction: String,
    pub local_port: String,
    pub local_ip: String,
}

pub struct HistoryView {
    pub ip_address: Seq<char>,
    pub hostname: Option<Seq<char>>,
    pub ports: Option<Seq<PortView>>,
    pub discovered_at: Seq<char>,
    pub last_seen: Seq<char>,
    pub protocol: Seq<char>,
    pub direction: Seq<char>,
    pub local_port: Seq<char>,
    pub local_ip: Seq<char>,
}

pub open spec fn opt_string_view(s: Option<String>) -> Option<Seq<char>> {
    match s {
        Some(t) => Some(t@),
        None => None,
    }
}

pub open spec fn ports_view(p: Seq<PortInfo>) -> Seq<PortView> {
    p.map_values(|x: PortInfo| x@)
}

pub open spec fn opt_ports_view(p: Option<Vec<PortInfo>>) -> Option<Seq<PortView>> {
    match p {
        Some(v) => Some(ports_view(v@)),
        None => None,
    }
}

impl View for Connection {
    type V = HistoryView;

    open spec fn view(&self) -> HistoryView {
        HistoryView {
            ip_address: self.ip_address@,
            hostname: opt_string_view(self.hostname),
            ports: opt_ports_view(self.ports),
            discovered_at: self.discovered_at@,
            last_seen: self.last_seen@,
            protocol: self.protocol@,
            direction: self.direction@,
            local_port: self.local_port@,
            local_ip: self.local_ip@,
        }
    }
}

/// The texts of a list of strings.
pub open spec fn strings_view(v: Seq<String>) -> Seq<Seq<char>> {
    v.map_values(|t: String| t@)
}

pub open spec fn opt_conn_view(c: Option<ParsedConnection>) -> Option<ConnectionView> {
    match c {
        Some(x) => Some(x@),
        None => None,
    }
}

pub open spec fn conns_view(v: Seq<ParsedConnection>) -> Seq<ConnectionView> {
    v.map_values(|c: ParsedConnection| c@)
}

pub open spec fn history_view(v: Seq<Connection>) -> Seq<HistoryView> {
    v.map_values(|c: Connection| c@)
}

} // verus!
