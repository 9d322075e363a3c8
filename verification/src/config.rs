//! The configuration's defaults, and the settings derived from it: the
//! listing commands and the report schedule.
use vstd::prelude::*;
use crate::model::{
    AlertConfig, AppConfig, FileConfig, FilteringConfig, MonitorConfig, TrafficType, strings_view,
};

verus! {

/// An empty list of watched ports means that every port is watched.
pub fn empty_ports_as_none(ports: Option<Vec<u16>>) -> (r: Option<Vec<u16>>)
    ensures
        r == (match ports {
            Some(v) => if v@.len() == 0 {
                None
            } else {
                Some(v)
            },
            None => None,
        }),
{
    match ports {
        Some(v) => if v.len() == 0 {
            None
        } else {
            Some(v)
        },
        None => None,
    }
}

/// Whether the report is due in iteration `iteration` when it is due every
/// `every` iterations (never where `every` is 0).
pub fn is_export_iteration(iteration: u64, every: u64) -> (b: bool)
    ensures
        b == (every > 0 && iteration % every == 0),
{
    every > 0 && iteration % every == 0
}

pub open spec fn commands_view(v: Seq<Vec<String>>) -> Seq<Seq<Seq<char>>> {
    v.map_values(|c: Vec<String>| strings_view(c@))
}

fn text(s: &str) -> (r: String)
    ensures
        r@ == s@,
{
    String::from_str(s)
}

impl AppConfig {
    /// The configuration that a missing file leaves in force.
    pub fn defaults() -> (c: AppConfig)
        ensures
            c.monitor.alert_interval_minutes == 5,
            c.monitor.check_interval_seconds == 10,
            c.monitor.max_history_age_days == 30,
            c.monitor.export_report_interval == 300,
            c.monitor.traffic_type == TrafficType::All,
            !c.monitor.debug,
            !c.monitor.resolve_dns,
            c.monitor.dns_timeout_ms == 2000,
            c.monitor.resolve_only_private,
            c.monitor.group_by_ip,
            c.monitor.show_ports_in_logs,
            c.monitor.include_ports_in_history,
            c.filtering.ignore_ips@.len() == 0,
            c.filtering.ignore_private_ips,
            !c.filtering.ignore_public_ips,
            c.filtering.ignore_localhost,
            c.filtering.ignore_ports@.len() == 0,
            c.filtering.monitor_only_ports is None,
            c.filtering.allowed_subnets is None,
            c.filtering.ignore_ipv6,
            c.files.data_file@ == "connections.jsonl"@,
            c.files.log_file@ == "connection_monitor.log"@,
            c.files.config_file@ == "config.toml"@,
            c.files.report_file@ == "connection_report.txt"@,
            c.files.max_log_size_mb == 10,
            c.files.max_log_files == 5,
            c.alerts.enable_console_alerts,
            c.alerts.enable_log_alerts,
            !c.alerts.alert_on_new_connection,
            c.alerts.alert_on_disconnection,
            c.alerts.alert_threshold_count is None,
    {
        AppConfig {
            monitor: MonitorConfig {
                alert_interval_minutes: 5,
                check_interval_seconds: 10,
                max_history_age_days: 30,
                export_report_interval: 300,
                traffic_type: TrafficType::All,
                debug: false,
                resolve_dns: false,
                dns_timeout_ms: 2000,
                resolve_only_private: true,
                group_by_ip: true,
                show_ports_in_logs: true,
                include_ports_in_history: true,
            },
            filtering: FilteringConfig {
                ignore_ips: Vec::new(),
                ignore_private_ips: true,
                ignore_public_ips: false,
                ignore_localhost: true,
                ignore_ports: Vec::new(),
                monitor_only_ports: None,
                allowed_subnets: None,
                ignore_ipv6: true,
            },
            files: FileConfig {
                data_file: text("connections.jsonl"),
                log_file: text("connection_monitor.log"),
                config_file: text("config.toml"),
                report_file: text("connection_report.txt"),
                max_log_size_mb: 10,
                max_log_files: 5,
            },
            alerts: AlertConfig {
                enable_console_alerts: true,
                enable_log_alerts: true,
                alert_on_new_connection: false,
                alert_on_disconnection: true,
                alert_threshold_count: None,
            },
        }
    }

    /// The number of check iterations between two reports: the report
    /// interval over the check interval, or 0 where reports are off.
    pub fn export_every(&self) -> (n: u64)
        requires
            self.monitor.export_report_interval == 0 || self.monitor.check_interval_seconds > 0,
        ensures
            n == (if self.monitor.export_report_interval > 0 {
                self.monitor.export_report_interval / self.monitor.check_interval_seconds
            } else {
                0
            }),
    {
        if self.monitor.export_report_interval > 0 {
            self.monitor.export_report_interval / self.monitor.check_interval_seconds
        } else {
            0
        }
    }

    /// The commands, program first, that list the host's connections:
    /// `ss -tun -4` (with `-6` unless IPv6 is ignored) on Linux, and
    /// `netstat -anop TCP` and `netstat -anop UDP` on Windows.
    pub fn listing_commands(&self, windows: bool) -> (r: Vec<Vec<String>>)
        ensures
            commands_view(r@) == (if windows {
                seq![
                    seq!["netstat"@, "-anop"@, "TCP"@],
                    seq!["netstat"@, "-anop"@, "UDP"@],
                ]
            } else if self.filtering.ignore_ipv6 {
                seq![seq!["ss"@, "-tun"@, "-4"@]]
            } else {
                seq![seq!["ss"@, "-tun"@, "-4"@, "-6"@]]
            }),
    {
        let mut r: Vec<Vec<String>> = Vec::new();
        if windows {
            let mut tcp: Vec<String> = Vec::new();
            tcp.push(text("netstat"));
            tcp.push(text("-anop"));
            tcp.push(text("TCP"));
            let mut udp: Vec<String> = Vec::new();
            udp.push(text("netstat"));
            udp.push(text("-anop"));
            udp.push(text("UDP"));
            assert(strings_view(tcp@) =~= seq!["netstat"@, "-anop"@, "TCP"@]);
            assert(strings_view(udp@) =~= seq!["netstat"@, "-anop"@, "UDP"@]);
            r.push(tcp);
            r.push(udp);
        } else {
            let mut ss: Vec<String> = Vec::new();
            ss.push(text("ss"));
            ss.push(text("-tun"));
            ss.push(text("-4"));
            if !self.filtering.ignore_ipv6 {
                ss.push(text("-6"));
                assert(strings_view(ss@) =~= seq!["ss"@, "-tun"@, "-4"@, "-6"@]);
            } else {
                assert(strings_view(ss@) =~= seq!["ss"@, "-tun"@, "-4"@]);
            }
            r.push(ss);
        }
        assert(commands_view(r@) =~= r@.map_values(|c: Vec<String>| strings_view(c@)));
        r
    }
}

} // verus!
