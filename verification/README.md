# connradar

A network connection monitor. It lists the host's TCP and UDP connections
(`ss` on Linux, `netstat` on Windows), filters them by address, port,
network and direction, remembers every remote host it has seen, reports the
hosts that appear and vanish, ages old records out, rotates its log and
writes a summary report.

The library in `src/` holds all of that logic and is verified with Verus:

- `text` — trimming, splitting, lines and decimal numbers over characters;
- `ipaddr` — the IPv4/IPv6 address grammar, private ranges, CIDR networks;
- `classify` — `address:port` splitting, direction, the address filters;
- `listing` — reading `ss` and `netstat` output into connections;
- `monitor` — the set of current hosts and the history, and a check;
- `history` — ageing out, export, loading the data file, vanish alerts;
- `report` — the summary report;
- `logger`, `config` — log lines and rotation, defaults and schedules;
- `laws` — properties that span several functions.

`app/` is the program around it: files, commands, name lookups, the clock
and the main loop.
