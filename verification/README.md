# peering-diag

Network path diagnosis: MTR-style traceroutes (ICMP and TCP), AS and
geolocation of the hops, speed tests chosen by the destination's AS, return
paths through Globalping and looking glasses, a stored history of the runs and
a small web front end.

## Layout

- `src/` — the library, verified with Verus. Every module states its
  behaviour in `requires` / `ensures` contracts over spec models:
  - `mtr/` probe packets and checksums, TCP flow probing, the aggregation of
    rounds into hops, the ICMP rate-limit and degradation heuristics;
  - `asn`, `geo` — parsing of AS answers, geolocation of hops, detours;
  - `lg/` — looking-glass database, text traceroute parsing, choice of
    Globalping locations, merge of traceroute rounds by TTL;
  - `speedtest/` — the server cascade chosen from the AS of the target;
  - `report/` — verdicts, packet-loss findings, display helpers, history,
    maintenance, temporal analysis and the watch loop's decisions;
  - `web/` — command lines of web jobs, job bookkeeping, map filtering.
- `tests/` — tests of the library on concrete values.
- `app/` — the program around the library: command line, sockets, HTTP
  clients, SQLite storage, the web server, and the statistics computed in
  floating point.
