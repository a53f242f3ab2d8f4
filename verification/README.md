# packet_proxy

A packet-capturing proxy. The library (`src/`, verified with Verus) holds
the logic; `app/` is the program around it: capture, printing, HTTP,
SQLite and Redis.

- `listener::packets`: Ethernet, IPv4, TCP, UDP and ICMP headers, read with
  `pnet` behind wrappers whose contracts give each field's offset.
- `listener::protocols`, `raw_sockets`, `capture`: what is reported of each
  packet and how it is counted; `metrics`: totals per protocol and their
  text, with the byte amounts rendered exactly as `{:.2}` renders the
  `f64` quotient.
- `listener::connection_manager`, `timeout`: connection tracking.
- `data::dns`: the DNS cache (an `lru::LruCache`) and the lookup as a step
  function from event to action; `data::redis`: packet keys.
- `api`, `json`: company names read out of RDAP answers parsed by
  `serde_json` and matched by `regex`.
- `text`: decimal rendering and the lexicographic order of strings.
