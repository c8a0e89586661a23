# aether_opencode

The OpenCode provider of the Aether gateway: the free-tier request
fingerprint (headers, session ids, required tools, forced streaming), DNS
pins that send a request through a front-proxy exit IP, and the exit-IP pool
(settings, candidate IPs from CIDR blocks, probes, scan and clean
bookkeeping, rotation and cooldowns, and the admin API's decisions).

## Layout

- `src/` is the library, verified with Verus.  Every function states what
  it returns in its contract; the laws (`law_*` proof functions) state what
  holds across calls, such as that a scan cannot start while one runs, or
  that the pin of a transport's profile reads back from the profile
  unchanged unless the reserved-address check refuses its IP on the read.
- `tests/` runs the library on concrete values.
- `app/` is the gateway side: the provider catalog and key-value store,
  TLS probes, the admin handlers, the autoscan worker and the bridge to
  `serde_json`.  It reads, sends and stores; the library decides.
