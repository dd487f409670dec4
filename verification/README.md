# ergoproxy

An intercepting HTTP proxy whose decision-making core is verified with Verus.

- `src/` — the verified library:
  - `commands.rs`: command-line argument types and their validation;
  - `pool.rs`: connection-pool bookkeeping (reuse, registration, expiry,
    health checks, metrics) with a distinct-ids invariant;
  - `proxy.rs`: protocol detection, handler selection, relay steps and the
    proxy's configuration;
  - `http.rs`: byte- and text-level request parsing (request prefixes, the
    `Host` header, `host:port`);
  - `text.rs`: character helpers (trimming, counting, decimal parsing);
  - `security.rs`: IP/User-Agent rotation settings;
  - `addr.rs`: the socket-address model.
- `app/` — the executable: clap argument parsing, logging, and the tokio
  runtime that performs the sockets, locks and timers the library decides on.
- `tests/` — tests of the library.

Times in the library are nanosecond readings of a monotonic clock and
durations are nanosecond counts; the executable converts from
`std::time::Instant` and `Duration`.
