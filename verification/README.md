# ua_mask

A transparent HTTP proxy that rewrites the User-Agent header of requests,
split into a verified library (`src/`) and the program around it (`app/`).

- `src/config.rs` — command-line arguments, the validated configuration, and
  the comma-separated list parser.
- `src/matcher.rs` — regular expressions that remember their pattern.
- `src/http.rs` — request heads parsed with `httparse`, the `User-Agent`
  header, and requests written back with a new User-Agent.
- `src/cache.rs` — the least-recently-used rewrite cache kept by `lru`.
- `src/handler.rs` — HTTP detection, the replacement decision, and request
  rewriting through the cache.
- `src/manager.rs` — per-flow offload profiles, firewall additions, their
  batching and the `nft`/`ipset` commands that carry them out.
- `src/stats.rs` — the statistics counters and report figures.
- `src/text.rs` — decimal formatting, splitting, trimming and searching.

`app/` holds `main`, the tokio server and connection relay, the clap argument
parser, logging, the statistics file writer, the socket option that gives a
redirected connection's destination, and the firewall manager's tasks.
