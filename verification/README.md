# aether

The core of the Aether tunnel engine (MASQUE over HTTP/3 or HTTP/2, and
WireGuard), written in Verus. Every function under `src/` states what it does
in `requires`/`ensures` and is proved to meet it; the library's laws (what a
sealed identity opens to, which endpoint a hunt settles on, what a Stop
reaches, ...) are public proof functions beside the code they speak of.

## Layout

- `src/` — the verified library.
  - Wire formats: `varint`, `masque` (capsules, address assignment),
    `masque_h2`, `dns` (names, HTTPS/ECH answers, the data-plane probe),
    `http_proxy` (request heads), `cps` and `obfuscation` (junk templates).
  - Scanning: `prober` (candidate planning, port tiers, the scan registry and
    tally), `hunt` (one hunt's decisions, the cached-endpoint race and the
    hunt's verdict), `h3_probe`, `endpoint_cache`, `cache`.
  - The engine's state machines: `quic` (keepalive, data-plane readiness,
    status handling), `netstack` (socket budgets, flows, ports, forbidden
    destinations), `mtu`, `lastconn`.
  - Configuration: `config` (the identity envelope, its sealing and opening,
    and the plaintext migration), `keyhandoff`, `engine_config`, `settings`.
  - `roundtrip` holds laws that tie a writer to its reader.
  - Calls into outside crates and std stand behind small trusted wrappers
    (`rng`, `paths`, the sealing wrappers in `config`, a few in `text`,
    `dns`, `keyhandoff`), each documented with what its contract claims.
- `tests/` — tests of the library, run against the real outside crates.
- `app/` — the command-line shell: settings, the stdin handoff,
  `--diagnostics` and the control channel.
