# appguard

Application usage tracking, permission auditing, sandbox and data-flow
policy evaluation, and the reports built from them, written in Verus.

## Layout

- `src/` — the library. Every data structure and rule is stated as a
  contract over a mathematical view (sequences, maps, integers) and proved:
  usage and launch tracking, permission audits and risk scores, sandbox
  profiles and their evaluation, data-flow and network policies, install,
  update, uninstall and integrity logs, quarantine, certificate pinning,
  autostart discovery, `/proc` parsing, and the text and HTML reports.
  Proof functions state the properties that span several calls (what a
  read gives back after a write, that logs stay within their limits, that
  scores are monotone, that escaped HTML holds no markup).
- `src/clock.rs`, `src/paths.rs`, `src/text.rs`, `src/process_monitor.rs`
  hold the few calls into `chrono` and `std` whose results are believed
  rather than proved; each says in its doc comment what it claims.
- `app/` — ordinary Rust around the library: reading directories, `/proc`
  and `crontab`, writing autostart files, JSON export with `serde`, and the
  measurements that are fractional (CPU shares, rates, z-scores).
- `tests/` — tests of the library on concrete values.

Instants are milliseconds since the Unix epoch (`i64`). Functions that
read the clock come in pairs: `f_at(.., now)` with an exact contract, and
`f(..)` which reads the clock and promises what holds for any instant.
