# Liaozhai MUX

A text-world server ("Multi-User eXegesis"): clients connect over telnet,
log in, pick a world from the registry and are sent on their way.

- `src/` is the library, verified with Verus: the telnet line codec, the
  login/world-selection session, the per-connection decisions, the per-address
  login rate limiter, the world registry and its validation, account records
  and credential checks, configuration defaults and overrides, and the text
  helpers they share. Calls into `uuid`, `argon2`, `password-hash` and `time`
  go through small trusted wrappers whose contracts are documented where they
  stand.
- `app/` is the server binary: command-line parsing, reading the
  configuration and registry files, the SQLite account store, the tokio
  listener and the socket loop that performs what the library's
  `connection::Connection` decides.
- `tests/` exercises the library on concrete inputs.
