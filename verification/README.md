# codex_trace

The backend of codex-trace, a viewer for Codex session transcripts, as a
library whose behaviour is stated in contracts and proved with Verus, and a
small headless server around it.

## Layout

- `src/` — the verified library.
  - `text` — character-level text operations (trim, split, search, decimal).
  - `mentions` — decoding `[@title](thread://id)` task mentions in messages.
  - `jwt` — HS256 credentials: sign, and verify (header, signature, claims).
  - `clients` — the registry of accepted API clients: register, revoke, reissue.
  - `auth` — client verification: key files, credentials, request carriers,
    the same-origin cookie, and the laws that tie the registry to which
    credentials authenticate.
  - `resolve` — startup resolution as a step machine: given the outcome of
    each file read or write, what to do next, ending in the setup the server
    runs on (fail closed; an unreadable registry is moved aside).
  - `http_api` — bind address, the CORS allowlist, session-load answers.
  - `settings` — settings, the config root, the Settings screen's data.
  - `session`, `summary` — the parsed session model and the per-turn index.
  - `spawn` — what a `spawn_agent` call reported.
  - `scan_cache` — discovery results keyed by file, served while unchanged.
  - `indexer` — the decisions of the background walk of the sessions directory,
    and one walk as a step machine (what to publish, persist and rest after
    each report; only a complete walk's last report is marked done).
  - `state` — managing clients, the discovered-sessions and parsed-session
    caches (what they answer, what a store keeps), the watched session's flag.
- `tests/` — tests of the library.
- `app/` — the server: files, environment, shared state, HTTP routes. It
  runs the resolution machine, performing the file actions it asks for.
