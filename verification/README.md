# acp-tap

A transparent proxy for ACP agents and its live dashboard.

`acp-tap` sits between an ACP client and an ACP agent, forwards stdio
byte-for-byte, and mirrors each complete line to a unix socket. `acp-tapd` reads
the mirrored lines, turns them into events, keeps a bounded history per agent, and
streams everything to browsers.

- `src/` holds the rules of both programs, with contracts that Verus proves:
  forwarding and line splitting (`pump`), shipping with backoff (`mirror`), reading
  JSON-RPC messages as events (`json`, `parse`), the dashboard's state (`state`,
  `session`, `laws`), one browser's connection (`viewer`).
- `app/` holds what performs I/O around them. The name the executable is called by,
  `acp-tap` or `acp-tapd`, decides which program runs.
- `tests/` runs the library on concrete values.

Parsing JSON text is left to `serde_json`; decoding UTF-8 and reading the clock are
left to the standard library. Each of these calls stands behind a function whose doc
comment says what is taken for granted of it.
