# devices_manager

Sharing files between the devices of a local network: devices find each other by
broadcast, trust each other's certificates on first use, publish an index of their
shared folders, and send single files.

- `src/` is the library: every rule, format and state machine, with contracts that
  Verus proves. It reads no file and opens no socket.
- `tests/` runs the library on concrete values.
- `app/` holds the programs: file and network I/O, the TLS verifiers' trait impls, JSON
  for the library's types, and what is computed in floating point.

| module | what it holds |
| --- | --- |
| `text`, `wire`, `paths`, `digest`, `error` | text, byte formats, paths as text, digests, errors |
| `index`, `sort`, `explore`, `tally` | what is listed under which id, in which order, and why nothing is missing or counted wrong |
| `transfer` | sending and receiving one file |
| `peers`, `trust`, `identity`, `config` | trusted devices, verdicts on certificates, the device's own name and certificate, settings |
| `discovery`, `server`, `gui` | broadcasts, the server's decisions, the state behind the interface |
| `vault`, `android`, `gather` | the encrypted index, the console program for phones, and why its index is complete |
| `console`, `probe` | typed answers, and the test transfer |
