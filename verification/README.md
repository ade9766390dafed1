# fila_core

The core of the Fila message broker, written in Verus: the parts that decide
and compute are proved against their contracts; the parts that talk to disks,
sockets and the Lua interpreter are plain Rust around them.

Layout:

- `src/` — the verified library.
  - `encoding`, `text` — big- and little-endian integers, byte-string order,
    UTF-8 conversions.
  - `storage/keys`, `storage/bounds` — storage key layout and prefix scans.
  - `storage/ordered`, `storage/in_memory` — ordered byte-keyed maps and the
    in-memory storage engine.
  - `storage/fila` — the write-ahead-log record and segment formats, segment
    naming and rotation, the in-memory indexes rebuilt from the log, and the
    compaction plan of a sealed segment.
  - `fibp` — the binary protocol: frame codec, payload encodings, the
    handshake and access checks, admin request validation, Raft group
    placement, and the decisions of request dispatch.
  - `lua` — circuit breakers and script limits, the decisions around a
    script run, and the meaning of script results and helper calls.
  - `cluster` — storage keys of Raft groups and the timestamps of
    replicated records.
- `tests/` — tests of the library, run against the compiled crate.
- `app/` — the runtime around the library: WAL files on disk and background
  compaction, the `tokio_util` frame codec, serde records, and the Lua VM.
