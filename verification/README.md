# megabasterd_core

The core of a MEGA downloader, verified with Verus: link detection, MEGA key
derivation and AES/RSA operations, the login and metadata decoding of the
MEGA API, the chunk arithmetic of parallel downloads, the decisions of chunk
workers and of the writer that assembles chunks, progress and speed
accounting, bandwidth pacing, the smart proxy pool, the download queue and
the settings store format.

Layout:

- `src/` — the verified library. Each public function states its result in
  its `ensures`; public `lemma_*` proof functions state the laws that relate
  several operations (queue moves are permutations and undo each other,
  settings survive a store/load round trip, rejected chunks are dispensed
  again first, the writer stays on chunk boundaries, and so on). Calls into
  the `aes`/`cbc`/`ecb`/`ctr`, `pbkdf2`, `sha2`, `base64`, `hex`,
  `byteorder`, `num-bigint`, `rand`, `regex`, `url`, `serde_json` and
  `uuid` crates go through small trusted wrappers whose contracts say what
  those crates document.
- `tests/` — tests of the library on concrete values.
- `app/` — the runtime around the library: HTTP requests, SQLite, files,
  timers, the async tasks of the download engine, and the operations the
  front end invokes.
