# ggok

The core of ggok, a web front end for the grok command-line agent, written
in Verus: each function states what it returns in `requires` / `ensures`
clauses, and Verus proves the code meets them.

Layout:

- `src/` — the verified library: configuration, login cookies and rate
  limiting, release and version rules, transcript parsing and compaction,
  session scanning and occupancy, workspace and file-picker rules, skills
  (including uploaded archives), MCP and plugin command lines, the
  prompt queue, and the question cards grok asks through. Calls into outside
  crates (hmac, sha2, hex, subtle, uuid, chrono, base64, percent-encoding,
  mime_guess, oxipng, zip) sit behind small trusted wrappers whose
  contracts say what those crates document.
- `app/` — the program around it: command-line handling, the HTTP server,
  process control and file I/O.
- `tests/` — tests of the library on concrete values.

Laws that relate several functions are public proof functions named
`law_*` (for example in `src/parse.rs` and `src/queue.rs`).
