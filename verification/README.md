# history_notes

History and note tools for one thread of a coding agent: list, search and read the thread's own records,
keep notes beside them, and answer within fixed bounds.

- `src/` is the library. Every item is verified with Verus: what each tool call asks for, what it answers,
  how a scan of the records goes on from one record to the next, how a note is written, and when a thread
  may use the local backend.
- `app/` is the host's side: files, the thread's records and the remote backend. It performs what the
  library asks for and hands back what came of it.
- `tests/` runs the library on values.

`serde_json`, `http`, `toml` and a few functions of `std` are called through small wrappers whose contracts
are taken on trust; each says above it what it claims.
