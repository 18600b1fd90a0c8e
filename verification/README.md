# archastro

The logic of the ArchAstro Rust SDK as a verified library: request building and
response handling, app-user sessions with single-flight token refresh,
Server-Sent Events, and a Phoenix v2 channel socket that reconnects, rejoins,
checks heartbeats and buffers pushes.

- `src/` is the library. Every function states what it returns or changes, and
  Verus proves it. Nothing in it opens a connection, sleeps or spawns: the
  socket and the exchanges are state machines that are told what happened and
  say what to do next. Calls into `serde_json`, `url`, `reqwest` and
  `serde_urlencoded` stand behind small functions whose contracts are trusted;
  each says in its doc comment what it claims of the outside function.
- `tests/` runs the library with the real outside crates.
- `app/` is the asynchronous SDK around it: Tokio tasks, timers, sockets, HTTP
  exchanges and session storage.

Functions whose names begin with `law_` state what holds over several
operations, for example that refused requests share one refresh, that a
timed-out request leaves nothing behind, that a join hands each push that waits
for it out once, or that frames of an earlier join change nothing.
