# Rinse

A Soulseek client and music library server whose rules are proved with Verus.

- `src/` is the library. Every function in it is verified against its contract; calls into
  outside crates stand behind small trusted functions that say what is claimed of them.
  - `wire` — buffers, strings and frames, and their round trips.
  - `text` — searching, trimming, splitting and numbers in text.
  - `protocol` — messages, obfuscation, handshakes and transfers between peers, the routing
    of server messages, searches, downloads and the choice of the best file.
  - `api` — what the HTTP interface accepts, refuses and answers.
  - `db` — statements on several rows, stored sources and the limit on lookups.
  - `models`, `settings` — records and their text forms, and settings with defaults.
- `tests/` runs the library.
- `app/` is the program around it: sockets, files, the database and the HTTP server. It
  performs what the library decides and hands back what came of it. The index of shared
  files, the upload queue, mail, metadata lookup, music services and the message store are
  interfaces there (`app/services.rs`), provided from outside.

Properties of the library as a whole are public proof functions whose names begin with
`law_`.
