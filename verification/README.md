# blit_server

The decision-making parts of a terminal and desktop streaming server, written in
Verus: the functions of `src/` carry contracts, and Verus proves them.

What the library decides:

- `channel` pairs clients that talk to each other through the server, hands out
  connection tokens and keeps each direction within its window.
- `kv` stores small records, compares and sets them by hash, and keeps
  subscribers up to date within the window that they acknowledge.
- `events` numbers, filters and keeps the server's own events, and writes them
  out record by record.
- `extension` runs user extensions: requests and uploads, supervision, restarts
  and back-off, output and its replay, and what is undone when one ends.
- `catalog` and `extension_catalog` hold the definitions that survive a restart.
- `extension_jobs` bounds the background work of extensions.
- `audio`, `audio_encoder` and `audio_pw` frame captured sound and pass it to
  subscribers.
- `app_env`, `desktop_bus`, `gpu_libs`, `ipc_unix` and `ipc_windows` hold the
  rules for the processes, libraries and sockets around the server.

The functions named `law_…` are public proofs of what holds across several
calls: that tokens are unique, that output is read back in order, that a request
is answered once, and the like.

`app/` is ordinary Rust around the library: files, sockets, processes, the
database, the script engine's run loop. It performs what the library decides and
hands back what came of it. `tests/` runs the library on concrete values.
