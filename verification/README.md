# atomos_core

The request-serving and operator logic of the ATOMOS HTTP server as a
Verus-verified library.

- `src/` — the library, its functions' contracts proved by Verus (but for
  a few trusted wrappers around std, `httparse` and `hashbrown`):
  HTTP/1.1 framing (`net::parse`, `net::h1`, `net::frame`), response
  encoding and chunked bodies (`net::encode`), path rules (two rules that can
  answer one request are refused at load) with a
  linear scan and a path automaton (`rules`), the integer admission
  scheduler (`sched`), the per-worker response cache with its shared
  generations (`cache`), static-file ranges and the open-file table
  (`static_files`, `fd_cache`), the Landlock plan (`jail`), the key-daemon
  frames (`keyproto`), JSON documents edited by pointer (`json`), the
  seccomp filter builder (`seccomp`), the operator console's parsers
  (`ctl`, `atom`), configuration checks (`config`), and small text and
  number helpers.
- `tests/` — tests run against the compiled library.
- `app/` — the I/O around it: JSON decoding into the library's types,
  `/proc` and `/sys` reads, the control-line loops, the access-log
  thread, the seccomp and Landlock installers, the static file module,
  the per-thread cache maps, the control socket, and a blocking HTTP/1.1
  socket loop.
