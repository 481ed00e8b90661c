# qmux_endpoint

An HTTP client and an HTTP server over QMux (QUIC streams and datagrams over
TLS on TCP), for HTTP/0.9 (`hq-qmux`) and HTTP/3 (`h3-qmux`).

- `src/` is the library. It does no I/O and is verified with Verus: what
  requests and responses are made of, which file a path names, how bodies are
  written one after the other under flow control, what to do with the events
  of a connection and which step is due next.
- `app/` holds the two programs, `qmux-client` and `qmux-server`: sockets, TLS,
  files and the calls into quiche. They ask the library what to do, do it and
  report how it went.
- `tests/` runs the library on concrete values.
