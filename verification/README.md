# api_ws_demo

A test server for client developers: a REST API in a uniform
`{code, data, message}` envelope, a raw echo WebSocket, and STOMP 1.2 over
WebSocket with heartbeats, ACK/NACK, per-prefix authorization, delayed
pushes and five static pre-encoded topics.

- `src/` is the verified library (Verus): STOMP frames, the broker, each
  connection's decisions (`stomp::connection::Session`), JWT access tokens,
  password hashing, refresh-token rotation, users, the mock endpoint, the
  CPU breaker's and the stats endpoint's parsing of Linux pseudo-files.
- `app/` is the server around it: axum routes, the WebSocket loops, timers,
  file and system reads, JSON (de)serialization, and the floating-point CPU
  sampling.
- `tests/` runs the library on concrete values.
