# up_uds_transport

Length-prefixed framing of uProtocol `UMessage`s over Unix stream sockets, and
the listener registry of a socket transport, verified with Verus.

- `src/frame.rs` — the wire format (4-byte big-endian length, then the
  protobuf-encoded message), splitting and building frames, and the
  serialize/deserialize pair around protobuf.
- `src/uri.rs` — URIs as plain values, filter-pattern matching and the filter
  criteria, through up-rust.
- `src/transport.rs` — registration and unregistration of listeners, the
  choice of listeners a message is dispatched to, and the sending client.
- `src/can_frame.rs` — the 8-byte battery CAN payload.
- `app/` — the socket I/O, the async `UTransport` implementations, the
  telemetry server and the publishers.
