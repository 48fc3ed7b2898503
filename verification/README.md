# vibeio_http

A verified HTTP/3 (RFC 9114) server core, written in Verus.

The library does no I/O. It holds the protocol: QUIC variable-length integers
and frames, SETTINGS, QPACK field compression (RFC 9204) with its dynamic table
and blocked streams, the control plane of a connection, the state machine of a
request stream, the rules for request and trailer sections, and the decisions of
a connection's request handler. A driver performs the reads and writes that the
state machines ask for and hands back what came of them.

## Layout

| Path | What it holds |
| --- | --- |
| `src/octets.rs` | the buffers of the `bytes` crate and the octets they stand for |
| `src/hpack/` | prefixed integers, the Huffman code, string literals |
| `src/h3/frame.rs`, `settings.rs`, `error.rs` | the wire format and the error codes |
| `src/h3/qpack/` | static and dynamic table, encoder, decoder; what holds of them together is in `laws.rs`, and over a whole connection in `history.rs` |
| `src/h3/codecs.rs` | the QPACK state that a connection's streams share |
| `src/h3/control.rs` | the control plane: control and QPACK streams |
| `src/h3/message.rs`, `stream.rs`, `reading.rs` | requests as field sections; the request stream; what it reads over its whole life |
| `src/h3/handler.rs`, `upgrade.rs`, `transport.rs`, `options.rs` | handler decisions, upgraded streams, the transport boundary, options |
| `src/h3_legacy/` | options for serving through the `h3` crate |
| `app/` | drivers: the async server, the control and request-stream drivers, the quinn adapter |
| `tests/` | tests of the library |

## How contracts are stated

Every stateful type has a view: a structure of sequences, maps and numbers. An
operation is a function on that view, and the executable method ensures that the
new view and the result are what that function gives. Properties that span
operations (what a decoder makes of what an encoder wrote, what a stream may
carry after its trailers, that chunk boundaries do not matter) are public proof
functions beside the functions they speak of.

The calls into `bytes`, `http`, `rustc-hash` and the standard library that are
taken on trust each carry a comment that says what is claimed of them.
