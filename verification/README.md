# h3_frame

The framing layer of HTTP/3, verified with Verus: frames are decoded out of the
chunks that a QUIC stream hands over, whatever the chunks are, under a limit on
what may be buffered.

- `src/frame.rs`: `FrameDecoder`, which cuts frames off a buffer, and
  `FrameStream`, which reads a transport, returns frames and hands on the
  payloads of DATA frames and WebTransport streams.
- `src/stream.rs`, `src/buf.rs`: a transport with what was received on it, a
  queue of chunks and a cursor through it.
- `src/proto/`: the layout of frames and settings.
- `src/varint.rs`: the variable-length integers of QUIC.
- `src/quic.rs`: what is asked of a transport.
- `src/laws.rs`, `src/proto/laws.rs`: what holds across functions: what was
  written is received as it was written in any chunks, nothing is read while a
  frame is at hand, little is buffered while one is awaited, a payload is handed
  on whole and in order.
- `src/chunk.rs`: what is taken for granted of the `bytes` crate.
- `tests/`: tests, with transports that answer as they are told.
- `app/`: adapters for transports with chunks and errors of their own.
