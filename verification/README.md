# PulseMQ

PulseMQ is an event streaming platform with its own native wire protocol
(frames start with the magic `PULS`), its own segment-based storage format,
and a Kafka wire-protocol compatibility layer.

The crate is a library verified with Verus, plus the broker program around it.

- `src/buffer.rs`: byte buffers of the `bytes` crate as the library sees them
  (trusted wrappers with contracts) and the big-endian integer layouts.
- `src/native.rs`: native frame header codec, with the proof that decoding
  gives back what encoding wrote.
- `src/protocol.rs`: Kafka compatibility layer: API keys, error codes, and
  the request size and header parsers.
- `src/storage.rs`: record layout, segment file and directory names, segment
  bookkeeping (offsets, log position, sparse index), partition logs and the
  engine's partition registry.
- `src/broker.rs`: the responses the broker sends, the choice of reply for
  each request, and the per-connection state machine that turns bytes read
  into requests (each request delimited by its size prefix).
- `app/`: the broker program: configuration from the environment, sockets,
  files and the clock.
- `tests/`: tests of the library on concrete values.
