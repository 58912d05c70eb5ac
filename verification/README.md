# riftline

The verified core of a small Kafka-style messaging broker, written in Verus.

- `src/` is the library, verified by Verus:
  - `segment.rs`: framing messages into a segment (each followed by a newline)
    and splitting a segment back into its records, with the round-trip laws;
  - `text.rs`: decimal text of integers and the keys of segments;
  - `broker.rs`: what the producer writes and what a consumer is sent;
  - `offsets.rs`: the committed offsets of consumer groups, with their laws;
  - `object_store.rs`: where the local file system store keeps an object
    (paths as the bytes of a Unix path);
  - `wire.rs`: the requests and responses of the three services.
- `app/` is the gRPC server around it (tonic, tokio, clap, tracing): the
  protocol's messages and services, file I/O, channels and `main`.
- `tests/` runs the library on concrete values.
