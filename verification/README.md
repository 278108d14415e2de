# codecrafters-redis

A small Redis server whose core is verified with Verus.

- `src/resp_value.rs`: RESP values, their model, the encoder (`Value::serialize`).
- `src/resp_parser.rs`: the RESP grammar over a byte buffer; each parser answers
  a value and the bytes it took, a need for more bytes, or an error.
- `src/decimal.rs`, `src/text.rs`: decimal numbers and UTF-8 text.
- `src/lib.rs`: the store (`Storage`, `StorageEntry`) with expiry times.
- `src/resp_handler.rs`: PING, ECHO, GET, SET (PX/EX), RPUSH, LRANGE.
- `src/roundtrip.rs`, `src/streaming.rs`, `src/command_laws.rs`: proved laws
  (reading back what was written, reading from a stream, what commands do to
  the store).
- `app/main.rs`: the TCP server (tokio), which reads bytes until the parser
  has a whole request, answers it, and writes the reply.
