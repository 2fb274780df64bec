# tcptool

A TCP debugging client for the JT808 vehicle-terminal protocol (2013 and
2019 editions) and for plain TCP.

- `src/` is the verified library:
  - `protocol/codec.rs`: frame escaping, checksums, framing and de-framing;
  - `protocol/types.rs`: protocol versions, message headers, BCD terminal numbers;
  - `protocol/message.rs`: the message bodies, their encoding and parsing;
  - `protocol/builder.rs`: complete frames for the built-in commands;
  - `protocol/text.rs`, `protocol/bytes.rs`: text, hexadecimal and big-endian helpers;
  - `app.rs`: what the client decides: quick commands and their re-framing,
    general responses, received data, typed input, message IDs, export lines;
  - `connection.rs`: connection settings and the step function of a managed
    connection.
- `app/` is the program around it: the egui window, the Tokio task that runs
  a connection, and the SQLite store.
- `tests/` exercises the library.
