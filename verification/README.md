# pixelroxy

A small Minecraft proxy: it accepts client connections, reads their handshake, and answers
server-list (status) requests by asking an upstream server.

- `src/` is the verified library (Verus):
  - `libs/varint.rs`: varint encoding and decoding, with the round-trip law;
  - `libs/connect/`: frames and packets (`pack`, package decoding, reading a length from a
    stream byte by byte) and the per-connection state;
  - `libs/zlib.rs`: the compression calls (miniz_oxide), behind trusted wrappers;
  - `server/auth/`: the handshake reader and the decisions of the listening loop and of
    the status exchange;
  - `config.rs`, `server/master.rs`, `lib.rs`: command line, listening address, log colours.
- `app/` is the program around it: sockets, threads, logging.
- `tests/` exercises the library on concrete values.
