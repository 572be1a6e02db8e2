# minecraft_packet

Minecraft protocol packets with contracts checked by Verus.

- `src/chat.rs`: chat messages and their JSON form.
- `src/varint.rs`: varints as the server reads them (`try_read_varint`) and as
  `integer_encoding` writes them.
- `src/packet.rs`: clientbound packets, their bytes and their framing.
- `src/parse.rs`, `src/reader.rs`: serverbound packets, read from the bytes a stream has
  delivered so far; a read that runs past them answers `NeedMore` and consumes nothing.
- `src/external.rs`: the calls into `integer_encoding`, `byteorder` and std, with the
  contracts the proofs rely on.
- `app/`: the server program (sockets, threads, output) around the library.
