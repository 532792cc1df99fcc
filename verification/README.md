# chat_server

A chat server and its test client. The library (`src/`) is verified with Verus;
the program around it (`app/`) does the socket, thread, signal and log-file work.

## Library

- `protocol`: the `Message` type, its log form, the fixed-size frames a message
  is sent in (`encode_message`) and the reading of a received frame
  (`decode_message`), with the law that a delivered frame decodes to the message
  it was built from.
- `pattern`, `parse`: reading a message from client text with the `regex`
  crate, and the law that a message's log form reads back as its kind.
- `roster`: which connections receive a chat line (`blast_out`), which stay
  (`remove_connection`, `remove_dead_connections`), and whether a requested
  nickname is granted (`get_nickname`, `getNickname`), with the law that
  granted nicknames stay distinct.
- `session`: one step of a client's chat session, the client's reading of a
  typed line, and the form of a log line.
- `text`: UTF-8 decoding and whitespace trimming, stated over character
  sequences.

## Program

`app/main.rs` runs the server (`chat_server [port]`) or the test client
(`chat_server client ip:port`). Frames go through the course's C library
`libcs` (`app/ffi.rs`), which must be linked in as a static library.
