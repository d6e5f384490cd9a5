# adb-client

The protocol core of a client for the Android Debug Bridge (ADB), written and proved in Verus, and
an asynchronous client around it.

- `src/` is the verified library. It reads and writes no stream: it turns requests into frames,
  takes responses and shell packets from a buffer of bytes, and says, for every operation of the
  client, which exchange comes next and what the answers come to. `src/laws.rs` states what holds
  of the protocol as a whole.
- `app/` is the client on top of tokio: sockets, codecs and the loop that drives a session.
- `tests/` runs the library on what servers and devices send.
