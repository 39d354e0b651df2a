# Patronus

Encrypted messages and files between the nodes of a local network. Nodes find each other by
broadcast, open a session with an exchange of signed ephemeral keys, and send every message
under a key of its own.

- `src/` is the library, written in Verus: the handshake, the ratchet, the frames, the state
  of a session and of its file transfers, the storage of peers and messages, discovery, and
  the state of the user interface. Its functions are proved against their contracts. The
  public proof functions state what holds beyond single functions, such as that what one
  client sends, the other gets.
- `src/primitives.rs` and `src/json.rs` hold the calls into other crates (with three functions
  of the standard library in `src/text.rs`). What they promise is trusted.
- `app/` is the program around it: sockets, files, threads and the terminal. It reads the
  word lists for identity phrases from `assets/wordlists.json`, or from `wordlists.json` in
  its configuration directory.
- `tests/` runs the library with the real crates.
