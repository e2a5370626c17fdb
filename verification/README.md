# rainbow_beacon

A beacon sends a directory tree to a peer that listens for it, encrypted under a
password. The peer writes the tree out, or browses it first and writes out what
is left of it.

- `src/` is the verified library: encryption and chunk identities (`cipher`,
  `digest`), the deduplication report (`measure`), messages and addresses
  (`wire`), and browsing as a state machine over events (`entry`, `browse`,
  `browse_laws`, `screen`).
- `app/` is the program: command line, sockets, files, terminal and object store.
  It also needs `object-rainbow-bridge`, `object-rainbow-cdc`,
  `object-rainbow-dirtree`, `object-rainbow-encrypted` and `object-rainbow-point`.
  `Cargo.toml` leaves these five out: their releases that work together ask for
  Rust 1.96 and a later `object-rainbow`, and the library is built without either.
  Until they are added, `app/` does not compile.
- `tests/` runs the library on concrete values.

The library trusts four outside calls: `sha2::Sha256::digest`,
`object_rainbow::ToOutput::data_hash`, and `Aead::encrypt` and `Aead::decrypt` of
`chacha20poly1305::ChaCha20Poly1305`. What is claimed of each stands above its
wrapper.
