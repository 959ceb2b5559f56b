# core_lib

The verified core of OmniSearch, a local semantic search engine that indexes
what you copy, read and import, and keeps it encrypted on disk.

`src/` is checked by Verus:

- `crypto::permutation` — the seeded shuffle of the 384 embedding axes, with
  proofs that it is a permutation and that applying and undoing it are inverse.
- `crypto::keys` — the seed and database key of a master key; permuting vectors.
- `crypto::blob` — sealing data, and the master key, with ChaCha20-Poly1305 under
  a random nonce; unlocking the master key with a key that Argon2 derives from
  the password and the machine's hardware descriptors. Verus proves that the
  input to Argon2 determines both the machine and the password; that key files
  moved to another machine then fail to open rests on Argon2 and
  ChaCha20-Poly1305 themselves and is exercised by the tests, not proved.
- `crypto::primitives` — the calls into `chacha20poly1305`, `argon2`, `base64`
  and `rand`, with the contracts they are trusted to meet.
- `capture` — which clipboard and browser text is indexed, and the per-connection
  decisions of the WebSocket server.
- `search` — the full-text query, the merge of vector and full-text hits, and the
  split of feedback.
- `importer` — which files are imported, how their bytes become text, and the
  overlapping chunks that are embedded.
- `adapter`, `training` — when the adapter trains and when a fine-tune is due.
- `index` — the database key text and the JSON stored for rejected ids.

`app/` holds the programs around it: the importer (`main.rs`), the desktop
window, the index on usearch and SQLite, the MiniLM embedder and the adapter
network, whose floating-point work is not verified.
