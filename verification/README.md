# massa

Verified models of the Massa node: compact binary forms of slots, endorsement
contents and endorsements; variable-length integers; block, endorsement and
node identifiers; secp256k1 keys and signatures held as bytes; the block
storage; and the decision a network controller takes while waiting for a
command.

- `src/` is the library, verified with Verus. Hashing (SHA-256), Base58Check
  and secp256k1 are called through a few trusted wrappers whose results are
  named by spec functions (`spec_sha256`, `spec_bs58_check_encode`,
  `spec_bs58_check_decode`, `spec_is_public_key`, `spec_is_signature`,
  `spec_signature_verifies`).
- `app/` holds what the library cannot: the storage shared behind a lock, the
  mock network controller on tokio channels, serde forms of the models, the
  tracing macro and the network addresses.
- `tests/` exercises the library on concrete values.

Two outside dependencies stand in for what the Massa node took from crates
that are not available here:

- Massa's own `crypto` crate is replaced by the crates it is built on:
  `bitcoin_hashes` (SHA-256), `bs58` (Base58Check) and `secp256k1`, called
  through the trusted wrappers in `src/hash.rs` and `src/signature.rs`.
- The concurrent `flurry` map of the block storage is replaced by the
  verified `Storage` in `src/storage.rs`. flurry changes its contents through
  shared references, which a Verus contract over `&self` cannot describe;
  the sharing between components is restored in `app/shared_storage.rs`
  with a lock around the storage and a lock around each stored block.
