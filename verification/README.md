# varta

An encrypted vault for high-sensitivity secrets (passwords, tokens), with a
signed, hash-chained audit log of every change. The library is written in
Verus: its formats and logic carry contracts that are proved.

## Layout

- `src/` — the verified library.
  - `storage/` — the storage engine. `components/` holds the file header,
    the block header, encrypted blocks and the block index; `file.rs` keeps an
    exact in-memory image of a file together with the effects (`FileOp`) that
    take the file on disk to that image; `storage.rs` is a storage file
    (header, index block, blocks); `obs.rs` stores objects, `ops.rs` the
    audit log.
  - `vault_object.rs`, `operation.rs`, `clock.rs`, `record.rs` — the object
    and operation records, their digests, vector clocks, and the record
    layout they share.
  - `vault.rs`, `agent.rs`, `session.rs`, `device.rs` — vaults, agents with
    their sealed master keys, the session, and the device key that signs
    operations.
  - `crypto/` — symmetric encryption, signatures, and the calls into the
    cryptography crates (each a trusted item with its contract stated).
  - `cli/` — the shell's command language and prompt.
- `app/` — the program around the library: the shell loop, the file system
  (carrying out the `FileOp`s the library hands out, reading files for it),
  and the platform keychain that holds the device key.
- `tests/` — tests run against the compiled library.

The library never touches the disk: operations change the in-memory image
of a file and queue the effects that bring the file on disk to it. Applying
the queued effects in order to the file as it was last synchronised yields
exactly the image; this is stated and proved (`Storage::take_pending`).
