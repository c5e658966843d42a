# sealring

Sealed-note envelopes verified with Verus: seal a note to a recipient public
key, open it with the recipient secret key, and trial-decrypt a mixed inbox.
Suite v1 is fixed: HKDF-SHA256 key schedule, ChaCha20-Poly1305 AEAD, a
key-commitment tag checked in constant time before the AEAD runs. Callers
plug in a `Kem` (curve choice) and a `Domain` (note codec and tag).

Layout of `src/`:

- `envelope` — the wire format `version ‖ kem_id ‖ epk ‖ commit ‖ ct`, its
  parser and accessors, specified by `envelope_defect`.
- `error` — parse, seal and open errors and their messages (`text` renders
  the numbers).
- `kem`, `domain`, `recipient` — the plug-in seams and the recipient keypair.
- `crypto` — the trusted wrappers around `hkdf`, `chacha20poly1305`,
  `subtle` and `zeroize`, and the names of their results.
- `seal` — KDF info layout, key derivation, `seal` / `open` and the
  byte-level `seal_with_secret` / `open_with_secret` with exact contracts.
- `scan` — chunked batch trial-decryption.
- `adapters::grumpkin` — the Grumpkin ECDH KEM over arkworks.
- `chain` — chain positions, anchors and the checkpoint ring of restore
  points.
- `mayo` — MAYO-2 parameters and the byte-level witness preparation
  (little-endian word packing, signature unpacking). The verifier circuit
  that consumes the witness, with its wire filling and Keccak gadgets, is
  built on the `binius` proof-system crates and is not part of this crate.

`app/` holds what Verus does not see: the `rand_core` entropy adapter, the
serde and wincode encodings of an envelope, and the rayon-parallel scan,
which joins its tasks' reports with the verified `scan::append_parts`.
