# vole_arc

Scoped anonymous rate-limited credentials (VOLE-ARC), with the protocol
logic verified in Verus. One credential supports a bounded number of
unlinkable presentations in each relying-party, purpose, or epoch context.

This is unaudited research cryptography. Do not use it to protect
production traffic, accounts, money, or scarce resources.

## Layout

- `src/` — the verified library.
  - `keccak.rs`: Keccak-f[1600] and SHAKE256, proved equal to their
    definition round by round.
  - `digest.rs`, `context.rs`: length-framed SHAKE256 digests (computed by
    `sha3`) and the credential, presentation, and binding contexts.
  - `circuit.rs`: scopes, commitments, tags, and the witnesses of the
    issuance and presentation relations, including the Keccak checkpoints
    and the carry chain that proves `nonce < limit`.
  - `counters.rs`: the per-context presentation counters, kept in ascending
    context order.
  - `protocol.rs`: issuance, presentation, verification, and the canonical
    encodings of every artifact, with their round-trip laws (over the
    decoded fields: parsing a MAYO key and re-deriving the issuer context
    from it happen in `app/`) and the rate-limit law.
  - `wire.rs`, `store.rs`, `markers.rs`, `secret.rs`: envelopes and
    decoders, tag stores (with the law that a memory store counts distinct
    accepted pairs), errors and parameter sets, and buffer wiping.
- `app/` — MAYO, the VOLE-in-the-head prover and verifier with their
  circuit builders, randomness, and error display, wired to the library.
- `tests/` — tests of the library.

MAYO and the proof system enter the library as closures: a function such
as `Credential::present` states exactly which circuit, statement, and
witness it hands to the prover, and what it returns and keeps for every
answer.
