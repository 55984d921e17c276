# pask

Producer, reader and verifier of Physical-Site Engagement Receipts
(`wilder.pser/0.4`), a SCITT profile: signed `COSE_Sign1` statements whose
payload is the RFC 8785 (JCS) form of a five-artifact JSON document, COSE
Receipts with RFC 9162 inclusion proofs, and the Transparent Statements that
carry them.

The library in `src/` is verified with Verus. Each public function states in
its contract what it returns for every input; the outside crates it calls
(`coset`/`ciborium`, `serde_json`, `ryu-js`, `sha2`, `ed25519-dalek`, `p256`,
`time`, `fluent-uri`) sit behind small trusted wrappers whose contracts name
or describe their results.

Layout:

- `src/cbor.rs`, `src/json.rs`, `src/text.rs`, `src/digest.rs`,
  `src/crypto.rs`: data models of CBOR and JSON values and the trusted
  wrappers over the outside crates.
- `src/payload.rs`, `src/chain.rs`, `src/cwt.rs`, `src/envelope.rs`: the
  payload schema and its rules, chain checks, CWT claims, and producing and
  verifying signed statements.
- `src/receipt*.rs`, `src/entry.rs`, `src/attach.rs`,
  `src/transparent_statement.rs`: Receipts, inclusion proofs, candidate
  entries, attachment, and layered Transparent Statement verification.
- `src/site.rs`, `src/fixtures.rs`: the reference site producer.
- `src/scrapi.rs`: the decisions of the SCRAPI registration flow.
- `app/`: the command-line tool and the HTTP client of the registration flow.
- `tests/`: tests run against the compiled library.
