# seedpass

A verified library for Seedpass, a local password tool that derives reproducible
credentials from an encrypted root seed and public recipe files, and the
`seedpass` command line around it.

- `src/` is the library, written in Verus and verified:
  - `model`, `profile`, `validate`: recipe, directory and profile files, their
    lifecycle table, and every validation finding they produce.
  - `codec`, `yaml`: canonical recipe bytes and the strict YAML duplicate-key
    preflight.
  - `crypto`: seed envelopes (Argon2id + AES-256-GCM), fingerprints, rewrap.
  - `derive`: recipe hash, credential key, byte stream and password generation.
  - `lifecycle`, `accounts`, `commands`, `maintenance`, `storage`: the decisions
    of the command-line flows (adding, rotating, confirming, renaming, deriving
    after the fingerprint check, backups, doctor warnings, validation reports).
  - `laws`: properties that span functions, proved over the specifications.
  - `primitives`: the calls into the cryptographic, encoding and time crates,
    each with the contract that the rest of the library relies on.
- `tests/` runs the library on concrete values.
- `app/` is the command line: argument parsing, prompts, files, serde formats.
