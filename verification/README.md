# Restore Rehearsal Card

`rrc` proves that a backup restores into a usable service: it starts a declared,
disposable Docker Compose target, copies artifacts into it, runs typed restore
steps and checks, tears the target down, and writes an Ed25519-signed Markdown
card that records checksums, counts, timings and states, never command output.

## Layout

- `src/` is the library, verified with Verus:
  - `config.rs`: the manifest, its validation rules and the starter manifest;
  - `isolation.rs` and `json.rs`: the rules a resolved Compose model must meet,
    and the parse of the model Docker prints;
  - `yaml.rs`: the parsed Compose file and the lookups its check reads;
  - `runner.rs`: the Docker commands of each step and check, and what their
    outcomes mean;
  - `rehearsal.rs`: the order of a rehearsal, what it records, and its card;
  - `report.rs`: the card's Markdown, key files, signing and verification;
  - `crypto.rs`, `paths.rs`, `text.rs`: the calls into the Base64, Ed25519,
    SHA-256, randomness and time crates and into `std`, and text helpers.
- `app/` is the command-line program: argument parsing, reading and writing
  files, running Docker with timeouts, and the clock.
- `tests/` exercises the library on concrete inputs.
