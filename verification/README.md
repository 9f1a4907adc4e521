# admin_presence

The verified core of an administrator-presence API for a rendezvous server:
administrators enroll ed25519 keys, log in by signing a single-use,
short-lived, key-bound nonce, and receive a session token that gates the
list of online devices.

- `src/` is the verified library:
  - `keys.rs` — the authorized-key store (fingerprints, add, soft revoke,
    last-use stamps, sorted listing);
  - `auth.rs` — the challenge-response state machine, with its transitions
    stated as `issue_outcome` and `verify_outcome`;
  - `api.rs` — the HTTP API's refusals, session claims, port parsing and
    fail-closed startup plan;
  - `env_file.rs`, `setup.rs` — `.env` editing and the administration
    utility's key-pair validation, token hashing and admin set-up;
  - `string_map.rs`, `hex.rs`, `text.rs` — the supporting data structure and
    string routines;
  - `crypto.rs` — the trusted calls into sodiumoxide, base64, bcrypt and the
    clock;
  - `laws.rs` — properties that hold across calls.
- `tests/` exercises the library with the real outside crates.
- `app/` is the program around it: file and network I/O, the axum server,
  JWT encoding, and the command line.
