# ethos_protocol

The logic of the Ethos Protocol backend and Soroban contracts, written in
Verus and verified against its contracts.

- `src/` — the verified library:
  - `webauthn` — WebAuthn registration and authentication ceremonies,
    backup authenticators, signature-counter clone detection;
  - `feature_flags` — versioned flags with deterministic percentage rollout;
  - `degradation` — capability levels, negotiation and fallbacks;
  - `event_sourcing` — append-only per-vault event log, snapshots, replay;
  - `error` — HTTP error bodies and the mapping of application errors;
  - `cors` — allowed origins from a comma-separated setting;
  - `compression` — delta / run-length compression of SBT metadata;
  - `sbt` — soulbound-token registry: minting, identity links, holder
    cache, schema migration, rate-limited recovery;
  - `zk_verifier` — oracle-attested proof verification;
  - `slice_performance` — per-slice attestor metrics and performance-based
    weights;
  - `template_inheritance` — acyclic template inheritance with cached
    resolution;
  - supporting modules: `clock`, `text`, `json`, `strmap`, `keymap`,
    `digest`.
- `tests/` — tests run against the compiled library.
- `app/` — the HTTP server (axum) and the Soroban host adapters around the
  library.

Calls into outside crates (base64, serde_json, rand, chrono, rusqlite,
soroban-sdk, http) sit behind small trusted functions whose contracts are
documented where they are declared.
