# ait_core

The verified core of the content Binary DB: fixed-size record codecs,
identifier formatting, the capture, upgrade, validation and activation rules
for Binary DB generations, the read surface's checks on decoded records, and
the JSON normalizers of the change and runtime-configuration surfaces.

Every function in `src/` is checked by Verus against its `requires` and
`ensures`. The outside crates are reached through a few trusted items:
SHA-256 digests through `sha2` (`src/digest.rs`), JSON string literals
through `serde_json` (`src/generation/tree_identity.rs`), and a handful of
std functions whose behaviour vstd does not describe.

## Layout

- `src/schema/` — record layouts, their codecs and the snapshot payload.
- `src/ids.rs`, `src/text.rs`, `src/json.rs` — identifiers, text and JSON values
  as plain data with mathematical views.
- `src/generation/` — generation capture (tree locator canonicalization,
  inventories, batches, tree identity), record widening and upgrade plans,
  content-closure and identity-index validation, manifest verification, and
  the activation decisions together with the activation state machine.
- `src/surface.rs`, `src/tree_payload.rs`, `src/read.rs` — what the read
  surface decides from records it has read: accepted layouts, views, tree
  payload normal form, snapshot roots.
- `src/change_json.rs`, `src/change_store.rs`, `src/config_runtime.rs` — change
  payload normalization and the runtime configuration normalizers.
- `app/` — file-system and serialization edges: directory listings, file
  reads and hashing, serde forms of the reports, and the loop that carries
  out an activation step by step.
- `tests/` — tests of the library through its public interface.
