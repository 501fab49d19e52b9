# migration_sim

Tools for simulating and checking Soroban contract upgrades: reading a compiled
contract's interface, inferring its storage layout, comparing two interfaces or
two storage layouts, and comparing contract states captured before and after a
migration. The library in `src/` is written in Verus. Its own functions carry
contracts and are proved against them; the calls into outside crates
(`wasmparser`, `stellar-xdr`, `sha2`, `hex`, and std's `Debug` text of a
string) go through small wrappers marked
`#[verifier::external_body]`, whose contracts are trusted rather than proved
and whose doc comments say what each claims of the crate it calls.

## Layout

- `src/value.rs`, `src/order.rs`, `src/entry.rs` — state values, their total
  order, and storage entries.
- `src/state.rs` — contract states: duplicate detection and canonical order.
- `src/diff.rs`, `src/nested.rs` — state diffs and the nested changes inside a
  modified value; `src/laws.rs` and `src/nested_laws.rs` hold the properties
  proved of them.
- `src/analysis.rs` — functions, types and metadata of a contract interface.
- `src/analyzer.rs`, `src/contract_spec.rs` — reading the `contractspecv0`,
  `contractmetav0` and `contractenvmetav0` custom sections of a WebAssembly
  module (`wasmparser` lists the sections, `stellar-xdr` decodes entries).
- `src/storage.rs` — storage layout inferred from accessor functions and the
  field-level changes of stored value types.
- `src/wasm_diff.rs` — functions and types added, removed or changed between
  two interfaces; `src/interface_laws.rs` holds the properties of both
  comparisons.
- `src/migration.rs`, `src/ledger_values.rs` — the decisions of a migration
  run and the conversion of ledger values back into state values.
- `src/seeding.rs` — the stored form of state values and the storage keys
  under which seeded entries are written.
- `src/debug_text.rs` — the debug text of state values, used in error
  messages.
- `src/digest.rs` — state fingerprints (SHA-256 in hexadecimal).
- `src/text.rs` — character-level text operations.
- `app/` — JSON and file forms (serde), error display, and the migration run
  inside a Soroban host environment.
- `tests/` — tests of the library.
