# starlume

The machine-local core of Starlume, a Star Citizen companion, written in
Verus: every function in `src/` carries a `requires`/`ensures` contract
that Verus proves.

## Layout

- `src/` — the verified library.
  - `merge.rs`, `compose.rs`: INI decoding and encoding, the patch, rename,
    language-pack and user-override stages, and `user.cfg` upkeep.
  - `ops.rs`, `derive.rs`, `state.rs`, `reconcile.rs`: patch operations,
    the per-build op-set cache, patch-state records and the per-install
    reconciliation decisions.
  - `toml_patcher.rs`, `patchers/`: the declarative patcher (glob keys,
    captures, templates) and the built-in code patchers (component
    grades, illegal goods, weapons, label fixes, mission title tags and
    the mission description's per-variant lines).
  - `watch.rs`, `catalog.rs`, `cooked.rs`, `queries.rs`, `views.rs`: install
    discovery data, the settle logic of the install watcher, and the
    game-data queries and page views.
  - `profile.rs`, `accounts.rs`, `server.rs`, `shell.rs`: the RSI profile
    parser, recognized accounts, server-side rules (including the
    sign-in flow's expiring pending entries, `server/pending.rs`) and
    shell state.
  - `text.rs`, `strmap.rs`, `sorting.rs`, `hashing.rs`: string, map, sort
    and hash building blocks.
- `tests/` — executable tests of the library.
- `app/` — a thin command-line shell: file I/O, JSON and TOML reading,
  float-based stat formatting, and the reconcile loop.

`src/lib.rs` is the crate root. Laws that relate several functions are
public proof functions named `lemma_*` next to the functions they speak of.

## Not included

- Cooking the mission catalog from the game files: it reads the game's
  DataCore through the `sc_holotable` crate, which is not available to
  this build. The library works on already-cooked data (`cooked.rs`).
- The mission enhancer's `derive` (assembling a pool's description from
  its blocks). The blocks themselves — title tags, the Mission Info,
  blueprint and encounter blocks, and the lines that tell a pool's
  variants apart — are in `patchers/missions.rs`; the enhancer is not
  among the registered patchers.
- Durations and weapon stats that are computed in floating point are
  formatted in `app/`.
