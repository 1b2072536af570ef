# forgotten_core

The deterministic core of a game-world server: geometry, items and inventories, the immutable
source map, creature spawns, player progression, conditions, combat, parties, trade and the
authoritative world state that ties them together. Every operation of the library is an
executable Rust function with a Verus contract stated over a mathematical model of its data
(`WorldModel`, `WorldMapView`, `ItemView`, ...), and Verus proves each body against it.

Layout:

- `src/` — the verified library. `world.rs` holds the world state and its model; the
  `world/` modules hold its operations by theme (movement, parties, trade, transfers, combat,
  static creatures, ...). `world/static_laws.rs`, and the public `law_*` and `lemma_*` proof
  functions elsewhere, state properties that span several operations.
- `tests/` — executable tests of the library.
- `app/` — the part that works in floating point: the requirement scaling of skill and magic
  advancement. It builds the requirement tables that the library's `*_with` and `*_from`
  progression transitions take, and calls them.
