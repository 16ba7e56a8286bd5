# otd_core

The rules of Open Tower Defense, a maze tower defense game, as a verified library.

`src/` holds what the match decides with whole numbers, each function with a contract
that Verus proves:

- `grid`, `maps`, `mapdoc` — the battlefield, the ten built-in theaters, and map
  documents with their validation (size, overlap, every spawn can walk to a relay).
- `openings` — the proof that every built-in theater, and so every mission and
  challenge, opens with each spawn able to walk to a relay.
- `path` — the flow field: breadth-first distances to the nearest relay and the step
  inward from every cell; the walks traced from spawn groups.
- `clusters` — groups of edge-touching cells (relays, spawn groups).
- `placement` — the maze rule: a structure or a move stands only if every spawn still
  reaches a relay and no walking creep is trapped; the checks that come before it.
- `director`, `sim`, `rng` — wave plans, the seeded generator, mustering a wave at the
  spawns, interest, and the purse: repairs, upgrades, conversions and overcharges.
- `hand`, `lookup`, `orders`, `snapshot`, `defs`, `modifiers`, `campaign`, `pack` — the
  commander's hand, reading typed names and seeds, recorded orders and the replay
  fingerprint, map and wave cards, the roster, match modifiers, the campaign, and the
  pack rules (which patches a loadout pack may make, which buildables stay enabled)
  with the loadout fingerprint.

`app/` is the program around it: the headless bench (`main.rs`), the floating-point
simulation (`game.rs`, `stats.rs`, `geom.rs`, `pack.rs`, `snapshot.rs`), JSON documents
(`docs.rs`, `serial.rs`), and the browser façade (`wasm.rs`, built for `wasm32` only).

`tests/` runs the library on concrete values.
