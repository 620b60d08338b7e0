# game_core

The rules of a small sokoban / logistics game prototype, as a verified Verus library, with
the `ggez` front end around it.

- `src/` — the library, checked by Verus:
  - `ecs/` — entities and their manager, sparse-set component stores, and the entity world's
    registry of stores by component type;
  - `engine.rs` — game-wide resources by type;
  - `position.rs` — integer grid cells;
  - `soko/` — the sokoban move rules and level reconciliation;
  - `grid.rs`, `level.rs` — the grid-based sokoban model;
  - `sprites.rs` — sprite sheets built from Aseprite exports, and animation stepping;
  - `logistics.rs` — links between network nodes.
- `app/` — the program: windowing, drawing, input, file loading, the `sparsey` world, the
  typed (`Any`-based) access to stores and resources, and hot reloading.
- `tests/` — tests of the library.
