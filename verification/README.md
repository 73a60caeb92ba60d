# game

A small top-down survival game whose rules are a verified Verus library.

- `src/` — the library, verified with Verus:
  - `inventory` — items and the weight-limited inventory;
  - `environment` — tiles, what using or attacking them yields, their blocked
    parts (`water`, `cliffs`, `bush`), and the adjacency rules read from JSON
    (`wfc_rules`);
  - `world_gen` — wave-function-collapse generation of the starting world;
  - `chunk`, `chunk_manager`, `sprite_ids` — auto-tiling of chunks of the
    endless world and the bookkeeping of loaded chunks;
  - `player` — the decisions of a frame: steering, acting on the faced tile,
    catching fish;
  - `state` — screens, menus and crafting;
  - `grid_world` — the fixed 20 by 20 world of the first version;
  - `rng` — the random numbers, drawn from macroquad.
- `app/` — the macroquad program: window, input, drawing, the player's
  floating-point position and stats, noise-based chunk generation and the
  threads that run it.
- `tests/` — tests of the library.

The program reads the adjacency rules from `rules.json` in its working directory.
