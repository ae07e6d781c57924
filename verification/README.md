# maze_game

A top-down maze game: each stage is a freshly generated perfect maze, the player starts in
the middle with a map they may study for ten seconds, and has to find the exit on the
border. Hint items open the whole map for a moment; cleared stages are saved locally and can
be replayed.

## Layout

- `src/` — the verified library (Verus).
  - `maze/` — wall-bit grids and their abstract model (`grid`), carving (`carve`), the two
    generators (`generate`: recursive backtracking, `generate_prim`: randomized Prim),
    breadth-first distances and reachability (`solvability`), start and exit placement
    (`layout`), and passage counting (`passages`).
  - `game/` — the rules: stage sizes and hints (`stage`), the story phases (`story`), the
    startup menus (`startup`, `menu`), the in-game session with its quit prompts, debug
    password and win menu (`session`), when music and story sounds play (`sound`), grid
    movement (`player`), nickname and map-name input (`text`),
    the save log's listings, continue lookup and leaderboard (`progress`,
    `account_management`), and the visibility lookup (`world_render`).
  - `random.rs` — the pseudo-random source (macroquad's generator).
- `app/` — the Macroquad program around the library: window, drawing, sounds, timers, and
  the JSON Lines save file.
- `tests/` — tests of the library.
