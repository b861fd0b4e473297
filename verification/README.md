# lucy_tetris_rs

A Tetris engine with a two-ply placement search, verified with Verus.

- `src/pieces.rs`: the seven tetrominoes and their quarter turns (the I piece turns in
  its 4x4 box, the O piece does not turn, the others turn in their top-left 3x3 box).
- `src/grid.rs`: the board model and its laws (collision, locking, line clearing).
- `src/simulator.rs`: a scratch board for trying placements.
- `src/draw.rs`: the seeded piece generator (`rand`'s `StdRng`), counting its draws.
- `src/board.rs`: the game engine: spawning, moving, turning, pausing, hard drops,
  locking, scoring and levels.
- `src/ai.rs`: the Dellacherie evaluation (exact, in hundredths), the placement
  generator, the two-ply search (the second ply runs on `rayon`) and the autopilot
  step toward a chosen placement, and the landing preview of the falling piece.
- `src/menu.rs`: the start menu's transitions (highlight, board size, AI mode, start).
- `app/`: the macroquad window and the headless benchmark (`--headless`).
