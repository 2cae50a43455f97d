# mario_minesweeper

Minesweeper with a verified game core.

- `src/` is the library, checked by Verus:
  - `cell.rs`: cell states and contents, game status.
  - `board.rs`: the mathematical model of a grid (`Board`) and the rules as
    spec functions: opening a cell (`uncover`, with chording and the flood of
    empty cells), losing, the win check, flagging, laying the mines.
  - `grid.rs`: the executable grid, each operation proved equal to its rule.
  - `rng.rs`: the two calls into `rand`.
  - `laws.rs`: properties of the game as a whole (first-click safety, the
    number of mines laid, numbers, flags, chording, flood fill, winning and
    losing); `cascade.rs`, `layout.rs` and `lemmas.rs` hold their lemmas.
  - `session.rs`: the window's game state (difficulty, clock, status line,
    counters and what each cell looks like).
- `app/` is the `eframe` window that draws the board and feeds clicks to the
  library.
- `tests/` runs the library on concrete boards.
