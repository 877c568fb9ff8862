# life_tui

Conway's Game of Life in the terminal: an edit phase to place cells, a run
phase to watch them evolve on a toroidal grid, and patterns saved and loaded
as RLE documents.

The library under `src/` is written in Verus. Every function in it is
verified against its contract but one: `text::string_from_chars`, which
collects characters into a `String` through std and whose contract (the
string holds the characters given, in order) is trusted.

- `grid` — the toroidal grid, its B3/S23 step with birth and death counts,
  resizing, and the laws that hold of them (a step commutes with a shift
  around the torus, the population balances births and deaths, ...).
- `rle` — reading and writing RLE documents; `roundtrip` proves that what
  is written reads back as the grid's live cells, and `rle_laws` that a
  document ends at its `!` and that an encoding depends only on the shape
  of the live cells.
- `app` — the state of the program: cursor, phases, help, pause, speed,
  generation count, the key bindings, mouse painting and the tick timing.
- `patterns` — the built-in pattern library.
- `ui` — what the terminal shows of a grid, as half-block characters.
- `text` — decimal numerals, white space and string conversion.

`app/` holds the terminal program around the library: terminal setup, the
event loop, drawing with ratatui, and saving and loading files.
