# toyterm

The core of a terminal emulator, written in Verus: every function in `src/`
carries a contract that Verus proves.

## Layout

- `src/control_function.rs` — the parser of the program's output into
  control functions (C0/C1 controls, escape and control sequences, control
  strings, sixel images).
- `src/terminal/` — the screen model: cells and lines that hold whole
  characters (`line.rs`), the cursor (`cursor.rs`), the screen with its
  scroll-back history, alternative screen and images (`screen.rs`), and the
  engine that carries out what the parser yields (`engine.rs`).
- `src/sixel.rs`, `src/sixel_codec/` — the two sixel decoders.
- `src/vt/` — the first screen model: its decoder, a grid of cells with a
  scrolling region (`emulator.rs`), cursor movement and colors.
- `src/utils/` — splitting pty output into UTF-8 text and invalid bytes,
  and a helper on `VecDeque`.
- `src/window.rs`, `src/input.rs`, `src/view.rs`, `src/cache.rs`,
  `src/font.rs` — what the window decides from the user's input (selections,
  pastes, mouse reports, keys) and what it draws (cell colors and places,
  cursor, scroll bar, the glyph cache with its least-recently-used slots).
- `src/multiplexer.rs` — the prefix-key commands, the panes and tabs, and the
  status bar of the multiplexer.
- `app/main.rs` — a headless terminal: it runs a shell on a pseudo-terminal,
  feeds its output to the engine and prints the screen.
- `tests/` — tests of the library.

## Properties proved

Besides the contract of each function, the library proves, among others:
that a character written to a line reads back, that erasing blanks exactly
the erased range, that switching to the alternative screen and back restores
the screen (also after any output that neither switches screens nor saves
the cursor), that restoring a saved cursor gives it back whatever came in
between, that a printed character lands at the cursor or wraps to the next
row, that a decoded sixel image is a whole number of six-row bands filling
its buffer and that each color definition reaches the color registers in
order, that feeding output keeps the engine consistent, that the parser forgets a completed function, that the parser passes text through unchanged and yields only functions
the engine can carry out, that splitting pty output loses no byte, that
saving and restoring the cursor gives it back, that a glyph put in the cache
is found there, that the two halves of a divided pane and the gap between
them cover it, and that splitting a pane and closing the new window gives
back the pane.
