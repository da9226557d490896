# terminal_runner

A terminal ASCII platformer: an endless runner drawn with raw ANSI escape
sequences. Space or the up arrow (also `w`, `k`) jumps; Esc or `q` quits.

The crate is written in Verus. `src/` is the verified library:

- `terminal.rs` — key decoding, the window-size fallback, and the
  double-buffered character screen. A flush returns the escape sequences that
  turn the shown frame into the drawn one; it is proved to name exactly the
  changed cells and to repaint the shown frame into the drawn one.
- `world.rs` — platform generation (random gaps, widths and heights through
  `rand`) and the removal of platforms that scrolled away; every platform is
  proved to lie 3 to 11 columns after the previous one, within the band of
  allowed rows and at most 8 rows above or below it.
- `game.rs` — the game state that holds no fractions: the background stars,
  the drawing of a frame and of the game-over screen, and the key commands.

`app/` is the program around it: raw terminal mode and I/O through `libc`,
the frame loop, and the runner's physics and camera, which are floating point.
