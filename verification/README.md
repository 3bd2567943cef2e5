# termpaper

An interactive terminal for e-paper displays: a child process runs on a
PTY, its output is parsed into a cell grid, changed cells are collected into
dirty rectangles, a rate-limited scheduler decides when to refresh, and the
grid is rendered into a monochrome frame that is packed for the Waveshare
3inch e-Paper (G) controller.

## Layout

- `src/` — the library, verified with Verus:
  - `clock` — durations and instants as nanosecond counts;
  - `refresh` — snapshots, the cell diff, rectangle coalescing and the
    refresh scheduler, with their coverage and rate-limit laws;
  - `render` — frames and the glyph renderer (glyphs from `font8x8`);
  - `terminal` — the screen kept by the `vt100` parser, seen as snapshots;
  - `input` — key and paste encoding;
  - `pty` — command planning, host key mapping and the interactive session's
    decisions;
  - `display`, `panel`, `config`, `hardware_test`, `waveshare3ing` — display
    capabilities, the panel profile, configuration, test patterns, 2-bit
    packing, the controller's command scripts and the driver state that
    orders them (white clear before the first frame, sleep only once).
- `tests/` — tests of the library.
- `app/` — the program: command line, PNG and debug backends, the SPI/GPIO
  driver and the interactive loop.
