# sixel

Encodes images as DEC sixel graphics for terminals, verified with Verus.

- `src/sixel.rs` specifies the sixel stream of a frame (bands of six lines,
  one color register per distinct color, run-length coded columns) and holds
  the verified encoder.
- `src/registry.rs` keeps the color registers: their order in a `Vec`, their
  ids in a `HashMap` keyed by the color packed into one word.
- `src/code.rs` states the bytes of each sixel item and formats items with the
  `control-code` crate.
- `src/encoder.rs` scales and dithers images with `picto` and ties it all
  together in `Encoder`.
- `src/settings.rs`, `src/environment.rs` and `src/terminal.rs` hold the
  settings, the terminal's drawing facts, and what the terminal reports, as
  plain values.
- `src/laws.rs` proves properties of every encoding.
- `app/` reads the terminfo database and the window size, converts picto
  buffers, computes hue/saturation/lightness, and writes the bytes.
