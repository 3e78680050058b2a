# kitty_graphics

The terminal side of the Kitty graphics protocol, verified with Verus.

- `src/apc.rs`: separates graphics commands (`ESC _ G ... ESC \`) from the rest of a terminal's
  output, across reads.
- `src/cup.rs`: the cursor position that the output last asked for.
- `src/params.rs`: the `key=value` parameters of a command.
- `src/raster.rs`: from base64 data to pixels, with the trusted calls into `base64` and `image`.
- `src/storage.rs`: images, chunked transfers and placements; `ImageStorage::process_command`.
- `src/placeholder.rs`: images placed by Unicode placeholder characters.
- `src/laws.rs`: what holds of sequences of commands, and of answers read back.
- `src/bytes.rs`, `src/decimal.rs`: bytes, fields and numbers.
- `app/`: the debug log and the hand-over to the renderer, in ordinary Rust.
- `tests/`: the library on concrete values.
