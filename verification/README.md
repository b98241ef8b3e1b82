# astro_recover

Decoder for Astroneer `.savegame` files and a fixer for shuttles stuck in
orbit: it moves the shuttle onto a landing pad, clears its lost and orbit
state, and resets `ExitSuppressionCount` on its seats so they can be left.

Layout:

- `src/` — the library, written and proved with Verus.
  - `bytes.rs`: little-endian fields and a bounds-checked read cursor.
  - `save.rs`: the decoded save, the level-data format (`spec_layout`) and
    its parser; zlib inflation through `miniz_oxide`.
  - `props.rs`: the tagged property streams inside object blobs.
  - `survey.rs`: shuttles, pads, slot contents and seats.
  - `landing.rs`: the edits that land a shuttle.
  - `zlib.rs`: Adler-32 and the stored-block zlib stream written back.
  - `text.rs`: character-sequence helpers, labels and JSON quoting.
- `app/` — the command-line program: file I/O, the floating-point geometry
  (nearest planet, landing position, nearest reference shuttle) and the
  JSON output.
- `tests/` — tests of the library.
