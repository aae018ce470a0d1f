# eden_converter

A verified library that converts Eden World Builder worlds into Minecraft 1.12 (Anvil)
worlds and generates procedural Eden worlds.

- `src/` is the library, written in Verus. Every public function carries a `requires` /
  `ensures` contract over mathematical models (byte sequences, maps, grids of blocks), and
  the laws of the library are public proof functions (`lemma_*`):
  - `eden.rs` parses `.eden` files; `eden_writer.rs` writes them, with the law that a
    written file reads back to the world it was written from;
  - `nbt.rs`, `anvil.rs` and `level_dat.rs` encode NBT, region files and `level.dat`;
  - `block_map.rs` maps Eden blocks and paint to Minecraft blocks; `convert.rs` turns
    parsed columns into region files and unwraps and packs the ZIP archives of uploads and
    downloads;
  - `terrain.rs` is the seven-stage terrain generator, specified stage by stage;
    `noise.rs` holds its lattice hashes; `base64.rs` and `text.rs` render bytes and numbers.
- `app/` is the WebAssembly surface: JSON (serde), and the floating-point noise, canopy
  shapes and player coordinates, which it hands to the library as plain values.
- `tests/` exercises the library on concrete inputs.

Compression goes through `flate2` and archives through `zip`; their outputs are named in the
contracts and checked by the tests against the crates' decoders.
