# m3d

Reading and writing of M3D model files, the binary format in which the game
stores a vehicle: its body and collision shape, its wheels, debris and weapon
slots. The library is written in Verus. Every function in `src/` is verified
against its contract, except the small trusted wrappers that call `byteorder`,
`png` and `format!`: Verus takes their contracts on trust, and each one's doc
comment says what it claims of the outside call.

## Layout

- `src/le.rs` — little-endian fields: the calls into `byteorder`, a `Cursor`
  that reads fields from a byte slice, and writers that append fields to a
  buffer.
- `src/many.rs` — runs of records, read and written one after another.
- `src/geometry.rs` — vertices, drawn triangles, collision quads, geometry and
  the `Polygon` trait.
- `src/mesh.rs` — bounds, physics and meshes: their records, reading and
  writing, and the proof that a saved mesh loads back as itself.
- `src/model.rs` — wheels, debris, slots and whole models: the M3D file, and
  the proofs that a saved model loads back (slots without mesh and with scale
  1.0), that saving what was loaded gives the same bytes, and that a model
  loaded from any file, saved and loaded again, is the model first loaded;
  a loaded model has the numbers of wheels and debris its header gives, each
  wheel with a mesh exactly where it steers; and models that differ only in
  their slots' meshes and scales are saved as the same bytes.
- `src/exchange.rs` — a model split into a description whose meshes name
  geometry files, and those files; the model rebuilt from such a description;
  and the proof that rebuilding an exported model gives it back.
- `src/float.rs` — 32-bit floats stored as 64-bit floats: rounding a 64-bit
  float to the nearest 32-bit one, widening it back, and the proof that
  widening then rounding gives back every float but a signalling NaN.
- `src/palette.rs` — a palette of 256 colours and its 256x1 PNG image: the
  calls into `png`, and the verified choice of the bytes of the palette.
- `src/convert.rs` — the conversion that the resource converter performs for
  a pair of file extensions.
- `src/control.rs` — the input decisions of the game loop.
- `app/main.rs` — the resource converter program.
- `app/game.rs`, `app/level.rs` — the road viewer's game loop and the TIFF
  export of level layers; they need the game engine and graphics crates and
  are not part of the converter.

Floats are held as their bits, in integers. The file stores each physics
value and wheel coordinate as a 64-bit float, which `src/float.rs` reads as
the nearest 32-bit float (ties to even) and writes back by exact widening,
both in verified integer arithmetic; a slot's scale is the bits of a 32-bit
float.
