# psx_sdk

Parts of an SDK for the original PlayStation, written in Verus: executable Rust
whose behaviour is stated in contracts and proved.

- `src/cache`: a table of cached assets with generation-checked handles, and an
  arena of bytes that can be compacted.
- `src/asset`: readers of cooked meshes, textures, samples, models, animations
  and worlds, and of per-bone animation tracks. The numbers that a format's
  writer and reader agree on come in as a value (`MeshFormat`, `WorldFormat` and
  so on).
- `src/font`: bitmap fonts, their packing into texture pages, and text drawing.
- `src/fmv`: movie streams, the variable-length codes of frames, and what drives
  the decoder chip.
- `src/gpu`: primitives, ordering tables, sharing of texture windows, and command
  streams for DMA. Memory is a slice of words, and an address is a word index.
- `src/gte`: fixed-point matrices, depth keys, clipping, normalisation, and the
  geometry engine's registers.
- `src/io`: the disc controller, audio tracks, and where a program sits on its
  disc.
- `src/fx`: random numbers.

Public proof functions state what holds across functions: what a read gives back
of a write, what order packets are walked in, what compaction keeps. Some speak of
any series of calls: that a released handle stays dead, that what was written to
the arena comes back, that a command stream sends every packet once and in order.

The library touches no device. Where a driver has to, the library is a state
machine that says what to do next and is told how it went; `app/` does it.

One function rests on trust: `font::hex` takes `core::str::from_utf8` to accept
exactly the valid UTF-8.
