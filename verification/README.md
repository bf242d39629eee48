# rvalt

A player for sequences of OpenEXR frames, with its logic verified by Verus.

- `src/` is the library: the playback state machine, the rolling frame cache, what the loader
  threads load next, thumbnails, lookup tables, colour configs, the decisions of the window and of
  the interface, and the preview of a frame through a baked table. Verus proves the contracts of
  its functions, but for the small wrappers around calls into other crates and into the standard
  library: their contracts are believed. The doc comment of each wrapper says what is taken on
  trust.
- `app/` is the program around it: the window, the graphics card, threads, files and the
  floating-point arithmetic that the library takes as functions. `rvalt ocio` writes a preview
  picture. The program reads its shader from `shader.wgsl` in the working directory.
- `tests/` runs the library on concrete values.

Samples are held by the bits of half-precision numbers.

`ocio-rs` is named without a backend feature, which builds its stub: configs then offer no
displays or views, and transforms leave colours as they are. To see colours through OpenColorIO,
add its `system` or `bundled` feature in `Cargo.toml`.
