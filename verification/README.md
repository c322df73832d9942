# ezipr

A verified library for SiFli eZIP and PIXEL image resources: inspecting,
decoding and encoding static images and eZIP-A animations, written in Verus.

Every executable function in `src/` carries a contract that Verus proves:

- `header`, `stream`: the four-byte resource header and the sixteen-byte
  eZIP stream header, parsed and written exactly.
- `huffman`: the shared-Huffman bit stream, specified as a decoder over
  bit positions and checked against that specification.
- `filter`: PNG row filters; unfiltering undoes the adaptive filters the
  encoder picks.
- `pixels`, `dither`: storage layouts, RGB565 quantization and its fixed
  points.
- `decoder`, `animation`, `compositor`: opening a resource (each accepted
  and rejected input described exactly), decoding frames and composing
  animations.
- `encoder`, `animation_encoder`: the bytes written for still images and
  animations.
- `roundtrip`, `animation_roundtrip`: proofs that opening what the encoders
  write gives back the stored pixels and frames. These proofs are
  conditional: they take as premises that DEFLATE gives back each stream it
  compressed (what the trusted `deflate`/`inflate` contracts cannot promise
  for every input, since both are named rather than described), that the
  decompressed sizes stay strictly below the decoder's decoded-byte limit,
  and that the canvas and frame count fit the decoder's limits.
- `loader`: PNG, APNG and GIF input, decoded by the `png` and `gif` crates
  and turned into frames for the encoders (repetition, the APNG default
  image, disposal and blend, and widening to 8-bit RGB or RGBA).

The calls into `crc32fast`, `miniz_oxide`, `png` and `gif` sit behind small
trusted wrappers in `checksum`, `deflate` and `loader`, whose contracts name
what they return where it is a function of the input.

`app/` holds the command-line program (reading and writing files, argument
handling, the TOML manifest, PNG and APNG output); `tests/` exercises the
library on concrete values.
