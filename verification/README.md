# zfp_rs

ZFP compression of 1- to 4-dimensional arrays of `i32`, `i64`, `f32` and
`f64`, written in Verus: the bit stream, the block transforms, the embedded
bit-plane coder, the header and the field drivers carry contracts that Verus
proves.

Layout:

- `src/bitstream`: the bit stream (a cursor over 64-bit words), owned and
  borrowed, with its model of the bits written and the bits pending.
- `src/codec`: the block codec: lifting transforms, coefficient order and
  negabinary codes, the embedded coder, integer and floating-point block
  codes (floating-point values are handled as IEEE bit patterns), gathering
  and scattering blocks of little-endian field bytes.
- `src/config.rs`, `src/field.rs`, `src/field_plan.rs`, `src/header.rs`:
  compression parameters, field descriptions, block plans and stream headers.
- `src/compress.rs`, `src/decompress.rs`: whole-field compression and
  decompression, stated block by block.
- `src/roundtrip.rs`, `src/fixed_rate.rs`, `src/lockstep.rs`: laws over whole
  fields: reversible coding is lossless; fixed-rate blocks take exactly their
  bit budget; in every mode decoding reads exactly the bits coding wrote.
- `app/`: the parts that need floating-point arithmetic or outside traits:
  rate and accuracy parameters from `f64`, typed views of field bytes, and
  error types with `Display`.
- `tests/`: tests run against the compiled library.
