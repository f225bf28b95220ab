# base64_rs

A base64 encoder (RFC 4648) with interchangeable bulk encoders, verified
with Verus. Every encoder is proved to produce the bytes of one
mathematical model of the encoding.

- `src/model.rs`: the model (`encoding`, `wrapped`, their lengths) and its
  laws (padding, wrapping, characters of the output).
- `src/lossless.rs`: different inputs have different encodings.
- `src/encode/alphabet.rs`: the standard and URL-safe alphabets.
- `src/encode/scalar.rs`: the portable encoder, with and without a table of
  character pairs, and line wrapping.
- `src/encode/{ssse3,avx2,avx512,neon64,neon32}.rs`: the SIMD block
  encoders: their shuffle and permutation tables, de-interleaving loads and
  interleaving stores as data, and the arithmetic of each 32-bit lane.
- `src/encode/python.rs`: the front end that checks arguments, computes the
  output length and hands the input from a bulk encoder to the portable one.
- `src/simd_dispatch.rs`: the choice of an instruction set from CPU features.
- `app/lib.rs`: the Python extension module (pyo3) around the library.
