//! Base64 encoding with interchangeable block encoders (scalar, SSSE3,
//! AVX2, AVX-512 and NEON lane models), each proved to produce the bytes
//! of the RFC 4648 encoding.

pub mod model;
pub mod encode;
pub mod simd_dispatch;
pub mod lossless;
