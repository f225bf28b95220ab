pub mod alphabet;
pub mod scalar;
pub mod ssse3;
pub mod avx2;
pub mod avx512;
pub mod neon64;
pub mod neon32;
pub mod python;
