//! Key handling and on-disk obfuscation.

pub mod permutation;
pub mod primitives;
pub mod keys;
pub mod blob;
