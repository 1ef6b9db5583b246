//! Permutation-based two-to-one compression over the BN254 scalar field,
//! with the Skyscraper Feistel permutation and its bit-sliced Bar S-box.

pub mod field;
pub mod state;
pub mod skyscraper;
pub mod hash;
