//! The Skyscraper permutation over two field elements.

pub mod permutation;
