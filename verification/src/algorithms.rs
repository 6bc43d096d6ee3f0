//! Guessing strategies that implement the `Guesser` trait.

pub mod naive;

pub use naive::Naive;
