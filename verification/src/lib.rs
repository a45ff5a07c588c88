//! Epps-Singleton two-sample test: the parts of the test that decide, split and
//! index, with their contracts proved.
//!
//! The floating-point work (characteristic-function moments, covariance,
//! pseudo-inverse, chi-squared tail) is carried out by the application around
//! this library; the library decides which inputs are accepted, how the input
//! text is split into values and frequencies, how the pairwise reduction is
//! ordered, which order statistics a percentile reads, and what each error says.

pub mod whitespace;
pub mod tokens;
pub mod decimal;
pub mod es;
pub mod freq;
pub mod pairwise;
pub mod percentile;
