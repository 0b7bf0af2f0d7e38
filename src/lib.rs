//! Exact arithmetic on fractions of unsigned 64-bit integers.

pub mod factors;
pub mod fraction;
pub mod ratio;
pub mod text;
