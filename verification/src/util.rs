//! Supporting data structures and facts.

pub mod bit_field;
pub mod bits;
pub mod ring;
pub mod tally;
pub mod text;
