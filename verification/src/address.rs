//! Where a bus can be reached.

pub mod ibus;
pub mod parse;
