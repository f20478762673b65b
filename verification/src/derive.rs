//! Support for code that is generated at compile time.

pub mod signature;
