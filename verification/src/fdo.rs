//! The standard interfaces that every peer on a bus offers.

pub mod dbus;
pub mod error;
pub mod peer;
