//! The wire format: how typed values become bytes and bytes become values.

pub mod basic;
pub mod codec;
pub mod context;
pub mod dbus;
pub mod de;
pub mod endian;
pub mod error;
pub mod grammar;
pub mod gvariant;
pub mod gvariant_laws;
pub mod offsets;
pub mod paths;
pub mod ser;
pub mod signature;
pub mod soundness;
pub mod value;
