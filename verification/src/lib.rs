//! Client-side building blocks for the D-Bus message bus, verified with
//! Verus.
//!
//! The crate decides and computes; it does no input or output. Bytes go in
//! and out as values:
//!
//! - [`wire`]: signatures, values, and the two encodings of values as bytes,
//!   with the laws that reading gives back what was written and that a reader
//!   hands out values of the type it was asked for only;
//! - [`names`]: the names of buses, interfaces, members, errors, properties
//!   and objects;
//! - [`message`] and [`framing`]: messages, their builders, and their bytes
//!   on the wire;
//! - [`handshake`], [`connection`] and [`subscriptions`]: what a client does
//!   from the first byte to the last reply;
//! - [`match_rule`] and [`rule_laws`]: the rules by which signals are asked
//!   for;
//! - [`object_server`], [`properties`] and [`introspect`]: the objects that a
//!   connection exports;
//! - [`proxy`] and [`fdo`]: the objects of others, and the bus itself;
//! - [`address`]: where a bus is reached;
//! - [`variant`], [`derive`], [`text`] and [`error`]: what the others lean on.

pub mod address;
pub mod connection;
pub mod derive;
pub mod error;
pub mod fdo;
pub mod framing;
pub mod handshake;
pub mod introspect;
pub mod match_rule;
pub mod message;
pub mod names;
pub mod object_server;
pub mod properties;
pub mod proxy;
pub mod rule_laws;
pub mod subscriptions;
pub mod text;
pub mod variant;
pub mod wire;
