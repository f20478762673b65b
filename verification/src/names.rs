//! The names that identify things on a bus, and their validators.

pub mod error;
pub mod error_name;
pub mod interface_name;
pub mod member_name;
pub mod object_path;
pub mod property_name;
pub mod rules;
pub mod unique_name;
pub mod well_known_name;
