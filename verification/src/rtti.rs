//! Decoders for MSVC run-time type information structures: plain
//! little-endian field extraction from raw byte slices.

pub mod base_class_descriptor;
pub mod class_hierarchy_descriptor;
pub mod complete_object_locator;
pub mod symbol;
pub mod type_descriptor;
