//! Mapping of value types to the target description language.

pub mod type_mapper;
