//! Generic utilities: string-keyed environments and string building.
pub mod env;
pub mod text;
pub mod mapper;
