//! A compiler of the Latte language (a subset of Java) to LLVM intermediate representation.
pub mod meta;
pub mod util;
pub mod frontend;
pub mod backend;
