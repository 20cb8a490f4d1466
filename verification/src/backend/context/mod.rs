//! Compilation contexts: variables of nested blocks, registers of a function, global declarations.
pub mod block;
pub mod function;
pub mod global;

pub use self::block::BlockContext;
pub use self::function::FunctionContext;
pub use self::global::GlobalContext;
