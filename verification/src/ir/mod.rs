//! The core language: the closure-converted form of a module, in which every
//! function carries the variables that it captures.

pub mod ast;
pub mod compile;
pub mod rename;
pub mod scope;
pub mod types;
