//! Compiler core of Sloth, a small typed functional language: the typed
//! surface syntax, type inference, desugaring, closure conversion into a core
//! language, and generation of machine-level modules from that core language.

pub mod ast;
pub mod compile;
pub mod debug;
pub mod environment;
pub mod interface;
pub mod ir;
pub mod llvm;
pub mod names;
pub mod types;
