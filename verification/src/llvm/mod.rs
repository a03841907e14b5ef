//! A model of machine-level modules as plain data.
//!
//! Code generation records what is to be emitted: the types, the globals, the
//! functions and the instructions of each function body. A backend replays
//! the record to produce object code.

pub mod builder;
pub mod module;
pub mod types;
pub mod value;
