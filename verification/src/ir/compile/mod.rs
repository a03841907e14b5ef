//! Code generation: from a module of the core language to a machine module.

pub mod emission;
pub mod error;
pub mod expression_compiler;
pub mod function_compiler;
pub mod lemmas;
pub mod module_compiler;
pub mod resolution;
pub mod type_compiler;
