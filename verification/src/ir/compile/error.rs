//! What can go wrong while code is generated.
//!
//! Code generation takes any module of the core language, and these are the
//! ways in which it refuses one. A variable is always found in what closure
//! conversion and renaming make of a module whose types are inferred.

use vstd::prelude::*;

verus! {

#[derive(Clone, Copy, Debug, PartialEq, Eq, Structural)]
pub enum CompileError {
    /// A variable is used that nothing binds.
    VariableNotFound,
    /// What is applied is not a closure.
    NotCallable,
}

impl CompileError {
    /// A line of text that says what went wrong.
    pub fn description(&self) -> (result: &'static str)
        ensures
            result@ == match self {
                CompileError::VariableNotFound => "variable not found"@,
                CompileError::NotCallable => "applied value is not a function"@,
            },
    {
        match self {
            CompileError::VariableNotFound => "variable not found",
            CompileError::NotCallable => "applied value is not a function",
        }
    }
}

} // verus!
