//! What can go wrong while a module is compiled.

use crate::debug::{SourceInformation, SourceInformationView};
use crate::names::Name;
use crate::types::{Type, TypeView};
use std::rc::Rc;
use vstd::prelude::*;

verus! {

#[derive(Debug, PartialEq)]
pub enum CompileError {
    /// Two types that have to be the same are not: one is a value type and
    /// the other a function type, or they are function types of different
    /// numbers of arguments.
    TypeMismatch { expected: Type, actual: Type, source_information: Rc<SourceInformation> },
    /// A type variable has to be a type that holds the variable itself.
    OccursCheck { variable_id: usize, type_: Type, source_information: Rc<SourceInformation> },
    /// The types of the module leave a type open.
    AmbiguousType { source_information: Rc<SourceInformation> },
    /// A name is referred to that nothing binds.
    UnboundVariable { name: String, source_information: Rc<SourceInformation> },
    /// Code generation failed, which it does not on what closure conversion
    /// makes from a well-typed module.
    CodeGeneration(crate::ir::compile::error::CompileError),
}

/// The mathematical value of a `CompileError`.
pub enum CompileErrorView {
    TypeMismatch { expected: TypeView, actual: TypeView, source_information: SourceInformationView },
    OccursCheck { variable_id: usize, type_: TypeView, source_information: SourceInformationView },
    AmbiguousType { source_information: SourceInformationView },
    UnboundVariable { name: Name, source_information: SourceInformationView },
    CodeGeneration(crate::ir::compile::error::CompileError),
}

impl View for CompileError {
    type V = CompileErrorView;

    open spec fn view(&self) -> CompileErrorView {
        match self {
            CompileError::TypeMismatch {
                expected,
                actual,
                source_information,
            } => CompileErrorView::TypeMismatch {
                expected: expected@,
                actual: actual@,
                source_information: source_information@,
            },
            CompileError::OccursCheck {
                variable_id,
                type_,
                source_information,
            } => CompileErrorView::OccursCheck {
                variable_id: *variable_id,
                type_: type_@,
                source_information: source_information@,
            },
            CompileError::AmbiguousType { source_information } => CompileErrorView::AmbiguousType {
                source_information: source_information@,
            },
            CompileError::UnboundVariable {
                name,
                source_information,
            } => CompileErrorView::UnboundVariable {
                name: name@,
                source_information: source_information@,
            },
            CompileError::CodeGeneration(error) => CompileErrorView::CodeGeneration(*error),
        }
    }
}

impl CompileError {
    /// Where in the source the error arose, if it arose in the source.
    pub fn source_information(&self) -> (result: Option<&Rc<SourceInformation>>)
        ensures
            match result {
                Some(source_information) => match self@ {
                    CompileErrorView::TypeMismatch { source_information: place, .. } => place
                        == source_information@,
                    CompileErrorView::OccursCheck { source_information: place, .. } => place
                        == source_information@,
                    CompileErrorView::AmbiguousType { source_information: place } => place
                        == source_information@,
                    CompileErrorView::UnboundVariable { source_information: place, .. } => place
                        == source_information@,
                    CompileErrorView::CodeGeneration(_) => false,
                },
                None => self@ is CodeGeneration,
            },
    {
        match self {
            CompileError::TypeMismatch { source_information, .. } => Some(source_information),
            CompileError::OccursCheck { source_information, .. } => Some(source_information),
            CompileError::AmbiguousType { source_information } => Some(source_information),
            CompileError::UnboundVariable { source_information, .. } => Some(source_information),
            CompileError::CodeGeneration(_) => None,
        }
    }
}

} // verus!
