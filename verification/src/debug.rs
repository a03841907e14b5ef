//! Source locations attached to syntax nodes for diagnostics.

use std::rc::Rc;
use vstd::prelude::*;

verus! {

/// Where a piece of syntax came from.
#[derive(Debug, PartialEq, Eq)]
pub struct SourceInformation {
    pub source_name: String,
    pub line_number: usize,
    pub column_number: usize,
}

/// The mathematical value of a `SourceInformation`.
pub struct SourceInformationView {
    pub source_name: Seq<char>,
    pub line_number: usize,
    pub column_number: usize,
}

impl View for SourceInformation {
    type V = SourceInformationView;

    open spec fn view(&self) -> SourceInformationView {
        SourceInformationView {
            source_name: self.source_name@,
            line_number: self.line_number,
            column_number: self.column_number,
        }
    }
}

impl SourceInformation {
    pub fn new(source_name: String, line_number: usize, column_number: usize) -> (result: Self)
        ensures
            result@ == (SourceInformationView {
                source_name: source_name@,
                line_number,
                column_number,
            }),
    {
        Self { source_name, line_number, column_number }
    }

    pub fn source_name(&self) -> (result: &str)
        ensures
            result@ == self@.source_name,
    {
        self.source_name.as_str()
    }

    pub fn line_number(&self) -> (result: usize)
        ensures
            result == self@.line_number,
    {
        self.line_number
    }

    pub fn column_number(&self) -> (result: usize)
        ensures
            result == self@.column_number,
    {
        self.column_number
    }
}

/// Another pointer to the same source information. `Rc::clone` copies the
/// pointer and leaves the allocation alone, so the result holds the very value
/// that the argument holds.
#[verifier::external_body]
pub(crate) fn share(source_information: &Rc<SourceInformation>) -> (result: Rc<SourceInformation>)
    ensures
        result == *source_information,
{
    Rc::clone(source_information)
}

} // verus!
