//! Interfaces of modules: the names that a module exports, each with its
//! type, in which no type variable is left. A module that uses another needs
//! no more of it than its interface.

use crate::ir::ast::{declaration_views, Declaration, DeclarationView};
use crate::ir::rename::{symbol, symbol_name};
use crate::names::Name;
use vstd::prelude::*;

verus! {

#[derive(Debug, PartialEq)]
pub struct ModuleInterface {
    pub variables: Vec<Declaration>,
}

/// The mathematical value of a `ModuleInterface`.
pub struct ModuleInterfaceView {
    pub variables: Seq<DeclarationView>,
}

impl View for ModuleInterface {
    type V = ModuleInterfaceView;

    open spec fn view(&self) -> ModuleInterfaceView {
        ModuleInterfaceView { variables: declaration_views(self.variables@) }
    }
}

impl ModuleInterfaceView {
    /// The interface as the modules that use the module `module_name` take
    /// it: every name is the name under which that module emits it.
    pub open spec fn qualified(self, module_name: Name) -> ModuleInterfaceView {
        ModuleInterfaceView {
            variables: Seq::new(
                self.variables.len(),
                |i: int|
                    DeclarationView {
                        name: symbol_name(module_name, self.variables[i].name),
                        type_: self.variables[i].type_,
                    },
            ),
        }
    }
}

/// The mathematical values of a sequence of interfaces.
pub open spec fn interface_views(interfaces: Seq<ModuleInterface>) -> Seq<ModuleInterfaceView> {
    Seq::new(interfaces.len(), |i: int| interfaces[i]@)
}

impl ModuleInterface {
    pub fn new(variables: Vec<Declaration>) -> (result: Self)
        ensures
            result@.variables == declaration_views(variables@),
    {
        Self { variables }
    }

    /// The exported names with their types, in the order of their
    /// definitions.
    pub fn variables(&self) -> (result: &Vec<Declaration>)
        ensures
            declaration_views(result@) == self@.variables,
    {
        &self.variables
    }

    /// The interface as the modules that use the module `module_name` take
    /// it: `main` is named `sloth_main`, every other name gets the name of
    /// the module and a dot before it. The types are kept.
    pub fn qualify(&self, module_name: &str) -> (result: Self)
        ensures
            result@ == self@.qualified(module_name@),
    {
        let mut variables: Vec<Declaration> = Vec::new();
        let mut index: usize = 0;
        while index < self.variables.len()
            invariant
                index <= self.variables.len(),
                variables.len() == index,
                forall|i: int|
                    0 <= i < index ==> (#[trigger] variables[i])@ == self@.qualified(
                        module_name@,
                    ).variables[i],
            decreases self.variables.len() - index,
        {
            let variable = &self.variables[index];
            variables.push(
                Declaration::new(symbol(module_name, variable.name()), variable.type_().clone()),
            );
            index += 1;
        }
        let result = Self { variables };
        assert(result@.variables =~= self@.qualified(module_name@).variables);
        result
    }
}

impl Clone for ModuleInterface {
    fn clone(&self) -> (result: Self)
        ensures
            result@ == self@,
    {
        let mut variables: Vec<Declaration> = Vec::new();
        let mut index: usize = 0;
        while index < self.variables.len()
            invariant
                index <= self.variables.len(),
                variables.len() == index,
                forall|i: int| 0 <= i < index ==> (#[trigger] variables[i])@ == self.variables[i]@,
            decreases self.variables.len() - index,
        {
            variables.push(self.variables[index].clone());
            index += 1;
        }
        let result = Self { variables };
        assert(result@.variables =~= self@.variables);
        result
    }
}

} // verus!
