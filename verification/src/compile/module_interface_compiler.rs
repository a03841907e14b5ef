//! Compilation of the interface of a module.

use crate::ast::{DefinitionView, Module, ModuleView};
use crate::compile::closure_converter::{convert_type, core_type};
use crate::compile::error::{CompileError, CompileErrorView};
use crate::debug::share;
use crate::interface::{ModuleInterface, ModuleInterfaceView};
use crate::ir::ast::{declaration_views, Declaration, DeclarationView};
use vstd::prelude::*;
use vstd::string::StringExecFns;

verus! {

/// What the first `count` definitions export: the name of each as the
/// source gives it, with its type.
pub open spec fn exported(definitions: Seq<DefinitionView>, count: int) -> Result<
    Seq<DeclarationView>,
    CompileErrorView,
>
    decreases count,
{
    if count <= 0 {
        Ok(Seq::empty())
    } else {
        match exported(definitions, count - 1) {
            Err(error) => Err(error),
            Ok(variables) => {
                let definition = definitions[count - 1];
                if definition.type_().is_closed() {
                    Ok(
                        variables.push(
                            DeclarationView {
                                name: definition.name(),
                                type_: core_type(definition.type_()),
                            },
                        ),
                    )
                } else {
                    Err(
                        CompileErrorView::AmbiguousType {
                            source_information: definition.source_information(),
                        },
                    )
                }
            },
        }
    }
}

/// The interface of a module: what its top-level definitions export, in the
/// order of the definitions.
pub open spec fn interface_of(module: ModuleView) -> Result<ModuleInterfaceView, CompileErrorView> {
    match exported(module.definitions, module.definitions.len() as int) {
        Err(error) => Err(error),
        Ok(variables) => Ok(ModuleInterfaceView { variables }),
    }
}

/// Where exporting the first definitions fails, exporting more fails alike.
pub proof fn lemma_exported_error(definitions: Seq<DefinitionView>, count: int, more: int)
    requires
        0 <= count <= more <= definitions.len(),
        exported(definitions, count) is Err,
    ensures
        exported(definitions, more) == exported(definitions, count),
    decreases more - count,
{
    if count < more {
        lemma_exported_error(definitions, count, more - 1);
    }
}

pub struct ModuleInterfaceCompiler {}

impl ModuleInterfaceCompiler {
    pub fn new() -> Self {
        Self {  }
    }

    /// The interface of the module. It fails where the type of a top-level
    /// definition holds a type variable.
    pub fn compile(&self, module: &Module) -> (result: Result<ModuleInterface, CompileError>)
        ensures
            match result {
                Ok(interface) => interface_of(module@) == Ok::<_, CompileErrorView>(interface@),
                Err(error) => interface_of(module@) == Err::<ModuleInterfaceView, _>(error@),
            },
    {
        let ghost all = module@.definitions;
        let mut variables: Vec<Declaration> = Vec::new();
        let mut index: usize = 0;
        assert(declaration_views(variables@) =~= Seq::empty());
        while index < module.definitions.len()
            invariant
                index <= module.definitions.len(),
                all == module@.definitions,
                exported(all, index as int) == Ok::<_, CompileErrorView>(
                    declaration_views(variables@),
                ),
            decreases module.definitions.len() - index,
        {
            let definition = &module.definitions[index];
            let ghost before = declaration_views(variables@);
            match convert_type(definition.type_()) {
                Some(type_) => {
                    let declaration = Declaration::new(String::from_str(definition.name()), type_);
                    variables.push(declaration);
                    assert(declaration_views(variables@) =~= before.push(declaration@));
                },
                None => {
                    let error = CompileError::AmbiguousType {
                        source_information: share(definition.source_information()),
                    };
                    proof {
                        assert(exported(all, index + 1) == Err::<Seq<DeclarationView>, _>(error@));
                        lemma_exported_error(all, index + 1, all.len() as int);
                    }
                    return Err(error);
                },
            }
            index += 1;
        }
        Ok(ModuleInterface::new(variables))
    }
}

} // verus!
