//! The passes from the surface syntax to a machine module and an interface.

pub mod closure_converter;
pub mod desugar;
pub mod determinism;
pub mod error;
pub mod failures;
pub mod free_variable_finder;
pub mod idempotence;
pub mod lookup;
pub mod module_interface_compiler;
pub mod preservation;
pub mod scoping;
pub mod soundness;
pub mod type_inference;
pub mod unification;

use crate::ast::{Module, ModuleView};
use crate::compile::closure_converter::{convert_module, ClosureConverter};
use crate::compile::desugar::{desugar_module, desugar_with_types, desugar_without_types};
use crate::compile::error::{CompileError, CompileErrorView};
use crate::compile::failures::lemma_compile_finds_names;
use crate::compile::module_interface_compiler::{interface_of, ModuleInterfaceCompiler};
use crate::compile::type_inference::{infer_types, inferred};
use crate::interface::{interface_views, ModuleInterface, ModuleInterfaceView};
use crate::ir::compile::module_compiler::{compile_module, ModuleCompiler};
use crate::ir::rename::{rename_top_level, rename_top_level_variables};
use crate::llvm;
use crate::names::Name;
use vstd::prelude::*;

verus! {

/// What a compiled module is: its code and its interface.
pub struct Compiled {
    pub module: llvm::module::Module,
    pub interface: ModuleInterface,
}

/// The mathematical value of a `Compiled` module.
pub struct CompiledView {
    pub module: llvm::module::ModuleView,
    pub interface: ModuleInterfaceView,
}

impl View for Compiled {
    type V = CompiledView;

    open spec fn view(&self) -> CompiledView {
        CompiledView { module: self.module@, interface: self.interface@ }
    }
}

/// What a typed module is compiled to: it is converted to the core language,
/// its top-level names are renamed, code is generated, and its interface is
/// taken from the names as the source gives them.
pub open spec fn compile_typed(
    module_name: Name,
    typed: ModuleView,
    imported_modules: Seq<ModuleInterfaceView>,
) -> Result<CompiledView, CompileErrorView> {
    match convert_module(typed, imported_modules) {
        Err(error) => Err(error),
        Ok(converted) => match compile_module(rename_top_level(converted, module_name)) {
            Err(error) => Err(CompileErrorView::CodeGeneration(error)),
            Ok(module) => match interface_of(typed) {
                Err(error) => Err(error),
                Ok(interface) => Ok(CompiledView { module, interface }),
            },
        },
    }
}

/// Whether `result` is what compiling a module gives: what the module,
/// desugared and with its types inferred, is compiled to, or the error that
/// inference gives.
pub open spec fn compiled(
    module_name: Name,
    module: ModuleView,
    imported_modules: Seq<ModuleInterfaceView>,
    result: Result<CompiledView, CompileErrorView>,
) -> bool {
    ||| exists|error: CompileErrorView| #[trigger]
        inferred(desugar_module(module), imported_modules, Err(error)) && result == Err::<
            CompiledView,
            _,
        >(error)
    ||| exists|typed: ModuleView| #[trigger]
        inferred(desugar_module(module), imported_modules, Ok(typed)) && result == compile_typed(
            module_name,
            typed,
            imported_modules,
        )
}

/// The mathematical value of what compiling gives.
pub open spec fn result_view(result: Result<Compiled, CompileError>) -> Result<
    CompiledView,
    CompileErrorView,
> {
    match result {
        Ok(compiled) => Ok(compiled@),
        Err(error) => Err(error@),
    }
}

/// Compiles a module: the module is desugared, its types are inferred, it is
/// converted to the core language, its top-level names are renamed after the
/// name of the module, and code is generated. The interface of the module is
/// compiled beside the code. Code generation finds every variable.
pub fn compile(module_name: &str, module: &Module, imported_modules: &Vec<ModuleInterface>) -> (result:
    Result<Compiled, CompileError>)
    ensures
        compiled(module_name@, module@, interface_views(imported_modules@), result_view(result)),
        result_view(result) != Err::<CompiledView, _>(
            CompileErrorView::CodeGeneration(
                crate::ir::compile::error::CompileError::VariableNotFound,
            ),
        ),
{
    let desugared = desugar_without_types(module);
    let result = match infer_types(&desugared, imported_modules) {
        Err(error) => {
            assert(inferred(
                desugar_module(module@),
                interface_views(imported_modules@),
                Err::<ModuleView, _>(error@),
            ));
            Err(error)
        },
        Ok(inferred_module) => {
            let typed = desugar_with_types(&inferred_module);
            assert(inferred(
                desugar_module(module@),
                interface_views(imported_modules@),
                Ok::<_, CompileErrorView>(typed@),
            ));
            match ClosureConverter::new().convert(&typed, imported_modules) {
                Err(error) => Err(error),
                Ok(converted) => {
                    let renamed = rename_top_level_variables(&converted, module_name);
                    match ModuleCompiler::new(&renamed).compile() {
                        Err(error) => Err(CompileError::CodeGeneration(error)),
                        Ok(machine) => match ModuleInterfaceCompiler::new().compile(&typed) {
                            Err(error) => Err(error),
                            Ok(interface) => Ok(Compiled { module: machine, interface }),
                        },
                    }
                },
            }
        },
    };
    proof {
        lemma_compile_finds_names(
            module_name@,
            module@,
            interface_views(imported_modules@),
            result_view(result),
        );
    }
    result
}

} // verus!
