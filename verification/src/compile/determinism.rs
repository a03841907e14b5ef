//! Determinism: what a module is compiled to is fixed by the module, by its
//! name and by the interfaces of the modules that it uses.

use crate::ast::{DefinitionView, ExpressionView, ModuleView};
use crate::compile::error::CompileErrorView;
use crate::compile::preservation::lemma_closed_module;
use crate::compile::type_inference::{equations_of, inferred, module_closed, open_in_definitions};
use crate::compile::unification::{
    extends, most_general_unifier, unifiable, unifies_all, EquationView,
};
use crate::compile::{compile_typed, compiled, CompiledView};
use crate::compile::desugar::desugar_module;
use crate::interface::ModuleInterfaceView;
use crate::names::Name;
use crate::types::{Substitution, TypeView};
use vstd::prelude::*;

verus! {

/// A substitution that extends another makes of a type what it makes of the
/// type once the other is applied.
pub proof fn lemma_extends_type(type_: TypeView, general: Substitution, substitution: Substitution)
    requires
        extends(substitution, general),
    ensures
        type_.substitute(general).substitute(substitution) == type_.substitute(substitution),
    decreases type_,
{
    match type_ {
        TypeView::Function { arguments, result } => {
            let composed = type_.substitute(general).substitute(substitution)->arguments;
            let direct = type_.substitute(substitution)->arguments;
            assert forall|i: int| 0 <= i < arguments.len() implies composed[i] == direct[i] by {
                lemma_extends_type(arguments[i], general, substitution);
            }
            assert(composed =~= direct);
        },
        TypeView::Value(_) => {},
        TypeView::Variable(id) => {
            if general.contains_key(id) {
                assert(TypeView::Variable(id).substitute(substitution) == general[id].substitute(
                    substitution,
                ));
            }
        },
    }
}

/// A substitution that extends another makes of an expression what it makes
/// of the expression once the other is applied.
pub proof fn lemma_extends_expression(
    expression: ExpressionView,
    general: Substitution,
    substitution: Substitution,
)
    requires
        extends(substitution, general),
    ensures
        expression.substitute(general).substitute(substitution) == expression.substitute(
            substitution,
        ),
    decreases expression,
{
    match expression {
        ExpressionView::Number { .. } => {},
        ExpressionView::Variable { .. } => {},
        ExpressionView::Operation { lhs, rhs, .. } => {
            lemma_extends_expression(*lhs, general, substitution);
            lemma_extends_expression(*rhs, general, substitution);
        },
        ExpressionView::Application { arguments, .. } => {
            let composed = expression.substitute(general).substitute(substitution)->arguments;
            let direct = expression.substitute(substitution)->arguments;
            assert forall|i: int| 0 <= i < arguments.len() implies composed[i] == direct[i] by {
                lemma_extends_expression(arguments[i], general, substitution);
            }
            assert(composed =~= direct);
        },
        ExpressionView::LetValues { definitions, expression: body } => {
            let composed = expression.substitute(general).substitute(
                substitution,
            )->LetValues_definitions;
            let direct = expression.substitute(substitution)->LetValues_definitions;
            assert forall|i: int| 0 <= i < definitions.len() implies composed[i] == direct[i] by {
                lemma_extends_expression(definitions[i].body, general, substitution);
                lemma_extends_type(definitions[i].type_, general, substitution);
            }
            assert(composed =~= direct);
            lemma_extends_expression(*body, general, substitution);
        },
        ExpressionView::LetFunctions { definitions, expression: body } => {
            let composed = expression.substitute(general).substitute(
                substitution,
            )->LetFunctions_definitions;
            let direct = expression.substitute(substitution)->LetFunctions_definitions;
            assert forall|i: int| 0 <= i < definitions.len() implies composed[i] == direct[i] by {
                lemma_extends_expression(definitions[i].body, general, substitution);
                lemma_extends_type(definitions[i].type_, general, substitution);
            }
            assert(composed =~= direct);
            lemma_extends_expression(*body, general, substitution);
        },
    }
}

/// A substitution that extends another makes of a module what it makes of
/// the module once the other is applied.
pub proof fn lemma_extends_module(
    module: ModuleView,
    general: Substitution,
    substitution: Substitution,
)
    requires
        extends(substitution, general),
    ensures
        module.substitute(general).substitute(substitution) == module.substitute(substitution),
{
    let composed = module.substitute(general).substitute(substitution).definitions;
    let direct = module.substitute(substitution).definitions;
    assert forall|i: int| 0 <= i < module.definitions.len() implies composed[i] == direct[i] by {
        match module.definitions[i] {
            DefinitionView::FunctionDefinition(definition) => {
                lemma_extends_expression(definition.body, general, substitution);
                lemma_extends_type(definition.type_, general, substitution);
            },
            DefinitionView::VariableDefinition(definition) => {
                lemma_extends_expression(definition.body, general, substitution);
                lemma_extends_type(definition.type_, general, substitution);
            },
        }
    }
    assert(composed =~= direct);
}

/// Where a most general unifier of the equations leaves no type variable in
/// a module, every most general unifier makes the same of the module.
pub proof fn lemma_instance_unique(
    module: ModuleView,
    equations: Seq<EquationView>,
    first: Substitution,
    second: Substitution,
)
    requires
        most_general_unifier(first, equations),
        most_general_unifier(second, equations),
        module_closed(module.substitute(first)),
    ensures
        module.substitute(second) == module.substitute(first),
{
    assert(unifies_all(second, equations));
    assert(extends(second, first));
    lemma_extends_module(module, first, second);
    lemma_closed_module(module.substitute(first), second);
}

/// Where inference gives a module, it gives nothing else.
pub proof fn lemma_inference_unique(
    module: ModuleView,
    imported_modules: Seq<ModuleInterfaceView>,
    first: Result<ModuleView, CompileErrorView>,
    second: Result<ModuleView, CompileErrorView>,
)
    requires
        inferred(module, imported_modules, first),
        inferred(module, imported_modules, second),
        first is Ok,
    ensures
        second == first,
{
    let equations = equations_of(module, imported_modules)->Ok_0;
    let typed = first->Ok_0;
    let general = choose|substitution: Substitution|
        #![trigger most_general_unifier(substitution, equations)]
        most_general_unifier(substitution, equations) && typed == module.substitute(substitution);
    assert(unifies_all(general, equations));
    match second {
        Ok(other) => {
            let substitution = choose|substitution: Substitution|
                #![trigger most_general_unifier(substitution, equations)]
                most_general_unifier(substitution, equations) && other == module.substitute(
                    substitution,
                );
            lemma_instance_unique(module, equations, general, substitution);
        },
        Err(error) => {
            if error is AmbiguousType {
                let substitution = choose|substitution: Substitution|
                    #![trigger most_general_unifier(substitution, equations)]
                    most_general_unifier(substitution, equations) && open_in_definitions(
                        module.substitute(substitution).definitions,
                        module.definitions.len() as int,
                    ) == Some(error->AmbiguousType_source_information);
                lemma_instance_unique(module, equations, general, substitution);
                assert(module.substitute(substitution).definitions.len()
                    == module.definitions.len());
            } else {
                assert(unifiable(equations));
            }
        },
    }
}

/// Determinism: where compiling a module gives code and an interface, it
/// gives no other code, no other interface and no error.
pub proof fn lemma_compile_deterministic(
    module_name: Name,
    module: ModuleView,
    imported_modules: Seq<ModuleInterfaceView>,
    first: Result<CompiledView, CompileErrorView>,
    second: Result<CompiledView, CompileErrorView>,
)
    requires
        compiled(module_name, module, imported_modules, first),
        compiled(module_name, module, imported_modules, second),
        first is Ok,
    ensures
        second == first,
{
    let desugared = desugar_module(module);
    let typed = choose|typed: ModuleView| #[trigger]
        inferred(desugared, imported_modules, Ok(typed)) && first == compile_typed(
            module_name,
            typed,
            imported_modules,
        );
    if exists|error: CompileErrorView| #[trigger]
        inferred(desugared, imported_modules, Err(error)) && second == Err::<CompiledView, _>(
            error,
        ) {
        let error = choose|error: CompileErrorView| #[trigger]
            inferred(desugared, imported_modules, Err(error)) && second == Err::<CompiledView, _>(
                error,
            );
        lemma_inference_unique(
            desugared,
            imported_modules,
            Ok::<_, CompileErrorView>(typed),
            Err::<ModuleView, _>(error),
        );
    } else {
        let other = choose|other: ModuleView| #[trigger]
            inferred(desugared, imported_modules, Ok(other)) && second == compile_typed(
                module_name,
                other,
                imported_modules,
            );
        lemma_inference_unique(
            desugared,
            imported_modules,
            Ok::<_, CompileErrorView>(typed),
            Ok::<_, CompileErrorView>(other),
        );
    }
}

} // verus!
