//! Where compiling fails: an error of inference, of closure conversion or
//! of the interface names a fault of the source, and code generation fails
//! for no variable that is not found.

use crate::ast::{
    DefinitionView, ExpressionView, FunctionDefinitionView, ModuleView, VariableDefinitionView,
};
use crate::compile::closure_converter::{
    bind_arguments, convert_definitions, convert_expression, convert_expressions, convert_function,
    convert_functions, convert_module, convert_values, function_signature, typed_arguments, Locals,
};
use crate::compile::desugar::desugar_module;
use crate::compile::error::CompileErrorView;
use crate::compile::lookup::lemma_names_found;
use crate::compile::module_interface_compiler::exported;
use crate::compile::type_inference::{
    bind_names, collect_arguments, collect_definitions, collect_expression, collect_function,
    collect_functions, collect_values, equations_of, inferred, top_level_environment,
    TypeEnvironment,
};
use crate::compile::unification::{solve, step, EquationView, Step};
use crate::compile::{compile_typed, compiled, CompiledView};
use crate::interface::ModuleInterfaceView;
use crate::ir::compile::error::CompileError;
use crate::names::Name;
use crate::types::Substitution;
use vstd::prelude::*;

verus! {

/// Whether a pass, where it fails, fails for a fault of the source and not
/// in code generation.
pub open spec fn fails_in_source<T>(outcome: Result<T, CompileErrorView>) -> bool {
    outcome matches Err(error) ==> !(error is CodeGeneration)
}

/// Typing an expression fails only for a fault of the source.
pub proof fn lemma_collect_expression_fails(
    expression: ExpressionView,
    environment: TypeEnvironment,
)
    ensures
        fails_in_source(collect_expression(expression, environment)),
    decreases expression, 0nat,
{
    match expression {
        ExpressionView::Number { .. } => {},
        ExpressionView::Variable { .. } => {},
        ExpressionView::Operation { lhs, rhs, .. } => {
            lemma_collect_expression_fails(*lhs, environment);
            lemma_collect_expression_fails(*rhs, environment);
        },
        ExpressionView::Application { arguments, .. } => {
            lemma_collect_arguments_fails(arguments, environment, arguments.len() as int);
        },
        ExpressionView::LetValues { definitions, expression: body } => {
            lemma_collect_values_fails(definitions, environment, definitions.len() as int);
            if let Ok((inner, _)) = collect_values(
                definitions,
                environment,
                definitions.len() as int,
            ) {
                lemma_collect_expression_fails(*body, inner);
            }
        },
        ExpressionView::LetFunctions { definitions, expression: body } => {
            let inner = crate::compile::type_inference::bind_functions(
                definitions,
                environment,
                definitions.len() as int,
            );
            lemma_collect_functions_fails(definitions, inner, definitions.len() as int);
            lemma_collect_expression_fails(*body, inner);
        },
    }
}

/// Typing the first expressions fails only for a fault of the source.
pub proof fn lemma_collect_arguments_fails(
    expressions: Seq<ExpressionView>,
    environment: TypeEnvironment,
    count: int,
)
    ensures
        fails_in_source(collect_arguments(expressions, environment, count)),
    decreases expressions, count,
{
    if 0 < count <= expressions.len() {
        lemma_collect_arguments_fails(expressions, environment, count - 1);
        lemma_collect_expression_fails(expressions[count - 1], environment);
    }
}

/// Typing the first definitions of a `let` of values fails only for a fault
/// of the source.
pub proof fn lemma_collect_values_fails(
    definitions: Seq<VariableDefinitionView>,
    environment: TypeEnvironment,
    count: int,
)
    ensures
        fails_in_source(collect_values(definitions, environment, count)),
    decreases definitions, count,
{
    if 0 < count <= definitions.len() {
        lemma_collect_values_fails(definitions, environment, count - 1);
        if let Ok((inner, _)) = collect_values(definitions, environment, count - 1) {
            lemma_collect_expression_fails(definitions[count - 1].body, inner);
        }
    }
}

/// Typing the first function definitions fails only for a fault of the
/// source.
pub proof fn lemma_collect_functions_fails(
    definitions: Seq<FunctionDefinitionView>,
    environment: TypeEnvironment,
    count: int,
)
    ensures
        fails_in_source(collect_functions(definitions, environment, count)),
    decreases definitions, count,
{
    if 0 < count <= definitions.len() {
        lemma_collect_functions_fails(definitions, environment, count - 1);
        lemma_collect_function_fails(definitions[count - 1], environment);
    }
}

/// Typing a function definition fails only for a fault of the source.
pub proof fn lemma_collect_function_fails(
    definition: FunctionDefinitionView,
    environment: TypeEnvironment,
)
    ensures
        fails_in_source(collect_function(definition, environment)),
    decreases definition, 0nat,
{
    if definition.type_ is Function && definition.type_->arguments.len()
        == definition.arguments.len() {
        lemma_collect_expression_fails(
            definition.body,
            bind_names(
                definition.arguments,
                definition.type_->arguments,
                environment,
                definition.arguments.len() as int,
            ),
        );
    }
}

/// Typing the first top-level definitions fails only for a fault of the
/// source.
pub proof fn lemma_collect_definitions_fails(
    definitions: Seq<DefinitionView>,
    environment: TypeEnvironment,
    count: int,
)
    ensures
        fails_in_source(collect_definitions(definitions, environment, count)),
    decreases count,
{
    if count > 0 {
        lemma_collect_definitions_fails(definitions, environment, count - 1);
        match definitions[count - 1] {
            DefinitionView::FunctionDefinition(definition) => {
                lemma_collect_function_fails(definition, environment);
            },
            DefinitionView::VariableDefinition(definition) => {
                lemma_collect_expression_fails(definition.body, environment);
            },
        }
    }
}

/// Taking equations one by one fails only for a fault of the source.
pub proof fn lemma_solve_fails(left: Seq<EquationView>, found: Substitution, fuel: nat)
    ensures
        solve(left, found, fuel) matches Some(outcome) ==> fails_in_source(outcome),
    decreases fuel,
{
    if left.len() > 0 && fuel > 0 {
        match step(left.drop_last(), left.last(), found) {
            Step::Failed(_) => {},
            Step::Next { left: rest, found: after } => {
                lemma_solve_fails(rest, after, (fuel - 1) as nat);
            },
        }
    }
}

/// Inference fails only for a fault of the source.
pub proof fn lemma_inferred_fails(
    module: ModuleView,
    imported_modules: Seq<ModuleInterfaceView>,
    error: CompileErrorView,
)
    requires
        inferred(module, imported_modules, Err(error)),
    ensures
        !(error is CodeGeneration),
{
    lemma_collect_definitions_fails(
        module.definitions,
        top_level_environment(module, imported_modules),
        module.definitions.len() as int,
    );
    if let Ok(equations) = equations_of(module, imported_modules) {
        if !(error is AmbiguousType) {
            let fuel = choose|fuel: nat|
                solve(equations, Map::empty(), fuel) == Some(Err::<Substitution, _>(error));
            lemma_solve_fails(equations, Map::empty(), fuel);
        }
    }
}

/// Converting an expression fails only for a fault of the source.
pub proof fn lemma_convert_expression_fails(expression: ExpressionView, locals: Locals)
    ensures
        fails_in_source(convert_expression(expression, locals)),
    decreases expression, 0nat,
{
    match expression {
        ExpressionView::Number { .. } => {},
        ExpressionView::Variable { .. } => {},
        ExpressionView::Operation { lhs, rhs, .. } => {
            lemma_convert_expression_fails(*lhs, locals);
            lemma_convert_expression_fails(*rhs, locals);
        },
        ExpressionView::Application { arguments, .. } => {
            lemma_convert_expressions_fails(arguments, locals, arguments.len() as int);
        },
        ExpressionView::LetValues { definitions, expression: body } => {
            lemma_convert_values_fails(definitions, locals, definitions.len() as int);
            if let Ok((_, inner)) = convert_values(definitions, locals, definitions.len() as int) {
                lemma_convert_expression_fails(*body, inner);
            }
        },
        ExpressionView::LetFunctions { definitions, expression: body } => {
            lemma_bind_functions_fails(definitions, locals, definitions.len() as int);
            if let Ok(inner) = crate::compile::closure_converter::bind_functions(
                definitions,
                locals,
                definitions.len() as int,
            ) {
                lemma_convert_functions_fails(definitions, inner, definitions.len() as int);
                lemma_convert_expression_fails(*body, inner);
            }
        },
    }
}

/// Converting the first expressions fails only for a fault of the source.
pub proof fn lemma_convert_expressions_fails(
    expressions: Seq<ExpressionView>,
    locals: Locals,
    count: int,
)
    ensures
        fails_in_source(convert_expressions(expressions, locals, count)),
    decreases expressions, count,
{
    if 0 < count <= expressions.len() {
        lemma_convert_expressions_fails(expressions, locals, count - 1);
        lemma_convert_expression_fails(expressions[count - 1], locals);
    }
}

/// Converting the first definitions of a `let` of values fails only for a
/// fault of the source.
pub proof fn lemma_convert_values_fails(
    definitions: Seq<VariableDefinitionView>,
    locals: Locals,
    count: int,
)
    ensures
        fails_in_source(convert_values(definitions, locals, count)),
    decreases definitions, count,
{
    if 0 < count <= definitions.len() {
        lemma_convert_values_fails(definitions, locals, count - 1);
        if let Ok((_, inner)) = convert_values(definitions, locals, count - 1) {
            lemma_convert_expression_fails(definitions[count - 1].body, inner);
        }
    }
}

/// Binding the names of the first function definitions fails only for a
/// fault of the source.
pub proof fn lemma_bind_functions_fails(
    definitions: Seq<FunctionDefinitionView>,
    locals: Locals,
    count: int,
)
    ensures
        fails_in_source(
            crate::compile::closure_converter::bind_functions(definitions, locals, count),
        ),
    decreases count,
{
    if count > 0 {
        lemma_bind_functions_fails(definitions, locals, count - 1);
    }
}

/// Converting the first function definitions fails only for a fault of the
/// source.
pub proof fn lemma_convert_functions_fails(
    definitions: Seq<FunctionDefinitionView>,
    locals: Locals,
    count: int,
)
    ensures
        fails_in_source(convert_functions(definitions, locals, count)),
    decreases definitions, count,
{
    if 0 < count <= definitions.len() {
        lemma_convert_functions_fails(definitions, locals, count - 1);
        lemma_convert_function_fails(definitions[count - 1], locals);
    }
}

/// Converting a function definition fails only for a fault of the source.
pub proof fn lemma_convert_function_fails(definition: FunctionDefinitionView, locals: Locals)
    ensures
        fails_in_source(convert_function(definition, locals)),
    decreases definition, 0nat,
{
    if let Ok((types, _)) = function_signature(definition) {
        let arguments = typed_arguments(definition.arguments, types);
        lemma_convert_expression_fails(
            definition.body,
            bind_arguments(arguments, locals, arguments.len() as int),
        );
    }
}

/// Converting the first top-level definitions fails only for a fault of the
/// source.
pub proof fn lemma_convert_definitions_fails(definitions: Seq<DefinitionView>, count: int)
    ensures
        fails_in_source(convert_definitions(definitions, count)),
    decreases count,
{
    if count > 0 {
        lemma_convert_definitions_fails(definitions, count - 1);
        match definitions[count - 1] {
            DefinitionView::FunctionDefinition(definition) => {
                lemma_convert_function_fails(definition, Map::empty());
            },
            DefinitionView::VariableDefinition(definition) => {
                lemma_convert_expression_fails(definition.body, Map::empty());
            },
        }
    }
}

/// Exporting the first definitions fails only for a fault of the source.
pub proof fn lemma_exported_fails(definitions: Seq<DefinitionView>, count: int)
    ensures
        fails_in_source(exported(definitions, count)),
    decreases count,
{
    if count > 0 {
        lemma_exported_fails(definitions, count - 1);
    }
}

/// Every name is found: compiling a module never fails in code generation
/// for a variable that is not found.
pub proof fn lemma_compile_finds_names(
    module_name: Name,
    module: ModuleView,
    imported_modules: Seq<ModuleInterfaceView>,
    result: Result<CompiledView, CompileErrorView>,
)
    requires
        compiled(module_name, module, imported_modules, result),
    ensures
        result != Err::<CompiledView, _>(
            CompileErrorView::CodeGeneration(CompileError::VariableNotFound),
        ),
{
    let desugared = desugar_module(module);
    if exists|error: CompileErrorView| #[trigger]
        inferred(desugared, imported_modules, Err(error)) && result == Err::<CompiledView, _>(
            error,
        ) {
        let error = choose|error: CompileErrorView| #[trigger]
            inferred(desugared, imported_modules, Err(error)) && result == Err::<CompiledView, _>(
                error,
            );
        lemma_inferred_fails(desugared, imported_modules, error);
    } else {
        let typed = choose|typed: ModuleView| #[trigger]
            inferred(desugared, imported_modules, Ok(typed)) && result == compile_typed(
                module_name,
                typed,
                imported_modules,
            );
        lemma_convert_definitions_fails(typed.definitions, typed.definitions.len() as int);
        lemma_exported_fails(typed.definitions, typed.definitions.len() as int);
        if let Ok(converted) = convert_module(typed, imported_modules) {
            lemma_names_found(module_name, desugared, imported_modules, typed, converted);
        }
    }
}

} // verus!
