//! Substitution idempotence: once an idempotent substitution, such as the
//! one that unification finds, is applied to a piece of syntax, applying it
//! again changes nothing.

use crate::ast::{
    DefinitionView, ExpressionView, FunctionDefinitionView, ModuleView, VariableDefinitionView,
};
use crate::types::{idempotent, lemma_substitution_idempotent, Substitution};
use vstd::prelude::*;

verus! {

/// Applying an idempotent substitution twice to the types of an expression
/// is applying it once.
pub proof fn lemma_expression_idempotent(expression: ExpressionView, substitution: Substitution)
    requires
        idempotent(substitution),
    ensures
        expression.substitute(substitution).substitute(substitution) == expression.substitute(
            substitution,
        ),
    decreases expression, 0nat,
{
    let once = expression.substitute(substitution);
    let twice = once.substitute(substitution);
    match expression {
        ExpressionView::Number { .. } => {},
        ExpressionView::Variable { .. } => {},
        ExpressionView::Operation { lhs, rhs, .. } => {
            lemma_expression_idempotent(*lhs, substitution);
            lemma_expression_idempotent(*rhs, substitution);
        },
        ExpressionView::Application { arguments, .. } => {
            assert forall|i: int| 0 <= i < arguments.len() implies twice->Application_arguments[i]
                == once->Application_arguments[i] by {
                lemma_expression_idempotent(arguments[i], substitution);
            }
            assert(twice->Application_arguments =~= once->Application_arguments);
        },
        ExpressionView::LetValues { definitions, expression: body } => {
            assert forall|i: int| 0 <= i < definitions.len() implies twice->LetValues_definitions[i]
                == once->LetValues_definitions[i] by {
                lemma_variable_definition_idempotent(definitions[i], substitution);
            }
            assert(twice->LetValues_definitions =~= once->LetValues_definitions);
            lemma_expression_idempotent(*body, substitution);
        },
        ExpressionView::LetFunctions { definitions, expression: body } => {
            assert forall|i: int|
                0 <= i < definitions.len() implies twice->LetFunctions_definitions[i]
                == once->LetFunctions_definitions[i] by {
                lemma_function_definition_idempotent(definitions[i], substitution);
            }
            assert(twice->LetFunctions_definitions =~= once->LetFunctions_definitions);
            lemma_expression_idempotent(*body, substitution);
        },
    }
}

/// Applying an idempotent substitution twice to the types of a function
/// definition is applying it once.
pub proof fn lemma_function_definition_idempotent(
    definition: FunctionDefinitionView,
    substitution: Substitution,
)
    requires
        idempotent(substitution),
    ensures
        definition.substitute(substitution).substitute(substitution) == definition.substitute(
            substitution,
        ),
    decreases definition, 1nat,
{
    lemma_expression_idempotent(definition.body, substitution);
    lemma_substitution_idempotent(substitution, definition.type_);
}

/// Applying an idempotent substitution twice to the types of a value
/// definition is applying it once.
pub proof fn lemma_variable_definition_idempotent(
    definition: VariableDefinitionView,
    substitution: Substitution,
)
    requires
        idempotent(substitution),
    ensures
        definition.substitute(substitution).substitute(substitution) == definition.substitute(
            substitution,
        ),
    decreases definition, 1nat,
{
    lemma_expression_idempotent(definition.body, substitution);
    lemma_substitution_idempotent(substitution, definition.type_);
}

/// Substitution idempotence for a module: applying an idempotent
/// substitution twice to every type of a module is applying it once.
pub proof fn lemma_module_idempotent(module: ModuleView, substitution: Substitution)
    requires
        idempotent(substitution),
    ensures
        module.substitute(substitution).substitute(substitution) == module.substitute(
            substitution,
        ),
{
    let once = module.substitute(substitution);
    let twice = once.substitute(substitution);
    assert forall|i: int| 0 <= i < module.definitions.len() implies twice.definitions[i]
        == once.definitions[i] by {
        match module.definitions[i] {
            DefinitionView::FunctionDefinition(definition) => {
                lemma_function_definition_idempotent(definition, substitution);
            },
            DefinitionView::VariableDefinition(definition) => {
                lemma_variable_definition_idempotent(definition, substitution);
            },
        }
    }
    assert(twice.definitions =~= once.definitions);
}

} // verus!
