//! Which names an expression of the core language refers to.

use crate::ir::ast::{
    argument_names, DefinitionView, ExpressionView, FunctionDefinitionView, ModuleView,
    ValueDefinitionView,
};
use crate::names::Name;
use vstd::prelude::*;

verus! {

/// The names that the first `count` definitions bind.
pub open spec fn value_names(definitions: Seq<ValueDefinitionView>, count: int) -> Set<Name> {
    Set::new(|name: Name| exists|i: int| 0 <= i < count && i < definitions.len() && definitions[i].name == name)
}

/// The names that the definitions bind.
pub open spec fn function_names(definitions: Seq<FunctionDefinitionView>) -> Set<Name> {
    Set::new(|name: Name| exists|i: int| 0 <= i < definitions.len() && definitions[i].name == name)
}

/// The names that a function definition binds in its body: its arguments
/// and the variables that it captures.
pub open spec fn bound_in_body(definition: FunctionDefinitionView) -> Set<Name> {
    argument_names(definition.arguments).union(argument_names(definition.environment))
}

/// Whether every name that the expression refers to is bound around the
/// reference, by `bound` or by a binder inside the expression, or is among
/// `allowed`.
///
/// A definition of a `let` of values binds its name in the definitions after
/// it and in the body of the `let`. The definitions of a `let` of functions
/// bind their names in each other and in the body of the `let`.
pub open spec fn references_within(
    expression: ExpressionView,
    bound: Set<Name>,
    allowed: Set<Name>,
) -> bool
    decreases expression,
{
    match expression {
        ExpressionView::Number(_) => true,
        ExpressionView::Variable(name) => bound.contains(name) || allowed.contains(name),
        ExpressionView::Operation { lhs, rhs, .. } => references_within(*lhs, bound, allowed)
            && references_within(*rhs, bound, allowed),
        ExpressionView::Application { function, arguments } => {
            &&& bound.contains(function) || allowed.contains(function)
            &&& forall|i: int|
                0 <= i < arguments.len() ==> references_within(
                    #[trigger] arguments[i],
                    bound,
                    allowed,
                )
        },
        ExpressionView::LetValues { definitions, expression } => {
            &&& forall|i: int|
                0 <= i < definitions.len() ==> references_within(
                    (#[trigger] definitions[i]).body,
                    bound.union(value_names(definitions, i)),
                    allowed,
                )
            &&& references_within(
                *expression,
                bound.union(value_names(definitions, definitions.len() as int)),
                allowed,
            )
        },
        ExpressionView::LetFunctions { definitions, expression } => {
            &&& forall|i: int|
                0 <= i < definitions.len() ==> references_within(
                    (#[trigger] definitions[i]).body,
                    bound.union(function_names(definitions)).union(bound_in_body(definitions[i])),
                    allowed,
                )
            &&& references_within(*expression, bound.union(function_names(definitions)), allowed)
        },
    }
}

/// Whether every function definition inside the expression is closed: its
/// body refers only to its arguments, to the variables that it captures, to
/// names bound inside the body, and to the given global names.
pub open spec fn functions_closed(expression: ExpressionView, globals: Set<Name>) -> bool
    decreases expression,
{
    match expression {
        ExpressionView::Number(_) => true,
        ExpressionView::Variable(_) => true,
        ExpressionView::Operation { lhs, rhs, .. } => functions_closed(*lhs, globals)
            && functions_closed(*rhs, globals),
        ExpressionView::Application { arguments, .. } => forall|i: int|
            0 <= i < arguments.len() ==> functions_closed(#[trigger] arguments[i], globals),
        ExpressionView::LetValues { definitions, expression } => {
            &&& forall|i: int|
                0 <= i < definitions.len() ==> functions_closed(
                    (#[trigger] definitions[i]).body,
                    globals,
                )
            &&& functions_closed(*expression, globals)
        },
        ExpressionView::LetFunctions { definitions, expression } => {
            &&& forall|i: int|
                0 <= i < definitions.len() ==> {
                    &&& references_within(
                        (#[trigger] definitions[i]).body,
                        bound_in_body(definitions[i]),
                        globals,
                    )
                    &&& functions_closed(definitions[i].body, globals)
                }
            &&& functions_closed(*expression, globals)
        },
    }
}

/// Whether a function definition and every function definition inside it is
/// closed.
pub open spec fn function_closed(definition: FunctionDefinitionView, globals: Set<Name>) -> bool {
    &&& references_within(definition.body, bound_in_body(definition), globals)
    &&& functions_closed(definition.body, globals)
}

/// The names that a module defines at its top level or takes from other
/// modules.
pub open spec fn top_level_names(module: ModuleView) -> Set<Name> {
    Set::new(
        |name: Name|
            (exists|i: int| 0 <= i < module.definitions.len() && module.definitions[i].name() == name)
                || (exists|i: int|
                0 <= i < module.declarations.len() && module.declarations[i].name == name),
    )
}

/// Whether every function definition of the module, at the top level or
/// inside another definition, is closed over the top-level names, and every
/// top-level value refers only to top-level names.
pub open spec fn module_closed(module: ModuleView) -> bool {
    forall|i: int|
        0 <= i < module.definitions.len() ==> match #[trigger] module.definitions[i] {
            DefinitionView::FunctionDefinition(definition) => function_closed(
                definition,
                top_level_names(module),
            ),
            DefinitionView::ValueDefinition(definition) => references_within(
                definition.body,
                Set::empty(),
                top_level_names(module),
            ) && functions_closed(definition.body, top_level_names(module)),
        }
}

} // verus!
