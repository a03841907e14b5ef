//! Desugaring.
//!
//! Before inference, a `let` of several values becomes nested `let`s of one
//! value each: a value is bound after the values before it, so nothing is
//! lost. The definitions of a `let` of functions may refer to each other and
//! stay together. After inference nothing is left to lower.

use crate::ast::{
    expression_views, function_definition_views, lemma_application_view, lemma_let_functions_view,
    lemma_let_values_view, variable_definition_views, Definition, DefinitionView, Expression,
    ExpressionView, FunctionDefinition, FunctionDefinitionView, Module, ModuleView,
    VariableDefinition, VariableDefinitionView,
};
use crate::debug::share;
use crate::names::clone_names;
use vstd::prelude::*;

verus! {

/// Nested `let`s of one value each, for the definitions from place `from`
/// on, each with its body desugared, around the given body.
pub open spec fn nest(
    definitions: Seq<VariableDefinitionView>,
    body: ExpressionView,
    from: int,
) -> ExpressionView
    decreases definitions, definitions.len() - from,
{
    if from < 0 || from >= definitions.len() {
        body
    } else {
        ExpressionView::LetValues {
            definitions: seq![
                VariableDefinitionView {
                    name: definitions[from].name,
                    body: desugar_expression(definitions[from].body),
                    type_: definitions[from].type_,
                    source_information: definitions[from].source_information,
                },
            ],
            expression: Box::new(nest(definitions, body, from + 1)),
        }
    }
}

/// The expression with every `let` of several values split.
pub open spec fn desugar_expression(expression: ExpressionView) -> ExpressionView
    decreases expression, 0nat,
{
    match expression {
        ExpressionView::Number { .. } => expression,
        ExpressionView::Variable { .. } => expression,
        ExpressionView::Operation {
            operator,
            lhs,
            rhs,
            source_information,
        } => ExpressionView::Operation {
            operator,
            lhs: Box::new(desugar_expression(*lhs)),
            rhs: Box::new(desugar_expression(*rhs)),
            source_information,
        },
        ExpressionView::Application {
            function,
            arguments,
            source_information,
        } => ExpressionView::Application {
            function,
            arguments: Seq::new(
                arguments.len(),
                |i: int|
                    if 0 <= i < arguments.len() {
                        desugar_expression(arguments[i])
                    } else {
                        arbitrary()
                    },
            ),
            source_information,
        },
        ExpressionView::LetValues { definitions, expression } => if definitions.len() == 0 {
            ExpressionView::LetValues {
                definitions: Seq::empty(),
                expression: Box::new(desugar_expression(*expression)),
            }
        } else {
            nest(definitions, desugar_expression(*expression), 0)
        },
        ExpressionView::LetFunctions {
            definitions,
            expression,
        } => ExpressionView::LetFunctions {
            definitions: Seq::new(
                definitions.len(),
                |i: int|
                    if 0 <= i < definitions.len() {
                        FunctionDefinitionView {
                            name: definitions[i].name,
                            arguments: definitions[i].arguments,
                            body: desugar_expression(definitions[i].body),
                            type_: definitions[i].type_,
                            source_information: definitions[i].source_information,
                        }
                    } else {
                        arbitrary()
                    },
            ),
            expression: Box::new(desugar_expression(*expression)),
        },
    }
}

/// The definition with its body desugared.
pub open spec fn desugar_variable_definition(definition: VariableDefinitionView) -> VariableDefinitionView {
    VariableDefinitionView { body: desugar_expression(definition.body), ..definition }
}

/// The definition with its body desugared.
pub open spec fn desugar_function_definition(definition: FunctionDefinitionView) -> FunctionDefinitionView {
    FunctionDefinitionView { body: desugar_expression(definition.body), ..definition }
}

/// The definition with its body desugared.
pub open spec fn desugar_definition(definition: DefinitionView) -> DefinitionView {
    match definition {
        DefinitionView::FunctionDefinition(definition) => DefinitionView::FunctionDefinition(
            desugar_function_definition(definition),
        ),
        DefinitionView::VariableDefinition(definition) => DefinitionView::VariableDefinition(
            desugar_variable_definition(definition),
        ),
    }
}

/// The module with the body of every definition desugared.
pub open spec fn desugar_module(module: ModuleView) -> ModuleView {
    ModuleView {
        definitions: Seq::new(
            module.definitions.len(),
            |i: int| desugar_definition(module.definitions[i]),
        ),
    }
}

/// The expression with every `let` of several values split.
pub fn desugar(expression: &Expression) -> (result: Expression)
    ensures
        result@ == desugar_expression(expression@),
    decreases expression, 0nat,
{
    match expression {
        Expression::Number { .. } => expression.duplicate(),
        Expression::Variable { .. } => expression.duplicate(),
        Expression::Operation { operator, lhs, rhs, source_information } => Expression::Operation {
            operator: *operator,
            lhs: Box::new(desugar(lhs)),
            rhs: Box::new(desugar(rhs)),
            source_information: share(source_information),
        },
        Expression::Application { function, arguments, source_information } => {
            let result = Expression::Application {
                function: function.clone(),
                arguments: desugar_expressions(arguments),
                source_information: share(source_information),
            };
            proof {
                lemma_application_view(*expression);
                lemma_application_view(result);
                assert(expression_views(result->arguments@) =~= desugar_expression(
                    expression@,
                )->arguments);
            }
            result
        },
        Expression::LetValues { definitions, expression: body } => {
            proof {
                lemma_let_values_view(*expression);
            }
            let ghost all = variable_definition_views(definitions@);
            let mut desugared = desugar_variable_definitions(definitions);
            let body = desugar(body);
            if definitions.len() == 0 {
                let result = Expression::LetValues {
                    definitions: desugared,
                    expression: Box::new(body),
                };
                proof {
                    lemma_let_values_view(result);
                    assert(variable_definition_views(desugared@) =~= Seq::empty());
                }
                result
            } else {
                let ghost inner = body@;
                let mut result = body;
                while desugared.len() > 0
                    invariant
                        desugared.len() <= all.len(),
                        forall|i: int|
                            0 <= i < desugared.len() ==> (#[trigger] desugared[i])@
                                == desugar_variable_definition(all[i]),
                        result@ == nest(all, inner, desugared.len() as int),
                    decreases desugared.len(),
                {
                    match desugared.pop() {
                        Some(definition) => {
                            let mut single: Vec<VariableDefinition> = Vec::new();
                            single.push(definition);
                            let nested = Expression::LetValues {
                                definitions: single,
                                expression: Box::new(result),
                            };
                            proof {
                                lemma_let_values_view(nested);
                                assert(variable_definition_views(single@) =~= seq![
                                    desugar_variable_definition(all[desugared.len() as int]),
                                ]);
                            }
                            result = nested;
                        },
                        None => {},
                    }
                }
                result
            }
        },
        Expression::LetFunctions { definitions, expression: body } => {
            let result = Expression::LetFunctions {
                definitions: desugar_function_definitions(definitions),
                expression: Box::new(desugar(body)),
            };
            proof {
                lemma_let_functions_view(*expression);
                lemma_let_functions_view(result);
                assert(function_definition_views(result->LetFunctions_definitions@)
                    =~= desugar_expression(expression@)->LetFunctions_definitions);
            }
            result
        },
    }
}

/// The given expressions, each desugared.
pub fn desugar_expressions(expressions: &Vec<Expression>) -> (result: Vec<Expression>)
    ensures
        result.len() == expressions.len(),
        forall|i: int|
            0 <= i < expressions.len() ==> (#[trigger] result[i])@ == desugar_expression(
                expressions[i]@,
            ),
    decreases expressions, 1nat,
{
    let mut result: Vec<Expression> = Vec::new();
    let mut index: usize = 0;
    while index < expressions.len()
        invariant
            index <= expressions.len(),
            result.len() == index,
            forall|i: int|
                0 <= i < index ==> (#[trigger] result[i])@ == desugar_expression(expressions[i]@),
        decreases expressions.len() - index,
    {
        result.push(desugar(&expressions[index]));
        index += 1;
    }
    result
}

/// The given definitions, each with its body desugared.
pub fn desugar_variable_definitions(definitions: &Vec<VariableDefinition>) -> (result: Vec<
    VariableDefinition,
>)
    ensures
        result.len() == definitions.len(),
        forall|i: int|
            0 <= i < definitions.len() ==> (#[trigger] result[i])@ == desugar_variable_definition(
                definitions[i]@,
            ),
    decreases definitions, 1nat,
{
    let mut result: Vec<VariableDefinition> = Vec::new();
    let mut index: usize = 0;
    while index < definitions.len()
        invariant
            index <= definitions.len(),
            result.len() == index,
            forall|i: int|
                0 <= i < index ==> (#[trigger] result[i])@ == desugar_variable_definition(
                    definitions[i]@,
                ),
        decreases definitions.len() - index,
    {
        let definition = &definitions[index];
        result.push(
            VariableDefinition::new(
                definition.name.clone(),
                desugar(&definition.body),
                definition.type_.duplicate(),
                share(&definition.source_information),
            ),
        );
        index += 1;
    }
    result
}

/// The given definitions, each with its body desugared.
pub fn desugar_function_definitions(definitions: &Vec<FunctionDefinition>) -> (result: Vec<
    FunctionDefinition,
>)
    ensures
        result.len() == definitions.len(),
        forall|i: int|
            0 <= i < definitions.len() ==> (#[trigger] result[i])@ == desugar_function_definition(
                definitions[i]@,
            ),
    decreases definitions, 1nat,
{
    let mut result: Vec<FunctionDefinition> = Vec::new();
    let mut index: usize = 0;
    while index < definitions.len()
        invariant
            index <= definitions.len(),
            result.len() == index,
            forall|i: int|
                0 <= i < index ==> (#[trigger] result[i])@ == desugar_function_definition(
                    definitions[i]@,
                ),
        decreases definitions.len() - index,
    {
        let definition = &definitions[index];
        result.push(
            FunctionDefinition::new(
                definition.name.clone(),
                clone_names(&definition.arguments),
                desugar(&definition.body),
                definition.type_.duplicate(),
                share(&definition.source_information),
            ),
        );
        index += 1;
    }
    result
}

/// The module desugared before its types are inferred: every `let` of
/// several values becomes nested `let`s of one value each.
pub fn desugar_without_types(module: &Module) -> (result: Module)
    ensures
        result@ == desugar_module(module@),
{
    let mut definitions: Vec<Definition> = Vec::new();
    let mut index: usize = 0;
    while index < module.definitions.len()
        invariant
            index <= module.definitions.len(),
            definitions.len() == index,
            forall|i: int|
                0 <= i < index ==> (#[trigger] definitions[i])@ == desugar_definition(
                    module.definitions[i]@,
                ),
        decreases module.definitions.len() - index,
    {
        let definition = match &module.definitions[index] {
            Definition::FunctionDefinition(definition) => Definition::FunctionDefinition(
                FunctionDefinition::new(
                    definition.name.clone(),
                    clone_names(&definition.arguments),
                    desugar(&definition.body),
                    definition.type_.duplicate(),
                    share(&definition.source_information),
                ),
            ),
            Definition::VariableDefinition(definition) => Definition::VariableDefinition(
                VariableDefinition::new(
                    definition.name.clone(),
                    desugar(&definition.body),
                    definition.type_.duplicate(),
                    share(&definition.source_information),
                ),
            ),
        };
        definitions.push(definition);
        index += 1;
    }
    let result = Module::new(definitions);
    assert(result@.definitions =~= desugar_module(module@).definitions);
    result
}

/// The module desugared after its types are inferred. Numbers are the only
/// values, so no operation waits for its types to be lowered: the module is
/// handed on as it is.
pub fn desugar_with_types(module: &Module) -> (result: Module)
    ensures
        result@ == module@,
{
    module.clone()
}

} // verus!
