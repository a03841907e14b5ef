//! Type preservation: desugaring and inference keep a well-typed module
//! well-typed, with the types that its top-level definitions declare.

use crate::ast::{
    DefinitionView, ExpressionView, FunctionDefinitionView, ModuleView, VariableDefinitionView,
};
use crate::compile::desugar::{
    desugar_expression, desugar_function_definition, desugar_module, nest,
};
use crate::compile::error::CompileErrorView;
use crate::compile::type_inference::{
    bind_definitions, bind_functions, collect_arguments, collect_definitions, collect_expression,
    collect_function, collect_functions, collect_values, equations_of, first_of, inferred,
    lemma_collect_values_error, module_closed, open_in_definitions, open_in_expression,
    open_in_expressions, open_in_functions, open_in_values, top_level_environment, TypeEnvironment,
    Typing,
};
use crate::compile::unification::{
    most_general_unifier, unifiable, unifies_all, EquationView,
};
use crate::interface::ModuleInterfaceView;
use crate::names::Name;
use crate::types::{lemma_substitute_disjoint, Substitution, TypeView};
use vstd::prelude::*;

verus! {

/// Whether every equation holds as it stands.
pub open spec fn all_hold(equations: Seq<EquationView>) -> bool {
    forall|i: int| 0 <= i < equations.len() ==> (#[trigger] equations[i]).lhs == equations[i].rhs
}

/// Whether a module is well-typed: no type variable is left in it, typing it
/// gives no error, and the equations that typing it asks for hold.
pub open spec fn well_typed(module: ModuleView, imported_modules: Seq<ModuleInterfaceView>) -> bool {
    &&& module_closed(module)
    &&& equations_of(module, imported_modules) matches Ok(equations) && all_hold(equations)
}

/// The names of the top-level definitions of a module with the types that
/// they declare, in the order of the definitions.
pub open spec fn signatures(module: ModuleView) -> Seq<(Name, TypeView)> {
    Seq::new(
        module.definitions.len(),
        |i: int| (module.definitions[i].name(), module.definitions[i].type_()),
    )
}

/// No variable occurs in a type without variables.
pub proof fn lemma_closed_variables(type_: TypeView)
    requires
        type_.is_closed(),
    ensures
        forall|id: usize| !type_.variables().contains(id),
    decreases type_,
{
    match type_ {
        TypeView::Function { arguments, result } => {
            assert forall|id: usize| !type_.variables().contains(id) by {
                if type_.variables().contains(id) {
                    let i = choose|i: int|
                        0 <= i < arguments.len() && (#[trigger] arguments[i]).variables().contains(
                            id,
                        );
                    lemma_closed_variables(arguments[i]);
                }
            }
        },
        TypeView::Value(_) => {},
        TypeView::Variable(_) => {},
    }
}

/// A substitution leaves a type without variables alone.
pub proof fn lemma_closed_type(type_: TypeView, substitution: Substitution)
    requires
        type_.is_closed(),
    ensures
        type_.substitute(substitution) == type_,
{
    lemma_closed_variables(type_);
    lemma_substitute_disjoint(type_, substitution);
}

/// Desugaring changes neither the type of an expression nor the equations
/// that typing it asks for.
pub proof fn lemma_desugar_typing(expression: ExpressionView, environment: TypeEnvironment)
    ensures
        collect_expression(desugar_expression(expression), environment) == collect_expression(
            expression,
            environment,
        ),
    decreases expression, 0nat,
{
    match expression {
        ExpressionView::Number { .. } => {},
        ExpressionView::Variable { .. } => {},
        ExpressionView::Operation { lhs, rhs, .. } => {
            lemma_desugar_typing(*lhs, environment);
            lemma_desugar_typing(*rhs, environment);
        },
        ExpressionView::Application { arguments, .. } => {
            let desugared = desugar_expression(expression)->arguments;
            lemma_desugar_arguments(arguments, desugared, environment, arguments.len() as int);
            assert(collect_expression(desugar_expression(expression), environment)
                == collect_expression(expression, environment));
        },
        ExpressionView::LetValues { definitions, expression: body } => {
            let desugared = desugar_expression(*body);
            assert forall|scope: TypeEnvironment| #[trigger]
                collect_expression(desugared, scope) == collect_expression(*body, scope) by {
                lemma_desugar_typing(*body, scope);
            }
            if definitions.len() == 0 {
                let none = Seq::<VariableDefinitionView>::empty();
                assert(collect_values(none, environment, 0) == Ok::<_, CompileErrorView>(
                    (environment, Seq::<EquationView>::empty()),
                ));
                assert(collect_values(definitions, environment, 0) == Ok::<_, CompileErrorView>(
                    (environment, Seq::<EquationView>::empty()),
                ));
                let whole = desugar_expression(expression);
                assert(whole == ExpressionView::LetValues {
                    definitions: none,
                    expression: Box::new(desugared),
                });
                assert(collect_expression(whole, environment) == after(
                    Seq::<EquationView>::empty(),
                    collect_expression(desugared, environment),
                ));
                assert(collect_expression(expression, environment) == after(
                    Seq::<EquationView>::empty(),
                    collect_expression(*body, environment),
                ));
            } else {
                lemma_desugar_nest(definitions, *body, desugared, environment, 0);
                let typing = collect_expression(desugar_expression(expression), environment);
                assert(desugar_expression(expression) == nest(definitions, desugared, 0));
                assert(collect_expression(expression, environment) == collect_let(
                    definitions,
                    *body,
                    environment,
                ));
                if typing is Ok {
                    assert(Seq::<EquationView>::empty() + typing->Ok_0.1 =~= typing->Ok_0.1);
                }
                assert(typing == collect_expression(expression, environment));
            }
        },
        ExpressionView::LetFunctions { definitions, expression: body } => {
            let desugared = desugar_expression(expression)->LetFunctions_definitions;
            let count = definitions.len() as int;
            lemma_desugar_bind_functions(definitions, desugared, environment, count);
            let inner = bind_functions(definitions, environment, count);
            lemma_desugar_functions(definitions, desugared, inner, count);
            lemma_desugar_typing(*body, inner);
            assert(collect_expression(desugar_expression(expression), environment)
                == collect_expression(expression, environment));
        },
    }
}

/// Desugaring the arguments of an application changes neither their types
/// nor the equations that typing them asks for.
pub proof fn lemma_desugar_arguments(
    expressions: Seq<ExpressionView>,
    desugared: Seq<ExpressionView>,
    environment: TypeEnvironment,
    count: int,
)
    requires
        0 <= count <= expressions.len(),
        desugared.len() == expressions.len(),
        forall|i: int|
            0 <= i < expressions.len() ==> (#[trigger] desugared[i]) == desugar_expression(
                expressions[i],
            ),
    ensures
        collect_arguments(desugared, environment, count) == collect_arguments(
            expressions,
            environment,
            count,
        ),
    decreases expressions, count,
{
    if count > 0 {
        lemma_desugar_arguments(expressions, desugared, environment, count - 1);
        lemma_desugar_typing(expressions[count - 1], environment);
    }
}

/// What typing the definitions of a `let` of values and then its body gives.
pub open spec fn collect_let(
    definitions: Seq<VariableDefinitionView>,
    body: ExpressionView,
    environment: TypeEnvironment,
) -> Typing {
    match collect_values(definitions, environment, definitions.len() as int) {
        Err(error) => Err(error),
        Ok((environment, first)) => match collect_expression(body, environment) {
            Err(error) => Err(error),
            Ok((type_, second)) => Ok((type_, first + second)),
        },
    }
}

/// The equations before, with those that a typing gives.
pub open spec fn after(first: Seq<EquationView>, typing: Typing) -> Typing {
    match typing {
        Err(error) => Err(error),
        Ok((type_, second)) => Ok((type_, first + second)),
    }
}

/// Typing the nested `let`s for the definitions from place `from` on, after
/// the definitions before are typed, gives what typing the `let` of all
/// definitions gives.
pub proof fn lemma_desugar_nest(
    definitions: Seq<VariableDefinitionView>,
    body: ExpressionView,
    desugared: ExpressionView,
    environment: TypeEnvironment,
    from: int,
)
    requires
        0 <= from <= definitions.len(),
        collect_values(definitions, environment, from) is Ok,
        forall|scope: TypeEnvironment| #[trigger]
            collect_expression(desugared, scope) == collect_expression(body, scope),
    ensures
        after(
            collect_values(definitions, environment, from)->Ok_0.1,
            collect_expression(
                nest(definitions, desugared, from),
                collect_values(definitions, environment, from)->Ok_0.0,
            ),
        ) == collect_let(definitions, body, environment),
    decreases definitions, definitions.len() - from,
{
    let count = definitions.len() as int;
    let (inner, first) = collect_values(definitions, environment, from)->Ok_0;
    if from == count {
        assert(collect_expression(desugared, inner) == collect_expression(body, inner));
    } else {
        let definition = definitions[from];
        lemma_desugar_typing(definition.body, inner);
        let single = seq![
            VariableDefinitionView {
                name: definition.name,
                body: desugar_expression(definition.body),
                type_: definition.type_,
                source_information: definition.source_information,
            },
        ];
        assert(collect_values(single, inner, 0) == Ok::<_, CompileErrorView>(
            (inner, Seq::<EquationView>::empty()),
        ));
        let next = nest(definitions, desugared, from + 1);
        let nested = nest(definitions, desugared, from);
        assert(nested == ExpressionView::LetValues {
            definitions: single,
            expression: Box::new(next),
        });
        assert(collect_expression(single[0].body, inner) == collect_expression(
            definition.body,
            inner,
        ));
        match collect_expression(definition.body, inner) {
            Err(error) => {
                assert(collect_values(definitions, environment, from + 1) == Err::<
                    (TypeEnvironment, Seq<EquationView>),
                    _,
                >(error));
                lemma_collect_values_error(definitions, environment, from + 1, count);
                assert(collect_values(single, inner, 1) == Err::<
                    (TypeEnvironment, Seq<EquationView>),
                    _,
                >(error));
                assert(collect_expression(nested, inner) == Err::<
                    (TypeView, Seq<EquationView>),
                    _,
                >(error));
            },
            Ok((type_, second)) => {
                let equation = EquationView {
                    lhs: definition.type_,
                    rhs: type_,
                    source_information: definition.source_information,
                };
                let bound = inner.insert(definition.name, definition.type_);
                assert(Seq::<EquationView>::empty() + second =~= second);
                assert(collect_values(single, inner, 1) == Ok::<_, CompileErrorView>(
                    (bound, second.push(equation)),
                ));
                assert(collect_values(definitions, environment, from + 1) == Ok::<
                    _,
                    CompileErrorView,
                >((bound, (first + second).push(equation))));
                lemma_desugar_nest(definitions, body, desugared, environment, from + 1);
                let rest = collect_expression(next, bound);
                assert(collect_expression(nested, inner) == after(second.push(equation), rest));
                if rest is Ok {
                    assert(first + (second.push(equation) + rest->Ok_0.1) =~= (first
                        + second).push(equation) + rest->Ok_0.1);
                }
            },
        }
    }
}

/// Desugaring the definitions of a `let` of functions changes neither their
/// names nor the types that they declare.
pub proof fn lemma_desugar_bind_functions(
    definitions: Seq<FunctionDefinitionView>,
    desugared: Seq<FunctionDefinitionView>,
    environment: TypeEnvironment,
    count: int,
)
    requires
        0 <= count <= definitions.len(),
        desugared.len() == definitions.len(),
        forall|i: int|
            0 <= i < definitions.len() ==> (#[trigger] desugared[i])
                == desugar_function_definition(definitions[i]),
    ensures
        bind_functions(desugared, environment, count) == bind_functions(
            definitions,
            environment,
            count,
        ),
    decreases count,
{
    if count > 0 {
        lemma_desugar_bind_functions(definitions, desugared, environment, count - 1);
    }
}

/// Desugaring function definitions does not change the equations that typing
/// them asks for.
pub proof fn lemma_desugar_functions(
    definitions: Seq<FunctionDefinitionView>,
    desugared: Seq<FunctionDefinitionView>,
    environment: TypeEnvironment,
    count: int,
)
    requires
        0 <= count <= definitions.len(),
        desugared.len() == definitions.len(),
        forall|i: int|
            0 <= i < definitions.len() ==> (#[trigger] desugared[i])
                == desugar_function_definition(definitions[i]),
    ensures
        collect_functions(desugared, environment, count) == collect_functions(
            definitions,
            environment,
            count,
        ),
    decreases definitions, count,
{
    if count > 0 {
        lemma_desugar_functions(definitions, desugared, environment, count - 1);
        lemma_desugar_function(definitions[count - 1], environment);
    }
}

/// Desugaring a function definition does not change the equations that
/// typing it asks for.
pub proof fn lemma_desugar_function(definition: FunctionDefinitionView, environment: TypeEnvironment)
    ensures
        collect_function(desugar_function_definition(definition), environment) == collect_function(
            definition,
            environment,
        ),
    decreases definition, 0nat,
{
    if definition.type_ is Function && definition.type_->arguments.len()
        == definition.arguments.len() {
        lemma_desugar_typing(
            definition.body,
            crate::compile::type_inference::bind_names(
                definition.arguments,
                definition.type_->arguments,
                environment,
                definition.arguments.len() as int,
            ),
        );
    }
}

/// Whether the declared type of a definition holds a type variable, or the
/// body of the definition holds such a definition: the place of the first.
pub open spec fn open_in(
    type_: TypeView,
    body: ExpressionView,
    source_information: crate::debug::SourceInformationView,
) -> Option<crate::debug::SourceInformationView> {
    if type_.is_closed() {
        open_in_expression(body)
    } else {
        Some(source_information)
    }
}

/// Desugaring keeps the place of the first definition whose declared type
/// holds a type variable.
pub proof fn lemma_desugar_open(expression: ExpressionView)
    ensures
        open_in_expression(desugar_expression(expression)) == open_in_expression(expression),
    decreases expression, 0nat,
{
    match expression {
        ExpressionView::Number { .. } => {},
        ExpressionView::Variable { .. } => {},
        ExpressionView::Operation { lhs, rhs, .. } => {
            lemma_desugar_open(*lhs);
            lemma_desugar_open(*rhs);
        },
        ExpressionView::Application { arguments, .. } => {
            let desugared = desugar_expression(expression)->arguments;
            lemma_desugar_open_expressions(arguments, desugared, arguments.len() as int);
        },
        ExpressionView::LetValues { definitions, expression: body } => {
            lemma_desugar_open(*body);
            let desugared = desugar_expression(*body);
            if definitions.len() == 0 {
                let none = Seq::<VariableDefinitionView>::empty();
                assert(open_in_values(none, 0) is None);
                assert(open_in_values(definitions, 0) is None);
                let whole = desugar_expression(expression);
                assert(whole == ExpressionView::LetValues {
                    definitions: none,
                    expression: Box::new(desugared),
                });
                assert(open_in_expression(whole) == first_of(None, open_in_expression(desugared)));
            } else {
                lemma_desugar_open_nest(definitions, *body, desugared, 0);
                assert(open_in_values(definitions, 0) is None);
            }
        },
        ExpressionView::LetFunctions { definitions, expression: body } => {
            let desugared = desugar_expression(expression)->LetFunctions_definitions;
            lemma_desugar_open_functions(definitions, desugared, definitions.len() as int);
            lemma_desugar_open(*body);
        },
    }
}

/// Desugaring expressions keeps the place of the first such definition.
pub proof fn lemma_desugar_open_expressions(
    expressions: Seq<ExpressionView>,
    desugared: Seq<ExpressionView>,
    count: int,
)
    requires
        0 <= count <= expressions.len(),
        desugared.len() == expressions.len(),
        forall|i: int|
            0 <= i < expressions.len() ==> (#[trigger] desugared[i]) == desugar_expression(
                expressions[i],
            ),
    ensures
        open_in_expressions(desugared, count) == open_in_expressions(expressions, count),
    decreases expressions, count,
{
    if count > 0 {
        lemma_desugar_open_expressions(expressions, desugared, count - 1);
        lemma_desugar_open(expressions[count - 1]);
    }
}

/// Desugaring function definitions keeps the place of the first such
/// definition.
pub proof fn lemma_desugar_open_functions(
    definitions: Seq<FunctionDefinitionView>,
    desugared: Seq<FunctionDefinitionView>,
    count: int,
)
    requires
        0 <= count <= definitions.len(),
        desugared.len() == definitions.len(),
        forall|i: int|
            0 <= i < definitions.len() ==> (#[trigger] desugared[i])
                == desugar_function_definition(definitions[i]),
    ensures
        open_in_functions(desugared, count) == open_in_functions(definitions, count),
    decreases definitions, count,
{
    if count > 0 {
        lemma_desugar_open_functions(definitions, desugared, count - 1);
        lemma_desugar_open(definitions[count - 1].body);
    }
}

/// The first such definition among the definitions before place `from` and
/// in the nested `let`s for the rest is the first in the `let` of all.
pub proof fn lemma_desugar_open_nest(
    definitions: Seq<VariableDefinitionView>,
    body: ExpressionView,
    desugared: ExpressionView,
    from: int,
)
    requires
        0 <= from <= definitions.len(),
        open_in_expression(desugared) == open_in_expression(body),
    ensures
        first_of(
            open_in_values(definitions, from),
            open_in_expression(nest(definitions, desugared, from)),
        ) == first_of(
            open_in_values(definitions, definitions.len() as int),
            open_in_expression(body),
        ),
    decreases definitions, definitions.len() - from,
{
    let count = definitions.len() as int;
    if from < count {
        let definition = definitions[from];
        lemma_desugar_open(definition.body);
        let single = seq![
            VariableDefinitionView {
                name: definition.name,
                body: desugar_expression(definition.body),
                type_: definition.type_,
                source_information: definition.source_information,
            },
        ];
        let next = nest(definitions, desugared, from + 1);
        let nested = nest(definitions, desugared, from);
        assert(nested == ExpressionView::LetValues {
            definitions: single,
            expression: Box::new(next),
        });
        assert(open_in_values(single, 0) is None);
        let item = open_in(definition.type_, definition.body, definition.source_information);
        assert(open_in_values(single, 1) == first_of(None, item));
        assert(open_in_expression(nested) == first_of(item, open_in_expression(next)));
        assert(open_in_values(definitions, from + 1) == first_of(
            open_in_values(definitions, from),
            item,
        ));
        lemma_desugar_open_nest(definitions, body, desugared, from + 1);
    }
}

/// Where no definition among the first expressions declares a type with a
/// type variable, none in any of them does.
pub proof fn lemma_closed_expressions_at(expressions: Seq<ExpressionView>, count: int, index: int)
    requires
        0 <= index < count <= expressions.len(),
        open_in_expressions(expressions, count) is None,
    ensures
        open_in_expression(expressions[index]) is None,
    decreases count,
{
    if index < count - 1 {
        lemma_closed_expressions_at(expressions, count - 1, index);
    }
}

/// Where no definition among the first definitions declares a type with a
/// type variable, each declares a type without and has a body without such
/// a definition.
pub proof fn lemma_closed_values_at(
    definitions: Seq<VariableDefinitionView>,
    count: int,
    index: int,
)
    requires
        0 <= index < count <= definitions.len(),
        open_in_values(definitions, count) is None,
    ensures
        definitions[index].type_.is_closed(),
        open_in_expression(definitions[index].body) is None,
    decreases count,
{
    if index < count - 1 {
        lemma_closed_values_at(definitions, count - 1, index);
    }
}

/// Where no definition among the first definitions declares a type with a
/// type variable, each declares a type without and has a body without such
/// a definition.
pub proof fn lemma_closed_functions_at(
    definitions: Seq<FunctionDefinitionView>,
    count: int,
    index: int,
)
    requires
        0 <= index < count <= definitions.len(),
        open_in_functions(definitions, count) is None,
    ensures
        definitions[index].type_.is_closed(),
        open_in_expression(definitions[index].body) is None,
    decreases count,
{
    if index < count - 1 {
        lemma_closed_functions_at(definitions, count - 1, index);
    }
}

/// Where no definition among the first definitions declares a type with a
/// type variable, each declares a type without and has a body without such
/// a definition.
pub proof fn lemma_closed_definitions_at(definitions: Seq<DefinitionView>, count: int, index: int)
    requires
        0 <= index < count <= definitions.len(),
        open_in_definitions(definitions, count) is None,
    ensures
        definitions[index].type_().is_closed(),
        match definitions[index] {
            DefinitionView::FunctionDefinition(definition) => open_in_expression(definition.body)
                is None,
            DefinitionView::VariableDefinition(definition) => open_in_expression(definition.body)
                is None,
        },
    decreases count,
{
    if index < count - 1 {
        lemma_closed_definitions_at(definitions, count - 1, index);
    }
}

/// A substitution leaves an expression alone in which no definition declares
/// a type with a type variable.
pub proof fn lemma_closed_expression(expression: ExpressionView, substitution: Substitution)
    requires
        open_in_expression(expression) is None,
    ensures
        expression.substitute(substitution) == expression,
    decreases expression,
{
    match expression {
        ExpressionView::Number { .. } => {},
        ExpressionView::Variable { .. } => {},
        ExpressionView::Operation { lhs, rhs, .. } => {
            lemma_closed_expression(*lhs, substitution);
            lemma_closed_expression(*rhs, substitution);
        },
        ExpressionView::Application { function, arguments, source_information } => {
            let substituted = expression.substitute(substitution)->arguments;
            assert forall|i: int| 0 <= i < arguments.len() implies substituted[i]
                == arguments[i] by {
                lemma_closed_expressions_at(arguments, arguments.len() as int, i);
                lemma_closed_expression(arguments[i], substitution);
            }
            assert(substituted =~= arguments);
        },
        ExpressionView::LetValues { definitions, expression: body } => {
            let substituted = expression.substitute(substitution)->LetValues_definitions;
            assert forall|i: int| 0 <= i < definitions.len() implies substituted[i]
                == definitions[i] by {
                lemma_closed_values_at(definitions, definitions.len() as int, i);
                lemma_closed_expression(definitions[i].body, substitution);
                lemma_closed_type(definitions[i].type_, substitution);
            }
            assert(substituted =~= definitions);
            lemma_closed_expression(*body, substitution);
        },
        ExpressionView::LetFunctions { definitions, expression: body } => {
            let substituted = expression.substitute(substitution)->LetFunctions_definitions;
            assert forall|i: int| 0 <= i < definitions.len() implies substituted[i]
                == definitions[i] by {
                lemma_closed_functions_at(definitions, definitions.len() as int, i);
                lemma_closed_expression(definitions[i].body, substitution);
                lemma_closed_type(definitions[i].type_, substitution);
            }
            assert(substituted =~= definitions);
            lemma_closed_expression(*body, substitution);
        },
    }
}

/// A substitution leaves a module alone in which no type variable is left.
pub proof fn lemma_closed_module(module: ModuleView, substitution: Substitution)
    requires
        module_closed(module),
    ensures
        module.substitute(substitution) == module,
{
    let substituted = module.substitute(substitution).definitions;
    assert forall|i: int| 0 <= i < module.definitions.len() implies substituted[i]
        == module.definitions[i] by {
        lemma_closed_definitions_at(module.definitions, module.definitions.len() as int, i);
        lemma_closed_type(module.definitions[i].type_(), substitution);
        match module.definitions[i] {
            DefinitionView::FunctionDefinition(definition) => {
                lemma_closed_expression(definition.body, substitution);
            },
            DefinitionView::VariableDefinition(definition) => {
                lemma_closed_expression(definition.body, substitution);
            },
        }
    }
    assert(substituted =~= module.definitions);
}

/// Desugaring a module changes neither the names bound at its top level nor
/// their types.
pub proof fn lemma_desugar_environment(
    module: ModuleView,
    environment: TypeEnvironment,
    count: int,
)
    requires
        0 <= count <= module.definitions.len(),
    ensures
        bind_definitions(desugar_module(module).definitions, environment, count)
            == bind_definitions(module.definitions, environment, count),
    decreases count,
{
    if count > 0 {
        lemma_desugar_environment(module, environment, count - 1);
    }
}

/// Desugaring a module does not change the equations that typing it asks
/// for.
pub proof fn lemma_desugar_definitions(
    module: ModuleView,
    environment: TypeEnvironment,
    count: int,
)
    requires
        0 <= count <= module.definitions.len(),
    ensures
        collect_definitions(desugar_module(module).definitions, environment, count)
            == collect_definitions(module.definitions, environment, count),
    decreases count,
{
    if count > 0 {
        lemma_desugar_definitions(module, environment, count - 1);
        match module.definitions[count - 1] {
            DefinitionView::FunctionDefinition(definition) => {
                lemma_desugar_function(definition, environment);
            },
            DefinitionView::VariableDefinition(definition) => {
                lemma_desugar_typing(definition.body, environment);
            },
        }
    }
}

/// Desugaring a module keeps the place of the first definition whose
/// declared type holds a type variable.
pub proof fn lemma_desugar_open_definitions(module: ModuleView, count: int)
    requires
        0 <= count <= module.definitions.len(),
    ensures
        open_in_definitions(desugar_module(module).definitions, count) == open_in_definitions(
            module.definitions,
            count,
        ),
    decreases count,
{
    if count > 0 {
        lemma_desugar_open_definitions(module, count - 1);
        match module.definitions[count - 1] {
            DefinitionView::FunctionDefinition(definition) => {
                lemma_desugar_open(definition.body);
            },
            DefinitionView::VariableDefinition(definition) => {
                lemma_desugar_open(definition.body);
            },
        }
    }
}

/// Type preservation through desugaring: for a well-typed module, inference
/// on the desugared module gives no error. It gives the desugared module,
/// which is well-typed, and whose top-level definitions declare the types
/// that those of the module declare.
pub proof fn lemma_type_preservation(
    module: ModuleView,
    imported_modules: Seq<ModuleInterfaceView>,
    result: Result<ModuleView, CompileErrorView>,
)
    requires
        well_typed(module, imported_modules),
        inferred(desugar_module(module), imported_modules, result),
    ensures
        result == Ok::<_, CompileErrorView>(desugar_module(module)),
        well_typed(desugar_module(module), imported_modules),
        signatures(desugar_module(module)) == signatures(module),
{
    let desugared = desugar_module(module);
    let count = module.definitions.len() as int;
    let imported = crate::compile::type_inference::bind_interfaces(
        imported_modules,
        Map::empty(),
        imported_modules.len() as int,
    );
    lemma_desugar_environment(module, imported, count);
    let environment = top_level_environment(module, imported_modules);
    assert(top_level_environment(desugared, imported_modules) == environment);
    lemma_desugar_definitions(module, environment, count);
    lemma_desugar_open_definitions(module, count);
    let equations = equations_of(module, imported_modules)->Ok_0;
    assert(equations_of(desugared, imported_modules) == Ok::<_, CompileErrorView>(equations));
    assert(module_closed(desugared));
    assert(signatures(desugared) =~= signatures(module));
    let identity = Map::<usize, TypeView>::empty();
    assert(unifies_all(identity, equations));
    assert(unifiable(equations));
    match result {
        Ok(typed) => {
            let substitution = choose|substitution: Substitution|
                #![trigger most_general_unifier(substitution, equations)]
                most_general_unifier(substitution, equations) && typed == desugared.substitute(
                    substitution,
                );
            lemma_closed_module(desugared, substitution);
        },
        Err(error) => {
            if error is AmbiguousType {
                let substitution = choose|substitution: Substitution|
                    #![trigger most_general_unifier(substitution, equations)]
                    most_general_unifier(substitution, equations) && open_in_definitions(
                        desugared.substitute(substitution).definitions,
                        desugared.definitions.len() as int,
                    ) == Some(error->AmbiguousType_source_information);
                lemma_closed_module(desugared, substitution);
            }
        },
    }
}

} // verus!
