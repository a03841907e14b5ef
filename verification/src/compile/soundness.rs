//! Soundness of inference: the module that inference gives is well-typed.

use crate::ast::{
    lemma_substitute_application, lemma_substitute_let_functions, lemma_substitute_let_values,
    DefinitionView, ExpressionView, FunctionDefinitionView, ModuleView, VariableDefinitionView,
};
use crate::compile::error::CompileErrorView;
use crate::compile::preservation::{lemma_closed_type, well_typed};
use crate::compile::type_inference::{
    bind_declarations, bind_definitions, bind_functions, bind_interfaces, bind_names,
    collect_arguments, collect_definition, collect_definitions, collect_expression,
    collect_function, collect_functions, collect_values, equations_of, function_of, inferred,
    number_type, surface_type, top_level_environment, TypeEnvironment,
};
use crate::compile::unification::{most_general_unifier, unifies, EquationView};
use crate::interface::ModuleInterfaceView;
use crate::ir;
use crate::names::Name;
use crate::types::{Substitution, TypeView};
use vstd::prelude::*;

verus! {

/// The equation with the substitution applied to both sides.
pub open spec fn substitute_equation(equation: EquationView, substitution: Substitution) -> EquationView {
    EquationView {
        lhs: equation.lhs.substitute(substitution),
        rhs: equation.rhs.substitute(substitution),
        source_information: equation.source_information,
    }
}

/// The equations with the substitution applied to both sides of each.
pub open spec fn substitute_equations(
    equations: Seq<EquationView>,
    substitution: Substitution,
) -> Seq<EquationView> {
    Seq::new(equations.len(), |i: int| substitute_equation(equations[i], substitution))
}

/// The types with the substitution applied to each.
pub open spec fn substitute_types(types: Seq<TypeView>, substitution: Substitution) -> Seq<
    TypeView,
> {
    Seq::new(types.len(), |i: int| types[i].substitute(substitution))
}

/// The types of names with the substitution applied to each.
pub open spec fn substitute_environment(
    environment: TypeEnvironment,
    substitution: Substitution,
) -> TypeEnvironment {
    Map::new(
        |name: Name| environment.contains_key(name),
        |name: Name| environment[name].substitute(substitution),
    )
}

/// Binding a name and then applying a substitution is applying it and then
/// binding the name to what it makes of the type.
pub proof fn lemma_substitute_insert(
    environment: TypeEnvironment,
    name: Name,
    type_: TypeView,
    substitution: Substitution,
)
    ensures
        substitute_environment(environment.insert(name, type_), substitution)
            == substitute_environment(environment, substitution).insert(
            name,
            type_.substitute(substitution),
        ),
{
    assert(substitute_environment(environment.insert(name, type_), substitution)
        =~= substitute_environment(environment, substitution).insert(
        name,
        type_.substitute(substitution),
    ));
}

/// Where typing an expression gives no error, typing it with a substitution
/// applied to its types and to the types of the names around it gives what
/// the substitution makes of its type and of its equations.
pub proof fn lemma_substituted_typing(
    expression: ExpressionView,
    environment: TypeEnvironment,
    substitution: Substitution,
)
    requires
        collect_expression(expression, environment) is Ok,
    ensures
        collect_expression(
            expression.substitute(substitution),
            substitute_environment(environment, substitution),
        ) == Ok::<_, CompileErrorView>(
            (
                collect_expression(expression, environment)->Ok_0.0.substitute(substitution),
                substitute_equations(
                    collect_expression(expression, environment)->Ok_0.1,
                    substitution,
                ),
            ),
        ),
    decreases expression, 0nat,
{
    let scope = substitute_environment(environment, substitution);
    let (type_, equations) = collect_expression(expression, environment)->Ok_0;
    match expression {
        ExpressionView::Number { .. } => {
            assert(substitute_equations(equations, substitution) =~= Seq::empty());
        },
        ExpressionView::Variable { .. } => {
            assert(substitute_equations(equations, substitution) =~= Seq::empty());
        },
        ExpressionView::Operation { lhs, rhs, source_information, .. } => {
            lemma_substituted_typing(*lhs, environment, substitution);
            lemma_substituted_typing(*rhs, environment, substitution);
            let (left, first) = collect_expression(*lhs, environment)->Ok_0;
            let (right, second) = collect_expression(*rhs, environment)->Ok_0;
            assert(substitute_equations(equations, substitution) =~= substitute_equations(
                first,
                substitution,
            ) + substitute_equations(second, substitution) + seq![
                EquationView {
                    lhs: number_type(),
                    rhs: left.substitute(substitution),
                    source_information,
                },
                EquationView {
                    lhs: number_type(),
                    rhs: right.substitute(substitution),
                    source_information,
                },
            ]);
        },
        ExpressionView::Application { function, arguments, source_information } => {
            let count = arguments.len() as int;
            lemma_substitute_application(function, arguments, source_information, substitution);
            let substituted = Seq::new(
                arguments.len(),
                |i: int| arguments[i].substitute(substitution),
            );
            lemma_substituted_arguments(arguments, substituted, environment, substitution, count);
            let (types, collected) = collect_arguments(arguments, environment, count)->Ok_0;
            assert(function_of(types).substitute(substitution) == function_of(
                substitute_types(types, substitution),
            )) by {
                assert(function_of(types).substitute(substitution)->arguments
                    =~= substitute_types(types, substitution));
            }
            let callee = environment[function];
            assert(substitute_equations(equations, substitution) =~= substitute_equations(
                collected,
                substitution,
            ).push(
                EquationView {
                    lhs: callee.substitute(substitution),
                    rhs: function_of(substitute_types(types, substitution)),
                    source_information,
                },
            ));
        },
        ExpressionView::LetValues { definitions, expression: body } => {
            let count = definitions.len() as int;
            lemma_substitute_let_values(definitions, *body, substitution);
            let substituted = Seq::new(
                definitions.len(),
                |i: int| definitions[i].substitute(substitution),
            );
            lemma_substituted_values(definitions, substituted, environment, substitution, count);
            let (inner, first) = collect_values(definitions, environment, count)->Ok_0;
            lemma_substituted_typing(*body, inner, substitution);
            let second = collect_expression(*body, inner)->Ok_0.1;
            assert(substitute_equations(equations, substitution) =~= substitute_equations(
                first,
                substitution,
            ) + substitute_equations(second, substitution));
        },
        ExpressionView::LetFunctions { definitions, expression: body } => {
            let count = definitions.len() as int;
            lemma_substitute_let_functions(definitions, *body, substitution);
            let substituted = Seq::new(
                definitions.len(),
                |i: int| definitions[i].substitute(substitution),
            );
            lemma_substituted_bind_functions(
                definitions,
                substituted,
                environment,
                substitution,
                count,
            );
            let inner = bind_functions(definitions, environment, count);
            lemma_substituted_functions(definitions, substituted, inner, substitution, count);
            let first = collect_functions(definitions, inner, count)->Ok_0;
            lemma_substituted_typing(*body, inner, substitution);
            let second = collect_expression(*body, inner)->Ok_0.1;
            assert(substitute_equations(equations, substitution) =~= substitute_equations(
                first,
                substitution,
            ) + substitute_equations(second, substitution));
        },
    }
}

/// Typing the arguments of an application with a substitution applied.
pub proof fn lemma_substituted_arguments(
    expressions: Seq<ExpressionView>,
    substituted: Seq<ExpressionView>,
    environment: TypeEnvironment,
    substitution: Substitution,
    count: int,
)
    requires
        0 <= count <= expressions.len(),
        substituted.len() == expressions.len(),
        forall|i: int|
            0 <= i < expressions.len() ==> (#[trigger] substituted[i]) == expressions[i].substitute(
                substitution,
            ),
        collect_arguments(expressions, environment, count) is Ok,
    ensures
        collect_arguments(
            substituted,
            substitute_environment(environment, substitution),
            count,
        ) == Ok::<_, CompileErrorView>(
            (
                substitute_types(
                    collect_arguments(expressions, environment, count)->Ok_0.0,
                    substitution,
                ),
                substitute_equations(
                    collect_arguments(expressions, environment, count)->Ok_0.1,
                    substitution,
                ),
            ),
        ),
    decreases expressions, count,
{
    let (types, equations) = collect_arguments(expressions, environment, count)->Ok_0;
    if count > 0 {
        assert(collect_arguments(expressions, environment, count - 1) is Ok);
        lemma_substituted_arguments(expressions, substituted, environment, substitution, count - 1);
        lemma_substituted_typing(expressions[count - 1], environment, substitution);
        let (before, first) = collect_arguments(expressions, environment, count - 1)->Ok_0;
        let (type_, second) = collect_expression(expressions[count - 1], environment)->Ok_0;
        assert(substitute_types(types, substitution) =~= substitute_types(
            before,
            substitution,
        ).push(type_.substitute(substitution)));
        assert(substitute_equations(equations, substitution) =~= substitute_equations(
            first,
            substitution,
        ) + substitute_equations(second, substitution));
    } else {
        assert(substitute_types(types, substitution) =~= Seq::empty());
        assert(substitute_equations(equations, substitution) =~= Seq::empty());
    }
}

/// Typing the definitions of a `let` of values with a substitution applied.
pub proof fn lemma_substituted_values(
    definitions: Seq<VariableDefinitionView>,
    substituted: Seq<VariableDefinitionView>,
    environment: TypeEnvironment,
    substitution: Substitution,
    count: int,
)
    requires
        0 <= count <= definitions.len(),
        substituted.len() == definitions.len(),
        forall|i: int|
            0 <= i < definitions.len() ==> (#[trigger] substituted[i]) == definitions[i].substitute(
                substitution,
            ),
        collect_values(definitions, environment, count) is Ok,
    ensures
        collect_values(substituted, substitute_environment(environment, substitution), count)
            == Ok::<_, CompileErrorView>(
            (
                substitute_environment(
                    collect_values(definitions, environment, count)->Ok_0.0,
                    substitution,
                ),
                substitute_equations(
                    collect_values(definitions, environment, count)->Ok_0.1,
                    substitution,
                ),
            ),
        ),
    decreases definitions, count,
{
    let (inner, equations) = collect_values(definitions, environment, count)->Ok_0;
    if count > 0 {
        assert(collect_values(definitions, environment, count - 1) is Ok);
        lemma_substituted_values(definitions, substituted, environment, substitution, count - 1);
        let (before, first) = collect_values(definitions, environment, count - 1)->Ok_0;
        let definition = definitions[count - 1];
        lemma_substituted_typing(definition.body, before, substitution);
        let (type_, second) = collect_expression(definition.body, before)->Ok_0;
        lemma_substitute_insert(before, definition.name, definition.type_, substitution);
        assert(substitute_equations(equations, substitution) =~= (substitute_equations(
            first,
            substitution,
        ) + substitute_equations(second, substitution)).push(
            EquationView {
                lhs: definition.type_.substitute(substitution),
                rhs: type_.substitute(substitution),
                source_information: definition.source_information,
            },
        ));
    } else {
        assert(substitute_equations(equations, substitution) =~= Seq::empty());
    }
}

/// Binding the names of function definitions with a substitution applied.
pub proof fn lemma_substituted_bind_functions(
    definitions: Seq<FunctionDefinitionView>,
    substituted: Seq<FunctionDefinitionView>,
    environment: TypeEnvironment,
    substitution: Substitution,
    count: int,
)
    requires
        0 <= count <= definitions.len(),
        substituted.len() == definitions.len(),
        forall|i: int|
            0 <= i < definitions.len() ==> (#[trigger] substituted[i]) == definitions[i].substitute(
                substitution,
            ),
    ensures
        bind_functions(substituted, substitute_environment(environment, substitution), count)
            == substitute_environment(bind_functions(definitions, environment, count), substitution),
    decreases count,
{
    if count > 0 {
        lemma_substituted_bind_functions(
            definitions,
            substituted,
            environment,
            substitution,
            count - 1,
        );
        lemma_substitute_insert(
            bind_functions(definitions, environment, count - 1),
            definitions[count - 1].name,
            definitions[count - 1].type_,
            substitution,
        );
    }
}

/// Binding names to types with a substitution applied.
pub proof fn lemma_substituted_bind_names(
    names: Seq<Name>,
    types: Seq<TypeView>,
    environment: TypeEnvironment,
    substitution: Substitution,
    count: int,
)
    requires
        0 <= count <= names.len(),
        names.len() == types.len(),
    ensures
        bind_names(
            names,
            substitute_types(types, substitution),
            substitute_environment(environment, substitution),
            count,
        ) == substitute_environment(bind_names(names, types, environment, count), substitution),
    decreases count,
{
    if count > 0 {
        lemma_substituted_bind_names(names, types, environment, substitution, count - 1);
        lemma_substitute_insert(
            bind_names(names, types, environment, count - 1),
            names[count - 1],
            types[count - 1],
            substitution,
        );
    }
}

/// Typing function definitions with a substitution applied.
pub proof fn lemma_substituted_functions(
    definitions: Seq<FunctionDefinitionView>,
    substituted: Seq<FunctionDefinitionView>,
    environment: TypeEnvironment,
    substitution: Substitution,
    count: int,
)
    requires
        0 <= count <= definitions.len(),
        substituted.len() == definitions.len(),
        forall|i: int|
            0 <= i < definitions.len() ==> (#[trigger] substituted[i]) == definitions[i].substitute(
                substitution,
            ),
        collect_functions(definitions, environment, count) is Ok,
    ensures
        collect_functions(substituted, substitute_environment(environment, substitution), count)
            == Ok::<_, CompileErrorView>(
            substitute_equations(
                collect_functions(definitions, environment, count)->Ok_0,
                substitution,
            ),
        ),
    decreases definitions, count,
{
    let equations = collect_functions(definitions, environment, count)->Ok_0;
    if count > 0 {
        assert(collect_functions(definitions, environment, count - 1) is Ok);
        lemma_substituted_functions(definitions, substituted, environment, substitution, count - 1);
        lemma_substituted_function(definitions[count - 1], environment, substitution);
        let first = collect_functions(definitions, environment, count - 1)->Ok_0;
        let second = collect_function(definitions[count - 1], environment)->Ok_0;
        assert(substitute_equations(equations, substitution) =~= substitute_equations(
            first,
            substitution,
        ) + substitute_equations(second, substitution));
    } else {
        assert(substitute_equations(equations, substitution) =~= Seq::empty());
    }
}

/// Typing a function definition with a substitution applied.
pub proof fn lemma_substituted_function(
    definition: FunctionDefinitionView,
    environment: TypeEnvironment,
    substitution: Substitution,
)
    requires
        collect_function(definition, environment) is Ok,
    ensures
        collect_function(
            definition.substitute(substitution),
            substitute_environment(environment, substitution),
        ) == Ok::<_, CompileErrorView>(
            substitute_equations(collect_function(definition, environment)->Ok_0, substitution),
        ),
    decreases definition, 0nat,
{
    let count = definition.arguments.len() as int;
    let types = definition.type_->arguments;
    let inner = bind_names(definition.arguments, types, environment, count);
    let substituted = definition.type_.substitute(substitution);
    assert(substituted->arguments =~= substitute_types(types, substitution));
    lemma_substituted_bind_names(definition.arguments, types, environment, substitution, count);
    lemma_substituted_typing(definition.body, inner, substitution);
    let (type_, collected) = collect_expression(definition.body, inner)->Ok_0;
    let equations = collect_function(definition, environment)->Ok_0;
    assert(substitute_equations(equations, substitution) =~= substitute_equations(
        collected,
        substitution,
    ).push(
        EquationView {
            lhs: TypeView::Value(definition.type_->result),
            rhs: type_.substitute(substitution),
            source_information: definition.source_information,
        },
    ));
}

/// No type variable is in the type that a core type is in the surface
/// language.
pub proof fn lemma_surface_type_closed(type_: ir::types::TypeView)
    ensures
        surface_type(type_).is_closed(),
    decreases type_,
{
    match type_ {
        ir::types::TypeView::Function { arguments, result } => {
            assert forall|i: int| 0 <= i < surface_type(type_)->arguments.len() implies (
            #[trigger] surface_type(type_)->arguments[i]).is_closed() by {
                lemma_surface_type_closed(arguments[i]);
            }
        },
        ir::types::TypeView::Value(_) => {},
    }
}

/// A substitution leaves alone the types of what other modules export.
pub proof fn lemma_substituted_interfaces(
    interfaces: Seq<ModuleInterfaceView>,
    substitution: Substitution,
    count: int,
)
    requires
        0 <= count <= interfaces.len(),
    ensures
        substitute_environment(bind_interfaces(interfaces, Map::empty(), count), substitution)
            == bind_interfaces(interfaces, Map::empty(), count),
    decreases count,
{
    if count > 0 {
        lemma_substituted_interfaces(interfaces, substitution, count - 1);
        let before = bind_interfaces(interfaces, Map::empty(), count - 1);
        lemma_substituted_declarations(
            interfaces[count - 1].variables,
            before,
            substitution,
            interfaces[count - 1].variables.len() as int,
        );
    } else {
        assert(substitute_environment(Map::empty(), substitution) =~= Map::<
            Name,
            TypeView,
        >::empty());
    }
}

/// A substitution leaves alone the types of what an interface exports.
pub proof fn lemma_substituted_declarations(
    declarations: Seq<ir::ast::DeclarationView>,
    environment: TypeEnvironment,
    substitution: Substitution,
    count: int,
)
    requires
        0 <= count <= declarations.len(),
        substitute_environment(environment, substitution) == environment,
    ensures
        substitute_environment(bind_declarations(declarations, environment, count), substitution)
            == bind_declarations(declarations, environment, count),
    decreases count,
{
    if count > 0 {
        lemma_substituted_declarations(declarations, environment, substitution, count - 1);
        let type_ = surface_type(declarations[count - 1].type_);
        lemma_surface_type_closed(declarations[count - 1].type_);
        lemma_closed_type(type_, substitution);
        lemma_substitute_insert(
            bind_declarations(declarations, environment, count - 1),
            declarations[count - 1].name,
            type_,
            substitution,
        );
    }
}

/// Binding the names of the top-level definitions with a substitution
/// applied.
pub proof fn lemma_substituted_bind_definitions(
    module: ModuleView,
    environment: TypeEnvironment,
    substitution: Substitution,
    count: int,
)
    requires
        0 <= count <= module.definitions.len(),
    ensures
        bind_definitions(
            module.substitute(substitution).definitions,
            substitute_environment(environment, substitution),
            count,
        ) == substitute_environment(
            bind_definitions(module.definitions, environment, count),
            substitution,
        ),
    decreases count,
{
    if count > 0 {
        lemma_substituted_bind_definitions(module, environment, substitution, count - 1);
        lemma_substitute_insert(
            bind_definitions(module.definitions, environment, count - 1),
            module.definitions[count - 1].name(),
            module.definitions[count - 1].type_(),
            substitution,
        );
    }
}

/// Typing the top-level definitions with a substitution applied.
pub proof fn lemma_substituted_definitions(
    module: ModuleView,
    environment: TypeEnvironment,
    substitution: Substitution,
    count: int,
)
    requires
        0 <= count <= module.definitions.len(),
        collect_definitions(module.definitions, environment, count) is Ok,
    ensures
        collect_definitions(
            module.substitute(substitution).definitions,
            substitute_environment(environment, substitution),
            count,
        ) == Ok::<_, CompileErrorView>(
            substitute_equations(
                collect_definitions(module.definitions, environment, count)->Ok_0,
                substitution,
            ),
        ),
    decreases count,
{
    let equations = collect_definitions(module.definitions, environment, count)->Ok_0;
    if count > 0 {
        assert(collect_definitions(module.definitions, environment, count - 1) is Ok);
        lemma_substituted_definitions(module, environment, substitution, count - 1);
        let first = collect_definitions(module.definitions, environment, count - 1)->Ok_0;
        let second = collect_definition(module.definitions[count - 1], environment)->Ok_0;
        match module.definitions[count - 1] {
            DefinitionView::FunctionDefinition(definition) => {
                lemma_substituted_function(definition, environment, substitution);
            },
            DefinitionView::VariableDefinition(definition) => {
                lemma_substituted_typing(definition.body, environment, substitution);
                let (type_, collected) = collect_expression(definition.body, environment)->Ok_0;
                assert(substitute_equations(second, substitution) =~= substitute_equations(
                    collected,
                    substitution,
                ).push(
                    EquationView {
                        lhs: definition.type_.substitute(substitution),
                        rhs: type_.substitute(substitution),
                        source_information: definition.source_information,
                    },
                ));
            },
        }
        assert(substitute_equations(equations, substitution) =~= substitute_equations(
            first,
            substitution,
        ) + substitute_equations(second, substitution));
    } else {
        assert(substitute_equations(equations, substitution) =~= Seq::empty());
    }
}

/// Soundness of inference: the module that inference gives is well-typed.
pub proof fn lemma_inference_sound(
    module: ModuleView,
    imported_modules: Seq<ModuleInterfaceView>,
    typed: ModuleView,
)
    requires
        inferred(module, imported_modules, Ok(typed)),
    ensures
        well_typed(typed, imported_modules),
{
    let equations = equations_of(module, imported_modules)->Ok_0;
    let substitution = choose|substitution: Substitution|
        #![trigger most_general_unifier(substitution, equations)]
        most_general_unifier(substitution, equations) && typed == module.substitute(substitution);
    let count = module.definitions.len() as int;
    let imported = bind_interfaces(imported_modules, Map::empty(), imported_modules.len() as int);
    lemma_substituted_interfaces(imported_modules, substitution, imported_modules.len() as int);
    lemma_substituted_bind_definitions(module, imported, substitution, count);
    let environment = top_level_environment(module, imported_modules);
    assert(top_level_environment(typed, imported_modules) == substitute_environment(
        environment,
        substitution,
    ));
    lemma_substituted_definitions(module, environment, substitution, count);
    let substituted = substitute_equations(equations, substitution);
    assert(equations_of(typed, imported_modules) == Ok::<_, CompileErrorView>(substituted));
    assert forall|i: int| 0 <= i < substituted.len() implies (#[trigger] substituted[i]).lhs
        == substituted[i].rhs by {
        assert(unifies(substitution, equations[i]));
    }
}

} // verus!
