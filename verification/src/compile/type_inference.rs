//! Type inference.
//!
//! The types of a module have to satisfy equations: the operands of an
//! operation are numbers, what is applied is a function of the arguments that
//! it is applied to, and the body of every definition has the type that the
//! definition declares. Inference collects the equations, finds a most
//! general unifier of them, and applies it to every type in the module.

use crate::ast::{
    expression_views, function_definition_views, lemma_application_view, lemma_let_functions_view,
    lemma_let_values_view, variable_definition_views, Definition, DefinitionView, Expression,
    ExpressionView, FunctionDefinition, FunctionDefinitionView, Module, ModuleView,
    VariableDefinition, VariableDefinitionView,
};
use crate::compile::closure_converter::{shape, shape_type};
use crate::compile::error::{CompileError, CompileErrorView};
use crate::compile::unification::{
    equation_views, most_general_unifier, solved, unifiable, unify, Equation, EquationView,
};
use crate::debug::{share, SourceInformation, SourceInformationView};
use crate::environment::Environment;
use crate::interface::{interface_views, ModuleInterface, ModuleInterfaceView};
use crate::ir;
use crate::names::{name_views, Name};
use crate::types::{
    lemma_function_view, substitution_view, type_views, Function, Substitution, Type, TypeView,
    Value,
};
use std::rc::Rc;
use vstd::prelude::*;
use vstd::string::StringExecFns;

verus! {

/// The types of the names that are bound around an expression.
pub type TypeEnvironment = Map<Name, TypeView>;

/// The mathematical value of a table of types.
pub open spec fn environment_view(environment: Map<Name, Type>) -> TypeEnvironment {
    Map::new(|name: Name| environment.contains_key(name), |name: Name| environment[name]@)
}

/// The type of numbers.
pub open spec fn number_type() -> TypeView {
    TypeView::Value(Value::Number)
}

/// The type of a function of arguments of the given types.
pub open spec fn function_of(arguments: Seq<TypeView>) -> TypeView {
    TypeView::Function { arguments, result: Value::Number }
}

/// The type that a core type is in the surface language.
pub open spec fn surface_type(type_: ir::types::TypeView) -> TypeView
    decreases type_,
{
    match type_ {
        ir::types::TypeView::Function { arguments, result } => TypeView::Function {
            arguments: Seq::new(
                arguments.len(),
                |i: int|
                    if 0 <= i < arguments.len() {
                        surface_type(arguments[i])
                    } else {
                        arbitrary()
                    },
            ),
            result,
        },
        ir::types::TypeView::Value(value) => TypeView::Value(value),
    }
}

/// The type of an expression and the equations that typing it asks for, or
/// the error that it gives.
pub type Typing = Result<(TypeView, Seq<EquationView>), CompileErrorView>;

/// The type of a reference to a name, if the name is bound.
pub open spec fn type_of_name(
    name: Name,
    source_information: SourceInformationView,
    environment: TypeEnvironment,
) -> Result<TypeView, CompileErrorView> {
    if environment.contains_key(name) {
        Ok(environment[name])
    } else {
        Err(CompileErrorView::UnboundVariable { name, source_information })
    }
}

/// The type of an expression and the equations that typing it asks for.
pub open spec fn collect_expression(expression: ExpressionView, environment: TypeEnvironment) -> Typing
    decreases expression, 0nat,
{
    match expression {
        ExpressionView::Number { .. } => Ok((number_type(), Seq::empty())),
        ExpressionView::Variable { name, source_information } => match type_of_name(
            name,
            source_information,
            environment,
        ) {
            Err(error) => Err(error),
            Ok(type_) => Ok((type_, Seq::empty())),
        },
        ExpressionView::Operation { lhs, rhs, source_information, .. } => match collect_expression(
            *lhs,
            environment,
        ) {
            Err(error) => Err(error),
            Ok((left, first)) => match collect_expression(*rhs, environment) {
                Err(error) => Err(error),
                Ok((right, second)) => Ok(
                    (
                        number_type(),
                        first + second + seq![
                            EquationView { lhs: number_type(), rhs: left, source_information },
                            EquationView { lhs: number_type(), rhs: right, source_information },
                        ],
                    ),
                ),
            },
        },
        ExpressionView::Application {
            function,
            arguments,
            source_information,
        } => match type_of_name(function, source_information, environment) {
            Err(error) => Err(error),
            Ok(type_) => match collect_arguments(
                arguments,
                environment,
                arguments.len() as int,
            ) {
                Err(error) => Err(error),
                Ok((types, equations)) => Ok(
                    (
                        number_type(),
                        equations.push(
                            EquationView {
                                lhs: type_,
                                rhs: function_of(types),
                                source_information,
                            },
                        ),
                    ),
                ),
            },
        },
        ExpressionView::LetValues { definitions, expression } => match collect_values(
            definitions,
            environment,
            definitions.len() as int,
        ) {
            Err(error) => Err(error),
            Ok((environment, first)) => match collect_expression(*expression, environment) {
                Err(error) => Err(error),
                Ok((type_, second)) => Ok((type_, first + second)),
            },
        },
        ExpressionView::LetFunctions { definitions, expression } => {
            let environment = bind_functions(definitions, environment, definitions.len() as int);
            match collect_functions(definitions, environment, definitions.len() as int) {
                Err(error) => Err(error),
                Ok(first) => match collect_expression(*expression, environment) {
                    Err(error) => Err(error),
                    Ok((type_, second)) => Ok((type_, first + second)),
                },
            }
        },
    }
}

/// The types of the first `count` expressions and the equations that typing
/// them asks for.
pub open spec fn collect_arguments(
    expressions: Seq<ExpressionView>,
    environment: TypeEnvironment,
    count: int,
) -> Result<(Seq<TypeView>, Seq<EquationView>), CompileErrorView>
    decreases expressions, count,
{
    if count <= 0 || count > expressions.len() {
        Ok((Seq::empty(), Seq::empty()))
    } else {
        match collect_arguments(expressions, environment, count - 1) {
            Err(error) => Err(error),
            Ok((types, first)) => match collect_expression(expressions[count - 1], environment) {
                Err(error) => Err(error),
                Ok((type_, second)) => Ok((types.push(type_), first + second)),
            },
        }
    }
}

/// The types of the names bound after the first `count` definitions of a
/// `let` of values, and the equations that typing them asks for. The body of
/// a definition has the type that the definition declares.
pub open spec fn collect_values(
    definitions: Seq<VariableDefinitionView>,
    environment: TypeEnvironment,
    count: int,
) -> Result<(TypeEnvironment, Seq<EquationView>), CompileErrorView>
    decreases definitions, count,
{
    if count <= 0 || count > definitions.len() {
        Ok((environment, Seq::empty()))
    } else {
        match collect_values(definitions, environment, count - 1) {
            Err(error) => Err(error),
            Ok((environment, first)) => {
                let definition = definitions[count - 1];
                match collect_expression(definition.body, environment) {
                    Err(error) => Err(error),
                    Ok((type_, second)) => Ok(
                        (
                            environment.insert(definition.name, definition.type_),
                            (first + second).push(
                                EquationView {
                                    lhs: definition.type_,
                                    rhs: type_,
                                    source_information: definition.source_information,
                                },
                            ),
                        ),
                    ),
                }
            },
        }
    }
}

/// The types of the names bound once the first `count` function definitions
/// bind their names to the types that they declare.
pub open spec fn bind_functions(
    definitions: Seq<FunctionDefinitionView>,
    environment: TypeEnvironment,
    count: int,
) -> TypeEnvironment
    decreases count,
{
    if count <= 0 {
        environment
    } else {
        bind_functions(definitions, environment, count - 1).insert(
            definitions[count - 1].name,
            definitions[count - 1].type_,
        )
    }
}

/// The types of the names bound once the first `count` of the names are
/// bound to the types at their places.
pub open spec fn bind_names(
    names: Seq<Name>,
    types: Seq<TypeView>,
    environment: TypeEnvironment,
    count: int,
) -> TypeEnvironment
    decreases count,
{
    if count <= 0 {
        environment
    } else {
        bind_names(names, types, environment, count - 1).insert(names[count - 1], types[count - 1])
    }
}

/// The equations that typing the first `count` function definitions asks
/// for.
pub open spec fn collect_functions(
    definitions: Seq<FunctionDefinitionView>,
    environment: TypeEnvironment,
    count: int,
) -> Result<Seq<EquationView>, CompileErrorView>
    decreases definitions, count,
{
    if count <= 0 || count > definitions.len() {
        Ok(Seq::empty())
    } else {
        match collect_functions(definitions, environment, count - 1) {
            Err(error) => Err(error),
            Ok(first) => match collect_function(definitions[count - 1], environment) {
                Err(error) => Err(error),
                Ok(second) => Ok(first + second),
            },
        }
    }
}

/// The equations that typing a function definition asks for. The definition
/// has to declare a function type of as many arguments as it names. Its
/// body, where the arguments have the types of the declared type, has the
/// result type of the declared type.
pub open spec fn collect_function(
    definition: FunctionDefinitionView,
    environment: TypeEnvironment,
) -> Result<Seq<EquationView>, CompileErrorView>
    decreases definition, 0nat,
{
    if definition.type_ is Function && definition.type_->arguments.len()
        == definition.arguments.len() {
        match collect_expression(
            definition.body,
            bind_names(
                definition.arguments,
                definition.type_->arguments,
                environment,
                definition.arguments.len() as int,
            ),
        ) {
            Err(error) => Err(error),
            Ok((type_, equations)) => Ok(
                equations.push(
                    EquationView {
                        lhs: TypeView::Value(definition.type_->result),
                        rhs: type_,
                        source_information: definition.source_information,
                    },
                ),
            ),
        }
    } else {
        Err(
            CompileErrorView::TypeMismatch {
                expected: definition.type_,
                actual: shape_type(definition.arguments.len()),
                source_information: definition.source_information,
            },
        )
    }
}

/// The equations that typing a top-level definition asks for.
pub open spec fn collect_definition(definition: DefinitionView, environment: TypeEnvironment) -> Result<
    Seq<EquationView>,
    CompileErrorView,
> {
    match definition {
        DefinitionView::FunctionDefinition(definition) => collect_function(definition, environment),
        DefinitionView::VariableDefinition(definition) => match collect_expression(
            definition.body,
            environment,
        ) {
            Err(error) => Err(error),
            Ok((type_, equations)) => Ok(
                equations.push(
                    EquationView {
                        lhs: definition.type_,
                        rhs: type_,
                        source_information: definition.source_information,
                    },
                ),
            ),
        },
    }
}

/// The equations that typing the first `count` top-level definitions asks
/// for.
pub open spec fn collect_definitions(
    definitions: Seq<DefinitionView>,
    environment: TypeEnvironment,
    count: int,
) -> Result<Seq<EquationView>, CompileErrorView>
    decreases count,
{
    if count <= 0 {
        Ok(Seq::empty())
    } else {
        match collect_definitions(definitions, environment, count - 1) {
            Err(error) => Err(error),
            Ok(first) => match collect_definition(definitions[count - 1], environment) {
                Err(error) => Err(error),
                Ok(second) => Ok(first + second),
            },
        }
    }
}

/// The types of the names that the first `count` declarations declare.
pub open spec fn bind_declarations(
    declarations: Seq<ir::ast::DeclarationView>,
    environment: TypeEnvironment,
    count: int,
) -> TypeEnvironment
    decreases count,
{
    if count <= 0 {
        environment
    } else {
        bind_declarations(declarations, environment, count - 1).insert(
            declarations[count - 1].name,
            surface_type(declarations[count - 1].type_),
        )
    }
}

/// The types of the names that the first `count` interfaces export.
pub open spec fn bind_interfaces(
    interfaces: Seq<ModuleInterfaceView>,
    environment: TypeEnvironment,
    count: int,
) -> TypeEnvironment
    decreases count,
{
    if count <= 0 {
        environment
    } else {
        bind_declarations(
            interfaces[count - 1].variables,
            bind_interfaces(interfaces, environment, count - 1),
            interfaces[count - 1].variables.len() as int,
        )
    }
}

/// The types of the names that the first `count` top-level definitions
/// declare.
pub open spec fn bind_definitions(
    definitions: Seq<DefinitionView>,
    environment: TypeEnvironment,
    count: int,
) -> TypeEnvironment
    decreases count,
{
    if count <= 0 {
        environment
    } else {
        bind_definitions(definitions, environment, count - 1).insert(
            definitions[count - 1].name(),
            definitions[count - 1].type_(),
        )
    }
}

/// The types of the names bound at the top level of a module: what the
/// modules that it uses export, and what its own definitions declare. So the
/// definitions of a module may refer to each other in any order.
pub open spec fn top_level_environment(
    module: ModuleView,
    imported_modules: Seq<ModuleInterfaceView>,
) -> TypeEnvironment {
    bind_definitions(
        module.definitions,
        bind_interfaces(imported_modules, Map::empty(), imported_modules.len() as int),
        module.definitions.len() as int,
    )
}

/// The equations that typing a module asks for.
pub open spec fn equations_of(module: ModuleView, imported_modules: Seq<ModuleInterfaceView>) -> Result<
    Seq<EquationView>,
    CompileErrorView,
> {
    collect_definitions(
        module.definitions,
        top_level_environment(module, imported_modules),
        module.definitions.len() as int,
    )
}

/// The first of two places, if there is one.
pub open spec fn first_of(
    first: Option<SourceInformationView>,
    second: Option<SourceInformationView>,
) -> Option<SourceInformationView> {
    match first {
        Some(place) => Some(place),
        None => second,
    }
}

/// The place of the first definition in the expression whose declared type
/// holds a type variable.
pub open spec fn open_in_expression(expression: ExpressionView) -> Option<SourceInformationView>
    decreases expression, 0nat,
{
    match expression {
        ExpressionView::Number { .. } => None,
        ExpressionView::Variable { .. } => None,
        ExpressionView::Operation { lhs, rhs, .. } => first_of(
            open_in_expression(*lhs),
            open_in_expression(*rhs),
        ),
        ExpressionView::Application { arguments, .. } => open_in_expressions(
            arguments,
            arguments.len() as int,
        ),
        ExpressionView::LetValues { definitions, expression } => first_of(
            open_in_values(definitions, definitions.len() as int),
            open_in_expression(*expression),
        ),
        ExpressionView::LetFunctions { definitions, expression } => first_of(
            open_in_functions(definitions, definitions.len() as int),
            open_in_expression(*expression),
        ),
    }
}

/// The place of the first such definition in the first `count` expressions.
pub open spec fn open_in_expressions(expressions: Seq<ExpressionView>, count: int) -> Option<
    SourceInformationView,
>
    decreases expressions, count,
{
    if count <= 0 || count > expressions.len() {
        None
    } else {
        first_of(
            open_in_expressions(expressions, count - 1),
            open_in_expression(expressions[count - 1]),
        )
    }
}

/// The place of the first such definition among the first `count`
/// definitions and in their bodies.
pub open spec fn open_in_values(definitions: Seq<VariableDefinitionView>, count: int) -> Option<
    SourceInformationView,
>
    decreases definitions, count,
{
    if count <= 0 || count > definitions.len() {
        None
    } else {
        first_of(
            open_in_values(definitions, count - 1),
            if definitions[count - 1].type_.is_closed() {
                open_in_expression(definitions[count - 1].body)
            } else {
                Some(definitions[count - 1].source_information)
            },
        )
    }
}

/// The place of the first such definition among the first `count`
/// definitions and in their bodies.
pub open spec fn open_in_functions(definitions: Seq<FunctionDefinitionView>, count: int) -> Option<
    SourceInformationView,
>
    decreases definitions, count,
{
    if count <= 0 || count > definitions.len() {
        None
    } else {
        first_of(
            open_in_functions(definitions, count - 1),
            if definitions[count - 1].type_.is_closed() {
                open_in_expression(definitions[count - 1].body)
            } else {
                Some(definitions[count - 1].source_information)
            },
        )
    }
}

/// The place of the first such definition among the first `count` top-level
/// definitions and in their bodies.
pub open spec fn open_in_definitions(definitions: Seq<DefinitionView>, count: int) -> Option<
    SourceInformationView,
>
    decreases count,
{
    if count <= 0 {
        None
    } else {
        first_of(
            open_in_definitions(definitions, count - 1),
            match definitions[count - 1] {
                DefinitionView::FunctionDefinition(definition) => if definition.type_.is_closed() {
                    open_in_expression(definition.body)
                } else {
                    Some(definition.source_information)
                },
                DefinitionView::VariableDefinition(definition) => if definition.type_.is_closed() {
                    open_in_expression(definition.body)
                } else {
                    Some(definition.source_information)
                },
            },
        )
    }
}

/// Whether no type variable is left in the module.
pub open spec fn module_closed(module: ModuleView) -> bool {
    open_in_definitions(module.definitions, module.definitions.len() as int) is None
}

/// Whether `typed` is the module with a most general unifier of the
/// equations applied to every type in it.
pub open spec fn instantiates(
    module: ModuleView,
    equations: Seq<EquationView>,
    typed: ModuleView,
) -> bool {
    exists|substitution: Substitution|
        #![trigger most_general_unifier(substitution, equations)]
        most_general_unifier(substitution, equations) && typed == module.substitute(substitution)
}

/// Whether a most general unifier of the equations leaves a type variable
/// in the module, first in the declared type of the definition at the given
/// place.
pub open spec fn ambiguous(
    module: ModuleView,
    equations: Seq<EquationView>,
    source_information: SourceInformationView,
) -> bool {
    exists|substitution: Substitution|
        #![trigger most_general_unifier(substitution, equations)]
        most_general_unifier(substitution, equations) && open_in_definitions(
            module.substitute(substitution).definitions,
            module.definitions.len() as int,
        ) == Some(source_information)
}

/// Whether `result` is what inference gives for a module.
///
/// Where typing the module asks for equations that can be unified, and a
/// most general unifier of them leaves no type variable in the module, the
/// result is the module with that unifier applied to every type. Where a
/// most general unifier leaves a type variable, the result is the error that
/// says where. Where the equations cannot be unified, the result is the
/// error of the first equation, taken from the last to the first, that
/// cannot hold. Where a name is unbound or a function definition declares no
/// function type of its arguments, the result is that error.
pub open spec fn inferred(
    module: ModuleView,
    imported_modules: Seq<ModuleInterfaceView>,
    result: Result<ModuleView, CompileErrorView>,
) -> bool {
    match equations_of(module, imported_modules) {
        Err(error) => result == Err::<ModuleView, _>(error),
        Ok(equations) => match result {
            Ok(typed) => instantiates(module, equations, typed) && module_closed(typed),
            Err(error) => if error is AmbiguousType {
                ambiguous(module, equations, error->AmbiguousType_source_information)
            } else {
                !unifiable(equations) && solved(equations, Err(error))
            },
        },
    }
}

/// Binding a name in a table binds it in the view of the table.
pub proof fn lemma_environment_view_insert(environment: Map<Name, Type>, name: Name, type_: Type)
    ensures
        environment_view(environment.insert(name, type_)) == environment_view(environment).insert(
            name,
            type_@,
        ),
{
    assert(environment_view(environment.insert(name, type_)) =~= environment_view(
        environment,
    ).insert(name, type_@));
}

/// Where typing the first expressions fails, typing more fails alike.
pub proof fn lemma_collect_arguments_error(
    expressions: Seq<ExpressionView>,
    environment: TypeEnvironment,
    count: int,
    more: int,
)
    requires
        0 <= count <= more <= expressions.len(),
        collect_arguments(expressions, environment, count) is Err,
    ensures
        collect_arguments(expressions, environment, more) == collect_arguments(
            expressions,
            environment,
            count,
        ),
    decreases more - count,
{
    if count < more {
        lemma_collect_arguments_error(expressions, environment, count, more - 1);
    }
}

/// Where typing the first definitions fails, typing more fails alike.
pub proof fn lemma_collect_values_error(
    definitions: Seq<VariableDefinitionView>,
    environment: TypeEnvironment,
    count: int,
    more: int,
)
    requires
        0 <= count <= more <= definitions.len(),
        collect_values(definitions, environment, count) is Err,
    ensures
        collect_values(definitions, environment, more) == collect_values(
            definitions,
            environment,
            count,
        ),
    decreases more - count,
{
    if count < more {
        lemma_collect_values_error(definitions, environment, count, more - 1);
    }
}

/// Where typing the first definitions fails, typing more fails alike.
pub proof fn lemma_collect_functions_error(
    definitions: Seq<FunctionDefinitionView>,
    environment: TypeEnvironment,
    count: int,
    more: int,
)
    requires
        0 <= count <= more <= definitions.len(),
        collect_functions(definitions, environment, count) is Err,
    ensures
        collect_functions(definitions, environment, more) == collect_functions(
            definitions,
            environment,
            count,
        ),
    decreases more - count,
{
    if count < more {
        lemma_collect_functions_error(definitions, environment, count, more - 1);
    }
}

/// Where typing the first definitions fails, typing more fails alike.
pub proof fn lemma_collect_definitions_error(
    definitions: Seq<DefinitionView>,
    environment: TypeEnvironment,
    count: int,
    more: int,
)
    requires
        0 <= count <= more <= definitions.len(),
        collect_definitions(definitions, environment, count) is Err,
    ensures
        collect_definitions(definitions, environment, more) == collect_definitions(
            definitions,
            environment,
            count,
        ),
    decreases more - count,
{
    if count < more {
        lemma_collect_definitions_error(definitions, environment, count, more - 1);
    }
}

/// Whether `result` is the type that `typing` gives, and `after` the
/// equations `before` with those that `typing` gives, or `result` is the
/// error that `typing` is.
pub open spec fn typed(
    typing: Typing,
    result: Result<Type, CompileError>,
    before: Seq<EquationView>,
    after: Seq<EquationView>,
) -> bool {
    match result {
        Ok(type_) => typing matches Ok((expected, added)) && expected == type_@ && after == before
            + added,
        Err(error) => typing == Err::<(TypeView, Seq<EquationView>), _>(error@),
    }
}

/// Whether `after` is the equations `before` with those that `collected`
/// gives, or `result` is the error that `collected` is.
pub open spec fn added(
    collected: Result<Seq<EquationView>, CompileErrorView>,
    result: Result<(), CompileError>,
    before: Seq<EquationView>,
    after: Seq<EquationView>,
) -> bool {
    match result {
        Ok(_) => collected matches Ok(equations) && after == before + equations,
        Err(error) => collected == Err::<Seq<EquationView>, _>(error@),
    }
}

/// The type that a core type is in the surface language.
pub fn embed_type(type_: &ir::types::Type) -> (result: Type)
    ensures
        result@ == surface_type(type_@),
    decreases type_, 0nat,
{
    match type_ {
        ir::types::Type::Function(function) => {
            let embedded = Function::new(embed_types(&function.arguments), function.result);
            proof {
                ir::types::lemma_function_view(*function);
                lemma_function_view(embedded);
                assert(embedded@->arguments =~= surface_type(type_@)->arguments);
            }
            Type::Function(embedded)
        },
        ir::types::Type::Value(value) => Type::Value(*value),
    }
}

/// The types that core types are in the surface language.
pub fn embed_types(types: &Vec<ir::types::Type>) -> (result: Vec<Type>)
    ensures
        result.len() == types.len(),
        forall|i: int| 0 <= i < types.len() ==> (#[trigger] result[i])@ == surface_type(types[i]@),
    decreases types, 1nat,
{
    let mut result: Vec<Type> = Vec::new();
    let mut index: usize = 0;
    while index < types.len()
        invariant
            index <= types.len(),
            result.len() == index,
            forall|i: int| 0 <= i < index ==> (#[trigger] result[i])@ == surface_type(types[i]@),
        decreases types.len() - index,
    {
        result.push(embed_type(&types[index]));
        index += 1;
    }
    result
}

/// The type of a reference to a name, if the name is bound.
pub fn find_type(
    name: &String,
    source_information: &Rc<SourceInformation>,
    environment: &Environment<Type>,
) -> (result: Result<Type, CompileError>)
    ensures
        match result {
            Ok(type_) => type_of_name(name@, source_information@, environment_view(environment@))
                == Ok::<_, CompileErrorView>(type_@),
            Err(error) => type_of_name(name@, source_information@, environment_view(environment@))
                == Err::<TypeView, _>(error@),
        },
{
    match environment.get(name) {
        Some(type_) => Ok(type_.duplicate()),
        None => Err(
            CompileError::UnboundVariable {
                name: name.clone(),
                source_information: share(source_information),
            },
        ),
    }
}

/// The type of the expression. The equations that typing it asks for are
/// added to `equations`, and `environment` is left as it was.
pub fn type_expression(
    expression: &Expression,
    environment: &mut Environment<Type>,
    equations: &mut Vec<Equation>,
) -> (result: Result<Type, CompileError>)
    ensures
        typed(
            collect_expression(expression@, environment_view(old(environment)@)),
            result,
            equation_views(old(equations)@),
            equation_views(final(equations)@),
        ),
        result is Ok ==> final(environment).bindings@ == old(environment).bindings@,
    decreases expression, 0nat,
{
    let ghost before = equation_views(equations@);
    match expression {
        Expression::Number { .. } => {
            assert(before =~= before + Seq::<EquationView>::empty());
            Ok(Type::Value(Value::Number))
        },
        Expression::Variable { name, source_information } => {
            assert(before =~= before + Seq::<EquationView>::empty());
            find_type(name, source_information, environment)
        },
        Expression::Operation { lhs, rhs, source_information, .. } => {
            let left = type_expression(lhs, environment, equations)?;
            let ghost middle = equation_views(equations@);
            let right = type_expression(rhs, environment, equations)?;
            let ghost end = equation_views(equations@);
            let first = Equation::new(
                Type::Value(Value::Number),
                left,
                share(source_information),
            );
            let second = Equation::new(
                Type::Value(Value::Number),
                right,
                share(source_information),
            );
            equations.push(first);
            equations.push(second);
            proof {
                let typing = collect_expression(expression@, environment_view(old(environment)@));
                assert(equation_views(equations@) =~= end.push(first@).push(second@));
                assert(equation_views(equations@) =~= before + typing->Ok_0.1);
            }
            Ok(Type::Value(Value::Number))
        },
        Expression::Application { function, arguments, source_information } => {
            proof {
                lemma_application_view(*expression);
            }
            let callee = find_type(function, source_information, environment)?;
            let types = type_arguments(arguments, environment, equations)?;
            let ghost end = equation_views(equations@);
            let applied = Function::new(types, Value::Number);
            proof {
                lemma_function_view(applied);
            }
            let equation = Equation::new(
                callee,
                Type::Function(applied),
                share(source_information),
            );
            equations.push(equation);
            proof {
                let typing = collect_expression(expression@, environment_view(old(environment)@));
                assert(equation_views(equations@) =~= end.push(equation@));
                assert(equation_views(equations@) =~= before + typing->Ok_0.1);
            }
            Ok(Type::Value(Value::Number))
        },
        Expression::LetValues { definitions, expression: body } => {
            proof {
                lemma_let_values_view(*expression);
            }
            let length = environment.len();
            type_values(definitions, environment, equations)?;
            let ghost middle = equation_views(equations@);
            let type_ = type_expression(body, environment, equations)?;
            environment.truncate(length);
            proof {
                let typing = collect_expression(expression@, environment_view(old(environment)@));
                assert(environment.bindings@ =~= old(environment).bindings@);
                assert(equation_views(equations@) =~= before + typing->Ok_0.1);
            }
            Ok(type_)
        },
        Expression::LetFunctions { definitions, expression: body } => {
            proof {
                lemma_let_functions_view(*expression);
            }
            let length = environment.len();
            declare_functions(definitions, environment);
            type_functions(definitions, environment, equations)?;
            let ghost middle = equation_views(equations@);
            let type_ = type_expression(body, environment, equations)?;
            environment.truncate(length);
            proof {
                let typing = collect_expression(expression@, environment_view(old(environment)@));
                assert(environment.bindings@ =~= old(environment).bindings@);
                assert(equation_views(equations@) =~= before + typing->Ok_0.1);
            }
            Ok(type_)
        },
    }
}

/// The types of the expressions, in order. The equations that typing them
/// asks for are added to `equations`.
pub fn type_arguments(
    expressions: &Vec<Expression>,
    environment: &mut Environment<Type>,
    equations: &mut Vec<Equation>,
) -> (result: Result<Vec<Type>, CompileError>)
    ensures
        match result {
            Ok(types) => collect_arguments(
                expression_views(expressions@),
                environment_view(old(environment)@),
                expressions.len() as int,
            ) matches Ok((expected, added)) && expected == type_views(types@) && equation_views(
                final(equations)@,
            ) == equation_views(old(equations)@) + added
                && final(environment).bindings@ == old(environment).bindings@,
            Err(error) => collect_arguments(
                expression_views(expressions@),
                environment_view(old(environment)@),
                expressions.len() as int,
            ) == Err::<(Seq<TypeView>, Seq<EquationView>), _>(error@),
        },
    decreases expressions, 1nat,
{
    let ghost all = expression_views(expressions@);
    let ghost scope = environment_view(environment@);
    let ghost before = equation_views(equations@);
    let mut types: Vec<Type> = Vec::new();
    let mut index: usize = 0;
    assert(type_views(types@) =~= Seq::empty());
    assert(before =~= before + Seq::<EquationView>::empty());
    while index < expressions.len()
        invariant
            index <= expressions.len(),
            all == expression_views(expressions@),
            scope == environment_view(old(environment)@),
            before == equation_views(old(equations)@),
            environment.bindings@ == old(environment).bindings@,
            collect_arguments(all, scope, index as int) matches Ok((expected, added)) && expected
                == type_views(types@) && equation_views(equations@) == before + added,
        decreases expressions.len() - index,
    {
        let ghost collected = type_views(types@);
        let ghost middle = equation_views(equations@);
        match type_expression(&expressions[index], environment, equations) {
            Ok(type_) => {
                types.push(type_);
                proof {
                    assert(type_views(types@) =~= collected.push(type_@));
                    let typing = collect_arguments(all, scope, index + 1);
                    assert(equation_views(equations@) =~= before + typing->Ok_0.1);
                }
            },
            Err(error) => {
                proof {
                    assert(collect_arguments(all, scope, index + 1) == Err::<
                        (Seq<TypeView>, Seq<EquationView>),
                        _,
                    >(error@));
                    lemma_collect_arguments_error(all, scope, index + 1, all.len() as int);
                }
                return Err(error);
            },
        }
        index += 1;
    }
    Ok(types)
}

/// Types the definitions of a `let` of values, in order, and binds the name
/// of each to the type that it declares. The equations that typing them asks
/// for are added to `equations`.
pub fn type_values(
    definitions: &Vec<VariableDefinition>,
    environment: &mut Environment<Type>,
    equations: &mut Vec<Equation>,
) -> (result: Result<(), CompileError>)
    ensures
        match result {
            Ok(_) => collect_values(
                variable_definition_views(definitions@),
                environment_view(old(environment)@),
                definitions.len() as int,
            ) matches Ok((scope, added)) && scope == environment_view(final(environment)@)
                && equation_views(final(equations)@) == equation_views(old(equations)@) + added
                && old(environment).bindings@.len() <= final(environment).bindings@.len()
                && final(environment).bindings@.take(old(environment).bindings@.len() as int)
                == old(environment).bindings@,
            Err(error) => collect_values(
                variable_definition_views(definitions@),
                environment_view(old(environment)@),
                definitions.len() as int,
            ) == Err::<(TypeEnvironment, Seq<EquationView>), _>(error@),
        },
    decreases definitions, 1nat,
{
    let ghost all = variable_definition_views(definitions@);
    let ghost scope = environment_view(environment@);
    let ghost before = equation_views(equations@);
    let mut index: usize = 0;
    assert(before =~= before + Seq::<EquationView>::empty());
    assert(environment.bindings@.take(environment.bindings@.len() as int)
        =~= environment.bindings@);
    while index < definitions.len()
        invariant
            index <= definitions.len(),
            all == variable_definition_views(definitions@),
            scope == environment_view(old(environment)@),
            before == equation_views(old(equations)@),
            old(environment).bindings@.len() <= environment.bindings@.len(),
            environment.bindings@.take(old(environment).bindings@.len() as int) == old(environment).bindings@,
            collect_values(all, scope, index as int) matches Ok((inner, added)) && inner
                == environment_view(environment@) && equation_views(equations@) == before + added,
        decreases definitions.len() - index,
    {
        let definition = &definitions[index];
        match type_expression(&definition.body, environment, equations) {
            Ok(type_) => {
                let ghost middle = equation_views(equations@);
                let equation = Equation::new(
                    definition.type_.duplicate(),
                    type_,
                    share(&definition.source_information),
                );
                equations.push(equation);
                let declared = definition.type_.duplicate();
                proof {
                    lemma_environment_view_insert(environment@, definition.name@, declared);
                }
                let ghost stack = environment.bindings@;
                environment.insert(definition.name.clone(), declared);
                proof {
                    assert(environment.bindings@.take(old(environment).bindings@.len() as int)
                        =~= stack.take(old(environment).bindings@.len() as int));
                    let typing = collect_values(all, scope, index + 1);
                    assert(equation_views(equations@) =~= middle.push(equation@));
                    assert(equation_views(equations@) =~= before + typing->Ok_0.1);
                }
            },
            Err(error) => {
                proof {
                    assert(collect_values(all, scope, index + 1) == Err::<
                        (TypeEnvironment, Seq<EquationView>),
                        _,
                    >(error@));
                    lemma_collect_values_error(all, scope, index + 1, all.len() as int);
                }
                return Err(error);
            },
        }
        index += 1;
    }
    Ok(())
}

/// Binds the names of the function definitions to the types that they
/// declare.
pub fn declare_functions(definitions: &Vec<FunctionDefinition>, environment: &mut Environment<Type>)
    ensures
        environment_view(final(environment)@) == bind_functions(
            function_definition_views(definitions@),
            environment_view(old(environment)@),
            definitions.len() as int,
        ),
        old(environment).bindings@.len() <= final(environment).bindings@.len(),
        final(environment).bindings@.take(old(environment).bindings@.len() as int) == old(environment).bindings@,
{
    let ghost all = function_definition_views(definitions@);
    let mut index: usize = 0;
    assert(environment.bindings@.take(environment.bindings@.len() as int)
        =~= environment.bindings@);
    while index < definitions.len()
        invariant
            index <= definitions.len(),
            all == function_definition_views(definitions@),
            old(environment).bindings@.len() <= environment.bindings@.len(),
            environment.bindings@.take(old(environment).bindings@.len() as int) == old(environment).bindings@,
            environment_view(environment@) == bind_functions(
                all,
                environment_view(old(environment)@),
                index as int,
            ),
        decreases definitions.len() - index,
    {
        let definition = &definitions[index];
        let declared = definition.type_.duplicate();
        proof {
            lemma_environment_view_insert(environment@, definition.name@, declared);
        }
        let ghost stack = environment.bindings@;
        environment.insert(definition.name.clone(), declared);
        assert(environment.bindings@.take(old(environment).bindings@.len() as int) =~= stack.take(
            old(environment).bindings@.len() as int,
        ));
        index += 1;
    }
}

/// Types the function definitions, in order. The equations that typing them
/// asks for are added to `equations`.
pub fn type_functions(
    definitions: &Vec<FunctionDefinition>,
    environment: &mut Environment<Type>,
    equations: &mut Vec<Equation>,
) -> (result: Result<(), CompileError>)
    ensures
        added(
            collect_functions(
                function_definition_views(definitions@),
                environment_view(old(environment)@),
                definitions.len() as int,
            ),
            result,
            equation_views(old(equations)@),
            equation_views(final(equations)@),
        ),
        result is Ok ==> final(environment).bindings@ == old(environment).bindings@,
    decreases definitions, 1nat,
{
    let ghost all = function_definition_views(definitions@);
    let ghost scope = environment_view(environment@);
    let ghost before = equation_views(equations@);
    let mut index: usize = 0;
    assert(before =~= before + Seq::<EquationView>::empty());
    while index < definitions.len()
        invariant
            index <= definitions.len(),
            all == function_definition_views(definitions@),
            scope == environment_view(old(environment)@),
            before == equation_views(old(equations)@),
            environment.bindings@ == old(environment).bindings@,
            collect_functions(all, scope, index as int) matches Ok(collected) && equation_views(
                equations@,
            ) == before + collected,
        decreases definitions.len() - index,
    {
        match type_function(&definitions[index], environment, equations) {
            Ok(_) => {
                proof {
                    let collected = collect_functions(all, scope, index + 1);
                    assert(equation_views(equations@) =~= before + collected->Ok_0);
                }
            },
            Err(error) => {
                proof {
                    assert(collect_functions(all, scope, index + 1) == Err::<
                        Seq<EquationView>,
                        _,
                    >(error@));
                    lemma_collect_functions_error(all, scope, index + 1, all.len() as int);
                }
                return Err(error);
            },
        }
        index += 1;
    }
    Ok(())
}

/// Types a function definition. The equations that typing it asks for are
/// added to `equations`, and `environment` is left as it was.
pub fn type_function(
    definition: &FunctionDefinition,
    environment: &mut Environment<Type>,
    equations: &mut Vec<Equation>,
) -> (result: Result<(), CompileError>)
    ensures
        added(
            collect_function(definition@, environment_view(old(environment)@)),
            result,
            equation_views(old(equations)@),
            equation_views(final(equations)@),
        ),
        result is Ok ==> final(environment).bindings@ == old(environment).bindings@,
    decreases definition, 0nat,
{
    let ghost before = equation_views(equations@);
    let ghost scope = environment_view(environment@);
    match &definition.type_ {
        Type::Function(function) => {
            proof {
                lemma_function_view(*function);
            }
            if function.arguments.len() == definition.arguments.len() {
                let length = environment.len();
                let ghost names = definition@.arguments;
                let ghost types = definition@.type_->arguments;
                let mut index: usize = 0;
                assert(environment.bindings@.take(length as int) =~= environment.bindings@);
                while index < definition.arguments.len()
                    invariant
                        index <= definition.arguments.len(),
                        function.arguments.len() == definition.arguments.len(),
                        names == name_views(definition.arguments@),
                        types == type_views(function.arguments@),
                        scope == environment_view(old(environment)@),
                        length == old(environment).bindings@.len(),
                        length <= environment.bindings@.len(),
                        environment.bindings@.take(length as int) == old(environment).bindings@,
                        environment_view(environment@) == bind_names(
                            names,
                            types,
                            scope,
                            index as int,
                        ),
                    decreases definition.arguments.len() - index,
                {
                    let type_ = function.arguments[index].duplicate();
                    proof {
                        lemma_environment_view_insert(
                            environment@,
                            definition.arguments[index as int]@,
                            type_,
                        );
                    }
                    let ghost stack = environment.bindings@;
                    environment.insert(definition.arguments[index].clone(), type_);
                    assert(environment.bindings@.take(length as int) =~= stack.take(
                        length as int,
                    ));
                    index += 1;
                }
                let type_ = type_expression(&definition.body, environment, equations)?;
                let ghost middle = equation_views(equations@);
                let equation = Equation::new(
                    Type::Value(function.result),
                    type_,
                    share(&definition.source_information),
                );
                equations.push(equation);
                environment.truncate(length);
                proof {
                    assert(environment.bindings@ =~= old(environment).bindings@);
                    let collected = collect_function(definition@, scope);
                    assert(equation_views(equations@) =~= middle.push(equation@));
                    assert(equation_views(equations@) =~= before + collected->Ok_0);
                }
                Ok(())
            } else {
                Err(
                    CompileError::TypeMismatch {
                        expected: definition.type_.duplicate(),
                        actual: shape(definition.arguments.len()),
                        source_information: share(&definition.source_information),
                    },
                )
            }
        },
        _ => Err(
            CompileError::TypeMismatch {
                expected: definition.type_.duplicate(),
                actual: shape(definition.arguments.len()),
                source_information: share(&definition.source_information),
            },
        ),
    }
}

/// Types a top-level definition. The equations that typing it asks for are
/// added to `equations`.
pub fn type_definition(
    definition: &Definition,
    environment: &mut Environment<Type>,
    equations: &mut Vec<Equation>,
) -> (result: Result<(), CompileError>)
    ensures
        added(
            collect_definition(definition@, environment_view(old(environment)@)),
            result,
            equation_views(old(equations)@),
            equation_views(final(equations)@),
        ),
        result is Ok ==> final(environment).bindings@ == old(environment).bindings@,
{
    match definition {
        Definition::FunctionDefinition(definition) => type_function(
            definition,
            environment,
            equations,
        ),
        Definition::VariableDefinition(definition) => {
            let ghost before = equation_views(equations@);
            let type_ = type_expression(&definition.body, environment, equations)?;
            let ghost middle = equation_views(equations@);
            let equation = Equation::new(
                definition.type_.duplicate(),
                type_,
                share(&definition.source_information),
            );
            equations.push(equation);
            proof {
                let collected = collect_expression(
                    definition@.body,
                    environment_view(old(environment)@),
                );
                assert(equation_views(equations@) =~= middle.push(equation@));
                assert(equation_views(equations@) =~= before + collected->Ok_0.1.push(equation@));
            }
            Ok(())
        },
    }
}

/// Whether `result` is the place that `place` is.
pub open spec fn found(
    place: Option<SourceInformationView>,
    result: Option<Rc<SourceInformation>>,
) -> bool {
    match result {
        Some(source_information) => place == Some(source_information@),
        None => place is None,
    }
}

/// The place of the first definition in the expression whose declared type
/// holds a type variable.
pub fn find_open_in_expression(expression: &Expression) -> (result: Option<Rc<SourceInformation>>)
    ensures
        found(open_in_expression(expression@), result),
    decreases expression, 0nat,
{
    match expression {
        Expression::Number { .. } => None,
        Expression::Variable { .. } => None,
        Expression::Operation { lhs, rhs, .. } => match find_open_in_expression(lhs) {
            Some(place) => Some(place),
            None => find_open_in_expression(rhs),
        },
        Expression::Application { arguments, .. } => {
            proof {
                lemma_application_view(*expression);
            }
            find_open_in_expressions(arguments)
        },
        Expression::LetValues { definitions, expression: body } => {
            proof {
                lemma_let_values_view(*expression);
            }
            match find_open_in_values(definitions) {
                Some(place) => Some(place),
                None => find_open_in_expression(body),
            }
        },
        Expression::LetFunctions { definitions, expression: body } => {
            proof {
                lemma_let_functions_view(*expression);
            }
            match find_open_in_functions(definitions) {
                Some(place) => Some(place),
                None => find_open_in_expression(body),
            }
        },
    }
}

/// The place of the first such definition in the expressions.
pub fn find_open_in_expressions(expressions: &Vec<Expression>) -> (result: Option<
    Rc<SourceInformation>,
>)
    ensures
        found(
            open_in_expressions(expression_views(expressions@), expressions.len() as int),
            result,
        ),
    decreases expressions, 1nat,
{
    let ghost all = expression_views(expressions@);
    let mut index: usize = 0;
    while index < expressions.len()
        invariant
            index <= expressions.len(),
            all == expression_views(expressions@),
            open_in_expressions(all, index as int) is None,
        decreases expressions.len() - index,
    {
        match find_open_in_expression(&expressions[index]) {
            Some(place) => {
                proof {
                    lemma_open_in_expressions(all, index + 1, all.len() as int);
                }
                return Some(place);
            },
            None => {},
        }
        index += 1;
    }
    None
}

/// The place of the first such definition among the definitions and in
/// their bodies.
pub fn find_open_in_values(definitions: &Vec<VariableDefinition>) -> (result: Option<
    Rc<SourceInformation>,
>)
    ensures
        found(
            open_in_values(variable_definition_views(definitions@), definitions.len() as int),
            result,
        ),
    decreases definitions, 1nat,
{
    let ghost all = variable_definition_views(definitions@);
    let mut index: usize = 0;
    while index < definitions.len()
        invariant
            index <= definitions.len(),
            all == variable_definition_views(definitions@),
            open_in_values(all, index as int) is None,
        decreases definitions.len() - index,
    {
        let definition = &definitions[index];
        let place = if definition.type_.is_closed() {
            find_open_in_expression(&definition.body)
        } else {
            Some(share(&definition.source_information))
        };
        match place {
            Some(place) => {
                proof {
                    lemma_open_in_values(all, index + 1, all.len() as int);
                }
                return Some(place);
            },
            None => {},
        }
        index += 1;
    }
    None
}

/// The place of the first such definition among the definitions and in
/// their bodies.
pub fn find_open_in_functions(definitions: &Vec<FunctionDefinition>) -> (result: Option<
    Rc<SourceInformation>,
>)
    ensures
        found(
            open_in_functions(function_definition_views(definitions@), definitions.len() as int),
            result,
        ),
    decreases definitions, 1nat,
{
    let ghost all = function_definition_views(definitions@);
    let mut index: usize = 0;
    while index < definitions.len()
        invariant
            index <= definitions.len(),
            all == function_definition_views(definitions@),
            open_in_functions(all, index as int) is None,
        decreases definitions.len() - index,
    {
        let definition = &definitions[index];
        let place = if definition.type_.is_closed() {
            find_open_in_expression(&definition.body)
        } else {
            Some(share(&definition.source_information))
        };
        match place {
            Some(place) => {
                proof {
                    lemma_open_in_functions(all, index + 1, all.len() as int);
                }
                return Some(place);
            },
            None => {},
        }
        index += 1;
    }
    None
}

/// The place of the first such definition in the module.
pub fn find_open(module: &Module) -> (result: Option<Rc<SourceInformation>>)
    ensures
        found(
            open_in_definitions(module@.definitions, module@.definitions.len() as int),
            result,
        ),
{
    let ghost all = module@.definitions;
    let mut index: usize = 0;
    while index < module.definitions.len()
        invariant
            index <= module.definitions.len(),
            all == module@.definitions,
            open_in_definitions(all, index as int) is None,
        decreases module.definitions.len() - index,
    {
        let place = match &module.definitions[index] {
            Definition::FunctionDefinition(definition) => if definition.type_.is_closed() {
                find_open_in_expression(&definition.body)
            } else {
                Some(share(&definition.source_information))
            },
            Definition::VariableDefinition(definition) => if definition.type_.is_closed() {
                find_open_in_expression(&definition.body)
            } else {
                Some(share(&definition.source_information))
            },
        };
        match place {
            Some(place) => {
                proof {
                    lemma_open_in_definitions(all, index + 1, all.len() as int);
                }
                return Some(place);
            },
            None => {},
        }
        index += 1;
    }
    None
}

/// A place found among the first expressions is the place found among more.
pub proof fn lemma_open_in_expressions(expressions: Seq<ExpressionView>, count: int, more: int)
    requires
        0 <= count <= more <= expressions.len(),
        open_in_expressions(expressions, count) is Some,
    ensures
        open_in_expressions(expressions, more) == open_in_expressions(expressions, count),
    decreases more - count,
{
    if count < more {
        lemma_open_in_expressions(expressions, count, more - 1);
    }
}

/// A place found among the first definitions is the place found among more.
pub proof fn lemma_open_in_values(definitions: Seq<VariableDefinitionView>, count: int, more: int)
    requires
        0 <= count <= more <= definitions.len(),
        open_in_values(definitions, count) is Some,
    ensures
        open_in_values(definitions, more) == open_in_values(definitions, count),
    decreases more - count,
{
    if count < more {
        lemma_open_in_values(definitions, count, more - 1);
    }
}

/// A place found among the first definitions is the place found among more.
pub proof fn lemma_open_in_functions(
    definitions: Seq<FunctionDefinitionView>,
    count: int,
    more: int,
)
    requires
        0 <= count <= more <= definitions.len(),
        open_in_functions(definitions, count) is Some,
    ensures
        open_in_functions(definitions, more) == open_in_functions(definitions, count),
    decreases more - count,
{
    if count < more {
        lemma_open_in_functions(definitions, count, more - 1);
    }
}

/// A place found among the first definitions is the place found among more.
pub proof fn lemma_open_in_definitions(definitions: Seq<DefinitionView>, count: int, more: int)
    requires
        0 <= count <= more <= definitions.len(),
        open_in_definitions(definitions, count) is Some,
    ensures
        open_in_definitions(definitions, more) == open_in_definitions(definitions, count),
    decreases more - count,
{
    if count < more {
        lemma_open_in_definitions(definitions, count, more - 1);
    }
}

/// The view of what inference gives.
pub open spec fn outcome_view(result: Result<Module, CompileError>) -> Result<
    ModuleView,
    CompileErrorView,
> {
    match result {
        Ok(module) => Ok(module@),
        Err(error) => Err(error@),
    }
}

/// The table of the types of the names bound at the top level of a module.
pub fn bind_top_level(module: &Module, imported_modules: &Vec<ModuleInterface>) -> (result:
    Environment<Type>)
    ensures
        environment_view(result@) == top_level_environment(
            module@,
            interface_views(imported_modules@),
        ),
{
    let ghost interfaces = interface_views(imported_modules@);
    let mut environment: Environment<Type> = Environment::new();
    assert(environment_view(environment@) =~= Map::empty());
    let mut index: usize = 0;
    while index < imported_modules.len()
        invariant
            index <= imported_modules.len(),
            interfaces == interface_views(imported_modules@),
            environment_view(environment@) == bind_interfaces(
                interfaces,
                Map::empty(),
                index as int,
            ),
        decreases imported_modules.len() - index,
    {
        let variables = &imported_modules[index].variables;
        let ghost outer = environment_view(environment@);
        let mut place: usize = 0;
        while place < variables.len()
            invariant
                place <= variables.len(),
                environment_view(environment@) == bind_declarations(
                    ir::ast::declaration_views(variables@),
                    outer,
                    place as int,
                ),
            decreases variables.len() - place,
        {
            let type_ = embed_type(&variables[place].type_);
            proof {
                lemma_environment_view_insert(environment@, variables[place as int].name@, type_);
            }
            environment.insert(variables[place].name.clone(), type_);
            place += 1;
        }
        index += 1;
    }
    let ghost imported = environment_view(environment@);
    let mut index: usize = 0;
    while index < module.definitions.len()
        invariant
            index <= module.definitions.len(),
            environment_view(environment@) == bind_definitions(
                module@.definitions,
                imported,
                index as int,
            ),
        decreases module.definitions.len() - index,
    {
        let definition = &module.definitions[index];
        let type_ = definition.type_().duplicate();
        let name = String::from_str(definition.name());
        proof {
            lemma_environment_view_insert(environment@, name@, type_);
        }
        environment.insert(name, type_);
        index += 1;
    }
    environment
}

/// The module with the type of every definition inferred.
///
/// The result is the module with a most general unifier of its typing
/// equations applied to every type in it. Inference fails where a name is
/// unbound, where a function definition declares no function type of its
/// arguments, where the equations cannot be unified, and where a most
/// general unifier leaves a type open.
pub fn infer_types(module: &Module, imported_modules: &Vec<ModuleInterface>) -> (result: Result<
    Module,
    CompileError,
>)
    ensures
        inferred(module@, interface_views(imported_modules@), outcome_view(result)),
{
    let mut environment = bind_top_level(module, imported_modules);
    let ghost scope = environment_view(environment@);
    let ghost all = module@.definitions;
    let mut equations: Vec<Equation> = Vec::new();
    let mut index: usize = 0;
    assert(equation_views(equations@) =~= Seq::empty());
    while index < module.definitions.len()
        invariant
            index <= module.definitions.len(),
            all == module@.definitions,
            scope == environment_view(environment@),
            scope == top_level_environment(module@, interface_views(imported_modules@)),
            collect_definitions(all, scope, index as int) == Ok::<_, CompileErrorView>(
                equation_views(equations@),
            ),
        decreases module.definitions.len() - index,
    {
        let ghost before = equation_views(equations@);
        match type_definition(&module.definitions[index], &mut environment, &mut equations) {
            Ok(_) => {},
            Err(error) => {
                proof {
                    assert(collect_definitions(all, scope, index + 1) == Err::<
                        Seq<EquationView>,
                        _,
                    >(error@));
                    lemma_collect_definitions_error(all, scope, index + 1, all.len() as int);
                }
                return Err(error);
            },
        }
        index += 1;
    }
    let ghost collected = equation_views(equations@);
    let substitution = match unify(&equations) {
        Ok(substitution) => substitution,
        Err(error) => {
            return Err(error);
        },
    };
    let typed = module.substitute_type_variables(&substitution);
    proof {
        assert(most_general_unifier(substitution_view(substitution@), collected));
        assert(typed@.definitions.len() == module@.definitions.len());
    }
    let ghost unifier = substitution_view(substitution@);
    proof {
        assert(equations_of(module@, interface_views(imported_modules@)) == Ok::<
            _,
            CompileErrorView,
        >(collected));
        assert(typed@ == module@.substitute(unifier));
    }
    match find_open(&typed) {
        Some(source_information) => {
            proof {
                assert(most_general_unifier(unifier, collected));
                assert(instantiates(module@, collected, typed@));
                assert(open_in_definitions(
                    module@.substitute(unifier).definitions,
                    module@.definitions.len() as int,
                ) == Some(source_information@));
                assert(ambiguous(module@, collected, source_information@));
                assert(inferred(
                    module@,
                    interface_views(imported_modules@),
                    Err::<ModuleView, _>(
                        CompileErrorView::AmbiguousType {
                            source_information: source_information@,
                        },
                    ),
                ));
            }
            Err(CompileError::AmbiguousType { source_information })
        },
        None => {
            proof {
                assert(most_general_unifier(unifier, collected));
                assert(instantiates(module@, collected, typed@));
                assert(module_closed(typed@));
                assert(inferred(
                    module@,
                    interface_views(imported_modules@),
                    Ok::<_, CompileErrorView>(typed@),
                ));
            }
            Ok(typed)
        },
    }
}

} // verus!
