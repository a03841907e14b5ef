//! Closure conversion: from a typed module of the surface language to a
//! module of the core language.
//!
//! Every function definition gets its environment: its free variables that
//! are bound around the definition, in the order of names, each with its
//! type. A name bound at the top level of a module is no such variable. The
//! arguments of a function get their types from the type of the function.

use crate::ast;
use crate::compile::error::{CompileError, CompileErrorView};
use crate::compile::free_variable_finder::{free_variables, FreeVariableFinder};
use crate::debug::share;
use crate::environment::Environment;
use crate::interface::{interface_views, ModuleInterface, ModuleInterfaceView};
use crate::ir;
use crate::ir::ast::{Argument, ArgumentView, Declaration, DeclarationView};
use crate::names::{lemma_sorted_unique, name_views, strictly_sorted, Name};
use crate::types;
use vstd::prelude::*;

verus! {

/// The types of the names that are bound around an expression, but at the
/// top level.
pub type Locals = Map<Name, ir::types::TypeView>;

/// The mathematical value of a table of core types.
pub open spec fn locals_view(locals: Map<Name, ir::types::Type>) -> Locals {
    Map::new(|name: Name| locals.contains_key(name), |name: Name| locals[name]@)
}

/// The core type that a type without variables is.
pub open spec fn core_type(type_: types::TypeView) -> ir::types::TypeView
    decreases type_,
{
    match type_ {
        types::TypeView::Function { arguments, result } => ir::types::TypeView::Function {
            arguments: Seq::new(
                arguments.len(),
                |i: int|
                    if 0 <= i < arguments.len() {
                        core_type(arguments[i])
                    } else {
                        arbitrary()
                    },
            ),
            result,
        },
        types::TypeView::Value(value) => ir::types::TypeView::Value(value),
        types::TypeView::Variable(_) => ir::types::TypeView::Value(types::Value::Number),
    }
}

/// The type of a function of the given number of numbers.
pub open spec fn shape_type(arity: nat) -> types::TypeView {
    types::TypeView::Function {
        arguments: Seq::new(arity, |i: int| types::TypeView::Value(types::Value::Number)),
        result: types::Value::Number,
    }
}

/// The types of the arguments and of the result of a function definition.
/// The declared type has to be a function type of as many arguments as the
/// definition names, and no type variable may be left in it.
pub open spec fn function_signature(definition: ast::FunctionDefinitionView) -> Result<
    (Seq<ir::types::TypeView>, types::Value),
    CompileErrorView,
> {
    if definition.type_ is Function && definition.type_->arguments.len()
        == definition.arguments.len() {
        if definition.type_.is_closed() {
            Ok((core_type(definition.type_)->arguments, definition.type_->result))
        } else {
            Err(
                CompileErrorView::AmbiguousType {
                    source_information: definition.source_information,
                },
            )
        }
    } else {
        Err(
            CompileErrorView::TypeMismatch {
                expected: definition.type_,
                actual: shape_type(definition.arguments.len()),
                source_information: definition.source_information,
            },
        )
    }
}

/// The given names in the order of names.
pub open spec fn sorted_names(names: Set<Name>) -> Seq<Name> {
    choose|list: Seq<Name>| strictly_sorted(list) && list.to_set() == names
}

/// The environment of a function definition: its free variables that are
/// bound around it, in the order of names, each with its type.
pub open spec fn captured(definition: ast::FunctionDefinitionView, locals: Locals) -> Seq<
    ArgumentView,
> {
    let names = sorted_names(free_variables(definition).intersect(locals.dom()));
    Seq::new(names.len(), |i: int| ArgumentView { name: names[i], type_: locals[names[i]] })
}

/// The first `count` names, each with its type.
pub open spec fn typed_arguments(names: Seq<Name>, types: Seq<ir::types::TypeView>) -> Seq<
    ArgumentView,
> {
    Seq::new(names.len(), |i: int| ArgumentView { name: names[i], type_: types[i] })
}

/// The types of the names bound around the body of a function whose first
/// `count` arguments are bound.
pub open spec fn bind_arguments(arguments: Seq<ArgumentView>, locals: Locals, count: int) -> Locals
    decreases count,
{
    if count <= 0 {
        locals
    } else {
        bind_arguments(arguments, locals, count - 1).insert(
            arguments[count - 1].name,
            arguments[count - 1].type_,
        )
    }
}

/// The types of the names bound around the bodies of the definitions of a
/// `let` of functions, of which the first `count` are bound.
pub open spec fn bind_functions(
    definitions: Seq<ast::FunctionDefinitionView>,
    locals: Locals,
    count: int,
) -> Result<Locals, CompileErrorView>
    decreases count,
{
    if count <= 0 {
        Ok(locals)
    } else {
        match bind_functions(definitions, locals, count - 1) {
            Err(error) => Err(error),
            Ok(locals) => if definitions[count - 1].type_.is_closed() {
                Ok(locals.insert(definitions[count - 1].name, core_type(definitions[count - 1].type_)))
            } else {
                Err(
                    CompileErrorView::AmbiguousType {
                        source_information: definitions[count - 1].source_information,
                    },
                )
            },
        }
    }
}

/// The expression of the core language that an expression is converted to,
/// where `locals` are bound around it.
pub open spec fn convert_expression(expression: ast::ExpressionView, locals: Locals) -> Result<
    ir::ast::ExpressionView,
    CompileErrorView,
>
    decreases expression, 0nat,
{
    match expression {
        ast::ExpressionView::Number { value, .. } => Ok(ir::ast::ExpressionView::Number(value)),
        ast::ExpressionView::Variable { name, .. } => Ok(ir::ast::ExpressionView::Variable(name)),
        ast::ExpressionView::Operation { operator, lhs, rhs, .. } => match convert_expression(
            *lhs,
            locals,
        ) {
            Err(error) => Err(error),
            Ok(lhs) => match convert_expression(*rhs, locals) {
                Err(error) => Err(error),
                Ok(rhs) => Ok(
                    ir::ast::ExpressionView::Operation {
                        operator,
                        lhs: Box::new(lhs),
                        rhs: Box::new(rhs),
                    },
                ),
            },
        },
        ast::ExpressionView::Application { function, arguments, .. } => match convert_expressions(
            arguments,
            locals,
            arguments.len() as int,
        ) {
            Err(error) => Err(error),
            Ok(arguments) => Ok(ir::ast::ExpressionView::Application { function, arguments }),
        },
        ast::ExpressionView::LetValues { definitions, expression } => match convert_values(
            definitions,
            locals,
            definitions.len() as int,
        ) {
            Err(error) => Err(error),
            Ok((definitions, locals)) => match convert_expression(*expression, locals) {
                Err(error) => Err(error),
                Ok(expression) => Ok(
                    ir::ast::ExpressionView::LetValues {
                        definitions,
                        expression: Box::new(expression),
                    },
                ),
            },
        },
        ast::ExpressionView::LetFunctions { definitions, expression } => match bind_functions(
            definitions,
            locals,
            definitions.len() as int,
        ) {
            Err(error) => Err(error),
            Ok(locals) => match convert_functions(definitions, locals, definitions.len() as int) {
                Err(error) => Err(error),
                Ok(definitions) => match convert_expression(*expression, locals) {
                    Err(error) => Err(error),
                    Ok(expression) => Ok(
                        ir::ast::ExpressionView::LetFunctions {
                            definitions,
                            expression: Box::new(expression),
                        },
                    ),
                },
            },
        },
    }
}

/// What the first `count` expressions are converted to.
pub open spec fn convert_expressions(
    expressions: Seq<ast::ExpressionView>,
    locals: Locals,
    count: int,
) -> Result<Seq<ir::ast::ExpressionView>, CompileErrorView>
    decreases expressions, count,
{
    if count <= 0 || count > expressions.len() {
        Ok(Seq::empty())
    } else {
        match convert_expressions(expressions, locals, count - 1) {
            Err(error) => Err(error),
            Ok(converted) => match convert_expression(expressions[count - 1], locals) {
                Err(error) => Err(error),
                Ok(expression) => Ok(converted.push(expression)),
            },
        }
    }
}

/// What the first `count` definitions of a `let` of values are converted to,
/// and the types of the names bound after them. Each definition binds its
/// name in the definitions after it.
pub open spec fn convert_values(
    definitions: Seq<ast::VariableDefinitionView>,
    locals: Locals,
    count: int,
) -> Result<(Seq<ir::ast::ValueDefinitionView>, Locals), CompileErrorView>
    decreases definitions, count,
{
    if count <= 0 || count > definitions.len() {
        Ok((Seq::empty(), locals))
    } else {
        match convert_values(definitions, locals, count - 1) {
            Err(error) => Err(error),
            Ok((converted, locals)) => {
                let definition = definitions[count - 1];
                if !definition.type_.is_closed() {
                    Err(
                        CompileErrorView::AmbiguousType {
                            source_information: definition.source_information,
                        },
                    )
                } else {
                    match convert_expression(definition.body, locals) {
                        Err(error) => Err(error),
                        Ok(body) => Ok(
                            (
                                converted.push(
                                    ir::ast::ValueDefinitionView {
                                        name: definition.name,
                                        body,
                                        type_: core_type(definition.type_),
                                    },
                                ),
                                locals.insert(definition.name, core_type(definition.type_)),
                            ),
                        ),
                    }
                }
            },
        }
    }
}

/// What the first `count` function definitions are converted to.
pub open spec fn convert_functions(
    definitions: Seq<ast::FunctionDefinitionView>,
    locals: Locals,
    count: int,
) -> Result<Seq<ir::ast::FunctionDefinitionView>, CompileErrorView>
    decreases definitions, count,
{
    if count <= 0 || count > definitions.len() {
        Ok(Seq::empty())
    } else {
        match convert_functions(definitions, locals, count - 1) {
            Err(error) => Err(error),
            Ok(converted) => match convert_function(definitions[count - 1], locals) {
                Err(error) => Err(error),
                Ok(definition) => Ok(converted.push(definition)),
            },
        }
    }
}

/// The function definition of the core language that a function definition
/// is converted to, where `locals` are bound around it.
pub open spec fn convert_function(definition: ast::FunctionDefinitionView, locals: Locals) -> Result<
    ir::ast::FunctionDefinitionView,
    CompileErrorView,
>
    decreases definition, 0nat,
{
    match function_signature(definition) {
        Err(error) => Err(error),
        Ok((types, result_type)) => {
            let arguments = typed_arguments(definition.arguments, types);
            match convert_expression(
                definition.body,
                bind_arguments(arguments, locals, arguments.len() as int),
            ) {
                Err(error) => Err(error),
                Ok(body) => Ok(
                    ir::ast::FunctionDefinitionView {
                        name: definition.name,
                        environment: captured(definition, locals),
                        arguments,
                        body,
                        result_type,
                    },
                ),
            }
        },
    }
}

/// The definition of the core language that a top-level definition is
/// converted to. Nothing is bound around a top-level definition but
/// top-level names, so a top-level function captures nothing.
pub open spec fn convert_definition(definition: ast::DefinitionView) -> Result<
    ir::ast::DefinitionView,
    CompileErrorView,
> {
    match definition {
        ast::DefinitionView::FunctionDefinition(definition) => match convert_function(
            definition,
            Map::empty(),
        ) {
            Err(error) => Err(error),
            Ok(definition) => Ok(ir::ast::DefinitionView::FunctionDefinition(definition)),
        },
        ast::DefinitionView::VariableDefinition(definition) => if !definition.type_.is_closed() {
            Err(
                CompileErrorView::AmbiguousType {
                    source_information: definition.source_information,
                },
            )
        } else {
            match convert_expression(definition.body, Map::empty()) {
                Err(error) => Err(error),
                Ok(body) => Ok(
                    ir::ast::DefinitionView::ValueDefinition(
                        ir::ast::ValueDefinitionView {
                            name: definition.name,
                            body,
                            type_: core_type(definition.type_),
                        },
                    ),
                ),
            }
        },
    }
}

/// What the first `count` top-level definitions are converted to.
pub open spec fn convert_definitions(definitions: Seq<ast::DefinitionView>, count: int) -> Result<
    Seq<ir::ast::DefinitionView>,
    CompileErrorView,
>
    decreases count,
{
    if count <= 0 {
        Ok(Seq::empty())
    } else {
        match convert_definitions(definitions, count - 1) {
            Err(error) => Err(error),
            Ok(converted) => match convert_definition(definitions[count - 1]) {
                Err(error) => Err(error),
                Ok(definition) => Ok(converted.push(definition)),
            },
        }
    }
}

/// The names that the first `count` interfaces export, with their types.
pub open spec fn declarations_of(interfaces: Seq<ModuleInterfaceView>, count: int) -> Seq<
    DeclarationView,
>
    decreases count,
{
    if count <= 0 {
        Seq::empty()
    } else {
        declarations_of(interfaces, count - 1) + interfaces[count - 1].variables
    }
}

/// The module of the core language that a module is converted to: its
/// declarations are what the interfaces of the modules that it uses export.
pub open spec fn convert_module(
    module: ast::ModuleView,
    imported_modules: Seq<ModuleInterfaceView>,
) -> Result<ir::ast::ModuleView, CompileErrorView> {
    match convert_definitions(module.definitions, module.definitions.len() as int) {
        Err(error) => Err(error),
        Ok(definitions) => Ok(
            ir::ast::ModuleView {
                declarations: declarations_of(imported_modules, imported_modules.len() as int),
                definitions,
            },
        ),
    }
}

/// Binding a name in a table binds it in the view of the table.
pub proof fn lemma_locals_view_insert(
    locals: Map<Name, ir::types::Type>,
    name: Name,
    type_: ir::types::Type,
)
    ensures
        locals_view(locals.insert(name, type_)) == locals_view(locals).insert(name, type_@),
{
    assert(locals_view(locals.insert(name, type_)) =~= locals_view(locals).insert(name, type_@));
}

/// Where converting the first expressions fails, converting more fails
/// alike.
pub proof fn lemma_convert_expressions_error(
    expressions: Seq<ast::ExpressionView>,
    locals: Locals,
    count: int,
    more: int,
)
    requires
        0 <= count <= more <= expressions.len(),
        convert_expressions(expressions, locals, count) is Err,
    ensures
        convert_expressions(expressions, locals, more) == convert_expressions(
            expressions,
            locals,
            count,
        ),
    decreases more - count,
{
    if count < more {
        lemma_convert_expressions_error(expressions, locals, count, more - 1);
    }
}

/// Where converting the first definitions fails, converting more fails
/// alike.
pub proof fn lemma_convert_values_error(
    definitions: Seq<ast::VariableDefinitionView>,
    locals: Locals,
    count: int,
    more: int,
)
    requires
        0 <= count <= more <= definitions.len(),
        convert_values(definitions, locals, count) is Err,
    ensures
        convert_values(definitions, locals, more) == convert_values(definitions, locals, count),
    decreases more - count,
{
    if count < more {
        lemma_convert_values_error(definitions, locals, count, more - 1);
    }
}

/// Where binding the first definitions fails, binding more fails alike.
pub proof fn lemma_bind_functions_error(
    definitions: Seq<ast::FunctionDefinitionView>,
    locals: Locals,
    count: int,
    more: int,
)
    requires
        0 <= count <= more <= definitions.len(),
        bind_functions(definitions, locals, count) is Err,
    ensures
        bind_functions(definitions, locals, more) == bind_functions(definitions, locals, count),
    decreases more - count,
{
    if count < more {
        lemma_bind_functions_error(definitions, locals, count, more - 1);
    }
}

/// Where converting the first definitions fails, converting more fails
/// alike.
pub proof fn lemma_convert_functions_error(
    definitions: Seq<ast::FunctionDefinitionView>,
    locals: Locals,
    count: int,
    more: int,
)
    requires
        0 <= count <= more <= definitions.len(),
        convert_functions(definitions, locals, count) is Err,
    ensures
        convert_functions(definitions, locals, more) == convert_functions(
            definitions,
            locals,
            count,
        ),
    decreases more - count,
{
    if count < more {
        lemma_convert_functions_error(definitions, locals, count, more - 1);
    }
}

/// Where converting the first definitions fails, converting more fails
/// alike.
pub proof fn lemma_convert_definitions_error(
    definitions: Seq<ast::DefinitionView>,
    count: int,
    more: int,
)
    requires
        0 <= count <= more <= definitions.len(),
        convert_definitions(definitions, count) is Err,
    ensures
        convert_definitions(definitions, more) == convert_definitions(definitions, count),
    decreases more - count,
{
    if count < more {
        lemma_convert_definitions_error(definitions, count, more - 1);
    }
}

/// The core type that a type without variables is, if it is without
/// variables.
pub fn convert_type(type_: &types::Type) -> (result: Option<ir::types::Type>)
    ensures
        match result {
            Some(converted) => type_@.is_closed() && converted@ == core_type(type_@),
            None => !type_@.is_closed(),
        },
    decreases type_, 0nat,
{
    match type_ {
        types::Type::Function(function) => {
            proof {
                types::lemma_function_view(*function);
            }
            match convert_types(&function.arguments) {
                Some(arguments) => {
                    let converted = ir::types::Function::new(arguments, function.result);
                    proof {
                        ir::types::lemma_function_view(converted);
                        assert(converted@->arguments =~= core_type(type_@)->arguments);
                        assert forall|i: int| 0 <= i < type_@->arguments.len() implies (
                        #[trigger] type_@->arguments[i]).is_closed() by {
                            assert(types::type_views(function.arguments@)[i].is_closed());
                        }
                    }
                    Some(ir::types::Type::Function(converted))
                },
                None => None,
            }
        },
        types::Type::Value(value) => Some(ir::types::Type::Value(*value)),
        types::Type::Variable(_) => None,
    }
}

/// The core types that types without variables are, if all are without
/// variables.
pub fn convert_types(types: &Vec<types::Type>) -> (result: Option<Vec<ir::types::Type>>)
    ensures
        match result {
            Some(converted) => converted.len() == types.len() && forall|i: int|
                0 <= i < types.len() ==> (#[trigger] types::type_views(types@)[i]).is_closed()
                    && converted[i]@ == core_type(types[i]@),
            None => exists|i: int|
                0 <= i < types.len() && !(#[trigger] types::type_views(types@)[i]).is_closed(),
        },
    decreases types, 1nat,
{
    let mut converted: Vec<ir::types::Type> = Vec::new();
    let mut index: usize = 0;
    while index < types.len()
        invariant
            index <= types.len(),
            converted.len() == index,
            forall|i: int|
                0 <= i < index ==> (#[trigger] types::type_views(types@)[i]).is_closed()
                    && converted[i]@ == core_type(types[i]@),
        decreases types.len() - index,
    {
        match convert_type(&types[index]) {
            Some(type_) => {
                converted.push(type_);
            },
            None => {
                assert(!types::type_views(types@)[index as int].is_closed());
                return None;
            },
        }
        index += 1;
    }
    Some(converted)
}

/// The type of a function of the given number of numbers.
pub fn shape(arity: usize) -> (result: types::Type)
    ensures
        result@ == shape_type(arity as nat),
{
    let mut arguments: Vec<types::Type> = Vec::new();
    let mut index: usize = 0;
    while index < arity
        invariant
            index <= arity,
            arguments.len() == index,
            forall|i: int|
                0 <= i < index ==> (#[trigger] arguments[i])@ == types::TypeView::Value(
                    types::Value::Number,
                ),
        decreases arity - index,
    {
        arguments.push(types::Type::Value(types::Value::Number));
        index += 1;
    }
    let function = types::Function::new(arguments, types::Value::Number);
    proof {
        types::lemma_function_view(function);
        assert(function@->arguments =~= shape_type(arity as nat)->arguments);
    }
    types::Type::Function(function)
}

/// The names of the given arguments, in order.
pub open spec fn names_of(arguments: Seq<ArgumentView>) -> Seq<Name> {
    Seq::new(arguments.len(), |i: int| arguments[i].name)
}

pub struct ClosureConverter {
    pub free_variable_finder: FreeVariableFinder,
}

impl ClosureConverter {
    pub fn new() -> Self {
        Self { free_variable_finder: FreeVariableFinder::new() }
    }

    /// The module of the core language that the module is converted to.
    pub fn convert(&self, module: &ast::Module, imported_modules: &Vec<ModuleInterface>) -> (result:
        Result<ir::ast::Module, CompileError>)
        ensures
            match result {
                Ok(converted) => convert_module(module@, interface_views(imported_modules@))
                    == Ok::<_, CompileErrorView>(converted@),
                Err(error) => convert_module(module@, interface_views(imported_modules@))
                    == Err::<ir::ast::ModuleView, _>(error@),
            },
    {
        let ghost interfaces = interface_views(imported_modules@);
        let mut declarations: Vec<Declaration> = Vec::new();
        let mut index: usize = 0;
        assert(ir::ast::declaration_views(declarations@) =~= declarations_of(interfaces, 0));
        while index < imported_modules.len()
            invariant
                index <= imported_modules.len(),
                interfaces == interface_views(imported_modules@),
                ir::ast::declaration_views(declarations@) == declarations_of(
                    interfaces,
                    index as int,
                ),
            decreases imported_modules.len() - index,
        {
            let variables = &imported_modules[index].variables;
            let ghost before = ir::ast::declaration_views(declarations@);
            let mut place: usize = 0;
            while place < variables.len()
                invariant
                    place <= variables.len(),
                    ir::ast::declaration_views(declarations@) == before
                        + ir::ast::declaration_views(variables@).take(place as int),
                decreases variables.len() - place,
            {
                let ghost copied = ir::ast::declaration_views(declarations@);
                let declaration = variables[place].clone();
                declarations.push(declaration);
                proof {
                    let exported = ir::ast::declaration_views(variables@);
                    assert(exported.take(place + 1) =~= exported.take(place as int).push(
                        exported[place as int],
                    ));
                    assert(ir::ast::declaration_views(declarations@) =~= copied.push(
                        declaration@,
                    ));
                    assert(ir::ast::declaration_views(declarations@) =~= before + exported.take(
                        place + 1,
                    ));
                }
                place += 1;
            }
            assert(ir::ast::declaration_views(variables@).take(place as int)
                =~= ir::ast::declaration_views(variables@));
            index += 1;
        }
        let ghost all = module@.definitions;
        let mut definitions: Vec<ir::ast::Definition> = Vec::new();
        let mut index: usize = 0;
        assert(ir::ast::definition_views(definitions@) =~= Seq::empty());
        while index < module.definitions.len()
            invariant
                index <= module.definitions.len(),
                all == module@.definitions,
                convert_definitions(all, index as int) == Ok::<_, CompileErrorView>(
                    ir::ast::definition_views(definitions@),
                ),
            decreases module.definitions.len() - index,
        {
            let ghost before = ir::ast::definition_views(definitions@);
            match self.convert_definition(&module.definitions[index]) {
                Ok(definition) => {
                    definitions.push(definition);
                    assert(ir::ast::definition_views(definitions@) =~= before.push(definition@));
                },
                Err(error) => {
                    proof {
                        assert(convert_definitions(all, index + 1) == Err::<
                            Seq<ir::ast::DefinitionView>,
                            _,
                        >(error@));
                        lemma_convert_definitions_error(all, index + 1, all.len() as int);
                    }
                    return Err(error);
                },
            }
            index += 1;
        }
        Ok(ir::ast::Module::new(declarations, definitions))
    }

    /// The definition of the core language that a top-level definition is
    /// converted to.
    pub fn convert_definition(&self, definition: &ast::Definition) -> (result: Result<
        ir::ast::Definition,
        CompileError,
    >)
        ensures
            match result {
                Ok(converted) => convert_definition(definition@) == Ok::<_, CompileErrorView>(
                    converted@,
                ),
                Err(error) => convert_definition(definition@) == Err::<ir::ast::DefinitionView, _>(
                    error@,
                ),
            },
    {
        let mut locals: Environment<ir::types::Type> = Environment::new();
        assert(locals_view(locals@) =~= Map::empty());
        match definition {
            ast::Definition::FunctionDefinition(definition) => {
                Ok(
                    ir::ast::Definition::FunctionDefinition(
                        self.convert_function(definition, &mut locals)?,
                    ),
                )
            },
            ast::Definition::VariableDefinition(definition) => {
                match convert_type(&definition.type_) {
                    None => Err(
                        CompileError::AmbiguousType {
                            source_information: share(&definition.source_information),
                        },
                    ),
                    Some(type_) => {
                        let body = self.convert_expression(&definition.body, &mut locals)?;
                        Ok(
                            ir::ast::Definition::ValueDefinition(
                                ir::ast::ValueDefinition::new(definition.name.clone(), body, type_),
                            ),
                        )
                    },
                }
            },
        }
    }

    /// The expression of the core language that the expression is converted
    /// to, where `locals` are bound around it. The table is left as it was.
    pub fn convert_expression(
        &self,
        expression: &ast::Expression,
        locals: &mut Environment<ir::types::Type>,
    ) -> (result: Result<ir::ast::Expression, CompileError>)
        ensures
            match result {
                Ok(converted) => convert_expression(expression@, locals_view(old(locals)@))
                    == Ok::<_, CompileErrorView>(converted@)
                        && final(locals).bindings@ == old(locals).bindings@,
                Err(error) => convert_expression(expression@, locals_view(old(locals)@)) == Err::<
                    ir::ast::ExpressionView,
                    _,
                >(error@),
            },
        decreases expression, 0nat,
    {
        match expression {
            ast::Expression::Number { value, .. } => Ok(ir::ast::Expression::Number(*value)),
            ast::Expression::Variable { name, .. } => Ok(
                ir::ast::Expression::Variable(name.clone()),
            ),
            ast::Expression::Operation { operator, lhs, rhs, .. } => {
                let lhs = self.convert_expression(lhs, locals)?;
                let rhs = self.convert_expression(rhs, locals)?;
                Ok(
                    ir::ast::Expression::Operation {
                        operator: *operator,
                        lhs: Box::new(lhs),
                        rhs: Box::new(rhs),
                    },
                )
            },
            ast::Expression::Application { function, arguments, .. } => {
                proof {
                    ast::lemma_application_view(*expression);
                }
                let arguments = self.convert_expressions(arguments, locals)?;
                let function = function.clone();
                proof {
                    ir::ast::lemma_application_view(function, arguments);
                }
                Ok(ir::ast::Expression::Application { function, arguments })
            },
            ast::Expression::LetValues { definitions, expression: body } => {
                proof {
                    ast::lemma_let_values_view(*expression);
                }
                let length = locals.len();
                let definitions = self.convert_values(definitions, locals)?;
                let body = Box::new(self.convert_expression(body, locals)?);
                locals.truncate(length);
                proof {
                    assert(locals.bindings@ =~= old(locals).bindings@);
                    ir::ast::lemma_let_values_view(definitions, body);
                }
                Ok(ir::ast::Expression::LetValues { definitions, expression: body })
            },
            ast::Expression::LetFunctions { definitions, expression: body } => {
                proof {
                    ast::lemma_let_functions_view(*expression);
                }
                let length = locals.len();
                self.bind_functions(definitions, locals)?;
                let definitions = self.convert_functions(definitions, locals)?;
                let body = Box::new(self.convert_expression(body, locals)?);
                locals.truncate(length);
                proof {
                    assert(locals.bindings@ =~= old(locals).bindings@);
                    ir::ast::lemma_let_functions_view(definitions, body);
                }
                Ok(ir::ast::Expression::LetFunctions { definitions, expression: body })
            },
        }
    }

    /// What the expressions are converted to, in order.
    pub fn convert_expressions(
        &self,
        expressions: &Vec<ast::Expression>,
        locals: &mut Environment<ir::types::Type>,
    ) -> (result: Result<Vec<ir::ast::Expression>, CompileError>)
        ensures
            match result {
                Ok(converted) => convert_expressions(
                    ast::expression_views(expressions@),
                    locals_view(old(locals)@),
                    expressions.len() as int,
                ) == Ok::<_, CompileErrorView>(ir::ast::expression_views(converted@))
                    && final(locals).bindings@ == old(locals).bindings@,
                Err(error) => convert_expressions(
                    ast::expression_views(expressions@),
                    locals_view(old(locals)@),
                    expressions.len() as int,
                ) == Err::<Seq<ir::ast::ExpressionView>, _>(error@),
            },
        decreases expressions, 1nat,
    {
        let ghost all = ast::expression_views(expressions@);
        let ghost scope = locals_view(locals@);
        let mut converted: Vec<ir::ast::Expression> = Vec::new();
        let mut index: usize = 0;
        assert(ir::ast::expression_views(converted@) =~= Seq::empty());
        while index < expressions.len()
            invariant
                index <= expressions.len(),
                all == ast::expression_views(expressions@),
                scope == locals_view(old(locals)@),
                locals.bindings@ == old(locals).bindings@,
                convert_expressions(all, scope, index as int) == Ok::<_, CompileErrorView>(
                    ir::ast::expression_views(converted@),
                ),
            decreases expressions.len() - index,
        {
            let ghost before = ir::ast::expression_views(converted@);
            match self.convert_expression(&expressions[index], locals) {
                Ok(expression) => {
                    converted.push(expression);
                    assert(ir::ast::expression_views(converted@) =~= before.push(expression@));
                },
                Err(error) => {
                    proof {
                        assert(convert_expressions(all, scope, index + 1) == Err::<
                            Seq<ir::ast::ExpressionView>,
                            _,
                        >(error@));
                        lemma_convert_expressions_error(all, scope, index + 1, all.len() as int);
                    }
                    return Err(error);
                },
            }
            index += 1;
        }
        Ok(converted)
    }

    /// What the definitions of a `let` of values are converted to. The name
    /// of each is bound in the table once it is converted.
    pub fn convert_values(
        &self,
        definitions: &Vec<ast::VariableDefinition>,
        locals: &mut Environment<ir::types::Type>,
    ) -> (result: Result<Vec<ir::ast::ValueDefinition>, CompileError>)
        ensures
            match result {
                Ok(converted) => convert_values(
                    ast::variable_definition_views(definitions@),
                    locals_view(old(locals)@),
                    definitions.len() as int,
                ) == Ok::<_, CompileErrorView>(
                    (ir::ast::value_definition_views(converted@), locals_view(final(locals)@)),
                )
                    && old(locals).bindings@.len() <= final(locals).bindings@.len()
                    && final(locals).bindings@.take(old(locals).bindings@.len() as int) == old(locals).bindings@,
                Err(error) => convert_values(
                    ast::variable_definition_views(definitions@),
                    locals_view(old(locals)@),
                    definitions.len() as int,
                ) == Err::<(Seq<ir::ast::ValueDefinitionView>, Locals), _>(error@),
            },
        decreases definitions, 1nat,
    {
        let ghost all = ast::variable_definition_views(definitions@);
        let ghost scope = locals_view(locals@);
        let mut converted: Vec<ir::ast::ValueDefinition> = Vec::new();
        let mut index: usize = 0;
        assert(ir::ast::value_definition_views(converted@) =~= Seq::empty());
        assert(locals.bindings@.take(locals.bindings@.len() as int) =~= locals.bindings@);
        while index < definitions.len()
            invariant
                index <= definitions.len(),
                all == ast::variable_definition_views(definitions@),
                scope == locals_view(old(locals)@),
                old(locals).bindings@.len() <= locals.bindings@.len(),
                locals.bindings@.take(old(locals).bindings@.len() as int) == old(locals).bindings@,
                convert_values(all, scope, index as int) == Ok::<_, CompileErrorView>(
                    (ir::ast::value_definition_views(converted@), locals_view(locals@)),
                ),
            decreases definitions.len() - index,
        {
            let definition = &definitions[index];
            let ghost before = ir::ast::value_definition_views(converted@);
            let type_ = match convert_type(&definition.type_) {
                Some(type_) => type_,
                None => {
                    let error = CompileError::AmbiguousType {
                        source_information: share(&definition.source_information),
                    };
                    proof {
                        assert(convert_values(all, scope, index + 1) == Err::<
                            (Seq<ir::ast::ValueDefinitionView>, Locals),
                            _,
                        >(error@));
                        lemma_convert_values_error(all, scope, index + 1, all.len() as int);
                    }
                    return Err(error);
                },
            };
            match self.convert_expression(&definition.body, locals) {
                Ok(body) => {
                    let copy = type_.duplicate();
                    proof {
                        lemma_locals_view_insert(locals@, definition.name@, copy);
                    }
                    let ghost stack = locals.bindings@;
                    locals.insert(definition.name.clone(), copy);
                    proof {
                        assert(locals.bindings@.take(old(locals).bindings@.len() as int)
                            =~= stack.take(old(locals).bindings@.len() as int));
                    }
                    let converted_definition = ir::ast::ValueDefinition::new(
                        definition.name.clone(),
                        body,
                        type_,
                    );
                    converted.push(converted_definition);
                    assert(ir::ast::value_definition_views(converted@) =~= before.push(
                        converted_definition@,
                    ));
                },
                Err(error) => {
                    proof {
                        assert(convert_values(all, scope, index + 1) == Err::<
                            (Seq<ir::ast::ValueDefinitionView>, Locals),
                            _,
                        >(error@));
                        lemma_convert_values_error(all, scope, index + 1, all.len() as int);
                    }
                    return Err(error);
                },
            }
            index += 1;
        }
        Ok(converted)
    }

    /// Binds the names of the definitions of a `let` of functions in the
    /// table, each to its type.
    pub fn bind_functions(
        &self,
        definitions: &Vec<ast::FunctionDefinition>,
        locals: &mut Environment<ir::types::Type>,
    ) -> (result: Result<(), CompileError>)
        ensures
            match result {
                Ok(_) => bind_functions(
                    ast::function_definition_views(definitions@),
                    locals_view(old(locals)@),
                    definitions.len() as int,
                ) == Ok::<_, CompileErrorView>(locals_view(final(locals)@))
                    && old(locals).bindings@.len() <= final(locals).bindings@.len()
                    && final(locals).bindings@.take(old(locals).bindings@.len() as int) == old(locals).bindings@,
                Err(error) => bind_functions(
                    ast::function_definition_views(definitions@),
                    locals_view(old(locals)@),
                    definitions.len() as int,
                ) == Err::<Locals, _>(error@),
            },
    {
        let ghost all = ast::function_definition_views(definitions@);
        let ghost scope = locals_view(locals@);
        let mut index: usize = 0;
        assert(locals.bindings@.take(locals.bindings@.len() as int) =~= locals.bindings@);
        while index < definitions.len()
            invariant
                index <= definitions.len(),
                all == ast::function_definition_views(definitions@),
                scope == locals_view(old(locals)@),
                old(locals).bindings@.len() <= locals.bindings@.len(),
                locals.bindings@.take(old(locals).bindings@.len() as int) == old(locals).bindings@,
                bind_functions(all, scope, index as int) == Ok::<_, CompileErrorView>(
                    locals_view(locals@),
                ),
            decreases definitions.len() - index,
        {
            let definition = &definitions[index];
            match convert_type(&definition.type_) {
                Some(type_) => {
                    proof {
                        lemma_locals_view_insert(locals@, definition.name@, type_);
                    }
                    let ghost stack = locals.bindings@;
                    locals.insert(definition.name.clone(), type_);
                    assert(locals.bindings@.take(old(locals).bindings@.len() as int)
                        =~= stack.take(old(locals).bindings@.len() as int));
                },
                None => {
                    let error = CompileError::AmbiguousType {
                        source_information: share(&definition.source_information),
                    };
                    proof {
                        assert(bind_functions(all, scope, index + 1) == Err::<Locals, _>(error@));
                        lemma_bind_functions_error(all, scope, index + 1, all.len() as int);
                    }
                    return Err(error);
                },
            }
            index += 1;
        }
        Ok(())
    }

    /// What the function definitions are converted to, in order.
    pub fn convert_functions(
        &self,
        definitions: &Vec<ast::FunctionDefinition>,
        locals: &mut Environment<ir::types::Type>,
    ) -> (result: Result<Vec<ir::ast::FunctionDefinition>, CompileError>)
        ensures
            match result {
                Ok(converted) => convert_functions(
                    ast::function_definition_views(definitions@),
                    locals_view(old(locals)@),
                    definitions.len() as int,
                ) == Ok::<_, CompileErrorView>(ir::ast::function_definition_views(converted@))
                    && final(locals).bindings@ == old(locals).bindings@,
                Err(error) => convert_functions(
                    ast::function_definition_views(definitions@),
                    locals_view(old(locals)@),
                    definitions.len() as int,
                ) == Err::<Seq<ir::ast::FunctionDefinitionView>, _>(error@),
            },
        decreases definitions, 1nat,
    {
        let ghost all = ast::function_definition_views(definitions@);
        let ghost scope = locals_view(locals@);
        let mut converted: Vec<ir::ast::FunctionDefinition> = Vec::new();
        let mut index: usize = 0;
        assert(ir::ast::function_definition_views(converted@) =~= Seq::empty());
        while index < definitions.len()
            invariant
                index <= definitions.len(),
                all == ast::function_definition_views(definitions@),
                scope == locals_view(old(locals)@),
                locals.bindings@ == old(locals).bindings@,
                convert_functions(all, scope, index as int) == Ok::<_, CompileErrorView>(
                    ir::ast::function_definition_views(converted@),
                ),
            decreases definitions.len() - index,
        {
            let ghost before = ir::ast::function_definition_views(converted@);
            match self.convert_function(&definitions[index], locals) {
                Ok(definition) => {
                    converted.push(definition);
                    assert(ir::ast::function_definition_views(converted@) =~= before.push(
                        definition@,
                    ));
                },
                Err(error) => {
                    proof {
                        assert(convert_functions(all, scope, index + 1) == Err::<
                            Seq<ir::ast::FunctionDefinitionView>,
                            _,
                        >(error@));
                        lemma_convert_functions_error(all, scope, index + 1, all.len() as int);
                    }
                    return Err(error);
                },
            }
            index += 1;
        }
        Ok(converted)
    }

    /// The types of the arguments and of the result of a function
    /// definition.
    pub fn function_signature(&self, definition: &ast::FunctionDefinition) -> (result: Result<
        (Vec<ir::types::Type>, types::Value),
        CompileError,
    >)
        ensures
            match result {
                Ok((arguments, value)) => function_signature(definition@) == Ok::<
                    _,
                    CompileErrorView,
                >((ir::types::type_views(arguments@), value)) && arguments.len()
                    == definition.arguments.len(),
                Err(error) => function_signature(definition@) == Err::<
                    (Seq<ir::types::TypeView>, types::Value),
                    _,
                >(error@),
            },
    {
        match &definition.type_ {
            types::Type::Function(function) => {
                proof {
                    types::lemma_function_view(*function);
                }
                if function.arguments.len() == definition.arguments.len() {
                    match convert_types(&function.arguments) {
                        Some(arguments) => {
                            proof {
                                assert(ir::types::type_views(arguments@) =~= core_type(
                                    definition.type_@,
                                )->arguments);
                                assert forall|i: int|
                                    0 <= i < definition.type_@->arguments.len() implies (
                                #[trigger] definition.type_@->arguments[i]).is_closed() by {
                                    assert(types::type_views(function.arguments@)[i].is_closed());
                                }
                            }
                            Ok((arguments, function.result))
                        },
                        None => Err(
                            CompileError::AmbiguousType {
                                source_information: share(&definition.source_information),
                            },
                        ),
                    }
                } else {
                    Err(
                        CompileError::TypeMismatch {
                            expected: definition.type_.duplicate(),
                            actual: shape(definition.arguments.len()),
                            source_information: share(&definition.source_information),
                        },
                    )
                }
            },
            _ => Err(
                CompileError::TypeMismatch {
                    expected: definition.type_.duplicate(),
                    actual: shape(definition.arguments.len()),
                    source_information: share(&definition.source_information),
                },
            ),
        }
    }

    /// The environment of a function definition: its free variables that the
    /// table binds, in the order of names, each with its type.
    pub fn capture(
        &self,
        definition: &ast::FunctionDefinition,
        locals: &Environment<ir::types::Type>,
    ) -> (result: Vec<Argument>)
        ensures
            ir::ast::argument_views(result@) == captured(definition@, locals_view(locals@)),
    {
        let free = self.free_variable_finder.find(definition);
        let ghost all = name_views(free@);
        let ghost scope = locals_view(locals@);
        let mut environment: Vec<Argument> = Vec::new();
        let mut index: usize = 0;
        assert(names_of(ir::ast::argument_views(environment@)).to_set() =~= all.take(
            0,
        ).to_set().intersect(scope.dom()));
        while index < free.len()
            invariant
                index <= free.len(),
                all == name_views(free@),
                scope == locals_view(locals@),
                strictly_sorted(all),
                strictly_sorted(names_of(ir::ast::argument_views(environment@))),
                forall|j: int|
                    0 <= j < environment.len() ==> all.take(index as int).contains(
                        #[trigger] environment[j].name@,
                    ),
                forall|j: int|
                    0 <= j < environment.len() ==> scope.contains_key(
                        (#[trigger] environment[j]).name@,
                    ) && environment[j].type_@ == scope[environment[j].name@],
                names_of(ir::ast::argument_views(environment@)).to_set() == all.take(
                    index as int,
                ).to_set().intersect(scope.dom()),
            decreases free.len() - index,
        {
            let name = &free[index];
            let ghost names = names_of(ir::ast::argument_views(environment@));
            proof {
                assert(all.take(index + 1) =~= all.take(index as int).push(name@));
                crate::compile::free_variable_finder::lemma_push_to_set(
                    all.take(index as int),
                    name@,
                );
            }
            match locals.get(name) {
                Some(type_) => {
                    let ghost before = environment@;
                    environment.push(Argument::new(name.clone(), type_.duplicate()));
                    proof {
                        let longer = names_of(ir::ast::argument_views(environment@));
                        assert(longer =~= names.push(name@));
                        crate::compile::free_variable_finder::lemma_push_to_set(names, name@);
                        assert forall|i: int, j: int|
                            0 <= i < j < longer.len() implies crate::names::name_before(
                            #[trigger] longer[i],
                            #[trigger] longer[j],
                        ) by {
                            if j < names.len() {
                                assert(crate::names::name_before(names[i], names[j]));
                            } else {
                                assert(all.take(index as int).contains(before[i].name@));
                                let k = choose|k: int|
                                    0 <= k < index && all.take(index as int)[k] == before[i].name@;
                                assert(crate::names::name_before(all[k], all[index as int]));
                            }
                        }
                        assert(longer.to_set() =~= all.take(index + 1).to_set().intersect(
                            scope.dom(),
                        ));
                        assert forall|j: int| 0 <= j < environment.len() implies all.take(
                            index + 1,
                        ).contains(#[trigger] environment[j].name@) by {
                            if j < before.len() {
                                let k = choose|k: int|
                                    0 <= k < index && all.take(index as int)[k] == before[j].name@;
                                assert(all.take(index + 1)[k] == before[j].name@);
                            } else {
                                assert(all.take(index + 1)[index as int] == name@);
                            }
                        }
                    }
                },
                None => {
                    proof {
                        assert(names.to_set() =~= all.take(index + 1).to_set().intersect(
                            scope.dom(),
                        ));
                        assert forall|j: int| 0 <= j < environment.len() implies all.take(
                            index + 1,
                        ).contains(#[trigger] environment[j].name@) by {
                            let k = choose|k: int|
                                0 <= k < index && all.take(index as int)[k] == environment[j].name@;
                            assert(all.take(index + 1)[k] == environment[j].name@);
                        }
                    }
                },
            }
            index += 1;
        }
        proof {
            assert(all.take(index as int) =~= all);
            let names = names_of(ir::ast::argument_views(environment@));
            let wanted = free_variables(definition@).intersect(scope.dom());
            assert(strictly_sorted(names) && names.to_set() == wanted);
            let chosen = sorted_names(wanted);
            lemma_sorted_unique(names, chosen);
            assert(ir::ast::argument_views(environment@) =~= captured(definition@, scope));
        }
        environment
    }

    /// The function definition of the core language that the definition is
    /// converted to, where `locals` are bound around it. The table is left as
    /// it was.
    pub fn convert_function(
        &self,
        definition: &ast::FunctionDefinition,
        locals: &mut Environment<ir::types::Type>,
    ) -> (result: Result<ir::ast::FunctionDefinition, CompileError>)
        ensures
            match result {
                Ok(converted) => convert_function(definition@, locals_view(old(locals)@)) == Ok::<
                    _,
                    CompileErrorView,
                >(converted@) && final(locals).bindings@ == old(locals).bindings@,
                Err(error) => convert_function(definition@, locals_view(old(locals)@)) == Err::<
                    ir::ast::FunctionDefinitionView,
                    _,
                >(error@),
            },
        decreases definition, 0nat,
    {
        let (types, result_type) = self.function_signature(definition)?;
        let ghost scope = locals_view(locals@);
        let ghost typed = typed_arguments(definition@.arguments, ir::types::type_views(types@));
        let environment = self.capture(definition, locals);
        let length = locals.len();
        let mut arguments: Vec<Argument> = Vec::new();
        let mut index: usize = 0;
        assert(locals.bindings@.take(length as int) =~= locals.bindings@);
        while index < definition.arguments.len()
            invariant
                index <= definition.arguments.len(),
                types.len() == definition.arguments.len(),
                arguments.len() == index,
                scope == locals_view(old(locals)@),
                typed == typed_arguments(definition@.arguments, ir::types::type_views(types@)),
                length == old(locals).bindings@.len(),
                length <= locals.bindings@.len(),
                locals.bindings@.take(length as int) == old(locals).bindings@,
                forall|i: int| 0 <= i < index ==> (#[trigger] arguments[i])@ == typed[i],
                locals_view(locals@) == bind_arguments(typed, scope, index as int),
            decreases definition.arguments.len() - index,
        {
            let name = &definition.arguments[index];
            let type_ = &types[index];
            let copy = type_.duplicate();
            proof {
                lemma_locals_view_insert(locals@, name@, copy);
            }
            let ghost stack = locals.bindings@;
            locals.insert(name.clone(), copy);
            proof {
                assert(locals.bindings@.take(length as int) =~= stack.take(length as int));
            }
            arguments.push(Argument::new(name.clone(), type_.duplicate()));
            index += 1;
        }
        assert(ir::ast::argument_views(arguments@) =~= typed);
        let body = self.convert_expression(&definition.body, locals)?;
        locals.truncate(length);
        assert(locals.bindings@ =~= old(locals).bindings@);
        Ok(
            ir::ast::FunctionDefinition::new(
                definition.name.clone(),
                environment,
                arguments,
                body,
                result_type,
            ),
        )
    }
}

} // verus!
