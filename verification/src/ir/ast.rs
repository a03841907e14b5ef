//! Syntax of the core language.
//!
//! An application calls a closure held by a variable. A function definition
//! lists the variables that it captures, its environment, beside its
//! arguments, each with its type.

use crate::ast::Operator;
use crate::ir::types::{Function, Type, TypeView, Value};
use crate::names::Name;
use vstd::prelude::*;

verus! {

/// A name with its type: an argument of a function or a captured variable.
#[derive(Debug, PartialEq)]
pub struct Argument {
    pub name: String,
    pub type_: Type,
}

#[derive(Debug, PartialEq)]
#[allow(inconsistent_fields)]
pub enum Expression {
    Number(u64),
    Variable(String),
    Operation { operator: Operator, lhs: Box<Expression>, rhs: Box<Expression> },
    Application { function: String, arguments: Vec<Expression> },
    LetValues { definitions: Vec<ValueDefinition>, expression: Box<Expression> },
    LetFunctions { definitions: Vec<FunctionDefinition>, expression: Box<Expression> },
}

#[derive(Debug, PartialEq)]
pub struct FunctionDefinition {
    pub name: String,
    pub environment: Vec<Argument>,
    pub arguments: Vec<Argument>,
    pub body: Expression,
    pub result_type: Value,
}

#[derive(Debug, PartialEq)]
pub struct ValueDefinition {
    pub name: String,
    pub body: Expression,
    pub type_: Type,
}

#[derive(Debug, PartialEq)]
pub enum Definition {
    FunctionDefinition(FunctionDefinition),
    ValueDefinition(ValueDefinition),
}

/// A name that another module defines, with its type.
#[derive(Debug, PartialEq)]
pub struct Declaration {
    pub name: String,
    pub type_: Type,
}

#[derive(Debug, PartialEq)]
pub struct Module {
    pub declarations: Vec<Declaration>,
    pub definitions: Vec<Definition>,
}

/// The mathematical value of an `Argument`.
pub struct ArgumentView {
    pub name: Name,
    pub type_: TypeView,
}

/// The mathematical value of an `Expression`.
#[allow(inconsistent_fields)]
pub enum ExpressionView {
    Number(u64),
    Variable(Name),
    Operation { operator: Operator, lhs: Box<ExpressionView>, rhs: Box<ExpressionView> },
    Application { function: Name, arguments: Seq<ExpressionView> },
    LetValues { definitions: Seq<ValueDefinitionView>, expression: Box<ExpressionView> },
    LetFunctions { definitions: Seq<FunctionDefinitionView>, expression: Box<ExpressionView> },
}

/// The mathematical value of a `FunctionDefinition`.
pub struct FunctionDefinitionView {
    pub name: Name,
    pub environment: Seq<ArgumentView>,
    pub arguments: Seq<ArgumentView>,
    pub body: ExpressionView,
    pub result_type: Value,
}

/// The mathematical value of a `ValueDefinition`.
pub struct ValueDefinitionView {
    pub name: Name,
    pub body: ExpressionView,
    pub type_: TypeView,
}

/// The mathematical value of a `Definition`.
pub enum DefinitionView {
    FunctionDefinition(FunctionDefinitionView),
    ValueDefinition(ValueDefinitionView),
}

/// The mathematical value of a `Declaration`.
pub struct DeclarationView {
    pub name: Name,
    pub type_: TypeView,
}

/// The mathematical value of a `Module`.
pub struct ModuleView {
    pub declarations: Seq<DeclarationView>,
    pub definitions: Seq<DefinitionView>,
}

impl View for Argument {
    type V = ArgumentView;

    open spec fn view(&self) -> ArgumentView {
        ArgumentView { name: self.name@, type_: self.type_@ }
    }
}

/// The mathematical values of a sequence of arguments.
pub open spec fn argument_views(arguments: Seq<Argument>) -> Seq<ArgumentView> {
    Seq::new(arguments.len(), |i: int| arguments[i]@)
}

/// The types of a sequence of arguments, in order.
pub open spec fn argument_types(arguments: Seq<ArgumentView>) -> Seq<TypeView> {
    Seq::new(arguments.len(), |i: int| arguments[i].type_)
}

/// The names of a sequence of arguments.
pub open spec fn argument_names(arguments: Seq<ArgumentView>) -> Set<Name> {
    Set::new(|name: Name| exists|i: int| 0 <= i < arguments.len() && arguments[i].name == name)
}

/// The mathematical value of an expression.
pub open spec fn expression_view(expression: Expression) -> ExpressionView
    decreases expression,
{
    match expression {
        Expression::Number(value) => ExpressionView::Number(value),
        Expression::Variable(name) => ExpressionView::Variable(name@),
        Expression::Operation { operator, lhs, rhs } => ExpressionView::Operation {
            operator,
            lhs: Box::new(expression_view(*lhs)),
            rhs: Box::new(expression_view(*rhs)),
        },
        Expression::Application { function, arguments } => ExpressionView::Application {
            function: function@,
            arguments: Seq::new(
                arguments@.len(),
                |i: int|
                    if 0 <= i < arguments.len() {
                        expression_view(arguments[i])
                    } else {
                        arbitrary()
                    },
            ),
        },
        Expression::LetValues { definitions, expression } => ExpressionView::LetValues {
            definitions: Seq::new(
                definitions@.len(),
                |i: int|
                    if 0 <= i < definitions.len() {
                        ValueDefinitionView {
                            name: definitions[i].name@,
                            body: expression_view(definitions[i].body),
                            type_: definitions[i].type_@,
                        }
                    } else {
                        arbitrary()
                    },
            ),
            expression: Box::new(expression_view(*expression)),
        },
        Expression::LetFunctions { definitions, expression } => ExpressionView::LetFunctions {
            definitions: Seq::new(
                definitions@.len(),
                |i: int|
                    if 0 <= i < definitions.len() {
                        FunctionDefinitionView {
                            name: definitions[i].name@,
                            environment: argument_views(definitions[i].environment@),
                            arguments: argument_views(definitions[i].arguments@),
                            body: expression_view(definitions[i].body),
                            result_type: definitions[i].result_type,
                        }
                    } else {
                        arbitrary()
                    },
            ),
            expression: Box::new(expression_view(*expression)),
        },
    }
}

impl View for Expression {
    type V = ExpressionView;

    open spec fn view(&self) -> ExpressionView {
        expression_view(*self)
    }
}

impl View for FunctionDefinition {
    type V = FunctionDefinitionView;

    open spec fn view(&self) -> FunctionDefinitionView {
        FunctionDefinitionView {
            name: self.name@,
            environment: argument_views(self.environment@),
            arguments: argument_views(self.arguments@),
            body: self.body@,
            result_type: self.result_type,
        }
    }
}

impl View for ValueDefinition {
    type V = ValueDefinitionView;

    open spec fn view(&self) -> ValueDefinitionView {
        ValueDefinitionView { name: self.name@, body: self.body@, type_: self.type_@ }
    }
}

impl View for Definition {
    type V = DefinitionView;

    open spec fn view(&self) -> DefinitionView {
        match self {
            Definition::FunctionDefinition(definition) => DefinitionView::FunctionDefinition(
                definition@,
            ),
            Definition::ValueDefinition(definition) => DefinitionView::ValueDefinition(
                definition@,
            ),
        }
    }
}

impl View for Declaration {
    type V = DeclarationView;

    open spec fn view(&self) -> DeclarationView {
        DeclarationView { name: self.name@, type_: self.type_@ }
    }
}

impl View for Module {
    type V = ModuleView;

    open spec fn view(&self) -> ModuleView {
        ModuleView {
            declarations: declaration_views(self.declarations@),
            definitions: definition_views(self.definitions@),
        }
    }
}

/// The mathematical values of a sequence of expressions.
pub open spec fn expression_views(expressions: Seq<Expression>) -> Seq<ExpressionView> {
    Seq::new(expressions.len(), |i: int| expressions[i]@)
}

/// The mathematical values of a sequence of function definitions.
pub open spec fn function_definition_views(definitions: Seq<FunctionDefinition>) -> Seq<
    FunctionDefinitionView,
> {
    Seq::new(definitions.len(), |i: int| definitions[i]@)
}

/// The mathematical values of a sequence of value definitions.
pub open spec fn value_definition_views(definitions: Seq<ValueDefinition>) -> Seq<
    ValueDefinitionView,
> {
    Seq::new(definitions.len(), |i: int| definitions[i]@)
}

/// The mathematical values of a sequence of definitions.
pub open spec fn definition_views(definitions: Seq<Definition>) -> Seq<DefinitionView> {
    Seq::new(definitions.len(), |i: int| definitions[i]@)
}

/// The mathematical values of a sequence of declarations.
pub open spec fn declaration_views(declarations: Seq<Declaration>) -> Seq<DeclarationView> {
    Seq::new(declarations.len(), |i: int| declarations[i]@)
}

/// The view of an application holds the views of its arguments.
pub proof fn lemma_application_view(function: String, arguments: Vec<Expression>)
    ensures
        (Expression::Application { function, arguments })@ == (ExpressionView::Application {
            function: function@,
            arguments: expression_views(arguments@),
        }),
{
    assert((Expression::Application { function, arguments })@->arguments =~= expression_views(
        arguments@,
    ));
}

/// The view of a `let` of values holds the views of its definitions.
pub proof fn lemma_let_values_view(definitions: Vec<ValueDefinition>, expression: Box<Expression>)
    ensures
        (Expression::LetValues { definitions, expression })@ == (ExpressionView::LetValues {
            definitions: value_definition_views(definitions@),
            expression: Box::new(expression@),
        }),
{
    assert((Expression::LetValues { definitions, expression })@->LetValues_definitions
        =~= value_definition_views(definitions@));
}

/// The view of a `let` of functions holds the views of its definitions.
pub proof fn lemma_let_functions_view(
    definitions: Vec<FunctionDefinition>,
    expression: Box<Expression>,
)
    ensures
        (Expression::LetFunctions { definitions, expression })@ == (ExpressionView::LetFunctions {
            definitions: function_definition_views(definitions@),
            expression: Box::new(expression@),
        }),
{
    assert((Expression::LetFunctions { definitions, expression })@->LetFunctions_definitions
        =~= function_definition_views(definitions@));
}

impl FunctionDefinitionView {
    /// The type of the function: from the types of its arguments to its
    /// result type.
    pub open spec fn type_(self) -> TypeView {
        TypeView::Function { arguments: argument_types(self.arguments), result: self.result_type }
    }
}

impl DefinitionView {
    /// The name that the definition binds.
    pub open spec fn name(self) -> Name {
        match self {
            DefinitionView::FunctionDefinition(definition) => definition.name,
            DefinitionView::ValueDefinition(definition) => definition.name,
        }
    }

    /// The type of the name that the definition binds.
    pub open spec fn type_(self) -> TypeView {
        match self {
            DefinitionView::FunctionDefinition(definition) => definition.type_(),
            DefinitionView::ValueDefinition(definition) => definition.type_,
        }
    }
}

impl Argument {
    pub fn new(name: String, type_: Type) -> (result: Self)
        ensures
            result@ == (ArgumentView { name: name@, type_: type_@ }),
    {
        Self { name, type_ }
    }

    pub fn name(&self) -> (result: &String)
        ensures
            result@ == self@.name,
    {
        &self.name
    }

    pub fn type_(&self) -> (result: &Type)
        ensures
            result@ == self@.type_,
    {
        &self.type_
    }
}

impl Clone for Argument {
    fn clone(&self) -> (result: Self)
        ensures
            result@ == self@,
    {
        Self { name: self.name.clone(), type_: self.type_.duplicate() }
    }
}

/// Copies of the given arguments, in order.
pub fn clone_arguments(arguments: &Vec<Argument>) -> (result: Vec<Argument>)
    ensures
        argument_views(result@) == argument_views(arguments@),
{
    let mut result: Vec<Argument> = Vec::new();
    let mut index: usize = 0;
    while index < arguments.len()
        invariant
            index <= arguments.len(),
            result.len() == index,
            forall|i: int| 0 <= i < index ==> (#[trigger] result[i])@ == arguments[i]@,
        decreases arguments.len() - index,
    {
        result.push(arguments[index].clone());
        index += 1;
    }
    assert(argument_views(result@) =~= argument_views(arguments@));
    result
}

impl Expression {
    /// A copy of the expression.
    pub fn duplicate(&self) -> (result: Self)
        ensures
            result@ == self@,
        decreases self, 0nat,
    {
        match self {
            Expression::Number(value) => Expression::Number(*value),
            Expression::Variable(name) => Expression::Variable(name.clone()),
            Expression::Operation { operator, lhs, rhs } => Expression::Operation {
                operator: *operator,
                lhs: Box::new(lhs.duplicate()),
                rhs: Box::new(rhs.duplicate()),
            },
            Expression::Application { function, arguments } => {
                let function_copy = function.clone();
                let arguments_copy = clone_expressions(arguments);
                proof {
                    lemma_application_view(*function, *arguments);
                    lemma_application_view(function_copy, arguments_copy);
                }
                Expression::Application { function: function_copy, arguments: arguments_copy }
            },
            Expression::LetValues { definitions, expression } => {
                let definitions_copy = clone_value_definitions(definitions);
                let expression_copy = Box::new(expression.duplicate());
                proof {
                    lemma_let_values_view(*definitions, *expression);
                    lemma_let_values_view(definitions_copy, expression_copy);
                }
                Expression::LetValues { definitions: definitions_copy, expression: expression_copy }
            },
            Expression::LetFunctions { definitions, expression } => {
                let definitions_copy = clone_function_definitions(definitions);
                let expression_copy = Box::new(expression.duplicate());
                proof {
                    lemma_let_functions_view(*definitions, *expression);
                    lemma_let_functions_view(definitions_copy, expression_copy);
                }
                Expression::LetFunctions {
                    definitions: definitions_copy,
                    expression: expression_copy,
                }
            },
        }
    }
}

/// Copies of the given expressions, in order.
pub fn clone_expressions(expressions: &Vec<Expression>) -> (result: Vec<Expression>)
    ensures
        expression_views(result@) == expression_views(expressions@),
    decreases expressions, 1nat,
{
    let mut result: Vec<Expression> = Vec::new();
    let mut index: usize = 0;
    while index < expressions.len()
        invariant
            index <= expressions.len(),
            result.len() == index,
            forall|i: int| 0 <= i < index ==> (#[trigger] result[i])@ == expressions[i]@,
        decreases expressions.len() - index,
    {
        result.push(expressions[index].duplicate());
        index += 1;
    }
    assert(expression_views(result@) =~= expression_views(expressions@));
    result
}

/// Copies of the given definitions, in order.
pub fn clone_value_definitions(definitions: &Vec<ValueDefinition>) -> (result: Vec<
    ValueDefinition,
>)
    ensures
        value_definition_views(result@) == value_definition_views(definitions@),
    decreases definitions, 1nat,
{
    let mut result: Vec<ValueDefinition> = Vec::new();
    let mut index: usize = 0;
    while index < definitions.len()
        invariant
            index <= definitions.len(),
            result.len() == index,
            forall|i: int| 0 <= i < index ==> (#[trigger] result[i])@ == definitions[i]@,
        decreases definitions.len() - index,
    {
        result.push(definitions[index].duplicate());
        index += 1;
    }
    assert(value_definition_views(result@) =~= value_definition_views(definitions@));
    result
}

/// Copies of the given definitions, in order.
pub fn clone_function_definitions(definitions: &Vec<FunctionDefinition>) -> (result: Vec<
    FunctionDefinition,
>)
    ensures
        function_definition_views(result@) == function_definition_views(definitions@),
    decreases definitions, 1nat,
{
    let mut result: Vec<FunctionDefinition> = Vec::new();
    let mut index: usize = 0;
    while index < definitions.len()
        invariant
            index <= definitions.len(),
            result.len() == index,
            forall|i: int| 0 <= i < index ==> (#[trigger] result[i])@ == definitions[i]@,
        decreases definitions.len() - index,
    {
        result.push(definitions[index].duplicate());
        index += 1;
    }
    assert(function_definition_views(result@) =~= function_definition_views(definitions@));
    result
}

impl FunctionDefinition {
    pub fn new(
        name: String,
        environment: Vec<Argument>,
        arguments: Vec<Argument>,
        body: Expression,
        result_type: Value,
    ) -> (result: Self)
        ensures
            result@ == (FunctionDefinitionView {
                name: name@,
                environment: argument_views(environment@),
                arguments: argument_views(arguments@),
                body: body@,
                result_type,
            }),
    {
        Self { name, environment, arguments, body, result_type }
    }

    pub fn name(&self) -> (result: &String)
        ensures
            result@ == self@.name,
    {
        &self.name
    }

    pub fn environment(&self) -> (result: &Vec<Argument>)
        ensures
            argument_views(result@) == self@.environment,
    {
        &self.environment
    }

    pub fn arguments(&self) -> (result: &Vec<Argument>)
        ensures
            argument_views(result@) == self@.arguments,
    {
        &self.arguments
    }

    pub fn body(&self) -> (result: &Expression)
        ensures
            result@ == self@.body,
    {
        &self.body
    }

    pub fn result_type(&self) -> (result: &Value)
        ensures
            *result == self@.result_type,
    {
        &self.result_type
    }

    /// The type of the function: from the types of its arguments to its
    /// result type.
    pub fn type_(&self) -> (result: Function)
        ensures
            result@ == self@.type_(),
    {
        let mut types: Vec<Type> = Vec::new();
        let mut index: usize = 0;
        while index < self.arguments.len()
            invariant
                index <= self.arguments.len(),
                types.len() == index,
                forall|i: int| 0 <= i < index ==> (#[trigger] types[i])@ == self.arguments[i].type_@,
            decreases self.arguments.len() - index,
        {
            types.push(self.arguments[index].type_.duplicate());
            index += 1;
        }
        let result = Function::new(types, self.result_type);
        assert(result@->arguments =~= self@.type_()->arguments);
        result
    }

    /// A copy of the definition.
    pub fn duplicate(&self) -> (result: Self)
        ensures
            result@ == self@,
        decreases self, 0nat,
    {
        Self::new(
            self.name.clone(),
            clone_arguments(&self.environment),
            clone_arguments(&self.arguments),
            self.body.duplicate(),
            self.result_type,
        )
    }
}

impl ValueDefinition {
    pub fn new(name: String, body: Expression, type_: Type) -> (result: Self)
        ensures
            result@ == (ValueDefinitionView { name: name@, body: body@, type_: type_@ }),
    {
        Self { name, body, type_ }
    }

    pub fn name(&self) -> (result: &String)
        ensures
            result@ == self@.name,
    {
        &self.name
    }

    pub fn body(&self) -> (result: &Expression)
        ensures
            result@ == self@.body,
    {
        &self.body
    }

    pub fn type_(&self) -> (result: &Type)
        ensures
            result@ == self@.type_,
    {
        &self.type_
    }

    /// A copy of the definition.
    pub fn duplicate(&self) -> (result: Self)
        ensures
            result@ == self@,
        decreases self, 0nat,
    {
        Self::new(self.name.clone(), self.body.duplicate(), self.type_.duplicate())
    }
}

impl Definition {
    pub fn name(&self) -> (result: &String)
        ensures
            result@ == self@.name(),
    {
        match self {
            Definition::FunctionDefinition(definition) => &definition.name,
            Definition::ValueDefinition(definition) => &definition.name,
        }
    }
}

impl Declaration {
    pub fn new(name: String, type_: Type) -> (result: Self)
        ensures
            result@ == (DeclarationView { name: name@, type_: type_@ }),
    {
        Self { name, type_ }
    }

    pub fn name(&self) -> (result: &String)
        ensures
            result@ == self@.name,
    {
        &self.name
    }

    pub fn type_(&self) -> (result: &Type)
        ensures
            result@ == self@.type_,
    {
        &self.type_
    }
}

impl Clone for Declaration {
    fn clone(&self) -> (result: Self)
        ensures
            result@ == self@,
    {
        Self { name: self.name.clone(), type_: self.type_.duplicate() }
    }
}

impl Module {
    pub fn new(declarations: Vec<Declaration>, definitions: Vec<Definition>) -> (result: Self)
        ensures
            result@ == (ModuleView {
                declarations: declaration_views(declarations@),
                definitions: definition_views(definitions@),
            }),
    {
        Self { declarations, definitions }
    }

    pub fn declarations(&self) -> (result: &Vec<Declaration>)
        ensures
            declaration_views(result@) == self@.declarations,
    {
        &self.declarations
    }

    pub fn definitions(&self) -> (result: &Vec<Definition>)
        ensures
            definition_views(result@) == self@.definitions,
    {
        &self.definitions
    }
}

impl Clone for Expression {
    fn clone(&self) -> (result: Self)
        ensures
            result@ == self@,
    {
        self.duplicate()
    }
}

impl Clone for FunctionDefinition {
    fn clone(&self) -> (result: Self)
        ensures
            result@ == self@,
    {
        self.duplicate()
    }
}

impl Clone for ValueDefinition {
    fn clone(&self) -> (result: Self)
        ensures
            result@ == self@,
    {
        self.duplicate()
    }
}

} // verus!
