//! The typed surface syntax.
//!
//! Syntax trees are immutable once built: every transformation builds a new
//! tree. A number literal is held as the bit pattern of its IEEE-754 double.

use crate::debug::{share, SourceInformation, SourceInformationView};
use crate::names::{clone_names, name_views, Name};
use crate::types::{substitution_view, Substitution, Type, TypeView};
use std::collections::HashMap;
use std::rc::Rc;
use vstd::prelude::*;

verus! {

/// The arithmetic operators.
#[derive(Clone, Copy, Debug, PartialEq, Eq, Structural)]
pub enum Operator {
    Add,
    Subtract,
    Multiply,
    Divide,
}

#[derive(Debug, PartialEq)]
#[allow(inconsistent_fields)]
pub enum Expression {
    Number { value: u64, source_information: Rc<SourceInformation> },
    Variable { name: String, source_information: Rc<SourceInformation> },
    Operation {
        operator: Operator,
        lhs: Box<Expression>,
        rhs: Box<Expression>,
        source_information: Rc<SourceInformation>,
    },
    Application {
        function: String,
        arguments: Vec<Expression>,
        source_information: Rc<SourceInformation>,
    },
    LetValues { definitions: Vec<VariableDefinition>, expression: Box<Expression> },
    LetFunctions { definitions: Vec<FunctionDefinition>, expression: Box<Expression> },
}

#[derive(Debug, PartialEq)]
pub struct FunctionDefinition {
    pub name: String,
    pub arguments: Vec<String>,
    pub body: Expression,
    pub type_: Type,
    pub source_information: Rc<SourceInformation>,
}

#[derive(Debug, PartialEq)]
pub struct VariableDefinition {
    pub name: String,
    pub body: Expression,
    pub type_: Type,
    pub source_information: Rc<SourceInformation>,
}

#[derive(Debug, PartialEq)]
pub enum Definition {
    FunctionDefinition(FunctionDefinition),
    VariableDefinition(VariableDefinition),
}

/// A module: its top-level definitions in source order.
#[derive(Debug, PartialEq)]
pub struct Module {
    pub definitions: Vec<Definition>,
}

/// The mathematical value of an `Expression`.
#[allow(inconsistent_fields)]
pub enum ExpressionView {
    Number { value: u64, source_information: SourceInformationView },
    Variable { name: Name, source_information: SourceInformationView },
    Operation {
        operator: Operator,
        lhs: Box<ExpressionView>,
        rhs: Box<ExpressionView>,
        source_information: SourceInformationView,
    },
    Application {
        function: Name,
        arguments: Seq<ExpressionView>,
        source_information: SourceInformationView,
    },
    LetValues { definitions: Seq<VariableDefinitionView>, expression: Box<ExpressionView> },
    LetFunctions { definitions: Seq<FunctionDefinitionView>, expression: Box<ExpressionView> },
}

/// The mathematical value of a `FunctionDefinition`.
pub struct FunctionDefinitionView {
    pub name: Name,
    pub arguments: Seq<Name>,
    pub body: ExpressionView,
    pub type_: TypeView,
    pub source_information: SourceInformationView,
}

/// The mathematical value of a `VariableDefinition`.
pub struct VariableDefinitionView {
    pub name: Name,
    pub body: ExpressionView,
    pub type_: TypeView,
    pub source_information: SourceInformationView,
}

/// The mathematical value of a `Definition`.
pub enum DefinitionView {
    FunctionDefinition(FunctionDefinitionView),
    VariableDefinition(VariableDefinitionView),
}

/// The mathematical value of a `Module`.
pub struct ModuleView {
    pub definitions: Seq<DefinitionView>,
}

/// The mathematical value of an expression.
pub open spec fn expression_view(expression: Expression) -> ExpressionView
    decreases expression,
{
    match expression {
            Expression::Number { value, source_information } => ExpressionView::Number {
                value,
                source_information: source_information@,
            },
            Expression::Variable { name, source_information } => ExpressionView::Variable {
                name: name@,
                source_information: source_information@,
            },
            Expression::Operation {
                operator,
                lhs,
                rhs,
                source_information,
            } => ExpressionView::Operation {
                operator,
                lhs: Box::new(expression_view(*lhs)),
                rhs: Box::new(expression_view(*rhs)),
                source_information: source_information@,
            },
            Expression::Application {
                function,
                arguments,
                source_information,
            } => ExpressionView::Application {
                function: function@,
                arguments: Seq::new(
                    arguments@.len(),
                    |i: int|
                        if 0 <= i < arguments.len() {
                            expression_view(arguments[i])
                        } else {
                            arbitrary()
                        },
                ),
                source_information: source_information@,
            },
            Expression::LetValues { definitions, expression } => ExpressionView::LetValues {
                definitions: Seq::new(
                    definitions@.len(),
                    |i: int|
                        if 0 <= i < definitions.len() {
                            VariableDefinitionView {
                                name: definitions[i].name@,
                                body: expression_view(definitions[i].body),
                                type_: definitions[i].type_@,
                                source_information: definitions[i].source_information@,
                            }
                        } else {
                            arbitrary()
                        },
                ),
                expression: Box::new(expression_view(*expression)),
            },
            Expression::LetFunctions { definitions, expression } => ExpressionView::LetFunctions {
                definitions: Seq::new(
                    definitions@.len(),
                    |i: int|
                        if 0 <= i < definitions.len() {
                            FunctionDefinitionView {
                                name: definitions[i].name@,
                                arguments: name_views(definitions[i].arguments@),
                                body: expression_view(definitions[i].body),
                                type_: definitions[i].type_@,
                                source_information: definitions[i].source_information@,
                            }
                        } else {
                            arbitrary()
                        },
                ),
                expression: Box::new(expression_view(*expression)),
            },
        }
}

impl View for Expression {
    type V = ExpressionView;

    open spec fn view(&self) -> ExpressionView {
        expression_view(*self)
    }
}

impl View for FunctionDefinition {
    type V = FunctionDefinitionView;

    open spec fn view(&self) -> FunctionDefinitionView {
        FunctionDefinitionView {
            name: self.name@,
            arguments: name_views(self.arguments@),
            body: self.body@,
            type_: self.type_@,
            source_information: self.source_information@,
        }
    }
}

impl View for VariableDefinition {
    type V = VariableDefinitionView;

    open spec fn view(&self) -> VariableDefinitionView {
        VariableDefinitionView {
            name: self.name@,
            body: self.body@,
            type_: self.type_@,
            source_information: self.source_information@,
        }
    }
}

impl View for Definition {
    type V = DefinitionView;

    open spec fn view(&self) -> DefinitionView {
        match self {
            Definition::FunctionDefinition(definition) => DefinitionView::FunctionDefinition(
                definition@,
            ),
            Definition::VariableDefinition(definition) => DefinitionView::VariableDefinition(
                definition@,
            ),
        }
    }
}

impl View for Module {
    type V = ModuleView;

    open spec fn view(&self) -> ModuleView {
        ModuleView { definitions: definition_views(self.definitions@) }
    }
}

/// The mathematical values of a sequence of expressions.
pub open spec fn expression_views(expressions: Seq<Expression>) -> Seq<ExpressionView> {
    Seq::new(expressions.len(), |i: int| expressions[i]@)
}

/// The mathematical values of a sequence of function definitions.
pub open spec fn function_definition_views(definitions: Seq<FunctionDefinition>) -> Seq<
    FunctionDefinitionView,
> {
    Seq::new(definitions.len(), |i: int| definitions[i]@)
}

/// The mathematical values of a sequence of variable definitions.
pub open spec fn variable_definition_views(definitions: Seq<VariableDefinition>) -> Seq<
    VariableDefinitionView,
> {
    Seq::new(definitions.len(), |i: int| definitions[i]@)
}

/// The mathematical values of a sequence of definitions.
pub open spec fn definition_views(definitions: Seq<Definition>) -> Seq<DefinitionView> {
    Seq::new(definitions.len(), |i: int| definitions[i]@)
}

/// The view of an application holds the views of its arguments.
pub proof fn lemma_application_view(expression: Expression)
    requires
        expression is Application,
    ensures
        expression@ == (ExpressionView::Application {
            function: expression->function@,
            arguments: expression_views(expression->arguments@),
            source_information: expression->Application_source_information@,
        }),
{
    assert(expression@->arguments =~= expression_views(expression->arguments@));
}

/// The view of a `let` of values holds the views of its definitions.
pub proof fn lemma_let_values_view(expression: Expression)
    requires
        expression is LetValues,
    ensures
        expression@ == (ExpressionView::LetValues {
            definitions: variable_definition_views(expression->LetValues_definitions@),
            expression: Box::new(expression->LetValues_expression@),
        }),
{
    assert(expression@->LetValues_definitions =~= variable_definition_views(
        expression->LetValues_definitions@,
    ));
}

/// The view of a `let` of functions holds the views of its definitions.
pub proof fn lemma_let_functions_view(expression: Expression)
    requires
        expression is LetFunctions,
    ensures
        expression@ == (ExpressionView::LetFunctions {
            definitions: function_definition_views(expression->LetFunctions_definitions@),
            expression: Box::new(expression->LetFunctions_expression@),
        }),
{
    assert(expression@->LetFunctions_definitions =~= function_definition_views(
        expression->LetFunctions_definitions@,
    ));
}

impl ExpressionView {
    /// The expression with the substitution applied to every type in it.
    pub open spec fn substitute(self, substitution: Substitution) -> ExpressionView
        decreases self,
    {
        match self {
            ExpressionView::Number { .. } => self,
            ExpressionView::Variable { .. } => self,
            ExpressionView::Operation {
                operator,
                lhs,
                rhs,
                source_information,
            } => ExpressionView::Operation {
                operator,
                lhs: Box::new(lhs.substitute(substitution)),
                rhs: Box::new(rhs.substitute(substitution)),
                source_information,
            },
            ExpressionView::Application {
                function,
                arguments,
                source_information,
            } => ExpressionView::Application {
                function,
                arguments: Seq::new(
                    arguments.len(),
                    |i: int|
                        if 0 <= i < arguments.len() {
                            arguments[i].substitute(substitution)
                        } else {
                            arbitrary()
                        },
                ),
                source_information,
            },
            ExpressionView::LetValues { definitions, expression } => ExpressionView::LetValues {
                definitions: Seq::new(
                    definitions.len(),
                    |i: int|
                        if 0 <= i < definitions.len() {
                            VariableDefinitionView {
                                name: definitions[i].name,
                                body: definitions[i].body.substitute(substitution),
                                type_: definitions[i].type_.substitute(substitution),
                                source_information: definitions[i].source_information,
                            }
                        } else {
                            arbitrary()
                        },
                ),
                expression: Box::new(expression.substitute(substitution)),
            },
            ExpressionView::LetFunctions {
                definitions,
                expression,
            } => ExpressionView::LetFunctions {
                definitions: Seq::new(
                    definitions.len(),
                    |i: int|
                        if 0 <= i < definitions.len() {
                            FunctionDefinitionView {
                                name: definitions[i].name,
                                arguments: definitions[i].arguments,
                                body: definitions[i].body.substitute(substitution),
                                type_: definitions[i].type_.substitute(substitution),
                                source_information: definitions[i].source_information,
                            }
                        } else {
                            arbitrary()
                        },
                ),
                expression: Box::new(expression.substitute(substitution)),
            },
        }
    }
}

impl FunctionDefinitionView {
    /// The definition with the substitution applied to every type in it.
    pub open spec fn substitute(self, substitution: Substitution) -> FunctionDefinitionView {
        FunctionDefinitionView {
            name: self.name,
            arguments: self.arguments,
            body: self.body.substitute(substitution),
            type_: self.type_.substitute(substitution),
            source_information: self.source_information,
        }
    }
}

impl VariableDefinitionView {
    /// The definition with the substitution applied to every type in it.
    pub open spec fn substitute(self, substitution: Substitution) -> VariableDefinitionView {
        VariableDefinitionView {
            name: self.name,
            body: self.body.substitute(substitution),
            type_: self.type_.substitute(substitution),
            source_information: self.source_information,
        }
    }
}

impl DefinitionView {
    /// The name that the definition binds.
    pub open spec fn name(self) -> Name {
        match self {
            DefinitionView::FunctionDefinition(definition) => definition.name,
            DefinitionView::VariableDefinition(definition) => definition.name,
        }
    }

    /// The type that the definition declares for its name.
    pub open spec fn type_(self) -> TypeView {
        match self {
            DefinitionView::FunctionDefinition(definition) => definition.type_,
            DefinitionView::VariableDefinition(definition) => definition.type_,
        }
    }

    /// The place in the source that the definition comes from.
    pub open spec fn source_information(self) -> SourceInformationView {
        match self {
            DefinitionView::FunctionDefinition(definition) => definition.source_information,
            DefinitionView::VariableDefinition(definition) => definition.source_information,
        }
    }

    /// The definition with the substitution applied to every type in it.
    pub open spec fn substitute(self, substitution: Substitution) -> DefinitionView {
        match self {
            DefinitionView::FunctionDefinition(definition) => DefinitionView::FunctionDefinition(
                definition.substitute(substitution),
            ),
            DefinitionView::VariableDefinition(definition) => DefinitionView::VariableDefinition(
                definition.substitute(substitution),
            ),
        }
    }
}

impl ModuleView {
    /// The module with the substitution applied to every type in it.
    pub open spec fn substitute(self, substitution: Substitution) -> ModuleView {
        ModuleView {
            definitions: Seq::new(
                self.definitions.len(),
                |i: int| self.definitions[i].substitute(substitution),
            ),
        }
    }
}

/// Unfolds the substitution of a `let` of values into that of its parts.
pub proof fn lemma_substitute_let_values(
    definitions: Seq<VariableDefinitionView>,
    expression: ExpressionView,
    substitution: Substitution,
)
    ensures
        (ExpressionView::LetValues { definitions, expression: Box::new(expression) }).substitute(
            substitution,
        ) == (ExpressionView::LetValues {
            definitions: Seq::new(
                definitions.len(),
                |i: int| definitions[i].substitute(substitution),
            ),
            expression: Box::new(expression.substitute(substitution)),
        }),
{
    let whole = (ExpressionView::LetValues {
        definitions,
        expression: Box::new(expression),
    }).substitute(substitution);
    assert(whole->LetValues_definitions =~= Seq::new(
        definitions.len(),
        |i: int| definitions[i].substitute(substitution),
    ));
}

/// Unfolds the substitution of a `let` of functions into that of its parts.
pub proof fn lemma_substitute_let_functions(
    definitions: Seq<FunctionDefinitionView>,
    expression: ExpressionView,
    substitution: Substitution,
)
    ensures
        (ExpressionView::LetFunctions { definitions, expression: Box::new(expression) }).substitute(
            substitution,
        ) == (ExpressionView::LetFunctions {
            definitions: Seq::new(
                definitions.len(),
                |i: int| definitions[i].substitute(substitution),
            ),
            expression: Box::new(expression.substitute(substitution)),
        }),
{
    let whole = (ExpressionView::LetFunctions {
        definitions,
        expression: Box::new(expression),
    }).substitute(substitution);
    assert(whole->LetFunctions_definitions =~= Seq::new(
        definitions.len(),
        |i: int| definitions[i].substitute(substitution),
    ));
}

/// Unfolds the substitution of an application into that of its arguments.
pub proof fn lemma_substitute_application(
    function: Name,
    arguments: Seq<ExpressionView>,
    source_information: SourceInformationView,
    substitution: Substitution,
)
    ensures
        (ExpressionView::Application { function, arguments, source_information }).substitute(
            substitution,
        ) == (ExpressionView::Application {
            function,
            arguments: Seq::new(arguments.len(), |i: int| arguments[i].substitute(substitution)),
            source_information,
        }),
{
    let whole = (ExpressionView::Application {
        function,
        arguments,
        source_information,
    }).substitute(substitution);
    assert(whole->arguments =~= Seq::new(
        arguments.len(),
        |i: int| arguments[i].substitute(substitution),
    ));
}

impl Expression {
    /// The expression with every type variable that the table knows replaced
    /// by the type that the table holds for it.
    pub fn substitute_type_variables(&self, substitutions: &HashMap<usize, Type>) -> (result: Self)
        ensures
            result@ == self@.substitute(substitution_view(substitutions@)),
        decreases self, 0nat,
    {
        match self {
            Expression::Number { value, source_information } => Expression::Number {
                value: *value,
                source_information: share(source_information),
            },
            Expression::Variable { name, source_information } => Expression::Variable {
                name: name.clone(),
                source_information: share(source_information),
            },
            Expression::Operation { operator, lhs, rhs, source_information } => {
                Expression::Operation {
                    operator: *operator,
                    lhs: Box::new(lhs.substitute_type_variables(substitutions)),
                    rhs: Box::new(rhs.substitute_type_variables(substitutions)),
                    source_information: share(source_information),
                }
            },
            Expression::Application { function, arguments, source_information } => {
                let result = Expression::Application {
                    function: function.clone(),
                    arguments: substitute_expressions(arguments, substitutions),
                    source_information: share(source_information),
                };
                proof {
                    lemma_application_view(*self);
                    lemma_application_view(result);
                    lemma_substitute_application(
                        function@,
                        expression_views(arguments@),
                        source_information@,
                        substitution_view(substitutions@),
                    );
                    assert(expression_views(result->arguments@) =~= Seq::new(
                        arguments.len() as nat,
                        |i: int|
                            expression_views(arguments@)[i].substitute(
                                substitution_view(substitutions@),
                            ),
                    ));
                }
                result
            },
            Expression::LetValues { definitions, expression } => {
                let result = Expression::LetValues {
                    definitions: substitute_variable_definitions(definitions, substitutions),
                    expression: Box::new(expression.substitute_type_variables(substitutions)),
                };
                proof {
                    lemma_let_values_view(*self);
                    lemma_let_values_view(result);
                    lemma_substitute_let_values(
                        variable_definition_views(definitions@),
                        expression@,
                        substitution_view(substitutions@),
                    );
                    assert(variable_definition_views(result->LetValues_definitions@) =~= Seq::new(
                        definitions.len() as nat,
                        |i: int|
                            variable_definition_views(definitions@)[i].substitute(
                                substitution_view(substitutions@),
                            ),
                    ));
                }
                result
            },
            Expression::LetFunctions { definitions, expression } => {
                let result = Expression::LetFunctions {
                    definitions: substitute_function_definitions(definitions, substitutions),
                    expression: Box::new(expression.substitute_type_variables(substitutions)),
                };
                proof {
                    lemma_let_functions_view(*self);
                    lemma_let_functions_view(result);
                    lemma_substitute_let_functions(
                        function_definition_views(definitions@),
                        expression@,
                        substitution_view(substitutions@),
                    );
                    assert(function_definition_views(result->LetFunctions_definitions@)
                        =~= Seq::new(
                        definitions.len() as nat,
                        |i: int|
                            function_definition_views(definitions@)[i].substitute(
                                substitution_view(substitutions@),
                            ),
                    ));
                }
                result
            },
        }
    }
}

/// The given expressions with the substitution applied to each, in order.
pub fn substitute_expressions(
    expressions: &Vec<Expression>,
    substitutions: &HashMap<usize, Type>,
) -> (result: Vec<Expression>)
    ensures
        result.len() == expressions.len(),
        forall|i: int|
            0 <= i < expressions.len() ==> (#[trigger] result[i])@ == expressions[i]@.substitute(
                substitution_view(substitutions@),
            ),
    decreases expressions, 1nat,
{
    let mut result: Vec<Expression> = Vec::new();
    let mut index: usize = 0;
    while index < expressions.len()
        invariant
            index <= expressions.len(),
            result.len() == index,
            forall|i: int|
                0 <= i < index ==> (#[trigger] result[i])@ == expressions[i]@.substitute(
                    substitution_view(substitutions@),
                ),
        decreases expressions.len() - index,
    {
        result.push(expressions[index].substitute_type_variables(substitutions));
        index += 1;
    }
    result
}

/// The given definitions with the substitution applied to each, in order.
pub fn substitute_variable_definitions(
    definitions: &Vec<VariableDefinition>,
    substitutions: &HashMap<usize, Type>,
) -> (result: Vec<VariableDefinition>)
    ensures
        result.len() == definitions.len(),
        forall|i: int|
            0 <= i < definitions.len() ==> (#[trigger] result[i])@ == definitions[i]@.substitute(
                substitution_view(substitutions@),
            ),
    decreases definitions, 1nat,
{
    let mut result: Vec<VariableDefinition> = Vec::new();
    let mut index: usize = 0;
    while index < definitions.len()
        invariant
            index <= definitions.len(),
            result.len() == index,
            forall|i: int|
                0 <= i < index ==> (#[trigger] result[i])@ == definitions[i]@.substitute(
                    substitution_view(substitutions@),
                ),
        decreases definitions.len() - index,
    {
        result.push(definitions[index].substitute_type_variables(substitutions));
        index += 1;
    }
    result
}

/// The given definitions with the substitution applied to each, in order.
pub fn substitute_function_definitions(
    definitions: &Vec<FunctionDefinition>,
    substitutions: &HashMap<usize, Type>,
) -> (result: Vec<FunctionDefinition>)
    ensures
        result.len() == definitions.len(),
        forall|i: int|
            0 <= i < definitions.len() ==> (#[trigger] result[i])@ == definitions[i]@.substitute(
                substitution_view(substitutions@),
            ),
    decreases definitions, 1nat,
{
    let mut result: Vec<FunctionDefinition> = Vec::new();
    let mut index: usize = 0;
    while index < definitions.len()
        invariant
            index <= definitions.len(),
            result.len() == index,
            forall|i: int|
                0 <= i < index ==> (#[trigger] result[i])@ == definitions[i]@.substitute(
                    substitution_view(substitutions@),
                ),
        decreases definitions.len() - index,
    {
        result.push(definitions[index].substitute_type_variables(substitutions));
        index += 1;
    }
    result
}

impl FunctionDefinition {
    pub fn new(
        name: String,
        arguments: Vec<String>,
        body: Expression,
        type_: Type,
        source_information: Rc<SourceInformation>,
    ) -> (result: Self)
        ensures
            result@ == (FunctionDefinitionView {
                name: name@,
                arguments: name_views(arguments@),
                body: body@,
                type_: type_@,
                source_information: source_information@,
            }),
    {
        Self { name, arguments, body, type_, source_information }
    }

    pub fn name(&self) -> (result: &str)
        ensures
            result@ == self@.name,
    {
        self.name.as_str()
    }

    pub fn arguments(&self) -> (result: &[String])
        ensures
            name_views(result@) == self@.arguments,
    {
        self.arguments.as_slice()
    }

    pub fn body(&self) -> (result: &Expression)
        ensures
            result@ == self@.body,
    {
        &self.body
    }

    pub fn type_(&self) -> (result: &Type)
        ensures
            result@ == self@.type_,
    {
        &self.type_
    }

    pub fn source_information(&self) -> (result: &Rc<SourceInformation>)
        ensures
            result@ == self@.source_information,
    {
        &self.source_information
    }

    /// A copy of the definition.
    pub fn duplicate(&self) -> (result: Self)
        ensures
            result@ == self@,
        decreases self, 0nat,
    {
        Self::new(
            self.name.clone(),
            clone_names(&self.arguments),
            self.body.duplicate(),
            self.type_.duplicate(),
            share(&self.source_information),
        )
    }

    /// The definition with every type variable that the table knows replaced,
    /// in its declared type and throughout its body.
    pub fn substitute_type_variables(&self, substitutions: &HashMap<usize, Type>) -> (result: Self)
        ensures
            result@ == self@.substitute(substitution_view(substitutions@)),
        decreases self, 0nat,
    {
        Self::new(
            self.name.clone(),
            clone_names(&self.arguments),
            self.body.substitute_type_variables(substitutions),
            self.type_.substitute_variables(substitutions),
            share(&self.source_information),
        )
    }
}

impl VariableDefinition {
    pub fn new(
        name: String,
        body: Expression,
        type_: Type,
        source_information: Rc<SourceInformation>,
    ) -> (result: Self)
        ensures
            result@ == (VariableDefinitionView {
                name: name@,
                body: body@,
                type_: type_@,
                source_information: source_information@,
            }),
    {
        Self { name, body, type_, source_information }
    }

    pub fn name(&self) -> (result: &str)
        ensures
            result@ == self@.name,
    {
        self.name.as_str()
    }

    pub fn body(&self) -> (result: &Expression)
        ensures
            result@ == self@.body,
    {
        &self.body
    }

    pub fn type_(&self) -> (result: &Type)
        ensures
            result@ == self@.type_,
    {
        &self.type_
    }

    pub fn source_information(&self) -> (result: &Rc<SourceInformation>)
        ensures
            result@ == self@.source_information,
    {
        &self.source_information
    }

    /// A copy of the definition.
    pub fn duplicate(&self) -> (result: Self)
        ensures
            result@ == self@,
        decreases self, 0nat,
    {
        Self::new(
            self.name.clone(),
            self.body.duplicate(),
            self.type_.duplicate(),
            share(&self.source_information),
        )
    }

    /// The definition with every type variable that the table knows replaced,
    /// in its declared type and throughout its body.
    pub fn substitute_type_variables(&self, substitutions: &HashMap<usize, Type>) -> (result: Self)
        ensures
            result@ == self@.substitute(substitution_view(substitutions@)),
        decreases self, 0nat,
    {
        Self::new(
            self.name.clone(),
            self.body.substitute_type_variables(substitutions),
            self.type_.substitute_variables(substitutions),
            share(&self.source_information),
        )
    }
}

impl Definition {
    pub fn name(&self) -> (result: &str)
        ensures
            result@ == self@.name(),
    {
        match self {
            Definition::FunctionDefinition(definition) => definition.name(),
            Definition::VariableDefinition(definition) => definition.name(),
        }
    }

    pub fn type_(&self) -> (result: &Type)
        ensures
            result@ == self@.type_(),
    {
        match self {
            Definition::FunctionDefinition(definition) => definition.type_(),
            Definition::VariableDefinition(definition) => definition.type_(),
        }
    }

    pub fn source_information(&self) -> (result: &Rc<SourceInformation>)
        ensures
            result@ == self@.source_information(),
    {
        match self {
            Definition::FunctionDefinition(definition) => definition.source_information(),
            Definition::VariableDefinition(definition) => definition.source_information(),
        }
    }

    /// The definition with every type variable that the table knows replaced.
    pub fn substitute_type_variables(&self, substitutions: &HashMap<usize, Type>) -> (result: Self)
        ensures
            result@ == self@.substitute(substitution_view(substitutions@)),
    {
        match self {
            Definition::FunctionDefinition(definition) => Definition::FunctionDefinition(
                definition.substitute_type_variables(substitutions),
            ),
            Definition::VariableDefinition(definition) => Definition::VariableDefinition(
                definition.substitute_type_variables(substitutions),
            ),
        }
    }
}

impl Module {
    pub fn new(definitions: Vec<Definition>) -> (result: Self)
        ensures
            result@.definitions == definition_views(definitions@),
    {
        Self { definitions }
    }

    pub fn definitions(&self) -> (result: &[Definition])
        ensures
            definition_views(result@) == self@.definitions,
    {
        self.definitions.as_slice()
    }

    /// The module with every type variable that the table knows replaced.
    pub fn substitute_type_variables(&self, substitutions: &HashMap<usize, Type>) -> (result: Self)
        ensures
            result@ == self@.substitute(substitution_view(substitutions@)),
    {
        let mut definitions: Vec<Definition> = Vec::new();
        let mut index: usize = 0;
        while index < self.definitions.len()
            invariant
                index <= self.definitions.len(),
                definitions.len() == index,
                forall|i: int|
                    0 <= i < index ==> (#[trigger] definitions[i])@
                        == self.definitions[i]@.substitute(substitution_view(substitutions@)),
            decreases self.definitions.len() - index,
        {
            definitions.push(self.definitions[index].substitute_type_variables(substitutions));
            index += 1;
        }
        let result = Self { definitions };
        assert(result@.definitions =~= self@.substitute(
            substitution_view(substitutions@),
        ).definitions);
        result
    }
}

impl Expression {
    /// A copy of the expression.
    pub fn duplicate(&self) -> (result: Self)
        ensures
            result@ == self@,
        decreases self, 0nat,
    {
        match self {
            Expression::Number { value, source_information } => Expression::Number {
                value: *value,
                source_information: share(source_information),
            },
            Expression::Variable { name, source_information } => Expression::Variable {
                name: name.clone(),
                source_information: share(source_information),
            },
            Expression::Operation { operator, lhs, rhs, source_information } => {
                Expression::Operation {
                    operator: *operator,
                    lhs: Box::new(lhs.duplicate()),
                    rhs: Box::new(rhs.duplicate()),
                    source_information: share(source_information),
                }
            },
            Expression::Application { function, arguments, source_information } => {
                let result = Expression::Application {
                    function: function.clone(),
                    arguments: clone_expressions(arguments),
                    source_information: share(source_information),
                };
                proof {
                    lemma_application_view(*self);
                    lemma_application_view(result);
                }
                result
            },
            Expression::LetValues { definitions, expression } => {
                let result = Expression::LetValues {
                    definitions: clone_variable_definitions(definitions),
                    expression: Box::new(expression.duplicate()),
                };
                proof {
                    lemma_let_values_view(*self);
                    lemma_let_values_view(result);
                }
                result
            },
            Expression::LetFunctions { definitions, expression } => {
                let result = Expression::LetFunctions {
                    definitions: clone_function_definitions(definitions),
                    expression: Box::new(expression.duplicate()),
                };
                proof {
                    lemma_let_functions_view(*self);
                    lemma_let_functions_view(result);
                }
                result
            },
        }
    }
}

/// Copies of the given expressions, in order.
pub fn clone_expressions(expressions: &Vec<Expression>) -> (result: Vec<Expression>)
    ensures
        expression_views(result@) == expression_views(expressions@),
    decreases expressions, 1nat,
{
    let mut result: Vec<Expression> = Vec::new();
    let mut index: usize = 0;
    while index < expressions.len()
        invariant
            index <= expressions.len(),
            result.len() == index,
            forall|i: int| 0 <= i < index ==> (#[trigger] result[i])@ == expressions[i]@,
        decreases expressions.len() - index,
    {
        result.push(expressions[index].duplicate());
        index += 1;
    }
    assert(expression_views(result@) =~= expression_views(expressions@));
    result
}

/// Copies of the given definitions, in order.
pub fn clone_variable_definitions(definitions: &Vec<VariableDefinition>) -> (result: Vec<
    VariableDefinition,
>)
    ensures
        variable_definition_views(result@) == variable_definition_views(definitions@),
    decreases definitions, 1nat,
{
    let mut result: Vec<VariableDefinition> = Vec::new();
    let mut index: usize = 0;
    while index < definitions.len()
        invariant
            index <= definitions.len(),
            result.len() == index,
            forall|i: int| 0 <= i < index ==> (#[trigger] result[i])@ == definitions[i]@,
        decreases definitions.len() - index,
    {
        result.push(definitions[index].duplicate());
        index += 1;
    }
    assert(variable_definition_views(result@) =~= variable_definition_views(definitions@));
    result
}

/// Copies of the given definitions, in order.
pub fn clone_function_definitions(definitions: &Vec<FunctionDefinition>) -> (result: Vec<
    FunctionDefinition,
>)
    ensures
        function_definition_views(result@) == function_definition_views(definitions@),
    decreases definitions, 1nat,
{
    let mut result: Vec<FunctionDefinition> = Vec::new();
    let mut index: usize = 0;
    while index < definitions.len()
        invariant
            index <= definitions.len(),
            result.len() == index,
            forall|i: int| 0 <= i < index ==> (#[trigger] result[i])@ == definitions[i]@,
        decreases definitions.len() - index,
    {
        result.push(definitions[index].duplicate());
        index += 1;
    }
    assert(function_definition_views(result@) =~= function_definition_views(definitions@));
    result
}

impl Clone for Expression {
    fn clone(&self) -> (result: Self)
        ensures
            result@ == self@,
    {
        self.duplicate()
    }
}

impl Clone for FunctionDefinition {
    fn clone(&self) -> (result: Self)
        ensures
            result@ == self@,
    {
        self.duplicate()
    }
}

impl Clone for VariableDefinition {
    fn clone(&self) -> (result: Self)
        ensures
            result@ == self@,
    {
        self.duplicate()
    }
}

impl Clone for Definition {
    fn clone(&self) -> (result: Self)
        ensures
            result@ == self@,
    {
        match self {
            Definition::FunctionDefinition(definition) => Definition::FunctionDefinition(
                definition.duplicate(),
            ),
            Definition::VariableDefinition(definition) => Definition::VariableDefinition(
                definition.duplicate(),
            ),
        }
    }
}

impl Clone for Module {
    fn clone(&self) -> (result: Self)
        ensures
            result@ == self@,
    {
        let mut definitions: Vec<Definition> = Vec::new();
        let mut index: usize = 0;
        while index < self.definitions.len()
            invariant
                index <= self.definitions.len(),
                definitions.len() == index,
                forall|i: int| 0 <= i < index ==> (#[trigger] definitions[i])@ == self.definitions[i]@,
            decreases self.definitions.len() - index,
        {
            definitions.push(self.definitions[index].clone());
            index += 1;
        }
        let result = Self { definitions };
        assert(result@.definitions =~= self@.definitions);
        result
    }
}

/// Whether `result` is what mapping `convert` over `source` from the leaves up
/// may give: every subexpression is rebuilt from its converted parts and then
/// handed to `convert`.
pub open spec fn expression_converted<F: Fn(&Expression) -> Expression>(
    convert: F,
    source: ExpressionView,
    result: ExpressionView,
) -> bool
    decreases source, 1nat,
{
    exists|rebuilt: Expression, converted: Expression|
        #![trigger call_ensures(convert, (&rebuilt,), converted)]
        parts_converted(convert, source, rebuilt@) && call_ensures(
            convert,
            (&rebuilt,),
            converted,
        ) && converted@ == result
}

/// Whether `rebuilt` is `source` with each direct part replaced by a
/// conversion of it.
pub open spec fn parts_converted<F: Fn(&Expression) -> Expression>(
    convert: F,
    source: ExpressionView,
    rebuilt: ExpressionView,
) -> bool
    decreases source, 0nat,
{
    match source {
        ExpressionView::Number { .. } => rebuilt == source,
        ExpressionView::Variable { .. } => rebuilt == source,
        ExpressionView::Operation { operator, lhs, rhs, source_information } => {
            &&& rebuilt is Operation
            &&& rebuilt->operator == operator
            &&& rebuilt->Operation_source_information == source_information
            &&& expression_converted(convert, *lhs, *rebuilt->lhs)
            &&& expression_converted(convert, *rhs, *rebuilt->rhs)
        },
        ExpressionView::Application { function, arguments, source_information } => {
            &&& rebuilt is Application
            &&& rebuilt->function == function
            &&& rebuilt->Application_source_information == source_information
            &&& rebuilt->arguments.len() == arguments.len()
            &&& forall|i: int|
                0 <= i < arguments.len() ==> expression_converted(
                    convert,
                    #[trigger] arguments[i],
                    rebuilt->arguments[i],
                )
        },
        ExpressionView::LetValues { definitions, expression } => {
            &&& rebuilt is LetValues
            &&& rebuilt->LetValues_definitions.len() == definitions.len()
            &&& forall|i: int|
                0 <= i < definitions.len() ==> {
                    &&& rebuilt->LetValues_definitions[i].name == (#[trigger] definitions[i]).name
                    &&& rebuilt->LetValues_definitions[i].type_ == definitions[i].type_
                    &&& rebuilt->LetValues_definitions[i].source_information
                        == definitions[i].source_information
                    &&& expression_converted(
                        convert,
                        definitions[i].body,
                        rebuilt->LetValues_definitions[i].body,
                    )
                }
            &&& expression_converted(convert, *expression, *rebuilt->LetValues_expression)
        },
        ExpressionView::LetFunctions { definitions, expression } => {
            &&& rebuilt is LetFunctions
            &&& rebuilt->LetFunctions_definitions.len() == definitions.len()
            &&& forall|i: int|
                0 <= i < definitions.len() ==> function_definition_converted(
                    convert,
                    #[trigger] definitions[i],
                    rebuilt->LetFunctions_definitions[i],
                )
            &&& expression_converted(convert, *expression, *rebuilt->LetFunctions_expression)
        },
    }
}

/// Whether `result` is `source` with its body replaced by a conversion of it.
pub open spec fn function_definition_converted<F: Fn(&Expression) -> Expression>(
    convert: F,
    source: FunctionDefinitionView,
    result: FunctionDefinitionView,
) -> bool
    decreases source, 2nat,
{
    &&& result.name == source.name
    &&& result.arguments == source.arguments
    &&& result.type_ == source.type_
    &&& result.source_information == source.source_information
    &&& expression_converted(convert, source.body, result.body)
}

/// Whether `result` is `source` with its body replaced by a conversion of it.
pub open spec fn variable_definition_converted<F: Fn(&Expression) -> Expression>(
    convert: F,
    source: VariableDefinitionView,
    result: VariableDefinitionView,
) -> bool {
    &&& result.name == source.name
    &&& result.type_ == source.type_
    &&& result.source_information == source.source_information
    &&& expression_converted(convert, source.body, result.body)
}

impl Expression {
    /// Maps `convert` over the expression from the leaves up: the parts of
    /// each subexpression are converted first, then the subexpression rebuilt
    /// from them is handed to `convert`.
    pub fn convert_expressions<F: Fn(&Expression) -> Expression>(&self, convert: &F) -> (result:
        Self)
        requires
            forall|expression: &Expression| call_requires(*convert, (expression,)),
        ensures
            expression_converted(*convert, self@, result@),
        decreases self, 0nat,
    {
        let rebuilt = match self {
            Expression::Number { .. } => self.duplicate(),
            Expression::Variable { .. } => self.duplicate(),
            Expression::Operation { operator, lhs, rhs, source_information } => {
                Expression::Operation {
                    operator: *operator,
                    lhs: Box::new(lhs.convert_expressions(convert)),
                    rhs: Box::new(rhs.convert_expressions(convert)),
                    source_information: share(source_information),
                }
            },
            Expression::Application { function, arguments, source_information } => {
                let rebuilt = Expression::Application {
                    function: function.clone(),
                    arguments: convert_expressions_in_expressions(arguments, convert),
                    source_information: share(source_information),
                };
                proof {
                    lemma_application_view(*self);
                    lemma_application_view(rebuilt);
                }
                rebuilt
            },
            Expression::LetValues { definitions, expression } => {
                let rebuilt = Expression::LetValues {
                    definitions: convert_expressions_in_variable_definitions(definitions, convert),
                    expression: Box::new(expression.convert_expressions(convert)),
                };
                proof {
                    lemma_let_values_view(*self);
                    lemma_let_values_view(rebuilt);
                }
                rebuilt
            },
            Expression::LetFunctions { definitions, expression } => {
                let rebuilt = Expression::LetFunctions {
                    definitions: convert_expressions_in_function_definitions(definitions, convert),
                    expression: Box::new(expression.convert_expressions(convert)),
                };
                proof {
                    lemma_let_functions_view(*self);
                    lemma_let_functions_view(rebuilt);
                }
                rebuilt
            },
        };
        assert(parts_converted(*convert, self@, rebuilt@));
        let converted = convert(&rebuilt);
        assert(call_ensures(*convert, (&rebuilt,), converted));
        converted
    }
}

/// The given expressions with `convert` mapped over each, in order.
pub fn convert_expressions_in_expressions<F: Fn(&Expression) -> Expression>(
    expressions: &Vec<Expression>,
    convert: &F,
) -> (result: Vec<Expression>)
    requires
        forall|expression: &Expression| call_requires(*convert, (expression,)),
    ensures
        result.len() == expressions.len(),
        forall|i: int|
            0 <= i < expressions.len() ==> expression_converted(
                *convert,
                #[trigger] expressions[i]@,
                result[i]@,
            ),
    decreases expressions, 1nat,
{
    let mut result: Vec<Expression> = Vec::new();
    let mut index: usize = 0;
    while index < expressions.len()
        invariant
            index <= expressions.len(),
            result.len() == index,
            forall|expression: &Expression| call_requires(*convert, (expression,)),
            forall|i: int|
                0 <= i < index ==> expression_converted(
                    *convert,
                    #[trigger] expressions[i]@,
                    result[i]@,
                ),
        decreases expressions.len() - index,
    {
        result.push(expressions[index].convert_expressions(convert));
        index += 1;
    }
    result
}

/// The given definitions with `convert` mapped over the body of each.
pub fn convert_expressions_in_variable_definitions<F: Fn(&Expression) -> Expression>(
    definitions: &Vec<VariableDefinition>,
    convert: &F,
) -> (result: Vec<VariableDefinition>)
    requires
        forall|expression: &Expression| call_requires(*convert, (expression,)),
    ensures
        result.len() == definitions.len(),
        forall|i: int|
            0 <= i < definitions.len() ==> variable_definition_converted(
                *convert,
                #[trigger] definitions[i]@,
                result[i]@,
            ),
    decreases definitions, 1nat,
{
    let mut result: Vec<VariableDefinition> = Vec::new();
    let mut index: usize = 0;
    while index < definitions.len()
        invariant
            index <= definitions.len(),
            result.len() == index,
            forall|expression: &Expression| call_requires(*convert, (expression,)),
            forall|i: int|
                0 <= i < index ==> variable_definition_converted(
                    *convert,
                    #[trigger] definitions[i]@,
                    result[i]@,
                ),
        decreases definitions.len() - index,
    {
        result.push(definitions[index].convert_expressions(convert));
        index += 1;
    }
    result
}

/// The given definitions with `convert` mapped over the body of each.
pub fn convert_expressions_in_function_definitions<F: Fn(&Expression) -> Expression>(
    definitions: &Vec<FunctionDefinition>,
    convert: &F,
) -> (result: Vec<FunctionDefinition>)
    requires
        forall|expression: &Expression| call_requires(*convert, (expression,)),
    ensures
        result.len() == definitions.len(),
        forall|i: int|
            0 <= i < definitions.len() ==> function_definition_converted(
                *convert,
                #[trigger] definitions[i]@,
                result[i]@,
            ),
    decreases definitions, 1nat,
{
    let mut result: Vec<FunctionDefinition> = Vec::new();
    let mut index: usize = 0;
    while index < definitions.len()
        invariant
            index <= definitions.len(),
            result.len() == index,
            forall|expression: &Expression| call_requires(*convert, (expression,)),
            forall|i: int|
                0 <= i < index ==> function_definition_converted(
                    *convert,
                    #[trigger] definitions[i]@,
                    result[i]@,
                ),
        decreases definitions.len() - index,
    {
        result.push(definitions[index].convert_expressions(convert));
        index += 1;
    }
    result
}

impl FunctionDefinition {
    /// The definition with `convert` mapped over its body from the leaves up.
    pub fn convert_expressions<F: Fn(&Expression) -> Expression>(&self, convert: &F) -> (result:
        Self)
        requires
            forall|expression: &Expression| call_requires(*convert, (expression,)),
        ensures
            function_definition_converted(*convert, self@, result@),
        decreases self, 0nat,
    {
        Self::new(
            self.name.clone(),
            clone_names(&self.arguments),
            self.body.convert_expressions(convert),
            self.type_.duplicate(),
            share(&self.source_information),
        )
    }
}

impl VariableDefinition {
    /// The definition with `convert` mapped over its body from the leaves up.
    pub fn convert_expressions<F: Fn(&Expression) -> Expression>(&self, convert: &F) -> (result:
        Self)
        requires
            forall|expression: &Expression| call_requires(*convert, (expression,)),
        ensures
            variable_definition_converted(*convert, self@, result@),
        decreases self, 0nat,
    {
        Self::new(
            self.name.clone(),
            self.body.convert_expressions(convert),
            self.type_.duplicate(),
            share(&self.source_information),
        )
    }
}

/// Whether `convert` may be handed every definition and gives a function
/// definition for a function definition, a variable definition for a variable
/// definition.
pub open spec fn converts_definitions<F: Fn(&Definition) -> Definition>(convert: F) -> bool {
    &&& forall|definition: &Definition| call_requires(convert, (definition,))
    &&& forall|definition: &Definition, converted: Definition| #[trigger]
        call_ensures(convert, (definition,), converted) ==> (definition is FunctionDefinition
            <==> converted is FunctionDefinition)
}

/// Whether `result` is what replacing every definition in `source` by its
/// conversion may give, innermost definitions first.
pub open spec fn definitions_converted<F: Fn(&Definition) -> Definition>(
    convert: F,
    source: ExpressionView,
    result: ExpressionView,
) -> bool
    decreases source, 0nat,
{
    match source {
        ExpressionView::Number { .. } => result == source,
        ExpressionView::Variable { .. } => result == source,
        ExpressionView::Operation { operator, lhs, rhs, source_information } => {
            &&& result is Operation
            &&& result->operator == operator
            &&& result->Operation_source_information == source_information
            &&& definitions_converted(convert, *lhs, *result->lhs)
            &&& definitions_converted(convert, *rhs, *result->rhs)
        },
        ExpressionView::Application { function, arguments, source_information } => {
            &&& result is Application
            &&& result->function == function
            &&& result->Application_source_information == source_information
            &&& result->arguments.len() == arguments.len()
            &&& forall|i: int|
                0 <= i < arguments.len() ==> definitions_converted(
                    convert,
                    #[trigger] arguments[i],
                    result->arguments[i],
                )
        },
        ExpressionView::LetValues { definitions, expression } => {
            &&& result is LetValues
            &&& result->LetValues_definitions.len() == definitions.len()
            &&& forall|i: int|
                0 <= i < definitions.len() ==> variable_definition_replaced(
                    convert,
                    #[trigger] definitions[i],
                    result->LetValues_definitions[i],
                )
            &&& definitions_converted(convert, *expression, *result->LetValues_expression)
        },
        ExpressionView::LetFunctions { definitions, expression } => {
            &&& result is LetFunctions
            &&& result->LetFunctions_definitions.len() == definitions.len()
            &&& forall|i: int|
                0 <= i < definitions.len() ==> function_definition_replaced(
                    convert,
                    #[trigger] definitions[i],
                    result->LetFunctions_definitions[i],
                )
            &&& definitions_converted(convert, *expression, *result->LetFunctions_expression)
        },
    }
}

/// Whether `result` is `source` with the definitions in its body converted.
pub open spec fn function_body_converted<F: Fn(&Definition) -> Definition>(
    convert: F,
    source: FunctionDefinitionView,
    result: FunctionDefinitionView,
) -> bool
    decreases source, 1nat,
{
    &&& result.name == source.name
    &&& result.arguments == source.arguments
    &&& result.type_ == source.type_
    &&& result.source_information == source.source_information
    &&& definitions_converted(convert, source.body, result.body)
}

/// Whether `result` is `source` with the definitions in its body converted.
pub open spec fn variable_body_converted<F: Fn(&Definition) -> Definition>(
    convert: F,
    source: VariableDefinitionView,
    result: VariableDefinitionView,
) -> bool
    decreases source, 1nat,
{
    &&& result.name == source.name
    &&& result.type_ == source.type_
    &&& result.source_information == source.source_information
    &&& definitions_converted(convert, source.body, result.body)
}

/// Whether `result` is what `convert` may give for `source` once the
/// definitions in the body of `source` are converted.
pub open spec fn function_definition_replaced<F: Fn(&Definition) -> Definition>(
    convert: F,
    source: FunctionDefinitionView,
    result: FunctionDefinitionView,
) -> bool
    decreases source, 2nat,
{
    exists|rebuilt: Definition, converted: Definition|
        #![trigger call_ensures(convert, (&rebuilt,), converted)]
        {
            &&& rebuilt is FunctionDefinition
            &&& function_body_converted(convert, source, rebuilt->FunctionDefinition_0@)
            &&& call_ensures(convert, (&rebuilt,), converted)
            &&& converted@ == DefinitionView::FunctionDefinition(result)
        }
}

/// Whether `result` is what `convert` may give for `source` once the
/// definitions in the body of `source` are converted.
pub open spec fn variable_definition_replaced<F: Fn(&Definition) -> Definition>(
    convert: F,
    source: VariableDefinitionView,
    result: VariableDefinitionView,
) -> bool
    decreases source, 2nat,
{
    exists|rebuilt: Definition, converted: Definition|
        #![trigger call_ensures(convert, (&rebuilt,), converted)]
        {
            &&& rebuilt is VariableDefinition
            &&& variable_body_converted(convert, source, rebuilt->VariableDefinition_0@)
            &&& call_ensures(convert, (&rebuilt,), converted)
            &&& converted@ == DefinitionView::VariableDefinition(result)
        }
}

impl Expression {
    /// Replaces every definition in the expression by what `convert` gives
    /// for it, innermost definitions first.
    pub fn convert_definitions<F: Fn(&Definition) -> Definition>(&self, convert: &F) -> (result:
        Self)
        requires
            converts_definitions(*convert),
        ensures
            definitions_converted(*convert, self@, result@),
        decreases self, 0nat,
    {
        match self {
            Expression::Number { .. } => self.duplicate(),
            Expression::Variable { .. } => self.duplicate(),
            Expression::Operation { operator, lhs, rhs, source_information } => {
                Expression::Operation {
                    operator: *operator,
                    lhs: Box::new(lhs.convert_definitions(convert)),
                    rhs: Box::new(rhs.convert_definitions(convert)),
                    source_information: share(source_information),
                }
            },
            Expression::Application { function, arguments, source_information } => {
                let result = Expression::Application {
                    function: function.clone(),
                    arguments: convert_definitions_in_expressions(arguments, convert),
                    source_information: share(source_information),
                };
                proof {
                    lemma_application_view(*self);
                    lemma_application_view(result);
                }
                result
            },
            Expression::LetValues { definitions, expression } => {
                let result = Expression::LetValues {
                    definitions: replace_variable_definitions(definitions, convert),
                    expression: Box::new(expression.convert_definitions(convert)),
                };
                proof {
                    lemma_let_values_view(*self);
                    lemma_let_values_view(result);
                }
                result
            },
            Expression::LetFunctions { definitions, expression } => {
                let result = Expression::LetFunctions {
                    definitions: replace_function_definitions(definitions, convert),
                    expression: Box::new(expression.convert_definitions(convert)),
                };
                proof {
                    lemma_let_functions_view(*self);
                    lemma_let_functions_view(result);
                }
                result
            },
        }
    }
}

/// The given expressions with the definitions in each converted.
pub fn convert_definitions_in_expressions<F: Fn(&Definition) -> Definition>(
    expressions: &Vec<Expression>,
    convert: &F,
) -> (result: Vec<Expression>)
    requires
        converts_definitions(*convert),
    ensures
        result.len() == expressions.len(),
        forall|i: int|
            0 <= i < expressions.len() ==> definitions_converted(
                *convert,
                #[trigger] expressions[i]@,
                result[i]@,
            ),
    decreases expressions, 1nat,
{
    let mut result: Vec<Expression> = Vec::new();
    let mut index: usize = 0;
    while index < expressions.len()
        invariant
            index <= expressions.len(),
            result.len() == index,
            converts_definitions(*convert),
            forall|i: int|
                0 <= i < index ==> definitions_converted(
                    *convert,
                    #[trigger] expressions[i]@,
                    result[i]@,
                ),
        decreases expressions.len() - index,
    {
        result.push(expressions[index].convert_definitions(convert));
        index += 1;
    }
    result
}

/// The given definitions, each replaced by what `convert` gives for it once
/// the definitions in its body are converted.
pub fn replace_variable_definitions<F: Fn(&Definition) -> Definition>(
    definitions: &Vec<VariableDefinition>,
    convert: &F,
) -> (result: Vec<VariableDefinition>)
    requires
        converts_definitions(*convert),
    ensures
        result.len() == definitions.len(),
        forall|i: int|
            0 <= i < definitions.len() ==> variable_definition_replaced(
                *convert,
                #[trigger] definitions[i]@,
                result[i]@,
            ),
    decreases definitions, 1nat,
{
    let mut result: Vec<VariableDefinition> = Vec::new();
    let mut index: usize = 0;
    while index < definitions.len()
        invariant
            index <= definitions.len(),
            result.len() == index,
            converts_definitions(*convert),
            forall|i: int|
                0 <= i < index ==> variable_definition_replaced(
                    *convert,
                    #[trigger] definitions[i]@,
                    result[i]@,
                ),
        decreases definitions.len() - index,
    {
        let rebuilt = Definition::VariableDefinition(
            definitions[index].convert_definitions(convert),
        );
        let converted = convert(&rebuilt);
        assert(call_ensures(*convert, (&rebuilt,), converted));
        match converted {
            Definition::VariableDefinition(definition) => {
                result.push(definition);
            },
            Definition::FunctionDefinition(_) => {
                proof {
                    assert(false);
                }
            },
        }
        index += 1;
    }
    result
}

/// The given definitions, each replaced by what `convert` gives for it once
/// the definitions in its body are converted.
pub fn replace_function_definitions<F: Fn(&Definition) -> Definition>(
    definitions: &Vec<FunctionDefinition>,
    convert: &F,
) -> (result: Vec<FunctionDefinition>)
    requires
        converts_definitions(*convert),
    ensures
        result.len() == definitions.len(),
        forall|i: int|
            0 <= i < definitions.len() ==> function_definition_replaced(
                *convert,
                #[trigger] definitions[i]@,
                result[i]@,
            ),
    decreases definitions, 1nat,
{
    let mut result: Vec<FunctionDefinition> = Vec::new();
    let mut index: usize = 0;
    while index < definitions.len()
        invariant
            index <= definitions.len(),
            result.len() == index,
            converts_definitions(*convert),
            forall|i: int|
                0 <= i < index ==> function_definition_replaced(
                    *convert,
                    #[trigger] definitions[i]@,
                    result[i]@,
                ),
        decreases definitions.len() - index,
    {
        let rebuilt = Definition::FunctionDefinition(
            definitions[index].convert_definitions(convert),
        );
        let converted = convert(&rebuilt);
        assert(call_ensures(*convert, (&rebuilt,), converted));
        match converted {
            Definition::FunctionDefinition(definition) => {
                result.push(definition);
            },
            Definition::VariableDefinition(_) => {
                proof {
                    assert(false);
                }
            },
        }
        index += 1;
    }
    result
}

impl FunctionDefinition {
    /// The definition with every definition in its body replaced by what
    /// `convert` gives for it, innermost definitions first.
    pub fn convert_definitions<F: Fn(&Definition) -> Definition>(&self, convert: &F) -> (result:
        Self)
        requires
            converts_definitions(*convert),
        ensures
            function_body_converted(*convert, self@, result@),
        decreases self, 0nat,
    {
        Self::new(
            self.name.clone(),
            clone_names(&self.arguments),
            self.body.convert_definitions(convert),
            self.type_.duplicate(),
            share(&self.source_information),
        )
    }
}

impl VariableDefinition {
    /// The definition with every definition in its body replaced by what
    /// `convert` gives for it, innermost definitions first.
    pub fn convert_definitions<F: Fn(&Definition) -> Definition>(&self, convert: &F) -> (result:
        Self)
        requires
            converts_definitions(*convert),
        ensures
            variable_body_converted(*convert, self@, result@),
        decreases self, 0nat,
    {
        Self::new(
            self.name.clone(),
            self.body.convert_definitions(convert),
            self.type_.duplicate(),
            share(&self.source_information),
        )
    }
}

} // verus!
