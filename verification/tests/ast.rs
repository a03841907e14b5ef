use sloth::ast::{Definition, Expression, FunctionDefinition, Module, Operator, VariableDefinition};
use sloth::debug::SourceInformation;
use sloth::types::{Function, Type, Value, Variable};
use std::collections::HashMap;
use std::rc::Rc;

fn source() -> Rc<SourceInformation> {
    Rc::new(SourceInformation::new("main.sl".to_string(), 1, 1))
}

fn number(value: f64) -> Expression {
    Expression::Number { value: value.to_bits(), source_information: source() }
}

fn variable(name: &str) -> Expression {
    Expression::Variable { name: name.to_string(), source_information: source() }
}

fn unknown(id: usize) -> Type {
    Type::Variable(Variable::new(id, source()))
}

fn number_type() -> Type {
    Type::Value(Value::Number)
}

fn function_type(arguments: Vec<Type>) -> Type {
    Type::Function(Function::new(arguments, Value::Number))
}

fn value_definition(name: &str, body: Expression, type_: Type) -> VariableDefinition {
    VariableDefinition::new(name.to_string(), body, type_, source())
}

fn function_definition(name: &str, body: Expression, type_: Type) -> FunctionDefinition {
    FunctionDefinition::new(name.to_string(), vec!["x".to_string()], body, type_, source())
}

fn nested() -> Expression {
    Expression::LetFunctions {
        definitions: vec![function_definition(
            "f",
            Expression::LetValues {
                definitions: vec![value_definition("y", variable("x"), unknown(1))],
                expression: Box::new(Expression::Operation {
                    operator: Operator::Add,
                    lhs: Box::new(variable("y")),
                    rhs: Box::new(number(1.0)),
                    source_information: source(),
                }),
            },
            function_type(vec![unknown(0)]),
        )],
        expression: Box::new(Expression::Application {
            function: "f".to_string(),
            arguments: vec![number(2.0)],
            source_information: source(),
        }),
    }
}

#[test]
fn function_definition_holds_its_parts() {
    let source_information = source();
    let definition = FunctionDefinition::new(
        "f".to_string(),
        vec!["x".to_string(), "y".to_string()],
        variable("x"),
        function_type(vec![number_type(), number_type()]),
        source_information.clone(),
    );

    assert_eq!(definition.name(), "f");
    assert_eq!(definition.arguments(), &["x".to_string(), "y".to_string()]);
    assert_eq!(definition.body(), &variable("x"));
    assert_eq!(definition.type_(), &function_type(vec![number_type(), number_type()]));
    assert!(Rc::ptr_eq(definition.source_information(), &source_information));
}

#[test]
fn variable_definition_holds_its_parts() {
    let definition = value_definition("x", number(1.0), number_type());

    assert_eq!(definition.name(), "x");
    assert_eq!(definition.body(), &number(1.0));
    assert_eq!(definition.type_(), &number_type());
    assert_eq!(definition.source_information(), &source());
}

#[test]
fn definitions_give_their_names_and_types() {
    let function = Definition::FunctionDefinition(function_definition(
        "f",
        variable("x"),
        function_type(vec![number_type()]),
    ));
    let value = Definition::VariableDefinition(value_definition("x", number(1.0), unknown(0)));

    assert_eq!(function.name(), "f");
    assert_eq!(function.type_(), &function_type(vec![number_type()]));
    assert_eq!(value.name(), "x");
    assert_eq!(value.type_(), &unknown(0));
}

#[test]
fn types_are_substituted_throughout_a_function_definition() {
    let mut substitutions = HashMap::new();
    substitutions.insert(0, number_type());
    substitutions.insert(1, number_type());
    let definition = function_definition("g", nested(), function_type(vec![unknown(0)]));
    let substituted = definition.substitute_type_variables(&substitutions);

    assert_eq!(substituted.name(), "g");
    assert_eq!(substituted.arguments(), definition.arguments());
    assert_eq!(substituted.type_(), &function_type(vec![number_type()]));
    match substituted.body() {
        Expression::LetFunctions { definitions, .. } => {
            assert_eq!(definitions[0].type_(), &function_type(vec![number_type()]));
            match definitions[0].body() {
                Expression::LetValues { definitions, .. } => {
                    assert_eq!(definitions[0].type_(), &number_type());
                },
                other => panic!("not a let of values: {:?}", other),
            }
        },
        other => panic!("not a let of functions: {:?}", other),
    }
}

#[test]
fn types_are_substituted_throughout_a_module() {
    let mut substitutions = HashMap::new();
    substitutions.insert(0, number_type());
    let module = Module::new(vec![
        Definition::VariableDefinition(value_definition("x", number(1.0), unknown(0))),
        Definition::VariableDefinition(value_definition("y", number(1.0), unknown(1))),
    ]);
    let substituted = module.substitute_type_variables(&substitutions);

    assert_eq!(substituted.definitions()[0].type_(), &number_type());
    assert_eq!(substituted.definitions()[1].type_(), &unknown(1));
}

#[test]
fn expressions_are_converted_from_the_leaves_up() {
    let definition = function_definition(
        "f",
        Expression::Operation {
            operator: Operator::Add,
            lhs: Box::new(variable("x")),
            rhs: Box::new(number(1.0)),
            source_information: source(),
        },
        function_type(vec![number_type()]),
    );
    let converted = definition.convert_expressions(&|expression: &Expression| match expression {
        Expression::Variable { .. } => number(0.0),
        Expression::Operation { lhs, rhs, source_information, .. } => Expression::Operation {
            operator: Operator::Multiply,
            lhs: lhs.clone(),
            rhs: rhs.clone(),
            source_information: source_information.clone(),
        },
        other => other.clone(),
    });

    assert_eq!(converted.name(), "f");
    assert_eq!(converted.type_(), definition.type_());
    assert_eq!(
        converted.body(),
        &Expression::Operation {
            operator: Operator::Multiply,
            lhs: Box::new(number(0.0)),
            rhs: Box::new(number(1.0)),
            source_information: source(),
        }
    );
}

#[test]
fn converting_expressions_with_the_identity_changes_nothing() {
    let definition = function_definition("g", nested(), function_type(vec![unknown(0)]));

    assert_eq!(
        definition.convert_expressions(&|expression: &Expression| expression.clone()),
        definition
    );
}

#[test]
fn definitions_are_converted_innermost_first() {
    let definition = function_definition("g", nested(), function_type(vec![unknown(0)]));
    let converted = definition.convert_definitions(&|definition: &Definition| match definition {
        Definition::FunctionDefinition(definition) => {
            Definition::FunctionDefinition(FunctionDefinition::new(
                [definition.name(), "'"].concat(),
                definition.arguments().to_vec(),
                definition.body().clone(),
                definition.type_().clone(),
                definition.source_information().clone(),
            ))
        },
        Definition::VariableDefinition(definition) => {
            Definition::VariableDefinition(VariableDefinition::new(
                [definition.name(), "'"].concat(),
                number(0.0),
                definition.type_().clone(),
                definition.source_information().clone(),
            ))
        },
    });

    assert_eq!(converted.name(), "g");
    match converted.body() {
        Expression::LetFunctions { definitions, .. } => {
            assert_eq!(definitions[0].name(), "f'");
            match definitions[0].body() {
                Expression::LetValues { definitions, .. } => {
                    assert_eq!(definitions[0].name(), "y'");
                    assert_eq!(definitions[0].body(), &number(0.0));
                },
                other => panic!("not a let of values: {:?}", other),
            }
        },
        other => panic!("not a let of functions: {:?}", other),
    }
}

#[test]
fn syntax_is_copied() {
    let definition = function_definition("g", nested(), function_type(vec![unknown(0)]));

    assert_eq!(definition.clone(), definition);
    assert_eq!(nested().duplicate(), nested());
}
