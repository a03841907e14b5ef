use sloth::ast::{Definition, Expression, FunctionDefinition, Module, Operator, VariableDefinition};
use sloth::compile::desugar::{desugar, desugar_with_types, desugar_without_types};
use sloth::compile::error::CompileError;
use sloth::compile::module_interface_compiler::ModuleInterfaceCompiler;
use sloth::compile::type_inference::{find_open, infer_types};
use sloth::compile::unification::{unify, Equation};
use sloth::debug::SourceInformation;
use sloth::interface::ModuleInterface;
use sloth::ir;
use sloth::types::{Function, Type, Value, Variable};
use std::rc::Rc;

fn at(line_number: usize) -> Rc<SourceInformation> {
    Rc::new(SourceInformation::new("main.sl".to_string(), line_number, 1))
}

fn number(value: f64) -> Expression {
    Expression::Number { value: value.to_bits(), source_information: at(1) }
}

fn variable(name: &str) -> Expression {
    Expression::Variable { name: name.to_string(), source_information: at(1) }
}

fn unknown(id: usize) -> Type {
    Type::Variable(Variable::new(id, at(1)))
}

fn number_type() -> Type {
    Type::Value(Value::Number)
}

fn function_type(arguments: Vec<Type>) -> Type {
    Type::Function(Function::new(arguments, Value::Number))
}

fn equation(lhs: Type, rhs: Type, line_number: usize) -> Equation {
    Equation::new(lhs, rhs, at(line_number))
}

fn value_definition(name: &str, body: Expression, type_: Type) -> VariableDefinition {
    VariableDefinition::new(name.to_string(), body, type_, at(2))
}

#[test]
fn unification_binds_variables() {
    let substitution = unify(&vec![
        equation(unknown(0), number_type(), 1),
        equation(function_type(vec![unknown(0), unknown(1)]), unknown(2), 2),
        equation(unknown(1), function_type(vec![unknown(0)]), 3),
    ])
    .unwrap();

    assert_eq!(substitution.len(), 3);
    assert_eq!(substitution[&0], number_type());
    assert_eq!(substitution[&1], function_type(vec![number_type()]));
    assert_eq!(
        substitution[&2],
        function_type(vec![number_type(), function_type(vec![number_type()])])
    );
}

#[test]
fn unifier_makes_both_sides_the_same() {
    let equations = vec![
        equation(function_type(vec![unknown(0), unknown(1)]), unknown(2), 1),
        equation(unknown(2), function_type(vec![unknown(3), function_type(vec![unknown(3)])]), 2),
    ];
    let substitution = unify(&equations).unwrap();

    for equation in &equations {
        assert_eq!(
            equation.lhs.substitute_variables(&substitution),
            equation.rhs.substitute_variables(&substitution)
        );
    }
}

#[test]
fn applying_the_unifier_twice_is_applying_it_once() {
    let substitution = unify(&vec![
        equation(unknown(0), function_type(vec![unknown(1)]), 1),
        equation(unknown(1), function_type(vec![unknown(2), unknown(3)]), 2),
        equation(unknown(3), number_type(), 3),
    ])
    .unwrap();

    for type_ in [
        unknown(0),
        unknown(1),
        unknown(4),
        function_type(vec![unknown(0), unknown(3), unknown(2)]),
    ] {
        let once = type_.substitute_variables(&substitution);

        assert_eq!(once.substitute_variables(&substitution), once);
    }
}

#[test]
fn equations_between_the_same_types_ask_for_nothing() {
    let substitution = unify(&vec![
        equation(number_type(), number_type(), 1),
        equation(unknown(0), unknown(0), 2),
        equation(function_type(vec![number_type()]), function_type(vec![number_type()]), 3),
    ])
    .unwrap();

    assert!(substitution.is_empty());
}

#[test]
fn value_does_not_unify_with_function() {
    match unify(&vec![
        equation(unknown(0), number_type(), 1),
        equation(function_type(vec![]), unknown(0), 2),
    ]) {
        Err(CompileError::TypeMismatch { expected, actual, source_information }) => {
            assert_eq!(expected, function_type(vec![]));
            assert_eq!(actual, number_type());
            assert_eq!(source_information, at(1));
        },
        other => panic!("no type mismatch: {:?}", other),
    }
}

#[test]
fn functions_of_different_numbers_of_arguments_do_not_unify() {
    match unify(&vec![equation(
        function_type(vec![number_type()]),
        function_type(vec![number_type(), number_type()]),
        5,
    )]) {
        Err(CompileError::TypeMismatch { expected, actual, source_information }) => {
            assert_eq!(expected, function_type(vec![number_type()]));
            assert_eq!(actual, function_type(vec![number_type(), number_type()]));
            assert_eq!(source_information, at(5));
        },
        other => panic!("no type mismatch: {:?}", other),
    }
}

#[test]
fn variable_does_not_unify_with_a_type_that_holds_it() {
    match unify(&vec![equation(unknown(0), function_type(vec![unknown(0)]), 4)]) {
        Err(CompileError::OccursCheck { variable_id, type_, source_information }) => {
            assert_eq!(variable_id, 0);
            assert_eq!(type_, function_type(vec![unknown(0)]));
            assert_eq!(source_information, at(4));
        },
        other => panic!("no occurs check: {:?}", other),
    }
}

#[test]
fn inference_fills_in_the_types() {
    let module = Module::new(vec![
        Definition::FunctionDefinition(FunctionDefinition::new(
            "apply".to_string(),
            vec!["f".to_string(), "x".to_string()],
            Expression::Application {
                function: "f".to_string(),
                arguments: vec![variable("x")],
                source_information: at(1),
            },
            function_type(vec![unknown(0), unknown(1)]),
            at(1),
        )),
        Definition::FunctionDefinition(FunctionDefinition::new(
            "increment".to_string(),
            vec!["x".to_string()],
            Expression::Operation {
                operator: Operator::Add,
                lhs: Box::new(variable("x")),
                rhs: Box::new(number(1.0)),
                source_information: at(2),
            },
            function_type(vec![unknown(2)]),
            at(2),
        )),
        Definition::VariableDefinition(value_definition(
            "y",
            Expression::Application {
                function: "apply".to_string(),
                arguments: vec![variable("increment"), number(1.0)],
                source_information: at(3),
            },
            unknown(3),
        )),
    ]);
    let typed = infer_types(&module, &vec![]).unwrap();

    assert_eq!(
        typed.definitions()[0].type_(),
        &function_type(vec![function_type(vec![number_type()]), number_type()])
    );
    assert_eq!(typed.definitions()[1].type_(), &function_type(vec![number_type()]));
    assert_eq!(typed.definitions()[2].type_(), &number_type());
    assert_eq!(find_open(&typed), None);
}

#[test]
fn inference_uses_what_other_modules_export() {
    let interface = ModuleInterface::new(vec![ir::ast::Declaration::new(
        "other.f".to_string(),
        ir::types::Type::Function(ir::types::Function::new(
            vec![ir::types::Type::Value(Value::Number)],
            Value::Number,
        )),
    )]);
    let module = Module::new(vec![Definition::VariableDefinition(value_definition(
        "x",
        Expression::Application {
            function: "other.f".to_string(),
            arguments: vec![number(1.0)],
            source_information: at(1),
        },
        unknown(0),
    ))]);

    assert_eq!(
        infer_types(&module, &vec![interface]).unwrap().definitions()[0].type_(),
        &number_type()
    );
    assert!(matches!(
        infer_types(&module, &vec![]),
        Err(CompileError::UnboundVariable { .. })
    ));
}

#[test]
fn function_definition_has_to_declare_a_function_type() {
    let module = Module::new(vec![Definition::FunctionDefinition(FunctionDefinition::new(
        "f".to_string(),
        vec!["x".to_string(), "y".to_string()],
        number(1.0),
        unknown(0),
        at(9),
    ))]);

    match infer_types(&module, &vec![]) {
        Err(CompileError::TypeMismatch { expected, actual, source_information }) => {
            assert_eq!(expected, unknown(0));
            assert_eq!(actual, function_type(vec![number_type(), number_type()]));
            assert_eq!(source_information, at(9));
        },
        other => panic!("no type mismatch: {:?}", other),
    }
}

#[test]
fn open_type_is_found() {
    let module = Module::new(vec![
        Definition::VariableDefinition(value_definition("x", number(1.0), number_type())),
        Definition::VariableDefinition(VariableDefinition::new(
            "y".to_string(),
            number(1.0),
            unknown(0),
            at(7),
        )),
    ]);

    assert_eq!(find_open(&module), Some(at(7)));
}

fn let_values(names: Vec<&str>, body: Expression) -> Expression {
    Expression::LetValues {
        definitions: names
            .into_iter()
            .map(|name| value_definition(name, number(1.0), number_type()))
            .collect(),
        expression: Box::new(body),
    }
}

#[test]
fn let_of_several_values_is_split() {
    assert_eq!(
        desugar(&let_values(vec!["a", "b", "c"], variable("c"))),
        let_values(
            vec!["a"],
            let_values(vec!["b"], let_values(vec!["c"], variable("c")))
        )
    );
}

#[test]
fn let_of_one_value_or_none_is_kept() {
    assert_eq!(
        desugar(&let_values(vec!["a"], variable("a"))),
        let_values(vec!["a"], variable("a"))
    );
    assert_eq!(
        desugar(&let_values(vec![], number(1.0))),
        let_values(vec![], number(1.0))
    );
}

#[test]
fn let_of_functions_is_kept_together() {
    let expression = Expression::LetFunctions {
        definitions: vec![
            FunctionDefinition::new(
                "f".to_string(),
                vec![],
                let_values(vec!["a", "b"], variable("b")),
                function_type(vec![]),
                at(1),
            ),
            FunctionDefinition::new(
                "g".to_string(),
                vec![],
                number(1.0),
                function_type(vec![]),
                at(1),
            ),
        ],
        expression: Box::new(number(1.0)),
    };

    match desugar(&expression) {
        Expression::LetFunctions { definitions, .. } => {
            assert_eq!(definitions.len(), 2);
            assert_eq!(
                definitions[0].body(),
                &let_values(vec!["a"], let_values(vec!["b"], variable("b")))
            );
        },
        other => panic!("not a let of functions: {:?}", other),
    }
}

#[test]
fn desugaring_keeps_the_signatures_of_a_well_typed_module() {
    let module = Module::new(vec![
        Definition::VariableDefinition(value_definition(
            "x",
            let_values(vec!["a", "b"], variable("b")),
            number_type(),
        )),
        Definition::FunctionDefinition(FunctionDefinition::new(
            "f".to_string(),
            vec!["y".to_string()],
            variable("x"),
            function_type(vec![number_type()]),
            at(1),
        )),
    ]);
    let desugared = desugar_without_types(&module);
    let typed = desugar_with_types(&infer_types(&desugared, &vec![]).unwrap());

    assert_eq!(typed, desugared);
    for (typed, definition) in typed.definitions().iter().zip(module.definitions()) {
        assert_eq!(typed.name(), definition.name());
        assert_eq!(typed.type_(), definition.type_());
    }
}

#[test]
fn interface_gives_names_as_the_source_does() {
    let module = Module::new(vec![
        Definition::VariableDefinition(value_definition("main", number(1.0), number_type())),
        Definition::FunctionDefinition(FunctionDefinition::new(
            "f".to_string(),
            vec!["g".to_string()],
            number(1.0),
            function_type(vec![function_type(vec![number_type()])]),
            at(1),
        )),
    ]);
    let number = || ir::types::Type::Value(Value::Number);

    assert_eq!(
        ModuleInterfaceCompiler::new().compile(&module).unwrap(),
        ModuleInterface::new(vec![
            ir::ast::Declaration::new("main".to_string(), number()),
            ir::ast::Declaration::new(
                "f".to_string(),
                ir::types::Type::Function(ir::types::Function::new(
                    vec![ir::types::Type::Function(ir::types::Function::new(
                        vec![number()],
                        Value::Number
                    ))],
                    Value::Number
                ))
            ),
        ])
    );
}

#[test]
fn interface_needs_types_without_variables() {
    let module = Module::new(vec![Definition::VariableDefinition(VariableDefinition::new(
        "x".to_string(),
        number(1.0),
        unknown(0),
        at(4),
    ))]);

    assert_eq!(
        ModuleInterfaceCompiler::new().compile(&module),
        Err(CompileError::AmbiguousType { source_information: at(4) })
    );
}

#[test]
fn errors_give_their_place() {
    assert_eq!(
        CompileError::AmbiguousType { source_information: at(3) }.source_information(),
        Some(&at(3))
    );
    assert_eq!(
        CompileError::CodeGeneration(ir::compile::error::CompileError::VariableNotFound)
            .source_information(),
        None
    );
}
