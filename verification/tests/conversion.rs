use sloth::ast::{Definition, Expression, FunctionDefinition, Module, Operator, VariableDefinition};
use sloth::compile::closure_converter::{convert_type, shape, ClosureConverter};
use sloth::compile::error::CompileError;
use sloth::compile::free_variable_finder::FreeVariableFinder;
use sloth::debug::SourceInformation;
use sloth::environment::Environment;
use sloth::ir;
use sloth::ir::rename::{qualify, rename_top_level_variables, symbol};
use sloth::types::{Function, Type, Value, Variable};
use std::rc::Rc;

fn source() -> Rc<SourceInformation> {
    Rc::new(SourceInformation::new("main.sl".to_string(), 1, 1))
}

fn number(value: f64) -> Expression {
    Expression::Number { value: value.to_bits(), source_information: source() }
}

fn variable(name: &str) -> Expression {
    Expression::Variable { name: name.to_string(), source_information: source() }
}

fn add(lhs: Expression, rhs: Expression) -> Expression {
    Expression::Operation {
        operator: Operator::Add,
        lhs: Box::new(lhs),
        rhs: Box::new(rhs),
        source_information: source(),
    }
}

fn apply(function: &str, arguments: Vec<Expression>) -> Expression {
    Expression::Application {
        function: function.to_string(),
        arguments,
        source_information: source(),
    }
}

fn number_type() -> Type {
    Type::Value(Value::Number)
}

fn function_type(arguments: Vec<Type>) -> Type {
    Type::Function(Function::new(arguments, Value::Number))
}

fn function_definition(name: &str, arguments: Vec<&str>, body: Expression) -> FunctionDefinition {
    let type_ = function_type(arguments.iter().map(|_| number_type()).collect());

    FunctionDefinition::new(
        name.to_string(),
        arguments.into_iter().map(|argument| argument.to_string()).collect(),
        body,
        type_,
        source(),
    )
}

fn value_definition(name: &str, body: Expression) -> VariableDefinition {
    VariableDefinition::new(name.to_string(), body, number_type(), source())
}

fn core_number() -> ir::types::Type {
    ir::types::Type::Value(Value::Number)
}

fn core_variable(name: &str) -> ir::ast::Expression {
    ir::ast::Expression::Variable(name.to_string())
}

fn core_add(lhs: ir::ast::Expression, rhs: ir::ast::Expression) -> ir::ast::Expression {
    ir::ast::Expression::Operation {
        operator: Operator::Add,
        lhs: Box::new(lhs),
        rhs: Box::new(rhs),
    }
}

fn argument(name: &str) -> ir::ast::Argument {
    ir::ast::Argument::new(name.to_string(), core_number())
}

#[test]
fn free_variables_are_sorted() {
    let definition = function_definition(
        "f",
        vec!["x"],
        add(add(variable("z"), variable("x")), add(variable("a"), add(variable("m"), variable("a")))),
    );

    assert_eq!(FreeVariableFinder::new().find(&definition), vec!["a", "m", "z"]);
}

#[test]
fn binders_hide_names() {
    let definition = function_definition(
        "f",
        vec!["x"],
        Expression::LetValues {
            definitions: vec![
                value_definition("a", variable("b")),
                value_definition("b", variable("a")),
            ],
            expression: Box::new(Expression::LetFunctions {
                definitions: vec![
                    function_definition("g", vec!["y"], apply("h", vec![variable("c")])),
                    function_definition("h", vec!["z"], apply("g", vec![variable("y")])),
                ],
                expression: Box::new(apply("g", vec![add(variable("b"), variable("x"))])),
            }),
        },
    );

    assert_eq!(FreeVariableFinder::new().find(&definition), vec!["b", "c", "y"]);
}

#[test]
fn applied_name_is_free() {
    let definition = function_definition("f", vec!["x"], apply("f", vec![variable("x")]));

    assert_eq!(FreeVariableFinder::new().find(&definition), vec!["f"]);
}

#[test]
fn types_without_variables_are_core_types() {
    assert_eq!(convert_type(&number_type()), Some(core_number()));
    assert_eq!(
        convert_type(&function_type(vec![number_type()])),
        Some(ir::types::Type::Function(ir::types::Function::new(
            vec![core_number()],
            Value::Number
        )))
    );
    assert_eq!(
        convert_type(&function_type(vec![Type::Variable(Variable::new(0, source()))])),
        None
    );
    assert_eq!(shape(2), function_type(vec![number_type(), number_type()]));
}

#[test]
fn closures_capture_what_is_bound_around_them() {
    let module = Module::new(vec![
        Definition::VariableDefinition(value_definition("k", number(1.0))),
        Definition::FunctionDefinition(function_definition(
            "f",
            vec!["b", "a"],
            Expression::LetFunctions {
                definitions: vec![function_definition(
                    "g",
                    vec!["x"],
                    add(add(variable("b"), variable("a")), add(variable("k"), variable("x"))),
                )],
                expression: Box::new(apply("g", vec![number(1.0)])),
            },
        )),
    ]);
    let converted = ClosureConverter::new().convert(&module, &vec![]).unwrap();

    assert_eq!(
        converted.definitions()[1],
        ir::ast::Definition::FunctionDefinition(ir::ast::FunctionDefinition::new(
            "f".to_string(),
            vec![],
            vec![argument("b"), argument("a")],
            ir::ast::Expression::LetFunctions {
                definitions: vec![ir::ast::FunctionDefinition::new(
                    "g".to_string(),
                    vec![argument("a"), argument("b")],
                    vec![argument("x")],
                    core_add(
                        core_add(core_variable("b"), core_variable("a")),
                        core_add(core_variable("k"), core_variable("x"))
                    ),
                    Value::Number,
                )],
                expression: Box::new(ir::ast::Expression::Application {
                    function: "g".to_string(),
                    arguments: vec![ir::ast::Expression::Number(1.0f64.to_bits())],
                }),
            },
            Value::Number,
        ))
    );
}

#[test]
fn recursive_closure_captures_itself() {
    let module = Module::new(vec![Definition::VariableDefinition(value_definition(
        "x",
        Expression::LetFunctions {
            definitions: vec![function_definition("f", vec!["n"], apply("f", vec![variable("n")]))],
            expression: Box::new(number(1.0)),
        },
    ))]);
    let converted = ClosureConverter::new().convert(&module, &vec![]).unwrap();

    match &converted.definitions()[0] {
        ir::ast::Definition::ValueDefinition(definition) => match definition.body() {
            ir::ast::Expression::LetFunctions { definitions, .. } => {
                assert_eq!(
                    definitions[0].environment(),
                    &vec![ir::ast::Argument::new(
                        "f".to_string(),
                        ir::types::Type::Function(ir::types::Function::new(
                            vec![core_number()],
                            Value::Number
                        ))
                    )]
                );
                assert_eq!(definitions[0].type_().arguments(), &vec![core_number()]);
            },
            other => panic!("not a let of functions: {:?}", other),
        },
        other => panic!("not a value: {:?}", other),
    }
}

#[test]
fn conversion_needs_types_without_variables() {
    let module = Module::new(vec![Definition::VariableDefinition(VariableDefinition::new(
        "x".to_string(),
        number(1.0),
        Type::Variable(Variable::new(0, source())),
        source(),
    ))]);

    assert_eq!(
        ClosureConverter::new().convert(&module, &vec![]),
        Err(CompileError::AmbiguousType { source_information: source() })
    );
}

#[test]
fn conversion_needs_function_types_of_the_arguments() {
    let module = Module::new(vec![Definition::FunctionDefinition(FunctionDefinition::new(
        "f".to_string(),
        vec!["x".to_string()],
        number(1.0),
        number_type(),
        source(),
    ))]);

    assert_eq!(
        ClosureConverter::new().convert(&module, &vec![]),
        Err(CompileError::TypeMismatch {
            expected: number_type(),
            actual: function_type(vec![number_type()]),
            source_information: source(),
        })
    );
}

fn core_module() -> ir::ast::Module {
    ir::ast::Module::new(
        vec![ir::ast::Declaration::new("other.k".to_string(), core_number())],
        vec![
            ir::ast::Definition::ValueDefinition(ir::ast::ValueDefinition::new(
                "x".to_string(),
                core_add(core_variable("other.k"), core_variable("main")),
                core_number(),
            )),
            ir::ast::Definition::FunctionDefinition(ir::ast::FunctionDefinition::new(
                "f".to_string(),
                vec![],
                vec![argument("x")],
                ir::ast::Expression::LetValues {
                    definitions: vec![
                        ir::ast::ValueDefinition::new(
                            "y".to_string(),
                            core_add(core_variable("x"), core_variable("main")),
                            core_number(),
                        ),
                        ir::ast::ValueDefinition::new(
                            "main".to_string(),
                            core_variable("y"),
                            core_number(),
                        ),
                    ],
                    expression: Box::new(ir::ast::Expression::Application {
                        function: "f".to_string(),
                        arguments: vec![core_variable("main")],
                    }),
                },
                Value::Number,
            )),
            ir::ast::Definition::ValueDefinition(ir::ast::ValueDefinition::new(
                "main".to_string(),
                ir::ast::Expression::Application {
                    function: "f".to_string(),
                    arguments: vec![core_variable("x")],
                },
                core_number(),
            )),
        ],
    )
}

#[test]
fn top_level_names_are_renamed() {
    let renamed = rename_top_level_variables(&core_module(), "app");

    assert_eq!(renamed.declarations(), core_module().declarations());
    assert_eq!(
        renamed.definitions()[0],
        ir::ast::Definition::ValueDefinition(ir::ast::ValueDefinition::new(
            "app.x".to_string(),
            core_add(core_variable("other.k"), core_variable("sloth_main")),
            core_number(),
        ))
    );
    assert_eq!(
        renamed.definitions()[2],
        ir::ast::Definition::ValueDefinition(ir::ast::ValueDefinition::new(
            "sloth_main".to_string(),
            ir::ast::Expression::Application {
                function: "app.f".to_string(),
                arguments: vec![core_variable("app.x")],
            },
            core_number(),
        ))
    );
}

#[test]
fn binders_hide_top_level_names_from_renaming() {
    let renamed = rename_top_level_variables(&core_module(), "app");

    assert_eq!(
        renamed.definitions()[1],
        ir::ast::Definition::FunctionDefinition(ir::ast::FunctionDefinition::new(
            "app.f".to_string(),
            vec![],
            vec![argument("x")],
            ir::ast::Expression::LetValues {
                definitions: vec![
                    ir::ast::ValueDefinition::new(
                        "y".to_string(),
                        core_add(core_variable("x"), core_variable("sloth_main")),
                        core_number(),
                    ),
                    ir::ast::ValueDefinition::new(
                        "main".to_string(),
                        core_variable("y"),
                        core_number(),
                    ),
                ],
                expression: Box::new(ir::ast::Expression::Application {
                    function: "app.f".to_string(),
                    arguments: vec![core_variable("main")],
                }),
            },
            Value::Number,
        ))
    );
}

#[test]
fn renaming_leaves_no_reference_to_an_old_name() {
    let renamed = rename_top_level_variables(&core_module(), "app");
    let old = ["x", "f", "main"];

    fn references(expression: &ir::ast::Expression, bound: &mut Vec<String>, found: &mut Vec<String>) {
        match expression {
            ir::ast::Expression::Number(_) => {},
            ir::ast::Expression::Variable(name) => {
                if !bound.contains(name) {
                    found.push(name.clone());
                }
            },
            ir::ast::Expression::Operation { lhs, rhs, .. } => {
                references(lhs, bound, found);
                references(rhs, bound, found);
            },
            ir::ast::Expression::Application { function, arguments } => {
                if !bound.contains(function) {
                    found.push(function.clone());
                }
                for argument in arguments {
                    references(argument, bound, found);
                }
            },
            ir::ast::Expression::LetValues { definitions, expression } => {
                let length = bound.len();
                for definition in definitions {
                    references(definition.body(), bound, found);
                    bound.push(definition.name().clone());
                }
                references(expression, bound, found);
                bound.truncate(length);
            },
            ir::ast::Expression::LetFunctions { definitions, expression } => {
                let length = bound.len();
                bound.extend(definitions.iter().map(|definition| definition.name().clone()));
                for definition in definitions {
                    let inner = bound.len();
                    bound.extend(definition.arguments().iter().map(|a| a.name().clone()));
                    bound.extend(definition.environment().iter().map(|a| a.name().clone()));
                    references(definition.body(), bound, found);
                    bound.truncate(inner);
                }
                references(expression, bound, found);
                bound.truncate(length);
            },
        }
    }

    for definition in renamed.definitions() {
        let mut found = vec![];
        match definition {
            ir::ast::Definition::FunctionDefinition(definition) => {
                let mut bound =
                    definition.arguments().iter().map(|a| a.name().clone()).collect::<Vec<_>>();
                references(definition.body(), &mut bound, &mut found);
            },
            ir::ast::Definition::ValueDefinition(definition) => {
                references(definition.body(), &mut vec![], &mut found);
            },
        }
        assert!(found.iter().all(|name| !old.contains(&name.as_str())), "{:?}", found);
    }
}

#[test]
fn names_are_qualified_by_the_module() {
    assert_eq!(qualify("app", &"f".to_string()), "app.f");
}

#[test]
fn references_are_renamed_where_nothing_hides_them() {
    let mut names: Environment<Option<String>> = Environment::new();
    names.insert("x".to_string(), Some("m.x".to_string()));
    names.insert("y".to_string(), Some("m.y".to_string()));
    let expression = ir::ast::Expression::LetValues {
        definitions: vec![ir::ast::ValueDefinition::new(
            "x".to_string(),
            core_add(core_variable("x"), core_variable("y")),
            core_number(),
        )],
        expression: Box::new(core_add(core_variable("x"), core_variable("y"))),
    };

    assert_eq!(
        expression.rename_variables(&mut names),
        ir::ast::Expression::LetValues {
            definitions: vec![ir::ast::ValueDefinition::new(
                "x".to_string(),
                core_add(core_variable("m.x"), core_variable("m.y")),
                core_number(),
            )],
            expression: Box::new(core_add(core_variable("x"), core_variable("m.y"))),
        }
    );
    assert_eq!(names.len(), 2);
}

#[test]
fn main_is_emitted_as_the_entry_symbol() {
    assert_eq!(symbol("app", &"main".to_string()), "sloth_main");
    assert_eq!(symbol("app", &"f".to_string()), "app.f");
    assert_eq!(symbol("app", &"main2".to_string()), "app.main2");
}

#[test]
fn imported_main_is_not_renamed() {
    let module = ir::ast::Module::new(
        vec![ir::ast::Declaration::new("main".to_string(), core_number())],
        vec![ir::ast::Definition::ValueDefinition(ir::ast::ValueDefinition::new(
            "x".to_string(),
            core_variable("main"),
            core_number(),
        ))],
    );
    let renamed = rename_top_level_variables(&module, "m");

    assert_eq!(
        renamed,
        ir::ast::Module::new(
            vec![ir::ast::Declaration::new("main".to_string(), core_number())],
            vec![ir::ast::Definition::ValueDefinition(ir::ast::ValueDefinition::new(
                "m.x".to_string(),
                core_variable("main"),
                core_number(),
            ))],
        )
    );
}

#[test]
fn interface_is_qualified_for_the_modules_that_use_it() {
    let interface = sloth::interface::ModuleInterface::new(vec![
        ir::ast::Declaration::new("main".to_string(), core_number()),
        ir::ast::Declaration::new("f".to_string(), core_number()),
    ]);

    assert_eq!(
        interface.qualify("lib"),
        sloth::interface::ModuleInterface::new(vec![
            ir::ast::Declaration::new("sloth_main".to_string(), core_number()),
            ir::ast::Declaration::new("lib.f".to_string(), core_number()),
        ])
    );
}
