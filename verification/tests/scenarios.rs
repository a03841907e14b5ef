use sloth::ast::{Definition, Expression, FunctionDefinition, Module, Operator, VariableDefinition};
use sloth::compile::error::CompileError;
use sloth::compile::{compile, Compiled};
use sloth::debug::SourceInformation;
use sloth::interface::ModuleInterface;
use sloth::ir;
use sloth::llvm::builder::{Builder, Instruction};
use sloth::llvm::types::Type as MachineType;
use sloth::llvm::value::Value as MachineValue;
use sloth::types::{Function, Type, Value, Variable};
use std::rc::Rc;

fn at(line_number: usize, column_number: usize) -> Rc<SourceInformation> {
    Rc::new(SourceInformation::new("main.sl".to_string(), line_number, column_number))
}

fn number(value: f64) -> Expression {
    Expression::Number { value: value.to_bits(), source_information: at(1, 1) }
}

fn variable(name: &str) -> Expression {
    Expression::Variable { name: name.to_string(), source_information: at(1, 1) }
}

fn operation(operator: Operator, lhs: Expression, rhs: Expression) -> Expression {
    Expression::Operation {
        operator,
        lhs: Box::new(lhs),
        rhs: Box::new(rhs),
        source_information: at(1, 1),
    }
}

fn application(function: &str, arguments: Vec<Expression>) -> Expression {
    Expression::Application {
        function: function.to_string(),
        arguments,
        source_information: at(1, 1),
    }
}

fn unknown(id: usize) -> Type {
    Type::Variable(Variable::new(id, at(1, 1)))
}

fn number_type() -> Type {
    Type::Value(Value::Number)
}

fn function_type(arguments: Vec<Type>) -> Type {
    Type::Function(Function::new(arguments, Value::Number))
}

fn value_definition(name: &str, body: Expression, type_: Type) -> VariableDefinition {
    VariableDefinition::new(name.to_string(), body, type_, at(2, 1))
}

fn function_definition(
    name: &str,
    arguments: Vec<&str>,
    body: Expression,
    type_: Type,
) -> FunctionDefinition {
    FunctionDefinition::new(
        name.to_string(),
        arguments.into_iter().map(|argument| argument.to_string()).collect(),
        body,
        type_,
        at(3, 1),
    )
}

fn module(definitions: Vec<Definition>) -> Module {
    Module::new(definitions)
}

/// What a cell of memory holds while generated code runs.
#[derive(Clone, Debug, PartialEq)]
enum Cell {
    Undefined,
    Number(f64),
    Function(usize),
    Address(usize, Vec<usize>),
    Struct(Vec<Cell>),
}

struct Machine<'a> {
    compiled: &'a Compiled,
    memory: Vec<Cell>,
    globals: Vec<usize>,
}

fn cell_of(value: &MachineValue, machine: &Machine, arguments: &[Cell], registers: &[Cell]) -> Cell {
    match value {
        MachineValue::Real(bits) => Cell::Number(f64::from_bits(*bits)),
        MachineValue::Integer { value, .. } => Cell::Number(*value as f64),
        MachineValue::Null(_) => Cell::Undefined,
        MachineValue::Undefined(_) => Cell::Undefined,
        MachineValue::Struct(fields) => Cell::Struct(
            fields.iter().map(|field| cell_of(field, machine, arguments, registers)).collect(),
        ),
        MachineValue::SizeOf(_) => Cell::Number(0.0),
        MachineValue::Global { index, .. } => Cell::Address(machine.globals[*index], vec![]),
        MachineValue::Function { index, .. } => Cell::Function(*index),
        MachineValue::Parameter { index, .. } => arguments[*index].clone(),
        MachineValue::Register { index, .. } => registers[*index].clone(),
        MachineValue::Cast { value, .. } => cell_of(value, machine, arguments, registers),
    }
}

fn place<'b>(cell: &'b mut Cell, path: &[usize]) -> &'b mut Cell {
    let mut current = cell;
    for index in path {
        if !matches!(current, Cell::Struct(_)) {
            *current = Cell::Struct(vec![]);
        }
        match current {
            Cell::Struct(fields) => {
                while fields.len() <= *index {
                    fields.push(Cell::Undefined);
                }
                current = &mut fields[*index];
            },
            _ => unreachable!(),
        }
    }
    current
}

fn index_of(value: &MachineValue) -> usize {
    match value {
        MachineValue::Integer { value, .. } => *value as usize,
        _ => panic!("an index is a constant"),
    }
}

impl<'a> Machine<'a> {
    fn new(compiled: &'a Compiled) -> Self {
        let mut machine = Machine { compiled, memory: vec![], globals: vec![] };
        for _ in &compiled.module.globals {
            machine.globals.push(machine.memory.len());
            machine.memory.push(Cell::Undefined);
        }
        for initializer in &compiled.module.initializers {
            let cell = cell_of(&initializer.value, &machine, &[], &[]);
            let address = machine.globals[initializer.global];
            machine.memory[address] = cell;
        }
        machine
    }

    fn function_named(&self, name: &str) -> usize {
        self.compiled
            .module
            .functions
            .iter()
            .position(|function| function.name == name)
            .unwrap()
    }

    fn body(&self, function: usize) -> Option<&'a Builder> {
        self.compiled.module.bodies.iter().find(|body| body.function == function)
    }

    fn call(&mut self, function: usize, arguments: Vec<Cell>) -> Cell {
        let body = match self.body(function) {
            Some(body) => body,
            None => {
                assert_eq!(self.compiled.module.functions[function].name, "malloc");
                self.memory.push(Cell::Undefined);
                return Cell::Address(self.memory.len() - 1, vec![]);
            },
        };
        let mut registers: Vec<Cell> = vec![];
        for placed in &body.instructions {
            let result = match &placed.instruction {
                Instruction::FAdd { lhs, rhs } => self.arithmetic(lhs, rhs, &arguments, &registers, |a, b| a + b),
                Instruction::FSub { lhs, rhs } => self.arithmetic(lhs, rhs, &arguments, &registers, |a, b| a - b),
                Instruction::FMul { lhs, rhs } => self.arithmetic(lhs, rhs, &arguments, &registers, |a, b| a * b),
                Instruction::FDiv { lhs, rhs } => self.arithmetic(lhs, rhs, &arguments, &registers, |a, b| a / b),
                Instruction::Call { function, arguments: operands } => {
                    let callee = match cell_of(function, self, &arguments, &registers) {
                        Cell::Function(index) => index,
                        other => panic!("not a function: {:?}", other),
                    };
                    let operands = operands
                        .iter()
                        .map(|operand| cell_of(operand, self, &arguments, &registers))
                        .collect();
                    self.call(callee, operands)
                },
                Instruction::Load { pointer } => match cell_of(pointer, self, &arguments, &registers) {
                    Cell::Address(base, path) => place(&mut self.memory[base], &path).clone(),
                    other => panic!("not an address: {:?}", other),
                },
                Instruction::Store { value, pointer } => {
                    let stored = cell_of(value, self, &arguments, &registers);
                    match cell_of(pointer, self, &arguments, &registers) {
                        Cell::Address(base, path) => {
                            *place(&mut self.memory[base], &path) = stored;
                        },
                        other => panic!("not an address: {:?}", other),
                    }
                    Cell::Undefined
                },
                Instruction::GetElementPointer { pointer, indices } => {
                    match cell_of(pointer, self, &arguments, &registers) {
                        Cell::Address(base, mut path) => {
                            assert_eq!(index_of(&indices[0]), 0);
                            path.extend(indices[1..].iter().map(index_of));
                            Cell::Address(base, path)
                        },
                        other => panic!("not an address: {:?}", other),
                    }
                },
                Instruction::BitCast { value, .. } => cell_of(value, self, &arguments, &registers),
                Instruction::Branch { .. } => Cell::Undefined,
                Instruction::Return { value } => {
                    return cell_of(value, self, &arguments, &registers);
                },
                Instruction::ReturnVoid => {
                    return Cell::Undefined;
                },
            };
            registers.push(result);
        }
        Cell::Undefined
    }

    fn arithmetic(
        &self,
        lhs: &MachineValue,
        rhs: &MachineValue,
        arguments: &[Cell],
        registers: &[Cell],
        compute: fn(f64, f64) -> f64,
    ) -> Cell {
        match (cell_of(lhs, self, arguments, registers), cell_of(rhs, self, arguments, registers)) {
            (Cell::Number(left), Cell::Number(right)) => Cell::Number(compute(left, right)),
            other => panic!("not numbers: {:?}", other),
        }
    }

    fn global(&self, name: &str) -> Cell {
        let index = self
            .compiled
            .module
            .globals
            .iter()
            .position(|global| global.name == name)
            .unwrap();
        self.memory[self.globals[index]].clone()
    }
}

/// Runs the initializer of the module and gives what the global holds.
fn run(compiled: &Compiled, global: &str) -> Cell {
    let mut machine = Machine::new(compiled);
    let initializer = machine.function_named("sloth_init");
    machine.call(initializer, vec![]);
    machine.global(global)
}

fn compile_module(definitions: Vec<Definition>) -> Result<Compiled, CompileError> {
    compile("main", &module(definitions), &vec![])
}

#[test]
fn arithmetic() {
    let compiled = compile_module(vec![Definition::VariableDefinition(value_definition(
        "x",
        operation(
            Operator::Add,
            number(1.0),
            operation(Operator::Multiply, number(2.0), number(3.0)),
        ),
        unknown(0),
    ))])
    .unwrap();

    assert_eq!(
        compiled.interface,
        ModuleInterface::new(vec![ir::ast::Declaration::new(
            "x".to_string(),
            ir::types::Type::Value(Value::Number),
        )])
    );
    assert_eq!(run(&compiled, "main.x"), Cell::Number(7.0));
}

#[test]
fn top_level_function() {
    let compiled = compile_module(vec![
        Definition::FunctionDefinition(function_definition(
            "f",
            vec!["x"],
            operation(Operator::Add, variable("x"), number(1.0)),
            function_type(vec![unknown(0)]),
        )),
        Definition::VariableDefinition(value_definition(
            "y",
            application("f", vec![number(41.0)]),
            unknown(1),
        )),
    ])
    .unwrap();

    assert_eq!(run(&compiled, "main.y"), Cell::Number(42.0));

    let entry = compiled
        .module
        .functions
        .iter()
        .find(|function| function.name == "main.f.$entry")
        .unwrap();

    assert_eq!(
        entry.type_,
        MachineType::function(
            MachineType::double(),
            vec![MachineType::pointer(MachineType::struct_(vec![])), MachineType::double()],
        )
    );
}

fn capture_module() -> Module {
    module(vec![
        Definition::FunctionDefinition(function_definition(
            "g",
            vec!["x"],
            Expression::LetFunctions {
                definitions: vec![function_definition(
                    "h",
                    vec!["y"],
                    operation(Operator::Add, variable("x"), variable("y")),
                    function_type(vec![unknown(1)]),
                )],
                expression: Box::new(application("h", vec![number(10.0)])),
            },
            function_type(vec![unknown(0)]),
        )),
        Definition::VariableDefinition(value_definition(
            "z",
            application("g", vec![number(5.0)]),
            unknown(2),
        )),
    ])
}

#[test]
fn capture() {
    let compiled = compile("main", &capture_module(), &vec![]).unwrap();

    assert_eq!(run(&compiled, "main.z"), Cell::Number(15.0));
}

#[test]
fn captured_variable_is_the_only_slot_of_the_environment() {
    let typed = sloth::compile::type_inference::infer_types(&capture_module(), &vec![]).unwrap();
    let converted = sloth::compile::closure_converter::ClosureConverter::new()
        .convert(&typed, &vec![])
        .unwrap();

    match &converted.definitions[0] {
        ir::ast::Definition::FunctionDefinition(g) => {
            assert_eq!(g.environment, vec![]);
            match &g.body {
                ir::ast::Expression::LetFunctions { definitions, .. } => {
                    assert_eq!(
                        definitions[0].environment,
                        vec![ir::ast::Argument::new(
                            "x".to_string(),
                            ir::types::Type::Value(Value::Number)
                        )]
                    );
                },
                other => panic!("not a let of functions: {:?}", other),
            }
        },
        other => panic!("not a function: {:?}", other),
    }
}

#[test]
fn let_values() {
    let compiled = compile_module(vec![Definition::VariableDefinition(value_definition(
        "x",
        Expression::LetValues {
            definitions: vec![
                value_definition("a", number(1.0), unknown(1)),
                value_definition(
                    "b",
                    operation(Operator::Add, variable("a"), number(1.0)),
                    unknown(2),
                ),
            ],
            expression: Box::new(variable("b")),
        },
        unknown(0),
    ))])
    .unwrap();

    assert_eq!(run(&compiled, "main.x"), Cell::Number(2.0));
}

#[test]
fn let_functions() {
    let compiled = compile_module(vec![Definition::VariableDefinition(value_definition(
        "x",
        Expression::LetFunctions {
            definitions: vec![
                function_definition("f", vec!["x"], variable("x"), function_type(vec![unknown(1)])),
                function_definition(
                    "g",
                    vec!["x"],
                    application("f", vec![variable("x")]),
                    function_type(vec![unknown(2)]),
                ),
            ],
            expression: Box::new(application("g", vec![number(3.0)])),
        },
        unknown(0),
    ))])
    .unwrap();

    assert_eq!(run(&compiled, "main.x"), Cell::Number(3.0));
}

#[test]
fn mutually_recursive_functions_compile() {
    let compiled = compile_module(vec![Definition::VariableDefinition(value_definition(
        "x",
        Expression::LetFunctions {
            definitions: vec![
                function_definition(
                    "even",
                    vec!["n"],
                    application("odd", vec![operation(Operator::Subtract, variable("n"), number(1.0))]),
                    function_type(vec![unknown(1)]),
                ),
                function_definition(
                    "odd",
                    vec!["n"],
                    application("even", vec![operation(Operator::Subtract, variable("n"), number(1.0))]),
                    function_type(vec![unknown(2)]),
                ),
            ],
            expression: Box::new(number(0.0)),
        },
        unknown(0),
    ))])
    .unwrap();

    let initializer = compiled
        .module
        .functions
        .iter()
        .position(|function| function.name == "main.x.$init")
        .unwrap();
    let body = compiled.module.bodies.iter().find(|body| body.function == initializer).unwrap();
    let allocations: Vec<usize> = body
        .instructions
        .iter()
        .enumerate()
        .filter(|(_, placed)| matches!(
            &placed.instruction,
            Instruction::Call { function: MachineValue::Function { index, .. }, .. }
                if compiled.module.functions[*index].name == "malloc"
        ))
        .map(|(index, _)| index)
        .collect();
    let first_store = body
        .instructions
        .iter()
        .position(|placed| matches!(placed.instruction, Instruction::Store { .. }))
        .unwrap();

    assert_eq!(allocations.len(), 2);
    assert!(allocations.iter().all(|allocation| *allocation < first_store));
    assert_eq!(run(&compiled, "main.x"), Cell::Number(0.0));
}

#[test]
fn type_error() {
    let plus = at(7, 9);
    let result = compile_module(vec![
        Definition::FunctionDefinition(function_definition(
            "id",
            vec!["y"],
            variable("y"),
            function_type(vec![unknown(0)]),
        )),
        Definition::VariableDefinition(value_definition(
            "x",
            Expression::Operation {
                operator: Operator::Add,
                lhs: Box::new(number(1.0)),
                rhs: Box::new(variable("id")),
                source_information: plus.clone(),
            },
            unknown(1),
        )),
    ]);

    match result {
        Err(CompileError::TypeMismatch { expected, actual, source_information }) => {
            assert_eq!(expected, number_type());
            assert!(matches!(actual, Type::Function(_)));
            assert_eq!(source_information, plus);
        },
        other => panic!("no type mismatch: {:?}", other.map(|_| ())),
    }
}

#[test]
fn occurs_check() {
    let result = compile_module(vec![Definition::FunctionDefinition(function_definition(
        "f",
        vec!["g"],
        application("g", vec![variable("g")]),
        function_type(vec![unknown(0)]),
    ))]);

    match result {
        Err(CompileError::OccursCheck { variable_id, type_, .. }) => {
            assert_eq!(variable_id, 0);
            assert_eq!(type_, function_type(vec![unknown(0)]));
        },
        other => panic!("no occurs check: {:?}", other.map(|_| ())),
    }
}

#[test]
fn function_that_is_its_own_result_is_rejected() {
    let result = compile_module(vec![Definition::FunctionDefinition(function_definition(
        "f",
        vec!["x"],
        variable("f"),
        function_type(vec![unknown(0)]),
    ))]);

    match result {
        Err(CompileError::TypeMismatch { expected, actual, .. }) => {
            assert_eq!(expected, number_type());
            assert_eq!(actual, function_type(vec![unknown(0)]));
        },
        other => panic!("no type mismatch: {:?}", other.map(|_| ())),
    }
}

#[test]
fn division_by_zero_is_emitted() {
    let compiled = compile_module(vec![Definition::VariableDefinition(value_definition(
        "x",
        operation(Operator::Divide, number(1.0), number(0.0)),
        unknown(0),
    ))])
    .unwrap();

    assert!(compiled.module.bodies.iter().any(|body| body
        .instructions
        .iter()
        .any(|placed| matches!(placed.instruction, Instruction::FDiv { .. }))));
    assert_eq!(run(&compiled, "main.x"), Cell::Number(f64::INFINITY));
}

#[test]
fn function_without_arguments_takes_the_environment() {
    let compiled = compile_module(vec![
        Definition::FunctionDefinition(function_definition(
            "one",
            vec![],
            number(1.0),
            function_type(vec![]),
        )),
        Definition::VariableDefinition(value_definition(
            "x",
            application("one", vec![]),
            unknown(0),
        )),
    ])
    .unwrap();
    let entry = compiled
        .module
        .functions
        .iter()
        .find(|function| function.name == "main.one.$entry")
        .unwrap();

    assert_eq!(
        entry.type_,
        MachineType::function(
            MachineType::double(),
            vec![MachineType::pointer(MachineType::struct_(vec![]))],
        )
    );
    assert_eq!(run(&compiled, "main.x"), Cell::Number(1.0));
}

#[test]
fn main_is_renamed() {
    let compiled = compile_module(vec![Definition::VariableDefinition(value_definition(
        "main",
        number(42.0),
        unknown(0),
    ))])
    .unwrap();

    assert!(compiled.module.globals.iter().any(|global| global.name == "sloth_main"));
    assert!(compiled.module.functions.iter().any(|function| function.name == "sloth_main.$init"));
    assert_eq!(compiled.interface.variables[0].name, "main");
    assert_eq!(run(&compiled, "sloth_main"), Cell::Number(42.0));
}

#[test]
fn compiling_twice_gives_the_same() {
    let first = compile("main", &capture_module(), &vec![]).unwrap();
    let second = compile("main", &capture_module(), &vec![]).unwrap();

    assert_eq!(first.module, second.module);
    assert_eq!(first.interface, second.interface);
}

#[test]
fn unbound_variable() {
    let result = compile_module(vec![Definition::VariableDefinition(value_definition(
        "x",
        variable("y"),
        unknown(0),
    ))]);

    match result {
        Err(CompileError::UnboundVariable { name, .. }) => assert_eq!(name, "y"),
        other => panic!("no unbound variable: {:?}", other.map(|_| ())),
    }
}

#[test]
fn ambiguous_type() {
    let result = compile_module(vec![Definition::FunctionDefinition(function_definition(
        "f",
        vec!["x"],
        number(1.0),
        function_type(vec![unknown(0)]),
    ))]);

    match result {
        Err(CompileError::AmbiguousType { source_information }) => {
            assert_eq!(source_information, at(3, 1));
        },
        other => panic!("no ambiguous type: {:?}", other.map(|_| ())),
    }
}

#[test]
fn wrong_number_of_arguments() {
    let result = compile_module(vec![
        Definition::FunctionDefinition(function_definition(
            "f",
            vec!["x"],
            variable("x"),
            function_type(vec![number_type()]),
        )),
        Definition::VariableDefinition(value_definition(
            "y",
            application("f", vec![number(1.0), number(2.0)]),
            number_type(),
        )),
    ]);

    match result {
        Err(CompileError::TypeMismatch { expected, actual, .. }) => {
            assert_eq!(expected, function_type(vec![number_type()]));
            assert_eq!(actual, function_type(vec![number_type(), number_type()]));
        },
        other => panic!("no type mismatch: {:?}", other.map(|_| ())),
    }
}

#[test]
fn imported_names_are_used_as_they_are() {
    let interface = ModuleInterface::new(vec![ir::ast::Declaration::new(
        "other.one".to_string(),
        ir::types::Type::Value(Value::Number),
    )]);
    let compiled = compile(
        "main",
        &module(vec![Definition::VariableDefinition(value_definition(
            "x",
            operation(Operator::Add, variable("other.one"), number(1.0)),
            unknown(0),
        ))]),
        &vec![interface],
    )
    .unwrap();

    assert_eq!(compiled.module.globals[0].name, "other.one");
    assert_eq!(compiled.module.globals[1].name, "main.x");
}

#[test]
fn reference_to_an_imported_main_is_left_as_it_is() {
    let interface = ModuleInterface::new(vec![ir::ast::Declaration::new(
        "main".to_string(),
        ir::types::Type::Value(Value::Number),
    )]);
    let compiled = compile(
        "m",
        &module(vec![Definition::VariableDefinition(value_definition(
            "x",
            operation(Operator::Add, variable("main"), number(1.0)),
            unknown(0),
        ))]),
        &vec![interface],
    )
    .unwrap();

    assert_eq!(compiled.module.globals[0].name, "main");
    assert_eq!(compiled.module.globals[1].name, "m.x");
    assert!(compiled.module.globals.iter().all(|global| global.name != "sloth_main"));
    assert_eq!(
        compiled.module.bodies[0].instructions[0].instruction,
        Instruction::Load {
            pointer: MachineValue::Global { index: 0, type_: MachineType::double() }
        }
    );
}

#[test]
fn local_name_hides_a_top_level_name_where_it_is_captured() {
    let compiled = compile_module(vec![
        Definition::VariableDefinition(value_definition("x", number(1.0), unknown(0))),
        Definition::VariableDefinition(value_definition(
            "y",
            Expression::LetValues {
                definitions: vec![value_definition("x", number(2.0), unknown(1))],
                expression: Box::new(Expression::LetFunctions {
                    definitions: vec![function_definition(
                        "f",
                        vec!["a"],
                        operation(Operator::Add, variable("x"), variable("a")),
                        function_type(vec![unknown(2)]),
                    )],
                    expression: Box::new(application("f", vec![number(1.0)])),
                }),
            },
            unknown(3),
        )),
    ])
    .unwrap();

    assert_eq!(run(&compiled, "main.x"), Cell::Number(1.0));
    assert_eq!(run(&compiled, "main.y"), Cell::Number(3.0));
}

#[test]
fn top_level_name_is_found_inside_a_local_function() {
    let compiled = compile_module(vec![
        Definition::VariableDefinition(value_definition("k", number(10.0), unknown(0))),
        Definition::FunctionDefinition(function_definition(
            "g",
            vec!["a"],
            Expression::LetFunctions {
                definitions: vec![function_definition(
                    "h",
                    vec!["b"],
                    operation(
                        Operator::Add,
                        operation(Operator::Add, variable("a"), variable("b")),
                        variable("k"),
                    ),
                    function_type(vec![unknown(2)]),
                )],
                expression: Box::new(application("h", vec![number(2.0)])),
            },
            function_type(vec![unknown(1)]),
        )),
        Definition::VariableDefinition(value_definition(
            "z",
            application("g", vec![number(5.0)]),
            unknown(3),
        )),
    ])
    .unwrap();

    assert_eq!(run(&compiled, "main.z"), Cell::Number(17.0));
}
