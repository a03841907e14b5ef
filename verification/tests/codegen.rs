use sloth::ast::Operator;
use sloth::environment::Environment;
use sloth::ir::ast::{Argument, Definition, Expression, FunctionDefinition, Module, ValueDefinition};
use sloth::ir::compile::error::CompileError;
use sloth::ir::compile::expression_compiler::{is_closure_pointer_type, ExpressionCompiler};
use sloth::ir::compile::function_compiler::FunctionCompiler;
use sloth::ir::compile::module_compiler::ModuleCompiler;
use sloth::ir::compile::type_compiler::TypeCompiler;
use sloth::ir::types::{Function, Type, Value as ValueType};
use sloth::llvm::builder::{Builder, Instruction, Placed};
use sloth::llvm::module::{Global, Initializer, Module as MachineModule};
use sloth::llvm::types::{Type as MachineType, TypeKind};
use sloth::llvm::value::{
    const_bit_cast, const_int, const_null, const_real, const_struct, get_param, get_undef, Value,
};

fn number() -> Type {
    Type::Value(ValueType::Number)
}

fn function(arguments: Vec<Type>) -> Function {
    Function::new(arguments, ValueType::Number)
}

fn environment_pointer() -> MachineType {
    MachineType::pointer(MachineType::struct_(vec![]))
}

fn entry_type(arguments: Vec<MachineType>) -> MachineType {
    let mut all = vec![environment_pointer()];
    all.extend(arguments);
    MachineType::function(MachineType::double(), all)
}

fn closure_pointer(arguments: Vec<MachineType>) -> MachineType {
    MachineType::pointer(MachineType::struct_(vec![
        MachineType::pointer(entry_type(arguments)),
        MachineType::struct_(vec![]),
    ]))
}

fn index(value: u64) -> Value {
    const_int(32, value)
}

fn register(place: usize, type_: MachineType) -> Value {
    Value::Register { index: place, type_ }
}

fn placed(instruction: Instruction) -> Placed {
    Placed { block: 0, instruction }
}

#[test]
fn numbers_are_doubles() {
    let compiler = TypeCompiler::new();

    assert_eq!(compiler.compile(&number()), MachineType::double());
    assert_eq!(compiler.compile_value(&ValueType::Number), MachineType::double());
}

#[test]
fn functions_are_pointers_to_closures() {
    let compiler = TypeCompiler::new();
    let type_ = function(vec![number(), Type::Function(function(vec![number()]))]);

    assert_eq!(
        compiler.compile_function(&type_),
        entry_type(vec![MachineType::double(), closure_pointer(vec![MachineType::double()])])
    );
    assert_eq!(
        compiler.compile(&Type::Function(type_.clone())),
        closure_pointer(vec![MachineType::double(), closure_pointer(vec![MachineType::double()])])
    );
    assert_eq!(
        MachineType::pointer(compiler.compile_unsized_closure(&type_)),
        compiler.compile(&Type::Function(type_))
    );
}

#[test]
fn entry_of_a_function_without_arguments_takes_the_environment() {
    assert_eq!(TypeCompiler::new().compile_function(&function(vec![])), entry_type(vec![]));
}

#[test]
fn environments_hold_what_is_captured() {
    let compiler = TypeCompiler::new();
    let captured = vec![
        Argument::new("a".to_string(), number()),
        Argument::new("f".to_string(), Type::Function(function(vec![]))),
    ];

    assert_eq!(compiler.compile_unsized_environment(), MachineType::struct_(vec![]));
    assert_eq!(
        compiler.compile_environment(&captured),
        MachineType::struct_(vec![MachineType::double(), closure_pointer(vec![])])
    );
    assert_eq!(
        compiler.compile_closure(&FunctionDefinition::new(
            "g".to_string(),
            captured,
            vec![Argument::new("x".to_string(), number())],
            Expression::Variable("x".to_string()),
            ValueType::Number,
        )),
        MachineType::struct_(vec![
            MachineType::pointer(entry_type(vec![MachineType::double()])),
            MachineType::struct_(vec![MachineType::double(), closure_pointer(vec![])]),
        ])
    );
}

#[test]
fn machine_types_have_kinds() {
    assert_eq!(MachineType::void().kind(), TypeKind::Void);
    assert_eq!(MachineType::double().kind(), TypeKind::Double);
    assert_eq!(MachineType::i1().kind(), TypeKind::Integer);
    assert_eq!(MachineType::i8().kind(), TypeKind::Integer);
    assert_eq!(MachineType::i32().kind(), TypeKind::Integer);
    assert_eq!(MachineType::i64().kind(), TypeKind::Integer);
    assert_eq!(MachineType::token().kind(), TypeKind::Token);
    assert_eq!(MachineType::generic_pointer().kind(), TypeKind::Pointer);
    assert_eq!(MachineType::struct_(vec![]).kind(), TypeKind::Struct);
    assert_eq!(MachineType::function(MachineType::void(), vec![]).kind(), TypeKind::Function);
    assert_eq!(MachineType::generic_pointer().element(), &MachineType::i8());
    assert_eq!(MachineType::double().size(), Value::SizeOf(MachineType::double()));
    assert!(is_closure_pointer_type(&closure_pointer(vec![])));
    assert!(!is_closure_pointer_type(&MachineType::pointer(MachineType::double())));
}

#[test]
fn machine_values_have_types() {
    let function_type = entry_type(vec![MachineType::double()]);
    let function = Value::Function { index: 3, type_: function_type.clone() };

    assert_eq!(const_real(1.5f64.to_bits()).type_(), MachineType::double());
    assert_eq!(index(7).type_(), MachineType::i32());
    assert_eq!(const_null(MachineType::generic_pointer()).type_(), MachineType::generic_pointer());
    assert_eq!(get_undef(MachineType::double()).type_(), MachineType::double());
    assert_eq!(
        const_struct(vec![index(0), const_real(0)]).type_(),
        MachineType::struct_(vec![MachineType::i32(), MachineType::double()])
    );
    assert_eq!(MachineType::double().size().type_(), MachineType::i64());
    assert_eq!(function.type_(), MachineType::pointer(function_type));
    assert_eq!(
        Value::Global { index: 0, type_: MachineType::double() }.type_(),
        MachineType::pointer(MachineType::double())
    );
    assert_eq!(
        get_param(&function, 1),
        Value::Parameter { function: 3, index: 1, type_: MachineType::double() }
    );
    assert_eq!(get_param(&function, 0).type_(), environment_pointer());
    assert_eq!(function.duplicate(), function);
}

fn positioned(module: &mut MachineModule) -> Builder {
    let function =
        module.add_function("f".to_string(), MachineType::function(MachineType::void(), vec![]));
    let mut builder = Builder::new(&function);
    let block = builder.append_basic_block("entry");
    builder.position_at_end(block);
    builder
}

#[test]
fn builder_records_instructions_in_order() {
    let mut module = MachineModule::new();
    let mut builder = positioned(&mut module);
    let one = const_real(1f64.to_bits());
    let two = const_real(2f64.to_bits());

    let sum = builder.build_fadd(&one, &two);
    let difference = builder.build_fsub(&sum, &one);
    let product = builder.build_fmul(&difference, &two);
    let quotient = builder.build_fdiv(&product, &one);
    builder.build_ret(&quotient);

    assert_eq!(sum, register(0, MachineType::double()));
    assert_eq!(quotient, register(3, MachineType::double()));
    assert_eq!(builder.blocks, vec!["entry"]);
    assert_eq!(
        builder.instructions,
        vec![
            placed(Instruction::FAdd { lhs: one.clone(), rhs: two.clone() }),
            placed(Instruction::FSub { lhs: sum, rhs: one.clone() }),
            placed(Instruction::FMul { lhs: difference, rhs: two }),
            placed(Instruction::FDiv { lhs: product, rhs: one }),
            placed(Instruction::Return { value: quotient }),
        ]
    );
}

#[test]
fn builder_emits_into_the_block_that_it_is_positioned_at() {
    let mut module = MachineModule::new();
    let mut builder = positioned(&mut module);
    let second = builder.append_basic_block("next");

    builder.build_br(second);
    builder.position_at_end(second);
    builder.build_ret_void();

    assert_eq!(second, 1);
    assert_eq!(
        builder.instructions,
        vec![
            Placed { block: 0, instruction: Instruction::Branch { block: 1 } },
            Placed { block: 1, instruction: Instruction::ReturnVoid },
        ]
    );
}

#[test]
fn builder_gives_addresses_their_types() {
    let mut module = MachineModule::new();
    let mut builder = positioned(&mut module);
    let closure = Value::Global {
        index: 0,
        type_: MachineType::struct_(vec![
            MachineType::pointer(entry_type(vec![])),
            MachineType::struct_(vec![MachineType::double(), MachineType::i32()]),
        ]),
    };

    let entry_address = builder.build_gep(&closure, vec![index(0), index(0)]);
    let slot = builder.build_gep(&closure, vec![index(0), index(1), index(1)]);
    let entry = builder.build_load(&entry_address);
    let result = builder.build_call(&entry, vec![]);
    builder.build_store(&index(5), &slot);
    let cast = builder.build_bit_cast(&slot, MachineType::generic_pointer());

    assert_eq!(
        entry_address.type_(),
        MachineType::pointer(MachineType::pointer(entry_type(vec![])))
    );
    assert_eq!(slot.type_(), MachineType::pointer(MachineType::i32()));
    assert_eq!(entry.type_(), MachineType::pointer(entry_type(vec![])));
    assert_eq!(result, register(3, MachineType::double()));
    assert_eq!(cast, register(5, MachineType::generic_pointer()));
}

#[test]
fn intrinsics_are_called_by_name() {
    let mut module = MachineModule::new();
    module.declare_intrinsics();
    let mut builder = positioned(&mut module);

    let id = builder.build_coro_id(&module);
    let size = builder.build_coro_size_i32(&module);
    let memory = builder.build_malloc(&module, &size);
    let handle = builder.build_coro_begin(&module, &id, &memory);
    let frame = builder.build_coro_free(&module, &id, &handle);
    builder.build_free(&module, &frame);
    builder.build_coro_end(&module, &handle);

    let names: Vec<&str> = module.functions.iter().map(|function| function.name.as_str()).collect();
    assert_eq!(
        names,
        vec![
            "llvm.coro.id",
            "llvm.coro.size.i32",
            "llvm.coro.begin",
            "llvm.coro.end",
            "llvm.coro.free",
            "malloc",
            "free",
            "f",
        ]
    );
    assert_eq!(id, register(0, MachineType::token()));
    assert_eq!(size, register(1, MachineType::i32()));
    assert_eq!(memory, register(2, MachineType::generic_pointer()));
    assert_eq!(handle, register(3, MachineType::generic_pointer()));
    assert_eq!(frame, register(4, MachineType::generic_pointer()));
    assert_eq!(
        builder.instructions[0],
        placed(Instruction::Call {
            function: module.get_named_function(&"llvm.coro.id".to_string()).unwrap(),
            arguments: vec![
                index(0),
                const_null(MachineType::generic_pointer()),
                const_null(MachineType::generic_pointer()),
                const_null(MachineType::generic_pointer()),
            ],
        })
    );
    assert_eq!(
        builder.instructions[6],
        placed(Instruction::Call {
            function: module.get_named_function(&"llvm.coro.end".to_string()).unwrap(),
            arguments: vec![handle, const_int(1, 0)],
        })
    );
    assert_eq!(module.get_named_function(&"missing".to_string()), None);
}

#[test]
fn first_function_of_a_name_is_found() {
    let mut module = MachineModule::new();
    let first = module.add_function("f".to_string(), entry_type(vec![]));
    module.add_function("f".to_string(), entry_type(vec![MachineType::double()]));

    assert_eq!(module.get_named_function(&"f".to_string()), Some(first));
}

#[test]
fn names_of_entries_and_initializers_are_generated() {
    assert_eq!(ModuleCompiler::generate_initializer_name(&"m.x".to_string()), "m.x.$init");
    assert_eq!(ModuleCompiler::generate_closure_entry_name(&"m.f".to_string()), "m.f.$entry");
    assert_eq!(FunctionCompiler::generate_closure_entry_name(&"h".to_string()), "h.$entry");
}

fn expression_in(
    expression: &Expression,
    globals: &Environment<Value>,
    variables: &mut Environment<Value>,
) -> (Result<Value, CompileError>, Builder, MachineModule) {
    let mut module = MachineModule::new();
    module.declare_intrinsics();
    let mut builder = positioned(&mut module);
    let type_compiler = TypeCompiler::new();
    let function_compiler = FunctionCompiler::new(globals, &type_compiler);
    let compiler = ExpressionCompiler::new(&function_compiler, &type_compiler);
    let result = compiler.compile(expression, variables, &mut builder, &mut module);

    (result, builder, module)
}

#[test]
fn global_numbers_are_loaded_and_locals_are_not() {
    let mut globals = Environment::new();
    let global = Value::Global { index: 0, type_: MachineType::double() };
    globals.insert("x".to_string(), global.clone());
    let mut locals = Environment::new();
    let local = Value::Parameter { function: 7, index: 1, type_: MachineType::double() };
    locals.insert("y".to_string(), local.clone());

    let (result, builder, _) = expression_in(
        &Expression::Operation {
            operator: Operator::Subtract,
            lhs: Box::new(Expression::Variable("x".to_string())),
            rhs: Box::new(Expression::Variable("y".to_string())),
        },
        &globals,
        &mut locals,
    );

    assert_eq!(result, Ok(register(1, MachineType::double())));
    assert_eq!(
        builder.instructions,
        vec![
            placed(Instruction::Load { pointer: global }),
            placed(Instruction::FSub { lhs: register(0, MachineType::double()), rhs: local }),
        ]
    );
    assert_eq!(locals.len(), 1);
}

#[test]
fn local_binding_hides_global_one() {
    let mut globals = Environment::new();
    globals.insert("x".to_string(), Value::Global { index: 0, type_: MachineType::double() });
    let mut locals = Environment::new();
    locals.insert("x".to_string(), const_real(3f64.to_bits()));

    let (result, builder, _) =
        expression_in(&Expression::Variable("x".to_string()), &globals, &mut locals);

    assert_eq!(result, Ok(const_real(3f64.to_bits())));
    assert_eq!(builder.instructions, vec![]);
}

#[test]
fn application_calls_the_entry_with_the_environment() {
    let mut globals = Environment::new();
    let closure = Value::Parameter {
        function: 7,
        index: 1,
        type_: closure_pointer(vec![MachineType::double()]),
    };
    let mut locals = Environment::new();
    locals.insert("f".to_string(), closure.clone());
    globals.insert("unused".to_string(), const_real(0));

    let (result, builder, _) = expression_in(
        &Expression::Application {
            function: "f".to_string(),
            arguments: vec![Expression::Number(2f64.to_bits())],
        },
        &globals,
        &mut locals,
    );
    let entry = MachineType::pointer(entry_type(vec![MachineType::double()]));
    let environment = register(0, environment_pointer());

    assert_eq!(result, Ok(register(3, MachineType::double())));
    assert_eq!(
        builder.instructions,
        vec![
            placed(Instruction::GetElementPointer {
                pointer: closure.clone(),
                indices: vec![index(0), index(1)],
            }),
            placed(Instruction::GetElementPointer {
                pointer: closure,
                indices: vec![index(0), index(0)],
            }),
            placed(Instruction::Load { pointer: register(1, MachineType::pointer(entry.clone())) }),
            placed(Instruction::Call {
                function: register(2, entry),
                arguments: vec![environment, const_real(2f64.to_bits())],
            }),
        ]
    );
}

#[test]
fn closures_are_allocated_and_then_filled() {
    let globals = Environment::new();
    let mut locals = Environment::new();
    let captured = Value::Parameter { function: 7, index: 1, type_: MachineType::double() };
    locals.insert("a".to_string(), captured.clone());
    let definition = FunctionDefinition::new(
        "g".to_string(),
        vec![Argument::new("a".to_string(), number())],
        vec![Argument::new("x".to_string(), number())],
        Expression::Operation {
            operator: Operator::Add,
            lhs: Box::new(Expression::Variable("a".to_string())),
            rhs: Box::new(Expression::Variable("x".to_string())),
        },
        ValueType::Number,
    );
    let sized = TypeCompiler::new().compile_closure(&definition);

    let (result, builder, module) = expression_in(
        &Expression::LetFunctions {
            definitions: vec![definition],
            expression: Box::new(Expression::Variable("g".to_string())),
        },
        &globals,
        &mut locals,
    );
    let malloc = module.get_named_function(&"malloc".to_string()).unwrap();
    let memory = register(0, MachineType::generic_pointer());
    let opaque = register(1, closure_pointer(vec![MachineType::double()]));
    let filled = register(2, MachineType::pointer(sized.clone()));
    let entry_type = entry_type(vec![MachineType::double()]);
    let entry = Value::Function { index: 8, type_: entry_type.clone() };

    assert_eq!(result, Ok(opaque));
    assert_eq!(
        builder.instructions,
        vec![
            placed(Instruction::Call { function: malloc, arguments: vec![sized.size()] }),
            placed(Instruction::BitCast {
                value: memory.clone(),
                type_: closure_pointer(vec![MachineType::double()]),
            }),
            placed(Instruction::BitCast {
                value: memory,
                type_: MachineType::pointer(sized),
            }),
            placed(Instruction::GetElementPointer {
                pointer: filled.clone(),
                indices: vec![index(0), index(0)],
            }),
            placed(Instruction::Store {
                value: entry,
                pointer: register(3, MachineType::pointer(MachineType::pointer(entry_type))),
            }),
            placed(Instruction::GetElementPointer {
                pointer: filled,
                indices: vec![index(0), index(1), index(0)],
            }),
            placed(Instruction::Store {
                value: captured,
                pointer: register(5, MachineType::pointer(MachineType::double())),
            }),
        ]
    );
    assert_eq!(module.functions[8].name, "g.$entry");
    assert_eq!(locals.len(), 1);

    let body = &module.bodies[0];
    let environment = MachineType::pointer(MachineType::struct_(vec![MachineType::double()]));
    assert_eq!(body.function, 8);
    assert_eq!(
        body.instructions,
        vec![
            placed(Instruction::BitCast {
                value: Value::Parameter { function: 8, index: 0, type_: environment_pointer() },
                type_: environment.clone(),
            }),
            placed(Instruction::GetElementPointer {
                pointer: register(0, environment),
                indices: vec![index(0), index(0)],
            }),
            placed(Instruction::Load {
                pointer: register(1, MachineType::pointer(MachineType::double())),
            }),
            placed(Instruction::FAdd {
                lhs: register(2, MachineType::double()),
                rhs: Value::Parameter { function: 8, index: 1, type_: MachineType::double() },
            }),
            placed(Instruction::Return { value: register(3, MachineType::double()) }),
        ]
    );
}

#[test]
fn unbound_variable_is_not_found() {
    let globals = Environment::new();

    let (result, _, _) = expression_in(
        &Expression::Variable("x".to_string()),
        &globals,
        &mut Environment::new(),
    );

    assert_eq!(result, Err(CompileError::VariableNotFound));
    assert_eq!(CompileError::VariableNotFound.description(), "variable not found");
}

#[test]
fn captured_variable_has_to_be_bound() {
    let globals = Environment::new();

    let (result, _, _) = expression_in(
        &Expression::LetFunctions {
            definitions: vec![FunctionDefinition::new(
                "g".to_string(),
                vec![Argument::new("a".to_string(), number())],
                vec![],
                Expression::Number(0),
                ValueType::Number,
            )],
            expression: Box::new(Expression::Number(0)),
        },
        &globals,
        &mut Environment::new(),
    );

    assert_eq!(result, Err(CompileError::VariableNotFound));
}

#[test]
fn number_cannot_be_applied() {
    let globals = Environment::new();
    let mut locals = Environment::new();
    locals.insert("x".to_string(), const_real(0));

    let (result, _, _) = expression_in(
        &Expression::Application { function: "x".to_string(), arguments: vec![] },
        &globals,
        &mut locals,
    );

    assert_eq!(result, Err(CompileError::NotCallable));
    assert_eq!(CompileError::NotCallable.description(), "applied value is not a function");
}

#[test]
fn module_is_compiled_to_globals_and_functions() {
    let module = Module::new(
        vec![],
        vec![
            Definition::FunctionDefinition(FunctionDefinition::new(
                "m.f".to_string(),
                vec![],
                vec![Argument::new("x".to_string(), number())],
                Expression::Variable("x".to_string()),
                ValueType::Number,
            )),
            Definition::ValueDefinition(ValueDefinition::new(
                "m.y".to_string(),
                Expression::Number(1f64.to_bits()),
                number(),
            )),
        ],
    );
    let compiled = ModuleCompiler::new(&module).compile().unwrap();
    let entry = Value::Function { index: 7, type_: entry_type(vec![MachineType::double()]) };
    let initializer =
        Value::Function { index: 8, type_: MachineType::function(MachineType::void(), vec![]) };
    let closure =
        MachineType::struct_(vec![MachineType::pointer(entry_type(vec![MachineType::double()]))]);

    assert_eq!(
        compiled.globals,
        vec![
            Global { name: "m.f".to_string(), type_: closure },
            Global { name: "m.y".to_string(), type_: MachineType::double() },
        ]
    );
    assert_eq!(
        compiled.initializers,
        vec![
            Initializer { global: 0, value: const_struct(vec![entry]) },
            Initializer { global: 1, value: get_undef(MachineType::double()) },
        ]
    );
    let names: Vec<&str> =
        compiled.functions[7..].iter().map(|function| function.name.as_str()).collect();
    assert_eq!(names, vec!["m.f.$entry", "m.y.$init", "sloth_init"]);
    assert_eq!(
        compiled.bodies[0].instructions,
        vec![placed(Instruction::Return {
            value: Value::Parameter { function: 7, index: 1, type_: MachineType::double() },
        })]
    );
    assert_eq!(
        compiled.bodies[1].instructions,
        vec![
            placed(Instruction::Store {
                value: const_real(1f64.to_bits()),
                pointer: Value::Global { index: 1, type_: MachineType::double() },
            }),
            placed(Instruction::ReturnVoid),
        ]
    );
    assert_eq!(compiled.bodies[2].function, 9);
    assert_eq!(
        compiled.bodies[2].instructions,
        vec![
            placed(Instruction::Call { function: initializer, arguments: vec![] }),
            placed(Instruction::ReturnVoid),
        ]
    );
}

#[test]
fn entry_is_loaded_before_the_arguments_are_compiled() {
    let mut globals = Environment::new();
    let number_by_address = Value::Global { index: 0, type_: MachineType::double() };
    globals.insert("x".to_string(), number_by_address.clone());
    let closure = Value::Parameter {
        function: 7,
        index: 1,
        type_: closure_pointer(vec![MachineType::double()]),
    };
    let mut locals = Environment::new();
    locals.insert("f".to_string(), closure.clone());

    let (result, builder, _) = expression_in(
        &Expression::Application {
            function: "f".to_string(),
            arguments: vec![Expression::Variable("x".to_string())],
        },
        &globals,
        &mut locals,
    );
    let entry = MachineType::pointer(entry_type(vec![MachineType::double()]));

    assert_eq!(result, Ok(register(4, MachineType::double())));
    assert_eq!(
        builder.instructions,
        vec![
            placed(Instruction::GetElementPointer {
                pointer: closure.clone(),
                indices: vec![index(0), index(1)],
            }),
            placed(Instruction::GetElementPointer {
                pointer: closure,
                indices: vec![index(0), index(0)],
            }),
            placed(Instruction::Load { pointer: register(1, MachineType::pointer(entry.clone())) }),
            placed(Instruction::Load { pointer: number_by_address }),
            placed(Instruction::Call {
                function: register(2, entry),
                arguments: vec![
                    register(0, environment_pointer()),
                    register(3, MachineType::double()),
                ],
            }),
        ]
    );
}

#[test]
fn no_call_is_emitted_where_an_argument_is_unbound() {
    let globals = Environment::new();
    let closure = Value::Parameter {
        function: 7,
        index: 1,
        type_: closure_pointer(vec![MachineType::double(), MachineType::double()]),
    };
    let mut locals = Environment::new();
    locals.insert("f".to_string(), closure.clone());

    let (result, builder, _) = expression_in(
        &Expression::Application {
            function: "f".to_string(),
            arguments: vec![Expression::Number(1f64.to_bits()), Expression::Variable("u".to_string())],
        },
        &globals,
        &mut locals,
    );
    let entry =
        MachineType::pointer(entry_type(vec![MachineType::double(), MachineType::double()]));

    assert_eq!(result, Err(CompileError::VariableNotFound));
    assert_eq!(
        builder.instructions,
        vec![
            placed(Instruction::GetElementPointer {
                pointer: closure.clone(),
                indices: vec![index(0), index(1)],
            }),
            placed(Instruction::GetElementPointer {
                pointer: closure,
                indices: vec![index(0), index(0)],
            }),
            placed(Instruction::Load { pointer: register(1, MachineType::pointer(entry)) }),
        ]
    );
}

#[test]
fn no_slot_is_stored_where_a_captured_variable_is_unbound() {
    let globals = Environment::new();
    let mut locals = Environment::new();
    locals.insert("a".to_string(), const_real(1f64.to_bits()));

    let (result, builder, module) = expression_in(
        &Expression::LetFunctions {
            definitions: vec![FunctionDefinition::new(
                "g".to_string(),
                vec![
                    Argument::new("a".to_string(), number()),
                    Argument::new("b".to_string(), number()),
                ],
                vec![],
                Expression::Number(0),
                ValueType::Number,
            )],
            expression: Box::new(Expression::Variable("a".to_string())),
        },
        &globals,
        &mut locals,
    );

    assert_eq!(result, Err(CompileError::VariableNotFound));
    let stores: Vec<&Placed> = builder
        .instructions
        .iter()
        .filter(|placed| matches!(placed.instruction, Instruction::Store { .. }))
        .collect();
    assert_eq!(stores.len(), 1);
    assert!(matches!(
        &stores[0].instruction,
        Instruction::Store { value: Value::Function { .. }, .. }
    ));
    assert_eq!(module.functions.last().unwrap().name, "g.$entry");
}

#[test]
fn name_of_a_top_level_function_is_its_global_taken_as_a_closure() {
    let module = Module::new(
        vec![],
        vec![
            Definition::FunctionDefinition(FunctionDefinition::new(
                "m.f".to_string(),
                vec![],
                vec![Argument::new("x".to_string(), number())],
                Expression::Variable("x".to_string()),
                ValueType::Number,
            )),
            Definition::ValueDefinition(ValueDefinition::new(
                "m.y".to_string(),
                Expression::Application {
                    function: "m.f".to_string(),
                    arguments: vec![Expression::Number(41f64.to_bits())],
                },
                number(),
            )),
        ],
    );
    let compiled = ModuleCompiler::new(&module).compile().unwrap();
    let entry = MachineType::pointer(entry_type(vec![MachineType::double()]));
    let closure = const_bit_cast(
        Value::Global { index: 0, type_: MachineType::struct_(vec![entry.clone()]) },
        closure_pointer(vec![MachineType::double()]),
    );

    assert_eq!(closure.type_(), closure_pointer(vec![MachineType::double()]));
    assert_eq!(
        compiled.bodies[1].instructions[..4],
        [
            placed(Instruction::GetElementPointer {
                pointer: closure.clone(),
                indices: vec![index(0), index(1)],
            }),
            placed(Instruction::GetElementPointer {
                pointer: closure,
                indices: vec![index(0), index(0)],
            }),
            placed(Instruction::Load { pointer: register(1, MachineType::pointer(entry.clone())) }),
            placed(Instruction::Call {
                function: register(2, entry),
                arguments: vec![register(0, environment_pointer()), const_real(41f64.to_bits())],
            }),
        ]
    );
}

#[test]
fn global_of_a_value_of_function_type_holds_a_pointer_to_a_closure() {
    let module = Module::new(
        vec![],
        vec![
            Definition::FunctionDefinition(FunctionDefinition::new(
                "m.f".to_string(),
                vec![],
                vec![Argument::new("x".to_string(), number())],
                Expression::Variable("x".to_string()),
                ValueType::Number,
            )),
            Definition::ValueDefinition(ValueDefinition::new(
                "m.g".to_string(),
                Expression::Variable("m.f".to_string()),
                Type::Function(function(vec![number()])),
            )),
        ],
    );
    let compiled = ModuleCompiler::new(&module).compile().unwrap();

    assert_eq!(
        compiled.globals[1],
        Global { name: "m.g".to_string(), type_: closure_pointer(vec![MachineType::double()]) }
    );
    assert_eq!(
        compiled.initializers[1],
        Initializer { global: 1, value: get_undef(closure_pointer(vec![MachineType::double()])) }
    );
}

#[test]
fn declared_names_get_globals_by_their_types() {
    let module = Module::new(
        vec![
            sloth::ir::ast::Declaration::new(
                "other.f".to_string(),
                Type::Function(function(vec![number()])),
            ),
            sloth::ir::ast::Declaration::new("other.k".to_string(), number()),
        ],
        vec![],
    );
    let compiled = ModuleCompiler::new(&module).compile().unwrap();

    assert_eq!(
        compiled.globals,
        vec![
            Global {
                name: "other.f".to_string(),
                type_: MachineType::struct_(vec![MachineType::pointer(entry_type(vec![
                    MachineType::double()
                ]))]),
            },
            Global { name: "other.k".to_string(), type_: MachineType::double() },
        ]
    );
}

#[test]
fn bindings_are_left_as_they_were_where_compiling_fails() {
    let globals = Environment::new();
    let mut locals = Environment::new();
    locals.insert("a".to_string(), const_real(1f64.to_bits()));

    let (result, builder, _) = expression_in(
        &Expression::LetValues {
            definitions: vec![ValueDefinition::new(
                "b".to_string(),
                Expression::Operation {
                    operator: Operator::Add,
                    lhs: Box::new(Expression::Variable("a".to_string())),
                    rhs: Box::new(Expression::Number(2f64.to_bits())),
                },
                number(),
            )],
            expression: Box::new(Expression::Variable("u".to_string())),
        },
        &globals,
        &mut locals,
    );

    assert_eq!(result, Err(CompileError::VariableNotFound));
    assert_eq!(locals.len(), 1);
    assert_eq!(locals.get(&"b".to_string()), None);
    assert_eq!(
        builder.instructions,
        vec![placed(Instruction::FAdd {
            lhs: const_real(1f64.to_bits()),
            rhs: const_real(2f64.to_bits()),
        })]
    );
}
