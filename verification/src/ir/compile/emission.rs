//! What code generation emits for expressions and function definitions.
//!
//! The state of code generation is the module, to which entry functions are
//! added, and the builder of the function body under construction. Every
//! function here says which value an expression is compiled to and what the
//! state is afterwards. Where code generation fails, it says what went wrong
//! and what the state is where it stopped: what was emitted before stays.

use crate::ast::Operator;
use crate::ir::ast::{ArgumentView, ExpressionView, FunctionDefinitionView, ValueDefinitionView};
use crate::ir::compile::error::CompileError;
use crate::ir::compile::type_compiler::{
    closure_type, entry_function_type, environment_type, unsized_closure_type,
};
use crate::llvm::builder::{call_by_name, call_by_name_type, BuilderView, InstructionView};
use crate::llvm::module::ModuleView;
use crate::llvm::types::TypeView;
use crate::llvm::value::{type_of, Value, ValueView};
use crate::names::Name;
use vstd::prelude::*;

verus! {

/// The state of code generation.
pub struct State {
    pub module: ModuleView,
    pub builder: BuilderView,
}

/// What went wrong, and the state where code generation stopped.
pub type Failure = (CompileError, State);

/// The values that names are bound to.
pub type Variables = Map<Name, ValueView>;

/// The mathematical value of a table of machine values.
pub open spec fn variables_view(variables: Map<Name, Value>) -> Variables {
    Map::new(|name: Name| variables.contains_key(name), |name: Name| variables[name]@)
}

/// The name of the entry function of the function of the given name.
pub open spec fn closure_entry_name(name: Name) -> Name {
    name + ".$entry"@
}

/// The 32-bit integer constant of the given value.
pub open spec fn index_constant(value: int) -> ValueView {
    ValueView::Integer { bits: 32, value: value as u64 }
}

/// Whether a value of the given type is a pointer to a closure: to a struct
/// that begins with a pointer to a function and has a second field.
pub open spec fn is_closure_pointer(type_: TypeView) -> bool {
    &&& type_ is Pointer
    &&& *type_->Pointer_0 is Struct
    &&& type_->Pointer_0->Struct_0.len() >= 2
    &&& type_->Pointer_0->Struct_0[0] is Pointer
    &&& *type_->Pointer_0->Struct_0[0]->Pointer_0 is Function
}

impl State {
    /// The state after the instruction is emitted.
    pub open spec fn emit(self, instruction: InstructionView) -> State {
        State { builder: self.builder.emit(instruction), ..self }
    }

    /// The result of the instruction that is emitted next, where it has the
    /// given type.
    pub open spec fn next_register(self, type_: TypeView) -> ValueView {
        self.builder.next_register(type_)
    }
}

/// The value that a name is bound to: a local binding hides a global one.
pub open spec fn lookup(globals: Variables, locals: Variables, name: Name) -> Option<ValueView> {
    if locals.contains_key(name) {
        Some(locals[name])
    } else if globals.contains_key(name) {
        Some(globals[name])
    } else {
        None
    }
}

/// What a bound value is used as. A pointer to a double is loaded from:
/// global numbers are held by address. Every other value is taken as it is.
pub open spec fn unwrap_value(value: ValueView, state: State) -> (ValueView, State) {
    if type_of(value) == TypeView::Pointer(Box::new(TypeView::Double)) {
        (state.next_register(TypeView::Double), state.emit(InstructionView::Load { pointer: value }))
    } else {
        (value, state)
    }
}

/// What a use of a variable is compiled to.
pub open spec fn compile_variable(
    name: Name,
    globals: Variables,
    locals: Variables,
    state: State,
) -> Result<(ValueView, State), Failure> {
    match lookup(globals, locals, name) {
        Some(value) => Ok(unwrap_value(value, state)),
        None => Err((CompileError::VariableNotFound, state)),
    }
}

/// What an arithmetic operation on two compiled operands is compiled to.
pub open spec fn compile_operation(
    operator: Operator,
    lhs: ValueView,
    rhs: ValueView,
    state: State,
) -> (ValueView, State) {
    (
        state.next_register(type_of(lhs)),
        state.emit(
            match operator {
                Operator::Add => InstructionView::FAdd { lhs, rhs },
                Operator::Subtract => InstructionView::FSub { lhs, rhs },
                Operator::Multiply => InstructionView::FMul { lhs, rhs },
                Operator::Divide => InstructionView::FDiv { lhs, rhs },
            },
        ),
    )
}

/// The address of the environment of a closure, and the state after its
/// computation is emitted.
pub open spec fn closure_environment(closure: ValueView, state: State) -> (ValueView, State) {
    (
        state.next_register(
            TypeView::Pointer(Box::new(type_of(closure)->Pointer_0->Struct_0[1])),
        ),
        state.emit(
            InstructionView::GetElementPointer {
                pointer: closure,
                indices: seq![index_constant(0), index_constant(1)],
            },
        ),
    )
}

/// The entry function of a closure, and the state after its loading is
/// emitted: the address of the field that holds the entry function is
/// computed, and the entry function is loaded from it.
pub open spec fn closure_entry(closure: ValueView, state: State) -> (ValueView, State) {
    let entry_type = type_of(closure)->Pointer_0->Struct_0[0];
    let entry_pointer = state.next_register(TypeView::Pointer(Box::new(entry_type)));
    let state = state.emit(
        InstructionView::GetElementPointer {
            pointer: closure,
            indices: seq![index_constant(0), index_constant(0)],
        },
    );
    (state.next_register(entry_type), state.emit(InstructionView::Load { pointer: entry_pointer }))
}

/// What the call of an entry function with the address of the environment
/// and with compiled arguments is compiled to. The environment is the first
/// argument.
pub open spec fn call_entry(
    entry: ValueView,
    environment: ValueView,
    arguments: Seq<ValueView>,
    state: State,
) -> (ValueView, State) {
    (
        state.next_register(*type_of(entry)->Pointer_0->result),
        state.emit(
            InstructionView::Call { function: entry, arguments: seq![environment] + arguments },
        ),
    )
}

/// What an expression is compiled to.
///
/// For an application, the address of the environment of the closure is
/// computed and the entry function is loaded before the arguments are
/// compiled, from the first to the last; the call comes after them.
pub open spec fn compile_expression(
    expression: ExpressionView,
    globals: Variables,
    locals: Variables,
    state: State,
) -> Result<(ValueView, State), Failure>
    decreases expression, 0nat,
{
    match expression {
        ExpressionView::Number(bits) => Ok((ValueView::Real(bits), state)),
        ExpressionView::Variable(name) => compile_variable(name, globals, locals, state),
        ExpressionView::Operation { operator, lhs, rhs } => match compile_expression(
            *lhs,
            globals,
            locals,
            state,
        ) {
            Err(error) => Err(error),
            Ok((lhs, state)) => match compile_expression(*rhs, globals, locals, state) {
                Err(error) => Err(error),
                Ok((rhs, state)) => Ok(compile_operation(operator, lhs, rhs, state)),
            },
        },
        ExpressionView::Application { function, arguments } => match compile_variable(
            function,
            globals,
            locals,
            state,
        ) {
            Err(error) => Err(error),
            Ok((closure, state)) => if !is_closure_pointer(type_of(closure)) {
                Err((CompileError::NotCallable, state))
            } else {
                let (environment, state) = closure_environment(closure, state);
                let (entry, state) = closure_entry(closure, state);
                match compile_expressions(arguments, globals, locals, state) {
                    Err(error) => Err(error),
                    Ok((arguments, state)) => Ok(call_entry(entry, environment, arguments, state)),
                }
            },
        },
        ExpressionView::LetValues { definitions, expression } => match compile_value_definitions(
            definitions,
            globals,
            locals,
            state,
        ) {
            Err(error) => Err(error),
            Ok((locals, state)) => compile_expression(*expression, globals, locals, state),
        },
        ExpressionView::LetFunctions { definitions, expression } => {
            let (locals, closures, state) = allocate_closures(definitions, locals, state);
            match initialize_closures(definitions, closures, globals, locals, state) {
                Err(error) => Err(error),
                Ok(state) => compile_expression(*expression, globals, locals, state),
            }
        },
    }
}

/// What the expressions are compiled to, one after another.
pub open spec fn compile_expressions(
    expressions: Seq<ExpressionView>,
    globals: Variables,
    locals: Variables,
    state: State,
) -> Result<(Seq<ValueView>, State), Failure>
    decreases expressions, 0nat,
{
    if expressions.len() == 0 {
        Ok((Seq::empty(), state))
    } else {
        match compile_expressions(expressions.drop_last(), globals, locals, state) {
            Err(error) => Err(error),
            Ok((values, state)) => match compile_expression(
                expressions.last(),
                globals,
                locals,
                state,
            ) {
                Err(error) => Err(error),
                Ok((value, state)) => Ok((values.push(value), state)),
            },
        }
    }
}

/// The bindings after the definitions of a `let` of values are compiled: each
/// body is compiled where the names before it are bound, and its name is
/// bound to what it is compiled to.
pub open spec fn compile_value_definitions(
    definitions: Seq<ValueDefinitionView>,
    globals: Variables,
    locals: Variables,
    state: State,
) -> Result<(Variables, State), Failure>
    decreases definitions, 0nat,
{
    if definitions.len() == 0 {
        Ok((locals, state))
    } else {
        match compile_value_definitions(definitions.drop_last(), globals, locals, state) {
            Err(error) => Err(error),
            Ok((locals, state)) => match compile_expression(
                definitions.last().body,
                globals,
                locals,
                state,
            ) {
                Err(error) => Err(error),
                Ok((value, state)) => Ok((locals.insert(definitions.last().name, value), state)),
            },
        }
    }
}

/// What allocating the closure of one function definition emits: memory of
/// the size of the closure is taken from `malloc`, and its address is cast
/// twice. The first cast is to a closure whose environment is not known,
/// which is what the name of the function is bound to. The second is to the
/// closure with its environment, which is what the closure is filled
/// through.
pub open spec fn allocate_closure(definition: FunctionDefinitionView, state: State) -> (
    ValueView,
    ValueView,
    State,
) {
    let sized = closure_type(definition);
    let pointer = state.next_register(call_by_name_type(state.module, "malloc"@));
    let state = state.emit(
        call_by_name(state.module, "malloc"@, seq![ValueView::SizeOf(sized)]),
    );
    let unsized_pointer_type = TypeView::Pointer(
        Box::new(unsized_closure_type(definition.type_())),
    );
    let unsized_closure = state.next_register(unsized_pointer_type);
    let state = state.emit(
        InstructionView::BitCast { value: pointer, type_: unsized_pointer_type },
    );
    let sized_pointer_type = TypeView::Pointer(Box::new(sized));
    let sized_closure = state.next_register(sized_pointer_type);
    let state = state.emit(InstructionView::BitCast { value: pointer, type_: sized_pointer_type });
    (unsized_closure, sized_closure, state)
}

/// The bindings, the closures to fill and the state after the closures of
/// the definitions of a `let` of functions are allocated, one after another.
pub open spec fn allocate_closures(
    definitions: Seq<FunctionDefinitionView>,
    locals: Variables,
    state: State,
) -> (Variables, Seq<ValueView>, State)
    decreases definitions.len(),
{
    if definitions.len() == 0 {
        (locals, Seq::empty(), state)
    } else {
        let (locals, closures, state) = allocate_closures(definitions.drop_last(), locals, state);
        let (unsized_closure, sized_closure, state) = allocate_closure(definitions.last(), state);
        (
            locals.insert(definitions.last().name, unsized_closure),
            closures.push(sized_closure),
            state,
        )
    }
}

/// The state after a value is stored at the place `indices` of a closure.
pub open spec fn store_in_closure(
    value: ValueView,
    closure: ValueView,
    indices: Seq<ValueView>,
    field_type: TypeView,
    state: State,
) -> State {
    let address = state.next_register(TypeView::Pointer(Box::new(field_type)));
    state.emit(InstructionView::GetElementPointer { pointer: closure, indices }).emit(
        InstructionView::Store { value, pointer: address },
    )
}

/// The values that the captured variables are bound to, if all are bound.
/// Only local bindings and global ones count, and a value is taken as it is.
pub open spec fn captured_values(
    environment: Seq<ArgumentView>,
    globals: Variables,
    locals: Variables,
) -> Option<Seq<ValueView>> {
    if forall|i: int|
        0 <= i < environment.len() ==> lookup(globals, locals, (#[trigger] environment[i]).name)
            is Some {
        Some(
            Seq::new(
                environment.len(),
                |i: int| lookup(globals, locals, environment[i].name)->Some_0,
            ),
        )
    } else {
        None
    }
}

/// The state after the first `count` captured values are stored in the
/// environment of a closure.
pub open spec fn store_captured_values(
    environment: Seq<ArgumentView>,
    values: Seq<ValueView>,
    closure: ValueView,
    count: int,
    state: State,
) -> State
    decreases count,
{
    if count <= 0 {
        state
    } else {
        store_in_closure(
            values[count - 1],
            closure,
            seq![index_constant(0), index_constant(1), index_constant(count - 1)],
            crate::ir::compile::type_compiler::machine_type(environment[count - 1].type_),
            store_captured_values(environment, values, closure, count - 1, state),
        )
    }
}

/// The state after the closure of one function definition is filled: its
/// entry function is compiled and stored in the first field, then the values
/// of the captured variables are stored in the environment, in the order of
/// the environment. Where a captured variable is bound nowhere, no value is
/// stored in the environment.
pub open spec fn initialize_closure(
    definition: FunctionDefinitionView,
    closure: ValueView,
    globals: Variables,
    locals: Variables,
    state: State,
) -> Result<State, Failure>
    decreases definition, 1nat,
{
    match compile_function(definition, globals, state.module) {
        Err((error, module)) => Err((error, State { module, ..state })),
        Ok((entry, module)) => {
            let state = store_in_closure(
                entry,
                closure,
                seq![index_constant(0), index_constant(0)],
                TypeView::Pointer(Box::new(entry_function_type(definition.type_()))),
                State { module, ..state },
            );
            match captured_values(definition.environment, globals, locals) {
                None => Err((CompileError::VariableNotFound, state)),
                Some(values) => Ok(
                    store_captured_values(
                        definition.environment,
                        values,
                        closure,
                        definition.environment.len() as int,
                        state,
                    ),
                ),
            }
        },
    }
}

/// The state after the closures of the definitions of a `let` of functions
/// are filled, one after another.
pub open spec fn initialize_closures(
    definitions: Seq<FunctionDefinitionView>,
    closures: Seq<ValueView>,
    globals: Variables,
    locals: Variables,
    state: State,
) -> Result<State, Failure>
    decreases definitions, 0nat,
{
    if definitions.len() == 0 {
        Ok(state)
    } else {
        match initialize_closures(
            definitions.drop_last(),
            closures.drop_last(),
            globals,
            locals,
            state,
        ) {
            Err(error) => Err(error),
            Ok(state) => initialize_closure(
                definitions.last(),
                closures.last(),
                globals,
                locals,
                state,
            ),
        }
    }
}

/// The bindings and the state after the first `count` captured variables are
/// loaded from the environment of the function under construction.
pub open spec fn load_captured_values(
    environment: Seq<ArgumentView>,
    pointer: ValueView,
    count: int,
    locals: Variables,
    state: State,
) -> (Variables, State)
    decreases count,
{
    if count <= 0 {
        (locals, state)
    } else {
        let (locals, state) = load_captured_values(environment, pointer, count - 1, locals, state);
        let field_type = crate::ir::compile::type_compiler::machine_type(
            environment[count - 1].type_,
        );
        let address = state.next_register(TypeView::Pointer(Box::new(field_type)));
        let state = state.emit(
            InstructionView::GetElementPointer {
                pointer,
                indices: seq![index_constant(0), index_constant(count - 1)],
            },
        );
        let value = state.next_register(field_type);
        (
            locals.insert(environment[count - 1].name, value),
            state.emit(InstructionView::Load { pointer: address }),
        )
    }
}

/// The bindings after the first `count` arguments are bound to the
/// parameters of the function at the given place: the parameter before them
/// is the pointer to the environment.
pub open spec fn bind_arguments(
    arguments: Seq<ArgumentView>,
    function: usize,
    count: int,
    locals: Variables,
) -> Variables
    decreases count,
{
    if count <= 0 {
        locals
    } else {
        bind_arguments(arguments, function, count - 1, locals).insert(
            arguments[count - 1].name,
            ValueView::Parameter {
                function,
                index: count as usize,
                type_: crate::ir::compile::type_compiler::machine_type(
                    arguments[count - 1].type_,
                ),
            },
        )
    }
}

/// The address of the entry function that a function definition is compiled
/// to, and the module with that function added and defined.
///
/// The entry function is named after the definition. Its body casts the
/// first parameter to a pointer to the environment of the definition, loads
/// every captured variable from it, binds the arguments to the parameters
/// that follow, and returns what the body of the definition is compiled to
/// under these bindings and the global ones. Where the body cannot be
/// compiled, the entry function stays in the module without a body.
pub open spec fn compile_function(
    definition: FunctionDefinitionView,
    globals: Variables,
    module: ModuleView,
) -> Result<(ValueView, ModuleView), (CompileError, ModuleView)>
    decreases definition, 0nat,
{
    let type_ = entry_function_type(definition.type_());
    let entry = module.next_function(type_);
    let function = module.functions.len() as usize;
    let module = module.add_function(closure_entry_name(definition.name), type_);
    let state = State { module, builder: BuilderView::new(function).enter() };
    let environment_pointer_type = TypeView::Pointer(
        Box::new(environment_type(definition.environment)),
    );
    let environment = state.next_register(environment_pointer_type);
    let state = state.emit(
        InstructionView::BitCast {
            value: ValueView::Parameter { function, index: 0, type_: type_->arguments[0] },
            type_: environment_pointer_type,
        },
    );
    let (locals, state) = load_captured_values(
        definition.environment,
        environment,
        definition.environment.len() as int,
        Map::empty(),
        state,
    );
    let locals = bind_arguments(
        definition.arguments,
        function,
        definition.arguments.len() as int,
        locals,
    );
    match compile_expression(definition.body, globals, locals, state) {
        Err((error, state)) => Err((error, state.module)),
        Ok((value, state)) => Ok(
            (
                entry,
                state.module.define_function(
                    state.builder.emit(InstructionView::Return { value }),
                ),
            ),
        ),
    }
}

} // verus!
