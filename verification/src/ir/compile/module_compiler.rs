//! Compilation of modules of the core language to machine modules.
//!
//! Every top-level definition becomes a global. The global of a function
//! holds a closure without an environment: a struct of the pointer to the
//! entry function alone. The name of the function is bound to the address of
//! that global, taken as a pointer to a closure whose environment is not
//! known, which is what an application expects. The global of a value holds
//! a value of the machine type of the value. It is filled by an initializer
//! function of its own, and one function of the module calls all the
//! initializers in the order of the definitions.

use crate::environment::Environment;
use crate::ir::ast::{
    DeclarationView, Definition, DefinitionView, FunctionDefinition, FunctionDefinitionView, Module,
    ModuleView, ValueDefinition, ValueDefinitionView,
};
use crate::ir::compile::emission::{
    bind_arguments, closure_entry_name, compile_expression, variables_view, State, Variables,
};
use crate::ir::compile::error::CompileError;
use crate::ir::compile::expression_compiler::ExpressionCompiler;
use crate::ir::compile::function_compiler::FunctionCompiler;
use crate::ir::compile::lemmas::{
    lemma_callable_add_function, lemma_variables_view_empty, lemma_variables_view_insert,
};
use crate::ir::compile::type_compiler::{
    entry_function_type, machine_type, machine_types, unsized_closure_type, TypeCompiler,
};
use crate::ir::types::{Function, Type, TypeView};
use crate::llvm;
use crate::llvm::builder::{callable, Builder, BuilderView, InstructionView};
use crate::llvm::value::{
    const_bit_cast, const_struct, get_param, get_undef, value_views, Value, ValueView,
};
use crate::names::Name;
use vstd::prelude::*;
use vstd::string::StringExecFns;

verus! {

/// The name of the function that calls the initializers of a module.
pub open spec fn global_initializer_name() -> Name {
    "sloth_init"@
}

/// The name of the initializer function of the value of the given name.
pub open spec fn initializer_name(name: Name) -> Name {
    name + ".$init"@
}

/// The machine type of a function without arguments or result.
pub open spec fn initializer_type() -> llvm::types::TypeView {
    llvm::types::TypeView::Function {
        result: Box::new(llvm::types::TypeView::Void),
        arguments: seq![],
    }
}

/// The machine type of what the global of a top-level function of the given
/// type holds: a closure without an environment, that is a struct of the
/// pointer to the entry function.
pub open spec fn function_global_type(type_: TypeView) -> llvm::types::TypeView {
    llvm::types::TypeView::Struct(
        seq![llvm::types::TypeView::Pointer(Box::new(entry_function_type(type_)))],
    )
}

/// What the name of a top-level function is bound to: the address of its
/// global, taken as a pointer to a closure whose environment is not known.
pub open spec fn function_binding(global: ValueView, type_: TypeView) -> ValueView {
    ValueView::Cast {
        value: Box::new(global),
        type_: llvm::types::TypeView::Pointer(Box::new(unsized_closure_type(type_))),
    }
}

/// The machine type of what the global of a definition holds: a closure
/// without an environment for a function, and for a value a value of the
/// machine type of its type.
pub open spec fn global_type(definition: DefinitionView) -> llvm::types::TypeView {
    match definition {
        DefinitionView::FunctionDefinition(definition) => function_global_type(
            definition.type_(),
        ),
        DefinitionView::ValueDefinition(definition) => machine_type(definition.type_),
    }
}

/// The module and the bindings after a global is added for a function and
/// the name of the function is bound.
pub open spec fn declare_function(
    name: Name,
    type_: TypeView,
    module: llvm::module::ModuleView,
    globals: Variables,
) -> (llvm::module::ModuleView, Variables) {
    (
        module.add_global(name, function_global_type(type_)),
        globals.insert(
            name,
            function_binding(module.next_global(function_global_type(type_)), type_),
        ),
    )
}

/// The module and the bindings after a global is added for a value and the
/// name of the value is bound to the address of the global.
pub open spec fn declare_global_variable(
    name: Name,
    type_: TypeView,
    module: llvm::module::ModuleView,
    globals: Variables,
) -> (llvm::module::ModuleView, Variables) {
    (
        module.add_global(name, machine_type(type_)),
        globals.insert(name, module.next_global(machine_type(type_))),
    )
}

/// The module and the bindings after one name that another module defines
/// is declared. An interface does not say whether a name of function type is
/// a function or a value: it is taken for a function.
pub open spec fn declare_declaration(
    declaration: DeclarationView,
    module: llvm::module::ModuleView,
    globals: Variables,
) -> (llvm::module::ModuleView, Variables) {
    if declaration.type_ is Function {
        declare_function(declaration.name, declaration.type_, module, globals)
    } else {
        declare_global_variable(declaration.name, declaration.type_, module, globals)
    }
}

/// The module and the bindings after the names that other modules define are
/// declared, one after another.
pub open spec fn declare_declarations(
    declarations: Seq<DeclarationView>,
    module: llvm::module::ModuleView,
    globals: Variables,
) -> (llvm::module::ModuleView, Variables)
    decreases declarations.len(),
{
    if declarations.len() == 0 {
        (module, globals)
    } else {
        let (module, globals) = declare_declarations(declarations.drop_last(), module, globals);
        declare_declaration(declarations.last(), module, globals)
    }
}

/// The module, the bindings and the addresses of the globals after the names
/// of the definitions are declared, one after another.
pub open spec fn declare_definitions(
    definitions: Seq<DefinitionView>,
    module: llvm::module::ModuleView,
    globals: Variables,
) -> (llvm::module::ModuleView, Variables, Seq<ValueView>)
    decreases definitions.len(),
{
    if definitions.len() == 0 {
        (module, globals, Seq::empty())
    } else {
        let (module, globals, declared) = declare_definitions(
            definitions.drop_last(),
            module,
            globals,
        );
        let global = module.next_global(global_type(definitions.last()));
        let (module, globals) = match definitions.last() {
            DefinitionView::FunctionDefinition(definition) => declare_function(
                definition.name,
                definition.type_(),
                module,
                globals,
            ),
            DefinitionView::ValueDefinition(definition) => declare_global_variable(
                definition.name,
                definition.type_,
                module,
                globals,
            ),
        };
        (module, globals, declared.push(global))
    }
}

/// The module after a top-level function is compiled: its entry function is
/// added, the struct of the entry function alone is set as the initial value
/// of the global of the function, and the body of the entry function returns
/// what the body of the function is compiled to where the arguments are
/// bound to the parameters after the first.
pub open spec fn compile_top_level_function(
    definition: FunctionDefinitionView,
    global: ValueView,
    globals: Variables,
    module: llvm::module::ModuleView,
) -> Result<llvm::module::ModuleView, CompileError> {
    let type_ = entry_function_type(definition.type_());
    let entry = module.next_function(type_);
    let function = module.functions.len() as usize;
    let module = module.add_function(closure_entry_name(definition.name), type_).set_initializer(
        global->Global_index,
        ValueView::Struct(seq![entry]),
    );
    let locals = bind_arguments(
        definition.arguments,
        function,
        definition.arguments.len() as int,
        Map::empty(),
    );
    match compile_expression(
        definition.body,
        globals,
        locals,
        State { module, builder: BuilderView::new(function).enter() },
    ) {
        Err((error, _)) => Err(error),
        Ok((value, state)) => Ok(
            state.module.define_function(state.builder.emit(InstructionView::Return { value })),
        ),
    }
}

/// The module and the address of the initializer function after a top-level
/// value is compiled: the initial value of its global is left undefined, and
/// an initializer function is added whose body stores what the body of the
/// value is compiled to in the global.
pub open spec fn compile_top_level_value(
    definition: ValueDefinitionView,
    global: ValueView,
    globals: Variables,
    module: llvm::module::ModuleView,
) -> Result<(llvm::module::ModuleView, ValueView), CompileError> {
    let module = module.set_initializer(
        global->Global_index,
        ValueView::Undefined(global->Global_type_),
    );
    let initializer = module.next_function(initializer_type());
    let function = module.functions.len() as usize;
    let module = module.add_function(initializer_name(definition.name), initializer_type());
    match compile_expression(
        definition.body,
        globals,
        Map::empty(),
        State { module, builder: BuilderView::new(function).enter() },
    ) {
        Err((error, _)) => Err(error),
        Ok((value, state)) => Ok(
            (
                state.module.define_function(
                    state.builder.emit(InstructionView::Store { value, pointer: global }).emit(
                        InstructionView::ReturnVoid,
                    ),
                ),
                initializer,
            ),
        ),
    }
}

/// The module and the initializer functions after the definitions are
/// compiled, one after another.
pub open spec fn compile_definitions(
    definitions: Seq<DefinitionView>,
    declared: Seq<ValueView>,
    globals: Variables,
    module: llvm::module::ModuleView,
) -> Result<(llvm::module::ModuleView, Seq<ValueView>), CompileError>
    decreases definitions.len(),
{
    if definitions.len() == 0 {
        Ok((module, Seq::empty()))
    } else {
        match compile_definitions(definitions.drop_last(), declared.drop_last(), globals, module) {
            Err(error) => Err(error),
            Ok((module, initializers)) => match definitions.last() {
                DefinitionView::FunctionDefinition(definition) => match compile_top_level_function(
                    definition,
                    declared.last(),
                    globals,
                    module,
                ) {
                    Err(error) => Err(error),
                    Ok(module) => Ok((module, initializers)),
                },
                DefinitionView::ValueDefinition(definition) => match compile_top_level_value(
                    definition,
                    declared.last(),
                    globals,
                    module,
                ) {
                    Err(error) => Err(error),
                    Ok((module, initializer)) => Ok((module, initializers.push(initializer))),
                },
            },
        }
    }
}

/// The builder after calls of the first `count` initializers are emitted.
pub open spec fn call_initializers(
    initializers: Seq<ValueView>,
    count: int,
    builder: BuilderView,
) -> BuilderView
    decreases count,
{
    if count <= 0 {
        builder
    } else {
        call_initializers(initializers, count - 1, builder).emit(
            InstructionView::Call { function: initializers[count - 1], arguments: seq![] },
        )
    }
}

/// The module after the function is added that calls the initializers in
/// order and returns.
pub open spec fn compile_global_initializer(
    initializers: Seq<ValueView>,
    module: llvm::module::ModuleView,
) -> llvm::module::ModuleView {
    let function = module.functions.len() as usize;
    module.add_function(global_initializer_name(), initializer_type()).define_function(
        call_initializers(
            initializers,
            initializers.len() as int,
            BuilderView::new(function).enter(),
        ).emit(InstructionView::ReturnVoid),
    )
}

/// The machine module that a module of the core language is compiled to.
pub open spec fn compile_module(module: ModuleView) -> Result<
    llvm::module::ModuleView,
    CompileError,
> {
    let (target, globals) = declare_declarations(
        module.declarations,
        llvm::module::ModuleView::empty().declare_intrinsics(),
        Map::empty(),
    );
    let (target, globals, declared) = declare_definitions(module.definitions, target, globals);
    match compile_definitions(module.definitions, declared, globals, target) {
        Err(error) => Err(error),
        Ok((target, initializers)) => Ok(compile_global_initializer(initializers, target)),
    }
}

/// Adding a function keeps what `find_function` finds, and gives the added
/// function where it found none and the names agree.
pub proof fn lemma_find_function_push(
    functions: Seq<llvm::module::FunctionView>,
    function: llvm::module::FunctionView,
    name: Name,
)
    ensures
        llvm::module::find_function(functions.push(function), name) == (
        match llvm::module::find_function(functions, name) {
            Some(index) => Some(index),
            None => if function.name == name {
                Some(functions.len() as int)
            } else {
                None
            },
        }),
{
    assert(functions.push(function).drop_last() =~= functions);
}

/// Once the intrinsics are declared in an empty module, `malloc` can be
/// called.
pub proof fn lemma_intrinsics_callable()
    ensures
        callable(llvm::module::ModuleView::empty().declare_intrinsics(), "malloc"@),
{
    reveal_strlit("malloc");
    reveal_strlit("llvm.coro.id");
    reveal_strlit("llvm.coro.size.i32");
    reveal_strlit("llvm.coro.begin");
    reveal_strlit("llvm.coro.end");
    reveal_strlit("llvm.coro.free");
    let empty = llvm::module::ModuleView::empty();
    let first = empty.add_function("llvm.coro.id"@, llvm::module::coro_id_type());
    let second = first.add_function("llvm.coro.size.i32"@, llvm::module::coro_size_type());
    let third = second.add_function("llvm.coro.begin"@, llvm::module::coro_begin_type());
    let fourth = third.add_function("llvm.coro.end"@, llvm::module::coro_end_type());
    let fifth = fourth.add_function("llvm.coro.free"@, llvm::module::coro_free_type());
    let sixth = fifth.add_function("malloc"@, llvm::module::malloc_type());
    let name = "malloc"@;
    assert("llvm.coro.id"@.len() != name.len());
    assert("llvm.coro.size.i32"@.len() != name.len());
    assert("llvm.coro.begin"@.len() != name.len());
    assert("llvm.coro.end"@.len() != name.len());
    assert("llvm.coro.free"@.len() != name.len());
    lemma_find_function_push(empty.functions, first.functions.last(), name);
    lemma_find_function_push(first.functions, second.functions.last(), name);
    lemma_find_function_push(second.functions, third.functions.last(), name);
    lemma_find_function_push(third.functions, fourth.functions.last(), name);
    lemma_find_function_push(fourth.functions, fifth.functions.last(), name);
    lemma_find_function_push(fifth.functions, sixth.functions.last(), name);
    assert(llvm::module::find_function(sixth.functions, name) == Some(5int));
    assert(callable(sixth, name));
    lemma_callable_add_function(sixth, "free"@, llvm::module::free_type(), name);
}

pub struct ModuleCompiler<'a> {
    pub ast_module: &'a Module,
    pub type_compiler: TypeCompiler,
}

impl<'a> ModuleCompiler<'a> {
    pub fn new(ast_module: &'a Module) -> (result: Self)
        ensures
            result.ast_module == ast_module,
    {
        Self { ast_module, type_compiler: TypeCompiler::new() }
    }

    /// The machine module that the module is compiled to.
    pub fn compile(&self) -> (result: Result<llvm::module::Module, CompileError>)
        ensures
            match result {
                Ok(module) => compile_module(self.ast_module@) == Ok::<_, CompileError>(module@),
                Err(error) => compile_module(self.ast_module@) == Err::<
                    llvm::module::ModuleView,
                    _,
                >(error),
            },
    {
        let mut module = llvm::module::Module::new();
        module.declare_intrinsics();
        proof {
            lemma_intrinsics_callable();
            lemma_variables_view_empty();
        }
        let mut variables: Environment<Value> = Environment::new();
        self.declare_declarations(&mut module, &mut variables);
        let declared = self.declare_definitions(&mut module, &mut variables);
        let initializers = self.compile_definitions(&declared, &variables, &mut module)?;
        self.compile_global_initializer(&initializers, &mut module);
        Ok(module)
    }

    fn declare_function(
        &self,
        name: &String,
        type_: &Function,
        module: &mut llvm::module::Module,
        variables: &mut Environment<Value>,
    ) -> (global: Value)
        requires
            callable(old(module)@, "malloc"@),
        ensures
            (final(module)@, variables_view(final(variables)@)) == declare_function(
                name@,
                type_@,
                old(module)@,
                variables_view(old(variables)@),
            ),
            global@ == old(module)@.next_global(function_global_type(type_@)),
            callable(final(module)@, "malloc"@),
    {
        let mut fields: Vec<llvm::types::Type> = Vec::new();
        fields.push(llvm::types::Type::pointer(self.type_compiler.compile_function(type_)));
        assert(llvm::types::type_views(fields@) =~= function_global_type(type_@)->Struct_0);
        let global = module.add_global(name.clone(), llvm::types::Type::struct_(fields));
        let binding = const_bit_cast(
            global.duplicate(),
            llvm::types::Type::pointer(self.type_compiler.compile_unsized_closure(type_)),
        );
        proof {
            lemma_variables_view_insert(variables@, name@, binding);
        }
        variables.insert(name.clone(), binding);
        global
    }

    fn declare_global_variable(
        &self,
        name: &String,
        type_: &Type,
        module: &mut llvm::module::Module,
        variables: &mut Environment<Value>,
    ) -> (global: Value)
        requires
            callable(old(module)@, "malloc"@),
        ensures
            (final(module)@, variables_view(final(variables)@)) == declare_global_variable(
                name@,
                type_@,
                old(module)@,
                variables_view(old(variables)@),
            ),
            global@ == old(module)@.next_global(machine_type(type_@)),
            callable(final(module)@, "malloc"@),
    {
        let global = module.add_global(name.clone(), self.type_compiler.compile(type_));
        proof {
            lemma_variables_view_insert(variables@, name@, global);
        }
        variables.insert(name.clone(), global.duplicate());
        global
    }

    fn declare_declarations(
        &self,
        module: &mut llvm::module::Module,
        variables: &mut Environment<Value>,
    )
        requires
            callable(old(module)@, "malloc"@),
        ensures
            declare_declarations(
                self.ast_module@.declarations,
                old(module)@,
                variables_view(old(variables)@),
            ) == (final(module)@, variables_view(final(variables)@)),
            callable(final(module)@, "malloc"@),
    {
        let declarations = &self.ast_module.declarations;
        let ghost all = self.ast_module@.declarations;
        let mut index: usize = 0;
        assert(all.take(0) =~= Seq::empty());
        while index < declarations.len()
            invariant
                index <= declarations.len(),
                declarations == &self.ast_module.declarations,
                all == self.ast_module@.declarations,
                callable(module@, "malloc"@),
                declare_declarations(
                    all.take(index as int),
                    old(module)@,
                    variables_view(old(variables)@),
                ) == (module@, variables_view(variables@)),
            decreases declarations.len() - index,
        {
            proof {
                assert(all.take(index + 1).drop_last() =~= all.take(index as int));
                assert(all.take(index + 1).last() == declarations[index as int]@);
            }
            let declaration = &declarations[index];
            match &declaration.type_ {
                Type::Function(function) => {
                    proof {
                        crate::ir::types::lemma_function_view(*function);
                    }
                    self.declare_function(&declaration.name, function, module, variables);
                },
                Type::Value(_) => {
                    self.declare_global_variable(
                        &declaration.name,
                        &declaration.type_,
                        module,
                        variables,
                    );
                },
            }
            index += 1;
        }
        assert(all.take(index as int) =~= all);
    }

    fn declare_definitions(
        &self,
        module: &mut llvm::module::Module,
        variables: &mut Environment<Value>,
    ) -> (declared: Vec<Value>)
        requires
            callable(old(module)@, "malloc"@),
        ensures
            declare_definitions(
                self.ast_module@.definitions,
                old(module)@,
                variables_view(old(variables)@),
            ) == (final(module)@, variables_view(final(variables)@), value_views(declared@)),
            callable(final(module)@, "malloc"@),
            declared.len() == self.ast_module.definitions.len(),
            forall|i: int|
                0 <= i < declared.len() ==> (#[trigger] declared[i])@ is Global
                    && declared[i]@->Global_type_ == global_type(
                    self.ast_module@.definitions[i],
                ),
    {
        let definitions = &self.ast_module.definitions;
        let ghost all = self.ast_module@.definitions;
        let mut declared: Vec<Value> = Vec::new();
        let mut index: usize = 0;
        assert(all.take(0) =~= Seq::empty());
        assert(value_views(declared@) =~= Seq::empty());
        while index < definitions.len()
            invariant
                index <= definitions.len(),
                declared.len() == index,
                definitions == &self.ast_module.definitions,
                all == self.ast_module@.definitions,
                callable(module@, "malloc"@),
                forall|i: int|
                    0 <= i < index ==> (#[trigger] declared[i])@ is Global
                        && declared[i]@->Global_type_ == global_type(all[i]),
                declare_definitions(
                    all.take(index as int),
                    old(module)@,
                    variables_view(old(variables)@),
                ) == (module@, variables_view(variables@), value_views(declared@)),
            decreases definitions.len() - index,
        {
            proof {
                assert(all.take(index + 1).drop_last() =~= all.take(index as int));
                assert(all.take(index + 1).last() == definitions[index as int]@);
            }
            let ghost before = value_views(declared@);
            let global = match &definitions[index] {
                Definition::FunctionDefinition(definition) => {
                    let type_ = definition.type_();
                    self.declare_function(&definition.name, &type_, module, variables)
                },
                Definition::ValueDefinition(definition) => self.declare_global_variable(
                    &definition.name,
                    &definition.type_,
                    module,
                    variables,
                ),
            };
            declared.push(global);
            assert(value_views(declared@) =~= before.push(global@));
            index += 1;
        }
        assert(all.take(index as int) =~= all);
        declared
    }

    fn compile_definitions(
        &self,
        declared: &Vec<Value>,
        variables: &Environment<Value>,
        module: &mut llvm::module::Module,
    ) -> (result: Result<Vec<Value>, CompileError>)
        requires
            callable(old(module)@, "malloc"@),
            declared.len() == self.ast_module.definitions.len(),
            forall|i: int|
                0 <= i < declared.len() ==> (#[trigger] declared[i])@ is Global
                    && declared[i]@->Global_type_ == global_type(
                    self.ast_module@.definitions[i],
                ),
        ensures
            match result {
                Ok(initializers) => compile_definitions(
                    self.ast_module@.definitions,
                    value_views(declared@),
                    variables_view(variables@),
                    old(module)@,
                ) == Ok::<_, CompileError>((final(module)@, value_views(initializers@)))
                    && forall|i: int|
                    0 <= i < initializers.len() ==> (#[trigger] initializers[i])@ is Function
                        && initializers[i]@->Function_type_ == initializer_type(),
                Err(error) => compile_definitions(
                    self.ast_module@.definitions,
                    value_views(declared@),
                    variables_view(variables@),
                    old(module)@,
                ) == Err::<(llvm::module::ModuleView, Seq<ValueView>), _>(error),
            },
    {
        let definitions = &self.ast_module.definitions;
        let ghost all = self.ast_module@.definitions;
        let ghost globals = value_views(declared@);
        let mut initializers: Vec<Value> = Vec::new();
        let mut index: usize = 0;
        assert(all.take(0) =~= Seq::empty());
        assert(globals.take(0) =~= Seq::empty());
        assert(value_views(initializers@) =~= Seq::empty());
        while index < definitions.len()
            invariant
                index <= definitions.len(),
                definitions == &self.ast_module.definitions,
                all == self.ast_module@.definitions,
                globals == value_views(declared@),
                declared.len() == definitions.len(),
                callable(module@, "malloc"@),
                forall|i: int|
                    0 <= i < declared.len() ==> (#[trigger] declared[i])@ is Global
                        && declared[i]@->Global_type_ == global_type(all[i]),
                forall|i: int|
                    0 <= i < initializers.len() ==> (#[trigger] initializers[i])@ is Function
                        && initializers[i]@->Function_type_ == initializer_type(),
                compile_definitions(
                    all.take(index as int),
                    globals.take(index as int),
                    variables_view(variables@),
                    old(module)@,
                ) == Ok::<_, CompileError>((module@, value_views(initializers@))),
            decreases definitions.len() - index,
        {
            proof {
                assert(all.take(index + 1).drop_last() =~= all.take(index as int));
                assert(all.take(index + 1).last() == definitions[index as int]@);
                assert(globals.take(index + 1).drop_last() =~= globals.take(index as int));
                assert(globals.take(index + 1).last() == declared[index as int]@);
            }
            let ghost before = value_views(initializers@);
            match &definitions[index] {
                Definition::FunctionDefinition(definition) => {
                    match self.compile_function(definition, &declared[index], variables, module) {
                        Ok(_) => {},
                        Err(error) => {
                            proof {
                                assert(compile_definitions(
                                    all.take(index + 1),
                                    globals.take(index + 1),
                                    variables_view(variables@),
                                    old(module)@,
                                ) == Err::<(llvm::module::ModuleView, Seq<ValueView>), _>(error));
                                lemma_compile_definitions_error(
                                    all,
                                    globals,
                                    variables_view(variables@),
                                    old(module)@,
                                    index + 1,
                                );
                            }
                            return Err(error);
                        },
                    }
                },
                Definition::ValueDefinition(definition) => {
                    match self.compile_global_variable(
                        definition,
                        &declared[index],
                        variables,
                        module,
                    ) {
                        Ok(initializer) => {
                            initializers.push(initializer);
                            assert(value_views(initializers@) =~= before.push(initializer@));
                        },
                        Err(error) => {
                            proof {
                                assert(compile_definitions(
                                    all.take(index + 1),
                                    globals.take(index + 1),
                                    variables_view(variables@),
                                    old(module)@,
                                ) == Err::<(llvm::module::ModuleView, Seq<ValueView>), _>(error));
                                lemma_compile_definitions_error(
                                    all,
                                    globals,
                                    variables_view(variables@),
                                    old(module)@,
                                    index + 1,
                                );
                            }
                            return Err(error);
                        },
                    }
                },
            }
            index += 1;
        }
        assert(all.take(index as int) =~= all);
        assert(globals.take(index as int) =~= globals);
        Ok(initializers)
    }

    fn compile_function(
        &self,
        function_definition: &FunctionDefinition,
        closure: &Value,
        variables: &Environment<Value>,
        module: &mut llvm::module::Module,
    ) -> (result: Result<(), CompileError>)
        requires
            callable(old(module)@, "malloc"@),
            closure@ is Global,
        ensures
            match result {
                Ok(_) => compile_top_level_function(
                    function_definition@,
                    closure@,
                    variables_view(variables@),
                    old(module)@,
                ) == Ok::<_, CompileError>(final(module)@) && callable(final(module)@, "malloc"@),
                Err(error) => compile_top_level_function(
                    function_definition@,
                    closure@,
                    variables_view(variables@),
                    old(module)@,
                ) == Err::<llvm::module::ModuleView, _>(error),
            },
    {
        let ghost definition = function_definition@;
        let function_type = self.type_compiler.compile_function(&function_definition.type_());
        let ghost type_ = function_type@;
        let ghost function = module@.functions.len() as usize;
        proof {
            lemma_callable_add_function(
                module@,
                closure_entry_name(definition.name),
                type_,
                "malloc"@,
            );
        }
        let entry_function = module.add_function(
            Self::generate_closure_entry_name(&function_definition.name),
            function_type,
        );
        let mut fields: Vec<Value> = Vec::new();
        fields.push(entry_function.duplicate());
        assert(value_views(fields@) =~= seq![entry_function@]);
        module.set_initializer(closure, const_struct(fields));
        let mut arguments: Environment<Value> = Environment::new();
        proof {
            lemma_variables_view_empty();
        }
        let names = &function_definition.arguments;
        let mut index: usize = 0;
        while index < names.len()
            invariant
                index <= names.len(),
                names == &function_definition.arguments,
                definition == function_definition@,
                entry_function@ == (ValueView::Function { index: function, type_ }),
                type_ == entry_function_type(definition.type_()),
                bind_arguments(definition.arguments, function, index as int, Map::empty())
                    == variables_view(arguments@),
            decreases names.len() - index,
        {
            proof {
                assert(type_->arguments[index + 1] == machine_types(
                    definition.type_()->arguments,
                )[index as int]);
            }
            let parameter = get_param(&entry_function, index + 1);
            proof {
                lemma_variables_view_insert(arguments@, names[index as int].name@, parameter);
            }
            arguments.insert(names[index].name.clone(), parameter);
            index += 1;
        }
        let mut builder = Builder::new(&entry_function);
        let block = builder.append_basic_block("entry");
        builder.position_at_end(block);
        assert(builder@ == BuilderView::new(function).enter());
        let function_compiler = FunctionCompiler::new(variables, &self.type_compiler);
        let value = ExpressionCompiler::new(&function_compiler, &self.type_compiler).compile(
            &function_definition.body,
            &mut arguments,
            &mut builder,
            module,
        )?;
        builder.build_ret(&value);
        module.define_function(builder);
        Ok(())
    }

    fn compile_global_variable(
        &self,
        variable_definition: &ValueDefinition,
        global: &Value,
        variables: &Environment<Value>,
        module: &mut llvm::module::Module,
    ) -> (result: Result<Value, CompileError>)
        requires
            callable(old(module)@, "malloc"@),
            global@ is Global,
        ensures
            match result {
                Ok(initializer) => compile_top_level_value(
                    variable_definition@,
                    global@,
                    variables_view(variables@),
                    old(module)@,
                ) == Ok::<_, CompileError>((final(module)@, initializer@)) && callable(
                    final(module)@,
                    "malloc"@,
                ) && initializer@ is Function && initializer@->Function_type_
                    == initializer_type(),
                Err(error) => compile_top_level_value(
                    variable_definition@,
                    global@,
                    variables_view(variables@),
                    old(module)@,
                ) == Err::<(llvm::module::ModuleView, ValueView), _>(error),
            },
    {
        let type_ = global.type_();
        module.set_initializer(global, get_undef(type_.element().duplicate()));
        let arguments: Vec<llvm::types::Type> = Vec::new();
        assert(llvm::types::type_views(arguments@) =~= seq![]);
        let initializer_type = llvm::types::Type::function(llvm::types::Type::void(), arguments);
        proof {
            lemma_callable_add_function(
                module@,
                initializer_name(variable_definition@.name),
                initializer_type@,
                "malloc"@,
            );
        }
        let initializer = module.add_function(
            Self::generate_initializer_name(&variable_definition.name),
            initializer_type,
        );
        let mut builder = Builder::new(&initializer);
        let block = builder.append_basic_block("entry");
        builder.position_at_end(block);
        let mut locals: Environment<Value> = Environment::new();
        proof {
            lemma_variables_view_empty();
        }
        let function_compiler = FunctionCompiler::new(variables, &self.type_compiler);
        let value = ExpressionCompiler::new(&function_compiler, &self.type_compiler).compile(
            &variable_definition.body,
            &mut locals,
            &mut builder,
            module,
        )?;
        builder.build_store(&value, global);
        builder.build_ret_void();
        module.define_function(builder);
        Ok(initializer)
    }

    fn compile_global_initializer(
        &self,
        initializers: &Vec<Value>,
        module: &mut llvm::module::Module,
    )
        requires
            forall|i: int|
                0 <= i < initializers.len() ==> (#[trigger] initializers[i])@ is Function
                    && initializers[i]@->Function_type_ == initializer_type(),
        ensures
            final(module)@ == compile_global_initializer(value_views(initializers@), old(module)@),
    {
        let arguments: Vec<llvm::types::Type> = Vec::new();
        assert(llvm::types::type_views(arguments@) =~= seq![]);
        let initializer = module.add_function(
            String::from_str("sloth_init"),
            llvm::types::Type::function(llvm::types::Type::void(), arguments),
        );
        let mut builder = Builder::new(&initializer);
        let block = builder.append_basic_block("entry");
        builder.position_at_end(block);
        let ghost initial = builder@;
        let mut index: usize = 0;
        while index < initializers.len()
            invariant
                index <= initializers.len(),
                builder@.positioned(),
                forall|i: int|
                    0 <= i < initializers.len() ==> (#[trigger] initializers[i])@ is Function
                        && initializers[i]@->Function_type_ == initializer_type(),
                call_initializers(value_views(initializers@), index as int, initial) == builder@,
            decreases initializers.len() - index,
        {
            let arguments: Vec<Value> = Vec::new();
            assert(value_views(arguments@) =~= seq![]);
            builder.build_call(&initializers[index], arguments);
            index += 1;
        }
        builder.build_ret_void();
        module.define_function(builder);
    }

    /// The name of the initializer function of the value of the given name.
    pub fn generate_initializer_name(name: &String) -> (result: String)
        ensures
            result@ == initializer_name(name@),
    {
        name.clone().concat(".$init")
    }

    /// The name of the entry function of the function of the given name.
    pub fn generate_closure_entry_name(name: &String) -> (result: String)
        ensures
            result@ == closure_entry_name(name@),
    {
        name.clone().concat(".$entry")
    }
}

/// Where compiling the first definitions fails, compiling all fails alike.
pub proof fn lemma_compile_definitions_error(
    definitions: Seq<DefinitionView>,
    declared: Seq<ValueView>,
    globals: Variables,
    module: llvm::module::ModuleView,
    length: int,
)
    requires
        0 <= length <= definitions.len(),
        declared.len() == definitions.len(),
        compile_definitions(definitions.take(length), declared.take(length), globals, module)
            is Err,
    ensures
        compile_definitions(definitions, declared, globals, module) == compile_definitions(
            definitions.take(length),
            declared.take(length),
            globals,
            module,
        ),
    decreases definitions.len(),
{
    if length < definitions.len() {
        assert(definitions.take(length) =~= definitions.drop_last().take(length));
        assert(declared.take(length) =~= declared.drop_last().take(length));
        lemma_compile_definitions_error(
            definitions.drop_last(),
            declared.drop_last(),
            globals,
            module,
            length,
        );
    } else {
        assert(definitions.take(length) =~= definitions);
        assert(declared.take(length) =~= declared);
    }
}

} // verus!
