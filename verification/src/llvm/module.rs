//! Machine modules: globals with their initializers, declared functions, and
//! the bodies of the functions that are defined.

use crate::llvm::builder::{Builder, BuilderView};
use crate::llvm::types::{type_views, Type, TypeView};
use crate::llvm::value::{Value, ValueView};
use crate::names::Name;
use vstd::prelude::*;
use vstd::string::StringExecFns;

verus! {

/// A global of a module: its symbol and the type of the value that it holds.
#[derive(Debug, PartialEq)]
pub struct Global {
    pub name: String,
    pub type_: Type,
}

/// A function of a module: its symbol and its function type.
#[derive(Debug, PartialEq)]
pub struct Function {
    pub name: String,
    pub type_: Type,
}

/// What is set as the initial value of the global at the given place.
#[derive(Debug, PartialEq)]
pub struct Initializer {
    pub global: usize,
    pub value: Value,
}

#[derive(Debug, PartialEq)]
pub struct Module {
    pub globals: Vec<Global>,
    pub initializers: Vec<Initializer>,
    pub functions: Vec<Function>,
    pub bodies: Vec<Builder>,
}

/// The mathematical value of a `Global`.
pub struct GlobalView {
    pub name: Name,
    pub type_: TypeView,
}

/// The mathematical value of a `Function`.
pub struct FunctionView {
    pub name: Name,
    pub type_: TypeView,
}

/// The mathematical value of an `Initializer`.
pub struct InitializerView {
    pub global: usize,
    pub value: ValueView,
}

/// The mathematical value of a `Module`.
pub struct ModuleView {
    pub globals: Seq<GlobalView>,
    pub initializers: Seq<InitializerView>,
    pub functions: Seq<FunctionView>,
    pub bodies: Seq<BuilderView>,
}

impl View for Global {
    type V = GlobalView;

    open spec fn view(&self) -> GlobalView {
        GlobalView { name: self.name@, type_: self.type_@ }
    }
}

impl View for Function {
    type V = FunctionView;

    open spec fn view(&self) -> FunctionView {
        FunctionView { name: self.name@, type_: self.type_@ }
    }
}

impl View for Initializer {
    type V = InitializerView;

    open spec fn view(&self) -> InitializerView {
        InitializerView { global: self.global, value: self.value@ }
    }
}

impl View for Module {
    type V = ModuleView;

    open spec fn view(&self) -> ModuleView {
        ModuleView {
            globals: Seq::new(self.globals@.len(), |i: int| self.globals[i]@),
            initializers: Seq::new(self.initializers@.len(), |i: int| self.initializers[i]@),
            functions: Seq::new(self.functions@.len(), |i: int| self.functions[i]@),
            bodies: Seq::new(self.bodies@.len(), |i: int| self.bodies[i]@),
        }
    }
}

/// The place of the first of the functions that has the given name.
pub open spec fn find_function(functions: Seq<FunctionView>, name: Name) -> Option<int>
    decreases functions.len(),
{
    if functions.len() == 0 {
        None
    } else {
        match find_function(functions.drop_last(), name) {
            Some(index) => Some(index),
            None => if functions.last().name == name {
                Some(functions.len() - 1)
            } else {
                None
            },
        }
    }
}

/// What `find_function` finds is a place of a function of that name, and a
/// function found among the first functions is found among all.
pub proof fn lemma_find_function(functions: Seq<FunctionView>, name: Name, length: int)
    requires
        0 <= length <= functions.len(),
    ensures
        find_function(functions.take(length), name) matches Some(index) ==> 0 <= index < length
            && functions[index].name == name && find_function(functions, name) == Some(index),
        find_function(functions, name) matches Some(index) ==> 0 <= index < functions.len()
            && functions[index].name == name,
    decreases functions.len(),
{
    if functions.len() > 0 {
        let shorter = functions.drop_last();
        if length < functions.len() {
            assert(functions.take(length) =~= shorter.take(length));
            lemma_find_function(shorter, name, length);
        } else {
            assert(functions.take(length) =~= functions);
            lemma_find_function(shorter, name, length - 1);
        }
    } else {
        assert(functions.take(length) =~= functions);
    }
}

/// The function type of the function that begins coroutine bookkeeping.
pub open spec fn coro_id_type() -> TypeView {
    TypeView::Function {
        result: Box::new(TypeView::Token),
        arguments: seq![
            TypeView::Integer(32),
            TypeView::generic_pointer(),
            TypeView::generic_pointer(),
            TypeView::generic_pointer(),
        ],
    }
}

/// The function type of the function that gives the size of a coroutine
/// frame.
pub open spec fn coro_size_type() -> TypeView {
    TypeView::Function { result: Box::new(TypeView::Integer(32)), arguments: seq![] }
}

/// The function type of the function that begins a coroutine.
pub open spec fn coro_begin_type() -> TypeView {
    TypeView::Function {
        result: Box::new(TypeView::generic_pointer()),
        arguments: seq![TypeView::Token, TypeView::generic_pointer()],
    }
}

/// The function type of the function that ends a coroutine.
pub open spec fn coro_end_type() -> TypeView {
    TypeView::Function {
        result: Box::new(TypeView::Integer(1)),
        arguments: seq![TypeView::generic_pointer(), TypeView::Integer(1)],
    }
}

/// The function type of the function that gives the memory of a coroutine
/// frame to free.
pub open spec fn coro_free_type() -> TypeView {
    TypeView::Function {
        result: Box::new(TypeView::generic_pointer()),
        arguments: seq![TypeView::Token, TypeView::generic_pointer()],
    }
}

/// The function type of `malloc`.
pub open spec fn malloc_type() -> TypeView {
    TypeView::Function {
        result: Box::new(TypeView::generic_pointer()),
        arguments: seq![TypeView::Integer(64)],
    }
}

/// The function type of `free`.
pub open spec fn free_type() -> TypeView {
    TypeView::Function {
        result: Box::new(TypeView::Void),
        arguments: seq![TypeView::generic_pointer()],
    }
}

impl ModuleView {
    /// The module without globals or functions.
    pub open spec fn empty() -> ModuleView {
        ModuleView {
            globals: Seq::empty(),
            initializers: Seq::empty(),
            functions: Seq::empty(),
            bodies: Seq::empty(),
        }
    }

    /// The module with one more global.
    pub open spec fn add_global(self, name: Name, type_: TypeView) -> ModuleView {
        ModuleView { globals: self.globals.push(GlobalView { name, type_ }), ..self }
    }

    /// The address of the global that `add_global` adds.
    pub open spec fn next_global(self, type_: TypeView) -> ValueView {
        ValueView::Global { index: self.globals.len() as usize, type_ }
    }

    /// The module with one more function.
    pub open spec fn add_function(self, name: Name, type_: TypeView) -> ModuleView {
        ModuleView { functions: self.functions.push(FunctionView { name, type_ }), ..self }
    }

    /// The address of the function that `add_function` adds.
    pub open spec fn next_function(self, type_: TypeView) -> ValueView {
        ValueView::Function { index: self.functions.len() as usize, type_ }
    }

    /// The module with the initial value of a global set.
    pub open spec fn set_initializer(self, global: usize, value: ValueView) -> ModuleView {
        ModuleView {
            initializers: self.initializers.push(InitializerView { global, value }),
            ..self
        }
    }

    /// The module with one more function body.
    pub open spec fn define_function(self, body: BuilderView) -> ModuleView {
        ModuleView { bodies: self.bodies.push(body), ..self }
    }

    /// The address of the first function that has the given name.
    pub open spec fn named_function(self, name: Name) -> Option<ValueView> {
        match find_function(self.functions, name) {
            Some(index) => Some(
                ValueView::Function { index: index as usize, type_: self.functions[index].type_ },
            ),
            None => None,
        }
    }

    /// The module with the functions declared that generated code may call:
    /// the coroutine intrinsics, `malloc` and `free`.
    pub open spec fn declare_intrinsics(self) -> ModuleView {
        self.add_function("llvm.coro.id"@, coro_id_type()).add_function(
            "llvm.coro.size.i32"@,
            coro_size_type(),
        ).add_function("llvm.coro.begin"@, coro_begin_type()).add_function(
            "llvm.coro.end"@,
            coro_end_type(),
        ).add_function("llvm.coro.free"@, coro_free_type()).add_function(
            "malloc"@,
            malloc_type(),
        ).add_function("free"@, free_type())
    }

    /// Whether `self` holds all that `earlier` holds, at the same places.
    pub open spec fn extends(self, earlier: ModuleView) -> bool {
        &&& earlier.globals.len() <= self.globals.len()
        &&& self.globals.take(earlier.globals.len() as int) == earlier.globals
        &&& earlier.initializers.len() <= self.initializers.len()
        &&& self.initializers.take(earlier.initializers.len() as int) == earlier.initializers
        &&& earlier.functions.len() <= self.functions.len()
        &&& self.functions.take(earlier.functions.len() as int) == earlier.functions
        &&& earlier.bodies.len() <= self.bodies.len()
        &&& self.bodies.take(earlier.bodies.len() as int) == earlier.bodies
    }
}

impl Module {
    pub fn new() -> (result: Self)
        ensures
            result@ == ModuleView::empty(),
    {
        let result = Self {
            globals: Vec::new(),
            initializers: Vec::new(),
            functions: Vec::new(),
            bodies: Vec::new(),
        };
        assert(result@.globals =~= Seq::empty());
        assert(result@.initializers =~= Seq::empty());
        assert(result@.functions =~= Seq::empty());
        assert(result@.bodies =~= Seq::empty());
        result
    }

    /// Adds a global of the given symbol that holds a value of the given type,
    /// and gives its address.
    pub fn add_global(&mut self, name: String, type_: Type) -> (result: Value)
        ensures
            final(self)@ == old(self)@.add_global(name@, type_@),
            result@ == old(self)@.next_global(type_@),
    {
        let result = Value::Global { index: self.globals.len(), type_: type_.duplicate() };
        self.globals.push(Global { name, type_ });
        assert(self@.globals =~= old(self)@.add_global(name@, type_@).globals);
        assert(self@.initializers =~= old(self)@.initializers);
        assert(self@.functions =~= old(self)@.functions);
        assert(self@.bodies =~= old(self)@.bodies);
        result
    }

    /// Adds a function of the given symbol and function type, and gives its
    /// address.
    pub fn add_function(&mut self, name: String, type_: Type) -> (result: Value)
        ensures
            final(self)@ == old(self)@.add_function(name@, type_@),
            result@ == old(self)@.next_function(type_@),
    {
        let result = Value::Function { index: self.functions.len(), type_: type_.duplicate() };
        self.functions.push(Function { name, type_ });
        assert(self@.functions =~= old(self)@.add_function(name@, type_@).functions);
        assert(self@.initializers =~= old(self)@.initializers);
        assert(self@.globals =~= old(self)@.globals);
        assert(self@.bodies =~= old(self)@.bodies);
        result
    }

    /// Sets the initial value of a global.
    pub fn set_initializer(&mut self, global: &Value, value: Value)
        requires
            global@ is Global,
        ensures
            final(self)@ == old(self)@.set_initializer(global@->Global_index, value@),
    {
        let index = match global {
            Value::Global { index, .. } => *index,
            _ => {
                proof {
                    assert(false);
                }
                0
            },
        };
        self.initializers.push(Initializer { global: index, value });
        assert(self@.initializers =~= old(self)@.set_initializer(
            global@->Global_index,
            value@,
        ).initializers);
        assert(self@.functions =~= old(self)@.functions);
        assert(self@.globals =~= old(self)@.globals);
        assert(self@.bodies =~= old(self)@.bodies);
    }

    /// Adds the body that the builder holds.
    pub fn define_function(&mut self, builder: Builder)
        ensures
            final(self)@ == old(self)@.define_function(builder@),
    {
        self.bodies.push(builder);
        assert(self@.bodies =~= old(self)@.define_function(builder@).bodies);
        assert(self@.functions =~= old(self)@.functions);
        assert(self@.globals =~= old(self)@.globals);
        assert(self@.initializers =~= old(self)@.initializers);
    }

    /// The address of the first function that has the given name.
    pub fn get_named_function(&self, name: &String) -> (result: Option<Value>)
        ensures
            match result {
                Some(function) => self@.named_function(name@) == Some(function@),
                None => self@.named_function(name@) is None,
            },
    {
        let mut index: usize = 0;
        while index < self.functions.len()
            invariant
                index <= self.functions.len(),
                find_function(self@.functions.take(index as int), name@) is None,
            decreases self.functions.len() - index,
        {
            proof {
                assert(self@.functions.take(index + 1).drop_last() =~= self@.functions.take(
                    index as int,
                ));
                lemma_find_function(self@.functions, name@, index + 1);
            }
            if self.functions[index].name == *name {
                return Some(
                    Value::Function { index, type_: self.functions[index].type_.duplicate() },
                );
            }
            index += 1;
        }
        assert(self@.functions.take(index as int) =~= self@.functions);
        None
    }

    /// Declares the functions that generated code may call: the coroutine
    /// intrinsics, `malloc` and `free`.
    pub fn declare_intrinsics(&mut self)
        ensures
            final(self)@ == old(self)@.declare_intrinsics(),
    {
        let mut coro_id_arguments: Vec<Type> = Vec::new();
        coro_id_arguments.push(Type::i32());
        coro_id_arguments.push(Type::generic_pointer());
        coro_id_arguments.push(Type::generic_pointer());
        coro_id_arguments.push(Type::generic_pointer());
        assert(type_views(coro_id_arguments@) =~= coro_id_type()->arguments);
        self.add_function(
            String::from_str("llvm.coro.id"),
            Type::function(Type::token(), coro_id_arguments),
        );
        let coro_size_arguments: Vec<Type> = Vec::new();
        assert(type_views(coro_size_arguments@) =~= coro_size_type()->arguments);
        self.add_function(
            String::from_str("llvm.coro.size.i32"),
            Type::function(Type::i32(), coro_size_arguments),
        );
        let mut coro_begin_arguments: Vec<Type> = Vec::new();
        coro_begin_arguments.push(Type::token());
        coro_begin_arguments.push(Type::generic_pointer());
        assert(type_views(coro_begin_arguments@) =~= coro_begin_type()->arguments);
        self.add_function(
            String::from_str("llvm.coro.begin"),
            Type::function(Type::generic_pointer(), coro_begin_arguments),
        );
        let mut coro_end_arguments: Vec<Type> = Vec::new();
        coro_end_arguments.push(Type::generic_pointer());
        coro_end_arguments.push(Type::i1());
        assert(type_views(coro_end_arguments@) =~= coro_end_type()->arguments);
        self.add_function(
            String::from_str("llvm.coro.end"),
            Type::function(Type::i1(), coro_end_arguments),
        );
        let mut coro_free_arguments: Vec<Type> = Vec::new();
        coro_free_arguments.push(Type::token());
        coro_free_arguments.push(Type::generic_pointer());
        assert(type_views(coro_free_arguments@) =~= coro_free_type()->arguments);
        self.add_function(
            String::from_str("llvm.coro.free"),
            Type::function(Type::generic_pointer(), coro_free_arguments),
        );
        let mut malloc_arguments: Vec<Type> = Vec::new();
        malloc_arguments.push(Type::i64());
        assert(type_views(malloc_arguments@) =~= malloc_type()->arguments);
        self.add_function(
            String::from_str("malloc"),
            Type::function(Type::generic_pointer(), malloc_arguments),
        );
        let mut free_arguments: Vec<Type> = Vec::new();
        free_arguments.push(Type::generic_pointer());
        assert(type_views(free_arguments@) =~= free_type()->arguments);
        self.add_function(
            String::from_str("free"),
            Type::function(Type::void(), free_arguments),
        );
    }
}

} // verus!
