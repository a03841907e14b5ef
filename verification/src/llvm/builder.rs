//! Builders of function bodies.
//!
//! A body is a list of named blocks and a list of instructions, each in one
//! of the blocks. A builder appends instructions to the block that it is
//! positioned at. The result of an instruction is named by the place of the
//! instruction in the body.

use crate::llvm::module::Module;
use crate::llvm::types::{Type, TypeView};
use crate::llvm::value::{const_int, const_null, type_of, value_views, Value, ValueView};
use crate::names::{name_views, Name};
use vstd::prelude::*;
use vstd::string::StringExecFns;

verus! {

#[derive(Debug, PartialEq)]
pub enum Instruction {
    FAdd { lhs: Value, rhs: Value },
    FSub { lhs: Value, rhs: Value },
    FMul { lhs: Value, rhs: Value },
    FDiv { lhs: Value, rhs: Value },
    Call { function: Value, arguments: Vec<Value> },
    Load { pointer: Value },
    Store { value: Value, pointer: Value },
    GetElementPointer { pointer: Value, indices: Vec<Value> },
    BitCast { value: Value, type_: Type },
    Branch { block: usize },
    Return { value: Value },
    ReturnVoid,
}

/// An instruction in the block at the given place.
#[derive(Debug, PartialEq)]
pub struct Placed {
    pub block: usize,
    pub instruction: Instruction,
}

#[derive(Debug, PartialEq)]
pub struct Builder {
    pub function: usize,
    pub blocks: Vec<String>,
    pub position: usize,
    pub instructions: Vec<Placed>,
}

/// The mathematical value of an `Instruction`.
pub enum InstructionView {
    FAdd { lhs: ValueView, rhs: ValueView },
    FSub { lhs: ValueView, rhs: ValueView },
    FMul { lhs: ValueView, rhs: ValueView },
    FDiv { lhs: ValueView, rhs: ValueView },
    Call { function: ValueView, arguments: Seq<ValueView> },
    Load { pointer: ValueView },
    Store { value: ValueView, pointer: ValueView },
    GetElementPointer { pointer: ValueView, indices: Seq<ValueView> },
    BitCast { value: ValueView, type_: TypeView },
    Branch { block: usize },
    Return { value: ValueView },
    ReturnVoid,
}

/// The mathematical value of a `Placed` instruction.
pub struct PlacedView {
    pub block: usize,
    pub instruction: InstructionView,
}

/// The mathematical value of a `Builder`.
pub struct BuilderView {
    pub function: usize,
    pub blocks: Seq<Name>,
    pub position: usize,
    pub instructions: Seq<PlacedView>,
}

impl View for Instruction {
    type V = InstructionView;

    open spec fn view(&self) -> InstructionView {
        match self {
            Instruction::FAdd { lhs, rhs } => InstructionView::FAdd { lhs: lhs@, rhs: rhs@ },
            Instruction::FSub { lhs, rhs } => InstructionView::FSub { lhs: lhs@, rhs: rhs@ },
            Instruction::FMul { lhs, rhs } => InstructionView::FMul { lhs: lhs@, rhs: rhs@ },
            Instruction::FDiv { lhs, rhs } => InstructionView::FDiv { lhs: lhs@, rhs: rhs@ },
            Instruction::Call { function, arguments } => InstructionView::Call {
                function: function@,
                arguments: value_views(arguments@),
            },
            Instruction::Load { pointer } => InstructionView::Load { pointer: pointer@ },
            Instruction::Store { value, pointer } => InstructionView::Store {
                value: value@,
                pointer: pointer@,
            },
            Instruction::GetElementPointer { pointer, indices } => {
                InstructionView::GetElementPointer {
                    pointer: pointer@,
                    indices: value_views(indices@),
                }
            },
            Instruction::BitCast { value, type_ } => InstructionView::BitCast {
                value: value@,
                type_: type_@,
            },
            Instruction::Branch { block } => InstructionView::Branch { block: *block },
            Instruction::Return { value } => InstructionView::Return { value: value@ },
            Instruction::ReturnVoid => InstructionView::ReturnVoid,
        }
    }
}

impl View for Placed {
    type V = PlacedView;

    open spec fn view(&self) -> PlacedView {
        PlacedView { block: self.block, instruction: self.instruction@ }
    }
}

impl View for Builder {
    type V = BuilderView;

    open spec fn view(&self) -> BuilderView {
        BuilderView {
            function: self.function,
            blocks: name_views(self.blocks@),
            position: self.position,
            instructions: Seq::new(self.instructions@.len(), |i: int| self.instructions[i]@),
        }
    }
}

/// The type that element `indices` of a value of type `type_` has, where
/// every index picks a field of a struct.
pub open spec fn indexed_type(type_: TypeView, indices: Seq<ValueView>) -> Option<TypeView>
    decreases indices.len(),
{
    if indices.len() == 0 {
        Some(type_)
    } else {
        match indexed_type(type_, indices.drop_last()) {
            Some(TypeView::Struct(fields)) => match indices.last() {
                ValueView::Integer { value, .. } => if value < fields.len() {
                    Some(fields[value as int])
                } else {
                    None
                },
                _ => None,
            },
            _ => None,
        }
    }
}

/// The type of the address that indexing `pointer` by `indices` gives. The
/// first index steps over whole values behind the pointer, the rest pick
/// fields.
pub open spec fn element_pointer_type(pointer: ValueView, indices: Seq<ValueView>) -> Option<
    TypeView,
> {
    match type_of(pointer) {
        TypeView::Pointer(element) => if indices.len() == 0 {
            None
        } else {
            match indexed_type(*element, indices.skip(1)) {
                Some(type_) => Some(TypeView::Pointer(Box::new(type_))),
                None => None,
            }
        },
        _ => None,
    }
}

/// The type that a call of `function` gives.
pub open spec fn call_type(function: ValueView) -> Option<TypeView> {
    match type_of(function) {
        TypeView::Pointer(callee) => match *callee {
            TypeView::Function { result, .. } => Some(*result),
            _ => None,
        },
        _ => None,
    }
}

/// Whether the module has a function of the given name that can be called.
pub open spec fn callable(module: crate::llvm::module::ModuleView, name: Name) -> bool {
    module.named_function(name) matches Some(function) && call_type(function) is Some
}

/// A call of the first function of the module that has the given name.
pub open spec fn call_by_name(
    module: crate::llvm::module::ModuleView,
    name: Name,
    arguments: Seq<ValueView>,
) -> InstructionView {
    InstructionView::Call { function: module.named_function(name)->Some_0, arguments }
}

/// The type that a call of the first function of the module that has the
/// given name gives.
pub open spec fn call_by_name_type(module: crate::llvm::module::ModuleView, name: Name) -> TypeView {
    call_type(module.named_function(name)->Some_0)->Some_0
}

/// The type that loading from `pointer` gives.
pub open spec fn load_type(pointer: ValueView) -> Option<TypeView> {
    match type_of(pointer) {
        TypeView::Pointer(element) => Some(*element),
        _ => None,
    }
}

impl BuilderView {
    /// The builder of the body of the given function, with no block yet.
    pub open spec fn new(function: usize) -> BuilderView {
        BuilderView { function, blocks: Seq::empty(), position: 0, instructions: Seq::empty() }
    }

    /// Whether the builder is positioned at a block.
    pub open spec fn positioned(self) -> bool {
        self.position < self.blocks.len()
    }

    /// The builder with one more block.
    pub open spec fn append_basic_block(self, name: Name) -> BuilderView {
        BuilderView { blocks: self.blocks.push(name), ..self }
    }

    /// The builder positioned at the given block.
    pub open spec fn position_at_end(self, block: usize) -> BuilderView {
        BuilderView { position: block, ..self }
    }

    /// The builder with one more instruction in the block that it is
    /// positioned at.
    pub open spec fn emit(self, instruction: InstructionView) -> BuilderView {
        BuilderView {
            instructions: self.instructions.push(
                PlacedView { block: self.position, instruction },
            ),
            ..self
        }
    }

    /// The result of the instruction that `emit` adds, where it has the given
    /// type.
    pub open spec fn next_register(self, type_: TypeView) -> ValueView {
        ValueView::Register { index: self.instructions.len() as usize, type_ }
    }

    /// The builder with an empty block named `entry`, positioned at it.
    pub open spec fn enter(self) -> BuilderView {
        self.append_basic_block("entry"@).position_at_end(self.blocks.len() as usize)
    }
}

impl Builder {
    /// A builder of the body of the given function.
    pub fn new(function: &Value) -> (result: Self)
        requires
            function@ is Function,
        ensures
            result@ == BuilderView::new(function@->Function_index),
    {
        let index = match function {
            Value::Function { index, .. } => *index,
            _ => {
                proof {
                    assert(false);
                }
                0
            },
        };
        let result = Self {
            function: index,
            blocks: Vec::new(),
            position: 0,
            instructions: Vec::new(),
        };
        assert(result@.blocks =~= Seq::empty());
        assert(result@.instructions =~= Seq::empty());
        result
    }

    /// Appends an empty block and gives its place.
    pub fn append_basic_block(&mut self, name: &str) -> (result: usize)
        ensures
            final(self)@ == old(self)@.append_basic_block(name@),
            result == old(self)@.blocks.len(),
    {
        let result = self.blocks.len();
        self.blocks.push(String::from_str(name));
        assert(self@.blocks =~= old(self)@.blocks.push(name@));
        assert(self@.instructions =~= old(self)@.instructions);
        result
    }

    /// Positions the builder at the end of the given block.
    pub fn position_at_end(&mut self, block: usize)
        ensures
            final(self)@ == old(self)@.position_at_end(block),
    {
        self.position = block;
        assert(self@.blocks =~= old(self)@.blocks);
        assert(self@.instructions =~= old(self)@.instructions);
    }

    fn emit(&mut self, instruction: Instruction)
        ensures
            final(self)@ == old(self)@.emit(instruction@),
    {
        self.instructions.push(Placed { block: self.position, instruction });
        assert(self@.blocks =~= old(self)@.blocks);
        assert(self@.instructions =~= old(self)@.emit(instruction@).instructions);
    }

    fn next_register(&self, type_: Type) -> (result: Value)
        ensures
            result@ == self@.next_register(type_@),
    {
        Value::Register { index: self.instructions.len(), type_ }
    }

    pub fn build_br(&mut self, label: usize)
        requires
            old(self)@.positioned(),
        ensures
            final(self)@ == old(self)@.emit(InstructionView::Branch { block: label }),
    {
        self.emit(Instruction::Branch { block: label });
    }

    /// Emits a call of a function through its address and gives its result.
    pub fn build_call(&mut self, function: &Value, arguments: Vec<Value>) -> (result: Value)
        requires
            old(self)@.positioned(),
            call_type(function@) is Some,
        ensures
            final(self)@ == old(self)@.emit(
                InstructionView::Call { function: function@, arguments: value_views(arguments@) },
            ),
            result@ == old(self)@.next_register(call_type(function@)->Some_0),
    {
        let type_ = match function.type_() {
            Type::Pointer(callee) => match *callee {
                Type::Function { result, arguments } => {
                    proof {
                        crate::llvm::types::lemma_function_view(result, arguments);
                    }
                    *result
                },
                _ => {
                    proof {
                        reveal_with_fuel(crate::llvm::types::type_view, 2);
                        assert(false);
                    }
                    Type::Void
                },
            },
            _ => {
                proof {
                    assert(false);
                }
                Type::Void
            },
        };
        let result = self.next_register(type_);
        self.emit(Instruction::Call { function: function.duplicate(), arguments });
        result
    }

    /// Emits a call of the first function of the module that has the given
    /// name, and gives its result.
    pub fn build_call_with_name(
        &mut self,
        module: &Module,
        function_name: &str,
        arguments: Vec<Value>,
    ) -> (result: Value)
        requires
            old(self)@.positioned(),
            callable(module@, function_name@),
        ensures
            final(self)@ == old(self)@.emit(
                call_by_name(module@, function_name@, value_views(arguments@)),
            ),
            result@ == old(self)@.next_register(call_by_name_type(module@, function_name@)),
    {
        let name = String::from_str(function_name);
        assert(name@ == function_name@);
        match module.get_named_function(&name) {
            Some(function) => self.build_call(&function, arguments),
            None => {
                proof {
                    assert(false);
                }
                Value::Real(0)
            },
        }
    }

    pub fn build_ret(&mut self, value: &Value)
        requires
            old(self)@.positioned(),
        ensures
            final(self)@ == old(self)@.emit(InstructionView::Return { value: value@ }),
    {
        self.emit(Instruction::Return { value: value.duplicate() });
    }

    pub fn build_ret_void(&mut self)
        requires
            old(self)@.positioned(),
        ensures
            final(self)@ == old(self)@.emit(InstructionView::ReturnVoid),
    {
        self.emit(Instruction::ReturnVoid);
    }

    pub fn build_fadd(&mut self, lhs: &Value, rhs: &Value) -> (result: Value)
        requires
            old(self)@.positioned(),
        ensures
            final(self)@ == old(self)@.emit(InstructionView::FAdd { lhs: lhs@, rhs: rhs@ }),
            result@ == old(self)@.next_register(type_of(lhs@)),
    {
        let result = self.next_register(lhs.type_());
        self.emit(Instruction::FAdd { lhs: lhs.duplicate(), rhs: rhs.duplicate() });
        result
    }

    pub fn build_fsub(&mut self, lhs: &Value, rhs: &Value) -> (result: Value)
        requires
            old(self)@.positioned(),
        ensures
            final(self)@ == old(self)@.emit(InstructionView::FSub { lhs: lhs@, rhs: rhs@ }),
            result@ == old(self)@.next_register(type_of(lhs@)),
    {
        let result = self.next_register(lhs.type_());
        self.emit(Instruction::FSub { lhs: lhs.duplicate(), rhs: rhs.duplicate() });
        result
    }

    pub fn build_fmul(&mut self, lhs: &Value, rhs: &Value) -> (result: Value)
        requires
            old(self)@.positioned(),
        ensures
            final(self)@ == old(self)@.emit(InstructionView::FMul { lhs: lhs@, rhs: rhs@ }),
            result@ == old(self)@.next_register(type_of(lhs@)),
    {
        let result = self.next_register(lhs.type_());
        self.emit(Instruction::FMul { lhs: lhs.duplicate(), rhs: rhs.duplicate() });
        result
    }

    pub fn build_fdiv(&mut self, lhs: &Value, rhs: &Value) -> (result: Value)
        requires
            old(self)@.positioned(),
        ensures
            final(self)@ == old(self)@.emit(InstructionView::FDiv { lhs: lhs@, rhs: rhs@ }),
            result@ == old(self)@.next_register(type_of(lhs@)),
    {
        let result = self.next_register(lhs.type_());
        self.emit(Instruction::FDiv { lhs: lhs.duplicate(), rhs: rhs.duplicate() });
        result
    }

    /// Emits a load of what a pointer points to and gives what is loaded.
    pub fn build_load(&mut self, pointer: &Value) -> (result: Value)
        requires
            old(self)@.positioned(),
            load_type(pointer@) is Some,
        ensures
            final(self)@ == old(self)@.emit(InstructionView::Load { pointer: pointer@ }),
            result@ == old(self)@.next_register(load_type(pointer@)->Some_0),
    {
        let type_ = match pointer.type_() {
            Type::Pointer(element) => *element,
            _ => {
                proof {
                    assert(false);
                }
                Type::Void
            },
        };
        let result = self.next_register(type_);
        self.emit(Instruction::Load { pointer: pointer.duplicate() });
        result
    }

    pub fn build_store(&mut self, value: &Value, pointer: &Value)
        requires
            old(self)@.positioned(),
        ensures
            final(self)@ == old(self)@.emit(
                InstructionView::Store { value: value@, pointer: pointer@ },
            ),
    {
        self.emit(Instruction::Store { value: value.duplicate(), pointer: pointer.duplicate() });
    }

    /// Emits the computation of the address of an element behind a pointer
    /// and gives the address.
    pub fn build_gep(&mut self, pointer: &Value, indices: Vec<Value>) -> (result: Value)
        requires
            old(self)@.positioned(),
            element_pointer_type(pointer@, value_views(indices@)) is Some,
        ensures
            final(self)@ == old(self)@.emit(
                InstructionView::GetElementPointer {
                    pointer: pointer@,
                    indices: value_views(indices@),
                },
            ),
            result@ == old(self)@.next_register(
                element_pointer_type(pointer@, value_views(indices@))->Some_0,
            ),
    {
        let mut type_ = match pointer.type_() {
            Type::Pointer(element) => *element,
            _ => {
                proof {
                    assert(false);
                }
                Type::Void
            },
        };
        let ghost element = type_@;
        let ghost rest = value_views(indices@).skip(1);
        let mut index: usize = 1;
        assert(rest.take(0) =~= Seq::empty());
        while index < indices.len()
            invariant
                1 <= index <= indices.len(),
                rest == value_views(indices@).skip(1),
                indexed_type(element, rest) is Some,
                indexed_type(element, rest.take(index - 1)) == Some(type_@),
            decreases indices.len() - index,
        {
            proof {
                assert(rest.take(index as int).drop_last() =~= rest.take(index - 1));
                assert(rest.take(index as int).last() == indices[index as int]@);
                lemma_indexed_type_prefix(element, rest, index as int);
            }
            type_ = match type_ {
                Type::Struct(fields) => match &indices[index] {
                    Value::Integer { value, .. } => {
                        proof {
                            crate::llvm::types::lemma_struct_view(fields);
                        }
                        if *value < fields.len() as u64 {
                            fields[*value as usize].duplicate()
                        } else {
                            proof {
                                assert(false);
                            }
                            Type::Void
                        }
                    },
                    _ => {
                        proof {
                            assert(false);
                        }
                        Type::Void
                    },
                },
                _ => {
                    proof {
                        assert(false);
                    }
                    Type::Void
                },
            };
            index += 1;
        }
        assert(rest.take(index - 1) =~= rest);
        let result = self.next_register(Type::pointer(type_));
        self.emit(Instruction::GetElementPointer { pointer: pointer.duplicate(), indices });
        result
    }

    pub fn build_bit_cast(&mut self, value: &Value, type_: Type) -> (result: Value)
        requires
            old(self)@.positioned(),
        ensures
            final(self)@ == old(self)@.emit(
                InstructionView::BitCast { value: value@, type_: type_@ },
            ),
            result@ == old(self)@.next_register(type_@),
    {
        let result = self.next_register(type_.duplicate());
        self.emit(Instruction::BitCast { value: value.duplicate(), type_ });
        result
    }

    pub fn build_coro_id(&mut self, module: &Module) -> (result: Value)
        requires
            old(self)@.positioned(),
            callable(module@, "llvm.coro.id"@),
        ensures
            final(self)@ == old(self)@.emit(
                call_by_name(
                    module@,
                    "llvm.coro.id"@,
                    seq![
                        ValueView::Integer { bits: 32, value: 0 },
                        ValueView::Null(TypeView::generic_pointer()),
                        ValueView::Null(TypeView::generic_pointer()),
                        ValueView::Null(TypeView::generic_pointer()),
                    ],
                ),
            ),
            result@ == old(self)@.next_register(call_by_name_type(module@, "llvm.coro.id"@)),
    {
        let mut arguments: Vec<Value> = Vec::new();
        arguments.push(const_int(32, 0));
        arguments.push(const_null(Type::generic_pointer()));
        arguments.push(const_null(Type::generic_pointer()));
        arguments.push(const_null(Type::generic_pointer()));
        assert(value_views(arguments@) =~= seq![
            ValueView::Integer { bits: 32, value: 0 },
            ValueView::Null(TypeView::generic_pointer()),
            ValueView::Null(TypeView::generic_pointer()),
            ValueView::Null(TypeView::generic_pointer()),
        ]);
        self.build_call_with_name(module, "llvm.coro.id", arguments)
    }

    pub fn build_coro_size_i32(&mut self, module: &Module) -> (result: Value)
        requires
            old(self)@.positioned(),
            callable(module@, "llvm.coro.size.i32"@),
        ensures
            final(self)@ == old(self)@.emit(
                call_by_name(module@, "llvm.coro.size.i32"@, seq![]),
            ),
            result@ == old(self)@.next_register(
                call_by_name_type(module@, "llvm.coro.size.i32"@),
            ),
    {
        let arguments: Vec<Value> = Vec::new();
        assert(value_views(arguments@) =~= seq![]);
        self.build_call_with_name(module, "llvm.coro.size.i32", arguments)
    }

    pub fn build_coro_begin(&mut self, module: &Module, id: &Value, frame: &Value) -> (result:
        Value)
        requires
            old(self)@.positioned(),
            callable(module@, "llvm.coro.begin"@),
        ensures
            final(self)@ == old(self)@.emit(
                call_by_name(module@, "llvm.coro.begin"@, seq![id@, frame@]),
            ),
            result@ == old(self)@.next_register(call_by_name_type(module@, "llvm.coro.begin"@)),
    {
        let mut arguments: Vec<Value> = Vec::new();
        arguments.push(id.duplicate());
        arguments.push(frame.duplicate());
        assert(value_views(arguments@) =~= seq![id@, frame@]);
        self.build_call_with_name(module, "llvm.coro.begin", arguments)
    }

    pub fn build_coro_end(&mut self, module: &Module, handle: &Value)
        requires
            old(self)@.positioned(),
            callable(module@, "llvm.coro.end"@),
        ensures
            final(self)@ == old(self)@.emit(
                call_by_name(
                    module@,
                    "llvm.coro.end"@,
                    seq![handle@, ValueView::Integer { bits: 1, value: 0 }],
                ),
            ),
    {
        let mut arguments: Vec<Value> = Vec::new();
        arguments.push(handle.duplicate());
        arguments.push(const_int(1, 0));
        assert(value_views(arguments@) =~= seq![
            handle@,
            ValueView::Integer { bits: 1, value: 0 },
        ]);
        self.build_call_with_name(module, "llvm.coro.end", arguments);
    }

    pub fn build_coro_free(&mut self, module: &Module, id: &Value, handle: &Value) -> (result:
        Value)
        requires
            old(self)@.positioned(),
            callable(module@, "llvm.coro.free"@),
        ensures
            final(self)@ == old(self)@.emit(
                call_by_name(module@, "llvm.coro.free"@, seq![id@, handle@]),
            ),
            result@ == old(self)@.next_register(call_by_name_type(module@, "llvm.coro.free"@)),
    {
        let mut arguments: Vec<Value> = Vec::new();
        arguments.push(id.duplicate());
        arguments.push(handle.duplicate());
        assert(value_views(arguments@) =~= seq![id@, handle@]);
        self.build_call_with_name(module, "llvm.coro.free", arguments)
    }

    /// Emits a call of `malloc` for the given number of bytes and gives the
    /// address of the memory.
    pub fn build_malloc(&mut self, module: &Module, size: &Value) -> (result: Value)
        requires
            old(self)@.positioned(),
            callable(module@, "malloc"@),
        ensures
            final(self)@ == old(self)@.emit(call_by_name(module@, "malloc"@, seq![size@])),
            result@ == old(self)@.next_register(call_by_name_type(module@, "malloc"@)),
    {
        let mut arguments: Vec<Value> = Vec::new();
        arguments.push(size.duplicate());
        assert(value_views(arguments@) =~= seq![size@]);
        self.build_call_with_name(module, "malloc", arguments)
    }

    /// Emits a call of `free` for the memory at the given address.
    pub fn build_free(&mut self, module: &Module, pointer: &Value)
        requires
            old(self)@.positioned(),
            callable(module@, "free"@),
        ensures
            final(self)@ == old(self)@.emit(call_by_name(module@, "free"@, seq![pointer@])),
    {
        let mut arguments: Vec<Value> = Vec::new();
        arguments.push(pointer.duplicate());
        assert(value_views(arguments@) =~= seq![pointer@]);
        self.build_call_with_name(module, "free", arguments);
    }
}

/// Where indexing by all indices gives a type, indexing by the first of them
/// gives one too.
pub proof fn lemma_indexed_type_prefix(type_: TypeView, indices: Seq<ValueView>, length: int)
    requires
        0 <= length <= indices.len(),
        indexed_type(type_, indices) is Some,
    ensures
        indexed_type(type_, indices.take(length)) is Some,
    decreases indices.len(),
{
    if length < indices.len() {
        assert(indices.take(length) =~= indices.drop_last().take(length));
        lemma_indexed_type_prefix(type_, indices.drop_last(), length);
    } else {
        assert(indices.take(length) =~= indices);
    }
}

} // verus!
