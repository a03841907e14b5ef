//! Lowering of core types to machine types.
//!
//! A number is a double. A function value is a pointer to a closure: a struct
//! of a pointer to the entry function and of the environment. Through such a
//! pointer the environment is seen as an empty struct, so a caller need not
//! know what a closure captures. An entry function takes a pointer to the
//! environment before its own arguments.

use crate::ir::ast::{Argument, ArgumentView, FunctionDefinition, FunctionDefinitionView};
use crate::ir::types::{type_views, Function, Type, TypeView, Value};
use crate::llvm;
use vstd::prelude::*;

verus! {

/// The machine type of an environment of which nothing is known.
pub open spec fn unsized_environment_type() -> llvm::types::TypeView {
    llvm::types::TypeView::Struct(seq![])
}

/// The machine type of a value of the given core type.
pub open spec fn machine_type(type_: TypeView) -> llvm::types::TypeView
    decreases type_,
{
    match type_ {
        TypeView::Value(_) => llvm::types::TypeView::Double,
        TypeView::Function { arguments, result } => llvm::types::TypeView::Pointer(
            Box::new(
                llvm::types::TypeView::Struct(
                    seq![
                        llvm::types::TypeView::Pointer(
                            Box::new(
                                llvm::types::TypeView::Function {
                                    result: Box::new(llvm::types::TypeView::Double),
                                    arguments: seq![
                                        llvm::types::TypeView::Pointer(
                                            Box::new(unsized_environment_type()),
                                        ),
                                    ] + Seq::new(
                                        arguments.len(),
                                        |i: int|
                                            if 0 <= i < arguments.len() {
                                                machine_type(arguments[i])
                                            } else {
                                                arbitrary()
                                            },
                                    ),
                                },
                            ),
                        ),
                        unsized_environment_type(),
                    ],
                ),
            ),
        ),
    }
}

/// The machine types of values of the given core types, in order.
pub open spec fn machine_types(types: Seq<TypeView>) -> Seq<llvm::types::TypeView> {
    Seq::new(types.len(), |i: int| machine_type(types[i]))
}

/// The machine type of a value of the given value type.
pub open spec fn value_type(value: Value) -> llvm::types::TypeView {
    llvm::types::TypeView::Double
}

/// The machine type of the entry function of a function of the given type:
/// it takes a pointer to the environment, then the arguments of the function.
pub open spec fn entry_function_type(function: TypeView) -> llvm::types::TypeView
    recommends
        function is Function,
{
    llvm::types::TypeView::Function {
        result: Box::new(value_type(function->result)),
        arguments: seq![llvm::types::TypeView::Pointer(Box::new(unsized_environment_type()))]
            + machine_types(function->arguments),
    }
}

/// The machine type of a closure of a function of the given type, as it is
/// seen by one that does not know what the closure captures.
pub open spec fn unsized_closure_type(function: TypeView) -> llvm::types::TypeView
    recommends
        function is Function,
{
    llvm::types::TypeView::Struct(
        seq![
            llvm::types::TypeView::Pointer(Box::new(entry_function_type(function))),
            unsized_environment_type(),
        ],
    )
}

/// The machine type of an environment that holds the given variables.
pub open spec fn environment_type(free_variables: Seq<ArgumentView>) -> llvm::types::TypeView {
    llvm::types::TypeView::Struct(
        Seq::new(free_variables.len(), |i: int| machine_type(free_variables[i].type_)),
    )
}

/// The machine type of the closure of the given function definition, with
/// the environment that the definition lists.
pub open spec fn closure_type(definition: FunctionDefinitionView) -> llvm::types::TypeView {
    llvm::types::TypeView::Struct(
        seq![
            llvm::types::TypeView::Pointer(Box::new(entry_function_type(definition.type_()))),
            environment_type(definition.environment),
        ],
    )
}

/// A function value is a pointer to a closure whose environment is not known.
pub proof fn lemma_machine_type_of_function(function: TypeView)
    requires
        function is Function,
    ensures
        machine_type(function) == llvm::types::TypeView::Pointer(
            Box::new(unsized_closure_type(function)),
        ),
{
    let entry = machine_type(function)->Pointer_0->Struct_0[0]->Pointer_0;
    assert(entry->arguments =~= entry_function_type(function)->arguments);
    assert(machine_type(function)->Pointer_0->Struct_0 =~= unsized_closure_type(
        function,
    )->Struct_0);
}

pub struct TypeCompiler {}

impl TypeCompiler {
    pub fn new() -> Self {
        Self {  }
    }

    /// The machine type of a value of the given core type.
    pub fn compile(&self, type_: &Type) -> (result: llvm::types::Type)
        ensures
            result@ == machine_type(type_@),
        decreases type_, 0nat,
    {
        match type_ {
            Type::Function(function) => {
                proof {
                    crate::ir::types::lemma_function_view(*function);
                    lemma_machine_type_of_function(function@);
                }
                llvm::types::Type::pointer(self.compile_unsized_closure(function))
            },
            Type::Value(value) => self.compile_value(value),
        }
    }

    /// The machine type of a value of the given value type.
    pub fn compile_value(&self, value: &Value) -> (result: llvm::types::Type)
        ensures
            result@ == value_type(*value),
    {
        match value {
            Value::Number => llvm::types::Type::double(),
        }
    }

    /// The machine type of the entry function of a function of the given
    /// type. Its first argument is the pointer to the environment.
    pub fn compile_function(&self, function: &Function) -> (result: llvm::types::Type)
        ensures
            result@ == entry_function_type(function@),
            result@->arguments.len() == function@->arguments.len() + 1,
            result@->arguments[0] == llvm::types::TypeView::Pointer(
                Box::new(unsized_environment_type()),
            ),
        decreases function, 0nat,
    {
        let mut arguments: Vec<llvm::types::Type> = Vec::new();
        arguments.push(llvm::types::Type::pointer(self.compile_unsized_environment()));
        let types = &function.arguments;
        let mut index: usize = 0;
        while index < types.len()
            invariant
                index <= types.len(),
                types == &function.arguments,
                arguments.len() == index + 1,
                arguments[0]@ == llvm::types::TypeView::Pointer(
                    Box::new(unsized_environment_type()),
                ),
                forall|j: int|
                    1 <= j <= index ==> (#[trigger] arguments[j])@ == machine_type(
                        types[j - 1]@,
                    ),
            decreases types.len() - index,
        {
            proof {
                assert(decreases_to!(function => function.arguments));
                assert(decreases_to!(types => types[index as int]));
            }
            arguments.push(self.compile(&types[index]));
            index += 1;
        }
        proof {
            let expected = entry_function_type(function@)->arguments;
            assert(expected.len() == arguments.len());
            assert forall|j: int| 0 <= j < arguments.len() implies llvm::types::type_views(
                arguments@,
            )[j] == expected[j] by {
                if j > 0 {
                    assert(arguments[j]@ == machine_type(types[j - 1]@));
                    assert(expected[j] == machine_types(function@->arguments)[j - 1]);
                }
            }
            assert(llvm::types::type_views(arguments@) =~= expected);
        }
        llvm::types::Type::function(self.compile_value(&function.result), arguments)
    }

    /// The machine type of the closure of the given function definition, with
    /// the environment that the definition lists.
    pub fn compile_closure(&self, function_definition: &FunctionDefinition) -> (result:
        llvm::types::Type)
        ensures
            result@ == closure_type(function_definition@),
    {
        let mut elements: Vec<llvm::types::Type> = Vec::new();
        elements.push(
            llvm::types::Type::pointer(self.compile_function(&function_definition.type_())),
        );
        elements.push(self.compile_environment(&function_definition.environment));
        assert(llvm::types::type_views(elements@) =~= closure_type(
            function_definition@,
        )->Struct_0);
        llvm::types::Type::struct_(elements)
    }

    /// The machine type of a closure of a function of the given type, as it
    /// is seen by one that does not know what the closure captures.
    pub fn compile_unsized_closure(&self, function: &Function) -> (result: llvm::types::Type)
        ensures
            result@ == unsized_closure_type(function@),
        decreases function, 1nat,
    {
        let mut elements: Vec<llvm::types::Type> = Vec::new();
        elements.push(llvm::types::Type::pointer(self.compile_function(function)));
        elements.push(self.compile_unsized_environment());
        assert(llvm::types::type_views(elements@) =~= unsized_closure_type(function@)->Struct_0);
        llvm::types::Type::struct_(elements)
    }

    /// The machine type of an environment that holds the given variables.
    pub fn compile_environment(&self, free_variables: &Vec<Argument>) -> (result:
        llvm::types::Type)
        ensures
            result@ == environment_type(crate::ir::ast::argument_views(free_variables@)),
    {
        let mut elements: Vec<llvm::types::Type> = Vec::new();
        let mut index: usize = 0;
        while index < free_variables.len()
            invariant
                index <= free_variables.len(),
                elements.len() == index,
                forall|i: int|
                    0 <= i < index ==> (#[trigger] elements[i])@ == machine_type(
                        free_variables[i].type_@,
                    ),
            decreases free_variables.len() - index,
        {
            elements.push(self.compile(&free_variables[index].type_));
            index += 1;
        }
        assert(llvm::types::type_views(elements@) =~= environment_type(
            crate::ir::ast::argument_views(free_variables@),
        )->Struct_0);
        llvm::types::Type::struct_(elements)
    }

    /// The machine type of an environment of which nothing is known.
    pub fn compile_unsized_environment(&self) -> (result: llvm::types::Type)
        ensures
            result@ == unsized_environment_type(),
    {
        let elements: Vec<llvm::types::Type> = Vec::new();
        assert(llvm::types::type_views(elements@) =~= seq![]);
        llvm::types::Type::struct_(elements)
    }
}

} // verus!
