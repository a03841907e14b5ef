//! Types of the core language. No inference variable is left in them.

pub use crate::types::Value;
use vstd::prelude::*;

verus! {

/// A function type. Functions may take functions but return values.
#[derive(Debug, PartialEq)]
pub struct Function {
    pub arguments: Vec<Type>,
    pub result: Value,
}

#[derive(Debug, PartialEq)]
pub enum Type {
    Function(Function),
    Value(Value),
}

/// The mathematical value of a core `Type`.
pub enum TypeView {
    Function { arguments: Seq<TypeView>, result: Value },
    Value(Value),
}

/// The mathematical value of a core type.
pub open spec fn type_view(type_: Type) -> TypeView
    decreases type_,
{
    match type_ {
        Type::Function(function) => TypeView::Function {
            arguments: Seq::new(
                function.arguments@.len(),
                |i: int|
                    if 0 <= i < function.arguments.len() {
                        type_view(function.arguments[i])
                    } else {
                        arbitrary()
                    },
            ),
            result: function.result,
        },
        Type::Value(value) => TypeView::Value(value),
    }
}

impl View for Type {
    type V = TypeView;

    open spec fn view(&self) -> TypeView {
        type_view(*self)
    }
}

/// The mathematical values of a sequence of core types.
pub open spec fn type_views(types: Seq<Type>) -> Seq<TypeView> {
    Seq::new(types.len(), |i: int| types[i]@)
}

impl View for Function {
    type V = TypeView;

    open spec fn view(&self) -> TypeView {
        TypeView::Function { arguments: type_views(self.arguments@), result: self.result }
    }
}

/// The view of a function type is the view of its parts.
pub proof fn lemma_function_view(function: Function)
    ensures
        Type::Function(function)@ == function@,
{
    assert(Type::Function(function)@->arguments =~= function@->arguments);
}

impl Function {
    pub fn new(arguments: Vec<Type>, result: Value) -> (function: Self)
        ensures
            function@ == (TypeView::Function { arguments: type_views(arguments@), result }),
    {
        Self { arguments, result }
    }

    pub fn arguments(&self) -> (result: &Vec<Type>)
        ensures
            type_views(result@) == self@->arguments,
    {
        &self.arguments
    }

    pub fn result(&self) -> (result: &Value)
        ensures
            *result == self@->result,
    {
        &self.result
    }
}

impl Clone for Function {
    fn clone(&self) -> (result: Self)
        ensures
            result@ == self@,
    {
        Self { arguments: clone_all(&self.arguments), result: self.result }
    }
}

/// Copies of the given types, in order.
pub fn clone_all(types: &Vec<Type>) -> (result: Vec<Type>)
    ensures
        type_views(result@) == type_views(types@),
    decreases types,
{
    let mut result: Vec<Type> = Vec::new();
    let mut index: usize = 0;
    while index < types.len()
        invariant
            index <= types.len(),
            result.len() == index,
            forall|i: int| 0 <= i < index ==> result[i]@ == types[i]@,
        decreases types.len() - index,
    {
        result.push(types[index].duplicate());
        index += 1;
    }
    assert(type_views(result@) =~= type_views(types@));
    result
}

impl Type {
    /// A copy of the type.
    pub fn duplicate(&self) -> (result: Self)
        ensures
            result@ == self@,
        decreases self,
    {
        match self {
            Type::Function(function) => {
                let result = Function {
                    arguments: clone_all(&function.arguments),
                    result: function.result,
                };
                proof {
                    lemma_function_view(result);
                    lemma_function_view(*function);
                }
                Type::Function(result)
            },
            Type::Value(value) => Type::Value(*value),
        }
    }
}

impl Clone for Type {
    fn clone(&self) -> (result: Self)
        ensures
            result@ == self@,
    {
        self.duplicate()
    }
}

} // verus!
