//! Machine types.

use crate::llvm::value::Value;
use vstd::prelude::*;

verus! {

#[derive(Debug, PartialEq)]
pub enum Type {
    Void,
    Double,
    /// An integer of the given width in bits.
    Integer(u32),
    Token,
    Pointer(Box<Type>),
    Struct(Vec<Type>),
    Function { result: Box<Type>, arguments: Vec<Type> },
}

/// What sort of type a type is, without its parts.
#[derive(Clone, Copy, Debug, PartialEq, Eq, Structural)]
pub enum TypeKind {
    Void,
    Double,
    Integer,
    Token,
    Pointer,
    Struct,
    Function,
}

/// The mathematical value of a machine `Type`.
pub enum TypeView {
    Void,
    Double,
    Integer(u32),
    Token,
    Pointer(Box<TypeView>),
    Struct(Seq<TypeView>),
    Function { result: Box<TypeView>, arguments: Seq<TypeView> },
}

/// The mathematical value of a machine type.
pub open spec fn type_view(type_: Type) -> TypeView
    decreases type_,
{
    match type_ {
        Type::Void => TypeView::Void,
        Type::Double => TypeView::Double,
        Type::Integer(bits) => TypeView::Integer(bits),
        Type::Token => TypeView::Token,
        Type::Pointer(element) => TypeView::Pointer(Box::new(type_view(*element))),
        Type::Struct(elements) => TypeView::Struct(
            Seq::new(
                elements@.len(),
                |i: int|
                    if 0 <= i < elements.len() {
                        type_view(elements[i])
                    } else {
                        arbitrary()
                    },
            ),
        ),
        Type::Function { result, arguments } => TypeView::Function {
            result: Box::new(type_view(*result)),
            arguments: Seq::new(
                arguments@.len(),
                |i: int|
                    if 0 <= i < arguments.len() {
                        type_view(arguments[i])
                    } else {
                        arbitrary()
                    },
            ),
        },
    }
}

impl View for Type {
    type V = TypeView;

    open spec fn view(&self) -> TypeView {
        type_view(*self)
    }
}

/// The mathematical values of a sequence of machine types.
pub open spec fn type_views(types: Seq<Type>) -> Seq<TypeView> {
    Seq::new(types.len(), |i: int| types[i]@)
}

/// The view of a struct type holds the views of its elements.
pub proof fn lemma_struct_view(elements: Vec<Type>)
    ensures
        Type::Struct(elements)@ == TypeView::Struct(type_views(elements@)),
{
    assert(Type::Struct(elements)@->Struct_0 =~= type_views(elements@));
}

/// The view of a function type holds the views of its argument types.
pub proof fn lemma_function_view(result: Box<Type>, arguments: Vec<Type>)
    ensures
        (Type::Function { result, arguments })@ == (TypeView::Function {
            result: Box::new(result@),
            arguments: type_views(arguments@),
        }),
{
    assert((Type::Function { result, arguments })@->arguments =~= type_views(arguments@));
}

impl TypeView {
    /// The sort of the type.
    pub open spec fn kind(self) -> TypeKind {
        match self {
            TypeView::Void => TypeKind::Void,
            TypeView::Double => TypeKind::Double,
            TypeView::Integer(_) => TypeKind::Integer,
            TypeView::Token => TypeKind::Token,
            TypeView::Pointer(_) => TypeKind::Pointer,
            TypeView::Struct(_) => TypeKind::Struct,
            TypeView::Function { .. } => TypeKind::Function,
        }
    }

    /// The type of pointers to bytes.
    pub open spec fn generic_pointer() -> TypeView {
        TypeView::Pointer(Box::new(TypeView::Integer(8)))
    }
}

impl Type {
    pub fn void() -> (result: Self)
        ensures
            result@ == TypeView::Void,
    {
        Type::Void
    }

    pub fn double() -> (result: Self)
        ensures
            result@ == TypeView::Double,
    {
        Type::Double
    }

    pub fn i1() -> (result: Self)
        ensures
            result@ == TypeView::Integer(1),
    {
        Type::Integer(1)
    }

    pub fn i8() -> (result: Self)
        ensures
            result@ == TypeView::Integer(8),
    {
        Type::Integer(8)
    }

    pub fn i32() -> (result: Self)
        ensures
            result@ == TypeView::Integer(32),
    {
        Type::Integer(32)
    }

    pub fn i64() -> (result: Self)
        ensures
            result@ == TypeView::Integer(64),
    {
        Type::Integer(64)
    }

    pub fn token() -> (result: Self)
        ensures
            result@ == TypeView::Token,
    {
        Type::Token
    }

    pub fn pointer(element: Type) -> (result: Self)
        ensures
            result@ == TypeView::Pointer(Box::new(element@)),
    {
        Type::Pointer(Box::new(element))
    }

    /// The type of pointers to bytes.
    pub fn generic_pointer() -> (result: Self)
        ensures
            result@ == TypeView::generic_pointer(),
    {
        Type::pointer(Type::i8())
    }

    pub fn struct_(elements: Vec<Type>) -> (result: Self)
        ensures
            result@ == TypeView::Struct(type_views(elements@)),
    {
        proof {
            lemma_struct_view(elements);
        }
        Type::Struct(elements)
    }

    pub fn function(result: Type, arguments: Vec<Type>) -> (function: Self)
        ensures
            function@ == (TypeView::Function {
                result: Box::new(result@),
                arguments: type_views(arguments@),
            }),
    {
        let result = Box::new(result);
        proof {
            lemma_function_view(result, arguments);
        }
        Type::Function { result, arguments }
    }

    /// The sort of the type.
    pub fn kind(&self) -> (result: TypeKind)
        ensures
            result == self@.kind(),
    {
        match self {
            Type::Void => TypeKind::Void,
            Type::Double => TypeKind::Double,
            Type::Integer(_) => TypeKind::Integer,
            Type::Token => TypeKind::Token,
            Type::Pointer(_) => TypeKind::Pointer,
            Type::Struct(_) => TypeKind::Struct,
            Type::Function { .. } => TypeKind::Function,
        }
    }

    /// The type that a pointer type points to.
    pub fn element(&self) -> (result: &Type)
        requires
            self@ is Pointer,
        ensures
            result@ == *self@->Pointer_0,
    {
        match self {
            Type::Pointer(element) => element,
            _ => {
                proof {
                    assert(false);
                }
                self
            },
        }
    }

    /// The size of a value of the type, as a constant.
    pub fn size(&self) -> (result: Value)
        ensures
            result@ == crate::llvm::value::ValueView::SizeOf(self@),
    {
        Value::SizeOf(self.duplicate())
    }

    /// A copy of the type.
    pub fn duplicate(&self) -> (result: Self)
        ensures
            result@ == self@,
        decreases self, 0nat,
    {
        match self {
            Type::Void => Type::Void,
            Type::Double => Type::Double,
            Type::Integer(bits) => Type::Integer(*bits),
            Type::Token => Type::Token,
            Type::Pointer(element) => Type::Pointer(Box::new(element.duplicate())),
            Type::Struct(elements) => {
                let copies = clone_types(elements);
                proof {
                    lemma_struct_view(*elements);
                    lemma_struct_view(copies);
                }
                Type::Struct(copies)
            },
            Type::Function { result, arguments } => {
                let result_copy = Box::new(result.duplicate());
                let copies = clone_types(arguments);
                proof {
                    lemma_function_view(*result, *arguments);
                    lemma_function_view(result_copy, copies);
                }
                Type::Function { result: result_copy, arguments: copies }
            },
        }
    }
}

/// Copies of the given types, in order.
pub fn clone_types(types: &Vec<Type>) -> (result: Vec<Type>)
    ensures
        type_views(result@) == type_views(types@),
    decreases types, 1nat,
{
    let mut result: Vec<Type> = Vec::new();
    let mut index: usize = 0;
    while index < types.len()
        invariant
            index <= types.len(),
            result.len() == index,
            forall|i: int| 0 <= i < index ==> (#[trigger] result[i])@ == types[i]@,
        decreases types.len() - index,
    {
        result.push(types[index].duplicate());
        index += 1;
    }
    assert(type_views(result@) =~= type_views(types@));
    result
}

impl Clone for Type {
    fn clone(&self) -> (result: Self)
        ensures
            result@ == self@,
    {
        self.duplicate()
    }
}

} // verus!
