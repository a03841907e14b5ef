//! Machine values: constants, the addresses of globals and functions, the
//! parameters of a function, and the results of instructions.

use crate::llvm::types::{lemma_struct_view, type_views, Type, TypeView};
use vstd::prelude::*;

verus! {

#[derive(Debug, PartialEq)]
pub enum Value {
    /// A double constant, by its bit pattern.
    Real(u64),
    /// An integer constant of the given width in bits.
    Integer { bits: u32, value: u64 },
    /// The null value of the given type.
    Null(Type),
    /// The undefined value of the given type.
    Undefined(Type),
    /// A constant struct of the given fields.
    Struct(Vec<Value>),
    /// The size of a value of the given type, a 64-bit integer.
    SizeOf(Type),
    /// The address of a global of a module, which holds a value of the given
    /// type.
    Global { index: usize, type_: Type },
    /// The address of a function of a module, which has the given function
    /// type.
    Function { index: usize, type_: Type },
    /// A parameter of a function of a module.
    Parameter { function: usize, index: usize, type_: Type },
    /// The result of the instruction at the given place in the body of the
    /// function under construction.
    Register { index: usize, type_: Type },
    /// A constant taken as a value of the given type, its bits unchanged.
    Cast { value: Box<Value>, type_: Type },
}

/// The mathematical value of a machine `Value`.
pub enum ValueView {
    Real(u64),
    Integer { bits: u32, value: u64 },
    Null(TypeView),
    Undefined(TypeView),
    Struct(Seq<ValueView>),
    SizeOf(TypeView),
    Global { index: usize, type_: TypeView },
    Function { index: usize, type_: TypeView },
    Parameter { function: usize, index: usize, type_: TypeView },
    Register { index: usize, type_: TypeView },
    Cast { value: Box<ValueView>, type_: TypeView },
}

/// The mathematical value of a machine value.
pub open spec fn value_view(value: Value) -> ValueView
    decreases value,
{
    match value {
        Value::Real(bits) => ValueView::Real(bits),
        Value::Integer { bits, value } => ValueView::Integer { bits, value },
        Value::Null(type_) => ValueView::Null(type_@),
        Value::Undefined(type_) => ValueView::Undefined(type_@),
        Value::Struct(fields) => ValueView::Struct(
            Seq::new(
                fields@.len(),
                |i: int|
                    if 0 <= i < fields.len() {
                        value_view(fields[i])
                    } else {
                        arbitrary()
                    },
            ),
        ),
        Value::SizeOf(type_) => ValueView::SizeOf(type_@),
        Value::Global { index, type_ } => ValueView::Global { index, type_: type_@ },
        Value::Function { index, type_ } => ValueView::Function { index, type_: type_@ },
        Value::Parameter { function, index, type_ } => ValueView::Parameter {
            function,
            index,
            type_: type_@,
        },
        Value::Register { index, type_ } => ValueView::Register { index, type_: type_@ },
        Value::Cast { value, type_ } => ValueView::Cast {
            value: Box::new(value_view(*value)),
            type_: type_@,
        },
    }
}

impl View for Value {
    type V = ValueView;

    open spec fn view(&self) -> ValueView {
        value_view(*self)
    }
}

/// The mathematical values of a sequence of machine values.
pub open spec fn value_views(values: Seq<Value>) -> Seq<ValueView> {
    Seq::new(values.len(), |i: int| values[i]@)
}

/// The view of a constant struct holds the views of its fields.
pub proof fn lemma_struct_value_view(fields: Vec<Value>)
    ensures
        Value::Struct(fields)@ == ValueView::Struct(value_views(fields@)),
{
    assert(Value::Struct(fields)@->Struct_0 =~= value_views(fields@));
}

/// The type of a value.
pub open spec fn type_of(value: ValueView) -> TypeView
    decreases value,
{
    match value {
        ValueView::Real(_) => TypeView::Double,
        ValueView::Integer { bits, .. } => TypeView::Integer(bits),
        ValueView::Null(type_) => type_,
        ValueView::Undefined(type_) => type_,
        ValueView::Struct(fields) => TypeView::Struct(
            Seq::new(
                fields.len(),
                |i: int|
                    if 0 <= i < fields.len() {
                        type_of(fields[i])
                    } else {
                        arbitrary()
                    },
            ),
        ),
        ValueView::SizeOf(_) => TypeView::Integer(64),
        ValueView::Global { type_, .. } => TypeView::Pointer(Box::new(type_)),
        ValueView::Function { type_, .. } => TypeView::Pointer(Box::new(type_)),
        ValueView::Parameter { type_, .. } => type_,
        ValueView::Register { type_, .. } => type_,
        ValueView::Cast { type_, .. } => type_,
    }
}

/// The types of a sequence of values, in order.
pub open spec fn types_of(values: Seq<ValueView>) -> Seq<TypeView> {
    Seq::new(values.len(), |i: int| type_of(values[i]))
}

/// The type of a constant struct is the struct of the types of its fields.
pub proof fn lemma_type_of_struct(fields: Seq<ValueView>)
    ensures
        type_of(ValueView::Struct(fields)) == TypeView::Struct(types_of(fields)),
{
    assert(type_of(ValueView::Struct(fields))->Struct_0 =~= types_of(fields));
}

/// A double constant.
pub fn const_real(bits: u64) -> (result: Value)
    ensures
        result@ == ValueView::Real(bits),
{
    Value::Real(bits)
}

/// An integer constant of the given width in bits.
pub fn const_int(bits: u32, value: u64) -> (result: Value)
    ensures
        result@ == (ValueView::Integer { bits, value }),
{
    Value::Integer { bits, value }
}

/// The null value of the given type.
pub fn const_null(type_: Type) -> (result: Value)
    ensures
        result@ == ValueView::Null(type_@),
{
    Value::Null(type_)
}

/// A constant struct of the given fields.
pub fn const_struct(fields: Vec<Value>) -> (result: Value)
    ensures
        result@ == ValueView::Struct(value_views(fields@)),
{
    proof {
        lemma_struct_value_view(fields);
    }
    Value::Struct(fields)
}

/// The constant taken as a value of the given type, its bits unchanged.
pub fn const_bit_cast(value: Value, type_: Type) -> (result: Value)
    ensures
        result@ == (ValueView::Cast { value: Box::new(value@), type_: type_@ }),
{
    Value::Cast { value: Box::new(value), type_ }
}

/// The undefined value of the given type.
pub fn get_undef(type_: Type) -> (result: Value)
    ensures
        result@ == ValueView::Undefined(type_@),
{
    Value::Undefined(type_)
}

/// The parameter at the given place of a function.
pub fn get_param(function: &Value, index: usize) -> (result: Value)
    requires
        function@ is Function,
        function@->Function_type_ is Function,
        index < function@->Function_type_->arguments.len(),
    ensures
        result@ == (ValueView::Parameter {
            function: function@->Function_index,
            index,
            type_: function@->Function_type_->arguments[index as int],
        }),
{
    match function {
        Value::Function { index: function_index, type_ } => match type_ {
            Type::Function { result, arguments } => {
                proof {
                    crate::llvm::types::lemma_function_view(*result, *arguments);
                }
                Value::Parameter {
                    function: *function_index,
                    index,
                    type_: arguments[index].duplicate(),
                }
            },
            _ => {
                proof {
                    assert(false);
                }
                Value::Real(0)
            },
        },
        _ => {
            proof {
                assert(false);
            }
            Value::Real(0)
        },
    }
}

impl Value {
    /// The type of the value.
    pub fn type_(&self) -> (result: Type)
        ensures
            result@ == type_of(self@),
        decreases self, 0nat,
    {
        match self {
            Value::Real(_) => Type::Double,
            Value::Integer { bits, .. } => Type::Integer(*bits),
            Value::Null(type_) => type_.duplicate(),
            Value::Undefined(type_) => type_.duplicate(),
            Value::Struct(fields) => {
                let types = types_of_values(fields);
                proof {
                    lemma_struct_value_view(*fields);
                    lemma_type_of_struct(value_views(fields@));
                    lemma_struct_view(types);
                    assert(type_views(types@) =~= types_of(value_views(fields@)));
                }
                Type::Struct(types)
            },
            Value::SizeOf(_) => Type::Integer(64),
            Value::Global { type_, .. } => Type::Pointer(Box::new(type_.duplicate())),
            Value::Function { type_, .. } => Type::Pointer(Box::new(type_.duplicate())),
            Value::Parameter { type_, .. } => type_.duplicate(),
            Value::Register { type_, .. } => type_.duplicate(),
            Value::Cast { type_, .. } => type_.duplicate(),
        }
    }

    /// A copy of the value.
    pub fn duplicate(&self) -> (result: Self)
        ensures
            result@ == self@,
        decreases self, 0nat,
    {
        match self {
            Value::Real(bits) => Value::Real(*bits),
            Value::Integer { bits, value } => Value::Integer { bits: *bits, value: *value },
            Value::Null(type_) => Value::Null(type_.duplicate()),
            Value::Undefined(type_) => Value::Undefined(type_.duplicate()),
            Value::Struct(fields) => {
                let copies = clone_values(fields);
                proof {
                    lemma_struct_value_view(*fields);
                    lemma_struct_value_view(copies);
                }
                Value::Struct(copies)
            },
            Value::SizeOf(type_) => Value::SizeOf(type_.duplicate()),
            Value::Global { index, type_ } => Value::Global {
                index: *index,
                type_: type_.duplicate(),
            },
            Value::Function { index, type_ } => Value::Function {
                index: *index,
                type_: type_.duplicate(),
            },
            Value::Parameter { function, index, type_ } => Value::Parameter {
                function: *function,
                index: *index,
                type_: type_.duplicate(),
            },
            Value::Register { index, type_ } => Value::Register {
                index: *index,
                type_: type_.duplicate(),
            },
            Value::Cast { value, type_ } => Value::Cast {
                value: Box::new(value.duplicate()),
                type_: type_.duplicate(),
            },
        }
    }
}

/// The types of the given values, in order.
pub fn types_of_values(values: &Vec<Value>) -> (result: Vec<Type>)
    ensures
        result.len() == values.len(),
        forall|i: int| 0 <= i < values.len() ==> (#[trigger] result[i])@ == type_of(values[i]@),
    decreases values, 1nat,
{
    let mut result: Vec<Type> = Vec::new();
    let mut index: usize = 0;
    while index < values.len()
        invariant
            index <= values.len(),
            result.len() == index,
            forall|i: int| 0 <= i < index ==> (#[trigger] result[i])@ == type_of(values[i]@),
        decreases values.len() - index,
    {
        result.push(values[index].type_());
        index += 1;
    }
    result
}

/// Copies of the given values, in order.
pub fn clone_values(values: &Vec<Value>) -> (result: Vec<Value>)
    ensures
        value_views(result@) == value_views(values@),
    decreases values, 1nat,
{
    let mut result: Vec<Value> = Vec::new();
    let mut index: usize = 0;
    while index < values.len()
        invariant
            index <= values.len(),
            result.len() == index,
            forall|i: int| 0 <= i < index ==> (#[trigger] result[i])@ == values[i]@,
        decreases values.len() - index,
    {
        result.push(values[index].duplicate());
        index += 1;
    }
    assert(value_views(result@) =~= value_views(values@));
    result
}

impl Clone for Value {
    fn clone(&self) -> (result: Self)
        ensures
            result@ == self@,
    {
        self.duplicate()
    }
}

} // verus!
