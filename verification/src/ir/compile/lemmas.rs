//! Facts about what code generation emits that its proofs rest on.

use crate::ir::ast::{ExpressionView, FunctionDefinitionView, ValueDefinitionView};
use crate::ir::compile::emission::{
    compile_expressions, compile_value_definitions, index_constant, initialize_closures,
    is_closure_pointer, variables_view, State, Variables,
};
use crate::llvm::builder::{callable, element_pointer_type, indexed_type};
use crate::llvm::module::{ModuleView};
use crate::llvm::types::TypeView;
use crate::llvm::value::{type_of, Value, ValueView};
use crate::names::Name;
use vstd::prelude::*;

verus! {

/// Binding a name in a table binds it in the view of the table.
pub proof fn lemma_variables_view_insert(variables: Map<Name, Value>, name: Name, value: Value)
    ensures
        variables_view(variables.insert(name, value)) == variables_view(variables).insert(
            name,
            value@,
        ),
{
    assert(variables_view(variables.insert(name, value)) =~= variables_view(variables).insert(
        name,
        value@,
    ));
}

/// The view of the empty table is the empty table.
pub proof fn lemma_variables_view_empty()
    ensures
        variables_view(Map::<Name, Value>::empty()) == Map::<Name, ValueView>::empty(),
{
    assert(variables_view(Map::<Name, Value>::empty()) =~= Map::<Name, ValueView>::empty());
}

/// A function that can be called by its name can still be called by it once
/// another function is added, and it is the same function.
pub proof fn lemma_callable_add_function(
    module: ModuleView,
    name: Name,
    type_: TypeView,
    callee: Name,
)
    requires
        callable(module, callee),
    ensures
        callable(module.add_function(name, type_), callee),
        module.add_function(name, type_).named_function(callee) == module.named_function(callee),
{
    let functions = module.add_function(name, type_).functions;
    assert(functions.drop_last() =~= module.functions);
    crate::llvm::module::lemma_find_function(module.functions, callee, 0);
}

/// Indexing a struct by one constant picks the field at that place.
pub proof fn lemma_indexed_field(fields: Seq<TypeView>, field: int)
    requires
        0 <= field < fields.len(),
        field <= u64::MAX,
    ensures
        indexed_type(TypeView::Struct(fields), seq![index_constant(field)]) == Some(
            fields[field],
        ),
{
    reveal_with_fuel(indexed_type, 2);
    let indices = seq![index_constant(field)];
    assert(indices.drop_last() =~= Seq::empty());
}

/// Indexing a struct by two constants picks a field of a field.
pub proof fn lemma_indexed_field_of_field(
    fields: Seq<TypeView>,
    inner: Seq<TypeView>,
    first: int,
    second: int,
)
    requires
        0 <= first < fields.len(),
        first <= u64::MAX,
        fields[first] == TypeView::Struct(inner),
        0 <= second < inner.len(),
        second <= u64::MAX,
    ensures
        indexed_type(
            TypeView::Struct(fields),
            seq![index_constant(first), index_constant(second)],
        ) == Some(inner[second]),
{
    reveal_with_fuel(indexed_type, 2);
    let indices = seq![index_constant(first), index_constant(second)];
    assert(indices.drop_last() =~= seq![index_constant(first)]);
    lemma_indexed_field(fields, first);
}

/// The address of field `field` of the struct behind a pointer has the type
/// of a pointer to that field.
pub proof fn lemma_field_address(pointer: ValueView, fields: Seq<TypeView>, field: int)
    requires
        type_of(pointer) == TypeView::Pointer(Box::new(TypeView::Struct(fields))),
        0 <= field < fields.len(),
        field <= u64::MAX,
    ensures
        element_pointer_type(pointer, seq![index_constant(0), index_constant(field)]) == Some(
            TypeView::Pointer(Box::new(fields[field])),
        ),
{
    let indices = seq![index_constant(0), index_constant(field)];
    assert(indices.skip(1) =~= seq![index_constant(field)]);
    lemma_indexed_field(fields, field);
}

/// The address of field `second` of field `first` of the struct behind a
/// pointer has the type of a pointer to that field.
pub proof fn lemma_field_of_field_address(
    pointer: ValueView,
    fields: Seq<TypeView>,
    inner: Seq<TypeView>,
    first: int,
    second: int,
)
    requires
        type_of(pointer) == TypeView::Pointer(Box::new(TypeView::Struct(fields))),
        0 <= first < fields.len(),
        first <= u64::MAX,
        fields[first] == TypeView::Struct(inner),
        0 <= second < inner.len(),
        second <= u64::MAX,
    ensures
        element_pointer_type(
            pointer,
            seq![index_constant(0), index_constant(first), index_constant(second)],
        ) == Some(TypeView::Pointer(Box::new(inner[second]))),
{
    let indices = seq![index_constant(0), index_constant(first), index_constant(second)];
    assert(indices.skip(1) =~= seq![index_constant(first), index_constant(second)]);
    lemma_indexed_field_of_field(fields, inner, first, second);
}

/// The first two fields of a closure have addresses.
pub proof fn lemma_closure_addresses(closure: ValueView)
    requires
        is_closure_pointer(type_of(closure)),
    ensures
        element_pointer_type(closure, seq![index_constant(0), index_constant(0)]) == Some(
            TypeView::Pointer(Box::new(type_of(closure)->Pointer_0->Struct_0[0])),
        ),
        element_pointer_type(closure, seq![index_constant(0), index_constant(1)]) == Some(
            TypeView::Pointer(Box::new(type_of(closure)->Pointer_0->Struct_0[1])),
        ),
{
    let fields = type_of(closure)->Pointer_0->Struct_0;
    lemma_field_address(closure, fields, 0);
    lemma_field_address(closure, fields, 1);
}

/// Where compiling the first expressions fails, compiling all fails alike.
pub proof fn lemma_compile_expressions_error(
    expressions: Seq<ExpressionView>,
    globals: Variables,
    locals: Variables,
    state: State,
    length: int,
)
    requires
        0 <= length <= expressions.len(),
        compile_expressions(expressions.take(length), globals, locals, state) is Err,
    ensures
        compile_expressions(expressions, globals, locals, state) == compile_expressions(
            expressions.take(length),
            globals,
            locals,
            state,
        ),
    decreases expressions.len(),
{
    if length < expressions.len() {
        assert(expressions.take(length) =~= expressions.drop_last().take(length));
        lemma_compile_expressions_error(expressions.drop_last(), globals, locals, state, length);
    } else {
        assert(expressions.take(length) =~= expressions);
    }
}

/// Where compiling the first definitions fails, compiling all fails alike.
pub proof fn lemma_compile_value_definitions_error(
    definitions: Seq<ValueDefinitionView>,
    globals: Variables,
    locals: Variables,
    state: State,
    length: int,
)
    requires
        0 <= length <= definitions.len(),
        compile_value_definitions(definitions.take(length), globals, locals, state) is Err,
    ensures
        compile_value_definitions(definitions, globals, locals, state)
            == compile_value_definitions(definitions.take(length), globals, locals, state),
    decreases definitions.len(),
{
    if length < definitions.len() {
        assert(definitions.take(length) =~= definitions.drop_last().take(length));
        lemma_compile_value_definitions_error(
            definitions.drop_last(),
            globals,
            locals,
            state,
            length,
        );
    } else {
        assert(definitions.take(length) =~= definitions);
    }
}

/// Where filling the first closures fails, filling all fails alike.
pub proof fn lemma_initialize_closures_error(
    definitions: Seq<FunctionDefinitionView>,
    closures: Seq<ValueView>,
    globals: Variables,
    locals: Variables,
    state: State,
    length: int,
)
    requires
        0 <= length <= definitions.len(),
        closures.len() == definitions.len(),
        initialize_closures(
            definitions.take(length),
            closures.take(length),
            globals,
            locals,
            state,
        ) is Err,
    ensures
        initialize_closures(definitions, closures, globals, locals, state) == initialize_closures(
            definitions.take(length),
            closures.take(length),
            globals,
            locals,
            state,
        ),
    decreases definitions.len(),
{
    if length < definitions.len() {
        assert(definitions.take(length) =~= definitions.drop_last().take(length));
        assert(closures.take(length) =~= closures.drop_last().take(length));
        lemma_initialize_closures_error(
            definitions.drop_last(),
            closures.drop_last(),
            globals,
            locals,
            state,
            length,
        );
    } else {
        assert(definitions.take(length) =~= definitions);
        assert(closures.take(length) =~= closures);
    }
}

} // verus!
