//! Names that code generation finds.
//!
//! Code generation looks a name up where a variable is used, where a
//! function is applied, and where a closure captures a variable. Where every
//! such name is bound, by the table it is given or by a `let` around the
//! use, it never fails for a variable that is not found.

use crate::ir::ast::{
    argument_names, ArgumentView, DeclarationView, DefinitionView, ExpressionView,
    FunctionDefinitionView, ModuleView as CoreModuleView, ValueDefinitionView,
};
use crate::ir::compile::module_compiler::{
    compile_definitions, compile_module, compile_top_level_function, declare_declarations,
    declare_definitions,
};
use crate::ir::scope::top_level_names;
use crate::ir::compile::emission::{
    allocate_closures, bind_arguments, captured_values, closure_entry, closure_entry_name,
    closure_environment, compile_expression, compile_expressions, compile_function,
    compile_value_definitions, compile_variable, initialize_closure, initialize_closures,
    is_closure_pointer, load_captured_values, lookup, Failure, State, Variables,
};
use crate::ir::compile::type_compiler::{entry_function_type, environment_type};
use crate::llvm::builder::{BuilderView, InstructionView};
use crate::llvm::types::TypeView;
use crate::llvm::value::type_of;
use crate::ir::compile::error::CompileError;
use crate::ir::scope::{bound_in_body, function_names, value_names};
use crate::llvm::module::ModuleView;
use crate::llvm::value::ValueView;
use crate::names::Name;
use vstd::prelude::*;

verus! {

/// Whether every name that code generation looks up for the expression is
/// bound: by `locals` or by a `let` around the use, or by `globals`.
///
/// In the body of a function only its arguments, the variables that it
/// captures, what the body binds and the global names are bound. A captured
/// variable is looked up where the function is defined.
pub open spec fn resolves(expression: ExpressionView, globals: Set<Name>, locals: Set<Name>) -> bool
    decreases expression,
{
    match expression {
        ExpressionView::Number(_) => true,
        ExpressionView::Variable(name) => locals.contains(name) || globals.contains(name),
        ExpressionView::Operation { lhs, rhs, .. } => resolves(*lhs, globals, locals) && resolves(
            *rhs,
            globals,
            locals,
        ),
        ExpressionView::Application { function, arguments } => {
            &&& locals.contains(function) || globals.contains(function)
            &&& forall|i: int|
                0 <= i < arguments.len() ==> resolves(#[trigger] arguments[i], globals, locals)
        },
        ExpressionView::LetValues { definitions, expression } => {
            &&& forall|i: int|
                0 <= i < definitions.len() ==> resolves(
                    (#[trigger] definitions[i]).body,
                    globals,
                    locals.union(value_names(definitions, i)),
                )
            &&& resolves(
                *expression,
                globals,
                locals.union(value_names(definitions, definitions.len() as int)),
            )
        },
        ExpressionView::LetFunctions { definitions, expression } => {
            &&& forall|i: int|
                0 <= i < definitions.len() ==> function_resolves(
                    #[trigger] definitions[i],
                    globals,
                    locals.union(function_names(definitions)),
                )
            &&& resolves(*expression, globals, locals.union(function_names(definitions)))
        },
    }
}

/// Whether every variable that the function captures is bound where the
/// function is defined, and every name that code generation looks up for
/// its body is bound.
pub open spec fn function_resolves(
    definition: FunctionDefinitionView,
    globals: Set<Name>,
    locals: Set<Name>,
) -> bool
    decreases definition,
{
    &&& forall|i: int|
        0 <= i < definition.environment.len() ==> locals.contains(
            (#[trigger] definition.environment[i]).name,
        ) || globals.contains(definition.environment[i].name)
    &&& resolves(definition.body, globals, bound_in_body(definition))
}

/// Whether code generation did not fail for a variable that is not found.
pub open spec fn found<T>(outcome: Result<T, Failure>) -> bool {
    outcome matches Err(failure) ==> failure.0 != CompileError::VariableNotFound
}

/// The names that are bound once the first captured variables are loaded.
pub proof fn lemma_loaded_names(
    environment: Seq<ArgumentView>,
    pointer: ValueView,
    count: int,
    locals: Variables,
    state: State,
)
    requires
        0 <= count <= environment.len(),
    ensures
        forall|name: Name|
            #![trigger load_captured_values(environment, pointer, count, locals, state).0.contains_key(name)]
            load_captured_values(environment, pointer, count, locals, state).0.contains_key(name)
                <==> (locals.contains_key(name) || exists|i: int|
                0 <= i < count && (#[trigger] environment[i]).name == name),
    decreases count,
{
    if count > 0 {
        lemma_loaded_names(environment, pointer, count - 1, locals, state);
        let before = load_captured_values(environment, pointer, count - 1, locals, state).0;
        let after = load_captured_values(environment, pointer, count, locals, state).0;
        assert forall|name: Name| after.contains_key(name) <==> (locals.contains_key(name)
            || exists|i: int| 0 <= i < count && (#[trigger] environment[i]).name == name) by {
            assert(before.contains_key(name) <==> (locals.contains_key(name) || exists|i: int|
                0 <= i < count - 1 && (#[trigger] environment[i]).name == name));
            if name == environment[count - 1].name {
                assert(0 <= count - 1 < count && environment[count - 1].name == name);
            }
        }
    }
}

/// The names that are bound once the first arguments are bound.
pub proof fn lemma_argument_names(
    arguments: Seq<ArgumentView>,
    function: usize,
    count: int,
    locals: Variables,
)
    requires
        0 <= count <= arguments.len(),
    ensures
        forall|name: Name|
            #![trigger bind_arguments(arguments, function, count, locals).contains_key(name)]
            bind_arguments(arguments, function, count, locals).contains_key(name) <==> (
            locals.contains_key(name) || exists|i: int|
                0 <= i < count && (#[trigger] arguments[i]).name == name),
    decreases count,
{
    if count > 0 {
        lemma_argument_names(arguments, function, count - 1, locals);
        let before = bind_arguments(arguments, function, count - 1, locals);
        let after = bind_arguments(arguments, function, count, locals);
        assert forall|name: Name| after.contains_key(name) <==> (locals.contains_key(name)
            || exists|i: int| 0 <= i < count && (#[trigger] arguments[i]).name == name) by {
            assert(before.contains_key(name) <==> (locals.contains_key(name) || exists|i: int|
                0 <= i < count - 1 && (#[trigger] arguments[i]).name == name));
            if name == arguments[count - 1].name {
                assert(0 <= count - 1 < count && arguments[count - 1].name == name);
            }
        }
    }
}

/// The names that are bound once the closures of the first definitions are
/// allocated, and how many closures there are.
pub proof fn lemma_allocated_names(
    definitions: Seq<FunctionDefinitionView>,
    count: int,
    locals: Variables,
    state: State,
)
    requires
        0 <= count <= definitions.len(),
    ensures
        allocate_closures(definitions.take(count), locals, state).1.len() == count,
        forall|name: Name|
            #![trigger allocate_closures(definitions.take(count), locals, state).0.contains_key(name)]
            allocate_closures(definitions.take(count), locals, state).0.contains_key(name) <==> (
            locals.contains_key(name) || exists|i: int|
                0 <= i < count && (#[trigger] definitions[i]).name == name),
    decreases count,
{
    if count > 0 {
        lemma_allocated_names(definitions, count - 1, locals, state);
        assert(definitions.take(count).drop_last() =~= definitions.take(count - 1));
        assert(definitions.take(count).last() == definitions[count - 1]);
        let before = allocate_closures(definitions.take(count - 1), locals, state).0;
        let after = allocate_closures(definitions.take(count), locals, state).0;
        assert forall|name: Name| after.contains_key(name) <==> (locals.contains_key(name)
            || exists|i: int| 0 <= i < count && (#[trigger] definitions[i]).name == name) by {
            assert(before.contains_key(name) <==> (locals.contains_key(name) || exists|i: int|
                0 <= i < count - 1 && (#[trigger] definitions[i]).name == name));
            if name == definitions[count - 1].name {
                assert(0 <= count - 1 < count && definitions[count - 1].name == name);
            }
        }
    }
}

/// Where every name that is looked up for an expression is bound, code
/// generation does not fail for a variable that is not found.
pub proof fn lemma_resolved_expression(
    expression: ExpressionView,
    globals: Variables,
    locals: Variables,
    scope: Set<Name>,
    state: State,
)
    requires
        resolves(expression, globals.dom(), scope),
        forall|name: Name| locals.contains_key(name) <==> scope.contains(name),
    ensures
        found(compile_expression(expression, globals, locals, state)),
    decreases expression, 0nat,
{
    match expression {
        ExpressionView::Number(_) => {},
        ExpressionView::Variable(name) => {
            assert(lookup(globals, locals, name) is Some);
        },
        ExpressionView::Operation { lhs, rhs, .. } => {
            lemma_resolved_expression(*lhs, globals, locals, scope, state);
            if let Ok((_, after)) = compile_expression(*lhs, globals, locals, state) {
                lemma_resolved_expression(*rhs, globals, locals, scope, after);
            }
        },
        ExpressionView::Application { function, arguments } => {
            assert(lookup(globals, locals, function) is Some);
            if let Ok((closure, first)) = compile_variable(function, globals, locals, state) {
                if is_closure_pointer(type_of(closure)) {
                    let second = closure_environment(closure, first).1;
                    let third = closure_entry(closure, second).1;
                    lemma_resolved_expressions(
                        arguments,
                        arguments.len() as int,
                        globals,
                        locals,
                        scope,
                        third,
                    );
                    assert(arguments.take(arguments.len() as int) =~= arguments);
                }
            }
        },
        ExpressionView::LetValues { definitions, expression: body } => {
            let count = definitions.len() as int;
            lemma_resolved_values(definitions, count, globals, locals, scope, state);
            assert(definitions.take(count) =~= definitions);
            if let Ok((inner, after)) = compile_value_definitions(
                definitions,
                globals,
                locals,
                state,
            ) {
                lemma_resolved_expression(
                    *body,
                    globals,
                    inner,
                    scope.union(value_names(definitions, count)),
                    after,
                );
            }
        },
        ExpressionView::LetFunctions { definitions, expression: body } => {
            let count = definitions.len() as int;
            assert(definitions.take(count) =~= definitions);
            let inner = allocate_closures(definitions, locals, state).0;
            let closures = allocate_closures(definitions, locals, state).1;
            let allocated = allocate_closures(definitions, locals, state).2;
            let wider = scope.union(function_names(definitions));
            lemma_allocated_names(definitions, count, locals, state);
            assert forall|name: Name| inner.contains_key(name) <==> wider.contains(name) by {
                assert(inner.contains_key(name) <==> (locals.contains_key(name) || exists|i: int|
                    0 <= i < count && (#[trigger] definitions[i]).name == name));
                if function_names(definitions).contains(name) {
                    let i = choose|i: int| 0 <= i < definitions.len() && definitions[i].name == name;
                    assert(0 <= i < count && definitions[i].name == name);
                }
            }
            lemma_resolved_closures(definitions, count, closures, globals, inner, wider, allocated);
            assert(closures.take(count) =~= closures);
            if let Ok(after) = initialize_closures(definitions, closures, globals, inner, allocated) {
                lemma_resolved_expression(*body, globals, inner, wider, after);
            }
        },
    }
}

/// Where every name that is looked up for the first expressions is bound,
/// compiling them does not fail for a variable that is not found.
pub proof fn lemma_resolved_expressions(
    expressions: Seq<ExpressionView>,
    count: int,
    globals: Variables,
    locals: Variables,
    scope: Set<Name>,
    state: State,
)
    requires
        0 <= count <= expressions.len(),
        forall|i: int| 0 <= i < count ==> resolves(#[trigger] expressions[i], globals.dom(), scope),
        forall|name: Name| locals.contains_key(name) <==> scope.contains(name),
    ensures
        found(compile_expressions(expressions.take(count), globals, locals, state)),
    decreases expressions, count,
{
    if count > 0 {
        lemma_resolved_expressions(expressions, count - 1, globals, locals, scope, state);
        assert(expressions.take(count).drop_last() =~= expressions.take(count - 1));
        assert(expressions.take(count).last() == expressions[count - 1]);
        if let Ok((_, after)) = compile_expressions(
            expressions.take(count - 1),
            globals,
            locals,
            state,
        ) {
            lemma_resolved_expression(expressions[count - 1], globals, locals, scope, after);
        }
    }
}

/// Where every name that is looked up for the bodies of the first
/// definitions of a `let` of values is bound, compiling them does not fail
/// for a variable that is not found, and binds their names.
pub proof fn lemma_resolved_values(
    definitions: Seq<ValueDefinitionView>,
    count: int,
    globals: Variables,
    locals: Variables,
    scope: Set<Name>,
    state: State,
)
    requires
        0 <= count <= definitions.len(),
        forall|i: int|
            0 <= i < count ==> resolves(
                (#[trigger] definitions[i]).body,
                globals.dom(),
                scope.union(value_names(definitions, i)),
            ),
        forall|name: Name| locals.contains_key(name) <==> scope.contains(name),
    ensures
        found(compile_value_definitions(definitions.take(count), globals, locals, state)),
        compile_value_definitions(definitions.take(count), globals, locals, state) matches Ok(
            (inner, _),
        ) ==> forall|name: Name|
            inner.contains_key(name) <==> scope.union(value_names(definitions, count)).contains(
                name,
            ),
    decreases definitions, count,
{
    if count > 0 {
        lemma_resolved_values(definitions, count - 1, globals, locals, scope, state);
        assert(definitions.take(count).drop_last() =~= definitions.take(count - 1));
        assert(definitions.take(count).last() == definitions[count - 1]);
        if let Ok((inner, after)) = compile_value_definitions(
            definitions.take(count - 1),
            globals,
            locals,
            state,
        ) {
            lemma_resolved_expression(
                definitions[count - 1].body,
                globals,
                inner,
                scope.union(value_names(definitions, count - 1)),
                after,
            );
            if let Ok((last, _)) = compile_value_definitions(
                definitions.take(count),
                globals,
                locals,
                state,
            ) {
                assert forall|name: Name| last.contains_key(name) <==> scope.union(
                    value_names(definitions, count),
                ).contains(name) by {
                    assert(inner.contains_key(name) <==> scope.union(
                        value_names(definitions, count - 1),
                    ).contains(name));
                    if value_names(definitions, count).contains(name) {
                        let i = choose|i: int|
                            0 <= i < count && i < definitions.len() && definitions[i].name == name;
                        if i < count - 1 {
                            assert(value_names(definitions, count - 1).contains(name));
                        }
                    }
                    if value_names(definitions, count - 1).contains(name) {
                        let i = choose|i: int|
                            0 <= i < count - 1 && i < definitions.len() && definitions[i].name
                                == name;
                        assert(0 <= i < count && definitions[i].name == name);
                    }
                    if name == definitions[count - 1].name {
                        assert(0 <= count - 1 < count && definitions[count - 1].name == name);
                    }
                }
            }
        }
    } else {
        assert(definitions.take(0) =~= Seq::empty());
        assert forall|name: Name| !value_names(definitions, 0).contains(name) by {}
    }
}

/// Where the first function definitions of a `let` resolve, filling their
/// closures does not fail for a variable that is not found.
pub proof fn lemma_resolved_closures(
    definitions: Seq<FunctionDefinitionView>,
    count: int,
    closures: Seq<ValueView>,
    globals: Variables,
    locals: Variables,
    scope: Set<Name>,
    state: State,
)
    requires
        0 <= count <= definitions.len(),
        count <= closures.len(),
        forall|i: int|
            0 <= i < count ==> function_resolves(#[trigger] definitions[i], globals.dom(), scope),
        forall|name: Name| locals.contains_key(name) <==> scope.contains(name),
    ensures
        found(
            initialize_closures(
                definitions.take(count),
                closures.take(count),
                globals,
                locals,
                state,
            ),
        ),
    decreases definitions, count,
{
    if count > 0 {
        lemma_resolved_closures(definitions, count - 1, closures, globals, locals, scope, state);
        assert(definitions.take(count).drop_last() =~= definitions.take(count - 1));
        assert(closures.take(count).drop_last() =~= closures.take(count - 1));
        assert(definitions.take(count).last() == definitions[count - 1]);
        if let Ok(after) = initialize_closures(
            definitions.take(count - 1),
            closures.take(count - 1),
            globals,
            locals,
            state,
        ) {
            lemma_resolved_closure(
                definitions[count - 1],
                closures[count - 1],
                globals,
                locals,
                scope,
                after,
            );
            assert(closures.take(count).last() == closures[count - 1]);
        }
    }
}

/// Where a function definition resolves, filling its closure does not fail
/// for a variable that is not found.
pub proof fn lemma_resolved_closure(
    definition: FunctionDefinitionView,
    closure: ValueView,
    globals: Variables,
    locals: Variables,
    scope: Set<Name>,
    state: State,
)
    requires
        function_resolves(definition, globals.dom(), scope),
        forall|name: Name| locals.contains_key(name) <==> scope.contains(name),
    ensures
        found(initialize_closure(definition, closure, globals, locals, state)),
    decreases definition, 1nat,
{
    lemma_resolved_function(definition, globals, state.module);
    assert forall|i: int| 0 <= i < definition.environment.len() implies lookup(
        globals,
        locals,
        (#[trigger] definition.environment[i]).name,
    ) is Some by {}
    assert(captured_values(definition.environment, globals, locals) is Some);
}

/// Where every name that is looked up for the body of a function is bound
/// by the function or globally, compiling the function does not fail for a
/// variable that is not found.
pub proof fn lemma_resolved_function(
    definition: FunctionDefinitionView,
    globals: Variables,
    module: ModuleView,
)
    requires
        resolves(definition.body, globals.dom(), bound_in_body(definition)),
    ensures
        compile_function(definition, globals, module) matches Err(failure) ==> failure.0
            != CompileError::VariableNotFound,
    decreases definition, 0nat,
{
    let scope = bound_in_body(definition);
    let type_ = entry_function_type(definition.type_());
    let function = module.functions.len() as usize;
    let declared = module.add_function(closure_entry_name(definition.name), type_);
    let entered = State { module: declared, builder: BuilderView::new(function).enter() };
    let environment_pointer_type = TypeView::Pointer(
        Box::new(environment_type(definition.environment)),
    );
    let pointer = entered.next_register(environment_pointer_type);
    let cast = entered.emit(
        InstructionView::BitCast {
            value: ValueView::Parameter { function, index: 0, type_: type_->arguments[0] },
            type_: environment_pointer_type,
        },
    );
    let count = definition.environment.len() as int;
    let loaded = load_captured_values(definition.environment, pointer, count, Map::empty(), cast).0;
    let after = load_captured_values(definition.environment, pointer, count, Map::empty(), cast).1;
    let locals = bind_arguments(
        definition.arguments,
        function,
        definition.arguments.len() as int,
        loaded,
    );
    lemma_loaded_names(definition.environment, pointer, count, Map::empty(), cast);
    lemma_argument_names(
        definition.arguments,
        function,
        definition.arguments.len() as int,
        loaded,
    );
    assert forall|name: Name| locals.contains_key(name) <==> scope.contains(name) by {
        assert(loaded.contains_key(name) <==> (Map::<Name, ValueView>::empty().contains_key(name)
            || exists|i: int| 0 <= i < count && (#[trigger] definition.environment[i]).name
            == name));
        assert(locals.contains_key(name) <==> (loaded.contains_key(name) || exists|i: int|
            0 <= i < definition.arguments.len() as int && (
            #[trigger] definition.arguments[i]).name == name));
        if argument_names(definition.environment).contains(name) {
            let i = choose|i: int|
                0 <= i < definition.environment.len() && definition.environment[i].name == name;
            assert(0 <= i < count && definition.environment[i].name == name);
        }
        if argument_names(definition.arguments).contains(name) {
            let i = choose|i: int|
                0 <= i < definition.arguments.len() && definition.arguments[i].name == name;
            assert(0 <= i < definition.arguments.len() as int && definition.arguments[i].name
                == name);
        }
    }
    lemma_resolved_expression(definition.body, globals, locals, scope, after);
}

/// Whether every name that code generation looks up for the module is
/// bound: the body of a top-level function refers to the arguments of the
/// function, to what it binds itself and to top-level names, and the body of
/// a top-level value to what it binds itself and to top-level names.
pub open spec fn module_resolves(module: CoreModuleView) -> bool {
    forall|i: int|
        0 <= i < module.definitions.len() ==> match #[trigger] module.definitions[i] {
            DefinitionView::FunctionDefinition(definition) => resolves(
                definition.body,
                top_level_names(module),
                argument_names(definition.arguments),
            ),
            DefinitionView::ValueDefinition(definition) => resolves(
                definition.body,
                top_level_names(module),
                Set::empty(),
            ),
        }
}

/// The names that are bound once the first declarations are declared.
pub proof fn lemma_declared_declarations(
    declarations: Seq<DeclarationView>,
    count: int,
    module: ModuleView,
    globals: Variables,
)
    requires
        0 <= count <= declarations.len(),
    ensures
        forall|name: Name|
            #![trigger declare_declarations(declarations.take(count), module, globals).1.contains_key(name)]
            declare_declarations(declarations.take(count), module, globals).1.contains_key(name)
                <==> (globals.contains_key(name) || exists|i: int|
                0 <= i < count && (#[trigger] declarations[i]).name == name),
    decreases count,
{
    if count > 0 {
        lemma_declared_declarations(declarations, count - 1, module, globals);
        assert(declarations.take(count).drop_last() =~= declarations.take(count - 1));
        assert(declarations.take(count).last() == declarations[count - 1]);
        let before = declare_declarations(declarations.take(count - 1), module, globals).1;
        let after = declare_declarations(declarations.take(count), module, globals).1;
        assert forall|name: Name| after.contains_key(name) <==> (globals.contains_key(name)
            || exists|i: int| 0 <= i < count && (#[trigger] declarations[i]).name == name) by {
            assert(before.contains_key(name) <==> (globals.contains_key(name) || exists|i: int|
                0 <= i < count - 1 && (#[trigger] declarations[i]).name == name));
            if name == declarations[count - 1].name {
                assert(0 <= count - 1 < count && declarations[count - 1].name == name);
            }
        }
    } else {
        assert(declarations.take(0) =~= Seq::empty());
    }
}

/// The names that are bound once the first definitions are declared.
pub proof fn lemma_declared_definitions(
    definitions: Seq<DefinitionView>,
    count: int,
    module: ModuleView,
    globals: Variables,
)
    requires
        0 <= count <= definitions.len(),
    ensures
        declare_definitions(definitions.take(count), module, globals).2.len() == count,
        forall|name: Name|
            #![trigger declare_definitions(definitions.take(count), module, globals).1.contains_key(name)]
            declare_definitions(definitions.take(count), module, globals).1.contains_key(name)
                <==> (globals.contains_key(name) || exists|i: int|
                0 <= i < count && (#[trigger] definitions[i]).name() == name),
    decreases count,
{
    if count > 0 {
        lemma_declared_definitions(definitions, count - 1, module, globals);
        assert(definitions.take(count).drop_last() =~= definitions.take(count - 1));
        assert(definitions.take(count).last() == definitions[count - 1]);
        let before = declare_definitions(definitions.take(count - 1), module, globals).1;
        let after = declare_definitions(definitions.take(count), module, globals).1;
        assert forall|name: Name| after.contains_key(name) <==> (globals.contains_key(name)
            || exists|i: int| 0 <= i < count && (#[trigger] definitions[i]).name() == name) by {
            assert(before.contains_key(name) <==> (globals.contains_key(name) || exists|i: int|
                0 <= i < count - 1 && (#[trigger] definitions[i]).name() == name));
            if name == definitions[count - 1].name() {
                assert(0 <= count - 1 < count && definitions[count - 1].name() == name);
            }
        }
    } else {
        assert(definitions.take(0) =~= Seq::empty());
    }
}

/// Where the first definitions of a module resolve, compiling them does not
/// fail for a variable that is not found.
pub proof fn lemma_resolved_definitions(
    definitions: Seq<DefinitionView>,
    count: int,
    declared: Seq<ValueView>,
    globals: Variables,
    module: ModuleView,
)
    requires
        0 <= count <= definitions.len(),
        count <= declared.len(),
        forall|i: int|
            0 <= i < count ==> match #[trigger] definitions[i] {
                DefinitionView::FunctionDefinition(definition) => resolves(
                    definition.body,
                    globals.dom(),
                    argument_names(definition.arguments),
                ),
                DefinitionView::ValueDefinition(definition) => resolves(
                    definition.body,
                    globals.dom(),
                    Set::empty(),
                ),
            },
    ensures
        compile_definitions(definitions.take(count), declared.take(count), globals, module)
            != Err::<(ModuleView, Seq<ValueView>), _>(CompileError::VariableNotFound),
    decreases count,
{
    if count > 0 {
        lemma_resolved_definitions(definitions, count - 1, declared, globals, module);
        assert(definitions.take(count).drop_last() =~= definitions.take(count - 1));
        assert(declared.take(count).drop_last() =~= declared.take(count - 1));
        assert(definitions.take(count).last() == definitions[count - 1]);
        assert(declared.take(count).last() == declared[count - 1]);
        if let Ok((target, _)) = compile_definitions(
            definitions.take(count - 1),
            declared.take(count - 1),
            globals,
            module,
        ) {
            match definitions[count - 1] {
                DefinitionView::FunctionDefinition(definition) => {
                    lemma_resolved_top_level_function(
                        definition,
                        declared[count - 1],
                        globals,
                        target,
                    );
                },
                DefinitionView::ValueDefinition(definition) => {
                    let initialized = target.set_initializer(
                        declared[count - 1]->Global_index,
                        ValueView::Undefined(declared[count - 1]->Global_type_),
                    );
                    let function = initialized.functions.len() as usize;
                    let added = initialized.add_function(
                        crate::ir::compile::module_compiler::initializer_name(definition.name),
                        crate::ir::compile::module_compiler::initializer_type(),
                    );
                    lemma_resolved_expression(
                        definition.body,
                        globals,
                        Map::empty(),
                        Set::empty(),
                        State { module: added, builder: BuilderView::new(function).enter() },
                    );
                },
            }
        }
    }
}

/// Where the body of a top-level function resolves, compiling the function
/// does not fail for a variable that is not found.
pub proof fn lemma_resolved_top_level_function(
    definition: FunctionDefinitionView,
    global: ValueView,
    globals: Variables,
    module: ModuleView,
)
    requires
        resolves(definition.body, globals.dom(), argument_names(definition.arguments)),
    ensures
        compile_top_level_function(definition, global, globals, module) != Err::<ModuleView, _>(
            CompileError::VariableNotFound,
        ),
{
    let type_ = entry_function_type(definition.type_());
    let entry = module.next_function(type_);
    let function = module.functions.len() as usize;
    let target = module.add_function(closure_entry_name(definition.name), type_).set_initializer(
        global->Global_index,
        ValueView::Struct(seq![entry]),
    );
    let count = definition.arguments.len() as int;
    let locals = bind_arguments(definition.arguments, function, count, Map::empty());
    lemma_argument_names(definition.arguments, function, count, Map::empty());
    assert forall|name: Name| locals.contains_key(name) <==> argument_names(
        definition.arguments,
    ).contains(name) by {
        assert(locals.contains_key(name) <==> (Map::<Name, ValueView>::empty().contains_key(name)
            || exists|i: int| 0 <= i < count && (#[trigger] definition.arguments[i]).name
            == name));
        if argument_names(definition.arguments).contains(name) {
            let i = choose|i: int|
                0 <= i < definition.arguments.len() && definition.arguments[i].name == name;
            assert(0 <= i < count && definition.arguments[i].name == name);
        }
    }
    lemma_resolved_expression(
        definition.body,
        globals,
        locals,
        argument_names(definition.arguments),
        State { module: target, builder: BuilderView::new(function).enter() },
    );
}

/// Every name is found: where every name that code generation looks up for
/// a module is bound, compiling the module does not fail for a variable that
/// is not found.
pub proof fn lemma_resolved_module(module: CoreModuleView)
    requires
        module_resolves(module),
    ensures
        compile_module(module) != Err::<ModuleView, _>(CompileError::VariableNotFound),
{
    let empty = ModuleView::empty().declare_intrinsics();
    let declarations = module.declarations.len() as int;
    let definitions = module.definitions.len() as int;
    assert(module.declarations.take(declarations) =~= module.declarations);
    assert(module.definitions.take(definitions) =~= module.definitions);
    let imported = declare_declarations(module.declarations, empty, Map::empty());
    let declared = declare_definitions(module.definitions, imported.0, imported.1);
    lemma_declared_declarations(module.declarations, declarations, empty, Map::empty());
    lemma_declared_definitions(module.definitions, definitions, imported.0, imported.1);
    let globals = declared.1;
    assert(globals.dom() =~= top_level_names(module)) by {
        assert forall|name: Name| globals.dom().contains(name) == top_level_names(
            module,
        ).contains(name) by {
            assert(imported.1.contains_key(name) <==> (Map::<Name, ValueView>::empty().contains_key(
                name,
            ) || exists|i: int|
                0 <= i < declarations && (#[trigger] module.declarations[i]).name == name));
            assert(globals.contains_key(name) <==> (imported.1.contains_key(name) || exists|
                i: int,
            | 0 <= i < definitions && (#[trigger] module.definitions[i]).name() == name));
            if top_level_names(module).contains(name) {
                if exists|i: int|
                    0 <= i < module.definitions.len() && module.definitions[i].name() == name {
                    let i = choose|i: int|
                        0 <= i < module.definitions.len() && module.definitions[i].name() == name;
                    assert(0 <= i < definitions && module.definitions[i].name() == name);
                } else {
                    let i = choose|i: int|
                        0 <= i < module.declarations.len() && module.declarations[i].name == name;
                    assert(0 <= i < declarations && module.declarations[i].name == name);
                }
            }
        }
    }
    lemma_resolved_definitions(module.definitions, definitions, declared.2, globals, declared.0);
    assert(declared.2.take(definitions) =~= declared.2);
}

} // verus!
