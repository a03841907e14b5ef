//! Every name is found: code generation looks up no name that nothing binds
//! in what closure conversion and renaming make of a module in which every
//! reference is bound.

use crate::ast;
use crate::compile::closure_converter::{
    bind_arguments, bind_functions, convert_expression, convert_expressions, convert_function,
    convert_functions, convert_module, convert_values, function_signature, sorted_names,
    typed_arguments, Locals,
};
use crate::compile::error::CompileErrorView;
use crate::compile::free_variable_finder::{
    free_in, free_in_expressions, free_in_functions, free_in_values, free_name, free_variables,
    function_names, value_names,
};
use crate::compile::scoping::{
    global_names, lemma_bind_arguments_dom, lemma_bind_functions_dom, lemma_bound_in_expressions_at,
    lemma_bound_in_functions_at, lemma_bound_in_values_at, lemma_convert_definitions_at,
    lemma_convert_definitions_len, lemma_convert_expressions_at, lemma_convert_functions_at,
    lemma_convert_values_at, lemma_convert_values_dom, lemma_free_in_expressions_at,
    lemma_free_in_finite, lemma_free_in_functions_at, lemma_free_in_values_at, lemma_sorted_names,
    lemma_typed_module_bound, module_bound, references_bound,
};
use crate::compile::soundness::lemma_inference_sound;
use crate::compile::type_inference::inferred;
use crate::interface::ModuleInterfaceView;
use crate::ir;
use crate::ir::ast::argument_names;
use crate::ir::compile::error::CompileError;
use crate::ir::compile::module_compiler::compile_module;
use crate::ir::compile::resolution::{
    function_resolves, lemma_resolved_module, module_resolves, resolves,
};
use crate::ir::rename::{
    argument_name_list, function_name_list, lemma_definition_renaming_dom, rename_expression,
    rename_name, rename_top_level, shadow, shadow_in_body, top_level_renaming, value_name_list,
    Renaming,
};
use crate::ir::scope::{bound_in_body, top_level_names};
use crate::names::Name;
use vstd::prelude::*;

verus! {

/// A name that is free in an expression in the scope of some names is free
/// in it in the scope of more names, unless it is one of them.
pub proof fn lemma_free_in_more(
    expression: ast::ExpressionView,
    bound: Set<Name>,
    more: Set<Name>,
    name: Name,
)
    requires
        free_in(expression, bound).contains(name),
        !more.contains(name),
    ensures
        free_in(expression, bound.union(more)).contains(name),
    decreases expression, 0nat,
{
    match expression {
        ast::ExpressionView::Number { .. } => {},
        ast::ExpressionView::Variable { .. } => {},
        ast::ExpressionView::Operation { lhs, rhs, .. } => {
            if free_in(*lhs, bound).contains(name) {
                lemma_free_in_more(*lhs, bound, more, name);
            } else {
                lemma_free_in_more(*rhs, bound, more, name);
            }
        },
        ast::ExpressionView::Application { function, arguments, .. } => {
            if !free_name(function, bound).contains(name) {
                lemma_free_in_expressions_more(
                    arguments,
                    bound,
                    more,
                    arguments.len() as int,
                    name,
                );
            }
        },
        ast::ExpressionView::LetValues { definitions, expression: body } => {
            let count = definitions.len() as int;
            if free_in_values(definitions, bound, count).contains(name) {
                lemma_free_in_values_more(definitions, bound, more, count, name);
            } else {
                let names = value_names(definitions, count);
                lemma_free_in_more(*body, bound.union(names), more, name);
                assert(bound.union(names).union(more) =~= bound.union(more).union(names));
            }
        },
        ast::ExpressionView::LetFunctions { definitions, expression: body } => {
            let count = definitions.len() as int;
            let names = function_names(definitions);
            assert(bound.union(names).union(more) =~= bound.union(more).union(names));
            if free_in_functions(definitions, bound.union(names), count).contains(name) {
                lemma_free_in_functions_more(definitions, bound.union(names), more, count, name);
            } else {
                lemma_free_in_more(*body, bound.union(names), more, name);
            }
        },
    }
}

/// The same for the first of a list of expressions.
pub proof fn lemma_free_in_expressions_more(
    expressions: Seq<ast::ExpressionView>,
    bound: Set<Name>,
    more: Set<Name>,
    count: int,
    name: Name,
)
    requires
        free_in_expressions(expressions, bound, count).contains(name),
        !more.contains(name),
    ensures
        free_in_expressions(expressions, bound.union(more), count).contains(name),
    decreases expressions, count,
{
    if 0 < count <= expressions.len() {
        if free_in_expressions(expressions, bound, count - 1).contains(name) {
            lemma_free_in_expressions_more(expressions, bound, more, count - 1, name);
        } else {
            lemma_free_in_more(expressions[count - 1], bound, more, name);
        }
    }
}

/// The same for the first definitions of a `let` of values.
pub proof fn lemma_free_in_values_more(
    definitions: Seq<ast::VariableDefinitionView>,
    bound: Set<Name>,
    more: Set<Name>,
    count: int,
    name: Name,
)
    requires
        free_in_values(definitions, bound, count).contains(name),
        !more.contains(name),
    ensures
        free_in_values(definitions, bound.union(more), count).contains(name),
    decreases definitions, count,
{
    if 0 < count <= definitions.len() {
        if free_in_values(definitions, bound, count - 1).contains(name) {
            lemma_free_in_values_more(definitions, bound, more, count - 1, name);
        } else {
            let names = value_names(definitions, count - 1);
            lemma_free_in_more(definitions[count - 1].body, bound.union(names), more, name);
            assert(bound.union(names).union(more) =~= bound.union(more).union(names));
        }
    }
}

/// The same for the first function definitions.
pub proof fn lemma_free_in_functions_more(
    definitions: Seq<ast::FunctionDefinitionView>,
    bound: Set<Name>,
    more: Set<Name>,
    count: int,
    name: Name,
)
    requires
        free_in_functions(definitions, bound, count).contains(name),
        !more.contains(name),
    ensures
        free_in_functions(definitions, bound.union(more), count).contains(name),
    decreases definitions, count,
{
    if 0 < count <= definitions.len() {
        if free_in_functions(definitions, bound, count - 1).contains(name) {
            lemma_free_in_functions_more(definitions, bound, more, count - 1, name);
        } else {
            let names = definitions[count - 1].arguments.to_set();
            lemma_free_in_more(definitions[count - 1].body, bound.union(names), more, name);
            assert(bound.union(names).union(more) =~= bound.union(more).union(names));
        }
    }
}

/// Whether the name is one of the first `count` names.
pub open spec fn among(names: Seq<Name>, count: int, name: Name) -> bool {
    exists|i: int| 0 <= i < count && i < names.len() && names[i] == name
}

/// Whether the renaming leaves the names of `hidden` as they are, and makes
/// a name of `after` of every name of `globals` that is not hidden.
pub open spec fn keeps(
    renaming: Renaming,
    hidden: Locals,
    globals: Set<Name>,
    after: Set<Name>,
) -> bool {
    &&& forall|name: Name| hidden.contains_key(name) ==> !renaming.contains_key(name)
    &&& forall|name: Name|
        globals.contains(name) && !hidden.contains_key(name) ==> after.contains(
            #[trigger] rename_name(name, renaming),
        )
}

/// In the scope of names, a renaming renames the names that it renamed but
/// those names, as it renamed them.
pub proof fn lemma_shadow_keys(renaming: Renaming, names: Seq<Name>, count: int)
    requires
        0 <= count <= names.len(),
    ensures
        forall|name: Name|
            #![trigger shadow(renaming, names, count).contains_key(name)]
            shadow(renaming, names, count).contains_key(name) <==> (renaming.contains_key(name)
                && !among(names, count, name)),
        forall|name: Name|
            #![trigger rename_name(name, shadow(renaming, names, count))]
            !among(names, count, name) ==> rename_name(name, shadow(renaming, names, count))
                == rename_name(name, renaming),
    decreases count,
{
    if count > 0 {
        lemma_shadow_keys(renaming, names, count - 1);
        let before = shadow(renaming, names, count - 1);
        let after = shadow(renaming, names, count);
        assert forall|name: Name| after.contains_key(name) <==> (renaming.contains_key(name)
            && !among(names, count, name)) by {
            assert(before.contains_key(name) <==> (renaming.contains_key(name) && !among(
                names,
                count - 1,
                name,
            )));
            if among(names, count, name) {
                let i = choose|i: int| 0 <= i < count && i < names.len() && names[i] == name;
                if i < count - 1 {
                    assert(among(names, count - 1, name));
                }
            }
            if among(names, count - 1, name) {
                let i = choose|i: int| 0 <= i < count - 1 && i < names.len() && names[i] == name;
                assert(0 <= i < count && i < names.len() && names[i] == name);
            }
            if name == names[count - 1] {
                assert(0 <= count - 1 < count && names[count - 1] == name);
            }
        }
        assert forall|name: Name| !among(names, count, name) implies rename_name(name, after)
            == rename_name(name, renaming) by {
            if among(names, count - 1, name) {
                let i = choose|i: int| 0 <= i < count - 1 && i < names.len() && names[i] == name;
                assert(0 <= i < count && i < names.len() && names[i] == name);
            }
            assert(rename_name(name, before) == rename_name(name, renaming));
            if name == names[count - 1] {
                assert(0 <= count - 1 < count && names[count - 1] == name);
            }
        }
    }
}

/// A renaming that keeps the hidden names keeps them and the names in whose
/// scope it is taken.
pub proof fn lemma_keeps_shadow(
    renaming: Renaming,
    names: Seq<Name>,
    count: int,
    hidden: Locals,
    inner: Locals,
    globals: Set<Name>,
    after: Set<Name>,
)
    requires
        0 <= count <= names.len(),
        keeps(renaming, hidden, globals, after),
        forall|name: Name|
            inner.contains_key(name) <==> (hidden.contains_key(name) || among(names, count, name)),
    ensures
        keeps(shadow(renaming, names, count), inner, globals, after),
{
    lemma_shadow_keys(renaming, names, count);
    let shadowed = shadow(renaming, names, count);
    assert forall|name: Name| inner.contains_key(name) implies !shadowed.contains_key(name) by {}
    assert forall|name: Name| globals.contains(name) && !inner.contains_key(name) implies after.contains(
    #[trigger] rename_name(name, shadowed)) by {
        assert(rename_name(name, shadowed) == rename_name(name, renaming));
        assert(after.contains(rename_name(name, renaming)));
    }
}

/// The variables that a converted function captures are its free variables
/// that are bound around it, and its arguments are those of the definition.
pub proof fn lemma_converted_names(
    definition: ast::FunctionDefinitionView,
    locals: Locals,
    converted: ir::ast::FunctionDefinitionView,
)
    requires
        convert_function(definition, locals) == Ok::<_, CompileErrorView>(converted),
    ensures
        argument_names(converted.environment) == free_variables(definition).intersect(locals.dom()),
        argument_names(converted.arguments) == definition.arguments.to_set(),
        converted.arguments.len() == definition.arguments.len(),
        forall|i: int|
            0 <= i < converted.arguments.len() ==> (#[trigger] converted.arguments[i]).name
                == definition.arguments[i],
        forall|i: int|
            0 <= i < converted.environment.len() ==> free_variables(definition).contains(
                (#[trigger] converted.environment[i]).name,
            ) && locals.contains_key(converted.environment[i].name),
{
    let (types, result_type) = function_signature(definition)->Ok_0;
    let arguments = typed_arguments(definition.arguments, types);
    let bound = definition.arguments.to_set();
    let wanted = free_variables(definition).intersect(locals.dom());
    lemma_free_in_finite(definition.body, bound);
    lemma_sorted_names(wanted);
    let names = sorted_names(wanted);
    let captured = argument_names(converted.environment);
    assert forall|i: int| 0 <= i < converted.environment.len() implies wanted.contains(
        (#[trigger] converted.environment[i]).name,
    ) by {
        assert(names[i] == converted.environment[i].name);
        assert(names.to_set().contains(names[i]));
    }
    assert(captured =~= wanted) by {
        assert forall|name: Name| captured.contains(name) == wanted.contains(name) by {
            if captured.contains(name) {
                let i = choose|i: int|
                    0 <= i < converted.environment.len() && converted.environment[i].name == name;
                assert(names[i] == name);
                assert(names.to_set().contains(name));
            }
            if wanted.contains(name) {
                assert(names.to_set().contains(name));
                let i = choose|i: int| 0 <= i < names.len() && names[i] == name;
                assert(converted.environment[i].name == name);
            }
        }
    }
    assert(argument_names(arguments) =~= bound) by {
        assert forall|name: Name| argument_names(arguments).contains(name) == bound.contains(
            name,
        ) by {
            if argument_names(arguments).contains(name) {
                let i = choose|i: int| 0 <= i < arguments.len() && arguments[i].name == name;
                assert(definition.arguments[i] == name);
            }
            if bound.contains(name) {
                let i = choose|i: int|
                    0 <= i < definition.arguments.len() && definition.arguments[i] == name;
                assert(arguments[i].name == name);
            }
        }
    }
}

/// The names bound once the first definitions of a `let` of values are
/// converted are the names bound before and the first names of the list of
/// the names that the definitions define.
pub proof fn lemma_values_hidden(
    definitions: Seq<ast::VariableDefinitionView>,
    locals: Locals,
    list: Seq<Name>,
    count: int,
)
    requires
        0 <= count <= definitions.len(),
        convert_values(definitions, locals, count) is Ok,
        list.len() == definitions.len(),
        forall|i: int| 0 <= i < list.len() ==> #[trigger] list[i] == definitions[i].name,
    ensures
        forall|name: Name|
            #![trigger convert_values(definitions, locals, count)->Ok_0.1.contains_key(name)]
            convert_values(definitions, locals, count)->Ok_0.1.contains_key(name) <==> (
            locals.contains_key(name) || among(list, count, name)),
{
    lemma_convert_values_dom(definitions, locals, count);
    let inner = convert_values(definitions, locals, count)->Ok_0.1;
    assert forall|name: Name| inner.contains_key(name) <==> (locals.contains_key(name) || among(
        list,
        count,
        name,
    )) by {
        assert(inner.contains_key(name) <==> (locals.contains_key(name) || value_names(
            definitions,
            count,
        ).contains(name)));
        if among(list, count, name) {
            let j = choose|j: int| 0 <= j < count && j < list.len() && list[j] == name;
            assert(0 <= j < count && j < definitions.len() && definitions[j].name == name);
            assert(value_names(definitions, count).contains(name));
        }
        if value_names(definitions, count).contains(name) {
            let j = choose|j: int|
                0 <= j < count && j < definitions.len() && definitions[j].name == name;
            assert(0 <= j < count && j < list.len() && list[j] == name);
        }
    }
}

/// The names bound once the definitions of a `let` of functions bind their
/// names are the names bound before and the names of the list of the names
/// that the definitions define.
pub proof fn lemma_functions_hidden(
    definitions: Seq<ast::FunctionDefinitionView>,
    locals: Locals,
    list: Seq<Name>,
)
    requires
        bind_functions(definitions, locals, definitions.len() as int) is Ok,
        list.len() == definitions.len(),
        forall|i: int| 0 <= i < list.len() ==> #[trigger] list[i] == definitions[i].name,
    ensures
        forall|name: Name|
            #![trigger bind_functions(definitions, locals, definitions.len() as int)->Ok_0.contains_key(name)]
            bind_functions(definitions, locals, definitions.len() as int)->Ok_0.contains_key(name)
                <==> (locals.contains_key(name) || among(list, definitions.len() as int, name)),
{
    let count = definitions.len() as int;
    lemma_bind_functions_dom(definitions, locals, count);
    assert(definitions.take(count) =~= definitions);
    let inner = bind_functions(definitions, locals, count)->Ok_0;
    assert forall|name: Name| inner.contains_key(name) <==> (locals.contains_key(name) || among(
        list,
        count,
        name,
    )) by {
        assert(inner.contains_key(name) <==> (locals.contains_key(name) || function_names(
            definitions.take(count),
        ).contains(name)));
        if among(list, count, name) {
            let j = choose|j: int| 0 <= j < count && j < list.len() && list[j] == name;
            assert(0 <= j < definitions.len() && definitions[j].name == name);
            assert(function_names(definitions).contains(name));
        }
        if function_names(definitions).contains(name) {
            let j = choose|j: int| 0 <= j < definitions.len() && definitions[j].name == name;
            assert(0 <= j < count && j < list.len() && list[j] == name);
        }
    }
}

/// Code generation finds every name of what an expression is converted and
/// renamed to, where every reference of the expression is bound.
///
/// Here `outer` are the names bound around the function that the expression
/// is in, `bound` the names bound inside that function so far, and
/// `captured` holds every name of `outer` that is free in the expression.
pub proof fn lemma_converted_resolves(
    expression: ast::ExpressionView,
    locals: Locals,
    converted: ir::ast::ExpressionView,
    scope: Set<Name>,
    outer: Set<Name>,
    bound: Set<Name>,
    captured: Set<Name>,
    globals: Set<Name>,
    renaming: Renaming,
    after: Set<Name>,
)
    requires
        convert_expression(expression, locals) == Ok::<_, CompileErrorView>(converted),
        references_bound(expression, scope),
        forall|name: Name|
            scope.contains(name) ==> outer.contains(name) || bound.contains(name)
                || globals.contains(name),
        forall|name: Name|
            locals.contains_key(name) <==> outer.contains(name) || bound.contains(name),
        forall|name: Name|
            free_in(expression, bound).contains(name) && outer.contains(name)
                ==> captured.contains(name),
        keeps(renaming, locals, globals, after),
    ensures
        resolves(rename_expression(converted, renaming), after, bound.union(captured)),
    decreases expression, 0nat,
{
    let here = bound.union(captured);
    match expression {
        ast::ExpressionView::Number { .. } => {},
        ast::ExpressionView::Variable { name, .. } => {
            lemma_name_resolves(name, locals, scope, outer, bound, captured, globals, renaming, after);
        },
        ast::ExpressionView::Operation { lhs, rhs, .. } => {
            let left = convert_expression(*lhs, locals)->Ok_0;
            let right = convert_expression(*rhs, locals)->Ok_0;
            lemma_converted_resolves(
                *lhs,
                locals,
                left,
                scope,
                outer,
                bound,
                captured,
                globals,
                renaming,
                after,
            );
            lemma_converted_resolves(
                *rhs,
                locals,
                right,
                scope,
                outer,
                bound,
                captured,
                globals,
                renaming,
                after,
            );
        },
        ast::ExpressionView::Application { function, arguments, .. } => {
            let count = arguments.len() as int;
            let results = convert_expressions(arguments, locals, count)->Ok_0;
            let renamed = rename_expression(converted, renaming)->Application_arguments;
            lemma_name_resolves(
                function,
                locals,
                scope,
                outer,
                bound,
                captured,
                globals,
                renaming,
                after,
            );
            assert forall|i: int| 0 <= i < renamed.len() implies resolves(
                #[trigger] renamed[i],
                after,
                here,
            ) by {
                lemma_convert_expressions_at(arguments, locals, count, 0);
                lemma_convert_expressions_at(arguments, locals, count, i);
                lemma_bound_in_expressions_at(arguments, scope, count, i);
                lemma_free_in_expressions_at(arguments, bound, count, i);
                lemma_converted_resolves(
                    arguments[i],
                    locals,
                    results[i],
                    scope,
                    outer,
                    bound,
                    captured,
                    globals,
                    renaming,
                    after,
                );
            }
        },
        ast::ExpressionView::LetValues { definitions, expression: body } => {
            let count = definitions.len() as int;
            let results = convert_values(definitions, locals, count)->Ok_0.0;
            let inner = convert_values(definitions, locals, count)->Ok_0.1;
            let result = convert_expression(*body, inner)->Ok_0;
            let list = value_name_list(results);
            let renamed = rename_expression(converted, renaming)->LetValues_definitions;
            lemma_convert_values_dom(definitions, locals, count);
            assert forall|i: int, name: Name| 0 <= i <= count implies (#[trigger] among(
                list,
                i,
                name,
            ) <==> value_names(definitions, i).contains(name)) by {
                if among(list, i, name) {
                    let j = choose|j: int| 0 <= j < i && j < list.len() && list[j] == name;
                    assert(results[j].name == definitions[j].name);
                    assert(0 <= j < i && j < definitions.len() && definitions[j].name == name);
                }
                if value_names(definitions, i).contains(name) {
                    let j = choose|j: int|
                        0 <= j < i && j < definitions.len() && definitions[j].name == name;
                    assert(results[j].name == definitions[j].name);
                    assert(0 <= j < i && j < list.len() && list[j] == name);
                }
            }
            assert forall|i: int, name: Name| 0 <= i <= count implies (
            #[trigger] ir::scope::value_names(renamed, i).contains(name) <==> value_names(
                definitions,
                i,
            ).contains(name)) by {
                if ir::scope::value_names(renamed, i).contains(name) {
                    let j = choose|j: int|
                        0 <= j < i && j < renamed.len() && renamed[j].name == name;
                    assert(results[j].name == definitions[j].name);
                    assert(0 <= j < i && j < definitions.len() && definitions[j].name == name);
                }
                if value_names(definitions, i).contains(name) {
                    let j = choose|j: int|
                        0 <= j < i && j < definitions.len() && definitions[j].name == name;
                    assert(results[j].name == definitions[j].name);
                    assert(0 <= j < i && j < renamed.len() && renamed[j].name == name);
                }
            }
            assert forall|i: int| 0 <= i < renamed.len() implies resolves(
                (#[trigger] renamed[i]).body,
                after,
                here.union(ir::scope::value_names(renamed, i)),
            ) by {
                lemma_convert_values_at(definitions, locals, count, i);
                lemma_convert_values_dom(definitions, locals, i);
                lemma_bound_in_values_at(definitions, scope, count, i);
                lemma_free_in_values_at(definitions, bound, count, i);
                let names = value_names(definitions, i);
                let before = convert_values(definitions, locals, i)->Ok_0.1;
                lemma_values_hidden(definitions, locals, list, i);
                lemma_keeps_shadow(renaming, list, i, locals, before, globals, after);
                lemma_converted_resolves(
                    definitions[i].body,
                    before,
                    results[i].body,
                    scope.union(names),
                    outer,
                    bound.union(names),
                    captured,
                    globals,
                    shadow(renaming, list, i),
                    after,
                );
                assert(ir::scope::value_names(renamed, i) =~= names) by {
                    assert forall|name: Name| ir::scope::value_names(renamed, i).contains(name)
                        == names.contains(name) by {}
                }
                assert(bound.union(names).union(captured) =~= here.union(
                    ir::scope::value_names(renamed, i),
                ));
            }
            let names = value_names(definitions, count);
            lemma_values_hidden(definitions, locals, list, count);
            lemma_keeps_shadow(renaming, list, count, locals, inner, globals, after);
            lemma_converted_resolves(
                *body,
                inner,
                result,
                scope.union(names),
                outer,
                bound.union(names),
                captured,
                globals,
                shadow(renaming, list, count),
                after,
            );
            assert(ir::scope::value_names(renamed, count) =~= names) by {
                assert forall|name: Name| ir::scope::value_names(renamed, count).contains(name)
                    == names.contains(name) by {}
            }
            assert(bound.union(names).union(captured) =~= here.union(
                ir::scope::value_names(renamed, count),
            ));
        },
        ast::ExpressionView::LetFunctions { definitions, expression: body } => {
            let count = definitions.len() as int;
            let inner = bind_functions(definitions, locals, count)->Ok_0;
            let results = convert_functions(definitions, inner, count)->Ok_0;
            let result = convert_expression(*body, inner)->Ok_0;
            let names = function_names(definitions);
            let list = function_name_list(results);
            let renamed = rename_expression(converted, renaming)->LetFunctions_definitions;
            let shadowed = shadow(renaming, list, results.len() as int);
            lemma_bind_functions_dom(definitions, locals, count);
            assert(definitions.take(count) =~= definitions);
            if count > 0 {
                lemma_convert_functions_at(definitions, inner, count, 0);
            }
            assert forall|i: int| 0 <= i < count implies (#[trigger] results[i]).name
                == definitions[i].name && renamed[i].name == definitions[i].name by {
                lemma_convert_functions_at(definitions, inner, count, i);
            }
            assert forall|name: Name| #[trigger] among(list, count, name) <==> names.contains(
                name,
            ) by {
                if among(list, count, name) {
                    let j = choose|j: int| 0 <= j < count && j < list.len() && list[j] == name;
                    assert(results[j].name == definitions[j].name);
                    assert(0 <= j < definitions.len() && definitions[j].name == name);
                }
                if names.contains(name) {
                    let j = choose|j: int|
                        0 <= j < definitions.len() && definitions[j].name == name;
                    assert(results[j].name == definitions[j].name);
                    assert(0 <= j < count && j < list.len() && list[j] == name);
                }
            }
            assert(ir::scope::function_names(renamed) =~= names) by {
                assert forall|name: Name| ir::scope::function_names(renamed).contains(name)
                    == names.contains(name) by {
                    if ir::scope::function_names(renamed).contains(name) {
                        let j = choose|j: int| 0 <= j < renamed.len() && renamed[j].name == name;
                        assert(definitions[j].name == name);
                    }
                    if names.contains(name) {
                        let j = choose|j: int|
                            0 <= j < definitions.len() && definitions[j].name == name;
                        assert(renamed[j].name == name);
                    }
                }
            }
            lemma_functions_hidden(definitions, locals, list);
            lemma_keeps_shadow(renaming, list, count, locals, inner, globals, after);
            let wider = here.union(ir::scope::function_names(renamed));
            assert forall|i: int| 0 <= i < renamed.len() implies function_resolves(
                #[trigger] renamed[i],
                after,
                wider,
            ) by {
                lemma_convert_functions_at(definitions, inner, count, i);
                lemma_bound_in_functions_at(definitions, scope.union(names), count, i);
                lemma_free_in_functions_at(definitions, bound.union(names), count, i);
                let definition = definitions[i];
                let inside = scope.union(names).union(definition.arguments.to_set());
                assert forall|name: Name| inside.contains(name) implies inner.contains_key(name)
                    || globals.contains(name) || definition.arguments.to_set().contains(
                    name,
                ) by {
                    if scope.contains(name) {
                        assert(outer.contains(name) || bound.contains(name) || globals.contains(
                            name,
                        ));
                        if !globals.contains(name) {
                            assert(locals.contains_key(name));
                        }
                    }
                }
                lemma_converted_function_resolves(
                    definition,
                    inner,
                    results[i],
                    inside,
                    globals,
                    shadowed,
                    after,
                );
                lemma_converted_names(definition, inner, results[i]);
                assert forall|k: int| 0 <= k < renamed[i].environment.len() implies wider.contains(
                    (#[trigger] renamed[i].environment[k]).name,
                ) by {
                    let name = results[i].environment[k].name;
                    assert(free_variables(definition).contains(name));
                    assert(inner.contains_key(name));
                    if !bound.contains(name) && !names.contains(name) {
                        assert(locals.contains_key(name));
                        assert(outer.contains(name));
                        lemma_free_in_more(
                            definition.body,
                            definition.arguments.to_set(),
                            bound.union(names),
                            name,
                        );
                        assert(definition.arguments.to_set().union(bound.union(names))
                            =~= bound.union(names).union(definition.arguments.to_set()));
                        assert(free_in_functions(definitions, bound.union(names), count).contains(
                            name,
                        ));
                        assert(free_in(expression, bound).contains(name));
                        assert(captured.contains(name));
                    }
                }
            }
            lemma_converted_resolves(
                *body,
                inner,
                result,
                scope.union(names),
                outer,
                bound.union(names),
                captured,
                globals,
                shadowed,
                after,
            );
            assert(bound.union(names).union(captured) =~= wider);
        },
    }
}

/// Code generation finds a name that is referred to where it is bound.
pub proof fn lemma_name_resolves(
    name: Name,
    locals: Locals,
    scope: Set<Name>,
    outer: Set<Name>,
    bound: Set<Name>,
    captured: Set<Name>,
    globals: Set<Name>,
    renaming: Renaming,
    after: Set<Name>,
)
    requires
        scope.contains(name),
        forall|name: Name|
            scope.contains(name) ==> outer.contains(name) || bound.contains(name)
                || globals.contains(name),
        forall|name: Name|
            locals.contains_key(name) <==> outer.contains(name) || bound.contains(name),
        free_name(name, bound).contains(name) && outer.contains(name) ==> captured.contains(name),
        keeps(renaming, locals, globals, after),
    ensures
        bound.union(captured).contains(rename_name(name, renaming)) || after.contains(
            rename_name(name, renaming),
        ),
{
    if locals.contains_key(name) {
        assert(!renaming.contains_key(name));
        assert(free_name(name, bound).contains(name) || bound.contains(name));
    } else {
        assert(globals.contains(name));
        assert(after.contains(rename_name(name, renaming)));
    }
}

/// Code generation finds every name of the body of what a function
/// definition is converted and renamed to, where every reference of the
/// definition is bound.
pub proof fn lemma_converted_function_resolves(
    definition: ast::FunctionDefinitionView,
    locals: Locals,
    converted: ir::ast::FunctionDefinitionView,
    scope: Set<Name>,
    globals: Set<Name>,
    renaming: Renaming,
    after: Set<Name>,
)
    requires
        convert_function(definition, locals) == Ok::<_, CompileErrorView>(converted),
        references_bound(definition.body, scope),
        forall|name: Name|
            scope.contains(name) ==> locals.contains_key(name) || globals.contains(name)
                || definition.arguments.to_set().contains(name),
        keeps(renaming, locals, globals, after),
    ensures
        resolves(
            rename_expression(
                converted.body,
                shadow_in_body(renaming, converted.environment, converted.arguments),
            ),
            after,
            bound_in_body(converted),
        ),
    decreases definition, 0nat,
{
    let (types, result_type) = function_signature(definition)->Ok_0;
    let arguments = typed_arguments(definition.arguments, types);
    let count = arguments.len() as int;
    let inner = bind_arguments(arguments, locals, count);
    let outer = locals.dom();
    let bound = definition.arguments.to_set();
    let captured = argument_names(converted.environment);
    lemma_converted_names(definition, locals, converted);
    lemma_bind_arguments_dom(arguments, locals, count);
    assert(arguments.take(count) =~= arguments);
    let environment = argument_name_list(converted.environment);
    let taken = argument_name_list(converted.arguments);
    let first = shadow(renaming, environment, converted.environment.len() as int);
    assert forall|name: Name| locals.contains_key(name) <==> (locals.contains_key(name) || among(
        environment,
        converted.environment.len() as int,
        name,
    )) by {
        if among(environment, converted.environment.len() as int, name) {
            let i = choose|i: int|
                0 <= i < converted.environment.len() as int && i < environment.len()
                    && environment[i] == name;
            assert(converted.environment[i].name == name);
        }
    }
    lemma_keeps_shadow(
        renaming,
        environment,
        converted.environment.len() as int,
        locals,
        locals,
        globals,
        after,
    );
    assert forall|name: Name| inner.contains_key(name) <==> (locals.contains_key(name) || among(
        taken,
        converted.arguments.len() as int,
        name,
    )) by {
        assert(inner.contains_key(name) <==> (locals.contains_key(name) || argument_names(
            arguments.take(count),
        ).contains(name)));
        if among(taken, converted.arguments.len() as int, name) {
            let i = choose|i: int|
                0 <= i < converted.arguments.len() as int && i < taken.len() && taken[i] == name;
            assert(arguments[i].name == name);
            assert(argument_names(arguments).contains(name));
        }
        if argument_names(arguments).contains(name) {
            let i = choose|i: int| 0 <= i < arguments.len() && arguments[i].name == name;
            assert(0 <= i < converted.arguments.len() as int && i < taken.len() && taken[i]
                == name);
        }
    }
    lemma_keeps_shadow(
        first,
        taken,
        converted.arguments.len() as int,
        locals,
        inner,
        globals,
        after,
    );
    assert forall|name: Name| inner.contains_key(name) <==> outer.contains(name) || bound.contains(
        name,
    ) by {}
    lemma_converted_resolves(
        definition.body,
        inner,
        converted.body,
        scope,
        outer,
        bound,
        captured,
        globals,
        shadow_in_body(renaming, converted.environment, converted.arguments),
        after,
    );
    assert(bound.union(captured) =~= bound_in_body(converted));
}

/// Code generation finds every name of what a module is converted and
/// renamed to, where every reference of the module is bound.
pub proof fn lemma_converted_module_resolves(
    module: ast::ModuleView,
    imported_modules: Seq<ModuleInterfaceView>,
    converted: ir::ast::ModuleView,
    module_name: Name,
)
    requires
        convert_module(module, imported_modules) == Ok::<_, CompileErrorView>(converted),
        module_bound(module, imported_modules),
    ensures
        module_resolves(rename_top_level(converted, module_name)),
{
    let count = module.definitions.len() as int;
    let globals = global_names(module, imported_modules);
    let names = top_level_names(converted);
    let renaming = top_level_renaming(converted, module_name);
    let renamed = rename_top_level(converted, module_name);
    let after = top_level_names(renamed);
    let nothing = Map::<Name, ir::types::TypeView>::empty();
    let empty = Set::<Name>::empty();
    lemma_convert_definitions_len(module.definitions, count);
    assert(names =~= globals) by {
        assert forall|name: Name| names.contains(name) == globals.contains(name) by {
            if exists|i: int|
                0 <= i < converted.definitions.len() && converted.definitions[i].name() == name {
                let i = choose|i: int|
                    0 <= i < converted.definitions.len() && converted.definitions[i].name()
                        == name;
                lemma_convert_definitions_at(module.definitions, count, i);
                assert(module.definitions[i].name() == name);
            }
            if exists|i: int|
                0 <= i < module.definitions.len() && (#[trigger] module.definitions[i]).name()
                    == name {
                let i = choose|i: int|
                    0 <= i < module.definitions.len() && (#[trigger] module.definitions[i]).name()
                        == name;
                lemma_convert_definitions_at(module.definitions, count, i);
                assert(converted.definitions[i].name() == name);
            }
        }
    }
    lemma_definition_renaming_dom(
        converted.definitions,
        module_name,
        converted.definitions.len() as int,
    );
    assert forall|name: Name| globals.contains(name) && !nothing.contains_key(
        name,
    ) implies after.contains(#[trigger] rename_name(name, renaming)) by {
        assert(names.contains(name));
        if renaming.contains_key(name) {
            let i = choose|i: int|
                0 <= i < converted.definitions.len() && (#[trigger] converted.definitions[i]).name()
                    == name;
            assert(renamed.definitions[i].name() == rename_name(name, renaming));
        } else {
            assert(!(exists|i: int|
                0 <= i < converted.definitions.len() && (#[trigger] converted.definitions[i]).name()
                    == name));
            let i = choose|i: int|
                0 <= i < converted.declarations.len() && converted.declarations[i].name == name;
            assert(renamed.declarations[i].name == name);
        }
    }
    assert(keeps(renaming, nothing, globals, after));
    assert forall|i: int| 0 <= i < renamed.definitions.len() implies match #[trigger] renamed.definitions[i] {
        ir::ast::DefinitionView::FunctionDefinition(definition) => resolves(
            definition.body,
            after,
            argument_names(definition.arguments),
        ),
        ir::ast::DefinitionView::ValueDefinition(definition) => resolves(
            definition.body,
            after,
            Set::empty(),
        ),
    } by {
        lemma_convert_definitions_at(module.definitions, count, i);
        match module.definitions[i] {
            ast::DefinitionView::FunctionDefinition(definition) => {
                let result = convert_function(definition, nothing)->Ok_0;
                lemma_converted_function_resolves(
                    definition,
                    nothing,
                    result,
                    globals.union(definition.arguments.to_set()),
                    globals,
                    renaming,
                    after,
                );
                lemma_converted_names(definition, nothing, result);
                assert(bound_in_body(result) =~= argument_names(result.arguments));
            },
            ast::DefinitionView::VariableDefinition(definition) => {
                let result = convert_expression(definition.body, nothing)->Ok_0;
                lemma_converted_resolves(
                    definition.body,
                    nothing,
                    result,
                    globals,
                    empty,
                    empty,
                    empty,
                    globals,
                    renaming,
                    after,
                );
                assert(empty.union(empty) =~= empty);
            },
        }
    }
}

/// Every name is found: code generation does not fail for a variable that
/// is not found on what closure conversion and renaming make of the module
/// that inference gives.
pub proof fn lemma_names_found(
    module_name: Name,
    module: ast::ModuleView,
    imported_modules: Seq<ModuleInterfaceView>,
    typed: ast::ModuleView,
    converted: ir::ast::ModuleView,
)
    requires
        inferred(module, imported_modules, Ok(typed)),
        convert_module(typed, imported_modules) == Ok::<_, CompileErrorView>(converted),
    ensures
        compile_module(rename_top_level(converted, module_name)) != Err::<
            crate::llvm::module::ModuleView,
            _,
        >(CompileError::VariableNotFound),
{
    lemma_inference_sound(module, imported_modules, typed);
    lemma_typed_module_bound(typed, imported_modules);
    lemma_converted_module_resolves(typed, imported_modules, converted, module_name);
    lemma_resolved_module(rename_top_level(converted, module_name));
}

} // verus!
