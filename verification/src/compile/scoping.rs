//! Free-variable closure: every function definition that closure conversion
//! makes refers only to its arguments, to the variables that it captures,
//! and to top-level names.

use crate::ast;
use crate::compile::closure_converter::{
    bind_arguments, bind_functions, captured, convert_definition, convert_definitions,
    convert_expression, convert_expressions, convert_function, convert_functions,
    convert_module, convert_values, declarations_of, function_signature, sorted_names,
    typed_arguments, Locals,
};
use crate::compile::error::CompileErrorView;
use crate::compile::free_variable_finder::{
    free_in, free_in_expressions, free_in_functions, free_in_values, free_name, free_variables,
    function_names, value_names,
};
use crate::interface::ModuleInterfaceView;
use crate::ir;
use crate::ir::ast::{argument_names, ArgumentView};
use crate::ir::scope::{bound_in_body, functions_closed, module_closed, references_within};
use crate::names::{lemma_name_order, name_before, strictly_sorted, Name};
use crate::compile::soundness::lemma_inference_sound;
use crate::compile::type_inference::{
    bind_declarations, bind_definitions, bind_interfaces, bind_names, collect_arguments,
    collect_definition, collect_definitions, collect_expression, collect_function,
    collect_functions, collect_values, equations_of, inferred, top_level_environment,
    TypeEnvironment,
};
use crate::types::TypeView;
use vstd::prelude::*;

verus! {

/// Whether every name that the expression refers to is bound: by `scope`,
/// or by a binder around the reference inside the expression.
pub open spec fn references_bound(expression: ast::ExpressionView, scope: Set<Name>) -> bool
    decreases expression, 0nat,
{
    match expression {
        ast::ExpressionView::Number { .. } => true,
        ast::ExpressionView::Variable { name, .. } => scope.contains(name),
        ast::ExpressionView::Operation { lhs, rhs, .. } => references_bound(*lhs, scope)
            && references_bound(*rhs, scope),
        ast::ExpressionView::Application { function, arguments, .. } => scope.contains(function)
            && bound_in_expressions(arguments, scope, arguments.len() as int),
        ast::ExpressionView::LetValues { definitions, expression } => bound_in_values(
            definitions,
            scope,
            definitions.len() as int,
        ) && references_bound(
            *expression,
            scope.union(value_names(definitions, definitions.len() as int)),
        ),
        ast::ExpressionView::LetFunctions { definitions, expression } => bound_in_functions(
            definitions,
            scope.union(function_names(definitions)),
            definitions.len() as int,
        ) && references_bound(*expression, scope.union(function_names(definitions))),
    }
}

/// Whether every name that the first `count` expressions refer to is bound.
pub open spec fn bound_in_expressions(
    expressions: Seq<ast::ExpressionView>,
    scope: Set<Name>,
    count: int,
) -> bool
    decreases expressions, count,
{
    if count <= 0 || count > expressions.len() {
        true
    } else {
        bound_in_expressions(expressions, scope, count - 1) && references_bound(
            expressions[count - 1],
            scope,
        )
    }
}

/// Whether every name that the bodies of the first `count` definitions of a
/// `let` of values refer to is bound.
pub open spec fn bound_in_values(
    definitions: Seq<ast::VariableDefinitionView>,
    scope: Set<Name>,
    count: int,
) -> bool
    decreases definitions, count,
{
    if count <= 0 || count > definitions.len() {
        true
    } else {
        bound_in_values(definitions, scope, count - 1) && references_bound(
            definitions[count - 1].body,
            scope.union(value_names(definitions, count - 1)),
        )
    }
}

/// Whether every name that the bodies of the first `count` function
/// definitions refer to is bound.
pub open spec fn bound_in_functions(
    definitions: Seq<ast::FunctionDefinitionView>,
    scope: Set<Name>,
    count: int,
) -> bool
    decreases definitions, count,
{
    if count <= 0 || count > definitions.len() {
        true
    } else {
        bound_in_functions(definitions, scope, count - 1) && references_bound(
            definitions[count - 1].body,
            scope.union(definitions[count - 1].arguments.to_set()),
        )
    }
}

/// The names bound at the top level of a module: what its definitions bind
/// and what the modules that it uses export.
pub open spec fn global_names(
    module: ast::ModuleView,
    imported_modules: Seq<ModuleInterfaceView>,
) -> Set<Name> {
    Set::new(
        |name: Name|
            (exists|i: int|
                0 <= i < module.definitions.len() && (#[trigger] module.definitions[i]).name()
                    == name) || (exists|i: int|
                0 <= i < declarations_of(imported_modules, imported_modules.len() as int).len() && (
                #[trigger] declarations_of(imported_modules, imported_modules.len() as int)[i]).name
                    == name),
    )
}

/// Whether every name that a module refers to is bound.
pub open spec fn module_bound(
    module: ast::ModuleView,
    imported_modules: Seq<ModuleInterfaceView>,
) -> bool {
    forall|i: int|
        0 <= i < module.definitions.len() ==> match #[trigger] module.definitions[i] {
            ast::DefinitionView::FunctionDefinition(definition) => references_bound(
                definition.body,
                global_names(module, imported_modules).union(definition.arguments.to_set()),
            ),
            ast::DefinitionView::VariableDefinition(definition) => references_bound(
                definition.body,
                global_names(module, imported_modules),
            ),
        }
}

/// The names free in an expression are finitely many.
pub proof fn lemma_free_in_finite(expression: ast::ExpressionView, bound: Set<Name>)
    ensures
        free_in(expression, bound).finite(),
    decreases expression, 0nat,
{
    match expression {
        ast::ExpressionView::Number { .. } => {},
        ast::ExpressionView::Variable { .. } => {},
        ast::ExpressionView::Operation { lhs, rhs, .. } => {
            lemma_free_in_finite(*lhs, bound);
            lemma_free_in_finite(*rhs, bound);
        },
        ast::ExpressionView::Application { arguments, .. } => {
            lemma_free_in_expressions_finite(arguments, bound, arguments.len() as int);
        },
        ast::ExpressionView::LetValues { definitions, expression } => {
            lemma_free_in_values_finite(definitions, bound, definitions.len() as int);
            lemma_free_in_finite(
                *expression,
                bound.union(value_names(definitions, definitions.len() as int)),
            );
        },
        ast::ExpressionView::LetFunctions { definitions, expression } => {
            lemma_free_in_functions_finite(
                definitions,
                bound.union(function_names(definitions)),
                definitions.len() as int,
            );
            lemma_free_in_finite(*expression, bound.union(function_names(definitions)));
        },
    }
}

/// The names free in expressions are finitely many.
pub proof fn lemma_free_in_expressions_finite(
    expressions: Seq<ast::ExpressionView>,
    bound: Set<Name>,
    count: int,
)
    ensures
        free_in_expressions(expressions, bound, count).finite(),
    decreases expressions, count,
{
    if !(count <= 0 || count > expressions.len()) {
        lemma_free_in_expressions_finite(expressions, bound, count - 1);
        lemma_free_in_finite(expressions[count - 1], bound);
    }
}

/// The names free in the definitions of a `let` of values are finitely
/// many.
pub proof fn lemma_free_in_values_finite(
    definitions: Seq<ast::VariableDefinitionView>,
    bound: Set<Name>,
    count: int,
)
    ensures
        free_in_values(definitions, bound, count).finite(),
    decreases definitions, count,
{
    if !(count <= 0 || count > definitions.len()) {
        lemma_free_in_values_finite(definitions, bound, count - 1);
        lemma_free_in_finite(
            definitions[count - 1].body,
            bound.union(value_names(definitions, count - 1)),
        );
    }
}

/// The names free in function definitions are finitely many.
pub proof fn lemma_free_in_functions_finite(
    definitions: Seq<ast::FunctionDefinitionView>,
    bound: Set<Name>,
    count: int,
)
    ensures
        free_in_functions(definitions, bound, count).finite(),
    decreases definitions, count,
{
    if !(count <= 0 || count > definitions.len()) {
        lemma_free_in_functions_finite(definitions, bound, count - 1);
        lemma_free_in_finite(
            definitions[count - 1].body,
            bound.union(definitions[count - 1].arguments.to_set()),
        );
    }
}

/// A sorted list with one more name at its place.
pub proof fn lemma_insert_sorted(list: Seq<Name>, name: Name) -> (result: Seq<Name>)
    requires
        strictly_sorted(list),
        !list.contains(name),
    ensures
        strictly_sorted(result),
        result.to_set() == list.to_set().insert(name),
        result.len() == list.len() + 1,
        forall|i: int| 0 <= i < result.len() ==> result[i] == name || list.contains(result[i]),
    decreases list.len(),
{
    if list.len() == 0 {
        let result = seq![name];
        assert(result.to_set() =~= list.to_set().insert(name)) by {
            assert forall|other: Name| result.to_set().contains(other) == list.to_set().insert(
                name,
            ).contains(other) by {
                if other == name {
                    assert(result[0] == other);
                }
                if list.contains(other) {
                    let i = choose|i: int| 0 <= i < list.len() && list[i] == other;
                }
            }
        }
        result
    } else if name_before(name, list[0]) {
        let result = seq![name] + list;
        assert forall|i: int, j: int| 0 <= i < j < result.len() implies name_before(
            #[trigger] result[i],
            #[trigger] result[j],
        ) by {
            if i == 0 {
                lemma_name_order(name, list[0], list[j - 1]);
                if j - 1 > 0 {
                    assert(name_before(list[0], list[j - 1]));
                }
            } else {
                assert(name_before(list[i - 1], list[j - 1]));
            }
        }
        assert(result.to_set() =~= list.to_set().insert(name)) by {
            assert forall|other: Name| result.to_set().contains(other) == list.to_set().insert(
                name,
            ).contains(other) by {
                if result.contains(other) {
                    let i = choose|i: int| 0 <= i < result.len() && result[i] == other;
                    if i > 0 {
                        assert(list[i - 1] == other);
                    }
                }
                if list.contains(other) {
                    let i = choose|i: int| 0 <= i < list.len() && list[i] == other;
                    assert(result[i + 1] == other);
                }
                if other == name {
                    assert(result[0] == other);
                }
            }
        }
        assert forall|i: int| 0 <= i < result.len() implies result[i] == name || list.contains(
            result[i],
        ) by {
            if i > 0 {
                assert(list[i - 1] == result[i]);
            }
        }
        result
    } else {
        let rest = list.skip(1);
        assert(strictly_sorted(rest)) by {
            assert forall|a: int, b: int| 0 <= a < b < rest.len() implies name_before(
                #[trigger] rest[a],
                #[trigger] rest[b],
            ) by {
                assert(name_before(list[a + 1], list[b + 1]));
            }
        }
        assert(!rest.contains(name)) by {
            if rest.contains(name) {
                let i = choose|i: int| 0 <= i < rest.len() && rest[i] == name;
                assert(list[i + 1] == name);
            }
        }
        let inserted = lemma_insert_sorted(rest, name);
        let result = seq![list[0]] + inserted;
        lemma_name_order(name, list[0], name);
        assert(list[0] != name) by {
            assert(list.contains(list[0]));
        }
        assert(name_before(list[0], name));
        assert forall|i: int, j: int| 0 <= i < j < result.len() implies name_before(
            #[trigger] result[i],
            #[trigger] result[j],
        ) by {
            if i == 0 {
                let other = inserted[j - 1];
                if other != name {
                    assert(rest.contains(other));
                    let k = choose|k: int| 0 <= k < rest.len() && rest[k] == other;
                    assert(name_before(list[0], list[k + 1]));
                }
            } else {
                assert(name_before(inserted[i - 1], inserted[j - 1]));
            }
        }
        assert(result.to_set() =~= list.to_set().insert(name)) by {
            assert forall|other: Name| result.to_set().contains(other) == list.to_set().insert(
                name,
            ).contains(other) by {
                if result.contains(other) {
                    let i = choose|i: int| 0 <= i < result.len() && result[i] == other;
                    if i > 0 {
                        assert(inserted[i - 1] == other);
                        assert(inserted.to_set().contains(other));
                        if other != name {
                            assert(rest.contains(other));
                            let k = choose|k: int| 0 <= k < rest.len() && rest[k] == other;
                            assert(list[k + 1] == other);
                        }
                    } else {
                        assert(list[0] == other);
                    }
                }
                if list.contains(other) {
                    let i = choose|i: int| 0 <= i < list.len() && list[i] == other;
                    if i == 0 {
                        assert(result[0] == other);
                    } else {
                        assert(rest[i - 1] == other);
                        assert(rest.to_set().contains(other));
                        assert(inserted.to_set().contains(other));
                        let k = choose|k: int| 0 <= k < inserted.len() && inserted[k] == other;
                        assert(result[k + 1] == other);
                    }
                }
                if other == name {
                    assert(inserted.to_set().contains(other));
                    let k = choose|k: int| 0 <= k < inserted.len() && inserted[k] == other;
                    assert(result[k + 1] == other);
                }
            }
        }
        assert forall|i: int| 0 <= i < result.len() implies result[i] == name || list.contains(
            result[i],
        ) by {
            if i > 0 {
                let other = inserted[i - 1];
                if other != name {
                    assert(rest.contains(other));
                    let k = choose|k: int| 0 <= k < rest.len() && rest[k] == other;
                    assert(list[k + 1] == other);
                }
            } else {
                assert(list[0] == result[0]);
            }
        }
        result
    }
}

/// Finitely many names have a sorted list, and `sorted_names` is it.
pub proof fn lemma_sorted_names(names: Set<Name>)
    requires
        names.finite(),
    ensures
        strictly_sorted(sorted_names(names)),
        sorted_names(names).to_set() == names,
    decreases names.len(),
{
    let list = lemma_sorted_list(names);
    assert(strictly_sorted(list) && list.to_set() == names);
}

/// A sorted list of finitely many names.
pub proof fn lemma_sorted_list(names: Set<Name>) -> (list: Seq<Name>)
    requires
        names.finite(),
    ensures
        strictly_sorted(list),
        list.to_set() == names,
    decreases names.len(),
{
    if names.len() == 0 {
        let list = Seq::<Name>::empty();
        assert(names =~= Set::empty());
        assert(list.to_set() =~= names);
        list
    } else {
        let name = names.choose();
        let rest = lemma_sorted_list(names.remove(name));
        assert(!rest.contains(name)) by {
            if rest.contains(name) {
                assert(rest.to_set().contains(name));
            }
        }
        let list = lemma_insert_sorted(rest, name);
        assert(list.to_set() =~= names);
        list
    }
}

/// What the first expressions are converted to is what each is converted
/// to, place by place.
pub proof fn lemma_convert_expressions_at(
    expressions: Seq<ast::ExpressionView>,
    locals: Locals,
    count: int,
    index: int,
)
    requires
        0 <= index < count <= expressions.len(),
        convert_expressions(expressions, locals, count) is Ok,
    ensures
        convert_expressions(expressions, locals, count)->Ok_0.len() == count,
        convert_expression(expressions[index], locals) == Ok::<_, CompileErrorView>(
            convert_expressions(expressions, locals, count)->Ok_0[index],
        ),
    decreases count,
{
    lemma_convert_expressions_len(expressions, locals, count);
    lemma_convert_expressions_len(expressions, locals, count - 1);
    if index < count - 1 {
        lemma_convert_expressions_at(expressions, locals, count - 1, index);
    }
}

/// As many expressions are converted as there are.
pub proof fn lemma_convert_expressions_len(
    expressions: Seq<ast::ExpressionView>,
    locals: Locals,
    count: int,
)
    requires
        0 <= count <= expressions.len(),
        convert_expressions(expressions, locals, count) is Ok,
    ensures
        convert_expressions(expressions, locals, count)->Ok_0.len() == count,
        count > 0 ==> convert_expressions(expressions, locals, count - 1) is Ok,
    decreases count,
{
    if count > 0 {
        assert(convert_expressions(expressions, locals, count - 1) is Ok);
        lemma_convert_expressions_len(expressions, locals, count - 1);
    }
}

/// The names bound once the first definitions of a `let` of values are
/// converted are the names bound before and the names of those definitions.
pub proof fn lemma_convert_values_dom(
    definitions: Seq<ast::VariableDefinitionView>,
    locals: Locals,
    count: int,
)
    requires
        0 <= count <= definitions.len(),
        convert_values(definitions, locals, count) is Ok,
    ensures
        convert_values(definitions, locals, count)->Ok_0.0.len() == count,
        forall|name: Name|
            convert_values(definitions, locals, count)->Ok_0.1.contains_key(name) <==> (
            locals.contains_key(name) || value_names(definitions, count).contains(name)),
        forall|i: int|
            0 <= i < count ==> (#[trigger] convert_values(
                definitions,
                locals,
                count,
            )->Ok_0.0[i]).name == definitions[i].name,
    decreases count,
{
    if count > 0 {
        assert(convert_values(definitions, locals, count - 1) is Ok);
        lemma_convert_values_dom(definitions, locals, count - 1);
        let before = convert_values(definitions, locals, count - 1)->Ok_0.1;
        let after = convert_values(definitions, locals, count)->Ok_0.1;
        let definition = definitions[count - 1];
        assert(after == before.insert(
            definition.name,
            crate::compile::closure_converter::core_type(definition.type_),
        ));
        assert forall|name: Name| after.contains_key(name) <==> (locals.contains_key(name)
            || value_names(definitions, count).contains(name)) by {
            assert(before.contains_key(name) <==> (locals.contains_key(name) || value_names(
                definitions,
                count - 1,
            ).contains(name)));
            if value_names(definitions, count).contains(name) {
                let i = choose|i: int|
                    0 <= i < count && i < definitions.len() && definitions[i].name == name;
                if i < count - 1 {
                    assert(value_names(definitions, count - 1).contains(name));
                }
            }
            if value_names(definitions, count - 1).contains(name) {
                let i = choose|i: int|
                    0 <= i < count - 1 && i < definitions.len() && definitions[i].name == name;
                assert(0 <= i < count && definitions[i].name == name);
            }
            if name == definitions[count - 1].name {
                assert(0 <= count - 1 < count && definitions[count - 1].name == name);
            }
        }
    }
}

/// What the first definitions of a `let` of values are converted to is what
/// each is converted to where the names before it are bound.
pub proof fn lemma_convert_values_at(
    definitions: Seq<ast::VariableDefinitionView>,
    locals: Locals,
    count: int,
    index: int,
)
    requires
        0 <= index < count <= definitions.len(),
        convert_values(definitions, locals, count) is Ok,
    ensures
        convert_values(definitions, locals, index) is Ok,
        convert_expression(
            definitions[index].body,
            convert_values(definitions, locals, index)->Ok_0.1,
        ) == Ok::<_, CompileErrorView>(
            convert_values(definitions, locals, count)->Ok_0.0[index].body,
        ),
    decreases count,
{
    lemma_convert_values_dom(definitions, locals, count);
    assert(convert_values(definitions, locals, count - 1) is Ok);
    if index < count - 1 {
        lemma_convert_values_dom(definitions, locals, count - 1);
        lemma_convert_values_at(definitions, locals, count - 1, index);
    } else {
        assert(convert_values(definitions, locals, count - 1) is Ok);
        lemma_convert_values_dom(definitions, locals, count - 1);
    }
}

/// The names bound once the first function definitions bind their names.
pub proof fn lemma_bind_functions_dom(
    definitions: Seq<ast::FunctionDefinitionView>,
    locals: Locals,
    count: int,
)
    requires
        0 <= count <= definitions.len(),
        bind_functions(definitions, locals, count) is Ok,
    ensures
        forall|name: Name|
            bind_functions(definitions, locals, count)->Ok_0.contains_key(name) <==> (
            locals.contains_key(name) || function_names(definitions.take(count)).contains(name)),
    decreases count,
{
    if count > 0 {
        assert(bind_functions(definitions, locals, count - 1) is Ok);
        lemma_bind_functions_dom(definitions, locals, count - 1);
        let before = bind_functions(definitions, locals, count - 1)->Ok_0;
        let after = bind_functions(definitions, locals, count)->Ok_0;
        let shorter = definitions.take(count - 1);
        let longer = definitions.take(count);
        assert(after == before.insert(
            definitions[count - 1].name,
            crate::compile::closure_converter::core_type(definitions[count - 1].type_),
        ));
        assert forall|name: Name| after.contains_key(name) <==> (locals.contains_key(name)
            || function_names(longer).contains(name)) by {
            assert(before.contains_key(name) <==> (locals.contains_key(name) || function_names(
                shorter,
            ).contains(name)));
            if function_names(longer).contains(name) {
                let i = choose|i: int| 0 <= i < longer.len() && longer[i].name == name;
                if i < count - 1 {
                    assert(shorter[i].name == name);
                }
            }
            if function_names(shorter).contains(name) {
                let i = choose|i: int| 0 <= i < shorter.len() && shorter[i].name == name;
                assert(longer[i].name == name);
            }
            if name == definitions[count - 1].name {
                assert(longer[count - 1].name == name);
            }
        }
    } else {
        assert forall|name: Name| !function_names(definitions.take(count)).contains(name) by {}
    }
}

/// What the first function definitions are converted to is what each is
/// converted to, place by place.
pub proof fn lemma_convert_functions_at(
    definitions: Seq<ast::FunctionDefinitionView>,
    locals: Locals,
    count: int,
    index: int,
)
    requires
        0 <= index < count <= definitions.len(),
        convert_functions(definitions, locals, count) is Ok,
    ensures
        convert_functions(definitions, locals, count)->Ok_0.len() == count,
        convert_function(definitions[index], locals) == Ok::<_, CompileErrorView>(
            convert_functions(definitions, locals, count)->Ok_0[index],
        ),
    decreases count,
{
    lemma_convert_functions_len(definitions, locals, count);
    lemma_convert_functions_len(definitions, locals, count - 1);
    if index < count - 1 {
        lemma_convert_functions_at(definitions, locals, count - 1, index);
    }
}

/// As many function definitions are converted as there are.
pub proof fn lemma_convert_functions_len(
    definitions: Seq<ast::FunctionDefinitionView>,
    locals: Locals,
    count: int,
)
    requires
        0 <= count <= definitions.len(),
        convert_functions(definitions, locals, count) is Ok,
    ensures
        convert_functions(definitions, locals, count)->Ok_0.len() == count,
        count > 0 ==> convert_functions(definitions, locals, count - 1) is Ok,
    decreases count,
{
    if count > 0 {
        assert(convert_functions(definitions, locals, count - 1) is Ok);
        lemma_convert_functions_len(definitions, locals, count - 1);
    }
}

/// The names bound once the first arguments are bound.
pub proof fn lemma_bind_arguments_dom(arguments: Seq<ArgumentView>, locals: Locals, count: int)
    requires
        0 <= count <= arguments.len(),
    ensures
        forall|name: Name|
            bind_arguments(arguments, locals, count).contains_key(name) <==> (locals.contains_key(
                name,
            ) || argument_names(arguments.take(count)).contains(name)),
    decreases count,
{
    if count > 0 {
        lemma_bind_arguments_dom(arguments, locals, count - 1);
        let before = bind_arguments(arguments, locals, count - 1);
        let after = bind_arguments(arguments, locals, count);
        let shorter = arguments.take(count - 1);
        let longer = arguments.take(count);
        assert(after == before.insert(arguments[count - 1].name, arguments[count - 1].type_));
        assert forall|name: Name| after.contains_key(name) <==> (locals.contains_key(name)
            || argument_names(longer).contains(name)) by {
            assert(before.contains_key(name) <==> (locals.contains_key(name) || argument_names(
                shorter,
            ).contains(name)));
            if argument_names(longer).contains(name) {
                let i = choose|i: int| 0 <= i < longer.len() && longer[i].name == name;
                if i < count - 1 {
                    assert(shorter[i].name == name);
                }
            }
            if argument_names(shorter).contains(name) {
                let i = choose|i: int| 0 <= i < shorter.len() && shorter[i].name == name;
                assert(longer[i].name == name);
            }
            if name == arguments[count - 1].name {
                assert(longer[count - 1].name == name);
            }
        }
    } else {
        assert forall|name: Name| !argument_names(arguments.take(count)).contains(name) by {}
    }
}

/// A name free in one of the first expressions is free in them.
pub proof fn lemma_free_in_expressions_at(
    expressions: Seq<ast::ExpressionView>,
    bound: Set<Name>,
    count: int,
    index: int,
)
    requires
        0 <= index < count <= expressions.len(),
    ensures
        free_in(expressions[index], bound).subset_of(free_in_expressions(expressions, bound, count)),
    decreases count,
{
    if index < count - 1 {
        lemma_free_in_expressions_at(expressions, bound, count - 1, index);
    }
}

/// A name free in the body of one of the first definitions is free in them.
pub proof fn lemma_free_in_values_at(
    definitions: Seq<ast::VariableDefinitionView>,
    bound: Set<Name>,
    count: int,
    index: int,
)
    requires
        0 <= index < count <= definitions.len(),
    ensures
        free_in(definitions[index].body, bound.union(value_names(definitions, index))).subset_of(
            free_in_values(definitions, bound, count),
        ),
    decreases count,
{
    if index < count - 1 {
        lemma_free_in_values_at(definitions, bound, count - 1, index);
    }
}

/// A name free in the body of one of the first definitions is free in them.
pub proof fn lemma_free_in_functions_at(
    definitions: Seq<ast::FunctionDefinitionView>,
    bound: Set<Name>,
    count: int,
    index: int,
)
    requires
        0 <= index < count <= definitions.len(),
    ensures
        free_in(
            definitions[index].body,
            bound.union(definitions[index].arguments.to_set()),
        ).subset_of(free_in_functions(definitions, bound, count)),
    decreases count,
{
    if index < count - 1 {
        lemma_free_in_functions_at(definitions, bound, count - 1, index);
    }
}

/// Where every name of the first expressions is bound, every name of each is.
pub proof fn lemma_bound_in_expressions_at(
    expressions: Seq<ast::ExpressionView>,
    scope: Set<Name>,
    count: int,
    index: int,
)
    requires
        0 <= index < count <= expressions.len(),
        bound_in_expressions(expressions, scope, count),
    ensures
        references_bound(expressions[index], scope),
    decreases count,
{
    if index < count - 1 {
        lemma_bound_in_expressions_at(expressions, scope, count - 1, index);
    }
}

/// Where every name of the first definitions is bound, every name of each is.
pub proof fn lemma_bound_in_values_at(
    definitions: Seq<ast::VariableDefinitionView>,
    scope: Set<Name>,
    count: int,
    index: int,
)
    requires
        0 <= index < count <= definitions.len(),
        bound_in_values(definitions, scope, count),
    ensures
        references_bound(definitions[index].body, scope.union(value_names(definitions, index))),
    decreases count,
{
    if index < count - 1 {
        lemma_bound_in_values_at(definitions, scope, count - 1, index);
    }
}

/// Where every name of the first definitions is bound, every name of each is.
pub proof fn lemma_bound_in_functions_at(
    definitions: Seq<ast::FunctionDefinitionView>,
    scope: Set<Name>,
    count: int,
    index: int,
)
    requires
        0 <= index < count <= definitions.len(),
        bound_in_functions(definitions, scope, count),
    ensures
        references_bound(
            definitions[index].body,
            scope.union(definitions[index].arguments.to_set()),
        ),
    decreases count,
{
    if index < count - 1 {
        lemma_bound_in_functions_at(definitions, scope, count - 1, index);
    }
}

/// References that are within some bound names are within more.
pub proof fn lemma_references_within_more(
    expression: ir::ast::ExpressionView,
    bound: Set<Name>,
    more: Set<Name>,
    allowed: Set<Name>,
)
    requires
        references_within(expression, bound, allowed),
        bound.subset_of(more),
    ensures
        references_within(expression, more, allowed),
    decreases expression,
{
    match expression {
        ir::ast::ExpressionView::Number(_) => {},
        ir::ast::ExpressionView::Variable(_) => {},
        ir::ast::ExpressionView::Operation { lhs, rhs, .. } => {
            lemma_references_within_more(*lhs, bound, more, allowed);
            lemma_references_within_more(*rhs, bound, more, allowed);
        },
        ir::ast::ExpressionView::Application { function, arguments } => {
            assert forall|i: int| 0 <= i < arguments.len() implies references_within(
                #[trigger] arguments[i],
                more,
                allowed,
            ) by {
                lemma_references_within_more(arguments[i], bound, more, allowed);
            }
        },
        ir::ast::ExpressionView::LetValues { definitions, expression: body } => {
            assert forall|i: int| 0 <= i < definitions.len() implies references_within(
                (#[trigger] definitions[i]).body,
                more.union(ir::scope::value_names(definitions, i)),
                allowed,
            ) by {
                lemma_references_within_more(
                    definitions[i].body,
                    bound.union(ir::scope::value_names(definitions, i)),
                    more.union(ir::scope::value_names(definitions, i)),
                    allowed,
                );
            }
            lemma_references_within_more(
                *body,
                bound.union(ir::scope::value_names(definitions, definitions.len() as int)),
                more.union(ir::scope::value_names(definitions, definitions.len() as int)),
                allowed,
            );
        },
        ir::ast::ExpressionView::LetFunctions { definitions, expression: body } => {
            assert forall|i: int| 0 <= i < definitions.len() implies references_within(
                (#[trigger] definitions[i]).body,
                more.union(ir::scope::function_names(definitions)).union(
                    bound_in_body(definitions[i]),
                ),
                allowed,
            ) by {
                lemma_references_within_more(
                    definitions[i].body,
                    bound.union(ir::scope::function_names(definitions)).union(
                        bound_in_body(definitions[i]),
                    ),
                    more.union(ir::scope::function_names(definitions)).union(
                        bound_in_body(definitions[i]),
                    ),
                    allowed,
                );
            }
            lemma_references_within_more(
                *body,
                bound.union(ir::scope::function_names(definitions)),
                more.union(ir::scope::function_names(definitions)),
                allowed,
            );
        },
    }
}

/// The references of what an expression is converted to are within the names
/// bound inside the function around it and the names that the function
/// captures, or to global names. Every function definition inside what it is
/// converted to is closed.
///
/// Here `outer` are the names bound around the function, `bound` the names
/// bound inside it so far, and `captured` holds every name of `outer` that
/// is free in the expression.
pub proof fn lemma_expression_scoped(
    expression: ast::ExpressionView,
    locals: Locals,
    converted: ir::ast::ExpressionView,
    scope: Set<Name>,
    outer: Set<Name>,
    bound: Set<Name>,
    captured: Set<Name>,
    globals: Set<Name>,
)
    requires
        convert_expression(expression, locals) == Ok::<_, CompileErrorView>(converted),
        references_bound(expression, scope),
        forall|name: Name|
            scope.contains(name) ==> outer.contains(name) || bound.contains(name)
                || globals.contains(name),
        forall|name: Name|
            locals.contains_key(name) <==> outer.contains(name) || bound.contains(name),
        forall|name: Name|
            free_in(expression, bound).contains(name) && outer.contains(name)
                ==> captured.contains(name),
    ensures
        references_within(converted, bound.union(captured), globals),
        functions_closed(converted, globals),
    decreases expression, 0nat,
{
    match expression {
        ast::ExpressionView::Number { .. } => {},
        ast::ExpressionView::Variable { name, .. } => {
            assert(free_name(name, bound).contains(name) || bound.contains(name));
        },
        ast::ExpressionView::Operation { lhs, rhs, .. } => {
            let left = convert_expression(*lhs, locals)->Ok_0;
            let right = convert_expression(*rhs, locals)->Ok_0;
            lemma_expression_scoped(*lhs, locals, left, scope, outer, bound, captured, globals);
            lemma_expression_scoped(*rhs, locals, right, scope, outer, bound, captured, globals);
        },
        ast::ExpressionView::Application { function, arguments, .. } => {
            let count = arguments.len() as int;
            let results = convert_expressions(arguments, locals, count)->Ok_0;
            assert(free_name(function, bound).contains(function) || bound.contains(function));
            assert forall|i: int| 0 <= i < results.len() implies references_within(
                #[trigger] results[i],
                bound.union(captured),
                globals,
            ) && functions_closed(results[i], globals) by {
                lemma_convert_expressions_at(arguments, locals, count, 0);
                lemma_convert_expressions_at(arguments, locals, count, i);
                lemma_bound_in_expressions_at(arguments, scope, count, i);
                lemma_free_in_expressions_at(arguments, bound, count, i);
                lemma_expression_scoped(
                    arguments[i],
                    locals,
                    results[i],
                    scope,
                    outer,
                    bound,
                    captured,
                    globals,
                );
            }
        },
        ast::ExpressionView::LetValues { definitions, expression: body } => {
            let count = definitions.len() as int;
            let (results, inner) = convert_values(definitions, locals, count)->Ok_0;
            let result = convert_expression(*body, inner)->Ok_0;
            lemma_convert_values_dom(definitions, locals, count);
            assert forall|i: int| 0 <= i < results.len() implies references_within(
                (#[trigger] results[i]).body,
                bound.union(captured).union(ir::scope::value_names(results, i)),
                globals,
            ) && functions_closed(results[i].body, globals) by {
                lemma_convert_values_at(definitions, locals, count, i);
                lemma_convert_values_dom(definitions, locals, i);
                lemma_bound_in_values_at(definitions, scope, count, i);
                lemma_free_in_values_at(definitions, bound, count, i);
                let names = value_names(definitions, i);
                lemma_expression_scoped(
                    definitions[i].body,
                    convert_values(definitions, locals, i)->Ok_0.1,
                    results[i].body,
                    scope.union(names),
                    outer,
                    bound.union(names),
                    captured,
                    globals,
                );
                lemma_converted_value_names(definitions, results, i);
                assert(bound.union(names).union(captured) =~= bound.union(captured).union(
                    ir::scope::value_names(results, i),
                ));
            }
            let names = value_names(definitions, count);
            lemma_expression_scoped(
                *body,
                inner,
                result,
                scope.union(names),
                outer,
                bound.union(names),
                captured,
                globals,
            );
            lemma_converted_value_names(definitions, results, count);
            assert(bound.union(names).union(captured) =~= bound.union(captured).union(
                ir::scope::value_names(results, count),
            ));
        },
        ast::ExpressionView::LetFunctions { definitions, expression: body } => {
            let count = definitions.len() as int;
            let inner = bind_functions(definitions, locals, count)->Ok_0;
            let results = convert_functions(definitions, inner, count)->Ok_0;
            let result = convert_expression(*body, inner)->Ok_0;
            let names = function_names(definitions);
            lemma_bind_functions_dom(definitions, locals, count);
            assert(definitions.take(count) =~= definitions);
            if count > 0 {
                lemma_convert_functions_at(definitions, inner, count, 0);
            }
            assert(names =~= ir::scope::function_names(results)) by {
                assert forall|name: Name| names.contains(name) == ir::scope::function_names(
                    results,
                ).contains(name) by {
                    if names.contains(name) {
                        let i = choose|i: int|
                            0 <= i < definitions.len() && definitions[i].name == name;
                        lemma_convert_functions_at(definitions, inner, count, i);
                        assert(results[i].name == name);
                    }
                    if ir::scope::function_names(results).contains(name) {
                        let i = choose|i: int| 0 <= i < results.len() && results[i].name == name;
                        lemma_convert_functions_at(definitions, inner, count, i);
                        assert(definitions[i].name == name);
                    }
                }
            }
            assert forall|i: int| 0 <= i < results.len() implies references_within(
                (#[trigger] results[i]).body,
                bound.union(captured).union(ir::scope::function_names(results)).union(
                    bound_in_body(results[i]),
                ),
                globals,
            ) && references_within(results[i].body, bound_in_body(results[i]), globals)
                && functions_closed(results[i].body, globals) by {
                lemma_convert_functions_at(definitions, inner, count, i);
                lemma_bound_in_functions_at(definitions, scope.union(names), count, i);
                let wider = scope.union(names).union(definitions[i].arguments.to_set());
                assert forall|name: Name| wider.contains(name) implies inner.contains_key(name)
                    || globals.contains(name) || definitions[i].arguments.to_set().contains(
                    name,
                ) by {
                    assert(inner.contains_key(name) <==> (locals.contains_key(name)
                        || function_names(definitions.take(count)).contains(name)));
                    if scope.contains(name) {
                        assert(outer.contains(name) || bound.contains(name) || globals.contains(
                            name,
                        ));
                        if !globals.contains(name) {
                            assert(locals.contains_key(name));
                        }
                    }
                    if names.contains(name) {
                        assert(function_names(definitions.take(count)).contains(name));
                    }
                }
                lemma_function_closed(
                    definitions[i],
                    inner,
                    results[i],
                    scope.union(names).union(definitions[i].arguments.to_set()),
                    globals,
                );
                lemma_references_within_more(
                    results[i].body,
                    bound_in_body(results[i]),
                    bound.union(captured).union(ir::scope::function_names(results)).union(
                        bound_in_body(results[i]),
                    ),
                    globals,
                );
            }
            lemma_expression_scoped(
                *body,
                inner,
                result,
                scope.union(names),
                outer,
                bound.union(names),
                captured,
                globals,
            );
            assert(bound.union(names).union(captured) =~= bound.union(captured).union(
                ir::scope::function_names(results),
            ));
        },
    }
}

/// The definitions that the definitions of a `let` of values are converted
/// to bind the same names.
pub proof fn lemma_converted_value_names(
    definitions: Seq<ast::VariableDefinitionView>,
    results: Seq<ir::ast::ValueDefinitionView>,
    count: int,
)
    requires
        0 <= count <= definitions.len(),
        results.len() == definitions.len(),
        forall|i: int| 0 <= i < results.len() ==> (#[trigger] results[i]).name == definitions[i].name,
    ensures
        ir::scope::value_names(results, count) == value_names(definitions, count),
{
    assert forall|name: Name| ir::scope::value_names(results, count).contains(name)
        == value_names(definitions, count).contains(name) by {
        if ir::scope::value_names(results, count).contains(name) {
            let i = choose|i: int| 0 <= i < count && i < results.len() && results[i].name == name;
            assert(definitions[i].name == name);
        }
        if value_names(definitions, count).contains(name) {
            let i = choose|i: int|
                0 <= i < count && i < definitions.len() && definitions[i].name == name;
            assert(results[i].name == name);
        }
    }
    assert(ir::scope::value_names(results, count) =~= value_names(definitions, count));
}

/// What a function definition is converted to is closed, and so is every
/// function definition inside it, where every name that the body of the
/// definition refers to is bound: around the definition, at the top level, or
/// as an argument.
pub proof fn lemma_function_closed(
    definition: ast::FunctionDefinitionView,
    locals: Locals,
    converted: ir::ast::FunctionDefinitionView,
    scope: Set<Name>,
    globals: Set<Name>,
)
    requires
        convert_function(definition, locals) == Ok::<_, CompileErrorView>(converted),
        references_bound(definition.body, scope),
        forall|name: Name|
            scope.contains(name) ==> locals.contains_key(name) || globals.contains(name)
                || definition.arguments.to_set().contains(name),
    ensures
        references_within(converted.body, bound_in_body(converted), globals),
        functions_closed(converted.body, globals),
    decreases definition, 0nat,
{
    let (types, result_type) = function_signature(definition)->Ok_0;
    let arguments = typed_arguments(definition.arguments, types);
    let count = arguments.len() as int;
    let inner = bind_arguments(arguments, locals, count);
    let outer = locals.dom();
    let bound = definition.arguments.to_set();
    let wanted = free_variables(definition).intersect(outer);
    lemma_free_in_finite(definition.body, bound);
    lemma_sorted_names(wanted);
    let names = sorted_names(wanted);
    let captured = argument_names(converted.environment);
    assert(captured =~= wanted) by {
        assert forall|name: Name| captured.contains(name) == wanted.contains(name) by {
            if captured.contains(name) {
                let i = choose|i: int|
                    0 <= i < converted.environment.len() && converted.environment[i].name == name;
                assert(names[i] == name);
                assert(names.to_set().contains(name));
            }
            if wanted.contains(name) {
                assert(names.to_set().contains(name));
                let i = choose|i: int| 0 <= i < names.len() && names[i] == name;
                assert(converted.environment[i].name == name);
            }
        }
    }
    lemma_bind_arguments_dom(arguments, locals, count);
    assert(arguments.take(count) =~= arguments);
    assert(argument_names(arguments) =~= bound) by {
        assert forall|name: Name| argument_names(arguments).contains(name) == bound.contains(
            name,
        ) by {
            if argument_names(arguments).contains(name) {
                let i = choose|i: int| 0 <= i < arguments.len() && arguments[i].name == name;
                assert(definition.arguments[i] == name);
            }
            if bound.contains(name) {
                let i = choose|i: int|
                    0 <= i < definition.arguments.len() && definition.arguments[i] == name;
                assert(arguments[i].name == name);
            }
        }
    }
    lemma_expression_scoped(
        definition.body,
        inner,
        converted.body,
        scope,
        outer,
        bound,
        captured,
        globals,
    );
    assert(bound.union(captured) =~= bound_in_body(converted));
}

/// What the first top-level definitions are converted to is what each is
/// converted to, place by place.
pub proof fn lemma_convert_definitions_at(
    definitions: Seq<ast::DefinitionView>,
    count: int,
    index: int,
)
    requires
        0 <= index < count <= definitions.len(),
        convert_definitions(definitions, count) is Ok,
    ensures
        convert_definitions(definitions, count)->Ok_0.len() == count,
        convert_definition(definitions[index]) == Ok::<_, CompileErrorView>(
            convert_definitions(definitions, count)->Ok_0[index],
        ),
    decreases count,
{
    lemma_convert_definitions_len(definitions, count);
    lemma_convert_definitions_len(definitions, count - 1);
    if index < count - 1 {
        lemma_convert_definitions_at(definitions, count - 1, index);
    }
}

/// As many top-level definitions are converted as there are.
pub proof fn lemma_convert_definitions_len(definitions: Seq<ast::DefinitionView>, count: int)
    requires
        0 <= count <= definitions.len(),
        convert_definitions(definitions, count) is Ok,
    ensures
        convert_definitions(definitions, count)->Ok_0.len() == count,
        count > 0 ==> convert_definitions(definitions, count - 1) is Ok,
    decreases count,
{
    if count > 0 {
        assert(convert_definitions(definitions, count - 1) is Ok);
        lemma_convert_definitions_len(definitions, count - 1);
    }
}

/// Free-variable closure: where every name that a module refers to is bound,
/// every function definition of the module that closure conversion makes, at
/// the top level or inside another definition, refers in its body only to its
/// arguments, to the variables of its environment, to names bound inside the
/// body, and to top-level names.
pub proof fn lemma_free_variable_closure(
    module: ast::ModuleView,
    imported_modules: Seq<ModuleInterfaceView>,
    converted: ir::ast::ModuleView,
)
    requires
        convert_module(module, imported_modules) == Ok::<_, CompileErrorView>(converted),
        module_bound(module, imported_modules),
    ensures
        module_closed(converted),
{
    let count = module.definitions.len() as int;
    let globals = global_names(module, imported_modules);
    let names = ir::scope::top_level_names(converted);
    lemma_convert_definitions_len(module.definitions, count);
    assert(names =~= globals) by {
        assert forall|name: Name| names.contains(name) == globals.contains(name) by {
            if exists|i: int|
                0 <= i < converted.definitions.len() && converted.definitions[i].name() == name {
                let i = choose|i: int|
                    0 <= i < converted.definitions.len() && converted.definitions[i].name()
                        == name;
                lemma_convert_definitions_at(module.definitions, count, i);
                assert(module.definitions[i].name() == name);
            }
            if exists|i: int|
                0 <= i < module.definitions.len() && (#[trigger] module.definitions[i]).name()
                    == name {
                let i = choose|i: int|
                    0 <= i < module.definitions.len() && (#[trigger] module.definitions[i]).name()
                        == name;
                lemma_convert_definitions_at(module.definitions, count, i);
                assert(converted.definitions[i].name() == name);
            }
        }
    }
    assert forall|i: int| 0 <= i < converted.definitions.len() implies match #[trigger] converted.definitions[i] {
        ir::ast::DefinitionView::FunctionDefinition(definition) => ir::scope::function_closed(
            definition,
            names,
        ),
        ir::ast::DefinitionView::ValueDefinition(definition) => references_within(
            definition.body,
            Set::empty(),
            names,
        ) && functions_closed(definition.body, names),
    } by {
        lemma_convert_definitions_at(module.definitions, count, i);
        match module.definitions[i] {
            ast::DefinitionView::FunctionDefinition(definition) => {
                let result = convert_function(definition, Map::empty())->Ok_0;
                lemma_function_closed(
                    definition,
                    Map::empty(),
                    result,
                    globals.union(definition.arguments.to_set()),
                    globals,
                );
            },
            ast::DefinitionView::VariableDefinition(definition) => {
                let result = convert_expression(definition.body, Map::empty())->Ok_0;
                let empty = Set::<Name>::empty();
                lemma_expression_scoped(
                    definition.body,
                    Map::empty(),
                    result,
                    globals,
                    empty,
                    empty,
                    empty,
                    globals,
                );
                assert(empty.union(empty) =~= empty);
            },
        }
    }
}

/// Where typing the first expressions gives no error, typing each gives none.
pub proof fn lemma_collect_arguments_at(
    expressions: Seq<ast::ExpressionView>,
    environment: TypeEnvironment,
    count: int,
    index: int,
)
    requires
        0 <= index < count <= expressions.len(),
        collect_arguments(expressions, environment, count) is Ok,
    ensures
        collect_expression(expressions[index], environment) is Ok,
    decreases count,
{
    assert(collect_arguments(expressions, environment, count - 1) is Ok);
    if index < count - 1 {
        lemma_collect_arguments_at(expressions, environment, count - 1, index);
    }
}

/// Where typing the first definitions of a `let` of values gives no error,
/// typing the body of each gives none where the names before it are bound,
/// and the names bound after them are the names bound before and theirs.
pub proof fn lemma_collect_values_at(
    definitions: Seq<ast::VariableDefinitionView>,
    environment: TypeEnvironment,
    count: int,
    index: int,
)
    requires
        0 <= index <= count <= definitions.len(),
        collect_values(definitions, environment, count) is Ok,
    ensures
        collect_values(definitions, environment, index) is Ok,
        index < count ==> collect_expression(
            definitions[index].body,
            collect_values(definitions, environment, index)->Ok_0.0,
        ) is Ok,
        forall|name: Name|
            collect_values(definitions, environment, index)->Ok_0.0.contains_key(name) <==> (
            environment.contains_key(name) || value_names(definitions, index).contains(name)),
    decreases count,
{
    if index < count {
        assert(collect_values(definitions, environment, count - 1) is Ok);
        lemma_collect_values_at(definitions, environment, count - 1, index);
    } else if count > 0 {
        assert(collect_values(definitions, environment, count - 1) is Ok);
        lemma_collect_values_at(definitions, environment, count - 1, count - 1);
        let before = collect_values(definitions, environment, count - 1)->Ok_0.0;
        let after = collect_values(definitions, environment, count)->Ok_0.0;
        assert(after == before.insert(definitions[count - 1].name, definitions[count - 1].type_));
        assert forall|name: Name| after.contains_key(name) <==> (environment.contains_key(name)
            || value_names(definitions, count).contains(name)) by {
            assert(before.contains_key(name) <==> (environment.contains_key(name) || value_names(
                definitions,
                count - 1,
            ).contains(name)));
            if value_names(definitions, count).contains(name) {
                let i = choose|i: int|
                    0 <= i < count && i < definitions.len() && definitions[i].name == name;
                if i < count - 1 {
                    assert(value_names(definitions, count - 1).contains(name));
                }
            }
            if value_names(definitions, count - 1).contains(name) {
                let i = choose|i: int|
                    0 <= i < count - 1 && i < definitions.len() && definitions[i].name == name;
                assert(0 <= i < count && definitions[i].name == name);
            }
            if name == definitions[count - 1].name {
                assert(0 <= count - 1 < count && definitions[count - 1].name == name);
            }
        }
    } else {
        assert forall|name: Name| !value_names(definitions, 0).contains(name) by {}
    }
}

/// Where typing the first function definitions gives no error, typing each
/// gives none.
pub proof fn lemma_collect_functions_at(
    definitions: Seq<ast::FunctionDefinitionView>,
    environment: TypeEnvironment,
    count: int,
    index: int,
)
    requires
        0 <= index < count <= definitions.len(),
        collect_functions(definitions, environment, count) is Ok,
    ensures
        collect_function(definitions[index], environment) is Ok,
    decreases count,
{
    assert(collect_functions(definitions, environment, count - 1) is Ok);
    if index < count - 1 {
        lemma_collect_functions_at(definitions, environment, count - 1, index);
    }
}

/// The names bound once the first function definitions bind their names.
pub proof fn lemma_typing_functions_dom(
    definitions: Seq<ast::FunctionDefinitionView>,
    environment: TypeEnvironment,
    count: int,
)
    requires
        0 <= count <= definitions.len(),
    ensures
        forall|name: Name|
            crate::compile::type_inference::bind_functions(
                definitions,
                environment,
                count,
            ).contains_key(name) <==> (environment.contains_key(name) || function_names(
                definitions.take(count),
            ).contains(name)),
    decreases count,
{
    let after = crate::compile::type_inference::bind_functions(definitions, environment, count);
    if count > 0 {
        lemma_typing_functions_dom(definitions, environment, count - 1);
        let before = crate::compile::type_inference::bind_functions(
            definitions,
            environment,
            count - 1,
        );
        let shorter = definitions.take(count - 1);
        let longer = definitions.take(count);
        assert forall|name: Name| after.contains_key(name) <==> (environment.contains_key(name)
            || function_names(longer).contains(name)) by {
            assert(before.contains_key(name) <==> (environment.contains_key(name)
                || function_names(shorter).contains(name)));
            if function_names(longer).contains(name) {
                let i = choose|i: int| 0 <= i < longer.len() && longer[i].name == name;
                if i < count - 1 {
                    assert(shorter[i].name == name);
                }
            }
            if function_names(shorter).contains(name) {
                let i = choose|i: int| 0 <= i < shorter.len() && shorter[i].name == name;
                assert(longer[i].name == name);
            }
            if name == definitions[count - 1].name {
                assert(longer[count - 1].name == name);
            }
        }
    } else {
        assert forall|name: Name| !function_names(definitions.take(count)).contains(name) by {}
    }
}

/// The names bound once the first of the names are bound.
pub proof fn lemma_typing_names_dom(
    names: Seq<Name>,
    types: Seq<TypeView>,
    environment: TypeEnvironment,
    count: int,
)
    requires
        0 <= count <= names.len(),
    ensures
        forall|name: Name|
            bind_names(names, types, environment, count).contains_key(name) <==> (
            environment.contains_key(name) || names.take(count).contains(name)),
    decreases count,
{
    let after = bind_names(names, types, environment, count);
    if count > 0 {
        lemma_typing_names_dom(names, types, environment, count - 1);
        let before = bind_names(names, types, environment, count - 1);
        let shorter = names.take(count - 1);
        let longer = names.take(count);
        assert forall|name: Name| after.contains_key(name) <==> (environment.contains_key(name)
            || longer.contains(name)) by {
            assert(before.contains_key(name) <==> (environment.contains_key(name)
                || shorter.contains(name)));
            if longer.contains(name) {
                let i = choose|i: int| 0 <= i < longer.len() && longer[i] == name;
                if i < count - 1 {
                    assert(shorter[i] == name);
                }
            }
            if shorter.contains(name) {
                let i = choose|i: int| 0 <= i < shorter.len() && shorter[i] == name;
                assert(longer[i] == name);
            }
            if name == names[count - 1] {
                assert(longer[count - 1] == name);
            }
        }
    } else {
        assert forall|name: Name| !names.take(count).contains(name) by {}
    }
}

/// Where typing an expression gives no error, every name that the
/// expression refers to is bound.
pub proof fn lemma_typed_expression_bound(
    expression: ast::ExpressionView,
    environment: TypeEnvironment,
    scope: Set<Name>,
)
    requires
        collect_expression(expression, environment) is Ok,
        forall|name: Name| environment.contains_key(name) <==> scope.contains(name),
    ensures
        references_bound(expression, scope),
    decreases expression, 0nat,
{
    match expression {
        ast::ExpressionView::Number { .. } => {},
        ast::ExpressionView::Variable { .. } => {},
        ast::ExpressionView::Operation { lhs, rhs, .. } => {
            lemma_typed_expression_bound(*lhs, environment, scope);
            lemma_typed_expression_bound(*rhs, environment, scope);
        },
        ast::ExpressionView::Application { arguments, .. } => {
            lemma_typed_expressions_bound(
                arguments,
                environment,
                scope,
                arguments.len() as int,
                arguments.len() as int,
            );
        },
        ast::ExpressionView::LetValues { definitions, expression: body } => {
            let count = definitions.len() as int;
            lemma_typed_values_bound(definitions, environment, scope, count, count);
            lemma_collect_values_at(definitions, environment, count, count);
            lemma_typed_expression_bound(
                *body,
                collect_values(definitions, environment, count)->Ok_0.0,
                scope.union(value_names(definitions, count)),
            );
        },
        ast::ExpressionView::LetFunctions { definitions, expression: body } => {
            let count = definitions.len() as int;
            let inner = crate::compile::type_inference::bind_functions(
                definitions,
                environment,
                count,
            );
            lemma_typing_functions_dom(definitions, environment, count);
            assert(definitions.take(count) =~= definitions);
            let wider = scope.union(function_names(definitions));
            lemma_typed_functions_bound(definitions, inner, wider, count, count);
            lemma_typed_expression_bound(*body, inner, wider);
        },
    }
}

/// Where typing the first expressions gives no error, every name that they
/// refer to is bound.
pub proof fn lemma_typed_expressions_bound(
    expressions: Seq<ast::ExpressionView>,
    environment: TypeEnvironment,
    scope: Set<Name>,
    count: int,
    all: int,
)
    requires
        0 <= count <= all <= expressions.len(),
        collect_arguments(expressions, environment, all) is Ok,
        forall|name: Name| environment.contains_key(name) <==> scope.contains(name),
    ensures
        bound_in_expressions(expressions, scope, count),
    decreases expressions, count,
{
    if count > 0 {
        lemma_typed_expressions_bound(expressions, environment, scope, count - 1, all);
        lemma_collect_arguments_at(expressions, environment, all, count - 1);
        lemma_typed_expression_bound(expressions[count - 1], environment, scope);
    }
}

/// Where typing the definitions of a `let` of values gives no error, every
/// name that the bodies of the first of them refer to is bound.
pub proof fn lemma_typed_values_bound(
    definitions: Seq<ast::VariableDefinitionView>,
    environment: TypeEnvironment,
    scope: Set<Name>,
    count: int,
    all: int,
)
    requires
        0 <= count <= all <= definitions.len(),
        collect_values(definitions, environment, all) is Ok,
        forall|name: Name| environment.contains_key(name) <==> scope.contains(name),
    ensures
        bound_in_values(definitions, scope, count),
    decreases definitions, count,
{
    if count > 0 {
        lemma_typed_values_bound(definitions, environment, scope, count - 1, all);
        lemma_collect_values_at(definitions, environment, all, count - 1);
        lemma_typed_expression_bound(
            definitions[count - 1].body,
            collect_values(definitions, environment, count - 1)->Ok_0.0,
            scope.union(value_names(definitions, count - 1)),
        );
    }
}

/// Where typing function definitions gives no error, every name that the
/// bodies of the first of them refer to is bound.
pub proof fn lemma_typed_functions_bound(
    definitions: Seq<ast::FunctionDefinitionView>,
    environment: TypeEnvironment,
    scope: Set<Name>,
    count: int,
    all: int,
)
    requires
        0 <= count <= all <= definitions.len(),
        collect_functions(definitions, environment, all) is Ok,
        forall|name: Name| environment.contains_key(name) <==> scope.contains(name),
    ensures
        bound_in_functions(definitions, scope, count),
    decreases definitions, count,
{
    if count > 0 {
        lemma_typed_functions_bound(definitions, environment, scope, count - 1, all);
        lemma_collect_functions_at(definitions, environment, all, count - 1);
        lemma_typed_function_bound(definitions[count - 1], environment, scope);
    }
}

/// Where typing a function definition gives no error, every name that its
/// body refers to is bound.
pub proof fn lemma_typed_function_bound(
    definition: ast::FunctionDefinitionView,
    environment: TypeEnvironment,
    scope: Set<Name>,
)
    requires
        collect_function(definition, environment) is Ok,
        forall|name: Name| environment.contains_key(name) <==> scope.contains(name),
    ensures
        references_bound(definition.body, scope.union(definition.arguments.to_set())),
    decreases definition, 0nat,
{
    let count = definition.arguments.len() as int;
    let inner = bind_names(definition.arguments, definition.type_->arguments, environment, count);
    lemma_typing_names_dom(definition.arguments, definition.type_->arguments, environment, count);
    assert(definition.arguments.take(count) =~= definition.arguments);
    lemma_typed_expression_bound(
        definition.body,
        inner,
        scope.union(definition.arguments.to_set()),
    );
}

/// The names that the first declarations declare.
pub proof fn lemma_declarations_dom(
    declarations: Seq<ir::ast::DeclarationView>,
    environment: TypeEnvironment,
    count: int,
)
    requires
        0 <= count <= declarations.len(),
    ensures
        forall|name: Name|
            bind_declarations(declarations, environment, count).contains_key(name) <==> (
            environment.contains_key(name) || exists|i: int|
                0 <= i < count && (#[trigger] declarations[i]).name == name),
    decreases count,
{
    if count > 0 {
        lemma_declarations_dom(declarations, environment, count - 1);
        let before = bind_declarations(declarations, environment, count - 1);
        let after = bind_declarations(declarations, environment, count);
        assert forall|name: Name| after.contains_key(name) <==> (environment.contains_key(name)
            || exists|i: int| 0 <= i < count && (#[trigger] declarations[i]).name == name) by {
            assert(before.contains_key(name) <==> (environment.contains_key(name) || exists|
                i: int,
            | 0 <= i < count - 1 && (#[trigger] declarations[i]).name == name));
            if name == declarations[count - 1].name {
                assert(0 <= count - 1 < count && declarations[count - 1].name == name);
            }
        }
    }
}

/// The names that the first interfaces export.
pub proof fn lemma_interfaces_dom(interfaces: Seq<ModuleInterfaceView>, count: int)
    requires
        0 <= count <= interfaces.len(),
    ensures
        forall|name: Name|
            bind_interfaces(interfaces, Map::empty(), count).contains_key(name) <==> exists|
                i: int,
            |
                0 <= i < declarations_of(interfaces, count).len() && (#[trigger] declarations_of(
                    interfaces,
                    count,
                )[i]).name == name,
    decreases count,
{
    let all = declarations_of(interfaces, count);
    if count > 0 {
        lemma_interfaces_dom(interfaces, count - 1);
        let before = bind_interfaces(interfaces, Map::empty(), count - 1);
        let earlier = declarations_of(interfaces, count - 1);
        let added = interfaces[count - 1].variables;
        lemma_declarations_dom(added, before, added.len() as int);
        let after = bind_interfaces(interfaces, Map::empty(), count);
        assert forall|name: Name| after.contains_key(name) <==> exists|i: int|
            0 <= i < all.len() && (#[trigger] all[i]).name == name by {
            assert(before.contains_key(name) <==> exists|i: int|
                0 <= i < earlier.len() && (#[trigger] earlier[i]).name == name);
            if exists|i: int| 0 <= i < earlier.len() && (#[trigger] earlier[i]).name == name {
                let i = choose|i: int| 0 <= i < earlier.len() && (#[trigger] earlier[i]).name == name;
                assert(all[i].name == name);
            }
            if exists|i: int| 0 <= i < added.len() && (#[trigger] added[i]).name == name {
                let i = choose|i: int| 0 <= i < added.len() && (#[trigger] added[i]).name == name;
                assert(all[earlier.len() + i].name == name);
            }
            if exists|i: int| 0 <= i < all.len() && (#[trigger] all[i]).name == name {
                let i = choose|i: int| 0 <= i < all.len() && (#[trigger] all[i]).name == name;
                if i < earlier.len() {
                    assert(earlier[i].name == name);
                } else {
                    assert(added[i - earlier.len()].name == name);
                }
            }
        }
    }
}

/// The names that the first top-level definitions bind.
pub proof fn lemma_definitions_dom(
    definitions: Seq<ast::DefinitionView>,
    environment: TypeEnvironment,
    count: int,
)
    requires
        0 <= count <= definitions.len(),
    ensures
        forall|name: Name|
            bind_definitions(definitions, environment, count).contains_key(name) <==> (
            environment.contains_key(name) || exists|i: int|
                0 <= i < count && (#[trigger] definitions[i]).name() == name),
    decreases count,
{
    if count > 0 {
        lemma_definitions_dom(definitions, environment, count - 1);
        let before = bind_definitions(definitions, environment, count - 1);
        let after = bind_definitions(definitions, environment, count);
        assert forall|name: Name| after.contains_key(name) <==> (environment.contains_key(name)
            || exists|i: int| 0 <= i < count && (#[trigger] definitions[i]).name() == name) by {
            assert(before.contains_key(name) <==> (environment.contains_key(name) || exists|
                i: int,
            | 0 <= i < count - 1 && (#[trigger] definitions[i]).name() == name));
            if name == definitions[count - 1].name() {
                assert(0 <= count - 1 < count && definitions[count - 1].name() == name);
            }
        }
    }
}

/// Where typing the first top-level definitions gives no error, typing each
/// gives none.
pub proof fn lemma_collect_definitions_at(
    definitions: Seq<ast::DefinitionView>,
    environment: TypeEnvironment,
    count: int,
    index: int,
)
    requires
        0 <= index < count <= definitions.len(),
        collect_definitions(definitions, environment, count) is Ok,
    ensures
        collect_definition(definitions[index], environment) is Ok,
    decreases count,
{
    assert(collect_definitions(definitions, environment, count - 1) is Ok);
    if index < count - 1 {
        lemma_collect_definitions_at(definitions, environment, count - 1, index);
    }
}

/// Where typing a module gives no error, every name that the module refers
/// to is bound.
pub proof fn lemma_typed_module_bound(
    module: ast::ModuleView,
    imported_modules: Seq<ModuleInterfaceView>,
)
    requires
        equations_of(module, imported_modules) is Ok,
    ensures
        module_bound(module, imported_modules),
{
    let count = module.definitions.len() as int;
    let imported = bind_interfaces(imported_modules, Map::empty(), imported_modules.len() as int);
    let environment = top_level_environment(module, imported_modules);
    let globals = global_names(module, imported_modules);
    lemma_interfaces_dom(imported_modules, imported_modules.len() as int);
    lemma_definitions_dom(module.definitions, imported, count);
    assert forall|name: Name| environment.contains_key(name) <==> globals.contains(name) by {
        let declarations = declarations_of(imported_modules, imported_modules.len() as int);
        assert(imported.contains_key(name) <==> exists|i: int|
            0 <= i < declarations.len() && (#[trigger] declarations[i]).name == name);
    }
    assert forall|i: int| 0 <= i < module.definitions.len() implies match #[trigger] module.definitions[i] {
        ast::DefinitionView::FunctionDefinition(definition) => references_bound(
            definition.body,
            globals.union(definition.arguments.to_set()),
        ),
        ast::DefinitionView::VariableDefinition(definition) => references_bound(
            definition.body,
            globals,
        ),
    } by {
        lemma_collect_definitions_at(module.definitions, environment, count, i);
        match module.definitions[i] {
            ast::DefinitionView::FunctionDefinition(definition) => {
                lemma_typed_function_bound(definition, environment, globals);
            },
            ast::DefinitionView::VariableDefinition(definition) => {
                lemma_typed_expression_bound(definition.body, environment, globals);
            },
        }
    }
}

/// Free-variable closure of what is compiled: every function definition
/// that closure conversion makes of the module that inference gives is
/// closed over its arguments, its environment and the top-level names.
pub proof fn lemma_inferred_module_closed(
    module: ast::ModuleView,
    imported_modules: Seq<ModuleInterfaceView>,
    typed: ast::ModuleView,
    converted: ir::ast::ModuleView,
)
    requires
        inferred(module, imported_modules, Ok(typed)),
        convert_module(typed, imported_modules) == Ok::<_, CompileErrorView>(converted),
    ensures
        module_closed(converted),
{
    lemma_inference_sound(module, imported_modules, typed);
    lemma_typed_module_bound(typed, imported_modules);
    lemma_free_variable_closure(typed, imported_modules, converted);
}

} // verus!
