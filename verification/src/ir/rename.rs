//! Renaming of the variables of the core language.
//!
//! A renaming gives new names to some names. It applies to the references
//! that no binder around them binds: an argument, a captured variable or a
//! name bound by a `let` hides a name of the renaming in its scope.
//!
//! The top-level names of a module are renamed once closure conversion is
//! done: a definition named `main` becomes `sloth_main`, every other
//! definition `n` of a module `m` becomes `m.n`. A name that the module does
//! not define is not renamed.

use crate::environment::Environment;
use crate::ir::ast::{
    argument_names, argument_views, clone_arguments, function_definition_views,
    lemma_application_view, lemma_let_functions_view, lemma_let_values_view, value_definition_views,
    Argument, ArgumentView, Declaration, Definition, DefinitionView, Expression, ExpressionView,
    FunctionDefinition, FunctionDefinitionView, Module, ModuleView, ValueDefinition,
    ValueDefinitionView,
};
use crate::ir::scope::{
    bound_in_body, function_closed, function_names, functions_closed, module_closed,
    references_within, top_level_names, value_names,
};
use crate::names::Name;
use vstd::prelude::*;
use vstd::string::StringExecFns;

verus! {

/// The new names that a renaming gives.
pub type Renaming = Map<Name, Name>;

/// The renaming that a table of new names stands for. A name that the table
/// binds to no new name is not renamed.
pub open spec fn renaming_view(names: Map<Name, Option<String>>) -> Renaming {
    Map::new(
        |name: Name| names.contains_key(name) && names[name] is Some,
        |name: Name| names[name]->Some_0@,
    )
}

/// The name that a reference to `name` becomes.
pub open spec fn rename_name(name: Name, renaming: Renaming) -> Name {
    if renaming.contains_key(name) {
        renaming[name]
    } else {
        name
    }
}

/// The renaming in the scope of the first `count` of the given names.
pub open spec fn shadow(renaming: Renaming, names: Seq<Name>, count: int) -> Renaming
    decreases count,
{
    if count <= 0 {
        renaming
    } else {
        shadow(renaming, names, count - 1).remove(names[count - 1])
    }
}

/// The names of the given arguments, in order.
pub open spec fn argument_name_list(arguments: Seq<ArgumentView>) -> Seq<Name> {
    Seq::new(arguments.len(), |i: int| arguments[i].name)
}

/// The names that the given definitions bind, in order.
pub open spec fn value_name_list(definitions: Seq<ValueDefinitionView>) -> Seq<Name> {
    Seq::new(definitions.len(), |i: int| definitions[i].name)
}

/// The names that the given definitions bind, in order.
pub open spec fn function_name_list(definitions: Seq<FunctionDefinitionView>) -> Seq<Name> {
    Seq::new(definitions.len(), |i: int| definitions[i].name)
}

/// The renaming in the body of a function with the given captured variables
/// and arguments.
pub open spec fn shadow_in_body(
    renaming: Renaming,
    environment: Seq<ArgumentView>,
    arguments: Seq<ArgumentView>,
) -> Renaming {
    shadow(
        shadow(renaming, argument_name_list(environment), environment.len() as int),
        argument_name_list(arguments),
        arguments.len() as int,
    )
}

/// The expression with every reference renamed that no binder hides.
pub open spec fn rename_expression(expression: ExpressionView, renaming: Renaming) -> ExpressionView
    decreases expression,
{
    match expression {
        ExpressionView::Number(_) => expression,
        ExpressionView::Variable(name) => ExpressionView::Variable(rename_name(name, renaming)),
        ExpressionView::Operation { operator, lhs, rhs } => ExpressionView::Operation {
            operator,
            lhs: Box::new(rename_expression(*lhs, renaming)),
            rhs: Box::new(rename_expression(*rhs, renaming)),
        },
        ExpressionView::Application { function, arguments } => ExpressionView::Application {
            function: rename_name(function, renaming),
            arguments: Seq::new(
                arguments.len(),
                |i: int|
                    if 0 <= i < arguments.len() {
                        rename_expression(arguments[i], renaming)
                    } else {
                        arbitrary()
                    },
            ),
        },
        ExpressionView::LetValues { definitions, expression } => ExpressionView::LetValues {
            definitions: Seq::new(
                definitions.len(),
                |i: int|
                    if 0 <= i < definitions.len() {
                        ValueDefinitionView {
                            name: definitions[i].name,
                            body: rename_expression(
                                definitions[i].body,
                                shadow(renaming, value_name_list(definitions), i),
                            ),
                            type_: definitions[i].type_,
                        }
                    } else {
                        arbitrary()
                    },
            ),
            expression: Box::new(
                rename_expression(
                    *expression,
                    shadow(renaming, value_name_list(definitions), definitions.len() as int),
                ),
            ),
        },
        ExpressionView::LetFunctions { definitions, expression } => {
            let inner = shadow(
                renaming,
                function_name_list(definitions),
                definitions.len() as int,
            );
            ExpressionView::LetFunctions {
                definitions: Seq::new(
                    definitions.len(),
                    |i: int|
                        if 0 <= i < definitions.len() {
                            FunctionDefinitionView {
                                name: definitions[i].name,
                                environment: definitions[i].environment,
                                arguments: definitions[i].arguments,
                                body: rename_expression(
                                    definitions[i].body,
                                    shadow_in_body(
                                        inner,
                                        definitions[i].environment,
                                        definitions[i].arguments,
                                    ),
                                ),
                                result_type: definitions[i].result_type,
                            }
                        } else {
                            arbitrary()
                        },
                ),
                expression: Box::new(rename_expression(*expression, inner)),
            }
        },
    }
}

/// The function definition with the references in its body renamed that
/// neither the definition nor a binder in its body hides.
pub open spec fn rename_function_definition(
    definition: FunctionDefinitionView,
    renaming: Renaming,
) -> FunctionDefinitionView {
    FunctionDefinitionView {
        body: rename_expression(
            definition.body,
            shadow_in_body(renaming, definition.environment, definition.arguments),
        ),
        ..definition
    }
}

/// The name of a module, a dot, and a name.
pub open spec fn qualified_name(module_name: Name, name: Name) -> Name {
    module_name + "."@ + name
}

/// The name under which a module emits what it defines under `name`:
/// `sloth_main` for `main`, and for every other name the name of the module,
/// a dot, and the name.
pub open spec fn symbol_name(module_name: Name, name: Name) -> Name {
    if name == "main"@ {
        "sloth_main"@
    } else {
        qualified_name(module_name, name)
    }
}

/// The renaming of the names that the first `count` definitions bind.
pub open spec fn definition_renaming(
    definitions: Seq<DefinitionView>,
    module_name: Name,
    count: int,
) -> Renaming
    decreases count,
{
    if count <= 0 {
        Map::empty()
    } else {
        definition_renaming(definitions, module_name, count - 1).insert(
            definitions[count - 1].name(),
            symbol_name(module_name, definitions[count - 1].name()),
        )
    }
}

/// The renaming of the top-level names of a module: every name that the
/// module defines gets the name under which the module emits it. No other
/// name is renamed.
pub open spec fn top_level_renaming(module: ModuleView, module_name: Name) -> Renaming {
    definition_renaming(module.definitions, module_name, module.definitions.len() as int)
}

/// The names that the first `count` definitions bind are the names that
/// their renaming renames.
pub proof fn lemma_definition_renaming_dom(
    definitions: Seq<DefinitionView>,
    module_name: Name,
    count: int,
)
    requires
        0 <= count <= definitions.len(),
    ensures
        forall|name: Name|
            definition_renaming(definitions, module_name, count).contains_key(name) <==> exists|
                i: int,
            | 0 <= i < count && (#[trigger] definitions[i]).name() == name,
        forall|name: Name| #[trigger]
            definition_renaming(definitions, module_name, count).contains_key(name)
                ==> definition_renaming(definitions, module_name, count)[name] == symbol_name(
                module_name,
                name,
            ),
    decreases count,
{
    if count > 0 {
        lemma_definition_renaming_dom(definitions, module_name, count - 1);
        let before = definition_renaming(definitions, module_name, count - 1);
        let after = definition_renaming(definitions, module_name, count);
        assert forall|name: Name| after.contains_key(name) <==> exists|i: int|
            0 <= i < count && (#[trigger] definitions[i]).name() == name by {
            assert(before.contains_key(name) <==> exists|i: int|
                0 <= i < count - 1 && (#[trigger] definitions[i]).name() == name);
            if name == definitions[count - 1].name() {
                assert(0 <= count - 1 < count && definitions[count - 1].name() == name);
            }
        }
    }
}

/// References to names of other modules are left as they are: the renaming
/// of the top-level names of a module renames no name that the module does
/// not define, `main` included.
pub proof fn lemma_undefined_names_kept(module: ModuleView, module_name: Name, name: Name)
    requires
        forall|i: int| 0 <= i < module.definitions.len() ==> module.definitions[i].name() != name,
    ensures
        !top_level_renaming(module, module_name).contains_key(name),
        rename_name(name, top_level_renaming(module, module_name)) == name,
{
    lemma_definition_renaming_dom(
        module.definitions,
        module_name,
        module.definitions.len() as int,
    );
}

/// The definition with its name and the references in it renamed.
pub open spec fn rename_definition(definition: DefinitionView, renaming: Renaming) -> DefinitionView {
    match definition {
        DefinitionView::FunctionDefinition(definition) => DefinitionView::FunctionDefinition(
            FunctionDefinitionView {
                name: rename_name(definition.name, renaming),
                ..rename_function_definition(definition, renaming)
            },
        ),
        DefinitionView::ValueDefinition(definition) => DefinitionView::ValueDefinition(
            ValueDefinitionView {
                name: rename_name(definition.name, renaming),
                body: rename_expression(definition.body, renaming),
                type_: definition.type_,
            },
        ),
    }
}

/// The module with its top-level names renamed, where they are defined and
/// where they are referred to.
pub open spec fn rename_top_level(module: ModuleView, module_name: Name) -> ModuleView {
    ModuleView {
        declarations: module.declarations,
        definitions: Seq::new(
            module.definitions.len(),
            |i: int| rename_definition(module.definitions[i], top_level_renaming(module, module_name)),
        ),
    }
}

/// The names that a renaming leaves no reference to but by renaming to
/// them: the new names, and the names that it does not rename.
pub open spec fn renamed_or_kept(renaming: Renaming) -> Set<Name> {
    Set::new(|name: Name| renaming.contains_value(name) || !renaming.contains_key(name))
}

/// Whether a reference renamed by `renaming` in the scope of `bound` is to a
/// name of `allowed`, and a reference that it leaves is bound or to a name
/// of `allowed`.
pub open spec fn renames_into(renaming: Renaming, bound: Set<Name>, allowed: Set<Name>) -> bool {
    &&& forall|name: Name| #[trigger]
        renaming.contains_key(name) ==> bound.contains(renaming[name]) || allowed.contains(
            renaming[name],
        )
    &&& forall|name: Name|
        !renaming.contains_key(name) ==> #[trigger] bound.contains(name) || allowed.contains(name)
}

/// A renaming that renames into `allowed` still does so in the scope of
/// more names.
pub proof fn lemma_shadow_renames_into(
    renaming: Renaming,
    names: Seq<Name>,
    count: int,
    bound: Set<Name>,
    allowed: Set<Name>,
    inner: Set<Name>,
)
    requires
        0 <= count <= names.len(),
        renames_into(renaming, bound, allowed),
        forall|name: Name| bound.contains(name) ==> inner.contains(name),
        forall|i: int| 0 <= i < count ==> inner.contains(#[trigger] names[i]),
    ensures
        renames_into(shadow(renaming, names, count), inner, allowed),
    decreases count,
{
    if count > 0 {
        lemma_shadow_renames_into(renaming, names, count - 1, bound, allowed, inner);
        let before = shadow(renaming, names, count - 1);
        let after = shadow(renaming, names, count);
        assert forall|name: Name| !after.contains_key(name) implies #[trigger] inner.contains(name)
            || allowed.contains(name) by {
            if name != names[count - 1] {
                assert(!before.contains_key(name));
            }
        }
    } else {
        assert forall|name: Name| #[trigger] renaming.contains_key(name) implies inner.contains(
            renaming[name],
        ) || allowed.contains(renaming[name]) by {}
        assert forall|name: Name| !renaming.contains_key(name) implies #[trigger] inner.contains(
            name,
        ) || allowed.contains(name) by {
            assert(bound.contains(name) || allowed.contains(name));
        }
    }
}

/// After renaming, every reference is bound or is to a name that the
/// renaming renames into.
pub proof fn lemma_rename_references(
    expression: ExpressionView,
    renaming: Renaming,
    bound: Set<Name>,
    allowed: Set<Name>,
)
    requires
        renames_into(renaming, bound, allowed),
    ensures
        references_within(rename_expression(expression, renaming), bound, allowed),
    decreases expression,
{
    match expression {
        ExpressionView::Number(_) => {},
        ExpressionView::Variable(name) => {
            if !renaming.contains_key(name) {
                assert(bound.contains(name) || allowed.contains(name));
            }
        },
        ExpressionView::Operation { operator, lhs, rhs } => {
            lemma_rename_references(*lhs, renaming, bound, allowed);
            lemma_rename_references(*rhs, renaming, bound, allowed);
        },
        ExpressionView::Application { function, arguments } => {
            if !renaming.contains_key(function) {
                assert(bound.contains(function) || allowed.contains(function));
            }
            let renamed = rename_expression(expression, renaming);
            assert forall|i: int| 0 <= i < arguments.len() implies references_within(
                #[trigger] renamed->arguments[i],
                bound,
                allowed,
            ) by {
                lemma_rename_references(arguments[i], renaming, bound, allowed);
            }
        },
        ExpressionView::LetValues { definitions, expression: body } => {
            let renamed = rename_expression(expression, renaming);
            let names = value_name_list(definitions);
            let renamed_definitions = renamed->LetValues_definitions;
            assert forall|i: int| 0 <= i < definitions.len() implies references_within(
                (#[trigger] renamed_definitions[i]).body,
                bound.union(value_names(renamed_definitions, i)),
                allowed,
            ) by {
                let inner = bound.union(value_names(renamed_definitions, i));
                assert forall|j: int| 0 <= j < i implies inner.contains(#[trigger] names[j]) by {
                    assert(renamed_definitions[j].name == names[j]);
                }
                lemma_shadow_renames_into(renaming, names, i, bound, allowed, inner);
                lemma_rename_references(
                    definitions[i].body,
                    shadow(renaming, names, i),
                    inner,
                    allowed,
                );
            }
            let count = definitions.len() as int;
            let inner = bound.union(value_names(renamed_definitions, count));
            assert forall|j: int| 0 <= j < count implies inner.contains(#[trigger] names[j]) by {
                assert(renamed_definitions[j].name == names[j]);
            }
            lemma_shadow_renames_into(renaming, names, count, bound, allowed, inner);
            lemma_rename_references(*body, shadow(renaming, names, count), inner, allowed);
        },
        ExpressionView::LetFunctions { definitions, expression: body } => {
            let renamed = rename_expression(expression, renaming);
            let names = function_name_list(definitions);
            let renamed_definitions = renamed->LetFunctions_definitions;
            let count = definitions.len() as int;
            let inner = bound.union(function_names(renamed_definitions));
            let shadowed = shadow(renaming, names, count);
            assert forall|j: int| 0 <= j < count implies inner.contains(#[trigger] names[j]) by {
                assert(renamed_definitions[j].name == names[j]);
            }
            lemma_shadow_renames_into(renaming, names, count, bound, allowed, inner);
            assert forall|i: int| 0 <= i < definitions.len() implies references_within(
                (#[trigger] renamed_definitions[i]).body,
                inner.union(bound_in_body(renamed_definitions[i])),
                allowed,
            ) by {
                let definition = definitions[i];
                let scope = inner.union(bound_in_body(renamed_definitions[i]));
                lemma_shadow_in_body_renames_into(
                    shadowed,
                    definition.environment,
                    definition.arguments,
                    inner,
                    allowed,
                    scope,
                );
                lemma_rename_references(
                    definition.body,
                    shadow_in_body(shadowed, definition.environment, definition.arguments),
                    scope,
                    allowed,
                );
            }
            lemma_rename_references(*body, shadowed, inner, allowed);
        },
    }
}

/// A renaming that renames into `allowed` still does so in the body of a
/// function.
pub proof fn lemma_shadow_in_body_renames_into(
    renaming: Renaming,
    environment: Seq<ArgumentView>,
    arguments: Seq<ArgumentView>,
    bound: Set<Name>,
    allowed: Set<Name>,
    inner: Set<Name>,
)
    requires
        renames_into(renaming, bound, allowed),
        forall|name: Name| bound.contains(name) ==> inner.contains(name),
        forall|name: Name| argument_names(environment).contains(name) ==> inner.contains(name),
        forall|name: Name| argument_names(arguments).contains(name) ==> inner.contains(name),
    ensures
        renames_into(shadow_in_body(renaming, environment, arguments), inner, allowed),
{
    let captured = argument_name_list(environment);
    assert forall|i: int| 0 <= i < captured.len() implies inner.contains(
        #[trigger] captured[i],
    ) by {
        assert(environment[i].name == captured[i]);
        assert(argument_names(environment).contains(captured[i]));
    }
    lemma_shadow_renames_into(
        renaming,
        captured,
        environment.len() as int,
        bound,
        allowed,
        inner,
    );
    let taken = argument_name_list(arguments);
    assert forall|i: int| 0 <= i < taken.len() implies inner.contains(#[trigger] taken[i]) by {
        assert(arguments[i].name == taken[i]);
        assert(argument_names(arguments).contains(taken[i]));
    }
    lemma_shadow_renames_into(
        shadow(renaming, captured, environment.len() as int),
        taken,
        arguments.len() as int,
        inner,
        allowed,
        inner,
    );
}

/// Renaming consistency: once the top-level names of a module are renamed,
/// every reference in a definition that no binder binds is to a new name,
/// `sloth_main` for the module's own `main`, or to a name that the module
/// does not define, which is left as it was.
pub proof fn lemma_renaming_consistency(module: ModuleView, module_name: Name, index: int)
    requires
        0 <= index < module.definitions.len(),
    ensures
        match rename_top_level(module, module_name).definitions[index] {
            DefinitionView::FunctionDefinition(definition) => references_within(
                definition.body,
                bound_in_body(definition),
                renamed_or_kept(top_level_renaming(module, module_name)),
            ),
            DefinitionView::ValueDefinition(definition) => references_within(
                definition.body,
                Set::empty(),
                renamed_or_kept(top_level_renaming(module, module_name)),
            ),
        },
{
    let renaming = top_level_renaming(module, module_name);
    let allowed = renamed_or_kept(renaming);
    let empty = Set::<Name>::empty();
    assert forall|name: Name| #[trigger] renaming.contains_key(name) implies empty.contains(
        renaming[name],
    ) || allowed.contains(renaming[name]) by {
        assert(renaming.contains_value(renaming[name]));
    }
    assert(renames_into(renaming, empty, allowed));
    match module.definitions[index] {
        DefinitionView::FunctionDefinition(definition) => {
            let scope = bound_in_body(definition);
            lemma_shadow_in_body_renames_into(
                renaming,
                definition.environment,
                definition.arguments,
                empty,
                allowed,
                scope,
            );
            lemma_rename_references(
                definition.body,
                shadow_in_body(renaming, definition.environment, definition.arguments),
                scope,
                allowed,
            );
        },
        DefinitionView::ValueDefinition(definition) => {
            lemma_rename_references(definition.body, renaming, empty, allowed);
        },
    }
}

/// Hiding a name in a table hides it in the renaming.
pub proof fn lemma_renaming_view_hide(names: Map<Name, Option<String>>, name: Name)
    ensures
        renaming_view(names.insert(name, None)) == renaming_view(names).remove(name),
{
    assert(renaming_view(names.insert(name, None)) =~= renaming_view(names).remove(name));
}

/// Giving a name a new name in a table gives it in the renaming.
pub proof fn lemma_renaming_view_insert(
    names: Map<Name, Option<String>>,
    name: Name,
    new_name: String,
)
    ensures
        renaming_view(names.insert(name, Some(new_name))) == renaming_view(names).insert(
            name,
            new_name@,
        ),
{
    assert(renaming_view(names.insert(name, Some(new_name))) =~= renaming_view(names).insert(
        name,
        new_name@,
    ));
}

/// The name that a reference to `name` becomes.
pub fn rename(name: &String, names: &Environment<Option<String>>) -> (result: String)
    ensures
        result@ == rename_name(name@, renaming_view(names@)),
{
    match names.get(name) {
        Some(Some(new_name)) => new_name.clone(),
        _ => name.clone(),
    }
}

/// Hides the names of the given arguments in the table.
pub fn hide_arguments(arguments: &Vec<Argument>, names: &mut Environment<Option<String>>)
    ensures
        renaming_view(final(names)@) == shadow(
            renaming_view(old(names)@),
            argument_name_list(argument_views(arguments@)),
            arguments.len() as int,
        ),
        old(names).bindings@.len() <= final(names).bindings@.len(),
        final(names).bindings@.take(old(names).bindings@.len() as int) == old(names).bindings@,
{
    let ghost list = argument_name_list(argument_views(arguments@));
    let mut index: usize = 0;
    assert(names.bindings@.take(names.bindings@.len() as int) =~= names.bindings@);
    while index < arguments.len()
        invariant
            index <= arguments.len(),
            list == argument_name_list(argument_views(arguments@)),
            renaming_view(names@) == shadow(renaming_view(old(names)@), list, index as int),
            old(names).bindings@.len() <= names.bindings@.len(),
            names.bindings@.take(old(names).bindings@.len() as int) == old(names).bindings@,
        decreases arguments.len() - index,
    {
        proof {
            lemma_renaming_view_hide(names@, arguments[index as int].name@);
        }
        let ghost before = names.bindings@;
        names.insert(arguments[index].name.clone(), None);
        assert(names.bindings@.take(old(names).bindings@.len() as int) =~= before.take(
            old(names).bindings@.len() as int,
        ));
        index += 1;
    }
}

impl Expression {
    /// The expression with every reference renamed that the table gives a
    /// new name and that no binder hides. The table is left as it was.
    pub fn rename_variables(&self, names: &mut Environment<Option<String>>) -> (result: Self)
        ensures
            result@ == rename_expression(self@, renaming_view(old(names)@)),
            final(names).bindings@ == old(names).bindings@,
        decreases self, 0nat,
    {
        match self {
            Expression::Number(value) => Expression::Number(*value),
            Expression::Variable(name) => Expression::Variable(rename(name, names)),
            Expression::Operation { operator, lhs, rhs } => {
                let lhs = lhs.rename_variables(names);
                let rhs = rhs.rename_variables(names);
                Expression::Operation { operator: *operator, lhs: Box::new(lhs), rhs: Box::new(rhs) }
            },
            Expression::Application { function, arguments } => {
                let renamed_function = rename(function, names);
                let renamed_arguments = rename_expressions(arguments, names);
                proof {
                    lemma_application_view(*function, *arguments);
                    lemma_application_view(renamed_function, renamed_arguments);
                    assert(crate::ir::ast::expression_views(renamed_arguments@)
                        =~= rename_expression(
                        self@,
                        renaming_view(old(names)@),
                    )->arguments);
                }
                Expression::Application { function: renamed_function, arguments: renamed_arguments }
            },
            Expression::LetValues { definitions, expression } => {
                let length = names.len();
                let renamed_definitions = rename_value_definitions(definitions, names);
                let renamed_expression = Box::new(expression.rename_variables(names));
                names.truncate(length);
                proof {
                    assert(names.bindings@ =~= old(names).bindings@);
                    lemma_let_values_view(*definitions, *expression);
                    lemma_let_values_view(renamed_definitions, renamed_expression);
                    assert(value_definition_views(renamed_definitions@) =~= rename_expression(
                        self@,
                        renaming_view(old(names)@),
                    )->LetValues_definitions);
                }
                Expression::LetValues {
                    definitions: renamed_definitions,
                    expression: renamed_expression,
                }
            },
            Expression::LetFunctions { definitions, expression } => {
                let length = names.len();
                hide_functions(definitions, names);
                let renamed_definitions = rename_function_definitions(definitions, names);
                let renamed_expression = Box::new(expression.rename_variables(names));
                names.truncate(length);
                proof {
                    assert(names.bindings@ =~= old(names).bindings@);
                    lemma_let_functions_view(*definitions, *expression);
                    lemma_let_functions_view(renamed_definitions, renamed_expression);
                    assert(function_definition_views(renamed_definitions@) =~= rename_expression(
                        self@,
                        renaming_view(old(names)@),
                    )->LetFunctions_definitions);
                }
                Expression::LetFunctions {
                    definitions: renamed_definitions,
                    expression: renamed_expression,
                }
            },
        }
    }
}

/// The given expressions with the references in each renamed.
pub fn rename_expressions(expressions: &Vec<Expression>, names: &mut Environment<Option<String>>) -> (result:
    Vec<Expression>)
    ensures
        result.len() == expressions.len(),
        forall|i: int|
            0 <= i < expressions.len() ==> (#[trigger] result[i])@ == rename_expression(
                expressions[i]@,
                renaming_view(old(names)@),
            ),
        final(names).bindings@ == old(names).bindings@,
    decreases expressions, 1nat,
{
    let mut result: Vec<Expression> = Vec::new();
    let mut index: usize = 0;
    while index < expressions.len()
        invariant
            index <= expressions.len(),
            result.len() == index,
            names.bindings@ == old(names).bindings@,
            forall|i: int|
                0 <= i < index ==> (#[trigger] result[i])@ == rename_expression(
                    expressions[i]@,
                    renaming_view(old(names)@),
                ),
        decreases expressions.len() - index,
    {
        result.push(expressions[index].rename_variables(names));
        index += 1;
    }
    result
}

/// The given definitions of a `let` of values with the references in the
/// body of each renamed. The name of each definition is hidden in the table
/// once its body is renamed.
pub fn rename_value_definitions(
    definitions: &Vec<ValueDefinition>,
    names: &mut Environment<Option<String>>,
) -> (result: Vec<ValueDefinition>)
    ensures
        result.len() == definitions.len(),
        forall|i: int|
            0 <= i < definitions.len() ==> (#[trigger] result[i])@ == (ValueDefinitionView {
                name: definitions[i]@.name,
                body: rename_expression(
                    definitions[i]@.body,
                    shadow(
                        renaming_view(old(names)@),
                        value_name_list(value_definition_views(definitions@)),
                        i,
                    ),
                ),
                type_: definitions[i]@.type_,
            }),
        renaming_view(final(names)@) == shadow(
            renaming_view(old(names)@),
            value_name_list(value_definition_views(definitions@)),
            definitions.len() as int,
        ),
        old(names).bindings@.len() <= final(names).bindings@.len(),
        final(names).bindings@.take(old(names).bindings@.len() as int) == old(names).bindings@,
    decreases definitions, 1nat,
{
    let ghost list = value_name_list(value_definition_views(definitions@));
    let mut result: Vec<ValueDefinition> = Vec::new();
    let mut index: usize = 0;
    assert(names.bindings@.take(names.bindings@.len() as int) =~= names.bindings@);
    while index < definitions.len()
        invariant
            index <= definitions.len(),
            result.len() == index,
            list == value_name_list(value_definition_views(definitions@)),
            renaming_view(names@) == shadow(renaming_view(old(names)@), list, index as int),
            old(names).bindings@.len() <= names.bindings@.len(),
            names.bindings@.take(old(names).bindings@.len() as int) == old(names).bindings@,
            forall|i: int|
                0 <= i < index ==> (#[trigger] result[i])@ == (ValueDefinitionView {
                    name: definitions[i]@.name,
                    body: rename_expression(
                        definitions[i]@.body,
                        shadow(renaming_view(old(names)@), list, i),
                    ),
                    type_: definitions[i]@.type_,
                }),
        decreases definitions.len() - index,
    {
        let definition = &definitions[index];
        let body = definition.body.rename_variables(names);
        result.push(ValueDefinition::new(definition.name.clone(), body, definition.type_.duplicate()));
        proof {
            lemma_renaming_view_hide(names@, definition.name@);
        }
        let ghost before = names.bindings@;
        names.insert(definition.name.clone(), None);
        assert(names.bindings@.take(old(names).bindings@.len() as int) =~= before.take(
            old(names).bindings@.len() as int,
        ));
        index += 1;
    }
    result
}

/// Hides the names of the given definitions in the table.
pub fn hide_functions(definitions: &Vec<FunctionDefinition>, names: &mut Environment<Option<String>>)
    ensures
        renaming_view(final(names)@) == shadow(
            renaming_view(old(names)@),
            function_name_list(function_definition_views(definitions@)),
            definitions.len() as int,
        ),
        old(names).bindings@.len() <= final(names).bindings@.len(),
        final(names).bindings@.take(old(names).bindings@.len() as int) == old(names).bindings@,
{
    let ghost list = function_name_list(function_definition_views(definitions@));
    let mut index: usize = 0;
    assert(names.bindings@.take(names.bindings@.len() as int) =~= names.bindings@);
    while index < definitions.len()
        invariant
            index <= definitions.len(),
            list == function_name_list(function_definition_views(definitions@)),
            renaming_view(names@) == shadow(renaming_view(old(names)@), list, index as int),
            old(names).bindings@.len() <= names.bindings@.len(),
            names.bindings@.take(old(names).bindings@.len() as int) == old(names).bindings@,
        decreases definitions.len() - index,
    {
        proof {
            lemma_renaming_view_hide(names@, definitions[index as int].name@);
        }
        let ghost before = names.bindings@;
        names.insert(definitions[index].name.clone(), None);
        assert(names.bindings@.take(old(names).bindings@.len() as int) =~= before.take(
            old(names).bindings@.len() as int,
        ));
        index += 1;
    }
}

/// The given function definitions with the references in each renamed.
pub fn rename_function_definitions(
    definitions: &Vec<FunctionDefinition>,
    names: &mut Environment<Option<String>>,
) -> (result: Vec<FunctionDefinition>)
    ensures
        result.len() == definitions.len(),
        forall|i: int|
            0 <= i < definitions.len() ==> (#[trigger] result[i])@ == rename_function_definition(
                definitions[i]@,
                renaming_view(old(names)@),
            ),
        final(names).bindings@ == old(names).bindings@,
    decreases definitions, 1nat,
{
    let mut result: Vec<FunctionDefinition> = Vec::new();
    let mut index: usize = 0;
    while index < definitions.len()
        invariant
            index <= definitions.len(),
            result.len() == index,
            names.bindings@ == old(names).bindings@,
            forall|i: int|
                0 <= i < index ==> (#[trigger] result[i])@ == rename_function_definition(
                    definitions[i]@,
                    renaming_view(old(names)@),
                ),
        decreases definitions.len() - index,
    {
        result.push(definitions[index].rename_variables(names));
        index += 1;
    }
    result
}

impl FunctionDefinition {
    /// The definition with every reference in its body renamed that the
    /// table gives a new name and that neither the definition nor a binder in
    /// its body hides. The table is left as it was.
    pub fn rename_variables(&self, names: &mut Environment<Option<String>>) -> (result: Self)
        ensures
            result@ == rename_function_definition(self@, renaming_view(old(names)@)),
            final(names).bindings@ == old(names).bindings@,
        decreases self, 0nat,
    {
        let length = names.len();
        hide_arguments(&self.environment, names);
        hide_arguments(&self.arguments, names);
        let body = self.body.rename_variables(names);
        names.truncate(length);
        assert(names.bindings@ =~= old(names).bindings@);
        Self::new(
            self.name.clone(),
            clone_arguments(&self.environment),
            clone_arguments(&self.arguments),
            body,
            self.result_type,
        )
    }
}

/// The name of a module, a dot, and a name.
pub fn qualify(module_name: &str, name: &String) -> (result: String)
    ensures
        result@ == qualified_name(module_name@, name@),
{
    String::from_str(module_name).concat(".").concat(name.as_str())
}

/// The name under which a module emits what it defines under `name`.
pub fn symbol(module_name: &str, name: &String) -> (result: String)
    ensures
        result@ == symbol_name(module_name@, name@),
{
    if *name == String::from_str("main") {
        String::from_str("sloth_main")
    } else {
        qualify(module_name, name)
    }
}

/// The module with its top-level names renamed, where they are defined and
/// where they are referred to: a definition named `main` becomes
/// `sloth_main`, every other definition gets the name of the module and a dot
/// before its name. A reference to a name that the module does not define is
/// left as it is.
pub fn rename_top_level_variables(module: &Module, module_name: &str) -> (result: Module)
    ensures
        result@ == rename_top_level(module@, module_name@),
{
    let definitions = &module.definitions;
    let mut names: Environment<Option<String>> = Environment::new();
    assert(renaming_view(names@) =~= Map::empty());
    let mut index: usize = 0;
    while index < definitions.len()
        invariant
            index <= definitions.len(),
            definitions == &module.definitions,
            renaming_view(names@) == definition_renaming(
                module@.definitions,
                module_name@,
                index as int,
            ),
        decreases definitions.len() - index,
    {
        let name = definitions[index].name();
        let new_name = symbol(module_name, name);
        proof {
            lemma_renaming_view_insert(names@, name@, new_name);
        }
        names.insert(name.clone(), Some(new_name));
        index += 1;
    }
    let ghost renaming = top_level_renaming(module@, module_name@);
    let mut declarations: Vec<Declaration> = Vec::new();
    let mut index: usize = 0;
    while index < module.declarations.len()
        invariant
            index <= module.declarations.len(),
            declarations.len() == index,
            forall|i: int|
                0 <= i < index ==> (#[trigger] declarations[i])@ == module.declarations[i]@,
        decreases module.declarations.len() - index,
    {
        declarations.push(module.declarations[index].clone());
        index += 1;
    }
    let mut renamed: Vec<Definition> = Vec::new();
    let mut index: usize = 0;
    while index < definitions.len()
        invariant
            index <= definitions.len(),
            definitions == &module.definitions,
            renamed.len() == index,
            renaming_view(names@) == renaming,
            forall|i: int|
                0 <= i < index ==> (#[trigger] renamed[i])@ == rename_definition(
                    definitions[i]@,
                    renaming,
                ),
        decreases definitions.len() - index,
    {
        let definition = match &definitions[index] {
            Definition::FunctionDefinition(definition) => {
                let renamed_definition = definition.rename_variables(&mut names);
                Definition::FunctionDefinition(
                    FunctionDefinition::new(
                        rename(&definition.name, &names),
                        renamed_definition.environment,
                        renamed_definition.arguments,
                        renamed_definition.body,
                        renamed_definition.result_type,
                    ),
                )
            },
            Definition::ValueDefinition(definition) => Definition::ValueDefinition(
                ValueDefinition::new(
                    rename(&definition.name, &names),
                    definition.body.rename_variables(&mut names),
                    definition.type_.duplicate(),
                ),
            ),
        };
        renamed.push(definition);
        index += 1;
    }
    let result = Module::new(declarations, renamed);
    assert(result@.declarations =~= module@.declarations);
    assert(result@.definitions =~= rename_top_level(module@, module_name@).definitions);
    result
}

/// Whether the expression binds none of the given names: no `let` in it
/// defines one of them, and no function in it has one of them as an argument
/// or as a captured variable.
pub open spec fn binds_none(expression: ExpressionView, names: Set<Name>) -> bool
    decreases expression,
{
    match expression {
        ExpressionView::Number(_) => true,
        ExpressionView::Variable(_) => true,
        ExpressionView::Operation { lhs, rhs, .. } => binds_none(*lhs, names) && binds_none(
            *rhs,
            names,
        ),
        ExpressionView::Application { arguments, .. } => forall|i: int|
            0 <= i < arguments.len() ==> binds_none(#[trigger] arguments[i], names),
        ExpressionView::LetValues { definitions, expression } => {
            &&& forall|i: int|
                0 <= i < definitions.len() ==> !names.contains((#[trigger] definitions[i]).name)
                    && binds_none(definitions[i].body, names)
            &&& binds_none(*expression, names)
        },
        ExpressionView::LetFunctions { definitions, expression } => {
            &&& forall|i: int|
                0 <= i < definitions.len() ==> !names.contains((#[trigger] definitions[i]).name)
                    && function_binds_none(definitions[i], names)
            &&& binds_none(*expression, names)
        },
    }
}

/// Whether the function definition has none of the given names as an
/// argument or as a captured variable, and its body binds none of them.
pub open spec fn function_binds_none(definition: FunctionDefinitionView, names: Set<Name>) -> bool
    decreases definition,
{
    &&& forall|name: Name| bound_in_body(definition).contains(name) ==> !names.contains(name)
    &&& binds_none(definition.body, names)
}

/// Whether no definition of the module binds inside it a name that the
/// module defines at its top level.
pub open spec fn binders_apart(module: ModuleView, module_name: Name) -> bool {
    forall|i: int|
        0 <= i < module.definitions.len() ==> match #[trigger] module.definitions[i] {
            DefinitionView::FunctionDefinition(definition) => function_binds_none(
                definition,
                top_level_renaming(module, module_name).dom(),
            ),
            DefinitionView::ValueDefinition(definition) => binds_none(
                definition.body,
                top_level_renaming(module, module_name).dom(),
            ),
        }
}

/// In the scope of names that a renaming does not rename, the renaming is
/// what it was.
pub proof fn lemma_shadow_apart(renaming: Renaming, names: Seq<Name>, count: int)
    requires
        0 <= count <= names.len(),
        forall|i: int| 0 <= i < count ==> !renaming.contains_key(#[trigger] names[i]),
    ensures
        shadow(renaming, names, count) == renaming,
    decreases count,
{
    if count > 0 {
        lemma_shadow_apart(renaming, names, count - 1);
        assert(renaming.remove(names[count - 1]) =~= renaming);
    }
}

/// In the body of a function that binds no name that a renaming renames,
/// the renaming is what it was.
pub proof fn lemma_shadow_in_body_apart(
    renaming: Renaming,
    environment: Seq<ArgumentView>,
    arguments: Seq<ArgumentView>,
)
    requires
        forall|name: Name|
            argument_names(environment).contains(name) ==> !renaming.contains_key(name),
        forall|name: Name|
            argument_names(arguments).contains(name) ==> !renaming.contains_key(name),
    ensures
        shadow_in_body(renaming, environment, arguments) == renaming,
{
    let captured = argument_name_list(environment);
    let taken = argument_name_list(arguments);
    assert forall|i: int| 0 <= i < captured.len() implies !renaming.contains_key(
        #[trigger] captured[i],
    ) by {
        assert(environment[i].name == captured[i]);
        assert(argument_names(environment).contains(captured[i]));
    }
    assert forall|i: int| 0 <= i < taken.len() implies !renaming.contains_key(
        #[trigger] taken[i],
    ) by {
        assert(arguments[i].name == taken[i]);
        assert(argument_names(arguments).contains(taken[i]));
    }
    lemma_shadow_apart(renaming, captured, captured.len() as int);
    lemma_shadow_apart(renaming, taken, taken.len() as int);
}

/// In a `let` of values that defines no name that a renaming renames, the
/// renaming is what it was after the first definitions, and it renames none
/// of the names bound there. The renamed definitions define the same names.
pub proof fn lemma_let_values_apart(
    definitions: Seq<ValueDefinitionView>,
    renamed: Seq<ValueDefinitionView>,
    renaming: Renaming,
    bound: Set<Name>,
    count: int,
)
    requires
        0 <= count <= definitions.len(),
        renamed.len() == definitions.len(),
        forall|i: int| 0 <= i < definitions.len() ==> (#[trigger] renamed[i]).name == definitions[i].name,
        forall|i: int|
            0 <= i < definitions.len() ==> !renaming.contains_key((#[trigger] definitions[i]).name),
        forall|name: Name| bound.contains(name) ==> !renaming.contains_key(name),
    ensures
        value_names(renamed, count) == value_names(definitions, count),
        shadow(renaming, value_name_list(definitions), count) == renaming,
        forall|name: Name|
            bound.union(value_names(definitions, count)).contains(name) ==> !renaming.contains_key(
                name,
            ),
{
    let names = value_name_list(definitions);
    assert forall|j: int| 0 <= j < count implies !renaming.contains_key(#[trigger] names[j]) by {
        assert(!renaming.contains_key(definitions[j].name));
    }
    lemma_shadow_apart(renaming, names, count);
    assert forall|name: Name| value_names(renamed, count).contains(name) == value_names(
        definitions,
        count,
    ).contains(name) by {
        if value_names(renamed, count).contains(name) {
            let j = choose|j: int| 0 <= j < count && j < renamed.len() && renamed[j].name == name;
            assert(definitions[j].name == name);
        }
        if value_names(definitions, count).contains(name) {
            let j = choose|j: int|
                0 <= j < count && j < definitions.len() && definitions[j].name == name;
            assert(renamed[j].name == name);
        }
    }
    assert(value_names(renamed, count) =~= value_names(definitions, count));
    assert forall|name: Name|
        bound.union(value_names(definitions, count)).contains(name) implies !renaming.contains_key(
        name,
    ) by {
        if value_names(definitions, count).contains(name) {
            let j = choose|j: int|
                0 <= j < count && j < definitions.len() && definitions[j].name == name;
            assert(!renaming.contains_key(definitions[j].name));
        }
    }
}

/// Renaming keeps references within their scope: where an expression binds
/// no name that the renaming renames, and every reference in it is bound or
/// is to a name of `before`, every reference in the renamed expression is
/// bound or is to what the renaming makes of a name of `before`. The
/// function definitions inside it stay closed.
pub proof fn lemma_rename_closed(
    expression: ExpressionView,
    renaming: Renaming,
    bound: Set<Name>,
    before: Set<Name>,
    after: Set<Name>,
)
    requires
        references_within(expression, bound, before),
        functions_closed(expression, before),
        binds_none(expression, renaming.dom()),
        forall|name: Name| bound.contains(name) ==> !renaming.contains_key(name),
        forall|name: Name| before.contains(name) ==> after.contains(rename_name(name, renaming)),
    ensures
        references_within(rename_expression(expression, renaming), bound, after),
        functions_closed(rename_expression(expression, renaming), after),
    decreases expression,
{
    match expression {
        ExpressionView::Number(_) => {},
        ExpressionView::Variable(_) => {},
        ExpressionView::Operation { lhs, rhs, .. } => {
            lemma_rename_closed(*lhs, renaming, bound, before, after);
            lemma_rename_closed(*rhs, renaming, bound, before, after);
        },
        ExpressionView::Application { arguments, .. } => {
            let renamed = rename_expression(expression, renaming)->Application_arguments;
            assert forall|i: int| 0 <= i < renamed.len() implies references_within(
                #[trigger] renamed[i],
                bound,
                after,
            ) && functions_closed(renamed[i], after) by {
                lemma_rename_closed(arguments[i], renaming, bound, before, after);
            }
        },
        ExpressionView::LetValues { definitions, expression: body } => {
            let names = value_name_list(definitions);
            let renamed = rename_expression(expression, renaming)->LetValues_definitions;
            assert forall|i: int| 0 <= i < renamed.len() implies references_within(
                (#[trigger] renamed[i]).body,
                bound.union(value_names(renamed, i)),
                after,
            ) && functions_closed(renamed[i].body, after) by {
                lemma_let_values_apart(definitions, renamed, renaming, bound, i);
                lemma_rename_closed(
                    definitions[i].body,
                    renaming,
                    bound.union(value_names(definitions, i)),
                    before,
                    after,
                );
            }
            let count = definitions.len() as int;
            lemma_let_values_apart(definitions, renamed, renaming, bound, count);
            lemma_rename_closed(
                *body,
                renaming,
                bound.union(value_names(definitions, count)),
                before,
                after,
            );
        },
        ExpressionView::LetFunctions { definitions, expression: body } => {
            let names = function_name_list(definitions);
            let count = definitions.len() as int;
            let renamed = rename_expression(expression, renaming)->LetFunctions_definitions;
            assert forall|j: int| 0 <= j < count implies !renaming.contains_key(
                #[trigger] names[j],
            ) by {
                assert(!renaming.dom().contains(definitions[j].name));
            }
            lemma_shadow_apart(renaming, names, count);
            assert(function_names(renamed) =~= function_names(definitions)) by {
                assert forall|name: Name| function_names(renamed).contains(name)
                    == function_names(definitions).contains(name) by {
                    if function_names(renamed).contains(name) {
                        let j = choose|j: int| 0 <= j < renamed.len() && renamed[j].name == name;
                        assert(definitions[j].name == name);
                    }
                    if function_names(definitions).contains(name) {
                        let j = choose|j: int|
                            0 <= j < definitions.len() && definitions[j].name == name;
                        assert(renamed[j].name == name);
                    }
                }
            }
            let inner = bound.union(function_names(definitions));
            assert forall|name: Name| inner.contains(name) implies !renaming.contains_key(
                name,
            ) by {
                if function_names(definitions).contains(name) {
                    let j = choose|j: int|
                        0 <= j < definitions.len() && definitions[j].name == name;
                    assert(!renaming.dom().contains(definitions[j].name));
                }
            }
            assert forall|i: int| 0 <= i < renamed.len() implies references_within(
                (#[trigger] renamed[i]).body,
                bound.union(function_names(renamed)).union(bound_in_body(renamed[i])),
                after,
            ) && references_within(renamed[i].body, bound_in_body(renamed[i]), after)
                && functions_closed(renamed[i].body, after) by {
                let definition = definitions[i];
                assert(function_binds_none(definition, renaming.dom()));
                assert forall|name: Name|
                    bound_in_body(definition).contains(name) implies !renaming.contains_key(
                    name,
                ) by {
                    assert(!renaming.dom().contains(name));
                }
                lemma_shadow_in_body_apart(renaming, definition.environment, definition.arguments);
                assert(bound_in_body(renamed[i]) == bound_in_body(definition));
                lemma_rename_closed(
                    definition.body,
                    renaming,
                    inner.union(bound_in_body(definition)),
                    before,
                    after,
                );
                lemma_rename_closed(
                    definition.body,
                    renaming,
                    bound_in_body(definition),
                    before,
                    after,
                );
            }
            lemma_rename_closed(*body, renaming, inner, before, after);
        },
    }
}

/// Free-variable closure survives renaming: where every function definition
/// of a module is closed, and no definition binds inside it a name that the
/// module defines at its top level, every function definition of the module
/// with its top-level names renamed is closed over the renamed names.
pub proof fn lemma_renaming_keeps_closure(module: ModuleView, module_name: Name)
    requires
        module_closed(module),
        binders_apart(module, module_name),
    ensures
        module_closed(rename_top_level(module, module_name)),
{
    let renaming = top_level_renaming(module, module_name);
    let renamed = rename_top_level(module, module_name);
    let before = top_level_names(module);
    let after = top_level_names(renamed);
    lemma_definition_renaming_dom(
        module.definitions,
        module_name,
        module.definitions.len() as int,
    );
    assert forall|name: Name| before.contains(name) implies after.contains(
        rename_name(name, renaming),
    ) by {
        if renaming.contains_key(name) {
            let i = choose|i: int|
                0 <= i < module.definitions.len() && (#[trigger] module.definitions[i]).name()
                    == name;
            assert(renamed.definitions[i].name() == rename_name(name, renaming));
        } else {
            assert(!(exists|i: int|
                0 <= i < module.definitions.len() && (#[trigger] module.definitions[i]).name()
                    == name));
            let i = choose|i: int|
                0 <= i < module.declarations.len() && module.declarations[i].name == name;
            assert(renamed.declarations[i].name == name);
        }
    }
    assert forall|i: int| 0 <= i < renamed.definitions.len() implies match #[trigger] renamed.definitions[i] {
        DefinitionView::FunctionDefinition(definition) => function_closed(definition, after),
        DefinitionView::ValueDefinition(definition) => references_within(
            definition.body,
            Set::empty(),
            after,
        ) && functions_closed(definition.body, after),
    } by {
        match module.definitions[i] {
            DefinitionView::FunctionDefinition(definition) => {
                assert(function_binds_none(definition, renaming.dom()));
                assert forall|name: Name|
                    bound_in_body(definition).contains(name) implies !renaming.contains_key(
                    name,
                ) by {
                    assert(!renaming.dom().contains(name));
                }
                lemma_shadow_in_body_apart(renaming, definition.environment, definition.arguments);
                lemma_rename_closed(
                    definition.body,
                    renaming,
                    bound_in_body(definition),
                    before,
                    after,
                );
            },
            DefinitionView::ValueDefinition(definition) => {
                lemma_rename_closed(definition.body, renaming, Set::empty(), before, after);
            },
        }
    }
}

} // verus!
