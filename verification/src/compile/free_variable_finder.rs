//! The free variables of function definitions.
//!
//! A name is free in an expression where the expression refers to it and no
//! binder around the reference, inside the expression, binds it. The free
//! variables of a function definition are the names free in its body but its
//! arguments. They are found in the syntax alone and listed in the order of
//! names, which gives closures a fixed layout.

use crate::ast::{
    expression_views, function_definition_views, lemma_application_view, lemma_let_functions_view,
    lemma_let_values_view, variable_definition_views, Expression, ExpressionView,
    FunctionDefinition, FunctionDefinitionView, VariableDefinitionView,
};
use crate::names::{contains_name, insert_sorted, name_views, strictly_sorted, Name};
use vstd::prelude::*;

verus! {

/// The names that the first `count` definitions bind.
pub open spec fn value_names(definitions: Seq<VariableDefinitionView>, count: int) -> Set<Name> {
    Set::new(
        |name: Name|
            exists|i: int| 0 <= i < count && i < definitions.len() && definitions[i].name == name,
    )
}

/// The names that the definitions bind.
pub open spec fn function_names(definitions: Seq<FunctionDefinitionView>) -> Set<Name> {
    Set::new(|name: Name| exists|i: int| 0 <= i < definitions.len() && definitions[i].name == name)
}

/// The names free in an expression inside the scope of `bound`.
pub open spec fn free_in(expression: ExpressionView, bound: Set<Name>) -> Set<Name>
    decreases expression, 0nat,
{
    match expression {
        ExpressionView::Number { .. } => Set::empty(),
        ExpressionView::Variable { name, .. } => free_name(name, bound),
        ExpressionView::Operation { lhs, rhs, .. } => free_in(*lhs, bound).union(
            free_in(*rhs, bound),
        ),
        ExpressionView::Application { function, arguments, .. } => free_name(
            function,
            bound,
        ).union(free_in_expressions(arguments, bound, arguments.len() as int)),
        ExpressionView::LetValues { definitions, expression } => free_in_values(
            definitions,
            bound,
            definitions.len() as int,
        ).union(
            free_in(*expression, bound.union(value_names(definitions, definitions.len() as int))),
        ),
        ExpressionView::LetFunctions { definitions, expression } => free_in_functions(
            definitions,
            bound.union(function_names(definitions)),
            definitions.len() as int,
        ).union(free_in(*expression, bound.union(function_names(definitions)))),
    }
}

/// The name, if it is not bound.
pub open spec fn free_name(name: Name, bound: Set<Name>) -> Set<Name> {
    if bound.contains(name) {
        Set::empty()
    } else {
        set![name]
    }
}

/// The names free in the first `count` expressions.
pub open spec fn free_in_expressions(
    expressions: Seq<ExpressionView>,
    bound: Set<Name>,
    count: int,
) -> Set<Name>
    decreases expressions, count,
{
    if count <= 0 || count > expressions.len() {
        Set::empty()
    } else {
        free_in_expressions(expressions, bound, count - 1).union(
            free_in(expressions[count - 1], bound),
        )
    }
}

/// The names free in the bodies of the first `count` definitions of a `let`
/// of values, where each definition binds its name in the bodies after it.
pub open spec fn free_in_values(
    definitions: Seq<VariableDefinitionView>,
    bound: Set<Name>,
    count: int,
) -> Set<Name>
    decreases definitions, count,
{
    if count <= 0 || count > definitions.len() {
        Set::empty()
    } else {
        free_in_values(definitions, bound, count - 1).union(
            free_in(
                definitions[count - 1].body,
                bound.union(value_names(definitions, count - 1)),
            ),
        )
    }
}

/// The names free in the bodies of the first `count` function definitions,
/// where each definition binds its arguments in its body.
pub open spec fn free_in_functions(
    definitions: Seq<FunctionDefinitionView>,
    bound: Set<Name>,
    count: int,
) -> Set<Name>
    decreases definitions, count,
{
    if count <= 0 || count > definitions.len() {
        Set::empty()
    } else {
        free_in_functions(definitions, bound, count - 1).union(
            free_in(
                definitions[count - 1].body,
                bound.union(definitions[count - 1].arguments.to_set()),
            ),
        )
    }
}

/// The free variables of a function definition: the names free in its body
/// but its arguments.
pub open spec fn free_variables(definition: FunctionDefinitionView) -> Set<Name> {
    free_in(definition.body, definition.arguments.to_set())
}

/// The names of a list with one more name are the names of the list and
/// that name.
pub proof fn lemma_push_to_set(names: Seq<Name>, name: Name)
    ensures
        names.push(name).to_set() == names.to_set().insert(name),
{
    let longer = names.push(name);
    assert forall|other: Name| longer.to_set().contains(other) == names.to_set().insert(
        name,
    ).contains(other) by {
        if longer.contains(other) {
            let i = choose|i: int| 0 <= i < longer.len() && longer[i] == other;
            if i < names.len() {
                assert(names[i] == other);
            }
        }
        if names.contains(other) {
            let i = choose|i: int| 0 <= i < names.len() && names[i] == other;
            assert(longer[i] == other);
        }
        if other == name {
            assert(longer[names.len() as int] == other);
        }
    }
    assert(longer.to_set() =~= names.to_set().insert(name));
}

pub struct FreeVariableFinder {}

impl FreeVariableFinder {
    pub fn new() -> Self {
        Self {  }
    }

    /// The free variables of the definition, in the order of names.
    pub fn find(&self, function_definition: &FunctionDefinition) -> (result: Vec<String>)
        ensures
            strictly_sorted(name_views(result@)),
            name_views(result@).to_set() == free_variables(function_definition@),
    {
        let mut bound: Vec<String> = crate::names::clone_names(&function_definition.arguments);
        let mut free: Vec<String> = Vec::new();
        assert(name_views(free@).to_set() =~= Set::empty());
        self.collect(&function_definition.body, &mut bound, &mut free);
        assert(name_views(free@).to_set() =~= free_variables(function_definition@));
        free
    }

    /// Adds to `free` the names free in the expression inside the scope of
    /// `bound`, and leaves `bound` as it was.
    pub fn collect(&self, expression: &Expression, bound: &mut Vec<String>, free: &mut Vec<String>)
        requires
            strictly_sorted(name_views(old(free)@)),
        ensures
            strictly_sorted(name_views(final(free)@)),
            name_views(final(free)@).to_set() == name_views(old(free)@).to_set().union(
                free_in(expression@, name_views(old(bound)@).to_set()),
            ),
            final(bound)@ == old(bound)@,
        decreases expression, 0nat,
    {
        let ghost scope = name_views(bound@).to_set();
        let ghost found = name_views(free@).to_set();
        match expression {
            Expression::Number { .. } => {
                assert(name_views(free@).to_set() =~= found.union(free_in(expression@, scope)));
            },
            Expression::Variable { name, .. } => {
                self.collect_name(name, bound, free);
            },
            Expression::Operation { lhs, rhs, .. } => {
                self.collect(lhs, bound, free);
                self.collect(rhs, bound, free);
                assert(name_views(free@).to_set() =~= found.union(free_in(expression@, scope)));
            },
            Expression::Application { function, arguments, .. } => {
                proof {
                    lemma_application_view(*expression);
                }
                self.collect_name(function, bound, free);
                let ghost all = expression_views(arguments@);
                let ghost first = name_views(free@).to_set();
                let mut index: usize = 0;
                assert(first =~= first.union(free_in_expressions(all, scope, 0)));
                while index < arguments.len()
                    invariant
                        index <= arguments.len(),
                        all == expression_views(arguments@),
                        scope == name_views(bound@).to_set(),
                        bound@ == old(bound)@,
                        strictly_sorted(name_views(free@)),
                        name_views(free@).to_set() == first.union(
                            free_in_expressions(all, scope, index as int),
                        ),
                        expression is Application,
                        expression->arguments == *arguments,
                    decreases arguments.len() - index,
                {
                    proof {
                        assert(decreases_to!(expression => expression->arguments));
                        assert(decreases_to!(arguments => arguments[index as int]));
                    }
                    self.collect(&arguments[index], bound, free);
                    index += 1;
                    assert(name_views(free@).to_set() =~= first.union(
                        free_in_expressions(all, scope, index as int),
                    ));
                }
                assert(name_views(free@).to_set() =~= found.union(free_in(expression@, scope)));
            },
            Expression::LetValues { definitions, expression: body } => {
                proof {
                    lemma_let_values_view(*expression);
                }
                let ghost all = variable_definition_views(definitions@);
                let length = bound.len();
                let mut index: usize = 0;
                assert(found =~= found.union(free_in_values(all, scope, 0)));
                assert(scope =~= scope.union(value_names(all, 0)));
                assert(bound@.take(length as int) =~= bound@);
                while index < definitions.len()
                    invariant
                        index <= definitions.len(),
                        all == variable_definition_views(definitions@),
                        length == old(bound)@.len(),
                        length <= bound@.len(),
                        bound@.take(length as int) == old(bound)@,
                        name_views(bound@).to_set() == scope.union(value_names(all, index as int)),
                        strictly_sorted(name_views(free@)),
                        name_views(free@).to_set() == found.union(
                            free_in_values(all, scope, index as int),
                        ),
                        expression is LetValues,
                        expression->LetValues_definitions == *definitions,
                    decreases definitions.len() - index,
                {
                    proof {
                        assert(decreases_to!(expression => expression->LetValues_definitions));
                        assert(decreases_to!(definitions => definitions[index as int]));
                        assert(decreases_to!(definitions[index as int]
                            => definitions[index as int].body));
                    }
                    let definition = &definitions[index];
                    self.collect(&definition.body, bound, free);
                    let ghost names = name_views(bound@);
                    let ghost stack = bound@;
                    bound.push(definition.name.clone());
                    proof {
                        assert(name_views(bound@) =~= names.push(definition.name@));
                        lemma_push_to_set(names, definition.name@);
                        assert(name_views(bound@).to_set() =~= scope.union(
                            value_names(all, index + 1),
                        )) by {
                            assert forall|name: Name|
                                scope.union(value_names(all, index as int)).insert(
                                    definition.name@,
                                ).contains(name) == scope.union(
                                    value_names(all, index + 1),
                                ).contains(name) by {
                                if value_names(all, index + 1).contains(name) {
                                    let i = choose|i: int|
                                        0 <= i < index + 1 && i < all.len() && all[i].name == name;
                                    if i < index {
                                        assert(value_names(all, index as int).contains(name));
                                    }
                                }
                                if value_names(all, index as int).contains(name) {
                                    let i = choose|i: int|
                                        0 <= i < index && i < all.len() && all[i].name == name;
                                    assert(0 <= i < index + 1 && all[i].name == name);
                                }
                                if name == definition.name@ {
                                    assert(all[index as int].name == name);
                                }
                            }
                        }
                        assert(bound@.take(length as int) =~= stack.take(length as int));
                    }
                    index += 1;
                    assert(name_views(free@).to_set() =~= found.union(
                        free_in_values(all, scope, index as int),
                    ));
                }
                self.collect(body, bound, free);
                bound.truncate(length);
                assert(bound@ =~= old(bound)@);
                assert(name_views(free@).to_set() =~= found.union(free_in(expression@, scope)));
            },
            Expression::LetFunctions { definitions, expression: body } => {
                proof {
                    lemma_let_functions_view(*expression);
                }
                let ghost all = function_definition_views(definitions@);
                let length = bound.len();
                self.bind_functions(definitions, bound);
                let ghost inner = scope.union(function_names(all));
                let inner_length = bound.len();
                let ghost inner_stack = bound@;
                let mut index: usize = 0;
                assert(found =~= found.union(free_in_functions(all, inner, 0)));
                while index < definitions.len()
                    invariant
                        index <= definitions.len(),
                        all == function_definition_views(definitions@),
                        length == old(bound)@.len(),
                        length <= bound@.len(),
                        bound@ == inner_stack,
                        inner_stack.take(length as int) == old(bound)@,
                        name_views(bound@).to_set() == inner,
                        strictly_sorted(name_views(free@)),
                        name_views(free@).to_set() == found.union(
                            free_in_functions(all, inner, index as int),
                        ),
                        expression is LetFunctions,
                        expression->LetFunctions_definitions == *definitions,
                    decreases definitions.len() - index,
                {
                    proof {
                        assert(decreases_to!(expression => expression->LetFunctions_definitions));
                        assert(decreases_to!(definitions => definitions[index as int]));
                        assert(decreases_to!(definitions[index as int]
                            => definitions[index as int].body));
                    }
                    let definition = &definitions[index];
                    let inner_size = bound.len();
                    self.bind_names(&definition.arguments, bound);
                    self.collect(&definition.body, bound, free);
                    bound.truncate(inner_size);
                    assert(bound@ =~= inner_stack);
                    index += 1;
                    assert(name_views(free@).to_set() =~= found.union(
                        free_in_functions(all, inner, index as int),
                    ));
                }
                self.collect(body, bound, free);
                bound.truncate(length);
                assert(bound@ =~= old(bound)@);
                assert(name_views(free@).to_set() =~= found.union(free_in(expression@, scope)));
            },
        }
    }

    fn collect_name(&self, name: &String, bound: &Vec<String>, free: &mut Vec<String>)
        requires
            strictly_sorted(name_views(old(free)@)),
        ensures
            strictly_sorted(name_views(final(free)@)),
            name_views(final(free)@).to_set() == name_views(old(free)@).to_set().union(
                free_name(name@, name_views(bound@).to_set()),
            ),
    {
        if !contains_name(bound, name) {
            insert_sorted(free, name.clone());
            assert(name_views(free@).to_set() =~= name_views(old(free)@).to_set().union(
                free_name(name@, name_views(bound@).to_set()),
            ));
        } else {
            assert(name_views(free@).to_set() =~= name_views(old(free)@).to_set().union(
                free_name(name@, name_views(bound@).to_set()),
            ));
        }
    }

    fn bind_names(&self, names: &Vec<String>, bound: &mut Vec<String>)
        ensures
            old(bound)@.len() <= final(bound)@.len(),
            final(bound)@.take(old(bound)@.len() as int) == old(bound)@,
            name_views(final(bound)@).to_set() == name_views(old(bound)@).to_set().union(
                name_views(names@).to_set(),
            ),
    {
        let ghost scope = name_views(bound@).to_set();
        let ghost all = name_views(names@);
        let mut index: usize = 0;
        assert(bound@.take(bound@.len() as int) =~= bound@);
        assert(scope =~= scope.union(all.take(0).to_set()));
        while index < names.len()
            invariant
                index <= names.len(),
                all == name_views(names@),
                old(bound)@.len() <= bound@.len(),
                bound@.take(old(bound)@.len() as int) == old(bound)@,
                name_views(bound@).to_set() == scope.union(all.take(index as int).to_set()),
            decreases names.len() - index,
        {
            let ghost before = name_views(bound@);
            let ghost stack = bound@;
            bound.push(names[index].clone());
            proof {
                assert(name_views(bound@) =~= before.push(names[index as int]@));
                lemma_push_to_set(before, names[index as int]@);
                assert(all.take(index + 1) =~= all.take(index as int).push(all[index as int]));
                lemma_push_to_set(all.take(index as int), all[index as int]);
                assert(name_views(bound@).to_set() =~= scope.union(
                    all.take(index + 1).to_set(),
                ));
                assert(bound@.take(old(bound)@.len() as int) =~= stack.take(
                    old(bound)@.len() as int,
                ));
            }
            index += 1;
        }
        assert(all.take(index as int) =~= all);
    }

    fn bind_functions(&self, definitions: &Vec<FunctionDefinition>, bound: &mut Vec<String>)
        ensures
            old(bound)@.len() <= final(bound)@.len(),
            final(bound)@.take(old(bound)@.len() as int) == old(bound)@,
            name_views(final(bound)@).to_set() == name_views(old(bound)@).to_set().union(
                function_names(function_definition_views(definitions@)),
            ),
    {
        let ghost scope = name_views(bound@).to_set();
        let ghost all = function_definition_views(definitions@);
        let mut index: usize = 0;
        assert(bound@.take(bound@.len() as int) =~= bound@);
        assert(scope =~= scope.union(function_names(all.take(0))));
        while index < definitions.len()
            invariant
                index <= definitions.len(),
                all == function_definition_views(definitions@),
                old(bound)@.len() <= bound@.len(),
                bound@.take(old(bound)@.len() as int) == old(bound)@,
                name_views(bound@).to_set() == scope.union(
                    function_names(all.take(index as int)),
                ),
            decreases definitions.len() - index,
        {
            let ghost before = name_views(bound@);
            let ghost stack = bound@;
            bound.push(definitions[index].name.clone());
            proof {
                let name = definitions[index as int].name@;
                assert(name_views(bound@) =~= before.push(name));
                lemma_push_to_set(before, name);
                assert(name_views(bound@).to_set() =~= scope.union(
                    function_names(all.take(index + 1)),
                )) by {
                    let shorter = all.take(index as int);
                    let longer = all.take(index + 1);
                    assert forall|other: Name|
                        scope.union(function_names(shorter)).insert(name).contains(other)
                            == scope.union(function_names(longer)).contains(other) by {
                        if function_names(longer).contains(other) {
                            let i = choose|i: int|
                                0 <= i < longer.len() && longer[i].name == other;
                            if i < index {
                                assert(shorter[i].name == other);
                            }
                        }
                        if function_names(shorter).contains(other) {
                            let i = choose|i: int|
                                0 <= i < shorter.len() && shorter[i].name == other;
                            assert(longer[i].name == other);
                        }
                        if other == name {
                            assert(longer[index as int].name == other);
                        }
                    }
                }
                assert(bound@.take(old(bound)@.len() as int) =~= stack.take(
                    old(bound)@.len() as int,
                ));
            }
            index += 1;
        }
        assert(all.take(index as int) =~= all);
    }
}

} // verus!
