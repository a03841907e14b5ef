//! Unification of types.
//!
//! An equation asks that two types be the same. A substitution unifies an
//! equation where it makes the same type of both sides. Unification finds a
//! most general unifier of a list of equations: an idempotent substitution
//! that unifies them and that every other unifier extends.
//!
//! The equations are taken one at a time, from the last to the first. Where
//! they cannot be unified, the error is that of the first equation taken
//! that cannot hold: it names the two types that clash, or the variable and
//! the type that holds it, and the place in the source of that equation.

use crate::compile::error::{CompileError, CompileErrorView};
use crate::debug::{share, SourceInformation, SourceInformationView};
use crate::types::{
    idempotent, lemma_function_view, lemma_occurs_size, lemma_replaced_variables,
    lemma_substitute_disjoint, lemma_substitute_replaced, single, sizes, substitution_view,
    Function, Substitution, Type, TypeView,
};
use std::collections::HashMap;
use std::rc::Rc;
use vstd::prelude::*;

verus! {

/// Two types that have to be the same, and the place in the source that
/// asks for it.
#[derive(Debug, PartialEq)]
pub struct Equation {
    pub lhs: Type,
    pub rhs: Type,
    pub source_information: Rc<SourceInformation>,
}

/// The mathematical value of an `Equation`.
pub struct EquationView {
    pub lhs: TypeView,
    pub rhs: TypeView,
    pub source_information: SourceInformationView,
}

impl View for Equation {
    type V = EquationView;

    open spec fn view(&self) -> EquationView {
        EquationView {
            lhs: self.lhs@,
            rhs: self.rhs@,
            source_information: self.source_information@,
        }
    }
}

/// The mathematical values of a sequence of equations.
pub open spec fn equation_views(equations: Seq<Equation>) -> Seq<EquationView> {
    Seq::new(equations.len(), |i: int| equations[i]@)
}

impl Equation {
    pub fn new(lhs: Type, rhs: Type, source_information: Rc<SourceInformation>) -> (result: Self)
        ensures
            result@ == (EquationView {
                lhs: lhs@,
                rhs: rhs@,
                source_information: source_information@,
            }),
    {
        Self { lhs, rhs, source_information }
    }
}

/// Whether the substitution makes the same type of both sides.
pub open spec fn unifies(substitution: Substitution, equation: EquationView) -> bool {
    equation.lhs.substitute(substitution) == equation.rhs.substitute(substitution)
}

/// Whether the substitution unifies every equation.
pub open spec fn unifies_all(substitution: Substitution, equations: Seq<EquationView>) -> bool {
    forall|i: int| 0 <= i < equations.len() ==> unifies(substitution, #[trigger] equations[i])
}

/// Whether some substitution unifies every equation.
pub open spec fn unifiable(equations: Seq<EquationView>) -> bool {
    exists|substitution: Substitution| unifies_all(substitution, equations)
}

/// Whether `substitution` makes of every variable that `general` replaces
/// what it makes of the replacement: `substitution` is `general` followed by
/// itself.
pub open spec fn extends(substitution: Substitution, general: Substitution) -> bool {
    forall|id: usize| #[trigger]
        general.contains_key(id) ==> TypeView::Variable(id).substitute(substitution)
            == general[id].substitute(substitution)
}

/// Whether the substitution is a most general unifier of the equations.
pub open spec fn most_general_unifier(
    substitution: Substitution,
    equations: Seq<EquationView>,
) -> bool {
    &&& idempotent(substitution)
    &&& unifies_all(substitution, equations)
    &&& forall|other: Substitution| #[trigger]
        unifies_all(other, equations) ==> extends(other, substitution)
}

/// The sizes of the types of the equations together.
pub open spec fn weight(equations: Seq<EquationView>) -> nat
    decreases equations.len(),
{
    if equations.len() == 0 {
        0
    } else {
        weight(equations.drop_last()) + equations.last().lhs.size() + equations.last().rhs.size()
    }
}

/// The variables of the first `count` types.
pub open spec fn variables_among(types: Seq<TypeView>, count: int) -> Set<usize> {
    Set::new(
        |id: usize|
            exists|i: int|
                0 <= i < count && i < types.len() && (#[trigger] types[i]).variables().contains(
                    id,
                ),
    )
}

/// The variables of a type are finitely many.
pub proof fn lemma_variables_finite(type_: TypeView)
    ensures
        type_.variables().finite(),
    decreases type_, 0nat,
{
    match type_ {
        TypeView::Function { arguments, result } => {
            lemma_variables_among_finite(arguments, arguments.len() as int);
            assert(type_.variables() =~= variables_among(arguments, arguments.len() as int));
        },
        TypeView::Value(_) => {},
        TypeView::Variable(id) => {},
    }
}

/// The variables of the first `count` types are finitely many.
pub proof fn lemma_variables_among_finite(types: Seq<TypeView>, count: int)
    requires
        0 <= count <= types.len(),
    ensures
        variables_among(types, count).finite(),
    decreases types, count,
{
    if count == 0 {
        assert(variables_among(types, count) =~= Set::empty());
    } else {
        lemma_variables_among_finite(types, count - 1);
        lemma_variables_finite(types[count - 1]);
        assert(variables_among(types, count) =~= variables_among(types, count - 1).union(
            types[count - 1].variables(),
        ));
    }
}

/// The variables of the equations.
pub open spec fn equation_variables(equations: Seq<EquationView>) -> Set<usize> {
    Set::new(
        |id: usize|
            exists|i: int|
                0 <= i < equations.len() && ((#[trigger] equations[i]).lhs.variables().contains(id)
                    || equations[i].rhs.variables().contains(id)),
    )
}

/// The variables of equations are finitely many.
pub proof fn lemma_equation_variables_finite(equations: Seq<EquationView>)
    ensures
        equation_variables(equations).finite(),
    decreases equations.len(),
{
    if equations.len() == 0 {
        assert(equation_variables(equations) =~= Set::empty());
    } else {
        let shorter = equations.drop_last();
        let last = equations.last();
        lemma_equation_variables_finite(shorter);
        lemma_variables_finite(last.lhs);
        lemma_variables_finite(last.rhs);
        assert forall|id: usize| equation_variables(equations).contains(id) == equation_variables(
            shorter,
        ).union(last.lhs.variables()).union(last.rhs.variables()).contains(id) by {
            if equation_variables(equations).contains(id) {
                let i = choose|i: int|
                    0 <= i < equations.len() && ((#[trigger] equations[i]).lhs.variables().contains(
                        id,
                    ) || equations[i].rhs.variables().contains(id));
                if i < shorter.len() {
                    assert(shorter[i] == equations[i]);
                }
            }
            if equation_variables(shorter).contains(id) {
                let i = choose|i: int|
                    0 <= i < shorter.len() && ((#[trigger] shorter[i]).lhs.variables().contains(id)
                        || shorter[i].rhs.variables().contains(id));
                assert(equations[i] == shorter[i]);
            }
            if last.lhs.variables().contains(id) || last.rhs.variables().contains(id) {
                assert(equations[equations.len() - 1] == last);
            }
        }
        assert(equation_variables(equations) =~= equation_variables(shorter).union(
            last.lhs.variables(),
        ).union(last.rhs.variables()));
    }
}

/// A substitution makes the same of two function types exactly where their
/// results are the same, they take as many arguments, and it makes the same
/// of their arguments, place by place.
pub proof fn lemma_unifies_functions(substitution: Substitution, lhs: TypeView, rhs: TypeView)
    requires
        lhs is Function,
        rhs is Function,
    ensures
        lhs.substitute(substitution) == rhs.substitute(substitution) <==> {
            &&& lhs->result == rhs->result
            &&& lhs->arguments.len() == rhs->arguments.len()
            &&& forall|i: int|
                0 <= i < lhs->arguments.len() ==> (#[trigger] lhs->arguments[i]).substitute(
                    substitution,
                ) == rhs->arguments[i].substitute(substitution)
        },
{
    let left = lhs.substitute(substitution);
    let right = rhs.substitute(substitution);
    assert(left->arguments.len() == lhs->arguments.len());
    assert(right->arguments.len() == rhs->arguments.len());
    assert(left->result == lhs->result);
    assert(right->result == rhs->result);
    if left == right {
        assert forall|i: int| 0 <= i < lhs->arguments.len() implies (
        #[trigger] lhs->arguments[i]).substitute(substitution) == rhs->arguments[i].substitute(
            substitution,
        ) by {
            assert(left->arguments[i] == lhs->arguments[i].substitute(substitution));
            assert(right->arguments[i] == rhs->arguments[i].substitute(substitution));
            assert(left->arguments[i] == right->arguments[i]);
        }
    }
    if lhs->result == rhs->result && lhs->arguments.len() == rhs->arguments.len() && (forall|
        i: int,
    |
        0 <= i < lhs->arguments.len() ==> (#[trigger] lhs->arguments[i]).substitute(substitution)
            == rhs->arguments[i].substitute(substitution)) {
        assert forall|i: int| 0 <= i < left->arguments.len() implies left->arguments[i]
            == right->arguments[i] by {
            assert(left->arguments[i] == lhs->arguments[i].substitute(substitution));
            assert(right->arguments[i] == rhs->arguments[i].substitute(substitution));
        }
        assert(left->arguments =~= right->arguments);
    }
}

/// The weight of equations with one more is their weight and the sizes of
/// the sides of that one.
pub proof fn lemma_weight_push(equations: Seq<EquationView>, equation: EquationView)
    ensures
        weight(equations.push(equation)) == weight(equations) + equation.lhs.size()
            + equation.rhs.size(),
{
    assert(equations.push(equation).drop_last() =~= equations);
}

/// A substitution unifies equations and one more exactly where it unifies
/// the equations and that one.
pub proof fn lemma_unifies_all_push(
    substitution: Substitution,
    equations: Seq<EquationView>,
    equation: EquationView,
)
    ensures
        unifies_all(substitution, equations.push(equation)) <==> unifies_all(
            substitution,
            equations,
        ) && unifies(substitution, equation),
{
    let longer = equations.push(equation);
    if unifies_all(substitution, longer) {
        assert forall|i: int| 0 <= i < equations.len() implies unifies(
            substitution,
            #[trigger] equations[i],
        ) by {
            assert(longer[i] == equations[i]);
        }
        assert(longer[equations.len() as int] == equation);
    }
    if unifies_all(substitution, equations) && unifies(substitution, equation) {
        assert forall|i: int| 0 <= i < longer.len() implies unifies(
            substitution,
            #[trigger] longer[i],
        ) by {
            if i < equations.len() {
                assert(longer[i] == equations[i]);
            }
        }
    }
}

/// A substitution unifies two lists of equations together exactly where it
/// unifies each.
pub proof fn lemma_unifies_all_add(
    substitution: Substitution,
    first: Seq<EquationView>,
    second: Seq<EquationView>,
)
    ensures
        unifies_all(substitution, first + second) <==> unifies_all(substitution, first)
            && unifies_all(substitution, second),
{
    let both = first + second;
    if unifies_all(substitution, both) {
        assert forall|i: int| 0 <= i < first.len() implies unifies(
            substitution,
            #[trigger] first[i],
        ) by {
            assert(both[i] == first[i]);
        }
        assert forall|i: int| 0 <= i < second.len() implies unifies(
            substitution,
            #[trigger] second[i],
        ) by {
            assert(both[first.len() + i] == second[i]);
        }
    }
    if unifies_all(substitution, first) && unifies_all(substitution, second) {
        assert forall|i: int| 0 <= i < both.len() implies unifies(
            substitution,
            #[trigger] both[i],
        ) by {
            if i < first.len() {
                assert(both[i] == first[i]);
            } else {
                assert(both[i] == second[i - first.len()]);
            }
        }
    }
}

/// What holds of the equations left to solve and of the substitution found
/// so far, while the equations `given` are solved.
///
/// The unifiers of `given` are the substitutions that unify what is left
/// and extend what is found. What is found is idempotent, and replaces no
/// variable of what is left. Every variable is one of `given`, and every
/// equation left comes from a place in the source that an equation of
/// `given` comes from.
pub open spec fn solving(
    given: Seq<EquationView>,
    left: Seq<EquationView>,
    found: Substitution,
) -> bool {
    &&& forall|other: Substitution| #[trigger]
        unifies_all(other, given) <==> unifies_all(other, left) && extends(other, found)
    &&& idempotent(found)
    &&& forall|id: usize| #[trigger]
        equation_variables(left).contains(id) ==> !found.contains_key(id) && equation_variables(
            given,
        ).contains(id)
    &&& found.dom().finite()
    &&& forall|id: usize| #[trigger]
        found.contains_key(id) ==> equation_variables(given).contains(id)
    &&& forall|i: int|
        0 <= i < left.len() ==> comes_from(given, (#[trigger] left[i]).source_information)
}

/// Whether one of the equations comes from the given place in the source.
pub open spec fn comes_from(
    equations: Seq<EquationView>,
    source_information: SourceInformationView,
) -> bool {
    exists|j: int|
        0 <= j < equations.len() && (#[trigger] equations[j]).source_information
            == source_information
}

/// Solving starts with all equations left and nothing found.
pub proof fn lemma_solving_starts(given: Seq<EquationView>)
    ensures
        solving(given, given, Map::empty()),
{
    let found = Map::<usize, TypeView>::empty();
    assert forall|other: Substitution| #[trigger]
        unifies_all(other, given) <==> unifies_all(other, given) && extends(
            other,
            found,
        ) by {}
    assert forall|i: int| 0 <= i < given.len() implies comes_from(
        given,
        (#[trigger] given[i]).source_information,
    ) by {}
}

/// The variables of fewer equations are variables of the equations.
pub proof fn lemma_variables_of_fewer(equations: Seq<EquationView>, equation: EquationView)
    ensures
        forall|id: usize|
            equation_variables(equations).contains(id) ==> equation_variables(
                equations.push(equation),
            ).contains(id),
        forall|id: usize|
            equation.lhs.variables().contains(id) || equation.rhs.variables().contains(id)
                ==> equation_variables(equations.push(equation)).contains(id),
{
    let longer = equations.push(equation);
    assert forall|id: usize| equation_variables(equations).contains(id) implies equation_variables(
        longer,
    ).contains(id) by {
        let i = choose|i: int|
            0 <= i < equations.len() && ((#[trigger] equations[i]).lhs.variables().contains(id)
                || equations[i].rhs.variables().contains(id));
        assert(longer[i] == equations[i]);
    }
    assert forall|id: usize|
        equation.lhs.variables().contains(id) || equation.rhs.variables().contains(
            id,
        ) implies equation_variables(longer).contains(id) by {
        assert(longer[equations.len() as int] == equation);
    }
}

/// An equation whose sides are the same type is solved: it may be dropped.
pub proof fn lemma_step_trivial(
    given: Seq<EquationView>,
    left: Seq<EquationView>,
    equation: EquationView,
    found: Substitution,
)
    requires
        solving(given, left.push(equation), found),
        equation.lhs == equation.rhs,
    ensures
        solving(given, left, found),
        weight(left) < weight(left.push(equation)),
{
    let before = left.push(equation);
    assert forall|other: Substitution| #[trigger]
        unifies_all(other, given) <==> unifies_all(other, left) && extends(other, found) by {
        lemma_unifies_all_push(other, left, equation);
    }
    lemma_variables_of_fewer(left, equation);
    assert forall|i: int| 0 <= i < left.len() implies comes_from(
        given,
        (#[trigger] left[i]).source_information,
    ) by {
        assert(before[i] == left[i]);
    }
    lemma_weight_push(left, equation);
}

/// An equation between two function types of as many arguments, with the
/// same result, may be replaced by the equations between their arguments.
pub proof fn lemma_step_decompose(
    given: Seq<EquationView>,
    left: Seq<EquationView>,
    equation: EquationView,
    parts: Seq<EquationView>,
    found: Substitution,
)
    requires
        solving(given, left.push(equation), found),
        equation.lhs is Function,
        equation.rhs is Function,
        equation.lhs->result == equation.rhs->result,
        equation.lhs->arguments.len() == equation.rhs->arguments.len(),
        parts.len() == equation.lhs->arguments.len(),
        forall|i: int|
            0 <= i < parts.len() ==> (#[trigger] parts[i]) == (EquationView {
                lhs: equation.lhs->arguments[i],
                rhs: equation.rhs->arguments[i],
                source_information: equation.source_information,
            }),
    ensures
        solving(given, left + parts, found),
        weight(left + parts) < weight(left.push(equation)),
{
    let before = left.push(equation);
    let after = left + parts;
    assert forall|other: Substitution| #[trigger]
        unifies_all(other, given) <==> unifies_all(other, after) && extends(other, found) by {
        lemma_unifies_all_push(other, left, equation);
        lemma_unifies_all_add(other, left, parts);
        lemma_unifies_functions(other, equation.lhs, equation.rhs);
        if unifies_all(other, parts) {
            assert forall|i: int| 0 <= i < equation.lhs->arguments.len() implies (
            #[trigger] equation.lhs->arguments[i]).substitute(other)
                == equation.rhs->arguments[i].substitute(other) by {
                assert(unifies(other, parts[i]));
            }
        }
    }
    lemma_variables_of_fewer(left, equation);
    assert forall|id: usize| #[trigger] equation_variables(after).contains(id) implies
        !found.contains_key(id) && equation_variables(given).contains(id) by {
        let i = choose|i: int|
            0 <= i < after.len() && ((#[trigger] after[i]).lhs.variables().contains(id)
                || after[i].rhs.variables().contains(id));
        if i < left.len() {
            assert(after[i] == left[i]);
            assert(equation_variables(left).contains(id));
        } else {
            let k = i - left.len();
            assert(after[i] == parts[k]);
            if parts[k].lhs.variables().contains(id) {
                assert(equation.lhs->arguments[k].variables().contains(id));
                assert(equation.lhs.variables().contains(id));
            } else {
                assert(equation.rhs->arguments[k].variables().contains(id));
                assert(equation.rhs.variables().contains(id));
            }
        }
        assert(equation_variables(before).contains(id));
    }
    assert forall|i: int| 0 <= i < after.len() implies comes_from(
        given,
        (#[trigger] after[i]).source_information,
    ) by {
        if i < left.len() {
            assert(before[i] == after[i]);
        } else {
            assert(before[left.len() as int] == equation);
            assert(after[i] == parts[i - left.len()]);
        }
    }
    lemma_weight_push(left, equation);
    lemma_weight_parts(left, parts, parts.len() as int, equation);
    assert(left + parts.take(parts.len() as int) =~= after);
}

/// The weight of equations and of the first equations between the arguments
/// of two function types is the weight of the equations and the sizes of
/// those arguments.
pub proof fn lemma_weight_parts(
    left: Seq<EquationView>,
    parts: Seq<EquationView>,
    count: int,
    equation: EquationView,
)
    requires
        equation.lhs is Function,
        equation.rhs is Function,
        equation.lhs->arguments.len() == equation.rhs->arguments.len(),
        parts.len() == equation.lhs->arguments.len(),
        0 <= count <= parts.len(),
        forall|i: int|
            0 <= i < parts.len() ==> (#[trigger] parts[i]).lhs == equation.lhs->arguments[i]
                && parts[i].rhs == equation.rhs->arguments[i],
    ensures
        weight(left + parts.take(count)) == weight(left) + sizes(equation.lhs->arguments, count)
            + sizes(equation.rhs->arguments, count),
    decreases count,
{
    if count == 0 {
        assert(left + parts.take(count) =~= left);
    } else {
        lemma_weight_parts(left, parts, count - 1, equation);
        assert(left + parts.take(count) =~= (left + parts.take(count - 1)).push(parts[count - 1]));
        lemma_weight_push(left + parts.take(count - 1), parts[count - 1]);
    }
}

/// The substitution found once a variable is bound: the variable is replaced
/// in every type found so far, and the variable is given its type.
pub open spec fn bind(found: Substitution, id: usize, type_: TypeView) -> Substitution {
    Map::new(
        |other: usize| found.contains_key(other),
        |other: usize| found[other].substitute(single(id, type_)),
    ).insert(id, type_)
}

/// An equation between a variable and a type that does not hold the
/// variable is solved by binding the variable: the variable is replaced in
/// what is left and in what is found.
pub proof fn lemma_step_bind(
    given: Seq<EquationView>,
    left: Seq<EquationView>,
    equation: EquationView,
    id: usize,
    type_: TypeView,
    found: Substitution,
    replaced: Seq<EquationView>,
)
    requires
        solving(given, left.push(equation), found),
        (equation.lhs == TypeView::Variable(id) && equation.rhs == type_) || (equation.rhs
            == TypeView::Variable(id) && equation.lhs == type_),
        !type_.variables().contains(id),
        replaced.len() == left.len(),
        forall|i: int|
            0 <= i < left.len() ==> (#[trigger] replaced[i]) == (EquationView {
                lhs: left[i].lhs.substitute(single(id, type_)),
                rhs: left[i].rhs.substitute(single(id, type_)),
                source_information: left[i].source_information,
            }),
    ensures
        solving(given, replaced, bind(found, id, type_)),
        !found.contains_key(id),
        equation_variables(given).contains(id),
        bind(found, id, type_).dom() == found.dom().insert(id),
{
    let before = left.push(equation);
    let bound = bind(found, id, type_);
    lemma_variables_of_fewer(left, equation);
    assert(TypeView::Variable(id).variables().contains(id));
    assert(equation_variables(before).contains(id));
    assert(bound.dom() =~= found.dom().insert(id));
    assert forall|other: usize|
        type_.variables().contains(other) implies !found.contains_key(other) && other != id by {
        assert(equation_variables(before).contains(other));
    }
    assert forall|other: Substitution| #[trigger]
        unifies_all(other, given) <==> unifies_all(other, replaced) && extends(
            other,
            bound,
        ) by {
        lemma_unifies_all_push(other, left, equation);
        let binds = TypeView::Variable(id).substitute(other) == type_.substitute(other);
        assert(unifies(other, equation) == binds);
        if extends(other, bound) {
            assert(bound.contains_key(id));
            assert(binds);
        }
        if binds {
            assert forall|i: int| 0 <= i < left.len() implies unifies(other, #[trigger] left[i])
                == unifies(other, replaced[i]) by {
                lemma_substitute_replaced(left[i].lhs, id, type_, other);
                lemma_substitute_replaced(left[i].rhs, id, type_, other);
            }
            assert(unifies_all(other, left) == unifies_all(other, replaced)) by {
                if unifies_all(other, left) {
                    assert forall|i: int| 0 <= i < replaced.len() implies unifies(
                        other,
                        #[trigger] replaced[i],
                    ) by {
                        assert(unifies(other, left[i]));
                    }
                }
                if unifies_all(other, replaced) {
                    assert forall|i: int| 0 <= i < left.len() implies unifies(
                        other,
                        #[trigger] left[i],
                    ) by {
                        assert(unifies(other, replaced[i]));
                    }
                }
            }
            assert(extends(other, found) == extends(other, bound)) by {
                assert forall|key: usize| found.contains_key(key) implies bound[key].substitute(
                    other,
                ) == found[key].substitute(other) by {
                    lemma_substitute_replaced(found[key], id, type_, other);
                }
                if extends(other, found) {
                    assert forall|key: usize| #[trigger] bound.contains_key(key) implies
                        TypeView::Variable(key).substitute(other) == bound[key].substitute(
                        other,
                    ) by {
                        if key != id {
                            assert(found.contains_key(key));
                        }
                    }
                }
                if extends(other, bound) {
                    assert forall|key: usize| #[trigger] found.contains_key(key) implies
                        TypeView::Variable(key).substitute(other) == found[key].substitute(
                        other,
                    ) by {
                        assert(bound.contains_key(key));
                    }
                }
            }
        }
    }
    assert(idempotent(bound)) by {
        assert forall|key: usize, other: usize|
            bound.contains_key(key) && #[trigger] bound[key].variables().contains(
                other,
            ) implies !bound.contains_key(other) by {
            if key != id {
                lemma_replaced_variables(found[key], id, type_);
                if found[key].variables().contains(other) {
                    assert(!found.contains_key(other));
                }
            }
        }
    }
    assert forall|other: usize| #[trigger] equation_variables(replaced).contains(other) implies
        !bound.contains_key(other) && equation_variables(given).contains(other) by {
        let i = choose|i: int|
            0 <= i < replaced.len() && ((#[trigger] replaced[i]).lhs.variables().contains(other)
                || replaced[i].rhs.variables().contains(other));
        lemma_replaced_variables(left[i].lhs, id, type_);
        lemma_replaced_variables(left[i].rhs, id, type_);
        if type_.variables().contains(other) {
            assert(equation_variables(before).contains(other));
        } else {
            assert(left[i].lhs.variables().contains(other) || left[i].rhs.variables().contains(
                other,
            ));
            assert(equation_variables(left).contains(other));
            assert(equation_variables(before).contains(other));
        }
    }
    assert forall|i: int| 0 <= i < replaced.len() implies comes_from(
        given,
        (#[trigger] replaced[i]).source_information,
    ) by {
        assert(before[i] == left[i]);
        assert(replaced[i].source_information == before[i].source_information);
    }
}

/// No substitution unifies equations of which one is between a value type
/// and a function type, between function types of different results or
/// numbers of arguments, or between different value types.
pub proof fn lemma_step_mismatch(
    given: Seq<EquationView>,
    left: Seq<EquationView>,
    equation: EquationView,
    found: Substitution,
)
    requires
        solving(given, left.push(equation), found),
        !(equation.lhs is Variable),
        !(equation.rhs is Variable),
        (equation.lhs is Function) != (equation.rhs is Function) || (equation.lhs is Value
            && equation.lhs != equation.rhs) || (equation.lhs is Function
            && equation.lhs->result != equation.rhs->result) || (equation.lhs is Function
            && equation.lhs->arguments.len() != equation.rhs->arguments.len()),
    ensures
        !unifiable(given),
{
    assert forall|other: Substitution| !unifies_all(other, given) by {
        lemma_unifies_all_push(other, left, equation);
        if equation.lhs is Function && equation.rhs is Function {
            lemma_unifies_functions(other, equation.lhs, equation.rhs);
        }
    }
}

/// No substitution unifies equations of which one is between a variable and
/// a function type that holds the variable.
pub proof fn lemma_step_occurs(
    given: Seq<EquationView>,
    left: Seq<EquationView>,
    equation: EquationView,
    id: usize,
    type_: TypeView,
    found: Substitution,
)
    requires
        solving(given, left.push(equation), found),
        (equation.lhs == TypeView::Variable(id) && equation.rhs == type_) || (equation.rhs
            == TypeView::Variable(id) && equation.lhs == type_),
        type_.variables().contains(id),
        type_ != TypeView::Variable(id),
    ensures
        !unifiable(given),
        type_ is Function,
{
    assert forall|other: Substitution| !unifies_all(other, given) by {
        lemma_unifies_all_push(other, left, equation);
        lemma_occurs_size(type_, id, other);
    }
}

/// Once no equation is left, what is found is a most general unifier.
pub proof fn lemma_solving_ends(given: Seq<EquationView>, found: Substitution)
    requires
        solving(given, Seq::empty(), found),
    ensures
        most_general_unifier(found, given),
{
    assert forall|id: usize| #[trigger] found.contains_key(id) implies TypeView::Variable(
        id,
    ).substitute(found) == found[id].substitute(found) by {
        lemma_substitute_disjoint(found[id], found);
    }
    assert(extends(found, found));
    assert(unifies_all(found, Seq::<EquationView>::empty()));
    assert(unifies_all(found, given));
    assert forall|other: Substitution| #[trigger] unifies_all(other, given) implies extends(
        other,
        found,
    ) by {}
}

/// The substitution that a list of bindings stands for.
pub open spec fn bindings_view(bindings: Seq<(usize, Type)>) -> Substitution
    decreases bindings.len(),
{
    if bindings.len() == 0 {
        Map::empty()
    } else {
        bindings_view(bindings.drop_last()).insert(bindings.last().0, bindings.last().1@)
    }
}

/// Whether no substitution makes the same type of the two types.
pub open spec fn clash(first: TypeView, second: TypeView) -> bool {
    forall|substitution: Substitution| #[trigger]
        first.substitute(substitution) != second.substitute(substitution)
}

/// Whether the error says why the equations cannot be unified: two types
/// clash that an equation asks to be the same, or a variable has to be a
/// function type that holds it. The error names the place in the source that
/// one of the equations comes from.
pub open spec fn explains(error: CompileErrorView, equations: Seq<EquationView>) -> bool {
    match error {
        CompileErrorView::TypeMismatch { expected, actual, source_information } => {
            &&& !(expected is Variable)
            &&& !(actual is Variable)
            &&& clash(expected, actual)
            &&& comes_from(equations, source_information)
        },
        CompileErrorView::OccursCheck { variable_id, type_, source_information } => {
            &&& type_ is Function
            &&& type_.variables().contains(variable_id)
            &&& clash(TypeView::Variable(variable_id), type_)
            &&& comes_from(equations, source_information)
        },
        _ => false,
    }
}

/// What becomes of the equations once one of them is taken.
pub enum Step {
    /// The equation holds or is replaced: the equations that are left, and
    /// the substitution found so far.
    Next { left: Seq<EquationView>, found: Substitution },
    /// The equation cannot hold.
    Failed(CompileErrorView),
}

/// The equations between the arguments of the two function types of an
/// equation, place by place, at the place in the source of the equation.
pub open spec fn parts_of(equation: EquationView) -> Seq<EquationView> {
    Seq::new(
        equation.lhs->arguments.len(),
        |i: int|
            EquationView {
                lhs: equation.lhs->arguments[i],
                rhs: equation.rhs->arguments[i],
                source_information: equation.source_information,
            },
    )
}

/// The equations with a variable replaced by a type on both sides.
pub open spec fn replace_in(equations: Seq<EquationView>, id: usize, type_: TypeView) -> Seq<
    EquationView,
> {
    Seq::new(
        equations.len(),
        |i: int|
            EquationView {
                lhs: equations[i].lhs.substitute(single(id, type_)),
                rhs: equations[i].rhs.substitute(single(id, type_)),
                source_information: equations[i].source_information,
            },
    )
}

/// The error of an equation whose sides are different value types, a value
/// type and a function type, or function types of different results or of
/// different numbers of arguments: the left side was expected, the right
/// side is what there is.
pub open spec fn mismatch(equation: EquationView) -> CompileErrorView {
    CompileErrorView::TypeMismatch {
        expected: equation.lhs,
        actual: equation.rhs,
        source_information: equation.source_information,
    }
}

/// The error of an equation between a variable and a function type that
/// holds the variable.
pub open spec fn occurs(equation: EquationView, id: usize, type_: TypeView) -> CompileErrorView {
    CompileErrorView::OccursCheck {
        variable_id: id,
        type_,
        source_information: equation.source_information,
    }
}

/// What becomes of the equations `left` and of the substitution `found` once
/// `equation` is taken.
///
/// An equation between a variable and itself, or between the same value
/// types, is dropped. A variable on one side is bound to the other side and
/// replaced in what is left and in what is found, unless the other side
/// holds it: that is the error of the occurs check. Two function types of as
/// many arguments and of the same result are replaced by the equations
/// between their arguments. Every other equation is a mismatch.
pub open spec fn step(left: Seq<EquationView>, equation: EquationView, found: Substitution) -> Step {
    if equation.lhs is Variable {
        let id = equation.lhs->Variable_0;
        if equation.rhs == equation.lhs {
            Step::Next { left, found }
        } else if equation.rhs.variables().contains(id) {
            Step::Failed(occurs(equation, id, equation.rhs))
        } else {
            Step::Next {
                left: replace_in(left, id, equation.rhs),
                found: bind(found, id, equation.rhs),
            }
        }
    } else if equation.rhs is Variable {
        let id = equation.rhs->Variable_0;
        if equation.lhs.variables().contains(id) {
            Step::Failed(occurs(equation, id, equation.lhs))
        } else {
            Step::Next {
                left: replace_in(left, id, equation.lhs),
                found: bind(found, id, equation.lhs),
            }
        }
    } else if equation.lhs is Value && equation.rhs is Value {
        if equation.lhs == equation.rhs {
            Step::Next { left, found }
        } else {
            Step::Failed(mismatch(equation))
        }
    } else if equation.lhs is Function && equation.rhs is Function {
        if equation.lhs->result == equation.rhs->result && equation.lhs->arguments.len()
            == equation.rhs->arguments.len() {
            Step::Next { left: left + parts_of(equation), found }
        } else {
            Step::Failed(mismatch(equation))
        }
    } else {
        Step::Failed(mismatch(equation))
    }
}

/// What taking the equations gives within `fuel` steps, if that many are
/// enough: the equations are taken from the last to the first, the ones
/// that replace an equation before the ones that were there. The substitution
/// found is given once no equation is left, and the error of the first
/// equation that cannot hold.
pub open spec fn solve(left: Seq<EquationView>, found: Substitution, fuel: nat) -> Option<
    Result<Substitution, CompileErrorView>,
>
    decreases fuel,
{
    if left.len() == 0 {
        Some(Ok(found))
    } else if fuel == 0 {
        None
    } else {
        match step(left.drop_last(), left.last(), found) {
            Step::Failed(error) => Some(Err(error)),
            Step::Next { left, found } => solve(left, found, (fuel - 1) as nat),
        }
    }
}

/// Whether `result` is what taking the equations one by one gives.
pub open spec fn solved(
    equations: Seq<EquationView>,
    result: Result<Substitution, CompileErrorView>,
) -> bool {
    exists|fuel: nat| solve(equations, Map::empty(), fuel) == Some(result)
}

/// Whether taking `left` with `found` goes on, after `steps` steps, what
/// taking `given` began.
pub open spec fn resumes(
    given: Seq<EquationView>,
    left: Seq<EquationView>,
    found: Substitution,
    steps: nat,
) -> bool {
    forall|fuel: nat|
        fuel >= steps ==> #[trigger] solve(given, Map::empty(), fuel) == solve(
            left,
            found,
            (fuel - steps) as nat,
        )
}

/// More steps than are enough give the same.
pub proof fn lemma_solve_more(left: Seq<EquationView>, found: Substitution, fuel: nat, more: nat)
    requires
        solve(left, found, fuel) is Some,
        fuel <= more,
    ensures
        solve(left, found, more) == solve(left, found, fuel),
    decreases fuel,
{
    if left.len() > 0 && fuel > 0 {
        match step(left.drop_last(), left.last(), found) {
            Step::Failed(_) => {},
            Step::Next { left: rest, found: after } => {
                lemma_solve_more(rest, after, (fuel - 1) as nat, (more - 1) as nat);
            },
        }
    }
}

/// Taking the equations one by one gives one result and no other.
pub proof fn lemma_solved_unique(
    equations: Seq<EquationView>,
    first: Result<Substitution, CompileErrorView>,
    second: Result<Substitution, CompileErrorView>,
)
    requires
        solved(equations, first),
        solved(equations, second),
    ensures
        first == second,
{
    let one = choose|fuel: nat| solve(equations, Map::empty(), fuel) == Some(first);
    let other = choose|fuel: nat| solve(equations, Map::empty(), fuel) == Some(second);
    if one <= other {
        lemma_solve_more(equations, Map::empty(), one, other);
    } else {
        lemma_solve_more(equations, Map::empty(), other, one);
    }
}

/// Once an equation is taken that holds or is replaced, taking what is left
/// goes on what was begun.
pub proof fn lemma_resumes_next(
    given: Seq<EquationView>,
    whole: Seq<EquationView>,
    found: Substitution,
    steps: nat,
    left: Seq<EquationView>,
    after: Substitution,
)
    requires
        whole.len() > 0,
        resumes(given, whole, found, steps),
        step(whole.drop_last(), whole.last(), found) == (Step::Next { left, found: after }),
    ensures
        resumes(given, left, after, steps + 1),
{
    assert forall|fuel: nat| fuel >= steps + 1 implies #[trigger] solve(
        given,
        Map::empty(),
        fuel,
    ) == solve(left, after, (fuel - (steps + 1)) as nat) by {
        assert(solve(given, Map::empty(), fuel) == solve(whole, found, (fuel - steps) as nat));
    }
}

/// Once an equation is taken that cannot hold, its error is what taking the
/// given equations gives.
pub proof fn lemma_resumes_failed(
    given: Seq<EquationView>,
    whole: Seq<EquationView>,
    found: Substitution,
    steps: nat,
    error: CompileErrorView,
)
    requires
        whole.len() > 0,
        resumes(given, whole, found, steps),
        step(whole.drop_last(), whole.last(), found) == Step::Failed(error),
    ensures
        solved(given, Err(error)),
{
    assert(solve(given, Map::empty(), steps + 1) == solve(whole, found, 1nat));
}

/// Copies of the given equations, in order.
pub fn clone_equations(equations: &Vec<Equation>) -> (result: Vec<Equation>)
    ensures
        equation_views(result@) == equation_views(equations@),
{
    let mut result: Vec<Equation> = Vec::new();
    let mut index: usize = 0;
    while index < equations.len()
        invariant
            index <= equations.len(),
            result.len() == index,
            forall|i: int| 0 <= i < index ==> (#[trigger] result[i])@ == equations[i]@,
        decreases equations.len() - index,
    {
        let equation = &equations[index];
        result.push(
            Equation::new(
                equation.lhs.duplicate(),
                equation.rhs.duplicate(),
                share(&equation.source_information),
            ),
        );
        index += 1;
    }
    assert(equation_views(result@) =~= equation_views(equations@));
    result
}

/// The given equations with the variable replaced in both sides of each.
pub fn replace_in_equations(equations: &Vec<Equation>, id: usize, replacement: &Type) -> (result:
    Vec<Equation>)
    ensures
        result.len() == equations.len(),
        forall|i: int|
            0 <= i < equations.len() ==> (#[trigger] equation_views(result@)[i])
                == (EquationView {
                lhs: equation_views(equations@)[i].lhs.substitute(single(id, replacement@)),
                rhs: equation_views(equations@)[i].rhs.substitute(single(id, replacement@)),
                source_information: equation_views(equations@)[i].source_information,
            }),
{
    let mut result: Vec<Equation> = Vec::new();
    let mut index: usize = 0;
    while index < equations.len()
        invariant
            index <= equations.len(),
            result.len() == index,
            forall|i: int|
                0 <= i < index ==> (#[trigger] result[i])@ == (EquationView {
                    lhs: equations[i]@.lhs.substitute(single(id, replacement@)),
                    rhs: equations[i]@.rhs.substitute(single(id, replacement@)),
                    source_information: equations[i]@.source_information,
                }),
        decreases equations.len() - index,
    {
        let equation = &equations[index];
        result.push(
            Equation::new(
                equation.lhs.replace_variable(id, replacement),
                equation.rhs.replace_variable(id, replacement),
                share(&equation.source_information),
            ),
        );
        index += 1;
    }
    result
}

/// The given bindings with the variable replaced in the type of each.
pub fn replace_in_bindings(bindings: &Vec<(usize, Type)>, id: usize, replacement: &Type) -> (result:
    Vec<(usize, Type)>)
    ensures
        bindings_view(result@) == Map::new(
            |other: usize| bindings_view(bindings@).contains_key(other),
            |other: usize| bindings_view(bindings@)[other].substitute(single(id, replacement@)),
        ),
{
    let mut result: Vec<(usize, Type)> = Vec::new();
    let mut index: usize = 0;
    assert(bindings@.take(0) =~= Seq::empty());
    assert(bindings_view(result@) =~= Map::new(
        |other: usize| bindings_view(bindings@.take(0)).contains_key(other),
        |other: usize| bindings_view(bindings@.take(0))[other].substitute(single(id, replacement@)),
    ));
    while index < bindings.len()
        invariant
            index <= bindings.len(),
            result.len() == index,
            bindings_view(result@) == Map::new(
                |other: usize| bindings_view(bindings@.take(index as int)).contains_key(other),
                |other: usize|
                    bindings_view(bindings@.take(index as int))[other].substitute(
                        single(id, replacement@),
                    ),
            ),
        decreases bindings.len() - index,
    {
        let binding = &bindings[index];
        let replaced = binding.1.replace_variable(id, replacement);
        let ghost before = result@;
        result.push((binding.0, replaced));
        proof {
            assert(result@.drop_last() =~= before);
            assert(bindings@.take(index + 1).drop_last() =~= bindings@.take(index as int));
            assert(bindings_view(result@) =~= Map::new(
                |other: usize| bindings_view(bindings@.take(index + 1)).contains_key(other),
                |other: usize|
                    bindings_view(bindings@.take(index + 1))[other].substitute(
                        single(id, replacement@),
                    ),
            ));
        }
        index += 1;
    }
    assert(bindings@.take(index as int) =~= bindings@);
    result
}

/// The equations between the arguments of two function types, place by
/// place, added to the given equations.
pub fn push_parts(
    worklist: &mut Vec<Equation>,
    lhs: &Function,
    rhs: &Function,
    source_information: &Rc<SourceInformation>,
)
    requires
        lhs.arguments.len() == rhs.arguments.len(),
    ensures
        exists|parts: Seq<EquationView>|
            {
                &&& #[trigger] parts.len() == lhs.arguments.len()
                &&& equation_views(final(worklist)@) == equation_views(old(worklist)@) + parts
                &&& forall|i: int|
                    0 <= i < parts.len() ==> (#[trigger] parts[i]) == (EquationView {
                        lhs: lhs@->arguments[i],
                        rhs: rhs@->arguments[i],
                        source_information: source_information@,
                    })
            },
{
    let ghost before = equation_views(worklist@);
    let mut index: usize = 0;
    let ghost mut parts: Seq<EquationView> = Seq::empty();
    assert(equation_views(worklist@) =~= before + parts);
    while index < lhs.arguments.len()
        invariant
            index <= lhs.arguments.len(),
            lhs.arguments.len() == rhs.arguments.len(),
            parts.len() == index,
            equation_views(worklist@) == before + parts,
            forall|i: int|
                0 <= i < parts.len() ==> (#[trigger] parts[i]) == (EquationView {
                    lhs: lhs@->arguments[i],
                    rhs: rhs@->arguments[i],
                    source_information: source_information@,
                }),
        decreases lhs.arguments.len() - index,
    {
        let equation = Equation::new(
            lhs.arguments[index].duplicate(),
            rhs.arguments[index].duplicate(),
            share(source_information),
        );
        let ghost views = equation_views(worklist@);
        worklist.push(equation);
        proof {
            assert(equation_views(worklist@) =~= views.push(equation@));
            parts = parts.push(equation@);
            assert(equation_views(worklist@) =~= before + parts);
        }
        index += 1;
    }
}

/// A most general unifier of the equations, if they can be unified, and
/// else the error of the first equation, taken from the last to the first,
/// that cannot hold.
pub fn unify(equations: &Vec<Equation>) -> (result: Result<HashMap<usize, Type>, CompileError>)
    ensures
        solved(
            equation_views(equations@),
            match result {
                Ok(substitution) => Ok(substitution_view(substitution@)),
                Err(error) => Err(error@),
            },
        ),
        match result {
            Ok(substitution) => most_general_unifier(
                substitution_view(substitution@),
                equation_views(equations@),
            ),
            Err(error) => !unifiable(equation_views(equations@)) && explains(
                error@,
                equation_views(equations@),
            ),
        },
{
    let ghost given = equation_views(equations@);
    let ghost universe = equation_variables(given);
    let mut worklist = clone_equations(equations);
    let mut bindings: Vec<(usize, Type)> = Vec::new();
    let ghost mut steps: nat = 0;
    proof {
        lemma_solving_starts(given);
        lemma_equation_variables_finite(given);
        assert(bindings_view(bindings@) =~= Map::empty());
    }
    while worklist.len() > 0
        invariant
            given == equation_views(equations@),
            universe == equation_variables(given),
            universe.finite(),
            solving(given, equation_views(worklist@), bindings_view(bindings@)),
            resumes(given, equation_views(worklist@), bindings_view(bindings@), steps),
        decreases
                universe.len() - bindings_view(bindings@).dom().len(),
                weight(equation_views(worklist@)),
    {
        let ghost found = bindings_view(bindings@);
        let ghost whole = equation_views(worklist@);
        proof {
            assert forall|id: usize| found.dom().contains(id) implies universe.contains(id) by {
                assert(found.contains_key(id));
            }
            vstd::set_lib::lemma_len_subset(found.dom(), universe);
        }
        let equation = match worklist.pop() {
            Some(equation) => equation,
            None => {
                proof {
                    assert(false);
                }
                return Err(
                    CompileError::AmbiguousType {
                        source_information: Rc::new(SourceInformation::new(String::new(), 0, 0)),
                    },
                );
            },
        };
        let ghost left = equation_views(worklist@);
        proof {
            assert(whole =~= left.push(equation@));
            assert(whole.drop_last() =~= left);
            assert(comes_from(given, whole[whole.len() - 1].source_information));
        }
        match (&equation.lhs, &equation.rhs) {
            (Type::Value(first), Type::Value(second)) => {
                if *first == *second {
                    proof {
                        lemma_step_trivial(given, left, equation@, found);
                        lemma_resumes_next(given, whole, found, steps, left, found);
                        steps = steps + 1;
                    }
                } else {
                    proof {
                        lemma_step_mismatch(given, left, equation@, found);
                        lemma_clash(given, left, equation@, found);
                        lemma_resumes_failed(given, whole, found, steps, mismatch(equation@));
                    }
                    return Err(
                        CompileError::TypeMismatch {
                            expected: equation.lhs,
                            actual: equation.rhs,
                            source_information: equation.source_information,
                        },
                    );
                }
            },
            (Type::Function(first), Type::Function(second)) => {
                proof {
                    lemma_function_view(*first);
                    lemma_function_view(*second);
                }
                if first.result == second.result && first.arguments.len()
                    == second.arguments.len() {
                    push_parts(&mut worklist, first, second, &equation.source_information);
                    proof {
                        let parts = choose|parts: Seq<EquationView>|
                            {
                                &&& #[trigger] parts.len() == first.arguments.len()
                                &&& equation_views(worklist@) == left + parts
                                &&& forall|i: int|
                                    0 <= i < parts.len() ==> (#[trigger] parts[i])
                                        == (EquationView {
                                        lhs: first@->arguments[i],
                                        rhs: second@->arguments[i],
                                        source_information: equation.source_information@,
                                    })
                            };
                        lemma_step_decompose(given, left, equation@, parts, found);
                        assert(parts =~= parts_of(equation@));
                        lemma_resumes_next(given, whole, found, steps, left + parts, found);
                        steps = steps + 1;
                    }
                } else {
                    proof {
                        lemma_step_mismatch(given, left, equation@, found);
                        lemma_clash(given, left, equation@, found);
                        lemma_resumes_failed(given, whole, found, steps, mismatch(equation@));
                    }
                    return Err(
                        CompileError::TypeMismatch {
                            expected: equation.lhs,
                            actual: equation.rhs,
                            source_information: equation.source_information,
                        },
                    );
                }
            },
            (Type::Value(_), Type::Function(_)) => {
                proof {
                    lemma_step_mismatch(given, left, equation@, found);
                    lemma_clash(given, left, equation@, found);
                    lemma_resumes_failed(given, whole, found, steps, mismatch(equation@));
                }
                return Err(
                    CompileError::TypeMismatch {
                        expected: equation.lhs,
                        actual: equation.rhs,
                        source_information: equation.source_information,
                    },
                );
            },
            (Type::Function(_), Type::Value(_)) => {
                proof {
                    lemma_step_mismatch(given, left, equation@, found);
                    lemma_clash(given, left, equation@, found);
                    lemma_resumes_failed(given, whole, found, steps, mismatch(equation@));
                }
                return Err(
                    CompileError::TypeMismatch {
                        expected: equation.lhs,
                        actual: equation.rhs,
                        source_information: equation.source_information,
                    },
                );
            },
            (Type::Variable(variable), other) => {
                let id = variable.id;
                if is_variable(other, id) {
                    proof {
                        lemma_step_trivial(given, left, equation@, found);
                        lemma_resumes_next(given, whole, found, steps, left, found);
                        steps = steps + 1;
                    }
                } else if other.contains_variable(id) {
                    proof {
                        lemma_step_occurs(given, left, equation@, id, other@, found);
                        lemma_occurs_clash(id, other@);
                        lemma_resumes_failed(
                            given,
                            whole,
                            found,
                            steps,
                            occurs(equation@, id, other@),
                        );
                    }
                    return Err(
                        CompileError::OccursCheck {
                            variable_id: id,
                            type_: equation.rhs,
                            source_information: equation.source_information,
                        },
                    );
                } else {
                    let replaced = replace_in_equations(&worklist, id, other);
                    let mut bound = replace_in_bindings(&bindings, id, other);
                    let ghost replaced_bindings = bound@;
                    bound.push((id, other.duplicate()));
                    proof {
                        assert(bound@.drop_last() =~= replaced_bindings);
                        assert(bindings_view(bound@) =~= bind(found, id, other@));
                        lemma_step_bind(
                            given,
                            left,
                            equation@,
                            id,
                            other@,
                            found,
                            equation_views(replaced@),
                        );
                        let after = bind(found, id, other@);
                        assert forall|key: usize| after.dom().contains(key) implies universe.contains(
                            key,
                        ) by {
                            assert(after.contains_key(key));
                        }
                        vstd::set_lib::lemma_len_subset(after.dom(), universe);
                        assert(equation_views(replaced@) =~= replace_in(left, id, other@));
                        lemma_resumes_next(
                            given,
                            whole,
                            found,
                            steps,
                            equation_views(replaced@),
                            after,
                        );
                        steps = steps + 1;
                    }
                    worklist = replaced;
                    bindings = bound;
                }
            },
            (other, Type::Variable(variable)) => {
                let id = variable.id;
                if other.contains_variable(id) {
                    proof {
                        lemma_step_occurs(given, left, equation@, id, other@, found);
                        lemma_occurs_clash(id, other@);
                        lemma_resumes_failed(
                            given,
                            whole,
                            found,
                            steps,
                            occurs(equation@, id, other@),
                        );
                    }
                    return Err(
                        CompileError::OccursCheck {
                            variable_id: id,
                            type_: equation.lhs,
                            source_information: equation.source_information,
                        },
                    );
                } else {
                    let replaced = replace_in_equations(&worklist, id, other);
                    let mut bound = replace_in_bindings(&bindings, id, other);
                    let ghost replaced_bindings = bound@;
                    bound.push((id, other.duplicate()));
                    proof {
                        assert(bound@.drop_last() =~= replaced_bindings);
                        assert(bindings_view(bound@) =~= bind(found, id, other@));
                        lemma_step_bind(
                            given,
                            left,
                            equation@,
                            id,
                            other@,
                            found,
                            equation_views(replaced@),
                        );
                        let after = bind(found, id, other@);
                        assert forall|key: usize| after.dom().contains(key) implies universe.contains(
                            key,
                        ) by {
                            assert(after.contains_key(key));
                        }
                        vstd::set_lib::lemma_len_subset(after.dom(), universe);
                        assert(equation_views(replaced@) =~= replace_in(left, id, other@));
                        lemma_resumes_next(
                            given,
                            whole,
                            found,
                            steps,
                            equation_views(replaced@),
                            after,
                        );
                        steps = steps + 1;
                    }
                    worklist = replaced;
                    bindings = bound;
                }
            },
        }
    }
    proof {
        assert(equation_views(worklist@) =~= Seq::empty());
        lemma_solving_ends(given, bindings_view(bindings@));
        assert(solve(given, Map::empty(), steps) == Some(
            Ok::<_, CompileErrorView>(bindings_view(bindings@)),
        ));
    }
    let mut substitution: HashMap<usize, Type> = HashMap::new();
    let mut index: usize = 0;
    assert(bindings@.take(0) =~= Seq::empty());
    assert(substitution_view(substitution@) =~= bindings_view(bindings@.take(0)));
    while index < bindings.len()
        invariant
            index <= bindings.len(),
            substitution_view(substitution@) == bindings_view(bindings@.take(index as int)),
        decreases bindings.len() - index,
    {
        let ghost before = substitution@;
        let copy = bindings[index].1.duplicate();
        substitution.insert(bindings[index].0, copy);
        proof {
            assert(bindings@.take(index + 1).drop_last() =~= bindings@.take(index as int));
            assert(substitution_view(substitution@) =~= substitution_view(before).insert(
                bindings[index as int].0,
                copy@,
            ));
        }
        index += 1;
    }
    assert(bindings@.take(index as int) =~= bindings@);
    Ok(substitution)
}

/// Whether the type is the variable of the given id.
pub fn is_variable(type_: &Type, id: usize) -> (result: bool)
    ensures
        result == (type_@ == TypeView::Variable(id)),
{
    match type_ {
        Type::Variable(variable) => variable.id == id,
        _ => false,
    }
}

/// The sides of an equation that no substitution unifies clash.
pub proof fn lemma_clash(
    given: Seq<EquationView>,
    left: Seq<EquationView>,
    equation: EquationView,
    found: Substitution,
)
    requires
        !(equation.lhs is Variable),
        !(equation.rhs is Variable),
        (equation.lhs is Function) != (equation.rhs is Function) || (equation.lhs is Value
            && equation.lhs != equation.rhs) || (equation.lhs is Function
            && equation.lhs->result != equation.rhs->result) || (equation.lhs is Function
            && equation.lhs->arguments.len() != equation.rhs->arguments.len()),
    ensures
        clash(equation.lhs, equation.rhs),
{
    assert forall|substitution: Substitution| #[trigger]
        equation.lhs.substitute(substitution) != equation.rhs.substitute(substitution) by {
        if equation.lhs is Function && equation.rhs is Function {
            lemma_unifies_functions(substitution, equation.lhs, equation.rhs);
        }
    }
}

/// A variable clashes with a function type that holds it.
pub proof fn lemma_occurs_clash(id: usize, type_: TypeView)
    requires
        type_ is Function,
        type_.variables().contains(id),
    ensures
        clash(TypeView::Variable(id), type_),
{
    assert forall|substitution: Substitution| #[trigger]
        TypeView::Variable(id).substitute(substitution) != type_.substitute(substitution) by {
        lemma_occurs_size(type_, id, substitution);
    }
}

} // verus!
