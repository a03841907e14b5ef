//! Types of the surface language.
//!
//! A type is a value type, a function type from argument types to a value
//! type, or an inference variable that stands for a type not yet known.

use crate::debug::{share, SourceInformation};
use std::collections::HashMap;
use std::rc::Rc;
use vstd::prelude::*;

verus! {

/// Atomic value types.
#[derive(Clone, Copy, Debug, PartialEq, Eq, Structural)]
pub enum Value {
    Number,
}

/// An inference variable, identified by its id.
#[derive(Debug)]
pub struct Variable {
    pub id: usize,
    pub source_information: Rc<SourceInformation>,
}

/// A function type. Functions may take functions but return values.
#[derive(Debug, PartialEq)]
pub struct Function {
    pub arguments: Vec<Type>,
    pub result: Value,
}

#[derive(Debug, PartialEq)]
pub enum Type {
    Function(Function),
    Value(Value),
    Variable(Variable),
}

/// The mathematical value of a `Type`. Of an inference variable only the id
/// counts.
pub enum TypeView {
    Function { arguments: Seq<TypeView>, result: Value },
    Value(Value),
    Variable(usize),
}

/// A substitution: the types that stand for some inference variables.
pub type Substitution = Map<usize, TypeView>;

impl TypeView {
    /// Whether no inference variable occurs in the type.
    pub open spec fn is_closed(self) -> bool
        decreases self,
    {
        match self {
            TypeView::Function { arguments, result } => forall|i: int|
                0 <= i < arguments.len() ==> (#[trigger] arguments[i]).is_closed(),
            TypeView::Value(_) => true,
            TypeView::Variable(_) => false,
        }
    }

    /// The inference variables that occur in the type.
    pub open spec fn variables(self) -> Set<usize>
        decreases self,
    {
        match self {
            TypeView::Function { arguments, result } => Set::new(
                |id: usize|
                    exists|i: int|
                        0 <= i < arguments.len() && (#[trigger] arguments[i]).variables().contains(
                            id,
                        ),
            ),
            TypeView::Value(_) => Set::empty(),
            TypeView::Variable(id) => set![id],
        }
    }

    /// The type with every variable that the substitution knows replaced by
    /// the type that stands for it.
    pub open spec fn substitute(self, substitution: Substitution) -> TypeView
        decreases self,
    {
        match self {
            TypeView::Function { arguments, result } => TypeView::Function {
                arguments: Seq::new(
                    arguments.len(),
                    |i: int|
                        if 0 <= i < arguments.len() {
                            arguments[i].substitute(substitution)
                        } else {
                            arbitrary()
                        },
                ),
                result,
            },
            TypeView::Value(value) => TypeView::Value(value),
            TypeView::Variable(id) => if substitution.contains_key(id) {
                substitution[id]
            } else {
                TypeView::Variable(id)
            },
        }
    }
}

/// The mathematical values of a sequence of types.
pub open spec fn type_views(types: Seq<Type>) -> Seq<TypeView> {
    Seq::new(types.len(), |i: int| types[i]@)
}

/// The substitution that a table of types stands for.
pub open spec fn substitution_view(substitutions: Map<usize, Type>) -> Substitution {
    Map::new(|id: usize| substitutions.contains_key(id), |id: usize| substitutions[id]@)
}

/// The mathematical value of a type.
pub open spec fn type_view(type_: Type) -> TypeView
    decreases type_,
{
    match type_ {
        Type::Function(function) => TypeView::Function {
            arguments: Seq::new(
                function.arguments@.len(),
                |i: int|
                    if 0 <= i < function.arguments.len() {
                        type_view(function.arguments[i])
                    } else {
                        arbitrary()
                    },
            ),
            result: function.result,
        },
        Type::Value(value) => TypeView::Value(value),
        Type::Variable(variable) => TypeView::Variable(variable.id),
    }
}

impl View for Type {
    type V = TypeView;

    open spec fn view(&self) -> TypeView {
        type_view(*self)
    }
}

impl View for Function {
    type V = TypeView;

    open spec fn view(&self) -> TypeView {
        TypeView::Function { arguments: type_views(self.arguments@), result: self.result }
    }
}

/// The view of a function type is the view of its parts.
pub proof fn lemma_function_view(function: Function)
    ensures
        Type::Function(function)@ == function@,
{
    assert(Type::Function(function)@->arguments =~= function@->arguments);
}

impl Variable {
    pub fn new(id: usize, source_information: Rc<SourceInformation>) -> (result: Self)
        ensures
            result.id == id,
            result.source_information == source_information,
    {
        Self { id, source_information }
    }

    pub fn id(&self) -> (result: usize)
        ensures
            result == self.id,
    {
        self.id
    }

    pub fn source_information(&self) -> (result: &Rc<SourceInformation>)
        ensures
            *result == self.source_information,
    {
        &self.source_information
    }
}

/// A source of inference variables. The ids that it gives grow: each is
/// greater than every id that it gave before, so that none is given twice.
pub struct VariableGenerator {
    pub next: usize,
}

impl VariableGenerator {
    /// A source whose first variable has the id 0.
    pub fn new() -> (result: Self)
        ensures
            result.next == 0,
    {
        Self { next: 0 }
    }

    /// A new variable for the given place in the source. Its id is the
    /// least id that is greater than all that were given before. No variable
    /// is given once the ids are used up.
    pub fn generate(&mut self, source_information: Rc<SourceInformation>) -> (result: Option<
        Variable,
    >)
        ensures
            match result {
                Some(variable) => {
                    &&& variable.id == old(self).next
                    &&& variable.source_information == source_information
                    &&& final(self).next == old(self).next + 1
                },
                None => old(self).next == usize::MAX && final(self).next == old(self).next,
            },
    {
        if self.next == usize::MAX {
            None
        } else {
            let id = self.next;
            self.next = self.next + 1;
            Some(Variable::new(id, source_information))
        }
    }
}

impl Clone for Variable {
    fn clone(&self) -> (result: Self)
        ensures
            result == *self,
    {
        Self { id: self.id, source_information: share(&self.source_information) }
    }
}

/// Two inference variables are the same variable when their ids agree.
impl PartialEq for Variable {
    fn eq(&self, other: &Self) -> (result: bool) {
        self.id == other.id
    }
}

impl vstd::std_specs::cmp::PartialEqSpecImpl for Variable {
    open spec fn obeys_eq_spec() -> bool {
        true
    }

    open spec fn eq_spec(&self, other: &Self) -> bool {
        self.id == other.id
    }
}

impl Function {
    pub fn new(arguments: Vec<Type>, result: Value) -> (function: Self)
        ensures
            function@ == (TypeView::Function { arguments: type_views(arguments@), result }),
    {
        Self { arguments, result }
    }

    pub fn arguments(&self) -> (result: &Vec<Type>)
        ensures
            type_views(result@) == self@->arguments,
    {
        &self.arguments
    }

    pub fn result(&self) -> (result: &Value)
        ensures
            *result == self@->result,
    {
        &self.result
    }

    pub fn substitute_variables(&self, substitutions: &HashMap<usize, Type>) -> (result: Self)
        ensures
            result@ == self@.substitute(substitution_view(substitutions@)),
        decreases self, 0nat,
    {
        let arguments = substitute_all(&self.arguments, substitutions);
        let result = Self { arguments, result: self.result };
        assert(result@->arguments =~= self@.substitute(substitution_view(substitutions@))->arguments);
        result
    }
}

impl Clone for Function {
    fn clone(&self) -> (result: Self)
        ensures
            result@ == self@,
    {
        Self { arguments: clone_all(&self.arguments), result: self.result }
    }
}

/// Copies of the given types, in order.
pub fn clone_all(types: &Vec<Type>) -> (result: Vec<Type>)
    ensures
        type_views(result@) == type_views(types@),
    decreases types,
{
    let mut result: Vec<Type> = Vec::new();
    let mut index: usize = 0;
    while index < types.len()
        invariant
            index <= types.len(),
            result.len() == index,
            forall|i: int| 0 <= i < index ==> result[i]@ == types[i]@,
        decreases types.len() - index,
    {
        result.push(types[index].duplicate());
        index += 1;
    }
    assert(type_views(result@) =~= type_views(types@));
    result
}

/// The given types with the substitution applied to each, in order.
pub fn substitute_all(types: &Vec<Type>, substitutions: &HashMap<usize, Type>) -> (result: Vec<
    Type,
>)
    ensures
        result.len() == types.len(),
        forall|i: int|
            0 <= i < types.len() ==> (#[trigger] result[i])@ == types[i]@.substitute(
                substitution_view(substitutions@),
            ),
    decreases types, 1nat,
{
    let mut result: Vec<Type> = Vec::new();
    let mut index: usize = 0;
    while index < types.len()
        invariant
            index <= types.len(),
            result.len() == index,
            forall|i: int|
                0 <= i < index ==> (#[trigger] result[i])@ == types[i]@.substitute(
                    substitution_view(substitutions@),
                ),
        decreases types.len() - index,
    {
        result.push(types[index].substitute_variables(substitutions));
        index += 1;
    }
    result
}

impl Type {
    /// A copy of the type.
    pub fn duplicate(&self) -> (result: Self)
        ensures
            result@ == self@,
        decreases self,
    {
        match self {
            Type::Function(function) => {
                let result = Function {
                    arguments: clone_all(&function.arguments),
                    result: function.result,
                };
                proof {
                    lemma_function_view(result);
                    lemma_function_view(*function);
                }
                Type::Function(result)
            },
            Type::Value(value) => Type::Value(*value),
            Type::Variable(variable) => Type::Variable(variable.clone()),
        }
    }

    /// The type with every variable that the table knows replaced by the type
    /// that the table holds for it. The replacement is not searched again.
    pub fn substitute_variables(&self, substitutions: &HashMap<usize, Type>) -> (result: Self)
        ensures
            result@ == self@.substitute(substitution_view(substitutions@)),
        decreases self, 1nat,
    {
        match self {
            Type::Function(function) => {
                let result = function.substitute_variables(substitutions);
                proof {
                    lemma_function_view(result);
                    lemma_function_view(*function);
                }
                Type::Function(result)
            },
            Type::Value(value) => Type::Value(*value),
            Type::Variable(variable) => match substitutions.get(&variable.id) {
                Some(type_) => type_.duplicate(),
                None => Type::Variable(variable.clone()),
            },
        }
    }

    /// Whether no inference variable occurs in the type.
    pub fn is_closed(&self) -> (result: bool)
        ensures
            result == self@.is_closed(),
        decreases self,
    {
        match self {
            Type::Function(function) => {
                let result = all_closed(&function.arguments);
                proof {
                    lemma_function_view(*function);
                    assert(self@ == function@);
                    assert(self@->arguments == type_views(function.arguments@));
                    assert(self@.is_closed() == forall|i: int|
                        0 <= i < self@->arguments.len() ==> (#[trigger] self@->arguments[i]).is_closed());
                }
                result
            },
            Type::Value(_) => true,
            Type::Variable(_) => false,
        }
    }
}

/// Whether no inference variable occurs in any of the given types.
pub fn all_closed(types: &Vec<Type>) -> (result: bool)
    ensures
        result == forall|i: int|
            0 <= i < types.len() ==> (#[trigger] type_views(types@)[i]).is_closed(),
    decreases types,
{
    let mut index: usize = 0;
    while index < types.len()
        invariant
            index <= types.len(),
            forall|i: int| 0 <= i < index ==> (#[trigger] type_views(types@)[i]).is_closed(),
        decreases types.len() - index,
    {
        if !types[index].is_closed() {
            assert(!type_views(types@)[index as int].is_closed());
            return false;
        }
        index += 1;
    }
    true
}

impl Clone for Type {
    fn clone(&self) -> (result: Self)
        ensures
            result@ == self@,
    {
        self.duplicate()
    }
}

/// The substitution that replaces one variable.
pub open spec fn single(id: usize, type_: TypeView) -> Substitution {
    Map::empty().insert(id, type_)
}

/// Whether no type that the substitution gives holds a variable that the
/// substitution replaces. Applying such a substitution twice is applying it
/// once.
pub open spec fn idempotent(substitution: Substitution) -> bool {
    forall|id: usize, other: usize|
        substitution.contains_key(id) && #[trigger] substitution[id].variables().contains(other)
            ==> !substitution.contains_key(other)
}

impl TypeView {
    /// The number of type constructors and variables in the type.
    pub open spec fn size(self) -> nat
        decreases self, 0nat,
    {
        match self {
            TypeView::Function { arguments, .. } => 1 + sizes(arguments, arguments.len() as int),
            TypeView::Value(_) => 1,
            TypeView::Variable(_) => 1,
        }
    }
}

/// The sizes of the first `count` types together.
pub open spec fn sizes(types: Seq<TypeView>, count: int) -> nat
    decreases types, count,
{
    if count <= 0 || count > types.len() {
        0
    } else {
        sizes(types, count - 1) + types[count - 1].size()
    }
}

/// The sizes of some types together are at least the size of each.
pub proof fn lemma_sizes_bound(types: Seq<TypeView>, count: int, index: int)
    requires
        0 <= index < count <= types.len(),
    ensures
        types[index].size() <= sizes(types, count),
    decreases count,
{
    if index < count - 1 {
        lemma_sizes_bound(types, count - 1, index);
    }
}

/// A substitution leaves a type alone that holds none of the variables that
/// it replaces.
pub proof fn lemma_substitute_disjoint(type_: TypeView, substitution: Substitution)
    requires
        forall|id: usize| type_.variables().contains(id) ==> !substitution.contains_key(id),
    ensures
        type_.substitute(substitution) == type_,
    decreases type_,
{
    match type_ {
        TypeView::Function { arguments, result } => {
            let substituted = type_.substitute(substitution)->arguments;
            assert forall|i: int| 0 <= i < arguments.len() implies substituted[i]
                == arguments[i] by {
                assert forall|id: usize| arguments[i].variables().contains(id) implies
                    !substitution.contains_key(id) by {
                    assert(type_.variables().contains(id));
                }
                lemma_substitute_disjoint(arguments[i], substitution);
            }
            assert(substituted =~= arguments);
        },
        TypeView::Value(_) => {},
        TypeView::Variable(id) => {
            assert(type_.variables().contains(id));
        },
    }
}

/// Substitution idempotence: applying an idempotent substitution twice to a
/// type is applying it once.
pub proof fn lemma_substitution_idempotent(substitution: Substitution, type_: TypeView)
    requires
        idempotent(substitution),
    ensures
        type_.substitute(substitution).substitute(substitution) == type_.substitute(substitution),
    decreases type_,
{
    match type_ {
        TypeView::Function { arguments, result } => {
            let once = type_.substitute(substitution)->arguments;
            let twice = type_.substitute(substitution).substitute(substitution)->arguments;
            assert forall|i: int| 0 <= i < arguments.len() implies twice[i] == once[i] by {
                lemma_substitution_idempotent(substitution, arguments[i]);
            }
            assert(twice =~= once);
        },
        TypeView::Value(_) => {},
        TypeView::Variable(id) => {
            if substitution.contains_key(id) {
                lemma_substitute_disjoint(substitution[id], substitution);
            }
        },
    }
}

/// The variables of a type in which a variable is replaced are variables of
/// the type, but the replaced one, or variables of the replacement.
pub proof fn lemma_replaced_variables(type_: TypeView, id: usize, replacement: TypeView)
    ensures
        forall|other: usize|
            type_.substitute(single(id, replacement)).variables().contains(other) ==> (
            type_.variables().contains(other) && other != id) || replacement.variables().contains(
                other,
            ),
    decreases type_,
{
    let replaced = type_.substitute(single(id, replacement));
    match type_ {
        TypeView::Function { arguments, result } => {
            assert forall|other: usize| replaced.variables().contains(other) implies (
            type_.variables().contains(other) && other != id) || replacement.variables().contains(
                other,
            ) by {
                let i = choose|i: int|
                    0 <= i < replaced->arguments.len() && (
                    #[trigger] replaced->arguments[i]).variables().contains(other);
                lemma_replaced_variables(arguments[i], id, replacement);
                if arguments[i].variables().contains(other) {
                    assert(type_.variables().contains(other));
                }
            }
        },
        TypeView::Value(_) => {},
        TypeView::Variable(variable) => {},
    }
}

/// Where a substitution gives a variable what it makes of a replacement,
/// it makes the same of a type before and after the variable is replaced.
pub proof fn lemma_substitute_replaced(
    type_: TypeView,
    id: usize,
    replacement: TypeView,
    substitution: Substitution,
)
    requires
        TypeView::Variable(id).substitute(substitution) == replacement.substitute(substitution),
    ensures
        type_.substitute(single(id, replacement)).substitute(substitution) == type_.substitute(
            substitution,
        ),
    decreases type_,
{
    match type_ {
        TypeView::Function { arguments, result } => {
            let before = type_.substitute(substitution)->arguments;
            let after = type_.substitute(single(id, replacement)).substitute(
                substitution,
            )->arguments;
            assert forall|i: int| 0 <= i < arguments.len() implies after[i] == before[i] by {
                lemma_substitute_replaced(arguments[i], id, replacement, substitution);
            }
            assert(after =~= before);
        },
        TypeView::Value(_) => {},
        TypeView::Variable(variable) => {},
    }
}

/// What a substitution makes of a type is no smaller than what it makes of a
/// variable of the type, and larger where the type is a function type.
pub proof fn lemma_occurs_size(type_: TypeView, id: usize, substitution: Substitution)
    requires
        type_.variables().contains(id),
    ensures
        TypeView::Variable(id).substitute(substitution).size() <= type_.substitute(
            substitution,
        ).size(),
        type_ is Function ==> TypeView::Variable(id).substitute(substitution).size()
            < type_.substitute(substitution).size(),
    decreases type_,
{
    match type_ {
        TypeView::Function { arguments, result } => {
            let i = choose|i: int|
                0 <= i < arguments.len() && (#[trigger] arguments[i]).variables().contains(id);
            lemma_occurs_size(arguments[i], id, substitution);
            let substituted = type_.substitute(substitution)->arguments;
            assert(substituted[i] == arguments[i].substitute(substitution));
            lemma_sizes_bound(substituted, substituted.len() as int, i);
        },
        TypeView::Value(_) => {},
        TypeView::Variable(variable) => {},
    }
}

impl Type {
    /// Whether the variable occurs in the type.
    pub fn contains_variable(&self, id: usize) -> (result: bool)
        ensures
            result == self@.variables().contains(id),
        decreases self, 0nat,
    {
        match self {
            Type::Function(function) => {
                proof {
                    lemma_function_view(*function);
                }
                any_contains_variable(&function.arguments, id)
            },
            Type::Value(_) => false,
            Type::Variable(variable) => variable.id == id,
        }
    }

    /// The type with the variable replaced by the given type.
    pub fn replace_variable(&self, id: usize, replacement: &Type) -> (result: Self)
        ensures
            result@ == self@.substitute(single(id, replacement@)),
        decreases self, 0nat,
    {
        match self {
            Type::Function(function) => {
                let result = Function {
                    arguments: replace_variable_in_all(&function.arguments, id, replacement),
                    result: function.result,
                };
                proof {
                    lemma_function_view(result);
                    lemma_function_view(*function);
                    assert(result@->arguments =~= self@.substitute(
                        single(id, replacement@),
                    )->arguments);
                }
                Type::Function(result)
            },
            Type::Value(value) => Type::Value(*value),
            Type::Variable(variable) => if variable.id == id {
                replacement.duplicate()
            } else {
                Type::Variable(variable.clone())
            },
        }
    }
}

/// Whether the variable occurs in any of the types.
pub fn any_contains_variable(types: &Vec<Type>, id: usize) -> (result: bool)
    ensures
        result == exists|i: int|
            0 <= i < types.len() && (#[trigger] type_views(types@)[i]).variables().contains(id),
    decreases types, 1nat,
{
    let mut index: usize = 0;
    while index < types.len()
        invariant
            index <= types.len(),
            forall|i: int|
                0 <= i < index ==> !(#[trigger] type_views(types@)[i]).variables().contains(id),
        decreases types.len() - index,
    {
        if types[index].contains_variable(id) {
            assert(type_views(types@)[index as int].variables().contains(id));
            return true;
        }
        index += 1;
    }
    false
}

/// The given types with the variable replaced in each.
pub fn replace_variable_in_all(types: &Vec<Type>, id: usize, replacement: &Type) -> (result: Vec<
    Type,
>)
    ensures
        result.len() == types.len(),
        forall|i: int|
            0 <= i < types.len() ==> (#[trigger] result[i])@ == types[i]@.substitute(
                single(id, replacement@),
            ),
    decreases types, 1nat,
{
    let mut result: Vec<Type> = Vec::new();
    let mut index: usize = 0;
    while index < types.len()
        invariant
            index <= types.len(),
            result.len() == index,
            forall|i: int|
                0 <= i < index ==> (#[trigger] result[i])@ == types[i]@.substitute(
                    single(id, replacement@),
                ),
        decreases types.len() - index,
    {
        result.push(types[index].replace_variable(id, replacement));
        index += 1;
    }
    result
}

} // verus!
