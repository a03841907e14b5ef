//! Scoped tables from names to values.
//!
//! A table is a stack of bindings. A later binding of a name hides an earlier
//! one, and cutting the stack back to an earlier length leaves the scope that
//! was entered since.

use crate::names::Name;
use vstd::prelude::*;

verus! {

/// The table that a stack of bindings stands for: each name is bound to the
/// value of its last binding.
pub open spec fn bindings_map<V>(bindings: Seq<(String, V)>) -> Map<Name, V>
    decreases bindings.len(),
{
    if bindings.len() == 0 {
        Map::empty()
    } else {
        bindings_map(bindings.drop_last()).insert(bindings.last().0@, bindings.last().1)
    }
}

pub struct Environment<V> {
    pub bindings: Vec<(String, V)>,
}

impl<V> View for Environment<V> {
    type V = Map<Name, V>;

    open spec fn view(&self) -> Map<Name, V> {
        bindings_map(self.bindings@)
    }
}

/// Binding one more name binds it in the table and leaves the rest.
pub proof fn lemma_bindings_push<V>(bindings: Seq<(String, V)>, name: String, value: V)
    ensures
        bindings_map(bindings.push((name, value))) == bindings_map(bindings).insert(name@, value),
{
    assert(bindings.push((name, value)).drop_last() =~= bindings);
}

impl<V> Environment<V> {
    pub fn new() -> (result: Self)
        ensures
            result.bindings@ == Seq::<(String, V)>::empty(),
            result@ == Map::<Name, V>::empty(),
    {
        Self { bindings: Vec::new() }
    }

    /// The number of bindings on the stack.
    pub fn len(&self) -> (result: usize)
        ensures
            result == self.bindings@.len(),
    {
        self.bindings.len()
    }

    /// Binds the name to the value, hiding any earlier binding of the name.
    pub fn insert(&mut self, name: String, value: V)
        ensures
            final(self).bindings@ == old(self).bindings@.push((name, value)),
            final(self)@ == old(self)@.insert(name@, value),
    {
        proof {
            lemma_bindings_push(self.bindings@, name, value);
        }
        self.bindings.push((name, value));
    }

    /// The value that the name is bound to, if it is bound.
    pub fn get(&self, name: &String) -> (result: Option<&V>)
        ensures
            match result {
                Some(value) => self@.contains_key(name@) && *value == self@[name@],
                None => !self@.contains_key(name@),
            },
    {
        let mut index: usize = self.bindings.len();
        assert(self.bindings@.take(index as int) =~= self.bindings@);
        while index > 0
            invariant
                index <= self.bindings.len(),
                self@.contains_key(name@) <==> bindings_map(
                    self.bindings@.take(index as int),
                ).contains_key(name@),
                self@.contains_key(name@) ==> self@[name@] == bindings_map(
                    self.bindings@.take(index as int),
                )[name@],
            decreases index,
        {
            index -= 1;
            proof {
                let prefix = self.bindings@.take(index + 1);
                assert(prefix.drop_last() =~= self.bindings@.take(index as int));
                assert(prefix.last() == self.bindings@[index as int]);
            }
            if self.bindings[index].0 == *name {
                return Some(&self.bindings[index].1);
            }
        }
        proof {
            assert(self.bindings@.take(0) =~= Seq::<(String, V)>::empty());
        }
        None
    }

    /// Cuts the stack back to the given length.
    pub fn truncate(&mut self, length: usize)
        requires
            length <= old(self).bindings@.len(),
        ensures
            final(self).bindings@ == old(self).bindings@.take(length as int),
    {
        self.bindings.truncate(length);
        assert(self.bindings@ =~= old(self).bindings@.take(length as int));
    }
}

} // verus!
