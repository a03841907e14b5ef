//! Names of variables and functions, and lists of them.

use vstd::prelude::*;
use vstd::string::StringSliceAdditionalSpecFns;
use vstd::utf8::{encode_utf8, encode_utf8_decode_utf8};

verus! {

/// The mathematical value of a name.
pub type Name = Seq<char>;

/// The mathematical values of a sequence of names.
pub open spec fn name_views(names: Seq<String>) -> Seq<Name> {
    Seq::new(names.len(), |i: int| names[i]@)
}

/// Copies of the given names, in order.
pub fn clone_names(names: &Vec<String>) -> (result: Vec<String>)
    ensures
        name_views(result@) == name_views(names@),
{
    let mut result: Vec<String> = Vec::new();
    let mut index: usize = 0;
    while index < names.len()
        invariant
            index <= names.len(),
            result.len() == index,
            forall|i: int| 0 <= i < index ==> result[i]@ == names[i]@,
        decreases names.len() - index,
    {
        result.push(names[index].clone());
        index += 1;
    }
    assert(name_views(result@) =~= name_views(names@));
    result
}

/// Whether the name occurs among the given names.
pub fn contains_name(names: &Vec<String>, name: &String) -> (result: bool)
    ensures
        result == name_views(names@).contains(name@),
{
    let mut index: usize = 0;
    while index < names.len()
        invariant
            index <= names.len(),
            forall|i: int| 0 <= i < index ==> name_views(names@)[i] != name@,
        decreases names.len() - index,
    {
        if names[index] == *name {
            assert(name_views(names@)[index as int] == name@);
            return true;
        }
        index += 1;
    }
    false
}

/// Whether `first` and `second` agree before place `place` and `first` comes
/// before `second` by what is at that place: `first` ends there and `second`
/// does not, or `first` has the smaller byte there.
pub open spec fn differ_at(first: Seq<u8>, second: Seq<u8>, place: int) -> bool {
    &&& 0 <= place <= first.len()
    &&& place < second.len()
    &&& first.take(place) == second.take(place)
    &&& place == first.len() || first[place] < second[place]
}

/// Whether `first` comes before `second` in the order of dictionaries.
pub open spec fn bytes_before(first: Seq<u8>, second: Seq<u8>) -> bool {
    exists|place: int| differ_at(first, second, place)
}

/// Whether name `first` comes before name `second`: names are ordered as
/// their UTF-8 encodings are, byte by byte.
pub open spec fn name_before(first: Name, second: Name) -> bool {
    bytes_before(encode_utf8(first), encode_utf8(second))
}

/// Whether every name comes before the names after it.
pub open spec fn strictly_sorted(names: Seq<Name>) -> bool {
    forall|i: int, j: int|
        0 <= i < j < names.len() ==> name_before(#[trigger] names[i], #[trigger] names[j])
}

/// Where two sequences agree before a place and do not both go on alike at
/// that place, the place decides their order.
pub proof fn lemma_decisive_place(first: Seq<u8>, second: Seq<u8>, place: int)
    requires
        0 <= place <= first.len(),
        place <= second.len(),
        first.take(place) == second.take(place),
        place == first.len() || place == second.len() || first[place] != second[place],
    ensures
        bytes_before(first, second) == differ_at(first, second, place),
{
    if bytes_before(first, second) {
        let other = choose|other: int| differ_at(first, second, other);
        assert(differ_at(first, second, other));
        if other < place {
            assert(first.take(place)[other] == first[other]);
            assert(second.take(place)[other] == second[other]);
            assert(false);
        } else if other > place {
            assert(first.take(other)[place] == first[place]);
            assert(second.take(other)[place] == second[place]);
            assert(false);
        }
        assert(differ_at(first, second, place));
    }
    if differ_at(first, second, place) {
        assert(bytes_before(first, second));
    }
}

/// No sequence comes before itself.
pub proof fn lemma_before_irreflexive(bytes: Seq<u8>)
    ensures
        !bytes_before(bytes, bytes),
{
    lemma_decisive_place(bytes, bytes, bytes.len() as int);
}

/// The order is transitive.
pub proof fn lemma_before_transitive(first: Seq<u8>, second: Seq<u8>, third: Seq<u8>)
    requires
        bytes_before(first, second),
        bytes_before(second, third),
    ensures
        bytes_before(first, third),
{
    let low = choose|place: int| differ_at(first, second, place);
    let high = choose|place: int| differ_at(second, third, place);
    let place = if low <= high {
        low
    } else {
        high
    };
    assert(first.take(place) =~= first.take(low).take(place));
    assert(second.take(place) =~= second.take(low).take(place));
    assert(second.take(place) =~= second.take(high).take(place));
    assert(third.take(place) =~= third.take(high).take(place));
    if low < high {
        assert(second.take(high)[low] == third.take(high)[low]);
    } else if high < low {
        assert(first.take(low)[high] == second.take(low)[high]);
    }
    assert(differ_at(first, third, place));
}

/// Of two different sequences one comes before the other.
pub proof fn lemma_before_total(first: Seq<u8>, second: Seq<u8>, place: int)
    requires
        first != second,
        0 <= place <= first.len(),
        place <= second.len(),
        first.take(place) == second.take(place),
    ensures
        bytes_before(first, second) || bytes_before(second, first),
    decreases first.len() - place,
{
    if place == first.len() {
        if place == second.len() {
            assert(first.take(place) =~= first);
            assert(second.take(place) =~= second);
        } else {
            assert(differ_at(first, second, place));
        }
    } else if place == second.len() {
        assert(differ_at(second, first, place));
    } else if first[place] < second[place] {
        assert(differ_at(first, second, place));
    } else if second[place] < first[place] {
        assert(differ_at(second, first, place));
    } else {
        assert(first.take(place + 1) =~= first.take(place).push(first[place]));
        assert(second.take(place + 1) =~= second.take(place).push(second[place]));
        lemma_before_total(first, second, place + 1);
    }
}

/// The order of names is a strict total order.
pub proof fn lemma_name_order(first: Name, second: Name, third: Name)
    ensures
        !name_before(first, first),
        name_before(first, second) && name_before(second, third) ==> name_before(first, third),
        first != second ==> name_before(first, second) || name_before(second, first),
        !(name_before(first, second) && name_before(second, first)),
{
    lemma_before_irreflexive(encode_utf8(first));
    if name_before(first, second) && name_before(second, third) {
        lemma_before_transitive(encode_utf8(first), encode_utf8(second), encode_utf8(third));
    }
    if first != second {
        encode_utf8_decode_utf8(first);
        encode_utf8_decode_utf8(second);
        assert(encode_utf8(first).take(0) =~= encode_utf8(second).take(0));
        lemma_before_total(encode_utf8(first), encode_utf8(second), 0);
    }
    if name_before(first, second) && name_before(second, first) {
        lemma_before_transitive(encode_utf8(first), encode_utf8(second), encode_utf8(first));
    }
}

/// Whether name `first` comes before name `second`.
pub fn is_before(first: &String, second: &String) -> (result: bool)
    ensures
        result == name_before(first@, second@),
{
    let left = first.as_str().as_bytes();
    let right = second.as_str().as_bytes();
    let mut index: usize = 0;
    assert(left@.take(0) =~= right@.take(0));
    while index < left.len() && index < right.len()
        invariant
            index <= left.len(),
            index <= right.len(),
            left@ == encode_utf8(first@),
            right@ == encode_utf8(second@),
            left@.take(index as int) == right@.take(index as int),
        decreases left.len() - index,
    {
        if left[index] != right[index] {
            proof {
                lemma_decisive_place(left@, right@, index as int);
            }
            return left[index] < right[index];
        }
        proof {
            assert(left@.take(index + 1) =~= left@.take(index as int).push(left@[index as int]));
            assert(right@.take(index + 1) =~= right@.take(index as int).push(
                right@[index as int],
            ));
        }
        index += 1;
    }
    proof {
        lemma_decisive_place(left@, right@, index as int);
    }
    index < right.len()
}

/// Two sorted lists of the same names are the same list.
pub proof fn lemma_sorted_unique(first: Seq<Name>, second: Seq<Name>)
    requires
        strictly_sorted(first),
        strictly_sorted(second),
        first.to_set() == second.to_set(),
    ensures
        first == second,
    decreases first.len(),
{
    if first.len() == 0 {
        if second.len() > 0 {
            assert(second.to_set().contains(second[0]));
            assert(first.contains(second[0]));
        }
        assert(first =~= second);
    } else {
        assert(first.to_set().contains(first[0]));
        assert(second.contains(first[0]));
        assert(second.to_set().contains(second[0]));
        assert(first.contains(second[0]));
        let i = choose|i: int| 0 <= i < second.len() && second[i] == first[0];
        let j = choose|j: int| 0 <= j < first.len() && first[j] == second[0];
        lemma_name_order(first[0], second[0], first[0]);
        assert(first[0] == second[0]) by {
            if i > 0 && j > 0 {
                assert(name_before(second[0], second[i]));
                assert(name_before(first[0], first[j]));
            }
        }
        let first_rest = first.skip(1);
        let second_rest = second.skip(1);
        assert(strictly_sorted(first_rest)) by {
            assert forall|a: int, b: int| 0 <= a < b < first_rest.len() implies name_before(
                #[trigger] first_rest[a],
                #[trigger] first_rest[b],
            ) by {
                assert(name_before(first[a + 1], first[b + 1]));
            }
        }
        assert(strictly_sorted(second_rest)) by {
            assert forall|a: int, b: int| 0 <= a < b < second_rest.len() implies name_before(
                #[trigger] second_rest[a],
                #[trigger] second_rest[b],
            ) by {
                assert(name_before(second[a + 1], second[b + 1]));
            }
        }
        assert(first_rest.to_set() =~= second_rest.to_set()) by {
            assert forall|name: Name| first_rest.to_set().contains(name)
                == second_rest.to_set().contains(name) by {
                lemma_skip_contains(first, name);
                lemma_skip_contains(second, name);
                assert(first.to_set().contains(name) == second.to_set().contains(name));
            }
        }
        lemma_sorted_unique(first_rest, second_rest);
        assert(first =~= seq![first[0]] + first_rest);
        assert(second =~= seq![second[0]] + second_rest);
    }
}

/// The names after the first of a sorted list are the names of the list but
/// the first.
pub proof fn lemma_skip_contains(names: Seq<Name>, name: Name)
    requires
        strictly_sorted(names),
        names.len() > 0,
    ensures
        names.skip(1).to_set().contains(name) == (names.to_set().contains(name) && name
            != names[0]),
{
    let rest = names.skip(1);
    if rest.to_set().contains(name) {
        let i = choose|i: int| 0 <= i < rest.len() && rest[i] == name;
        assert(names[i + 1] == name);
        assert(name_before(names[0], names[i + 1]));
        lemma_name_order(names[0], names[0], names[0]);
        assert(names.contains(name));
    }
    if names.to_set().contains(name) && name != names[0] {
        let i = choose|i: int| 0 <= i < names.len() && names[i] == name;
        assert(rest[i - 1] == name);
        assert(rest.contains(name));
    }
}

/// Puts the name at its place in a sorted list, unless the list holds it.
pub fn insert_sorted(names: &mut Vec<String>, name: String)
    requires
        strictly_sorted(name_views(old(names)@)),
    ensures
        strictly_sorted(name_views(final(names)@)),
        name_views(final(names)@).to_set() == name_views(old(names)@).to_set().insert(name@),
{
    let ghost before = name_views(names@);
    let mut index: usize = 0;
    while index < names.len() && is_before(&names[index], &name)
        invariant
            index <= names.len(),
            names@ == old(names)@,
            before == name_views(names@),
            forall|i: int| 0 <= i < index ==> name_before(#[trigger] before[i], name@),
        decreases names.len() - index,
    {
        index += 1;
    }
    if index < names.len() && names[index] == name {
        assert(before[index as int] == name@);
        assert(before.contains(name@));
        assert(before.to_set().insert(name@) =~= before.to_set());
        return ;
    }
    proof {
        assert forall|j: int| index <= j < before.len() implies name_before(
            name@,
            #[trigger] before[j],
        ) by {
            lemma_name_order(name@, before[index as int], before[j]);
            if j > index {
                assert(name_before(before[index as int], before[j]));
            }
        }
    }
    names.insert(index, name);
    proof {
        let after = name_views(names@);
        assert(after =~= before.insert(index as int, name@));
        assert forall|i: int, j: int| 0 <= i < j < after.len() implies name_before(
            #[trigger] after[i],
            #[trigger] after[j],
        ) by {
            if j < index {
                assert(name_before(before[i], before[j]));
            } else if j == index {
                assert(name_before(before[i], name@));
            } else if i < index {
                assert(name_before(before[i], before[j - 1]));
            } else if i == index {
                assert(name_before(name@, before[j - 1]));
            } else {
                assert(name_before(before[i - 1], before[j - 1]));
            }
        }
        assert(after.to_set() =~= before.to_set().insert(name@)) by {
            assert forall|other: Name| after.to_set().contains(other) == before.to_set().insert(
                name@,
            ).contains(other) by {
                if after.contains(other) {
                    let i = choose|i: int| 0 <= i < after.len() && after[i] == other;
                    if i < index {
                        assert(before[i] == other);
                    } else if i > index {
                        assert(before[i - 1] == other);
                    }
                }
                if before.contains(other) {
                    let i = choose|i: int| 0 <= i < before.len() && before[i] == other;
                    if i < index {
                        assert(after[i] == other);
                    } else {
                        assert(after[i + 1] == other);
                    }
                }
                if other == name@ {
                    assert(after[index as int] == other);
                }
            }
        }
    }
}

} // verus!
