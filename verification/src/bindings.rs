//! A mapping from names to values, kept in the order in which the names first appeared.

use vstd::prelude::*;
use crate::token::{LiteralType, Value};

verus! {

/// Names and the values bound to them. No name occurs twice.
#[derive(Debug)]
pub struct Bindings {
    names: Vec<String>,
    values: Vec<LiteralType>,
}

/// The mapping that a list of names and a list of values stand for; of two equal names
/// the later one counts.
pub open spec fn mapping_of(names: Seq<String>, values: Seq<LiteralType>) -> Map<Seq<char>, Value>
    decreases names.len(),
{
    if names.len() == 0 || values.len() != names.len() {
        Map::empty()
    } else {
        mapping_of(names.drop_last(), values.drop_last()).insert(names.last()@, values.last()@)
    }
}

/// The keys of the mapping are the names in the list.
pub proof fn lemma_mapping_keys(names: Seq<String>, values: Seq<LiteralType>, key: Seq<char>)
    requires
        names.len() == values.len(),
    ensures
        mapping_of(names, values).contains_key(key) <==> exists|i: int|
            0 <= i < names.len() && (#[trigger] names[i])@ == key,
    decreases names.len(),
{
    if names.len() > 0 {
        lemma_mapping_keys(names.drop_last(), values.drop_last(), key);
        if mapping_of(names, values).contains_key(key) {
            if names.last()@ == key {
                assert(names[names.len() - 1]@ == key);
            } else {
                let i = choose|i: int|
                    0 <= i < names.drop_last().len() && (#[trigger] names.drop_last()[i])@ == key;
                assert(names[i]@ == key);
            }
        }
        if exists|i: int| 0 <= i < names.len() && (#[trigger] names[i])@ == key {
            let i = choose|i: int| 0 <= i < names.len() && (#[trigger] names[i])@ == key;
            if i < names.len() - 1 {
                assert(names.drop_last()[i]@ == key);
            }
        }
    }
}

/// Where no name occurs twice, a name is mapped to the value at its own position.
pub proof fn lemma_mapping_at(names: Seq<String>, values: Seq<LiteralType>, i: int)
    requires
        names.len() == values.len(),
        0 <= i < names.len(),
        forall|a: int, b: int|
            0 <= a < b < names.len() ==> (#[trigger] names[a])@ != (#[trigger] names[b])@,
    ensures
        mapping_of(names, values).contains_key(names[i]@),
        mapping_of(names, values)[names[i]@] == values[i]@,
    decreases names.len(),
{
    if i < names.len() - 1 {
        lemma_mapping_at(names.drop_last(), values.drop_last(), i);
        assert(names[i]@ != names[names.len() - 1]@);
    }
}

/// Replacing the value at one position rebinds that position's name and nothing else.
pub proof fn lemma_mapping_update(
    names: Seq<String>,
    values: Seq<LiteralType>,
    i: int,
    value: LiteralType,
)
    requires
        names.len() == values.len(),
        0 <= i < names.len(),
        forall|a: int, b: int|
            0 <= a < b < names.len() ==> (#[trigger] names[a])@ != (#[trigger] names[b])@,
    ensures
        mapping_of(names, values.update(i, value)) == mapping_of(names, values).insert(
            names[i]@,
            value@,
        ),
    decreases names.len(),
{
    let updated = values.update(i, value);
    if i < names.len() - 1 {
        lemma_mapping_update(names.drop_last(), values.drop_last(), i, value);
        assert(updated.drop_last() =~= values.drop_last().update(i, value));
        assert(names[i]@ != names[names.len() - 1]@);
        assert(mapping_of(names, updated) =~= mapping_of(names, values).insert(names[i]@, value@));
    } else {
        assert(updated.drop_last() =~= values.drop_last());
        assert(mapping_of(names, updated) =~= mapping_of(names, values).insert(names[i]@, value@));
    }
}

impl View for Bindings {
    type V = Map<Seq<char>, Value>;

    closed spec fn view(&self) -> Map<Seq<char>, Value> {
        mapping_of(self.names@, self.values@)
    }
}

impl Bindings {
    /// Names and values pair up, and no name occurs twice.
    pub closed spec fn wf(&self) -> bool {
        &&& self.names@.len() == self.values@.len()
        &&& forall|a: int, b: int|
            0 <= a < b < self.names@.len() ==> (#[trigger] self.names@[a])@ != (
            #[trigger] self.names@[b])@
    }

    pub fn new() -> (bindings: Self)
        ensures
            bindings.wf(),
            bindings@ == Map::<Seq<char>, Value>::empty(),
    {
        Bindings { names: Vec::new(), values: Vec::new() }
    }

    /// The position of a name, if it is bound.
    fn position(&self, name: &String) -> (found: Option<usize>)
        requires
            self.wf(),
        ensures
            match found {
                Some(i) => i < self.names@.len() && self.names@[i as int]@ == name@,
                None => forall|i: int| 0 <= i < self.names@.len() ==> self.names@[i]@ != name@,
            },
    {
        let mut i: usize = 0;
        while i < self.names.len()
            invariant
                i <= self.names@.len(),
                forall|j: int| 0 <= j < i ==> self.names@[j]@ != name@,
            decreases self.names@.len() - i,
        {
            if self.names[i] == *name {
                return Some(i);
            }
            i += 1;
        }
        None
    }

    /// Whether a name is bound.
    pub fn contains(&self, name: &String) -> (found: bool)
        requires
            self.wf(),
        ensures
            found == self@.contains_key(name@),
    {
        proof {
            lemma_mapping_keys(self.names@, self.values@, name@);
        }
        self.position(name).is_some()
    }

    /// A copy of the value bound to a name.
    pub fn get(&self, name: &String) -> (found: Option<LiteralType>)
        requires
            self.wf(),
        ensures
            match found {
                Some(value) => self@.contains_key(name@) && self@[name@] == value@,
                None => !self@.contains_key(name@),
            },
    {
        proof {
            lemma_mapping_keys(self.names@, self.values@, name@);
        }
        match self.position(name) {
            Some(i) => {
                proof {
                    lemma_mapping_at(self.names@, self.values@, i as int);
                }
                Some(self.values[i].duplicate())
            },
            None => None,
        }
    }

    /// Binds a name to a value, replacing what it was bound to before.
    pub fn insert(&mut self, name: String, value: LiteralType)
        requires
            old(self).wf(),
        ensures
            final(self).wf(),
            final(self)@ == old(self)@.insert(name@, value@),
    {
        match self.position(&name) {
            Some(i) => {
                proof {
                    lemma_mapping_update(self.names@, self.values@, i as int, value);
                }
                self.values[i] = value;
            },
            None => {
                let ghost names = self.names@;
                let ghost values = self.values@;
                self.names.push(name);
                self.values.push(value);
                assert(self.names@.drop_last() =~= names);
                assert(self.values@.drop_last() =~= values);
            },
        }
    }
}

} // verus!
