//! The variable table: which identifier stands for which number.

use vstd::prelude::*;

verus! {

/// A finite mapping from identifiers, as byte strings, to numbers.
///
/// The bindings are kept in the order in which their identifiers were first
/// bound, and no identifier is kept twice.
pub struct VariableTable {
    names: Vec<Vec<u8>>,
    values: Vec<i32>,
}

impl View for VariableTable {
    type V = Map<Seq<u8>, i32>;

    /// The mapping that the table holds.
    closed spec fn view(&self) -> Map<Seq<u8>, i32> {
        Map::new(|name: Seq<u8>| self.binds(name), |name: Seq<u8>| self.values[self.position(name)])
    }
}

/// Tells whether two byte strings are the same.
pub fn same_bytes(a: &[u8], b: &[u8]) -> (r: bool)
    ensures
        r == (a@ == b@),
{
    if a.len() != b.len() {
        return false;
    }
    let mut i: usize = 0;
    while i < a.len()
        invariant
            a.len() == b.len(),
            i <= a.len(),
            a@.take(i as int) == b@.take(i as int),
        decreases a.len() - i,
    {
        if a[i] != b[i] {
            return false;
        }
        proof {
            assert(a@.take(i + 1) =~= a@.take(i as int).push(a@[i as int]));
            assert(b@.take(i + 1) =~= b@.take(i as int).push(b@[i as int]));
        }
        i += 1;
    }
    proof {
        assert(a@.take(i as int) =~= a@);
        assert(b@.take(i as int) =~= b@);
    }
    true
}

impl VariableTable {
    #[verifier::type_invariant]
    spec fn well_formed(&self) -> bool {
        &&& self.names.len() == self.values.len()
        &&& forall|i: int, j: int|
            0 <= i < j < self.names.len() ==> (#[trigger] self.names[i])@ != (
            #[trigger] self.names[j])@
    }

    spec fn held_at(&self, name: Seq<u8>, i: int) -> bool {
        0 <= i < self.names.len() && self.names[i]@ == name
    }

    spec fn binds(&self, name: Seq<u8>) -> bool {
        exists|i: int| self.held_at(name, i)
    }

    spec fn position(&self, name: Seq<u8>) -> int {
        choose|i: int| self.held_at(name, i)
    }

    /// A table that binds nothing.
    pub fn new() -> (table: Self)
        ensures
            table@ == Map::<Seq<u8>, i32>::empty(),
    {
        let table = VariableTable { names: Vec::new(), values: Vec::new() };
        proof {
            assert forall|name: Seq<u8>| !table.binds(name) by {
                assert forall|i: int| !table.held_at(name, i) by {}
            }
            assert(table@ =~= Map::<Seq<u8>, i32>::empty());
        }
        table
    }

    /// Where the table keeps `name`, if it binds it.
    fn find(&self, name: &[u8]) -> (found: Option<usize>)
        ensures
            match found {
                Some(i) => self.held_at(name@, i as int),
                None => !self.binds(name@),
            },
    {
        let mut i: usize = 0;
        while i < self.names.len()
            invariant
                i <= self.names.len(),
                forall|j: int| 0 <= j < i ==> !self.held_at(name@, j),
            decreases self.names.len() - i,
        {
            if same_bytes(self.names[i].as_slice(), name) {
                return Some(i);
            }
            i += 1;
        }
        None
    }

    /// The number that `name` stands for, if the table binds it.
    pub fn lookup(&self, name: &[u8]) -> (found: Option<i32>)
        ensures
            found == if self@.contains_key(name@) {
                Some(self@[name@])
            } else {
                None
            },
    {
        proof {
            use_type_invariant(self);
        }
        match self.find(name) {
            Some(i) => {
                proof {
                    let p = self.position(name@);
                    assert(self.held_at(name@, p));
                    assert(p == i);
                }
                Some(self.values[i])
            },
            None => None,
        }
    }

    /// Binds `name` to `value`, in place of what it was bound to before.
    pub fn bind(&mut self, name: Vec<u8>, value: i32)
        ensures
            final(self)@ == old(self)@.insert(name@, value),
    {
        proof {
            use_type_invariant(&*self);
        }
        let ghost before = *self;
        let ghost key = name@;
        let found = self.find(name.as_slice());
        let mut taken = VariableTable::new();
        core::mem::swap(self, &mut taken);
        let VariableTable { mut names, mut values } = taken;
        match found {
            Some(i) => {
                values.set(i, value);
            },
            None => {
                names.push(name);
                values.push(value);
            },
        }
        proof {
            let n = before.names.len() as int;
            assert forall|i: int, j: int| 0 <= i < j < names.len() implies (#[trigger] names[i])@
                != (#[trigger] names[j])@ by {
                if j == n {
                    assert(!before.held_at(key, i));
                } else {
                    assert(names[i] == before.names[i] && names[j] == before.names[j]);
                }
            }
        }
        let after = VariableTable { names, values };
        proof {
            let n = before.names.len() as int;
            let at: int = match found {
                Some(i) => i as int,
                None => n,
            };
            assert(after.held_at(key, at));
            assert forall|other: Seq<u8>| after.binds(other) == (other == key || before.binds(
                other,
            )) by {
                if before.binds(other) {
                    assert(after.held_at(other, before.position(other)));
                }
                if after.binds(other) && other != key {
                    assert(before.held_at(other, after.position(other)));
                }
            }
            assert forall|other: Seq<u8>| after.binds(other) implies after@[other]
                == before@.insert(key, value)[other] by {
                let p = after.position(other);
                assert(after.held_at(other, p));
                if other == key {
                    assert(p == at);
                } else {
                    assert(before.held_at(other, p));
                    assert(before.held_at(other, before.position(other)));
                }
            }
            assert(after@ =~= before@.insert(key, value));
        }
        *self = after;
    }
}

} // verus!
