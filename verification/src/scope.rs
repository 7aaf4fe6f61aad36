//! Logical scope used for looking up variable names during
//! compilation.  Names may shadow each other; lookup returns the most
//! recent binding.  A monotone counter assigns each binding a slot
//! index that is unique within the enclosing function.

use vstd::prelude::*;
use crate::id::TypeId;

verus! {

pub struct Scope {
    values: Vec<(String, TypeId, u16)>,
    /// How many bindings have ever been pushed into this scope.
    counter: u16,
}

/// One lookup step: the innermost binding whose name matches.
pub open spec fn scope_lookup(s: Seq<(Seq<char>, TypeId, u16)>, name: Seq<char>) -> Option<(TypeId, u16)>
    decreases s.len(),
{
    if s.len() == 0 {
        None
    } else if s.last().0 == name {
        Some((s.last().1, s.last().2))
    } else {
        scope_lookup(s.drop_last(), name)
    }
}

impl Scope {
    /// The bindings, innermost last: name, type and slot index.
    pub closed spec fn entries(self) -> Seq<(Seq<char>, TypeId, u16)> {
        Seq::new(self.values@.len(), |i: int| (self.values@[i].0@, self.values@[i].1, self.values@[i].2))
    }

    pub closed spec fn spec_counter(self) -> u16 {
        self.counter
    }

    /// Slots are assigned by the counter, so they grow strictly along
    /// the stack and stay below the counter.
    pub open spec fn wf(self) -> bool {
        &&& forall|i: int| 0 <= i < self.entries().len() ==> #[trigger] self.entries()[i].2 < self.spec_counter()
        &&& forall|i: int, j: int|
            0 <= i < j < self.entries().len() ==> #[trigger] self.entries()[i].2 < #[trigger] self.entries()[j].2
    }

    pub fn new() -> (r: Scope)
        ensures
            r.entries() =~= Seq::<(Seq<char>, TypeId, u16)>::empty(),
            r.spec_counter() == 0,
            r.wf(),
    {
        Scope { values: Vec::new(), counter: 0 }
    }

    /// The innermost binding of `name`, with its type and slot.
    pub fn get(&self, name: &String) -> (r: Option<(TypeId, u16)>)
        ensures
            r == scope_lookup(self.entries(), name@),
    {
        let n = self.values.len();
        proof {
            assert(self.entries().take(n as int) =~= self.entries());
        }
        let mut i: usize = n;
        while i > 0
            invariant
                n == self.values@.len(),
                i <= n,
                scope_lookup(self.entries(), name@) == scope_lookup(self.entries().take(i as int), name@),
            decreases i,
        {
            i -= 1;
            let e = &self.values[i];
            proof {
                assert(self.entries().take(i + 1).last() == self.entries()[i as int]);
                assert(self.entries().take(i + 1).drop_last() =~= self.entries().take(i as int));
            }
            if e.0 == *name {
                return Some((e.1, e.2));
            }
        }
        proof {
            assert(self.entries().take(0) =~= Seq::<(Seq<char>, TypeId, u16)>::empty());
        }
        None
    }

    /// Push a binding; its slot index is returned.
    pub fn push(&mut self, name: String, ty: TypeId) -> (r: u16)
        requires
            old(self).spec_counter() < u16::MAX,
        ensures
            r == old(self).spec_counter(),
            final(self).spec_counter() == old(self).spec_counter() + 1,
            final(self).entries() =~= old(self).entries().push((name@, ty, r)),
            old(self).wf() ==> final(self).wf(),
    {
        let index = self.counter;
        self.counter = self.counter + 1;
        self.values.push((name, ty, index));
        index
    }

    /// Pop the most recent binding.  Popping an empty scope is a
    /// programming error, so the scope must be non-empty.
    pub fn pop(&mut self) -> (r: (TypeId, u16))
        requires
            old(self).entries().len() > 0,
        ensures
            r == (old(self).entries().last().1, old(self).entries().last().2),
            final(self).entries() =~= old(self).entries().drop_last(),
            final(self).spec_counter() == old(self).spec_counter(),
            old(self).wf() ==> final(self).wf(),
    {
        proof {
            assert(old(self).entries().last() == (
                old(self).values@.last().0@,
                old(self).values@.last().1,
                old(self).values@.last().2,
            ));
        }
        let (_, a, b) = self.values.pop().unwrap();
        proof {
            assert(self.entries() =~= old(self).entries().drop_last());
        }
        (a, b)
    }


    /// How many bindings have ever been pushed.
    pub fn counter(&self) -> (r: u16)
        ensures
            r == self.spec_counter(),
    {
        self.counter
    }

    /// Number of bindings currently in scope.
    pub fn len(&self) -> (r: usize)
        ensures
            r == self.entries().len(),
    {
        self.values.len()
    }
}

} // verus!
