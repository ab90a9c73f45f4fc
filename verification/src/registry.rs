//! The component types of a profile, each under its type name.

use crate::failure::Failure;
use crate::interner::{distinct, has_name, names_view};
use vstd::prelude::*;

verus! {

/// The type names that were registered, in the order of registration. No
/// name is registered twice.
pub struct Registry {
    names: Vec<String>,
}

impl View for Registry {
    type V = Seq<Seq<char>>;

    closed spec fn view(&self) -> Seq<Seq<char>> {
        names_view(self.names@)
    }
}

impl Registry {
    /// No name is held twice.
    pub open spec fn wf(&self) -> bool {
        distinct(self@)
    }

    pub fn new() -> (r: Self)
        ensures
            r.wf(),
            r@ == Seq::<Seq<char>>::empty(),
    {
        let r = Registry { names: Vec::new() };
        assert(r@ =~= Seq::<Seq<char>>::empty());
        r
    }

    /// Whether a type of that name is registered.
    pub fn contains(&self, name: &String) -> (r: bool)
        ensures
            r == has_name(self@, name@),
    {
        let mut i: usize = 0;
        while i < self.names.len()
            invariant
                i <= self.names@.len(),
                forall|j: int| 0 <= j < i ==> self@[j] != name@,
            decreases self.names@.len() - i,
        {
            let same = self.names[i] == *name;
            assert(same == (self@[i as int] == name@));
            if same {
                return true;
            }
            i += 1;
        }
        false
    }

    /// Registers a type under its name. A name that is taken is refused.
    pub fn register(&mut self, name: String) -> (r: Result<(), Failure>)
        requires
            old(self).wf(),
        ensures
            final(self).wf(),
            match r {
                Ok(()) => !has_name(old(self)@, name@) && final(self)@ == old(self)@.push(name@),
                Err(e) => e == Failure::DuplicateTypeName && has_name(old(self)@, name@)
                    && final(self)@ == old(self)@,
            },
    {
        if self.contains(&name) {
            return Err(Failure::DuplicateTypeName);
        }
        let ghost n = name@;
        self.names.push(name);
        assert(self@ =~= old(self)@.push(n));
        Ok(())
    }

    /// The registered names, in the order of registration.
    pub fn names(&self) -> (r: &Vec<String>)
        ensures
            names_view(r@) == self@,
    {
        &self.names
    }
}

} // verus!
