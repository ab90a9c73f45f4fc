//! The snapshot document: for each component type name, its records in order.

use crate::failure::Failure;
use crate::path::{PathedValue, Record};
use vstd::prelude::*;

verus! {

/// What a list of records stands for.
pub open spec fn records_view<V>(records: Seq<PathedValue<V>>) -> Seq<Record<V>> {
    records.map_values(|r: PathedValue<V>| r@)
}

/// The records of one component type.
#[derive(Debug)]
pub struct Group<V> {
    pub name: String,
    pub records: Vec<PathedValue<V>>,
}

impl<V> View for Group<V> {
    type V = (Seq<char>, Seq<Record<V>>);

    open spec fn view(&self) -> (Seq<char>, Seq<Record<V>>) {
        (self.name@, records_view(self.records@))
    }
}

/// What a list of groups stands for.
pub open spec fn groups_view<V>(groups: Seq<Group<V>>) -> Seq<(Seq<char>, Seq<Record<V>>)> {
    groups.map_values(|g: Group<V>| g@)
}

/// Whether the document's view holds a group of that name.
pub open spec fn has_group<V>(doc: Seq<(Seq<char>, Seq<Record<V>>)>, name: Seq<char>) -> bool {
    exists|i: int| 0 <= i < doc.len() && doc[i].0 == name
}

/// Whether no type name occurs twice.
pub open spec fn names_distinct<V>(doc: Seq<(Seq<char>, Seq<Record<V>>)>) -> bool {
    forall|i: int, j: int| 0 <= i < doc.len() && 0 <= j < doc.len() && i != j ==> doc[i].0 != doc[j].0
}

/// A document holds one group of a name at most.
pub proof fn lemma_group_is_unique<V>(doc: Seq<(Seq<char>, Seq<Record<V>>)>, i: int, j: int)
    requires
        names_distinct(doc),
        0 <= i < doc.len(),
        0 <= j < doc.len(),
        doc[i].0 == doc[j].0,
    ensures
        i == j,
{
}

/// A mapping from component type name to an ordered sequence of records.
///
/// The groups are kept in a list, in the order in which they came: the
/// verifier has no model of hashing for keys that hold text.
pub struct Document<V> {
    groups: Vec<Group<V>>,
}

impl<V> View for Document<V> {
    type V = Seq<(Seq<char>, Seq<Record<V>>)>;

    closed spec fn view(&self) -> Seq<(Seq<char>, Seq<Record<V>>)> {
        groups_view(self.groups@)
    }
}

impl<V> Document<V> {
    /// No type name occurs twice.
    pub open spec fn wf(&self) -> bool {
        names_distinct(self@)
    }

    pub fn new() -> (r: Self)
        ensures
            r.wf(),
            r@ == Seq::<(Seq<char>, Seq<Record<V>>)>::empty(),
    {
        let r = Document { groups: Vec::new() };
        assert(r@ =~= Seq::<(Seq<char>, Seq<Record<V>>)>::empty());
        r
    }

    fn position(&self, name: &String) -> (r: Option<usize>)
        ensures
            match r {
                Some(i) => i < self@.len() && self@[i as int].0 == name@,
                None => !has_group(self@, name@),
            },
    {
        let mut i: usize = 0;
        while i < self.groups.len()
            invariant
                i <= self.groups@.len(),
                self@.len() == self.groups@.len(),
                forall|j: int| 0 <= j < i ==> self@[j].0 != name@,
            decreases self.groups@.len() - i,
        {
            let same = self.groups[i].name == *name;
            assert(same == (self@[i as int].0 == name@));
            if same {
                return Some(i);
            }
            i += 1;
        }
        None
    }

    /// Whether a group of that name is held.
    pub fn contains(&self, name: &String) -> (r: bool)
        ensures
            r == has_group(self@, name@),
    {
        self.position(name).is_some()
    }

    /// Adds the group of a type. A type name that is already held is refused,
    /// and the document stays as it was.
    pub fn insert_group(&mut self, name: String, records: Vec<PathedValue<V>>) -> (r: Result<
        (),
        Failure,
    >)
        requires
            old(self).wf(),
        ensures
            final(self).wf(),
            match r {
                Ok(()) => !has_group(old(self)@, name@) && final(self)@ == old(self)@.push(
                    (name@, records_view(records@)),
                ),
                Err(e) => e == Failure::DuplicateTypeName && has_group(old(self)@, name@)
                    && final(self)@ == old(self)@,
            },
    {
        if self.position(&name).is_some() {
            return Err(Failure::DuplicateTypeName);
        }
        let ghost entry = (name@, records_view(records@));
        self.groups.push(Group { name, records });
        assert(self@ =~= old(self)@.push(entry));
        Ok(())
    }

    /// Takes the group of a type out of the document.
    pub fn take_group(&mut self, name: &String) -> (r: Option<Vec<PathedValue<V>>>)
        requires
            old(self).wf(),
        ensures
            final(self).wf(),
            match r {
                Some(records) => exists|i: int|
                    0 <= i < old(self)@.len() && #[trigger] old(self)@[i].0 == name@
                        && records_view(records@) == old(self)@[i].1 && final(self)@ == old(
                        self,
                    )@.remove(i),
                None => !has_group(old(self)@, name@) && final(self)@ == old(self)@,
            },
    {
        match self.position(name) {
            Some(i) => {
                let g = self.groups.remove(i);
                assert(self@ =~= old(self)@.remove(i as int));
                assert(old(self)@[i as int].0 == name@);
                Some(g.records)
            },
            None => None,
        }
    }

    /// The groups in the order in which they were added.
    pub fn groups(&self) -> (r: &Vec<Group<V>>)
        ensures
            groups_view(r@) == self@,
    {
        &self.groups
    }

    /// The groups, in the order in which they were added.
    pub fn into_groups(self) -> (r: Vec<Group<V>>)
        ensures
            groups_view(r@) == self@,
    {
        self.groups
    }

    /// A document of the given groups. A type name that occurs twice is refused.
    pub fn from_groups(groups: Vec<Group<V>>) -> (r: Result<Self, Failure>)
        ensures
            match r {
                Ok(doc) => doc.wf() && doc@ == groups_view(groups@),
                Err(e) => e == Failure::DuplicateTypeName && !names_distinct(groups_view(groups@)),
            },
    {
        let ghost view = groups_view(groups@);
        let doc = Document { groups };
        let mut i: usize = 0;
        while i < doc.groups.len()
            invariant
                doc@ == view,
                view == groups_view(groups@),
                i <= doc.groups@.len(),
                doc@.len() == doc.groups@.len(),
                forall|a: int, b: int| 0 <= a < i && 0 <= b < i && a != b ==> doc@[a].0 != doc@[b].0,
            decreases doc.groups@.len() - i,
        {
            let mut j: usize = 0;
            while j < i
                invariant
                    doc@ == view,
                    view == groups_view(groups@),
                    j <= i,
                    i < doc.groups@.len(),
                    doc@.len() == doc.groups@.len(),
                    forall|b: int| 0 <= b < j ==> doc@[b].0 != doc@[i as int].0,
                decreases i - j,
            {
                let same = doc.groups[j].name == doc.groups[i].name;
                assert(same == (doc@[j as int].0 == doc@[i as int].0));
                if same {
                    proof {
                        let a = j as int;
                        let b = i as int;
                        assert(0 <= a < view.len() && 0 <= b < view.len() && a != b && view[a].0
                            == view[b].0);
                    }
                    return Err(Failure::DuplicateTypeName);
                }
                j += 1;
            }
            i += 1;
        }
        Ok(doc)
    }
}

} // verus!
