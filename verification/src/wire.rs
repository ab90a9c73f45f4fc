//! The forms in which identities and records are written by a codec.
//!
//! A codec that writes text gets the untagged form: nothing for no identity,
//! a number for an entity, a text for a path. A codec that writes bytes
//! gets the tagged form, which names its case.

use crate::path::{EntityParent, EntityPath, PathId, PathedValue, Record};
use vstd::prelude::*;
use vstd::std_specs::convert::FromSpecImpl;

verus! {

/// A value that a codec stores for a component.
pub trait SerializeValue {
    /// Whether the value holds nothing, so that it need not be written.
    spec fn empty(&self) -> bool;

    fn is_empty(&self) -> (r: bool)
        ensures
            r == self.empty(),
    ;
}

impl SerializeValue for Vec<u8> {
    open spec fn empty(&self) -> bool {
        self@.len() == 0
    }

    fn is_empty(&self) -> (r: bool) {
        self.len() == 0
    }
}

/// An identity as a text codec writes it.
#[derive(Debug, PartialEq, Eq)]
pub enum EntityPathUntagged {
    Omitted,
    Entity(u64),
    Path(String),
}

/// An identity as a binary codec writes it.
#[derive(Debug, PartialEq, Eq)]
pub enum EntityPathTagged {
    Unique,
    Entity(u64),
    Path(String),
}

impl View for EntityPathUntagged {
    type V = PathId;

    open spec fn view(&self) -> PathId {
        match self {
            EntityPathUntagged::Omitted => PathId::Unique,
            EntityPathUntagged::Entity(e) => PathId::Entity(*e),
            EntityPathUntagged::Path(p) => PathId::Path(p@),
        }
    }
}

impl View for EntityPathTagged {
    type V = PathId;

    open spec fn view(&self) -> PathId {
        match self {
            EntityPathTagged::Unique => PathId::Unique,
            EntityPathTagged::Entity(e) => PathId::Entity(*e),
            EntityPathTagged::Path(p) => PathId::Path(p@),
        }
    }
}

impl Default for EntityPathUntagged {
    fn default() -> (r: Self)
        ensures
            r@ == PathId::Unique,
    {
        EntityPathUntagged::Omitted
    }
}

impl EntityPathUntagged {
    /// Whether this is no identity, which is not written.
    pub fn is_default(&self) -> (r: bool)
        ensures
            r == (self@ is Unique),
    {
        match self {
            EntityPathUntagged::Omitted => true,
            _ => false,
        }
    }

    /// The written form of a parent slot: nothing for `Root`.
    pub fn of_parent(value: &EntityParent) -> (r: Self)
        ensures
            r@ == value@.path(),
    {
        match value {
            EntityParent::Root => EntityPathUntagged::Omitted,
            EntityParent::Path(p) => EntityPathUntagged::Path(p.clone()),
            EntityParent::Entity(e) => EntityPathUntagged::Entity(*e),
        }
    }

    /// The written form of an identity: nothing for `Unique`.
    pub fn of_path(value: &EntityPath) -> (r: Self)
        ensures
            r@ == value@,
    {
        match value {
            EntityPath::Unique => EntityPathUntagged::Omitted,
            EntityPath::Path(p) => EntityPathUntagged::Path(p.clone()),
            EntityPath::Entity(e) => EntityPathUntagged::Entity(*e),
        }
    }

    /// The parent slot that was written: `Root` for nothing.
    pub fn into_parent(self) -> (r: EntityParent)
        ensures
            r@.path() == self@,
            r@ is Root <==> self@ is Unique,
    {
        match self {
            EntityPathUntagged::Omitted => EntityParent::Root,
            EntityPathUntagged::Path(p) => EntityParent::Path(p),
            EntityPathUntagged::Entity(e) => EntityParent::Entity(e),
        }
    }

    /// The identity that was written: `Unique` for nothing.
    pub fn into_path(self) -> (r: EntityPath)
        ensures
            r@ == self@,
    {
        match self {
            EntityPathUntagged::Omitted => EntityPath::Unique,
            EntityPathUntagged::Path(p) => EntityPath::Path(p),
            EntityPathUntagged::Entity(e) => EntityPath::Entity(e),
        }
    }
}

impl EntityPathTagged {
    /// The written form of an identity.
    pub fn of_path(value: &EntityPath) -> (r: Self)
        ensures
            r@ == value@,
    {
        match value {
            EntityPath::Unique => EntityPathTagged::Unique,
            EntityPath::Path(p) => EntityPathTagged::Path(p.clone()),
            EntityPath::Entity(e) => EntityPathTagged::Entity(*e),
        }
    }

    /// The identity that was written.
    pub fn into_path(self) -> (r: EntityPath)
        ensures
            r@ == self@,
    {
        match self {
            EntityPathTagged::Unique => EntityPath::Unique,
            EntityPathTagged::Path(p) => EntityPath::Path(p),
            EntityPathTagged::Entity(e) => EntityPath::Entity(e),
        }
    }
}

impl From<EntityPathUntagged> for EntityParent {
    fn from(value: EntityPathUntagged) -> (r: Self) {
        match value {
            EntityPathUntagged::Omitted => EntityParent::Root,
            EntityPathUntagged::Path(p) => EntityParent::Path(p),
            EntityPathUntagged::Entity(e) => EntityParent::Entity(e),
        }
    }
}

impl FromSpecImpl<EntityPathUntagged> for EntityParent {
    open spec fn obeys_from_spec() -> bool {
        true
    }

    open spec fn from_spec(value: EntityPathUntagged) -> Self {
        match value {
            EntityPathUntagged::Omitted => EntityParent::Root,
            EntityPathUntagged::Path(p) => EntityParent::Path(p),
            EntityPathUntagged::Entity(e) => EntityParent::Entity(e),
        }
    }
}

impl From<EntityPathUntagged> for EntityPath {
    fn from(value: EntityPathUntagged) -> (r: Self) {
        match value {
            EntityPathUntagged::Omitted => EntityPath::Unique,
            EntityPathUntagged::Path(p) => EntityPath::Path(p),
            EntityPathUntagged::Entity(e) => EntityPath::Entity(e),
        }
    }
}

impl FromSpecImpl<EntityPathUntagged> for EntityPath {
    open spec fn obeys_from_spec() -> bool {
        true
    }

    open spec fn from_spec(value: EntityPathUntagged) -> Self {
        match value {
            EntityPathUntagged::Omitted => EntityPath::Unique,
            EntityPathUntagged::Path(p) => EntityPath::Path(p),
            EntityPathUntagged::Entity(e) => EntityPath::Entity(e),
        }
    }
}

impl From<EntityPathTagged> for EntityPath {
    fn from(value: EntityPathTagged) -> (r: Self) {
        match value {
            EntityPathTagged::Unique => EntityPath::Unique,
            EntityPathTagged::Path(p) => EntityPath::Path(p),
            EntityPathTagged::Entity(e) => EntityPath::Entity(e),
        }
    }
}

impl FromSpecImpl<EntityPathTagged> for EntityPath {
    open spec fn obeys_from_spec() -> bool {
        true
    }

    open spec fn from_spec(value: EntityPathTagged) -> Self {
        match value {
            EntityPathTagged::Unique => EntityPath::Unique,
            EntityPathTagged::Path(p) => EntityPath::Path(p),
            EntityPathTagged::Entity(e) => EntityPath::Entity(e),
        }
    }
}

/// Whether a value that a codec stores is empty, so that it is not written.
pub fn cow_is_default<V: SerializeValue>(v: &V) -> (r: bool)
    ensures
        r == v.empty(),
{
    v.is_empty()
}

/// A record as a text codec writes it.
#[derive(Debug)]
pub struct PathedValueSer<V> {
    pub parent: EntityPathUntagged,
    pub path: EntityPathUntagged,
    pub value: V,
}

/// Which fields of a record a text codec writes.
#[derive(Debug, Clone, Copy, PartialEq, Eq, Structural)]
pub struct Written {
    pub parent: bool,
    pub path: bool,
    pub value: bool,
}

impl<V> PathedValueSer<V> {
    /// The record in the form that a text codec writes.
    pub fn of(record: PathedValue<V>) -> (r: Self)
        ensures
            r.parent@ == record@.parent.path(),
            r.path@ == record@.path,
            r.value == record@.value,
    {
        let PathedValue { parent, path, value } = record;
        PathedValueSer {
            parent: EntityPathUntagged::of_parent(&parent),
            path: EntityPathUntagged::of_path(&path),
            value,
        }
    }

    /// The record that was written. A field that was left out stands at its
    /// default: no parent is `Root`, no path is `Unique`.
    pub fn into_record(self) -> (r: PathedValue<V>)
        ensures
            r@.parent.path() == self.parent@,
            r@.parent is Root <==> self.parent@ is Unique,
            r@.path == self.path@,
            r@.value == self.value,
    {
        let PathedValueSer { parent, path, value } = self;
        PathedValue { parent: parent.into_parent(), path: path.into_path(), value }
    }
}

impl<V: SerializeValue> PathedValueSer<V> {
    /// Which fields are written: those that are not at their default.
    pub fn written(&self) -> (r: Written)
        ensures
            r.parent == !(self.parent@ is Unique),
            r.path == !(self.path@ is Unique),
            r.value == !self.value.empty(),
    {
        Written {
            parent: !self.parent.is_default(),
            path: !self.path.is_default(),
            value: !cow_is_default(&self.value),
        }
    }
}

/// The record as a binary codec writes it: parent, path and value, in turn.
pub fn tagged<V>(record: PathedValue<V>) -> (r: (EntityParent, EntityPathTagged, V))
    ensures
        r.0@ == record@.parent,
        r.1@ == record@.path,
        r.2 == record@.value,
{
    let PathedValue { parent, path, value } = record;
    let tagged_path = EntityPathTagged::of_path(&path);
    (parent, tagged_path, value)
}

/// The record that a binary codec wrote.
pub fn from_tagged<V>(parent: EntityParent, path: EntityPathTagged, value: V) -> (r: PathedValue<V>)
    ensures
        r@ == (Record { parent: parent@, path: path@, value }),
{
    PathedValue { parent, path: path.into_path(), value }
}

/// Writing a record as text and reading it back gives the record.
pub proof fn lemma_text_form_round_trip<V>(
    record: PathedValue<V>,
    written: PathedValueSer<V>,
    back: PathedValue<V>,
)
    requires
        written.parent@ == record@.parent.path(),
        written.path@ == record@.path,
        written.value == record@.value,
        back@.parent.path() == written.parent@,
        back@.parent is Root <==> written.parent@ is Unique,
        back@.path == written.path@,
        back@.value == written.value,
    ensures
        back@ == record@,
{
    assert(back@.parent == record@.parent);
}

} // verus!
