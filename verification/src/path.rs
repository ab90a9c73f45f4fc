//! Identities of entities in a snapshot: paths, parent slots and records.

use crate::text::{last_segment, last_segment_of};
use vstd::prelude::*;

verus! {

/// What an [`EntityPath`] stands for: the same three cases over plain values.
pub enum PathId {
    Unique,
    Entity(u64),
    Path(Seq<char>),
}

/// What an [`EntityParent`] stands for.
pub enum ParentId {
    Root,
    Path(Seq<char>),
    Entity(u64),
}

impl ParentId {
    /// The identity of the parent entity. `Root` has none; it maps to `Unique`.
    pub open spec fn path(self) -> PathId {
        match self {
            ParentId::Root => PathId::Unique,
            ParentId::Path(p) => PathId::Path(p),
            ParentId::Entity(e) => PathId::Entity(e),
        }
    }
}

/// Reference to an entity's parent slot.
#[derive(Debug, PartialEq, Eq, Hash)]
pub enum EntityParent {
    Root,
    Path(String),
    Entity(u64),
}

/// Path of an entity. Either an entity number or a joined path.
#[derive(Debug, PartialEq, Eq, Hash)]
pub enum EntityPath {
    /// Unused when serializing.
    ///
    /// In handwritten inputs, empty paths always provide a new entity.
    Unique,
    Entity(u64),
    Path(String),
}

impl View for EntityParent {
    type V = ParentId;

    open spec fn view(&self) -> ParentId {
        match self {
            EntityParent::Root => ParentId::Root,
            EntityParent::Path(p) => ParentId::Path(p@),
            EntityParent::Entity(e) => ParentId::Entity(*e),
        }
    }
}

impl View for EntityPath {
    type V = PathId;

    open spec fn view(&self) -> PathId {
        match self {
            EntityPath::Unique => PathId::Unique,
            EntityPath::Entity(e) => PathId::Entity(*e),
            EntityPath::Path(p) => PathId::Path(p@),
        }
    }
}

impl Clone for EntityParent {
    fn clone(&self) -> (r: Self)
        ensures
            r@ == self@,
    {
        match self {
            EntityParent::Root => EntityParent::Root,
            EntityParent::Path(p) => EntityParent::Path(p.clone()),
            EntityParent::Entity(e) => EntityParent::Entity(*e),
        }
    }
}

impl Clone for EntityPath {
    fn clone(&self) -> (r: Self)
        ensures
            r@ == self@,
    {
        match self {
            EntityPath::Unique => EntityPath::Unique,
            EntityPath::Entity(e) => EntityPath::Entity(*e),
            EntityPath::Path(p) => EntityPath::Path(p.clone()),
        }
    }
}

impl Default for EntityParent {
    fn default() -> (r: Self)
        ensures
            r@ == ParentId::Root,
    {
        EntityParent::Root
    }
}

impl Default for EntityPath {
    fn default() -> (r: Self)
        ensures
            r@ == PathId::Unique,
    {
        EntityPath::Unique
    }
}

impl EntityParent {
    pub fn is_root(&self) -> (r: bool)
        ensures
            r == (self@ is Root),
    {
        match self {
            EntityParent::Root => true,
            _ => false,
        }
    }

    /// Whether both refer to the same parent slot.
    pub fn same(&self, other: &EntityParent) -> (r: bool)
        ensures
            r == (self@ == other@),
    {
        match (self, other) {
            (EntityParent::Root, EntityParent::Root) => true,
            (EntityParent::Entity(a), EntityParent::Entity(b)) => *a == *b,
            (EntityParent::Path(a), EntityParent::Path(b)) => {
                let r = *a == *b;
                assert(r == (a@ == b@));
                r
            },
            _ => false,
        }
    }
}

impl EntityPath {
    pub fn is_unique(&self) -> (r: bool)
        ensures
            r == (self@ is Unique),
    {
        match self {
            EntityPath::Unique => true,
            _ => false,
        }
    }

    /// Whether both are the same identity.
    pub fn same(&self, other: &EntityPath) -> (r: bool)
        ensures
            r == (self@ == other@),
    {
        match (self, other) {
            (EntityPath::Unique, EntityPath::Unique) => true,
            (EntityPath::Entity(a), EntityPath::Entity(b)) => *a == *b,
            (EntityPath::Path(a), EntityPath::Path(b)) => {
                let r = *a == *b;
                assert(r == (a@ == b@));
                r
            },
            _ => false,
        }
    }

    /// Get the last `::` delimited segment of path.
    ///
    /// Only a path has a name.
    pub fn name(&self) -> (r: &str)
        requires
            self@ is Path,
        ensures
            r@ == last_segment(self@->Path_0),
    {
        match self {
            EntityPath::Path(p) => last_segment_of(p.as_str()),
            _ => "",
        }
    }

    /// Get the last `::` delimited segment of path, if this is a path.
    pub fn get_name(&self) -> (r: Option<&str>)
        ensures
            match self@ {
                PathId::Path(p) => r.is_some() && r.unwrap()@ == last_segment(p),
                _ => r.is_none(),
            },
    {
        match self {
            EntityPath::Path(p) => Some(last_segment_of(p.as_str())),
            _ => None,
        }
    }

    /// The identity that a parent slot refers to. `Root` refers to none.
    pub fn from_parent(value: EntityParent) -> (r: EntityPath)
        requires
            !(value@ is Root),
        ensures
            r@ == value@.path(),
    {
        match value {
            EntityParent::Path(p) => EntityPath::Path(p),
            EntityParent::Entity(e) => EntityPath::Entity(e),
            EntityParent::Root => EntityPath::Unique,
        }
    }
}

/// One stored component: where it hangs, who it belongs to, and its data.
#[derive(Debug)]
pub struct PathedValue<V> {
    pub parent: EntityParent,
    pub path: EntityPath,
    pub value: V,
}

/// What a [`PathedValue`] stands for.
pub struct Record<V> {
    pub parent: ParentId,
    pub path: PathId,
    pub value: V,
}

impl<V> View for PathedValue<V> {
    type V = Record<V>;

    open spec fn view(&self) -> Record<V> {
        Record { parent: self.parent@, path: self.path@, value: self.value }
    }
}

/// Provides path names for entities, including non-serialized ones.
#[derive(Debug, PartialEq, Eq)]
pub struct PathName(String);

impl View for PathName {
    type V = Seq<char>;

    /// The name.
    closed spec fn view(&self) -> Seq<char> {
        self.0@
    }
}

impl Clone for PathName {
    fn clone(&self) -> (r: Self)
        ensures
            r@ == self@,
    {
        PathName(self.0.clone())
    }
}

impl PathName {
    pub fn new(s: &'static str) -> (r: Self)
        ensures
            r@ == s@,
    {
        PathName(String::from_str(s))
    }

    pub fn new_owned(s: String) -> (r: Self)
        ensures
            r@ == s@,
    {
        PathName(s)
    }

    pub fn get(&self) -> (r: String)
        ensures
            r@ == self@,
    {
        self.0.clone()
    }

    pub fn set(&mut self, s: String)
        ensures
            final(self)@ == s@,
    {
        self.0 = s;
    }

    pub fn set_static(&mut self, s: &'static str)
        ensures
            final(self)@ == s@,
    {
        self.0 = String::from_str(s);
    }
}

} // verus!
