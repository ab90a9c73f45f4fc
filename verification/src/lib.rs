//! Snapshots of a live object graph.
//!
//! A save captures a forest of entities, with the components attached to
//! them and the edges between parents and children, into a document; a load
//! puts such a document back onto a graph, which may be another one.
//!
//! Entities have no key that outlasts a run. Those that must be found again
//! carry a name, and are then known by their path: the names of the entity
//! and of its named ancestors, joined by `::`.
//!
//! ```text
//! (root)::window::(unnamed)::characters::John::weapon
//! ```
//!
//! The weapon's path is `characters::John::weapon`: what stands above an
//! unnamed ancestor is left out, so that `John` can be put under any entity
//! named `characters`.
//!
//! Paths must be unique, names need not be:
//!
//! ```text
//! // fine: two entities named `weapon`, with different paths
//! characters::John::weapon
//! characters::Jane::weapon
//!
//! // refused: two entities with the path `characters`
//! characters::John::weapon
//! characters::Jane::(unnamed)::characters
//! ```
//!
//! A load reuses the entity that a path names and makes a new one for a
//! record without path, so that named entities are updated and unnamed ones
//! are duplicated.

pub mod binary;
pub mod deserialize;
pub mod document;
pub mod failure;
pub mod hierarchy;
pub mod host;
pub mod index;
pub mod interner;
pub mod json;
pub mod laws;
pub mod methods;
pub mod names;
pub mod outside;
pub mod path;
pub mod registry;
pub mod schedules;
pub mod seed;
pub mod serialize;
pub mod text;
pub mod wire;

pub use deserialize::{DeserializeContext, Placement};
pub use document::{Document, Group};
pub use failure::Failure;
pub use index::PathIndex;
pub use interner::{EnumInterner, EnumValue, FlagInterner, FlagValue};
pub use methods::{Encoded, Postcard, Ron, SerdeJson, SerializationMethod};
pub use names::PathNames;
pub use path::{EntityParent, EntityPath, PathName, PathedValue};
pub use registry::Registry;
pub use schedules::{InputSource, Operation, Outputs, Phase, Pipeline, Sinks};
pub use serialize::{Extracted, SerializeContext};
pub use wire::{EntityPathTagged, EntityPathUntagged, PathedValueSer, SerializeValue};
