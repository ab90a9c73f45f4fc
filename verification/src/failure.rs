//! Why a save, load or reset stops.

use vstd::prelude::*;

verus! {

/// A broken invariant of the snapshot, or a step that could not be done.
#[derive(Debug, Clone, Copy, PartialEq, Eq, Structural)]
pub enum Failure {
    /// An entity that already has a name was given a different one.
    RenameConflict,
    /// Two distinct entities resolve to the same path.
    DuplicatePath,
    /// A serialized entity's parent is neither named nor selected.
    Orphaned,
    /// A type name occurs twice in one document.
    DuplicateTypeName,
    /// A resource's group holds more than one record.
    MultipleResources,
    /// The chain of named ancestors does not end.
    CyclicHierarchy,
    /// Both a file and a byte buffer were supplied as input.
    AmbiguousInput,
    /// Neither a file nor a byte buffer was supplied as input.
    MissingInput,
    /// A text was asked of a codec that only writes bytes.
    UnsupportedFormat,
    /// Every entity was to be despawned, which is never done.
    DespawnAll,
    /// The codec could not encode the value.
    Encode,
    /// The codec could not decode the input.
    Decode,
}

} // verus!
