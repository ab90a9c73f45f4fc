//! The order of the phases of each operation, and what goes in and out.

use crate::failure::Failure;
use crate::host::{despawn, host_view, HostView};
use crate::document::Document;
use crate::methods::{Encoded, SerializationMethod};
use bevy_ecs::system::Commands;
use vstd::prelude::*;

verus! {

/// What is done to the live graph.
#[derive(Debug, Clone, Copy, PartialEq, Eq, Hash, Structural)]
pub enum Operation {
    /// From the live graph to a document.
    Save,
    /// From a document onto the live graph.
    Load,
    /// Removing every registered component.
    Reset,
}

/// A step of an operation. No two steps of one operation overlap.
#[derive(Debug, Clone, Copy, PartialEq, Eq, Hash, Structural)]
pub enum Phase {
    /// Transient names and context are reset.
    Init,
    /// Names are collected from the live graph.
    BuildNames,
    /// Paths are built from the names; a load also reads its input.
    BuildContext,
    /// Each registered type is extracted, injected or removed.
    Run,
    /// The document is written to every sink that is there.
    WriteOutput,
}

/// The phases of an operation, in their order.
pub open spec fn phases_of(operation: Operation) -> Seq<Phase> {
    match operation {
        Operation::Save => seq![
            Phase::Init,
            Phase::BuildNames,
            Phase::BuildContext,
            Phase::Run,
            Phase::WriteOutput,
        ],
        Operation::Load => seq![Phase::Init, Phase::BuildNames, Phase::BuildContext, Phase::Run],
        Operation::Reset => seq![Phase::Run],
    }
}

/// The phases of an operation, in their order.
pub fn phases(operation: Operation) -> (r: Vec<Phase>)
    ensures
        r@ == phases_of(operation),
{
    let mut out: Vec<Phase> = Vec::new();
    match operation {
        Operation::Save => {
            out.push(Phase::Init);
            out.push(Phase::BuildNames);
            out.push(Phase::BuildContext);
            out.push(Phase::Run);
            out.push(Phase::WriteOutput);
        },
        Operation::Load => {
            out.push(Phase::Init);
            out.push(Phase::BuildNames);
            out.push(Phase::BuildContext);
            out.push(Phase::Run);
        },
        Operation::Reset => {
            out.push(Phase::Run);
        },
    }
    assert(out@ =~= phases_of(operation));
    out
}

/// How far one run of an operation has come.
#[derive(Debug, Clone, Copy, PartialEq, Eq, Structural)]
pub struct Pipeline {
    operation: Operation,
    done: u8,
    aborted: bool,
}

impl Pipeline {
    pub closed spec fn operation(&self) -> Operation {
        self.operation
    }

    /// How many phases have been completed.
    pub closed spec fn completed(&self) -> nat {
        self.done as nat
    }

    /// Whether a phase failed, which ends the run.
    pub closed spec fn aborted(&self) -> bool {
        self.aborted
    }

    /// No more phases are completed than the operation has.
    pub closed spec fn wf(&self) -> bool {
        self.done <= phases_of(self.operation).len()
    }

    /// The phase that is due: the first that is not completed, unless the
    /// run was aborted.
    pub open spec fn due(&self) -> Option<Phase> {
        if self.aborted() || self.completed() >= phases_of(self.operation()).len() {
            None
        } else {
            Some(phases_of(self.operation())[self.completed() as int])
        }
    }

    /// A run of `operation` of which nothing is done yet.
    pub fn new(operation: Operation) -> (r: Self)
        ensures
            r.wf(),
            r.operation() == operation,
            r.completed() == 0,
            !r.aborted(),
    {
        Pipeline { operation, done: 0, aborted: false }
    }

    /// The phase that is due, if any.
    pub fn current(&self) -> (r: Option<Phase>)
        requires
            self.wf(),
        ensures
            r == self.due(),
    {
        if self.aborted {
            return None;
        }
        let all = phases(self.operation);
        if (self.done as usize) < all.len() {
            Some(all[self.done as usize])
        } else {
            None
        }
    }

    /// Takes note of how the phase that is due ended. A failure aborts the
    /// run: no later phase becomes due. Without a phase that is due, nothing
    /// changes.
    pub fn complete(&mut self, succeeded: bool)
        requires
            old(self).wf(),
        ensures
            final(self).wf(),
            final(self).operation() == old(self).operation(),
            old(self).due() is None ==> *final(self) == *old(self),
            old(self).due() is Some && succeeded ==> final(self).completed() == old(
                self,
            ).completed() + 1 && !final(self).aborted(),
            old(self).due() is Some && !succeeded ==> final(self).completed() == old(
                self,
            ).completed() && final(self).aborted(),
    {
        if self.current().is_none() {
            return ;
        }
        if succeeded {
            self.done = self.done + 1;
        } else {
            self.aborted = true;
        }
    }

    /// Whether every phase was completed.
    pub fn is_finished(&self) -> (r: bool)
        requires
            self.wf(),
        ensures
            r == (!self.aborted() && self.completed() == phases_of(self.operation()).len()),
    {
        !self.aborted && self.done as usize == phases(self.operation).len()
    }
}

/// Where a load takes its document from.
#[derive(Debug, PartialEq, Eq)]
pub enum InputSource {
    /// The file of that name.
    File(String),
    /// These bytes.
    Bytes(Vec<u8>),
}

/// The one input of a load. Exactly one of a file and a buffer is supplied.
pub fn select_input(file: Option<String>, bytes: Option<Vec<u8>>) -> (r: Result<
    InputSource,
    Failure,
>)
    ensures
        match (file, bytes) {
            (Some(_), Some(_)) => r == Err::<InputSource, Failure>(Failure::AmbiguousInput),
            (Some(f), None) => r == Ok::<InputSource, Failure>(InputSource::File(f)),
            (None, Some(b)) => r == Ok::<InputSource, Failure>(InputSource::Bytes(b)),
            (None, None) => r == Err::<InputSource, Failure>(Failure::MissingInput),
        },
{
    match (file, bytes) {
        (Some(_), Some(_)) => Err(Failure::AmbiguousInput),
        (Some(f), None) => Ok(InputSource::File(f)),
        (None, Some(b)) => Ok(InputSource::Bytes(b)),
        (None, None) => Err(Failure::MissingInput),
    }
}

/// The sinks that a save writes to. Each is optional.
#[derive(Debug, Clone, Copy, PartialEq, Eq, Structural)]
pub struct Sinks {
    /// Whether a file is to be written.
    pub file: bool,
    /// Whether a byte buffer is to be filled.
    pub bytes: bool,
    /// Whether a text is to be produced.
    pub string: bool,
}

/// What a save hands to each sink: nothing for a sink that is not there,
/// else the bytes or the text, or why there are none.
#[derive(Debug)]
pub struct Outputs {
    pub file: Option<Result<Vec<u8>, Failure>>,
    pub bytes: Option<Result<Vec<u8>, Failure>>,
    pub string: Option<Result<String, Failure>>,
}

/// What a sink for bytes gets of what the codec made.
pub open spec fn bytes_for(wanted: bool, encoded: Result<Encoded, Failure>) -> Option<
    Result<Seq<u8>, Failure>,
> {
    if !wanted {
        None
    } else {
        match encoded {
            Ok(e) => Some(Ok(e.bytes())),
            Err(f) => Some(Err(f)),
        }
    }
}

/// What the sink for text gets of what the codec made. A codec without
/// text gives `UnsupportedFormat`, whatever it made.
pub open spec fn string_for(wanted: bool, text: bool, encoded: Result<Encoded, Failure>) -> Option<
    Result<Seq<char>, Failure>,
> {
    if !wanted {
        None
    } else if !text {
        Some(Err(Failure::UnsupportedFormat))
    } else {
        match encoded {
            Ok(Encoded::Text(s)) => Some(Ok(s@)),
            Ok(Encoded::Bytes(_)) => Some(Err(Failure::UnsupportedFormat)),
            Err(f) => Some(Err(f)),
        }
    }
}

/// What a sink for bytes got.
pub open spec fn bytes_in(output: Option<Result<Vec<u8>, Failure>>) -> Option<
    Result<Seq<u8>, Failure>,
> {
    match output {
        None => None,
        Some(Ok(b)) => Some(Ok(b@)),
        Some(Err(f)) => Some(Err(f)),
    }
}

/// What the sink for text got.
pub open spec fn string_in(output: Option<Result<String, Failure>>) -> Option<
    Result<Seq<char>, Failure>,
> {
    match output {
        None => None,
        Some(Ok(s)) => Some(Ok(s@)),
        Some(Err(f)) => Some(Err(f)),
    }
}

/// Hands what the codec made of the document to every sink that is there.
/// Each sink gets its own, whatever became of the others. `text` says
/// whether the codec writes text.
pub fn distribute(encoded: Result<Encoded, Failure>, sinks: Sinks, text: bool) -> (r: Outputs)
    ensures
        bytes_in(r.file) == bytes_for(sinks.file, encoded),
        bytes_in(r.bytes) == bytes_for(sinks.bytes, encoded),
        string_in(r.string) == string_for(sinks.string, text, encoded),
{
    let no_text: Option<Result<String, Failure>> = if !sinks.string {
        None
    } else {
        Some(Err(Failure::UnsupportedFormat))
    };
    match encoded {
        Ok(Encoded::Text(s)) => {
            let file = if sinks.file {
                Some(Ok(s.as_str().as_bytes_vec()))
            } else {
                None
            };
            let bytes = if sinks.bytes {
                Some(Ok(s.as_str().as_bytes_vec()))
            } else {
                None
            };
            let string = if sinks.string && text {
                Some(Ok(s))
            } else {
                no_text
            };
            Outputs { file, bytes, string }
        },
        Ok(Encoded::Bytes(b)) => {
            let file = if sinks.file {
                Some(Ok(b.clone()))
            } else {
                None
            };
            let bytes = if sinks.bytes {
                Some(Ok(b))
            } else {
                None
            };
            Outputs { file, bytes, string: no_text }
        },
        Err(f) => Outputs {
            file: if sinks.file {
                Some(Err(f))
            } else {
                None
            },
            bytes: if sinks.bytes {
                Some(Err(f))
            } else {
                None
            },
            string: if sinks.string && text {
                Some(Err(f))
            } else {
                no_text
            },
        },
    }
}

/// Writes the document to every sink that is there.
pub fn write_outputs<M: SerializationMethod>(document: Document<M::Value>, sinks: Sinks) -> (r:
    Outputs)
    requires
        document.wf(),
    ensures
        exists|encoded: Result<Encoded, Failure>|
            {
                &&& #[trigger] bytes_for(sinks.file, encoded) == bytes_in(r.file)
                &&& bytes_for(sinks.bytes, encoded) == bytes_in(r.bytes)
                &&& string_for(sinks.string, M::human_readable(), encoded) == string_in(r.string)
                &&& match encoded {
                    Ok(e) => (e is Text) == M::human_readable() && M::writes(document@, e.bytes()),
                    Err(f) => f == Failure::Encode,
                }
            },
{
    let encoded = M::encode(document);
    let ghost made = encoded;
    let r = distribute(encoded, sinks, M::is_human_readable());
    assert(bytes_for(sinks.file, made) == bytes_in(r.file));
    r
}

/// Reads the document from the bytes of the input.
pub fn read_input<M: SerializationMethod>(bytes: &Vec<u8>) -> (r: Result<
    Document<M::Value>,
    Failure,
>)
    ensures
        r is Ok <==> M::readable(bytes@),
        match r {
            Ok(doc) => doc.wf() && M::reads(bytes@, doc@),
            Err(e) => e == Failure::Decode,
        },
{
    M::deserialize(bytes.as_slice())
}

/// Those of the first `n` marked entities for which the host gives entity
/// commands, in their order.
pub open spec fn accepted(marked: Seq<u64>, held: Set<u64>, n: nat) -> Seq<u64>
    decreases n,
{
    if n == 0 {
        Seq::empty()
    } else {
        let rest = accepted(marked, held, (n - 1) as nat);
        if held.contains(marked[n - 1]) {
            rest.push(marked[n - 1])
        } else {
            rest
        }
    }
}

/// Despawns the entities that carry the profile's marker: queues the
/// removal of each for which the host gives entity commands, in their
/// order, and returns how many were queued. The profile of all entities has
/// no marker: for it the request is refused and nothing is queued.
pub fn despawn_with_marker(commands: &mut Commands, is_all: bool, marked: &Vec<u64>) -> (r: Result<
    usize,
    Failure,
>)
    ensures
        is_all ==> r == Err::<usize, Failure>(Failure::DespawnAll) && *final(commands) == *old(
            commands,
        ),
        !is_all ==> {
            let before = host_view(*old(commands));
            let done = accepted(marked@, before.held, marked@.len());
            &&& r == Ok::<usize, Failure>(done.len() as usize)
            &&& host_view(*final(commands)) == (HostView {
                despawns: before.despawns + done,
                ..before
            })
            &&& done.len() == 0 ==> *final(commands) == *old(commands)
        },
{
    if is_all {
        return Err(Failure::DespawnAll);
    }
    let ghost before = host_view(*commands);
    let mut queued: usize = 0;
    let mut i: usize = 0;
    while i < marked.len()
        invariant
            i <= marked@.len(),
            before == host_view(*old(commands)),
            queued == accepted(marked@, before.held, i as nat).len(),
            queued <= i,
            host_view(*commands) == (HostView {
                despawns: before.despawns + accepted(marked@, before.held, i as nat),
                ..before
            }),
            queued == 0 ==> *commands == *old(commands),
        decreases marked@.len() - i,
    {
        let ghost done = accepted(marked@, before.held, i as nat);
        if despawn(commands, marked[i]) {
            queued = queued + 1;
            proof {
                assert((before.despawns + done).push(marked@[i as int]) =~= before.despawns
                    + done.push(marked@[i as int]));
            }
        }
        i += 1;
    }
    proof {
        assert(before.despawns + Seq::<u64>::empty() =~= before.despawns);
    }
    Ok(queued)
}

} // verus!
