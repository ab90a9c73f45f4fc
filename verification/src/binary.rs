//! The document in plain values, which binary codecs write.
//!
//! A binary form does not describe itself, so every parent and path names
//! its case: nothing, the number of an entity, or the text of a path. The
//! case is written as two tags, one in the other: first whether there is an
//! identity, then which of the two it is. That keeps the whole document one
//! value of plain types, which the codec writes and reads in one call.

use crate::document::{groups_view, records_view, Document, Group};
use crate::failure::Failure;
use crate::outside::{
    plain_document_view, plain_id_view, plain_records_view, PlainDocument, PlainDocumentView,
    PlainId, PlainIdView, PlainRecord, PlainRecordView,
};
use crate::path::{EntityParent, PathId, PathedValue, Record};
use crate::wire::{from_tagged, tagged, EntityPathTagged};
use vstd::prelude::*;

verus! {

/// An identity in plain values.
pub open spec fn plain_id(id: PathId) -> PlainIdView {
    match id {
        PathId::Unique => None,
        PathId::Entity(n) => Some(Ok(n)),
        PathId::Path(p) => Some(Err(p)),
    }
}

/// A record in plain values.
pub open spec fn plain_record(rec: Record<Vec<u8>>) -> PlainRecordView {
    (plain_id(rec.parent.path()), plain_id(rec.path), rec.value@)
}

/// The records of a group in plain values.
pub open spec fn plain_records(recs: Seq<Record<Vec<u8>>>) -> Seq<PlainRecordView> {
    recs.map_values(|r: Record<Vec<u8>>| plain_record(r))
}

/// A document in plain values.
pub open spec fn plain_document(doc: Seq<(Seq<char>, Seq<Record<Vec<u8>>>)>) -> PlainDocumentView {
    doc.map_values(|g: (Seq<char>, Seq<Record<Vec<u8>>>)| (g.0, plain_records(g.1)))
}

/// Whether no type name comes twice in a document in plain values.
pub open spec fn plain_names_distinct(doc: PlainDocumentView) -> bool {
    forall|i: int, j: int| 0 <= i < j < doc.len() ==> doc[i].0 != doc[j].0
}

fn id_of_parent(parent: EntityParent) -> (r: PlainId)
    ensures
        plain_id_view(r) == plain_id(parent@.path()),
{
    match parent {
        EntityParent::Root => None,
        EntityParent::Entity(n) => Some(Ok(n)),
        EntityParent::Path(p) => Some(Err(p)),
    }
}

fn id_of_path(path: EntityPathTagged) -> (r: PlainId)
    ensures
        plain_id_view(r) == plain_id(path@),
{
    match path {
        EntityPathTagged::Unique => None,
        EntityPathTagged::Entity(n) => Some(Ok(n)),
        EntityPathTagged::Path(p) => Some(Err(p)),
    }
}

fn parent_of_id(id: PlainId) -> (r: EntityParent)
    ensures
        plain_id(r@.path()) == plain_id_view(id),
{
    match id {
        None => EntityParent::Root,
        Some(Ok(n)) => EntityParent::Entity(n),
        Some(Err(p)) => EntityParent::Path(p),
    }
}

fn path_of_id(id: PlainId) -> (r: EntityPathTagged)
    ensures
        plain_id(r@) == plain_id_view(id),
{
    match id {
        None => EntityPathTagged::Unique,
        Some(Ok(n)) => EntityPathTagged::Entity(n),
        Some(Err(p)) => EntityPathTagged::Path(p),
    }
}

/// The records of a group in plain values.
pub fn to_plain_records(records: Vec<PathedValue<Vec<u8>>>) -> (r: Vec<PlainRecord>)
    ensures
        plain_records_view(r@) == plain_records(records_view(records@)),
{
    let mut out: Vec<PlainRecord> = Vec::new();
    for record in it: records
        invariant
            it.seq() == records@,
            out@.len() == it.index(),
            forall|i: int|
                0 <= i < out@.len() ==> plain_id_view((#[trigger] out@[i]).0) == plain_id(
                    records@[i]@.parent.path(),
                ) && plain_id_view(out@[i].1) == plain_id(records@[i]@.path) && out@[i].2@
                    == records@[i]@.value@,
    {
        let ghost before = out@;
        let (parent, path, value) = tagged(record);
        out.push((id_of_parent(parent), id_of_path(path), value));
        assert(forall|i: int| 0 <= i < before.len() ==> out@[i] == before[i]);
    }
    assert(plain_records_view(out@) =~= plain_records(records_view(records@)));
    out
}

/// The records that a list in plain values holds.
pub fn from_plain_records(records: Vec<PlainRecord>) -> (r: Vec<PathedValue<Vec<u8>>>)
    ensures
        plain_records(records_view(r@)) == plain_records_view(records@),
{
    let mut out: Vec<PathedValue<Vec<u8>>> = Vec::new();
    for record in it: records
        invariant
            it.seq() == records@,
            out@.len() == it.index(),
            forall|i: int|
                0 <= i < out@.len() ==> plain_record((#[trigger] out@[i])@) == (
                    plain_id_view(records@[i].0),
                    plain_id_view(records@[i].1),
                    records@[i].2@,
                ),
    {
        let ghost before = out@;
        let (parent, path, value) = record;
        out.push(from_tagged(parent_of_id(parent), path_of_id(path), value));
        assert(forall|i: int| 0 <= i < before.len() ==> out@[i] == before[i]);
    }
    assert(plain_records(records_view(out@)) =~= plain_records_view(records@));
    out
}

/// The document in plain values.
pub fn to_plain(document: Document<Vec<u8>>) -> (r: PlainDocument)
    ensures
        plain_document_view(r@) == plain_document(document@),
{
    let groups = document.into_groups();
    let mut out: PlainDocument = Vec::new();
    for group in it: groups
        invariant
            it.seq() == groups@,
            out@.len() == it.index(),
            forall|i: int|
                0 <= i < out@.len() ==> (#[trigger] out@[i]).0@ == groups@[i].name@
                    && plain_records_view(out@[i].1@) == plain_records(
                    records_view(groups@[i].records@),
                ),
    {
        let ghost before = out@;
        let Group { name, records } = group;
        out.push((name, to_plain_records(records)));
        assert(forall|i: int| 0 <= i < before.len() ==> out@[i] == before[i]);
    }
    assert(plain_document_view(out@) =~= plain_document(groups_view(groups@)));
    out
}

/// The document that plain values hold. A type name that comes twice is
/// refused.
pub fn from_plain(plain: PlainDocument) -> (r: Result<Document<Vec<u8>>, Failure>)
    ensures
        match r {
            Ok(doc) => doc.wf() && plain_document(doc@) == plain_document_view(plain@)
                && plain_names_distinct(plain_document_view(plain@)),
            Err(e) => e == Failure::Decode && !plain_names_distinct(plain_document_view(plain@)),
        },
{
    let mut groups: Vec<Group<Vec<u8>>> = Vec::new();
    for entry in it: plain
        invariant
            it.seq() == plain@,
            groups@.len() == it.index(),
            forall|i: int|
                0 <= i < groups@.len() ==> (#[trigger] groups@[i]).name@ == plain@[i].0@
                    && plain_records(records_view(groups@[i].records@)) == plain_records_view(
                    plain@[i].1@,
                ),
    {
        let ghost before = groups@;
        let (name, records) = entry;
        groups.push(Group { name, records: from_plain_records(records) });
        assert(forall|i: int| 0 <= i < before.len() ==> groups@[i] == before[i]);
    }
    let ghost view = groups_view(groups@);
    assert(plain_document(view) =~= plain_document_view(plain@));
    let ghost pv = plain_document_view(plain@);
    match Document::from_groups(groups) {
        Ok(doc) => {
            proof {
                assert forall|i: int, j: int| 0 <= i < j < pv.len() implies pv[i].0 != pv[j].0 by {
                    assert(view[i].0 == pv[i].0 && view[j].0 == pv[j].0);
                }
            }
            Ok(doc)
        },
        Err(_) => {
            proof {
                let (i, j) = choose|i: int, j: int|
                    0 <= i < view.len() && 0 <= j < view.len() && i != j && view[i].0 == view[j].0;
                assert(view[i].0 == pv[i].0 && view[j].0 == pv[j].0);
                if i < j {
                    assert(0 <= i < j < pv.len() && pv[i].0 == pv[j].0);
                } else {
                    assert(0 <= j < i < pv.len() && pv[j].0 == pv[i].0);
                }
            }
            Err(Failure::Decode)
        },
    }
}

/// The plain form keeps everything: two documents with one plain form are
/// the same.
pub proof fn lemma_plain_is_faithful(
    a: Seq<(Seq<char>, Seq<Record<Vec<u8>>>)>,
    b: Seq<(Seq<char>, Seq<Record<Vec<u8>>>)>,
    i: int,
    j: int,
)
    requires
        plain_document(a) == plain_document(b),
        0 <= i < a.len(),
        0 <= j < a[i].1.len(),
    ensures
        a.len() == b.len(),
        a[i].0 == b[i].0,
        a[i].1.len() == b[i].1.len(),
        a[i].1[j].parent == b[i].1[j].parent,
        a[i].1[j].path == b[i].1[j].path,
        a[i].1[j].value@ == b[i].1[j].value@,
{
    assert(plain_document(a).len() == a.len());
    assert(plain_document(b).len() == b.len());
    assert(plain_document(a)[i] == plain_document(b)[i]);
    assert(plain_records(a[i].1).len() == a[i].1.len());
    assert(plain_records(b[i].1).len() == b[i].1.len());
    assert(plain_records(a[i].1)[j] == plain_records(b[i].1)[j]);
}

} // verus!
