//! The document as a tree of JSON values, which text codecs write.
//!
//! A document is an object with one member for each component type, under
//! the type's name: the list of its records. A record is an object with the
//! members `parent`, `path` and `value`, each left out where it is at its
//! default: no parent, no path, a value that is `null`. A parent or a path is
//! a number for an entity and a text for a path.

use crate::document::{groups_view, has_group, names_distinct, records_view, Document, Group};
use crate::failure::Failure;
use crate::outside::{
    entries_map, json_from_parts, json_into_parts, json_shape, keys_distinct, JsonParts, JsonShape,
};
use crate::path::{PathId, PathedValue, Record};
use crate::wire::{EntityPathUntagged, PathedValueSer};
use vstd::prelude::*;

verus! {

/// The key of a record's parent.
pub open spec fn key_parent() -> Seq<char> {
    seq!['p', 'a', 'r', 'e', 'n', 't']
}

/// The key of a record's path.
pub open spec fn key_path() -> Seq<char> {
    seq!['p', 'a', 't', 'h']
}

/// The key of a record's value.
pub open spec fn key_value() -> Seq<char> {
    seq!['v', 'a', 'l', 'u', 'e']
}

/// Whether `v` is how the identity `id` is written: a number for an
/// entity, a text for a path. No identity is not written.
pub open spec fn id_written(id: PathId, v: serde_json::Value) -> bool {
    match id {
        PathId::Unique => false,
        PathId::Entity(n) => json_shape(v) == JsonShape::UInt(n),
        PathId::Path(p) => json_shape(v) == JsonShape::Text(p),
    }
}

/// Whether the member `key` of an object is how `id` is written: absent
/// for no identity.
pub open spec fn field_written(
    m: Map<Seq<char>, serde_json::Value>,
    key: Seq<char>,
    id: PathId,
) -> bool {
    if id is Unique {
        !m.contains_key(key)
    } else {
        m.contains_key(key) && id_written(id, m[key])
    }
}

/// Whether `v` is how the record is written.
pub open spec fn record_written(rec: Record<serde_json::Value>, v: serde_json::Value) -> bool {
    &&& json_shape(v) matches JsonShape::Object(m)
    &&& field_written(m, key_parent(), rec.parent.path())
    &&& field_written(m, key_path(), rec.path)
    &&& if json_shape(rec.value) is Null {
        !m.contains_key(key_value())
    } else {
        m.contains_key(key_value()) && m[key_value()] == rec.value
    }
    &&& forall|k: Seq<char>| #[trigger]
        m.contains_key(k) ==> k == key_parent() || k == key_path() || k == key_value()
}

/// The identity that the member `key` of an object holds: none where the
/// member is absent or `null`. `None` where the member is neither a number
/// that fits, nor a text, nor `null`.
pub open spec fn id_read(m: Map<Seq<char>, serde_json::Value>, key: Seq<char>) -> Option<PathId> {
    if !m.contains_key(key) {
        Some(PathId::Unique)
    } else {
        match json_shape(m[key]) {
            JsonShape::Null => Some(PathId::Unique),
            JsonShape::UInt(n) => Some(PathId::Entity(n)),
            JsonShape::Text(p) => Some(PathId::Path(p)),
            _ => None,
        }
    }
}

/// Whether `v` holds a record: an object whose parent and path, where it
/// has them, are identities. Other members are passed over.
pub open spec fn record_readable(v: serde_json::Value) -> bool {
    &&& json_shape(v) matches JsonShape::Object(m)
    &&& id_read(m, key_parent()) is Some
    &&& id_read(m, key_path()) is Some
}

/// Whether `rec` is the record that `v` holds. A value that is absent is
/// read as `null`.
pub open spec fn record_read(v: serde_json::Value, rec: Record<serde_json::Value>) -> bool {
    &&& json_shape(v) matches JsonShape::Object(m)
    &&& id_read(m, key_parent()) == Some(rec.parent.path())
    &&& id_read(m, key_path()) == Some(rec.path)
    &&& if m.contains_key(key_value()) {
        rec.value == m[key_value()]
    } else {
        json_shape(rec.value) is Null
    }
}

/// Whether `v` is how the records are written: a list with one item for
/// each, in order.
pub open spec fn group_written(recs: Seq<Record<serde_json::Value>>, v: serde_json::Value) -> bool {
    &&& json_shape(v) matches JsonShape::List(items)
    &&& items.len() == recs.len()
    &&& forall|i: int| 0 <= i < recs.len() ==> record_written(recs[i], #[trigger] items[i])
}

/// Whether `v` holds records: a list of which every item holds one.
pub open spec fn group_readable(v: serde_json::Value) -> bool {
    &&& json_shape(v) matches JsonShape::List(items)
    &&& forall|i: int| 0 <= i < items.len() ==> record_readable(#[trigger] items[i])
}

/// Whether `recs` are the records that `v` holds, in order.
pub open spec fn group_read(v: serde_json::Value, recs: Seq<Record<serde_json::Value>>) -> bool {
    &&& json_shape(v) matches JsonShape::List(items)
    &&& items.len() == recs.len()
    &&& forall|i: int| 0 <= i < recs.len() ==> record_read(#[trigger] items[i], recs[i])
}

/// Whether `v` is how the document is written: an object with one member
/// for each group, under its name.
pub open spec fn document_written(
    doc: Seq<(Seq<char>, Seq<Record<serde_json::Value>>)>,
    v: serde_json::Value,
) -> bool {
    &&& json_shape(v) matches JsonShape::Object(m)
    &&& forall|k: Seq<char>| #[trigger] m.contains_key(k) <==> has_group(doc, k)
    &&& forall|i: int| 0 <= i < doc.len() ==> group_written((#[trigger] doc[i]).1, m[doc[i].0])
}

/// Whether `v` holds a document: an object of which every member holds
/// records.
pub open spec fn document_readable(v: serde_json::Value) -> bool {
    &&& json_shape(v) matches JsonShape::Object(m)
    &&& forall|k: Seq<char>| #[trigger] m.contains_key(k) ==> group_readable(m[k])
}

/// Whether `doc` is the document that `v` holds: its groups are the
/// members of the object, in some order.
pub open spec fn document_read(
    v: serde_json::Value,
    doc: Seq<(Seq<char>, Seq<Record<serde_json::Value>>)>,
) -> bool {
    &&& json_shape(v) matches JsonShape::Object(m)
    &&& names_distinct(doc)
    &&& forall|k: Seq<char>| #[trigger] m.contains_key(k) <==> has_group(doc, k)
    &&& forall|i: int| 0 <= i < doc.len() ==> group_read(m[(#[trigger] doc[i]).0], doc[i].1)
}

/// What a member of an object is, where no key comes twice.
pub proof fn lemma_entry(entries: Seq<(String, serde_json::Value)>, i: int)
    requires
        keys_distinct(entries),
        0 <= i < entries.len(),
    ensures
        entries_map(entries).contains_key(entries[i].0@),
        entries_map(entries)[entries[i].0@] == entries[i].1,
{
}

/// The three keys of a record differ.
pub proof fn lemma_keys_differ()
    ensures
        key_parent() != key_path(),
        key_parent() != key_value(),
        key_path() != key_value(),
        "parent"@ == key_parent(),
        "path"@ == key_path(),
        "value"@ == key_value(),
{
    reveal_strlit("parent");
    reveal_strlit("path");
    reveal_strlit("value");
    assert("parent"@ =~= key_parent());
    assert("path"@ =~= key_path());
    assert("value"@ =~= key_value());
    assert(key_parent().len() == 6);
    assert(key_path().len() == 4);
    assert(key_value().len() == 5);
}

/// Takes the member `key` out of the members of an object.
fn take_entry(entries: &mut Vec<(String, serde_json::Value)>, key: &str) -> (r: Option<
    serde_json::Value,
>)
    requires
        keys_distinct(old(entries)@),
    ensures
        keys_distinct(final(entries)@),
        match r {
            Some(v) => entries_map(old(entries)@).contains_key(key@) && v == entries_map(
                old(entries)@,
            )[key@],
            None => !entries_map(old(entries)@).contains_key(key@),
        },
        entries_map(final(entries)@) == entries_map(old(entries)@).remove(key@),
{
    let wanted = String::from_str(key);
    let mut i: usize = 0;
    while i < entries.len()
        invariant
            i <= entries@.len(),
            entries@ == old(entries)@,
            keys_distinct(entries@),
            wanted@ == key@,
            forall|j: int| 0 <= j < i ==> entries@[j].0@ != key@,
        decreases entries@.len() - i,
    {
        let same = entries[i].0 == wanted;
        assert(same == (entries@[i as int].0@ == key@));
        if same {
            proof {
                lemma_entry(entries@, i as int);
            }
            let ghost before = entries@;
            let entry = entries.remove(i);
            proof {
                let after = entries@;
                assert(after == before.remove(i as int));
                assert forall|a: int, b: int|
                    0 <= a < after.len() && 0 <= b < after.len() && a != b implies after[a].0@
                    != after[b].0@ by {
                    let a2 = if a < i {
                        a
                    } else {
                        a + 1
                    };
                    let b2 = if b < i {
                        b
                    } else {
                        b + 1
                    };
                    assert(after[a] == before[a2] && after[b] == before[b2]);
                }
                assert forall|k: Seq<char>| #[trigger]
                    entries_map(after).contains_key(k) == entries_map(before).remove(
                        key@,
                    ).contains_key(k) by {
                    if entries_map(after).contains_key(k) {
                        let a = choose|a: int| 0 <= a < after.len() && after[a].0@ == k;
                        let a2 = if a < i {
                            a
                        } else {
                            a + 1
                        };
                        assert(before[a2].0@ == k);
                    }
                    if entries_map(before).remove(key@).contains_key(k) {
                        let b = choose|b: int| 0 <= b < before.len() && before[b].0@ == k;
                        assert(b != i);
                        let b2 = if b < i {
                            b
                        } else {
                            b - 1
                        };
                        assert(after[b2].0@ == k);
                    }
                }
                assert forall|k: Seq<char>| entries_map(after).contains_key(k) implies entries_map(
                    after,
                )[k] == entries_map(before).remove(key@)[k] by {
                    let a = choose|a: int| 0 <= a < after.len() && after[a].0@ == k;
                    let a2 = if a < i {
                        a
                    } else {
                        a + 1
                    };
                    assert(after[a] == before[a2]);
                    lemma_entry(after, a);
                    lemma_entry(before, a2);
                }
                assert(entries_map(after) =~= entries_map(before).remove(key@));
            }
            return Some(entry.1);
        }
        i += 1;
    }
    proof {
        assert(entries_map(entries@) =~= entries_map(entries@).remove(key@));
    }
    None
}

/// Adds a member to the members of an object.
fn put_entry(entries: &mut Vec<(String, serde_json::Value)>, key: &str, value: serde_json::Value)
    requires
        keys_distinct(old(entries)@),
        !entries_map(old(entries)@).contains_key(key@),
    ensures
        keys_distinct(final(entries)@),
        entries_map(final(entries)@) == entries_map(old(entries)@).insert(key@, value),
{
    let ghost before = entries@;
    entries.push((String::from_str(key), value));
    proof {
        let after = entries@;
        let n = before.len() as int;
        assert forall|a: int, b: int|
            0 <= a < after.len() && 0 <= b < after.len() && a != b implies after[a].0@
            != after[b].0@ by {
            if a < n {
                assert(after[a] == before[a]);
            }
            if b < n {
                assert(after[b] == before[b]);
            }
        }
        assert forall|k: Seq<char>| #[trigger]
            entries_map(after).contains_key(k) == entries_map(before).insert(
                key@,
                value,
            ).contains_key(k) by {
            if entries_map(after).contains_key(k) {
                let a = choose|a: int| 0 <= a < after.len() && after[a].0@ == k;
                if a < n {
                    assert(before[a].0@ == k);
                }
            }
            if entries_map(before).insert(key@, value).contains_key(k) {
                if k == key@ {
                    assert(after[n].0@ == k);
                } else {
                    let b = choose|b: int| 0 <= b < before.len() && before[b].0@ == k;
                    assert(after[b].0@ == k);
                }
            }
        }
        assert forall|k: Seq<char>| entries_map(after).contains_key(k) implies entries_map(
            after,
        )[k] == entries_map(before).insert(key@, value)[k] by {
            let a = choose|a: int| 0 <= a < after.len() && after[a].0@ == k;
            lemma_entry(after, a);
            if a < n {
                assert(after[a] == before[a]);
                lemma_entry(before, a);
            }
        }
        assert(entries_map(after) =~= entries_map(before).insert(key@, value));
    }
}

/// The value that an identity is written as.
fn encode_id(id: EntityPathUntagged) -> (r: serde_json::Value)
    requires
        !(id@ is Unique),
    ensures
        id_written(id@, r),
{
    match id {
        EntityPathUntagged::Entity(n) => json_from_parts(JsonParts::UInt(n)),
        EntityPathUntagged::Path(p) => json_from_parts(JsonParts::Text(p)),
        EntityPathUntagged::Omitted => json_from_parts(JsonParts::Null),
    }
}

/// The object that a record is written as.
pub fn encode_record(record: PathedValue<serde_json::Value>) -> (r: serde_json::Value)
    ensures
        record_written(record@, r),
{
    let PathedValueSer { parent, path, value } = PathedValueSer::of(record);
    let mut entries: Vec<(String, serde_json::Value)> = Vec::new();
    proof {
        lemma_keys_differ();
        assert(entries_map(entries@) =~= Map::<Seq<char>, serde_json::Value>::empty());
    }
    if !parent.is_default() {
        put_entry(&mut entries, "parent", encode_id(parent));
    }
    if !path.is_default() {
        put_entry(&mut entries, "path", encode_id(path));
    }
    if !value.is_null() {
        put_entry(&mut entries, "value", value);
    }
    json_from_parts(JsonParts::Object(entries))
}

/// The list that the records of a group are written as.
pub fn encode_group(records: Vec<PathedValue<serde_json::Value>>) -> (r: serde_json::Value)
    ensures
        group_written(records_view(records@), r),
{
    let mut items: Vec<serde_json::Value> = Vec::new();
    for record in it: records
        invariant
            it.seq() == records@,
            items@.len() == it.index(),
            forall|i: int|
                0 <= i < items@.len() ==> record_written(records@[i]@, #[trigger] items@[i]),
    {
        let ghost before = items@;
        items.push(encode_record(record));
        assert(forall|i: int| 0 <= i < before.len() ==> items@[i] == before[i]);
    }
    json_from_parts(JsonParts::List(items))
}

/// The object that a document is written as.
pub fn encode_document(document: Document<serde_json::Value>) -> (r: serde_json::Value)
    requires
        document.wf(),
    ensures
        document_written(document@, r),
{
    let ghost doc = document@;
    let groups = document.into_groups();
    let mut entries: Vec<(String, serde_json::Value)> = Vec::new();
    proof {
        assert(entries_map(entries@) =~= Map::<Seq<char>, serde_json::Value>::empty());
    }
    for group in it: groups
        invariant
            it.seq() == groups@,
            doc == groups_view(groups@),
            names_distinct(doc),
            keys_distinct(entries@),
            forall|k: Seq<char>| #[trigger]
                entries_map(entries@).contains_key(k) <==> exists|i: int|
                    0 <= i < it.index() && doc[i].0 == k,
            forall|i: int|
                0 <= i < it.index() ==> group_written(
                    (#[trigger] doc[i]).1,
                    entries_map(entries@)[doc[i].0],
                ),
    {
        let ghost n = it.index();
        let ghost before = entries_map(entries@);
        assert(doc[n].0 == group.name@ && doc[n].1 == records_view(group.records@));
        let Group { name, records } = group;
        proof {
            if before.contains_key(name@) {
                let i = choose|i: int| 0 <= i < n && doc[i].0 == name@;
                assert(doc[i].0 == doc[n].0);
            }
        }
        let list = encode_group(records);
        put_entry(&mut entries, name.as_str(), list);
        proof {
            let after = entries_map(entries@);
            assert forall|k: Seq<char>| #[trigger] after.contains_key(k) <==> exists|i: int|
                0 <= i < n + 1 && doc[i].0 == k by {
                if before.contains_key(k) {
                    let i = choose|i: int| 0 <= i < n && doc[i].0 == k;
                    assert(0 <= i < n + 1 && doc[i].0 == k);
                }
                if k == doc[n].0 {
                    assert(0 <= n < n + 1 && doc[n].0 == k);
                }
            }
            assert forall|i: int| 0 <= i < n + 1 implies group_written(
                (#[trigger] doc[i]).1,
                after[doc[i].0],
            ) by {
                if i < n {
                    assert(before.contains_key(doc[i].0));
                    assert(doc[i].0 != doc[n].0);
                }
            }
        }
    }
    let r = json_from_parts(JsonParts::Object(entries));
    proof {
        let m = entries_map(entries@);
        assert forall|k: Seq<char>| #[trigger] m.contains_key(k) <==> has_group(doc, k) by {
            if has_group(doc, k) {
                let i = choose|i: int| 0 <= i < doc.len() && doc[i].0 == k;
                assert(0 <= i < groups@.len() && doc[i].0 == k);
            }
        }
    }
    r
}

/// The identity that a value holds.
fn decode_id(value: Option<serde_json::Value>) -> (r: Result<EntityPathUntagged, Failure>)
    ensures
        match value {
            None => r is Ok && r.unwrap()@ == PathId::Unique,
            Some(v) => match json_shape(v) {
                JsonShape::Null => r is Ok && r.unwrap()@ == PathId::Unique,
                JsonShape::UInt(n) => r is Ok && r.unwrap()@ == PathId::Entity(n),
                JsonShape::Text(p) => r is Ok && r.unwrap()@ == PathId::Path(p),
                _ => r == Err::<EntityPathUntagged, Failure>(Failure::Decode),
            },
        },
{
    match value {
        None => Ok(EntityPathUntagged::Omitted),
        Some(v) => match json_into_parts(v) {
            JsonParts::Null => Ok(EntityPathUntagged::Omitted),
            JsonParts::UInt(n) => Ok(EntityPathUntagged::Entity(n)),
            JsonParts::Text(p) => Ok(EntityPathUntagged::Path(p)),
            _ => Err(Failure::Decode),
        },
    }
}

/// The record that a value holds.
pub fn decode_record(value: serde_json::Value) -> (r: Result<
    PathedValue<serde_json::Value>,
    Failure,
>)
    ensures
        match r {
            Ok(rec) => record_read(value, rec@),
            Err(e) => e == Failure::Decode && !record_readable(value),
        },
{
    let mut entries = match json_into_parts(value) {
        JsonParts::Object(entries) => entries,
        _ => {
            return Err(Failure::Decode);
        },
    };
    let ghost m = entries_map(entries@);
    proof {
        lemma_keys_differ();
    }
    let parent = match decode_id(take_entry(&mut entries, "parent")) {
        Ok(id) => id,
        Err(e) => {
            return Err(e);
        },
    };
    let path = match decode_id(take_entry(&mut entries, "path")) {
        Ok(id) => id,
        Err(e) => {
            return Err(e);
        },
    };
    let value = match take_entry(&mut entries, "value") {
        Some(v) => v,
        None => json_from_parts(JsonParts::Null),
    };
    Ok(PathedValueSer { parent, path, value }.into_record())
}

/// The records that a value holds.
pub fn decode_group(value: serde_json::Value) -> (r: Result<
    Vec<PathedValue<serde_json::Value>>,
    Failure,
>)
    ensures
        match r {
            Ok(recs) => group_read(value, records_view(recs@)),
            Err(e) => e == Failure::Decode && !group_readable(value),
        },
{
    let items = match json_into_parts(value) {
        JsonParts::List(items) => items,
        _ => {
            return Err(Failure::Decode);
        },
    };
    let mut out: Vec<PathedValue<serde_json::Value>> = Vec::new();
    for item in it: items
        invariant
            it.seq() == items@,
            json_shape(value) == JsonShape::List(items@),
            out@.len() == it.index(),
            forall|i: int| 0 <= i < out@.len() ==> record_read(items@[i], (#[trigger] out@[i])@),
    {
        let ghost before = out@;
        match decode_record(item) {
            Ok(rec) => {
                out.push(rec);
                assert(forall|i: int| 0 <= i < before.len() ==> out@[i] == before[i]);
            },
            Err(e) => {
                proof {
                    let k = before.len() as int;
                    let all = json_shape(value)->List_0;
                    assert(all[k] == items@[k]);
                    assert(!record_readable(all[k]));
                    assert(!group_readable(value));
                }
                return Err(e);
            },
        }
    }
    proof {
        assert forall|i: int| 0 <= i < items@.len() implies record_read(
            #[trigger] items@[i],
            records_view(out@)[i],
        ) by {
            assert(record_read(items@[i], out@[i]@));
        }
    }
    Ok(out)
}

/// The document that a value holds.
pub fn decode_document(value: serde_json::Value) -> (r: Result<
    Document<serde_json::Value>,
    Failure,
>)
    ensures
        match r {
            Ok(doc) => doc.wf() && document_read(value, doc@),
            Err(e) => e == Failure::Decode && !document_readable(value),
        },
{
    let entries = match json_into_parts(value) {
        JsonParts::Object(entries) => entries,
        _ => {
            return Err(Failure::Decode);
        },
    };
    let ghost m = entries_map(entries@);
    let mut groups: Vec<Group<serde_json::Value>> = Vec::new();
    for entry in it: entries
        invariant
            it.seq() == entries@,
            keys_distinct(entries@),
            m == entries_map(entries@),
            json_shape(value) == JsonShape::Object(m),
            groups@.len() == it.index(),
            forall|i: int|
                0 <= i < groups@.len() ==> (#[trigger] groups@[i]).name@ == entries@[i].0@
                    && group_read(entries@[i].1, records_view(groups@[i].records@)),
    {
        let ghost before = groups@;
        let ghost n = before.len() as int;
        proof {
            lemma_entry(entries@, n);
        }
        let (name, list) = entry;
        match decode_group(list) {
            Ok(records) => {
                groups.push(Group { name, records });
                assert(forall|i: int| 0 <= i < n ==> groups@[i] == before[i]);
            },
            Err(e) => {
                proof {
                    let k = entries@[n].0@;
                    let members = json_shape(value)->Object_0;
                    assert(members.contains_key(k) && !group_readable(members[k]));
                    assert(!document_readable(value));
                }
                return Err(e);
            },
        }
    }
    let ghost view = groups_view(groups@);
    proof {
        assert forall|i: int, j: int|
            0 <= i < view.len() && 0 <= j < view.len() && i != j implies view[i].0 != view[j].0 by {
            assert(groups@[i].name@ == entries@[i].0@);
            assert(groups@[j].name@ == entries@[j].0@);
        }
        assert(names_distinct(view));
        assert forall|k: Seq<char>| #[trigger] m.contains_key(k) <==> has_group(view, k) by {
            if m.contains_key(k) {
                let i = choose|i: int| 0 <= i < entries@.len() && entries@[i].0@ == k;
                assert(groups@[i].name@ == k);
                assert(view[i].0 == k);
            }
            if has_group(view, k) {
                let i = choose|i: int| 0 <= i < view.len() && view[i].0 == k;
                assert(groups@[i].name@ == entries@[i].0@);
            }
        }
        assert forall|i: int| 0 <= i < view.len() implies group_read(
            m[(#[trigger] view[i]).0],
            view[i].1,
        ) by {
            assert(groups@[i].name@ == entries@[i].0@);
            lemma_entry(entries@, i);
        }
    }
    match Document::from_groups(groups) {
        Ok(doc) => Ok(doc),
        Err(_) => {
            assert(false);
            Err(Failure::Decode)
        },
    }
}

/// Whether two records agree: in parent and path, and in value, where
/// one `null` is as good as another.
pub open spec fn same_record(a: Record<serde_json::Value>, b: Record<serde_json::Value>) -> bool {
    &&& a.parent == b.parent
    &&& a.path == b.path
    &&& a.value == b.value || (json_shape(a.value) is Null && json_shape(b.value) is Null)
}

/// Whether two lists of records agree, item by item.
pub open spec fn same_records(
    a: Seq<Record<serde_json::Value>>,
    b: Seq<Record<serde_json::Value>>,
) -> bool {
    a.len() == b.len() && forall|i: int| 0 <= i < a.len() ==> same_record(#[trigger] a[i], b[i])
}

/// What was written as a record can be read, and reads as that record.
pub proof fn lemma_record_reads_back(
    rec: Record<serde_json::Value>,
    v: serde_json::Value,
    back: Record<serde_json::Value>,
)
    requires
        record_written(rec, v),
    ensures
        record_readable(v),
        record_read(v, back) ==> same_record(rec, back),
{
    let m = json_shape(v)->Object_0;
    assert(id_read(m, key_parent()) == Some(rec.parent.path()));
    assert(id_read(m, key_path()) == Some(rec.path));
}

/// What was written as the records of a group can be read, and reads as
/// those records.
pub proof fn lemma_group_reads_back(
    recs: Seq<Record<serde_json::Value>>,
    v: serde_json::Value,
    back: Seq<Record<serde_json::Value>>,
)
    requires
        group_written(recs, v),
    ensures
        group_readable(v),
        group_read(v, back) ==> same_records(recs, back),
{
    let items = json_shape(v)->List_0;
    assert forall|i: int| 0 <= i < items.len() implies record_readable(#[trigger] items[i]) by {
        lemma_record_reads_back(recs[i], items[i], recs[i]);
    }
    if group_read(v, back) {
        assert forall|i: int| 0 <= i < recs.len() implies same_record(#[trigger] recs[i], back[i]) by {
            assert(record_read(items[i], back[i]));
            lemma_record_reads_back(recs[i], items[i], back[i]);
        }
    }
}

/// What was written as a document can be read, and reads as a document
/// with the same groups: each name once, with the same records.
pub proof fn lemma_document_reads_back(
    doc: Seq<(Seq<char>, Seq<Record<serde_json::Value>>)>,
    v: serde_json::Value,
    back: Seq<(Seq<char>, Seq<Record<serde_json::Value>>)>,
)
    requires
        document_written(doc, v),
    ensures
        document_readable(v),
        document_read(v, back) ==> forall|i: int, j: int|
            0 <= i < doc.len() && 0 <= j < back.len() && (#[trigger] doc[i]).0 == (
            #[trigger] back[j]).0 ==> same_records(doc[i].1, back[j].1),
        document_read(v, back) ==> forall|k: Seq<char>| has_group(doc, k) <==> has_group(back, k),
{
    let m = json_shape(v)->Object_0;
    assert forall|k: Seq<char>| #[trigger] m.contains_key(k) implies group_readable(m[k]) by {
        let i = choose|i: int| 0 <= i < doc.len() && doc[i].0 == k;
        assert(group_written(doc[i].1, m[doc[i].0]));
        lemma_group_reads_back(doc[i].1, m[k], doc[i].1);
    }
    if document_read(v, back) {
        assert forall|i: int, j: int|
            0 <= i < doc.len() && 0 <= j < back.len() && (#[trigger] doc[i]).0 == (
            #[trigger] back[j]).0 implies same_records(doc[i].1, back[j].1) by {
            assert(group_written(doc[i].1, m[doc[i].0]));
            assert(group_read(m[back[j].0], back[j].1));
            lemma_group_reads_back(doc[i].1, m[doc[i].0], back[j].1);
        }
        assert forall|k: Seq<char>| has_group(doc, k) <==> has_group(back, k) by {
            assert(m.contains_key(k) <==> has_group(doc, k));
            assert(m.contains_key(k) <==> has_group(back, k));
        }
    }
}

} // verus!
