//! The codecs of other crates, as far as this library calls them.
//!
//! Nothing in this file is verified: each item states what the codec is
//! trusted to do. A result that depends on the value alone has a name, so
//! that callers can speak of it.

use vstd::prelude::*;
use vstd::string::StringSliceAdditionalSpecFns;
use vstd::utf8::valid_utf8;

verus! {

/// `serde_json::Value`, opaque to the verifier.
#[verifier::external_type_specification]
#[verifier::external_body]
pub struct ExJsonValue(serde_json::Value);

/// `serde_json::Error`, opaque to the verifier.
#[verifier::external_type_specification]
#[verifier::external_body]
pub struct ExJsonError(serde_json::Error);

/// `ron::Error`, opaque to the verifier.
#[verifier::external_type_specification]
#[verifier::external_body]
pub struct ExRonError(ron::Error);

/// `ron::error::SpannedError`, opaque to the verifier.
#[verifier::external_type_specification]
#[verifier::external_body]
pub struct ExRonSpannedError(ron::error::SpannedError);

/// `postcard::Error`, opaque to the verifier.
#[verifier::external_type_specification]
#[verifier::external_body]
pub struct ExPostcardError(postcard::Error);

/// `core::str::Utf8Error`, opaque to the verifier.
#[verifier::external_type_specification]
#[verifier::external_body]
pub struct ExUtf8Error(core::str::Utf8Error);

/// The parts of a JSON value, one level deep.
#[derive(Debug)]
pub enum JsonParts {
    Null,
    /// A number that is a `u64`.
    UInt(u64),
    Text(String),
    List(Vec<serde_json::Value>),
    /// The members of an object, each key once.
    Object(Vec<(String, serde_json::Value)>),
    /// A boolean, or a number that is no `u64`.
    Other(serde_json::Value),
}

/// What a JSON value is, one level deep.
pub enum JsonShape {
    Null,
    UInt(u64),
    Text(Seq<char>),
    List(Seq<serde_json::Value>),
    Object(Map<Seq<char>, serde_json::Value>),
    Other,
}

/// What a `serde_json::Value` is, one level deep: which variant it is, and
/// what that variant holds. A `Number` is `UInt` where `as_u64` gives a
/// number, else `Other`, as is a `Bool`.
pub uninterp spec fn json_shape(value: serde_json::Value) -> JsonShape;

/// Whether no key comes twice.
pub open spec fn keys_distinct(entries: Seq<(String, serde_json::Value)>) -> bool {
    forall|i: int, j: int|
        0 <= i < entries.len() && 0 <= j < entries.len() && i != j ==> entries[i].0@
            != entries[j].0@
}

/// The members as a map from key to value.
pub open spec fn entries_map(entries: Seq<(String, serde_json::Value)>) -> Map<
    Seq<char>,
    serde_json::Value,
> {
    Map::new(
        |k: Seq<char>| exists|i: int| 0 <= i < entries.len() && entries[i].0@ == k,
        |k: Seq<char>| entries[choose|i: int| 0 <= i < entries.len() && entries[i].0@ == k].1,
    )
}

impl JsonParts {
    /// What the value made of these parts is.
    pub open spec fn shape(self) -> JsonShape {
        match self {
            JsonParts::Null => JsonShape::Null,
            JsonParts::UInt(n) => JsonShape::UInt(n),
            JsonParts::Text(s) => JsonShape::Text(s@),
            JsonParts::List(items) => JsonShape::List(items@),
            JsonParts::Object(entries) => JsonShape::Object(entries_map(entries@)),
            JsonParts::Other(_) => JsonShape::Other,
        }
    }
}

/// Taking a `serde_json::Value` apart by its variants. The members of an
/// object come out of its map, which holds each key once.
#[verifier::external_body]
pub(crate) fn json_into_parts(value: serde_json::Value) -> (r: JsonParts)
    ensures
        r.shape() == json_shape(value),
        r matches JsonParts::Other(v) ==> v == value,
        r matches JsonParts::Object(entries) ==> keys_distinct(entries@),
{
    match value {
        serde_json::Value::Null => JsonParts::Null,
        serde_json::Value::String(s) => JsonParts::Text(s),
        serde_json::Value::Array(a) => JsonParts::List(a),
        serde_json::Value::Object(m) => JsonParts::Object(m.into_iter().collect()),
        other => match other.as_u64() {
            Some(n) => JsonParts::UInt(n),
            None => JsonParts::Other(other),
        },
    }
}

/// Making a `serde_json::Value` of its parts: `Value::from` for a number,
/// the variant itself for the others. The members of an object are
/// collected into its map; their keys must differ.
#[verifier::external_body]
pub(crate) fn json_from_parts(parts: JsonParts) -> (r: serde_json::Value)
    requires
        parts matches JsonParts::Object(entries) ==> keys_distinct(entries@),
    ensures
        match parts {
            JsonParts::Other(v) => r == v,
            _ => json_shape(r) == parts.shape(),
        },
{
    match parts {
        JsonParts::Null => serde_json::Value::Null,
        JsonParts::UInt(n) => serde_json::Value::from(n),
        JsonParts::Text(s) => serde_json::Value::String(s),
        JsonParts::List(a) => serde_json::Value::Array(a),
        JsonParts::Object(entries) => serde_json::Value::Object(entries.into_iter().collect()),
        JsonParts::Other(v) => v,
    }
}

/// What `serde_json::to_string` writes for a value; `None` where it fails.
pub uninterp spec fn json_text(value: serde_json::Value) -> Option<Seq<char>>;

/// What `serde_json::to_string_pretty` writes for a value; `None` where it
/// fails.
pub uninterp spec fn json_pretty_text(value: serde_json::Value) -> Option<Seq<char>>;

/// What `serde_json::from_slice` reads from bytes; `None` where it fails.
pub uninterp spec fn json_value(bytes: Seq<u8>) -> Option<serde_json::Value>;

/// What `ron::ser::to_string` writes for a value; `None` where it fails.
pub uninterp spec fn ron_text(value: serde_json::Value) -> Option<Seq<char>>;

/// What `ron::ser::to_string_pretty` writes for a value, with the default
/// layout and `\n` as the line end; `None` where it fails.
pub uninterp spec fn ron_pretty_text(value: serde_json::Value) -> Option<Seq<char>>;

/// What `ron::de::from_str` reads from a text; `None` where it fails.
pub uninterp spec fn ron_value(text: Seq<char>) -> Option<serde_json::Value>;

/// `serde_json::Value::is_null`: whether the value is JSON's `null`.
pub assume_specification[ serde_json::Value::is_null ](value: &serde_json::Value) -> (r: bool)
    ensures
        r == (json_shape(*value) is Null),
;

/// `serde_json::to_string`: the value as compact JSON.
#[verifier::external_body]
pub(crate) fn json_to_string(value: &serde_json::Value) -> (r: Result<String, serde_json::Error>)
    ensures
        match r {
            Ok(s) => json_text(*value) == Some(s@),
            Err(_) => json_text(*value) is None,
        },
{
    serde_json::to_string(value)
}

/// `serde_json::to_string_pretty`: the value as indented JSON.
#[verifier::external_body]
pub(crate) fn json_to_string_pretty(value: &serde_json::Value) -> (r: Result<String, serde_json::Error>)
    ensures
        match r {
            Ok(s) => json_pretty_text(*value) == Some(s@),
            Err(_) => json_pretty_text(*value) is None,
        },
{
    serde_json::to_string_pretty(value)
}

/// `serde_json::from_slice`: the value that the bytes hold as JSON.
#[verifier::external_body]
pub(crate) fn json_from_slice(bytes: &[u8]) -> (r: Result<serde_json::Value, serde_json::Error>)
    ensures
        match r {
            Ok(v) => json_value(bytes@) == Some(v),
            Err(_) => json_value(bytes@) is None,
        },
{
    serde_json::from_slice(bytes)
}

/// `ron::ser::to_string`: the value as compact RON.
#[verifier::external_body]
pub(crate) fn ron_to_string(value: &serde_json::Value) -> (r: Result<String, ron::Error>)
    ensures
        match r {
            Ok(s) => ron_text(*value) == Some(s@),
            Err(_) => ron_text(*value) is None,
        },
{
    ron::ser::to_string(value)
}

/// `ron::ser::to_string_pretty`: the value as indented RON, in the default
/// layout but with `\n` as the line end on every machine.
#[verifier::external_body]
pub(crate) fn ron_to_string_pretty(value: &serde_json::Value) -> (r: Result<String, ron::Error>)
    ensures
        match r {
            Ok(s) => ron_pretty_text(*value) == Some(s@),
            Err(_) => ron_pretty_text(*value) is None,
        },
{
    let layout = ron::ser::PrettyConfig::default().new_line(String::from("\n"));
    ron::ser::to_string_pretty(value, layout)
}

/// `ron::de::from_str`: the value that the text holds as RON.
#[verifier::external_body]
pub(crate) fn ron_from_str(text: &str) -> (r: Result<serde_json::Value, ron::error::SpannedError>)
    ensures
        match r {
            Ok(v) => ron_value(text@) == Some(v),
            Err(_) => ron_value(text@) is None,
        },
{
    ron::de::from_str(text)
}

/// `core::str::from_utf8`: the bytes as a text, where they are UTF-8.
#[verifier::external_body]
pub(crate) fn str_from_utf8(bytes: &[u8]) -> (r: Result<&str, core::str::Utf8Error>)
    ensures
        match r {
            Ok(s) => valid_utf8(bytes@) && s.spec_bytes() == bytes@,
            Err(_) => !valid_utf8(bytes@),
        },
{
    core::str::from_utf8(bytes)
}

/// An identity in plain values: nothing, the number of an entity, or the
/// text of a path.
pub type PlainId = Option<Result<u64, String>>;

/// A record in plain values: parent, path and value.
pub type PlainRecord = (PlainId, PlainId, Vec<u8>);

/// A document in plain values: each type name with its records.
pub type PlainDocument = Vec<(String, Vec<PlainRecord>)>;

/// What a [`PlainId`] stands for.
pub type PlainIdView = Option<Result<u64, Seq<char>>>;

/// What a [`PlainRecord`] stands for.
pub type PlainRecordView = (PlainIdView, PlainIdView, Seq<u8>);

/// What a [`PlainDocument`] stands for.
pub type PlainDocumentView = Seq<(Seq<char>, Seq<PlainRecordView>)>;

/// What an identity in plain values stands for.
pub open spec fn plain_id_view(id: PlainId) -> PlainIdView {
    match id {
        None => None,
        Some(Ok(n)) => Some(Ok(n)),
        Some(Err(p)) => Some(Err(p@)),
    }
}

/// What a list of records in plain values stands for.
pub open spec fn plain_records_view(records: Seq<PlainRecord>) -> Seq<PlainRecordView> {
    records.map_values(|r: PlainRecord| (plain_id_view(r.0), plain_id_view(r.1), r.2@))
}

/// What a document in plain values stands for.
pub open spec fn plain_document_view(document: Seq<(String, Vec<PlainRecord>)>) -> PlainDocumentView {
    document.map_values(|g: (String, Vec<PlainRecord>)| (g.0@, plain_records_view(g.1@)))
}

/// What `postcard::to_allocvec` writes for a document in plain values;
/// `None` where it fails.
pub uninterp spec fn postcard_bytes(document: PlainDocumentView) -> Option<Seq<u8>>;

/// What `postcard::from_bytes` reads as a document in plain values; `None`
/// where it fails.
pub uninterp spec fn postcard_document(bytes: Seq<u8>) -> Option<PlainDocumentView>;

/// `postcard::to_allocvec` on a document in plain values.
#[verifier::external_body]
pub(crate) fn postcard_to_allocvec(document: &PlainDocument) -> (r: Result<
    Vec<u8>,
    postcard::Error,
>)
    ensures
        match r {
            Ok(b) => postcard_bytes(plain_document_view(document@)) == Some(b@),
            Err(_) => postcard_bytes(plain_document_view(document@)) is None,
        },
{
    postcard::to_allocvec(document)
}

/// `postcard::from_bytes` for a document in plain values.
#[verifier::external_body]
pub(crate) fn postcard_from_bytes(bytes: &[u8]) -> (r: Result<PlainDocument, postcard::Error>)
    ensures
        match r {
            Ok(d) => postcard_document(bytes@) == Some(plain_document_view(d@)),
            Err(_) => postcard_document(bytes@) is None,
        },
{
    postcard::from_bytes(bytes)
}

} // verus!
