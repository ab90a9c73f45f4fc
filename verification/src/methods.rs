//! Codecs: how a stored value becomes bytes or text, and comes back.

use crate::binary::{from_plain, plain_document, plain_names_distinct, to_plain};
use crate::document::Document;
use crate::failure::Failure;
use crate::json::{
    decode_document, document_read, document_readable, document_written, encode_document,
};
use crate::outside::{
    json_from_slice, json_pretty_text, json_shape, json_text, json_to_string,
    json_to_string_pretty, json_value, postcard_bytes, postcard_document, postcard_from_bytes,
    postcard_to_allocvec, ron_from_str, ron_pretty_text, ron_text, ron_to_string,
    ron_to_string_pretty, ron_value,
    str_from_utf8,
};
use crate::path::Record;
use crate::wire::SerializeValue;
use vstd::prelude::*;
use vstd::utf8::{decode_utf8, encode_utf8, encode_utf8_decode_utf8, valid_utf8};

verus! {

impl SerializeValue for serde_json::Value {
    open spec fn empty(&self) -> bool {
        json_shape(*self) is Null
    }

    fn is_empty(&self) -> (r: bool) {
        self.is_null()
    }
}

/// What a codec wrote; `Encode` for its failure.
pub fn written<T, E>(result: Result<T, E>) -> (r: Result<T, Failure>)
    ensures
        match result {
            Ok(t) => r == Ok::<T, Failure>(t),
            Err(_) => r == Err::<T, Failure>(Failure::Encode),
        },
{
    match result {
        Ok(t) => Ok(t),
        Err(_) => Err(Failure::Encode),
    }
}

/// What a codec read; `Decode` for its failure.
pub fn read<T, E>(result: Result<T, E>) -> (r: Result<T, Failure>)
    ensures
        match result {
            Ok(t) => r == Ok::<T, Failure>(t),
            Err(_) => r == Err::<T, Failure>(Failure::Decode),
        },
{
    match result {
        Ok(t) => Ok(t),
        Err(_) => Err(Failure::Decode),
    }
}

/// What a codec made of a document: text, or bytes where it has no text.
#[derive(Debug)]
pub enum Encoded {
    Text(String),
    Bytes(Vec<u8>),
}

impl Encoded {
    /// The bytes that are written.
    pub open spec fn bytes(self) -> Seq<u8> {
        match self {
            Encoded::Text(s) => encode_utf8(s@),
            Encoded::Bytes(b) => b@,
        }
    }
}

/// A way to store documents as bytes, and where the codec has one, as text.
pub trait SerializationMethod {
    /// What the codec stores for one component.
    type Value: SerializeValue;

    /// Whether the codec writes text.
    spec fn human_readable() -> bool;

    /// Whether the codec writes text.
    fn is_human_readable() -> (r: bool)
        ensures
            r == Self::human_readable(),
    ;

    /// Whether `bytes` is what the codec may write for the document.
    spec fn writes(doc: Seq<(Seq<char>, Seq<Record<Self::Value>>)>, bytes: Seq<u8>) -> bool;

    /// Whether the codec reads a document from `bytes`.
    spec fn readable(bytes: Seq<u8>) -> bool;

    /// Whether `doc` is what the codec reads from `bytes`.
    spec fn reads(bytes: Seq<u8>, doc: Seq<(Seq<char>, Seq<Record<Self::Value>>)>) -> bool;

    /// Writes the document: as text where the codec has text, else as
    /// bytes.
    fn encode(document: Document<Self::Value>) -> (r: Result<Encoded, Failure>)
        requires
            document.wf(),
        ensures
            match r {
                Ok(encoded) => (encoded is Text) == Self::human_readable() && Self::writes(
                    document@,
                    encoded.bytes(),
                ),
                Err(e) => e == Failure::Encode,
            },
    ;

    /// Reads a document.
    fn deserialize(bytes: &[u8]) -> (r: Result<Document<Self::Value>, Failure>)
        ensures
            r is Ok <==> Self::readable(bytes@),
            match r {
                Ok(doc) => doc.wf() && Self::reads(bytes@, doc@),
                Err(e) => e == Failure::Decode,
            },
    ;
}

/// The bytes of what a codec wrote.
pub fn encoded_bytes(encoded: Encoded) -> (r: Vec<u8>)
    ensures
        r@ == encoded.bytes(),
{
    match encoded {
        Encoded::Text(s) => s.as_str().as_bytes_vec(),
        Encoded::Bytes(b) => b,
    }
}

/// The text that a codec wrote. What a codec wrote as bytes is no text.
pub fn encoded_string(encoded: Encoded) -> (r: Result<String, Failure>)
    ensures
        match encoded {
            Encoded::Text(s) => r == Ok::<String, Failure>(s),
            Encoded::Bytes(_) => r == Err::<String, Failure>(Failure::UnsupportedFormat),
        },
{
    match encoded {
        Encoded::Text(s) => Ok(s),
        Encoded::Bytes(_) => Err(Failure::UnsupportedFormat),
    }
}

/// The document as bytes.
pub fn serialize_bytes<M: SerializationMethod>(document: Document<M::Value>) -> (r: Result<
    Vec<u8>,
    Failure,
>)
    requires
        document.wf(),
    ensures
        match r {
            Ok(b) => M::writes(document@, b@),
            Err(e) => e == Failure::Encode,
        },
{
    match M::encode(document) {
        Ok(encoded) => Ok(encoded_bytes(encoded)),
        Err(e) => Err(e),
    }
}

/// The document as text. A codec that only writes bytes has none.
pub fn serialize_string<M: SerializationMethod>(document: Document<M::Value>) -> (r: Result<
    String,
    Failure,
>)
    requires
        document.wf(),
    ensures
        match r {
            Ok(s) => M::human_readable() && M::writes(document@, encode_utf8(s@)),
            Err(e) => e == if M::human_readable() {
                Failure::Encode
            } else {
                Failure::UnsupportedFormat
            },
        },
{
    if !M::is_human_readable() {
        return Err(Failure::UnsupportedFormat);
    }
    match M::encode(document) {
        Ok(encoded) => encoded_string(encoded),
        Err(e) => Err(e),
    }
}

/// JSON, indented where `PRETTY` is set.
#[derive(Debug)]
pub struct SerdeJson<const PRETTY: bool>;

/// RON, indented where `PRETTY` is set. Values are held as JSON values.
#[derive(Debug)]
pub struct Ron<const PRETTY: bool>;

/// Postcard, a compact binary form without text.
#[derive(Debug)]
pub struct Postcard;

/// The JSON text of a value, compact or indented.
pub open spec fn json_text_of(item: serde_json::Value, pretty: bool) -> Option<Seq<char>> {
    if pretty {
        json_pretty_text(item)
    } else {
        json_text(item)
    }
}

/// The RON text of a value, compact or indented.
pub open spec fn ron_text_of(item: serde_json::Value, pretty: bool) -> Option<Seq<char>> {
    if pretty {
        ron_pretty_text(item)
    } else {
        ron_text(item)
    }
}

impl<const PRETTY: bool> SerializationMethod for SerdeJson<PRETTY> {
    type Value = serde_json::Value;

    open spec fn human_readable() -> bool {
        true
    }

    fn is_human_readable() -> (r: bool) {
        true
    }

    /// The bytes are the JSON text of a tree that the document is written
    /// as.
    open spec fn writes(doc: Seq<(Seq<char>, Seq<Record<serde_json::Value>>)>, bytes: Seq<u8>) -> bool {
        exists|tree: serde_json::Value|
            #![trigger document_written(doc, tree)]
            document_written(doc, tree) && json_text_of(tree, PRETTY) is Some && bytes
                == encode_utf8(json_text_of(tree, PRETTY).unwrap())
    }

    /// The bytes hold a tree as JSON, and the tree holds a document.
    open spec fn readable(bytes: Seq<u8>) -> bool {
        json_value(bytes) is Some && document_readable(json_value(bytes).unwrap())
    }

    /// The bytes hold a tree as JSON, and the tree holds the document.
    open spec fn reads(bytes: Seq<u8>, doc: Seq<(Seq<char>, Seq<Record<serde_json::Value>>)>) -> bool {
        json_value(bytes) is Some && document_read(json_value(bytes).unwrap(), doc)
    }

    fn encode(document: Document<serde_json::Value>) -> (r: Result<Encoded, Failure>)
        ensures
            r is Err ==> exists|tree: serde_json::Value|
                #![trigger document_written(document@, tree)]
                document_written(document@, tree) && json_text_of(tree, PRETTY) is None,
    {
        let tree = encode_document(document);
        let text = if PRETTY {
            json_to_string_pretty(&tree)
        } else {
            json_to_string(&tree)
        };
        assert(document_written(document@, tree));
        match written(text) {
            Ok(s) => Ok(Encoded::Text(s)),
            Err(e) => Err(e),
        }
    }

    fn deserialize(bytes: &[u8]) -> (r: Result<Document<serde_json::Value>, Failure>) {
        match read(json_from_slice(bytes)) {
            Ok(tree) => decode_document(tree),
            Err(e) => Err(e),
        }
    }
}

impl<const PRETTY: bool> SerializationMethod for Ron<PRETTY> {
    type Value = serde_json::Value;

    open spec fn human_readable() -> bool {
        true
    }

    fn is_human_readable() -> (r: bool) {
        true
    }

    /// The bytes are the RON text of a tree that the document is written
    /// as.
    open spec fn writes(doc: Seq<(Seq<char>, Seq<Record<serde_json::Value>>)>, bytes: Seq<u8>) -> bool {
        exists|tree: serde_json::Value|
            #![trigger document_written(doc, tree)]
            document_written(doc, tree) && ron_text_of(tree, PRETTY) is Some && bytes
                == encode_utf8(ron_text_of(tree, PRETTY).unwrap())
    }

    /// The bytes are the UTF-8 of a text that holds a tree as RON, and the
    /// tree holds a document.
    open spec fn readable(bytes: Seq<u8>) -> bool {
        &&& valid_utf8(bytes)
        &&& ron_value(decode_utf8(bytes)) is Some
        &&& document_readable(ron_value(decode_utf8(bytes)).unwrap())
    }

    /// The bytes are the UTF-8 of a text that holds a tree as RON, and the
    /// tree holds the document.
    open spec fn reads(bytes: Seq<u8>, doc: Seq<(Seq<char>, Seq<Record<serde_json::Value>>)>) -> bool {
        &&& valid_utf8(bytes)
        &&& ron_value(decode_utf8(bytes)) is Some
        &&& document_read(ron_value(decode_utf8(bytes)).unwrap(), doc)
    }

    fn encode(document: Document<serde_json::Value>) -> (r: Result<Encoded, Failure>)
        ensures
            r is Err ==> exists|tree: serde_json::Value|
                #![trigger document_written(document@, tree)]
                document_written(document@, tree) && ron_text_of(tree, PRETTY) is None,
    {
        let tree = encode_document(document);
        let text = if PRETTY {
            ron_to_string_pretty(&tree)
        } else {
            ron_to_string(&tree)
        };
        assert(document_written(document@, tree));
        match written(text) {
            Ok(s) => Ok(Encoded::Text(s)),
            Err(e) => Err(e),
        }
    }

    fn deserialize(bytes: &[u8]) -> (r: Result<Document<serde_json::Value>, Failure>) {
        let text = match str_from_utf8(bytes) {
            Ok(text) => text,
            Err(_) => {
                return Err(Failure::Decode);
            },
        };
        proof {
            encode_utf8_decode_utf8(text@);
        }
        match read(ron_from_str(text)) {
            Ok(tree) => decode_document(tree),
            Err(e) => Err(e),
        }
    }
}

impl SerializationMethod for Postcard {
    type Value = Vec<u8>;

    open spec fn human_readable() -> bool {
        false
    }

    fn is_human_readable() -> (r: bool) {
        false
    }

    /// The bytes are what postcard writes for the document in plain values.
    open spec fn writes(doc: Seq<(Seq<char>, Seq<Record<Vec<u8>>>)>, bytes: Seq<u8>) -> bool {
        postcard_bytes(plain_document(doc)) == Some(bytes)
    }

    /// Postcard reads a document in plain values from the bytes, and no
    /// type name comes twice in it.
    open spec fn readable(bytes: Seq<u8>) -> bool {
        postcard_document(bytes) is Some && plain_names_distinct(postcard_document(bytes).unwrap())
    }

    /// The document in plain values is what postcard reads from the bytes.
    open spec fn reads(bytes: Seq<u8>, doc: Seq<(Seq<char>, Seq<Record<Vec<u8>>>)>) -> bool {
        postcard_document(bytes) == Some(plain_document(doc))
    }

    fn encode(document: Document<Vec<u8>>) -> (r: Result<Encoded, Failure>)
        ensures
            r is Err <==> postcard_bytes(plain_document(document@)) is None,
    {
        let plain = to_plain(document);
        match written(postcard_to_allocvec(&plain)) {
            Ok(b) => Ok(Encoded::Bytes(b)),
            Err(e) => Err(e),
        }
    }

    fn deserialize(bytes: &[u8]) -> (r: Result<Document<Vec<u8>>, Failure>) {
        match read(postcard_from_bytes(bytes)) {
            Ok(plain) => from_plain(plain),
            Err(e) => Err(e),
        }
    }
}

} // verus!
