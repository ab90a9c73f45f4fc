use bevy_salo::document::{Document, Group};
use bevy_salo::methods::{serialize_bytes, serialize_string};
use bevy_salo::schedules::{read_input, select_input, write_outputs};
use bevy_salo::{
    EntityParent, EntityPath, Failure, InputSource, PathedValue, Postcard, Ron, SerdeJson,
    SerializationMethod, Sinks,
};
use serde_json::Value;

fn record<V>(parent: EntityParent, path: EntityPath, value: V) -> PathedValue<V> {
    PathedValue { parent, path, value }
}

fn json_doc() -> Document<Value> {
    let mut unit = serde_json::Map::new();
    unit.insert("name".to_owned(), Value::from("John"));
    unit.insert("hp".to_owned(), Value::from(32));
    let mut doc = Document::new();
    doc.insert_group(
        "Unit".to_owned(),
        vec![record(
            EntityParent::Path("Players".to_owned()),
            EntityPath::Path("Players::John".to_owned()),
            Value::Object(unit),
        )],
    )
    .unwrap();
    doc.insert_group(
        "Item".to_owned(),
        vec![
            record(EntityParent::Entity(5), EntityPath::Entity(9), Value::from("Herb")),
            record(EntityParent::Root, EntityPath::Unique, Value::Null),
        ],
    )
    .unwrap();
    doc
}

fn assert_same_records<V: PartialEq + std::fmt::Debug>(a: &[PathedValue<V>], b: &[PathedValue<V>]) {
    assert_eq!(a.len(), b.len());
    for (x, y) in a.iter().zip(b.iter()) {
        assert_eq!(x.parent, y.parent);
        assert_eq!(x.path, y.path);
        assert_eq!(x.value, y.value);
    }
}

fn group<'a, V>(doc: &'a Document<V>, name: &str) -> &'a Group<V> {
    doc.groups().iter().find(|g| g.name == name).unwrap()
}

#[test]
fn json_leaves_out_what_is_at_its_default() {
    let text = serialize_string::<SerdeJson<false>>(json_doc()).unwrap();
    assert_eq!(
        text,
        "{\"Item\":[{\"parent\":5,\"path\":9,\"value\":\"Herb\"},{}],\
         \"Unit\":[{\"parent\":\"Players\",\"path\":\"Players::John\",\
         \"value\":{\"hp\":32,\"name\":\"John\"}}]}"
    );
    let bytes = serialize_bytes::<SerdeJson<false>>(json_doc()).unwrap();
    assert_eq!(bytes, text.into_bytes());
}

#[test]
fn json_pretty_is_indented() {
    let mut doc = Document::new();
    doc.insert_group("A".to_owned(), vec![record(EntityParent::Root, EntityPath::Entity(1), Value::Null)])
        .unwrap();
    let text = serialize_string::<SerdeJson<true>>(doc).unwrap();
    assert_eq!(text, "{\n  \"A\": [\n    {\n      \"path\": 1\n    }\n  ]\n}");
}

#[test]
fn json_reads_back_what_it_wrote() {
    let bytes = serialize_bytes::<SerdeJson<true>>(json_doc()).unwrap();
    let back = SerdeJson::<true>::deserialize(&bytes).unwrap();
    let doc = json_doc();
    assert_eq!(back.groups().len(), 2);
    assert_same_records(&group(&back, "Unit").records, &group(&doc, "Unit").records);
    assert_same_records(&group(&back, "Item").records, &group(&doc, "Item").records);
}

#[test]
fn json_reads_handwritten_input() {
    let input = br#"{"Item": [{"value": 3, "extra": true}, {"parent": null, "path": "a::b"}]}"#;
    let doc = read_input::<SerdeJson<true>>(&input.to_vec()).unwrap();
    let items = &group(&doc, "Item").records;
    assert_eq!(items.len(), 2);
    assert_eq!(items[0].parent, EntityParent::Root);
    assert_eq!(items[0].path, EntityPath::Unique);
    assert_eq!(items[0].value, Value::from(3));
    assert_eq!(items[1].parent, EntityParent::Root);
    assert_eq!(items[1].path, EntityPath::Path("a::b".to_owned()));
    assert_eq!(items[1].value, Value::Null);
}

#[test]
fn json_refuses_what_is_no_document() {
    let cases: [&[u8]; 7] = [
        b"not json",
        b"[]",
        b"{\"A\": {}}",
        b"{\"A\": [1]}",
        b"{\"A\": [{\"path\": -1}]}",
        b"{\"A\": [{\"parent\": 1.5}]}",
        b"{\"A\": [{\"path\": true}]}",
    ];
    for case in cases {
        assert_eq!(SerdeJson::<true>::deserialize(case).err(), Some(Failure::Decode));
    }
}

#[test]
fn ron_reads_back_what_it_wrote() {
    for pretty in [false, true] {
        let bytes = if pretty {
            serialize_bytes::<Ron<true>>(json_doc()).unwrap()
        } else {
            serialize_bytes::<Ron<false>>(json_doc()).unwrap()
        };
        let back = Ron::<true>::deserialize(&bytes).unwrap();
        let doc = json_doc();
        assert_eq!(back.groups().len(), 2);
        assert_same_records(&group(&back, "Unit").records, &group(&doc, "Unit").records);
        assert_same_records(&group(&back, "Item").records, &group(&doc, "Item").records);
    }
}

#[test]
fn ron_writes_text() {
    let mut doc = Document::new();
    doc.insert_group("A".to_owned(), vec![record(EntityParent::Entity(2), EntityPath::Path("p".to_owned()), Value::Null)])
        .unwrap();
    let text = serialize_string::<Ron<false>>(doc).unwrap();
    assert_eq!(text, "{\"A\":[{\"parent\":2,\"path\":\"p\"}]}");
}

#[test]
fn ron_pretty_ends_its_lines_with_a_line_feed() {
    let mut doc = Document::new();
    doc.insert_group("A".to_owned(), vec![record(EntityParent::Root, EntityPath::Entity(1), Value::Null)])
        .unwrap();
    let text = serialize_string::<Ron<true>>(doc).unwrap();
    assert_eq!(text, "{\n    \"A\": [\n        {\n            \"path\": 1,\n        },\n    ],\n}");
    assert!(!text.contains('\r'));
    assert!(Postcard::is_human_readable() == false);
    assert!(Ron::<true>::is_human_readable());
    assert!(SerdeJson::<false>::is_human_readable());
}

#[test]
fn ron_refuses_bytes_that_are_no_text() {
    assert_eq!(Ron::<true>::deserialize(&[0xff, 0xfe]).err(), Some(Failure::Decode));
    assert_eq!(Ron::<true>::deserialize(b"(((").err(), Some(Failure::Decode));
}

fn binary_doc() -> Document<Vec<u8>> {
    let mut doc = Document::new();
    doc.insert_group(
        "U".to_owned(),
        vec![
            record(EntityParent::Path("P".to_owned()), EntityPath::Entity(300), vec![1, 2]),
            record(EntityParent::Root, EntityPath::Unique, vec![]),
        ],
    )
    .unwrap();
    doc
}

#[test]
fn postcard_names_the_case_of_every_identity() {
    let bytes = serialize_bytes::<Postcard>(binary_doc()).unwrap();
    assert_eq!(
        bytes,
        vec![
            1, // one group
            1, b'U', // its name
            2, // two records
            1, 1, 1, b'P', // parent: some, a path, "P"
            1, 0, 0xac, 0x02, // path: some, an entity, 300
            2, 1, 2, // value
            0, 0, 0, // no parent, no path, no value
        ]
    );
}

#[test]
fn postcard_reads_back_what_it_wrote() {
    let bytes = serialize_bytes::<Postcard>(binary_doc()).unwrap();
    let back = Postcard::deserialize(&bytes).unwrap();
    let doc = binary_doc();
    assert_eq!(back.groups().len(), 1);
    assert_same_records(&group(&back, "U").records, &group(&doc, "U").records);
}

#[test]
fn postcard_has_no_text() {
    assert_eq!(serialize_string::<Postcard>(binary_doc()), Err(Failure::UnsupportedFormat));
}

#[test]
fn postcard_refuses_a_name_that_comes_twice() {
    let bytes = vec![2, 1, b'U', 0, 1, b'U', 0];
    assert_eq!(Postcard::deserialize(&bytes).err(), Some(Failure::Decode));
    assert_eq!(Postcard::deserialize(&[9]).err(), Some(Failure::Decode));
}

#[test]
fn every_sink_is_tried() {
    let all = Sinks { file: true, bytes: true, string: true };
    let out = write_outputs::<SerdeJson<false>>(json_doc(), all);
    let text = serialize_string::<SerdeJson<false>>(json_doc()).unwrap();
    assert_eq!(out.string, Some(Ok(text.clone())));
    assert_eq!(out.bytes, Some(Ok(text.clone().into_bytes())));
    assert_eq!(out.file, Some(Ok(text.into_bytes())));

    let out = write_outputs::<Postcard>(binary_doc(), all);
    let bytes = serialize_bytes::<Postcard>(binary_doc()).unwrap();
    assert_eq!(out.string, Some(Err(Failure::UnsupportedFormat)));
    assert_eq!(out.bytes, Some(Ok(bytes.clone())));
    assert_eq!(out.file, Some(Ok(bytes)));

    let none = Sinks { file: false, bytes: false, string: false };
    let out = write_outputs::<Postcard>(binary_doc(), none);
    assert_eq!(out.string, None);
    assert_eq!(out.bytes, None);
    assert_eq!(out.file, None);
}

#[test]
fn a_load_has_exactly_one_input() {
    assert_eq!(
        select_input(Some("a.json".to_owned()), Some(vec![1])),
        Err(Failure::AmbiguousInput)
    );
    assert_eq!(select_input(None, None), Err(Failure::MissingInput));
    assert_eq!(
        select_input(Some("a.json".to_owned()), None),
        Ok(InputSource::File("a.json".to_owned()))
    );
    assert_eq!(select_input(None, Some(vec![1, 2])), Ok(InputSource::Bytes(vec![1, 2])));
}
