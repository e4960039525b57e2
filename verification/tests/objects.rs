use pdflib::error::StructureError;
use pdflib::graph::ObjectGraph;
use pdflib::object::{bytes_eq, copy_object, Dictionary, Object, Real, Stream, StringFormat};

fn name(text: &str) -> Object {
    Object::Name(text.as_bytes().to_vec())
}

#[test]
fn dictionary_keeps_the_order_of_first_setting() {
    let mut d = Dictionary::new();
    d.set(b"Type".to_vec(), name("Annot"));
    d.set(b"Subtype".to_vec(), name("Link"));
    d.set(b"Type".to_vec(), name("Page"));
    assert_eq!(d.len(), 2);
    assert_eq!(d.key_at(0), &b"Type".to_vec());
    assert_eq!(d.value_at(0), &name("Page"));
    assert_eq!(d.key_at(1), &b"Subtype".to_vec());
    assert_eq!(d.value_at(1), &name("Link"));
}

#[test]
fn setting_a_key_again_makes_no_second_entry() {
    let mut d = Dictionary::new();
    for round in 0..3 {
        for key in [&b"A"[..], &b"URI"[..], &b"Rect"[..], &b""[..]] {
            d.set(key.to_vec(), Object::Integer(round));
        }
    }
    d.distinct();
    assert_eq!(d.len(), 4);
    for i in 0..d.len() {
        for j in 0..i {
            assert_ne!(d.key_at(i), d.key_at(j));
        }
        assert_eq!(d.value_at(i), &Object::Integer(2));
    }
}

#[test]
fn dictionary_lookup() {
    let mut d = Dictionary::new();
    assert!(!d.has(b"A"));
    assert_eq!(d.get(b"A"), Err(StructureError::DictKey));
    d.set(b"A".to_vec(), Object::Integer(1));
    d.set(b"AB".to_vec(), Object::Integer(2));
    assert!(d.has(b"A"));
    assert!(d.has(b"AB"));
    assert!(!d.has(b"B"));
    assert_eq!(d.get(b"A"), Ok(&Object::Integer(1)));
    assert_eq!(d.get(b"AB"), Ok(&Object::Integer(2)));
    assert_eq!(d.get(b""), Err(StructureError::DictKey));
}

#[test]
fn accessors_tell_the_kinds_apart() {
    let array = Object::Array(vec![Object::Null, Object::Boolean(true)]);
    assert_eq!(array.as_array(), Ok(&vec![Object::Null, Object::Boolean(true)]));
    assert_eq!(array.as_dict(), Err(StructureError::ObjectType));
    assert_eq!(Object::Reference((4, 1)).as_reference(), Ok((4, 1)));
    assert_eq!(Object::Integer(4).as_reference(), Err(StructureError::ObjectType));
    assert_eq!(name("XYZ").as_name(), Ok(&b"XYZ"[..]));
    assert_eq!(name("XYZ").as_str(), Err(StructureError::ObjectType));
    let text = Object::String(b"abc".to_vec(), StringFormat::Hexadecimal);
    assert_eq!(text.as_str(), Ok(&b"abc"[..]));
    assert_eq!(text.as_name(), Err(StructureError::ObjectType));
    assert_eq!(
        Object::string_literal(b"abc".to_vec()),
        Object::String(b"abc".to_vec(), StringFormat::Literal)
    );
    assert_eq!(Object::Dictionary(Dictionary::new()).as_dict(), Ok(&Dictionary::new()));
}

#[test]
fn copies_are_equal() {
    let mut inner = Dictionary::new();
    inner.set(b"Length".to_vec(), Object::Integer(3));
    let mut outer = Dictionary::new();
    outer.set(
        b"Kids".to_vec(),
        Object::Array(vec![Object::Reference((1, 0)), Object::Real(Real { bits: 0x3f000000 })]),
    );
    outer.set(
        b"Data".to_vec(),
        Object::Stream(Stream {
            dict: inner,
            content: vec![1, 2, 3],
            allows_compression: true,
            start_position: Some(17),
        }),
    );
    let object = Object::Dictionary(outer);
    assert_eq!(copy_object(&object), object);
    assert_eq!(object.clone(), object);
}

#[test]
fn byte_strings_compare_by_content() {
    assert!(bytes_eq(b"", b""));
    assert!(bytes_eq(b"Kids", b"Kids"));
    assert!(!bytes_eq(b"Kids", b"Kid"));
    assert!(!bytes_eq(b"Kids", b"Kidz"));
}

#[test]
fn references_are_followed_one_level() {
    let mut graph = ObjectGraph::new();
    graph.set_object((1, 0), Object::Reference((2, 0)));
    graph.set_object((2, 0), Object::Integer(7));
    assert_eq!(graph.dereference(&Object::Integer(3)), Ok(&Object::Integer(3)));
    assert_eq!(graph.dereference(&Object::Reference((2, 0))), Ok(&Object::Integer(7)));
    assert_eq!(graph.dereference(&Object::Reference((1, 0))), Ok(&Object::Reference((2, 0))));
    assert_eq!(
        graph.dereference(&Object::Reference((9, 0))),
        Err(StructureError::ObjectNotFound(9, 0))
    );
    assert_eq!(graph.get_object((2, 1)), Err(StructureError::ObjectNotFound(2, 1)));
}

#[test]
fn entries_are_resolved_through_the_graph() {
    let mut graph = ObjectGraph::new();
    graph.set_object((5, 0), name("Target"));
    let mut d = Dictionary::new();
    d.set(b"Direct".to_vec(), Object::Integer(1));
    d.set(b"Indirect".to_vec(), Object::Reference((5, 0)));
    d.set(b"Broken".to_vec(), Object::Reference((6, 0)));
    assert_eq!(graph.get_deref(&d, b"Direct"), Ok(&Object::Integer(1)));
    assert_eq!(graph.get_deref(&d, b"Indirect"), Ok(&name("Target")));
    assert_eq!(graph.get_deref(&d, b"Broken"), Err(StructureError::ObjectNotFound(6, 0)));
    assert_eq!(graph.get_deref(&d, b"Absent"), Err(StructureError::DictKey));
}

#[test]
fn catalog_is_what_root_names() {
    let mut graph = ObjectGraph::new();
    assert_eq!(graph.catalog(), Err(StructureError::DictKey));
    graph.trailer.set(b"Root".to_vec(), Object::Integer(1));
    assert_eq!(graph.catalog(), Err(StructureError::ObjectType));
    graph.trailer.set(b"Root".to_vec(), Object::Reference((1, 0)));
    assert_eq!(graph.catalog(), Err(StructureError::ObjectNotFound(1, 0)));
    graph.set_object((1, 0), Object::Integer(3));
    assert_eq!(graph.catalog(), Err(StructureError::ObjectType));
    let mut catalog = Dictionary::new();
    catalog.set(b"Type".to_vec(), name("Catalog"));
    graph.set_object((1, 0), Object::Dictionary(catalog.clone()));
    assert_eq!(graph.catalog(), Ok(&catalog));
    assert_eq!(graph.get_dictionary((1, 0)), Ok(&catalog));
}

#[test]
fn added_objects_get_the_next_number() {
    let mut graph = ObjectGraph::new();
    graph.max_id = 41;
    let first = graph.add_object(Object::Integer(1));
    let second = graph.add_object(Object::Integer(2));
    assert_eq!(first, (42, 0));
    assert_eq!(second, (43, 0));
    assert_eq!(graph.max_id, 43);
    assert_eq!(graph.get_object((42, 0)), Ok(&Object::Integer(1)));
    assert_eq!(graph.get_object((43, 0)), Ok(&Object::Integer(2)));
    assert_eq!(graph.objects.len(), 2);
}
