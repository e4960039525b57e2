use pdflib::destination::{
    array_of_named_dest_obj, as_name_or_str, collect_named_destinations, named_dest_of_object,
    NamedDestination, DEFAULT_ANCHOR,
};
use pdflib::error::{PageTarget, PdfLibError, StructureError};
use pdflib::graph::ObjectGraph;
use pdflib::object::{Dictionary, Number, Object, Real, StringFormat};
use pdflib::pages::PageIndex;

fn name(s: &str) -> Object {
    Object::Name(s.as_bytes().to_vec())
}

fn real_object(x: f32) -> Object {
    Object::Real(Real { bits: x.to_bits() })
}

fn as_f32(n: Number) -> f32 {
    match n {
        Number::Integer(i) => i as f32,
        Number::Real(x) => f32::from_bits(x.bits),
    }
}

fn two_pages() -> (ObjectGraph, PageIndex) {
    let mut graph = ObjectGraph::new();
    graph.set_object((10, 0), Object::Dictionary(Dictionary::new()));
    graph.set_object((11, 0), Object::Dictionary(Dictionary::new()));
    (graph, PageIndex::new(&vec![(10, 0), (11, 0)]))
}

#[test]
fn xyz_array_gives_its_position() {
    let (graph, index) = two_pages();
    let array = Object::Array(vec![Object::Reference((11, 0)), name("XYZ"), real_object(100.0), real_object(200.0)]);
    let dest = named_dest_of_object(&graph, &index, &name("intro"), &array).unwrap();
    assert_eq!(as_f32(dest.left), 100.0);
    assert_eq!(as_f32(dest.top), 200.0);
    assert_eq!(dest.left, Number::Real(Real { bits: 0x42c80000 }));
    assert_eq!(dest.top, Number::Real(Real { bits: 0x43480000 }));
    assert_eq!(dest.page, (11, 0));
    assert_eq!(dest.page_num, 2);
    assert_eq!(dest.name, "intro");
}

#[test]
fn fit_array_gives_the_default_position() {
    let (graph, index) = two_pages();
    let array = Object::Array(vec![Object::Reference((10, 0)), name("Fit")]);
    let dest = named_dest_of_object(&graph, &index, &name("d"), &array).unwrap();
    assert_eq!(as_f32(dest.left), 10.0);
    assert_eq!(as_f32(dest.top), 10.0);
    assert_eq!(dest.left, Number::Integer(DEFAULT_ANCHOR));
    assert_eq!(dest.page_num, 1);
}

#[test]
fn short_array_names_no_page() {
    let (graph, index) = two_pages();
    let one = Object::Array(vec![Object::Reference((10, 0))]);
    assert_eq!(
        named_dest_of_object(&graph, &index, &name("d"), &one),
        Err(PdfLibError::InvalidPageId(PageTarget::Missing))
    );
    let none = Object::Array(vec![]);
    assert_eq!(
        named_dest_of_object(&graph, &index, &name("d"), &none),
        Err(PdfLibError::InvalidPageId(PageTarget::Missing))
    );
}

#[test]
fn xyz_with_too_few_items_gives_the_default_position() {
    let (graph, index) = two_pages();
    let array = Object::Array(vec![Object::Reference((10, 0)), name("XYZ"), real_object(100.0)]);
    let dest = named_dest_of_object(&graph, &index, &name("d"), &array).unwrap();
    assert_eq!(dest.left, Number::Integer(10));
    assert_eq!(dest.top, Number::Integer(10));
}

#[test]
fn position_of_another_kind_is_not_read() {
    let (graph, index) = two_pages();
    let array = Object::Array(vec![
        Object::Reference((10, 0)),
        name("FitR"),
        real_object(1.0),
        real_object(2.0),
        real_object(3.0),
        real_object(4.0),
    ]);
    let dest = named_dest_of_object(&graph, &index, &name("d"), &array).unwrap();
    assert_eq!(dest.left, Number::Integer(10));
    assert_eq!(dest.top, Number::Integer(10));
}

#[test]
fn integers_and_missing_numbers_in_a_position() {
    let (graph, index) = two_pages();
    let array = Object::Array(vec![
        Object::Reference((10, 0)),
        name("XYZ"),
        Object::Integer(72),
        Object::Null,
        Object::Integer(0),
    ]);
    let dest = named_dest_of_object(&graph, &index, &name("d"), &array).unwrap();
    assert_eq!(dest.left, Number::Integer(72));
    assert_eq!(as_f32(dest.left), 72.0);
    assert_eq!(dest.top, Number::Integer(10));
}

#[test]
fn destination_behind_a_reference_and_in_a_dictionary() {
    let (mut graph, index) = two_pages();
    let array = Object::Array(vec![Object::Reference((11, 0)), name("XYZ"), real_object(0.5), real_object(0.5), Object::Null]);
    let mut holder = Dictionary::new();
    holder.set(b"D".to_vec(), Object::Reference((21, 0)));
    graph.set_object((20, 0), Object::Dictionary(holder));
    graph.set_object((21, 0), array);
    let dest = named_dest_of_object(&graph, &index, &name("d"), &Object::Reference((20, 0))).unwrap();
    assert_eq!(dest.page, (11, 0));
    assert_eq!(dest.left, Number::Real(Real { bits: 0x3f000000 }));
}

#[test]
fn dictionary_without_an_array_is_mistyped() {
    let (graph, index) = two_pages();
    let mut holder = Dictionary::new();
    holder.set(b"S".to_vec(), name("GoTo"));
    assert_eq!(
        named_dest_of_object(&graph, &index, &name("d"), &Object::Dictionary(holder.clone())),
        Err(PdfLibError::PDFError(StructureError::ObjectType))
    );
    assert_eq!(
        array_of_named_dest_obj(&graph, &Object::Dictionary(holder)),
        Err(PdfLibError::PDFError(StructureError::ObjectType))
    );
    assert_eq!(
        array_of_named_dest_obj(&graph, &Object::Integer(1)),
        Err(PdfLibError::PDFError(StructureError::ObjectType))
    );
}

#[test]
fn broken_reference_is_a_structure_error() {
    let (graph, index) = two_pages();
    assert_eq!(
        named_dest_of_object(&graph, &index, &name("d"), &Object::Reference((99, 0))),
        Err(PdfLibError::PDFError(StructureError::ObjectNotFound(99, 0)))
    );
}

#[test]
fn page_must_be_a_reference_and_kind_a_name() {
    let (graph, index) = two_pages();
    let no_reference = Object::Array(vec![Object::Integer(0), name("Fit")]);
    assert_eq!(
        named_dest_of_object(&graph, &index, &name("d"), &no_reference),
        Err(PdfLibError::PDFError(StructureError::ObjectType))
    );
    let no_name = Object::Array(vec![Object::Reference((10, 0)), Object::Integer(0)]);
    assert_eq!(
        named_dest_of_object(&graph, &index, &name("d"), &no_name),
        Err(PdfLibError::PDFError(StructureError::ObjectType))
    );
}

#[test]
fn page_outside_the_index_is_invalid() {
    let (graph, index) = two_pages();
    let array = Object::Array(vec![Object::Reference((12, 0)), name("Fit")]);
    assert_eq!(
        named_dest_of_object(&graph, &index, &name("d"), &array),
        Err(PdfLibError::InvalidPageId(PageTarget::Unknown(12, 0)))
    );
}

#[test]
fn key_is_a_name_or_a_string() {
    let (graph, index) = two_pages();
    let array = Object::Array(vec![Object::Reference((10, 0)), name("Fit")]);
    let utf16 = Object::String(vec![0xFE, 0xFF, 0x00, 0x41], StringFormat::Hexadecimal);
    assert_eq!(named_dest_of_object(&graph, &index, &utf16, &array).unwrap().name, "A");
    assert_eq!(named_dest_of_object(&graph, &index, &name("sec.1"), &array).unwrap().name, "sec.1");
    assert_eq!(
        named_dest_of_object(&graph, &index, &Object::Integer(1), &array),
        Err(PdfLibError::PDFError(StructureError::ObjectType))
    );
    assert_eq!(
        named_dest_of_object(&graph, &index, &Object::Name(vec![0xC3]), &array),
        Err(PdfLibError::NDConvError)
    );
    assert_eq!(
        named_dest_of_object(&graph, &index, &Object::Name(vec![0xFF, 0xFE, 0x00]), &array),
        Err(PdfLibError::NDConvError16)
    );
    assert_eq!(as_name_or_str(&name("n")), Ok(&b"n"[..]));
    assert_eq!(as_name_or_str(&utf16), Ok(&[0xFE, 0xFF, 0x00, 0x41][..]));
}

#[test]
fn the_name_is_read_before_the_destination() {
    let (graph, index) = two_pages();
    assert_eq!(
        named_dest_of_object(&graph, &index, &Object::Null, &Object::Reference((99, 0))),
        Err(PdfLibError::PDFError(StructureError::ObjectType))
    );
}

fn catalog_graph(catalog: Dictionary) -> (ObjectGraph, PageIndex) {
    let (mut graph, index) = two_pages();
    graph.trailer.set(b"Root".to_vec(), Object::Reference((1, 0)));
    graph.set_object((1, 0), Object::Dictionary(catalog));
    (graph, index)
}

fn fit(page: u32) -> Object {
    Object::Array(vec![Object::Reference((page, 0)), name("Fit")])
}

#[test]
fn destinations_of_the_name_tree() {
    let mut tree = Dictionary::new();
    tree.set(
        b"Names".to_vec(),
        Object::Array(vec![
            Object::string_literal(b"one".to_vec()),
            fit(10),
            Object::string_literal(b"two".to_vec()),
            fit(11),
        ]),
    );
    let mut names = Dictionary::new();
    names.set(b"Dests".to_vec(), Object::Reference((3, 0)));
    let mut catalog = Dictionary::new();
    catalog.set(b"Names".to_vec(), Object::Reference((2, 0)));
    let (mut graph, index) = catalog_graph(catalog);
    graph.set_object((2, 0), Object::Dictionary(names));
    graph.set_object((3, 0), Object::Dictionary(tree));
    let dests = collect_named_destinations(&graph, &index).unwrap();
    assert_eq!(
        dests,
        vec![
            NamedDestination {
                left: Number::Integer(10),
                top: Number::Integer(10),
                page: (10, 0),
                page_num: 1,
                name: "one".to_string(),
            },
            NamedDestination {
                left: Number::Integer(10),
                top: Number::Integer(10),
                page: (11, 0),
                page_num: 2,
                name: "two".to_string(),
            },
        ]
    );
}

#[test]
fn the_name_tree_is_preferred_and_the_flat_dictionary_not_read() {
    let mut tree = Dictionary::new();
    tree.set(b"Names".to_vec(), Object::Array(vec![name("new"), fit(10)]));
    let mut names = Dictionary::new();
    names.set(b"Dests".to_vec(), Object::Dictionary(tree));
    let mut flat = Dictionary::new();
    flat.set(b"old".to_vec(), Object::Integer(0));
    let mut catalog = Dictionary::new();
    catalog.set(b"Dests".to_vec(), Object::Dictionary(flat));
    catalog.set(b"Names".to_vec(), Object::Dictionary(names));
    let (graph, index) = catalog_graph(catalog);
    let dests = collect_named_destinations(&graph, &index).unwrap();
    assert_eq!(dests.len(), 1);
    assert_eq!(dests[0].name, "new");
}

#[test]
fn the_flat_dictionary_is_the_fallback() {
    let mut flat = Dictionary::new();
    flat.set(b"b".to_vec(), fit(11));
    flat.set(b"a".to_vec(), Object::Reference((5, 0)));
    let mut names = Dictionary::new();
    names.set(b"EmbeddedFiles".to_vec(), Object::Dictionary(Dictionary::new()));
    let mut catalog = Dictionary::new();
    catalog.set(b"Names".to_vec(), Object::Dictionary(names));
    catalog.set(b"Dests".to_vec(), Object::Reference((4, 0)));
    let (mut graph, index) = catalog_graph(catalog);
    graph.set_object((4, 0), Object::Dictionary(flat));
    graph.set_object((5, 0), fit(10));
    let dests = collect_named_destinations(&graph, &index).unwrap();
    assert_eq!(dests.len(), 2);
    assert_eq!((dests[0].name.as_str(), dests[0].page_num), ("b", 2));
    assert_eq!((dests[1].name.as_str(), dests[1].page_num), ("a", 1));
}

#[test]
fn no_destinations_is_no_error() {
    let (graph, index) = catalog_graph(Dictionary::new());
    assert_eq!(collect_named_destinations(&graph, &index), Ok(vec![]));
}

#[test]
fn no_catalog_is_an_error() {
    let (graph, index) = two_pages();
    assert_eq!(
        collect_named_destinations(&graph, &index),
        Err(PdfLibError::PDFError(StructureError::DictKey))
    );
}

#[test]
fn the_first_destination_that_fails_stops_the_collection() {
    let mut flat = Dictionary::new();
    flat.set(b"good".to_vec(), fit(10));
    flat.set(b"short".to_vec(), Object::Array(vec![]));
    flat.set(b"mistyped".to_vec(), Object::Integer(3));
    let mut catalog = Dictionary::new();
    catalog.set(b"Dests".to_vec(), Object::Dictionary(flat));
    let (graph, index) = catalog_graph(catalog);
    assert_eq!(
        collect_named_destinations(&graph, &index),
        Err(PdfLibError::InvalidPageId(PageTarget::Missing))
    );
}
